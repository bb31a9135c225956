use vstd::prelude::*;

verus! {

/// The Unicode white-space code points, the set that `str::split_whitespace`
/// and friends go by.
pub open spec fn is_ws(c: char) -> bool {
    ||| c == ' '
    ||| c == '\t'
    ||| c == '\n'
    ||| c == '\u{b}'
    ||| c == '\u{c}'
    ||| c == '\r'
    ||| c == '\u{85}'
    ||| c == '\u{a0}'
    ||| c == '\u{1680}'
    ||| ('\u{2000}' <= c && c <= '\u{200a}')
    ||| c == '\u{2028}'
    ||| c == '\u{2029}'
    ||| c == '\u{202f}'
    ||| c == '\u{205f}'
    ||| c == '\u{3000}'
}

/// Emphasis and punctuation marks that end a run worth separating from the
/// text that follows.
pub open spec fn is_emphasis(c: char) -> bool {
    ||| c == 'ㅋ'
    ||| c == 'ㅎ'
    ||| c == 'ㅜ'
    ||| c == 'ㅠ'
    ||| c == 'ㄷ'
    ||| c == '!'
    ||| c == '.'
    ||| c == ','
    ||| c == '?'
}

fn ws_char(c: char) -> (r: bool)
    ensures
        r == is_ws(c),
{
    c == ' ' || c == '\t' || c == '\n' || c == '\u{b}' || c == '\u{c}' || c == '\r'
        || c == '\u{85}' || c == '\u{a0}' || c == '\u{1680}' || ('\u{2000}' <= c && c
        <= '\u{200a}') || c == '\u{2028}' || c == '\u{2029}' || c == '\u{202f}' || c == '\u{205f}'
        || c == '\u{3000}'
}

fn emphasis_char(c: char) -> (r: bool)
    ensures
        r == is_emphasis(c),
{
    c == 'ㅋ' || c == 'ㅎ' || c == 'ㅜ' || c == 'ㅠ' || c == 'ㄷ' || c == '!' || c == '.' || c == ','
        || c == '?'
}

/// Relies on `String::push`: appends one character at the end.
#[verifier::external_body]
fn push_char(s: &mut String, c: char)
    ensures
        final(s)@ == old(s)@.push(c),
{
    s.push(c)
}

/// What remains of `s` once every run of an identical character is cut down
/// to its first `n` occurrences, scanning left to right with `prev` the
/// character last seen and `rep` how often it has already repeated.
pub open spec fn derepeat_rec(s: Seq<char>, prev: Option<char>, rep: nat, n: nat) -> Seq<char>
    decreases s.len(),
{
    if s.len() == 0 {
        Seq::empty()
    } else {
        let c = s[0];
        let rep2: nat = if prev == Some(c) {
            rep + 1
        } else {
            0
        };
        let rest = derepeat_rec(s.drop_first(), Some(c), rep2, n);
        if rep2 < n {
            seq![c] + rest
        } else {
            rest
        }
    }
}

/// `s` with every run of an identical character cut down to at most `n`
/// occurrences.
pub open spec fn derepeat_spec(s: Seq<char>, n: nat) -> Seq<char> {
    derepeat_rec(s, None, 0, n)
}

/// Cut every run of an identical character down to at most `n` occurrences.
pub fn derepeat(text: &str, n: usize) -> (r: String)
    ensures
        r@ == derepeat_spec(text@, n as nat),
{
    let len = text.unicode_len();
    let mut out = String::new();
    let mut prev: Option<char> = None;
    let mut rep: usize = 0;
    proof {
        assert(text@.skip(0) =~= text@);
        assert(out@ + derepeat_spec(text@, n as nat) =~= derepeat_spec(text@, n as nat));
    }
    for i in 0..len
        invariant
            len == text@.len(),
            rep <= i,
            out@ + derepeat_rec(text@.skip(i as int), prev, rep as nat, n as nat)
                == derepeat_spec(text@, n as nat),
    {
        let c = text.get_char(i);
        let same = match prev {
            Some(p) => p == c,
            None => false,
        };
        if same {
            rep = rep + 1;
        } else {
            rep = 0;
            prev = Some(c);
        }
        proof {
            assert(text@.skip(i as int).drop_first() =~= text@.skip(i + 1));
        }
        if rep < n {
            push_char(&mut out, c);
        }
    }
    proof {
        assert(text@.skip(len as int) =~= Seq::<char>::empty());
    }
    out
}

/// `s` with a space inserted after every emphasis run that is immediately
/// followed by a character outside the run's class.
pub open spec fn separate_spec(s: Seq<char>) -> Seq<char>
    decreases s.len(),
{
    if s.len() == 0 {
        Seq::empty()
    } else {
        let head: Seq<char> = if is_emphasis(s[0]) && s.len() > 1 && !is_emphasis(s[1]) {
            seq![s[0], ' ']
        } else {
            seq![s[0]]
        };
        head + separate_spec(s.drop_first())
    }
}

/// Insert a space after each emphasis or punctuation run that is immediately
/// followed by an ordinary character.
pub fn space_around_ic(text: &str) -> (r: String)
    ensures
        r@ == separate_spec(text@),
{
    let len = text.unicode_len();
    let mut out = String::new();
    proof {
        assert(text@.skip(0) =~= text@);
        assert(out@ + separate_spec(text@) =~= separate_spec(text@));
    }
    for i in 0..len
        invariant
            len == text@.len(),
            out@ + separate_spec(text@.skip(i as int)) == separate_spec(text@),
    {
        let c = text.get_char(i);
        push_char(&mut out, c);
        if emphasis_char(c) && i + 1 < len && !emphasis_char(text.get_char(i + 1)) {
            push_char(&mut out, ' ');
        }
        proof {
            assert(text@.skip(i as int).drop_first() =~= text@.skip(i + 1));
            assert(text@.skip(i as int)[0] == text@[i as int]);
            if i + 1 < len {
                assert(text@.skip(i as int)[1] == text@[i + 1]);
            }
        }
    }
    proof {
        assert(text@.skip(len as int) =~= Seq::<char>::empty());
    }
    out
}

/// The normal form a message takes before tokenization: runs of an
/// identical character capped at three, then emphasis runs set off by a
/// space.
pub open spec fn normalize_spec(s: Seq<char>) -> Seq<char> {
    separate_spec(derepeat_spec(s, 3))
}

/// Normalize a message: cap runs of an identical character at three, then
/// set emphasis runs off from the text that follows them.
pub fn normalize(text: &str) -> (r: String)
    ensures
        r@ == normalize_spec(text@),
{
    let collapsed = derepeat(text, 3);
    space_around_ic(collapsed.as_str())
}

/// `s` split at every white-space character. A split point always separates
/// two tokens, so leading, trailing and doubled white space yield empty
/// tokens, as `str::split` would.
pub open spec fn split_ws_spec(s: Seq<char>) -> Seq<Seq<char>>
    decreases s.len(),
{
    if s.len() == 0 {
        seq![Seq::<char>::empty()]
    } else if is_ws(s.last()) {
        split_ws_spec(s.drop_last()) + seq![Seq::<char>::empty()]
    } else {
        let p = split_ws_spec(s.drop_last());
        p.update(p.len() - 1, p.last().push(s.last()))
    }
}

/// The tokens of `ts` joined into one piece of text with a single space
/// between neighbours.
pub open spec fn join_spaced(ts: Seq<Seq<char>>) -> Seq<char>
    decreases ts.len(),
{
    if ts.len() == 0 {
        Seq::empty()
    } else if ts.len() == 1 {
        ts[0]
    } else {
        join_spaced(ts.drop_last()) + seq![' '] + ts.last()
    }
}

/// Split `text` at white space; for `ngram > 1`, return every run of `ngram`
/// consecutive tokens joined with single spaces, in text order.
pub fn tokenize(text: &str, ngram: usize) -> (r: Vec<String>)
    ensures
        ngram <= 1 ==> r@.map_values(|t: String| t@) == split_ws_spec(text@),
        ngram > 1 ==> {
            let ts = split_ws_spec(text@);
            &&& r@.len() == if ts.len() >= ngram {
                ts.len() - ngram + 1
            } else {
                0
            }
            &&& forall|j: int|
                0 <= j < r@.len() ==> r@[j]@ == join_spaced(ts.subrange(j, j + ngram))
        },
{
    let len = text.unicode_len();
    let mut tokens: Vec<String> = Vec::new();
    let mut cur = String::new();
    proof {
        assert(text@.take(0) =~= Seq::<char>::empty());
        assert(tokens@.map_values(|t: String| t@) + seq![cur@] =~= split_ws_spec(text@.take(0)));
    }
    for i in 0..len
        invariant
            len == text@.len(),
            tokens@.map_values(|t: String| t@) + seq![cur@] == split_ws_spec(text@.take(i as int)),
    {
        let c = text.get_char(i);
        proof {
            assert(text@.take(i + 1).drop_last() =~= text@.take(i as int));
            assert(text@.take(i + 1).last() == text@[i as int]);
        }
        if ws_char(c) {
            tokens.push(cur);
            cur = String::new();
            proof {
                assert(tokens@.map_values(|t: String| t@) + seq![cur@] =~= split_ws_spec(
                    text@.take(i + 1),
                ));
            }
        } else {
            push_char(&mut cur, c);
            proof {
                let p = split_ws_spec(text@.take(i as int));
                assert(tokens@.map_values(|t: String| t@) + seq![cur@] =~= p.update(
                    p.len() - 1,
                    p.last().push(text@[i as int]),
                ));
            }
        }
    }
    tokens.push(cur);
    proof {
        assert(text@.take(len as int) =~= text@);
        assert(tokens@.map_values(|t: String| t@) =~= split_ws_spec(text@));
    }
    if ngram <= 1 {
        return tokens;
    }
    let mut out: Vec<String> = Vec::new();
    let tlen = tokens.len();
    if tlen < ngram {
        return out;
    }
    let end = tlen - ngram + 1;
    for j in 0..end
        invariant
            tlen == tokens@.len(),
            end == tokens@.len() - ngram + 1,
            ngram >= 2,
            tokens@.len() >= ngram,
            tokens@.map_values(|t: String| t@) == split_ws_spec(text@),
            out@.len() == j,
            forall|q: int|
                0 <= q < j ==> out@[q]@ == join_spaced(
                    split_ws_spec(text@).subrange(q, q + ngram),
                ),
    {
        let mut piece = tokens[j].clone();
        let ghost ts = split_ws_spec(text@);
        proof {
            assert(ts.subrange(j as int, j + 1) =~= seq![ts[j as int]]);
            assert(piece@ == join_spaced(ts.subrange(j as int, j + 1)));
        }
        proof {
            assert(j + ngram <= tlen);
        }
        let stop = j + ngram;
        for k in (j + 1)..stop
            invariant
                ngram >= 2,
                stop == j + ngram,
                j + ngram <= tokens@.len(),
                j < k <= j + ngram,
                tokens@.map_values(|t: String| t@) == ts,
                ts == split_ws_spec(text@),
                ts.len() == tokens@.len(),
                piece@ == join_spaced(ts.subrange(j as int, k as int)),
        {
            piece.append(" ");
            proof {
                reveal_strlit(" ");
            }
            piece.append(tokens[k].as_str());
            proof {
                assert(ts.subrange(j as int, k + 1).drop_last() =~= ts.subrange(
                    j as int,
                    k as int,
                ));
                assert(ts.subrange(j as int, k + 1).last() == ts[k as int]);
                assert(piece@ == join_spaced(ts.subrange(j as int, k + 1)));
            }
        }
        out.push(piece);
    }
    out
}

pub open spec fn clip(a: int, b: int) -> int {
    if a < b {
        a
    } else {
        b
    }
}

/// There is an n-gram of length `n` at position `i`: `n` lies in the
/// requested range once both bounds are clipped to the length of `s`, and
/// the gram fits.
pub open spec fn ngram_at(s: Seq<char>, min_n: int, max_n: int, n: int, i: int) -> bool {
    &&& clip(min_n, s.len() as int) <= n <= clip(max_n, s.len() as int)
    &&& 1 <= n
    &&& 0 <= i
    &&& i + n <= s.len()
}

/// Every overlapping character n-gram of `s` whose length lies in
/// `[min_n, max_n]`, each bound clipped to the length of `s`.
pub open spec fn ngram_set(s: Seq<char>, min_n: int, max_n: int) -> Set<Seq<char>> {
    Set::new(
        |t: Seq<char>|
            exists|n: int, i: int| ngram_at(s, min_n, max_n, n, i) && t == s.subrange(i, i + n),
    )
}

/// Whether some member of `out` reads `t`.
pub open spec fn holds_gram(out: Seq<String>, t: Seq<char>) -> bool {
    exists|j: int| 0 <= j < out.len() && out[j]@ == t
}

proof fn lemma_holds_gram_push(out: Seq<String>, t0: String, t: Seq<char>)
    requires
        holds_gram(out, t),
    ensures
        holds_gram(out.push(t0), t),
{
    let j = choose|j: int| 0 <= j < out.len() && out[j]@ == t;
    assert(out.push(t0)[j]@ == t);
}

/// Collect the distinct character n-grams of `s` over the clipped range
/// `[min_n, max_n]`, each exactly once.
pub fn unique_char_ngrams(s: &str, min_n: usize, max_n: usize) -> (r: Vec<String>)
    requires
        min_n >= 1,
    ensures
        r@.map_values(|t: String| t@).to_set() == ngram_set(s@, min_n as int, max_n as int),
        forall|a: int, b: int| 0 <= a < b < r@.len() ==> r@[a]@ != r@[b]@,
{
    let len = s.unicode_len();
    let mut out: Vec<String> = Vec::new();
    if len == 0 {
        proof {
            assert(ngram_set(s@, min_n as int, max_n as int) =~= Set::<Seq<char>>::empty());
            assert(out@.map_values(|t: String| t@).to_set() =~= Set::<Seq<char>>::empty());
        }
        return out;
    }
    let lo = if min_n < len {
        min_n
    } else {
        len
    };
    let hi = if max_n < len {
        max_n
    } else {
        len
    };
    if hi < lo {
        proof {
            assert(ngram_set(s@, min_n as int, max_n as int) =~= Set::<Seq<char>>::empty());
            assert(out@.map_values(|t: String| t@).to_set() =~= Set::<Seq<char>>::empty());
        }
        return out;
    }
    let mut n = hi;
    while n >= lo
        invariant
            len == s@.len(),
            len >= 1,
            min_n >= 1,
            lo >= 1,
            lo == clip(min_n as int, len as int),
            hi == clip(max_n as int, len as int),
            n <= hi,
            forall|j: int|
                0 <= j < out@.len() ==> ngram_set(s@, min_n as int, max_n as int).contains(
                    #[trigger] out@[j]@,
                ),
            forall|q: int, e: int|
                0 <= q <= e <= len && n < e - q <= hi ==> holds_gram(
                    out@,
                    #[trigger] s@.subrange(q, e),
                ),
            forall|a: int, b: int| 0 <= a < b < out@.len() ==> out@[a]@ != out@[b]@,
        decreases n,
    {
        let end = len - n + 1;
        for i in 0..end
            invariant
                len == s@.len(),
                len >= 1,
                min_n >= 1,
                lo >= 1,
                lo == clip(min_n as int, len as int),
                hi == clip(max_n as int, len as int),
                lo <= n <= hi,
                end == len - n + 1,
                forall|j: int|
                    0 <= j < out@.len() ==> ngram_set(s@, min_n as int, max_n as int).contains(
                        #[trigger] out@[j]@,
                    ),
                forall|q: int, e: int|
                    0 <= q <= e <= len && n < e - q <= hi ==> holds_gram(
                        out@,
                        #[trigger] s@.subrange(q, e),
                    ),
                forall|q: int, e: int|
                    0 <= q < i && e == q + n ==> holds_gram(out@, #[trigger] s@.subrange(q, e)),
                forall|a: int, b: int| 0 <= a < b < out@.len() ==> out@[a]@ != out@[b]@,
        {
            let tok = s.substring_char(i, i + n).to_owned();
            let mut dup = false;
            for q in 0..out.len()
                invariant
                    tok@ == s@.subrange(i as int, i + n),
                    dup <==> exists|j: int| 0 <= j < q && out@[j]@ == tok@,
            {
                if out[q] == tok {
                    dup = true;
                }
            }
            if !dup {
                let ghost out0 = out@;
                out.push(tok);
                proof {
                    assert(ngram_at(s@, min_n as int, max_n as int, n as int, i as int));
                    assert(out@.last()@ == s@.subrange(i as int, i + n));
                    assert(ngram_set(s@, min_n as int, max_n as int).contains(out@.last()@));
                    assert forall|q: int, e: int|
                        0 <= q <= e <= len && n < e - q <= hi implies holds_gram(
                        out@,
                        #[trigger] s@.subrange(q, e),
                    ) by {
                        lemma_holds_gram_push(out0, out@.last(), s@.subrange(q, e));
                    };
                    assert forall|q: int, e: int|
                        0 <= q < i && e == q + n implies holds_gram(
                        out@,
                        #[trigger] s@.subrange(q, e),
                    ) by {
                        lemma_holds_gram_push(out0, out@.last(), s@.subrange(q, e));
                    };
                }
            }
            proof {
                assert(holds_gram(out@, s@.subrange(i as int, i + n)));
            }
        }
        n = n - 1;
    }
    proof {
        let g = ngram_set(s@, min_n as int, max_n as int);
        let views = out@.map_values(|t: String| t@);
        assert forall|t: Seq<char>| views.to_set().contains(t) implies g.contains(t) by {
            let j = choose|j: int| 0 <= j < views.len() && views[j] == t;
            assert(out@[j]@ == t);
        };
        assert forall|t: Seq<char>| g.contains(t) implies views.to_set().contains(t) by {
            let (m, q) = choose|m: int, q: int|
                ngram_at(s@, min_n as int, max_n as int, m, q) && t == s@.subrange(q, q + m);
            assert(holds_gram(out@, s@.subrange(q, q + m)));
            let j = choose|j: int| 0 <= j < out@.len() && out@[j]@ == t;
            assert(views[j] == t);
            assert(views.contains(t));
        };
        assert(views.to_set() =~= g);
    }
    out
}

} // verus!
