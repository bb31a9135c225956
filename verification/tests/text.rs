use chat_spike::text::{derepeat, normalize, space_around_ic, tokenize, unique_char_ngrams};

#[test]
fn ngram_tokenize() {
    let text = "하나 둘 셋 넷";
    let expect = tokenize(text, 3);
    assert_eq!(expect, vec!["하나 둘 셋", "둘 셋 넷"]);
    let expect = tokenize(text, 2);
    assert_eq!(expect, vec!["하나 둘", "둘 셋", "셋 넷"]);
    let expect = tokenize(text, 1);
    assert_eq!(expect, vec!["하나", "둘", "셋", "넷"]);
}

#[test]
fn tokenize_keeps_empty_tokens() {
    assert_eq!(tokenize("", 1), vec![""]);
    assert_eq!(tokenize("a  b", 1), vec!["a", "", "b"]);
    assert_eq!(tokenize("a b", 5), Vec::<String>::new());
}

#[test]
fn derepeat_caps_runs() {
    assert_eq!(derepeat("aaaa", 3), "aaa");
    assert_eq!(derepeat("aabbbbccc", 3), "aabbbccc");
    assert_eq!(derepeat("abab", 3), "abab");
    assert_eq!(derepeat("", 3), "");
    assert_eq!(derepeat("xyz", 0), "");
}

#[test]
fn space_after_emphasis_runs() {
    assert_eq!(space_around_ic("hi!next"), "hi! next");
    assert_eq!(space_around_ic("ㅋㅋ좋다"), "ㅋㅋ 좋다");
    assert_eq!(space_around_ic("what?!now"), "what?! now");
    assert_eq!(space_around_ic("plain text"), "plain text");
    assert_eq!(space_around_ic("end!"), "end!");
}

#[test]
fn normalize_collapses_then_separates() {
    assert_eq!(normalize("wooooow!!!!yes"), "wooow!!! yes");
    assert_eq!(normalize("hello world"), "hello world");
}

#[test]
fn unique_char_ngrams_distinct_and_complete() {
    let mut grams = unique_char_ngrams("abab", 1, 2);
    grams.sort();
    assert_eq!(grams, vec!["a", "ab", "b", "ba"]);

    let mut grams = unique_char_ngrams("ab", 1, 4);
    grams.sort();
    assert_eq!(grams, vec!["a", "ab", "b"]);

    assert_eq!(unique_char_ngrams("", 1, 4), Vec::<String>::new());

    // bounds clip to the text length: only the whole text remains
    assert_eq!(unique_char_ngrams("ab", 3, 5), vec!["ab"]);
}
