use vstd::prelude::*;

verus! {

/// Fixed-capacity buffer that keeps the most recent `S` items in arrival
/// order. Once full, a push overwrites the oldest item and hands it back.
#[derive(Clone)]
pub struct Ring<T, const S: usize> {
    buf: Vec<T>,
    offset: usize,
}

/// One step of the buffer's abstract behaviour: append the new item and,
/// when the capacity is exceeded, let the oldest item go.
pub open spec fn ring_step<T>(v: Seq<T>, t: T, cap: int) -> Seq<T> {
    if v.len() < cap {
        v.push(t)
    } else {
        v.drop_first().push(t)
    }
}

/// The abstract result of pushing `items`, in order, onto a buffer that
/// currently holds `v`.
pub open spec fn ring_run<T>(v: Seq<T>, items: Seq<T>, cap: int) -> Seq<T>
    decreases items.len(),
{
    if items.len() == 0 {
        v
    } else {
        ring_run(ring_step(v, items[0], cap), items.drop_first(), cap)
    }
}

impl<T, const S: usize> View for Ring<T, S> {
    type V = Seq<T>;

    /// The retained items, oldest first.
    closed spec fn view(&self) -> Seq<T> {
        if self.buf@.len() < S {
            self.buf@
        } else {
            self.buf@.subrange(self.offset as int, S as int) + self.buf@.subrange(
                0,
                self.offset as int,
            )
        }
    }
}

impl<T, const S: usize> Default for Ring<T, S> {
    /// An empty buffer; well-formed whenever the capacity is usable.
    fn default() -> (r: Self)
        ensures
            S >= 1 ==> r.wf(),
            r@ == Seq::<T>::empty(),
    {
        Ring { buf: Vec::new(), offset: 0 }
    }
}

impl<T, const S: usize> Ring<T, S> {
    /// The write cursor stays in step with the stored items.
    pub closed spec fn wf(&self) -> bool {
        &&& S >= 1
        &&& self.buf@.len() <= S
        &&& if self.buf@.len() < S {
            self.offset == self.buf@.len()
        } else {
            self.offset < S
        }
    }

    pub fn new() -> (r: Self)
        requires
            S >= 1,
        ensures
            r.wf(),
            r@ == Seq::<T>::empty(),
    {
        Ring { buf: Vec::new(), offset: 0 }
    }

    pub fn len(&self) -> (n: usize)
        requires
            self.wf(),
        ensures
            n == self@.len(),
    {
        proof {
            if self.buf@.len() >= S {
                assert(self@.len() == self.buf@.len());
            }
        }
        self.buf.len()
    }

    /// Insert `t`; when the buffer is already full, the oldest item is
    /// evicted and returned.
    pub fn push(&mut self, t: T) -> (r: Option<T>)
        requires
            old(self).wf(),
        ensures
            final(self).wf(),
            final(self)@ == ring_step(old(self)@, t, S as int),
            old(self)@.len() < S ==> r is None,
            old(self)@.len() == S ==> r == Some(old(self)@[0]),
    {
        if self.buf.len() < S {
            self.buf.push(t);
            self.offset = if self.buf.len() == S {
                0
            } else {
                self.buf.len()
            };
            proof {
                assert(self@ =~= ring_step(old(self)@, t, S as int));
            }
            None
        } else {
            let idx = self.offset;
            let mut evicted = t;
            core::mem::swap(&mut self.buf[idx], &mut evicted);
            self.offset = if idx + 1 == S {
                0
            } else {
                idx + 1
            };
            proof {
                assert(self@ =~= ring_step(old(self)@, t, S as int));
                assert(evicted == old(self)@[0]);
            }
            Some(evicted)
        }
    }

    /// The `i`-th retained item, counting from the oldest.
    pub fn get(&self, i: usize) -> (r: &T)
        requires
            self.wf(),
            i < self@.len(),
        ensures
            *r == self@[i as int],
    {
        if self.buf.len() < S {
            &self.buf[i]
        } else {
            let j = if i < S - self.offset {
                self.offset + i
            } else {
                i - (S - self.offset)
            };
            &self.buf[j]
        }
    }

    pub fn iter(&self) -> (it: RingIterator<'_, T, S>)
        requires
            self.wf(),
        ensures
            it.ring == self,
            it.index == 0,
    {
        RingIterator { ring: self, index: 0 }
    }
}

/// Walks a `Ring` from its oldest retained item to its newest.
pub struct RingIterator<'a, T, const S: usize> {
    pub ring: &'a Ring<T, S>,
    pub index: usize,
}

impl<'a, T, const S: usize> RingIterator<'a, T, S> {
    pub fn next(&mut self) -> (r: Option<&'a T>)
        requires
            old(self).ring.wf(),
        ensures
            final(self).ring == old(self).ring,
            old(self).index < old(self).ring@.len() ==> {
                &&& final(self).index == old(self).index + 1
                &&& r == Some(&old(self).ring@[old(self).index as int])
            },
            old(self).index >= old(self).ring@.len() ==> {
                &&& final(self).index == old(self).index
                &&& r is None
            },
    {
        if self.index < self.ring.len() {
            let r = self.ring.get(self.index);
            self.index = self.index + 1;
            Some(r)
        } else {
            None
        }
    }
}

/// Pushing any run of items onto a buffer that starts with at most `cap`
/// items retains exactly the last `cap` of the combined sequence (all of
/// them, when there are fewer), in arrival order.
pub proof fn lemma_ring_run_suffix<T>(v: Seq<T>, items: Seq<T>, cap: int)
    requires
        cap >= 1,
        v.len() <= cap,
    ensures
        ring_run(v, items, cap) == (v + items).skip(
            if v.len() + items.len() <= cap {
                0
            } else {
                v.len() + items.len() - cap
            },
        ),
    decreases items.len(),
{
    if items.len() == 0 {
        assert(ring_run(v, items, cap) =~= (v + items).skip(0));
    } else {
        let v1 = ring_step(v, items[0], cap);
        lemma_ring_run_suffix(v1, items.drop_first(), cap);
        let lo1: int = if v1.len() + items.drop_first().len() <= cap {
            0
        } else {
            v1.len() + items.drop_first().len() - cap
        };
        let lo: int = if v.len() + items.len() <= cap {
            0
        } else {
            v.len() + items.len() - cap
        };
        assert((v1 + items.drop_first()).skip(lo1) =~= (v + items).skip(lo));
    }
}

/// Starting from an empty buffer, pushing `items` retains exactly the last
/// `cap` of them (all of them, when there are fewer), in arrival order.
pub proof fn lemma_ring_retains_latest<T>(items: Seq<T>, cap: int)
    requires
        cap >= 1,
    ensures
        ring_run(Seq::<T>::empty(), items, cap) == items.skip(
            if items.len() <= cap {
                0
            } else {
                items.len() - cap
            },
        ),
{
    lemma_ring_run_suffix(Seq::<T>::empty(), items, cap);
    assert(Seq::<T>::empty() + items =~= items);
}

} // verus!
