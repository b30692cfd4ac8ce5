//! The Piet operand stack: arbitrary-precision integers, viewed in
//! specifications as the sequence of values they hold, bottom first.

use vstd::prelude::*;
use num_bigint::BigInt;
use crate::bignum::big_value;

verus! {

/// The mathematical contents of a run of stack cells.
pub open spec fn values_of(s: Seq<BigInt>) -> Seq<int> {
    s.map_values(|b: BigInt| big_value(b))
}

/// A push-down stack of arbitrary-precision integers.
#[derive(Debug)]
pub struct Stack {
    pub store: Vec<BigInt>,
}

impl View for Stack {
    type V = Seq<int>;

    open spec fn view(&self) -> Seq<int> {
        values_of(self.store@)
    }
}

impl Stack {
    /// An empty stack.
    pub fn new() -> (s: Stack)
        ensures
            s@ == Seq::<int>::empty(),
    {
        let s = Stack { store: Vec::new() };
        proof {
            assert(s@ =~= Seq::<int>::empty());
        }
        s
    }

    /// Push a value on top.
    pub fn push(&mut self, v: BigInt)
        ensures
            final(self)@ == old(self)@.push(big_value(v)),
    {
        let ghost v_val = big_value(v);
        self.store.push(v);
        proof {
            assert(self@ =~= old(self)@.push(v_val));
        }
    }

    /// Remove and return the top value; `None` on an empty stack, which
    /// stays empty.
    pub fn pop(&mut self) -> (r: Option<BigInt>)
        ensures
            match r {
                Some(b) => old(self)@.len() > 0
                    && big_value(b) == old(self)@.last()
                    && final(self)@ == old(self)@.drop_last(),
                None => old(self)@.len() == 0 && final(self)@ == old(self)@,
            },
    {
        let r = self.store.pop();
        proof {
            if old(self).store@.len() > 0 {
                assert(self@ =~= old(self)@.drop_last());
            }
        }
        r
    }

    /// The top value, if any.
    pub fn top(&self) -> (r: Option<&BigInt>)
        ensures
            match r {
                Some(b) => self@.len() > 0 && big_value(*b) == self@.last(),
                None => self@.len() == 0,
            },
    {
        if self.store.len() == 0 {
            None
        } else {
            Some(&self.store[self.store.len() - 1])
        }
    }

    /// How many values the stack holds.
    pub fn len(&self) -> (n: usize)
        ensures
            n == self@.len(),
    {
        self.store.len()
    }

    /// Whether the stack holds no value.
    pub fn is_empty(&self) -> (r: bool)
        ensures
            r <==> self@.len() == 0,
    {
        self.store.len() == 0
    }

    /// Rotate the window of the top `depth` values right by `m` places:
    /// each value moves `m` places toward the top and the top `m` values
    /// wrap around to the bottom of the window.
    pub fn rotate_top_right(&mut self, depth: usize, m: usize)
        requires
            1 <= depth <= old(self)@.len(),
            m < depth,
        ensures
            final(self)@ == rotate_window_right(old(self)@, depth as int, m as int),
    {
        let ghost s0 = self@;
        let ghost cut = s0.len() - depth;
        let base = self.store.len() - depth;
        let mut t: usize = 0;
        while t < m
            invariant
                t <= m,
                m < depth,
                1 <= depth <= s0.len(),
                base == s0.len() - depth,
                cut == s0.len() - depth,
                self@.len() == s0.len(),
                self.store@.len() == s0.len(),
                self@ == s0.subrange(0, cut)
                    + s0.subrange(s0.len() - t, s0.len() as int)
                    + s0.subrange(cut, s0.len() - t),
            decreases m - t,
        {
            let ghost prev = self@;
            proof {
                assert(prev[s0.len() - 1] == s0[s0.len() - t - 1]) by {
                    assert(prev[s0.len() - 1]
                        == s0.subrange(cut, s0.len() - t)[s0.len() - 1 - (cut + t)]);
                }
            }
            let x = self.pop().unwrap();
            self.insert_at(base, x);
            proof {
                let v = s0[s0.len() - t - 1];
                let target = s0.subrange(0, cut)
                    + s0.subrange(s0.len() - (t + 1), s0.len() as int)
                    + s0.subrange(cut, s0.len() - (t + 1));
                assert(self@ == prev.drop_last().insert(cut, v));
                assert(target.len() == s0.len());
                assert(self@.len() == s0.len());
                assert forall|i: int| 0 <= i < s0.len() implies self@[i] == target[i] by {
                    if i < cut {
                        assert(self@[i] == prev[i]);
                        assert(prev[i] == s0[i]);
                        assert(target[i] == s0[i]);
                    } else if i == cut {
                        assert(self@[i] == v);
                        assert(target[i] == s0.subrange(s0.len() - (t + 1), s0.len() as int)[0]);
                    } else if i < cut + t + 1 {
                        assert(self@[i] == prev[i - 1]);
                        assert(prev[i - 1]
                            == s0.subrange(s0.len() - t, s0.len() as int)[i - 1 - cut]);
                        assert(target[i]
                            == s0.subrange(s0.len() - (t + 1), s0.len() as int)[i - cut]);
                    } else {
                        assert(self@[i] == prev[i - 1]);
                        assert(prev[i - 1] == s0.subrange(cut, s0.len() - t)[i - 1 - cut - t]);
                        assert(target[i] == s0.subrange(cut, s0.len() - (t + 1))[i - cut - t - 1]);
                    }
                }
                assert(self@ =~= target);
            }
            t += 1;
        }
        proof {
            assert(self@ =~= rotate_window_right(s0, depth as int, m as int));
        }
    }

    /// Put a value `i` cells above the bottom, shifting what is above it.
    fn insert_at(&mut self, i: usize, b: BigInt)
        requires
            i <= old(self)@.len(),
        ensures
            final(self)@ == old(self)@.insert(i as int, big_value(b)),
    {
        let ghost b_val = big_value(b);
        self.store.insert(i, b);
        proof {
            lemma_values_of_insert(old(self).store@, i as int, b, b_val);
        }
    }
}

/// The top `depth` cells of `s` rotated right by `m` places.
pub open spec fn rotate_window_right(s: Seq<int>, depth: int, m: int) -> Seq<int> {
    let cut = s.len() - depth;
    s.subrange(0, cut)
        + s.subrange(s.len() - m, s.len() as int)
        + s.subrange(cut, s.len() - m)
}

/// Mapping cells to their values commutes with inserting a cell.
pub proof fn lemma_values_of_insert(s: Seq<BigInt>, i: int, b: BigInt, v: int)
    requires
        0 <= i <= s.len(),
        v == big_value(b),
    ensures
        values_of(s.insert(i, b)) == values_of(s).insert(i, v),
{
    assert(values_of(s.insert(i, b)) =~= values_of(s).insert(i, v));
}

} // verus!
