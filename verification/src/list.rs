//! A growable list with front, back and positional insertion, viewed as a
//! sequence.

use vstd::prelude::*;

verus! {

/// An ordered list of values.
pub struct List<T> {
    items: Vec<T>,
}

impl<T> View for List<T> {
    type V = Seq<T>;

    closed spec fn view(&self) -> Seq<T> {
        self.items@
    }
}

impl<T> List<T> {
    /// An empty list.
    pub fn new() -> (r: Self)
        ensures
            r@ == Seq::<T>::empty(),
    {
        List { items: Vec::new() }
    }

    /// How many values the list holds.
    pub fn len(&self) -> (r: usize)
        ensures
            r == self@.len(),
    {
        self.items.len()
    }

    /// Appends a value at the end.
    pub fn push_back(&mut self, value: T)
        ensures
            final(self)@ == old(self)@.push(value),
    {
        self.items.push(value);
    }

    /// Inserts a value at the front.
    pub fn push_front(&mut self, value: T)
        ensures
            final(self)@ == seq![value] + old(self)@,
    {
        self.items.insert(0, value);
        proof {
            assert(self.items@ =~= seq![value] + old(self)@);
        }
    }

    /// Inserts a value right after position `idx`; with `idx` out of range
    /// the value goes to the end.
    pub fn push_after(&mut self, idx: usize, value: T)
        ensures
            idx < old(self)@.len() ==> final(self)@ == old(self)@.insert(idx + 1, value),
            idx >= old(self)@.len() ==> final(self)@ == old(self)@.push(value),
    {
        if idx < self.items.len() {
            self.items.insert(idx + 1, value);
        } else {
            self.items.push(value);
        }
    }

    /// Replaces the value at `idx`; out of range, nothing changes.
    pub fn set(&mut self, idx: usize, value: T)
        ensures
            idx < old(self)@.len() ==> final(self)@ == old(self)@.update(idx as int, value),
            idx >= old(self)@.len() ==> final(self)@ == old(self)@,
    {
        if idx < self.items.len() {
            self.items[idx] = value;
        }
    }

    /// The first value, if any.
    pub fn front(&self) -> (r: Option<&T>)
        ensures
            self@.len() == 0 ==> r is None,
            self@.len() > 0 ==> (r matches Some(v) && *v == self@[0]),
    {
        self.items.as_slice().first()
    }

    /// The last value, if any.
    pub fn back(&self) -> (r: Option<&T>)
        ensures
            self@.len() == 0 ==> r is None,
            self@.len() > 0 ==> (r matches Some(v) && *v == self@.last()),
    {
        self.items.as_slice().last()
    }
}

impl<T> Default for List<T> {
    /// An empty list.
    fn default() -> (r: Self)
        ensures
            r@ == Seq::<T>::empty(),
    {
        List::new()
    }
}

impl<T: Copy> List<T> {
    /// The values as a vector, in order.
    pub fn to_vec(&self) -> (r: Vec<T>)
        ensures
            r@ == self@,
    {
        let mut r: Vec<T> = Vec::new();
        let n = self.items.len();
        let mut i: usize = 0;
        while i < n
            invariant
                i <= n,
                n == self@.len(),
                r@ == self@.take(i as int),
            decreases n - i,
        {
            r.push(self.items[i]);
            proof {
                assert(r@ =~= self@.take(i as int + 1));
            }
            i = i + 1;
        }
        proof {
            assert(self@.take(n as int) =~= self@);
        }
        r
    }

    /// The list split in two: the first `n` values (all of them, if fewer)
    /// and the rest.
    pub fn split(&self, n: usize) -> (r: (List<T>, List<T>))
        ensures
            n <= self@.len() ==> r.0@ == self@.take(n as int) && r.1@ == self@.skip(n as int),
            n > self@.len() ==> r.0@ == self@ && r.1@ == Seq::<T>::empty(),
    {
        let len = self.items.len();
        let cut = if n < len {
            n
        } else {
            len
        };
        let mut left: List<T> = List::new();
        let mut right: List<T> = List::new();
        let mut i: usize = 0;
        while i < len
            invariant
                i <= len,
                cut <= len,
                len == self@.len(),
                cut == if n < len {
                    n as int
                } else {
                    len as int
                },
                left@ == self@.take(if i < cut {
                    i as int
                } else {
                    cut as int
                }),
                right@ == (if i <= cut {
                    Seq::<T>::empty()
                } else {
                    self@.subrange(cut as int, i as int)
                }),
            decreases len - i,
        {
            if i < cut {
                left.push_back(self.items[i]);
                proof {
                    assert(left@ =~= self@.take(i as int + 1));
                }
            } else {
                right.push_back(self.items[i]);
                proof {
                    assert(right@ =~= self@.subrange(cut as int, i as int + 1));
                }
            }
            i = i + 1;
        }
        proof {
            assert(self@.take(len as int) =~= self@);
            if n <= self@.len() {
                assert(left@ =~= self@.take(n as int));
                assert(right@ =~= self@.skip(n as int));
            } else {
                assert(left@ =~= self@);
                assert(right@ =~= Seq::<T>::empty());
            }
        }
        (left, right)
    }
}

} // verus!
