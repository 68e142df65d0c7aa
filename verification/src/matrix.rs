//! Fixed-width numeric rows ("matrices") and borrowed collections of them,
//! with elementwise update and exact folds.

use vstd::prelude::*;

use vstd::slice::slice_index_get;

verus! {

/// The sum of a sequence of integers.
pub open spec fn int_sum(s: Seq<int>) -> int
    decreases s.len(),
{
    if s.len() == 0 {
        0
    } else {
        int_sum(s.drop_last()) + s.last()
    }
}

/// The product of a sequence of integers.
pub open spec fn int_prod(s: Seq<int>) -> int
    decreases s.len(),
{
    if s.len() == 0 {
        1
    } else {
        int_prod(s.drop_last()) * s.last()
    }
}

/// Every partial sum of the sequence stays within the 32-bit range.
pub open spec fn sums_fit_i32(s: Seq<int>) -> bool {
    forall|k: int| 0 <= k <= s.len() ==> i32::MIN <= int_sum(#[trigger] s.take(k)) <= i32::MAX
}

/// Every partial product of the sequence stays within the 32-bit range.
pub open spec fn prods_fit_i32(s: Seq<int>) -> bool {
    forall|k: int| 0 <= k <= s.len() ==> i32::MIN <= int_prod(#[trigger] s.take(k)) <= i32::MAX
}

/// A sequence of 32-bit values as mathematical integers.
pub open spec fn ints_of(s: Seq<i32>) -> Seq<int> {
    s.map_values(|x: i32| x as int)
}

/// A row of `N` values.
#[derive(Debug)]
pub struct Matrix<T, const N: usize> {
    data: Vec<T>,
}

impl<T, const N: usize> View for Matrix<T, N> {
    type V = Seq<T>;

    closed spec fn view(&self) -> Seq<T> {
        self.data@
    }
}

impl<T: Copy, const N: usize> Matrix<T, N> {
    /// Wraps the given values.
    pub fn new(data: [T; N]) -> (r: Self)
        ensures
            r@ == data@,
    {
        let mut items: Vec<T> = Vec::new();
        let mut i: usize = 0;
        while i < N
            invariant
                i <= N,
                data@.len() == N,
                items@ == data@.take(i as int),
            decreases N - i,
        {
            items.push(data[i]);
            proof {
                assert(items@ =~= data@.take(i as int + 1));
            }
            i = i + 1;
        }
        proof {
            assert(data@.take(N as int) =~= data@);
        }
        Matrix { data: items }
    }
}

impl<const N: usize> Matrix<i32, N> {
    /// Adds `t` to every element, each sum staying within the 32-bit range.
    pub fn increase(&mut self, t: i32)
        requires
            forall|i: int|
                0 <= i < old(self)@.len() ==> i32::MIN <= (#[trigger] old(self)@[i]) + t
                    <= i32::MAX,
        ensures
            final(self)@.len() == old(self)@.len(),
            forall|i: int|
                0 <= i < old(self)@.len() ==> (#[trigger] final(self)@[i]) == old(self)@[i] + t,
    {
        let n = self.data.len();
        let mut i: usize = 0;
        while i < n
            invariant
                i <= n,
                n == self.data@.len(),
                self.data@.len() == old(self)@.len(),
                forall|j: int|
                    0 <= j < old(self)@.len() ==> i32::MIN <= (#[trigger] old(self)@[j]) + t
                        <= i32::MAX,
                forall|j: int| i <= j < n ==> (#[trigger] self.data@[j]) == old(self)@[j],
                forall|j: int| 0 <= j < i ==> (#[trigger] self.data@[j]) == old(self)@[j] + t,
            decreases n - i,
        {
            self.data[i] = self.data[i] + t;
            i = i + 1;
        }
    }

    /// Multiplies every element by `t`, each product staying within the
    /// 32-bit range.
    pub fn scale(&mut self, t: i32)
        requires
            forall|i: int|
                0 <= i < old(self)@.len() ==> i32::MIN <= (#[trigger] old(self)@[i]) * t
                    <= i32::MAX,
        ensures
            final(self)@.len() == old(self)@.len(),
            forall|i: int|
                0 <= i < old(self)@.len() ==> (#[trigger] final(self)@[i]) == old(self)@[i] * t,
    {
        let n = self.data.len();
        let mut i: usize = 0;
        while i < n
            invariant
                i <= n,
                n == self.data@.len(),
                self.data@.len() == old(self)@.len(),
                forall|j: int|
                    0 <= j < old(self)@.len() ==> i32::MIN <= (#[trigger] old(self)@[j]) * t
                        <= i32::MAX,
                forall|j: int| i <= j < n ==> (#[trigger] self.data@[j]) == old(self)@[j],
                forall|j: int| 0 <= j < i ==> (#[trigger] self.data@[j]) == old(self)@[j] * t,
            decreases n - i,
        {
            self.data[i] = self.data[i] * t;
            i = i + 1;
        }
    }

    /// The sum of the elements, every partial sum within the 32-bit range.
    pub fn sum(&self) -> (r: i32)
        requires
            sums_fit_i32(ints_of(self@)),
        ensures
            r as int == int_sum(ints_of(self@)),
    {
        sum_i32_slice(self.data.as_slice())
    }

    /// The product of the elements, every partial product within the 32-bit
    /// range.
    pub fn product(&self) -> (r: i32)
        requires
            prods_fit_i32(ints_of(self@)),
        ensures
            r as int == int_prod(ints_of(self@)),
    {
        prod_i32_slice(self.data.as_slice())
    }
}

/// The sum of a slice of 32-bit values, every partial sum in range.
fn sum_i32_slice(s: &[i32]) -> (r: i32)
    requires
        sums_fit_i32(ints_of(s@)),
    ensures
        r as int == int_sum(ints_of(s@)),
{
    let ghost ints = ints_of(s@);
    let n = s.len();
    let mut acc: i32 = 0;
    let mut i: usize = 0;
    proof {
        assert(ints.take(0) =~= Seq::<int>::empty());
    }
    while i < n
        invariant
            i <= n,
            n == s@.len(),
            ints == ints_of(s@),
            sums_fit_i32(ints),
            acc as int == int_sum(ints.take(i as int)),
        decreases n - i,
    {
        proof {
            assert(ints.take(i as int + 1).drop_last() =~= ints.take(i as int));
            assert(ints.take(i as int + 1).last() == s@[i as int] as int);
            assert(int_sum(ints.take(i as int + 1)) == acc as int + s@[i as int]);
        }
        acc = acc + *slice_index_get(s, i);
        i = i + 1;
    }
    proof {
        assert(ints.take(n as int) =~= ints);
    }
    acc
}

/// The product of a slice of 32-bit values, every partial product in range.
fn prod_i32_slice(s: &[i32]) -> (r: i32)
    requires
        prods_fit_i32(ints_of(s@)),
    ensures
        r as int == int_prod(ints_of(s@)),
{
    let ghost ints = ints_of(s@);
    let n = s.len();
    let mut acc: i32 = 1;
    let mut i: usize = 0;
    proof {
        assert(ints.take(0) =~= Seq::<int>::empty());
    }
    while i < n
        invariant
            i <= n,
            n == s@.len(),
            ints == ints_of(s@),
            prods_fit_i32(ints),
            acc as int == int_prod(ints.take(i as int)),
        decreases n - i,
    {
        proof {
            assert(ints.take(i as int + 1).drop_last() =~= ints.take(i as int));
            assert(ints.take(i as int + 1).last() == s@[i as int] as int);
            assert(int_prod(ints.take(i as int + 1)) == acc as int * s@[i as int]);
        }
        acc = acc * *slice_index_get(s, i);
        i = i + 1;
    }
    proof {
        assert(ints.take(n as int) =~= ints);
    }
    acc
}

impl<const N: usize> PartialEq for Matrix<i32, N> {
    /// Rows are equal when they hold the same values in the same order.
    fn eq(&self, other: &Matrix<i32, N>) -> (r: bool) {
        let n = self.data.len();
        if n != other.data.len() {
            proof {
                assert(self@ != other@);
            }
            return false;
        }
        let mut k: usize = 0;
        while k < n
            invariant
                k <= n,
                n == self@.len(),
                n == other@.len(),
                forall|j: int| 0 <= j < k ==> self@[j] == other@[j],
            decreases n - k,
        {
            if self.data[k] != other.data[k] {
                proof {
                    assert(self@[k as int] != other@[k as int]);
                }
                return false;
            }
            k = k + 1;
        }
        proof {
            assert(self@ =~= other@);
        }
        true
    }
}

impl<const N: usize> vstd::std_specs::cmp::PartialEqSpecImpl for Matrix<i32, N> {
    open spec fn obeys_eq_spec() -> bool {
        true
    }

    open spec fn eq_spec(&self, other: &Matrix<i32, N>) -> bool {
        self@ == other@
    }
}

/// The elementwise sums of a collection of rows.
pub open spec fn row_sums<const N: usize>(items: Seq<&Matrix<i32, N>>) -> Seq<int> {
    items.map_values(|m: &Matrix<i32, N>| int_sum(ints_of(m@)))
}

/// The elementwise products of a collection of rows.
pub open spec fn row_prods<const N: usize>(items: Seq<&Matrix<i32, N>>) -> Seq<int> {
    items.map_values(|m: &Matrix<i32, N>| int_prod(ints_of(m@)))
}

/// A borrowed collection of rows.
pub struct MatrixSet<'s, 'e, T, const N: usize> {
    items: &'s [&'e Matrix<T, N>],
}

impl<'s, 'e, T, const N: usize> MatrixSet<'s, 'e, T, N> {
    /// The borrowed rows.
    pub closed spec fn items_seq(&self) -> Seq<&'e Matrix<T, N>> {
        self.items@
    }

    /// Wraps the given rows.
    pub fn new(matrix: &'s [&'e Matrix<T, N>]) -> (r: Self)
        ensures
            r.items_seq() == matrix@,
    {
        MatrixSet { items: matrix }
    }

    /// The row at `idx`, borrowed for the rows' own lifetime.
    pub fn get(&self, idx: usize) -> (r: &'e Matrix<T, N>)
        requires
            idx < self.items_seq().len(),
        ensures
            r == self.items_seq()[idx as int],
    {
        *slice_index_get(self.items, idx)
    }
}

impl<'s, 'e, const N: usize> MatrixSet<'s, 'e, i32, N> {
    /// The sum of all row sums, every partial fold within the 32-bit range.
    pub fn sum(&self) -> (r: i32)
        requires
            forall|j: int|
                0 <= j < self.items_seq().len() ==> sums_fit_i32(
                    ints_of(#[trigger] self.items_seq()[j]@),
                ),
            sums_fit_i32(row_sums(self.items_seq())),
        ensures
            r as int == int_sum(row_sums(self.items_seq())),
    {
        let ghost sums = row_sums(self.items_seq());
        let n = self.items.len();
        let mut acc: i32 = 0;
        let mut i: usize = 0;
        proof {
            assert(sums.take(0) =~= Seq::<int>::empty());
        }
        while i < n
            invariant
                i <= n,
                n == self.items_seq().len(),
                sums == row_sums(self.items_seq()),
                sums_fit_i32(sums),
                forall|j: int|
                    0 <= j < self.items_seq().len() ==> sums_fit_i32(
                        ints_of(#[trigger] self.items_seq()[j]@),
                    ),
                acc as int == int_sum(sums.take(i as int)),
            decreases n - i,
        {
            let row = *slice_index_get(self.items, i);
            let row_sum = row.sum();
            proof {
                assert(sums.take(i as int + 1).drop_last() =~= sums.take(i as int));
                assert(sums.take(i as int + 1).last() == sums[i as int]);
                assert(int_sum(sums.take(i as int + 1)) == acc as int + row_sum as int);
            }
            acc = acc + row_sum;
            i = i + 1;
        }
        proof {
            assert(sums.take(n as int) =~= sums);
        }
        acc
    }

    /// The product of all row products, every partial fold within the 32-bit
    /// range.
    pub fn product(&self) -> (r: i32)
        requires
            forall|j: int|
                0 <= j < self.items_seq().len() ==> prods_fit_i32(
                    ints_of(#[trigger] self.items_seq()[j]@),
                ),
            prods_fit_i32(row_prods(self.items_seq())),
        ensures
            r as int == int_prod(row_prods(self.items_seq())),
    {
        let ghost prods = row_prods(self.items_seq());
        let n = self.items.len();
        let mut acc: i32 = 1;
        let mut i: usize = 0;
        proof {
            assert(prods.take(0) =~= Seq::<int>::empty());
        }
        while i < n
            invariant
                i <= n,
                n == self.items_seq().len(),
                prods == row_prods(self.items_seq()),
                prods_fit_i32(prods),
                forall|j: int|
                    0 <= j < self.items_seq().len() ==> prods_fit_i32(
                        ints_of(#[trigger] self.items_seq()[j]@),
                    ),
                acc as int == int_prod(prods.take(i as int)),
            decreases n - i,
        {
            let row = *slice_index_get(self.items, i);
            let row_prod = row.product();
            proof {
                assert(prods.take(i as int + 1).drop_last() =~= prods.take(i as int));
                assert(prods.take(i as int + 1).last() == prods[i as int]);
                assert(int_prod(prods.take(i as int + 1)) == acc as int * row_prod as int);
            }
            acc = acc * row_prod;
            i = i + 1;
        }
        proof {
            assert(prods.take(n as int) =~= prods);
        }
        acc
    }
}

} // verus!
