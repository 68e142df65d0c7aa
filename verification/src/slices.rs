//! Borrowing exercises over pairs and slices: handing out references into a
//! value, and splitting a slice into parts.

use vstd::prelude::*;

use vstd::slice::slice_index_get;

verus! {

/// A mutable reference to the chosen element of a pair; the other element is
/// untouched.
pub fn get_pair_mut_ref_elem<'a>(pair: &'a mut (i32, i32), is_second: bool) -> (r: &'a mut i32)
    ensures
        *r == (if is_second {
            old(pair).1
        } else {
            old(pair).0
        }),
        is_second ==> *final(pair) == (old(pair).0, *final(r)),
        !is_second ==> *final(pair) == (*final(r), old(pair).1),
{
    if !is_second {
        &mut pair.0
    } else {
        &mut pair.1
    }
}

/// A mutable reference to the element at `idx`; the rest of the slice is
/// untouched.
pub fn get_slice_mut_ref_elem<'a>(slice: &'a mut [i32], idx: usize) -> (r: &'a mut i32)
    requires
        idx < old(slice)@.len(),
    ensures
        *r == old(slice)@[idx as int],
        final(slice)@ == old(slice)@.update(idx as int, *final(r)),
{
    &mut slice[idx]
}

/// The element `n` places before the end.
pub fn get_slice_end_ref_elem(slice: &[i32], n: usize) -> (r: &i32)
    requires
        n < slice@.len(),
    ensures
        *r == slice@[slice@.len() - n - 1],
{
    let idx = slice.len() - n - 1;
    slice_index_get(slice, idx)
}

/// The slice split in two at `n`.
pub fn split_slice_2_parts(slice: &[i32], n: usize) -> (r: (&[i32], &[i32]))
    requires
        n <= slice@.len(),
    ensures
        r.0@ == slice@.subrange(0, n as int),
        r.1@ == slice@.subrange(n as int, slice@.len() as int),
{
    slice.split_at(n)
}

/// How long the first part of a four-way split is: the remainder after
/// dividing by four goes to the leading parts, one extra element each.
pub open spec fn quarter_len(n: nat, part: nat) -> nat {
    n / 4 + if n % 4 > part {
        1nat
    } else {
        0nat
    }
}

/// The slice split in four parts of as equal lengths as possible, earlier
/// parts taking the leftovers, in order.
pub fn split_slice_4_parts(slice: &[i32]) -> (r: (&[i32], &[i32], &[i32], &[i32]))
    ensures
        ({
            let n = slice@.len();
            let p1 = quarter_len(n, 0);
            let p2 = quarter_len(n, 1);
            let p3 = quarter_len(n, 2);
            &&& r.0@ == slice@.subrange(0, p1 as int)
            &&& r.1@ == slice@.subrange(p1 as int, (p1 + p2) as int)
            &&& r.2@ == slice@.subrange((p1 + p2) as int, (p1 + p2 + p3) as int)
            &&& r.3@ == slice@.subrange((p1 + p2 + p3) as int, n as int)
        }),
{
    let n = slice.len();
    let k = n / 4;
    let mut s1 = k;
    let mut s2 = k;
    let mut s3 = k;
    if n % 4 == 1 {
        s1 = s1 + 1;
    } else if n % 4 == 2 {
        s1 = s1 + 1;
        s2 = s2 + 1;
    } else if n % 4 == 3 {
        s1 = s1 + 1;
        s2 = s2 + 1;
        s3 = s3 + 1;
    }
    let (part1, rest1) = slice.split_at(s1);
    let (part2, rest2) = rest1.split_at(s2);
    let (part3, part4) = rest2.split_at(s3);
    proof {
        let v = slice@;
        let p1 = s1 as int;
        let p2 = s2 as int;
        let p3 = s3 as int;
        assert(part2@ =~= v.subrange(p1, p1 + p2));
        assert(part3@ =~= v.subrange(p1 + p2, p1 + p2 + p3));
        assert(part4@ =~= v.subrange(p1 + p2 + p3, v.len() as int));
    }
    (part1, part2, part3, part4)
}

} // verus!
