//! Small arithmetic and value-returning exercises.

use vstd::prelude::*;

verus! {

/// Three, the hard way.
pub fn foo() -> (r: i32)
    ensures
        r == 3,
{
    1 + 2
}

/// A fixed greeting.
pub fn bar() -> (r: &'static str)
    ensures
        r@ == "Hello"@,
{
    "Hello"
}

/// A fixed three-element array.
pub fn bas() -> (r: [i32; 3])
    ensures
        r@ == seq![1i32, 2i32, 3i32],
{
    let r = [1, 2, 3];
    proof {
        assert(r@ =~= seq![1i32, 2i32, 3i32]);
    }
    r
}

/// Twice the argument, within the 32-bit range.
pub fn double_int32(x: i32) -> (r: i32)
    requires
        i32::MIN <= x as int * 2 <= i32::MAX,
    ensures
        r as int == x as int * 2,
{
    x * 2
}

/// Twice the argument, widened so it always fits.
pub fn double_int64(x: i32) -> (r: i64)
    ensures
        r as int == x as int * 2,
{
    x as i64 * 2
}

/// The sum of a pair, within the 32-bit range.
pub fn tuple_sum(p: (i32, i32)) -> (r: i32)
    requires
        i32::MIN <= p.0 as int + p.1 as int <= i32::MAX,
    ensures
        r as int == p.0 as int + p.1 as int,
{
    p.0 + p.1
}

/// The sum of a three-element array, every partial sum within the 32-bit
/// range.
pub fn array_sum(a: [i32; 3]) -> (r: i32)
    requires
        i32::MIN <= a@[0] as int + a@[1] as int <= i32::MAX,
        i32::MIN <= a@[0] as int + a@[1] as int + a@[2] as int <= i32::MAX,
    ensures
        r as int == a@[0] as int + a@[1] as int + a@[2] as int,
{
    a[0] + a[1] + a[2]
}

} // verus!
