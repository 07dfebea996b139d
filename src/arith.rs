use vstd::prelude::*;

verus! {

/// Sum of two signed 32-bit integers; the sum must be representable.
pub fn add_ints(x: i32, y: i32) -> (r: i32)
    requires
        i32::MIN <= x + y <= i32::MAX,
    ensures
        r == x + y,
{
    x + y
}

/// Sum of two signed 32-bit integers, written with an explicit return.
pub fn add_uints(x: i32, y: i32) -> (r: i32)
    requires
        i32::MIN <= x + y <= i32::MAX,
    ensures
        r == x + y,
{
    return x + y;
}

} // verus!
