//! Small arithmetic helpers exported to native callers.

use vstd::prelude::*;

verus! {

/// Integer division; the divisor must not be zero.
pub fn div(a: u64, b: u64) -> (r: u64)
    requires
        b != 0,
    ensures
        r == a / b,
{
    a / b
}

/// Sum of two integers whose total fits in 32 bits.
pub fn add(a: u32, b: u32) -> (r: u32)
    requires
        a + b <= u32::MAX,
    ensures
        r == a + b,
{
    a + b
}

/// The constant zero.
pub fn zero() -> (r: u32)
    ensures
        r == 0,
{
    0
}

} // verus!
