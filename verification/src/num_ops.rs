//! The integer operations of the `num` crate that the cipher is built from.
//!
//! Each function below makes exactly one call into `num` and carries the
//! contract that the rest of the crate relies on. These contracts are taken
//! on faith: they restate what `num` documents and implements, and are the
//! only statements in the crate that are not proved.

use vstd::prelude::*;

verus! {

/// The sum of two 16-bit words modulo 2^16.
pub open spec fn add_mod_u16(a: u16, b: u16) -> u16 {
    ((a + b) % 0x1_0000) as u16
}

/// The difference of two 16-bit words modulo 2^16.
pub open spec fn sub_mod_u16(a: u16, b: u16) -> u16 {
    ((a - b) % 0x1_0000) as u16
}

/// The bits of `x` moved `n` places towards the top, those pushed out of the
/// top coming back in at the bottom, for `n` below 16.
pub open spec fn rotl_u16(x: u16, n: u32) -> u16 {
    if n == 0 {
        x
    } else {
        (x << n) | (x >> ((16u32 - n) as u32))
    }
}

/// The bits of `x` moved `n` places towards the bottom, those pushed out of
/// the bottom coming back in at the top, for `n` below 16.
pub open spec fn rotr_u16(x: u16, n: u32) -> u16 {
    if n == 0 {
        x
    } else {
        (x >> n) | (x << ((16u32 - n) as u32))
    }
}

/// `<u16 as num::traits::WrappingAdd>::wrapping_add`, which computes
/// `self + v` and wraps around at the boundary of the type.
#[verifier::external_body]
pub(crate) fn wrapping_add_u16(a: u16, b: u16) -> (r: u16)
    ensures
        r == add_mod_u16(a, b),
{
    num::traits::WrappingAdd::wrapping_add(&a, &b)
}

/// `<u16 as num::traits::WrappingSub>::wrapping_sub`, which computes
/// `self - v` and wraps around at the boundary of the type.
#[verifier::external_body]
pub(crate) fn wrapping_sub_u16(a: u16, b: u16) -> (r: u16)
    ensures
        r == sub_mod_u16(a, b),
{
    num::traits::WrappingSub::wrapping_sub(&a, &b)
}

/// `<u16 as num::PrimInt>::rotate_left`, which shifts the bits to the left by
/// `n` and wraps the truncated bits to the end of the result.
#[verifier::external_body]
pub(crate) fn rotate_left_u16(x: u16, n: u32) -> (r: u16)
    requires
        n < 16,
    ensures
        r == rotl_u16(x, n),
{
    num::PrimInt::rotate_left(x, n)
}

/// `<u16 as num::PrimInt>::rotate_right`, which shifts the bits to the right
/// by `n` and wraps the truncated bits to the beginning of the result.
#[verifier::external_body]
pub(crate) fn rotate_right_u16(x: u16, n: u32) -> (r: u16)
    requires
        n < 16,
    ensures
        r == rotr_u16(x, n),
{
    num::PrimInt::rotate_right(x, n)
}

/// `<u16 as num::PrimInt>::unsigned_shl`, which shifts the bits to the left
/// by `n` and fills the low bits with zeros; bits shifted past the top are
/// lost. The shift overflows for `n` of 16 or more, which is left out.
#[verifier::external_body]
pub(crate) fn unsigned_shl_u16(x: u16, n: u32) -> (r: u16)
    requires
        n < 16,
    ensures
        r == x << n,
{
    num::PrimInt::unsigned_shl(x, n)
}

/// The sum of two 32-bit words modulo 2^32.
pub open spec fn add_mod_u32(a: u32, b: u32) -> u32 {
    ((a + b) % 0x1_0000_0000) as u32
}

/// The difference of two 32-bit words modulo 2^32.
pub open spec fn sub_mod_u32(a: u32, b: u32) -> u32 {
    ((a - b) % 0x1_0000_0000) as u32
}

/// The bits of `x` moved `n` places towards the top, those pushed out of the
/// top coming back in at the bottom, for `n` below 32.
pub open spec fn rotl_u32(x: u32, n: u32) -> u32 {
    if n == 0 {
        x
    } else {
        (x << n) | (x >> ((32u32 - n) as u32))
    }
}

/// The bits of `x` moved `n` places towards the bottom, those pushed out of
/// the bottom coming back in at the top, for `n` below 32.
pub open spec fn rotr_u32(x: u32, n: u32) -> u32 {
    if n == 0 {
        x
    } else {
        (x >> n) | (x << ((32u32 - n) as u32))
    }
}

/// `<u32 as num::traits::WrappingAdd>::wrapping_add`, which computes
/// `self + v` and wraps around at the boundary of the type.
#[verifier::external_body]
pub(crate) fn wrapping_add_u32(a: u32, b: u32) -> (r: u32)
    ensures
        r == add_mod_u32(a, b),
{
    num::traits::WrappingAdd::wrapping_add(&a, &b)
}

/// `<u32 as num::traits::WrappingSub>::wrapping_sub`, which computes
/// `self - v` and wraps around at the boundary of the type.
#[verifier::external_body]
pub(crate) fn wrapping_sub_u32(a: u32, b: u32) -> (r: u32)
    ensures
        r == sub_mod_u32(a, b),
{
    num::traits::WrappingSub::wrapping_sub(&a, &b)
}

/// `<u32 as num::PrimInt>::rotate_left`, which shifts the bits to the left by
/// `n` and wraps the truncated bits to the end of the result.
#[verifier::external_body]
pub(crate) fn rotate_left_u32(x: u32, n: u32) -> (r: u32)
    requires
        n < 32,
    ensures
        r == rotl_u32(x, n),
{
    num::PrimInt::rotate_left(x, n)
}

/// `<u32 as num::PrimInt>::rotate_right`, which shifts the bits to the right
/// by `n` and wraps the truncated bits to the beginning of the result.
#[verifier::external_body]
pub(crate) fn rotate_right_u32(x: u32, n: u32) -> (r: u32)
    requires
        n < 32,
    ensures
        r == rotr_u32(x, n),
{
    num::PrimInt::rotate_right(x, n)
}

/// `<u32 as num::PrimInt>::unsigned_shl`, which shifts the bits to the left
/// by `n` and fills the low bits with zeros; bits shifted past the top are
/// lost. The shift overflows for `n` of 32 or more, which is left out.
#[verifier::external_body]
pub(crate) fn unsigned_shl_u32(x: u32, n: u32) -> (r: u32)
    requires
        n < 32,
    ensures
        r == x << n,
{
    num::PrimInt::unsigned_shl(x, n)
}

/// The sum of two 64-bit words modulo 2^64.
pub open spec fn add_mod_u64(a: u64, b: u64) -> u64 {
    ((a + b) % 0x1_0000_0000_0000_0000) as u64
}

/// The difference of two 64-bit words modulo 2^64.
pub open spec fn sub_mod_u64(a: u64, b: u64) -> u64 {
    ((a - b) % 0x1_0000_0000_0000_0000) as u64
}

/// The bits of `x` moved `n` places towards the top, those pushed out of the
/// top coming back in at the bottom, for `n` below 64.
pub open spec fn rotl_u64(x: u64, n: u32) -> u64 {
    if n == 0 {
        x
    } else {
        (x << n) | (x >> ((64u32 - n) as u32))
    }
}

/// The bits of `x` moved `n` places towards the bottom, those pushed out of
/// the bottom coming back in at the top, for `n` below 64.
pub open spec fn rotr_u64(x: u64, n: u32) -> u64 {
    if n == 0 {
        x
    } else {
        (x >> n) | (x << ((64u32 - n) as u32))
    }
}

/// `<u64 as num::traits::WrappingAdd>::wrapping_add`, which computes
/// `self + v` and wraps around at the boundary of the type.
#[verifier::external_body]
pub(crate) fn wrapping_add_u64(a: u64, b: u64) -> (r: u64)
    ensures
        r == add_mod_u64(a, b),
{
    num::traits::WrappingAdd::wrapping_add(&a, &b)
}

/// `<u64 as num::traits::WrappingSub>::wrapping_sub`, which computes
/// `self - v` and wraps around at the boundary of the type.
#[verifier::external_body]
pub(crate) fn wrapping_sub_u64(a: u64, b: u64) -> (r: u64)
    ensures
        r == sub_mod_u64(a, b),
{
    num::traits::WrappingSub::wrapping_sub(&a, &b)
}

/// `<u64 as num::PrimInt>::rotate_left`, which shifts the bits to the left by
/// `n` and wraps the truncated bits to the end of the result.
#[verifier::external_body]
pub(crate) fn rotate_left_u64(x: u64, n: u32) -> (r: u64)
    requires
        n < 64,
    ensures
        r == rotl_u64(x, n),
{
    num::PrimInt::rotate_left(x, n)
}

/// `<u64 as num::PrimInt>::rotate_right`, which shifts the bits to the right
/// by `n` and wraps the truncated bits to the beginning of the result.
#[verifier::external_body]
pub(crate) fn rotate_right_u64(x: u64, n: u32) -> (r: u64)
    requires
        n < 64,
    ensures
        r == rotr_u64(x, n),
{
    num::PrimInt::rotate_right(x, n)
}

/// `<u64 as num::PrimInt>::unsigned_shl`, which shifts the bits to the left
/// by `n` and fills the low bits with zeros; bits shifted past the top are
/// lost. The shift overflows for `n` of 64 or more, which is left out.
#[verifier::external_body]
pub(crate) fn unsigned_shl_u64(x: u64, n: u32) -> (r: u64)
    requires
        n < 64,
    ensures
        r == x << n,
{
    num::PrimInt::unsigned_shl(x, n)
}

/// The quotient of `x` by `y`, rounded up.
pub open spec fn ceil_div(x: nat, y: nat) -> nat {
    if x % y == 0 {
        x / y
    } else {
        x / y + 1
    }
}

/// `<usize as num::Integer>::div_ceil`, the quotient rounded towards positive
/// infinity. It divides by `y`, so `y` is not zero.
#[verifier::external_body]
pub(crate) fn div_ceil_usize(x: usize, y: usize) -> (r: usize)
    requires
        y > 0,
    ensures
        r == ceil_div(x as nat, y as nat),
{
    num::Integer::div_ceil(&x, &y)
}

} // verus!
