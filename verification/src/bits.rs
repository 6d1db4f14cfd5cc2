//! Conversions between integers that keep the low bits.

use vstd::prelude::*;

verus! {

/// The low 32 bits of an integer, unsigned.
#[verifier::opaque]
pub open spec fn low_u32(n: int) -> u32 {
    (n % 0x1_0000_0000) as u32
}

/// The low 32 bits of an integer, in two's complement.
#[verifier::opaque]
pub open spec fn low_i32(n: int) -> i32 {
    if n % 0x1_0000_0000 < 0x8000_0000 {
        (n % 0x1_0000_0000) as i32
    } else {
        (n % 0x1_0000_0000 - 0x1_0000_0000) as i32
    }
}

/// The low 64 bits of an integer, in two's complement.
#[verifier::opaque]
pub open spec fn low_i64(n: int) -> i64 {
    if n % 0x1_0000_0000_0000_0000 < 0x8000_0000_0000_0000 {
        (n % 0x1_0000_0000_0000_0000) as i64
    } else {
        (n % 0x1_0000_0000_0000_0000 - 0x1_0000_0000_0000_0000) as i64
    }
}

#[verifier::truncate]
pub fn u64_to_i64(n: u64) -> (r: i64)
    ensures
        r == low_i64(n as int),
{
    proof {
        reveal(low_i64);
    }
    let r: i64 = n as i64;
    assert(r == if n < 0x8000_0000_0000_0000 {
        n as int
    } else {
        n - 0x1_0000_0000_0000_0000
    }) by (bit_vector)
        requires
            r == n as i64,
    ;
    r
}

#[verifier::truncate]
pub fn u32_to_i32(n: u32) -> (r: i32)
    ensures
        r == low_i32(n as int),
{
    proof {
        reveal(low_i32);
    }
    let r: i32 = n as i32;
    assert(r == if n < 0x8000_0000 {
        n as int
    } else {
        n - 0x1_0000_0000
    }) by (bit_vector)
        requires
            r == n as i32,
    ;
    r
}

#[verifier::truncate]
pub fn i32_to_u32(n: i32) -> (r: u32)
    ensures
        r == low_u32(n as int),
{
    proof {
        reveal(low_u32);
    }
    let r: u32 = n as u32;
    assert(r == if n < 0 {
        n + 0x1_0000_0000
    } else {
        n as int
    }) by (bit_vector)
        requires
            r == n as u32,
    ;
    r
}

pub fn u64_to_u32(n: u64) -> (r: u32)
    ensures
        r == low_u32(n as int),
{
    proof {
        reveal(low_u32);
    }
    (n % 0x1_0000_0000) as u32
}

pub fn usize_to_u32(n: usize) -> (r: u32)
    ensures
        r == low_u32(n as int),
{
    u64_to_u32(n as u64)
}

#[verifier::truncate]
fn i64_to_u64(n: i64) -> (r: u64)
    ensures
        r == if n < 0 {
            n + 0x1_0000_0000_0000_0000
        } else {
            n as int
        },
{
    let r: u64 = n as u64;
    assert(r == if n < 0 {
        n + 0x1_0000_0000_0000_0000
    } else {
        n as int
    }) by (bit_vector)
        requires
            r == n as u64,
    ;
    r
}

pub fn i64_to_u32(n: i64) -> (r: u32)
    ensures
        r == low_u32(n as int),
{
    proof {
        reveal(low_u32);
    }
    u64_to_u32(i64_to_u64(n))
}

} // verus!
