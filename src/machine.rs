use vstd::prelude::*;

verus! {

/// Sum of two words, wrapping at 2^16.
pub open spec fn add16(a: u16, b: u16) -> u16 {
    ((a + b) % 0x10000) as u16
}

/// Difference of two words, wrapping at 2^16.
pub open spec fn sub16(a: u16, b: u16) -> u16 {
    ((a - b + 0x10000) % 0x10000) as u16
}

/// Two's-complement negation of a word.
pub open spec fn neg16(a: u16) -> u16 {
    sub16(0, a)
}

/// Logical left shift; shifting by 16 or more leaves no bits.
pub open spec fn shl16(x: u16, n: u16) -> u16 {
    if n >= 16 {
        0
    } else {
        (x << n) as u16
    }
}

/// Logical right shift; shifting by 16 or more leaves no bits.
pub open spec fn shr16(x: u16, n: u16) -> u16 {
    if n >= 16 {
        0
    } else {
        x >> n
    }
}

/// Arithmetic right shift: the sign bit is copied into the vacated bits.
pub open spec fn sar16(x: u16, n: u16) -> u16 {
    if x < 0x8000 {
        shr16(x, n)
    } else {
        !shr16(!x, n)
    }
}

/// A word read as a two's-complement signed number.
pub open spec fn signed16(x: u16) -> int {
    if x < 0x8000 {
        x as int
    } else {
        x - 0x10000
    }
}

/// A shift by a signed amount: a positive amount shifts in the nominal direction, any other
/// amount shifts the opposite way by its two's-complement negation.
pub open spec fn signed_shift(x: u16, amount: u16, positive: spec_fn(u16, u16) -> u16, negative: spec_fn(u16, u16) -> u16) -> u16 {
    if signed16(amount) > 0 {
        positive(x, amount)
    } else {
        negative(x, neg16(amount))
    }
}

pub fn wrapping_add16(a: u16, b: u16) -> (r: u16)
    ensures
        r == add16(a, b),
{
    let s: u32 = a as u32 + b as u32;
    if s >= 0x10000 {
        (s - 0x10000) as u16
    } else {
        s as u16
    }
}

pub fn wrapping_sub16(a: u16, b: u16) -> (r: u16)
    ensures
        r == sub16(a, b),
{
    if a >= b {
        a - b
    } else {
        (a as u32 + 0x10000 - b as u32) as u16
    }
}

pub fn shift_left(x: u16, n: u16) -> (r: u16)
    ensures
        r == shl16(x, n),
{
    if n >= 16 {
        0
    } else {
        x << n
    }
}

pub fn shift_right(x: u16, n: u16) -> (r: u16)
    ensures
        r == shr16(x, n),
{
    if n >= 16 {
        0
    } else {
        x >> n
    }
}

pub fn shift_right_arithmetic(x: u16, n: u16) -> (r: u16)
    ensures
        r == sar16(x, n),
{
    if x < 0x8000 {
        shift_right(x, n)
    } else {
        !shift_right(!x, n)
    }
}

pub fn is_positive16(x: u16) -> (r: bool)
    ensures
        r == (signed16(x) > 0),
{
    x != 0 && x < 0x8000
}

pub fn signed_less16(a: u16, b: u16) -> (r: bool)
    ensures
        r == (signed16(a) < signed16(b)),
{
    if a < 0x8000 {
        b < 0x8000 && a < b
    } else {
        b < 0x8000 || a < b
    }
}


/// Every arithmetic operation closes over words: sums and differences are taken modulo
/// 2^16, negation is two's complement, and a shift by a negative amount shifts the other
/// way by that amount's magnitude.
pub proof fn wrapping_arithmetic(a: u16, b: u16)
    ensures
        add16(a, b) as int == (a + b) % 0x10000,
        sub16(a, b) as int == (a - b + 0x10000) % 0x10000,
        neg16(b) as int == (0x10000 - b) % 0x10000,
        signed16(b) < 0 ==> neg16(b) as int == -signed16(b),
        signed16(b) > 0 ==> signed_shift(a, b, |x: u16, n: u16| shl16(x, n), |x: u16, n: u16| shr16(x, n)) == shl16(a, b),
        signed16(b) <= 0 ==> signed_shift(a, b, |x: u16, n: u16| shl16(x, n), |x: u16, n: u16| shr16(x, n)) == shr16(a, neg16(b)),
        -0x8000 <= signed16(a) < 0x8000,
{
}

} // verus!

verus! {

/// For amounts below 16 the shifts are the machine's own: logical shifts of the word, and an
/// arithmetic right shift of the word read as a signed number.
pub proof fn shifts_match_native(x: u16, n: u16)
    requires
        n < 16,
    ensures
        shl16(x, n) == (x << n) as u16,
        shr16(x, n) == x >> n,
        sar16(x, n) == ((x as i16) >> n) as u16,
{
    assert(x < 0x8000 ==> (((x as i16) >> n) as u16 == x >> n)) by (bit_vector)
        requires
            n < 16,
    ;
    assert(x >= 0x8000 ==> (((x as i16) >> n) as u16 == !((!x) >> n))) by (bit_vector)
        requires
            n < 16,
    ;
}

} // verus!
