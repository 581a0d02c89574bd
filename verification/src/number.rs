//! Numbers as IEEE 754 binary64 encodings: one sign bit, eleven exponent
//! bits, fifty-two fraction bits.

use vstd::prelude::*;

verus! {

/// The sign bit of an encoding; below it lies the magnitude.
pub const SIGN_BIT: u64 = 0x8000_0000_0000_0000;

/// The encoding of positive infinity: every larger magnitude is a NaN.
pub const INFINITY: u64 = 0x7FF0_0000_0000_0000;

/// The four binary operations that the caller's arithmetic carries out.
#[derive(Clone, Copy, Debug, PartialEq, Eq, Structural)]
pub enum Operator {
    Add,
    Subtract,
    Multiply,
    Divide,
}

/// An encoding without its sign.
pub open spec fn magnitude(bits: u64) -> int {
    bits as int % SIGN_BIT as int
}

/// The encoding is not a number: its exponent is all ones and its fraction
/// is not zero.
pub open spec fn is_nan(bits: u64) -> bool {
    magnitude(bits) > INFINITY as int
}

/// The encoding of the opposite number: the same magnitude, the other sign.
pub open spec fn negated(bits: u64) -> u64 {
    if bits < SIGN_BIT {
        (bits + SIGN_BIT) as u64
    } else {
        (bits - SIGN_BIT) as u64
    }
}

/// Two encodings stand for equal numbers: neither is a NaN, and they are
/// the same encoding or the two zeros.
pub open spec fn same_number(a: u64, b: u64) -> bool {
    &&& !is_nan(a)
    &&& !is_nan(b)
    &&& (a == b || (magnitude(a) == 0 && magnitude(b) == 0))
}

/// Every triple is an acceptable input of `f`.
pub open spec fn total<A: Fn(Operator, u64, u64) -> u64>(f: A) -> bool {
    forall|op: Operator, a: u64, b: u64| #[trigger] f.requires((op, a, b))
}

/// `m` is the arithmetic that `f` carries out: whatever `f` returns for a
/// triple is what `m` gives for it.
pub open spec fn computes<A: Fn(Operator, u64, u64) -> u64>(
    f: A,
    m: spec_fn(Operator, u64, u64) -> u64,
) -> bool {
    forall|op: Operator, a: u64, b: u64, r: u64| #[trigger]
        f.ensures((op, a, b), r) ==> r == m(op, a, b)
}

/// Every text is an acceptable input of `f`.
pub open spec fn reads_all<L: Fn(&str) -> Option<u64>>(f: L) -> bool {
    forall|s: &str| #[trigger] f.requires((s,))
}

/// `reading` is the reading of literals that `f` carries out: whatever `f`
/// returns for a string is what `reading` gives for its text, a number or
/// `None` where the text spells none.
pub open spec fn reads_as<L: Fn(&str) -> Option<u64>>(
    f: L,
    reading: spec_fn(Seq<char>) -> Option<u64>,
) -> bool {
    forall|s: &str, r: Option<u64>| #[trigger] f.ensures((s,), r) ==> r == reading(s@)
}

/// Flips the sign of a number.
pub fn negate(bits: u64) -> (r: u64)
    ensures
        r == negated(bits),
{
    let r: u64 = bits ^ SIGN_BIT;
    assert(r == if bits < 0x8000_0000_0000_0000u64 {
        (bits + 0x8000_0000_0000_0000u64) as u64
    } else {
        (bits - 0x8000_0000_0000_0000u64) as u64
    }) by (bit_vector)
        requires
            r == bits ^ 0x8000_0000_0000_0000u64,
    ;
    r
}

/// Whether two encodings stand for equal numbers, as IEEE 754 compares
/// them: a NaN equals nothing, and the two zeros equal each other.
pub fn equal(a: u64, b: u64) -> (r: bool)
    ensures
        r == same_number(a, b),
{
    let ma: u64 = a & 0x7FFF_FFFF_FFFF_FFFF;
    let mb: u64 = b & 0x7FFF_FFFF_FFFF_FFFF;
    assert(ma == a % 0x8000_0000_0000_0000u64) by (bit_vector)
        requires
            ma == a & 0x7FFF_FFFF_FFFF_FFFFu64,
    ;
    assert(mb == b % 0x8000_0000_0000_0000u64) by (bit_vector)
        requires
            mb == b & 0x7FFF_FFFF_FFFF_FFFFu64,
    ;
    ma <= INFINITY && mb <= INFINITY && (a == b || (ma == 0 && mb == 0))
}

} // verus!
