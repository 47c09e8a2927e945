use vstd::bytes::{spec_u64_from_le_bytes, spec_u64_to_le_bytes, u64_from_le_bytes, u64_to_le_bytes};
use vstd::arithmetic::power2::{lemma2_to64, lemma2_to64_rest, lemma_pow2_strictly_increases, pow2};
use vstd::bits::{lemma_u64_shl_is_mul, lemma_u64_shr_is_div};
use vstd::prelude::*;

verus! {

/// A tagged machine value: one stack slot or one instruction operand.
///
/// A float is held as its IEEE-754 binary64 bit pattern, a pointer as its
/// raw address; neither is ever dereferenced or computed on here.
#[derive(Debug, Clone, Copy, PartialEq, Eq, Structural)]
pub enum Word {
    Int(i64),
    UInt(u64),
    Float(u64),
    Ptr(u64),
}

/// Which variant of `Word` a payload is to be read back as.
#[derive(Debug, Clone, Copy, PartialEq, Eq, Structural)]
pub enum WordTag {
    Int,
    UInt,
    Float,
    Ptr,
}

/// The payload of a word as 64 raw bits; the tag is not part of it.
pub open spec fn payload_bits(w: Word) -> u64 {
    match w {
        Word::Int(n) => n as u64,
        Word::UInt(n) => n,
        Word::Float(b) => b,
        Word::Ptr(a) => a,
    }
}

pub open spec fn tag_of(w: Word) -> WordTag {
    match w {
        Word::Int(_) => WordTag::Int,
        Word::UInt(_) => WordTag::UInt,
        Word::Float(_) => WordTag::Float,
        Word::Ptr(_) => WordTag::Ptr,
    }
}

/// The word of the given tag whose payload is `bits`.
pub open spec fn word_from_bits(tag: WordTag, bits: u64) -> Word {
    match tag {
        WordTag::Int => Word::Int(bits as i64),
        WordTag::UInt => Word::UInt(bits),
        WordTag::Float => Word::Float(bits),
        WordTag::Ptr => Word::Ptr(bits),
    }
}

pub open spec fn word_le_bytes(w: Word) -> Seq<u8> {
    spec_u64_to_le_bytes(payload_bits(w))
}

pub open spec fn word_from_le_bytes(tag: WordTag, bytes: Seq<u8>) -> Word {
    word_from_bits(tag, spec_u64_from_le_bytes(bytes))
}

/// Reading a word's payload back under its own tag gives the word again.
pub proof fn lemma_word_bits_round_trip(w: Word)
    ensures
        word_from_bits(tag_of(w), payload_bits(w)) == w,
{
    if let Word::Int(n) = w {
        assert((n as u64) as i64 == n) by (bit_vector);
    }
}

/// Encoding a word's payload to bytes and decoding it under its own tag
/// gives the word again.
pub proof fn lemma_word_bytes_round_trip(w: Word)
    ensures
        word_le_bytes(w).len() == 8,
        word_from_le_bytes(tag_of(w), word_le_bytes(w)) == w,
{
    vstd::bytes::lemma_auto_spec_u64_to_from_le_bytes();
    lemma_word_bits_round_trip(w);
}

pub const FLOAT_FRACTION_MASK: u64 = 0xf_ffff_ffff_ffff;

pub const FLOAT_EXPONENT_MAX: u64 = 0x7ff;

/// The biased exponent field of a binary64 bit pattern.
pub open spec fn float_exponent(b: u64) -> u64 {
    (b >> 52u64) & 0x7ffu64
}

/// The fraction (trailing significand) field of a binary64 bit pattern.
pub open spec fn float_fraction(b: u64) -> u64 {
    b & FLOAT_FRACTION_MASK
}

pub open spec fn float_negative(b: u64) -> bool {
    (b >> 63u64) == 1
}

pub open spec fn float_is_nan(b: u64) -> bool {
    float_exponent(b) == FLOAT_EXPONENT_MAX && float_fraction(b) != 0
}

pub open spec fn float_is_infinite(b: u64) -> bool {
    float_exponent(b) == FLOAT_EXPONENT_MAX && float_fraction(b) == 0
}

/// Whether the float is +0.0 or -0.0.
pub open spec fn float_is_zero(b: u64) -> bool {
    float_exponent(b) == 0 && float_fraction(b) == 0
}

/// The absolute value of a finite float, rounded toward zero to an integer.
/// Subnormal numbers are below one, so they truncate to zero.
pub open spec fn float_trunc_magnitude(b: u64) -> nat {
    let e = float_exponent(b) as nat;
    let sig = float_fraction(b) as nat + pow2(52);
    if e == 0 {
        0
    } else if e >= 1075 {
        sig * pow2((e - 1075) as nat)
    } else {
        sig / pow2((1075 - e) as nat)
    }
}

/// A float converted to `i64` by truncation toward zero, saturating at the
/// bounds; NaN becomes zero.
pub open spec fn float_to_i64(b: u64) -> i64 {
    if float_is_nan(b) {
        0
    } else if float_is_infinite(b) {
        if float_negative(b) { i64::MIN } else { i64::MAX }
    } else if float_negative(b) {
        if float_trunc_magnitude(b) >= 0x8000_0000_0000_0000 {
            i64::MIN
        } else {
            (-(float_trunc_magnitude(b) as int)) as i64
        }
    } else if float_trunc_magnitude(b) > i64::MAX {
        i64::MAX
    } else {
        float_trunc_magnitude(b) as i64
    }
}

/// A float converted to `u64` by truncation toward zero, saturating at the
/// bounds; NaN and negative values become zero.
pub open spec fn float_to_u64(b: u64) -> u64 {
    if float_is_nan(b) || float_negative(b) {
        0
    } else if float_is_infinite(b) || float_trunc_magnitude(b) > u64::MAX {
        u64::MAX
    } else {
        float_trunc_magnitude(b) as u64
    }
}

/// The truncated magnitude of a finite float, or `None` where it does not
/// fit in 64 bits.
fn float_magnitude(b: u64) -> (r: Option<u64>)
    requires
        float_exponent(b) != FLOAT_EXPONENT_MAX,
    ensures
        r matches Some(m) ==> m as nat == float_trunc_magnitude(b),
        r is None ==> float_trunc_magnitude(b) > u64::MAX,
{
    let e: u64 = (b >> 52u64) & 0x7ffu64;
    let frac: u64 = b & FLOAT_FRACTION_MASK;
    proof {
        lemma2_to64();
        lemma2_to64_rest();
        assert(frac < 0x10_0000_0000_0000u64) by (bit_vector)
            requires frac == b & 0xf_ffff_ffff_ffffu64;
        assert(e <= 0x7ffu64) by (bit_vector)
            requires e == (b >> 52u64) & 0x7ffu64;
    }
    let sig: u64 = frac | 0x10_0000_0000_0000u64;
    proof {
        assert(sig == frac + 0x10_0000_0000_0000u64) by (bit_vector)
            requires sig == frac | 0x10_0000_0000_0000u64, frac < 0x10_0000_0000_0000u64;
    }
    if e < 1023 {
        proof {
            if e != 0 {
                let k = (1075 - e) as nat;
                if k > 53 {
                    lemma_pow2_strictly_increases(53, k);
                }
                let d = pow2(k);
                assert(sig as nat / d == 0) by (nonlinear_arith)
                    requires sig < 0x20_0000_0000_0000nat, d >= 0x20_0000_0000_0000nat;
            }
        }
        Some(0)
    } else if e >= 1087 {
        proof {
            let k = (e - 1075) as nat;
            if k > 12 {
                lemma_pow2_strictly_increases(12, k);
            }
            let p = pow2(k);
            assert(sig as nat * p > u64::MAX) by (nonlinear_arith)
                requires sig >= 0x10_0000_0000_0000nat, p >= 0x1000nat;
        }
        None
    } else if e >= 1075 {
        let k: u64 = e - 1075;
        proof {
            if k < 11 {
                lemma_pow2_strictly_increases(k as nat, 11);
            }
            let p = pow2(k as nat);
            assert(sig as nat * p <= u64::MAX) by (nonlinear_arith)
                requires sig < 0x20_0000_0000_0000nat, p <= 0x800nat;
            lemma_u64_shl_is_mul(sig, k);
        }
        Some(sig << k)
    } else {
        let k: u64 = 1075 - e;
        proof {
            lemma_u64_shr_is_div(sig, k);
        }
        Some(sig >> k)
    }
}

/// Converts a float bit pattern to `i64` as Rust's `as` cast does.
pub fn float_bits_to_i64(b: u64) -> (r: i64)
    ensures
        r == float_to_i64(b),
{
    let e: u64 = (b >> 52u64) & 0x7ffu64;
    let frac: u64 = b & FLOAT_FRACTION_MASK;
    let negative = (b >> 63u64) == 1;
    if e == FLOAT_EXPONENT_MAX {
        if frac != 0 {
            0
        } else if negative {
            i64::MIN
        } else {
            i64::MAX
        }
    } else {
        match float_magnitude(b) {
            None => if negative { i64::MIN } else { i64::MAX },
            Some(m) => {
                if negative {
                    if m >= 0x8000_0000_0000_0000u64 {
                        i64::MIN
                    } else {
                        -(m as i64)
                    }
                } else if m > i64::MAX as u64 {
                    i64::MAX
                } else {
                    m as i64
                }
            },
        }
    }
}

/// Converts a float bit pattern to `u64` as Rust's `as` cast does.
pub fn float_bits_to_u64(b: u64) -> (r: u64)
    ensures
        r == float_to_u64(b),
{
    let e: u64 = (b >> 52u64) & 0x7ffu64;
    let frac: u64 = b & FLOAT_FRACTION_MASK;
    let negative = (b >> 63u64) == 1;
    if e == FLOAT_EXPONENT_MAX && frac != 0 {
        0
    } else if negative {
        0
    } else if e == FLOAT_EXPONENT_MAX {
        u64::MAX
    } else {
        match float_magnitude(b) {
            None => u64::MAX,
            Some(m) => m,
        }
    }
}

/// A word read as a signed integer: the payload of an `Int`, the bits of a
/// `UInt` or a pointer reinterpreted, a float truncated.
pub open spec fn word_as_i64(w: Word) -> i64 {
    match w {
        Word::Int(n) => n,
        Word::UInt(n) => n as i64,
        Word::Float(b) => float_to_i64(b),
        Word::Ptr(a) => a as i64,
    }
}

/// A word read as an unsigned integer.
pub open spec fn word_as_u64(w: Word) -> u64 {
    match w {
        Word::Int(n) => n as u64,
        Word::UInt(n) => n,
        Word::Float(b) => float_to_u64(b),
        Word::Ptr(a) => a,
    }
}

/// Whether a word read as a float is zero.
pub open spec fn word_float_is_zero(w: Word) -> bool {
    match w {
        Word::Int(n) => n == 0,
        Word::UInt(n) => n == 0,
        Word::Float(b) => float_is_zero(b),
        Word::Ptr(a) => a == 0,
    }
}

/// Whether two words have the same tag and the same value; floats compare
/// by value, so NaN equals nothing and the two zeros are equal.
pub open spec fn same_word(a: Word, b: Word) -> bool {
    match (a, b) {
        (Word::Int(x), Word::Int(y)) => x == y,
        (Word::UInt(x), Word::UInt(y)) => x == y,
        (Word::Ptr(x), Word::Ptr(y)) => x == y,
        (Word::Float(x), Word::Float(y)) => !float_is_nan(x) && !float_is_nan(y) && (x == y || (
        float_is_zero(x) && float_is_zero(y))),
        _ => false,
    }
}

impl Word {
    /// The payload as eight little-endian bytes.
    pub fn to_le_bytes(&self) -> (r: Vec<u8>)
        ensures
            r@ == word_le_bytes(*self),
            r@.len() == 8,
    {
        let bits: u64 = match *self {
            Word::Int(n) => n as u64,
            Word::UInt(n) => n,
            Word::Float(b) => b,
            Word::Ptr(a) => a,
        };
        u64_to_le_bytes(bits)
    }

    /// The word of the given tag whose payload is the eight bytes.
    pub fn from_le_bytes(tag: WordTag, bytes: &[u8]) -> (r: Word)
        requires
            bytes@.len() == 8,
        ensures
            r == word_from_le_bytes(tag, bytes@),
    {
        let bits = u64_from_le_bytes(bytes);
        match tag {
            WordTag::Int => Word::Int(bits as i64),
            WordTag::UInt => Word::UInt(bits),
            WordTag::Float => Word::Float(bits),
            WordTag::Ptr => Word::Ptr(bits),
        }
    }

    pub fn tag(&self) -> (r: WordTag)
        ensures
            r == tag_of(*self),
    {
        match *self {
            Word::Int(_) => WordTag::Int,
            Word::UInt(_) => WordTag::UInt,
            Word::Float(_) => WordTag::Float,
            Word::Ptr(_) => WordTag::Ptr,
        }
    }

    pub fn to_i64(&self) -> (r: i64)
        ensures
            r == word_as_i64(*self),
    {
        match *self {
            Word::Int(n) => n,
            Word::UInt(n) => n as i64,
            Word::Float(b) => float_bits_to_i64(b),
            Word::Ptr(a) => a as i64,
        }
    }

    pub fn to_u64(&self) -> (r: u64)
        ensures
            r == word_as_u64(*self),
    {
        match *self {
            Word::Int(n) => n as u64,
            Word::UInt(n) => n,
            Word::Float(b) => float_bits_to_u64(b),
            Word::Ptr(a) => a,
        }
    }

    pub fn is_zero_as_float(&self) -> (r: bool)
        ensures
            r == word_float_is_zero(*self),
    {
        match *self {
            Word::Int(n) => n == 0,
            Word::UInt(n) => n == 0,
            Word::Float(b) => (b >> 52u64) & 0x7ffu64 == 0 && b & FLOAT_FRACTION_MASK == 0,
            Word::Ptr(a) => a == 0,
        }
    }

    /// Same tag and same value (see `same_word`).
    pub fn same_as(&self, other: &Word) -> (r: bool)
        ensures
            r == same_word(*self, *other),
    {
        match (*self, *other) {
            (Word::Int(x), Word::Int(y)) => x == y,
            (Word::UInt(x), Word::UInt(y)) => x == y,
            (Word::Ptr(x), Word::Ptr(y)) => x == y,
            (Word::Float(x), Word::Float(y)) => {
                let x_nan = (x >> 52u64) & 0x7ffu64 == FLOAT_EXPONENT_MAX && x & FLOAT_FRACTION_MASK
                    != 0;
                let y_nan = (y >> 52u64) & 0x7ffu64 == FLOAT_EXPONENT_MAX && y & FLOAT_FRACTION_MASK
                    != 0;
                let x_zero = (x >> 52u64) & 0x7ffu64 == 0 && x & FLOAT_FRACTION_MASK == 0;
                let y_zero = (y >> 52u64) & 0x7ffu64 == 0 && y & FLOAT_FRACTION_MASK == 0;
                !x_nan && !y_nan && (x == y || (x_zero && y_zero))
            },
            _ => false,
        }
    }
}

impl Default for Word {
    fn default() -> (r: Word)
        ensures
            r == Word::UInt(0),
    {
        Word::UInt(0)
    }
}

} // verus!
