//! Bit-field utilities over 64-bit words: reading and writing a field of
//! `width` bits whose least significant bit sits at position `lsb`.

use vstd::prelude::*;
use vstd::arithmetic::power2::{lemma2_to64, lemma2_to64_rest, pow2};
use vstd::bits::{lemma_u64_pow2_no_overflow, lemma_u64_shl_is_mul};

verus! {

/// The unsigned value of the field: the `width` bits of `word` beginning
/// at bit `lsb`.
pub open spec fn field_of(word: u64, width: u64, lsb: u64) -> u64 {
    (word >> lsb) & (((1u64 << width) - 1) as u64)
}

/// The signed value of the field: its `width` bits read as two's
/// complement.
pub open spec fn signed_field_of(word: u64, width: u64, lsb: u64) -> int {
    let u = field_of(word, width, lsb);
    if u >= pow2((width - 1) as nat) {
        u - pow2(width as nat)
    } else {
        u as int
    }
}

/// The mask selecting the `width`-bit field at bit `lsb`.
pub open spec fn mask_at(width: u64, lsb: u64) -> u64 {
    (((1u64 << width) - 1) as u64) << lsb
}

/// `word` with the `width`-bit field at `lsb` replaced by `value`.
pub open spec fn with_field(word: u64, width: u64, lsb: u64, value: u64) -> u64 {
    (word & !mask_at(width, lsb)) | (value << lsb)
}

/// Whether the unsigned value `n` fits into `width` unsigned bits, that
/// is, `n <= 2^width - 1`.
pub fn fitsu(n: u64, width: u64) -> (r: bool)
    requires
        1 <= width <= 64,
    ensures
        r <==> (width == 64 || n < (1u64 << width)),
{
    proof {
        assert(width < 64u64 ==> 1u64 << width >= 1) by (bit_vector);
    }
    if width == 64 {
        true
    } else {
        n <= (1u64 << width) - 1
    }
}

/// Whether the signed value `n` fits into `width` signed bits, that is,
/// `-(2^(width-1)) <= n <= 2^(width-1) - 1`.
pub fn fitss(n: i64, width: u64) -> (r: bool)
    requires
        1 <= width <= 63,
    ensures
        r <==> -(1u64 << (width - 1)) <= n <= (1u64 << (width - 1)) - 1,
{
    let wm1 = width - 1;
    let half = 1u64 << wm1;
    proof {
        assert(1u64 << wm1 >= 1 && 1u64 << wm1 <= 0x4000_0000_0000_0000u64) by (bit_vector)
            requires
                wm1 <= 62u64,
        ;
    }
    let upper_bound = (half - 1) as i64;
    let lower_bound = -(half as i64);
    n <= upper_bound && n >= lower_bound
}

/// Retrieve an unsigned value from `word`, represented by `width` bits
/// beginning at least-significant bit `lsb`.
#[verifier::rlimit(100)]
pub fn getu(word: u64, width: u64, lsb: u64) -> (r: u64)
    requires
        1 <= width,
        width + lsb <= 64,
    ensures
        r == field_of(word, width, lsb),
{
    proof {
        assert((word << ((64 - width - lsb) as u64)) >> ((64 - width) as u64)
            == (word >> lsb) & (((1u64 << width) - 1) as u64)) by (bit_vector)
            requires
                1 <= width && width + lsb <= 64,
        ;
    }
    (word << (64 - width - lsb)) >> (64 - width)
}

/// Retrieve a signed value from `word`, represented by `width` bits
/// beginning at least-significant bit `lsb`.
pub fn gets(word: u64, width: u64, lsb: u64) -> (r: i64)
    requires
        1 <= width,
        width + lsb <= 64,
    ensures
        r == signed_field_of(word, width, lsb),
{
    let u = getu(word, width, lsb);
    if width == 64 {
        proof {
            lemma2_to64();
            lemma2_to64_rest();
            assert((word >> 0u64) & (((1u64 << 64u64) - 1) as u64) == word) by (bit_vector);
            assert(word >= 0x8000_0000_0000_0000u64
                ==> (word as i64) == word - 0x1_0000_0000_0000_0000) by (bit_vector);
            assert(word < 0x8000_0000_0000_0000u64 ==> (word as i64) == word) by (bit_vector);
        }
        u as i64
    } else {
        let wm1 = width - 1;
        let half = 1u64 << wm1;
        proof {
            lemma_u64_pow2_no_overflow(wm1 as nat);
            lemma_u64_pow2_no_overflow(width as nat);
            lemma_u64_shl_is_mul(1, wm1);
            lemma_u64_shl_is_mul(1, width);
            assert((word >> lsb) & (((1u64 << width) - 1) as u64) < (1u64 << width)
                && (1u64 << width) == 2 * (1u64 << wm1)) by (bit_vector)
                requires
                    1 <= width <= 63 && wm1 == width - 1,
            ;
        }
        if u >= half {
            let modulus = 1u64 << width;
            -((modulus - u) as i64)
        } else {
            u as i64
        }
    }
}

/// Return `word` updated so that the `width` bits beginning at
/// least-significant bit `lsb` now contain the unsigned `value`: `None`
/// iff the value does not fit in `width` unsigned bits.
pub fn newu(word: u64, width: u64, lsb: u64, value: u64) -> (r: Option<u64>)
    requires
        1 <= width,
        width + lsb <= 64,
    ensures
        (width == 64 || value < (1u64 << width))
            ==> r == Some(with_field(word, width, lsb, value)),
        !(width == 64 || value < (1u64 << width)) ==> r is None,
{
    if fitsu(value, width) {
        proof {
            assert(u64::MAX >> ((64 - width) as u64) == (((1u64 << width) - 1) as u64))
                by (bit_vector)
                requires
                    1 <= width <= 64,
            ;
        }
        let mask = (u64::MAX >> (64 - width)) << lsb;
        Some((word & !mask) | (value << lsb))
    } else {
        None
    }
}

/// Return `word` updated so that the `width` bits beginning at
/// least-significant bit `lsb` now contain the two's-complement form of
/// the signed `value`: `None` iff the value does not fit in `width`
/// signed bits.
pub fn news(word: u64, width: u64, lsb: u64, value: i64) -> (r: Option<u64>)
    requires
        1 <= width <= 63,
        width + lsb <= 64,
    ensures
        -(1u64 << (width - 1)) <= value <= (1u64 << (width - 1)) - 1
            ==> r == Some(with_field(word, width, lsb, (value as u64) & (((1u64 << width) - 1) as u64))),
        !(-(1u64 << (width - 1)) <= value <= (1u64 << (width - 1)) - 1) ==> r is None,
{
    if fitss(value, width) {
        proof {
            assert(u64::MAX >> ((64 - width) as u64) == (((1u64 << width) - 1) as u64))
                by (bit_vector)
                requires
                    1 <= width <= 63,
            ;
        }
        let low_mask = u64::MAX >> (64 - width);
        let masked = (value as u64) & low_mask;
        Some((word & !(low_mask << lsb)) | (masked << lsb))
    } else {
        None
    }
}

/// Law: writing a fitting value into a field and reading the field back
/// yields the value, whatever the word held before.
#[verifier::rlimit(100)]
pub proof fn lemma_field_round_trip(word: u64, width: u64, lsb: u64, value: u64)
    requires
        1 <= width,
        width + lsb <= 64,
        width == 64 || value < (1u64 << width),
    ensures
        field_of(with_field(word, width, lsb, value), width, lsb) == value,
{
    assert((((word & !((((1u64 << width) - 1) as u64) << lsb)) | (value << lsb)) >> lsb)
        & (((1u64 << width) - 1) as u64) == value) by (bit_vector)
        requires
            1 <= width && width + lsb <= 64 && (width == 64u64 || value < (1u64 << width)),
    ;
}

} // verus!
