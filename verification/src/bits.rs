//! Single bits and bit fields of an 8-bit hardware word.
//!
//! Bits are numbered from 0, the least significant, to 7. A field is a run
//! of neighbouring bits, named by its most and its least significant bit.
use vstd::prelude::*;

verus! {

/// Bit `index` of `word`.
pub open spec fn bit(word: u8, index: u8) -> bool {
    (word >> index) & 1 == 1
}

/// `word` with bit `index` replaced by `value`.
pub open spec fn with_bit(word: u8, index: u8, value: bool) -> u8 {
    if value {
        word | (1u8 << index)
    } else {
        word & !(1u8 << index)
    }
}

/// The word whose set bits are those from `lsb` up to `msb`.
pub open spec fn field_mask(msb: u8, lsb: u8) -> u8 {
    (0xffu8 >> ((7u8 - msb) as u8)) & (0xffu8 << lsb)
}

/// The number held in bits `lsb` to `msb` of `word`.
pub open spec fn bit_range(word: u8, msb: u8, lsb: u8) -> u8 {
    (word & field_mask(msb, lsb)) >> lsb
}

/// `word` with bits `lsb` to `msb` replaced by the lowest bits of `value`.
pub open spec fn with_bit_range(word: u8, msb: u8, lsb: u8, value: u8) -> u8 {
    (word & !field_mask(msb, lsb)) | ((value << lsb) & field_mask(msb, lsb))
}

/// Reads bit `index` of `word`.
pub fn get_bit(word: u8, index: u8) -> (value: bool)
    requires
        index < 8,
    ensures
        value == bit(word, index),
{
    (word >> index) & 1 == 1
}

/// Returns `word` with bit `index` replaced by `value`.
pub fn set_bit(word: u8, index: u8, value: bool) -> (changed: u8)
    requires
        index < 8,
    ensures
        changed == with_bit(word, index, value),
{
    if value {
        word | (1u8 << index)
    } else {
        word & !(1u8 << index)
    }
}

/// Reads the number held in bits `lsb` to `msb` of `word`.
pub fn get_bit_range(word: u8, msb: u8, lsb: u8) -> (value: u8)
    requires
        lsb <= msb < 8,
    ensures
        value == bit_range(word, msb, lsb),
{
    let mask: u8 = (0xffu8 >> (7u8 - msb)) & (0xffu8 << lsb);
    (word & mask) >> lsb
}

/// Returns `word` with bits `lsb` to `msb` replaced by the lowest bits of
/// `value`.
pub fn set_bit_range(word: u8, msb: u8, lsb: u8, value: u8) -> (changed: u8)
    requires
        lsb <= msb < 8,
    ensures
        changed == with_bit_range(word, msb, lsb, value),
{
    let mask: u8 = (0xffu8 >> (7u8 - msb)) & (0xffu8 << lsb);
    (word & !mask) | ((value << lsb) & mask)
}

/// Replacing one bit gives that bit the new value and leaves the seven
/// others as they were.
pub proof fn lemma_with_bit(word: u8, index: u8, value: bool)
    by (bit_vector)
    requires
        index < 8,
    ensures
        forall|other: u8|
            other < 8 ==> #[trigger] bit(with_bit(word, index, value), other) == (if other
                == index {
                value
            } else {
                bit(word, other)
            }),
{
}

/// Replacing a bit outside a field leaves the field's number as it was.
pub proof fn lemma_with_bit_keeps_bit_range(word: u8, index: u8, value: bool, msb: u8, lsb: u8)
    by (bit_vector)
    requires
        lsb <= msb < 8,
        index < 8,
        index < lsb || msb < index,
    ensures
        bit_range(with_bit(word, index, value), msb, lsb) == bit_range(word, msb, lsb),
{
}

/// Replacing a field stores the bits of the value, lowest first, and leaves
/// every bit outside the field as it was.
pub proof fn lemma_with_bit_range(word: u8, msb: u8, lsb: u8, value: u8)
    by (bit_vector)
    requires
        lsb <= msb < 8,
    ensures
        forall|other: u8|
            other < 8 ==> #[trigger] bit(with_bit_range(word, msb, lsb, value), other) == (if lsb
                <= other <= msb {
                bit(value, (other - lsb) as u8)
            } else {
                bit(word, other)
            }),
{
}

/// A field that was replaced reads back as the value, cut to the field's
/// width.
pub proof fn lemma_bit_range_of_with_bit_range(word: u8, msb: u8, lsb: u8, value: u8)
    by (bit_vector)
    requires
        lsb <= msb < 8,
    ensures
        bit_range(with_bit_range(word, msb, lsb, value), msb, lsb) == bit_range(
            value,
            (msb - lsb) as u8,
            0,
        ),
{
}

/// The word 0 has every bit clear.
pub proof fn lemma_zero_word()
    by (bit_vector)
    ensures
        forall|index: u8| index < 8 ==> !#[trigger] bit(0, index),
        forall|msb: u8, lsb: u8| lsb <= msb < 8 ==> #[trigger] bit_range(0, msb, lsb) == 0,
{
}

/// Two words with the same eight bits are the same word.
pub proof fn lemma_same_bits(a: u8, b: u8)
    by (bit_vector)
    requires
        bit(a, 0) == bit(b, 0),
        bit(a, 1) == bit(b, 1),
        bit(a, 2) == bit(b, 2),
        bit(a, 3) == bit(b, 3),
        bit(a, 4) == bit(b, 4),
        bit(a, 5) == bit(b, 5),
        bit(a, 6) == bit(b, 6),
        bit(a, 7) == bit(b, 7),
    ensures
        a == b,
{
}

/// The number in the five lowest bits of a word, together with its three
/// highest bits, determines the word.
pub proof fn lemma_same_high_bits_and_low_field(a: u8, b: u8)
    by (bit_vector)
    requires
        bit(a, 7) == bit(b, 7),
        bit(a, 6) == bit(b, 6),
        bit(a, 5) == bit(b, 5),
        bit_range(a, 4, 0) == bit_range(b, 4, 0),
    ensures
        a == b,
{
}

} // verus!
