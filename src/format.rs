//! Format information: the BCH-coded level and mask reference.

use vstd::prelude::*;
use crate::error_correction::ErrorCorrectionLevel;
use crate::mask::Masked;
use crate::matrix::{format_layer, painted};

verus! {

/// The two format bits naming an error correction level.
pub open spec fn level_bits(level: ErrorCorrectionLevel) -> int {
    match level {
        ErrorCorrectionLevel::Low => 0b01,
        ErrorCorrectionLevel::Medium => 0b00,
        ErrorCorrectionLevel::Quartile => 0b11,
        ErrorCorrectionLevel::High => 0b10,
    }
}

spec fn format_table(data_bits: u8) -> u16 {
    match data_bits {
        0 => 0x5412,
        1 => 0x5125,
        2 => 0x5e7c,
        3 => 0x5b4b,
        4 => 0x45f9,
        5 => 0x40ce,
        6 => 0x4f97,
        7 => 0x4aa0,
        8 => 0x77c4,
        9 => 0x72f3,
        10 => 0x7daa,
        11 => 0x789d,
        12 => 0x662f,
        13 => 0x6318,
        14 => 0x6c41,
        15 => 0x6976,
        16 => 0x1689,
        17 => 0x13be,
        18 => 0x1ce7,
        19 => 0x19d0,
        20 => 0x0762,
        21 => 0x0255,
        22 => 0x0d0c,
        23 => 0x083b,
        24 => 0x355f,
        25 => 0x3068,
        26 => 0x3f31,
        27 => 0x3a06,
        28 => 0x24b4,
        29 => 0x2183,
        30 => 0x2eda,
        _ => 0x2bed,
    }
}

/// One step of polynomial division over GF(2): where `v` has bit `bit` set,
/// subtract (XOR) the generator shifted to that bit.
pub open spec fn bch_step(v: u32, bit: u32, shifted_generator: u32) -> u32 {
    if v & bit != 0u32 {
        v ^ shifted_generator
    } else {
        v
    }
}

/// The remainder of a 15-bit polynomial modulo the BCH(15,5) generator
/// x^10 + x^8 + x^5 + x^4 + x^2 + x + 1 (0b10100110111), over GF(2).
pub open spec fn bch_remainder(v: u32) -> u32 {
    bch_step(
        bch_step(
            bch_step(
                bch_step(bch_step(v, 0x4000u32, 0x537u32 << 4u32), 0x2000u32, 0x537u32 << 3u32),
                0x1000u32,
                0x537u32 << 2u32,
            ),
            0x800u32,
            0x537u32 << 1u32,
        ),
        0x400u32,
        0x537u32,
    )
}

/// The 15-bit format sequence of five data bits: the data shifted left by 10,
/// followed by its BCH(15,5) remainder, then XORed with 0b101010000010010.
pub open spec fn spec_masked_sequence(data_bits: u8) -> u16 {
    let d = (data_bits as u32) << 10u32;
    ((d | bch_remainder(d)) ^ 0x5412u32) as u16
}

proof fn lemma_format_table(data_bits: u8)
    by (bit_vector)
    requires
        data_bits < 32,
    ensures
        format_table(data_bits) == spec_masked_sequence(data_bits),
{
}

/// The format word of a level and mask reference.
pub open spec fn format_word(level: ErrorCorrectionLevel, mask_reference: int) -> u16 {
    spec_masked_sequence((level_bits(level) * 8 + mask_reference) as u8)
}

/// Computes the format information of a level and mask reference.
pub struct FormatEncoder {
    pub error_correction_level: ErrorCorrectionLevel,
    pub mask_reference: u8,
}

impl FormatEncoder {
    fn masked_sequence(data_bits: u8) -> (r: u16)
        requires
            data_bits < 32,
        ensures
            r == spec_masked_sequence(data_bits),
    {
        proof {
            lemma_format_table(data_bits);
        }
        match data_bits {
            0 => 0x5412,
            1 => 0x5125,
            2 => 0x5e7c,
            3 => 0x5b4b,
            4 => 0x45f9,
            5 => 0x40ce,
            6 => 0x4f97,
            7 => 0x4aa0,
            8 => 0x77c4,
            9 => 0x72f3,
            10 => 0x7daa,
            11 => 0x789d,
            12 => 0x662f,
            13 => 0x6318,
            14 => 0x6c41,
            15 => 0x6976,
            16 => 0x1689,
            17 => 0x13be,
            18 => 0x1ce7,
            19 => 0x19d0,
            20 => 0x0762,
            21 => 0x0255,
            22 => 0x0d0c,
            23 => 0x083b,
            24 => 0x355f,
            25 => 0x3068,
            26 => 0x3f31,
            27 => 0x3a06,
            28 => 0x24b4,
            29 => 0x2183,
            30 => 0x2eda,
            _ => 0x2bed,
        }
    }

    /// The 15-bit format word: `(level bits << 3) | mask reference`, BCH
    /// extended and masked.
    pub fn encode(&self) -> (r: u16)
        requires
            self.mask_reference < 8,
        ensures
            r == format_word(self.error_correction_level, self.mask_reference as int),
    {
        let error_correction_level: u8 = match self.error_correction_level {
            ErrorCorrectionLevel::Low => 0b01,
            ErrorCorrectionLevel::Medium => 0b00,
            ErrorCorrectionLevel::Quartile => 0b11,
            ErrorCorrectionLevel::High => 0b10,
        };
        let data = error_correction_level * 8 + self.mask_reference;
        Self::masked_sequence(data)
    }
}

/// A masked symbol with its format information written.
pub struct Formatted<const N: usize> {
    pub masked: Masked<N>,
}

impl<const N: usize> Formatted<N> {
    /// Writes the format information of the mask and the matrix's level.
    pub fn from(masked: Masked<N>) -> (r: Self)
        requires
            masked.wf(),
        ensures
            r.masked.wf(),
            r.masked.mask_reference == masked.mask_reference,
            r.masked.matrix.width() == masked.matrix.width(),
            r.masked.matrix.level() == masked.matrix.level(),
            forall|x: int, y: int|
                0 <= x < N && 0 <= y < N ==> #[trigger] r.masked.matrix.module(x, y) == painted(
                    masked.matrix.module(x, y),
                    format_layer(
                        masked.matrix.width(),
                        format_word(masked.matrix.level(), masked.mask_reference as int),
                        x,
                        y,
                    ),
                ),
    {
        let mut masked = masked;
        let encoder = FormatEncoder {
            error_correction_level: masked.matrix.error_correction(),
            mask_reference: masked.mask_reference,
        };
        let word = encoder.encode();
        masked.matrix.place_format(word);
        Formatted { masked }
    }
}

} // verus!
