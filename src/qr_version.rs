//! Symbol versions and their capacity tables.

use vstd::prelude::*;
use crate::encoding::EncodingMode;
use crate::error_correction::ErrorCorrectionLevel;

verus! {

/// The highest version whose error correction block layout is tabulated.
pub const MAX_SUPPORTED_VERSION: u8 = 5;

/// Side length, in modules, of a symbol of the given version.
pub open spec fn spec_version_to_size(version: int) -> int {
    version * 4 + 17
}

/// Side length, in modules, of a symbol of the given version.
pub fn version_to_size(version: u8) -> (r: usize)
    ensures
        r == spec_version_to_size(version as int),
{
    version as usize * 4 + 17
}

/// A QR symbol version: 1 is the smallest, 21 by 21 modules.
#[derive(Clone, Copy, Debug, PartialEq, Eq, Structural, PartialOrd, Ord, Hash)]
pub struct Version {
    pub version: u8,
}

/// Total number of codewords (data and error correction) of a version, for 1 to 25.
pub open spec fn spec_total_codewords(version: u8) -> int {
    match version {
        1 => 26,
        2 => 44,
        3 => 70,
        4 => 100,
        5 => 134,
        6 => 172,
        7 => 196,
        8 => 242,
        9 => 292,
        10 => 346,
        11 => 404,
        12 => 466,
        13 => 532,
        14 => 581,
        15 => 655,
        16 => 733,
        17 => 815,
        18 => 901,
        19 => 991,
        20 => 1085,
        21 => 1156,
        22 => 1258,
        23 => 1364,
        24 => 1474,
        _ => 1588,
    }
}

/// `(total error correction codewords, block count)` of a supported version and level.
pub open spec fn spec_ecc_blocks(version: u8, level: ErrorCorrectionLevel) -> (int, int) {
    match (version, level) {
        (1, ErrorCorrectionLevel::Low) => (7, 1),
        (1, ErrorCorrectionLevel::Medium) => (10, 1),
        (1, ErrorCorrectionLevel::Quartile) => (13, 1),
        (1, ErrorCorrectionLevel::High) => (17, 1),
        (2, ErrorCorrectionLevel::Low) => (10, 1),
        (2, ErrorCorrectionLevel::Medium) => (16, 1),
        (2, ErrorCorrectionLevel::Quartile) => (22, 1),
        (2, ErrorCorrectionLevel::High) => (28, 1),
        (3, ErrorCorrectionLevel::Low) => (15, 1),
        (3, ErrorCorrectionLevel::Medium) => (26, 1),
        (3, ErrorCorrectionLevel::Quartile) => (36, 2),
        (3, ErrorCorrectionLevel::High) => (44, 2),
        (4, ErrorCorrectionLevel::Low) => (20, 1),
        (4, ErrorCorrectionLevel::Medium) => (36, 2),
        (4, ErrorCorrectionLevel::Quartile) => (52, 2),
        (4, ErrorCorrectionLevel::High) => (64, 4),
        (5, ErrorCorrectionLevel::Low) => (26, 1),
        (5, ErrorCorrectionLevel::Medium) => (48, 2),
        (5, ErrorCorrectionLevel::Quartile) => (72, 4),
        (_, _) => (88, 4),
    }
}

/// Total error correction codewords of a supported version and level.
pub open spec fn spec_ecc_total(version: u8, level: ErrorCorrectionLevel) -> int {
    spec_ecc_blocks(version, level).0
}

/// Number of error correction blocks of a supported version and level.
pub open spec fn spec_block_count(version: u8, level: ErrorCorrectionLevel) -> int {
    spec_ecc_blocks(version, level).1
}

/// Number of data codewords of a supported version and level.
pub open spec fn spec_data_codewords(version: u8, level: ErrorCorrectionLevel) -> int {
    spec_total_codewords(version) - spec_ecc_total(version, level)
}

/// Width of the character count indicator, for versions up to 40.
pub open spec fn spec_cci_bits(version: u8, mode: EncodingMode) -> int {
    match mode {
        EncodingMode::Numeric => if version <= 9 { 10 } else if version <= 26 { 12 } else { 14 },
        EncodingMode::Alphanumeric => if version <= 9 { 9 } else if version <= 26 { 11 } else { 13 },
        EncodingMode::Byte => if version <= 9 { 8 } else { 16 },
    }
}

impl Version {
    /// The versions whose tables are all present here.
    pub open spec fn supported(self) -> bool {
        1 <= self.version <= MAX_SUPPORTED_VERSION
    }

    /// Whether every table of this version is present.
    pub fn is_supported(&self) -> (r: bool)
        ensures
            r == self.supported(),
    {
        1 <= self.version && self.version <= MAX_SUPPORTED_VERSION
    }

    /// The next smaller version, or `None` for version 1 (and below).
    pub fn decrement(self) -> (r: Option<Self>)
        ensures
            self.version > 1 ==> r == Some(Version { version: (self.version - 1) as u8 }),
            self.version <= 1 ==> r is None,
    {
        if self.version > 1 {
            Some(Self { version: self.version - 1 })
        } else {
            None
        }
    }

    /// Side length in modules.
    pub fn width(&self) -> (r: usize)
        ensures
            r == spec_version_to_size(self.version as int),
    {
        version_to_size(self.version)
    }

    /// Width in bits of the character count indicator for the given mode.
    pub fn character_count_indicator_bit_length(&self, encoding: EncodingMode) -> (r: usize)
        requires
            self.version <= 40,
        ensures
            r == spec_cci_bits(self.version, encoding),
    {
        match encoding {
            EncodingMode::Numeric => if self.version <= 9 {
                10
            } else if self.version <= 26 {
                12
            } else {
                14
            },
            EncodingMode::Alphanumeric => if self.version <= 9 {
                9
            } else if self.version <= 26 {
                11
            } else {
                13
            },
            EncodingMode::Byte => if self.version <= 9 {
                8
            } else {
                16
            },
        }
    }

    /// Total number of codewords, data and error correction together.
    pub fn total_codeword_count(&self) -> (r: usize)
        requires
            1 <= self.version <= 25,
        ensures
            r == spec_total_codewords(self.version),
    {
        match self.version {
            1 => 26,
            2 => 44,
            3 => 70,
            4 => 100,
            5 => 134,
            6 => 172,
            7 => 196,
            8 => 242,
            9 => 292,
            10 => 346,
            11 => 404,
            12 => 466,
            13 => 532,
            14 => 581,
            15 => 655,
            16 => 733,
            17 => 815,
            18 => 901,
            19 => 991,
            20 => 1085,
            21 => 1156,
            22 => 1258,
            23 => 1364,
            24 => 1474,
            _ => 1588,
        }
    }

    /// Number of data codewords at the given level.
    pub fn data_codeword_count(&self, error_correction: ErrorCorrectionLevel) -> (r: usize)
        requires
            self.supported(),
        ensures
            r == spec_data_codewords(self.version, error_correction),
    {
        self.total_codeword_count() - self.error_correction_codeword_blocks_count(
            error_correction,
        ).0
    }

    /// Number of data bits at the given level.
    pub fn data_codeword_bit_len(&self, error_correction: ErrorCorrectionLevel) -> (r: usize)
        requires
            self.supported(),
        ensures
            r == 8 * spec_data_codewords(self.version, error_correction),
    {
        self.data_codeword_count(error_correction) * 8
    }

    /// `(total error correction codewords, block count)` at the given level.
    pub fn error_correction_codeword_blocks_count(
        &self,
        error_correction: ErrorCorrectionLevel,
    ) -> (r: (usize, usize))
        requires
            self.supported(),
        ensures
            r.0 == spec_ecc_total(self.version, error_correction),
            r.1 == spec_block_count(self.version, error_correction),
    {
        match (self.version, error_correction) {
            (1, ErrorCorrectionLevel::Low) => (7, 1),
            (1, ErrorCorrectionLevel::Medium) => (10, 1),
            (1, ErrorCorrectionLevel::Quartile) => (13, 1),
            (1, ErrorCorrectionLevel::High) => (17, 1),
            (2, ErrorCorrectionLevel::Low) => (10, 1),
            (2, ErrorCorrectionLevel::Medium) => (16, 1),
            (2, ErrorCorrectionLevel::Quartile) => (22, 1),
            (2, ErrorCorrectionLevel::High) => (28, 1),
            (3, ErrorCorrectionLevel::Low) => (15, 1),
            (3, ErrorCorrectionLevel::Medium) => (26, 1),
            (3, ErrorCorrectionLevel::Quartile) => (36, 2),
            (3, ErrorCorrectionLevel::High) => (44, 2),
            (4, ErrorCorrectionLevel::Low) => (20, 1),
            (4, ErrorCorrectionLevel::Medium) => (36, 2),
            (4, ErrorCorrectionLevel::Quartile) => (52, 2),
            (4, ErrorCorrectionLevel::High) => (64, 4),
            (5, ErrorCorrectionLevel::Low) => (26, 1),
            (5, ErrorCorrectionLevel::Medium) => (48, 2),
            (5, ErrorCorrectionLevel::Quartile) => (72, 4),
            (_, _) => (88, 4),
        }
    }
}

/// For every supported version and level, data and error correction codewords
/// add up to the total, and the error correction codewords split evenly over
/// the blocks.
pub proof fn lemma_codeword_counts(version: Version, level: ErrorCorrectionLevel)
    requires
        version.supported(),
    ensures
        spec_data_codewords(version.version, level) + spec_ecc_total(version.version, level)
            == spec_total_codewords(version.version),
        spec_ecc_total(version.version, level) % spec_block_count(version.version, level) == 0,
        spec_block_count(version.version, level) >= 1,
        spec_data_codewords(version.version, level) >= spec_block_count(version.version, level),
        spec_total_codewords(version.version) <= 134,
        7 <= spec_ecc_total(version.version, level) <= 88,
{
}

} // verus!
