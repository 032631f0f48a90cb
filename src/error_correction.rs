//! Error correction levels and Reed–Solomon codewords for each block.

use vstd::prelude::*;
use crate::blocks::{
    block_data_len, block_data_pos, ecc_per_block, lemma_block_bounds, lemma_block_within,
    spec_block_length, BlockLengthIterator,
};
use crate::buffer::{
    bits_of_bytes, lemma_bits_of_bytes_concat, lemma_bytes_round_trip, packed, Buffer,
};
use crate::encoding::EncodedData;
use crate::qr_version::{spec_block_count, spec_data_codewords, spec_total_codewords, Version};
use vstd::slice::{slice_subrange, slice_to_vec};

verus! {

/// QR codes use Reed–Solomon error correction
#[derive(Clone, Copy, Debug, PartialEq, Eq, Structural, PartialOrd, Ord, Hash)]
pub enum ErrorCorrectionLevel {
    /// Allows recovery of 7% of missing data
    Low,
    /// Allows recovery of 15% of missing data
    Medium,
    /// Allows recovery of 25% of missing data
    Quartile,
    /// Allows recovery of 30% of missing data
    High,
}

/// The position of a level in the order Low < Medium < Quartile < High.
pub open spec fn level_rank(level: ErrorCorrectionLevel) -> int {
    match level {
        ErrorCorrectionLevel::Low => 0,
        ErrorCorrectionLevel::Medium => 1,
        ErrorCorrectionLevel::Quartile => 2,
        ErrorCorrectionLevel::High => 3,
    }
}

/// The level one step stronger, if there is one.
pub open spec fn spec_increment(level: ErrorCorrectionLevel) -> Option<ErrorCorrectionLevel> {
    match level {
        ErrorCorrectionLevel::Low => Some(ErrorCorrectionLevel::Medium),
        ErrorCorrectionLevel::Medium => Some(ErrorCorrectionLevel::Quartile),
        ErrorCorrectionLevel::Quartile => Some(ErrorCorrectionLevel::High),
        ErrorCorrectionLevel::High => None,
    }
}

impl ErrorCorrectionLevel {
    /// Returns the next stronger level, or `None` for `High`.
    pub fn increment(self) -> (r: Option<Self>)
        ensures
            r == spec_increment(self),
            r matches Some(n) ==> level_rank(n) == level_rank(self) + 1,
    {
        match self {
            ErrorCorrectionLevel::Low => Some(ErrorCorrectionLevel::Medium),
            ErrorCorrectionLevel::Medium => Some(ErrorCorrectionLevel::Quartile),
            ErrorCorrectionLevel::Quartile => Some(ErrorCorrectionLevel::High),
            ErrorCorrectionLevel::High => None,
        }
    }
}

/// The `ecc_len` Reed–Solomon error correction codewords (GF(2^8), polynomial
/// 0x11D) of a data block, as the `reed_solomon` crate computes them.
pub uninterp spec fn rs_ecc(data: Seq<u8>, ecc_len: nat) -> Seq<u8>;

/// Relies on `reed_solomon::Encoder::new` and `Encoder::encode`: the encoded
/// buffer holds the block followed by `ecc_len` codewords that depend on the
/// block and `ecc_len` alone, and `Buffer::ecc` hands those out. The block and
/// its codewords must fit the crate's 256-byte polynomial.
#[verifier::external_body]
fn reed_solomon_ecc(data: &[u8], ecc_len: usize) -> (r: Vec<u8>)
    requires
        data@.len() + ecc_len <= 255,
    ensures
        r@ == rs_ecc(data@, ecc_len as nat),
        r@.len() == ecc_len,
{
    let encoder = reed_solomon::Encoder::new(ecc_len);
    encoder.encode(data).ecc().to_vec()
}

/// The error correction codewords of the first `n` blocks of the data
/// codewords `data`, block after block.
pub open spec fn ecc_codewords(data: Seq<u8>, v: u8, e: ErrorCorrectionLevel, n: int) -> Seq<u8>
    decreases n,
{
    if n <= 0 {
        Seq::empty()
    } else {
        let i = n - 1;
        ecc_codewords(data, v, e, i) + rs_ecc(
            data.subrange(block_data_pos(v, e, i), block_data_pos(v, e, i) + block_data_len(v, e, i)),
            ecc_per_block(v, e) as nat,
        )
    }
}

/// The data codewords followed by every block's error correction codewords.
pub struct ErrorCorrectedData {
    pub version: Version,
    pub error_correction: ErrorCorrectionLevel,
    pub buffer: Buffer,
}

impl ErrorCorrectedData {
    /// The version is supported and the buffer holds every codeword of the symbol.
    pub open spec fn wf(&self) -> bool {
        &&& self.version.supported()
        &&& self.buffer.wf()
        &&& self.buffer@.len() == 8 * spec_total_codewords(self.version.version)
    }
}

/// Appends the Reed–Solomon codewords of every block to the data codewords.
pub fn add_error_correction(data: EncodedData) -> (r: ErrorCorrectedData)
    requires
        data.wf(),
    ensures
        r.wf(),
        r.version == data.version,
        r.error_correction == data.error_correction,
        r.buffer@ == data.buffer@ + bits_of_bytes(
            ecc_codewords(
                packed(data.buffer@),
                data.version.version,
                data.error_correction,
                spec_block_count(data.version.version, data.error_correction),
            ),
        ),
        packed(r.buffer@) == packed(data.buffer@) + ecc_codewords(
            packed(data.buffer@),
            data.version.version,
            data.error_correction,
            spec_block_count(data.version.version, data.error_correction),
        ),
{
    let version = data.version;
    let error_correction = data.error_correction;
    let mut buffer = data.buffer;
    let ghost start = buffer@;
    let ghost bytes = packed(buffer@);
    let data_bytes: Vec<u8> = slice_to_vec(buffer.data());
    proof {
        lemma_block_bounds(version, error_correction);
    }
    let mut blocks = BlockLengthIterator::new(version, error_correction);
    loop
        invariant
            version.supported(),
            blocks.wf(),
            blocks.spec_version() == version,
            blocks.spec_level() == error_correction,
            blocks.position() <= spec_block_count(version.version, error_correction),
            buffer.wf(),
            data_bytes@ == bytes,
            bytes.len() == spec_data_codewords(version.version, error_correction),
            start.len() == 8 * spec_data_codewords(version.version, error_correction),
            buffer@ == start + bits_of_bytes(
                ecc_codewords(bytes, version.version, error_correction, blocks.position() as int),
            ),
            buffer@.len() == start.len() + 8 * (blocks.position() * ecc_per_block(
                version.version,
                error_correction,
            )),
        ensures
            buffer.wf(),
            buffer@ == start + bits_of_bytes(
                ecc_codewords(
                    bytes,
                    version.version,
                    error_correction,
                    spec_block_count(version.version, error_correction),
                ),
            ),
            buffer@.len() == 8 * spec_total_codewords(version.version),
        decreases spec_block_count(version.version, error_correction) - blocks.position(),
    {
        let ghost i = blocks.position() as int;
        match blocks.next() {
            Some(block) => {
                assert(i < spec_block_count(version.version, error_correction));
                proof {
                    lemma_block_within(version, error_correction, i);
                    lemma_block_bounds(version, error_correction);
                    let k = ecc_per_block(version.version, error_correction);
                    let b = spec_block_count(version.version, error_correction);
                    assert(i * k + k <= b * k && (i + 1) * k == i * k + k) by (nonlinear_arith)
                        requires
                            i < b,
                            k >= 0,
                    ;
                }
                let block_data = slice_subrange(
                    data_bytes.as_slice(),
                    block.data_pos,
                    block.data_pos + block.data_len,
                );
                let ecc = reed_solomon_ecc(block_data, block.ecc_len);
                buffer.append_bytes(ecc.as_slice());
                proof {
                    assert(block_data@ =~= bytes.subrange(
                        block_data_pos(version.version, error_correction, i),
                        block_data_pos(version.version, error_correction, i) + block_data_len(
                            version.version,
                            error_correction,
                            i,
                        ),
                    ));
                    lemma_bits_of_bytes_concat(
                        ecc_codewords(bytes, version.version, error_correction, i),
                        ecc@,
                    );
                }
            },
            None => {
                proof {
                    lemma_block_bounds(version, error_correction);
                    let k = ecc_per_block(version.version, error_correction);
                    let b = spec_block_count(version.version, error_correction);
                    assert(b * k == k * b) by (nonlinear_arith);
                }
                break ;
            },
        }
    }
    proof {
        let all = ecc_codewords(
            bytes,
            version.version,
            error_correction,
            spec_block_count(version.version, error_correction),
        );
        lemma_bytes_round_trip(start, all);
    }
    ErrorCorrectedData { version, error_correction, buffer }
}

} // verus!
