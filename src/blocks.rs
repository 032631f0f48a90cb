//! Error correction block layout and the interleaving of codewords.

use vstd::prelude::*;
use crate::error_correction::ErrorCorrectionLevel;
use crate::qr_version::{
    lemma_codeword_counts, spec_block_count, spec_data_codewords, spec_ecc_total,
    spec_total_codewords, Version,
};

verus! {

/// Where one error correction block lies in the codeword sequence.
#[derive(Clone, Copy, Debug, PartialEq, Eq, Structural, PartialOrd, Ord)]
pub struct BlockLength {
    pub block_number: usize,
    pub block_count: usize,
    pub data_pos: usize,
    pub data_len: usize,
    pub ecc_pos: usize,
    pub ecc_len: usize,
}

/// Data codewords in the shorter blocks.
pub open spec fn short_len(v: u8, e: ErrorCorrectionLevel) -> int {
    spec_data_codewords(v, e) / spec_block_count(v, e)
}

/// Number of blocks one data codeword longer than the others; they come last.
pub open spec fn long_count(v: u8, e: ErrorCorrectionLevel) -> int {
    spec_data_codewords(v, e) % spec_block_count(v, e)
}

/// Index of the first of the longer blocks.
pub open spec fn first_long(v: u8, e: ErrorCorrectionLevel) -> int {
    spec_block_count(v, e) - long_count(v, e)
}

/// Error correction codewords of each block.
pub open spec fn ecc_per_block(v: u8, e: ErrorCorrectionLevel) -> int {
    spec_ecc_total(v, e) / spec_block_count(v, e)
}

/// Data codewords of block `i`.
pub open spec fn block_data_len(v: u8, e: ErrorCorrectionLevel, i: int) -> int {
    short_len(v, e) + if i >= first_long(v, e) {
        1int
    } else {
        0int
    }
}

/// Offset of the first data codeword of block `i`.
pub open spec fn block_data_pos(v: u8, e: ErrorCorrectionLevel, i: int) -> int {
    i * short_len(v, e) + if i > first_long(v, e) {
        i - first_long(v, e)
    } else {
        0
    }
}

/// Offset of the first error correction codeword of block `i`.
pub open spec fn block_ecc_pos(v: u8, e: ErrorCorrectionLevel, i: int) -> int {
    spec_data_codewords(v, e) + i * ecc_per_block(v, e)
}

/// The layout of block `i` of a supported version and level.
pub open spec fn spec_block_length(v: u8, e: ErrorCorrectionLevel, i: int) -> BlockLength {
    BlockLength {
        block_number: i as usize,
        block_count: spec_block_count(v, e) as usize,
        data_pos: block_data_pos(v, e, i) as usize,
        data_len: block_data_len(v, e, i) as usize,
        ecc_pos: block_ecc_pos(v, e, i) as usize,
        ecc_len: ecc_per_block(v, e) as usize,
    }
}

/// Source offset of the `p`-th data codeword of the interleaved stream: the
/// `j`-th codeword of every block in turn, for `j = 0, 1, ...`, skipping
/// blocks that have run out.
pub open spec fn data_source(v: u8, e: ErrorCorrectionLevel, p: int) -> int {
    let b = spec_block_count(v, e);
    let s = short_len(v, e);
    if p < s * b {
        block_data_pos(v, e, p % b) + p / b
    } else {
        block_data_pos(v, e, first_long(v, e) + (p - s * b)) + s
    }
}

/// Source offset of the `q`-th error correction codeword of the interleaved stream.
pub open spec fn ecc_source(v: u8, e: ErrorCorrectionLevel, q: int) -> int {
    let b = spec_block_count(v, e);
    block_ecc_pos(v, e, q % b) + q / b
}

/// Source offset of the `p`-th codeword of the interleaved stream.
pub open spec fn interleaved_source(v: u8, e: ErrorCorrectionLevel, p: int) -> int {
    let d = spec_data_codewords(v, e);
    if p < d {
        data_source(v, e, p)
    } else {
        ecc_source(v, e, p - d)
    }
}

/// The final codeword stream: interleaved data codewords, then interleaved
/// error correction codewords.
pub open spec fn interleaved(data: Seq<u8>, v: u8, e: ErrorCorrectionLevel) -> Seq<u8> {
    Seq::new(
        spec_total_codewords(v) as nat,
        |p: int| data[interleaved_source(v, e, p)],
    )
}

/// Sum of the data lengths of the first `n` blocks.
pub open spec fn data_len_sum(v: u8, e: ErrorCorrectionLevel, n: int) -> int
    decreases n,
{
    if n <= 0 {
        0
    } else {
        data_len_sum(v, e, n - 1) + block_data_len(v, e, n - 1)
    }
}

/// Number of the first `n` blocks that are one codeword longer than the shortest.
pub open spec fn longer_count(v: u8, e: ErrorCorrectionLevel, n: int) -> int
    decreases n,
{
    if n <= 0 {
        0
    } else {
        longer_count(v, e, n - 1) + if block_data_len(v, e, n - 1) == short_len(v, e) + 1 {
            1int
        } else {
            0int
        }
    }
}

/// Small facts of the block tables that the arithmetic below leans on.
pub proof fn lemma_block_bounds(v: Version, e: ErrorCorrectionLevel)
    requires
        v.supported(),
    ensures
        spec_block_count(v.version, e) == 1 || spec_block_count(v.version, e) == 2
            || spec_block_count(v.version, e) == 4,
        spec_total_codewords(v.version) <= 134,
        spec_data_codewords(v.version, e) >= 9,
        spec_ecc_total(v.version, e) <= 88,
        spec_data_codewords(v.version, e) + spec_ecc_total(v.version, e) == spec_total_codewords(
            v.version,
        ),
        spec_ecc_total(v.version, e) == ecc_per_block(v.version, e) * spec_block_count(
            v.version,
            e,
        ),
        spec_data_codewords(v.version, e) == short_len(v.version, e) * spec_block_count(
            v.version,
            e,
        ) + long_count(v.version, e),
        0 <= long_count(v.version, e) < spec_block_count(v.version, e),
{
    lemma_codeword_counts(v, e);
    let d = spec_data_codewords(v.version, e);
    let t = spec_ecc_total(v.version, e);
    let b = spec_block_count(v.version, e);
    vstd::arithmetic::div_mod::lemma_fundamental_div_mod(d, b);
    vstd::arithmetic::div_mod::lemma_fundamental_div_mod(t, b);
    assert(b * (d / b) == (d / b) * b) by (nonlinear_arith);
    assert(b * (t / b) == (t / b) * b) by (nonlinear_arith);
}

proof fn lemma_prefix_sums(v: Version, e: ErrorCorrectionLevel, n: int)
    requires
        v.supported(),
        0 <= n <= spec_block_count(v.version, e),
    ensures
        data_len_sum(v.version, e, n) == block_data_pos(v.version, e, n),
        longer_count(v.version, e, n) == if n > first_long(v.version, e) {
            n - first_long(v.version, e)
        } else {
            0
        },
    decreases n,
{
    lemma_block_bounds(v, e);
    if n > 0 {
        lemma_prefix_sums(v, e, n - 1);
        let s = short_len(v.version, e);
        assert(n * s == (n - 1) * s + s) by (nonlinear_arith);
    }
}

/// For every supported version and level, the block data lengths add up to the
/// number of data codewords, and exactly `data_codewords % block_count` blocks
/// are one codeword longer than the others.
pub proof fn lemma_block_lengths(v: Version, e: ErrorCorrectionLevel)
    requires
        v.supported(),
    ensures
        data_len_sum(v.version, e, spec_block_count(v.version, e)) == spec_data_codewords(
            v.version,
            e,
        ),
        longer_count(v.version, e, spec_block_count(v.version, e)) == spec_data_codewords(
            v.version,
            e,
        ) % spec_block_count(v.version, e),
        forall|i: int|
            0 <= i < spec_block_count(v.version, e) ==> #[trigger] block_data_len(v.version, e, i)
                == short_len(v.version, e) || block_data_len(v.version, e, i) == short_len(
                v.version,
                e,
            ) + 1,
{
    lemma_block_bounds(v, e);
    let b = spec_block_count(v.version, e);
    lemma_prefix_sums(v, e, b);
    assert(b * short_len(v.version, e) == short_len(v.version, e) * b) by (nonlinear_arith);
}

/// Every block's data lies within the data codewords, and its error
/// correction codewords within the rest.
pub proof fn lemma_block_within(v: Version, e: ErrorCorrectionLevel, i: int)
    requires
        v.supported(),
        0 <= i < spec_block_count(v.version, e),
    ensures
        0 <= block_data_pos(v.version, e, i),
        block_data_pos(v.version, e, i) + block_data_len(v.version, e, i) <= spec_data_codewords(
            v.version,
            e,
        ),
        1 <= block_data_len(v.version, e, i) <= 134,
        1 <= ecc_per_block(v.version, e) <= 88,
{
    lemma_block_bounds(v, e);
    let b = spec_block_count(v.version, e);
    lemma_prefix_sums(v, e, b);
    lemma_prefix_sums(v, e, i);
    lemma_prefix_sums(v, e, i + 1);
    lemma_sum_monotone(v, e, i + 1, b);
    lemma_sum_monotone(v, e, 0, i);
    let s = short_len(v.version, e);
    let d = spec_data_codewords(v.version, e);
    let k = ecc_per_block(v.version, e);
    let t = spec_ecc_total(v.version, e);
    assert(b * s == s * b) by (nonlinear_arith);
    assert(1 <= s <= 134) by (nonlinear_arith)
        requires
            d == s * b + long_count(v.version, e),
            0 <= long_count(v.version, e) < b,
            d >= 9,
            d <= 134,
            b >= 1,
            b <= 4,
    ;
    assert(1 <= k <= 88) by (nonlinear_arith)
        requires
            t == k * b,
            7 <= t <= 88,
            1 <= b,
    ;
}

/// Computes the layout of block `i`.
fn block_length(version: Version, error_correction: ErrorCorrectionLevel, i: usize) -> (r:
    BlockLength)
    requires
        version.supported(),
        i < spec_block_count(version.version, error_correction),
    ensures
        r == spec_block_length(version.version, error_correction, i as int),
{
    proof {
        lemma_block_bounds(version, error_correction);
    }
    let data_len = version.data_codeword_count(error_correction);
    let (ecc_len, blocks) = version.error_correction_codeword_blocks_count(error_correction);
    let short = data_len / blocks;
    let first_long = blocks - data_len % blocks;
    let extra = if i > first_long {
        i - first_long
    } else {
        0
    };
    let this_len = if i >= first_long {
        short + 1
    } else {
        short
    };
    assert(i * short <= 4 * 134) by (nonlinear_arith)
        requires
            i < 4,
            short <= 134,
    ;
    assert(i * (ecc_len / blocks) <= 4 * 88) by (nonlinear_arith)
        requires
            i < 4,
            ecc_len / blocks <= 88,
    ;
    BlockLength {
        block_number: i,
        block_count: blocks,
        data_pos: i * short + extra,
        data_len: this_len,
        ecc_pos: data_len + i * (ecc_len / blocks),
        ecc_len: ecc_len / blocks,
    }
}

/// Yields the layout of each block of a version and level in turn.
#[derive(Clone, Copy, Debug, PartialEq, Eq, Structural, PartialOrd, Ord)]
pub struct BlockLengthIterator {
    version: Version,
    error_correction: ErrorCorrectionLevel,
    next_block: usize,
}

impl BlockLengthIterator {
    pub closed spec fn spec_version(&self) -> Version {
        self.version
    }

    pub closed spec fn spec_level(&self) -> ErrorCorrectionLevel {
        self.error_correction
    }

    /// Number of blocks yielded since the start.
    pub closed spec fn position(&self) -> nat {
        self.next_block as nat
    }

    pub closed spec fn wf(&self) -> bool {
        &&& self.version.supported()
        &&& self.next_block <= spec_block_count(self.version.version, self.error_correction)
    }

    pub fn new(version: Version, error_correction: ErrorCorrectionLevel) -> (r: BlockLengthIterator)
        requires
            version.supported(),
        ensures
            r.wf(),
            r.spec_version() == version,
            r.spec_level() == error_correction,
            r.position() == 0,
    {
        BlockLengthIterator { version, error_correction, next_block: 0 }
    }

    /// Starts again from the first block.
    pub fn reset(&mut self)
        requires
            old(self).wf(),
        ensures
            final(self).wf(),
            final(self).spec_version() == old(self).spec_version(),
            final(self).spec_level() == old(self).spec_level(),
            final(self).position() == 0,
    {
        self.next_block = 0;
    }

    /// The next block's layout, or `None` after the last block.
    pub fn next(&mut self) -> (r: Option<BlockLength>)
        requires
            old(self).wf(),
        ensures
            final(self).wf(),
            final(self).spec_version() == old(self).spec_version(),
            final(self).spec_level() == old(self).spec_level(),
            final(self).position() <= spec_block_count(
                old(self).spec_version().version,
                old(self).spec_level(),
            ),
            ({
                let v = old(self).spec_version().version;
                let e = old(self).spec_level();
                let p = old(self).position();
                if p < spec_block_count(v, e) {
                    &&& r == Some(spec_block_length(v, e, p as int))
                    &&& final(self).position() == p + 1
                } else {
                    &&& r is None
                    &&& final(self).position() == p
                }
            }),
    {
        let (_, blocks) = self.version.error_correction_codeword_blocks_count(
            self.error_correction,
        );
        if self.next_block < blocks {
            let r = block_length(self.version, self.error_correction, self.next_block);
            self.next_block = self.next_block + 1;
            Some(r)
        } else {
            None
        }
    }
}

/// Computes the source offset of the `p`-th interleaved data codeword.
fn data_source_exec(version: Version, error_correction: ErrorCorrectionLevel, p: usize) -> (r:
    usize)
    requires
        version.supported(),
        p < spec_data_codewords(version.version, error_correction),
    ensures
        r == data_source(version.version, error_correction, p as int),
        r < spec_data_codewords(version.version, error_correction),
{
    proof {
        lemma_block_bounds(version, error_correction);
        lemma_data_source_bound(version, error_correction, p as int);
    }
    let data_len = version.data_codeword_count(error_correction);
    let (_, blocks) = version.error_correction_codeword_blocks_count(error_correction);
    let short = data_len / blocks;
    assert(short * blocks <= data_len) by (nonlinear_arith)
        requires
            short == data_len / blocks,
            blocks > 0,
    ;
    if p < short * blocks {
        let block = block_length(version, error_correction, p % blocks);
        block.data_pos + p / blocks
    } else {
        let first_long = blocks - data_len % blocks;
        let block = block_length(version, error_correction, first_long + (p - short * blocks));
        block.data_pos + short
    }
}

proof fn lemma_data_source_bound(v: Version, e: ErrorCorrectionLevel, p: int)
    requires
        v.supported(),
        0 <= p < spec_data_codewords(v.version, e),
    ensures
        0 <= data_source(v.version, e, p) < spec_data_codewords(v.version, e),
        p >= short_len(v.version, e) * spec_block_count(v.version, e) ==> first_long(v.version, e)
            + (p - short_len(v.version, e) * spec_block_count(v.version, e)) < spec_block_count(
            v.version,
            e,
        ),
{
    lemma_block_bounds(v, e);
    let b = spec_block_count(v.version, e);
    let s = short_len(v.version, e);
    let f = first_long(v.version, e);
    lemma_prefix_sums(v, e, b);
    assert(b * s == s * b) by (nonlinear_arith);
    assert(block_data_pos(v.version, e, b) == spec_data_codewords(v.version, e));
    let i = if p < s * b {
        p % b
    } else {
        f + (p - s * b)
    };
    if p < s * b {
        let j = p / b;
        assert(0 <= j < s && 0 <= i < b) by (nonlinear_arith)
            requires
                j == p / b,
                i == p % b,
                p < s * b,
                b > 0,
                p >= 0,
        ;
    }
    assert(0 <= i < b);
    lemma_prefix_sums(v, e, i);
    lemma_prefix_sums(v, e, i + 1);
    lemma_sum_monotone(v, e, i + 1, b);
    assert(block_data_pos(v.version, e, i) + block_data_len(v.version, e, i) <= spec_data_codewords(
        v.version,
        e,
    ));
}

proof fn lemma_sum_monotone(v: Version, e: ErrorCorrectionLevel, m: int, n: int)
    requires
        v.supported(),
        0 <= m <= n,
    ensures
        data_len_sum(v.version, e, m) <= data_len_sum(v.version, e, n),
    decreases n - m,
{
    lemma_block_bounds(v, e);
    if m < n {
        lemma_sum_monotone(v, e, m, n - 1);
    }
}

/// Yields the data codewords of every block, interleaved.
pub struct BlockDataIterator<'a> {
    data: &'a [u8],
    version: Version,
    error_correction: ErrorCorrectionLevel,
    emitted: usize,
}

impl<'a> BlockDataIterator<'a> {
    pub closed spec fn spec_data(&self) -> Seq<u8> {
        self.data@
    }

    pub closed spec fn spec_version(&self) -> Version {
        self.version
    }

    pub closed spec fn spec_level(&self) -> ErrorCorrectionLevel {
        self.error_correction
    }

    /// Number of codewords yielded so far.
    pub closed spec fn position(&self) -> int {
        self.emitted as int
    }

    pub closed spec fn wf(&self) -> bool {
        &&& self.version.supported()
        &&& self.data@.len() >= spec_data_codewords(self.version.version, self.error_correction)
        &&& self.emitted <= spec_data_codewords(self.version.version, self.error_correction)
    }

    pub fn new(data: &'a [u8], version: Version, error_correction: ErrorCorrectionLevel) -> (r:
        Self)
        requires
            version.supported(),
            data@.len() >= spec_data_codewords(version.version, error_correction),
        ensures
            r.wf(),
            r.spec_data() == data@,
            r.spec_version() == version,
            r.spec_level() == error_correction,
            r.position() == 0,
    {
        BlockDataIterator { data, version, error_correction, emitted: 0 }
    }

    /// The layout of the block the next data codeword comes from, or `None`
    /// once every data codeword has been yielded.
    pub fn next_block_length(&self) -> (r: Option<BlockLength>)
        requires
            self.wf(),
        ensures
            ({
                let v = self.spec_version().version;
                let e = self.spec_level();
                let p = self.position();
                let b = spec_block_count(v, e);
                let s = short_len(v, e);
                if p < spec_data_codewords(v, e) {
                    r == Some(
                        spec_block_length(
                            v,
                            e,
                            if p < s * b {
                                p % b
                            } else {
                                first_long(v, e) + (p - s * b)
                            },
                        ),
                    )
                } else {
                    r is None
                }
            }),
    {
        proof {
            lemma_block_bounds(self.version, self.error_correction);
        }
        let data_len = self.version.data_codeword_count(self.error_correction);
        if self.emitted >= data_len {
            return None;
        }
        proof {
            lemma_data_source_bound(self.version, self.error_correction, self.emitted as int);
        }
        let (_, blocks) = self.version.error_correction_codeword_blocks_count(
            self.error_correction,
        );
        let short = data_len / blocks;
        assert(short * blocks <= data_len) by (nonlinear_arith)
            requires
                short == data_len / blocks,
                blocks > 0,
        ;
        if self.emitted < short * blocks {
            Some(block_length(self.version, self.error_correction, self.emitted % blocks))
        } else {
            let first_long = blocks - data_len % blocks;
            Some(
                block_length(
                    self.version,
                    self.error_correction,
                    first_long + (self.emitted - short * blocks),
                ),
            )
        }
    }

    /// The next interleaved data codeword, or `None` after the last.
    pub fn next(&mut self) -> (r: Option<u8>)
        requires
            old(self).wf(),
        ensures
            final(self).wf(),
            final(self).spec_data() == old(self).spec_data(),
            final(self).spec_version() == old(self).spec_version(),
            final(self).spec_level() == old(self).spec_level(),
            ({
                let v = old(self).spec_version().version;
                let e = old(self).spec_level();
                let p = old(self).position();
                if p < spec_data_codewords(v, e) {
                    &&& r == Some(old(self).spec_data()[data_source(v, e, p)])
                    &&& final(self).position() == p + 1
                } else {
                    &&& r is None
                    &&& final(self).position() == p
                }
            }),
    {
        let data_len = self.version.data_codeword_count(self.error_correction);
        if self.emitted < data_len {
            let src = data_source_exec(self.version, self.error_correction, self.emitted);
            self.emitted = self.emitted + 1;
            Some(self.data[src])
        } else {
            None
        }
    }
}

/// Yields the error correction codewords of every block, interleaved.
pub struct BlockEccIterator<'a> {
    data: &'a [u8],
    version: Version,
    error_correction: ErrorCorrectionLevel,
    emitted: usize,
}

impl<'a> BlockEccIterator<'a> {
    pub closed spec fn spec_data(&self) -> Seq<u8> {
        self.data@
    }

    pub closed spec fn spec_version(&self) -> Version {
        self.version
    }

    pub closed spec fn spec_level(&self) -> ErrorCorrectionLevel {
        self.error_correction
    }

    /// Number of codewords yielded so far.
    pub closed spec fn position(&self) -> int {
        self.emitted as int
    }

    pub closed spec fn wf(&self) -> bool {
        &&& self.version.supported()
        &&& self.emitted <= spec_ecc_total(self.version.version, self.error_correction)
    }

    pub fn new(data: &'a [u8], version: Version, error_correction: ErrorCorrectionLevel) -> (r:
        Self)
        requires
            version.supported(),
        ensures
            r.wf(),
            r.spec_data() == data@,
            r.spec_version() == version,
            r.spec_level() == error_correction,
            r.position() == 0,
    {
        BlockEccIterator { data, version, error_correction, emitted: 0 }
    }

    /// The next interleaved error correction codeword; `None` after the last,
    /// or where `data` ends before it.
    pub fn next(&mut self) -> (r: Option<u8>)
        requires
            old(self).wf(),
        ensures
            final(self).wf(),
            final(self).spec_data() == old(self).spec_data(),
            final(self).spec_version() == old(self).spec_version(),
            final(self).spec_level() == old(self).spec_level(),
            ({
                let v = old(self).spec_version().version;
                let e = old(self).spec_level();
                let q = old(self).position();
                let src = ecc_source(v, e, q);
                if q < spec_ecc_total(v, e) {
                    &&& r == if src < old(self).spec_data().len() {
                        Some(old(self).spec_data()[src])
                    } else {
                        None
                    }
                    &&& final(self).position() == q + 1
                } else {
                    &&& r is None
                    &&& final(self).position() == q
                }
            }),
    {
        proof {
            lemma_block_bounds(self.version, self.error_correction);
        }
        let (ecc_len, blocks) = self.version.error_correction_codeword_blocks_count(
            self.error_correction,
        );
        if self.emitted < ecc_len {
            proof {
                lemma_ecc_source_bound(self.version, self.error_correction, self.emitted as int);
            }
            assert(self.emitted % blocks < blocks) by (nonlinear_arith)
                requires
                    blocks > 0,
            ;
            let block = block_length(self.version, self.error_correction, self.emitted % blocks);
            let src = block.ecc_pos + self.emitted / blocks;
            self.emitted = self.emitted + 1;
            if src < self.data.len() {
                Some(self.data[src])
            } else {
                None
            }
        } else {
            None
        }
    }
}

/// Yields the final codeword stream: interleaved data, then interleaved error
/// correction codewords.
pub struct BlockIterator<'a> {
    data_iter: BlockDataIterator<'a>,
    ecc_iter: BlockEccIterator<'a>,
}

impl<'a> BlockIterator<'a> {
    pub closed spec fn spec_data(&self) -> Seq<u8> {
        self.data_iter.data@
    }

    pub closed spec fn spec_version(&self) -> Version {
        self.data_iter.version
    }

    pub closed spec fn spec_level(&self) -> ErrorCorrectionLevel {
        self.data_iter.error_correction
    }

    /// Number of codewords yielded so far.
    pub closed spec fn position(&self) -> int {
        self.data_iter.emitted + self.ecc_iter.emitted
    }

    pub closed spec fn wf(&self) -> bool {
        &&& self.data_iter.wf()
        &&& self.ecc_iter.wf()
        &&& self.ecc_iter.data@ == self.data_iter.data@
        &&& self.ecc_iter.version == self.data_iter.version
        &&& self.ecc_iter.error_correction == self.data_iter.error_correction
        &&& self.data_iter.data@.len() >= spec_total_codewords(self.data_iter.version.version)
        &&& self.ecc_iter.emitted > 0 ==> self.data_iter.emitted == spec_data_codewords(
            self.data_iter.version.version,
            self.data_iter.error_correction,
        )
    }

    pub fn new(data: &'a [u8], version: Version, error_correction: ErrorCorrectionLevel) -> (r:
        BlockIterator<'a>)
        requires
            version.supported(),
            data@.len() >= spec_total_codewords(version.version),
        ensures
            r.wf(),
            r.spec_data() == data@,
            r.spec_version() == version,
            r.spec_level() == error_correction,
            r.position() == 0,
    {
        proof {
            lemma_block_bounds(version, error_correction);
        }
        let data_iter = BlockDataIterator::new(data, version, error_correction);
        let ecc_iter = BlockEccIterator::new(data, version, error_correction);
        BlockIterator { data_iter, ecc_iter }
    }

    /// The next codeword of the final stream, or `None` after the last.
    pub fn next(&mut self) -> (r: Option<u8>)
        requires
            old(self).wf(),
        ensures
            final(self).wf(),
            final(self).spec_data() == old(self).spec_data(),
            final(self).spec_version() == old(self).spec_version(),
            final(self).spec_level() == old(self).spec_level(),
            ({
                let v = old(self).spec_version().version;
                let e = old(self).spec_level();
                let p = old(self).position();
                if p < spec_total_codewords(v) {
                    &&& r == Some(interleaved(old(self).spec_data(), v, e)[p])
                    &&& final(self).position() == p + 1
                } else {
                    &&& r is None
                    &&& final(self).position() == p
                }
            }),
    {
        proof {
            lemma_block_bounds(self.data_iter.version, self.data_iter.error_correction);
        }
        let ghost d = self.data_iter.emitted;
        let ghost q0 = self.ecc_iter.emitted;
        proof {
            if d < spec_data_codewords(self.data_iter.version.version, self.data_iter.error_correction) {
                assert(q0 == 0);
            }
        }
        match self.data_iter.next() {
            Some(b) => Some(b),
            None => {
                let ghost q = self.ecc_iter.emitted;
                proof {
                    let v = self.data_iter.version;
                    let e = self.data_iter.error_correction;
                    if q < spec_ecc_total(v.version, e) {
                        lemma_ecc_source_bound(v, e, q as int);
                    }
                }
                self.ecc_iter.next()
            },
        }
    }
}

proof fn lemma_ecc_source_bound(v: Version, e: ErrorCorrectionLevel, q: int)
    requires
        v.supported(),
        0 <= q < spec_ecc_total(v.version, e),
    ensures
        spec_data_codewords(v.version, e) <= ecc_source(v.version, e, q) < spec_total_codewords(
            v.version,
        ),
{
    lemma_block_bounds(v, e);
    let b = spec_block_count(v.version, e);
    let k = ecc_per_block(v.version, e);
    let i = q % b;
    let j = q / b;
    assert(0 <= j < k && 0 <= i < b && i * k + j < b * k && i * k >= 0) by (nonlinear_arith)
        requires
            j == q / b,
            i == q % b,
            q < k * b,
            b > 0,
            q >= 0,
            k >= 0,
    ;
}

} // verus!
