//! The finished symbol and the builder that runs the whole pipeline.

use vstd::prelude::*;
use crate::array_2d::{Array2D, Coordinate};
use crate::blocks::interleaved;
use crate::buffer::{bits_of_bytes, packed, BUFFER_BITS};
use crate::draw_iterator::DrawIterator;
use crate::encoding::{
    EncodedData, chosen_level, chosen_version, encode_text, encoded_bits, lemma_select_version_bound,
    segment_units, spec_bit_length, spec_detect, ErrorCorrectionRestriction, VersionRestriction,
};
use crate::error::QrError;
use crate::error_correction::{add_error_correction, ecc_codewords, ErrorCorrectionLevel};
use crate::mask::{mask_score, masked_formatted_grid, penalty_score, ScoreMasked};
use crate::matrix::{module_color, placed_cell, symbol_cell, Color, Matrix, Module};
use crate::qr_version::{spec_block_count, spec_data_codewords, spec_version_to_size, Version};
use vstd::string::StringSliceAdditionalSpecFns;

verus! {

/// The largest version the builder produces by default.
pub const MAX_VERSION: u8 = 4;

/// Side length of the largest symbol the builder produces.
pub const MAX_WIDTH: usize = 33;

/// The finished symbol: a colour for each module of a square of side at most `N`.
pub struct QrCode<const N: usize> {
    data: Array2D<Color, N>,
    mask_reference: u8,
}

impl<const N: usize> QrCode<N> {
    /// The colour at row `x`, column `y`.
    pub closed spec fn color(&self, x: int, y: int) -> Color {
        self.data.cell(x, y)
    }

    /// The mask the symbol was drawn with.
    pub closed spec fn mask(&self) -> u8 {
        self.mask_reference
    }

    /// Side length of the symbol.
    pub closed spec fn width(&self) -> int {
        self.data.spec_size().x as int
    }

    pub closed spec fn wf(&self) -> bool {
        &&& self.data.wf()
        &&& self.data.spec_size().x == self.data.spec_size().y
    }

    /// The colours a scored symbol shows.
    pub fn from(scored: ScoreMasked<N>) -> (r: Self)
        requires
            scored.masked.matrix.wf(),
        ensures
            r.wf(),
            r.width() == scored.masked.matrix.width(),
            r.mask() == scored.masked.mask_reference,
            forall|x: int, y: int|
                0 <= x < r.width() && 0 <= y < r.width() ==> #[trigger] r.color(x, y) == module_color(
                    scored.masked.matrix.module(x, y),
                ),
    {
        let mask_reference = scored.masked.mask_reference;
        let matrix = scored.masked.matrix;
        let size = matrix.size();
        let mut out: Array2D<Color, N> = Array2D::filled(Color::White);
        out.set_size(Coordinate::new(size, size));
        let mut x: usize = 0;
        while x < size
            invariant
                matrix.wf(),
                out.wf(),
                size == matrix.width(),
                size <= N,
                x <= size,
                out.spec_size() == (Coordinate { x: size, y: size }),
                forall|i: int, j: int|
                    0 <= i < x && 0 <= j < size ==> #[trigger] out.cell(i, j) == module_color(
                        matrix.module(i, j),
                    ),
            decreases size - x,
        {
            let mut y: usize = 0;
            while y < size
                invariant
                    matrix.wf(),
                    out.wf(),
                    size == matrix.width(),
                    size <= N,
                    x < size,
                    y <= size,
                    out.spec_size() == (Coordinate { x: size, y: size }),
                    forall|i: int, j: int|
                        ((0 <= i < x && 0 <= j < size) || (i == x && 0 <= j < y)) ==> #[trigger] out.cell(i, j)
                            == module_color(matrix.module(i, j)),
                decreases size - y,
            {
                let pos = Coordinate::new(x, y);
                out.set(pos, matrix.get(pos).color());
                y = y + 1;
            }
            x = x + 1;
        }
        QrCode { data: out, mask_reference }
    }

    /// The mask reference, 0 to 7, the symbol was drawn with.
    pub fn mask_reference(&self) -> (r: u8)
        ensures
            r == self.mask(),
    {
        self.mask_reference
    }

    /// Side length of the symbol.
    pub fn size(&self) -> (r: usize)
        requires
            self.wf(),
        ensures
            r == self.width(),
            r <= N,
    {
        proof {
            self.data.lemma_wf_bounds();
        }
        self.data.size().x
    }

    /// The colour at row `x`, column `y`.
    pub fn get(&self, x: usize, y: usize) -> (r: Color)
        requires
            self.wf(),
            x < self.width(),
            y < self.width(),
        ensures
            r == self.color(x as int, y as int),
    {
        proof {
            self.data.lemma_wf_bounds();
        }
        self.data.get(Coordinate::new(x, y))
    }

    /// Walks the symbol with its quiet zone, row after row.
    pub fn draw_iter(&self) -> (r: DrawIterator<'_, N>)
        requires
            self.wf(),
            self.width() <= 1000,
        ensures
            r.code() == self,
            r.position() == 0,
    {
        DrawIterator::new(self)
    }
}

/// The bits placed in the symbol for data codewords `data`: data and error
/// correction codewords, interleaved.
pub open spec fn stream_bits(data: Seq<u8>, v: u8, e: ErrorCorrectionLevel) -> Seq<bool> {
    let all = data + ecc_codewords(data, v, e, spec_block_count(v, e));
    bits_of_bytes(interleaved(all, v, e))
}

/// The codeword bits a text becomes at a version and level.
pub open spec fn pipeline_bits(text: &str, v: u8, e: ErrorCorrectionLevel) -> Seq<bool> {
    let cs = spec_detect(text@);
    stream_bits(packed(encoded_bits(cs, text@, text.spec_bytes(), v, e)), v, e)
}

/// Whether `m` is the mask reference asked for, or the best one when none was.
pub open spec fn mask_choice(
    asked: Option<u8>,
    g: spec_fn(int, int) -> Module,
    w: int,
    e: ErrorCorrectionLevel,
    m: int,
) -> bool {
    match asked {
        Some(given) => m == given,
        None => is_best_mask(g, w, e, m),
    }
}

proof fn lemma_laid_out_grid(matrix: Matrix<MAX_WIDTH>, g: spec_fn(int, int) -> Module, bits: Seq<bool>)
    requires
        matrix.wf(),
        g == unmasked_grid(bits, matrix.width()),
        forall|x: int, y: int|
            0 <= x < MAX_WIDTH && 0 <= y < MAX_WIDTH ==> #[trigger] matrix.module(x, y) == placed_cell(
                |i: int, j: int| symbol_cell(matrix.width(), i, j, Module::Empty),
                matrix.width(),
                bits,
                x,
                y,
            ),
    ensures
        matrix.grid() == g,
{
    let w = matrix.width();
    matrix.lemma_width_bound();
    assert forall|x: int, y: int| #[trigger] matrix.grid()(x, y) == g(x, y) by {
        if !(0 <= x < MAX_WIDTH && 0 <= y < MAX_WIDTH) {
            assert(symbol_cell(w, x, y, Module::Empty) == Module::Empty);
        }
    }
    assert(matrix.grid() =~= g);
}

/// Lays out, masks and colours encoded data.
#[verifier::rlimit(40)]
fn lay_out(encoded: EncodedData, mask_reference: Option<u8>) -> (r: QrCode<MAX_WIDTH>)
    requires
        encoded.wf(),
        encoded.version.version <= MAX_VERSION,
        mask_reference matches Some(m) ==> m < 8,
    ensures
        ({
            let v = encoded.version.version;
            let e = encoded.error_correction;
            let w = spec_version_to_size(v as int);
            let g = unmasked_grid(stream_bits(packed(encoded.buffer@), v, e), w);
            mask_choice(mask_reference, g, w, e, r.mask() as int) && shows(r, g, w, e, r.mask() as int)
        }),
{
    let ghost v = encoded.version;
    let ghost e = encoded.error_correction;
    let error_corrected_data = add_error_correction(encoded);
    let matrix = Matrix::<MAX_WIDTH>::from_data(error_corrected_data);
    let ghost w = matrix.width();
    let ghost g = unmasked_grid(stream_bits(packed(encoded.buffer@), v.version, e), w);
    proof {
        lemma_laid_out_grid(matrix, g, stream_bits(packed(encoded.buffer@), v.version, e));
    }
    let scored = match mask_reference {
        Some(mask_reference) => matrix.mask(mask_reference),
        None => {
            let best = matrix.best_mask();
            proof {
                assert forall|q: int| #[trigger] grid_mask_score(g, w, e, q) == mask_score(matrix, q) by {}
                assert(is_best_mask(g, w, e, best.masked.mask_reference as int));
            }
            best
        },
    };
    let ghost m = scored.masked.mask_reference as int;
    let code = QrCode::from(scored);
    proof {
        assert(shows(code, g, w, e, m));
        assert(mask_choice(mask_reference, g, w, e, m));
    }
    code
}

/// The modules of a symbol of width `w` carrying `bits`, before masking.
pub open spec fn unmasked_grid(bits: Seq<bool>, w: int) -> spec_fn(int, int) -> Module {
    |x: int, y: int| placed_cell(|i: int, j: int| symbol_cell(w, i, j, Module::Empty), w, bits, x, y)
}

/// The penalty score of a symbol under mask `r`.
pub open spec fn grid_mask_score(
    g: spec_fn(int, int) -> Module,
    w: int,
    e: ErrorCorrectionLevel,
    r: int,
) -> int {
    penalty_score(masked_formatted_grid(g, w, e, r), w)
}

/// Whether `r` is the lowest-scoring mask, the lowest such reference on a tie.
pub open spec fn is_best_mask(g: spec_fn(int, int) -> Module, w: int, e: ErrorCorrectionLevel, r: int) -> bool {
    &&& 0 <= r < 8
    &&& forall|q: int| 0 <= q < 8 ==> grid_mask_score(g, w, e, r) <= #[trigger] grid_mask_score(g, w, e, q)
    &&& forall|q: int| 0 <= q < r ==> grid_mask_score(g, w, e, r) < #[trigger] grid_mask_score(g, w, e, q)
}

/// Whether `q` shows the symbol of width `w` from grid `g` after mask `r`
/// and the format information.
pub open spec fn shows<const N: usize>(
    q: QrCode<N>,
    g: spec_fn(int, int) -> Module,
    w: int,
    e: ErrorCorrectionLevel,
    r: int,
) -> bool {
    &&& q.wf()
    &&& q.width() == w
    &&& forall|x: int, y: int|
        0 <= x < w && 0 <= y < w ==> #[trigger] q.color(x, y) == module_color(
            masked_formatted_grid(g, w, e, r)(x, y),
        )
}

/// Collects the options of a symbol and builds it.
pub struct QrCodeBuilder<'a> {
    version_restriction: VersionRestriction,
    error_correction_restriction: ErrorCorrectionRestriction,
    mask_reference: Option<u8>,
    text: Option<&'a str>,
}

impl<'a> QrCodeBuilder<'a> {
    pub closed spec fn spec_version_restriction(&self) -> VersionRestriction {
        self.version_restriction
    }

    pub closed spec fn spec_error_correction_restriction(&self) -> ErrorCorrectionRestriction {
        self.error_correction_restriction
    }

    pub closed spec fn spec_mask_reference(&self) -> Option<u8> {
        self.mask_reference
    }

    pub closed spec fn spec_text(&self) -> Option<&'a str> {
        self.text
    }

    /// No payload yet; at most version 4, at least level Medium, best mask.
    pub fn new() -> (r: Self)
        ensures
            r.spec_version_restriction() == VersionRestriction::MaxVersion(
                Version { version: MAX_VERSION },
            ),
            r.spec_error_correction_restriction()
                == ErrorCorrectionRestriction::MinErrorCorrection(ErrorCorrectionLevel::Medium),
            r.spec_mask_reference() is None,
            r.spec_text() is None,
    {
        Self {
            version_restriction: VersionRestriction::MaxVersion(Version { version: MAX_VERSION }),
            error_correction_restriction: ErrorCorrectionRestriction::MinErrorCorrection(
                ErrorCorrectionLevel::Medium,
            ),
            mask_reference: None,
            text: None,
        }
    }

    /// The largest version allowed; smaller ones are used when the text fits.
    pub fn with_max_version(self, max_version: u8) -> (r: Self)
        ensures
            r.spec_version_restriction() == VersionRestriction::MaxVersion(
                Version { version: max_version },
            ),
            r.spec_error_correction_restriction() == self.spec_error_correction_restriction(),
            r.spec_mask_reference() == self.spec_mask_reference(),
            r.spec_text() == self.spec_text(),
    {
        Self { version_restriction: VersionRestriction::MaxVersion(Version { version: max_version }), ..self }
    }

    /// The one version to use.
    pub fn with_specific_version(self, version: u8) -> (r: Self)
        ensures
            r.spec_version_restriction() == VersionRestriction::SpecificVersion(
                Version { version },
            ),
            r.spec_error_correction_restriction() == self.spec_error_correction_restriction(),
            r.spec_mask_reference() == self.spec_mask_reference(),
            r.spec_text() == self.spec_text(),
    {
        Self { version_restriction: VersionRestriction::SpecificVersion(Version { version }), ..self }
    }

    /// The weakest level allowed; stronger ones are used while the text fits.
    pub fn with_min_error_correction_level(
        self,
        min_error_correction_level: ErrorCorrectionLevel,
    ) -> (r: Self)
        ensures
            r.spec_error_correction_restriction() == ErrorCorrectionRestriction::MinErrorCorrection(
                min_error_correction_level,
            ),
            r.spec_version_restriction() == self.spec_version_restriction(),
            r.spec_mask_reference() == self.spec_mask_reference(),
            r.spec_text() == self.spec_text(),
    {
        Self {
            error_correction_restriction: ErrorCorrectionRestriction::MinErrorCorrection(
                min_error_correction_level,
            ),
            ..self
        }
    }

    /// The one level to use.
    pub fn with_specific_error_correction_level(
        self,
        error_correction_level: ErrorCorrectionLevel,
    ) -> (r: Self)
        ensures
            r.spec_error_correction_restriction()
                == ErrorCorrectionRestriction::SpecificErrorCorrection(error_correction_level),
            r.spec_version_restriction() == self.spec_version_restriction(),
            r.spec_mask_reference() == self.spec_mask_reference(),
            r.spec_text() == self.spec_text(),
    {
        Self {
            error_correction_restriction: ErrorCorrectionRestriction::SpecificErrorCorrection(
                error_correction_level,
            ),
            ..self
        }
    }

    /// The mask to use, 0 to 7, instead of the best one.
    pub fn with_mask_reference(self, mask_reference: u8) -> (r: Self)
        ensures
            r.spec_mask_reference() == Some(mask_reference),
            r.spec_version_restriction() == self.spec_version_restriction(),
            r.spec_error_correction_restriction() == self.spec_error_correction_restriction(),
            r.spec_text() == self.spec_text(),
    {
        Self { mask_reference: Some(mask_reference), ..self }
    }

    /// The payload.
    pub fn with_text(self, text: &'a str) -> (r: Self)
        ensures
            r.spec_text() == Some(text),
            r.spec_version_restriction() == self.spec_version_restriction(),
            r.spec_error_correction_restriction() == self.spec_error_correction_restriction(),
            r.spec_mask_reference() == self.spec_mask_reference(),
    {
        Self { text: Some(text), ..self }
    }

    /// What `build` returns for this builder: the first error that applies,
    /// or the symbol of the pipeline's result, drawn with the asked-for mask or
    /// the best one.
    pub open spec fn build_outcome(self, r: Result<QrCode<MAX_WIDTH>, QrError>) -> bool {
        let vr = self.spec_version_restriction();
        let er = self.spec_error_correction_restriction();
        let upper = vr.spec_version();
        let min = er.spec_level();
        match self.spec_text() {
            None => r == Err::<QrCode<MAX_WIDTH>, QrError>(QrError::InvalidConfiguration),
            Some(text) => {
                let cs = spec_detect(text@);
                let bytes = text.spec_bytes();
                let bit_len = spec_bit_length(
                    segment_units(cs, text@, bytes),
                    upper.version,
                    cs,
                );
                if self.spec_mask_reference() matches Some(m) && m > 7 {
                    r == Err::<QrCode<MAX_WIDTH>, QrError>(QrError::InvalidConfiguration)
                } else if upper.version > MAX_VERSION || !upper.supported() {
                    r == Err::<QrCode<MAX_WIDTH>, QrError>(QrError::UnsupportedVersion)
                } else if bytes.len() > BUFFER_BITS || bit_len > 8 * spec_data_codewords(
                    upper.version,
                    min,
                ) {
                    r == Err::<QrCode<MAX_WIDTH>, QrError>(QrError::CapacityExceeded)
                } else {
                    let e = chosen_level(er, upper, bit_len);
                    let v = chosen_version(vr, e, bit_len);
                    let w = spec_version_to_size(v.version as int);
                    let g = unmasked_grid(pipeline_bits(text, v.version, e), w);
                    &&& r is Ok
                    &&& mask_choice(self.spec_mask_reference(), g, w, e, r->Ok_0.mask() as int)
                    &&& shows(r->Ok_0, g, w, e, r->Ok_0.mask() as int)
                }
            },
        }
    }

    /// Runs the whole pipeline: encoding, error correction, placement, masking.
    ///
    /// Fails with `InvalidConfiguration` without a payload or with a mask
    /// reference above 7, with `UnsupportedVersion` for a version outside 1
    /// to 4, and with `CapacityExceeded` when the payload does not fit.
    pub fn build(self) -> (r: Result<QrCode<MAX_WIDTH>, QrError>)
        ensures
            self.build_outcome(r),
    {
        let text = match self.text {
            Some(text) => text,
            None => {
                return Err(QrError::InvalidConfiguration);
            },
        };
        if let Some(mask_reference) = self.mask_reference {
            if mask_reference > 7 {
                return Err(QrError::InvalidConfiguration);
            }
        }
        let upper = self.version_restriction.to_version();
        if upper.version > MAX_VERSION {
            return Err(QrError::UnsupportedVersion);
        }
        let encoded = match encode_text(
            self.version_restriction,
            self.error_correction_restriction,
            text,
        ) {
            Ok(encoded) => encoded,
            Err(error) => {
                return Err(error);
            },
        };
        proof {
            let cs = spec_detect(text@);
            let bit_len = spec_bit_length(
                segment_units(cs, text@, text.spec_bytes()),
                upper.version,
                cs,
            );
            lemma_select_version_bound(upper.version, encoded.error_correction, bit_len);
        }
        let ghost v = encoded.version.version;
        let ghost e = encoded.error_correction;
        let ghost data = packed(encoded.buffer@);
        let code = lay_out(encoded, self.mask_reference);
        proof {
            assert(stream_bits(data, v, e) == pipeline_bits(text, v, e));
        }
        Ok(code)
    }
}

} // verus!
