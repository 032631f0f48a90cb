//! The module grid: function patterns, data placement and format placement.

use vstd::prelude::*;
use crate::array_2d::{Array2D, Coordinate};
use crate::blocks::{interleaved, lemma_block_bounds, BlockIterator};
use crate::buffer::{bit_at, bits_of_bytes, packed};
use crate::error_correction::{ErrorCorrectedData, ErrorCorrectionLevel};
use crate::qr_version::{spec_total_codewords, spec_version_to_size, Version};
use vstd::arithmetic::div_mod::{lemma_fundamental_div_mod, lemma_fundamental_div_mod_converse};

verus! {

/// The colour of a module.
#[derive(Clone, Copy, Debug, PartialEq, Eq, Structural, PartialOrd, Ord, Hash)]
pub enum Color {
    White,
    Black,
}

pub open spec fn spec_inverse(c: Color) -> Color {
    match c {
        Color::White => Color::Black,
        Color::Black => Color::White,
    }
}

impl Color {
    /// The other colour.
    pub fn inverse(self) -> (r: Self)
        ensures
            r == spec_inverse(self),
    {
        match self {
            Color::White => Color::Black,
            Color::Black => Color::White,
        }
    }
}

/// One cell of a symbol under construction.
#[derive(Clone, Copy, Debug, PartialEq, Eq, Structural, PartialOrd, Ord, Hash)]
pub enum Module {
    /// Part of the encoded region and filled with a specific color
    Filled(Color),
    /// Part of the encoded region, but not yet filled with a color
    Empty,
    /// Part of the finder pattern and filled with a specific color
    Static(Color),
    /// Part of the QR code structure that is not yet filled with a color
    Reserved,
}

/// The colour a module shows: unfilled and reserved modules show white.
pub open spec fn module_color(m: Module) -> Color {
    match m {
        Module::Filled(c) => c,
        Module::Empty => Color::White,
        Module::Static(c) => c,
        Module::Reserved => Color::White,
    }
}

impl Module {
    /// The colour this module shows.
    pub fn color(self) -> (r: Color)
        ensures
            r == module_color(self),
    {
        match self {
            Module::Filled(color) => color,
            Module::Empty => Color::White,
            Module::Static(color) => color,
            Module::Reserved => Color::White,
        }
    }
}

impl Default for Module {
    fn default() -> (r: Self)
        ensures
            r == Module::Empty,
    {
        Module::Empty
    }
}

pub open spec fn abs(a: int) -> int {
    if a < 0 {
        -a
    } else {
        a
    }
}

pub open spec fn max(a: int, b: int) -> int {
    if a < b {
        b
    } else {
        a
    }
}

/// Colour of a finder pattern at offset `(dx, dy)` from its corner: a black
/// 7×7 frame, a white 5×5 frame, a black 3×3 centre.
pub open spec fn finder_color(dx: int, dy: int) -> Color {
    if max(abs(dx - 3), abs(dy - 3)) == 2 {
        Color::White
    } else {
        Color::Black
    }
}

/// Colour of an alignment pattern at offset `(dx, dy)` from its centre: a
/// black frame, a white ring, a black centre.
pub open spec fn alignment_color(dx: int, dy: int) -> Color {
    if max(abs(dx), abs(dy)) == 1 {
        Color::White
    } else {
        Color::Black
    }
}

/// Colour of a timing pattern module: black where the coordinates add up to
/// an even number.
pub open spec fn timing_color(x: int, y: int) -> Color {
    if (x + y) % 2 == 0 {
        Color::Black
    } else {
        Color::White
    }
}

pub open spec fn in_box(x: int, y: int, x0: int, y0: int, h: int, w: int) -> bool {
    x0 <= x < x0 + h && y0 <= y < y0 + w
}

/// A module drawn by a layer, or the one that was there.
pub open spec fn painted(prev: Module, layer: Option<Module>) -> Module {
    match layer {
        Some(m) => m,
        None => prev,
    }
}

/// The three finder patterns and their white separators, on a symbol of width `s`.
pub open spec fn finder_layer(s: int, x: int, y: int) -> Option<Module> {
    if !(0 <= x < s && 0 <= y < s) {
        None
    } else if in_box(x, y, 0, 0, 7, 7) {
        Some(Module::Static(finder_color(x, y)))
    } else if in_box(x, y, s - 7, 0, 7, 7) {
        Some(Module::Static(finder_color(x - (s - 7), y)))
    } else if in_box(x, y, 0, s - 7, 7, 7) {
        Some(Module::Static(finder_color(x, y - (s - 7))))
    } else if (x == 7 && y <= 7) || (y == 7 && x <= 7) || (x == s - 8 && y <= 7) || (y == 7 && x
        >= s - 8) || (x == 7 && y >= s - 8) || (y == s - 8 && x <= 7) {
        Some(Module::Static(Color::White))
    } else {
        None
    }
}

/// The format information area, reserved until the format is written.
pub open spec fn reserved_layer(s: int, x: int, y: int) -> Option<Module> {
    if 0 <= x < s && 0 <= y < s && ((x <= 5 && y == 8) || (x == 8 && y <= 5) || (x == 7 && y == 8)
        || (x == 8 && y == 8) || (x == 8 && y == 7) || (x >= s - 8 && y == 8) || (x == 8 && y >= s
        - 8)) {
        Some(Module::Reserved)
    } else {
        None
    }
}

/// The timing patterns along row 6 and column 6, between the finders.
pub open spec fn timing_layer(s: int, x: int, y: int) -> Option<Module> {
    if (x == 6 && 8 <= y < s - 8) || (y == 6 && 8 <= x < s - 8) {
        Some(Module::Static(timing_color(x, y)))
    } else {
        None
    }
}

/// The alignment pattern of versions 2 to 6, centred at `(s - 7, s - 7)`.
pub open spec fn alignment_layer(s: int, x: int, y: int) -> Option<Module> {
    if s > 21 && in_box(x, y, s - 9, s - 9, 5, 5) {
        Some(Module::Static(alignment_color(x - (s - 7), y - (s - 7))))
    } else {
        None
    }
}

/// A module after all function patterns are painted over `prev`, in the
/// order finders, reserved area, timing, alignment.
pub open spec fn symbol_cell(s: int, x: int, y: int, prev: Module) -> Module {
    painted(
        painted(
            painted(painted(prev, finder_layer(s, x, y)), reserved_layer(s, x, y)),
            timing_layer(s, x, y),
        ),
        alignment_layer(s, x, y),
    )
}

/// A side length the placement walk is defined for.
pub open spec fn walkable(s: int) -> bool {
    21 <= s <= 181 && s % 2 == 1
}

/// Number of two-column strips right of the vertical timing pattern.
pub open spec fn right_strips(s: int) -> int {
    (s - 7) / 2
}

/// The right column of strip `j`; column 6 is skipped.
pub open spec fn strip_column(s: int, j: int) -> int {
    if j < right_strips(s) {
        s - 1 - 2 * j
    } else {
        s - 2 - 2 * j
    }
}

/// Number of positions of the placement walk.
pub open spec fn walk_len(s: int) -> int {
    (s - 1) * s
}

/// Row of the `k`-th position of the placement walk: strips run upwards and
/// downwards in turn, from the bottom right.
pub open spec fn walk_x(s: int, k: int) -> int {
    let j = k / (2 * s);
    let t = (k % (2 * s)) / 2;
    if j % 2 == 0 {
        s - 1 - t
    } else {
        t
    }
}

/// Column of the `k`-th position of the placement walk: in each row of a
/// strip the right column comes first.
pub open spec fn walk_y(s: int, k: int) -> int {
    strip_column(s, k / (2 * s)) - (k % (2 * s)) % 2
}

/// The place of module `(x, y)` in the placement walk.
pub open spec fn walk_index(s: int, x: int, y: int) -> int {
    let j = if y > 6 {
        (s - 1 - y) / 2
    } else {
        (s - 2 - y) / 2
    };
    let side = if y > 6 {
        (s - 1 - y) % 2
    } else {
        (s - 2 - y) % 2
    };
    let t = if j % 2 == 0 {
        s - 1 - x
    } else {
        x
    };
    2 * s * j + 2 * t + side
}

/// Every position of the walk lies in the symbol, off column 6, and the walk
/// visits it at exactly this step.
pub proof fn lemma_walk_position(s: int, k: int)
    requires
        walkable(s),
        0 <= k < walk_len(s),
    ensures
        0 <= walk_x(s, k) < s,
        0 <= walk_y(s, k) < s,
        walk_y(s, k) != 6,
        walk_index(s, walk_x(s, k), walk_y(s, k)) == k,
{
    let d = 2 * s;
    let j = k / d;
    let r = k % d;
    lemma_fundamental_div_mod(k, d);
    assert(0 <= r < d);
    assert(k == d * j + r);
    let m = (s - 1) / 2;
    assert(s - 1 == 2 * m);
    assert(walk_len(s) == d * m) by (nonlinear_arith)
        requires
            s - 1 == 2 * m,
            d == 2 * s,
            walk_len(s) == (s - 1) * s,
    ;
    assert(0 <= j < m) by (nonlinear_arith)
        requires
            k == d * j + r,
            0 <= r < d,
            0 <= k < d * m,
            d > 0,
    ;
}

/// Every module of the symbol off column 6 is visited by the walk, at step
/// `walk_index`.
pub proof fn lemma_walk_index(s: int, x: int, y: int)
    requires
        walkable(s),
        0 <= x < s,
        0 <= y < s,
        y != 6,
    ensures
        0 <= walk_index(s, x, y) < walk_len(s),
        walk_x(s, walk_index(s, x, y)) == x,
        walk_y(s, walk_index(s, x, y)) == y,
{
    let d = 2 * s;
    let j = if y > 6 {
        (s - 1 - y) / 2
    } else {
        (s - 2 - y) / 2
    };
    let side = if y > 6 {
        (s - 1 - y) % 2
    } else {
        (s - 2 - y) % 2
    };
    let t = if j % 2 == 0 {
        s - 1 - x
    } else {
        x
    };
    let k = walk_index(s, x, y);
    let r = 2 * t + side;
    assert(0 <= r < d);
    assert(k == d * j + r);
    lemma_fundamental_div_mod_converse(k, d, j, r);
    let m = (s - 1) / 2;
    assert(0 <= j < m);
    assert(k < walk_len(s)) by (nonlinear_arith)
        requires
            k == d * j + r,
            0 <= r < d,
            0 <= j < m,
            walk_len(s) == (s - 1) * s,
            d == 2 * s,
            s % 2 == 1,
            m == (s - 1) / 2,
    ;
    assert(k >= 0) by (nonlinear_arith)
        requires
            k == d * j + r,
            0 <= r,
            0 <= j,
            d > 0,
    ;
}

/// Yields the positions of the placement walk in order.
#[derive(Clone, Copy)]
pub struct PositionIterator {
    size: usize,
    index: usize,
}

impl PositionIterator {
    pub closed spec fn width(&self) -> int {
        self.size as int
    }

    /// Number of positions yielded so far.
    pub closed spec fn position(&self) -> int {
        self.index as int
    }

    pub closed spec fn wf(&self) -> bool {
        &&& walkable(self.size as int)
        &&& self.index <= walk_len(self.size as int)
    }

    pub fn new(size: usize) -> (r: PositionIterator)
        requires
            walkable(size as int),
        ensures
            r.wf(),
            r.width() == size,
            r.position() == 0,
    {
        PositionIterator { size, index: 0 }
    }

    /// The next position of the walk, or `None` after the last.
    pub fn next(&mut self) -> (r: Option<Coordinate>)
        requires
            old(self).wf(),
        ensures
            final(self).wf(),
            final(self).width() == old(self).width(),
            ({
                let s = old(self).width();
                let k = old(self).position();
                if k < walk_len(s) {
                    &&& r == Some(Coordinate { x: walk_x(s, k) as usize, y: walk_y(s, k) as usize })
                    &&& final(self).position() == k + 1
                } else {
                    &&& r is None
                    &&& final(self).position() == k
                }
            }),
    {
        let s = self.size;
        assert((s - 1) * s <= 180 * 181) by (nonlinear_arith)
            requires
                21 <= s <= 181,
        ;
        if self.index < (s - 1) * s {
            let k = self.index;
            proof {
                lemma_walk_position(s as int, k as int);
            }
            let j = k / (2 * s);
            let r = k % (2 * s);
            let t = r / 2;
            let x = if j % 2 == 0 {
                s - 1 - t
            } else {
                t
            };
            let column = if j < (s - 7) / 2 {
                s - 1 - 2 * j
            } else {
                s - 2 - 2 * j
            };
            let y = column - r % 2;
            self.index = self.index + 1;
            Some(Coordinate::new(x, y))
        } else {
            None
        }
    }
}

/// Number of empty modules of `g` among the first `k` positions of the walk.
pub open spec fn empties_before(g: spec_fn(int, int) -> Module, s: int, k: int) -> int
    decreases k,
{
    if k <= 0 {
        0
    } else {
        empties_before(g, s, k - 1) + if g(walk_x(s, k - 1), walk_y(s, k - 1)) == Module::Empty {
            1int
        } else {
            0int
        }
    }
}

/// The colour a data bit is drawn in.
pub open spec fn bit_color(b: bool) -> Color {
    if b {
        Color::Black
    } else {
        Color::White
    }
}

/// Bit `n` of the placed stream: the codeword bits, then zero remainder bits.
pub open spec fn stream_bit(bits: Seq<bool>, n: int) -> bool {
    if n < bits.len() {
        bits[n]
    } else {
        false
    }
}

/// The module at step `k` of the walk after placement: the `n`-th empty
/// module met takes bit `n`; once the codeword bits run out, the remaining
/// empty modules take zero remainder bits and so become white data modules.
pub open spec fn placed_at(g: spec_fn(int, int) -> Module, s: int, bits: Seq<bool>, k: int) -> Module {
    let x = walk_x(s, k);
    let y = walk_y(s, k);
    let n = empties_before(g, s, k);
    if g(x, y) == Module::Empty {
        Module::Filled(bit_color(stream_bit(bits, n)))
    } else {
        g(x, y)
    }
}

/// Module `(x, y)` after the bits are placed along the walk into the empty
/// modules of `g`.
pub open spec fn placed_cell(g: spec_fn(int, int) -> Module, s: int, bits: Seq<bool>, x: int, y: int) -> Module {
    if 0 <= x < s && 0 <= y < s && y != 6 {
        placed_at(g, s, bits, walk_index(s, x, y))
    } else {
        g(x, y)
    }
}

/// The modules of `m` with every function pattern painted, for width `s`.
pub open spec fn symbol_grid<const N: usize>(m: Matrix<N>, s: int) -> spec_fn(int, int) -> Module {
    |x: int, y: int|
        if 0 <= x < N && 0 <= y < N {
            symbol_cell(s, x, y, m.module(x, y))
        } else {
            Module::Empty
        }
}

/// The bits of the final codeword stream, most significant bit of each codeword first.
pub open spec fn codeword_bits(data: ErrorCorrectedData) -> Seq<bool> {
    bits_of_bytes(interleaved(packed(data.buffer@), data.version.version, data.error_correction))
}

/// Index of the format bit stored at `(x, y)` next to the top left finder,
/// or -1.
pub open spec fn format_index_near(x: int, y: int) -> int {
    if y == 8 && 0 <= x <= 5 {
        x
    } else if y == 8 && (x == 7 || x == 8) {
        x - 1
    } else if x == 8 && y == 7 {
        8
    } else if x == 8 && 0 <= y <= 5 {
        14 - y
    } else {
        -1
    }
}

/// Index of the format bit stored at `(x, y)` next to the other two finders,
/// or -1.
pub open spec fn format_index_far(s: int, x: int, y: int) -> int {
    if x == 8 && s - 8 <= y < s {
        s - 1 - y
    } else if y == 8 && s - 7 <= x < s {
        x - s + 15
    } else {
        -1
    }
}

/// The module showing bit `i` (least significant first) of a format word.
pub open spec fn format_bit_module(word: u16, i: int) -> Module {
    Module::Static(if (word >> (i as u16)) & 1u16 == 1u16 { Color::Black } else { Color::White })
}

/// The format information of width `s`, written twice, and the dark module.
pub open spec fn format_layer(s: int, word: u16, x: int, y: int) -> Option<Module> {
    if x == s - 8 && y == 8 {
        Some(Module::Static(Color::Black))
    } else if format_index_near(x, y) >= 0 {
        Some(format_bit_module(word, format_index_near(x, y)))
    } else if format_index_far(s, x, y) >= 0 {
        Some(format_bit_module(word, format_index_far(s, x, y)))
    } else {
        None
    }
}

/// Yields, for each format bit from the least significant, its two positions.
#[derive(Clone, Copy)]
pub struct FormatPositionIterator {
    size: Coordinate,
    index: usize,
}

impl FormatPositionIterator {
    pub closed spec fn width(&self) -> int {
        self.size.x as int
    }

    /// Number of bit positions yielded so far.
    pub closed spec fn position(&self) -> int {
        self.index as int
    }

    pub closed spec fn wf(&self) -> bool {
        &&& self.size.x == self.size.y
        &&& 21 <= self.size.x
        &&& self.index <= 15
    }

    pub fn new(size: Coordinate) -> (r: FormatPositionIterator)
        requires
            size.x == size.y,
            21 <= size.x,
        ensures
            r.wf(),
            r.width() == size.x,
            r.position() == 0,
    {
        FormatPositionIterator { size, index: 0 }
    }

    /// The two positions of the next format bit, or `None` after the fifteenth.
    pub fn next(&mut self) -> (r: Option<[Coordinate; 2]>)
        requires
            old(self).wf(),
        ensures
            final(self).wf(),
            final(self).width() == old(self).width(),
            ({
                let s = old(self).width();
                let i = old(self).position();
                if i < 15 {
                    &&& r matches Some(p) && format_index_near(p[0].x as int, p[0].y as int) == i
                        && format_index_far(s, p[1].x as int, p[1].y as int) == i && p[0].x < s
                        && p[0].y < s && p[1].x < s && p[1].y < s
                    &&& final(self).position() == i + 1
                } else {
                    &&& r is None
                    &&& final(self).position() == i
                }
            }),
    {
        if self.index <= 14 {
            let i = self.index;
            let pos1 = if i <= 5 {
                Coordinate::new(i, 8)
            } else if i <= 7 {
                Coordinate::new(i + 1, 8)
            } else if i == 8 {
                Coordinate::new(8, 14 - i + 1)
            } else {
                Coordinate::new(8, 14 - i)
            };
            let pos2 = if i <= 7 {
                Coordinate::new(8, self.size.y - 1 - i)
            } else {
                Coordinate::new(self.size.x - 1 - 14 + i, 8)
            };
            self.index = self.index + 1;
            Some([pos1, pos2])
        } else {
            None
        }
    }
}

/// What a box fill draws.
#[derive(Clone, Copy)]
enum BoxKind {
    Finder,
    Alignment,
    Timing,
    Solid(Module),
}

spec fn box_module(kind: BoxKind, x0: int, y0: int, x: int, y: int) -> Module {
    match kind {
        BoxKind::Finder => Module::Static(finder_color(x - x0, y - y0)),
        BoxKind::Alignment => Module::Static(alignment_color(x - x0 - 2, y - y0 - 2)),
        BoxKind::Timing => Module::Static(timing_color(x, y)),
        BoxKind::Solid(m) => m,
    }
}

fn box_module_exec(kind: BoxKind, x0: usize, y0: usize, x: usize, y: usize) -> (r: Module)
    requires
        x0 <= x,
        y0 <= y,
    ensures
        r == box_module(kind, x0 as int, y0 as int, x as int, y as int),
{
    match kind {
        BoxKind::Finder => {
            let dx = x - x0;
            let dy = y - y0;
            let ax = if dx >= 3 {
                dx - 3
            } else {
                3 - dx
            };
            let ay = if dy >= 3 {
                dy - 3
            } else {
                3 - dy
            };
            let d = if ax < ay {
                ay
            } else {
                ax
            };
            if d == 2 {
                Module::Static(Color::White)
            } else {
                Module::Static(Color::Black)
            }
        },
        BoxKind::Alignment => {
            let dx = x - x0;
            let dy = y - y0;
            let ax = if dx >= 2 {
                dx - 2
            } else {
                2 - dx
            };
            let ay = if dy >= 2 {
                dy - 2
            } else {
                2 - dy
            };
            let d = if ax < ay {
                ay
            } else {
                ax
            };
            if d == 1 {
                Module::Static(Color::White)
            } else {
                Module::Static(Color::Black)
            }
        },
        BoxKind::Timing => {
            if (x % 2 + y % 2) % 2 == 0 {
                Module::Static(Color::Black)
            } else {
                Module::Static(Color::White)
            }
        },
        BoxKind::Solid(m) => m,
    }
}

impl<const N: usize> Default for Matrix<N> {
    fn default() -> (r: Self)
        ensures
            r.wf(),
            r.width() == N,
            forall|x: int, y: int| 0 <= x < N && 0 <= y < N ==> #[trigger] r.module(x, y) == Module::Empty,
    {
        Self::new()
    }
}

/// A symbol under construction: modules of a square logical area of at most
/// `N` by `N`, with the error correction level of the data placed in it.
pub struct Matrix<const N: usize> {
    error_correction: ErrorCorrectionLevel,
    data: Array2D<Module, N>,
}

impl<const N: usize> Matrix<N> {
    /// The module at row `x`, column `y`.
    pub closed spec fn module(&self, x: int, y: int) -> Module {
        self.data.cell(x, y)
    }

    /// The error correction level of the data placed in the matrix.
    pub closed spec fn level(&self) -> ErrorCorrectionLevel {
        self.error_correction
    }

    /// Side length of the logical area.
    pub closed spec fn width(&self) -> int {
        self.data.spec_size().x as int
    }

    /// The logical area is square and fits the store.
    pub closed spec fn wf(&self) -> bool {
        &&& self.data.wf()
        &&& self.data.spec_size().x == self.data.spec_size().y
    }

    /// The modules as a function of row and column, empty outside the store.
    pub open spec fn grid(&self) -> spec_fn(int, int) -> Module {
        |x: int, y: int|
            if 0 <= x < N && 0 <= y < N {
                self.module(x, y)
            } else {
                Module::Empty
            }
    }

    /// The logical area of a well-formed matrix fits its store.
    pub proof fn lemma_width_bound(&self)
        requires
            self.wf(),
        ensures
            0 <= self.width() <= N,
    {
        self.data.lemma_wf_bounds();
    }

    proof fn lemma_width(&self)
        requires
            self.wf(),
        ensures
            0 <= self.width() <= N,
    {
        self.data.lemma_wf_bounds();
    }

    /// A matrix of `N` by `N` empty modules.
    pub fn new() -> (r: Self)
        ensures
            r.wf(),
            r.width() == N,
            r.level() == ErrorCorrectionLevel::Medium,
            forall|x: int, y: int| 0 <= x < N && 0 <= y < N ==> #[trigger] r.module(x, y) == Module::Empty,
    {
        Matrix { error_correction: ErrorCorrectionLevel::Medium, data: Array2D::filled(Module::Empty) }
    }

    /// A copy with the same modules, width and level.
    pub fn duplicate(&self) -> (r: Self)
        requires
            self.wf(),
        ensures
            r.wf(),
            r.width() == self.width(),
            r.level() == self.level(),
            forall|x: int, y: int| 0 <= x < N && 0 <= y < N ==> #[trigger] r.module(x, y) == self.module(x, y),
    {
        Matrix { error_correction: self.error_correction, data: self.data.duplicate() }
    }

    /// The error correction level of the data placed in the matrix.
    pub fn error_correction(&self) -> (r: ErrorCorrectionLevel)
        ensures
            r == self.level(),
    {
        self.error_correction
    }

    /// Records the error correction level the format information will name.
    pub fn set_error_correction(&mut self, error_correction: ErrorCorrectionLevel)
        requires
            old(self).wf(),
        ensures
            final(self).wf(),
            final(self).level() == error_correction,
            final(self).width() == old(self).width(),
            forall|x: int, y: int| 0 <= x < N && 0 <= y < N ==> #[trigger] final(self).module(x, y) == old(self).module(x, y),
    {
        self.error_correction = error_correction;
    }

    /// Side length of the logical area.
    pub fn size(&self) -> (r: usize)
        requires
            self.wf(),
        ensures
            r == self.width(),
            r <= N,
    {
        proof {
            self.data.lemma_wf_bounds();
        }
        self.data.size().x
    }

    /// The module at `pos`.
    pub fn get(&self, pos: Coordinate) -> (r: Module)
        requires
            self.wf(),
            pos.x < N,
            pos.y < N,
        ensures
            r == self.module(pos.x as int, pos.y as int),
    {
        self.data.get(pos)
    }

    pub(crate) fn fill_module(&mut self, pos: Coordinate, data: Module)
        requires
            old(self).wf(),
            pos.x < N,
            pos.y < N,
        ensures
            final(self).wf(),
            final(self).width() == old(self).width(),
            final(self).level() == old(self).level(),
            forall|x: int, y: int|
                0 <= x < N && 0 <= y < N ==> #[trigger] final(self).module(x, y) == if x == pos.x && y
                    == pos.y {
                    data
                } else {
                    old(self).module(x, y)
                },
    {
        self.data.set(pos, data);
    }

    /// Sets every module of the logical area to `data`.
    pub fn fill_whole(&mut self, data: Module)
        requires
            old(self).wf(),
        ensures
            final(self).wf(),
            final(self).width() == old(self).width(),
            final(self).level() == old(self).level(),
            forall|x: int, y: int|
                0 <= x < N && 0 <= y < N ==> #[trigger] final(self).module(x, y) == if x < old(
                    self,
                ).width() && y < old(self).width() {
                    data
                } else {
                    old(self).module(x, y)
                },
    {
        let size = self.size();
        self.fill_box(0, 0, size, size, BoxKind::Solid(data));
    }

    /// Paints the `h` by `w` box whose top left module is `(x0, y0)`.
    fn fill_box(&mut self, x0: usize, y0: usize, h: usize, w: usize, kind: BoxKind)
        requires
            old(self).wf(),
            x0 + h <= N,
            y0 + w <= N,
        ensures
            final(self).wf(),
            final(self).width() == old(self).width(),
            final(self).level() == old(self).level(),
            forall|x: int, y: int|
                0 <= x < N && 0 <= y < N ==> #[trigger] final(self).module(x, y) == if in_box(
                    x,
                    y,
                    x0 as int,
                    y0 as int,
                    h as int,
                    w as int,
                ) {
                    box_module(kind, x0 as int, y0 as int, x, y)
                } else {
                    old(self).module(x, y)
                },
    {
        let mut i: usize = 0;
        while i < h
            invariant
                self.wf(),
                i <= h,
                x0 + h <= N,
                y0 + w <= N,
                self.width() == old(self).width(),
                self.error_correction == old(self).error_correction,
                forall|x: int, y: int|
                    0 <= x < N && 0 <= y < N ==> #[trigger] self.module(x, y) == if in_box(
                        x,
                        y,
                        x0 as int,
                        y0 as int,
                        i as int,
                        w as int,
                    ) {
                        box_module(kind, x0 as int, y0 as int, x, y)
                    } else {
                        old(self).module(x, y)
                    },
            decreases h - i,
        {
            let mut j: usize = 0;
            while j < w
                invariant
                    self.wf(),
                    i < h,
                    j <= w,
                    x0 + h <= N,
                    y0 + w <= N,
                    self.width() == old(self).width(),
                    self.error_correction == old(self).error_correction,
                    forall|x: int, y: int|
                        0 <= x < N && 0 <= y < N ==> #[trigger] self.module(x, y) == if in_box(
                            x,
                            y,
                            x0 as int,
                            y0 as int,
                            i as int,
                            w as int,
                        ) || in_box(x, y, (x0 + i) as int, y0 as int, 1, j as int) {
                            box_module(kind, x0 as int, y0 as int, x, y)
                        } else {
                            old(self).module(x, y)
                        },
                decreases w - j,
            {
                let m = box_module_exec(kind, x0, y0, x0 + i, y0 + j);
                self.fill_module(Coordinate::new(x0 + i, y0 + j), m);
                j = j + 1;
            }
            i = i + 1;
        }
    }

    /// Paints a straight line of modules from `pos1` to `pos2`, both included.
    fn fill_line(&mut self, pos1: Coordinate, pos2: Coordinate, data: Module)
        requires
            old(self).wf(),
            (pos1.x == pos2.x && pos1.y < pos2.y) || (pos1.y == pos2.y && pos1.x < pos2.x),
            pos2.x < N,
            pos2.y < N,
        ensures
            final(self).wf(),
            final(self).width() == old(self).width(),
            final(self).level() == old(self).level(),
            forall|x: int, y: int|
                0 <= x < N && 0 <= y < N ==> #[trigger] final(self).module(x, y) == if pos1.x <= x
                    <= pos2.x && pos1.y <= y <= pos2.y {
                    data
                } else {
                    old(self).module(x, y)
                },
    {
        self.fill_box(
            pos1.x,
            pos1.y,
            pos2.x - pos1.x + 1,
            pos2.y - pos1.y + 1,
            BoxKind::Solid(data),
        );
    }

    /// Paints a finder pattern with its top left module at `pos`.
    fn fill_finder_pattern(&mut self, pos: Coordinate)
        requires
            old(self).wf(),
            pos.x + 7 <= N,
            pos.y + 7 <= N,
        ensures
            final(self).wf(),
            final(self).width() == old(self).width(),
            final(self).level() == old(self).level(),
            forall|x: int, y: int|
                0 <= x < N && 0 <= y < N ==> #[trigger] final(self).module(x, y) == if in_box(
                    x,
                    y,
                    pos.x as int,
                    pos.y as int,
                    7,
                    7,
                ) {
                    Module::Static(finder_color(x - pos.x, y - pos.y))
                } else {
                    old(self).module(x, y)
                },
    {
        self.fill_box(pos.x, pos.y, 7, 7, BoxKind::Finder);
    }

    /// Paints the three finder patterns and their separators.
    pub fn fill_finder_patterns(&mut self)
        requires
            old(self).wf(),
            old(self).width() >= 21,
        ensures
            final(self).wf(),
            final(self).width() == old(self).width(),
            final(self).level() == old(self).level(),
            forall|x: int, y: int|
                0 <= x < N && 0 <= y < N ==> #[trigger] final(self).module(x, y) == painted(
                    old(self).module(x, y),
                    finder_layer(old(self).width(), x, y),
                ),
    {
        let white = Module::Static(Color::White);
        let size = self.size();
        self.fill_finder_pattern(Coordinate::new(0, 0));
        self.fill_line(Coordinate::new(0, 7), Coordinate::new(7, 7), white);
        self.fill_line(Coordinate::new(7, 0), Coordinate::new(7, 6), white);
        self.fill_finder_pattern(Coordinate::new(size - 7, 0));
        self.fill_line(Coordinate::new(size - 8, 0), Coordinate::new(size - 8, 7), white);
        self.fill_line(Coordinate::new(size - 8, 7), Coordinate::new(size - 1, 7), white);
        self.fill_finder_pattern(Coordinate::new(0, size - 7));
        self.fill_line(Coordinate::new(7, size - 8), Coordinate::new(7, size - 1), white);
        self.fill_line(Coordinate::new(0, size - 8), Coordinate::new(7, size - 8), white);
    }

    /// Paints an alignment pattern centred at `center_pos`.
    fn fill_alignment_pattern(&mut self, center_pos: Coordinate)
        requires
            old(self).wf(),
            center_pos.x >= 2,
            center_pos.y >= 2,
            center_pos.x + 3 <= N,
            center_pos.y + 3 <= N,
        ensures
            final(self).wf(),
            final(self).width() == old(self).width(),
            final(self).level() == old(self).level(),
            forall|x: int, y: int|
                0 <= x < N && 0 <= y < N ==> #[trigger] final(self).module(x, y) == if in_box(
                    x,
                    y,
                    center_pos.x - 2,
                    center_pos.y - 2,
                    5,
                    5,
                ) {
                    Module::Static(alignment_color(x - center_pos.x, y - center_pos.y))
                } else {
                    old(self).module(x, y)
                },
    {
        self.fill_box(center_pos.x - 2, center_pos.y - 2, 5, 5, BoxKind::Alignment);
    }

    /// Paints the alignment pattern of versions 2 to 6.
    pub fn fill_alignment_patterns(&mut self)
        requires
            old(self).wf(),
            old(self).width() >= 21,
        ensures
            final(self).wf(),
            final(self).width() == old(self).width(),
            final(self).level() == old(self).level(),
            forall|x: int, y: int|
                0 <= x < N && 0 <= y < N ==> #[trigger] final(self).module(x, y) == painted(
                    old(self).module(x, y),
                    alignment_layer(old(self).width(), x, y),
                ),
    {
        let size = self.size();
        if size > 21 {
            self.fill_alignment_pattern(Coordinate::new(size - 7, size - 7));
        }
    }

    /// Reserves the format information area.
    pub fn fill_reserved(&mut self)
        requires
            old(self).wf(),
            old(self).width() >= 21,
        ensures
            final(self).wf(),
            final(self).width() == old(self).width(),
            final(self).level() == old(self).level(),
            forall|x: int, y: int|
                0 <= x < N && 0 <= y < N ==> #[trigger] final(self).module(x, y) == painted(
                    old(self).module(x, y),
                    reserved_layer(old(self).width(), x, y),
                ),
    {
        let reserved = Module::Reserved;
        let size = self.size();
        self.fill_line(Coordinate::new(0, 8), Coordinate::new(5, 8), reserved);
        self.fill_line(Coordinate::new(8, 0), Coordinate::new(8, 5), reserved);
        self.fill_module(Coordinate::new(7, 8), reserved);
        self.fill_module(Coordinate::new(8, 8), reserved);
        self.fill_module(Coordinate::new(8, 7), reserved);
        self.fill_line(Coordinate::new(size - 8, 8), Coordinate::new(size - 1, 8), reserved);
        self.fill_line(Coordinate::new(8, size - 8), Coordinate::new(8, size - 1), reserved);
    }

    /// Paints the timing patterns along row 6 and column 6.
    pub fn fill_timing_pattern(&mut self)
        requires
            old(self).wf(),
            old(self).width() >= 21,
        ensures
            final(self).wf(),
            final(self).width() == old(self).width(),
            final(self).level() == old(self).level(),
            forall|x: int, y: int|
                0 <= x < N && 0 <= y < N ==> #[trigger] final(self).module(x, y) == painted(
                    old(self).module(x, y),
                    timing_layer(old(self).width(), x, y),
                ),
    {
        let size = self.size();
        self.fill_box(6, 8, 1, size - 16, BoxKind::Timing);
        self.fill_box(8, 6, size - 16, 1, BoxKind::Timing);
    }

    /// Paints every function pattern and reserves the format area: finder
    /// patterns, reserved area, timing patterns, alignment pattern, in that order.
    pub fn fill_symbol(&mut self)
        requires
            old(self).wf(),
            old(self).width() >= 21,
        ensures
            final(self).wf(),
            final(self).width() == old(self).width(),
            final(self).level() == old(self).level(),
            forall|x: int, y: int|
                0 <= x < N && 0 <= y < N ==> #[trigger] final(self).module(x, y) == symbol_cell(
                    old(self).width(),
                    x,
                    y,
                    old(self).module(x, y),
                ),
    {
        self.fill_finder_patterns();
        self.fill_reserved();
        self.fill_timing_pattern();
        self.fill_alignment_patterns();
    }

    /// Places the codewords along the walk into the empty modules.
    fn place_bits(&mut self, stream: &Vec<u8>)
        requires
            old(self).wf(),
            stream@.len() <= 4096,
            walkable(old(self).width()),
        ensures
            final(self).wf(),
            final(self).width() == old(self).width(),
            final(self).level() == old(self).level(),
            forall|x: int, y: int|
                0 <= x < N && 0 <= y < N ==> #[trigger] final(self).module(x, y) == placed_cell(
                    old(self).grid(),
                    old(self).width(),
                    bits_of_bytes(stream@),
                    x,
                    y,
                ),
    {
        let ghost g = old(self).grid();
        let ghost bits = bits_of_bytes(stream@);
        let s = self.size();
        let n_bits = stream.len() * 8;
        let mut walker = PositionIterator::new(s);
        let mut placed: usize = 0;
        proof {
            self.lemma_width();
            assert forall|k: int| 0 <= k < walk_len(s as int) implies #[trigger] self.module(
                walk_x(s as int, k),
                walk_y(s as int, k),
            ) == g(walk_x(s as int, k), walk_y(s as int, k)) by {
                lemma_walk_position(s as int, k);
            }
        }
        loop
            invariant
                self.wf(),
                self.width() == s,
                self.level() == old(self).level(),
                s <= N,
                walkable(s as int),
                g == old(self).grid(),
                bits == bits_of_bytes(stream@),
                n_bits == bits.len(),
                walker.wf(),
                walker.width() == s,
                placed == empties_before(g, s as int, walker.position()),
                placed <= walker.position(),
                forall|k: int|
                    0 <= k < walker.position() ==> #[trigger] self.module(walk_x(s as int, k), walk_y(s as int, k))
                        == placed_at(g, s as int, bits, k),
                forall|k: int|
                    walker.position() <= k < walk_len(s as int) ==> #[trigger] self.module(
                        walk_x(s as int, k),
                        walk_y(s as int, k),
                    ) == g(walk_x(s as int, k), walk_y(s as int, k)),
                forall|x: int, y: int|
                    0 <= x < N && 0 <= y < N && !(x < s && y < s && y != 6) ==> #[trigger] self.module(x, y)
                        == g(x, y),
            ensures
                walker.position() == walk_len(s as int),
                forall|k: int|
                    0 <= k < walk_len(s as int) ==> #[trigger] self.module(walk_x(s as int, k), walk_y(s as int, k))
                        == placed_at(g, s as int, bits, k),
                forall|x: int, y: int|
                    0 <= x < N && 0 <= y < N && !(x < s && y < s && y != 6) ==> #[trigger] self.module(x, y)
                        == g(x, y),
            decreases walk_len(s as int) - walker.position(),
        {
            let ghost k = walker.position();
            let ghost before = *self;
            match walker.next() {
                None => {
                    break ;
                },
                Some(pos) => {
                    proof {
                        lemma_walk_position(s as int, k);
                        assert(self.module(pos.x as int, pos.y as int) == g(pos.x as int, pos.y as int));
                    }
                    proof {
                        lemma_empties_step(g, s as int, k);
                    }
                    if self.get(pos) == Module::Empty {
                        let bit = if placed < n_bits {
                            let byte = stream[placed / 8];
                            byte & (0x80u8 >> ((placed % 8) as u8)) != 0
                        } else {
                            false
                        };
                        assert(bit == stream_bit(bits, placed as int));
                        let color = if bit {
                            Color::Black
                        } else {
                            Color::White
                        };
                        self.fill_module(pos, Module::Filled(color));
                        placed = placed + 1;
                    }
                    proof {
                        assert forall|k2: int| 0 <= k2 < walk_len(s as int) && k2 != k implies #[trigger] self.module(
                            walk_x(s as int, k2),
                            walk_y(s as int, k2),
                        ) == before.module(walk_x(s as int, k2), walk_y(s as int, k2)) by {
                            lemma_walk_position(s as int, k2);
                        }
                    }
                },
            }
        }
        proof {
            assert forall|x: int, y: int| 0 <= x < N && 0 <= y < N implies #[trigger] self.module(x, y)
                == placed_cell(g, s as int, bits, x, y) by {
                if x < s && y < s && y != 6 {
                    lemma_walk_index(s as int, x, y);
                    let k = walk_index(s as int, x, y);
                    assert(self.module(walk_x(s as int, k), walk_y(s as int, k)) == placed_at(g, s as int, bits, k));
                }
            }
        }
    }

    /// After placement over painted function patterns, no module of the
    /// symbol is empty.
    proof fn lemma_symbol_filled(before: Self, after: Self, s: int, bits: Seq<bool>)
        requires
            after.wf(),
            walkable(s),
            s == after.width(),
            forall|x: int, y: int|
                0 <= x < N && 0 <= y < N ==> #[trigger] after.module(x, y) == placed_cell(
                    symbol_grid(before, s),
                    s,
                    bits,
                    x,
                    y,
                ),
        ensures
            forall|x: int, y: int|
                0 <= x < s && 0 <= y < s ==> #[trigger] after.module(x, y) != Module::Empty,
    {
        after.lemma_width_bound();
        assert forall|x: int, y: int| 0 <= x < s && 0 <= y < s implies #[trigger] after.module(x, y)
            != Module::Empty by {
            if y == 6 {
                lemma_column_six_painted(s, x, before.module(x, y));
            } else {
                lemma_placement_fills_every_empty(symbol_grid(before, s), s, bits, x, y);
            }
        }
    }

    /// Lays out a symbol for the data: sets the version's width and the
    /// level, paints the function patterns, then places the interleaved
    /// codewords, most significant bit first, into the empty modules along
    /// the walk.
    pub fn place_data(&mut self, error_corrected_data: ErrorCorrectedData)
        requires
            old(self).wf(),
            error_corrected_data.wf(),
            spec_version_to_size(error_corrected_data.version.version as int) <= N,
        ensures
            final(self).wf(),
            final(self).width() == spec_version_to_size(error_corrected_data.version.version as int),
            final(self).level() == error_corrected_data.error_correction,
            forall|x: int, y: int|
                0 <= x < final(self).width() && 0 <= y < final(self).width()
                    ==> #[trigger] final(self).module(x, y) != Module::Empty,
            forall|x: int, y: int|
                0 <= x < N && 0 <= y < N ==> #[trigger] final(self).module(x, y) == placed_cell(
                    symbol_grid(*old(self), final(self).width()),
                    final(self).width(),
                    codeword_bits(error_corrected_data),
                    x,
                    y,
                ),
    {
        let version = error_corrected_data.version;
        let error_correction = error_corrected_data.error_correction;
        self.set_version(version);
        let ghost ma = *self;
        self.error_correction = error_correction;
        let ghost s = self.width();
        let ghost m0 = *self;
        self.fill_symbol();
        proof {
            assert forall|x: int, y: int| 0 <= x < N && 0 <= y < N implies #[trigger] self.module(x, y)
                == symbol_grid(*old(self), s)(x, y) by {
                assert(ma.module(x, y) == old(self).module(x, y));
                assert(m0.module(x, y) == ma.module(x, y));
            }
            lemma_block_bounds(version, error_correction);
        }
        let bytes = error_corrected_data.buffer.data();
        let mut iter = BlockIterator::new(bytes, version, error_correction);
        let mut stream: Vec<u8> = Vec::new();
        let ghost all = interleaved(bytes@, version.version, error_correction);
        loop
            invariant
                iter.wf(),
                iter.spec_data() == bytes@,
                iter.spec_version() == version,
                iter.spec_level() == error_correction,
                0 <= iter.position() <= spec_total_codewords(version.version),
                all == interleaved(bytes@, version.version, error_correction),
                stream@ == all.take(iter.position()),
            ensures
                stream@ == all,
            decreases spec_total_codewords(version.version) - iter.position(),
        {
            let ghost p = iter.position();
            match iter.next() {
                Some(b) => {
                    stream.push(b);
                    assert(stream@ =~= all.take(iter.position()));
                },
                None => {
                    assert(all.take(p) =~= all);
                    break ;
                },
            }
        }
        let ghost g = self.grid();
        self.place_bits(&stream);
        proof {
            assert(g =~= symbol_grid(*old(self), s));
            Self::lemma_symbol_filled(*old(self), *self, s, bits_of_bytes(stream@));
        }
    }

    /// A symbol laid out for the data, from an empty matrix.
    pub fn from_data(error_corrected_data: ErrorCorrectedData) -> (r: Self)
        requires
            error_corrected_data.wf(),
            spec_version_to_size(error_corrected_data.version.version as int) <= N,
        ensures
            r.wf(),
            r.width() == spec_version_to_size(error_corrected_data.version.version as int),
            r.level() == error_corrected_data.error_correction,
            forall|x: int, y: int|
                0 <= x < r.width() && 0 <= y < r.width() ==> #[trigger] r.module(x, y)
                    != Module::Empty,
            forall|x: int, y: int|
                0 <= x < N && 0 <= y < N ==> #[trigger] r.module(x, y) == placed_cell(
                    |x: int, y: int| symbol_cell(r.width(), x, y, Module::Empty),
                    r.width(),
                    codeword_bits(error_corrected_data),
                    x,
                    y,
                ),
    {
        let mut matrix = Self::new();
        let ghost m0 = matrix;
        matrix.place_data(error_corrected_data);
        proof {
            assert(symbol_grid(m0, matrix.width()) =~= |x: int, y: int| symbol_cell(matrix.width(), x, y, Module::Empty));
        }
        matrix
    }

    /// Writes the 15-bit format word (bit 0 least significant) into both
    /// format areas, then sets the dark module at `(width - 8, 8)`.
    pub fn place_format(&mut self, data: u16)
        requires
            old(self).wf(),
            old(self).width() >= 21,
        ensures
            final(self).wf(),
            final(self).width() == old(self).width(),
            final(self).level() == old(self).level(),
            forall|x: int, y: int|
                0 <= x < N && 0 <= y < N ==> #[trigger] final(self).module(x, y) == painted(
                    old(self).module(x, y),
                    format_layer(old(self).width(), data, x, y),
                ),
    {
        let s = self.size();
        let mut pos_iter = FormatPositionIterator::new(Coordinate::new(s, s));
        let ghost w = s as int;
        let mut index: u16 = 0;
        loop
            invariant
                self.wf(),
                index == pos_iter.position(),
                self.width() == w,
                self.level() == old(self).level(),
                w == s,
                21 <= s <= N,
                pos_iter.wf(),
                pos_iter.width() == s,
                forall|x: int, y: int|
                    0 <= x < N && 0 <= y < N ==> #[trigger] self.module(x, y) == if 0 <= format_index_near(x, y)
                        < pos_iter.position() {
                        format_bit_module(data, format_index_near(x, y))
                    } else if 0 <= format_index_far(w, x, y) < pos_iter.position() {
                        format_bit_module(data, format_index_far(w, x, y))
                    } else {
                        old(self).module(x, y)
                    },
            ensures
                pos_iter.position() == 15,
                forall|x: int, y: int|
                    0 <= x < N && 0 <= y < N ==> #[trigger] self.module(x, y) == if 0 <= format_index_near(x, y)
                        < 15 {
                        format_bit_module(data, format_index_near(x, y))
                    } else if 0 <= format_index_far(w, x, y) < 15 {
                        format_bit_module(data, format_index_far(w, x, y))
                    } else {
                        old(self).module(x, y)
                    },
            decreases 15 - pos_iter.position(),
        {
            let ghost i = pos_iter.position();
            match pos_iter.next() {
                None => {
                    break ;
                },
                Some(pos_list) => {
                    let color = if (data >> index) & 1 == 1 {
                        Color::Black
                    } else {
                        Color::White
                    };
                    self.fill_module(pos_list[0], Module::Static(color));
                    self.fill_module(pos_list[1], Module::Static(color));
                    index = index + 1;
                },
            }
        }
        self.fill_module(Coordinate::new(s - 8, 8), Module::Static(Color::Black));
    }

    /// Sets the logical area to the width of `version`; modules stay as they are.
    pub fn set_version(&mut self, version: Version)
        requires
            old(self).wf(),
            spec_version_to_size(version.version as int) <= N,
        ensures
            final(self).wf(),
            final(self).width() == spec_version_to_size(version.version as int),
            final(self).level() == old(self).level(),
            forall|x: int, y: int| 0 <= x < N && 0 <= y < N ==> #[trigger] final(self).module(x, y) == old(self).module(x, y),
    {
        let w = version.width();
        self.data.set_size(Coordinate::new(w, w));
    }
}

} // verus!

verus! {

proof fn lemma_empties_step(g: spec_fn(int, int) -> Module, s: int, k: int)
    requires
        k >= 0,
    ensures
        empties_before(g, s, k) <= empties_before(g, s, k + 1) <= empties_before(g, s, k) + 1,
        g(walk_x(s, k), walk_y(s, k)) == Module::Empty ==> empties_before(g, s, k + 1)
            == empties_before(g, s, k) + 1,
        empties_before(g, s, k) >= 0,
    decreases k,
{
    if k > 0 {
        lemma_empties_step(g, s, k - 1);
    }
}

proof fn lemma_empties_monotone(g: spec_fn(int, int) -> Module, s: int, k1: int, k2: int)
    requires
        0 <= k1 <= k2,
    ensures
        empties_before(g, s, k1) <= empties_before(g, s, k2),
    decreases k2 - k1,
{
    if k1 < k2 {
        lemma_empties_step(g, s, k2 - 1);
        lemma_empties_monotone(g, s, k1, k2 - 1);
    }
}

/// Placement gives each empty module met along the walk its own bit: an
/// empty module met earlier takes an earlier bit than any module met later.
pub proof fn lemma_placement_exactly_once(g: spec_fn(int, int) -> Module, s: int, k1: int, k2: int)
    requires
        0 <= k1 < k2,
        g(walk_x(s, k1), walk_y(s, k1)) == Module::Empty,
    ensures
        empties_before(g, s, k1) < empties_before(g, s, k2),
{
    lemma_empties_step(g, s, k1);
    lemma_empties_monotone(g, s, k1 + 1, k2);
}

/// No module off column 6 stays empty after placement: the codeword bits,
/// then zero remainder bits, fill every empty module on the walk.
pub proof fn lemma_placement_fills_every_empty(
    g: spec_fn(int, int) -> Module,
    s: int,
    bits: Seq<bool>,
    x: int,
    y: int,
)
    requires
        walkable(s),
        0 <= x < s,
        0 <= y < s,
        y != 6,
    ensures
        placed_cell(g, s, bits, x, y) != Module::Empty,
{
    lemma_walk_index(s, x, y);
}

/// Every bit of the placed stream (codeword bits, then zero remainder bits,
/// one per empty module) is placed: bit `n` lands on the `n`-th empty module
/// met along the walk, in its colour. With `lemma_placement_exactly_once`,
/// the filled modules and the emitted bits correspond one to one.
pub proof fn lemma_placement_places_every_bit(
    g: spec_fn(int, int) -> Module,
    s: int,
    bits: Seq<bool>,
    m: int,
    n: int,
)
    requires
        m >= 0,
        0 <= n < empties_before(g, s, m),
    ensures
        exists|k: int|
            0 <= k < m && g(walk_x(s, k), walk_y(s, k)) == Module::Empty && empties_before(g, s, k)
                == n && #[trigger] placed_at(g, s, bits, k) == Module::Filled(
                bit_color(stream_bit(bits, n)),
            ),
    decreases m,
{
    lemma_empties_step(g, s, m - 1);
    if empties_before(g, s, m - 1) > n {
        lemma_placement_places_every_bit(g, s, bits, m - 1, n);
        let k = choose|k: int|
            0 <= k < m - 1 && g(walk_x(s, k), walk_y(s, k)) == Module::Empty && empties_before(
                g,
                s,
                k,
            ) == n && #[trigger] placed_at(g, s, bits, k) == Module::Filled(
                bit_color(stream_bit(bits, n)),
            );
        assert(placed_at(g, s, bits, k) == Module::Filled(bit_color(stream_bit(bits, n))));
    } else {
        assert(placed_at(g, s, bits, m - 1) == Module::Filled(bit_color(stream_bit(bits, n))));
    }
}

/// Column 6 of a symbol holds only function patterns, so the walk, which
/// skips it, misses no module that could take data.
pub proof fn lemma_column_six_painted(s: int, x: int, prev: Module)
    requires
        21 <= s,
        0 <= x < s,
    ensures
        symbol_cell(s, x, 6, prev) != Module::Empty,
{
}

} // verus!
