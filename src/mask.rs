//! The eight data masks, the penalty score, and the choice of mask.

use vstd::prelude::*;
use crate::array_2d::Coordinate;
use crate::format::{format_word, Formatted};
use crate::error_correction::ErrorCorrectionLevel;
use crate::matrix::{format_layer, module_color, painted, spec_inverse, Color, Matrix, Module};

verus! {

/// Whether mask `r` flips the module at row `x`, column `y`.
pub open spec fn mask_condition(r: int, x: int, y: int) -> bool {
    if r == 0 {
        (x + y) % 2 == 0
    } else if r == 1 {
        x % 2 == 0
    } else if r == 2 {
        y % 3 == 0
    } else if r == 3 {
        (x + y) % 3 == 0
    } else if r == 4 {
        (x / 2 + y / 3) % 2 == 0
    } else if r == 5 {
        (x * y) % 2 + (x * y) % 3 == 0
    } else if r == 6 {
        ((x * y) % 2 + (x * y) % 3) % 2 == 0
    } else {
        ((x + y) % 2 + (x * y) % 3) % 2 == 0
    }
}

/// A module after mask `r`: filled modules where the mask applies change
/// colour; every other module stays.
pub open spec fn masked_module(r: int, x: int, y: int, m: Module) -> Module {
    match m {
        Module::Filled(c) => if mask_condition(r, x, y) {
            Module::Filled(spec_inverse(c))
        } else {
            m
        },
        _ => m,
    }
}

/// Applying a mask twice gives back the module it started from.
pub proof fn lemma_mask_involution(r: int, x: int, y: int, m: Module)
    ensures
        masked_module(r, x, y, masked_module(r, x, y, m)) == m,
{
}

/// Masking never changes static, reserved or empty modules.
pub proof fn lemma_mask_keeps_function_modules(r: int, x: int, y: int, m: Module)
    requires
        !(m is Filled),
    ensures
        masked_module(r, x, y, m) == m,
{
}

/// Whether `after` is `before` with mask `r` applied to its logical area.
pub open spec fn masked_by<const N: usize>(before: Matrix<N>, after: Matrix<N>, r: int) -> bool {
    &&& after.width() == before.width()
    &&& forall|x: int, y: int|
        0 <= x < N && 0 <= y < N ==> #[trigger] after.module(x, y) == if x < before.width() && y
            < before.width() {
            masked_module(r, x, y, before.module(x, y))
        } else {
            before.module(x, y)
        }
}

/// Applying the same mask twice to a matrix gives back every module.
pub proof fn lemma_mask_twice<const N: usize>(
    m0: Matrix<N>,
    m1: Matrix<N>,
    m2: Matrix<N>,
    r: int,
)
    requires
        masked_by(m0, m1, r),
        masked_by(m1, m2, r),
    ensures
        forall|x: int, y: int| 0 <= x < N && 0 <= y < N ==> #[trigger] m2.module(x, y) == m0.module(x, y),
{
    assert forall|x: int, y: int| 0 <= x < N && 0 <= y < N implies #[trigger] m2.module(x, y)
        == m0.module(x, y) by {
        assert(m1.module(x, y) == m1.module(x, y));
        lemma_mask_involution(r, x, y, m0.module(x, y));
    }
}

/// Masking a matrix leaves every static, reserved and empty module as it was.
pub proof fn lemma_mask_preserves_function_modules<const N: usize>(
    before: Matrix<N>,
    after: Matrix<N>,
    r: int,
)
    requires
        masked_by(before, after, r),
    ensures
        forall|x: int, y: int|
            0 <= x < N && 0 <= y < N && !(before.module(x, y) is Filled) ==> #[trigger] after.module(
                x,
                y,
            ) == before.module(x, y),
{
}

fn mask_applies(reference: u8, x: usize, y: usize) -> (r: bool)
    requires
        reference < 8,
        x < 1000,
        y < 1000,
    ensures
        r == mask_condition(reference as int, x as int, y as int),
{
    assert(x * y < 1000000) by (nonlinear_arith)
        requires
            x < 1000,
            y < 1000,
    ;
    match reference {
        0 => (x + y) % 2 == 0,
        1 => x % 2 == 0,
        2 => y % 3 == 0,
        3 => (x + y) % 3 == 0,
        4 => ((x / 2) + (y / 3)) % 2 == 0,
        5 => (x * y) % 2 + (x * y) % 3 == 0,
        6 => ((x * y) % 2 + (x * y) % 3) % 2 == 0,
        _ => ((x + y) % 2 + (x * y) % 3) % 2 == 0,
    }
}

/// A symbol with one of the eight masks applied.
pub struct Masked<const N: usize> {
    pub mask_reference: u8,
    pub matrix: Matrix<N>,
}

impl<const N: usize> Masked<N> {
    /// The mask reference is in range and the symbol has a scorable width.
    pub open spec fn wf(&self) -> bool {
        &&& self.mask_reference < 8
        &&& self.matrix.wf()
        &&& 21 <= self.matrix.width() <= 181
    }

    /// Applies mask `reference` to the filled modules of the logical area.
    pub fn from(matrix: Matrix<N>, reference: u8) -> (r: Self)
        requires
            reference < 8,
            matrix.wf(),
            21 <= matrix.width() <= 181,
        ensures
            r.wf(),
            r.mask_reference == reference,
            r.matrix.width() == matrix.width(),
            r.matrix.level() == matrix.level(),
            masked_by(matrix, r.matrix, reference as int),
    {
        let mut masked = matrix;
        let size = masked.size();
        let mut x: usize = 0;
        while x < size
            invariant
                masked.wf(),
                x <= size,
                size == matrix.width(),
                size <= N,
                21 <= size <= 181,
                reference < 8,
                masked.width() == matrix.width(),
                masked.level() == matrix.level(),
                forall|i: int, j: int|
                    0 <= i < N && 0 <= j < N ==> #[trigger] masked.module(i, j) == if i < x && j
                        < size {
                        masked_module(reference as int, i, j, matrix.module(i, j))
                    } else {
                        matrix.module(i, j)
                    },
            decreases size - x,
        {
            let mut y: usize = 0;
            while y < size
                invariant
                    masked.wf(),
                    x < size,
                    y <= size,
                    size == matrix.width(),
                    size <= N,
                    21 <= size <= 181,
                    reference < 8,
                    masked.width() == matrix.width(),
                    masked.level() == matrix.level(),
                    forall|i: int, j: int|
                        0 <= i < N && 0 <= j < N ==> #[trigger] masked.module(i, j) == if (i < x
                            && j < size) || (i == x && j < y) {
                            masked_module(reference as int, i, j, matrix.module(i, j))
                        } else {
                            matrix.module(i, j)
                        },
                decreases size - y,
            {
                let pos = Coordinate::new(x, y);
                let module = masked.get(pos);
                match module {
                    Module::Filled(color) => {
                        if mask_applies(reference, x, y) {
                            masked.fill_module(pos, Module::Filled(color.inverse()));
                        }
                    },
                    _ => {},
                }
                y = y + 1;
            }
            x = x + 1;
        }
        Masked { mask_reference: reference, matrix: masked }
    }
}

} // verus!

verus! {

/// The colours of row `i` (`horizontal`) or column `i` of a symbol of width `s`.
pub open spec fn line_colors(g: spec_fn(int, int) -> Module, s: int, i: int, horizontal: bool) -> Seq<Color> {
    Seq::new(
        s as nat,
        |j: int|
            if horizontal {
                module_color(g(i, j))
            } else {
                module_color(g(j, i))
            },
    )
}

/// Length of the run of equal colours that ends at `i`.
pub open spec fn run_len(line: Seq<Color>, i: int) -> int
    decreases i,
{
    if i <= 0 {
        1
    } else if line[i - 1] == line[i] {
        run_len(line, i - 1) + 1
    } else {
        1
    }
}

/// Whether a maximal run of equal colours ends at `i`.
pub open spec fn run_ends(line: Seq<Color>, i: int) -> bool {
    i == line.len() - 1 || line[i] != line[i + 1]
}

/// Penalty of a run ending at `i`: its length less two, for runs of five or more.
pub open spec fn adjacency_at(line: Seq<Color>, i: int) -> int {
    if run_ends(line, i) && run_len(line, i) >= 5 {
        run_len(line, i) - 2
    } else {
        0
    }
}

pub open spec fn adjacency_prefix(line: Seq<Color>, n: int) -> int
    decreases n,
{
    if n <= 0 {
        0
    } else {
        adjacency_prefix(line, n - 1) + adjacency_at(line, n - 1)
    }
}

/// Adjacency penalty of one line: `L - 2` for each maximal run of length `L >= 5`.
pub open spec fn adjacency_score(line: Seq<Color>) -> int {
    adjacency_prefix(line, line.len() as int)
}

/// Adjacency penalty of the first `n` rows (or columns).
pub open spec fn lines_adjacency(g: spec_fn(int, int) -> Module, s: int, horizontal: bool, n: int) -> int
    decreases n,
{
    if n <= 0 {
        0
    } else {
        lines_adjacency(g, s, horizontal, n - 1) + adjacency_score(
            line_colors(g, s, n - 1, horizontal),
        )
    }
}

/// The finder-like pattern black, white, black, black, black, white, black,
/// then four white.
pub open spec fn finder_like_1(j: int) -> Color {
    if j == 0 || j == 2 || j == 3 || j == 4 || j == 6 {
        Color::Black
    } else {
        Color::White
    }
}

/// The finder-like pattern four white, then black, white, black, black,
/// black, white, black.
pub open spec fn finder_like_2(j: int) -> Color {
    if j == 4 || j == 6 || j == 7 || j == 8 || j == 10 {
        Color::Black
    } else {
        Color::White
    }
}

/// Whether the 11 colours from `i` on form one of the finder-like patterns.
pub open spec fn window_matches(line: Seq<Color>, i: int) -> bool {
    (forall|j: int| 0 <= j < 11 ==> line[i + j] == #[trigger] finder_like_1(j)) || (forall|j: int|
        0 <= j < 11 ==> line[i + j] == #[trigger] finder_like_2(j))
}

pub open spec fn pattern_prefix(line: Seq<Color>, n: int) -> int
    decreases n,
{
    if n <= 0 {
        0
    } else {
        pattern_prefix(line, n - 1) + if window_matches(line, n - 1) {
            1int
        } else {
            0int
        }
    }
}

/// Number of places in a line where a finder-like pattern starts.
pub open spec fn pattern_count(line: Seq<Color>) -> int {
    pattern_prefix(line, line.len() - 10)
}

/// Finder-like patterns in the first `n` rows (or columns).
pub open spec fn lines_pattern(g: spec_fn(int, int) -> Module, s: int, horizontal: bool, n: int) -> int
    decreases n,
{
    if n <= 0 {
        0
    } else {
        lines_pattern(g, s, horizontal, n - 1) + pattern_count(line_colors(g, s, n - 1, horizontal))
    }
}

/// 3 where the 2×2 window with top left `(x, y)` is of one colour.
pub open spec fn block_at(g: spec_fn(int, int) -> Module, x: int, y: int) -> int {
    let c = module_color(g(x, y));
    if c == module_color(g(x, y + 1)) && c == module_color(g(x + 1, y)) && c == module_color(
        g(x + 1, y + 1),
    ) {
        3
    } else {
        0
    }
}

pub open spec fn blocks_row(g: spec_fn(int, int) -> Module, x: int, n: int) -> int
    decreases n,
{
    if n <= 0 {
        0
    } else {
        blocks_row(g, x, n - 1) + block_at(g, x, n - 1)
    }
}

/// Block penalty of the windows whose top row is among the first `n` rows.
pub open spec fn blocks_total(g: spec_fn(int, int) -> Module, s: int, n: int) -> int
    decreases n,
{
    if n <= 0 {
        0
    } else {
        blocks_total(g, s, n - 1) + blocks_row(g, n - 1, s - 1)
    }
}

pub open spec fn black_row(g: spec_fn(int, int) -> Module, x: int, n: int) -> int
    decreases n,
{
    if n <= 0 {
        0
    } else {
        black_row(g, x, n - 1) + if module_color(g(x, n - 1)) == Color::Black {
            1int
        } else {
            0int
        }
    }
}

/// Number of black modules in the first `n` rows of width `s`.
pub open spec fn black_total(g: spec_fn(int, int) -> Module, s: int, n: int) -> int
    decreases n,
{
    if n <= 0 {
        0
    } else {
        black_total(g, s, n - 1) + black_row(g, n - 1, s)
    }
}

/// Proportion penalty: with `p` the percentage of black modules, rounded
/// down, 10 for each full 5 that `p` lies away from 50.
pub open spec fn proportion_score(black: int, total: int) -> int {
    let p = 100 * black / total;
    let k = if p < 50 {
        50 - p
    } else {
        p - 50
    };
    k / 5 * 10
}

/// The penalty score of a symbol of width `s`.
pub open spec fn penalty_score(g: spec_fn(int, int) -> Module, s: int) -> int {
    lines_adjacency(g, s, true, s) + lines_adjacency(g, s, false, s) + blocks_total(g, s, s - 1) + 40
        * lines_pattern(g, s, true, s) + 40 * lines_pattern(g, s, false, s) + proportion_score(
        black_total(g, s, s),
        s * s,
    )
}

fn adjacency_line(line: &Vec<Color>) -> (r: usize)
    requires
        1 <= line@.len() <= 181,
    ensures
        r == adjacency_score(line@),
        r <= 181 * 181,
{
    let n = line.len();
    let mut acc: usize = 0;
    let mut run: usize = 0;
    let mut i: usize = 0;
    while i < n
        invariant
            i <= n,
            n == line@.len(),
            1 <= n <= 181,
            i > 0 ==> run == run_len(line@, i - 1),
            run <= i,
            acc == adjacency_prefix(line@, i as int),
            acc <= i * 181,
        decreases n - i,
    {
        if i > 0 && line[i - 1] == line[i] {
            run = run + 1;
        } else {
            run = 1;
        }
        let ends = i == n - 1 || line[i] != line[i + 1];
        if ends && run >= 5 {
            acc = acc + (run - 2);
        }
        i = i + 1;
    }
    assert(acc <= 181 * 181) by (nonlinear_arith)
        requires
            acc <= i * 181,
            i <= 181,
    ;
    acc
}

fn finder_like_1_at(j: usize) -> (r: Color)
    ensures
        r == finder_like_1(j as int),
{
    if j == 0 || j == 2 || j == 3 || j == 4 || j == 6 {
        Color::Black
    } else {
        Color::White
    }
}

fn finder_like_2_at(j: usize) -> (r: Color)
    ensures
        r == finder_like_2(j as int),
{
    if j == 4 || j == 6 || j == 7 || j == 8 || j == 10 {
        Color::Black
    } else {
        Color::White
    }
}

fn window_matches_at(line: &Vec<Color>, i: usize) -> (r: bool)
    requires
        i + 11 <= line@.len() <= 181,
    ensures
        r == window_matches(line@, i as int),
{
    let mut first = true;
    let mut second = true;
    let mut j: usize = 0;
    while j < 11
        invariant
            j <= 11,
            i + 11 <= line@.len() <= 181,
            first == forall|k: int| 0 <= k < j ==> line@[i + k] == #[trigger] finder_like_1(k),
            second == forall|k: int| 0 <= k < j ==> line@[i + k] == #[trigger] finder_like_2(k),
        decreases 11 - j,
    {
        let c = line[i + j];
        first = first && c == finder_like_1_at(j);
        second = second && c == finder_like_2_at(j);
        j = j + 1;
    }
    first || second
}

fn pattern_line(line: &Vec<Color>) -> (r: usize)
    requires
        11 <= line@.len() <= 181,
    ensures
        r == pattern_count(line@),
        r <= 181,
{
    let n = line.len() - 10;
    let mut acc: usize = 0;
    let mut i: usize = 0;
    while i < n
        invariant
            i <= n,
            n == line@.len() - 10,
            11 <= line@.len() <= 181,
            acc == pattern_prefix(line@, i as int),
            acc <= i,
        decreases n - i,
    {
        if window_matches_at(line, i) {
            acc = acc + 1;
        }
        i = i + 1;
    }
    acc
}

impl<const N: usize> Masked<N> {
    /// Colours of row `i` (`horizontal`) or column `i`.
    fn line(&self, i: usize, horizontal: bool) -> (r: Vec<Color>)
        requires
            self.wf(),
            i < self.matrix.width(),
        ensures
            r@ == line_colors(self.matrix.grid(), self.matrix.width(), i as int, horizontal),
    {
        let s = self.matrix.size();
        let mut out: Vec<Color> = Vec::new();
        let mut j: usize = 0;
        while j < s
            invariant
                self.wf(),
                s == self.matrix.width(),
                s <= N,
                i < s,
                j <= s,
                out@ =~= line_colors(self.matrix.grid(), s as int, i as int, horizontal).take(
                    j as int,
                ),
            decreases s - j,
        {
            let pos = if horizontal {
                Coordinate::new(i, j)
            } else {
                Coordinate::new(j, i)
            };
            out.push(self.matrix.get(pos).color());
            j = j + 1;
        }
        out
    }

    fn lines_adjacency_exec(&self, horizontal: bool) -> (r: usize)
        requires
            self.wf(),
        ensures
            r == lines_adjacency(self.matrix.grid(), self.matrix.width(), horizontal, self.matrix.width()),
            r <= 181 * 181 * 181,
    {
        let s = self.matrix.size();
        let mut acc: usize = 0;
        let mut i: usize = 0;
        while i < s
            invariant
                self.wf(),
                s == self.matrix.width(),
                i <= s,
                acc == lines_adjacency(self.matrix.grid(), s as int, horizontal, i as int),
                acc <= i * (181 * 181),
            decreases s - i,
        {
            let line = self.line(i, horizontal);
            let a = adjacency_line(&line);
            assert(acc + a <= (i + 1) * (181 * 181)) by (nonlinear_arith)
                requires
                    acc <= i * (181 * 181),
                    a <= 181 * 181,
            ;
            acc = acc + a;
            i = i + 1;
        }
        assert(acc <= 181 * 181 * 181) by (nonlinear_arith)
            requires
                acc <= i * (181 * 181),
                i <= 181,
        ;
        acc
    }

    fn lines_pattern_exec(&self, horizontal: bool) -> (r: usize)
        requires
            self.wf(),
        ensures
            r == lines_pattern(self.matrix.grid(), self.matrix.width(), horizontal, self.matrix.width()),
            r <= 181 * 181,
    {
        let s = self.matrix.size();
        let mut acc: usize = 0;
        let mut i: usize = 0;
        while i < s
            invariant
                self.wf(),
                s == self.matrix.width(),
                i <= s,
                acc == lines_pattern(self.matrix.grid(), s as int, horizontal, i as int),
                acc <= i * 181,
            decreases s - i,
        {
            let line = self.line(i, horizontal);
            let a = pattern_line(&line);
            assert(acc + a <= (i + 1) * 181) by (nonlinear_arith)
                requires
                    acc <= i * 181,
                    a <= 181,
            ;
            acc = acc + a;
            i = i + 1;
        }
        assert(acc <= 181 * 181) by (nonlinear_arith)
            requires
                acc <= i * 181,
                i <= 181,
        ;
        acc
    }

    /// Adjacency penalty of the rows.
    pub fn score_adjacent_horizontal(&self) -> (r: usize)
        requires
            self.wf(),
        ensures
            r == lines_adjacency(self.matrix.grid(), self.matrix.width(), true, self.matrix.width()),
            r <= 181 * 181 * 181,
    {
        self.lines_adjacency_exec(true)
    }

    /// Adjacency penalty of the columns.
    pub fn score_adjacent_vertical(&self) -> (r: usize)
        requires
            self.wf(),
        ensures
            r == lines_adjacency(self.matrix.grid(), self.matrix.width(), false, self.matrix.width()),
            r <= 181 * 181 * 181,
    {
        self.lines_adjacency_exec(false)
    }

    /// Finder-like pattern penalty of the rows: 40 for each occurrence.
    pub fn score_pattern_horizontal(&self) -> (r: usize)
        requires
            self.wf(),
        ensures
            r == 40 * lines_pattern(self.matrix.grid(), self.matrix.width(), true, self.matrix.width()),
            r <= 40 * 181 * 181,
    {
        self.lines_pattern_exec(true) * 40
    }

    /// Finder-like pattern penalty of the columns: 40 for each occurrence.
    pub fn score_pattern_vertical(&self) -> (r: usize)
        requires
            self.wf(),
        ensures
            r == 40 * lines_pattern(self.matrix.grid(), self.matrix.width(), false, self.matrix.width()),
            r <= 40 * 181 * 181,
    {
        self.lines_pattern_exec(false) * 40
    }

    /// Block penalty: 3 for each 2×2 window of one colour.
    pub fn score_blocks(&self) -> (r: usize)
        requires
            self.wf(),
        ensures
            r == blocks_total(self.matrix.grid(), self.matrix.width(), self.matrix.width() - 1),
            r <= 3 * 181 * 181,
    {
        let s = self.matrix.size();
        let ghost g = self.matrix.grid();
        let mut acc: usize = 0;
        let mut x: usize = 0;
        while x < s - 1
            invariant
                self.wf(),
                s == self.matrix.width(),
                s <= N,
                g == self.matrix.grid(),
                x <= s - 1,
                acc == blocks_total(g, s as int, x as int),
                acc <= x * (3 * 181),
            decreases s - 1 - x,
        {
            let mut row: usize = 0;
            let mut y: usize = 0;
            while y < s - 1
                invariant
                    self.wf(),
                    s == self.matrix.width(),
                    s <= N,
                    g == self.matrix.grid(),
                    x < s - 1,
                    y <= s - 1,
                    row == blocks_row(g, x as int, y as int),
                    row <= 3 * y,
                decreases s - 1 - y,
            {
                let top_left = self.matrix.get(Coordinate::new(x, y)).color();
                let top_right = self.matrix.get(Coordinate::new(x, y + 1)).color();
                let bottom_left = self.matrix.get(Coordinate::new(x + 1, y)).color();
                let bottom_right = self.matrix.get(Coordinate::new(x + 1, y + 1)).color();
                if top_left == top_right && top_left == bottom_left && top_left == bottom_right {
                    row = row + 3;
                }
                y = y + 1;
            }
            assert(acc + row <= (x + 1) * (3 * 181)) by (nonlinear_arith)
                requires
                    acc <= x * (3 * 181),
                    row <= 3 * y,
                    y <= 181,
            ;
            acc = acc + row;
            x = x + 1;
        }
        assert(acc <= 3 * 181 * 181) by (nonlinear_arith)
            requires
                acc <= x * (3 * 181),
                x <= 181,
        ;
        acc
    }

    /// Proportion penalty of the black modules.
    pub fn score_proportion(&self) -> (r: usize)
        requires
            self.wf(),
        ensures
            r == proportion_score(
                black_total(self.matrix.grid(), self.matrix.width(), self.matrix.width()),
                self.matrix.width() * self.matrix.width(),
            ),
            r <= 100,
    {
        let s = self.matrix.size();
        let ghost g = self.matrix.grid();
        let mut black_count: usize = 0;
        let mut x: usize = 0;
        while x < s
            invariant
                self.wf(),
                s == self.matrix.width(),
                s <= N,
                g == self.matrix.grid(),
                x <= s,
                black_count == black_total(g, s as int, x as int),
                black_count <= x * 181,
                black_count <= x * s,
            decreases s - x,
        {
            let mut row: usize = 0;
            let mut y: usize = 0;
            while y < s
                invariant
                    self.wf(),
                    s == self.matrix.width(),
                    s <= N,
                    g == self.matrix.grid(),
                    x < s,
                    y <= s,
                    row == black_row(g, x as int, y as int),
                    row <= y,
                decreases s - y,
            {
                if self.matrix.get(Coordinate::new(x, y)).color() == Color::Black {
                    row = row + 1;
                }
                y = y + 1;
            }
            assert(black_count + row <= (x + 1) * 181 && black_count + row <= (x + 1) * s) by (nonlinear_arith)
                requires
                    black_count <= x * 181,
                    black_count <= x * s,
                    row <= y,
                    y <= 181,
                    y == s,
            ;
            black_count = black_count + row;
            x = x + 1;
        }
        assert(black_count <= 181 * 181 && 441 <= s * s <= 181 * 181 && black_count <= s * s) by (nonlinear_arith)
            requires
                black_count <= x * 181,
                black_count <= x * s,
                x == s,
                21 <= s <= 181,
        ;
        let total = s * s;
        let percentage = black_count * 100 / total;
        let k = if percentage < 50 {
            50 - percentage
        } else {
            percentage - 50
        };
        assert(percentage <= 100) by {
            let a: int = 100 * black_count;
            let b: int = total as int;
            vstd::arithmetic::div_mod::lemma_fundamental_div_mod(a as int, b as int);
            assert(a < b * 101);
            assert(percentage == a / b);
            assert(b * (a / b) <= a) by {
                vstd::arithmetic::div_mod::lemma_mod_pos_bound(a as int, b as int);
            }
            assert(a / b < 101) by (nonlinear_arith)
                requires
                    b * (a / b) <= a,
                    a < b * 101,
                    b > 0,
            ;
        }
        k / 5 * 10
    }

    /// The total penalty score.
    pub fn score(&self) -> (r: usize)
        requires
            self.wf(),
        ensures
            r == penalty_score(self.matrix.grid(), self.matrix.width()),
    {
        self.score_adjacent_horizontal() + self.score_adjacent_vertical() + self.score_blocks()
            + self.score_pattern_horizontal() + self.score_pattern_vertical()
            + self.score_proportion()
    }
}

} // verus!

verus! {

/// The modules of a symbol of width `s` after mask `r` and the format
/// information for `r` and `level`.
pub open spec fn masked_formatted_grid(
    g: spec_fn(int, int) -> Module,
    s: int,
    level: ErrorCorrectionLevel,
    r: int,
) -> spec_fn(int, int) -> Module {
    |x: int, y: int|
        painted(
            if 0 <= x < s && 0 <= y < s {
                masked_module(r, x, y, g(x, y))
            } else {
                g(x, y)
            },
            format_layer(s, format_word(level, r), x, y),
        )
}

/// The modules of `m` after mask `r` and the format information for `r` and
/// the matrix's level.
pub open spec fn masked_formatted<const N: usize>(m: Matrix<N>, r: int) -> spec_fn(int, int) -> Module {
    masked_formatted_grid(m.grid(), m.width(), m.level(), r)
}

/// The penalty score of `m` under mask `r`, format information written.
pub open spec fn mask_score<const N: usize>(m: Matrix<N>, r: int) -> int {
    penalty_score(masked_formatted(m, r), m.width())
}

/// A masked, formatted symbol with its penalty score.
pub struct ScoreMasked<const N: usize> {
    pub score: usize,
    pub masked: Masked<N>,
}

impl<const N: usize> ScoreMasked<N> {
    /// Scores a formatted symbol.
    pub fn from(formatted: Formatted<N>) -> (r: Self)
        requires
            formatted.masked.wf(),
        ensures
            r.masked == formatted.masked,
            r.score == penalty_score(formatted.masked.matrix.grid(), formatted.masked.matrix.width()),
    {
        let score = formatted.masked.score();
        Self { score, masked: formatted.masked }
    }
}

impl<const N: usize> Matrix<N> {
    /// Applies mask `mask_reference`, writes the format information, and scores the result.
    pub fn mask(self, mask_reference: u8) -> (r: ScoreMasked<N>)
        requires
            self.wf(),
            21 <= self.width() <= 181,
            mask_reference < 8,
        ensures
            r.masked.wf(),
            r.masked.mask_reference == mask_reference,
            r.masked.matrix.width() == self.width(),
            r.masked.matrix.level() == self.level(),
            r.masked.matrix.grid() == masked_formatted(self, mask_reference as int),
            r.score == mask_score(self, mask_reference as int),
    {
        let ghost m = self;
        let masked = Masked::from(self, mask_reference);
        let formatted = Formatted::from(masked);
        proof {
            let w = m.width();
            assert(w <= N) by {
                m.lemma_width_bound();
            }
            assert forall|x: int, y: int| #[trigger] formatted.masked.matrix.grid()(x, y)
                == masked_formatted(m, mask_reference as int)(x, y) by {
                if !(0 <= x < N && 0 <= y < N) {
                    assert(format_layer(w, format_word(m.level(), mask_reference as int), x, y)
                        is None);
                }
            }
            assert(formatted.masked.matrix.grid() =~= masked_formatted(m, mask_reference as int));
        }
        ScoreMasked::from(formatted)
    }

    /// Tries all eight masks and keeps the one with the lowest score; on a tie
    /// the lower reference wins.
    pub fn best_mask(self) -> (r: ScoreMasked<N>)
        requires
            self.wf(),
            21 <= self.width() <= 181,
        ensures
            r.masked.wf(),
            r.masked.matrix.width() == self.width(),
            r.masked.matrix.level() == self.level(),
            r.masked.matrix.grid() == masked_formatted(self, r.masked.mask_reference as int),
            r.score == mask_score(self, r.masked.mask_reference as int),
            forall|q: int| 0 <= q < 8 ==> r.score <= #[trigger] mask_score(self, q),
            forall|q: int| 0 <= q < r.masked.mask_reference ==> r.score < #[trigger] mask_score(self, q),
    {
        let first = self.duplicate();
        let ghost c0 = first;
        let mut best = first.mask(0);
        let mut reference: u8 = 1;
        proof {
            assert(masked_formatted(c0, 0) =~= masked_formatted(self, 0));
        }
        while reference < 8
            invariant
                self.wf(),
                21 <= self.width() <= 181,
                1 <= reference <= 8,
                best.masked.wf(),
                best.masked.mask_reference < reference,
                best.masked.matrix.width() == self.width(),
                best.masked.matrix.level() == self.level(),
                best.masked.matrix.grid() == masked_formatted(self, best.masked.mask_reference as int),
                best.score == mask_score(self, best.masked.mask_reference as int),
                forall|q: int| 0 <= q < reference ==> best.score <= #[trigger] mask_score(self, q),
                forall|q: int|
                    0 <= q < best.masked.mask_reference ==> best.score < #[trigger] mask_score(self, q),
            decreases 8 - reference,
        {
            let copy = self.duplicate();
            let ghost c = copy;
            let candidate = copy.mask(reference);
            proof {
                assert(masked_formatted(c, reference as int) =~= masked_formatted(self, reference as int));
            }
            if candidate.score < best.score {
                best = candidate;
            }
            reference = reference + 1;
        }
        best
    }
}

} // verus!
