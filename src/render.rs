//! Text renderings of matrices and symbols.

use vstd::prelude::*;
use vstd::string::StringExecFns;
use crate::array_2d::Coordinate;
use crate::matrix::{Color, Matrix, Module};
use crate::qrcode::QrCode;

verus! {

/// The character showing a module in the debug rendering of a matrix.
pub open spec fn module_glyph(m: Module) -> char {
    match m {
        Module::Filled(Color::White) => '_',
        Module::Filled(Color::Black) => '\u{2588}',
        Module::Empty => '\u{FFFD}',
        Module::Static(Color::White) => '\u{2591}',
        Module::Static(Color::Black) => '\u{2593}',
        Module::Reserved => '\u{2592}',
    }
}

/// The character showing a colour in the debug rendering of a symbol.
pub open spec fn color_glyph(c: Color) -> char {
    match c {
        Color::White => '_',
        Color::Black => '\u{2588}',
    }
}

/// The character showing two vertically stacked colours.
pub open spec fn half_block_glyph(up: Color, down: Color) -> char {
    match (up, down) {
        (Color::Black, Color::Black) => '\u{2588}',
        (Color::Black, Color::White) => '\u{2580}',
        (Color::White, Color::Black) => '\u{2584}',
        (Color::White, Color::White) => ' ',
    }
}

/// The first `n` characters of row `x` of a matrix's debug rendering.
pub open spec fn matrix_row_text<const N: usize>(m: Matrix<N>, x: int, n: int) -> Seq<char>
    decreases n,
{
    if n <= 0 {
        Seq::empty()
    } else {
        matrix_row_text(m, x, n - 1).push(module_glyph(m.module(x, n - 1)))
    }
}

/// The first `n` lines of a matrix's debug rendering, each ended by a newline.
pub open spec fn matrix_text<const N: usize>(m: Matrix<N>, n: int) -> Seq<char>
    decreases n,
{
    if n <= 0 {
        Seq::empty()
    } else {
        matrix_text(m, n - 1) + matrix_row_text(m, n - 1, m.width()).push('\n')
    }
}

/// The first `n` characters of row `x` of a symbol's debug rendering.
pub open spec fn code_row_text<const N: usize>(q: QrCode<N>, x: int, n: int) -> Seq<char>
    decreases n,
{
    if n <= 0 {
        Seq::empty()
    } else {
        code_row_text(q, x, n - 1).push(color_glyph(q.color(x, n - 1)))
    }
}

/// The first `n` lines of a symbol's debug rendering.
pub open spec fn code_text<const N: usize>(q: QrCode<N>, n: int) -> Seq<char>
    decreases n,
{
    if n <= 0 {
        Seq::empty()
    } else {
        code_text(q, n - 1) + code_row_text(q, n - 1, q.width()).push('\n')
    }
}

/// The first `n` characters of the half-block line showing rows `x` and `x + 1`.
pub open spec fn pair_row_text<const N: usize>(q: QrCode<N>, x: int, n: int) -> Seq<char>
    decreases n,
{
    if n <= 0 {
        Seq::empty()
    } else {
        pair_row_text(q, x, n - 1).push(half_block_glyph(q.color(x, n - 1), q.color(x + 1, n - 1)))
    }
}

/// The first `n` half-block lines, showing rows `0` to `2n - 1`.
pub open spec fn pairs_text<const N: usize>(q: QrCode<N>, n: int) -> Seq<char>
    decreases n,
{
    if n <= 0 {
        Seq::empty()
    } else {
        pairs_text(q, n - 1) + pair_row_text(q, 2 * (n - 1), q.width()).push('\n')
    }
}

/// The first `n` characters of the last line of the compact rendering: the
/// last row shown on the upper half.
pub open spec fn last_row_text<const N: usize>(q: QrCode<N>, n: int) -> Seq<char>
    decreases n,
{
    if n <= 0 {
        Seq::empty()
    } else {
        last_row_text(q, n - 1).push(half_block_glyph(q.color(q.width() - 1, n - 1), Color::White))
    }
}

/// The compact rendering: rows in pairs as half blocks, then the last row alone.
pub open spec fn compact_text<const N: usize>(q: QrCode<N>) -> Seq<char> {
    pairs_text(q, q.width() / 2) + last_row_text(q, q.width()).push('\n')
}

fn module_str(m: Module) -> (r: &'static str)
    ensures
        r@ == seq![module_glyph(m)],
{
    match m {
        Module::Filled(Color::White) => {
            proof {
                reveal_strlit("_");
            }
            "_"
        },
        Module::Filled(Color::Black) => {
            proof {
                reveal_strlit("\u{2588}");
            }
            "\u{2588}"
        },
        Module::Empty => {
            proof {
                reveal_strlit("\u{FFFD}");
            }
            "\u{FFFD}"
        },
        Module::Static(Color::White) => {
            proof {
                reveal_strlit("\u{2591}");
            }
            "\u{2591}"
        },
        Module::Static(Color::Black) => {
            proof {
                reveal_strlit("\u{2593}");
            }
            "\u{2593}"
        },
        Module::Reserved => {
            proof {
                reveal_strlit("\u{2592}");
            }
            "\u{2592}"
        },
    }
}

fn color_str(c: Color) -> (r: &'static str)
    ensures
        r@ == seq![color_glyph(c)],
{
    match c {
        Color::White => {
            proof {
                reveal_strlit("_");
            }
            "_"
        },
        Color::Black => {
            proof {
                reveal_strlit("\u{2588}");
            }
            "\u{2588}"
        },
    }
}

fn half_block_str(up: Color, down: Color) -> (r: &'static str)
    ensures
        r@ == seq![half_block_glyph(up, down)],
{
    match (up, down) {
        (Color::Black, Color::Black) => {
            proof {
                reveal_strlit("\u{2588}");
            }
            "\u{2588}"
        },
        (Color::Black, Color::White) => {
            proof {
                reveal_strlit("\u{2580}");
            }
            "\u{2580}"
        },
        (Color::White, Color::Black) => {
            proof {
                reveal_strlit("\u{2584}");
            }
            "\u{2584}"
        },
        (Color::White, Color::White) => {
            proof {
                reveal_strlit(" ");
            }
            " "
        },
    }
}

fn newline() -> (r: &'static str)
    ensures
        r@ == seq!['\n'],
{
    proof {
        reveal_strlit("\n");
    }
    "\n"
}

impl<const N: usize> Matrix<N> {
    /// One line per row, one character per module: `_` and `█` for data
    /// modules, `░` and `▓` for function patterns, `▒` for reserved and `�`
    /// for empty modules.
    pub fn debug_string(&self) -> (r: String)
        requires
            self.wf(),
        ensures
            r@ == matrix_text(*self, self.width()),
    {
        let s = self.size();
        let mut out = String::new();
        let mut x: usize = 0;
        while x < s
            invariant
                self.wf(),
                s == self.width(),
                s <= N,
                x <= s,
                out@ == matrix_text(*self, x as int),
            decreases s - x,
        {
            let ghost before = out@;
            let mut y: usize = 0;
            while y < s
                invariant
                    self.wf(),
                    s == self.width(),
                    s <= N,
                    x < s,
                    y <= s,
                    out@ == before + matrix_row_text(*self, x as int, y as int),
                decreases s - y,
            {
                out.append(module_str(self.get(Coordinate::new(x, y))));
                proof {
                    assert(out@ =~= before + matrix_row_text(*self, x as int, y + 1));
                }
                y = y + 1;
            }
            out.append(newline());
            proof {
                assert(out@ =~= matrix_text(*self, x + 1));
            }
            x = x + 1;
        }
        out
    }
}

impl<const N: usize> QrCode<N> {
    /// One line per row, `█` for black and `_` for white modules.
    pub fn debug_string(&self) -> (r: String)
        requires
            self.wf(),
        ensures
            r@ == code_text(*self, self.width()),
    {
        let s = self.size();
        let mut out = String::new();
        let mut x: usize = 0;
        while x < s
            invariant
                self.wf(),
                s == self.width(),
                x <= s,
                out@ == code_text(*self, x as int),
            decreases s - x,
        {
            let ghost before = out@;
            let mut y: usize = 0;
            while y < s
                invariant
                    self.wf(),
                    s == self.width(),
                    x < s,
                    y <= s,
                    out@ == before + code_row_text(*self, x as int, y as int),
                decreases s - y,
            {
                out.append(color_str(self.get(x, y)));
                proof {
                    assert(out@ =~= before + code_row_text(*self, x as int, y + 1));
                }
                y = y + 1;
            }
            out.append(newline());
            proof {
                assert(out@ =~= code_text(*self, x + 1));
            }
            x = x + 1;
        }
        out
    }

    /// A compact rendering for terminals: two rows per line as half blocks,
    /// then the last row on the upper half of a line.
    pub fn display_string(&self) -> (r: String)
        requires
            self.wf(),
            self.width() >= 1,
        ensures
            r@ == compact_text(*self),
    {
        let s = self.size();
        let pairs = s / 2;
        let mut out = String::new();
        let mut p: usize = 0;
        while p < pairs
            invariant
                self.wf(),
                s == self.width(),
                pairs == s / 2,
                p <= pairs,
                out@ == pairs_text(*self, p as int),
            decreases pairs - p,
        {
            let ghost before = out@;
            let mut y: usize = 0;
            while y < s
                invariant
                    self.wf(),
                    s == self.width(),
                    pairs == s / 2,
                    p < pairs,
                    y <= s,
                    out@ == before + pair_row_text(*self, 2 * p, y as int),
                decreases s - y,
            {
                let up = self.get(2 * p, y);
                let down = self.get(2 * p + 1, y);
                out.append(half_block_str(up, down));
                proof {
                    assert(out@ =~= before + pair_row_text(*self, 2 * p, y + 1));
                }
                y = y + 1;
            }
            out.append(newline());
            proof {
                assert(out@ =~= pairs_text(*self, p + 1));
            }
            p = p + 1;
        }
        let ghost before = out@;
        let mut y: usize = 0;
        while y < s
            invariant
                self.wf(),
                s == self.width(),
                s >= 1,
                y <= s,
                out@ == before + last_row_text(*self, y as int),
            decreases s - y,
        {
            out.append(half_block_str(self.get(s - 1, y), Color::White));
            proof {
                assert(out@ =~= before + last_row_text(*self, y + 1));
            }
            y = y + 1;
        }
        out.append(newline());
        proof {
            assert(out@ =~= compact_text(*self));
        }
        out
    }
}

} // verus!
