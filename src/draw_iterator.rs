//! Walking a finished symbol together with its quiet zone.

use vstd::prelude::*;
use crate::matrix::Color;
use crate::qrcode::QrCode;

verus! {

/// Width of the quiet zone around a symbol, in modules.
pub const BORDER_SIZE: usize = 4;

/// A module to draw: its place in the padded image and its colour.
pub struct CoordinatedColor {
    pub x: usize,
    pub y: usize,
    pub color: Color,
}

/// Whether `(x, y)` of the padded image lies in the quiet zone of a symbol of width `s`.
pub open spec fn in_border(s: int, x: int, y: int) -> bool {
    x < 4 || y < 4 || x >= s + 4 || y >= s + 4
}

/// The colour at `(x, y)` of the padded image: white in the quiet zone, else
/// the symbol's module at row `x - 4`, column `y - 4`.
pub open spec fn draw_color<const N: usize>(q: QrCode<N>, x: int, y: int) -> Color {
    if in_border(q.width(), x, y) {
        Color::White
    } else {
        q.color(x - 4, y - 4)
    }
}

/// Walks the symbol with a four-module white quiet zone; `x` runs fastest.
pub struct DrawIterator<'a, const N: usize> {
    qrcode: &'a QrCode<N>,
    index: usize,
}

impl<'a, const N: usize> DrawIterator<'a, N> {
    pub closed spec fn code(&self) -> &'a QrCode<N> {
        self.qrcode
    }

    /// Number of modules yielded so far.
    pub closed spec fn position(&self) -> int {
        self.index as int
    }

    pub(crate) fn new(qrcode: &'a QrCode<N>) -> (r: Self)
        ensures
            r.code() == qrcode,
            r.position() == 0,
    {
        DrawIterator { qrcode, index: 0 }
    }

    /// Number of rows of the padded image: the symbol's side plus eight.
    pub fn height(&self) -> (r: usize)
        requires
            self.code().wf(),
            self.code().width() <= 1000,
        ensures
            r == self.code().width() + 8,
    {
        8 + self.qrcode.size()
    }

    /// Number of columns of the padded image: the symbol's side plus eight.
    pub fn width(&self) -> (r: usize)
        requires
            self.code().wf(),
            self.code().width() <= 1000,
        ensures
            r == self.code().width() + 8,
    {
        8 + self.qrcode.size()
    }

    fn is_current_pos_border(&self, x: usize, y: usize) -> (r: bool)
        requires
            self.code().wf(),
            self.code().width() <= 1000,
        ensures
            r == in_border(self.code().width(), x as int, y as int),
    {
        let data_size = self.qrcode.size();
        x < BORDER_SIZE || y < BORDER_SIZE || x >= data_size + BORDER_SIZE || y >= data_size
            + BORDER_SIZE
    }

    /// The next module of the padded image, or `None` after the last: the
    /// `p`-th is at `x = p % (width + 8)`, `y = p / (width + 8)`.
    pub fn next(&mut self) -> (r: Option<CoordinatedColor>)
        requires
            old(self).code().wf(),
            old(self).code().width() <= 1000,
        ensures
            final(self).code() == old(self).code(),
            ({
                let w = old(self).code().width() + 8;
                let p = old(self).position();
                if 0 <= p < w * w {
                    &&& r matches Some(c) && c.x == p % w && c.y == p / w && c.color == draw_color(
                        *old(self).code(),
                        p % w,
                        p / w,
                    )
                    &&& final(self).position() == p + 1
                } else {
                    &&& r is None
                    &&& final(self).position() == p
                }
            }),
    {
        let w = self.width();
        assert(w * w <= 1008 * 1008) by (nonlinear_arith)
            requires
                w <= 1008,
        ;
        if self.index < w * w {
            let x = self.index % w;
            let y = self.index / w;
            proof {
                vstd::arithmetic::div_mod::lemma_fundamental_div_mod(self.index as int, w as int);
                assert(y < w) by (nonlinear_arith)
                    requires
                        self.index < w * w,
                        y == self.index / w,
                        w > 0,
                ;
            }
            let color = if self.is_current_pos_border(x, y) {
                Color::White
            } else {
                self.qrcode.get(x - BORDER_SIZE, y - BORDER_SIZE)
            };
            self.index = self.index + 1;
            Some(CoordinatedColor { x, y, color })
        } else {
            None
        }
    }
}

/// The padded image is square with side `width + 8`; its outer band of four
/// modules is white; and the `p`-th module drawn is at `(p % side, p / side)`,
/// so each coordinate is drawn exactly once, row after row.
pub proof fn lemma_draw_layout<const N: usize>(q: QrCode<N>, x: int, y: int)
    requires
        q.wf(),
        0 <= q.width(),
        0 <= x < q.width() + 8,
        0 <= y < q.width() + 8,
    ensures
        (x < 4 || y < 4 || x >= q.width() + 4 || y >= q.width() + 4) ==> draw_color(q, x, y)
            == Color::White,
        ({
            let w = q.width() + 8;
            let p = y * w + x;
            &&& 0 <= p < w * w
            &&& p % w == x
            &&& p / w == y
        }),
{
    let w = q.width() + 8;
    let p = y * w + x;
    vstd::arithmetic::div_mod::lemma_fundamental_div_mod_converse(p, w, y, x);
    assert(0 <= p < w * w) by (nonlinear_arith)
        requires
            p == y * w + x,
            0 <= x < w,
            0 <= y < w,
    ;
}

} // verus!
