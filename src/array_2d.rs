//! A square grid store with a logical size, and cursors over its rows and columns.

use vstd::prelude::*;

verus! {

/// A position in a grid: `x` is the row, `y` the column, from the top left.
#[derive(Clone, Copy, Debug, PartialEq, Eq, Structural, PartialOrd, Ord, Hash)]
pub struct Coordinate {
    pub x: usize,
    pub y: usize,
}

impl Coordinate {
    pub fn new(x: usize, y: usize) -> (r: Coordinate)
        ensures
            r == (Coordinate { x, y }),
    {
        Coordinate { x, y }
    }
}

/// A square store of `N` by `N` cells with a logical size of at most `N` by `N`.
pub struct Array2D<T, const N: usize> {
    data: Vec<Vec<T>>,
    size: Coordinate,
}

impl<T: Copy, const N: usize> Array2D<T, N> {
    /// The cell at row `x`, column `y`.
    pub closed spec fn cell(&self, x: int, y: int) -> T {
        self.data@[x]@[y]
    }

    /// The logical size.
    pub closed spec fn spec_size(&self) -> Coordinate {
        self.size
    }

    /// Every row has `N` cells and the logical size fits the store.
    pub closed spec fn wf(&self) -> bool {
        &&& self.data@.len() == N
        &&& forall|x: int| 0 <= x < N ==> (#[trigger] self.data@[x])@.len() == N
        &&& self.size.x <= N
        &&& self.size.y <= N
    }

    /// Whether two stores agree on every cell.
    pub open spec fn same_cells(&self, other: &Self) -> bool {
        forall|x: int, y: int| 0 <= x < N && 0 <= y < N ==> #[trigger] self.cell(x, y) == other.cell(x, y)
    }

    /// The logical size of a well-formed store fits the store.
    pub proof fn lemma_wf_bounds(&self)
        requires
            self.wf(),
        ensures
            self.spec_size().x <= N,
            self.spec_size().y <= N,
    {
    }

    /// A store of `N` by `N` cells, each `value`, with logical size `N` by `N`.
    pub fn filled(value: T) -> (r: Self)
        ensures
            r.wf(),
            r.spec_size() == (Coordinate { x: N, y: N }),
            forall|x: int, y: int| 0 <= x < N && 0 <= y < N ==> #[trigger] r.cell(x, y) == value,
    {
        let mut data: Vec<Vec<T>> = Vec::new();
        let mut i: usize = 0;
        while i < N
            invariant
                i <= N,
                data@.len() == i,
                forall|x: int| 0 <= x < i ==> (#[trigger] data@[x])@.len() == N,
                forall|x: int, y: int|
                    0 <= x < i && 0 <= y < N ==> #[trigger] data@[x]@[y] == value,
            decreases N - i,
        {
            let mut row: Vec<T> = Vec::new();
            let mut j: usize = 0;
            while j < N
                invariant
                    j <= N,
                    row@.len() == j,
                    forall|y: int| 0 <= y < j ==> #[trigger] row@[y] == value,
                decreases N - j,
            {
                row.push(value);
                j = j + 1;
            }
            data.push(row);
            i = i + 1;
        }
        Array2D { data, size: Coordinate { x: N, y: N } }
    }

    /// A copy with the same cells and logical size.
    pub fn duplicate(&self) -> (r: Self)
        requires
            self.wf(),
        ensures
            r.wf(),
            r.spec_size() == self.spec_size(),
            r.same_cells(self),
    {
        let mut data: Vec<Vec<T>> = Vec::new();
        let mut i: usize = 0;
        while i < N
            invariant
                self.wf(),
                i <= N,
                data@.len() == i,
                forall|x: int| 0 <= x < i ==> (#[trigger] data@[x])@.len() == N,
                forall|x: int, y: int|
                    0 <= x < i && 0 <= y < N ==> #[trigger] data@[x]@[y] == self.cell(x, y),
            decreases N - i,
        {
            let mut row: Vec<T> = Vec::new();
            let mut j: usize = 0;
            while j < N
                invariant
                    self.wf(),
                    i < N,
                    j <= N,
                    row@.len() == j,
                    forall|y: int| 0 <= y < j ==> #[trigger] row@[y] == self.cell(i as int, y),
                decreases N - j,
            {
                row.push(self.data[i][j]);
                j = j + 1;
            }
            data.push(row);
            i = i + 1;
        }
        Array2D { data, size: self.size }
    }

    /// The largest logical size.
    pub fn capacity() -> (r: Coordinate)
        ensures
            r == (Coordinate { x: N, y: N }),
    {
        Coordinate::new(N, N)
    }

    /// The logical size.
    pub fn size(&self) -> (r: Coordinate)
        ensures
            r == self.spec_size(),
    {
        self.size
    }

    /// Changes the logical size; the cells stay as they are.
    pub fn set_size(&mut self, size: Coordinate)
        requires
            old(self).wf(),
            size.x <= N,
            size.y <= N,
        ensures
            final(self).wf(),
            final(self).spec_size() == size,
            final(self).same_cells(old(self)),
    {
        self.size = size;
    }

    /// The cell at `pos`.
    pub fn get(&self, pos: Coordinate) -> (r: T)
        requires
            self.wf(),
            pos.x < N,
            pos.y < N,
        ensures
            r == self.cell(pos.x as int, pos.y as int),
    {
        self.data[pos.x][pos.y]
    }

    /// Replaces the cell at `pos`.
    pub fn set(&mut self, pos: Coordinate, value: T)
        requires
            old(self).wf(),
            pos.x < N,
            pos.y < N,
        ensures
            final(self).wf(),
            final(self).spec_size() == old(self).spec_size(),
            final(self).cell(pos.x as int, pos.y as int) == value,
            forall|x: int, y: int|
                0 <= x < N && 0 <= y < N && (x != pos.x || y != pos.y) ==> #[trigger] final(self).cell(x, y)
                    == old(self).cell(x, y),
    {
        let mut row: Vec<T> = Vec::new();
        self.data.set_and_swap(pos.x, &mut row);
        row.set(pos.y, value);
        self.data.set_and_swap(pos.x, &mut row);
        proof {
            assert forall|x: int| 0 <= x < N implies (#[trigger] self.data@[x])@.len() == N by {
                if x != pos.x {
                    assert(self.data@[x] == old(self).data@[x]);
                }
            }
        }
    }

    /// The rows of the logical area, top to bottom.
    pub fn rows(&self) -> (r: Rows<'_, T, N>)
        requires
            self.wf(),
        ensures
            r.position() == 0,
            r.array() == self,
    {
        Rows { data: self, x: 0 }
    }

    /// The columns of the logical area, left to right.
    pub fn columns(&self) -> (r: Columns<'_, T, N>)
        requires
            self.wf(),
        ensures
            r.position() == 0,
            r.array() == self,
    {
        Columns { data: self, y: 0 }
    }
}

impl<T: Copy + Default, const N: usize> Array2D<T, N> {
    /// A store of `N` by `N` default cells, with logical size `N` by `N`.
    pub fn new() -> (r: Self)
        ensures
            r.wf(),
            r.spec_size() == (Coordinate { x: N, y: N }),
            forall|x: int, y: int|
                0 <= x < N && 0 <= y < N ==> #[trigger] r.cell(x, y) == r.cell(0, 0),
    {
        Self::filled(T::default())
    }
}

/// Walks the rows of the logical area of an [`Array2D`].
pub struct Rows<'a, T, const N: usize> {
    data: &'a Array2D<T, N>,
    x: usize,
}

impl<'a, T: Copy, const N: usize> Rows<'a, T, N> {
    pub closed spec fn array(&self) -> &'a Array2D<T, N> {
        self.data
    }

    /// Number of rows yielded so far.
    pub closed spec fn position(&self) -> nat {
        self.x as nat
    }

    /// The next row, or `None` after the last.
    pub fn next(&mut self) -> (r: Option<Row<'a, T, N>>)
        requires
            old(self).array().wf(),
        ensures
            final(self).array() == old(self).array(),
            ({
                let p = old(self).position();
                if p < old(self).array().spec_size().x {
                    &&& r matches Some(row) && row.array() == old(self).array() && row.line() == p
                        && row.position() == 0
                    &&& final(self).position() == p + 1
                } else {
                    &&& r is None
                    &&& final(self).position() == p
                }
            }),
    {
        let size = self.data.size();
        if self.x < size.x {
            let result = Row { data: self.data, x: self.x, y: 0 };
            self.x = self.x + 1;
            Some(result)
        } else {
            None
        }
    }
}

/// Walks the cells of one row of an [`Array2D`], left to right.
pub struct Row<'a, T, const N: usize> {
    data: &'a Array2D<T, N>,
    x: usize,
    y: usize,
}

impl<'a, T: Copy, const N: usize> Row<'a, T, N> {
    pub closed spec fn array(&self) -> &'a Array2D<T, N> {
        self.data
    }

    /// The row walked.
    pub closed spec fn line(&self) -> nat {
        self.x as nat
    }

    /// Number of cells yielded so far.
    pub closed spec fn position(&self) -> nat {
        self.y as nat
    }

    /// The next cell of the row, or `None` after the last.
    pub fn next(&mut self) -> (r: Option<T>)
        requires
            old(self).array().wf(),
            old(self).line() < old(self).array().spec_size().x,
        ensures
            final(self).array() == old(self).array(),
            final(self).line() == old(self).line(),
            ({
                let p = old(self).position();
                if p < old(self).array().spec_size().y {
                    &&& r == Some(old(self).array().cell(old(self).line() as int, p as int))
                    &&& final(self).position() == p + 1
                } else {
                    &&& r is None
                    &&& final(self).position() == p
                }
            }),
    {
        let size = self.data.size();
        if self.y < size.y {
            let result = self.data.get(Coordinate::new(self.x, self.y));
            self.y = self.y + 1;
            Some(result)
        } else {
            None
        }
    }
}

/// Walks the columns of the logical area of an [`Array2D`].
pub struct Columns<'a, T, const N: usize> {
    data: &'a Array2D<T, N>,
    y: usize,
}

impl<'a, T: Copy, const N: usize> Columns<'a, T, N> {
    pub closed spec fn array(&self) -> &'a Array2D<T, N> {
        self.data
    }

    /// Number of columns yielded so far.
    pub closed spec fn position(&self) -> nat {
        self.y as nat
    }

    /// The next column, or `None` after the last.
    pub fn next(&mut self) -> (r: Option<Column<'a, T, N>>)
        requires
            old(self).array().wf(),
        ensures
            final(self).array() == old(self).array(),
            ({
                let p = old(self).position();
                if p < old(self).array().spec_size().y {
                    &&& r matches Some(col) && col.array() == old(self).array() && col.line() == p
                        && col.position() == 0
                    &&& final(self).position() == p + 1
                } else {
                    &&& r is None
                    &&& final(self).position() == p
                }
            }),
    {
        let size = self.data.size();
        if self.y < size.y {
            let result = Column { data: self.data, x: 0, y: self.y };
            self.y = self.y + 1;
            Some(result)
        } else {
            None
        }
    }
}

/// Walks the cells of one column of an [`Array2D`], top to bottom.
pub struct Column<'a, T, const N: usize> {
    data: &'a Array2D<T, N>,
    x: usize,
    y: usize,
}

impl<'a, T: Copy, const N: usize> Column<'a, T, N> {
    pub closed spec fn array(&self) -> &'a Array2D<T, N> {
        self.data
    }

    /// The column walked.
    pub closed spec fn line(&self) -> nat {
        self.y as nat
    }

    /// Number of cells yielded so far.
    pub closed spec fn position(&self) -> nat {
        self.x as nat
    }

    /// The next cell of the column, or `None` after the last.
    pub fn next(&mut self) -> (r: Option<T>)
        requires
            old(self).array().wf(),
            old(self).line() < old(self).array().spec_size().y,
        ensures
            final(self).array() == old(self).array(),
            final(self).line() == old(self).line(),
            ({
                let p = old(self).position();
                if p < old(self).array().spec_size().x {
                    &&& r == Some(old(self).array().cell(p as int, old(self).line() as int))
                    &&& final(self).position() == p + 1
                } else {
                    &&& r is None
                    &&& final(self).position() == p
                }
            }),
    {
        let size = self.data.size();
        if self.x < size.x {
            let result = self.data.get(Coordinate::new(self.x, self.y));
            self.x = self.x + 1;
            Some(result)
        } else {
            None
        }
    }
}

} // verus!
