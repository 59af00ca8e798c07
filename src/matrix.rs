use vstd::prelude::*;

verus! {

/// A dense `height × width` grid of fixed-point intensities, stored by rows.
pub struct Matrix {
    pub width: usize,
    pub height: usize,
    pub rows: Vec<Vec<i64>>,
}

/// An intensity grid as a function of `(x, y)`; only `[0, width) × [0, height)`
/// is meaningful.
pub type Grid = spec_fn(int, int) -> int;

/// `f` and `g` agree on every cell of a `w × h` grid.
pub open spec fn same_on(f: Grid, g: Grid, w: int, h: int) -> bool {
    forall|x: int, y: int| 0 <= x < w && 0 <= y < h ==> #[trigger] f(x, y) == g(x, y)
}

/// Every cell of a `w × h` grid lies in `[-bound, bound]`.
pub open spec fn bounded_by(f: Grid, w: int, h: int, bound: int) -> bool {
    forall|x: int, y: int| 0 <= x < w && 0 <= y < h ==> -bound <= #[trigger] f(x, y) <= bound
}

impl Matrix {
    /// Exactly `height` rows of exactly `width` cells each.
    pub open spec fn wf(&self) -> bool {
        &&& self.rows@.len() == self.height
        &&& forall|y: int| 0 <= y < self.height ==> #[trigger] self.rows@[y]@.len() == self.width
    }

    /// The value at column `x`, row `y`.
    pub open spec fn cell(&self, x: int, y: int) -> int {
        self.rows@[y]@[x] as int
    }

    /// The matrix as a grid.
    pub open spec fn grid(&self) -> Grid {
        |x: int, y: int| self.rows@[y]@[x] as int
    }

    /// Builds a matrix from its rows; `None` when a row's length differs from
    /// the first row's. No rows give a `0 × 0` matrix.
    pub fn from_rows(rows: Vec<Vec<i64>>) -> (r: Option<Matrix>)
        ensures
            match r {
                Some(m) => m.wf() && m.rows@ == rows@ && m.height == rows@.len() && (rows@.len()
                    > 0 ==> m.width == rows@[0]@.len()),
                None => rows@.len() > 0 && exists|y: int|
                    0 <= y < rows@.len() && #[trigger] rows@[y]@.len() != rows@[0]@.len(),
            },
    {
        if rows.len() == 0 {
            return Some(Matrix { width: 0, height: 0, rows });
        }
        let width = rows[0].len();
        let mut y: usize = 0;
        while y < rows.len()
            invariant
                y <= rows@.len(),
                rows@.len() > 0,
                width == rows@[0]@.len(),
                forall|j: int| 0 <= j < y ==> #[trigger] rows@[j]@.len() == width,
            decreases rows@.len() - y,
        {
            if rows[y].len() != width {
                return None;
            }
            y = y + 1;
        }
        let height = rows.len();
        Some(Matrix { width, height, rows })
    }

    /// The value at column `x`, row `y`.
    pub fn get(&self, x: usize, y: usize) -> (r: i64)
        requires
            self.wf(),
            x < self.width,
            y < self.height,
        ensures
            r == self.cell(x as int, y as int),
    {
        self.rows[y][x]
    }

    /// Whether the rows form a `height × width` grid.
    pub fn is_well_formed(&self) -> (r: bool)
        ensures
            r == self.wf(),
    {
        if self.rows.len() != self.height {
            return false;
        }
        let mut y: usize = 0;
        while y < self.height
            invariant
                y <= self.height,
                self.rows@.len() == self.height,
                forall|j: int| 0 <= j < y ==> #[trigger] self.rows@[j]@.len() == self.width,
            decreases self.height - y,
        {
            if self.rows[y].len() != self.width {
                return false;
            }
            y = y + 1;
        }
        true
    }

    /// Whether every cell lies in `[-bound, bound]`.
    pub fn is_bounded_by(&self, bound: i64) -> (r: bool)
        requires
            self.wf(),
            bound >= 0,
        ensures
            r == bounded_by(self.grid(), self.width as int, self.height as int, bound as int),
    {
        let mut y: usize = 0;
        while y < self.height
            invariant
                self.wf(),
                bound >= 0,
                y <= self.height,
                forall|i: int, j: int|
                    0 <= i < self.width && 0 <= j < y ==> -bound <= #[trigger] self.grid()(i, j)
                        <= bound,
            decreases self.height - y,
        {
            let mut x: usize = 0;
            while x < self.width
                invariant
                    self.wf(),
                    bound >= 0,
                    y < self.height,
                    x <= self.width,
                    forall|i: int, j: int|
                        0 <= i < self.width && 0 <= j < y ==> -bound <= #[trigger] self.grid()(i, j)
                            <= bound,
                    forall|i: int| 0 <= i < x ==> -bound <= #[trigger] self.grid()(i, y as int) <= bound,
                decreases self.width - x,
            {
                let v = self.rows[y][x];
                if v < -bound || v > bound {
                    assert(self.grid()(x as int, y as int) == v);
                    return false;
                }
                x = x + 1;
            }
            y = y + 1;
        }
        true
    }

    /// An independent copy with the same dimensions and cells.
    pub fn duplicate(&self) -> (r: Matrix)
        requires
            self.wf(),
        ensures
            r.wf(),
            r.width == self.width,
            r.height == self.height,
            forall|y: int| 0 <= y < self.height ==> #[trigger] r.rows@[y]@ == self.rows@[y]@,
    {
        let mut rows: Vec<Vec<i64>> = Vec::new();
        let mut y: usize = 0;
        while y < self.height
            invariant
                self.wf(),
                y <= self.height,
                rows@.len() == y,
                forall|j: int| 0 <= j < y ==> #[trigger] rows@[j]@ == self.rows@[j]@,
            decreases self.height - y,
        {
            let row: Vec<i64> = self.rows[y].clone();
            assert(row@ =~= self.rows@[y as int]@);
            rows.push(row);
            y = y + 1;
        }
        Matrix { width: self.width, height: self.height, rows }
    }
}

} // verus!
