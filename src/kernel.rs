use vstd::prelude::*;

verus! {

/// All kernel weights are multiples of this denominator's inverse.
pub const KERNEL_DENOMINATOR: i64 = 16;

/// Side length of the square kernel.
pub const KERNEL_SIZE: usize = 3;

/// Numerator (over sixteen) of the binomial weight at the zero-based kernel
/// index `(i, j)`: `1 2 1 / 2 4 2 / 1 2 1`.
pub open spec fn weight_at(i: int, j: int) -> int {
    if i == 1 && j == 1 {
        4
    } else if i == 1 || j == 1 {
        2
    } else {
        1
    }
}

/// Numerator of the weight at the centred offset `(kx, ky)` in `{-1, 0, 1}²`.
pub open spec fn offset_weight(kx: int, ky: int) -> int {
    weight_at(kx + 1, ky + 1)
}

/// The fixed 3×3 binomial low-pass kernel, its weights kept as numerators over
/// [`KERNEL_DENOMINATOR`].
#[derive(Copy, Clone)]
pub struct LinearInterpolation {
    values: [[i64; 3]; 3],
}

impl LinearInterpolation {
    /// Holds for every kernel: its table is the binomial one.
    pub closed spec fn wf(&self) -> bool {
        forall|i: int, j: int|
            0 <= i < 3 && 0 <= j < 3 ==> #[trigger] self.values@[i]@[j] == weight_at(i, j)
    }

    /// Weight numerator at the zero-based index `[x, y]`; an index outside the
    /// table is a caller error and is excluded.
    pub fn index(&self, idx: [usize; 2]) -> (r: i64)
        requires
            self.wf(),
            idx@[0] < 3,
            idx@[1] < 3,
        ensures
            r == weight_at(idx@[0] as int, idx@[1] as int),
    {
        let x = idx[0];
        let y = idx[1];
        let row: [i64; 3] = self.values[x];
        row[y]
    }

    pub fn size(&self) -> (r: usize)
        ensures
            r == KERNEL_SIZE,
    {
        KERNEL_SIZE
    }

    pub fn middle_index(&self) -> (r: usize)
        ensures
            r == 1,
    {
        self.size() / 2
    }
}

impl Default for LinearInterpolation {
    fn default() -> (r: Self)
        ensures
            r.wf(),
    {
        let r = LinearInterpolation { values: [[1, 2, 1], [2, 4, 2], [1, 2, 1]] };
        assert(r.wf()) by {
            assert forall|i: int, j: int| 0 <= i < 3 && 0 <= j < 3 implies #[trigger] r.values@[i]@[j]
                == weight_at(i, j) by {
                assert(r.values@[0]@ == seq![1i64, 2, 1]);
                assert(r.values@[1]@ == seq![2i64, 4, 2]);
                assert(r.values@[2]@ == seq![1i64, 2, 1]);
            }
        }
        r
    }
}

} // verus!
