use vstd::prelude::*;

use crate::kernel::{offset_weight, LinearInterpolation, KERNEL_DENOMINATOR};
use crate::matrix::{bounded_by, same_on, Grid};
use crate::wavelet_transform::{StationaryWaveletTransform, SAMPLE_LIMIT};

verus! {

/// `v` moved to the nearest coordinate of `[0, n)`.
pub open spec fn clamp(v: int, n: int) -> int {
    if v < 0 {
        0
    } else if v > n - 1 {
        n - 1
    } else {
        v
    }
}

/// Horizontal kernel offset of tap `t` (taps are numbered `0..9` row by row).
pub open spec fn tap_kx(t: int) -> int {
    t / 3 - 1
}

/// Vertical kernel offset of tap `t`.
pub open spec fn tap_ky(t: int) -> int {
    t % 3 - 1
}

/// The value of `g` at `(x + kx·d, y + ky·d)`, each coordinate clamped to the
/// `w × h` grid.
pub open spec fn sample(g: Grid, w: int, h: int, d: int, x: int, y: int, kx: int, ky: int) -> int {
    g(clamp(x + kx * d, w), clamp(y + ky * d, h))
}

/// Weighted sample of tap `t`, its weight a numerator over sixteen.
pub open spec fn tap(g: Grid, w: int, h: int, d: int, x: int, y: int, t: int) -> int {
    offset_weight(tap_kx(t), tap_ky(t)) * sample(g, w, h, d, x, y, tap_kx(t), tap_ky(t))
}

/// Sum of the first `n` weighted taps.
pub open spec fn taps_sum(g: Grid, w: int, h: int, d: int, x: int, y: int, n: nat) -> int
    decreases n,
{
    if n == 0 {
        0
    } else {
        taps_sum(g, w, h, d, x, y, (n - 1) as nat) + tap(g, w, h, d, x, y, n - 1)
    }
}

/// Sum of the first `n` kernel weight numerators.
pub open spec fn weights_sum(n: nat) -> int
    decreases n,
{
    if n == 0 {
        0
    } else {
        weights_sum((n - 1) as nat) + offset_weight(tap_kx(n - 1), tap_ky(n - 1))
    }
}

/// The low-pass sample at `(x, y)`: the kernel applied with taps `d` pixels
/// apart, rounded down to a whole fixed-point unit.
pub open spec fn convolved(g: Grid, w: int, h: int, d: int, x: int, y: int) -> int {
    taps_sum(g, w, h, d, x, y, 9) / 16
}

proof fn lemma_weighted_bound(wt: int, s: int, bound: int)
    requires
        0 <= wt <= 4,
        -bound <= s <= bound,
    ensures
        -(wt * bound) <= wt * s <= wt * bound,
{
    assert(-(wt * bound) <= wt * s <= wt * bound) by (nonlinear_arith)
        requires
            0 <= wt <= 4,
            -bound <= s <= bound,
    ;
}

proof fn lemma_weights_bound(t: nat)
    requires
        t <= 9,
    ensures
        0 <= weights_sum(t) <= 16,
        weights_sum(9) == 16,
{
    reveal_with_fuel(weights_sum, 10);
    assert(t == 0 || t == 1 || t == 2 || t == 3 || t == 4 || t == 5 || t == 6 || t == 7 || t == 8
        || t == 9);
}

/// Clamped coordinates always fall inside the grid.
pub proof fn lemma_clamp_in_range(v: int, n: int)
    requires
        n >= 1,
    ensures
        0 <= clamp(v, n) < n,
        0 <= v < n ==> clamp(v, n) == v,
{
}

/// Boundary clamping: the clamped coordinate is the in-range coordinate
/// nearest to `v`, so a sample requested outside the grid takes the value of
/// the nearest edge cell.
pub proof fn lemma_clamp_is_nearest(v: int, n: int, c: int)
    requires
        n >= 1,
        0 <= c < n,
    ensures
        0 <= clamp(v, n) < n,
        (if v >= clamp(v, n) { v - clamp(v, n) } else { clamp(v, n) - v }) <= (if v >= c { v - c } else { c - v }),
{
}

/// Two grids that agree on every cell give the same low-pass sample: the taps
/// only read clamped, in-range cells.
pub proof fn lemma_convolved_same_on(f: Grid, g: Grid, w: int, h: int, d: int, x: int, y: int)
    requires
        w >= 1,
        h >= 1,
        same_on(f, g, w, h),
    ensures
        convolved(f, w, h, d, x, y) == convolved(g, w, h, d, x, y),
{
    lemma_taps_same_on(f, g, w, h, d, x, y, 9);
}

proof fn lemma_taps_same_on(f: Grid, g: Grid, w: int, h: int, d: int, x: int, y: int, n: nat)
    requires
        w >= 1,
        h >= 1,
        same_on(f, g, w, h),
    ensures
        taps_sum(f, w, h, d, x, y, n) == taps_sum(g, w, h, d, x, y, n),
    decreases n,
{
    if n > 0 {
        lemma_taps_same_on(f, g, w, h, d, x, y, (n - 1) as nat);
        let t = n - 1;
        let cx = clamp(x + tap_kx(t) * d, w);
        let cy = clamp(y + tap_ky(t) * d, h);
        lemma_clamp_in_range(x + tap_kx(t) * d, w);
        lemma_clamp_in_range(y + tap_ky(t) * d, h);
        assert(f(cx, cy) == g(cx, cy));
    }
}

impl StationaryWaveletTransform {
    /// Row and column, in that order, of the sample `kernel_index = [kx, ky]`
    /// taps away from the pixel `target_pixel_index = [x, y]`, each clamped to
    /// the image.
    pub fn compute_pixel_index(
        &self,
        distance: u64,
        kernel_index: [isize; 2],
        target_pixel_index: [usize; 2],
    ) -> (r: [usize; 2])
        requires
            self.image_width >= 1,
            self.image_height >= 1,
            -1 <= kernel_index@[0] <= 1,
            -1 <= kernel_index@[1] <= 1,
        ensures
            r@[0] == clamp(
                target_pixel_index@[1] + kernel_index@[1] * distance,
                self.image_height as int,
            ),
            r@[1] == clamp(
                target_pixel_index@[0] + kernel_index@[0] * distance,
                self.image_width as int,
            ),
    {
        let kernel_x = kernel_index[0];
        let kernel_y = kernel_index[1];
        let pixel_x = target_pixel_index[0];
        let pixel_y = target_pixel_index[1];
        assert(-(distance as int) <= kernel_x * distance <= distance) by (nonlinear_arith)
            requires
                -1 <= kernel_x <= 1,
                distance >= 0,
        ;
        assert(-(distance as int) <= kernel_y * distance <= distance) by (nonlinear_arith)
            requires
                -1 <= kernel_y <= 1,
                distance >= 0,
        ;
        let x_dist: i128 = kernel_x as i128 * distance as i128;
        let y_dist: i128 = kernel_y as i128 * distance as i128;
        let mut x: i128 = pixel_x as i128 + x_dist;
        let mut y: i128 = pixel_y as i128 + y_dist;
        let last_x: i128 = self.image_width as i128 - 1;
        let last_y: i128 = self.image_height as i128 - 1;
        if x < 0 {
            x = 0;
        } else if x > last_x {
            x = last_x;
        }
        if y < 0 {
            y = 0;
        } else if y > last_y {
            y = last_y;
        }
        [y as usize, x as usize]
    }

    /// The low-pass sample at `index = [x, y]` of the current approximation,
    /// taps `distance` pixels apart.
    pub fn compute_convoluted_pixel(&self, distance: u64, index: [usize; 2]) -> (r: i64)
        requires
            self.input.wf(),
            self.input.width == self.image_width,
            self.input.height == self.image_height,
            index@[0] < self.image_width,
            index@[1] < self.image_height,
            bounded_by(
                self.input.grid(),
                self.image_width as int,
                self.image_height as int,
                SAMPLE_LIMIT as int,
            ),
        ensures
            r == convolved(
                self.input.grid(),
                self.image_width as int,
                self.image_height as int,
                distance as int,
                index@[0] as int,
                index@[1] as int,
            ),
            -SAMPLE_LIMIT <= r <= SAMPLE_LIMIT,
    {
        let ghost g = self.input.grid();
        let ghost w = self.image_width as int;
        let ghost h = self.image_height as int;
        let ghost x = index@[0] as int;
        let ghost y = index@[1] as int;
        let kernel = LinearInterpolation::default();
        let middle = kernel.middle_index();
        let mut pixels_sum: i64 = 0;
        let mut t: usize = 0;
        while t < 9
            invariant
                t <= 9,
                kernel.wf(),
                middle == 1,
                self.input.wf(),
                self.input.width == self.image_width,
                self.input.height == self.image_height,
                g == self.input.grid(),
                w == self.image_width,
                h == self.image_height,
                w >= 1,
                h >= 1,
                x == index@[0],
                y == index@[1],
                bounded_by(g, w, h, SAMPLE_LIMIT as int),
                pixels_sum == taps_sum(g, w, h, distance as int, x, y, t as nat),
                -(weights_sum(t as nat) * SAMPLE_LIMIT) <= pixels_sum <= weights_sum(t as nat)
                    * SAMPLE_LIMIT,
            decreases 9 - t,
        {
            let kernel_x: isize = (t / 3) as isize - 1;
            let kernel_y: isize = (t % 3) as isize - 1;
            let pixel_index = self.compute_pixel_index(distance, [kernel_x, kernel_y], index);
            let normalized_x: usize = (kernel_x + middle as isize) as usize;
            let normalized_y: usize = (kernel_y + middle as isize) as usize;
            let kernel_value = kernel.index([normalized_x, normalized_y]);
            let row = pixel_index[0];
            let col = pixel_index[1];
            proof {
                lemma_clamp_in_range(x + kernel_x * distance, w);
                lemma_clamp_in_range(y + kernel_y * distance, h);
            }
            let value = self.input.rows[row][col];
            proof {
                assert(value == g(col as int, row as int));
                lemma_weights_bound(t as nat);
                lemma_weights_bound((t + 1) as nat);
                lemma_weighted_bound(kernel_value as int, value as int, SAMPLE_LIMIT as int);
                assert(tap(g, w, h, distance as int, x, y, t as int) == kernel_value * value);
            }
            pixels_sum = pixels_sum + kernel_value * value;
            t = t + 1;
        }
        proof {
            lemma_weights_bound(9);
        }
        // Floor division by a positive constant never overflows.
        match pixels_sum.checked_div_euclid(KERNEL_DENOMINATOR) {
            Some(q) => q,
            None => 0,
        }
    }
}

} // verus!
