use vstd::prelude::*;

use crate::matrix::{same_on, Grid};
use crate::wavelet_transform::{approximation, is_layer, layer_grid, Layer};

verus! {

/// Most layers one recomposition accepts; with `i64` cells their sum and its
/// rescaling then fit in `i128`.
pub const MAX_LAYERS: usize = 65536;

/// Brightest output intensity.
pub const OUTPUT_MAX: u16 = 65535;

/// A 16-bit grayscale image, stored by rows.
pub struct GrayImage16 {
    pub width: usize,
    pub height: usize,
    pub rows: Vec<Vec<u16>>,
}

impl GrayImage16 {
    /// Exactly `height` rows of exactly `width` pixels each.
    pub open spec fn wf(&self) -> bool {
        &&& self.rows@.len() == self.height
        &&& forall|y: int| 0 <= y < self.height ==> #[trigger] self.rows@[y]@.len() == self.width
    }

    /// The pixel at column `x`, row `y`.
    pub open spec fn pixel(&self, x: int, y: int) -> int {
        self.rows@[y]@[x] as int
    }

    /// The pixel at column `x`, row `y`.
    pub fn get(&self, x: usize, y: usize) -> (r: u16)
        requires
            self.wf(),
            x < self.width,
            y < self.height,
        ensures
            r == self.pixel(x as int, y as int),
    {
        self.rows[y][x]
    }
}

/// Why a layer sequence cannot be recomposed.
#[derive(Debug, Clone, Copy, PartialEq, Eq, Structural)]
pub enum RecomposeError {
    /// The sequence is empty.
    NoLayers,
    /// The sequence holds more than [`MAX_LAYERS`] layers.
    TooManyLayers,
    /// A layer is not a `height × width` grid.
    DimensionMismatch,
}

/// Sum at `(x, y)` of the first `n` layers.
pub open spec fn layers_sum(layers: Seq<Layer>, n: nat, x: int, y: int) -> int
    decreases n,
{
    if n == 0 {
        0
    } else {
        layers_sum(layers, (n - 1) as nat, x, y) + layers[n - 1].0.cell(x, y)
    }
}

/// The elementwise sum of all layers.
pub open spec fn sum_grid(layers: Seq<Layer>) -> Grid {
    |x: int, y: int| layers_sum(layers, layers.len(), x, y)
}

/// Every layer is a well-formed `h × w` matrix.
pub open spec fn layers_fit(layers: Seq<Layer>, w: int, h: int) -> bool {
    forall|i: int|
        0 <= i < layers.len() ==> {
            &&& (#[trigger] layers[i]).0.wf()
            &&& layers[i].0.width == w
            &&& layers[i].0.height == h
        }
}

/// `v` is the smallest cell of the `w × h` grid `f`.
pub open spec fn is_min_of(f: Grid, w: int, h: int, v: int) -> bool {
    &&& exists|x: int, y: int| 0 <= x < w && 0 <= y < h && #[trigger] f(x, y) == v
    &&& forall|x: int, y: int| 0 <= x < w && 0 <= y < h ==> v <= #[trigger] f(x, y)
}

/// `v` is the largest cell of the `w × h` grid `f`.
pub open spec fn is_max_of(f: Grid, w: int, h: int, v: int) -> bool {
    &&& exists|x: int, y: int| 0 <= x < w && 0 <= y < h && #[trigger] f(x, y) == v
    &&& forall|x: int, y: int| 0 <= x < w && 0 <= y < h ==> #[trigger] f(x, y) <= v
}

/// `v` rescaled from `[lo, hi]` to `[0, 65535]`, rounded down; a constant
/// image (`lo == hi`) maps to `0`.
pub open spec fn normalized(v: int, lo: int, hi: int) -> int {
    if hi == lo {
        0
    } else {
        (v - lo) * OUTPUT_MAX / (hi - lo)
    }
}

/// `img` is the `w × h` grid `f` rescaled so that its smallest cell becomes
/// `0` and its largest `65535`.
pub open spec fn is_rescaled(img: GrayImage16, f: Grid, w: int, h: int) -> bool {
    &&& img.wf()
    &&& img.width == w
    &&& img.height == h
    &&& w > 0 && h > 0 ==> exists|lo: int, hi: int|
        {
            &&& is_min_of(f, w, h, lo)
            &&& is_max_of(f, w, h, hi)
            &&& forall|x: int, y: int|
                0 <= x < w && 0 <= y < h ==> #[trigger] img.pixel(x, y) == normalized(f(x, y), lo, hi)
        }
}

proof fn lemma_layers_sum_bound(layers: Seq<Layer>, n: nat, x: int, y: int)
    requires
        n <= layers.len(),
        forall|i: int| 0 <= i < n ==> i64::MIN <= #[trigger] layers[i].0.cell(x, y) <= i64::MAX,
    ensures
        n * i64::MIN <= layers_sum(layers, n, x, y) <= n * i64::MAX,
    decreases n,
{
    if n > 0 {
        lemma_layers_sum_bound(layers, (n - 1) as nat, x, y);
    }
}

proof fn lemma_normalized_bounds(v: int, lo: int, hi: int)
    requires
        lo <= v <= hi,
    ensures
        0 <= normalized(v, lo, hi) <= OUTPUT_MAX,
{
    if hi != lo {
        let a = (v - lo) * 65535;
        let b = hi - lo;
        assert(0 <= a / b <= 65535) by (nonlinear_arith)
            requires
                a == (v - lo) * 65535,
                b == hi - lo,
                lo <= v <= hi,
                b > 0,
        ;
    }
}

/// Sum at `(x, y)` of every layer.
fn cell_sum(layers: &Vec<Layer>, x: usize, y: usize, width: usize, height: usize) -> (r: i128)
    requires
        layers@.len() <= MAX_LAYERS,
        layers_fit(layers@, width as int, height as int),
        x < width,
        y < height,
    ensures
        r == layers_sum(layers@, layers@.len(), x as int, y as int),
        layers@.len() * i64::MIN <= r <= layers@.len() * i64::MAX,
{
    let mut sum: i128 = 0;
    let mut k: usize = 0;
    while k < layers.len()
        invariant
            k <= layers@.len(),
            layers@.len() <= MAX_LAYERS,
            layers_fit(layers@, width as int, height as int),
            x < width,
            y < height,
            sum == layers_sum(layers@, k as nat, x as int, y as int),
            k * i64::MIN <= sum <= k * i64::MAX,
        decreases layers@.len() - k,
    {
        let v = layers[k].0.rows[y][x];
        sum = sum + v as i128;
        k = k + 1;
    }
    sum
}

/// Whether every layer is a well-formed `height × width` matrix.
fn check_layers(layers: &Vec<Layer>, width: usize, height: usize) -> (r: bool)
    ensures
        r == layers_fit(layers@, width as int, height as int),
{
    let mut k: usize = 0;
    while k < layers.len()
        invariant
            k <= layers@.len(),
            forall|i: int|
                0 <= i < k ==> {
                    &&& (#[trigger] layers@[i]).0.wf()
                    &&& layers@[i].0.width == width
                    &&& layers@[i].0.height == height
                },
        decreases layers@.len() - k,
    {
        let m = &layers[k].0;
        if m.width != width || m.height != height || !m.is_well_formed() {
            return false;
        }
        k = k + 1;
    }
    true
}

/// Bound on every cell sum of at most [`MAX_LAYERS`] `i64` layers.
pub open spec fn sum_limit() -> int {
    MAX_LAYERS * 0x8000_0000_0000_0000
}

/// The elementwise sums of all layers, as a `height × width` grid.
fn sum_layers(layers: &Vec<Layer>, width: usize, height: usize) -> (r: Vec<Vec<i128>>)
    requires
        layers@.len() <= MAX_LAYERS,
        layers_fit(layers@, width as int, height as int),
    ensures
        r@.len() == height,
        forall|y: int| 0 <= y < height ==> #[trigger] r@[y]@.len() == width,
        forall|x: int, y: int|
            0 <= x < width && 0 <= y < height ==> {
                &&& #[trigger] r@[y]@[x] == sum_grid(layers@)(x, y)
                &&& -sum_limit() <= r@[y]@[x] <= sum_limit()
            },
{
    let mut rows: Vec<Vec<i128>> = Vec::new();
    let mut y: usize = 0;
    while y < height
        invariant
            layers@.len() <= MAX_LAYERS,
            layers_fit(layers@, width as int, height as int),
            y <= height,
            rows@.len() == y,
            forall|j: int| 0 <= j < y ==> #[trigger] rows@[j]@.len() == width,
            forall|i: int, j: int|
                0 <= i < width && 0 <= j < y ==> {
                    &&& #[trigger] rows@[j]@[i] == sum_grid(layers@)(i, j)
                    &&& -sum_limit() <= rows@[j]@[i] <= sum_limit()
                },
        decreases height - y,
    {
        let mut row: Vec<i128> = Vec::new();
        let mut x: usize = 0;
        while x < width
            invariant
                layers@.len() <= MAX_LAYERS,
                layers_fit(layers@, width as int, height as int),
                y < height,
                x <= width,
                row@.len() == x,
                forall|i: int|
                    0 <= i < x ==> {
                        &&& #[trigger] row@[i] == sum_grid(layers@)(i, y as int)
                        &&& -sum_limit() <= row@[i] <= sum_limit()
                    },
            decreases width - x,
        {
            let v = cell_sum(layers, x, y, width, height);
            row.push(v);
            x = x + 1;
        }
        rows.push(row);
        y = y + 1;
    }
    rows
}

/// Smallest and largest cell of a non-empty `height × width` grid.
fn extremes(sums: &Vec<Vec<i128>>, width: usize, height: usize) -> (r: (i128, i128))
    requires
        width > 0,
        height > 0,
        sums@.len() == height,
        forall|y: int| 0 <= y < height ==> #[trigger] sums@[y]@.len() == width,
    ensures
        is_min_of(|x: int, y: int| sums@[y]@[x] as int, width as int, height as int, r.0 as int),
        is_max_of(|x: int, y: int| sums@[y]@[x] as int, width as int, height as int, r.1 as int),
{
    let ghost f = |x: int, y: int| sums@[y]@[x] as int;
    let mut lo: i128 = sums[0][0];
    let mut hi: i128 = sums[0][0];
    let ghost mut lo_at: (int, int) = (0, 0);
    let ghost mut hi_at: (int, int) = (0, 0);
    let mut y: usize = 0;
    while y < height
        invariant
            width > 0,
            height > 0,
            sums@.len() == height,
            forall|j: int| 0 <= j < height ==> #[trigger] sums@[j]@.len() == width,
            forall|i: int, j: int| #[trigger] f(i, j) == sums@[j]@[i] as int,
            y <= height,
            0 <= lo_at.0 < width && 0 <= lo_at.1 < height && f(lo_at.0, lo_at.1) == lo,
            0 <= hi_at.0 < width && 0 <= hi_at.1 < height && f(hi_at.0, hi_at.1) == hi,
            forall|i: int, j: int| 0 <= i < width && 0 <= j < y ==> lo <= #[trigger] f(i, j) <= hi,
        decreases height - y,
    {
        let mut x: usize = 0;
        while x < width
            invariant
                width > 0,
                height > 0,
                sums@.len() == height,
                forall|j: int| 0 <= j < height ==> #[trigger] sums@[j]@.len() == width,
                forall|i: int, j: int| #[trigger] f(i, j) == sums@[j]@[i] as int,
                y < height,
                x <= width,
                0 <= lo_at.0 < width && 0 <= lo_at.1 < height && f(lo_at.0, lo_at.1) == lo,
                0 <= hi_at.0 < width && 0 <= hi_at.1 < height && f(hi_at.0, hi_at.1) == hi,
                forall|i: int, j: int| 0 <= i < width && 0 <= j < y ==> lo <= #[trigger] f(i, j) <= hi,
                forall|i: int| 0 <= i < x ==> lo <= #[trigger] f(i, y as int) <= hi,
            decreases width - x,
        {
            let v = sums[y][x];
            if v < lo {
                lo = v;
                proof {
                    lo_at = (x as int, y as int);
                }
            }
            if v > hi {
                hi = v;
                proof {
                    hi_at = (x as int, y as int);
                }
            }
            assert(f(x as int, y as int) == v);
            x = x + 1;
        }
        y = y + 1;
    }
    assert(f(lo_at.0, lo_at.1) == lo);
    assert(f(hi_at.0, hi_at.1) == hi);
    (lo, hi)
}

/// Sums the layers elementwise and rescales the sum to 16 bits: its smallest
/// cell becomes `0` and its largest `65535`; a constant sum gives an all-zero
/// image.
pub fn recompose_into_image(layers: &Vec<Layer>, width: usize, height: usize) -> (r: Result<
    GrayImage16,
    RecomposeError,
>)
    ensures
        layers@.len() == 0 ==> r == Err::<GrayImage16, _>(RecomposeError::NoLayers),
        layers@.len() > MAX_LAYERS ==> r == Err::<GrayImage16, _>(RecomposeError::TooManyLayers),
        1 <= layers@.len() <= MAX_LAYERS && !layers_fit(layers@, width as int, height as int) ==> r
            == Err::<GrayImage16, _>(RecomposeError::DimensionMismatch),
        1 <= layers@.len() <= MAX_LAYERS && layers_fit(layers@, width as int, height as int) ==> r is Ok,
        r is Ok ==> is_rescaled(r->Ok_0, sum_grid(layers@), width as int, height as int),
{
    if layers.len() == 0 {
        return Err(RecomposeError::NoLayers);
    }
    if layers.len() > MAX_LAYERS {
        return Err(RecomposeError::TooManyLayers);
    }
    if !check_layers(layers, width, height) {
        return Err(RecomposeError::DimensionMismatch);
    }
    let ghost f = sum_grid(layers@);
    let sums = sum_layers(layers, width, height);
    let ghost g = |x: int, y: int| sums@[y]@[x] as int;
    let (lo, hi) = if width > 0 && height > 0 {
        extremes(&sums, width, height)
    } else {
        (0, 0)
    };
    proof {
        if width > 0 && height > 0 {
            assert(-sum_limit() <= sums@[0]@[0] <= sum_limit());
            assert forall|x: int, y: int| 0 <= x < width && 0 <= y < height implies #[trigger] f(x, y) == g(x, y) by {
                assert(sums@[y]@[x] == sum_grid(layers@)(x, y));
            }
            let (wx, wy) = choose|x: int, y: int| 0 <= x < width && 0 <= y < height && #[trigger] g(x, y) == lo;
            assert(f(wx, wy) == lo);
            assert(-sum_limit() <= sums@[wy]@[wx] <= sum_limit());
            let (vx, vy) = choose|x: int, y: int| 0 <= x < width && 0 <= y < height && #[trigger] g(x, y) == hi;
            assert(f(vx, vy) == hi);
            assert(-sum_limit() <= sums@[vy]@[vx] <= sum_limit());
            assert(is_min_of(f, width as int, height as int, lo as int));
            assert(is_max_of(f, width as int, height as int, hi as int));
        }
    }
    let mut rows: Vec<Vec<u16>> = Vec::new();
    let mut y: usize = 0;
    while y < height
        invariant
            sums@.len() == height,
            forall|j: int| 0 <= j < height ==> #[trigger] sums@[j]@.len() == width,
            forall|i: int, j: int|
                0 <= i < width && 0 <= j < height ==> {
                    &&& #[trigger] sums@[j]@[i] == f(i, j)
                    &&& -sum_limit() <= sums@[j]@[i] <= sum_limit()
                },
            width > 0 && height > 0 ==> is_min_of(f, width as int, height as int, lo as int),
            width > 0 && height > 0 ==> is_max_of(f, width as int, height as int, hi as int),
            -sum_limit() <= lo <= sum_limit(),
            -sum_limit() <= hi <= sum_limit(),
            y <= height,
            rows@.len() == y,
            forall|j: int| 0 <= j < y ==> #[trigger] rows@[j]@.len() == width,
            forall|i: int, j: int|
                0 <= i < width && 0 <= j < y ==> #[trigger] rows@[j]@[i] == normalized(f(i, j), lo as int, hi as int),
        decreases height - y,
    {
        let mut row: Vec<u16> = Vec::new();
        let mut x: usize = 0;
        while x < width
            invariant
                sums@.len() == height,
                forall|j: int| 0 <= j < height ==> #[trigger] sums@[j]@.len() == width,
                forall|i: int, j: int|
                    0 <= i < width && 0 <= j < height ==> {
                        &&& #[trigger] sums@[j]@[i] == f(i, j)
                        &&& -sum_limit() <= sums@[j]@[i] <= sum_limit()
                    },
                width > 0 && height > 0 ==> is_min_of(f, width as int, height as int, lo as int),
                width > 0 && height > 0 ==> is_max_of(f, width as int, height as int, hi as int),
                -sum_limit() <= lo <= sum_limit(),
                -sum_limit() <= hi <= sum_limit(),
                y < height,
                x <= width,
                row@.len() == x,
                forall|i: int| 0 <= i < x ==> #[trigger] row@[i] == normalized(f(i, y as int), lo as int, hi as int),
            decreases width - x,
        {
            let v = sums[y][x];
            assert(f(x as int, y as int) == v);
            assert(lo <= v <= hi);
            proof {
                lemma_normalized_bounds(v as int, lo as int, hi as int);
            }
            let pixel: u16 = if hi == lo {
                0
            } else {
                let scaled: u128 = ((v - lo) as u128) * (OUTPUT_MAX as u128);
                (scaled / ((hi - lo) as u128)) as u16
            };
            row.push(pixel);
            x = x + 1;
        }
        rows.push(row);
        y = y + 1;
    }
    let img = GrayImage16 { width, height, rows };
    proof {
        if width > 0 && height > 0 {
            assert(forall|x: int, y: int| 0 <= x < width && 0 <= y < height ==> #[trigger] img.pixel(x, y) == normalized(f(x, y), lo as int, hi as int));
        }
    }
    Ok(img)
}

proof fn lemma_partial_reconstruction(
    layers: Seq<Layer>,
    g: Grid,
    w: int,
    h: int,
    levels: nat,
    n: nat,
    x: int,
    y: int,
)
    requires
        n <= levels,
        layers.len() == levels + 1,
        forall|i: int| 0 <= i <= levels ==> is_layer(#[trigger] layers[i], g, w, h, levels, i as nat),
        0 <= x < w,
        0 <= y < h,
    ensures
        layers_sum(layers, n, x, y) == g(x, y) - approximation(g, w, h, n)(x, y),
    decreases n,
{
    if n > 0 {
        let i = (n - 1) as nat;
        lemma_partial_reconstruction(layers, g, w, h, levels, i, x, y);
        assert(is_layer(layers[i as int], g, w, h, levels, i));
        assert(layers[i as int].0.grid()(x, y) == layer_grid(g, w, h, levels, i)(x, y));
    }
}

/// Reconstruction identity: the layers of a decomposition of `g` into
/// `levels` levels add up, cell by cell, to `g` itself.
pub proof fn lemma_decomposition_sums_to_original(
    layers: Seq<Layer>,
    g: Grid,
    w: int,
    h: int,
    levels: nat,
    x: int,
    y: int,
)
    requires
        layers.len() == levels + 1,
        forall|i: int| 0 <= i <= levels ==> is_layer(#[trigger] layers[i], g, w, h, levels, i as nat),
        0 <= x < w,
        0 <= y < h,
    ensures
        sum_grid(layers)(x, y) == g(x, y),
{
    lemma_partial_reconstruction(layers, g, w, h, levels, levels, x, y);
    assert(is_layer(layers[levels as int], g, w, h, levels, levels));
    assert(layers[levels as int].0.grid()(x, y) == layer_grid(g, w, h, levels, levels)(x, y));
}

/// Normalization range: on a non-constant grid the smallest cell maps to `0`,
/// the largest to `65535`, and every cell in between into `[0, 65535]`.
pub proof fn lemma_normalization_range(v: int, lo: int, hi: int)
    requires
        lo < hi,
    ensures
        normalized(lo, lo, hi) == 0,
        normalized(hi, lo, hi) == OUTPUT_MAX,
        lo <= v <= hi ==> 0 <= normalized(v, lo, hi) <= OUTPUT_MAX,
{
    assert((hi - lo) * 65535 / (hi - lo) == 65535) by (nonlinear_arith)
        requires
            hi - lo > 0,
    ;
    if lo <= v <= hi {
        lemma_normalized_bounds(v, lo, hi);
    }
}

/// Degenerate image: when every layer sum is the same value `c`, the rescaled
/// image is black everywhere, with no division by zero.
pub proof fn lemma_constant_sum_is_black(img: GrayImage16, f: Grid, w: int, h: int, c: int)
    requires
        w > 0,
        h > 0,
        forall|x: int, y: int| 0 <= x < w && 0 <= y < h ==> #[trigger] f(x, y) == c,
        is_rescaled(img, f, w, h),
    ensures
        forall|x: int, y: int| 0 <= x < w && 0 <= y < h ==> #[trigger] img.pixel(x, y) == 0,
{
    let (lo, hi) = choose|lo: int, hi: int|
        {
            &&& is_min_of(f, w, h, lo)
            &&& is_max_of(f, w, h, hi)
            &&& forall|x: int, y: int|
                0 <= x < w && 0 <= y < h ==> #[trigger] img.pixel(x, y) == normalized(f(x, y), lo, hi)
        };
    let (ax, ay) = choose|x: int, y: int| 0 <= x < w && 0 <= y < h && #[trigger] f(x, y) == lo;
    let (bx, by) = choose|x: int, y: int| 0 <= x < w && 0 <= y < h && #[trigger] f(x, y) == hi;
    assert(lo == c && hi == c);
}

} // verus!
