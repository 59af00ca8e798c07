use vstd::prelude::*;
use vstd::arithmetic::power2::{lemma2_to64_rest, lemma_pow2_strictly_increases, lemma_pow2_unfold, pow2};

use crate::convolution::{convolved, lemma_convolved_same_on};
use crate::matrix::{bounded_by, same_on, Grid, Matrix};

verus! {

/// Largest magnitude accepted for an input sample. Low-pass samples stay within
/// it, detail samples within twice it, and a sixteen-fold weighted sum fits
/// in `i64`.
pub const SAMPLE_LIMIT: i64 = 0x0400_0000_0000_0000;

/// Deepest decomposition: the last dilation distance, `2^(levels - 1)`, must fit
/// in `u64`.
pub const MAX_LEVELS: usize = 64;

/// One emitted layer: a detail layer with its scale `1..=levels`, or the final
/// approximation with no scale.
pub type Layer = (Matrix, Option<usize>);

/// Why a decomposition cannot start.
#[derive(Debug, Clone, Copy, PartialEq, Eq, Structural)]
pub enum TransformError {
    /// `levels` is zero or larger than [`MAX_LEVELS`].
    InvalidLevelCount,
    /// The input is not a rectangular grid.
    DimensionMismatch,
    /// An input sample's magnitude exceeds [`SAMPLE_LIMIT`].
    SampleOutOfRange,
}

/// Dilation distance of decomposition step `k` (0-indexed).
pub open spec fn dilation(k: nat) -> int {
    pow2(k) as int
}

/// The low-pass approximation after `k` smoothing steps of `g`, step `i`
/// spacing its taps `2^i` apart.
pub open spec fn approximation(g: Grid, w: int, h: int, k: nat) -> Grid
    decreases k,
{
    if k == 0 {
        g
    } else {
        let prev = approximation(g, w, h, (k - 1) as nat);
        |x: int, y: int| convolved(prev, w, h, dilation((k - 1) as nat), x, y)
    }
}

/// Layer `i` of the decomposition of `g` into `levels` detail layers and the
/// final approximation: `approximation(i) − approximation(i + 1)` for
/// `i < levels`, the final approximation itself for `i == levels`.
pub open spec fn layer_grid(g: Grid, w: int, h: int, levels: nat, i: nat) -> Grid {
    if i < levels {
        |x: int, y: int|
            approximation(g, w, h, i)(x, y) - approximation(g, w, h, (i + 1) as nat)(x, y)
    } else {
        approximation(g, w, h, levels)
    }
}

/// Scale tag of layer `i`.
pub open spec fn layer_scale(levels: nat, i: nat) -> Option<usize> {
    if i < levels {
        Some((i + 1) as usize)
    } else {
        None
    }
}

/// `layer` is layer `i` of the decomposition of `g` into `levels` levels.
pub open spec fn is_layer(layer: Layer, g: Grid, w: int, h: int, levels: nat, i: nat) -> bool {
    &&& layer.0.wf()
    &&& layer.0.width == w
    &&& layer.0.height == h
    &&& same_on(layer.0.grid(), layer_grid(g, w, h, levels, i), w, h)
    &&& layer.1 == layer_scale(levels, i)
}

/// Dilation growth: the first step spaces its taps one pixel apart, and each
/// further step doubles the spacing.
pub proof fn lemma_dilation_doubles(k: nat)
    ensures
        dilation(0) == 1,
        dilation(k + 1) == 2 * dilation(k),
{
    vstd::arithmetic::power2::lemma2_to64();
    lemma_pow2_unfold(k + 1);
}

/// `2^level`.
fn dilation_distance(level: usize) -> (d: u64)
    requires
        level < 64,
    ensures
        d == dilation(level as nat),
{
    let mut d: u64 = 1;
    let mut i: usize = 0;
    proof {
        lemma2_to64_rest();
        assert(pow2(0) == 1) by {
            vstd::arithmetic::power2::lemma2_to64();
        }
    }
    while i < level
        invariant
            i <= level,
            level < 64,
            d == pow2(i as nat),
        decreases level - i,
    {
        proof {
            lemma_pow2_unfold((i + 1) as nat);
            if i + 1 < 63 {
                lemma_pow2_strictly_increases((i + 1) as nat, 63);
            }
            lemma2_to64_rest();
        }
        d = d * 2;
        i = i + 1;
    }
    d
}

/// The multi-level stationary wavelet decomposition of one intensity matrix,
/// produced one layer per [`StationaryWaveletTransform::next`] call.
pub struct StationaryWaveletTransform {
    /// The running low-pass approximation.
    pub input: Matrix,
    pub levels: usize,
    pub current_level: usize,
    pub image_width: usize,
    pub image_height: usize,
    /// The matrix the decomposition started from.
    pub original: Ghost<Grid>,
}

impl StationaryWaveletTransform {
    pub open spec fn wf(&self) -> bool {
        &&& self.input.wf()
        &&& self.input.width == self.image_width
        &&& self.input.height == self.image_height
        &&& 1 <= self.levels <= MAX_LEVELS
        &&& self.current_level <= self.levels + 1
        &&& bounded_by(
            self.input.grid(),
            self.image_width as int,
            self.image_height as int,
            SAMPLE_LIMIT as int,
        )
        &&& self.current_level <= self.levels ==> same_on(
            self.input.grid(),
            approximation(
                self.original@,
                self.image_width as int,
                self.image_height as int,
                self.current_level as nat,
            ),
            self.image_width as int,
            self.image_height as int,
        )
    }

    /// Layer `i` of this decomposition.
    pub open spec fn is_layer_of(&self, layer: Layer, i: nat) -> bool {
        is_layer(
            layer,
            self.original@,
            self.image_width as int,
            self.image_height as int,
            self.levels as nat,
            i,
        )
    }

    /// Starts the decomposition of `input` into `levels` detail layers and a
    /// final approximation.
    pub fn new(input: Matrix, levels: usize) -> (r: Result<Self, TransformError>)
        ensures
            levels == 0 || levels > MAX_LEVELS ==> r == Err::<Self, _>(
                TransformError::InvalidLevelCount,
            ),
            1 <= levels <= MAX_LEVELS && !input.wf() ==> r == Err::<Self, _>(
                TransformError::DimensionMismatch,
            ),
            1 <= levels <= MAX_LEVELS && input.wf() && !bounded_by(
                input.grid(),
                input.width as int,
                input.height as int,
                SAMPLE_LIMIT as int,
            ) ==> r == Err::<Self, _>(TransformError::SampleOutOfRange),
            1 <= levels <= MAX_LEVELS && input.wf() && bounded_by(
                input.grid(),
                input.width as int,
                input.height as int,
                SAMPLE_LIMIT as int,
            ) ==> r is Ok,
            r is Ok ==> {
                let t = r->Ok_0;
                &&& t.wf()
                &&& t.levels == levels
                &&& t.current_level == 0
                &&& t.image_width == input.width
                &&& t.image_height == input.height
                &&& t.original@ == input.grid()
            },
    {
        if levels == 0 || levels > MAX_LEVELS {
            return Err(TransformError::InvalidLevelCount);
        }
        if !input.is_well_formed() {
            return Err(TransformError::DimensionMismatch);
        }
        if !input.is_bounded_by(SAMPLE_LIMIT) {
            return Err(TransformError::SampleOutOfRange);
        }
        let image_width = input.width;
        let image_height = input.height;
        let ghost g = input.grid();
        let t = StationaryWaveletTransform {
            input,
            levels,
            current_level: 0,
            image_width,
            image_height,
            original: Ghost(g),
        };
        assert(same_on(t.input.grid(), approximation(g, image_width as int, image_height as int, 0), image_width as int, image_height as int));
        Ok(t)
    }

    /// One smoothing step at `distance`: the next approximation and the detail
    /// layer `current − next`.
    fn smooth_step(&self, distance: u64) -> (r: (Matrix, Matrix))
        requires
            self.wf(),
        ensures
            r.0.wf(),
            r.1.wf(),
            r.0.width == self.image_width,
            r.0.height == self.image_height,
            r.1.width == self.image_width,
            r.1.height == self.image_height,
            bounded_by(r.0.grid(), self.image_width as int, self.image_height as int, SAMPLE_LIMIT as int),
            forall|x: int, y: int|
                0 <= x < self.image_width && 0 <= y < self.image_height ==> {
                    &&& #[trigger] r.0.cell(x, y) == convolved(
                        self.input.grid(),
                        self.image_width as int,
                        self.image_height as int,
                        distance as int,
                        x,
                        y,
                    )
                    &&& r.1.cell(x, y) == self.input.cell(x, y) - r.0.cell(x, y)
                },
    {
        let width = self.image_width;
        let height = self.image_height;
        let ghost g = self.input.grid();
        let mut next_rows: Vec<Vec<i64>> = Vec::new();
        let mut detail_rows: Vec<Vec<i64>> = Vec::new();
        let mut y: usize = 0;
        while y < height
            invariant
                self.wf(),
                width == self.image_width,
                height == self.image_height,
                g == self.input.grid(),
                y <= height,
                next_rows@.len() == y,
                detail_rows@.len() == y,
                forall|j: int| 0 <= j < y ==> #[trigger] next_rows@[j]@.len() == width,
                forall|j: int| 0 <= j < y ==> #[trigger] detail_rows@[j]@.len() == width,
                forall|i: int, j: int|
                    0 <= i < width && 0 <= j < y ==> {
                        &&& #[trigger] next_rows@[j]@[i] == convolved(g, width as int, height as int, distance as int, i, j)
                        &&& -SAMPLE_LIMIT <= next_rows@[j]@[i] <= SAMPLE_LIMIT
                        &&& detail_rows@[j]@[i] == self.input.cell(i, j) - next_rows@[j]@[i]
                    },
            decreases height - y,
        {
            let mut next_row: Vec<i64> = Vec::new();
            let mut detail_row: Vec<i64> = Vec::new();
            let mut x: usize = 0;
            while x < width
                invariant
                    self.wf(),
                    width == self.image_width,
                    height == self.image_height,
                    g == self.input.grid(),
                    y < height,
                    x <= width,
                    next_row@.len() == x,
                    detail_row@.len() == x,
                    forall|i: int|
                        0 <= i < x ==> {
                            &&& #[trigger] next_row@[i] == convolved(g, width as int, height as int, distance as int, i, y as int)
                            &&& -SAMPLE_LIMIT <= next_row@[i] <= SAMPLE_LIMIT
                            &&& detail_row@[i] == self.input.cell(i, y as int) - next_row@[i]
                        },
                decreases width - x,
            {
                let v = self.compute_convoluted_pixel(distance, [x, y]);
                let current = self.input.rows[y][x];
                assert(current == g(x as int, y as int));
                next_row.push(v);
                detail_row.push(current - v);
                x = x + 1;
            }
            next_rows.push(next_row);
            detail_rows.push(detail_row);
            y = y + 1;
        }
        let next = Matrix { width, height, rows: next_rows };
        let detail = Matrix { width, height, rows: detail_rows };
        (next, detail)
    }

    /// Emits the next layer: while `current_level < levels`, the detail layer
    /// of scale `current_level + 1`, smoothing with taps `2^current_level`
    /// apart; at `current_level == levels`, the final approximation with no
    /// scale; afterwards nothing.
    pub fn next(&mut self) -> (r: Option<Layer>)
        requires
            old(self).wf(),
        ensures
            final(self).wf(),
            final(self).levels == old(self).levels,
            final(self).image_width == old(self).image_width,
            final(self).image_height == old(self).image_height,
            final(self).original == old(self).original,
            old(self).current_level > old(self).levels ==> r is None && final(self).current_level
                == old(self).current_level,
            old(self).current_level <= old(self).levels ==> r is Some && final(self).current_level
                == old(self).current_level + 1 && old(self).is_layer_of(
                r->Some_0,
                old(self).current_level as nat,
            ),
    {
        if self.current_level > self.levels {
            return None;
        }
        let ghost g = self.original@;
        let ghost w = self.image_width as int;
        let ghost h = self.image_height as int;
        let ghost level = self.current_level as nat;
        if self.current_level == self.levels {
            let last = self.input.duplicate();
            self.current_level = self.current_level + 1;
            assert(same_on(last.grid(), layer_grid(g, w, h, self.levels as nat, level), w, h)) by {
                assert forall|x: int, y: int| 0 <= x < w && 0 <= y < h implies #[trigger] last.grid()(x, y)
                    == layer_grid(g, w, h, self.levels as nat, level)(x, y) by {
                    assert(last.rows@[y]@ == self.input.rows@[y]@);
                    assert(self.input.grid()(x, y) == approximation(g, w, h, level)(x, y));
                }
            }
            return Some((last, None));
        }
        let distance = dilation_distance(self.current_level);
        let (next, detail) = self.smooth_step(distance);
        proof {
            assert forall|x: int, y: int| 0 <= x < w && 0 <= y < h implies #[trigger] next.grid()(x, y)
                == approximation(g, w, h, level + 1)(x, y) by {
                assert(next.cell(x, y) == convolved(self.input.grid(), w, h, distance as int, x, y));
                lemma_convolved_same_on(self.input.grid(), approximation(g, w, h, level), w, h, distance as int, x, y);
            }
            assert forall|x: int, y: int| 0 <= x < w && 0 <= y < h implies #[trigger] detail.grid()(x, y)
                == layer_grid(g, w, h, self.levels as nat, level)(x, y) by {
                assert(next.grid()(x, y) == approximation(g, w, h, level + 1)(x, y));
                assert(self.input.grid()(x, y) == approximation(g, w, h, level)(x, y));
                assert(detail.cell(x, y) == self.input.cell(x, y) - next.cell(x, y));
            }
        }
        self.input = next;
        self.current_level = self.current_level + 1;
        Some((detail, Some(self.current_level)))
    }

    /// Runs the decomposition to its end and returns every remaining layer in
    /// order: from a fresh engine, `levels` detail layers of scales
    /// `1..=levels`, then the final approximation.
    pub fn decompose(self) -> (r: Vec<Layer>)
        requires
            self.wf(),
        ensures
            r@.len() == self.levels + 1 - self.current_level,
            forall|i: int| 0 <= i < r@.len() ==> self.is_layer_of(#[trigger] r@[i], (self.current_level + i) as nat),
    {
        let ghost start = self;
        let mut engine = self;
        let mut layers: Vec<Layer> = Vec::new();
        while engine.current_level <= engine.levels
            invariant
                engine.wf(),
                engine.levels == start.levels,
                engine.image_width == start.image_width,
                engine.image_height == start.image_height,
                engine.original == start.original,
                start.current_level <= engine.current_level,
                layers@.len() == engine.current_level - start.current_level,
                forall|i: int| 0 <= i < layers@.len() ==> start.is_layer_of(#[trigger] layers@[i], (start.current_level + i) as nat),
            decreases start.levels + 1 - engine.current_level,
        {
            match engine.next() {
                Some(layer) => layers.push(layer),
                None => {},
            }
        }
        layers
    }
}

} // verus!
