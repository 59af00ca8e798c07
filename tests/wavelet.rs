use stationary_wavelet::kernel::LinearInterpolation;
use stationary_wavelet::matrix::Matrix;
use stationary_wavelet::recompose::{recompose_into_image, RecomposeError, MAX_LAYERS};
use stationary_wavelet::wavelet_transform::{
    Layer, StationaryWaveletTransform, TransformError, SAMPLE_LIMIT,
};

/// Fixed-point scale used by these tests: `1.0` is `65536`.
const ONE: i64 = 65536;

fn matrix_from_fn(width: usize, height: usize, f: impl Fn(usize, usize) -> i64) -> Matrix {
    let rows: Vec<Vec<i64>> = (0..height)
        .map(|y| (0..width).map(|x| f(x, y)).collect())
        .collect();
    Matrix::from_rows(rows).unwrap()
}

fn half_gradient() -> Matrix {
    matrix_from_fn(10, 10, |x, y| (x + y) as i64 * ONE / 2)
}

fn all_layers(input: Matrix, levels: usize) -> Vec<Layer> {
    StationaryWaveletTransform::new(input, levels)
        .unwrap()
        .decompose()
}

fn sum_of_layers(layers: &[Layer], x: usize, y: usize) -> i64 {
    layers.iter().map(|l| l.0.get(x, y)).sum()
}

/// One smoothing pass of `m` with taps `distance` apart.
fn smooth(m: Matrix, distance: u64) -> Matrix {
    let (w, h) = (m.width, m.height);
    let engine = StationaryWaveletTransform::new(m, 1).unwrap();
    matrix_from_fn(w, h, |x, y| engine.compute_convoluted_pixel(distance, [x, y]))
}

#[test]
fn test_new_stationary_wavelet_transform() {
    let image = half_gradient();
    let levels = 3;
    let swt = StationaryWaveletTransform::new(image, levels).unwrap();
    assert_eq!(swt.image_width, 10);
    assert_eq!(swt.image_height, 10);
    assert_eq!(swt.levels, levels);
    assert_eq!(swt.current_level, 0);
    assert_eq!(swt.input.get(0, 0), 0);
}

#[test]
fn kernel_table_is_binomial() {
    let k = LinearInterpolation::default();
    let expected = [[1, 2, 1], [2, 4, 2], [1, 2, 1]];
    for x in 0..3 {
        for y in 0..3 {
            assert_eq!(k.index([x, y]), expected[x][y]);
        }
    }
    assert_eq!(k.size(), 3);
    assert_eq!(k.middle_index(), 1);
}

#[test]
fn rejects_bad_level_counts() {
    assert!(matches!(
        StationaryWaveletTransform::new(half_gradient(), 0),
        Err(TransformError::InvalidLevelCount)
    ));
    assert!(matches!(
        StationaryWaveletTransform::new(half_gradient(), 65),
        Err(TransformError::InvalidLevelCount)
    ));
    assert!(StationaryWaveletTransform::new(half_gradient(), 64).is_ok());
}

#[test]
fn rejects_ragged_matrix() {
    assert!(Matrix::from_rows(vec![vec![1, 2], vec![3]]).is_none());
    let ragged = Matrix { width: 2, height: 2, rows: vec![vec![1, 2], vec![3]] };
    assert!(matches!(
        StationaryWaveletTransform::new(ragged, 2),
        Err(TransformError::DimensionMismatch)
    ));
}

#[test]
fn rejects_oversized_sample() {
    let m = matrix_from_fn(2, 2, |x, _| if x == 1 { SAMPLE_LIMIT + 1 } else { 0 });
    assert!(matches!(
        StationaryWaveletTransform::new(m, 1),
        Err(TransformError::SampleOutOfRange)
    ));
    let m = matrix_from_fn(2, 2, |x, _| if x == 1 { -SAMPLE_LIMIT } else { SAMPLE_LIMIT });
    assert!(StationaryWaveletTransform::new(m, 1).is_ok());
}

#[test]
fn pixel_index_clamps_to_edges() {
    let swt = StationaryWaveletTransform::new(half_gradient(), 3).unwrap();
    // [row, column]
    assert_eq!(swt.compute_pixel_index(4, [-1, -1], [1, 2]), [0, 0]);
    assert_eq!(swt.compute_pixel_index(4, [1, 1], [8, 9]), [9, 9]);
    assert_eq!(swt.compute_pixel_index(4, [1, -1], [3, 6]), [2, 7]);
    assert_eq!(swt.compute_pixel_index(1 << 63, [1, -1], [3, 6]), [0, 9]);
    assert_eq!(swt.compute_pixel_index(2, [0, 0], [5, 5]), [5, 5]);
}

#[test]
fn border_sample_repeats_edge_value() {
    // A single bright column at x = 0: a left tap off the image reads it again.
    let m = matrix_from_fn(5, 5, |x, _| if x == 0 { 16 * ONE } else { 0 });
    let swt = StationaryWaveletTransform::new(m, 1).unwrap();
    // At (0, 2) the left taps clamp to x = 0: weights 1 + 2 + 1 there, plus
    // the centre column's 2 + 4 + 2.
    assert_eq!(swt.compute_convoluted_pixel(1, [0, 2]), 12 * ONE);
    // At (1, 2) only the left column (x = 0) is bright.
    assert_eq!(swt.compute_convoluted_pixel(1, [1, 2]), 4 * ONE);
}

#[test]
fn convolution_of_constant_is_constant() {
    let m = matrix_from_fn(4, 3, |_, _| 7 * ONE);
    let swt = StationaryWaveletTransform::new(m, 2).unwrap();
    for distance in [1u64, 2, 4, 1024] {
        for y in 0..3 {
            for x in 0..4 {
                assert_eq!(swt.compute_convoluted_pixel(distance, [x, y]), 7 * ONE);
            }
        }
    }
}

#[test]
fn convolution_rounds_down() {
    // 1 at the centre of a 3x3 grid: weighted sum 4, one quarter of a unit.
    let m = matrix_from_fn(3, 3, |x, y| if x == 1 && y == 1 { 1 } else { 0 });
    let swt = StationaryWaveletTransform::new(m, 1).unwrap();
    assert_eq!(swt.compute_convoluted_pixel(1, [1, 1]), 0);
    let m = matrix_from_fn(3, 3, |x, y| if x == 1 && y == 1 { -1 } else { 0 });
    let swt = StationaryWaveletTransform::new(m, 1).unwrap();
    assert_eq!(swt.compute_convoluted_pixel(1, [1, 1]), -1);
}

#[test]
fn impulse_spreads_by_dilation_distance() {
    // An impulse of 16 units at (6, 6) in a 13x13 grid.
    let m = matrix_from_fn(13, 13, |x, y| if x == 6 && y == 6 { 16 * ONE } else { 0 });
    let mut swt = StationaryWaveletTransform::new(m, 3).unwrap();
    let (detail, scale) = swt.next().unwrap();
    assert_eq!(scale, Some(1));
    // First step: taps one pixel apart.
    assert_eq!(swt.input.get(6, 6), 4 * ONE);
    assert_eq!(swt.input.get(7, 6), 2 * ONE);
    assert_eq!(swt.input.get(7, 7), ONE);
    assert_eq!(swt.input.get(8, 6), 0);
    assert_eq!(detail.get(6, 6), 12 * ONE);
    assert_eq!(detail.get(7, 6), -2 * ONE);
    // Second step: taps two pixels apart, so (8, 6) now reads the centre.
    let (_, scale) = swt.next().unwrap();
    assert_eq!(scale, Some(2));
    assert_eq!(swt.input.get(8, 6), 2 * 4 * ONE / 16);
    assert_eq!(swt.input.get(6, 6), 4 * 4 * ONE / 16);
    // Third step: taps four pixels apart.
    assert_eq!(swt.input.get(2, 6), 0);
    let (_, scale) = swt.next().unwrap();
    assert_eq!(scale, Some(3));
    assert_eq!(swt.input.get(6, 6), 4 * ONE / 16);
    assert_eq!(swt.input.get(10, 6), 2 * ONE / 16);
    assert_eq!(swt.input.get(10, 10), ONE / 16);
    let (last, scale) = swt.next().unwrap();
    assert_eq!(scale, None);
    assert_eq!(last.get(10, 10), ONE / 16);
}

#[test]
fn layer_sequence_has_levels_plus_one_entries() {
    for levels in 1..6 {
        let mut swt = StationaryWaveletTransform::new(half_gradient(), levels).unwrap();
        let mut scales = Vec::new();
        while let Some((m, scale)) = swt.next() {
            assert_eq!((m.width, m.height), (10, 10));
            scales.push(scale);
        }
        assert_eq!(scales.len(), levels + 1);
        for (i, s) in scales.iter().enumerate() {
            if i < levels {
                assert_eq!(*s, Some(i + 1));
            } else {
                assert_eq!(*s, None);
            }
        }
        assert!(swt.next().is_none());
        assert!(swt.next().is_none());
    }
}

#[test]
fn layers_sum_to_original() {
    let input = matrix_from_fn(7, 5, |x, y| ((x * 37 + y * 101) % 23) as i64 * 1000 - 9000);
    for levels in [1, 2, 4, 7] {
        let layers = all_layers(input.duplicate(), levels);
        assert_eq!(layers.len(), levels + 1);
        for y in 0..5 {
            for x in 0..7 {
                assert_eq!(sum_of_layers(&layers, x, y), input.get(x, y));
            }
        }
    }
}

#[test]
fn gradient_scenario() {
    let input = half_gradient();
    let layers = all_layers(input.duplicate(), 3);
    assert_eq!(layers.len(), 4);
    assert_eq!(layers[3].1, None);
    let expected = smooth(smooth(smooth(input.duplicate(), 1), 2), 4);
    for y in 0..10 {
        for x in 0..10 {
            assert_eq!(layers[3].0.get(x, y), expected.get(x, y));
            assert_eq!(sum_of_layers(&layers, x, y), input.get(x, y));
        }
    }
    assert_eq!(sum_of_layers(&layers, 0, 0), 0);
}

#[test]
fn gradient_detail_vanishes_away_from_borders() {
    // Smoothing a linear ramp leaves it unchanged where no tap is clamped, so
    // the detail layer is zero there; the untouched band widens with the
    // dilation distance.
    let input = matrix_from_fn(20, 20, |x, y| (x + 2 * y) as i64 * ONE);
    let layers = all_layers(input, 2);
    for y in 1..19 {
        for x in 1..19 {
            assert_eq!(layers[0].0.get(x, y), 0);
        }
    }
    assert_ne!(layers[0].0.get(0, 0), 0);
    for y in 3..17 {
        for x in 3..17 {
            assert_eq!(layers[1].0.get(x, y), 0);
        }
    }
}

#[test]
fn recompose_rescales_to_full_range() {
    let layers = all_layers(half_gradient(), 3);
    let img = recompose_into_image(&layers, 10, 10).unwrap();
    assert_eq!((img.width, img.height), (10, 10));
    assert_eq!(img.get(0, 0), 0);
    assert_eq!(img.get(9, 9), 65535);
    // (x + y) / 2 with x + y = 9 sits at the middle of [0, 9]: 65535 / 2.
    assert_eq!(img.get(4, 5), 32767);
    assert_eq!(img.get(1, 0), 65535 / 18);
}

#[test]
fn recompose_of_constant_is_black() {
    let flat = matrix_from_fn(3, 2, |_, _| 5);
    let layers = vec![(flat.duplicate(), Some(1)), (flat, None)];
    let img = recompose_into_image(&layers, 3, 2).unwrap();
    for y in 0..2 {
        for x in 0..3 {
            assert_eq!(img.get(x, y), 0);
        }
    }
}

#[test]
fn recompose_sums_substituted_layers() {
    let a = matrix_from_fn(2, 1, |x, _| if x == 0 { 10 } else { 0 });
    let b = matrix_from_fn(2, 1, |x, _| if x == 0 { -10 } else { 4 });
    let c = matrix_from_fn(2, 1, |_, _| 1);
    // Sums: (1, 5).
    let layers = vec![(a, Some(1)), (b, Some(2)), (c, None)];
    let img = recompose_into_image(&layers, 2, 1).unwrap();
    assert_eq!(img.get(0, 0), 0);
    assert_eq!(img.get(1, 0), 65535);
}

#[test]
fn recompose_errors() {
    let none: Vec<Layer> = Vec::new();
    assert!(matches!(recompose_into_image(&none, 2, 2), Err(RecomposeError::NoLayers)));
    let layers = vec![(matrix_from_fn(2, 3, |_, _| 0), None)];
    assert!(matches!(
        recompose_into_image(&layers, 2, 2),
        Err(RecomposeError::DimensionMismatch)
    ));
    let many: Vec<Layer> = (0..MAX_LAYERS + 1).map(|_| (matrix_from_fn(1, 1, |_, _| 0), None)).collect();
    assert!(matches!(recompose_into_image(&many, 1, 1), Err(RecomposeError::TooManyLayers)));
}

#[test]
fn recompose_of_extreme_layers_does_not_overflow() {
    let hi = matrix_from_fn(2, 1, |x, _| if x == 0 { i64::MAX } else { i64::MIN });
    let layers: Vec<Layer> = (0..MAX_LAYERS).map(|_| (hi.duplicate(), None)).collect();
    let img = recompose_into_image(&layers, 2, 1).unwrap();
    assert_eq!(img.get(0, 0), 65535);
    assert_eq!(img.get(1, 0), 0);
}
