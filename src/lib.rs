//! Stationary ("à trous") wavelet decomposition of a grayscale intensity
//! matrix, and recomposition of the layers into a 16-bit image.
//!
//! Intensities are fixed-point integers: the caller picks the scale (for
//! example `65536` for an intensity of `1.0`). The smoothing kernel's weights
//! are sixteenths, so every low-pass sample is the floor of a weighted sum
//! divided by sixteen.
pub mod convolution;
pub mod kernel;
pub mod matrix;
pub mod recompose;
pub mod wavelet_transform;
