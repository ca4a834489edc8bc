//! Scalar image operations on the checked buffer model: histograms, thresholds,
//! crops, borders, normalization, color layout conversions and median filtering.

pub mod grid;
pub mod operations;
pub mod histogram;
pub mod threshold;
pub mod color;
pub mod filtering;
pub mod resize;
