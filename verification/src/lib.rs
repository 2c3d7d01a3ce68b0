//! A verified single-layer perceptron that separates synthetic 20x20
//! images of rectangles from images of circles.
//!
//! Shapes are binary masks over a 20x20 grid; a trained weight matrix
//! holds one integer per cell.  Starting from all-zero weights, every
//! perceptron update adds or subtracts a binary mask, so all weights,
//! scores and thresholds stay integers and every computation here is
//! exact.

pub mod classifier;
pub mod cli;
pub mod dataset;
pub mod image_bytes;
pub mod matrix;
pub mod shapes;
pub mod training;
