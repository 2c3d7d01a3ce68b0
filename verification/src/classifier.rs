//! The classifier core: the threshold decision rule over the exact
//! matrix score, and the rule applied to a grayscale image loaded from
//! disk.

use vstd::prelude::*;

use crate::matrix::bounded;
use crate::matrix::dot;
use crate::matrix::lemma_dot_prefix_bound;
use crate::matrix::score;
use crate::matrix::Matrix;
use crate::matrix::CELL_BOUND;
use crate::matrix::SHAPE_BOUND;

verus! {

/// `true` (circle) exactly when the score of the shape against the
/// weights is strictly above the threshold.
pub fn classify(shape: &Matrix, weights: &Matrix, threshold: i64) -> (r: bool)
    requires
        shape.wf(),
        weights.wf(),
        bounded(shape@, SHAPE_BOUND as int),
        bounded(weights@, CELL_BOUND as int),
    ensures
        r == (dot(shape@, weights@) > threshold),
{
    score(shape, weights) > threshold
}

/// Classifies a loaded grayscale image, whose cells are raw pixel
/// bytes, against a weight matrix, with the decision threshold of one
/// half on the normalized scale: the image is a circle exactly when
/// the sum of `pixel / 255 * weight` over all cells exceeds `1 / 2`,
/// that is, when twice the raw integer score exceeds 255.
pub fn test_image(image: &Matrix, weights: &Matrix) -> (r: bool)
    requires
        image.wf(),
        weights.wf(),
        bounded(image@, SHAPE_BOUND as int),
        bounded(weights@, CELL_BOUND as int),
    ensures
        r == (2 * dot(image@, weights@) > 255),
{
    proof {
        lemma_dot_prefix_bound(image@, weights@, 400, SHAPE_BOUND as int, CELL_BOUND as int);
    }
    let output = score(image, weights);
    2 * output > 255
}

} // verus!
