//! Labeled shapes and the balanced dataset builder: each generation
//! step adds exactly one random rectangle and one random circle, so a
//! built dataset always holds equal counts of both classes.

use vstd::prelude::*;

use crate::matrix::is_mask;
use crate::matrix::Matrix;
use crate::shapes::is_circle_shape;
use crate::shapes::is_rect_shape;
use crate::shapes::make_random_circle;
use crate::shapes::make_random_rectangle;

verus! {

/// A shape matrix paired with its class label, fixed at construction:
/// `true` is a circle, `false` a rectangle.
pub struct AnnotatedImage {
    pub image: Matrix,
    pub circle: bool,
}

/// Every entry of the dataset is a binary mask.
pub open spec fn dataset_wf(ds: Seq<AnnotatedImage>) -> bool {
    forall|i: int| 0 <= i < ds.len() ==> is_mask(#[trigger] ds[i].image@)
}

/// Number of entries labeled circle among the first `n`.
pub open spec fn count_circles_prefix(ds: Seq<AnnotatedImage>, n: nat) -> int
    decreases n,
{
    if n == 0 {
        0
    } else {
        count_circles_prefix(ds, (n - 1) as nat) + if ds[n - 1].circle {
            1int
        } else {
            0int
        }
    }
}

/// Number of entries labeled circle in the whole dataset.
pub open spec fn count_circles(ds: Seq<AnnotatedImage>) -> int {
    count_circles_prefix(ds, ds.len())
}

/// Number of entries labeled rectangle in the whole dataset.
pub open spec fn count_rectangles(ds: Seq<AnnotatedImage>) -> int {
    ds.len() - count_circles(ds)
}

/// Builds a dataset of `n` random rectangles and `n` random circles,
/// interleaved one pair at a time: the rectangle at each even index,
/// the circle at the following odd index.  `n = 0` yields an empty
/// dataset.
pub fn make_dataset(n: u64) -> (ds: Vec<AnnotatedImage>)
    ensures
        ds@.len() == 2 * n,
        dataset_wf(ds@),
        forall|i: int| 0 <= i < ds@.len() ==> (#[trigger] ds@[i].circle <==> i % 2 == 1),
        forall|i: int| 0 <= i < ds@.len() && i % 2 == 0 ==> is_rect_shape(#[trigger] ds@[i].image@),
        forall|i: int| 0 <= i < ds@.len() && i % 2 == 1 ==> is_circle_shape(
            #[trigger] ds@[i].image@,
        ),
{
    let mut ds: Vec<AnnotatedImage> = Vec::new();
    let mut k: u64 = 0;
    while k < n
        invariant
            k <= n,
            ds@.len() == 2 * k,
            dataset_wf(ds@),
            forall|i: int| 0 <= i < ds@.len() ==> (#[trigger] ds@[i].circle <==> i % 2 == 1),
            forall|i: int|
                0 <= i < ds@.len() && i % 2 == 0 ==> is_rect_shape(#[trigger] ds@[i].image@),
            forall|i: int|
                0 <= i < ds@.len() && i % 2 == 1 ==> is_circle_shape(#[trigger] ds@[i].image@),
        decreases n - k,
    {
        let rect = make_random_rectangle();
        let circ = make_random_circle();
        ds.push(AnnotatedImage { image: rect, circle: false });
        ds.push(AnnotatedImage { image: circ, circle: true });
        k = k + 1;
    }
    ds
}

/// A dataset whose labels alternate rectangle, circle over `2 * n`
/// entries holds exactly `n` circles and `n` rectangles.
pub proof fn lemma_dataset_balance(ds: Seq<AnnotatedImage>, n: nat)
    requires
        ds.len() == 2 * n,
        forall|i: int| 0 <= i < ds.len() ==> (#[trigger] ds[i].circle <==> i % 2 == 1),
    ensures
        count_circles(ds) == n,
        count_rectangles(ds) == n,
    decreases n,
{
    lemma_alternating_prefix(ds, n);
}

proof fn lemma_alternating_prefix(ds: Seq<AnnotatedImage>, n: nat)
    requires
        2 * n <= ds.len(),
        forall|i: int| 0 <= i < ds.len() ==> (#[trigger] ds[i].circle <==> i % 2 == 1),
    ensures
        count_circles_prefix(ds, 2 * n) == n,
    decreases n,
{
    if n > 0 {
        lemma_alternating_prefix(ds, (n - 1) as nat);
        assert((2 * n - 2) % 2 == 0 && (2 * n - 1) % 2 == 1);
        assert(count_circles_prefix(ds, (2 * n - 1) as nat) == count_circles_prefix(
            ds,
            (2 * n - 2) as nat,
        ));
        assert(count_circles_prefix(ds, 2 * n) == count_circles_prefix(ds, (2 * n - 1) as nat)
            + 1);
    }
}

} // verus!
