//! The perceptron trainer and the validator.
//!
//! Training starts from all-zero weights and sweeps the dataset for up
//! to `n` passes.  A circle scoring below the bias (zero) has its mask
//! added to the weights; a rectangle scoring at or above the bias has
//! its mask subtracted; a full pass without an update means the run
//! has converged and training stops.  Validation counts, per class,
//! the entries the weights classify correctly under the asymmetric
//! decision rule: a circle is correct when its score is strictly above
//! the bias, a rectangle when its score is at or below it.

use vstd::prelude::*;

use crate::dataset::dataset_wf;
use crate::dataset::AnnotatedImage;
use crate::matrix::bounded;
use crate::matrix::dot;
use crate::matrix::is_mask;
use crate::matrix::mat_minus;
use crate::matrix::mat_plus;
use crate::matrix::lemma_dot_zero;
use crate::matrix::score;
use crate::matrix::zero_matrix;
use crate::matrix::Matrix;
use crate::matrix::CELL_BOUND;
use crate::matrix::SHAPE_BOUND;

verus! {

/// Per-class tallies of one validation run: how many rectangles and
/// circles the dataset holds, and how many of each the weights
/// classified correctly.
#[derive(Clone, Copy, PartialEq, Eq, Structural, Debug)]
pub struct ValidationResult {
    pub rectangles: u64,
    pub circles: u64,
    pub rectangles_correct: u64,
    pub circles_correct: u64,
}

impl View for ValidationResult {
    type V = (int, int, int, int);

    open spec fn view(&self) -> (int, int, int, int) {
        (
            self.rectangles as int,
            self.circles as int,
            self.rectangles_correct as int,
            self.circles_correct as int,
        )
    }
}

/// The tallies over the first `n` entries: total rectangles, total
/// circles, rectangles scoring at or below zero, circles scoring
/// strictly above zero.
pub open spec fn validate_prefix(ds: Seq<AnnotatedImage>, w: Seq<int>, n: nat) -> (
    int,
    int,
    int,
    int,
)
    decreases n,
{
    if n == 0 {
        (0, 0, 0, 0)
    } else {
        let t = validate_prefix(ds, w, (n - 1) as nat);
        let s = ds[n - 1];
        let sc = dot(s.image@, w);
        (
            t.0 + if !s.circle {
                1int
            } else {
                0int
            },
            t.1 + if s.circle {
                1int
            } else {
                0int
            },
            t.2 + if !s.circle && sc <= 0 {
                1int
            } else {
                0int
            },
            t.3 + if s.circle && sc > 0 {
                1int
            } else {
                0int
            },
        )
    }
}

/// The tallies of validating a whole dataset against fixed weights.
pub open spec fn validate_spec(ds: Seq<AnnotatedImage>, w: Seq<int>) -> (int, int, int, int) {
    validate_prefix(ds, w, ds.len())
}

/// The tallies of a validation run are internally consistent: the two
/// class totals add up to the dataset size, and neither class counts
/// more correct entries than it has entries.
pub proof fn lemma_validate_bounds(ds: Seq<AnnotatedImage>, w: Seq<int>)
    ensures
        validate_spec(ds, w).0 + validate_spec(ds, w).1 == ds.len(),
        0 <= validate_spec(ds, w).2 <= validate_spec(ds, w).0,
        0 <= validate_spec(ds, w).3 <= validate_spec(ds, w).1,
{
    lemma_validate_prefix_bounds(ds, w, ds.len());
}

proof fn lemma_validate_prefix_bounds(ds: Seq<AnnotatedImage>, w: Seq<int>, n: nat)
    ensures
        validate_prefix(ds, w, n).0 + validate_prefix(ds, w, n).1 == n,
        0 <= validate_prefix(ds, w, n).2 <= validate_prefix(ds, w, n).0,
        0 <= validate_prefix(ds, w, n).3 <= validate_prefix(ds, w, n).1,
    decreases n,
{
    if n > 0 {
        lemma_validate_prefix_bounds(ds, w, (n - 1) as nat);
    }
}

/// Scores every entry against the given weights and tallies, per
/// class, how many the asymmetric decision rule classifies correctly:
/// a score exactly at the bias counts as a correct rectangle, never as
/// a correct circle.  The result is a function of the dataset and the
/// weights alone, so validating the same inputs again yields the
/// identical tallies; neither input is mutated.
pub fn validate_dataset(dataset: &Vec<AnnotatedImage>, weights: &Matrix) -> (r: ValidationResult)
    requires
        dataset_wf(dataset@),
        weights.wf(),
        bounded(weights@, CELL_BOUND as int),
    ensures
        r@ == validate_spec(dataset@, weights@),
        r@.0 + r@.1 == dataset@.len(),
        r@.2 <= r@.0,
        r@.3 <= r@.1,
{
    let mut rectangle_count: u64 = 0;
    let mut circle_count: u64 = 0;
    let mut rectangle_correct: u64 = 0;
    let mut circle_correct: u64 = 0;
    let mut j: usize = 0;
    while j < dataset.len()
        invariant
            j <= dataset@.len(),
            dataset_wf(dataset@),
            weights.wf(),
            bounded(weights@, CELL_BOUND as int),
            rectangle_count <= j,
            circle_count <= j,
            rectangle_correct <= rectangle_count,
            circle_correct <= circle_count,
            validate_prefix(dataset@, weights@, j as nat) == (
                rectangle_count as int,
                circle_count as int,
                rectangle_correct as int,
                circle_correct as int,
            ),
        decreases dataset@.len() - j,
    {
        let sample = &dataset[j];
        proof {
            assert(is_mask(sample.image@));
            assert(bounded(sample.image@, SHAPE_BOUND as int));
        }
        let output = score(&sample.image, weights);
        if sample.circle {
            circle_count = circle_count + 1;
        } else {
            rectangle_count = rectangle_count + 1;
        }
        if sample.circle && output > 0 {
            circle_correct = circle_correct + 1;
        } else if !sample.circle && output <= 0 {
            rectangle_correct = rectangle_correct + 1;
        }
        j = j + 1;
    }
    proof {
        lemma_validate_bounds(dataset@, weights@);
    }
    ValidationResult {
        rectangles: rectangle_count,
        circles: circle_count,
        rectangles_correct: rectangle_correct,
        circles_correct: circle_correct,
    }
}

/// Against the all-zero weight matrix every sample scores exactly
/// zero, so validation counts every rectangle as correct and not a
/// single circle.
pub proof fn lemma_validate_zero_weights(ds: Seq<AnnotatedImage>)
    ensures
        validate_spec(ds, zero_matrix()).2 == validate_spec(ds, zero_matrix()).0,
        validate_spec(ds, zero_matrix()).3 == 0,
{
    lemma_validate_zero_prefix(ds, ds.len());
}

proof fn lemma_validate_zero_prefix(ds: Seq<AnnotatedImage>, n: nat)
    ensures
        validate_prefix(ds, zero_matrix(), n).2 == validate_prefix(ds, zero_matrix(), n).0,
        validate_prefix(ds, zero_matrix(), n).3 == 0,
    decreases n,
{
    if n > 0 {
        lemma_validate_zero_prefix(ds, (n - 1) as nat);
        lemma_dot_zero(ds[n - 1].image@);
    }
}

/// One perceptron update, with unit learning rate and bias zero: a
/// circle scoring below zero has its mask added to the weights, a
/// rectangle scoring at or above zero has its mask subtracted, and any
/// other sample leaves the weights unchanged.
pub open spec fn step(w: Seq<int>, s: AnnotatedImage) -> Seq<int> {
    let sc = dot(s.image@, w);
    if s.circle && sc < 0 {
        mat_plus(w, s.image@)
    } else if !s.circle && sc >= 0 {
        mat_minus(w, s.image@)
    } else {
        w
    }
}

/// The sample is misclassified under the training rule, so its update
/// changes the weights' trajectory.
pub open spec fn step_changed(w: Seq<int>, s: AnnotatedImage) -> bool {
    (s.circle && dot(s.image@, w) < 0) || (!s.circle && dot(s.image@, w) >= 0)
}

/// Weights and update flag after sweeping the first `n` samples of one
/// pass that started from `w0`.
pub open spec fn pass_prefix(w0: Seq<int>, ds: Seq<AnnotatedImage>, n: nat) -> (Seq<int>, bool)
    decreases n,
{
    if n == 0 {
        (w0, false)
    } else {
        let p = pass_prefix(w0, ds, (n - 1) as nat);
        (step(p.0, ds[n - 1]), p.1 || step_changed(p.0, ds[n - 1]))
    }
}

/// Weights and update flag after one full pass over the dataset.
pub open spec fn pass(w0: Seq<int>, ds: Seq<AnnotatedImage>) -> (Seq<int>, bool) {
    pass_prefix(w0, ds, ds.len())
}

/// The weights after `n` full passes over the dataset, starting from
/// the all-zero matrix and never stopping early.
pub open spec fn passes_upto(ds: Seq<AnnotatedImage>, n: int) -> Seq<int>
    decreases n,
{
    if n <= 0 {
        zero_matrix()
    } else {
        pass(passes_upto(ds, n - 1), ds).0
    }
}

/// Pass number `i` (counting from zero) updated the weights at least
/// once.
pub open spec fn pass_changed_at(ds: Seq<AnnotatedImage>, i: int) -> bool {
    pass(passes_upto(ds, i), ds).1
}

/// A pass that raised no update flag left the weights exactly as it
/// found them.
pub proof fn lemma_pass_unchanged(w0: Seq<int>, ds: Seq<AnnotatedImage>)
    requires
        !pass(w0, ds).1,
    ensures
        pass(w0, ds).0 == w0,
{
    lemma_pass_prefix_unchanged(w0, ds, ds.len());
}

proof fn lemma_pass_prefix_unchanged(w0: Seq<int>, ds: Seq<AnnotatedImage>, n: nat)
    requires
        !pass_prefix(w0, ds, n).1,
    ensures
        pass_prefix(w0, ds, n).0 == w0,
    decreases n,
{
    if n > 0 {
        lemma_pass_prefix_unchanged(w0, ds, (n - 1) as nat);
    }
}

/// What a training run returns: the learned weights, one validation
/// tally per completed updating pass for progress tracking, and the
/// index of the pass at which the run converged, if it did.
pub struct TrainResult {
    pub weights: Matrix,
    pub progress: Vec<ValidationResult>,
    pub converged_after: Option<u64>,
}

/// Trains a weight matrix from all zeros with up to `n` full passes of
/// perceptron updates over the dataset, in dataset order.  A pass
/// without a single update means the run has converged: training stops
/// and reports that pass's index.  After every updating pass the
/// dataset is validated against the fresh weights and the tally is
/// recorded, without any effect on training.  The bound on
/// `n * dataset.len()` keeps every weight cell within `CELL_BOUND`, so
/// all arithmetic is exact.
pub fn train_dataset(dataset: &Vec<AnnotatedImage>, n: u64) -> (r: TrainResult)
    requires
        dataset_wf(dataset@),
        (n as int) * (dataset@.len() as int) <= CELL_BOUND as int,
    ensures
        r.weights.wf(),
        bounded(r.weights@, CELL_BOUND as int),
        r.weights@ == passes_upto(dataset@, r.progress@.len() as int),
        r.progress@.len() <= n,
        forall|p: int|
            0 <= p < r.progress@.len() ==> #[trigger] r.progress@[p]@ == validate_spec(
                dataset@,
                passes_upto(dataset@, p + 1),
            ),
        forall|p: int|
            0 <= p < r.progress@.len() ==> (#[trigger] r.progress@[p]@).2 <= r.progress@[p]@.0
                && r.progress@[p]@.3 <= r.progress@[p]@.1 && r.progress@[p]@.0 + r.progress@[p]@.1
                == dataset@.len(),
        match r.converged_after {
            Some(i) => i < n && i as int == r.progress@.len() && !pass_changed_at(
                dataset@,
                i as int,
            ) && forall|j: int| 0 <= j < i ==> pass_changed_at(dataset@, j),
            None => r.progress@.len() == n as int && forall|j: int|
                0 <= j < n ==> pass_changed_at(dataset@, j),
        },
{
    let ghost len = dataset@.len() as int;
    let mut weights = Matrix::zeros();
    let mut progress: Vec<ValidationResult> = Vec::new();
    let mut converged: Option<u64> = None;
    let mut done = false;
    let mut i: u64 = 0;
    while i < n && !done
        invariant
            i <= n,
            len == dataset@.len() as int,
            dataset_wf(dataset@),
            (n as int) * len <= CELL_BOUND as int,
            weights.wf(),
            weights@ == passes_upto(dataset@, i as int),
            bounded(weights@, (i as int) * len),
            progress@.len() == i as int,
            forall|j: int| 0 <= j < i ==> pass_changed_at(dataset@, j),
            forall|p: int|
                0 <= p < progress@.len() ==> #[trigger] progress@[p]@ == validate_spec(
                    dataset@,
                    passes_upto(dataset@, p + 1),
                ),
            match converged {
                Some(ci) => done && ci == i && i < n && !pass_changed_at(dataset@, i as int),
                None => !done,
            },
        decreases n - i, (if done { 0int } else { 1int }),
    {
        let ghost w0 = weights@;
        proof {
            assert(((i as int) + 1) * len <= (n as int) * len) by (nonlinear_arith)
                requires
                    (i as int) + 1 <= n as int,
                    len >= 0,
            ;
            assert((i as int) * len + len == ((i as int) + 1) * len) by (nonlinear_arith);
        }
        let mut changed = false;
        let mut j: usize = 0;
        while j < dataset.len()
            invariant
                j <= dataset@.len(),
                len == dataset@.len() as int,
                dataset_wf(dataset@),
                weights.wf(),
                (i as int) * len + len <= CELL_BOUND as int,
                weights@ == pass_prefix(w0, dataset@, j as nat).0,
                changed == pass_prefix(w0, dataset@, j as nat).1,
                bounded(weights@, (i as int) * len + j as int),
            decreases dataset@.len() - j,
        {
            let sample = &dataset[j];
            proof {
                assert(is_mask(sample.image@));
                assert(bounded(sample.image@, SHAPE_BOUND as int));
                assert(bounded(weights@, CELL_BOUND as int));
            }
            let output = score(&sample.image, &weights);
            if sample.circle && output < 0 {
                weights = weights.plus(&sample.image);
                changed = true;
            } else if !sample.circle && output >= 0 {
                weights = weights.minus(&sample.image);
                changed = true;
            }
            j = j + 1;
        }
        if !changed {
            proof {
                lemma_pass_unchanged(w0, dataset@);
            }
            converged = Some(i);
            done = true;
        } else {
            proof {
                assert(weights@ == passes_upto(dataset@, i as int + 1));
                assert(bounded(weights@, CELL_BOUND as int));
            }
            let vr = validate_dataset(dataset, &weights);
            progress.push(vr);
            i = i + 1;
        }
    }
    proof {
        assert((i as int) * len <= (n as int) * len) by (nonlinear_arith)
            requires
                i as int <= n as int,
                len >= 0,
        ;
        assert forall|p: int| 0 <= p < progress@.len() implies (#[trigger] progress@[p]@).2
            <= progress@[p]@.0 && progress@[p]@.3 <= progress@[p]@.1 && progress@[p]@.0
            + progress@[p]@.1 == dataset@.len() by {
            lemma_validate_bounds(dataset@, passes_upto(dataset@, p + 1));
        }
    }
    TrainResult { weights, progress, converged_after: converged }
}

} // verus!
