use perceptron::classifier::classify;
use perceptron::classifier::test_image;
use perceptron::dataset::make_dataset;
use perceptron::dataset::AnnotatedImage;
use perceptron::image_bytes::image_from_bytes;
use perceptron::matrix::score;
use perceptron::matrix::Matrix;
use perceptron::shapes::make_circle;
use perceptron::shapes::make_rectangle;
use perceptron::training::train_dataset;
use perceptron::training::validate_dataset;

#[test]
fn dataset_is_balanced_and_interleaved() {
    let ds = make_dataset(5);
    assert_eq!(ds.len(), 10);
    let mut circles = 0;
    for (i, entry) in ds.iter().enumerate() {
        assert_eq!(entry.circle, i % 2 == 1);
        if entry.circle {
            circles += 1;
        }
    }
    assert_eq!(circles, 5);
}

#[test]
fn empty_dataset_from_zero_pairs() {
    let ds = make_dataset(0);
    assert_eq!(ds.len(), 0);
}

#[test]
fn score_of_full_grid_against_zero_weights_is_zero() {
    let m = make_rectangle(0, 19, 0, 19);
    let zeros = Matrix::zeros();
    assert_eq!(score(&m, &zeros), 0);
    // a score of exactly 0 is not above the threshold 0
    assert!(!classify(&m, &zeros, 0));
}

#[test]
fn score_is_linear_in_the_shape() {
    let a = make_rectangle(0, 3, 0, 3);
    let b = make_circle(10, 10, 4);
    let w = make_rectangle(2, 12, 2, 12);
    let sum = a.plus(&b);
    assert_eq!(score(&sum, &w), score(&a, &w) + score(&b, &w));
}

#[test]
fn score_is_linear_in_the_weights() {
    let a = make_circle(9, 9, 5);
    let w1 = make_rectangle(0, 10, 0, 10);
    let w2 = make_rectangle(5, 19, 5, 19);
    let sum = w1.plus(&w2);
    assert_eq!(score(&a, &sum), score(&a, &w1) + score(&a, &w2));
}

#[test]
fn validation_is_idempotent() {
    let ds = make_dataset(4);
    let trained = train_dataset(&ds, 5);
    let first = validate_dataset(&ds, &trained.weights);
    let second = validate_dataset(&ds, &trained.weights);
    assert_eq!(first, second);
}

#[test]
fn zero_iterations_return_zero_weights_unchanged() {
    let ds = make_dataset(4);
    let trained = train_dataset(&ds, 0);
    for x in 0..20 {
        for y in 0..20 {
            assert_eq!(trained.weights.get(x, y), 0);
        }
    }
    assert!(trained.converged_after.is_none());
    assert_eq!(trained.progress.len(), 0);
    // with zero weights every score is 0: every rectangle is a correct
    // call, no circle is
    let vr = validate_dataset(&ds, &trained.weights);
    assert_eq!(vr.rectangles, 4);
    assert_eq!(vr.circles, 4);
    assert_eq!(vr.rectangles_correct, 4);
    assert_eq!(vr.circles_correct, 0);
}

#[test]
fn empty_dataset_converges_immediately() {
    let ds = make_dataset(0);
    let trained = train_dataset(&ds, 5);
    assert_eq!(trained.converged_after, Some(0));
    assert_eq!(trained.progress.len(), 0);
    for x in 0..20 {
        for y in 0..20 {
            assert_eq!(trained.weights.get(x, y), 0);
        }
    }
}

#[test]
fn single_rectangle_trains_to_negative_weights() {
    // the full-grid rectangle scores 0 >= 0 at first, so the first
    // pass subtracts its mask; the second pass scores -400 and changes
    // nothing, so training converges after pass 1
    let ds = vec![AnnotatedImage { image: make_rectangle(0, 19, 0, 19), circle: false }];
    let trained = train_dataset(&ds, 10);
    assert_eq!(trained.converged_after, Some(1));
    assert_eq!(trained.progress.len(), 1);
    for x in 0..20 {
        for y in 0..20 {
            assert_eq!(trained.weights.get(x, y), -1);
        }
    }
    let vr = &trained.progress[0];
    assert_eq!(vr.rectangles, 1);
    assert_eq!(vr.circles, 0);
    assert_eq!(vr.rectangles_correct, 1);
    assert_eq!(vr.circles_correct, 0);
}

#[test]
fn progress_tallies_stay_within_their_totals() {
    let ds = make_dataset(10);
    let trained = train_dataset(&ds, 20);
    assert!(trained.progress.len() <= 20);
    for vr in &trained.progress {
        assert_eq!(vr.rectangles + vr.circles, 20);
        assert!(vr.rectangles_correct <= vr.rectangles);
        assert!(vr.circles_correct <= vr.circles);
    }
    if let Some(i) = trained.converged_after {
        assert_eq!(trained.progress.len() as u64, i);
    }
}

#[test]
fn test_image_uses_the_half_threshold() {
    let bright = image_from_bytes(&vec![255u8; 400]);
    let zeros = Matrix::zeros();
    // score 0 is not above one half on the normalized scale
    assert!(!test_image(&bright, &zeros));
    // one positive weight cell: score 255 / 255 = 1 > 1/2
    let mut w = Matrix::zeros();
    w.set(4, 7, 1);
    assert!(test_image(&bright, &w));
    // a pixel of 127 alone stays exactly at 127/255 < 1/2
    let mut dim = vec![0u8; 400];
    dim[4 * 20 + 7] = 127;
    let dim = image_from_bytes(&dim);
    assert!(!test_image(&dim, &w));
    // one step brighter crosses the threshold: 128/255 > 1/2
    let mut brighter = vec![0u8; 400];
    brighter[4 * 20 + 7] = 128;
    let brighter = image_from_bytes(&brighter);
    assert!(test_image(&brighter, &w));
}
