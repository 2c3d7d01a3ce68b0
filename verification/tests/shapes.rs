use perceptron::matrix::Matrix;
use perceptron::shapes::make_circle;
use perceptron::shapes::make_random_circle;
use perceptron::shapes::make_random_rectangle;
use perceptron::shapes::make_rectangle;

fn assert_is_mask(m: &Matrix) {
    for x in 0..20 {
        for y in 0..20 {
            let v = m.get(x, y);
            assert!(v == 0 || v == 1);
        }
    }
}

#[test]
fn rectangle_fills_exactly_its_area() {
    let m = make_rectangle(2, 4, 3, 7);
    assert_eq!(m.ones(), 3 * 5);
    for x in 0..20 {
        for y in 0..20 {
            let inside = (2..=4).contains(&x) && (3..=7).contains(&y);
            assert_eq!(m.get(x, y), if inside { 1 } else { 0 });
        }
    }
}

#[test]
fn rectangle_single_cell() {
    let m = make_rectangle(0, 0, 19, 19);
    assert_eq!(m.ones(), 1);
    assert_eq!(m.get(0, 19), 1);
    assert_eq!(m.get(0, 18), 0);
    assert_eq!(m.get(1, 19), 0);
}

#[test]
fn rectangle_full_grid_sets_all_400_cells() {
    let m = make_rectangle(0, 19, 0, 19);
    assert_eq!(m.ones(), 400);
    for x in 0..20 {
        for y in 0..20 {
            assert_eq!(m.get(x, y), 1);
        }
    }
}

#[test]
fn circle_radius_one_is_center_and_four_neighbors() {
    let m = make_circle(10, 10, 1);
    assert_eq!(m.ones(), 5);
    assert_eq!(m.get(10, 10), 1);
    assert_eq!(m.get(9, 10), 1);
    assert_eq!(m.get(11, 10), 1);
    assert_eq!(m.get(10, 9), 1);
    assert_eq!(m.get(10, 11), 1);
    assert_eq!(m.get(9, 9), 0);
    assert_eq!(m.get(11, 11), 0);
}

#[test]
fn circle_cell_set_iff_within_squared_distance() {
    let m = make_circle(5, 6, 3);
    let mut count = 0;
    for x in 0..20i64 {
        for y in 0..20i64 {
            let dist = (x - 5) * (x - 5) + (y - 6) * (y - 6);
            let expected = if dist <= 9 { 1 } else { 0 };
            assert_eq!(m.get(x as usize, y as usize), expected);
            count += expected;
        }
    }
    assert_eq!(m.ones() as i64, count);
}

#[test]
fn random_rectangle_is_a_mask_with_cells_set() {
    for _ in 0..50 {
        let m = make_random_rectangle();
        assert_is_mask(&m);
        assert!(m.ones() >= 1);
    }
}

#[test]
fn random_circle_is_a_mask_that_fits_the_grid() {
    for _ in 0..50 {
        let m = make_random_circle();
        assert_is_mask(&m);
        // the smallest radius is 1, whose disk holds five cells
        assert!(m.ones() >= 5);
        // the corners lie outside every disk that fits the grid
        assert_eq!(m.get(0, 0), 0);
        assert_eq!(m.get(0, 19), 0);
        assert_eq!(m.get(19, 0), 0);
        assert_eq!(m.get(19, 19), 0);
    }
}
