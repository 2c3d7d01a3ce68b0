//! Generators for the synthetic training shapes: axis-aligned
//! rectangles and discrete disks on the 20x20 grid, deterministic from
//! explicit geometry or with randomly drawn parameters.

use vstd::arithmetic::div_mod::lemma_fundamental_div_mod;
use vstd::arithmetic::div_mod::lemma_fundamental_div_mod_converse;
use vstd::prelude::*;

use crate::matrix::count_ones;
use crate::matrix::count_ones_prefix;
use crate::matrix::is_mask;
use crate::matrix::Matrix;

verus! {

/// Cell `k` (row `k / 20`, column `k % 20`) lies inside the rectangle
/// with rows `xmin..=xmax` and columns `ymin..=ymax`.
pub open spec fn in_rect(xmin: int, xmax: int, ymin: int, ymax: int, k: int) -> bool {
    xmin <= k / 20 && k / 20 <= xmax && ymin <= k % 20 && k % 20 <= ymax
}

/// The mask of the rectangle with rows `xmin..=xmax` and columns
/// `ymin..=ymax`: those cells hold 1, all others 0.
pub open spec fn rect_spec(xmin: int, xmax: int, ymin: int, ymax: int) -> Seq<int> {
    Seq::new(400, |k: int| if in_rect(xmin, xmax, ymin, ymax, k) { 1int } else { 0int })
}

/// Cell `k` lies within squared Euclidean distance `radius * radius`
/// of the center `(cx, cy)`.
pub open spec fn in_disk(cx: int, cy: int, radius: int, k: int) -> bool {
    let x = k / 20;
    let y = k % 20;
    (x - cx) * (x - cx) + (y - cy) * (y - cy) <= radius * radius
}

/// The mask of the discrete disk around `(cx, cy)`: a cell holds 1
/// exactly when its squared distance from the center is at most
/// `radius * radius`.
pub open spec fn circle_spec(cx: int, cy: int, radius: int) -> Seq<int> {
    Seq::new(400, |k: int| if in_disk(cx, cy, radius, k) { 1int } else { 0int })
}

/// Number of grid cells among the first `n` that lie in the disk: the
/// discrete disk area restricted to the 20x20 grid.
pub open spec fn disk_cells_prefix(cx: int, cy: int, radius: int, n: nat) -> int
    decreases n,
{
    if n == 0 {
        0
    } else {
        disk_cells_prefix(cx, cy, radius, (n - 1) as nat) + if in_disk(cx, cy, radius, n - 1) {
            1int
        } else {
            0int
        }
    }
}

/// The mask of some rectangle that fits in the grid.
pub open spec fn is_rect_shape(m: Seq<int>) -> bool {
    exists|a: int, b: int, c: int, d: int|
        #![auto]
        0 <= a <= b < 20 && 0 <= c <= d < 20 && m == rect_spec(a, b, c, d)
}

/// The mask of some disk that fits in the grid without clipping.
pub open spec fn is_circle_shape(m: Seq<int>) -> bool {
    exists|cx: int, cy: int, rad: int|
        #![auto]
        1 <= rad < 10 && rad <= cx < 20 - rad && rad <= cy < 20 - rad && m == circle_spec(
            cx,
            cy,
            rad,
        )
}

/// Fills all cells with row index in `[xmin, xmax]` and column index
/// in `[ymin, ymax]`, both ends inclusive, with 1; all other cells 0.
pub fn make_rectangle(xmin: u32, xmax: u32, ymin: u32, ymax: u32) -> (r: Matrix)
    requires
        xmin <= xmax < 20,
        ymin <= ymax < 20,
    ensures
        r.wf(),
        r@ == rect_spec(xmin as int, xmax as int, ymin as int, ymax as int),
        is_mask(r@),
{
    let ghost target = rect_spec(xmin as int, xmax as int, ymin as int, ymax as int);
    let mut cells: Vec<i64> = Vec::new();
    let mut k: usize = 0;
    while k < 400
        invariant
            k <= 400,
            cells@.len() == k,
            xmin <= xmax < 20,
            ymin <= ymax < 20,
            target == rect_spec(xmin as int, xmax as int, ymin as int, ymax as int),
            forall|j: int| 0 <= j < k ==> cells@[j] as int == target[j],
        decreases 400 - k,
    {
        let x = (k / 20) as u32;
        let y = (k % 20) as u32;
        let inside = xmin <= x && x <= xmax && ymin <= y && y <= ymax;
        cells.push(if inside { 1 } else { 0 });
        k = k + 1;
    }
    let r = Matrix::from_cells(cells);
    proof {
        assert(r@ =~= target);
    }
    r
}

/// Draws `xmin` uniformly from `[0, 20)`, `xmax` from `[xmin, 20)`,
/// `ymin` from `[0, 20)` and `ymax` from `[ymin, 20)`, then fills that
/// rectangle; degenerate single-row or single-column rectangles are
/// valid outcomes.
pub fn make_random_rectangle() -> (r: Matrix)
    ensures
        r.wf(),
        is_mask(r@),
        is_rect_shape(r@),
{
    let xmin = rand_in_range(0, 20);
    let xmax = rand_in_range(xmin, 20);
    let ymin = rand_in_range(0, 20);
    let ymax = rand_in_range(ymin, 20);
    make_rectangle(xmin, xmax, ymin, ymax)
}

/// Sets every cell whose squared Euclidean distance from the center
/// `(center_x, center_y)` is at most `radius * radius` to 1, all other
/// cells to 0; cells outside the grid are simply never visited.  The
/// parameters are grid-sized so that all distance arithmetic stays
/// small.
pub fn make_circle(center_x: u32, center_y: u32, radius: u32) -> (r: Matrix)
    requires
        center_x < 20,
        center_y < 20,
        radius <= 20,
    ensures
        r.wf(),
        r@ == circle_spec(center_x as int, center_y as int, radius as int),
        is_mask(r@),
{
    let ghost target = circle_spec(center_x as int, center_y as int, radius as int);
    proof {
        assert(0 <= radius as int * radius as int <= 400) by (nonlinear_arith)
            requires
                0 <= radius as int <= 20,
        ;
    }
    let radius_squared: i64 = (radius as i64) * (radius as i64);
    let mut cells: Vec<i64> = Vec::new();
    let mut k: usize = 0;
    while k < 400
        invariant
            k <= 400,
            cells@.len() == k,
            center_x < 20,
            center_y < 20,
            radius <= 20,
            radius_squared == radius as int * radius as int,
            target == circle_spec(center_x as int, center_y as int, radius as int),
            forall|j: int| 0 <= j < k ==> cells@[j] as int == target[j],
        decreases 400 - k,
    {
        proof {
            assert(0 <= k as int / 20 < 20 && 0 <= k as int % 20 < 20) by (nonlinear_arith)
                requires
                    0 <= k < 400,
            ;
        }
        let x = (k / 20) as i64;
        let y = (k % 20) as i64;
        let dx = x - center_x as i64;
        let dy = y - center_y as i64;
        proof {
            assert(0 <= dx * dx <= 400 && 0 <= dy * dy <= 400) by (nonlinear_arith)
                requires
                    -20 <= dx <= 20,
                    -20 <= dy <= 20,
            ;
        }
        let dist = dx * dx + dy * dy;
        cells.push(if dist <= radius_squared { 1 } else { 0 });
        k = k + 1;
    }
    let r = Matrix::from_cells(cells);
    proof {
        assert(r@ =~= target);
    }
    r
}

/// Draws `radius` uniformly from `[1, 10)` and the center coordinates
/// from `[radius, 20 - radius)`, so the disk fits inside the grid
/// without clipping, then fills that disk.
pub fn make_random_circle() -> (r: Matrix)
    ensures
        r.wf(),
        is_mask(r@),
        is_circle_shape(r@),
{
    let radius = rand_in_range(1, 10);
    let center_x = rand_in_range(radius, 20 - radius);
    let center_y = rand_in_range(radius, 20 - radius);
    make_circle(center_x, center_y, radius)
}

/// Relies on `rand::Rng::gen_range` over the half-open `u32` range
/// `lo..hi`, drawn from the thread-local generator: the result lies in
/// `[lo, hi)`, and the call panics only on an empty range, which the
/// precondition rules out.  Nothing is assumed about which value comes
/// back.
#[verifier::external_body]
fn rand_in_range(lo: u32, hi: u32) -> (r: u32)
    requires
        lo < hi,
    ensures
        lo <= r < hi,
{
    rand::Rng::gen_range(&mut rand::thread_rng(), lo..hi)
}

/// Number of rows with index below `x` that lie in `[xmin, xmax]`.
spec fn rows_below(xmin: int, xmax: int, x: int) -> int {
    if x <= xmin {
        0
    } else if x <= xmax + 1 {
        x - xmin
    } else {
        xmax - xmin + 1
    }
}

/// The number of ones among the first `n` cells of a rectangle mask,
/// in closed form: complete rows plus the partial row at `n`.
spec fn rect_count_formula(xmin: int, xmax: int, ymin: int, ymax: int, n: int) -> int {
    rows_below(xmin, xmax, n / 20) * (ymax - ymin + 1) + if xmin <= n / 20 && n / 20 <= xmax {
        rows_below(ymin, ymax, n % 20)
    } else {
        0
    }
}

proof fn lemma_rect_prefix_count(xmin: int, xmax: int, ymin: int, ymax: int, n: nat)
    requires
        0 <= xmin <= xmax < 20,
        0 <= ymin <= ymax < 20,
        n <= 400,
    ensures
        count_ones_prefix(rect_spec(xmin, xmax, ymin, ymax), n) == rect_count_formula(
            xmin,
            xmax,
            ymin,
            ymax,
            n as int,
        ),
    decreases n,
{
    let m = rect_spec(xmin, xmax, ymin, ymax);
    let w = ymax - ymin + 1;
    if n == 0 {
        assert(0int / 20 == 0 && 0int % 20 == 0);
    } else {
        lemma_rect_prefix_count(xmin, xmax, ymin, ymax, (n - 1) as nat);
        lemma_fundamental_div_mod(n - 1, 20);
        let x = (n - 1) / 20;
        let y = (n - 1) % 20;
        assert(n - 1 == 20 * x + y);
        assert(m[n - 1] == if in_rect(xmin, xmax, ymin, ymax, n - 1) {
            1int
        } else {
            0int
        });
        if y < 19 {
            lemma_fundamental_div_mod_converse(n as int, 20, x, y + 1);
            assert(n as int / 20 == x && n as int % 20 == y + 1);
            assert(rows_below(ymin, ymax, y + 1) == rows_below(ymin, ymax, y) + if ymin <= y
                && y <= ymax {
                1int
            } else {
                0int
            });
        } else {
            lemma_fundamental_div_mod_converse(n as int, 20, x + 1, 0);
            assert(n as int / 20 == x + 1 && n as int % 20 == 0);
            let r0 = rows_below(xmin, xmax, x);
            let r1 = rows_below(xmin, xmax, x + 1);
            assert(rows_below(ymin, ymax, 0) == 0);
            if xmin <= x && x <= xmax {
                assert(r1 == r0 + 1);
                assert(r1 * w == r0 * w + w) by (nonlinear_arith)
                    requires
                        r1 == r0 + 1,
                ;
                assert(w == rows_below(ymin, ymax, 19) + if ymin <= 19 && 19 <= ymax {
                    1int
                } else {
                    0int
                });
            } else {
                assert(r1 == r0);
            }
        }
    }
}

/// The rectangle mask with rows `xmin..=xmax` and columns
/// `ymin..=ymax` sets exactly `(xmax - xmin + 1) * (ymax - ymin + 1)`
/// cells to 1, and all other cells to 0.
pub proof fn lemma_rectangle_area(xmin: int, xmax: int, ymin: int, ymax: int)
    requires
        0 <= xmin <= xmax < 20,
        0 <= ymin <= ymax < 20,
    ensures
        count_ones(rect_spec(xmin, xmax, ymin, ymax)) == (xmax - xmin + 1) * (ymax - ymin + 1),
        forall|k: int|
            0 <= k < 400 ==> #[trigger] rect_spec(xmin, xmax, ymin, ymax)[k] == if in_rect(
                xmin,
                xmax,
                ymin,
                ymax,
                k,
            ) {
                1int
            } else {
                0int
            },
{
    lemma_rect_prefix_count(xmin, xmax, ymin, ymax, 400);
    assert(400int / 20 == 20 && 400int % 20 == 0);
}

/// The number of ones of a disk mask equals the number of grid cells
/// within distance `radius` of the center: the discrete disk area
/// restricted to the 20x20 grid.
pub proof fn lemma_circle_area(cx: int, cy: int, radius: int)
    ensures
        count_ones(circle_spec(cx, cy, radius)) == disk_cells_prefix(cx, cy, radius, 400),
        forall|k: int|
            0 <= k < 400 ==> #[trigger] circle_spec(cx, cy, radius)[k] == if in_disk(
                cx,
                cy,
                radius,
                k,
            ) {
                1int
            } else {
                0int
            },
{
    lemma_circle_prefix_count(cx, cy, radius, 400);
}

proof fn lemma_circle_prefix_count(cx: int, cy: int, radius: int, n: nat)
    requires
        n <= 400,
    ensures
        count_ones_prefix(circle_spec(cx, cy, radius), n) == disk_cells_prefix(cx, cy, radius, n),
    decreases n,
{
    if n > 0 {
        lemma_circle_prefix_count(cx, cy, radius, (n - 1) as nat);
    }
}

} // verus!
