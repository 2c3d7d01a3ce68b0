//! The 20x20 integer matrix that carries both shape masks and learned
//! weights, together with its mathematical model: a `Seq<int>` of the
//! 400 cells in row-major order.

use vstd::prelude::*;

verus! {

/// Largest magnitude a weight cell is allowed to reach; a training run
/// of `n` passes over `m` samples keeps every cell within `n * m`, so
/// callers bound `n * m` by this constant and all scores fit in `i64`.
pub const CELL_BOUND: i64 = 1048576;

/// Largest magnitude of a shape cell: masks hold 0 or 1, grayscale
/// pixels hold 0 to 255.
pub const SHAPE_BOUND: i64 = 256;

/// A 20x20 grid of integer cells, row-major: cell `(x, y)` of rows `x`
/// and columns `y` is entry `x * 20 + y` of the model sequence.
pub struct Matrix {
    cells: Vec<i64>,
}

/// The all-zero matrix.
pub open spec fn zero_matrix() -> Seq<int> {
    Seq::new(400, |k: int| 0)
}

/// Element-wise sum of two matrices.
pub open spec fn mat_plus(a: Seq<int>, b: Seq<int>) -> Seq<int> {
    Seq::new(400, |k: int| a[k] + b[k])
}

/// Element-wise difference of two matrices.
pub open spec fn mat_minus(a: Seq<int>, b: Seq<int>) -> Seq<int> {
    Seq::new(400, |k: int| a[k] - b[k])
}

/// Every cell lies in `[-bound, bound]`.
pub open spec fn bounded(a: Seq<int>, bound: int) -> bool {
    forall|k: int| 0 <= k < 400 ==> -bound <= #[trigger] a[k] <= bound
}

/// A binary mask: 400 cells, each 0 or 1.
pub open spec fn is_mask(a: Seq<int>) -> bool {
    a.len() == 400 && forall|k: int| 0 <= k < 400 ==> (#[trigger] a[k] == 0 || a[k] == 1)
}

/// Sum of `a[k] * b[k]` over the first `n` cells.
pub open spec fn dot_prefix(a: Seq<int>, b: Seq<int>, n: nat) -> int
    decreases n,
{
    if n == 0 {
        0
    } else {
        dot_prefix(a, b, (n - 1) as nat) + a[n - 1] * b[n - 1]
    }
}

/// The Frobenius inner product of two matrices: the sum over all 400
/// cell positions of the product of corresponding cells.
pub open spec fn dot(a: Seq<int>, b: Seq<int>) -> int {
    dot_prefix(a, b, 400)
}

/// Number of cells among the first `n` that hold exactly 1.
pub open spec fn count_ones_prefix(a: Seq<int>, n: nat) -> int
    decreases n,
{
    if n == 0 {
        0
    } else {
        count_ones_prefix(a, (n - 1) as nat) + if a[n - 1] == 1 { 1int } else { 0int }
    }
}

/// Number of cells of the whole matrix that hold exactly 1.
pub open spec fn count_ones(a: Seq<int>) -> int {
    count_ones_prefix(a, 400)
}

impl View for Matrix {
    type V = Seq<int>;

    closed spec fn view(&self) -> Seq<int> {
        self.cells@.map_values(|v: i64| v as int)
    }
}

impl Matrix {
    /// The matrix holds exactly its 400 cells.
    pub open spec fn wf(&self) -> bool {
        self@.len() == 400
    }

    /// A matrix with every cell zero.
    pub fn zeros() -> (r: Matrix)
        ensures
            r.wf(),
            r@ == zero_matrix(),
    {
        let mut cells: Vec<i64> = Vec::new();
        let mut k: usize = 0;
        while k < 400
            invariant
                k <= 400,
                cells@.len() == k,
                forall|j: int| 0 <= j < k ==> #[trigger] cells@[j] == 0i64,
            decreases 400 - k,
        {
            cells.push(0);
            k = k + 1;
        }
        let r = Matrix { cells };
        proof {
            assert(r@ =~= zero_matrix());
        }
        r
    }

    /// A matrix made of the given 400 cells, row-major.
    pub fn from_cells(cells: Vec<i64>) -> (r: Matrix)
        requires
            cells@.len() == 400,
        ensures
            r.wf(),
            r@.len() == 400,
            forall|k: int| 0 <= k < 400 ==> #[trigger] r@[k] == cells@[k] as int,
    {
        Matrix { cells }
    }

    /// Read cell `k` of the row-major order.
    pub fn at(&self, k: usize) -> (r: i64)
        requires
            self.wf(),
            k < 400,
        ensures
            r as int == self@[k as int],
    {
        self.cells[k]
    }

    /// Read cell `(x, y)`.
    pub fn get(&self, x: usize, y: usize) -> (r: i64)
        requires
            self.wf(),
            x < 20,
            y < 20,
        ensures
            r as int == self@[x * 20 + y],
    {
        self.cells[x * 20 + y]
    }

    /// Write cell `(x, y)`.
    pub fn set(&mut self, x: usize, y: usize, v: i64)
        requires
            old(self).wf(),
            x < 20,
            y < 20,
        ensures
            final(self).wf(),
            final(self)@ == old(self)@.update((x * 20 + y) as int, v as int),
    {
        self.cells[x * 20 + y] = v;
        proof {
            assert(self@ =~= old(self)@.update((x * 20 + y) as int, v as int));
        }
    }

    /// Element-wise sum, used by the perceptron reward update.
    pub fn plus(&self, other: &Matrix) -> (r: Matrix)
        requires
            self.wf(),
            other.wf(),
            forall|k: int|
                0 <= k < 400 ==> i64::MIN <= #[trigger] (self@[k] + other@[k]) <= i64::MAX,
        ensures
            r.wf(),
            r@ == mat_plus(self@, other@),
    {
        let mut cells: Vec<i64> = Vec::new();
        let mut k: usize = 0;
        while k < 400
            invariant
                k <= 400,
                cells@.len() == k,
                self.wf(),
                other.wf(),
                forall|j: int|
                    0 <= j < 400 ==> i64::MIN <= #[trigger] (self@[j] + other@[j]) <= i64::MAX,
                forall|j: int| 0 <= j < k ==> cells@[j] as int == #[trigger] (self@[j] + other@[j]),
            decreases 400 - k,
        {
            proof {
                assert(self@[k as int] == self.cells@[k as int] as int);
                assert(other@[k as int] == other.cells@[k as int] as int);
            }
            let v = self.cells[k] + other.cells[k];
            cells.push(v);
            k = k + 1;
        }
        let r = Matrix { cells };
        proof {
            assert(r@ =~= mat_plus(self@, other@));
        }
        r
    }

    /// Element-wise difference, used by the perceptron penalty update.
    pub fn minus(&self, other: &Matrix) -> (r: Matrix)
        requires
            self.wf(),
            other.wf(),
            forall|k: int|
                0 <= k < 400 ==> i64::MIN <= #[trigger] (self@[k] - other@[k]) <= i64::MAX,
        ensures
            r.wf(),
            r@ == mat_minus(self@, other@),
    {
        let mut cells: Vec<i64> = Vec::new();
        let mut k: usize = 0;
        while k < 400
            invariant
                k <= 400,
                cells@.len() == k,
                self.wf(),
                other.wf(),
                forall|j: int|
                    0 <= j < 400 ==> i64::MIN <= #[trigger] (self@[j] - other@[j]) <= i64::MAX,
                forall|j: int| 0 <= j < k ==> cells@[j] as int == #[trigger] (self@[j] - other@[j]),
            decreases 400 - k,
        {
            proof {
                assert(self@[k as int] == self.cells@[k as int] as int);
                assert(other@[k as int] == other.cells@[k as int] as int);
            }
            let v = self.cells[k] - other.cells[k];
            cells.push(v);
            k = k + 1;
        }
        let r = Matrix { cells };
        proof {
            assert(r@ =~= mat_minus(self@, other@));
        }
        r
    }

    /// Number of cells holding exactly 1, e.g. the area of a mask.
    pub fn ones(&self) -> (r: u64)
        requires
            self.wf(),
        ensures
            r as int == count_ones(self@),
    {
        let mut count: u64 = 0;
        let mut k: usize = 0;
        while k < 400
            invariant
                k <= 400,
                self.wf(),
                count as int == count_ones_prefix(self@, k as nat),
                count <= k,
            decreases 400 - k,
        {
            proof {
                lemma_count_ones_prefix_bound(self@, (k + 1) as nat);
            }
            if self.cells[k] == 1 {
                count = count + 1;
            }
            k = k + 1;
        }
        count
    }
}

/// The count of ones among the first `n` cells lies in `[0, n]`.
proof fn lemma_count_ones_prefix_bound(a: Seq<int>, n: nat)
    ensures
        0 <= count_ones_prefix(a, n) <= n,
    decreases n,
{
    if n > 0 {
        lemma_count_ones_prefix_bound(a, (n - 1) as nat);
    }
}

/// A dot-product prefix of cells bounded by `ba` and `bb` is itself
/// bounded by `n * ba * bb`.
pub proof fn lemma_dot_prefix_bound(a: Seq<int>, b: Seq<int>, n: nat, ba: int, bb: int)
    requires
        n <= 400,
        ba >= 0,
        bb >= 0,
        forall|k: int| 0 <= k < 400 ==> -ba <= #[trigger] a[k] <= ba,
        forall|k: int| 0 <= k < 400 ==> -bb <= #[trigger] b[k] <= bb,
    ensures
        -(n * ba * bb) <= dot_prefix(a, b, n) <= n * ba * bb,
    decreases n,
{
    if n == 0 {
    } else {
        lemma_dot_prefix_bound(a, b, (n - 1) as nat, ba, bb);
        assert(-(ba * bb) <= a[n - 1] * b[n - 1] <= ba * bb) by (nonlinear_arith)
            requires
                -ba <= a[n - 1] <= ba,
                -bb <= b[n - 1] <= bb,
                ba >= 0,
                bb >= 0,
        ;
        assert((n - 1) * ba * bb + ba * bb == n * ba * bb) by (nonlinear_arith);
    }
}

proof fn lemma_dot_prefix_plus_left(a: Seq<int>, b: Seq<int>, w: Seq<int>, n: nat)
    requires
        n <= 400,
    ensures
        dot_prefix(mat_plus(a, b), w, n) == dot_prefix(a, w, n) + dot_prefix(b, w, n),
    decreases n,
{
    if n > 0 {
        lemma_dot_prefix_plus_left(a, b, w, (n - 1) as nat);
        assert((a[n - 1] + b[n - 1]) * w[n - 1] == a[n - 1] * w[n - 1] + b[n - 1] * w[n - 1])
            by (nonlinear_arith);
    }
}

proof fn lemma_dot_prefix_plus_right(a: Seq<int>, w1: Seq<int>, w2: Seq<int>, n: nat)
    requires
        n <= 400,
    ensures
        dot_prefix(a, mat_plus(w1, w2), n) == dot_prefix(a, w1, n) + dot_prefix(a, w2, n),
    decreases n,
{
    if n > 0 {
        lemma_dot_prefix_plus_right(a, w1, w2, (n - 1) as nat);
        assert(a[n - 1] * (w1[n - 1] + w2[n - 1]) == a[n - 1] * w1[n - 1] + a[n - 1] * w2[n - 1])
            by (nonlinear_arith);
    }
}

/// The score is linear in the shape: scoring the element-wise sum of
/// two shapes equals the sum of their scores.
pub proof fn lemma_dot_linear_in_shape(a: Seq<int>, b: Seq<int>, w: Seq<int>)
    ensures
        dot(mat_plus(a, b), w) == dot(a, w) + dot(b, w),
{
    lemma_dot_prefix_plus_left(a, b, w, 400);
}

/// The score is linear in the weights: scoring against the element-wise
/// sum of two weight matrices equals the sum of the two scores.
pub proof fn lemma_dot_linear_in_weights(a: Seq<int>, w1: Seq<int>, w2: Seq<int>)
    ensures
        dot(a, mat_plus(w1, w2)) == dot(a, w1) + dot(a, w2),
{
    lemma_dot_prefix_plus_right(a, w1, w2, 400);
}

/// Every score against the all-zero weight matrix is zero.
pub proof fn lemma_dot_zero(a: Seq<int>)
    ensures
        dot(a, zero_matrix()) == 0,
{
    lemma_dot_prefix_zero(a, 400);
}

proof fn lemma_dot_prefix_zero(a: Seq<int>, n: nat)
    requires
        n <= 400,
    ensures
        dot_prefix(a, zero_matrix(), n) == 0,
    decreases n,
{
    if n > 0 {
        lemma_dot_prefix_zero(a, (n - 1) as nat);
    }
}

/// The exact inner product of two matrices with bounded cells, the
/// score of the classifier core.
pub fn score(shape: &Matrix, weights: &Matrix) -> (r: i64)
    requires
        shape.wf(),
        weights.wf(),
        bounded(shape@, SHAPE_BOUND as int),
        bounded(weights@, CELL_BOUND as int),
    ensures
        r as int == dot(shape@, weights@),
{
    let mut acc: i64 = 0;
    let mut k: usize = 0;
    proof {
        lemma_dot_prefix_bound(shape@, weights@, 0, SHAPE_BOUND as int, CELL_BOUND as int);
    }
    while k < 400
        invariant
            k <= 400,
            shape.wf(),
            weights.wf(),
            bounded(shape@, SHAPE_BOUND as int),
            bounded(weights@, CELL_BOUND as int),
            acc as int == dot_prefix(shape@, weights@, k as nat),
        decreases 400 - k,
    {
        proof {
            lemma_dot_prefix_bound(shape@, weights@, k as nat, SHAPE_BOUND as int,
                CELL_BOUND as int);
            lemma_dot_prefix_bound(shape@, weights@, (k + 1) as nat, SHAPE_BOUND as int,
                CELL_BOUND as int);
            assert(-(SHAPE_BOUND as int * CELL_BOUND as int) <= shape@[k as int] * weights@[
                k as int] <= SHAPE_BOUND as int * CELL_BOUND as int) by (nonlinear_arith)
                requires
                    -(SHAPE_BOUND as int) <= shape@[k as int] <= SHAPE_BOUND as int,
                    -(CELL_BOUND as int) <= weights@[k as int] <= CELL_BOUND as int,
            ;
        }
        let p = cell_product(shape.cells[k], weights.cells[k]);
        acc = acc + p;
        k = k + 1;
    }
    acc
}

/// Product of one shape cell and one weight cell.
fn cell_product(a: i64, b: i64) -> (r: i64)
    requires
        i64::MIN <= a * b <= i64::MAX,
    ensures
        r as int == a * b,
{
    a * b
}

} // verus!
