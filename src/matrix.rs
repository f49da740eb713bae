use crate::vector::{dot, dot_fits, dot_fits_exec, dot_prefix, dot_product, step_fits, Vector};
use vstd::arithmetic::div_mod::{lemma_fundamental_div_mod, lemma_fundamental_div_mod_converse};
use vstd::prelude::*;

verus! {

/// How many workers a product's tasks are spread over.
pub const NUM_THREADS: usize = 4;

/// The inner dimensions of two operands disagree.
#[derive(Debug, Clone, Copy, PartialEq, Eq, Structural)]
pub struct DimensionMismatch;

/// A dense matrix stored row by row: the element at row `i`, column `j` sits at
/// `i * cols + j`.
pub struct Matrix {
    data: Vec<i64>,
    rows: usize,
    cols: usize,
}

impl View for Matrix {
    type V = Seq<i64>;

    closed spec fn view(&self) -> Seq<i64> {
        self.data@
    }
}

proof fn lemma_cell_in_bounds(i: int, j: int, rows: int, cols: int)
    requires
        0 <= i < rows,
        0 <= j < cols,
    ensures
        0 <= i * cols + j < rows * cols,
        (i + 1) * cols <= rows * cols,
{
    assert(0 <= i * cols + j < rows * cols) by (nonlinear_arith)
        requires
            0 <= i < rows,
            0 <= j < cols,
    ;
    assert((i + 1) * cols <= rows * cols) by (nonlinear_arith)
        requires
            0 <= i < rows,
            0 <= j < cols,
    ;
}

proof fn lemma_flat_index(i: int, j: int, cols: int)
    requires
        0 <= i,
        0 <= j < cols,
    ensures
        (i * cols + j) / cols == i,
        (i * cols + j) % cols == j,
{
    lemma_fundamental_div_mod_converse(i * cols + j, cols, i, j);
}

impl Matrix {
    pub closed spec fn nrows(&self) -> nat {
        self.rows as nat
    }

    pub closed spec fn ncols(&self) -> nat {
        self.cols as nat
    }

    /// The storage holds exactly one element per cell.
    pub open spec fn wf(&self) -> bool {
        self@.len() == self.nrows() * self.ncols()
    }

    pub open spec fn entry(&self, i: int, j: int) -> i64 {
        self@[i * self.ncols() + j]
    }

    pub open spec fn row_seq(&self, i: int) -> Seq<i64> {
        Seq::new(self.ncols(), |k: int| self.entry(i, k))
    }

    pub open spec fn col_seq(&self, j: int) -> Seq<i64> {
        Seq::new(self.nrows(), |k: int| self.entry(k, j))
    }

    /// Builds a matrix from its elements in row-major order.
    pub fn new(rows: usize, cols: usize, data: Vec<i64>) -> (r: Matrix)
        requires
            data@.len() == rows * cols,
        ensures
            r.wf(),
            r.nrows() == rows,
            r.ncols() == cols,
            r@ == data@,
    {
        Matrix { data, rows, cols }
    }

    /// A matrix of the given shape whose cells all hold zero.
    pub fn zeros(rows: usize, cols: usize) -> (r: Matrix)
        requires
            rows * cols <= usize::MAX,
        ensures
            r.wf(),
            r.nrows() == rows,
            r.ncols() == cols,
            r@ == Seq::new((rows * cols) as nat, |k: int| 0i64),
    {
        let n: usize = rows * cols;
        let data = vec![0i64; n];
        assert(data@ =~= Seq::new((rows * cols) as nat, |k: int| 0i64));
        Matrix { data, rows, cols }
    }

    pub fn rows(&self) -> (r: usize)
        ensures
            r == self.nrows(),
    {
        self.rows
    }

    pub fn cols(&self) -> (r: usize)
        ensures
            r == self.ncols(),
    {
        self.cols
    }

    /// The element at row `i`, column `j`.
    pub fn get(&self, i: usize, j: usize) -> (r: i64)
        requires
            self.wf(),
            i < self.nrows(),
            j < self.ncols(),
        ensures
            r == self.entry(i as int, j as int),
    {
        let len: usize = self.data.len();
        proof {
            lemma_cell_in_bounds(i as int, j as int, self.rows as int, self.cols as int);
        }
        let k: usize = i * self.cols + j;
        assert(k < len);
        self.data[k]
    }

    /// A copy of row `i`.
    pub fn row(&self, i: usize) -> (r: Vector)
        requires
            self.wf(),
            i < self.nrows(),
        ensures
            r@ == self.row_seq(i as int),
    {
        let mut data: Vec<i64> = Vec::with_capacity(self.cols);
        let len: usize = self.data.len();
        let mut k: usize = 0;
        while k < self.cols
            invariant
                self.wf(),
                len == self@.len(),
                i < self.nrows(),
                k <= self.cols,
                data@ =~= self.row_seq(i as int).subrange(0, k as int),
            decreases self.cols - k,
        {
            proof {
                lemma_cell_in_bounds(i as int, k as int, self.rows as int, self.cols as int);
            }
            data.push(self.data[i * self.cols + k]);
            k = k + 1;
        }
        Vector::new(data)
    }

    /// A copy of column `j`, gathered with a stride of one row.
    pub fn col(&self, j: usize) -> (r: Vector)
        requires
            self.wf(),
            j < self.ncols(),
        ensures
            r@ == self.col_seq(j as int),
    {
        let mut data: Vec<i64> = Vec::with_capacity(self.rows);
        let len: usize = self.data.len();
        let mut k: usize = 0;
        while k < self.rows
            invariant
                self.wf(),
                len == self@.len(),
                j < self.ncols(),
                k <= self.rows,
                data@ =~= self.col_seq(j as int).subrange(0, k as int),
            decreases self.rows - k,
        {
            proof {
                lemma_cell_in_bounds(k as int, j as int, self.rows as int, self.cols as int);
            }
            data.push(self.data[k * self.cols + j]);
            k = k + 1;
        }
        Vector::new(data)
    }
}


/// Cell `(i, j)` of the product of `a` and `b`: the sum over `k` of
/// `a[i][k] * b[k][j]`.
pub open spec fn product_entry(a: &Matrix, b: &Matrix, i: int, j: int) -> int {
    dot(a.row_seq(i), b.col_seq(j))
}

/// `c` is the product of `a` (`m x n`) and `b` (`n x p`): it is `m x p` and
/// each of its cells is the matching dot product.
pub open spec fn is_product(a: &Matrix, b: &Matrix, c: &Matrix) -> bool {
    &&& c.wf()
    &&& c.nrows() == a.nrows()
    &&& c.ncols() == b.ncols()
    &&& forall|i: int, j: int|
        0 <= i < a.nrows() && 0 <= j < b.ncols() ==> #[trigger] c.entry(i, j) == product_entry(
            a,
            b,
            i,
            j,
        )
}

/// `e` is the `n x n` identity matrix.
pub open spec fn is_identity(e: &Matrix, n: nat) -> bool {
    &&& e.wf()
    &&& e.nrows() == n
    &&& e.ncols() == n
    &&& forall|i: int, j: int|
        0 <= i < n && 0 <= j < n ==> #[trigger] e.entry(i, j) == if i == j {
            1i64
        } else {
            0i64
        }
}

/// Every cell of the product of `a` and `b` can be accumulated in `i64`.
pub open spec fn product_in_range(a: &Matrix, b: &Matrix) -> bool {
    forall|i: int, j: int|
        0 <= i < a.nrows() && 0 <= j < b.ncols() ==> #[trigger] dot_fits(
            a.row_seq(i),
            b.col_seq(j),
        )
}

/// The work for one output cell: its flattened index, and the row and column
/// whose dot product it holds.
pub struct MsgInput {
    idx: usize,
    row: Vector,
    col: Vector,
}

impl MsgInput {
    pub closed spec fn spec_idx(&self) -> nat {
        self.idx as nat
    }

    pub closed spec fn spec_row(&self) -> Seq<i64> {
        self.row@
    }

    pub closed spec fn spec_col(&self) -> Seq<i64> {
        self.col@
    }

    pub fn new(idx: usize, row: Vector, col: Vector) -> (r: MsgInput)
        ensures
            r.spec_idx() == idx,
            r.spec_row() == row@,
            r.spec_col() == col@,
    {
        MsgInput { idx, row, col }
    }

    pub fn idx(&self) -> (r: usize)
        ensures
            r == self.spec_idx(),
    {
        self.idx
    }
}

/// The value computed for one output cell, tagged with the cell's index.
pub struct MsgOutput {
    idx: usize,
    value: i64,
}

impl MsgOutput {
    pub closed spec fn spec_idx(&self) -> nat {
        self.idx as nat
    }

    pub closed spec fn spec_value(&self) -> i64 {
        self.value
    }

    pub fn new(idx: usize, value: i64) -> (r: MsgOutput)
        ensures
            r.spec_idx() == idx,
            r.spec_value() == value,
    {
        MsgOutput { idx, value }
    }

    pub fn idx(&self) -> (r: usize)
        ensures
            r == self.spec_idx(),
    {
        self.idx
    }

    pub fn value(&self) -> (r: i64)
        ensures
            r == self.spec_value(),
    {
        self.value
    }
}

/// The worker that handles output cell `idx`: assignment is round robin by
/// index and depends on nothing else.
pub fn worker_for(idx: usize) -> (w: usize)
    ensures
        w == idx % NUM_THREADS,
        w < NUM_THREADS,
{
    idx % NUM_THREADS
}

/// How many of the cells `0 .. total` go to worker `w`.
pub open spec fn load(total: nat, w: nat) -> nat
    decreases total,
{
    if total == 0 {
        0
    } else {
        load((total - 1) as nat, w) + if (total - 1) as nat % NUM_THREADS as nat == w {
            1nat
        } else {
            0nat
        }
    }
}

/// Under round-robin assignment of `total` cells, worker `w` receives
/// `total / NUM_THREADS` cells, plus one when `w < total % NUM_THREADS`; so the
/// loads of any two workers differ by at most one.
pub proof fn lemma_round_robin_balance(total: nat, w: nat, v: nat)
    requires
        w < NUM_THREADS,
        v < NUM_THREADS,
    ensures
        load(total, w) == total / NUM_THREADS as nat + if w < total % NUM_THREADS as nat {
            1nat
        } else {
            0nat
        },
        load(total, w) <= load(total, v) + 1,
    decreases total,
{
    if total > 0 {
        lemma_round_robin_balance((total - 1) as nat, w, v);
        lemma_round_robin_balance((total - 1) as nat, v, w);
    }
}

/// The task for output cell `(i, j)` of the product of `a` and `b`.
pub fn task(a: &Matrix, b: &Matrix, i: usize, j: usize) -> (r: MsgInput)
    requires
        a.wf(),
        b.wf(),
        a.ncols() == b.nrows(),
        a.nrows() * b.ncols() <= usize::MAX,
        i < a.nrows(),
        j < b.ncols(),
    ensures
        r.spec_idx() == i * b.ncols() + j,
        r.spec_row() == a.row_seq(i as int),
        r.spec_col() == b.col_seq(j as int),
{
    proof {
        lemma_cell_in_bounds(i as int, j as int, a.nrows() as int, b.ncols() as int);
    }
    let idx: usize = i * b.cols + j;
    MsgInput::new(idx, a.row(i), b.col(j))
}

/// What a worker does with one task: the dot product of its row and column,
/// tagged with the task's index.
pub fn compute(input: MsgInput) -> (r: MsgOutput)
    requires
        input.spec_row().len() == input.spec_col().len(),
        dot_fits(input.spec_row(), input.spec_col()),
    ensures
        r.spec_idx() == input.spec_idx(),
        r.spec_value() == dot(input.spec_row(), input.spec_col()),
{
    let MsgInput { idx, row, col } = input;
    match dot_product(row, col) {
        Ok(value) => MsgOutput::new(idx, value),
        Err(_) => {
            proof {
                assert(false);
            }
            MsgOutput::new(idx, 0)
        },
    }
}

impl Matrix {
    /// Writes a result into the cell it is tagged with.
    pub fn place(&mut self, out: MsgOutput)
        requires
            old(self).wf(),
            out.spec_idx() < old(self)@.len(),
        ensures
            final(self).wf(),
            final(self).nrows() == old(self).nrows(),
            final(self).ncols() == old(self).ncols(),
            final(self)@ == old(self)@.update(out.spec_idx() as int, out.spec_value()),
    {
        self.data.set(out.idx, out.value);
    }
}


/// Checks the operands' shapes and builds one task per output cell, in
/// row-major order: the task at position `t` is for cell `(t / p, t % p)` of
/// the `m x p` product and carries index `t`.
pub fn plan(a: &Matrix, b: &Matrix) -> (r: Result<Vec<MsgInput>, DimensionMismatch>)
    requires
        a.wf(),
        b.wf(),
        a.nrows() * b.ncols() <= usize::MAX,
    ensures
        r is Err <==> a.ncols() != b.nrows(),
        r matches Ok(ts) ==> {
            &&& ts.len() == a.nrows() * b.ncols()
            &&& forall|t: int|
                0 <= t < ts.len() ==> {
                    &&& (#[trigger] ts[t]).spec_idx() == t
                    &&& ts[t].spec_row() == a.row_seq(t / b.ncols() as int)
                    &&& ts[t].spec_col() == b.col_seq(t % b.ncols() as int)
                }
        },
{
    if a.cols != b.rows {
        return Err(DimensionMismatch);
    }
    let rows = a.rows;
    let cols = b.cols;
    let ghost p = cols as int;
    let mut tasks: Vec<MsgInput> = Vec::new();
    let mut i: usize = 0;
    while i < rows
        invariant
            a.wf(),
            b.wf(),
            a.ncols() == b.nrows(),
            rows == a.nrows(),
            cols == b.ncols(),
            p == cols as int,
            rows * cols <= usize::MAX,
            i <= rows,
            tasks.len() == i * cols,
            forall|t: int|
                0 <= t < tasks.len() ==> {
                    &&& (#[trigger] tasks[t]).spec_idx() == t
                    &&& tasks[t].spec_row() == a.row_seq(t / p)
                    &&& tasks[t].spec_col() == b.col_seq(t % p)
                },
        decreases rows - i,
    {
        let mut j: usize = 0;
        while j < cols
            invariant
                a.wf(),
                b.wf(),
                a.ncols() == b.nrows(),
                rows == a.nrows(),
                cols == b.ncols(),
                p == cols as int,
                rows * cols <= usize::MAX,
                i < rows,
                j <= cols,
                tasks.len() == i * cols + j,
                forall|t: int|
                    0 <= t < tasks.len() ==> {
                        &&& (#[trigger] tasks[t]).spec_idx() == t
                        &&& tasks[t].spec_row() == a.row_seq(t / p)
                        &&& tasks[t].spec_col() == b.col_seq(t % p)
                    },
            decreases cols - j,
        {
            proof {
                lemma_flat_index(i as int, j as int, p);
            }
            let t = task(a, b, i, j);
            tasks.push(t);
            j = j + 1;
        }
        proof {
            assert(i * cols + cols == (i + 1) * cols) by (nonlinear_arith);
        }
        i = i + 1;
    }
    Ok(tasks)
}

/// Multiplies `a` (`m x n`) by `b` (`n x p`): the result is `m x p` and its cell
/// `(i, j)` is the sum over `k` of `a[i][k] * b[k][j]`. Operands whose inner
/// dimensions disagree are a dimension mismatch.
pub fn multiply(a: &Matrix, b: &Matrix) -> (r: Result<Matrix, DimensionMismatch>)
    requires
        a.wf(),
        b.wf(),
        a.nrows() * b.ncols() <= usize::MAX,
        a.ncols() == b.nrows() ==> product_in_range(a, b),
    ensures
        r is Err <==> a.ncols() != b.nrows(),
        r matches Ok(c) ==> is_product(a, b, &c),
{
    if a.cols != b.rows {
        return Err(DimensionMismatch);
    }
    let rows = a.rows;
    let cols = b.cols;
    let ghost p = cols as int;
    let mut result = Matrix::zeros(rows, cols);
    let mut i: usize = 0;
    while i < rows
        invariant
            a.wf(),
            b.wf(),
            a.ncols() == b.nrows(),
            product_in_range(a, b),
            rows == a.nrows(),
            cols == b.ncols(),
            p == cols as int,
            rows * cols <= usize::MAX,
            i <= rows,
            result.wf(),
            result.nrows() == rows,
            result.ncols() == cols,
            forall|t: int|
                0 <= t < i * cols ==> #[trigger] result@[t] == product_entry(a, b, t / p, t % p),
        decreases rows - i,
    {
        let mut j: usize = 0;
        while j < cols
            invariant
                a.wf(),
                b.wf(),
                a.ncols() == b.nrows(),
                product_in_range(a, b),
                rows == a.nrows(),
                cols == b.ncols(),
                p == cols as int,
                rows * cols <= usize::MAX,
                i < rows,
                j <= cols,
                result.wf(),
                result.nrows() == rows,
                result.ncols() == cols,
                forall|t: int|
                    0 <= t < i * cols + j ==> #[trigger] result@[t] == product_entry(
                        a,
                        b,
                        t / p,
                        t % p,
                    ),
            decreases cols - j,
        {
            proof {
                lemma_flat_index(i as int, j as int, p);
                lemma_cell_in_bounds(i as int, j as int, rows as int, cols as int);
                assert(dot_fits(a.row_seq(i as int), b.col_seq(j as int)));
            }
            let t = task(a, b, i, j);
            let out = compute(t);
            result.place(out);
            j = j + 1;
        }
        proof {
            assert(i * cols + cols == (i + 1) * cols) by (nonlinear_arith);
        }
        i = i + 1;
    }
    proof {
        assert forall|i: int, j: int|
            0 <= i < a.nrows() && 0 <= j < b.ncols() implies #[trigger] result.entry(i, j)
            == product_entry(a, b, i, j) by {
            lemma_flat_index(i, j, p);
            lemma_cell_in_bounds(i, j, rows as int, cols as int);
        }
    }
    Ok(result)
}


/// Whether every cell of the product of `a` and `b` can be accumulated in `i64`.
pub fn product_fits(a: &Matrix, b: &Matrix) -> (r: bool)
    requires
        a.wf(),
        b.wf(),
        a.ncols() == b.nrows(),
    ensures
        r == product_in_range(a, b),
{
    let mut i: usize = 0;
    while i < a.rows
        invariant
            a.wf(),
            b.wf(),
            a.ncols() == b.nrows(),
            i <= a.nrows(),
            forall|ii: int, jj: int|
                0 <= ii < i && 0 <= jj < b.ncols() ==> #[trigger] dot_fits(
                    a.row_seq(ii),
                    b.col_seq(jj),
                ),
        decreases a.nrows() - i,
    {
        let row = a.row(i);
        let mut j: usize = 0;
        while j < b.cols
            invariant
                a.wf(),
                b.wf(),
                a.ncols() == b.nrows(),
                i < a.nrows(),
                j <= b.ncols(),
                row@ == a.row_seq(i as int),
                forall|ii: int, jj: int|
                    0 <= ii < i && 0 <= jj < b.ncols() ==> #[trigger] dot_fits(
                        a.row_seq(ii),
                        b.col_seq(jj),
                    ),
                forall|jj: int| 0 <= jj < j ==> #[trigger] dot_fits(a.row_seq(i as int), b.col_seq(jj)),
            decreases b.ncols() - j,
        {
            let col = b.col(j);
            if !dot_fits_exec(&row, &col) {
                return false;
            }
            j = j + 1;
        }
        i = i + 1;
    }
    true
}

impl Matrix {
    /// The `n x n` identity matrix.
    pub fn identity(n: usize) -> (r: Matrix)
        requires
            n * n <= usize::MAX,
        ensures
            is_identity(&r, n as nat),
    {
        let mut data: Vec<i64> = Vec::new();
        let mut t: usize = 0;
        let total: usize = n * n;
        while t < total
            invariant
                total == n * n,
                t <= total,
                data@.len() == t,
                forall|k: int| 0 <= k < t ==> #[trigger] data@[k] == if k / (n as int) == k % (n as int) {
                    1i64
                } else {
                    0i64
                },
            decreases total - t,
        {
            if t / n == t % n {
                data.push(1);
            } else {
                data.push(0);
            }
            t = t + 1;
        }
        let r = Matrix { data, rows: n, cols: n };
        proof {
            assert forall|i: int, j: int| 0 <= i < n && 0 <= j < n implies #[trigger] r.entry(i, j)
                == if i == j { 1i64 } else { 0i64 } by {
                lemma_flat_index(i, j, n as int);
                lemma_cell_in_bounds(i, j, n as int, n as int);
            }
        }
        r
    }

    /// The product `self * rhs`, for operands whose inner dimensions agree.
    pub fn mul(self, rhs: Matrix) -> (r: Matrix)
        requires
            self.wf(),
            rhs.wf(),
            self.ncols() == rhs.nrows(),
            self.nrows() * rhs.ncols() <= usize::MAX,
            product_in_range(&self, &rhs),
        ensures
            is_product(&self, &rhs, &r),
    {
        match multiply(&self, &rhs) {
            Ok(c) => c,
            Err(_) => {
                proof {
                    assert(false);
                }
                Matrix::zeros(0, 0)
            },
        }
    }
}


proof fn lemma_dot_unit_col(r: Seq<i64>, c: Seq<i64>, j: int, k: int)
    requires
        r.len() == c.len(),
        0 <= j < c.len(),
        0 <= k <= c.len(),
        forall|m: int| 0 <= m < c.len() ==> #[trigger] c[m] == if m == j { 1i64 } else { 0i64 },
    ensures
        dot_prefix(r, c, k) == if j < k { r[j] as int } else { 0 },
        forall|n: int| 0 < n <= k ==> #[trigger] step_fits(r, c, n),
    decreases k,
{
    if k > 0 {
        lemma_dot_unit_col(r, c, j, k - 1);
        assert(step_fits(r, c, k));
    }
}

proof fn lemma_dot_unit_row(r: Seq<i64>, c: Seq<i64>, i: int, k: int)
    requires
        r.len() == c.len(),
        0 <= i < r.len(),
        0 <= k <= r.len(),
        forall|m: int| 0 <= m < r.len() ==> #[trigger] r[m] == if m == i { 1i64 } else { 0i64 },
    ensures
        dot_prefix(r, c, k) == if i < k { c[i] as int } else { 0 },
        forall|n: int| 0 < n <= k ==> #[trigger] step_fits(r, c, n),
    decreases k,
{
    if k > 0 {
        lemma_dot_unit_row(r, c, i, k - 1);
        assert(step_fits(r, c, k));
    }
}

/// Multiplying an `n x n` matrix on the right by the identity gives the matrix
/// back, and every cell of that product fits in `i64`.
pub proof fn lemma_identity_right(a: &Matrix, e: &Matrix, n: nat)
    requires
        a.wf(),
        a.nrows() == n,
        a.ncols() == n,
        is_identity(e, n),
    ensures
        product_in_range(a, e),
        forall|i: int, j: int|
            0 <= i < n && 0 <= j < n ==> #[trigger] product_entry(a, e, i, j) == a.entry(i, j),
{
    assert forall|i: int, j: int|
        #![trigger dot_fits(a.row_seq(i), e.col_seq(j))]
        #![trigger product_entry(a, e, i, j)]
        0 <= i < n && 0 <= j < n implies dot_fits(a.row_seq(i), e.col_seq(j))
            && product_entry(a, e, i, j) == a.entry(i, j) by {
        let c = e.col_seq(j);
        assert forall|m: int| 0 <= m < c.len() implies #[trigger] c[m] == if m == j {
            1i64
        } else {
            0i64
        } by {
            assert(e.entry(m, j) == if m == j { 1i64 } else { 0i64 });
        }
        lemma_dot_unit_col(a.row_seq(i), c, j, n as int);
    }
}

/// Multiplying an `n x n` matrix on the left by the identity gives the matrix
/// back, and every cell of that product fits in `i64`.
pub proof fn lemma_identity_left(e: &Matrix, a: &Matrix, n: nat)
    requires
        a.wf(),
        a.nrows() == n,
        a.ncols() == n,
        is_identity(e, n),
    ensures
        product_in_range(e, a),
        forall|i: int, j: int|
            0 <= i < n && 0 <= j < n ==> #[trigger] product_entry(e, a, i, j) == a.entry(i, j),
{
    assert forall|i: int, j: int|
        #![trigger dot_fits(e.row_seq(i), a.col_seq(j))]
        #![trigger product_entry(e, a, i, j)]
        0 <= i < n && 0 <= j < n implies dot_fits(e.row_seq(i), a.col_seq(j))
            && product_entry(e, a, i, j) == a.entry(i, j) by {
        let r = e.row_seq(i);
        assert forall|m: int| 0 <= m < r.len() implies #[trigger] r[m] == if m == i {
            1i64
        } else {
            0i64
        } by {
            assert(e.entry(i, m) == if i == m { 1i64 } else { 0i64 });
        }
        lemma_dot_unit_row(r, a.col_seq(j), i, n as int);
    }
}

/// Two matrices that both meet the description of the product of `a` and `b`
/// are equal: the product depends on the operands alone.
pub proof fn lemma_product_unique(a: &Matrix, b: &Matrix, c1: &Matrix, c2: &Matrix)
    requires
        is_product(a, b, c1),
        is_product(a, b, c2),
    ensures
        c1.nrows() == c2.nrows(),
        c1.ncols() == c2.ncols(),
        c1@ == c2@,
{
    let p = b.ncols() as int;
    assert forall|t: int| 0 <= t < c1@.len() implies c1@[t] == c2@[t] by {
        if p > 0 {
            let i = t / p;
            let j = t % p;
            lemma_fundamental_div_mod(t, p);
            assert(0 <= i < a.nrows()) by (nonlinear_arith)
                requires
                    0 <= t < a.nrows() * p,
                    p > 0,
                    t == p * i + j,
                    0 <= j < p,
            ;
            assert(t == i * p + j) by (nonlinear_arith)
                requires
                    t == p * i + j,
            ;
            assert(c1.entry(i, j) == c2.entry(i, j));
        } else {
            assert(c1@.len() == 0) by (nonlinear_arith)
                requires
                    c1@.len() == c1.nrows() * c1.ncols(),
                    c1.ncols() == 0,
            ;
        }
    }
    assert(c1@ =~= c2@);
}

} // verus!
