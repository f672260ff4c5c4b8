use vstd::prelude::*;
use vstd::string::StringExecFns;

use crate::Error;
use crate::render::int_str;
use crate::render::i64_to_string;
use crate::vector::{dot_fits, dot_prefix, dot_produc, Vector};

verus! {

/// A dense matrix: a flat row-major buffer together with its row and column
/// counts.  Element `(i, j)` lives at linear index `i * cols + j`.
#[derive(Debug)]
pub struct Matrix {
    pub data: Vec<i64>,
    pub rows: usize,
    pub cols: usize,
}

/// One unit of work for a multiplication: the linear index of an output cell
/// together with the row of the left operand and the gathered column of the
/// right operand whose dot product fills that cell.
pub struct MsgInput {
    pub idx: usize,
    pub rows: Vector,
    pub cols: Vector,
}

impl MsgInput {
    /// Packs an output-cell index with its row and column operands.
    pub fn new(idx: usize, rows: Vector, cols: Vector) -> (m: MsgInput)
        ensures
            m.idx == idx,
            m.rows@ == rows@,
            m.cols@ == cols@,
    {
        MsgInput { idx, rows, cols }
    }
}

/// One finished unit of work: the scalar value destined for the output cell
/// at linear index `idx`.
pub struct MsgOutput {
    pub idx: usize,
    pub value: i64,
}

impl Matrix {
    /// The buffer length agrees with the shape.  Every matrix this library
    /// hands out satisfies it, and every operation expects it.
    pub open spec fn wf(self) -> bool {
        self.data@.len() == self.rows * self.cols
    }

    /// Element `(i, j)` under the row-major layout.
    pub open spec fn entry(self, i: int, j: int) -> i64
        recommends
            self.wf(),
            0 <= i < self.rows,
            0 <= j < self.cols,
    {
        self.data@[i * self.cols + j]
    }

    /// Constructs a matrix from a flat row-major buffer, rejecting a buffer
    /// whose length disagrees with `rows * cols`.
    pub fn new(data: Vec<i64>, rows: usize, cols: usize) -> (r: Result<Matrix, Error>)
        ensures
            match r {
                Ok(m) => {
                    &&& data@.len() == rows * cols
                    &&& m.data@ == data@
                    &&& m.rows == rows
                    &&& m.cols == cols
                    &&& m.wf()
                },
                Err(e) => {
                    &&& data@.len() != rows * cols
                    &&& e == Error::BufferLengthInvariantViolation
                },
            },
    {
        let len = data.len();
        match rows.checked_mul(cols) {
            Some(n) => {
                if n == len {
                    Ok(Matrix { data, rows, cols })
                } else {
                    Err(Error::BufferLengthInvariantViolation)
                }
            },
            None => Err(Error::BufferLengthInvariantViolation),
        }
    }
}

/// The rendering of the first `j` elements of row `i`, joined by single
/// spaces.
pub open spec fn row_prefix_str(m: Matrix, i: int, j: int) -> Seq<char>
    decreases j,
{
    if j <= 0 {
        Seq::empty()
    } else if j == 1 {
        int_str(m.entry(i, 0) as int)
    } else {
        row_prefix_str(m, i, j - 1) + seq![' '] + int_str(m.entry(i, j - 1) as int)
    }
}

/// The rendering of row `i`: its elements joined by single spaces.
pub open spec fn row_str(m: Matrix, i: int) -> Seq<char> {
    row_prefix_str(m, i, m.cols as int)
}

/// The rendering of the first `i` rows, joined by `", "`.
pub open spec fn rows_prefix_str(m: Matrix, i: int) -> Seq<char>
    decreases i,
{
    if i <= 0 {
        Seq::empty()
    } else if i == 1 {
        row_str(m, 0)
    } else {
        rows_prefix_str(m, i - 1) + seq![',', ' '] + row_str(m, i - 1)
    }
}

/// The full rendering of a matrix: rows joined by `", "`, elements within a
/// row joined by a single space, the whole wrapped in braces.
pub open spec fn render_spec(m: Matrix) -> Seq<char> {
    seq!['{'] + rows_prefix_str(m, m.rows as int) + seq!['}']
}

/// What stands between the rendered earlier rows and the row being
/// rendered: nothing before the first row, `", "` before every later one.
spec fn row_sep(i: int) -> Seq<char> {
    if i <= 0 {
        Seq::empty()
    } else {
        seq![',', ' ']
    }
}

impl Matrix {
    /// Renders the matrix as `"{e00 e01 .., e10 e11 .., ...}"`: rows joined
    /// by `", "`, elements within a row joined by a single space, wrapped in
    /// braces.
    pub fn render(&self) -> (s: String)
        requires
            self.wf(),
        ensures
            s@ == render_spec(*self),
    {
        let _total = self.data.len();
        let mut s = String::from_str("{");
        proof {
            reveal_strlit("{");
            assert(s@ =~= seq!['{'] + rows_prefix_str(*self, 0));
        }
        let mut i: usize = 0;
        while i < self.rows
            invariant
                self.wf(),
                self.rows * self.cols <= usize::MAX,
                0 <= i <= self.rows,
                s@ == seq!['{'] + rows_prefix_str(*self, i as int),
            decreases self.rows - i,
        {
            if i > 0 {
                proof {
                    reveal_strlit(", ");
                    assert(", "@ =~= seq![',', ' ']);
                }
                s.append(", ");
            }
            proof {
                assert(s@ =~= seq!['{'] + rows_prefix_str(*self, i as int) + row_sep(i as int)
                    + row_prefix_str(*self, i as int, 0));
            }
            let mut j: usize = 0;
            while j < self.cols
                invariant
                    self.wf(),
                    self.rows * self.cols <= usize::MAX,
                    0 <= i < self.rows,
                    0 <= j <= self.cols,
                    s@ == seq!['{'] + rows_prefix_str(*self, i as int) + row_sep(i as int)
                        + row_prefix_str(*self, i as int, j as int),
                decreases self.cols - j,
            {
                if j > 0 {
                    proof {
                        reveal_strlit(" ");
                        assert(" "@ =~= seq![' ']);
                    }
                    s.append(" ");
                }
                proof {
                    lemma_row_major_bound(i as int, j as int, i as int + 1, self.cols as int);
                    lemma_mul_mono(i as int + 1, self.rows as int, self.cols as int);
                }
                let e = self.data[i * self.cols + j];
                let t = i64_to_string(e);
                s.append(t.as_str());
                proof {
                    assert(e == self.entry(i as int, j as int));
                    if j == 0 {
                        assert(row_prefix_str(*self, i as int, 1) == int_str(
                            self.entry(i as int, 0) as int,
                        ));
                    }
                    assert(s@ =~= seq!['{'] + rows_prefix_str(*self, i as int) + row_sep(i as int)
                        + row_prefix_str(*self, i as int, j as int + 1));
                }
                j = j + 1;
            }
            proof {
                if i == 0 {
                    assert(rows_prefix_str(*self, 1) == row_str(*self, 0));
                }
                assert(s@ =~= seq!['{'] + rows_prefix_str(*self, i as int + 1));
            }
            i = i + 1;
        }
        proof {
            reveal_strlit("}");
            assert("}"@ =~= seq!['}']);
        }
        s.append("}");
        proof {
            assert(s@ =~= render_spec(*self));
        }
        s
    }
}

/// Row `i` of `a` as the sequence its work items carry.
pub open spec fn row_seq(a: Matrix, i: int) -> Seq<i64> {
    Seq::new(a.cols as nat, |t: int| a.entry(i, t))
}

/// Column `j` of `b` as the sequence its work items carry: the strided
/// gather of every `cols`-th element starting at offset `j`.
pub open spec fn col_seq(b: Matrix, j: int) -> Seq<i64> {
    Seq::new(b.rows as nat, |t: int| b.entry(t, j))
}

/// The first `t` terms of the defining sum of output cell `(i, j)`:
/// `A[i][0]*B[0][j] + ... + A[i][t-1]*B[t-1][j]`.
pub open spec fn cell_sum(a: Matrix, b: Matrix, i: int, j: int, t: int) -> int
    decreases t,
{
    if t <= 0 {
        0
    } else {
        cell_sum(a, b, i, j, t - 1) + a.entry(i, t - 1) * b.entry(t - 1, j)
    }
}

/// The full defining sum of output cell `(i, j)`: `sum over t of
/// A[i][t] * B[t][j]`.
pub open spec fn product_cell(a: Matrix, b: Matrix, i: int, j: int) -> int {
    cell_sum(a, b, i, j, a.cols as int)
}

/// `c` is the product of `a` and `b`: it has `a`'s row count and `b`'s
/// column count, and each of its cells carries the defining sum.
pub open spec fn is_product(a: Matrix, b: Matrix, c: Matrix) -> bool {
    &&& c.wf()
    &&& c.rows == a.rows
    &&& c.cols == b.cols
    &&& forall|i: int, j: int|
        0 <= i < a.rows && 0 <= j < b.cols ==> c.entry(i, j) == product_cell(a, b, i, j)
}

/// Machine limits under which a multiplication can run: the output buffer
/// length fits in `usize`, and every cell's dot product stays within `i64`.
pub open spec fn multiply_fits(a: Matrix, b: Matrix) -> bool {
    &&& a.rows * b.cols <= usize::MAX
    &&& forall|i: int, j: int|
        0 <= i < a.rows && 0 <= j < b.cols ==> dot_fits(
            #[trigger] row_seq(a, i),
            #[trigger] col_seq(b, j),
        )
}

proof fn lemma_row_major_bound(r: int, c: int, i: int, cols: int)
    by (nonlinear_arith)
    requires
        0 <= r < i,
        0 <= c < cols,
    ensures
        r * cols + c < i * cols,
        0 <= r * cols + c,
{
}

proof fn lemma_mul_mono(i: int, rows: int, cols: int)
    by (nonlinear_arith)
    requires
        0 <= i <= rows,
        0 <= cols,
    ensures
        i * cols <= rows * cols,
{
}

proof fn lemma_mul_step(i: int, cols: int)
    by (nonlinear_arith)
    ensures
        (i + 1) * cols == i * cols + cols,
{
}

/// `dot_prefix` over a row and a gathered column is the defining cell sum:
/// the two sequences agree elementwise with the matrix entries.
proof fn lemma_dot_prefix_is_cell_sum(a: Matrix, b: Matrix, i: int, j: int, t: int)
    requires
        0 <= t <= a.cols,
        a.cols == b.rows,
    ensures
        dot_prefix(row_seq(a, i), col_seq(b, j), t) == cell_sum(a, b, i, j, t),
    decreases t,
{
    if t > 0 {
        lemma_dot_prefix_is_cell_sum(a, b, i, j, t - 1);
    }
}

/// Copies row `i` of `a` out of the flat buffer as a contiguous vector.
pub fn extract_row(a: &Matrix, i: usize) -> (v: Vector)
    requires
        a.wf(),
        i < a.rows,
    ensures
        v@ == row_seq(*a, i as int),
{
    let _total = a.data.len();
    let mut d: Vec<i64> = Vec::new();
    let mut t: usize = 0;
    while t < a.cols
        invariant
            a.wf(),
            i < a.rows,
            a.rows * a.cols <= usize::MAX,
            0 <= t <= a.cols,
            d@.len() == t,
            forall|u: int| 0 <= u < t ==> d@[u] == a.entry(i as int, u),
        decreases a.cols - t,
    {
        proof {
            lemma_row_major_bound(i as int, t as int, i as int + 1, a.cols as int);
            lemma_mul_mono(i as int + 1, a.rows as int, a.cols as int);
        }
        d.push(a.data[i * a.cols + t]);
        t = t + 1;
    }
    let v = Vector::new(d);
    proof {
        assert(v@ =~= row_seq(*a, i as int));
    }
    v
}

/// Gathers column `j` of `b` into a contiguous vector: elements at offsets
/// `j, j + cols, j + 2*cols, ...`, one per row.
pub fn extract_col(b: &Matrix, j: usize) -> (v: Vector)
    requires
        b.wf(),
        j < b.cols,
    ensures
        v@ == col_seq(*b, j as int),
{
    let _total = b.data.len();
    let mut d: Vec<i64> = Vec::new();
    let mut t: usize = 0;
    while t < b.rows
        invariant
            b.wf(),
            j < b.cols,
            b.rows * b.cols <= usize::MAX,
            0 <= t <= b.rows,
            d@.len() == t,
            forall|u: int| 0 <= u < t ==> d@[u] == b.entry(u, j as int),
        decreases b.rows - t,
    {
        proof {
            lemma_row_major_bound(t as int, j as int, t as int + 1, b.cols as int);
            lemma_mul_mono(t as int + 1, b.rows as int, b.cols as int);
        }
        d.push(b.data[t * b.cols + j]);
        t = t + 1;
    }
    let v = Vector::new(d);
    proof {
        assert(v@ =~= col_seq(*b, j as int));
    }
    v
}

/// Multiplies `a` by `b`.
///
/// Operands whose inner dimensions disagree are rejected with
/// `InvalidDimensions` before any work item is built; otherwise one work
/// item per output cell is formed from a row copy and a strided column
/// gather, its dot product is taken, and the scalar lands at the cell's
/// linear index.  The result is exactly the elementwise triple-loop product,
/// with `a`'s row count and `b`'s column count.
pub fn multiply(a: &Matrix, b: &Matrix) -> (r: Result<Matrix, Error>)
    requires
        a.wf(),
        b.wf(),
        a.cols == b.rows ==> multiply_fits(*a, *b),
    ensures
        match r {
            Ok(c) => a.cols == b.rows && is_product(*a, *b, c),
            Err(e) => a.cols != b.rows && e == Error::InvalidDimensions,
        },
{
    if a.cols != b.rows {
        return Err(Error::InvalidDimensions);
    }
    let mut data: Vec<i64> = Vec::new();
    let mut i: usize = 0;
    while i < a.rows
        invariant
            a.wf(),
            b.wf(),
            a.cols == b.rows,
            multiply_fits(*a, *b),
            0 <= i <= a.rows,
            data@.len() == i * b.cols,
            forall|r: int, c: int|
                0 <= r < i && 0 <= c < b.cols
                    ==> data@[r * b.cols + c] == product_cell(*a, *b, r, c),
        decreases a.rows - i,
    {
        let mut j: usize = 0;
        while j < b.cols
            invariant
                a.wf(),
                b.wf(),
                a.cols == b.rows,
                multiply_fits(*a, *b),
                0 <= i < a.rows,
                0 <= j <= b.cols,
                data@.len() == i * b.cols + j,
                forall|r: int, c: int|
                    0 <= r < i && 0 <= c < b.cols
                        ==> data@[r * b.cols + c] == product_cell(*a, *b, r, c),
                forall|c: int|
                    0 <= c < j ==> data@[i * b.cols + c] == product_cell(*a, *b, i as int, c),
            decreases b.cols - j,
        {
            proof {
                lemma_row_major_bound(i as int, j as int, i as int + 1, b.cols as int);
                lemma_mul_mono(i as int + 1, a.rows as int, b.cols as int);
            }
            let idx = i * b.cols + j;
            let row = extract_row(a, i);
            let col = extract_col(b, j);
            let input = MsgInput::new(idx, row, col);
            let MsgInput { idx: _, rows: row_v, cols: col_v } = input;
            let value = match dot_produc(row_v, col_v) {
                Ok(v) => v,
                Err(e) => {
                    return Err(e);
                },
            };
            proof {
                lemma_dot_prefix_is_cell_sum(*a, *b, i as int, j as int, a.cols as int);
                assert forall|r: int, c: int|
                    0 <= r < i && 0 <= c < b.cols implies #[trigger] (r * b.cols + c) < i * b.cols
                    + j by {
                    lemma_row_major_bound(r, c, i as int, b.cols as int);
                }
            }
            data.push(value);
            j = j + 1;
        }
        proof {
            lemma_mul_step(i as int, b.cols as int);
        }
        i = i + 1;
    }
    let c = Matrix { data, rows: a.rows, cols: b.cols };
    proof {
        assert forall|i0: int, j0: int|
            0 <= i0 < a.rows && 0 <= j0 < b.cols implies c.entry(i0, j0) == product_cell(
            *a,
            *b,
            i0,
            j0,
        ) by {
            lemma_row_major_bound(i0, j0, i0 + 1, b.cols as int);
            lemma_mul_mono(i0 + 1, a.rows as int, b.cols as int);
        }
    }
    Ok(c)
}

/// The product of two matrices is one value: any two matrices that both
/// satisfy the product specification for the same operands carry identical
/// shape and identical buffers.  Repeated multiplications of the same
/// operands therefore return identical output, however the underlying work
/// is scheduled.
pub proof fn lemma_product_unique(a: Matrix, b: Matrix, c1: Matrix, c2: Matrix)
    requires
        is_product(a, b, c1),
        is_product(a, b, c2),
    ensures
        c1.rows == c2.rows,
        c1.cols == c2.cols,
        c1.data@ == c2.data@,
{
    assert forall|k: int| 0 <= k < c1.data@.len() implies c1.data@[k] == c2.data@[k] by {
        let cols = b.cols as int;
        let i = k / cols;
        let j = k % cols;
        assert(cols > 0) by {
            if cols <= 0 {
                assert(a.rows * b.cols == 0) by (nonlinear_arith)
                    requires b.cols == 0, a.rows >= 0;
            }
        }
        assert(0 <= i < a.rows && 0 <= j < cols && i * cols + j == k) by (nonlinear_arith)
            requires cols > 0, 0 <= k < a.rows * cols, i == k / cols, j == k % cols;
        assert(c1.entry(i, j) == c2.entry(i, j));
    }
    assert(c1.data@ =~= c2.data@);
}

/// The identity matrix of a given size: square, ones on the diagonal,
/// zeroes elsewhere.
pub open spec fn is_identity(m: Matrix) -> bool {
    &&& m.wf()
    &&& m.rows == m.cols
    &&& forall|i: int, j: int|
        0 <= i < m.rows && 0 <= j < m.cols
            ==> m.entry(i, j) == (if i == j { 1i64 } else { 0i64 })
}

proof fn lemma_cell_sum_identity_right(a: Matrix, idm: Matrix, i: int, j: int, t: int)
    requires
        a.wf(),
        is_identity(idm),
        idm.rows == a.cols,
        0 <= i < a.rows,
        0 <= j < idm.cols,
        0 <= t <= a.cols,
    ensures
        cell_sum(a, idm, i, j, t) == if j < t { a.entry(i, j) as int } else { 0 },
    decreases t,
{
    if t > 0 {
        lemma_cell_sum_identity_right(a, idm, i, j, t - 1);
        assert(cell_sum(a, idm, i, j, t) == cell_sum(a, idm, i, j, t - 1) + a.entry(i, t - 1)
            * idm.entry(t - 1, j));
        assert(idm.entry(t - 1, j) == if t - 1 == j { 1i64 } else { 0i64 });
    }
}

proof fn lemma_cell_sum_identity_left(idm: Matrix, a: Matrix, i: int, j: int, t: int)
    requires
        a.wf(),
        is_identity(idm),
        idm.cols == a.rows,
        0 <= i < idm.rows,
        0 <= j < a.cols,
        0 <= t <= idm.cols,
    ensures
        cell_sum(idm, a, i, j, t) == if i < t { a.entry(i, j) as int } else { 0 },
    decreases t,
{
    if t > 0 {
        lemma_cell_sum_identity_left(idm, a, i, j, t - 1);
        assert(cell_sum(idm, a, i, j, t) == cell_sum(idm, a, i, j, t - 1) + idm.entry(i, t - 1)
            * a.entry(t - 1, j));
        assert(idm.entry(i, t - 1) == if i == t - 1 { 1i64 } else { 0i64 });
    }
}

/// Multiplying on the right by the identity matrix of matching size gives
/// back the left operand: `a` itself satisfies the product specification of
/// `a` and the identity.
pub proof fn lemma_multiply_identity_right(a: Matrix, idm: Matrix)
    requires
        a.wf(),
        is_identity(idm),
        idm.rows == a.cols,
    ensures
        is_product(a, idm, a),
{
    assert forall|i: int, j: int|
        0 <= i < a.rows && 0 <= j < idm.cols implies a.entry(i, j) == product_cell(
        a,
        idm,
        i,
        j,
    ) by {
        lemma_cell_sum_identity_right(a, idm, i, j, a.cols as int);
    }
}

/// Multiplying on the left by the identity matrix of matching size gives
/// back the right operand: `a` itself satisfies the product specification of
/// the identity and `a`.
pub proof fn lemma_multiply_identity_left(idm: Matrix, a: Matrix)
    requires
        a.wf(),
        is_identity(idm),
        idm.cols == a.rows,
    ensures
        is_product(idm, a, a),
{
    assert forall|i: int, j: int|
        0 <= i < idm.rows && 0 <= j < a.cols implies a.entry(i, j) == product_cell(
        idm,
        a,
        i,
        j,
    ) by {
        lemma_cell_sum_identity_left(idm, a, i, j, idm.cols as int);
    }
}

} // verus!
