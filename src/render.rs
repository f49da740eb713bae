use crate::matrix::Matrix;
use vstd::prelude::*;
use vstd::string::StringExecFns;

verus! {

pub open spec fn digit(d: int) -> char {
    seq!['0', '1', '2', '3', '4', '5', '6', '7', '8', '9'][d]
}

/// The decimal digits of `n`, most significant first, without leading zeros.
pub open spec fn digits(n: nat) -> Seq<char>
    decreases n,
{
    if n < 10 {
        seq![digit(n as int)]
    } else {
        digits(n / 10).push(digit((n % 10) as int))
    }
}

/// `x` written in decimal, with a leading `-` when negative.
pub open spec fn decimal(x: int) -> Seq<char> {
    if x < 0 {
        seq!['-'] + digits((-x) as nat)
    } else {
        digits(x as nat)
    }
}

/// Relies on `ToString` for `i64` (through `Display`): decimal digits, with a
/// leading `-` for a negative value.
#[verifier::external_body]
fn i64_text(x: i64) -> (r: String)
    ensures
        r@ == decimal(x as int),
{
    x.to_string()
}

/// Relies on `ToString` for `usize` (through `Display`): decimal digits.
#[verifier::external_body]
fn usize_text(x: usize) -> (r: String)
    ensures
        r@ == decimal(x as int),
{
    x.to_string()
}

/// The first `n` elements of row `i`, separated by single spaces.
pub open spec fn row_text(m: &Matrix, i: int, n: int) -> Seq<char>
    decreases n,
{
    if n <= 0 {
        Seq::empty()
    } else if n == 1 {
        decimal(m.entry(i, 0) as int)
    } else {
        row_text(m, i, n - 1) + seq![' '] + decimal(m.entry(i, n - 1) as int)
    }
}

/// The first `k` rows, separated by commas.
pub open spec fn rows_text(m: &Matrix, k: int) -> Seq<char>
    decreases k,
{
    if k <= 0 {
        Seq::empty()
    } else if k == 1 {
        row_text(m, 0, m.ncols() as int)
    } else {
        rows_text(m, k - 1) + seq![','] + row_text(m, k - 1, m.ncols() as int)
    }
}

/// A matrix as text: `{`, its rows separated by `,`, `}`; each row is its
/// elements separated by single spaces, e.g. `{1 2 3,4 5 6}`.
pub open spec fn render_text(m: &Matrix) -> Seq<char> {
    seq!['{'] + rows_text(m, m.nrows() as int) + seq!['}']
}

/// The shape and contents, e.g. `Matrix(row=2,col=3,{1 2 3,4 5 6})`.
pub open spec fn describe_text(m: &Matrix) -> Seq<char> {
    "Matrix(row="@ + decimal(m.nrows() as int) + ",col="@ + decimal(m.ncols() as int) + ","@
        + render_text(m) + ")"@
}

impl Matrix {
    /// Renders the matrix as `{1 2 3,4 5 6}`.
    pub fn render(&self) -> (r: String)
        requires
            self.wf(),
        ensures
            r@ == render_text(self),
    {
        let mut s = String::from_str("{");
        proof {
            reveal_strlit("{");
        }
        let rows = self.rows();
        let cols = self.cols();
        let mut i: usize = 0;
        while i < rows
            invariant
                self.wf(),
                rows == self.nrows(),
                cols == self.ncols(),
                i <= rows,
                s@ == seq!['{'] + rows_text(self, i as int),
            decreases rows - i,
        {
            let ghost before = s@;
            if i > 0 {
                s.append(",");
                proof {
                    reveal_strlit(",");
                }
            }
            let ghost start = s@;
            let mut j: usize = 0;
            while j < cols
                invariant
                    self.wf(),
                    rows == self.nrows(),
                    cols == self.ncols(),
                    i < rows,
                    j <= cols,
                    s@ == start + row_text(self, i as int, j as int),
                decreases cols - j,
            {
                if j > 0 {
                    s.append(" ");
                    proof {
                        reveal_strlit(" ");
                    }
                }
                let t = i64_text(self.get(i, j));
                s.append(t.as_str());
                j = j + 1;
            }
            proof {
                if i == 0 {
                    assert(before == seq!['{'] + rows_text(self, 0));
                    assert(s@ =~= seq!['{'] + rows_text(self, 1));
                } else {
                    assert(s@ =~= seq!['{'] + rows_text(self, i + 1));
                }
            }
            i = i + 1;
        }
        s.append("}");
        proof {
            reveal_strlit("}");
            assert(s@ =~= render_text(self));
        }
        s
    }

    /// Describes the matrix as `Matrix(row=2,col=3,{1 2 3,4 5 6})`.
    pub fn describe(&self) -> (r: String)
        requires
            self.wf(),
        ensures
            r@ == describe_text(self),
    {
        let mut s = String::from_str("Matrix(row=");
        let rows = usize_text(self.rows());
        s.append(rows.as_str());
        s.append(",col=");
        let cols = usize_text(self.cols());
        s.append(cols.as_str());
        s.append(",");
        let body = self.render();
        s.append(body.as_str());
        s.append(")");
        proof {
            reveal_strlit("Matrix(row=");
            reveal_strlit(",col=");
            reveal_strlit(",");
            reveal_strlit(")");
            assert(s@ =~= describe_text(self));
        }
        s
    }
}

} // verus!
