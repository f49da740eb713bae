use vstd::prelude::*;

verus! {

/// The sum of `a[k] * b[k]` over the first `n` positions.
pub open spec fn dot_prefix(a: Seq<i64>, b: Seq<i64>, n: int) -> int
    decreases n,
{
    if n <= 0 {
        0
    } else {
        dot_prefix(a, b, n - 1) + a[n - 1] * b[n - 1]
    }
}

/// The dot product of two sequences of equal length.
pub open spec fn dot(a: Seq<i64>, b: Seq<i64>) -> int {
    dot_prefix(a, b, a.len() as int)
}

pub open spec fn fits_i64(x: int) -> bool {
    i64::MIN <= x <= i64::MAX
}

/// Step `n` of accumulating the dot product, its product and the running sum
/// after it, stays within `i64`.
pub open spec fn step_fits(a: Seq<i64>, b: Seq<i64>, n: int) -> bool {
    fits_i64(a[n - 1] * b[n - 1]) && fits_i64(dot_prefix(a, b, n))
}

/// Every product and every running sum met while accumulating the dot product
/// of `a` and `b` is an `i64`.
pub open spec fn dot_fits(a: Seq<i64>, b: Seq<i64>) -> bool {
    forall|n: int| 0 < n <= a.len() ==> #[trigger] step_fits(a, b, n)
}

/// An immutable sequence of numbers: a row of a matrix, or a column gathered
/// into contiguous storage.
pub struct Vector {
    data: Vec<i64>,
}

impl View for Vector {
    type V = Seq<i64>;

    closed spec fn view(&self) -> Seq<i64> {
        self.data@
    }
}

impl Vector {
    pub fn new(data: Vec<i64>) -> (r: Vector)
        ensures
            r@ == data@,
    {
        Vector { data }
    }

    pub fn len(&self) -> (r: usize)
        ensures
            r == self@.len(),
    {
        self.data.len()
    }

    pub fn get(&self, i: usize) -> (r: i64)
        requires
            i < self@.len(),
        ensures
            r == self@[i as int],
    {
        self.data[i]
    }
}

/// Dot product of two vectors; vectors of different lengths are a dimension
/// mismatch.
pub fn dot_product(a: Vector, b: Vector) -> (r: Result<i64, crate::DimensionMismatch>)
    requires
        a@.len() == b@.len() ==> dot_fits(a@, b@),
    ensures
        r is Err <==> a@.len() != b@.len(),
        r matches Ok(v) ==> v == dot(a@, b@),
{
    if a.len() != b.len() {
        return Err(crate::DimensionMismatch);
    }
    let mut result: i64 = 0;
    let mut i: usize = 0;
    while i < a.len()
        invariant
            a@.len() == b@.len(),
            dot_fits(a@, b@),
            i <= a@.len(),
            result == dot_prefix(a@, b@, i as int),
        decreases a@.len() - i,
    {
        assert(step_fits(a@, b@, i + 1));
        result = result + a.get(i) * b.get(i);
        i = i + 1;
    }
    Ok(result)
}


/// Whether the dot product of two vectors of equal length can be accumulated in
/// `i64`, each product and each running sum.
pub fn dot_fits_exec(a: &Vector, b: &Vector) -> (r: bool)
    requires
        a@.len() == b@.len(),
    ensures
        r == dot_fits(a@, b@),
{
    let mut acc: i64 = 0;
    let mut i: usize = 0;
    while i < a.len()
        invariant
            a@.len() == b@.len(),
            i <= a@.len(),
            acc == dot_prefix(a@, b@, i as int),
            forall|n: int| 0 < n <= i ==> #[trigger] step_fits(a@, b@, n),
        decreases a@.len() - i,
    {
        let x = a.get(i) as i128;
        let y = b.get(i) as i128;
        assert(-0x4000_0000_0000_0000_0000_0000_0000_0000 <= x * y
            <= 0x4000_0000_0000_0000_0000_0000_0000_0000) by (nonlinear_arith)
            requires
                i64::MIN <= x <= i64::MAX,
                i64::MIN <= y <= i64::MAX,
        ;
        let prod: i128 = x * y;
        if prod < i64::MIN as i128 || prod > i64::MAX as i128 {
            assert(!step_fits(a@, b@, i + 1));
            return false;
        }
        let sum: i128 = acc as i128 + prod;
        if sum < i64::MIN as i128 || sum > i64::MAX as i128 {
            assert(!step_fits(a@, b@, i + 1));
            return false;
        }
        assert(step_fits(a@, b@, i + 1));
        acc = sum as i64;
        i = i + 1;
    }
    true
}

} // verus!
