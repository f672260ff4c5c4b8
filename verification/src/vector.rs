use vstd::prelude::*;

use crate::Error;

verus! {

/// An owned, flat sequence of numeric elements: one row of a matrix, or one
/// gathered column.  It is the operand of the dot-product primitive.
#[derive(Debug)]
pub struct Vector {
    pub data: Vec<i64>,
}

impl View for Vector {
    type V = Seq<i64>;

    open spec fn view(&self) -> Seq<i64> {
        self.data@
    }
}

impl Vector {
    /// Wraps an owned buffer as a vector.
    pub fn new(data: Vec<i64>) -> (v: Vector)
        ensures
            v@ == data@,
    {
        Vector { data }
    }
}

/// The sum of the elementwise products of the first `n` elements of `a` and
/// `b`: the value accumulated after `n` steps of a dot-product loop.
pub open spec fn dot_prefix(a: Seq<i64>, b: Seq<i64>, n: int) -> int
    decreases n,
{
    if n <= 0 {
        0
    } else {
        dot_prefix(a, b, n - 1) + a[n - 1] * b[n - 1]
    }
}

/// The dot product of two equal-length sequences.
pub open spec fn dot(a: Seq<i64>, b: Seq<i64>) -> int
    recommends
        a.len() == b.len(),
{
    dot_prefix(a, b, a.len() as int)
}

/// Every intermediate value of the dot-product computation stays within
/// `i64`: each elementwise product, and each partial sum.
pub open spec fn dot_fits(a: Seq<i64>, b: Seq<i64>) -> bool {
    &&& forall|i: int| 0 <= i < a.len() ==> i64::MIN <= #[trigger] (a[i] * b[i]) <= i64::MAX
    &&& forall|n: int| 0 <= n <= a.len() ==> i64::MIN <= #[trigger] dot_prefix(a, b, n) <= i64::MAX
}

/// Computes the dot product of `a` and `b`, the scalar that one work item of
/// a matrix multiplication contributes.  Vectors of unequal length are
/// rejected with `LengthMismatch`.
pub fn dot_produc(a: Vector, b: Vector) -> (r: Result<i64, Error>)
    requires
        a@.len() == b@.len() ==> dot_fits(a@, b@),
    ensures
        match r {
            Ok(v) => a@.len() == b@.len() && v == dot(a@, b@),
            Err(e) => a@.len() != b@.len() && e == Error::LengthMismatch,
        },
{
    if a.data.len() != b.data.len() {
        return Err(Error::LengthMismatch);
    }
    let n = a.data.len();
    let mut sum: i64 = 0;
    let mut i: usize = 0;
    while i < n
        invariant
            n == a@.len() == b@.len(),
            0 <= i <= n,
            dot_fits(a@, b@),
            sum == dot_prefix(a@, b@, i as int),
        decreases n - i,
    {
        assert(dot_prefix(a@, b@, i + 1) == dot_prefix(a@, b@, i as int) + a@[i as int] * b@[i as int]);
        sum = sum + a.data[i] * b.data[i];
        i = i + 1;
    }
    Ok(sum)
}

} // verus!
