//! Polynomials whose coefficients are vectors of scalars.
use crate::circuit::{convolution, evaluation, t_poly, weighted_sum};
use crate::field::Scalar;
use crate::scalar_vector::ScalarVector;
use vstd::prelude::*;

verus! {

/// The coefficients which a list of vectors stands for.
pub open spec fn poly_view(p: Seq<ScalarVector>) -> Seq<Seq<nat>> {
    Seq::new(p.len(), |i: int| p[i]@)
}

/// Whether every coefficient of a polynomial has the length `n`.
pub open spec fn uniform(p: Seq<Seq<nat>>, n: nat) -> bool {
    forall|i: int| 0 <= i < p.len() ==> (#[trigger] p[i]).len() == n
}

/// The coefficients of the inner product of two polynomials of one length.
pub fn multiply(l: &Vec<ScalarVector>, r: &Vec<ScalarVector>, n: usize) -> (t: ScalarVector)
    requires
        l@.len() == r@.len(),
        l@.len() >= 1,
        2 * l@.len() - 1 <= usize::MAX,
        uniform(poly_view(l@), n as nat),
        uniform(poly_view(r@), n as nat),
    ensures
        t@ == t_poly(poly_view(l@), poly_view(r@)),
{
    let ghost lv = poly_view(l@);
    let ghost rv = poly_view(r@);
    let len = l.len();
    let total = len + (len - 1);
    let mut t: Vec<Scalar> = Vec::with_capacity(total);
    let mut k: usize = 0;
    while k < total
        invariant
            k <= total,
            total == 2 * len - 1,
            len == l@.len(),
            len == r@.len(),
            lv == poly_view(l@),
            rv == poly_view(r@),
            uniform(lv, n as nat),
            uniform(rv, n as nat),
            t@.len() == k,
            forall|j: int| 0 <= j < k ==> t@[j]@ == convolution(lv, rv, j, len as nat),
        decreases total - k,
    {
        let mut acc = Scalar::zero();
        let mut i: usize = 0;
        while i < len
            invariant
                i <= len,
                k < total,
                total == 2 * len - 1,
                len == l@.len(),
                len == r@.len(),
                lv == poly_view(l@),
                rv == poly_view(r@),
                uniform(lv, n as nat),
                uniform(rv, n as nat),
                acc@ == convolution(lv, rv, k as int, i as nat),
            decreases len - i,
        {
            if k >= i && k - i < len {
                assert(lv[i as int].len() == n);
                assert(rv[k - i].len() == n);
                let term = l[i].inner_product(&r[k - i]);
                acc = acc.add(&term);
            }
            i += 1;
        }
        t.push(acc);
        k += 1;
    }
    ScalarVector(t)
}

/// The value of a polynomial: each coefficient scaled by the scalar at its
/// position of `xs`, summed from the left.
pub fn evaluate(poly: &Vec<ScalarVector>, xs: &ScalarVector, n: usize) -> (r: ScalarVector)
    requires
        poly@.len() <= xs@.len(),
        uniform(poly_view(poly@), n as nat),
    ensures
        r@ == evaluation(poly_view(poly@), xs@, n as nat, poly@.len()),
        r@.len() == n,
{
    let ghost pv = poly_view(poly@);
    let mut res = ScalarVector::new(n);
    let mut i: usize = 0;
    while i < poly.len()
        invariant
            i <= poly@.len(),
            poly@.len() <= xs@.len(),
            pv == poly_view(poly@),
            uniform(pv, n as nat),
            res@ == evaluation(pv, xs@, n as nat, i as nat),
            res@.len() == n,
        decreases poly@.len() - i,
    {
        assert(pv[i as int].len() == n);
        let term = poly[i].scale(&xs.get(i));
        res = res.add(&term);
        i += 1;
    }
    res
}

/// Each scalar multiplied by the scalar at its position of `xs`, summed
/// from the left.
pub fn weigh(coefficients: &ScalarVector, xs: &ScalarVector) -> (r: Scalar)
    requires
        coefficients@.len() <= xs@.len(),
    ensures
        r@ == weighted_sum(coefficients@, xs@, coefficients@.len()),
{
    let mut acc = Scalar::zero();
    let mut i: usize = 0;
    while i < coefficients.len()
        invariant
            i <= coefficients@.len(),
            coefficients@.len() <= xs@.len(),
            acc@ == weighted_sum(coefficients@, xs@, i as nat),
        decreases coefficients@.len() - i,
    {
        let term = coefficients.get(i).mul(&xs.get(i));
        acc = acc.add(&term);
        i += 1;
    }
    acc
}

} // verus!
