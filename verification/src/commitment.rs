//! Pedersen commitments, to one scalar and to two vectors of scalars.
use crate::field::Scalar;
use crate::group::{msm, multiexp, pairs_view, point_add, point_mul, Point};
use crate::point_vector::{encodings, push_pairs, zip};
use crate::scalar_vector::{padded, ScalarVector};
use vstd::prelude::*;

verus! {

/// The commitment to `value` under the mask `mask`: `value * g + mask * h`.
pub open spec fn commitment(value: nat, mask: nat, g: Seq<u8>, h: Seq<u8>) -> Seq<u8> {
    point_add(point_mul(g, value), point_mul(h, mask))
}

/// The terms of a vector commitment: the mask on `h`, then each of
/// `g_values` on its generator of `g_bold`, then each of `h_values` on its
/// generator of `h_bold`, as far as the generators reach.
pub open spec fn vector_terms(
    g_values: Seq<nat>,
    h_values: Seq<nat>,
    mask: nat,
    g_bold: Seq<Seq<u8>>,
    h_bold: Seq<Seq<u8>>,
    h: Seq<u8>,
) -> Seq<(nat, Seq<u8>)> {
    seq![(mask, h)] + zip(g_values, g_bold) + zip(h_values, h_bold)
}

/// The commitment to two vectors under a mask.
pub open spec fn vector_commitment(
    g_values: Seq<nat>,
    h_values: Seq<nat>,
    mask: nat,
    g_bold: Seq<Seq<u8>>,
    h_bold: Seq<Seq<u8>>,
    h: Seq<u8>,
) -> Seq<u8> {
    msm(vector_terms(g_values, h_values, mask, g_bold, h_bold, h))
}

/// The opening of a commitment to one scalar.
#[derive(Clone, Copy, Debug, PartialEq, Eq)]
pub struct PedersenCommitment {
    pub value: Scalar,
    pub mask: Scalar,
}

/// A commitment's opening as plain values.
pub struct CommitmentView {
    pub value: nat,
    pub mask: nat,
}

impl PedersenCommitment {
    /// What this stands for, as plain values.
    pub open spec fn view(&self) -> CommitmentView {
        CommitmentView { value: self.value@, mask: self.mask@ }
    }

    /// The commitment this opens.
    pub fn commit(&self, g: &Point, h: &Point) -> (r: Point)
        ensures
            r@ == commitment(self.value@, self.mask@, g@, h@),
    {
        g.mul(&self.value).add(&h.mul(&self.mask))
    }

    /// Overwrites the value and the mask with zero.
    pub fn zeroize(&mut self)
        ensures
            final(self).value@ == 0,
            final(self).mask@ == 0,
    {
        self.value.zeroize();
        self.mask.zeroize();
    }
}

/// The opening of a commitment to two vectors of scalars.
#[derive(Clone, Debug, PartialEq, Eq)]
pub struct PedersenVectorCommitment {
    pub g_values: ScalarVector,
    pub h_values: ScalarVector,
    pub mask: Scalar,
}

/// A vector commitment's opening as plain values.
pub struct VectorCommitmentView {
    pub g_values: Seq<nat>,
    pub h_values: Seq<nat>,
    pub mask: nat,
}

impl VectorCommitmentView {
    /// The opening with both vectors extended by zeros to the length `n`.
    pub open spec fn padded(self, n: nat) -> VectorCommitmentView {
        VectorCommitmentView {
            g_values: padded(self.g_values, n),
            h_values: padded(self.h_values, n),
            mask: self.mask,
        }
    }
}

impl PedersenVectorCommitment {
    /// What this stands for, as plain values.
    pub open spec fn view(&self) -> VectorCommitmentView {
        VectorCommitmentView {
            g_values: self.g_values@,
            h_values: self.h_values@,
            mask: self.mask@,
        }
    }

    /// The commitment this opens; values beyond the generators are left
    /// out.
    pub fn commit(&self, g_bold: &Vec<Point>, h_bold: &Vec<Point>, h: &Point) -> (r: Point)
        ensures
            r@ == vector_commitment(
                self.g_values@,
                self.h_values@,
                self.mask@,
                encodings(g_bold@),
                encodings(h_bold@),
                h@,
            ),
    {
        let mut terms: Vec<(Scalar, Point)> = Vec::new();
        terms.push((self.mask, *h));
        assert(pairs_view(terms@) =~= seq![(self.mask@, h@)]);
        push_pairs(&mut terms, &self.g_values.0, g_bold);
        push_pairs(&mut terms, &self.h_values.0, h_bold);
        let r = multiexp(&terms);
        wipe_pairs(&mut terms);
        r
    }

    /// Extends both vectors by zeros to the length `n`.
    pub fn pad(&mut self, n: usize)
        ensures
            final(self)@ == old(self)@.padded(n as nat),
    {
        self.g_values.pad(n);
        self.h_values.pad(n);
    }

    /// Overwrites the values and the mask with zero.
    pub fn zeroize(&mut self)
        ensures
            final(self).g_values@ == crate::scalar_vector::zeros(old(self).g_values@.len()),
            final(self).h_values@ == crate::scalar_vector::zeros(old(self).h_values@.len()),
            final(self).mask@ == 0,
    {
        self.g_values.zeroize();
        self.h_values.zeroize();
        self.mask.zeroize();
    }
}

/// Overwrites the scalar of every pair with zero.
pub fn wipe_pairs(pairs: &mut Vec<(Scalar, Point)>)
    ensures
        final(pairs)@.len() == old(pairs)@.len(),
        forall|i: int|
            0 <= i < old(pairs)@.len() ==> (#[trigger] final(pairs)@[i]).0@ == 0,
        forall|i: int|
            0 <= i < old(pairs)@.len() ==> (#[trigger] final(pairs)@[i]).1 == old(pairs)@[i].1,
{
    let mut i: usize = 0;
    while i < pairs.len()
        invariant
            i <= pairs@.len(),
            pairs@.len() == old(pairs)@.len(),
            forall|k: int| 0 <= k < i ==> (#[trigger] pairs@[k]).0@ == 0 && pairs@[k].1 == old(pairs)@[k].1,
            forall|k: int| i <= k < pairs@.len() ==> pairs@[k] == old(pairs)@[k],
        decreases pairs@.len() - i,
    {
        let mut pair = pairs[i];
        pair.0.zeroize();
        pairs.set(i, pair);
        i += 1;
    }
}

} // verus!
