//! Vectors of scalars, with the arithmetic the proofs are written in.
use crate::field::{field_add, field_mul, field_sub, Scalar};
use vstd::prelude::*;

verus! {

/// The integers which a sequence of scalars stands for.
pub open spec fn values(s: Seq<Scalar>) -> Seq<nat> {
    Seq::new(s.len(), |i: int| s[i]@)
}

/// The vector of `n` zeros.
pub open spec fn zeros(n: nat) -> Seq<nat> {
    Seq::new(n, |i: int| 0nat)
}

/// The sum of two vectors, element by element.
pub open spec fn vec_add(a: Seq<nat>, b: Seq<nat>) -> Seq<nat> {
    Seq::new(a.len(), |i: int| field_add(a[i], b[i]))
}

/// The difference of two vectors, element by element.
pub open spec fn vec_sub(a: Seq<nat>, b: Seq<nat>) -> Seq<nat> {
    Seq::new(a.len(), |i: int| field_sub(a[i], b[i]))
}

/// The product of two vectors, element by element.
pub open spec fn vec_mul(a: Seq<nat>, b: Seq<nat>) -> Seq<nat> {
    Seq::new(a.len(), |i: int| field_mul(a[i], b[i]))
}

/// A vector with every element multiplied by one scalar.
pub open spec fn vec_scale(a: Seq<nat>, s: nat) -> Seq<nat> {
    Seq::new(a.len(), |i: int| field_mul(a[i], s))
}

/// The inner product of two vectors of one length, summed from the left.
pub open spec fn inner(a: Seq<nat>, b: Seq<nat>) -> nat
    decreases a.len(),
{
    if a.len() == 0 {
        0
    } else {
        field_add(inner(a.drop_last(), b.drop_last()), field_mul(a.last(), b.last()))
    }
}

/// `x` raised to the power `e` in the field.
pub open spec fn field_pow(x: nat, e: nat) -> nat
    decreases e,
{
    if e == 0 {
        1
    } else {
        field_mul(field_pow(x, (e - 1) as nat), x)
    }
}

/// The first `n` powers of `x`, from `x^0`.
pub open spec fn powers(x: nat, n: nat) -> Seq<nat> {
    Seq::new(n, |i: int| field_pow(x, i as nat))
}

/// A vector extended by zeros to the length `n`.
pub open spec fn padded(a: Seq<nat>, n: nat) -> Seq<nat> {
    Seq::new(
        if a.len() > n {
            a.len()
        } else {
            n
        },
        |i: int|
            if i < a.len() {
                a[i]
            } else {
                0nat
            },
    )
}

/// A vector which is long enough already is left as it is.
pub proof fn lemma_padded_same(a: Seq<nat>, n: nat)
    requires
        n <= a.len(),
    ensures
        padded(a, n) == a,
{
}

/// A vector of scalars.
#[derive(Clone, Debug, PartialEq, Eq)]
pub struct ScalarVector(pub Vec<Scalar>);

impl ScalarVector {
    /// What this stands for, as plain values.
    pub open spec fn view(&self) -> Seq<nat> {
        values(self.0@)
    }

    /// The vector of `len` zeros.
    pub fn new(len: usize) -> (r: ScalarVector)
        ensures
            r@ == zeros(len as nat),
    {
        let mut v: Vec<Scalar> = Vec::with_capacity(len);
        let mut i: usize = 0;
        while i < len
            invariant
                i <= len,
                v@.len() == i,
                forall|k: int| 0 <= k < i ==> v@[k]@ == 0,
            decreases len - i,
        {
            v.push(Scalar::zero());
            i += 1;
        }
        ScalarVector(v)
    }

    /// The first `len` powers of `x`, from `x^0`.
    pub fn powers(x: &Scalar, len: usize) -> (r: ScalarVector)
        ensures
            r@ == powers(x@, len as nat),
    {
        let mut v: Vec<Scalar> = Vec::with_capacity(len);
        let mut i: usize = 0;
        while i < len
            invariant
                i <= len,
                v@.len() == i,
                forall|k: int| 0 <= k < i ==> v@[k]@ == field_pow(x@, k as nat),
            decreases len - i,
        {
            if i == 0 {
                v.push(Scalar::one());
            } else {
                let next = v[i - 1].mul(x);
                v.push(next);
            }
            i += 1;
        }
        ScalarVector(v)
    }

    /// The number of elements.
    pub fn len(&self) -> (r: usize)
        ensures
            r == self@.len(),
    {
        self.0.len()
    }

    /// What holds of every vector of scalars: each is an element of the
    /// field.
    pub fn bounded(&self)
        ensures
            forall|i: int| 0 <= i < self@.len() ==> self@[i] < crate::field::order(),
    {
        let mut i: usize = 0;
        while i < self.0.len()
            invariant
                i <= self.0@.len(),
                forall|k: int| 0 <= k < i ==> self@[k] < crate::field::order(),
            decreases self.0@.len() - i,
        {
            self.0[i].bounded();
            i += 1;
        }
    }

    /// The element at a position.
    pub fn get(&self, i: usize) -> (r: Scalar)
        requires
            i < self@.len(),
        ensures
            r@ == self@[i as int],
    {
        self.0[i]
    }

    /// Replaces the element at a position.
    pub fn set(&mut self, i: usize, value: Scalar)
        requires
            i < old(self)@.len(),
        ensures
            final(self)@ == old(self)@.update(i as int, value@),
    {
        self.0.set(i, value);
    }

    /// A copy of the vector.
    pub fn copy(&self) -> (r: ScalarVector)
        ensures
            r@ == self@,
    {
        let mut v: Vec<Scalar> = Vec::with_capacity(self.0.len());
        let mut i: usize = 0;
        while i < self.0.len()
            invariant
                i <= self.0@.len(),
                v@.len() == i,
                forall|k: int| 0 <= k < i ==> v@[k]@ == self@[k],
            decreases self.0@.len() - i,
        {
            v.push(self.0[i]);
            i += 1;
        }
        ScalarVector(v)
    }

    /// The vector extended by zeros to the length `n`; unchanged where it is
    /// that long already.
    pub fn pad(&mut self, n: usize)
        ensures
            final(self)@ == padded(old(self)@, n as nat),
    {
        while self.0.len() < n
            invariant
                self.0@.len() >= old(self).0@.len(),
                self.0@.len() == old(self).0@.len() || self.0@.len() <= n,
                forall|k: int| 0 <= k < old(self).0@.len() ==> self.0@[k]@ == old(self).0@[k]@,
                forall|k: int| old(self).0@.len() <= k < self.0@.len() ==> self.0@[k]@ == 0,
            decreases n - self.0@.len(),
        {
            self.0.push(Scalar::zero());
        }
    }

    /// The sum with another vector of this length.
    pub fn add(&self, other: &ScalarVector) -> (r: ScalarVector)
        requires
            self@.len() == other@.len(),
        ensures
            r@ == vec_add(self@, other@),
    {
        let mut v: Vec<Scalar> = Vec::with_capacity(self.0.len());
        let mut i: usize = 0;
        while i < self.0.len()
            invariant
                i <= self.0@.len(),
                self.0@.len() == other.0@.len(),
                v@.len() == i,
                forall|k: int| 0 <= k < i ==> v@[k]@ == field_add(self@[k], other@[k]),
            decreases self.0@.len() - i,
        {
            v.push(self.0[i].add(&other.0[i]));
            i += 1;
        }
        ScalarVector(v)
    }

    /// The difference with another vector of this length.
    pub fn sub(&self, other: &ScalarVector) -> (r: ScalarVector)
        requires
            self@.len() == other@.len(),
        ensures
            r@ == vec_sub(self@, other@),
    {
        let mut v: Vec<Scalar> = Vec::with_capacity(self.0.len());
        let mut i: usize = 0;
        while i < self.0.len()
            invariant
                i <= self.0@.len(),
                self.0@.len() == other.0@.len(),
                v@.len() == i,
                forall|k: int| 0 <= k < i ==> v@[k]@ == field_sub(self@[k], other@[k]),
            decreases self.0@.len() - i,
        {
            v.push(self.0[i].sub(&other.0[i]));
            i += 1;
        }
        ScalarVector(v)
    }

    /// The product with another vector of this length, element by element.
    pub fn mul(&self, other: &ScalarVector) -> (r: ScalarVector)
        requires
            self@.len() == other@.len(),
        ensures
            r@ == vec_mul(self@, other@),
    {
        let mut v: Vec<Scalar> = Vec::with_capacity(self.0.len());
        let mut i: usize = 0;
        while i < self.0.len()
            invariant
                i <= self.0@.len(),
                self.0@.len() == other.0@.len(),
                v@.len() == i,
                forall|k: int| 0 <= k < i ==> v@[k]@ == field_mul(self@[k], other@[k]),
            decreases self.0@.len() - i,
        {
            v.push(self.0[i].mul(&other.0[i]));
            i += 1;
        }
        ScalarVector(v)
    }

    /// The vector with every element multiplied by `scalar`.
    pub fn scale(&self, scalar: &Scalar) -> (r: ScalarVector)
        ensures
            r@ == vec_scale(self@, scalar@),
    {
        let mut v: Vec<Scalar> = Vec::with_capacity(self.0.len());
        let mut i: usize = 0;
        while i < self.0.len()
            invariant
                i <= self.0@.len(),
                v@.len() == i,
                forall|k: int| 0 <= k < i ==> v@[k]@ == field_mul(self@[k], scalar@),
            decreases self.0@.len() - i,
        {
            v.push(self.0[i].mul(scalar));
            i += 1;
        }
        ScalarVector(v)
    }

    /// The inner product with another vector of this length.
    pub fn inner_product(&self, other: &ScalarVector) -> (r: Scalar)
        requires
            self@.len() == other@.len(),
        ensures
            r@ == inner(self@, other@),
    {
        let mut acc = Scalar::zero();
        let mut i: usize = 0;
        while i < self.0.len()
            invariant
                i <= self.0@.len(),
                self.0@.len() == other.0@.len(),
                acc@ == inner(self@.take(i as int), other@.take(i as int)),
            decreases self.0@.len() - i,
        {
            let term = self.0[i].mul(&other.0[i]);
            acc = acc.add(&term);
            proof {
                let a = self@.take(i + 1);
                let b = other@.take(i + 1);
                assert(a.drop_last() =~= self@.take(i as int));
                assert(b.drop_last() =~= other@.take(i as int));
            }
            i += 1;
        }
        assert(self@.take(self@.len() as int) =~= self@);
        assert(other@.take(other@.len() as int) =~= other@);
        acc
    }

    /// The two halves of a vector of even length.
    pub fn split(&self) -> (r: (ScalarVector, ScalarVector))
        requires
            self@.len() % 2 == 0,
        ensures
            r.0@ == self@.take(self@.len() as int / 2),
            r.1@ == self@.skip(self@.len() as int / 2),
    {
        let half = self.0.len() / 2;
        let mut lo: Vec<Scalar> = Vec::with_capacity(half);
        let mut hi: Vec<Scalar> = Vec::with_capacity(half);
        let mut i: usize = 0;
        while i < half
            invariant
                i <= half,
                half * 2 == self.0@.len(),
                self.0@.len() <= usize::MAX,
                lo@.len() == i,
                hi@.len() == i,
                forall|k: int| 0 <= k < i ==> lo@[k]@ == self@[k],
                forall|k: int| 0 <= k < i ==> hi@[k]@ == self@[half + k],
            decreases half - i,
        {
            lo.push(self.0[i]);
            hi.push(self.0[half + i]);
            i += 1;
        }
        (ScalarVector(lo), ScalarVector(hi))
    }

    /// Overwrites every element with zero.
    pub fn zeroize(&mut self)
        ensures
            final(self)@ == zeros(old(self)@.len()),
    {
        let mut i: usize = 0;
        while i < self.0.len()
            invariant
                i <= self.0@.len(),
                self.0@.len() == old(self).0@.len(),
                forall|k: int| 0 <= k < i ==> self.0@[k]@ == 0,
            decreases self.0@.len() - i,
        {
            let mut s = self.0[i];
            s.zeroize();
            self.0.set(i, s);
            i += 1;
        }
    }
}

} // verus!
