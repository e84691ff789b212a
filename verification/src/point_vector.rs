//! Vectors of points.
use crate::field::Scalar;
use crate::group::{identity_bytes, multiexp, point_add, point_mul, Point};
use crate::scalar_vector::ScalarVector;
use crate::transcript::{Transcript, TranscriptView};
use vstd::prelude::*;

verus! {

/// The encodings of a sequence of points.
pub open spec fn encodings(p: Seq<Point>) -> Seq<Seq<u8>> {
    Seq::new(p.len(), |i: int| p[i]@)
}

/// Scalars paired with points, position by position, as far as both reach.
pub open spec fn zip(s: Seq<nat>, p: Seq<Seq<u8>>) -> Seq<(nat, Seq<u8>)> {
    Seq::new(
        if s.len() <= p.len() {
            s.len()
        } else {
            p.len()
        },
        |i: int| (s[i], p[i]),
    )
}

/// Each point multiplied by the scalar at its position.
pub open spec fn scaled_points(p: Seq<Seq<u8>>, s: Seq<nat>) -> Seq<Seq<u8>> {
    Seq::new(p.len(), |i: int| point_mul(p[i], s[i]))
}

/// The vector `x * lo + y * hi`, position by position.
pub open spec fn folded_points(lo: Seq<Seq<u8>>, hi: Seq<Seq<u8>>, x: nat, y: nat) -> Seq<Seq<u8>> {
    Seq::new(lo.len(), |i: int| point_add(point_mul(lo[i], x), point_mul(hi[i], y)))
}

/// The sum of the first `k` points, taken from the left.
pub open spec fn point_sum(p: Seq<Seq<u8>>, k: nat) -> Seq<u8>
    decreases k,
{
    if k == 0 {
        identity_bytes()
    } else {
        point_add(point_sum(p, (k - 1) as nat), p[k - 1])
    }
}

/// The transcript after each of the points was written under one label.
pub open spec fn wrote_points(t: TranscriptView, label: Seq<char>, p: Seq<Seq<u8>>) -> TranscriptView
    decreases p.len(),
{
    if p.len() == 0 {
        t
    } else {
        wrote_points(t, label, p.drop_last()).message(label, p.last())
    }
}

/// Appends to `pairs` each scalar with the point at its position, as far as
/// both reach.
pub fn push_pairs(pairs: &mut Vec<(Scalar, Point)>, scalars: &Vec<Scalar>, points: &Vec<Point>)
    ensures
        crate::group::pairs_view(final(pairs)@) == crate::group::pairs_view(old(pairs)@) + zip(
            crate::scalar_vector::values(scalars@),
            encodings(points@),
        ),
{
    let ghost before = crate::group::pairs_view(pairs@);
    let ghost all = zip(crate::scalar_vector::values(scalars@), encodings(points@));
    let len = if scalars.len() <= points.len() {
        scalars.len()
    } else {
        points.len()
    };
    let mut i: usize = 0;
    while i < len
        invariant
            i <= len,
            len <= scalars@.len(),
            len <= points@.len(),
            len == all.len(),
            crate::group::pairs_view(pairs@) == before + all.take(i as int),
            all == zip(crate::scalar_vector::values(scalars@), encodings(points@)),
        decreases len - i,
    {
        let ghost prev = pairs@;
        pairs.push((scalars[i], points[i]));
        assert(crate::group::pairs_view(pairs@) =~= crate::group::pairs_view(prev).push(
            all[i as int],
        ));
        i += 1;
    }
}

/// Writes each point to the transcript under the label, in order.
pub fn write_points(transcript: &mut Transcript, label: &'static str, points: &Vec<Point>)
    ensures
        final(transcript)@ == wrote_points(old(transcript)@, label@, encodings(points@)),
{
    let ghost all = encodings(points@);
    let mut i: usize = 0;
    while i < points.len()
        invariant
            i <= points@.len(),
            all == encodings(points@),
            transcript@ == wrote_points(old(transcript)@, label@, all.take(i as int)),
        decreases points@.len() - i,
    {
        let bytes = points[i].to_bytes();
        transcript.append_message(label, bytes.as_slice());
        assert(all.take(i + 1).drop_last() =~= all.take(i as int));
        i += 1;
    }
    assert(all.take(points@.len() as int) =~= all);
}

/// A vector of points.
#[derive(Clone, Debug, PartialEq, Eq)]
pub struct PointVector(pub Vec<Point>);

impl PointVector {
    /// What this stands for, as plain values.
    pub open spec fn view(&self) -> Seq<Seq<u8>> {
        encodings(self.0@)
    }

    /// The number of elements.
    pub fn len(&self) -> (r: usize)
        ensures
            r == self@.len(),
    {
        self.0.len()
    }

    /// The point at a position.
    pub fn get(&self, i: usize) -> (r: Point)
        requires
            i < self@.len(),
        ensures
            r@ == self@[i as int],
    {
        self.0[i]
    }

    /// The sum of each point multiplied by the scalar at its position.
    pub fn multiexp(&self, scalars: &ScalarVector) -> (r: Point)
        requires
            self@.len() == scalars@.len(),
        ensures
            r@ == crate::group::msm(zip(scalars@, self@)),
    {
        let mut pairs: Vec<(Scalar, Point)> = Vec::with_capacity(self.0.len());
        push_pairs(&mut pairs, &scalars.0, &self.0);
        multiexp(&pairs)
    }

    /// Each point multiplied by the scalar at its position.
    pub fn mul_vec(&self, scalars: &ScalarVector) -> (r: PointVector)
        requires
            self@.len() == scalars@.len(),
        ensures
            r@ == scaled_points(self@, scalars@),
    {
        let mut v: Vec<Point> = Vec::with_capacity(self.0.len());
        let mut i: usize = 0;
        while i < self.0.len()
            invariant
                i <= self.0@.len(),
                self.0@.len() == scalars.0@.len(),
                v@.len() == i,
                forall|k: int| 0 <= k < i ==> v@[k]@ == point_mul(self@[k], scalars@[k]),
            decreases self.0@.len() - i,
        {
            v.push(self.0[i].mul(&scalars.0[i]));
            i += 1;
        }
        PointVector(v)
    }

    /// The two halves of a vector of even length.
    pub fn split(&self) -> (r: (PointVector, PointVector))
        requires
            self@.len() % 2 == 0,
        ensures
            r.0@ == self@.take(self@.len() as int / 2),
            r.1@ == self@.skip(self@.len() as int / 2),
    {
        let half = self.0.len() / 2;
        let mut lo: Vec<Point> = Vec::with_capacity(half);
        let mut hi: Vec<Point> = Vec::with_capacity(half);
        let mut i: usize = 0;
        while i < half
            invariant
                i <= half,
                half * 2 == self.0@.len(),
                self.0@.len() <= usize::MAX,
                lo@.len() == i,
                hi@.len() == i,
                forall|k: int| 0 <= k < i ==> lo@[k] == self.0@[k],
                forall|k: int| 0 <= k < i ==> hi@[k] == self.0@[half + k],
            decreases half - i,
        {
            lo.push(self.0[i]);
            hi.push(self.0[half + i]);
            i += 1;
        }
        (PointVector(lo), PointVector(hi))
    }

    /// The vector `x * self + y * other`, position by position.
    pub fn fold(&self, other: &PointVector, x: &Scalar, y: &Scalar) -> (r: PointVector)
        requires
            self@.len() == other@.len(),
        ensures
            r@ == folded_points(self@, other@, x@, y@),
    {
        let mut v: Vec<Point> = Vec::with_capacity(self.0.len());
        let mut i: usize = 0;
        while i < self.0.len()
            invariant
                i <= self.0@.len(),
                self.0@.len() == other.0@.len(),
                v@.len() == i,
                forall|k: int|
                    0 <= k < i ==> v@[k]@ == point_add(
                        point_mul(self@[k], x@),
                        point_mul(other@[k], y@),
                    ),
            decreases self.0@.len() - i,
        {
            v.push(self.0[i].mul(x).add(&other.0[i].mul(y)));
            i += 1;
        }
        PointVector(v)
    }

    /// Overwrites every point with the neutral element.
    pub fn zeroize(&mut self)
        ensures
            final(self)@ == Seq::new(old(self)@.len(), |i: int| identity_bytes()),
    {
        let mut i: usize = 0;
        while i < self.0.len()
            invariant
                i <= self.0@.len(),
                self.0@.len() == old(self).0@.len(),
                forall|k: int| 0 <= k < i ==> self.0@[k]@ == identity_bytes(),
            decreases self.0@.len() - i,
        {
            self.0.set(i, Point::identity());
            i += 1;
        }
    }

    /// Writes each point to the transcript under the label, in order.
    pub fn transcript(&self, transcript: &mut Transcript, label: &'static str)
        ensures
            final(transcript)@ == wrote_points(old(transcript)@, label@, self@),
    {
        write_points(transcript, label, &self.0);
    }
}

} // verus!
