//! Elements of the Ristretto group.
//!
//! A [`Point`] is held as its 32-byte encoding, which is unique for each
//! element of the group, so two points are equal exactly when their bytes
//! are. The group law is `dalek-ff-group`'s: a sum, a difference and a
//! multiple are named here by the encodings they are computed from.
use crate::field::Scalar;
use ciphersuite::group::ff::PrimeField;
use ciphersuite::group::{Group, GroupEncoding};
use vstd::prelude::*;

verus! {

/// Whether `GroupEncoding::from_bytes` of `RistrettoPoint` accepts these bytes.
pub uninterp spec fn is_point(bytes: Seq<u8>) -> bool;

/// The encoding of the sum of the points which two encodings stand for.
pub uninterp spec fn point_add(a: Seq<u8>, b: Seq<u8>) -> Seq<u8>;

/// The encoding of the difference of the points which two encodings stand for.
pub uninterp spec fn point_sub(a: Seq<u8>, b: Seq<u8>) -> Seq<u8>;

/// The encoding of a point multiplied by a scalar.
pub uninterp spec fn point_mul(p: Seq<u8>, s: nat) -> Seq<u8>;

/// The encoding of the neutral element.
pub open spec fn identity_bytes() -> Seq<u8> {
    Seq::new(32, |i: int| 0u8)
}

/// The sum of each point multiplied by its scalar, taken from the left.
pub open spec fn msm(pairs: Seq<(nat, Seq<u8>)>) -> Seq<u8>
    decreases pairs.len(),
{
    if pairs.len() == 0 {
        identity_bytes()
    } else {
        point_add(msm(pairs.drop_last()), point_mul(pairs.last().1, pairs.last().0))
    }
}

/// What a list of scalars and points stands for.
pub open spec fn pairs_view(pairs: Seq<(Scalar, Point)>) -> Seq<(nat, Seq<u8>)> {
    Seq::new(pairs.len(), |i: int| (pairs[i].0@, pairs[i].1@))
}

/// An element of the group.
#[derive(Clone, Copy, Debug, PartialEq, Eq)]
pub struct Point {
    bytes: [u8; 32],
}

impl Point {
    /// The bytes are the encoding of an element of the group.
    #[verifier::type_invariant]
    pub closed spec fn valid(self) -> bool {
        is_point(self.bytes@)
    }

    /// The encoding of this point.
    pub closed spec fn view(&self) -> Seq<u8> {
        self.bytes@
    }

    /// The neutral element.
    pub fn identity() -> (r: Point)
        ensures
            r@ == identity_bytes(),
    {
        point_identity()
    }

    /// Reads a point from its encoding.
    pub fn from_bytes(bytes: [u8; 32]) -> (r: Option<Point>)
        ensures
            r.is_some() == is_point(bytes@),
            r matches Some(p) ==> p@ == bytes@,
    {
        point_from_bytes(bytes)
    }

    /// The encoding.
    pub fn to_bytes(&self) -> (r: [u8; 32])
        ensures
            r@ == self@,
    {
        self.bytes
    }

    /// What holds of the encoding of any point.
    pub fn bounded(&self)
        ensures
            self@.len() == 32,
            is_point(self@),
    {
        proof {
            use_type_invariant(self);
        }
    }

    /// Whether two points are the same. Every byte is looked at, whatever
    /// the bytes before it were.
    pub fn equals(&self, other: &Point) -> (r: bool)
        ensures
            r == (self@ == other@),
    {
        let mut differing: u8 = 0;
        let mut i: usize = 0;
        while i < 32
            invariant
                i <= 32,
                (differing == 0) == (forall|k: int|
                    0 <= k < i ==> self.bytes@[k] == other.bytes@[k]),
            decreases 32 - i,
        {
            let x: u8 = self.bytes[i];
            let y: u8 = other.bytes[i];
            assert(((differing | (x ^ y)) == 0) == (differing == 0 && x == y)) by (bit_vector);
            differing = differing | (x ^ y);
            i += 1;
        }
        proof {
            if differing == 0 {
                assert(self.bytes@ =~= other.bytes@);
            }
        }
        differing == 0
    }

    /// Whether this is the neutral element.
    pub fn is_identity(&self) -> (r: bool)
        ensures
            r == (self@ == identity_bytes()),
    {
        let mut set: u8 = 0;
        let mut i: usize = 0;
        while i < 32
            invariant
                i <= 32,
                (set == 0) == (forall|k: int| 0 <= k < i ==> self.bytes@[k] == 0),
            decreases 32 - i,
        {
            let x: u8 = self.bytes[i];
            assert(((set | x) == 0) == (set == 0 && x == 0)) by (bit_vector);
            set = set | x;
            i += 1;
        }
        proof {
            if set == 0 {
                assert(self.bytes@ =~= identity_bytes());
            }
        }
        set == 0
    }

    /// The sum of two points.
    pub fn add(&self, other: &Point) -> (r: Point)
        ensures
            r@ == point_add(self@, other@),
    {
        group_add(self, other)
    }

    /// The difference of two points.
    pub fn sub(&self, other: &Point) -> (r: Point)
        ensures
            r@ == point_sub(self@, other@),
    {
        group_sub(self, other)
    }

    /// The point multiplied by a scalar.
    pub fn mul(&self, scalar: &Scalar) -> (r: Point)
        ensures
            r@ == point_mul(self@, scalar@),
    {
        group_mul(self, scalar)
    }
}

/// The sum of each point multiplied by its scalar, in constant time.
pub fn multiexp(pairs: &Vec<(Scalar, Point)>) -> (r: Point)
    ensures
        r@ == msm(pairs_view(pairs@)),
{
    group_multiexp(pairs)
}

/// The sum of each point multiplied by its scalar, in variable time.
pub fn multiexp_vartime(pairs: &Vec<(Scalar, Point)>) -> (r: Point)
    ensures
        r@ == msm(pairs_view(pairs@)),
{
    group_multiexp_vartime(pairs)
}

/// `Group::identity` of `RistrettoPoint`: the neutral element, whose encoding
/// is thirty-two zero bytes.
#[verifier::external_body]
fn point_identity() -> (r: Point)
    ensures
        r@ == identity_bytes(),
{
    Point { bytes: dalek_ff_group::RistrettoPoint::identity().to_bytes() }
}

/// `GroupEncoding::from_bytes` of `RistrettoPoint`: whether the bytes encode
/// a point, and if so the point, whose encoding is those bytes.
#[verifier::external_body]
fn point_from_bytes(bytes: [u8; 32]) -> (r: Option<Point>)
    ensures
        r.is_some() == is_point(bytes@),
        r matches Some(p) ==> p@ == bytes@,
{
    match Option::<dalek_ff_group::RistrettoPoint>::from(
        dalek_ff_group::RistrettoPoint::from_bytes(&bytes),
    ) {
        Some(p) => Some(Point { bytes: p.to_bytes() }),
        None => None,
    }
}

/// `Add` of `RistrettoPoint`.
#[verifier::external_body]
fn group_add(a: &Point, b: &Point) -> (r: Point)
    ensures
        r@ == point_add(a@, b@),
{
    let x = dalek_ff_group::RistrettoPoint::from_bytes(&a.bytes).unwrap();
    let y = dalek_ff_group::RistrettoPoint::from_bytes(&b.bytes).unwrap();
    Point { bytes: (x + y).to_bytes() }
}

/// `Sub` of `RistrettoPoint`.
#[verifier::external_body]
fn group_sub(a: &Point, b: &Point) -> (r: Point)
    ensures
        r@ == point_sub(a@, b@),
{
    let x = dalek_ff_group::RistrettoPoint::from_bytes(&a.bytes).unwrap();
    let y = dalek_ff_group::RistrettoPoint::from_bytes(&b.bytes).unwrap();
    Point { bytes: (x - y).to_bytes() }
}

/// `Mul<Scalar>` of `RistrettoPoint`.
#[verifier::external_body]
fn group_mul(p: &Point, s: &Scalar) -> (r: Point)
    ensures
        r@ == point_mul(p@, s@),
{
    let x = dalek_ff_group::RistrettoPoint::from_bytes(&p.bytes).unwrap();
    let k = dalek_ff_group::Scalar::from_repr(s.to_bytes()).unwrap();
    Point { bytes: (x * k).to_bytes() }
}

/// `multiexp::multiexp` on `RistrettoPoint`: the sum of each point multiplied
/// by its scalar, the neutral element where there is no pair.
#[verifier::external_body]
fn group_multiexp(pairs: &Vec<(Scalar, Point)>) -> (r: Point)
    ensures
        r@ == msm(pairs_view(pairs@)),
{
    let mut terms = Vec::with_capacity(pairs.len());
    for (s, p) in pairs.iter() {
        let k = dalek_ff_group::Scalar::from_repr(s.to_bytes()).unwrap();
        terms.push((k, dalek_ff_group::RistrettoPoint::from_bytes(&p.bytes).unwrap()));
    }
    Point { bytes: multiexp::multiexp(&terms).to_bytes() }
}

/// `multiexp::multiexp_vartime` on `RistrettoPoint`: the same sum.
#[verifier::external_body]
fn group_multiexp_vartime(pairs: &Vec<(Scalar, Point)>) -> (r: Point)
    ensures
        r@ == msm(pairs_view(pairs@)),
{
    let mut terms = Vec::with_capacity(pairs.len());
    for (s, p) in pairs.iter() {
        let k = dalek_ff_group::Scalar::from_repr(s.to_bytes()).unwrap();
        terms.push((k, dalek_ff_group::RistrettoPoint::from_bytes(&p.bytes).unwrap()));
    }
    Point { bytes: multiexp::multiexp_vartime(&terms).to_bytes() }
}

} // verus!
