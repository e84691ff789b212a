//! Elements of the scalar field of the Ristretto group.
//!
//! A [`Scalar`] is held as its canonical 32-byte little-endian encoding, and
//! its view is the integer below the group order which those bytes spell.
//! The arithmetic itself is done by `dalek-ff-group`; every operation is
//! stated here as arithmetic modulo [`order`].
use ciphersuite::group::ff::{Field, PrimeField};
use ciphersuite::{Ciphersuite, Ristretto};
use vstd::arithmetic::power2::pow2;
use vstd::prelude::*;

verus! {

/// The prime order of the group, `2^252 + 27742317777372353535851937790883648493`.
pub open spec fn order() -> nat {
    pow2(252) + 0x14def9dea2f79cd65812631a5cf5d3ed
}

/// The integer which a little-endian byte string spells.
pub open spec fn le_nat(bytes: Seq<u8>) -> nat
    decreases bytes.len(),
{
    if bytes.len() == 0 {
        0
    } else {
        bytes[0] as nat + 256 * le_nat(bytes.skip(1))
    }
}

/// The `len` bytes which spell `x` in little-endian order.
pub open spec fn le_bytes(x: nat, len: nat) -> Seq<u8>
    decreases len,
{
    if len == 0 {
        Seq::empty()
    } else {
        seq![(x % 256) as u8] + le_bytes(x / 256, (len - 1) as nat)
    }
}

/// Addition in the field.
pub open spec fn field_add(a: nat, b: nat) -> nat {
    (a + b) % order()
}

/// Subtraction in the field.
pub open spec fn field_sub(a: nat, b: nat) -> nat {
    ((a as int - b as int) % (order() as int)) as nat
}

/// Multiplication in the field.
pub open spec fn field_mul(a: nat, b: nat) -> nat {
    (a * b) % order()
}

/// Negation in the field.
pub open spec fn field_neg(a: nat) -> nat {
    field_sub(0, a)
}

/// Whether `b` is the inverse of `a` in the field.
pub open spec fn is_field_inverse(a: nat, b: nat) -> bool {
    b < order() && field_mul(a, b) == 1
}

/// The inverse of a non-zero element of the field.
pub open spec fn field_inv(a: nat) -> nat {
    choose|b: nat| is_field_inverse(a, b)
}

/// The scalar which `Ristretto::hash_to_F` derives from a domain-separation
/// tag and a message.
pub uninterp spec fn hashed_scalar(dst: Seq<char>, msg: Seq<u8>) -> nat;

/// The order is above one.
pub proof fn lemma_order_positive()
    ensures
        order() > 1,
{
    vstd::arithmetic::power2::lemma_pow2_pos(252);
}

/// Zero bytes spell zero.
pub proof fn lemma_le_nat_zeros(s: Seq<u8>)
    requires
        forall|i: int| 0 <= i < s.len() ==> s[i] == 0,
    ensures
        le_nat(s) == 0,
    decreases s.len(),
{
    if s.len() > 0 {
        lemma_le_nat_zeros(s.skip(1));
    }
}

/// Byte strings of one length which spell the same integer are equal.
pub proof fn lemma_le_nat_injective(a: Seq<u8>, b: Seq<u8>)
    requires
        a.len() == b.len(),
        le_nat(a) == le_nat(b),
    ensures
        a == b,
    decreases a.len(),
{
    if a.len() > 0 {
        let x = le_nat(a.skip(1));
        let y = le_nat(b.skip(1));
        assert(x == y && a[0] == b[0]) by (nonlinear_arith)
            requires
                a[0] as nat + 256 * x == b[0] as nat + 256 * y,
                a[0] < 256,
                b[0] < 256,
        ;
        lemma_le_nat_injective(a.skip(1), b.skip(1));
        assert forall|i: int| 0 <= i < a.len() implies a[i] == b[i] by {
            if i > 0 {
                assert(a[i] == a.skip(1)[i - 1]);
            }
        }
    }
}

/// A byte string is the one which spells its integer.
pub proof fn lemma_le_bytes_of_le_nat(s: Seq<u8>)
    ensures
        le_bytes(le_nat(s), s.len()) == s,
    decreases s.len(),
{
    if s.len() > 0 {
        let rest = le_nat(s.skip(1));
        lemma_le_bytes_of_le_nat(s.skip(1));
        assert((s[0] as nat + 256 * rest) % 256 == s[0] as nat && (s[0] as nat + 256 * rest) / 256
            == rest) by (nonlinear_arith)
            requires
                s[0] < 256,
        ;
    }
}

/// One is the neutral element of the multiplication.
pub proof fn lemma_mul_one(a: nat)
    requires
        a < order(),
    ensures
        field_mul(1, a) == a,
        field_mul(a, 1) == a,
{
    vstd::arithmetic::div_mod::lemma_small_mod(a, order());
}

/// An element of the scalar field.
#[derive(Clone, Copy, Debug, PartialEq, Eq)]
pub struct Scalar {
    bytes: [u8; 32],
}

/// The operating system's generator of `rand_core`, of which nothing is known.
#[verifier::external_type_specification]
#[verifier::external_body]
pub struct ExOsRng(rand_core::OsRng);

impl Scalar {
    /// The encoding is canonical: it spells an integer below the order.
    #[verifier::type_invariant]
    pub closed spec fn canonical(self) -> bool {
        le_nat(self.bytes@) < order()
    }

    /// The integer this scalar stands for.
    pub closed spec fn view(&self) -> nat {
        le_nat(self.bytes@)
    }

    /// The additive identity.
    pub fn zero() -> (r: Scalar)
        ensures
            r@ == 0,
    {
        let bytes = [0u8; 32];
        proof {
            lemma_le_nat_zeros(bytes@);
            lemma_order_positive();
        }
        Scalar { bytes }
    }

    /// The multiplicative identity.
    pub fn one() -> (r: Scalar)
        ensures
            r@ == 1,
    {
        let mut bytes = [0u8; 32];
        bytes[0] = 1;
        proof {
            lemma_le_nat_zeros(bytes@.skip(1));
            lemma_order_positive();
        }
        Scalar { bytes }
    }

    /// The scalar which stands for a small integer.
    pub fn from_u64(value: u64) -> (r: Scalar)
        ensures
            r@ == value,
    {
        scalar_from_u64(value)
    }

    /// Reads a scalar from its canonical encoding.
    pub fn from_bytes(bytes: [u8; 32]) -> (r: Option<Scalar>)
        ensures
            r.is_some() == (le_nat(bytes@) < order()),
            r matches Some(s) ==> s@ == le_nat(bytes@) && s.encoding() == bytes@,
    {
        scalar_from_repr(bytes)
    }

    /// The canonical encoding, as a sequence.
    pub closed spec fn encoding(&self) -> Seq<u8> {
        self.bytes@
    }

    /// The canonical encoding.
    pub fn to_bytes(&self) -> (r: [u8; 32])
        ensures
            r@ == self.encoding(),
            r@ == le_bytes(self@, 32),
            le_nat(r@) == self@,
    {
        proof {
            lemma_le_bytes_of_le_nat(self.bytes@);
        }
        self.bytes
    }

    /// What the view of any scalar is bounded by.
    pub fn bounded(&self)
        ensures
            self@ < order(),
            self.encoding().len() == 32,
            le_nat(self.encoding()) == self@,
    {
        proof {
            use_type_invariant(self);
        }
    }

    /// Whether two stand for the same value. Every byte is looked at,
    /// whatever the bytes before it were.
    pub fn equals(&self, other: &Scalar) -> (r: bool)
        ensures
            r == (self@ == other@),
    {
        let mut differing: u8 = 0;
        let mut i: usize = 0;
        while i < 32
            invariant
                i <= 32,
                (differing == 0) == (forall|k: int|
                    0 <= k < i ==> self.bytes@[k] == other.bytes@[k]),
            decreases 32 - i,
        {
            let x: u8 = self.bytes[i];
            let y: u8 = other.bytes[i];
            assert(((differing | (x ^ y)) == 0) == (differing == 0 && x == y)) by (bit_vector);
            differing = differing | (x ^ y);
            i += 1;
        }
        proof {
            if differing == 0 {
                assert(self.bytes@ =~= other.bytes@);
            } else if self@ == other@ {
                lemma_le_nat_injective(self.bytes@, other.bytes@);
            }
        }
        differing == 0
    }

    /// Whether this is the additive identity.
    pub fn is_zero(&self) -> (r: bool)
        ensures
            r == (self@ == 0),
    {
        let zero = Scalar::zero();
        self.equals(&zero)
    }

    /// The sum.
    pub fn add(&self, other: &Scalar) -> (r: Scalar)
        ensures
            r@ == field_add(self@, other@),
    {
        scalar_add(self, other)
    }

    /// The difference.
    pub fn sub(&self, other: &Scalar) -> (r: Scalar)
        ensures
            r@ == field_sub(self@, other@),
    {
        scalar_sub(self, other)
    }

    /// The product.
    pub fn mul(&self, other: &Scalar) -> (r: Scalar)
        ensures
            r@ == field_mul(self@, other@),
    {
        scalar_mul(self, other)
    }

    /// The additive inverse.
    pub fn neg(&self) -> (r: Scalar)
        ensures
            r@ == field_neg(self@),
    {
        scalar_neg(self)
    }

    /// The inverse, or `None` for zero.
    pub fn invert(&self) -> (r: Option<Scalar>)
        ensures
            r.is_some() == (self@ != 0),
            r matches Some(inv) ==> inv@ == field_inv(self@) && is_field_inverse(self@, inv@),
    {
        scalar_invert(self)
    }

    /// A scalar drawn from the operating system's generator.
    pub fn random(rng: &mut rand_core::OsRng) -> (r: Scalar) {
        scalar_random(rng)
    }

    /// The scalar derived from a tag and a message by hashing.
    pub fn hash(dst: &str, msg: &[u8]) -> (r: Scalar)
        ensures
            r@ == hashed_scalar(dst@, msg@),
    {
        scalar_hash(dst, msg)
    }

    /// Overwrites the scalar with zero.
    pub fn zeroize(&mut self)
        ensures
            final(self)@ == 0,
    {
        let mut bytes = self.bytes;
        wipe(&mut bytes);
        proof {
            lemma_le_nat_zeros(bytes@);
            lemma_order_positive();
        }
        self.bytes = bytes;
    }
}

/// `From<u64>` of `dalek_ff_group::Scalar`: the scalar which stands for the
/// integer, which is below the order and so unchanged.
#[verifier::external_body]
fn scalar_from_u64(value: u64) -> (r: Scalar)
    ensures
        r@ == value,
{
    Scalar { bytes: dalek_ff_group::Scalar::from(value).to_repr() }
}

/// `PrimeField::from_repr` of `dalek_ff_group::Scalar`: accepts exactly the
/// encodings of integers below the order, and keeps the bytes.
#[verifier::external_body]
fn scalar_from_repr(bytes: [u8; 32]) -> (r: Option<Scalar>)
    ensures
        r.is_some() == (le_nat(bytes@) < order()),
        r matches Some(s) ==> s.bytes == bytes,
{
    match Option::<dalek_ff_group::Scalar>::from(dalek_ff_group::Scalar::from_repr(bytes)) {
        Some(s) => Some(Scalar { bytes: s.to_repr() }),
        None => None,
    }
}

/// `Add` of `dalek_ff_group::Scalar`: the sum modulo the order.
#[verifier::external_body]
fn scalar_add(a: &Scalar, b: &Scalar) -> (r: Scalar)
    ensures
        r@ == field_add(a@, b@),
{
    let x = dalek_ff_group::Scalar::from_repr(a.bytes).unwrap();
    let y = dalek_ff_group::Scalar::from_repr(b.bytes).unwrap();
    Scalar { bytes: (x + y).to_repr() }
}

/// `Sub` of `dalek_ff_group::Scalar`: the difference modulo the order.
#[verifier::external_body]
fn scalar_sub(a: &Scalar, b: &Scalar) -> (r: Scalar)
    ensures
        r@ == field_sub(a@, b@),
{
    let x = dalek_ff_group::Scalar::from_repr(a.bytes).unwrap();
    let y = dalek_ff_group::Scalar::from_repr(b.bytes).unwrap();
    Scalar { bytes: (x - y).to_repr() }
}

/// `Mul` of `dalek_ff_group::Scalar`: the product modulo the order.
#[verifier::external_body]
fn scalar_mul(a: &Scalar, b: &Scalar) -> (r: Scalar)
    ensures
        r@ == field_mul(a@, b@),
{
    let x = dalek_ff_group::Scalar::from_repr(a.bytes).unwrap();
    let y = dalek_ff_group::Scalar::from_repr(b.bytes).unwrap();
    Scalar { bytes: (x * y).to_repr() }
}

/// `Neg` of `dalek_ff_group::Scalar`: the additive inverse modulo the order.
#[verifier::external_body]
fn scalar_neg(a: &Scalar) -> (r: Scalar)
    ensures
        r@ == field_neg(a@),
{
    let x = dalek_ff_group::Scalar::from_repr(a.bytes).unwrap();
    Scalar { bytes: (-x).to_repr() }
}

/// `Field::invert` of `dalek_ff_group::Scalar`: none for zero, and otherwise
/// the one element below the order whose product with the argument is one.
#[verifier::external_body]
fn scalar_invert(a: &Scalar) -> (r: Option<Scalar>)
    ensures
        r.is_some() == (a@ != 0),
        r matches Some(inv) ==> inv@ == field_inv(a@) && is_field_inverse(a@, inv@),
{
    let x = dalek_ff_group::Scalar::from_repr(a.bytes).unwrap();
    match Option::<dalek_ff_group::Scalar>::from(x.invert()) {
        Some(s) => Some(Scalar { bytes: s.to_repr() }),
        None => None,
    }
}

/// `Field::random` of `dalek_ff_group::Scalar`, on the operating system's
/// generator: some scalar, of which nothing more is known.
#[verifier::external_body]
fn scalar_random(rng: &mut rand_core::OsRng) -> (r: Scalar) {
    Scalar { bytes: dalek_ff_group::Scalar::random(rng).to_repr() }
}

/// `Ciphersuite::hash_to_F` of `Ristretto`: a scalar which depends on the
/// tag's bytes and the message alone.
#[verifier::external_body]
fn scalar_hash(dst: &str, msg: &[u8]) -> (r: Scalar)
    ensures
        r@ == hashed_scalar(dst@, msg@),
{
    Scalar { bytes: Ristretto::hash_to_F(dst.as_bytes(), msg).to_repr() }
}

/// `Zeroize::zeroize` on a byte array: every byte becomes zero.
#[verifier::external_body]
fn wipe(bytes: &mut [u8; 32])
    ensures
        forall|i: int| 0 <= i < 32 ==> final(bytes)@[i] == 0,
{
    zeroize::Zeroize::zeroize(bytes);
}

} // verus!
