use ciphersuite::group::ff::{Field, PrimeField};
use ciphersuite::group::{Group, GroupEncoding};
use ciphersuite::{Ciphersuite, Ristretto};
use rand_core::OsRng;

use generalized_bulletproofs::commitment::{PedersenCommitment, PedersenVectorCommitment};
use generalized_bulletproofs::field::Scalar;
use generalized_bulletproofs::group::{multiexp, multiexp_vartime, Point};
use generalized_bulletproofs::point_vector::PointVector;
use generalized_bulletproofs::scalar_vector::ScalarVector;

// The order of the group, less one, in little-endian bytes
const ORDER_LESS_ONE: [u8; 32] = [
  0xec, 0xd3, 0xf5, 0x5c, 0x1a, 0x63, 0x12, 0x58, 0xd6, 0x9c, 0xf7, 0xa2, 0xde, 0xf9, 0xde, 0x14,
  0, 0, 0, 0, 0, 0, 0, 0, 0, 0, 0, 0, 0, 0, 0, 0x10,
];

fn random_point() -> Point {
  Point::from_bytes(dalek_ff_group::RistrettoPoint::random(&mut OsRng).to_bytes()).unwrap()
}

fn outside(scalar: &Scalar) -> dalek_ff_group::Scalar {
  dalek_ff_group::Scalar::from_repr(scalar.to_bytes()).unwrap()
}

#[test]
fn scalars_are_integers_below_the_order() {
  assert_eq!(Scalar::zero().to_bytes(), [0; 32]);
  let mut one = [0; 32];
  one[0] = 1;
  assert_eq!(Scalar::one().to_bytes(), one);
  assert_eq!(Scalar::from_u64(1), Scalar::one());
  assert_eq!(Scalar::from_u64(0), Scalar::zero());
  let mut bytes = [0; 32];
  bytes[0] = 0x02;
  bytes[1] = 0x01;
  assert_eq!(Scalar::from_u64(258).to_bytes(), bytes);
  assert_eq!(Scalar::from_bytes(bytes), Some(Scalar::from_u64(258)));

  // The highest scalar is accepted, the order itself and what lies above it are not
  let highest = Scalar::from_bytes(ORDER_LESS_ONE).unwrap();
  assert_eq!(highest.to_bytes(), ORDER_LESS_ONE);
  let mut order = ORDER_LESS_ONE;
  order[0] += 1;
  assert_eq!(Scalar::from_bytes(order), None);
  assert_eq!(Scalar::from_bytes([0xff; 32]), None);

  assert!(Scalar::zero().is_zero());
  assert!(!Scalar::one().is_zero());
  assert!(Scalar::from_u64(7).equals(&Scalar::from_u64(7)));
  assert!(!Scalar::from_u64(7).equals(&Scalar::from_u64(8)));
}

#[test]
fn scalar_arithmetic_is_modular() {
  let highest = Scalar::from_bytes(ORDER_LESS_ONE).unwrap();
  assert_eq!(Scalar::from_u64(2).add(&Scalar::from_u64(3)), Scalar::from_u64(5));
  assert_eq!(highest.add(&Scalar::one()), Scalar::zero());
  assert_eq!(highest.add(&Scalar::from_u64(5)), Scalar::from_u64(4));

  assert_eq!(Scalar::from_u64(5).sub(&Scalar::from_u64(3)), Scalar::from_u64(2));
  assert_eq!(Scalar::zero().sub(&Scalar::one()), highest);
  assert_eq!(Scalar::from_u64(3).sub(&Scalar::from_u64(5)), highest.sub(&Scalar::one()));

  assert_eq!(Scalar::from_u64(6).mul(&Scalar::from_u64(7)), Scalar::from_u64(42));
  // (-1) * (-1) = 1
  assert_eq!(highest.mul(&highest), Scalar::one());
  assert_eq!(
    Scalar::from_u64(u64::MAX).mul(&Scalar::from_u64(2)),
    Scalar::from_u64(u64::MAX).add(&Scalar::from_u64(u64::MAX))
  );

  assert_eq!(Scalar::one().neg(), highest);
  assert_eq!(Scalar::zero().neg(), Scalar::zero());
  assert_eq!(Scalar::from_u64(5).neg().add(&Scalar::from_u64(5)), Scalar::zero());

  assert_eq!(Scalar::zero().invert(), None);
  assert_eq!(Scalar::one().invert(), Some(Scalar::one()));
  assert_eq!(highest.invert(), Some(highest));
  let x = Scalar::random(&mut OsRng);
  let inverse = x.invert().unwrap();
  assert_eq!(x.mul(&inverse), Scalar::one());
  assert!(inverse != x);
}

#[test]
fn scalar_arithmetic_is_that_of_the_group() {
  for _ in 0 .. 8 {
    let a = Scalar::random(&mut OsRng);
    let b = Scalar::random(&mut OsRng);
    assert_eq!(outside(&a.add(&b)), outside(&a) + outside(&b));
    assert_eq!(outside(&a.sub(&b)), outside(&a) - outside(&b));
    assert_eq!(outside(&a.mul(&b)), outside(&a) * outside(&b));
    assert_eq!(outside(&a.neg()), -outside(&a));
    assert_eq!(outside(&a.invert().unwrap()), outside(&a).invert().unwrap());
  }
  assert!(Scalar::random(&mut OsRng) != Scalar::random(&mut OsRng));
}

#[test]
fn hashing_to_a_scalar() {
  let hashed = Scalar::hash("tag", b"message");
  assert_eq!(outside(&hashed), Ristretto::hash_to_F(b"tag", b"message"));
  assert_eq!(hashed, Scalar::hash("tag", b"message"));
  assert!(hashed != Scalar::hash("tag", b"another message"));
  assert!(hashed != Scalar::hash("another tag", b"message"));
  // The tag is put before the message
  assert_eq!(Scalar::hash("tagmess", b"age"), hashed);
  // A known value
  let message: Vec<u8> = (0u8 .. 64).collect();
  assert_eq!(
    outside(&Scalar::hash("FROST-RISTRETTO255-SHA512-v11nonce", &message)),
    Ristretto::hash_to_F(b"FROST-RISTRETTO255-SHA512-v11nonce", &message)
  );
}

#[test]
fn scalars_are_wiped() {
  let mut scalar = Scalar::from_u64(77);
  scalar.zeroize();
  assert_eq!(scalar, Scalar::zero());
  let mut vector = ScalarVector(vec![Scalar::from_u64(3), Scalar::from_u64(4)]);
  vector.zeroize();
  assert_eq!(vector, ScalarVector::new(2));
  let mut opening =
    PedersenCommitment { value: Scalar::from_u64(3), mask: Scalar::from_u64(4) };
  opening.zeroize();
  assert_eq!(opening, PedersenCommitment { value: Scalar::zero(), mask: Scalar::zero() });
  let mut opening = PedersenVectorCommitment {
    g_values: ScalarVector(vec![Scalar::from_u64(3)]),
    h_values: ScalarVector(vec![Scalar::from_u64(4), Scalar::from_u64(5)]),
    mask: Scalar::from_u64(6),
  };
  opening.zeroize();
  assert_eq!(
    opening,
    PedersenVectorCommitment {
      g_values: ScalarVector::new(1),
      h_values: ScalarVector::new(2),
      mask: Scalar::zero(),
    }
  );
}

#[test]
fn points_are_their_encodings() {
  assert_eq!(Point::identity().to_bytes(), [0; 32]);
  assert!(Point::identity().is_identity());
  assert_eq!(Point::from_bytes([0; 32]), Some(Point::identity()));
  // Not the encoding of a point
  assert_eq!(Point::from_bytes([0xff; 32]), None);
  let mut negative = [0; 32];
  negative[0] = 1;
  assert_eq!(Point::from_bytes(negative), None);

  let generator = dalek_ff_group::RistrettoPoint::generator().to_bytes();
  let point = Point::from_bytes(generator).unwrap();
  assert_eq!(point.to_bytes(), generator);
  assert!(!point.is_identity());
  assert!(point.equals(&point));
  assert!(!point.equals(&Point::identity()));
}

#[test]
fn the_group_law() {
  let p = random_point();
  let q = random_point();
  assert!(p != q);
  let sum = p.add(&q);
  assert!(sum != p);
  assert!(sum != q);
  assert_eq!(sum, q.add(&p));
  assert_eq!(sum.sub(&q), p);
  assert_eq!(p.sub(&p), Point::identity());
  assert_eq!(p.add(&Point::identity()), p);

  assert_eq!(p.mul(&Scalar::zero()), Point::identity());
  assert_eq!(p.mul(&Scalar::one()), p);
  assert_eq!(p.mul(&Scalar::from_u64(2)), p.add(&p));
  assert_eq!(p.mul(&Scalar::from_u64(3)), p.add(&p).add(&p));
  assert_eq!(p.mul(&Scalar::one().neg()).add(&p), Point::identity());

  let decode = |point: &Point| {
    Option::<dalek_ff_group::RistrettoPoint>::from(dalek_ff_group::RistrettoPoint::from_bytes(
      &point.to_bytes(),
    ))
    .unwrap()
  };
  let scalar = Scalar::random(&mut OsRng);
  assert_eq!(decode(&p.add(&q)), decode(&p) + decode(&q));
  assert_eq!(decode(&p.sub(&q)), decode(&p) - decode(&q));
  assert_eq!(decode(&p.mul(&scalar)), decode(&p) * outside(&scalar));
}

#[test]
fn multiexponentiation_is_the_sum_of_the_products() {
  assert_eq!(multiexp(&vec![]), Point::identity());
  assert_eq!(multiexp_vartime(&vec![]), Point::identity());

  let p = random_point();
  assert_eq!(multiexp(&vec![(Scalar::from_u64(5), p)]), p.mul(&Scalar::from_u64(5)));
  assert_eq!(multiexp_vartime(&vec![(Scalar::from_u64(5), p)]), p.mul(&Scalar::from_u64(5)));

  for len in [2, 3, 12, 30, 120] {
    let mut pairs = vec![];
    let mut sum = Point::identity();
    for _ in 0 .. len {
      let pair = (Scalar::random(&mut OsRng), random_point());
      sum = sum.add(&pair.1.mul(&pair.0));
      pairs.push(pair);
    }
    assert_eq!(multiexp(&pairs), sum);
    assert_eq!(multiexp_vartime(&pairs), sum);
  }
}

#[test]
fn commitments_are_sums_on_the_generators() {
  let g = random_point();
  let h = random_point();
  let opening = PedersenCommitment { value: Scalar::from_u64(5), mask: Scalar::from_u64(7) };
  assert_eq!(
    opening.commit(&g, &h),
    g.mul(&Scalar::from_u64(5)).add(&h.mul(&Scalar::from_u64(7)))
  );

  let g_bold = vec![random_point(), random_point(), random_point()];
  let h_bold = vec![random_point(), random_point(), random_point()];
  let opening = PedersenVectorCommitment {
    g_values: ScalarVector(vec![Scalar::from_u64(2), Scalar::from_u64(3)]),
    h_values: ScalarVector(vec![Scalar::from_u64(4), Scalar::from_u64(5), Scalar::from_u64(6)]),
    mask: Scalar::from_u64(9),
  };
  let expected = g_bold[0]
    .mul(&Scalar::from_u64(2))
    .add(&g_bold[1].mul(&Scalar::from_u64(3)))
    .add(&h_bold[0].mul(&Scalar::from_u64(4)))
    .add(&h_bold[1].mul(&Scalar::from_u64(5)))
    .add(&h_bold[2].mul(&Scalar::from_u64(6)))
    .add(&h.mul(&Scalar::from_u64(9)));
  assert_eq!(opening.commit(&g_bold, &h_bold, &h), expected);
}

#[test]
fn vectors_of_points() {
  let points = PointVector(vec![random_point(), random_point(), random_point(), random_point()]);
  assert_eq!(points.len(), 4);
  assert_eq!(points.get(2), points.0[2]);
  let scalars = ScalarVector(vec![
    Scalar::from_u64(2),
    Scalar::from_u64(3),
    Scalar::from_u64(4),
    Scalar::from_u64(5),
  ]);
  let scaled = points.mul_vec(&scalars);
  for i in 0 .. 4 {
    assert_eq!(scaled.0[i], points.0[i].mul(&scalars.0[i]));
  }
  assert_eq!(
    points.multiexp(&scalars),
    scaled.0[0].add(&scaled.0[1]).add(&scaled.0[2]).add(&scaled.0[3])
  );
  let (low, high) = points.split();
  assert_eq!(low, PointVector(vec![points.0[0], points.0[1]]));
  assert_eq!(high, PointVector(vec![points.0[2], points.0[3]]));
  let folded = low.fold(&high, &Scalar::from_u64(7), &Scalar::from_u64(11));
  assert_eq!(folded.len(), 2);
  assert_eq!(
    folded.0[1],
    points.0[1].mul(&Scalar::from_u64(7)).add(&points.0[3].mul(&Scalar::from_u64(11)))
  );
  let mut wiped = points.clone();
  wiped.zeroize();
  assert_eq!(wiped, PointVector(vec![Point::identity(); 4]));
}
