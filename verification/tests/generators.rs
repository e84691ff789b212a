use ciphersuite::group::{Group, GroupEncoding};
use rand_core::OsRng;

use generalized_bulletproofs::field::Scalar;
use generalized_bulletproofs::generators::{
  least_power_of_two, log2_of, power_of_two, Generators, GeneratorsError,
};
use generalized_bulletproofs::group::Point;
use generalized_bulletproofs::tree::{hash_grow, hash_trim};

fn random_point() -> Point {
  Point::from_bytes(dalek_ff_group::RistrettoPoint::random(&mut OsRng).to_bytes()).unwrap()
}

fn points(n: usize) -> Vec<Point> {
  (0 .. n).map(|_| random_point()).collect()
}

#[test]
fn generators_come_in_powers_of_two() {
  let g = random_point();
  let h = random_point();
  assert_eq!(Generators::new(g, h, vec![], vec![]).err(), Some(GeneratorsError::GBoldEmpty));
  assert_eq!(
    Generators::new(g, h, vec![], points(1)).err(),
    Some(GeneratorsError::GBoldEmpty)
  );
  assert_eq!(
    Generators::new(g, h, points(2), points(4)).err(),
    Some(GeneratorsError::DifferingGhBoldLengths)
  );
  assert_eq!(
    Generators::new(g, h, points(3), points(3)).err(),
    Some(GeneratorsError::NotPowerOfTwo)
  );
  assert_eq!(
    Generators::new(g, h, points(6), points(6)).err(),
    Some(GeneratorsError::NotPowerOfTwo)
  );
  for n in [1, 2, 4, 8] {
    let g_bold = points(n);
    let h_bold = points(n);
    let generators = Generators::new(g, h, g_bold.clone(), h_bold.clone()).unwrap();
    assert_eq!(generators.len(), n);
    assert_eq!(generators.g(), g);
    assert_eq!(generators.h(), h);
    assert_eq!(generators.g_bold_slice(), &g_bold);
    assert_eq!(generators.h_bold_slice(), &h_bold);
    assert_eq!(generators.clone(), generators);
  }

  assert!(power_of_two(1));
  assert!(power_of_two(64));
  assert!(!power_of_two(0));
  assert!(!power_of_two(48));
  assert_eq!(log2_of(1), 0);
  assert_eq!(log2_of(2), 1);
  assert_eq!(log2_of(64), 6);
  assert_eq!(log2_of(100), 6);
  assert_eq!(log2_of(0), 0);
  for (n, power) in [(0, 1), (1, 1), (2, 2), (3, 4), (5, 8), (64, 64), (65, 128)] {
    assert_eq!(least_power_of_two(n), power);
  }
  assert_eq!(least_power_of_two(usize::MAX), (usize::MAX as u128) + 1);
}

#[test]
fn generators_are_reduced_to_their_first() {
  let generators = Generators::new(random_point(), random_point(), points(8), points(8)).unwrap();
  assert!(generators.reduce(0).is_none());
  assert!(generators.reduce(3).is_none());
  assert!(generators.reduce(16).is_none());
  for n in [1, 2, 4, 8] {
    let reduced = generators.reduce(n).unwrap();
    assert_eq!(reduced.len(), n);
    assert_eq!(reduced.g(), generators.g());
    assert_eq!(reduced.h(), generators.h());
    assert_eq!(reduced.g_bold_slice()[..], generators.g_bold_slice()[.. n]);
    assert_eq!(reduced.h_bold_slice()[..], generators.h_bold_slice()[.. n]);
    assert_eq!(reduced.g_bold(n - 1), generators.g_bold_slice()[n - 1]);
    assert_eq!(reduced.h_bold(0), generators.h_bold_slice()[0]);
    assert_eq!(reduced.transcript().len(), 64);
    assert_eq!(reduced.clone(), reduced);
  }
}

#[test]
fn the_digest_binds_every_generator() {
  let g = random_point();
  let h = random_point();
  let g_bold = points(2);
  let h_bold = points(2);
  let digest = |g: Point, h: Point, g_bold: &Vec<Point>, h_bold: &Vec<Point>| {
    Generators::new(g, h, g_bold.clone(), h_bold.clone())
      .unwrap()
      .reduce(1)
      .unwrap()
      .transcript()
      .clone()
  };
  let base = digest(g, h, &g_bold, &h_bold);
  assert_eq!(base, digest(g, h, &g_bold, &h_bold));
  assert!(base != digest(h, g, &g_bold, &h_bold));
  assert!(base != digest(random_point(), h, &g_bold, &h_bold));
  assert!(base != digest(g, h, &h_bold, &g_bold));
  let mut swapped = g_bold.clone();
  swapped.swap(0, 1);
  assert!(base != digest(g, h, &swapped, &h_bold));
  let mut other = h_bold.clone();
  other[1] = random_point();
  assert!(base != digest(g, h, &g_bold, &other));
}

#[test]
fn the_accumulator_sums_on_the_generators() {
  let generators = Generators::new(random_point(), random_point(), points(4), points(4)).unwrap();
  let empty = generators.batch_verifier();
  assert_eq!(empty.g_bold.len(), 4);
  assert_eq!(empty.h_bold.len(), 4);
  assert_eq!(empty.h_sum.len(), 3);
  assert!(empty.fits(4));
  assert!(empty.fits(1));
  assert!(!empty.fits(8));
  assert!(generators.verify(empty.clone()));

  // g_bold[1] * 5 - (g_bold[1] * 5)
  let mut verifier = empty.clone();
  verifier.g_bold.set(1, Scalar::from_u64(5));
  assert!(!generators.verify(verifier.clone()));
  verifier.push(Scalar::one().neg(), generators.g_bold_slice()[1].mul(&Scalar::from_u64(5)));
  assert!(generators.verify(verifier));

  // g * 2 + h * 3 - (g * 2 + h * 3)
  let mut verifier = empty.clone();
  verifier.g = Scalar::from_u64(2);
  verifier.h = Scalar::from_u64(3);
  verifier.push(
    Scalar::one().neg(),
    generators.g().mul(&Scalar::from_u64(2)).add(&generators.h().mul(&Scalar::from_u64(3))),
  );
  assert!(generators.verify(verifier));

  // The sums of the first 1, 2 and 4 of h_bold
  let h_bold = generators.h_bold_slice();
  let sums = [
    h_bold[0],
    h_bold[0].add(&h_bold[1]),
    h_bold[0].add(&h_bold[1]).add(&h_bold[2]).add(&h_bold[3]),
  ];
  for i in 0 .. 3 {
    let mut verifier = empty.clone();
    verifier.h_sum.set(i, Scalar::from_u64(7));
    verifier.push(Scalar::from_u64(7).neg(), sums[i]);
    assert!(generators.verify(verifier));
  }

  // Weights on h_bold, each added under another weight
  let mut verifier = empty.clone();
  verifier.add_h_bold(&Scalar::from_u64(2), &generalized_bulletproofs::scalar_vector::ScalarVector(vec![
    Scalar::from_u64(3),
    Scalar::from_u64(4),
  ]));
  verifier.add_g_bold(&Scalar::from_u64(5), &generalized_bulletproofs::scalar_vector::ScalarVector(vec![
    Scalar::from_u64(6),
  ]));
  assert_eq!(verifier.h_bold.get(0), Scalar::from_u64(6));
  assert_eq!(verifier.h_bold.get(1), Scalar::from_u64(8));
  assert_eq!(verifier.h_bold.get(2), Scalar::zero());
  assert_eq!(verifier.g_bold.get(0), Scalar::from_u64(30));
  verifier.push_weighted(
    &Scalar::one().neg(),
    &generalized_bulletproofs::scalar_vector::ScalarVector(vec![
      Scalar::zero(),
      Scalar::from_u64(6),
      Scalar::from_u64(8),
      Scalar::from_u64(30),
    ]),
    1,
    &vec![h_bold[0], h_bold[1], generators.g_bold_slice()[0]],
  );
  assert!(generators.verify(verifier));
}

#[test]
fn hashes_grow_and_are_trimmed() {
  let generators = Generators::new(random_point(), random_point(), points(4), points(4)).unwrap();
  let g_bold = generators.g_bold_slice();
  let start = random_point();
  let children = [Scalar::from_u64(3), Scalar::from_u64(5), Scalar::from_u64(7)];

  let hash = hash_grow(&generators, start, 0, Scalar::zero(), &children).unwrap();
  assert_eq!(
    hash,
    start
      .add(&g_bold[0].mul(&children[0]))
      .add(&g_bold[1].mul(&children[1]))
      .add(&g_bold[2].mul(&children[2]))
  );

  // The last child is replaced, and another added behind it
  let grown =
    hash_grow(&generators, hash, 2, children[2], &[Scalar::from_u64(11), Scalar::from_u64(13)])
      .unwrap();
  assert_eq!(
    grown,
    hash_grow(
      &generators,
      start,
      0,
      Scalar::zero(),
      &[children[0], children[1], Scalar::from_u64(11), Scalar::from_u64(13)]
    )
    .unwrap()
  );

  // The two children which were added last are removed
  let trimmed =
    hash_trim(&generators, grown, 2, &[Scalar::from_u64(11), Scalar::from_u64(13)]).unwrap();
  assert_eq!(
    trimmed,
    hash_grow(&generators, start, 0, Scalar::zero(), &[children[0], children[1]]).unwrap()
  );
  assert_eq!(hash_trim(&generators, grown, 0, &[]), Some(grown));
  assert_eq!(hash_trim(&generators, grown, 9, &[]), Some(grown));

  // No child, and children beyond the generators
  assert_eq!(hash_grow(&generators, start, 0, Scalar::zero(), &[]), None);
  assert_eq!(hash_grow(&generators, start, 2, Scalar::zero(), &children), None);
  assert_eq!(hash_grow(&generators, start, 4, Scalar::zero(), &children[.. 1]), None);
  assert_eq!(hash_grow(&generators, start, usize::MAX, Scalar::zero(), &children), None);
  assert!(hash_grow(&generators, start, 1, Scalar::zero(), &children).is_some());
  assert_eq!(hash_trim(&generators, start, 2, &children), None);
  assert_eq!(hash_trim(&generators, start, usize::MAX, &children[.. 1]), None);
}
