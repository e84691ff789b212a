// The inner product relation is P = sum(g_bold * a, h_bold * b, g * (a * b))

use ciphersuite::group::{Group, GroupEncoding};
use rand_core::OsRng;

use generalized_bulletproofs::field::Scalar;
use generalized_bulletproofs::generators::Generators;
use generalized_bulletproofs::group::Point;
use generalized_bulletproofs::inner_product::{IpError, IpStatement, IpWitness};
use generalized_bulletproofs::point_vector::PointVector;
use generalized_bulletproofs::scalar_vector::ScalarVector;
use generalized_bulletproofs::transcript::Transcript;

fn random_point() -> Point {
  Point::from_bytes(dalek_ff_group::RistrettoPoint::random(&mut OsRng).to_bytes()).unwrap()
}

fn generators(n: usize) -> Generators {
  let mut g_bold = vec![];
  let mut h_bold = vec![];
  for _ in 0 .. n {
    g_bold.push(random_point());
    h_bold.push(random_point());
  }
  Generators::new(random_point(), random_point(), g_bold, h_bold).unwrap()
}

#[test]
fn test_zero_inner_product() {
  let P = Point::identity();

  let generators = generators(1);
  let reduced = generators.reduce(1).unwrap();
  let statement =
    IpStatement::new(reduced, ScalarVector(vec![Scalar::one(); 1]), Scalar::one(), P).unwrap();
  let witness = IpWitness::new(ScalarVector::new(1), ScalarVector::new(1)).unwrap();

  let mut transcript = Transcript::new("Zero IP Test");
  let proof = statement.clone().prove(&mut transcript.clone(), witness).unwrap().unwrap();

  let mut verifier = generators.batch_verifier();
  statement.verify(&mut OsRng, &mut verifier, &mut transcript, proof).unwrap().unwrap();
  assert!(generators.verify(verifier));
}

#[test]
fn test_inner_product() {
  // P = sum(g_bold * a, h_bold * b)
  let generators = generators(32);
  let mut verifier = generators.batch_verifier();
  for i in [1, 2, 4, 8, 16, 32] {
    let generators = generators.reduce(i).unwrap();
    let g = generators.g();
    assert_eq!(generators.len(), i);
    let mut g_bold = vec![];
    let mut h_bold = vec![];
    for i in 0 .. i {
      g_bold.push(generators.g_bold(i));
      h_bold.push(generators.h_bold(i));
    }
    let g_bold = PointVector(g_bold);
    let h_bold = PointVector(h_bold);

    let mut a = ScalarVector::new(i);
    let mut b = ScalarVector::new(i);

    for i in 0 .. i {
      a.set(i, Scalar::random(&mut OsRng));
      b.set(i, Scalar::random(&mut OsRng));
    }

    let P = g_bold.multiexp(&a).add(&h_bold.multiexp(&b)).add(&g.mul(&a.inner_product(&b)));

    let statement =
      IpStatement::new(generators, ScalarVector(vec![Scalar::one(); i]), Scalar::one(), P).unwrap();
    let witness = IpWitness::new(a, b).unwrap();

    let mut transcript = Transcript::new("IP Test");
    let proof = statement.clone().prove(&mut transcript.clone(), witness).unwrap().unwrap();
    statement.verify(&mut OsRng, &mut verifier, &mut transcript, proof).unwrap().unwrap();
  }
  assert!(generators.verify(verifier));
}

#[test]
fn inner_product_rejects_wrong_point() {
  let generators = generators(4);
  let reduced = generators.reduce(4).unwrap();
  let mut a = ScalarVector::new(4);
  let mut b = ScalarVector::new(4);
  for i in 0 .. 4 {
    a.set(i, Scalar::from_u64(3 + (i as u64)));
    b.set(i, Scalar::from_u64(11 * (1 + (i as u64))));
  }
  // A point which does not commit to the vectors
  let P = reduced.g().mul(&Scalar::from_u64(5));
  let statement =
    IpStatement::new(reduced, ScalarVector(vec![Scalar::one(); 4]), Scalar::one(), P).unwrap();
  let witness = IpWitness::new(a, b).unwrap();
  let mut transcript = Transcript::new("IP Test");
  let proof = statement.clone().prove(&mut transcript.clone(), witness).unwrap().unwrap();
  assert_eq!(proof.L.len(), 2);
  assert_eq!(proof.R.len(), 2);
  let mut verifier = generators.batch_verifier();
  statement.verify(&mut OsRng, &mut verifier, &mut transcript, proof).unwrap().unwrap();
  assert!(!generators.verify(verifier));
}

#[test]
fn inner_product_shape_errors() {
  let generators = generators(4);
  let reduced = generators.reduce(4).unwrap();
  assert_eq!(
    IpStatement::new(
      reduced.clone(),
      ScalarVector(vec![Scalar::one(); 3]),
      Scalar::one(),
      Point::identity()
    )
    .err(),
    Some(IpError::IncorrectAmountOfGenerators)
  );
  assert!(IpWitness::new(ScalarVector::new(0), ScalarVector::new(0)).is_none());
  assert!(IpWitness::new(ScalarVector::new(2), ScalarVector::new(3)).is_none());

  let statement = IpStatement::new(
    reduced,
    ScalarVector(vec![Scalar::one(); 4]),
    Scalar::one(),
    Point::identity(),
  )
  .unwrap();
  // A witness of another size than the generators
  let short = IpWitness::new(ScalarVector::new(2), ScalarVector::new(2)).unwrap();
  let mut transcript = Transcript::new("IP Test");
  let before = transcript.clone().challenge("next");
  assert_eq!(
    statement.clone().prove(&mut transcript, short).unwrap().err(),
    Some(IpError::IncorrectAmountOfGenerators)
  );
  // Nothing was written to the transcript
  assert_eq!(transcript.clone().challenge("next"), before);

  let witness = IpWitness::new(ScalarVector::new(4), ScalarVector::new(4)).unwrap();
  let proof = statement.clone().prove(&mut transcript.clone(), witness).unwrap().unwrap();

  let mut verifier = generators.batch_verifier();
  let untouched = verifier.clone();
  let mut lopsided = proof.clone();
  lopsided.R.pop();
  assert_eq!(
    statement.clone().verify(&mut OsRng, &mut verifier, &mut transcript.clone(), lopsided).unwrap().err(),
    Some(IpError::DifferingLrLengths)
  );
  let mut short = proof.clone();
  short.L.pop();
  short.R.pop();
  assert_eq!(
    statement.clone().verify(&mut OsRng, &mut verifier, &mut transcript.clone(), short).unwrap().err(),
    Some(IpError::IncorrectAmountOfGenerators)
  );
  assert_eq!(verifier, untouched);
}

#[test]
fn witness_is_padded_to_a_power_of_two() {
  let generators = generators(4);
  let reduced = generators.reduce(4).unwrap();
  let mut a = ScalarVector::new(3);
  let mut b = ScalarVector::new(3);
  for i in 0 .. 3 {
    a.set(i, Scalar::from_u64(2 + (i as u64)));
    b.set(i, Scalar::from_u64(7 + (i as u64)));
  }
  let mut g_bold = vec![];
  let mut h_bold = vec![];
  for i in 0 .. 3 {
    g_bold.push(reduced.g_bold(i));
    h_bold.push(reduced.h_bold(i));
  }
  // 2 * 7 + 3 * 8 + 4 * 9
  assert_eq!(a.inner_product(&b), Scalar::from_u64(74));
  let P = PointVector(g_bold)
    .multiexp(&a)
    .add(&PointVector(h_bold).multiexp(&b))
    .add(&reduced.g().mul(&Scalar::from_u64(74)));
  let statement =
    IpStatement::new(reduced, ScalarVector(vec![Scalar::one(); 4]), Scalar::one(), P).unwrap();
  let witness = IpWitness::new(a, b).unwrap();
  let mut transcript = Transcript::new("IP Test");
  let proof = statement.clone().prove(&mut transcript.clone(), witness).unwrap().unwrap();
  let mut verifier = generators.batch_verifier();
  statement.verify(&mut OsRng, &mut verifier, &mut transcript, proof).unwrap().unwrap();
  assert!(generators.verify(verifier));
}
