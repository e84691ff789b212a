use ciphersuite::group::{Group, GroupEncoding};
use rand_core::OsRng;

use generalized_bulletproofs::arithmetic_circuit_proof::{
  AcError, ArithmeticCircuitStatement, ArithmeticCircuitWitness, ProverBlinds,
};
use generalized_bulletproofs::commitment::{wipe_pairs, PedersenCommitment};
use generalized_bulletproofs::field::Scalar;
use generalized_bulletproofs::generators::Generators;
use generalized_bulletproofs::group::Point;
use generalized_bulletproofs::inner_product::{IpStatement, IpWitness, P};
use generalized_bulletproofs::point_vector::{push_pairs, write_points, PointVector};
use generalized_bulletproofs::polynomial::{evaluate, multiply, weigh};
use generalized_bulletproofs::scalar_matrix::ScalarMatrix;
use generalized_bulletproofs::scalar_vector::ScalarVector;
use generalized_bulletproofs::transcript::Transcript;

fn random_point() -> Point {
  Point::from_bytes(dalek_ff_group::RistrettoPoint::random(&mut OsRng).to_bytes()).unwrap()
}

fn points(n: usize) -> Vec<Point> {
  (0 .. n).map(|_| random_point()).collect()
}

fn scalars(values: &[u64]) -> ScalarVector {
  ScalarVector(values.iter().map(|value| Scalar::from_u64(*value)).collect())
}

#[test]
fn polynomials_of_vectors() {
  // l(X) = (1, 2) + (3, 4) X, r(X) = (5, 6) + (7, 8) X
  let l = vec![scalars(&[1, 2]), scalars(&[3, 4])];
  let r = vec![scalars(&[5, 6]), scalars(&[7, 8])];
  // 1 * 5 + 2 * 6; 1 * 7 + 2 * 8 + 3 * 5 + 4 * 6; 3 * 7 + 4 * 8
  assert_eq!(multiply(&l, &r, 2), scalars(&[17, 62, 53]));
  assert_eq!(multiply(&l[.. 1].to_vec(), &r[.. 1].to_vec(), 2), scalars(&[17]));

  // At x = 10, with the powers 1 and 10
  let xs = scalars(&[1, 10, 100]);
  assert_eq!(evaluate(&l, &xs, 2), scalars(&[31, 42]));
  assert_eq!(evaluate(&r, &xs, 2), scalars(&[75, 86]));
  assert_eq!(evaluate(&vec![], &xs, 2), scalars(&[0, 0]));
  // 31 * 75 + 42 * 86 = 17 + 62 * 10 + 53 * 100
  assert_eq!(evaluate(&l, &xs, 2).inner_product(&evaluate(&r, &xs, 2)), Scalar::from_u64(5937));
  assert_eq!(weigh(&scalars(&[17, 62, 53]), &xs), Scalar::from_u64(5937));
  assert_eq!(weigh(&scalars(&[]), &xs), Scalar::zero());
}

#[test]
fn scalars_are_paired_with_points() {
  let points = points(3);
  let mut pairs = vec![(Scalar::from_u64(9), points[2])];
  push_pairs(&mut pairs, &scalars(&[1, 2]).0, &points);
  assert_eq!(
    pairs,
    vec![
      (Scalar::from_u64(9), points[2]),
      (Scalar::from_u64(1), points[0]),
      (Scalar::from_u64(2), points[1])
    ]
  );
  // No further than the points reach
  push_pairs(&mut pairs, &scalars(&[3, 4, 5]).0, &points[.. 1].to_vec());
  assert_eq!(pairs.len(), 4);
  assert_eq!(pairs[3], (Scalar::from_u64(3), points[0]));

  wipe_pairs(&mut pairs);
  assert_eq!(
    pairs,
    vec![
      (Scalar::zero(), points[2]),
      (Scalar::zero(), points[0]),
      (Scalar::zero(), points[1]),
      (Scalar::zero(), points[0])
    ]
  );
}

#[test]
fn points_are_written_in_order() {
  let points = points(3);
  let mut written = Transcript::new("Points");
  write_points(&mut written, "point", &points);
  let mut by_hand = Transcript::new("Points");
  for point in &points {
    by_hand.append_message("point", &point.to_bytes());
  }
  assert_eq!(written.challenge("challenge"), by_hand.clone().challenge("challenge"));

  let mut of_vector = Transcript::new("Points");
  PointVector(points.clone()).transcript(&mut of_vector, "point");
  let mut reversed = Transcript::new("Points");
  write_points(&mut reversed, "point", &points.iter().rev().cloned().collect());
  let drawn = of_vector.challenge("challenge");
  assert_eq!(drawn, by_hand.clone().challenge("challenge"));
  assert!(drawn != reversed.challenge("challenge"));
}

#[test]
fn inner_product_is_verified_in_two_steps() {
  let generators = Generators::new(random_point(), random_point(), points(4), points(4)).unwrap();
  let reduced = generators.reduce(4).unwrap();
  let a = scalars(&[1, 2, 3, 4]);
  let b = scalars(&[5, 6, 7, 8]);
  let weights = scalars(&[2, 3, 4, 5]);
  let u = Scalar::from_u64(9);
  // P = sum(a * g_bold) + sum(b * (weights * h_bold)) + (a . b) * (u * g)
  let point = PointVector(reduced.g_bold_slice().clone())
    .multiexp(&a)
    .add(&PointVector(reduced.h_bold_slice().clone()).mul_vec(&weights).multiexp(&b))
    .add(&reduced.g().mul(&u.mul(&a.inner_product(&b))));

  let prover = IpStatement::new_without_P_transcript(
    reduced.clone(),
    weights.copy(),
    u,
    P::ProverWithoutTranscript(point),
  )
  .unwrap();
  let witness = IpWitness::new(a, b).unwrap();
  let proof = prover.clone().prove(&mut Transcript::new("IP Test"), witness.clone()).unwrap().unwrap();
  assert_eq!(proof.L.len(), 2);
  // The point is no part of what the proof depends on
  let elsewhere = IpStatement::new_without_P_transcript(
    reduced.clone(),
    weights.copy(),
    u,
    P::ProverWithoutTranscript(random_point()),
  )
  .unwrap();
  assert_eq!(elsewhere.prove(&mut Transcript::new("IP Test"), witness.clone()).unwrap().unwrap(), proof);
  // Where it is written to the transcript, it is
  let bound = IpStatement::new(reduced.clone(), weights.copy(), u, point).unwrap();
  assert!(bound.prove(&mut Transcript::new("IP Test"), witness).unwrap().unwrap() != proof);

  // The verifier has accumulated the point under its weight
  let weight = Scalar::from_u64(7);
  let verifier_statement = IpStatement::new_without_P_transcript(
    reduced,
    weights,
    u,
    P::VerifierWithoutTranscript { verifier_weight: weight },
  )
  .unwrap();
  let mut verifier = generators.batch_verifier();
  assert!(verifier_statement.verifiable(&verifier));
  assert!(!prover.verifiable(&verifier));
  verifier.push(weight, point);

  let mut by_steps = verifier.clone();
  let mut transcript = Transcript::new("IP Test");
  let challenges = verifier_statement.challenges(&mut transcript, &proof).unwrap().unwrap();
  assert_eq!(challenges.es.len(), 2);
  for i in 0 .. 2 {
    assert_eq!(challenges.es.get(i).mul(&challenges.invs.get(i)), Scalar::one());
  }
  // Another weight is not used where the statement brings its own
  verifier_statement.accumulate(&Scalar::from_u64(1000), &mut by_steps, &proof, &challenges);
  assert!(generators.verify(by_steps.clone()));

  let mut at_once = verifier.clone();
  let mut second_transcript = Transcript::new("IP Test");
  verifier_statement
    .clone()
    .verify_with_weight(&Scalar::from_u64(1000), &mut at_once, &mut second_transcript, proof.clone()).unwrap()
    .unwrap();
  assert_eq!(at_once, by_steps);
  assert_eq!(transcript.challenge("next"), second_transcript.challenge("next"));

  // The commitments of the rounds stand behind the point, each under the weight and the
  // square of its challenge or of the inverse
  assert_eq!(at_once.additional.len(), 5);
  assert_eq!(at_once.additional[1].1, proof.L[0]);
  assert_eq!(at_once.additional[2].1, proof.R[0]);
  let e = challenges.es.get(0);
  let inv = challenges.invs.get(0);
  assert_eq!(at_once.additional[1].0, weight.mul(&e.mul(&e)));
  assert_eq!(at_once.additional[2].0, weight.mul(&inv.mul(&inv)));
  // g: less the product of the proof's scalars on u, under the weight
  assert_eq!(at_once.g, weight.mul(&proof.a.mul(&proof.b)).mul(&u).neg());
  // g_bold[3] stood in the high half in both rounds
  assert_eq!(
    at_once.g_bold.get(3),
    weight.mul(&proof.a).mul(&challenges.es.get(0).mul(&challenges.es.get(1))).neg()
  );

  // Under a weight of its own choosing where the statement brings the point
  let mut fresh = generators.batch_verifier();
  bound_statement(&generators, point)
    .verify_with_weight(
      &Scalar::from_u64(11),
      &mut fresh,
      &mut Transcript::new("IP Test"),
      bound_proof(&generators, point),
    ).unwrap()
    .unwrap();
  assert_eq!(fresh.additional[0], (Scalar::from_u64(11), point));
  assert!(generators.verify(fresh));
}

fn bound_statement(generators: &Generators, point: Point) -> IpStatement {
  IpStatement::new(generators.reduce(4).unwrap(), scalars(&[2, 3, 4, 5]), Scalar::from_u64(9), point)
    .unwrap()
}

fn bound_proof(
  generators: &Generators,
  point: Point,
) -> generalized_bulletproofs::inner_product::IpProof {
  bound_statement(generators, point)
    .prove(
      &mut Transcript::new("IP Test"),
      IpWitness::new(scalars(&[1, 2, 3, 4]), scalars(&[5, 6, 7, 8])).unwrap(),
    ).unwrap()
    .unwrap()
}

#[test]
fn witnesses_are_laid_out_for_proving() {
  let generators = Generators::new(random_point(), random_point(), points(4), points(4)).unwrap();
  let reduced = generators.reduce(4).unwrap();
  let opening = PedersenCommitment { value: Scalar::from_u64(6), mask: Scalar::from_u64(77) };
  // One row: aL[0] = V
  let mut WL = ScalarMatrix::new();
  WL.push(vec![(0, Scalar::one())]);
  let mut empty = ScalarMatrix::new();
  empty.push(vec![]);
  let mut WV = ScalarMatrix::new();
  WV.push(vec![(0, Scalar::one())]);
  let statement = ArithmeticCircuitStatement::new(
    reduced.clone(),
    WL,
    empty.clone(),
    empty,
    vec![],
    vec![],
    WV,
    ScalarVector::new(1),
    PointVector(vec![]),
    PointVector(vec![opening.commit(&reduced.g(), &reduced.h())]),
  )
  .unwrap();

  let witness = ArithmeticCircuitWitness::new(scalars(&[6, 2]), scalars(&[3, 4]), vec![], vec![opening])
    .unwrap();
  let parts = witness.clone().into_assignment();
  assert_eq!(parts.aL, scalars(&[6, 2]));
  assert_eq!(parts.aR, scalars(&[3, 4]));
  assert_eq!(parts.aO, scalars(&[18, 8]));
  assert_eq!(parts.v, vec![opening]);

  let mut assignment = statement.assign(witness).unwrap();
  assert_eq!(assignment.aL, scalars(&[6, 2, 0, 0]));
  assert_eq!(assignment.aR, scalars(&[3, 4, 0, 0]));
  assert_eq!(assignment.aO, scalars(&[18, 8, 0, 0]));
  assignment.zeroize();
  assert_eq!(assignment.aL, ScalarVector::new(4));
  assert_eq!(assignment.aO, ScalarVector::new(4));
  assert_eq!(
    assignment.v,
    vec![PedersenCommitment { value: Scalar::zero(), mask: Scalar::zero() }]
  );

  let wrong =
    ArithmeticCircuitWitness::new(scalars(&[7, 2]), scalars(&[3, 4]), vec![], vec![opening])
      .unwrap();
  assert_eq!(statement.assign(wrong).err(), Some(AcError::InconsistentWitness));
  let long = ArithmeticCircuitWitness::new(
    scalars(&[6, 2, 0, 0, 0]),
    scalars(&[3, 4, 0, 0, 0]),
    vec![],
    vec![opening],
  )
  .unwrap();
  assert_eq!(statement.assign(long).err(), Some(AcError::IncorrectAmountOfGenerators));
}

#[test]
fn blinds_are_drawn_and_wiped() {
  let mut blinds = ProverBlinds::random(&mut OsRng, 4, 2);
  assert_eq!(blinds.sL.len(), 4);
  assert_eq!(blinds.sR.len(), 4);
  assert_eq!(blinds.tau_before_ni.len(), 6);
  assert_eq!(blinds.tau_after_ni.len(), 8);
  assert!(blinds.alpha != blinds.beta);
  assert!(blinds.sL != blinds.sR);
  blinds.zeroize();
  assert_eq!(blinds.alpha, Scalar::zero());
  assert_eq!(blinds.rho, Scalar::zero());
  assert_eq!(blinds.sL, ScalarVector::new(4));
  assert_eq!(blinds.tau_after_ni, ScalarVector::new(8));
}
