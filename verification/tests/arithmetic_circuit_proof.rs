use ciphersuite::group::{Group, GroupEncoding};
use rand_core::OsRng;

use generalized_bulletproofs::arithmetic_circuit_proof::{
  positions, AcError, ArithmeticCircuitProof, ArithmeticCircuitStatement,
  ArithmeticCircuitWitness, ProverBlinds,
};
use generalized_bulletproofs::commitment::{PedersenCommitment, PedersenVectorCommitment};
use generalized_bulletproofs::field::Scalar;
use generalized_bulletproofs::generators::{Generators, ProofGenerators};
use generalized_bulletproofs::group::Point;
use generalized_bulletproofs::inner_product::IpError;
use generalized_bulletproofs::point_vector::PointVector;
use generalized_bulletproofs::scalar_matrix::ScalarMatrix;
use generalized_bulletproofs::scalar_vector::ScalarVector;
use generalized_bulletproofs::transcript::Transcript;

fn random_point() -> Point {
  Point::from_bytes(dalek_ff_group::RistrettoPoint::random(&mut OsRng).to_bytes()).unwrap()
}

fn generators(n: usize) -> Generators {
  let mut g_bold = vec![];
  let mut h_bold = vec![];
  for _ in 0 .. n {
    g_bold.push(random_point());
    h_bold.push(random_point());
  }
  Generators::new(random_point(), random_point(), g_bold, h_bold).unwrap()
}

// What a transcript would be challenged with next, which tells whether two transcripts were
// written the same
fn next_challenge(transcript: &Transcript) -> Vec<u8> {
  transcript.clone().challenge("next")
}

fn rows(q: usize) -> ScalarMatrix {
  let mut matrix = ScalarMatrix::new();
  for _ in 0 .. q {
    matrix.push(vec![]);
  }
  matrix
}

// aL * aR = aO with no constraint and no commitment
fn multiplication(
  generators: ProofGenerators,
  x: Scalar,
  y: Scalar,
) -> (ArithmeticCircuitStatement, ArithmeticCircuitWitness) {
  let statement = ArithmeticCircuitStatement::new(
    generators,
    ScalarMatrix::new(),
    ScalarMatrix::new(),
    ScalarMatrix::new(),
    vec![],
    vec![],
    ScalarMatrix::new(),
    ScalarVector(vec![]),
    PointVector(vec![]),
    PointVector(vec![]),
  )
  .unwrap();
  let witness =
    ArithmeticCircuitWitness::new(ScalarVector(vec![x]), ScalarVector(vec![y]), vec![], vec![])
      .unwrap();
  (statement, witness)
}

struct Tied {
  statement: ArithmeticCircuitStatement,
  witness: ArithmeticCircuitWitness,
  opening: PedersenVectorCommitment,
  value: PedersenCommitment,
}

// n = 4, one vector commitment whose first value on g_bold is tied to the value of one scalar
// commitment, and one row which ties two wires of the circuit to a constant
fn tied(generators: &ProofGenerators) -> Tied {
  let value = PedersenCommitment { value: Scalar::from_u64(9), mask: Scalar::random(&mut OsRng) };
  let opening = PedersenVectorCommitment {
    g_values: ScalarVector(vec![
      Scalar::from_u64(9),
      Scalar::from_u64(2),
      Scalar::from_u64(3),
      Scalar::from_u64(4),
    ]),
    h_values: ScalarVector(vec![
      Scalar::from_u64(5),
      Scalar::from_u64(6),
      Scalar::from_u64(7),
      Scalar::from_u64(8),
    ]),
    mask: Scalar::random(&mut OsRng),
  };
  let C = opening.commit(generators.g_bold_slice(), generators.h_bold_slice(), &generators.h());
  let V = value.commit(&generators.g(), &generators.h());

  let aL = ScalarVector(vec![
    Scalar::from_u64(3),
    Scalar::from_u64(1),
    Scalar::from_u64(4),
    Scalar::from_u64(1),
  ]);
  let aR = ScalarVector(vec![
    Scalar::from_u64(5),
    Scalar::from_u64(9),
    Scalar::from_u64(2),
    Scalar::from_u64(6),
  ]);

  // Row 0: C.g_values[0] = V
  // Row 1: 2 * aL[0] + aR[1] + 3 * aO[2] + C.h_values[3] = 47, with aO[2] = 8
  let mut WL = ScalarMatrix::new();
  WL.push(vec![]);
  WL.push(vec![(0, Scalar::from_u64(2))]);
  let mut WR = ScalarMatrix::new();
  WR.push(vec![]);
  WR.push(vec![(1, Scalar::one())]);
  let mut WO = ScalarMatrix::new();
  WO.push(vec![]);
  WO.push(vec![(2, Scalar::from_u64(3))]);
  let mut WCL = ScalarMatrix::new();
  WCL.push(vec![(0, Scalar::one())]);
  WCL.push(vec![]);
  let mut WCR = ScalarMatrix::new();
  WCR.push(vec![]);
  WCR.push(vec![(3, Scalar::one())]);
  let mut WV = ScalarMatrix::new();
  WV.push(vec![(0, Scalar::one())]);
  WV.push(vec![]);
  let c = ScalarVector(vec![Scalar::zero(), Scalar::from_u64(47)]);

  let statement = ArithmeticCircuitStatement::new(
    generators.clone(),
    WL,
    WR,
    WO,
    vec![WCL],
    vec![WCR],
    WV,
    c,
    PointVector(vec![C]),
    PointVector(vec![V]),
  )
  .unwrap();
  let witness =
    ArithmeticCircuitWitness::new(aL, aR, vec![opening.clone()], vec![value]).unwrap();
  Tied { statement, witness, opening, value }
}

fn accepted(generators: &Generators, statement: &ArithmeticCircuitStatement, proof: &ArithmeticCircuitProof) -> bool {
  let mut verifier = generators.batch_verifier();
  let mut transcript = Transcript::new("Arithmetic Circuit Test");
  match statement.clone().verify(&mut OsRng, &mut verifier, &mut transcript, proof.clone()).unwrap() {
    Ok(()) => generators.verify(verifier),
    Err(_) => false,
  }
}

#[test]
fn multiplication_round_trips() {
  // n = 1, q = 0, no commitments
  let generators = generators(1);
  let x = Scalar::random(&mut OsRng);
  let y = Scalar::random(&mut OsRng);
  let (statement, witness) = multiplication(generators.reduce(1).unwrap(), x, y);

  let mut transcript = Transcript::new("Arithmetic Circuit Test");
  let proof = statement.clone().prove(&mut OsRng, &mut transcript.clone(), witness).unwrap().unwrap();
  assert_eq!(proof.T_before_ni.len(), 2);
  assert_eq!(proof.T_after_ni.len(), 4);
  assert_eq!(proof.ip.L.len(), 0);

  let mut verifier = generators.batch_verifier();
  statement.verify(&mut OsRng, &mut verifier, &mut transcript, proof).unwrap().unwrap();
  assert!(generators.verify(verifier));
}

#[test]
fn multiplication_on_larger_generators() {
  // The witness is shorter than the generators, and extended by zeros
  let generators = generators(8);
  let (statement, witness) =
    multiplication(generators.reduce(4).unwrap(), Scalar::from_u64(6), Scalar::from_u64(7));
  let mut transcript = Transcript::new("Arithmetic Circuit Test");
  let proof = statement.clone().prove(&mut OsRng, &mut transcript.clone(), witness).unwrap().unwrap();
  assert_eq!(proof.ip.L.len(), 2);
  let mut verifier = generators.batch_verifier();
  statement.verify(&mut OsRng, &mut verifier, &mut transcript, proof).unwrap().unwrap();
  assert!(generators.verify(verifier));
}

#[test]
fn vector_commitment_tied_to_commitment() {
  let generators = generators(4);
  let reduced = generators.reduce(4).unwrap();
  let Tied { statement, witness, opening: _, value } = tied(&reduced);

  let proof = statement
    .clone()
    .prove(&mut OsRng, &mut Transcript::new("Arithmetic Circuit Test"), witness).unwrap()
    .unwrap();
  assert_eq!(proof.T_before_ni.len(), 4);
  assert_eq!(proof.T_after_ni.len(), 6);
  assert!(accepted(&generators, &statement, &proof));

  // The same proof, for a commitment to a value one higher
  let mut altered = statement.clone();
  let one_more = PedersenCommitment { value: value.value.add(&Scalar::one()), mask: value.mask };
  altered.V = PointVector(vec![one_more.commit(&reduced.g(), &reduced.h())]);
  assert!(!accepted(&generators, &altered, &proof));
}

#[test]
fn tampered_proofs_are_rejected() {
  let generators = generators(4);
  let reduced = generators.reduce(4).unwrap();
  let Tied { statement, witness, .. } = tied(&reduced);
  let proof = statement
    .clone()
    .prove(&mut OsRng, &mut Transcript::new("Arithmetic Circuit Test"), witness).unwrap()
    .unwrap();
  assert!(accepted(&generators, &statement, &proof));

  let other = random_point();

  let mut tampered = proof.clone();
  tampered.AI = other;
  assert!(!accepted(&generators, &statement, &tampered));

  let mut tampered = proof.clone();
  tampered.AO = other;
  assert!(!accepted(&generators, &statement, &tampered));

  let mut tampered = proof.clone();
  tampered.S = other;
  assert!(!accepted(&generators, &statement, &tampered));

  for i in 0 .. proof.T_before_ni.len() {
    let mut tampered = proof.clone();
    tampered.T_before_ni[i] = other;
    assert!(!accepted(&generators, &statement, &tampered));
  }
  for i in 0 .. proof.T_after_ni.len() {
    let mut tampered = proof.clone();
    tampered.T_after_ni[i] = other;
    assert!(!accepted(&generators, &statement, &tampered));
  }

  let mut tampered = proof.clone();
  tampered.tau_x = tampered.tau_x.add(&Scalar::one());
  assert!(!accepted(&generators, &statement, &tampered));

  let mut tampered = proof.clone();
  tampered.u = tampered.u.add(&Scalar::one());
  assert!(!accepted(&generators, &statement, &tampered));

  let mut tampered = proof.clone();
  tampered.t_caret = tampered.t_caret.add(&Scalar::one());
  assert!(!accepted(&generators, &statement, &tampered));

  let mut tampered = proof.clone();
  tampered.ip.a = tampered.ip.a.add(&Scalar::one());
  assert!(!accepted(&generators, &statement, &tampered));

  let mut tampered = proof.clone();
  tampered.ip.L[0] = other;
  assert!(!accepted(&generators, &statement, &tampered));

  // A flipped bit of a scalar's encoding
  let mut bytes = proof.tau_x.to_bytes();
  bytes[0] ^= 1;
  let mut tampered = proof.clone();
  tampered.tau_x = Scalar::from_bytes(bytes).unwrap();
  assert!(!accepted(&generators, &statement, &tampered));
}

#[test]
fn altered_statements_are_rejected() {
  let generators = generators(4);
  let reduced = generators.reduce(4).unwrap();
  let Tied { statement, witness, .. } = tied(&reduced);
  let proof = statement
    .clone()
    .prove(&mut OsRng, &mut Transcript::new("Arithmetic Circuit Test"), witness).unwrap()
    .unwrap();
  assert!(accepted(&generators, &statement, &proof));

  // A constant
  let mut altered = statement.clone();
  altered.c = ScalarVector(vec![Scalar::zero(), Scalar::from_u64(48)]);
  assert!(!accepted(&generators, &altered, &proof));

  // A weight
  let mut altered = statement.clone();
  let mut WL = ScalarMatrix::new();
  WL.push(vec![]);
  WL.push(vec![(0, Scalar::from_u64(3))]);
  altered.WL = WL;
  assert!(!accepted(&generators, &altered, &proof));

  // A vector commitment
  let mut altered = statement.clone();
  altered.C = PointVector(vec![random_point()]);
  assert!(!accepted(&generators, &altered, &proof));

  // Another transcript
  let mut verifier = generators.batch_verifier();
  statement
    .clone()
    .verify(&mut OsRng, &mut verifier, &mut Transcript::new("Another Test"), proof).unwrap()
    .unwrap();
  assert!(!generators.verify(verifier));
}

#[test]
fn inconsistent_witnesses_are_rejected() {
  let generators = generators(4);
  let reduced = generators.reduce(4).unwrap();
  let Tied { statement, witness: _, opening, value } = tied(&reduced);
  let aL = || {
    ScalarVector(vec![
      Scalar::from_u64(3),
      Scalar::from_u64(1),
      Scalar::from_u64(4),
      Scalar::from_u64(1),
    ])
  };
  let aR = || {
    ScalarVector(vec![
      Scalar::from_u64(5),
      Scalar::from_u64(9),
      Scalar::from_u64(2),
      Scalar::from_u64(6),
    ])
  };
  let rejected = |witness: ArithmeticCircuitWitness| {
    let mut transcript = Transcript::new("Arithmetic Circuit Test");
    let before = next_challenge(&transcript);
    let result = statement.clone().prove(&mut OsRng, &mut transcript, witness).unwrap();
    // Nothing was written to the transcript
    assert_eq!(next_challenge(&transcript), before);
    result.err()
  };

  // A row which does not hold
  let mut wrong = aL();
  wrong.set(0, Scalar::from_u64(4));
  assert_eq!(
    rejected(ArithmeticCircuitWitness::new(wrong, aR(), vec![opening.clone()], vec![value]).unwrap()),
    Some(AcError::InconsistentWitness)
  );

  // An opening of another scalar commitment
  let other = PedersenCommitment { value: value.value, mask: value.mask.add(&Scalar::one()) };
  assert_eq!(
    rejected(ArithmeticCircuitWitness::new(aL(), aR(), vec![opening.clone()], vec![other]).unwrap()),
    Some(AcError::InconsistentWitness)
  );

  // An opening of another vector commitment
  let mut other = opening.clone();
  other.h_values.set(1, Scalar::from_u64(60));
  assert_eq!(
    rejected(ArithmeticCircuitWitness::new(aL(), aR(), vec![other], vec![value]).unwrap()),
    Some(AcError::InconsistentWitness)
  );

  // Openings which are missing
  assert_eq!(
    rejected(ArithmeticCircuitWitness::new(aL(), aR(), vec![], vec![value]).unwrap()),
    Some(AcError::InconsistentWitness)
  );
  assert_eq!(
    rejected(ArithmeticCircuitWitness::new(aL(), aR(), vec![opening.clone()], vec![]).unwrap()),
    Some(AcError::InconsistentWitness)
  );

  // Vectors longer than the generators
  let mut long_l = aL();
  long_l.0.push(Scalar::zero());
  let mut long_r = aR();
  long_r.0.push(Scalar::zero());
  assert_eq!(
    rejected(ArithmeticCircuitWitness::new(long_l, long_r, vec![opening.clone()], vec![value]).unwrap()),
    Some(AcError::IncorrectAmountOfGenerators)
  );
  let mut long = opening.clone();
  long.g_values.0.push(Scalar::zero());
  assert_eq!(
    rejected(ArithmeticCircuitWitness::new(aL(), aR(), vec![long], vec![value]).unwrap()),
    Some(AcError::IncorrectAmountOfGenerators)
  );

  // Vectors of differing lengths
  assert_eq!(
    ArithmeticCircuitWitness::new(aL(), ScalarVector(vec![Scalar::one()]), vec![], vec![]).err(),
    Some(AcError::DifferingLrLengths)
  );
}

#[test]
fn malformed_statements_are_rejected() {
  let generators = generators(4);
  let reduced = generators.reduce(4).unwrap();
  let point = random_point();
  let weigh = |column: usize| {
    let mut matrix = ScalarMatrix::new();
    matrix.push(vec![(column, Scalar::one())]);
    matrix
  };
  let constants = |q: usize| ScalarVector::new(q);

  let new = |WL: ScalarMatrix,
             WR: ScalarMatrix,
             WO: ScalarMatrix,
             WCL: Vec<ScalarMatrix>,
             WCR: Vec<ScalarMatrix>,
             WV: ScalarMatrix,
             c: ScalarVector,
             C: Vec<Point>,
             V: Vec<Point>| {
    ArithmeticCircuitStatement::new(
      reduced.clone(),
      WL,
      WR,
      WO,
      WCL,
      WCR,
      WV,
      c,
      PointVector(C),
      PointVector(V),
    )
    .err()
  };

  // Differing amounts of rows
  assert_eq!(
    new(rows(1), rows(2), rows(1), vec![], vec![], rows(1), constants(1), vec![], vec![]),
    Some(AcError::InconsistentAmountOfConstraints)
  );
  assert_eq!(
    new(rows(1), rows(1), rows(0), vec![], vec![], rows(1), constants(1), vec![], vec![]),
    Some(AcError::InconsistentAmountOfConstraints)
  );
  assert_eq!(
    new(rows(1), rows(1), rows(1), vec![], vec![], rows(2), constants(1), vec![], vec![]),
    Some(AcError::InconsistentAmountOfConstraints)
  );
  assert_eq!(
    new(rows(1), rows(1), rows(1), vec![], vec![], rows(1), constants(0), vec![], vec![]),
    Some(AcError::InconsistentAmountOfConstraints)
  );
  assert_eq!(
    new(rows(1), rows(1), rows(1), vec![rows(2)], vec![rows(1)], rows(1), constants(1), vec![point], vec![]),
    Some(AcError::InconsistentAmountOfConstraints)
  );
  assert_eq!(
    new(rows(1), rows(1), rows(1), vec![rows(1)], vec![rows(0)], rows(1), constants(1), vec![point], vec![]),
    Some(AcError::InconsistentAmountOfConstraints)
  );

  // Terms which do not exist
  assert_eq!(
    new(weigh(4), rows(1), rows(1), vec![], vec![], rows(1), constants(1), vec![], vec![]),
    Some(AcError::ConstrainedNonExistentTerm)
  );
  assert_eq!(
    new(rows(1), weigh(4), rows(1), vec![], vec![], rows(1), constants(1), vec![], vec![]),
    Some(AcError::ConstrainedNonExistentTerm)
  );
  assert_eq!(
    new(rows(1), rows(1), weigh(7), vec![], vec![], rows(1), constants(1), vec![], vec![]),
    Some(AcError::ConstrainedNonExistentTerm)
  );
  assert_eq!(
    new(rows(1), rows(1), rows(1), vec![weigh(5)], vec![rows(1)], rows(1), constants(1), vec![point], vec![]),
    Some(AcError::ConstrainedNonExistentTerm)
  );
  assert_eq!(
    new(rows(1), rows(1), rows(1), vec![rows(1)], vec![weigh(5)], rows(1), constants(1), vec![point], vec![]),
    Some(AcError::ConstrainedNonExistentTerm)
  );

  // Commitments which do not exist
  assert_eq!(
    new(rows(1), rows(1), rows(1), vec![rows(1)], vec![], rows(1), constants(1), vec![], vec![]),
    Some(AcError::ConstrainedNonExistentCommitment)
  );
  assert_eq!(
    new(rows(1), rows(1), rows(1), vec![], vec![rows(1)], rows(1), constants(1), vec![], vec![]),
    Some(AcError::ConstrainedNonExistentCommitment)
  );
  assert_eq!(
    new(rows(1), rows(1), rows(1), vec![], vec![], rows(1), constants(1), vec![point], vec![]),
    Some(AcError::ConstrainedNonExistentCommitment)
  );
  assert_eq!(
    new(rows(1), rows(1), rows(1), vec![], vec![], weigh(2), constants(1), vec![], vec![point]),
    Some(AcError::ConstrainedNonExistentCommitment)
  );

  // The first rule which is broken decides
  assert_eq!(
    new(weigh(4), rows(2), rows(1), vec![rows(1)], vec![], weigh(9), constants(1), vec![], vec![]),
    Some(AcError::InconsistentAmountOfConstraints)
  );
  assert_eq!(
    new(weigh(4), rows(1), rows(1), vec![rows(1)], vec![], weigh(9), constants(1), vec![], vec![]),
    Some(AcError::ConstrainedNonExistentTerm)
  );
  assert_eq!(
    new(weigh(3), rows(1), rows(1), vec![weigh(9)], vec![], weigh(9), constants(1), vec![], vec![]),
    Some(AcError::ConstrainedNonExistentCommitment)
  );

  // The highest column which is accepted
  assert_eq!(
    new(weigh(3), weigh(3), weigh(3), vec![weigh(3)], vec![weigh(3)], weigh(0), constants(1), vec![point], vec![point]),
    None
  );
}

#[test]
fn proofs_of_the_wrong_shape_are_rejected() {
  let generators = generators(4);
  let reduced = generators.reduce(4).unwrap();
  let Tied { statement, witness, .. } = tied(&reduced);
  let proof = statement
    .clone()
    .prove(&mut OsRng, &mut Transcript::new("Arithmetic Circuit Test"), witness).unwrap()
    .unwrap();

  let verify = |proof: ArithmeticCircuitProof| {
    let mut verifier = generators.batch_verifier();
    let untouched = verifier.clone();
    let result = statement.clone().verify(
      &mut OsRng,
      &mut verifier,
      &mut Transcript::new("Arithmetic Circuit Test"),
      proof,
    ).unwrap();
    // A proof which is refused leaves the accumulator as it was
    assert_eq!(verifier, untouched);
    result.err()
  };

  let mut short = proof.clone();
  short.T_before_ni.pop();
  assert_eq!(verify(short), Some(AcError::IncorrectTBeforeNiLength));

  let mut long = proof.clone();
  long.T_after_ni.push(random_point());
  assert_eq!(verify(long), Some(AcError::IncorrectTAfterNiLength));

  let mut both = proof.clone();
  both.T_before_ni.pop();
  both.T_after_ni.pop();
  assert_eq!(verify(both), Some(AcError::IncorrectTBeforeNiLength));

  // Without the commitments to the two highest coefficients, which the blinding vectors make
  let mut cut = proof.clone();
  cut.T_after_ni.truncate(cut.T_before_ni.len());
  assert_eq!(cut.T_after_ni.len(), 4);
  assert_eq!(verify(cut), Some(AcError::IncorrectTAfterNiLength));

  let mut lopsided = proof.clone();
  lopsided.ip.L.pop();
  assert_eq!(verify(lopsided), Some(AcError::Ip(IpError::DifferingLrLengths)));

  let mut short = proof.clone();
  short.ip.L.pop();
  short.ip.R.pop();
  assert_eq!(verify(short), Some(AcError::Ip(IpError::IncorrectAmountOfGenerators)));
}

#[test]
fn batches_are_sound() {
  let generators = generators(8);
  let mut proofs = vec![];
  for n in [1, 2, 4, 8, 4] {
    let reduced = generators.reduce(n).unwrap();
    let (statement, witness) = if n >= 4 {
      let Tied { statement, witness, .. } = tied(&reduced);
      (statement, witness)
    } else {
      multiplication(reduced, Scalar::random(&mut OsRng), Scalar::random(&mut OsRng))
    };
    let proof = statement
      .clone()
      .prove(&mut OsRng, &mut Transcript::new("Arithmetic Circuit Test"), witness).unwrap()
      .unwrap();
    proofs.push((statement, proof));
  }

  let verify = |proofs: &[(ArithmeticCircuitStatement, ArithmeticCircuitProof)]| {
    let mut verifier = generators.batch_verifier();
    for (statement, proof) in proofs {
      statement
        .clone()
        .verify(
          &mut OsRng,
          &mut verifier,
          &mut Transcript::new("Arithmetic Circuit Test"),
          proof.clone(),
        ).unwrap()
        .unwrap();
    }
    generators.verify(verifier)
  };
  assert!(verify(&proofs));

  // Each proof in turn, tampered with
  for i in 0 .. proofs.len() {
    let mut tampered = proofs.clone();
    tampered[i].1.tau_x = tampered[i].1.tau_x.add(&Scalar::one());
    assert!(!verify(&tampered));
  }
}

#[test]
fn a_proof_may_be_verified_twice() {
  let generators = generators(4);
  let reduced = generators.reduce(4).unwrap();
  let Tied { statement, witness, .. } = tied(&reduced);
  let proof = statement
    .clone()
    .prove(&mut OsRng, &mut Transcript::new("Arithmetic Circuit Test"), witness).unwrap()
    .unwrap();

  let mut verifier = generators.batch_verifier();
  for _ in 0 .. 2 {
    statement
      .clone()
      .verify(
        &mut OsRng,
        &mut verifier,
        &mut Transcript::new("Arithmetic Circuit Test"),
        proof.clone(),
      ).unwrap()
      .unwrap();
  }
  assert!(generators.verify(verifier));
}

#[test]
fn accumulators_merge() {
  let generators = generators(4);
  let reduced = generators.reduce(4).unwrap();
  let Tied { statement, witness, .. } = tied(&reduced);
  let proof = statement
    .clone()
    .prove(&mut OsRng, &mut Transcript::new("Arithmetic Circuit Test"), witness).unwrap()
    .unwrap();

  let mut first = generators.batch_verifier();
  let mut second = generators.batch_verifier();
  for verifier in [&mut first, &mut second] {
    statement
      .clone()
      .verify(
        &mut OsRng,
        verifier,
        &mut Transcript::new("Arithmetic Circuit Test"),
        proof.clone(),
      ).unwrap()
      .unwrap();
  }
  first.merge(&second);
  assert_eq!(first.additional.len(), 2 * second.additional.len());
  assert!(generators.verify(first));

  // An accumulator of another size is refused
  let larger = self::generators(8);
  let mut verifier = larger.batch_verifier();
  verifier.g_bold.0.pop();
  assert!(!larger.verify(verifier));
}

#[test]
fn proving_is_a_function_of_the_blinds() {
  let generators = generators(4);
  let reduced = generators.reduce(4).unwrap();
  let Tied { statement, witness, .. } = tied(&reduced);
  let blinds = || ProverBlinds {
    alpha: Scalar::from_u64(11),
    beta: Scalar::from_u64(12),
    rho: Scalar::from_u64(13),
    sL: ScalarVector(vec![Scalar::from_u64(14); 4]),
    sR: ScalarVector(vec![Scalar::from_u64(15); 4]),
    tau_before_ni: ScalarVector(vec![Scalar::from_u64(16); 4]),
    tau_after_ni: ScalarVector(vec![Scalar::from_u64(17); 6]),
  };
  let mut first_transcript = Transcript::new("Arithmetic Circuit Test");
  let first = statement
    .clone()
    .prove_with_blinds(blinds(), &mut first_transcript, witness.clone()).unwrap()
    .unwrap();
  let mut second_transcript = Transcript::new("Arithmetic Circuit Test");
  let second = statement
    .clone()
    .prove_with_blinds(blinds(), &mut second_transcript, witness.clone()).unwrap()
    .unwrap();
  assert_eq!(first, second);
  assert_eq!(next_challenge(&first_transcript), next_challenge(&second_transcript));
  assert!(
    next_challenge(&first_transcript) !=
      next_challenge(&Transcript::new("Arithmetic Circuit Test"))
  );
  assert!(accepted(&generators, &statement, &first));

  // AO = sum(aO * g_bold) + beta * h, with aO = aL * aR
  let aO = ScalarVector(vec![
    Scalar::from_u64(15),
    Scalar::from_u64(9),
    Scalar::from_u64(8),
    Scalar::from_u64(6),
  ]);
  let expected = PointVector(reduced.g_bold_slice().clone())
    .multiexp(&aO)
    .add(&reduced.h().mul(&Scalar::from_u64(12)));
  assert_eq!(first.AO, expected);

  // Under fresh blinds the proof differs, and is accepted as well
  let third = statement
    .clone()
    .prove(&mut OsRng, &mut Transcript::new("Arithmetic Circuit Test"), witness).unwrap()
    .unwrap();
  assert!(third != first);
  assert!(accepted(&generators, &statement, &third));
}

#[test]
fn statements_are_wiped() {
  let generators = generators(4);
  let reduced = generators.reduce(4).unwrap();
  let Tied { mut statement, .. } = tied(&reduced);
  statement.zeroize();
  assert_eq!(statement.c, ScalarVector::new(2));
  assert_eq!(statement.WL.len(), 2);
  assert_eq!(statement.WL.data[1], vec![(0, Scalar::zero())]);
  assert_eq!(statement.WCR[0].data[1], vec![(3, Scalar::zero())]);
  assert_eq!(statement.C, PointVector(vec![Point::identity()]));
  assert_eq!(statement.V, PointVector(vec![Point::identity()]));
}

#[test]
fn the_proof_is_that_of_the_protocol() {
  // n = 1, q = 0, no commitments: l(X) = aL X + aO X^2 + sL X^3, r(X) = -1 + aR X + sR X^3
  let generators = generators(1);
  let reduced = generators.reduce(1).unwrap();
  let g = reduced.g();
  let h = reduced.h();
  let g_bold = reduced.g_bold(0);
  let h_bold = reduced.h_bold(0);
  let scalar = Scalar::from_u64;
  let (a_l, a_r, a_o) = (scalar(6), scalar(7), scalar(42));
  let (alpha, beta, rho, s_l, s_r) = (scalar(11), scalar(12), scalar(13), scalar(14), scalar(15));
  let tau_before = [scalar(21), scalar(22)];
  let tau_after = [scalar(23), scalar(24), scalar(25), scalar(26)];
  let (statement, witness) = multiplication(reduced.clone(), a_l, a_r);
  let blinds = ProverBlinds {
    alpha,
    beta,
    rho,
    sL: ScalarVector(vec![s_l]),
    sR: ScalarVector(vec![s_r]),
    tau_before_ni: ScalarVector(tau_before.to_vec()),
    tau_after_ni: ScalarVector(tau_after.to_vec()),
  };
  let mut transcript = Transcript::new("Arithmetic Circuit Test");
  let proof = statement.clone().prove_with_blinds(blinds, &mut transcript, witness).unwrap().unwrap();

  let commit = |value: Scalar, mask: Scalar| g.mul(&value).add(&h.mul(&mask));
  assert_eq!(proof.AI, g_bold.mul(&a_l).add(&h_bold.mul(&a_r)).add(&h.mul(&alpha)));
  assert_eq!(proof.AO, g_bold.mul(&a_o).add(&h.mul(&beta)));
  assert_eq!(proof.S, g_bold.mul(&s_l).add(&h_bold.mul(&s_r)).add(&h.mul(&rho)));

  // The coefficients of t(X) = l(X) . r(X); that of X^2 is aL * aR - aO, and not committed to
  let t = [
    Scalar::zero(),
    a_l.neg(),
    Scalar::zero(),
    a_o.mul(&a_r).sub(&s_l),
    s_l.mul(&a_r).add(&a_l.mul(&s_r)),
    a_o.mul(&s_r),
    s_l.mul(&s_r),
  ];
  assert_eq!(proof.T_before_ni, vec![commit(t[0], tau_before[0]), commit(t[1], tau_before[1])]);
  assert_eq!(
    proof.T_after_ni,
    vec![
      commit(t[3], tau_after[0]),
      commit(t[4], tau_after[1]),
      commit(t[5], tau_after[2]),
      commit(t[6], tau_after[3]),
    ]
  );

  // The challenges, drawn from a transcript which is written as the prover writes its own
  let mut replayed = Transcript::new("Arithmetic Circuit Test");
  replayed.domain_separate("arithmetic_circuit_proof");
  replayed.append_message("generators", reduced.transcript());
  replayed.append_message("n", &1u32.to_le_bytes());
  replayed.append_message("q", &0u32.to_le_bytes());
  replayed.append_message("AI", &proof.AI.to_bytes());
  replayed.append_message("AO", &proof.AO.to_bytes());
  replayed.append_message("S", &proof.S.to_bytes());
  let y = Scalar::hash("arithmetic_circuit_proof", &replayed.challenge("y"));
  let z = Scalar::hash("arithmetic_circuit_proof", &replayed.challenge("z"));
  assert!(!y.is_zero() && !z.is_zero());
  for point in &proof.T_before_ni {
    replayed.append_message("Ti", &point.to_bytes());
  }
  for point in &proof.T_after_ni {
    replayed.append_message("Tni+1+i", &point.to_bytes());
  }
  let x = Scalar::hash("arithmetic_circuit_proof", &replayed.challenge("x"));
  let xs = ScalarVector::powers(&x, 7);

  // t(x), and the mask which blinds it
  let mut t_caret = Scalar::zero();
  for i in 0 .. 7 {
    t_caret = t_caret.add(&t[i].mul(&xs.get(i)));
  }
  assert_eq!(proof.t_caret, t_caret);
  let taus = [
    tau_before[0],
    tau_before[1],
    Scalar::zero(),
    tau_after[0],
    tau_after[1],
    tau_after[2],
    tau_after[3],
  ];
  let mut tau_x = Scalar::zero();
  for i in 0 .. 7 {
    tau_x = tau_x.add(&taus[i].mul(&xs.get(i)));
  }
  assert_eq!(proof.tau_x, tau_x);
  assert_eq!(
    proof.u,
    alpha.mul(&xs.get(1)).add(&beta.mul(&xs.get(2))).add(&rho.mul(&xs.get(3)))
  );

  // The inner-product argument of one generator has no round: it opens l(x) and r(x)
  let l_x = a_l.mul(&xs.get(1)).add(&a_o.mul(&xs.get(2))).add(&s_l.mul(&xs.get(3)));
  let r_x = Scalar::one().neg().add(&a_r.mul(&xs.get(1))).add(&s_r.mul(&xs.get(3)));
  assert_eq!(proof.ip.L.len(), 0);
  assert_eq!(proof.ip.a, l_x);
  assert_eq!(proof.ip.b, r_x);
  assert_eq!(l_x.mul(&r_x), t_caret);

  // The prover left the transcript where the verifier leaves it
  replayed.append_message("tau_x", &proof.tau_x.to_bytes());
  replayed.append_message("u", &proof.u.to_bytes());
  replayed.append_message("t_caret", &proof.t_caret.to_bytes());
  let ip_x = Scalar::hash("arithmetic_circuit_proof", &replayed.challenge("ip_x"));
  replayed.domain_separate("inner_product");
  replayed.append_message("generators", reduced.transcript());
  replayed.append_message("u", &ip_x.to_bytes());
  assert_eq!(next_challenge(&replayed), next_challenge(&transcript));
  let mut verified = Transcript::new("Arithmetic Circuit Test");
  let mut verifier = generators.batch_verifier();
  statement.verify(&mut OsRng, &mut verifier, &mut verified, proof).unwrap().unwrap();
  assert_eq!(next_challenge(&verified), next_challenge(&transcript));
  assert!(generators.verify(verifier));
}

#[test]
fn the_accumulator_holds_what_the_verifier_weighs() {
  // n = 1, q = 0, no commitments, under the weights 3 and 5
  let generators = generators(1);
  let reduced = generators.reduce(1).unwrap();
  let (statement, witness) = multiplication(reduced, Scalar::from_u64(6), Scalar::from_u64(7));
  let proof = statement
    .clone()
    .prove(&mut OsRng, &mut Transcript::new("Arithmetic Circuit Test"), witness).unwrap()
    .unwrap();
  let (first, second) = (Scalar::from_u64(3), Scalar::from_u64(5));
  let mut verifier = generators.batch_verifier();
  let mut transcript = Transcript::new("Arithmetic Circuit Test");
  statement
    .verify_with_weights(&first, &second, &mut verifier, &mut transcript, proof.clone()).unwrap()
    .unwrap();
  assert!(generators.verify(verifier.clone()));

  let points: Vec<_> = verifier.additional.iter().map(|term| term.1).collect();
  assert_eq!(
    points,
    vec![
      proof.T_before_ni[0],
      proof.T_before_ni[1],
      proof.T_after_ni[0],
      proof.T_after_ni[1],
      proof.T_after_ni[2],
      proof.T_after_ni[3],
      proof.AI,
      proof.AO,
      proof.S,
    ]
  );
  // The sum of the first one of h_bold is taken away once under the second weight
  assert_eq!(verifier.h_sum, ScalarVector(vec![second.neg()]));
  // h: tau_x under the first weight, less u under the second
  assert_eq!(verifier.h, proof.tau_x.mul(&first).sub(&second.mul(&proof.u)));
  // The commitment to the lowest coefficient stands under the negated first weight
  assert_eq!(verifier.additional[0].0, first.neg());
  // g_bold: less the first scalar of the argument, under the second weight
  assert_eq!(verifier.g_bold, ScalarVector(vec![second.mul(&proof.ip.a).neg()]));
}

#[test]
fn positions_follow_the_vector_commitments() {
  // Without vector commitments, the positions of the six-term polynomial
  let at = positions(0);
  assert_eq!((at.lr, at.o, at.s), (1, 2, 3));
  let at = positions(1);
  assert_eq!((at.lr, at.o, at.s), (2, 4, 5));
  let at = positions(5);
  assert_eq!((at.lr, at.o, at.s), (6, 12, 13));
}

#[test]
fn statements_tell_whether_they_can_be_proved() {
  let generators = generators(4);
  let reduced = generators.reduce(4).unwrap();
  let Tied { statement, .. } = tied(&reduced);
  assert_eq!(statement.violation(), None);
  assert!(statement.provable());
  assert_eq!((statement.n(), statement.q(), statement.c(), statement.m()), (4, 2, 1, 1));

  // A weight on a scalar commitment beyond the last is accepted, and cannot be proved with
  let mut WV = ScalarMatrix::new();
  WV.push(vec![(1, Scalar::one())]);
  WV.push(vec![]);
  let mut beyond = statement.clone();
  beyond.WV = WV;
  assert_eq!(beyond.violation(), None);
  assert!(!beyond.provable());

  // As is one on the values of a vector commitment beyond the generators
  let mut WCL = ScalarMatrix::new();
  WCL.push(vec![(4, Scalar::one())]);
  WCL.push(vec![]);
  let mut beyond = statement.clone();
  beyond.WCL = vec![WCL];
  assert_eq!(beyond.violation(), None);
  assert!(!beyond.provable());

  // A statement which was altered into breaking a rule
  let mut broken = statement.clone();
  broken.c = ScalarVector::new(3);
  assert_eq!(broken.violation(), Some(AcError::InconsistentAmountOfConstraints));
  assert!(!broken.provable());
}

#[test]
fn verifying_is_merging() {
  let generators = generators(8);
  let mut proofs = vec![];
  for n in [4, 1, 8] {
    let reduced = generators.reduce(n).unwrap();
    let (statement, witness) = if n >= 4 {
      let Tied { statement, witness, .. } = tied(&reduced);
      (statement, witness)
    } else {
      multiplication(reduced, Scalar::from_u64(6), Scalar::from_u64(7))
    };
    let proof = statement
      .clone()
      .prove(&mut OsRng, &mut Transcript::new("Arithmetic Circuit Test"), witness).unwrap()
      .unwrap();
    proofs.push((statement, proof));
  }
  let weights = [(3, 5), (7, 11), (13, 17)];
  let verify_into = |verifier: &mut _, i: usize| {
    proofs[i]
      .0
      .clone()
      .verify_with_weights(
        &Scalar::from_u64(weights[i].0),
        &Scalar::from_u64(weights[i].1),
        verifier,
        &mut Transcript::new("Arithmetic Circuit Test"),
        proofs[i].1.clone(),
      ).unwrap()
      .unwrap();
  };

  // All into one accumulator
  let mut one = generators.batch_verifier();
  for i in 0 .. 3 {
    verify_into(&mut one, i);
  }
  // Each into its own, and these merged
  let mut merged = generators.batch_verifier();
  for i in 0 .. 3 {
    let mut own = generators.batch_verifier();
    verify_into(&mut own, i);
    assert!(generators.verify(own.clone()));
    merged.merge(&own);
  }
  assert_eq!(merged, one);
  assert!(generators.verify(merged));
}
