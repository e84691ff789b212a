use ciphersuite::group::{Group, GroupEncoding};
use rand_core::OsRng;

use generalized_bulletproofs::arithmetic_circuit_proof::{
  ArithmeticCircuitProof, ArithmeticCircuitStatement, ArithmeticCircuitWitness,
};
use generalized_bulletproofs::field::Scalar;
use generalized_bulletproofs::generators::Generators;
use generalized_bulletproofs::group::Point;
use generalized_bulletproofs::inner_product::IpProof;
use generalized_bulletproofs::point_vector::PointVector;
use generalized_bulletproofs::scalar_matrix::ScalarMatrix;
use generalized_bulletproofs::scalar_vector::ScalarVector;
use generalized_bulletproofs::transcript::Transcript;

fn random_point() -> Point {
  Point::from_bytes(dalek_ff_group::RistrettoPoint::random(&mut OsRng).to_bytes()).unwrap()
}

fn points(n: usize) -> Vec<Point> {
  (0 .. n).map(|_| random_point()).collect()
}

// A proof for a statement with `c` vector commitments and `rounds` rounds, of any content
fn sample(c: usize, rounds: usize) -> ArithmeticCircuitProof {
  ArithmeticCircuitProof {
    AI: random_point(),
    AO: random_point(),
    S: random_point(),
    T_before_ni: points(2 * (c + 1)),
    T_after_ni: points((2 * (c + 1)) + 2),
    tau_x: Scalar::random(&mut OsRng),
    u: Scalar::random(&mut OsRng),
    t_caret: Scalar::random(&mut OsRng),
    ip: IpProof {
      L: points(rounds),
      R: points(rounds),
      a: Scalar::random(&mut OsRng),
      b: Scalar::random(&mut OsRng),
    },
  }
}

#[test]
fn proofs_are_written_word_by_word() {
  let proof = sample(1, 2);
  let bytes = proof.serialize();
  // 3 + 4 + 6 + 3 + 2 * 2 + 2 words
  assert_eq!(bytes.len(), 32 * 22);
  let word = |k: usize| &bytes[(32 * k) .. (32 * (k + 1))];
  assert_eq!(word(0), proof.AI.to_bytes());
  assert_eq!(word(1), proof.AO.to_bytes());
  assert_eq!(word(2), proof.S.to_bytes());
  for i in 0 .. 4 {
    assert_eq!(word(3 + i), proof.T_before_ni[i].to_bytes());
  }
  for i in 0 .. 6 {
    assert_eq!(word(7 + i), proof.T_after_ni[i].to_bytes());
  }
  assert_eq!(word(13), proof.tau_x.to_bytes());
  assert_eq!(word(14), proof.u.to_bytes());
  assert_eq!(word(15), proof.t_caret.to_bytes());
  assert_eq!(word(16), proof.ip.L[0].to_bytes());
  assert_eq!(word(17), proof.ip.R[0].to_bytes());
  assert_eq!(word(18), proof.ip.L[1].to_bytes());
  assert_eq!(word(19), proof.ip.R[1].to_bytes());
  assert_eq!(word(20), proof.ip.a.to_bytes());
  assert_eq!(word(21), proof.ip.b.to_bytes());
}

#[test]
fn proofs_are_read_as_they_were_written() {
  for (c, rounds) in [(0, 0), (0, 3), (1, 2), (3, 0), (2, 5)] {
    let proof = sample(c, rounds);
    let bytes = proof.serialize();
    assert_eq!(ArithmeticCircuitProof::read(&bytes, c), Some(proof.clone()));
    assert_eq!(ArithmeticCircuitProof::read(&bytes, c).unwrap().serialize(), bytes);
  }

  // For a statement with one vector commitment fewer it is read with two rounds more
  let proof = sample(1, 2);
  let other = ArithmeticCircuitProof::read(&proof.serialize(), 0);
  assert!(other != Some(proof.clone()));
  if let Some(other) = other {
    assert_eq!(other.T_before_ni.len(), 2);
    assert_eq!(other.ip.L.len(), 4);
  }
  // With one more it is read two rounds fewer
  let other = ArithmeticCircuitProof::read(&proof.serialize(), 2);
  assert!(other != Some(proof.clone()));
  if let Some(other) = other {
    assert_eq!(other.T_before_ni.len(), 6);
    assert_eq!(other.ip.L.len(), 0);
  }
}

#[test]
fn malformed_bytes_are_not_read() {
  let proof = sample(1, 2);
  let bytes = proof.serialize();
  assert!(ArithmeticCircuitProof::read(&bytes, 1).is_some());

  // Not a whole number of words
  assert_eq!(ArithmeticCircuitProof::read(&bytes[.. (bytes.len() - 1)], 1), None);
  let mut longer = bytes.clone();
  longer.push(0);
  assert_eq!(ArithmeticCircuitProof::read(&longer, 1), None);
  // Half a round
  assert_eq!(ArithmeticCircuitProof::read(&bytes[.. (bytes.len() - 32)], 1), None);
  // Too few words
  assert_eq!(ArithmeticCircuitProof::read(&[], 0), None);
  assert_eq!(ArithmeticCircuitProof::read(&bytes[.. (32 * 9)], 0), None);
  assert_eq!(ArithmeticCircuitProof::read(&bytes, 4), None);
  assert_eq!(ArithmeticCircuitProof::read(&bytes, usize::MAX), None);
  // Without the words of the last round it is a proof of one round
  let mut shorter = bytes[.. (32 * 18)].to_vec();
  shorter.extend(&bytes[(32 * 20) ..]);
  let mut one_round = proof.clone();
  one_round.ip.L.pop();
  one_round.ip.R.pop();
  assert_eq!(ArithmeticCircuitProof::read(&shorter, 1), Some(one_round));

  // A word which is no point, at each position which holds one
  for k in (0 .. 13).chain(16 .. 20) {
    let mut broken = bytes.clone();
    for byte in &mut broken[(32 * k) .. (32 * (k + 1))] {
      *byte = 0xff;
    }
    assert_eq!(ArithmeticCircuitProof::read(&broken, 1), None);
  }
  // A word which is no scalar, at each position which holds one
  for k in [13, 14, 15, 20, 21] {
    let mut broken = bytes.clone();
    for byte in &mut broken[(32 * k) .. (32 * (k + 1))] {
      *byte = 0xff;
    }
    assert_eq!(ArithmeticCircuitProof::read(&broken, 1), None);
  }
}

#[test]
fn proofs_which_were_read_are_verified() {
  let g_bold = points(2);
  let h_bold = points(2);
  let generators = Generators::new(random_point(), random_point(), g_bold, h_bold).unwrap();
  let statement = ArithmeticCircuitStatement::new(
    generators.reduce(2).unwrap(),
    ScalarMatrix::new(),
    ScalarMatrix::new(),
    ScalarMatrix::new(),
    vec![],
    vec![],
    ScalarMatrix::new(),
    ScalarVector(vec![]),
    PointVector(vec![]),
    PointVector(vec![]),
  )
  .unwrap();
  let witness = ArithmeticCircuitWitness::new(
    ScalarVector(vec![Scalar::from_u64(3), Scalar::from_u64(4)]),
    ScalarVector(vec![Scalar::from_u64(5), Scalar::from_u64(6)]),
    vec![],
    vec![],
  )
  .unwrap();
  let proof =
    statement.clone().prove(&mut OsRng, &mut Transcript::new("Wire Test"), witness).unwrap().unwrap();
  let bytes = proof.serialize();
  // 3 + 2 + 4 + 3 + 2 * 1 + 2 words
  assert_eq!(bytes.len(), 32 * 16);

  let read = ArithmeticCircuitProof::read(&bytes, 0).unwrap();
  assert_eq!(read, proof);
  let mut verifier = generators.batch_verifier();
  statement.verify(&mut OsRng, &mut verifier, &mut Transcript::new("Wire Test"), read).unwrap().unwrap();
  assert!(generators.verify(verifier));
}
