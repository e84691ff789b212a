use generalized_bulletproofs::field::Scalar;
use generalized_bulletproofs::scalar_matrix::ScalarMatrix;
use generalized_bulletproofs::scalar_vector::ScalarVector;

fn scalars(values: &[u64]) -> ScalarVector {
  ScalarVector(values.iter().map(|value| Scalar::from_u64(*value)).collect())
}

#[test]
fn vectors_of_scalars() {
  assert_eq!(ScalarVector::new(3), scalars(&[0, 0, 0]));
  assert_eq!(ScalarVector::new(0).len(), 0);
  let a = scalars(&[1, 2, 3, 4]);
  let b = scalars(&[10, 20, 30, 40]);
  assert_eq!(a.len(), 4);
  assert_eq!(a.get(2), Scalar::from_u64(3));
  assert_eq!(a.add(&b), scalars(&[11, 22, 33, 44]));
  assert_eq!(b.sub(&a), scalars(&[9, 18, 27, 36]));
  assert_eq!(a.sub(&a), ScalarVector::new(4));
  assert_eq!(a.mul(&b), scalars(&[10, 40, 90, 160]));
  assert_eq!(a.scale(&Scalar::from_u64(5)), scalars(&[5, 10, 15, 20]));
  // 10 + 40 + 90 + 160
  assert_eq!(a.inner_product(&b), Scalar::from_u64(300));
  assert_eq!(ScalarVector::new(0).inner_product(&ScalarVector::new(0)), Scalar::zero());
  assert_eq!(a.copy(), a);

  let (low, high) = a.split();
  assert_eq!(low, scalars(&[1, 2]));
  assert_eq!(high, scalars(&[3, 4]));

  let mut changed = a.copy();
  changed.set(1, Scalar::from_u64(9));
  assert_eq!(changed, scalars(&[1, 9, 3, 4]));

  let mut padded = scalars(&[7, 8]);
  padded.pad(4);
  assert_eq!(padded, scalars(&[7, 8, 0, 0]));
  padded.pad(2);
  assert_eq!(padded, scalars(&[7, 8, 0, 0]));
}

#[test]
fn powers_start_at_one() {
  assert_eq!(ScalarVector::powers(&Scalar::from_u64(3), 5), scalars(&[1, 3, 9, 27, 81]));
  assert_eq!(ScalarVector::powers(&Scalar::from_u64(3), 1), scalars(&[1]));
  assert_eq!(ScalarVector::powers(&Scalar::from_u64(3), 0).len(), 0);
  assert_eq!(ScalarVector::powers(&Scalar::zero(), 3), scalars(&[1, 0, 0]));
}

#[test]
fn matrices_weigh_columns() {
  let mut matrix = ScalarMatrix::new();
  assert_eq!(matrix.len(), 0);
  assert_eq!(matrix.highest_index(), 0);
  assert!(matrix.columns_below(0));
  assert_eq!(matrix.mul_vec(3, &ScalarVector::new(0)), ScalarVector::new(3));

  matrix.push(vec![(0, Scalar::from_u64(2)), (2, Scalar::from_u64(3))]);
  matrix.push(vec![]);
  matrix.push(vec![(2, Scalar::from_u64(5)), (1, Scalar::from_u64(7)), (2, Scalar::from_u64(1))]);
  assert_eq!(matrix.len(), 3);
  assert_eq!(matrix.highest_index(), 2);
  assert!(matrix.columns_below(3));
  assert!(!matrix.columns_below(2));

  // Column 0: 10 * 2; column 1: 1000 * 7; column 2: 10 * 3 + 1000 * 5 + 1000 * 1
  let z = scalars(&[10, 100, 1000]);
  assert_eq!(matrix.mul_vec(3, &z), scalars(&[20, 7000, 6030]));
  assert_eq!(matrix.mul_vec(5, &z), scalars(&[20, 7000, 6030, 0, 0]));

  // Row 2 on the values 4, 5, 6: 5 * 6 + 7 * 5 + 1 * 6
  let values = scalars(&[4, 5, 6]);
  assert_eq!(matrix.row_dot(0, &values), Scalar::from_u64(26));
  assert_eq!(matrix.row_dot(1, &values), Scalar::zero());
  assert_eq!(matrix.row_dot(2, &values), Scalar::from_u64(71));

  matrix.push(vec![(9, Scalar::one())]);
  assert_eq!(matrix.highest_index(), 9);

  matrix.zeroize();
  assert_eq!(matrix.len(), 4);
  assert_eq!(matrix.highest_index(), 9);
  assert_eq!(matrix.data[0], vec![(0, Scalar::zero()), (2, Scalar::zero())]);
  assert_eq!(matrix.mul_vec(10, &scalars(&[1, 2, 3, 4])), ScalarVector::new(10));
}

fn matrix(rows: &[&[(usize, u64)]]) -> ScalarMatrix {
  let mut matrix = ScalarMatrix::new();
  for row in rows {
    matrix.push(row.iter().map(|(column, weight)| (*column, Scalar::from_u64(*weight))).collect());
  }
  matrix
}

#[test]
fn weighing_columns_is_weighing_rows() {
  // The second row weighs its last column twice
  let weights = matrix(&[&[(0, 2), (2, 3)], &[(1, 5), (2, 7), (2, 1)]]);
  let z = scalars(&[10, 100]);
  let values = scalars(&[1, 2, 3]);

  let by_columns = weights.mul_vec(3, &z);
  assert_eq!(by_columns, scalars(&[20, 500, 830]));
  assert_eq!(weights.row_dot(0, &values), Scalar::from_u64(11));
  assert_eq!(weights.row_dot(1, &values), Scalar::from_u64(34));

  let by_rows = z
    .get(0)
    .mul(&weights.row_dot(0, &values))
    .add(&z.get(1).mul(&weights.row_dot(1, &values)));
  assert_eq!(by_rows, Scalar::from_u64(3510));
  assert_eq!(by_columns.inner_product(&values), by_rows);
}

#[test]
fn the_coefficient_which_is_not_committed_to_is_the_verifiers() {
  // Two gates and one row: 2 aL[0] + aL[1] + 5 aR[1] + aO[0] = v + 13
  let a_l = scalars(&[3, 5]);
  let a_r = scalars(&[4, 6]);
  let a_o = a_l.mul(&a_r);
  let w_l = matrix(&[&[(0, 2), (1, 1)]]);
  let w_r = matrix(&[&[(1, 5)]]);
  let w_o = matrix(&[&[(0, 1)]]);
  let w_v = matrix(&[&[(0, 1)]]);
  let v = scalars(&[40]);
  let c = scalars(&[13]);
  let left = w_l.row_dot(0, &a_l).add(&w_r.row_dot(0, &a_r)).add(&w_o.row_dot(0, &a_o));
  assert_eq!(left, Scalar::from_u64(53));
  assert_eq!(left, w_v.row_dot(0, &v).add(&c.get(0)));

  let y = Scalar::from_u64(7);
  let ys = ScalarVector::powers(&y, 2);
  let y_inv = ScalarVector::powers(&y.invert().unwrap(), 2);
  let z = scalars(&[9]);

  // The products of the coefficients of `l` and `r` whose powers add up to `n'`
  let inputs = w_r.mul_vec(2, &z).mul(&y_inv).add(&a_l);
  let across = w_l.mul_vec(2, &z).add(&a_r.mul(&ys));
  let outputs = w_o.mul_vec(2, &z).sub(&ys);
  let coefficient = inputs.inner_product(&across).add(&a_o.inner_product(&outputs));

  // What the verifier makes of the statement, and of the value committed to
  let delta = w_r.mul_vec(2, &z).mul(&y_inv).inner_product(&w_l.mul_vec(2, &z));
  assert_eq!(delta, Scalar::from_u64(405).mul(&y.invert().unwrap()));
  let open = delta.add(&z.inner_product(&c)).add(&w_v.mul_vec(1, &z).inner_product(&v));
  assert_eq!(open, Scalar::from_u64(477).add(&Scalar::from_u64(405).mul(&y.invert().unwrap())));
  assert_eq!(coefficient, open);
}
