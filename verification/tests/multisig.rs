use generalized_bulletproofs::coin::{
  fits_transaction, output_id, CONFIRMATIONS, MAX_INPUTS, MAX_OUTPUTS,
};
use generalized_bulletproofs::field::Scalar;
use generalized_bulletproofs::multisig::{
  balance, blocks, entropy, first_participant, framed, key_image_share, part, range_proof,
  transcript, word, Payment, SpentOutput,
};
use generalized_bulletproofs::transcript::Transcript;

// Two inputs with blocks of 100 bytes, then the entropy, then a range proof of 5 bytes
fn leader_preprocess() -> Vec<u8> {
  let mut preprocess = vec![];
  for i in 0 .. 237 {
    preprocess.push(i as u8);
  }
  preprocess
}

#[test]
fn the_first_participant_leads() {
  assert_eq!(first_participant(&vec![]), None);
  assert_eq!(first_participant(&vec![None, None]), None);
  assert_eq!(first_participant(&vec![None, Some(vec![]), Some(vec![1])]), Some(1));
  assert_eq!(first_participant(&vec![Some(vec![1]), None]), Some(0));
}

#[test]
fn messages_are_taken_apart() {
  let message = vec![10, 11, 12, 13, 14];
  assert_eq!(part(&message, 1, 3), Some(vec![11, 12, 13]));
  assert_eq!(part(&message, 0, 5), Some(message.clone()));
  assert_eq!(part(&message, 5, 0), Some(vec![]));
  assert_eq!(part(&message, 3, 3), None);
  assert_eq!(part(&message, 6, 0), None);
  assert_eq!(part(&message, usize::MAX, 2), None);

  let preprocess = leader_preprocess();
  let mut expected = [0; 32];
  for i in 0 .. 32 {
    expected[i] = (7 + i) as u8;
  }
  assert_eq!(word(&preprocess, 7), Some(expected));
  assert_eq!(word(&preprocess, 205), Some(core::array::from_fn(|i| (205 + i) as u8)));
  assert_eq!(word(&preprocess, 206), None);
}

#[test]
fn the_leader_writes_entropy_and_a_range_proof() {
  let preprocess = leader_preprocess();
  assert_eq!(entropy(&preprocess, 2, 100), Some(core::array::from_fn(|i| (200 + i) as u8)));
  assert_eq!(range_proof(&preprocess, 2, 100), Some(vec![232, 233, 234, 235, 236]));
  // A preprocess which ends with the entropy holds an empty range proof
  assert_eq!(range_proof(&preprocess[.. 232].to_vec(), 2, 100), Some(vec![]));
  // Too short for the entropy
  assert_eq!(entropy(&preprocess[.. 231].to_vec(), 2, 100), None);
  assert_eq!(range_proof(&preprocess[.. 231].to_vec(), 2, 100), None);
  assert_eq!(entropy(&preprocess, 3, 100), None);
  assert_eq!(entropy(&preprocess, usize::MAX, 100), None);
  assert_eq!(range_proof(&preprocess, usize::MAX, 2), None);
}

#[test]
fn key_image_shares_follow_the_nonces() {
  let preprocess = leader_preprocess();
  assert_eq!(key_image_share(&preprocess, 0, 100), Some(core::array::from_fn(|i| (64 + i) as u8)));
  assert_eq!(key_image_share(&preprocess, 1, 100), Some(core::array::from_fn(|i| (164 + i) as u8)));
  assert_eq!(key_image_share(&preprocess, 2, 100), None);
  assert_eq!(key_image_share(&preprocess[.. 195].to_vec(), 1, 100), None);
  assert_eq!(key_image_share(&preprocess, usize::MAX, 100), None);
}

#[test]
fn each_input_is_given_its_block() {
  let messages = vec![Some(vec![1, 2, 3, 4, 5, 6]), None, Some(vec![7, 8, 9, 10, 11, 12, 13])];
  assert_eq!(blocks(&messages, 0, 3), Some(vec![Some(vec![1, 2, 3]), None, Some(vec![7, 8, 9])]));
  assert_eq!(
    blocks(&messages, 1, 3),
    Some(vec![Some(vec![4, 5, 6]), None, Some(vec![10, 11, 12])])
  );
  assert_eq!(blocks(&messages, 2, 3), None);
  assert_eq!(blocks(&messages, usize::MAX, 3), None);
  assert_eq!(blocks(&vec![None, None], 5, 32), Some(vec![None, None]));
  assert_eq!(blocks(&vec![], 0, 32), Some(vec![]));
}

#[test]
fn masks_are_balanced_against_the_outputs() {
  let outputs = Scalar::from_u64(100);
  let mut masks = vec![Scalar::from_u64(30), Scalar::from_u64(45), Scalar::from_u64(999)];
  balance(&mut masks, &outputs);
  assert_eq!(masks, vec![Scalar::from_u64(30), Scalar::from_u64(45), Scalar::from_u64(25)]);

  // The others may exceed the outputs
  let mut masks = vec![Scalar::from_u64(70), Scalar::from_u64(45), Scalar::zero()];
  balance(&mut masks, &outputs);
  assert_eq!(masks[2], Scalar::from_u64(15).neg());
  assert_eq!(masks[0].add(&masks[1]).add(&masks[2]), outputs);

  let mut masks = vec![Scalar::from_u64(5)];
  balance(&mut masks, &outputs);
  assert_eq!(masks, vec![outputs]);
}

#[test]
fn the_coin_is_fixed() {
  assert_eq!(CONFIRMATIONS, 10);
  assert_eq!(MAX_INPUTS, 128);
  assert_eq!(MAX_OUTPUTS, 16);
  assert_eq!(output_id([7; 32], 255), ([7; 32], 255));
  assert_eq!(output_id([0; 32], 0), ([0; 32], 0));
  assert!(fits_transaction(128, 16));
  assert!(!fits_transaction(129, 16));
  assert!(!fits_transaction(1, 17));
}

fn spent() -> Vec<SpentOutput> {
  vec![
    SpentOutput { tx: [1; 32], o: 0x0203, key_offset: [4; 32] },
    SpentOutput { tx: [5; 32], o: 7, key_offset: [6; 32] },
  ]
}

fn paid() -> Vec<Payment> {
  vec![Payment { address: vec![8, 9, 10], amount: 0x0102_0304_0506_0708 }]
}

#[test]
fn a_transaction_is_framed_in_order() {
  let messages = framed(&[11; 32], &spent(), &paid(), &vec![12, 13]);
  let plain =
    messages.iter().map(|message| (message.label, message.bytes.clone())).collect::<Vec<_>>();
  assert_eq!(
    plain,
    vec![
      ("spend_key", vec![11; 32]),
      ("input_hash", vec![1; 32]),
      ("input_output_index", vec![3, 2]),
      ("input_shared_key", vec![4; 32]),
      ("input_hash", vec![5; 32]),
      ("input_output_index", vec![7, 0]),
      ("input_shared_key", vec![6; 32]),
      ("payment_address", vec![8, 9, 10]),
      ("payment_amount", vec![8, 7, 6, 5, 4, 3, 2, 1]),
      ("change", vec![12, 13]),
    ]
  );
}

#[test]
fn a_transaction_without_inputs_or_payments_is_framed() {
  let messages = framed(&[0; 32], &vec![], &vec![], &vec![]);
  assert_eq!(messages.len(), 2);
  assert_eq!(messages[0].label, "spend_key");
  assert_eq!(messages[1].label, "change");
  assert!(messages[1].bytes.is_empty());
}

#[test]
fn the_transcript_of_a_transaction_holds_its_frame() {
  let mut by_hand = Transcript::new("Multisig Test");
  for message in framed(&[11; 32], &spent(), &paid(), &vec![12, 13]) {
    by_hand.append_message(message.label, &message.bytes);
  }
  let mut made = transcript("Multisig Test", &[11; 32], &spent(), &paid(), &vec![12, 13]);
  assert_eq!(made.challenge("decoys"), by_hand.challenge("decoys"));

  // Another amount gives another transcript
  let mut other_paid = paid();
  other_paid[0].amount += 1;
  let mut other = transcript("Multisig Test", &[11; 32], &spent(), &other_paid, &vec![12, 13]);
  let mut again = transcript("Multisig Test", &[11; 32], &spent(), &paid(), &vec![12, 13]);
  assert!(other.challenge("decoys") != again.challenge("decoys"));
}
