use flexible_transcript::{RecommendedTranscript, Transcript as _};

use generalized_bulletproofs::transcript::Transcript;

#[test]
fn challenges_are_those_of_the_recommended_transcript() {
  let mut transcript = Transcript::new("Transcript Test");
  transcript.domain_separate("domain");
  transcript.append_message("first", b"a message");
  transcript.append_message("second", &[]);
  let first = transcript.challenge("challenge");
  transcript.append_message("third", &[1, 2, 3]);
  let second = transcript.challenge("challenge");

  let mut outside = RecommendedTranscript::new(b"Transcript Test");
  outside.domain_separate(b"domain");
  outside.append_message(b"first", b"a message");
  outside.append_message(b"second", []);
  assert_eq!(first, outside.challenge(b"challenge").to_vec());
  outside.append_message(b"third", [1, 2, 3]);
  assert_eq!(second, outside.challenge(b"challenge").to_vec());

  assert_eq!(first.len(), 64);
  assert!(first != second);
}

#[test]
fn challenges_depend_on_all_that_was_written() {
  let challenge = |name: &'static str, label: &'static str, message: &[u8], ask: &'static str| {
    let mut transcript = Transcript::new(name);
    transcript.append_message(label, message);
    transcript.challenge(ask)
  };
  let base = challenge("name", "label", b"message", "challenge");
  assert_eq!(base, challenge("name", "label", b"message", "challenge"));
  assert!(base != challenge("another", "label", b"message", "challenge"));
  assert!(base != challenge("name", "another", b"message", "challenge"));
  assert!(base != challenge("name", "label", b"another", "challenge"));
  assert!(base != challenge("name", "label", b"message", "another"));

  // The order of the messages
  let mut forward = Transcript::new("name");
  forward.append_message("a", b"1");
  forward.append_message("b", b"2");
  let mut backward = Transcript::new("name");
  backward.append_message("b", b"2");
  backward.append_message("a", b"1");
  assert!(forward.challenge("challenge") != backward.challenge("challenge"));

  // A domain separator is no message
  let mut separated = Transcript::new("name");
  separated.domain_separate("label");
  let mut written = Transcript::new("name");
  written.append_message("label", &[]);
  assert!(separated.challenge("challenge") != written.challenge("challenge"));
}

#[test]
fn copies_draw_the_same_challenges() {
  let mut transcript = Transcript::new("name");
  transcript.append_message("label", b"message");
  let mut copy = transcript.clone();
  let drawn = transcript.challenge("challenge");
  assert_eq!(copy.challenge("challenge"), drawn);
  // The challenge which was drawn is part of what follows
  let next = transcript.challenge("challenge");
  assert!(next != drawn);
  assert_eq!(copy.challenge("challenge"), next);
  // What is written to one is not written to the other
  transcript.append_message("label", b"message");
  assert!(transcript.challenge("challenge") != copy.challenge("challenge"));
}
