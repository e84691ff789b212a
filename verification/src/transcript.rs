//! The Fiat-Shamir transcript.
//!
//! A [`Transcript`] holds `flexible-transcript`'s recommended transcript.
//! What it stands for is the record of what it was given since it was
//! made: its name, and then each domain separator, each message and each
//! challenge which was drawn, in order. A challenge depends on that record
//! and on its own label, and on nothing else.
use flexible_transcript::RecommendedTranscript;
use flexible_transcript::Transcript as _;
use vstd::prelude::*;

verus! {

/// One step of a transcript as plain values: 0 for the name, 1 for a domain
/// separator, 2 for a message and 3 for a challenge; the label; and the
/// bytes of the message (empty but for a message).
pub type StepView = (u8, Seq<char>, Seq<u8>);

/// The step which names a transcript.
pub open spec fn name_step(name: Seq<char>) -> StepView {
    (0u8, name, Seq::<u8>::empty())
}

/// The step which separates a domain.
pub open spec fn domain_step(label: Seq<char>) -> StepView {
    (1u8, label, Seq::<u8>::empty())
}

/// The step which writes a message.
pub open spec fn message_step(label: Seq<char>, message: Seq<u8>) -> StepView {
    (2u8, label, message)
}

/// The step which draws a challenge.
pub open spec fn challenge_step(label: Seq<char>) -> StepView {
    (3u8, label, Seq::<u8>::empty())
}

/// A transcript as plain values: the steps it has taken.
pub struct TranscriptView {
    pub steps: Seq<StepView>,
}

/// The steps which a transcript has taken since it was made.
pub uninterp spec fn absorbed(transcript: Transcript) -> Seq<StepView>;

/// The bytes which `Transcript::challenge` of the recommended transcript
/// returns for a label, after a transcript has taken these steps.
pub uninterp spec fn challenge_bytes(steps: Seq<StepView>, label: Seq<char>) -> Seq<u8>;

impl TranscriptView {
    /// The transcript of a name which has taken no further step.
    pub open spec fn named(name: Seq<char>) -> TranscriptView {
        TranscriptView { steps: seq![name_step(name)] }
    }

    /// The transcript after one more step.
    pub open spec fn push(self, step: StepView) -> TranscriptView {
        TranscriptView { steps: self.steps.push(step) }
    }

    /// The transcript after a message.
    pub open spec fn message(self, label: Seq<char>, message: Seq<u8>) -> TranscriptView {
        self.push(message_step(label, message))
    }

    /// The transcript after a domain separator.
    pub open spec fn domain(self, label: Seq<char>) -> TranscriptView {
        self.push(domain_step(label))
    }

    /// The bytes of the challenge drawn next under a label.
    pub open spec fn challenge(self, label: Seq<char>) -> Seq<u8> {
        challenge_bytes(self.steps, label)
    }

    /// The transcript after a challenge was drawn under a label.
    pub open spec fn challenged(self, label: Seq<char>) -> TranscriptView {
        self.push(challenge_step(label))
    }
}

/// A Fiat-Shamir transcript.
#[verifier::external_body]
pub struct Transcript {
    sponge: RecommendedTranscript,
}

impl Transcript {
    /// What this stands for, as plain values.
    pub open spec fn view(&self) -> TranscriptView {
        TranscriptView { steps: absorbed(*self) }
    }

    /// A transcript of the given name which has taken no further step.
    pub fn new(name: &'static str) -> (r: Transcript)
        ensures
            r@ == TranscriptView::named(name@),
    {
        sponge_new(name)
    }

    /// Separates what follows from what came before.
    pub fn domain_separate(&mut self, label: &'static str)
        ensures
            final(self)@ == old(self)@.domain(label@),
    {
        sponge_domain_separate(self, label);
    }

    /// Writes a labelled message.
    pub fn append_message(&mut self, label: &'static str, message: &[u8])
        ensures
            final(self)@ == old(self)@.message(label@, message@),
    {
        sponge_append_message(self, label, message);
    }

    /// Draws a challenge of 64 bytes, which becomes part of what every
    /// later challenge depends on.
    pub fn challenge(&mut self, label: &'static str) -> (r: Vec<u8>)
        ensures
            r@ == old(self)@.challenge(label@),
            r@.len() == 64,
            final(self)@ == old(self)@.challenged(label@),
    {
        sponge_challenge(self, label)
    }
}

impl Clone for Transcript {
    /// A transcript which has taken the same steps.
    fn clone(&self) -> (r: Transcript)
        ensures
            r@ == self@,
    {
        sponge_clone(self)
    }
}

/// `Transcript::new` of `RecommendedTranscript`: a transcript which has
/// taken its name, and nothing else.
#[verifier::external_body]
fn sponge_new(name: &'static str) -> (r: Transcript)
    ensures
        absorbed(r) == seq![name_step(name@)],
{
    Transcript { sponge: RecommendedTranscript::new(name.as_bytes()) }
}

/// `Transcript::domain_separate` of `RecommendedTranscript`: the transcript
/// takes the label as a domain separator.
#[verifier::external_body]
fn sponge_domain_separate(transcript: &mut Transcript, label: &'static str)
    ensures
        absorbed(*final(transcript)) == absorbed(*old(transcript)).push(domain_step(label@)),
{
    transcript.sponge.domain_separate(label.as_bytes());
}

/// `Transcript::append_message` of `RecommendedTranscript`: the transcript
/// takes the label and the message.
#[verifier::external_body]
fn sponge_append_message(transcript: &mut Transcript, label: &'static str, message: &[u8])
    ensures
        absorbed(*final(transcript)) == absorbed(*old(transcript)).push(
            message_step(label@, message@),
        ),
{
    transcript.sponge.append_message(label.as_bytes(), message);
}

/// `Transcript::challenge` of `RecommendedTranscript`: 64 bytes which
/// depend on the steps taken so far and on the label alone; the transcript
/// takes the label as a challenge.
#[verifier::external_body]
fn sponge_challenge(transcript: &mut Transcript, label: &'static str) -> (r: Vec<u8>)
    ensures
        r@ == challenge_bytes(absorbed(*old(transcript)), label@),
        r@.len() == 64,
        absorbed(*final(transcript)) == absorbed(*old(transcript)).push(challenge_step(label@)),
{
    transcript.sponge.challenge(label.as_bytes()).to_vec()
}

/// `Clone::clone` of `RecommendedTranscript`: a transcript which has taken
/// the same steps.
#[verifier::external_body]
fn sponge_clone(transcript: &Transcript) -> (r: Transcript)
    ensures
        absorbed(r) == absorbed(*transcript),
{
    Transcript { sponge: transcript.sponge.clone() }
}

} // verus!
