//! The inner-product argument: a proof, of a size logarithmic in the length
//! of two vectors, that a point commits to them and to their inner product.
//!
//! The relation is `P = sum(a * g_bold) + sum(b * (weights * h_bold)) +
//! (a . b) * (u * g)`. Each round halves the vectors under a challenge drawn
//! from the transcript; the verifier keeps every check as weights in a
//! [`BatchVerifier`].
use crate::field::{field_inv, field_mul, field_sub, hashed_scalar, le_bytes, Scalar};
use crate::generators::{
    is_pow2, least_power_of_two, lemma_pow2_halves, lemma_two_pow_bounds,
    lemma_two_pow_increases, log2, log2_of, padded_len, two_pow, BatchVerifier, BatchView,
    GeneratorsView, ProofGenerators,
};
use crate::group::{msm, multiexp, pairs_view, point_mul, Point};
use crate::point_vector::{encodings, folded_points, push_pairs, scaled_points, zip, PointVector};
use crate::scalar_vector::{inner, padded, vec_add, vec_scale, ScalarVector};
use crate::transcript::{Transcript, TranscriptView};
use vstd::prelude::*;

verus! {

/// Why an inner-product argument was refused.
#[derive(Clone, Copy, Debug, PartialEq, Eq)]
pub enum IpError {
    /// The vectors, or the rounds of a proof, do not match the generators.
    IncorrectAmountOfGenerators,
    /// A proof's two lists of round commitments differ in length.
    DifferingLrLengths,
}

/// How the point `P` of the relation is given.
#[allow(non_snake_case)]
#[derive(Clone, Copy, Debug, PartialEq, Eq)]
pub enum P {
    /// The point itself, which is written to the transcript.
    Point(Point),
    /// The point as the prover holds it; the transcript already binds it.
    ProverWithoutTranscript(Point),
    /// The weight under which the verifier has already accumulated the
    /// point; the transcript already binds it.
    VerifierWithoutTranscript { verifier_weight: Scalar },
}

/// A proof as plain values.
#[allow(non_snake_case)]
pub struct IpProofView {
    pub L: Seq<Seq<u8>>,
    pub R: Seq<Seq<u8>>,
    pub a: nat,
    pub b: nat,
}

/// A witness as plain values.
pub struct IpWitnessView {
    pub a: Seq<nat>,
    pub b: Seq<nat>,
}

/// The transcript after a statement was written to it: the generators'
/// digest, the scalar `u` and, where the statement binds it, the point `P`.
pub open spec fn ip_start(
    t: TranscriptView,
    digest: Seq<u8>,
    u: nat,
    bound: Option<Seq<u8>>,
) -> TranscriptView {
    let s = t.domain("inner_product"@).message("generators"@, digest).message(
        "u"@,
        le_bytes(u, 32),
    );
    match bound {
        Some(point) => s.message("P"@, point),
        None => s,
    }
}

/// The point a statement writes to the transcript, if it writes one.
pub open spec fn bound_point(p: P) -> Option<Seq<u8>> {
    match p {
        P::Point(point) => Some(point@),
        _ => None,
    }
}

/// The challenge of a round, drawn after its two commitments were written.
pub open spec fn lr_challenge(t: TranscriptView, l: Seq<u8>, r: Seq<u8>) -> nat {
    hashed_scalar("inner_product"@, t.message("L"@, l).message("R"@, r).challenge("e"@))
}

/// The transcript after a round.
pub open spec fn lr_next(t: TranscriptView, l: Seq<u8>, r: Seq<u8>) -> TranscriptView {
    t.message("L"@, l).message("R"@, r).challenged("e"@)
}

/// The transcript before round `j` of a proof.
pub open spec fn rounds_transcript(
    t: TranscriptView,
    ls: Seq<Seq<u8>>,
    rs: Seq<Seq<u8>>,
    j: nat,
) -> TranscriptView
    decreases j,
{
    if j == 0 {
        t
    } else {
        lr_next(rounds_transcript(t, ls, rs, (j - 1) as nat), ls[j - 1], rs[j - 1])
    }
}

/// The challenge of round `j` of a proof.
pub open spec fn round_challenge(
    t: TranscriptView,
    ls: Seq<Seq<u8>>,
    rs: Seq<Seq<u8>>,
    j: nat,
) -> nat {
    lr_challenge(rounds_transcript(t, ls, rs, j), ls[j as int], rs[j as int])
}

/// Whether none of the first `k` challenges of a proof is zero.
pub open spec fn rounds_clear(t: TranscriptView, ls: Seq<Seq<u8>>, rs: Seq<Seq<u8>>, k: nat) -> bool {
    forall|j: nat| j < k ==> round_challenge(t, ls, rs, j) != 0
}

/// The challenges of the first `k` rounds of a proof.
pub open spec fn round_challenges(
    t: TranscriptView,
    ls: Seq<Seq<u8>>,
    rs: Seq<Seq<u8>>,
    k: nat,
) -> Seq<nat> {
    Seq::new(k, |j: int| round_challenge(t, ls, rs, j as nat))
}

/// The inverse of each of a list of scalars.
pub open spec fn inverses(es: Seq<nat>) -> Seq<nat> {
    Seq::new(es.len(), |j: int| field_inv(es[j]))
}

/// What the prover holds at the start of a round.
pub struct IpRound {
    pub g: Seq<Seq<u8>>,
    pub h: Seq<Seq<u8>>,
    pub a: Seq<nat>,
    pub b: Seq<nat>,
}

impl IpRound {
    /// Half the length of the vectors.
    pub open spec fn half(self) -> int {
        self.a.len() as int / 2
    }

    /// The commitment `L` of the round: the low half of `a` on the high
    /// generators, the high half of `b` on the low, and their inner product.
    pub open spec fn left(self, u: Seq<u8>) -> Seq<u8> {
        let n = self.half();
        msm(
            zip(self.a.take(n), self.g.skip(n)) + zip(self.b.skip(n), self.h.take(n)) + seq![
                (inner(self.a.take(n), self.b.skip(n)), u),
            ],
        )
    }

    /// The commitment `R` of the round, with the halves exchanged.
    pub open spec fn right(self, u: Seq<u8>) -> Seq<u8> {
        let n = self.half();
        msm(
            zip(self.a.skip(n), self.g.take(n)) + zip(self.b.take(n), self.h.skip(n)) + seq![
                (inner(self.a.skip(n), self.b.take(n)), u),
            ],
        )
    }

    /// What the prover holds after the round, under the challenge `e`.
    pub open spec fn folded(self, e: nat) -> IpRound {
        let n = self.half();
        let inv = field_inv(e);
        IpRound {
            g: folded_points(self.g.take(n), self.g.skip(n), inv, e),
            h: folded_points(self.h.take(n), self.h.skip(n), e, inv),
            a: vec_add(vec_scale(self.a.take(n), e), vec_scale(self.a.skip(n), inv)),
            b: vec_add(vec_scale(self.b.take(n), inv), vec_scale(self.b.skip(n), e)),
        }
    }
}

/// How proving ended: with a proof, or without one where the challenge of
/// a round is zero; and the transcript as it was left, which is then the
/// transcript before that round.
pub struct IpOutcome {
    pub proof: Option<IpProofView>,
    pub transcript: TranscriptView,
}

/// The rounds of the prover, from what it holds and the commitments of the
/// rounds before.
pub open spec fn ip_run(
    s: IpRound,
    u: Seq<u8>,
    ls: Seq<Seq<u8>>,
    rs: Seq<Seq<u8>>,
    t: TranscriptView,
) -> IpOutcome
    decreases s.a.len(),
{
    if s.a.len() <= 1 {
        IpOutcome { proof: Some(IpProofView { L: ls, R: rs, a: s.a[0], b: s.b[0] }), transcript: t }
    } else {
        let l = s.left(u);
        let r = s.right(u);
        let e = lr_challenge(t, l, r);
        if e == 0 {
            IpOutcome { proof: None, transcript: t }
        } else {
            ip_run(s.folded(e), u, ls.push(l), rs.push(r), lr_next(t, l, r))
        }
    }
}

/// For each generator, the product over the rounds of the round's challenge
/// where the generator stood in the high half, and of `alt` of the round
/// where it stood in the low half.
pub open spec fn products(es: Seq<nat>, alt: Seq<nat>) -> Seq<nat>
    decreases es.len(),
{
    if es.len() == 0 {
        seq![1nat]
    } else {
        let rest = products(es.skip(1), alt.skip(1));
        Seq::new(
            2 * rest.len(),
            |i: int|
                if i < rest.len() {
                    field_mul(alt[0], rest[i])
                } else {
                    field_mul(es[0], rest[i - rest.len()])
                },
        )
    }
}

/// There is one product for each generator.
pub proof fn lemma_products_len(es: Seq<nat>, alt: Seq<nat>)
    ensures
        products(es, alt).len() == two_pow(es.len()),
    decreases es.len(),
{
    if es.len() > 0 {
        lemma_products_len(es.skip(1), alt.skip(1));
    }
}

/// The weighted commitments of the first `k` rounds: each `L` under the
/// square of its challenge, each `R` under the square of the inverse.
pub open spec fn lr_terms(
    w: nat,
    es: Seq<nat>,
    invs: Seq<nat>,
    ls: Seq<Seq<u8>>,
    rs: Seq<Seq<u8>>,
    k: nat,
) -> Seq<(nat, Seq<u8>)>
    decreases k,
{
    if k == 0 {
        Seq::empty()
    } else {
        lr_terms(w, es, invs, ls, rs, (k - 1) as nat).push(
            (field_mul(w, field_mul(es[k - 1], es[k - 1])), ls[k - 1]),
        ).push((field_mul(w, field_mul(invs[k - 1], invs[k - 1])), rs[k - 1]))
    }
}

/// The weight a proof is accumulated under: the statement's, where it
/// brings one, and else the fresh one.
pub open spec fn weight_of(p: P, fresh: nat) -> nat {
    match p {
        P::VerifierWithoutTranscript { verifier_weight } => verifier_weight@,
        _ => fresh,
    }
}

/// The accumulator after a proof was added to it under the weight `w`: the
/// point `P` where the statement brings it, the commitments of the rounds,
/// and what the proof's two scalars open on the folded generators taken
/// away.
pub open spec fn ip_accumulated(
    v: BatchView,
    n: nat,
    weights: Seq<nat>,
    u: nat,
    bound: Option<Seq<u8>>,
    w: nat,
    proof: IpProofView,
    es: Seq<nat>,
) -> BatchView {
    let invs = inverses(es);
    let start = match bound {
        Some(point) => v.additional.push((w, point)),
        None => v.additional,
    };
    BatchView {
        g: field_sub(v.g, field_mul(field_mul(w, field_mul(proof.a, proof.b)), u)),
        h: v.h,
        g_bold: Seq::new(
            v.g_bold.len(),
            |i: int|
                if i < n {
                    field_sub(v.g_bold[i], field_mul(field_mul(w, proof.a), products(es, invs)[i]))
                } else {
                    v.g_bold[i]
                },
        ),
        h_bold: Seq::new(
            v.h_bold.len(),
            |i: int|
                if i < n {
                    field_sub(
                        v.h_bold[i],
                        field_mul(
                            field_mul(field_mul(w, proof.b), products(invs, es)[i]),
                            weights[i],
                        ),
                    )
                } else {
                    v.h_bold[i]
                },
        ),
        h_sum: v.h_sum,
        additional: start + lr_terms(w, es, invs, proof.L, proof.R, es.len()),
    }
}

/// The two vectors whose inner product is proved.
#[derive(Debug, PartialEq, Eq)]
pub struct IpWitness {
    a: ScalarVector,
    b: ScalarVector,
}

impl IpWitness {
    /// The vectors are of one length, a power of two.
    #[verifier::type_invariant]
    pub closed spec fn inv(self) -> bool {
        self.a@.len() == self.b@.len() && is_pow2(self.a@.len())
    }

    /// What this stands for, as plain values.
    pub closed spec fn view(&self) -> IpWitnessView {
        IpWitnessView { a: self.a@, b: self.b@ }
    }

    /// A witness of two vectors of one length, which is not zero; both are
    /// extended by zeros to the next power of two.
    pub fn new(a: ScalarVector, b: ScalarVector) -> (r: Option<IpWitness>)
        ensures
            r.is_some() == (a@.len() != 0 && a@.len() == b@.len() && padded_len(a@.len())
                <= usize::MAX),
            r matches Some(w) ==> w@.a == padded(a@, padded_len(a@.len())) && w@.b == padded(
                b@,
                padded_len(a@.len()),
            ),
    {
        if a.len() == 0 || a.len() != b.len() {
            return None;
        }
        let p = least_power_of_two(a.len());
        if p > usize::MAX as u128 {
            return None;
        }
        let mut a = a;
        let mut b = b;
        a.pad(p as usize);
        b.pad(p as usize);
        Some(IpWitness { a, b })
    }
}

/// A proof: the two commitments of each round, and the two scalars which
/// the vectors were folded down to.
#[allow(non_snake_case)]
#[derive(Clone, Debug, PartialEq, Eq)]
pub struct IpProof {
    pub L: Vec<Point>,
    pub R: Vec<Point>,
    pub a: Scalar,
    pub b: Scalar,
}

impl IpProof {
    /// What this stands for, as plain values.
    pub open spec fn view(&self) -> IpProofView {
        IpProofView { L: encodings(self.L@), R: encodings(self.R@), a: self.a@, b: self.b@ }
    }
}

/// The challenges of the rounds of a proof, and their inverses.
pub struct IpChallenges {
    pub es: ScalarVector,
    pub invs: ScalarVector,
}

/// A statement: the generators, a weight for each of `h_bold`, the scalar
/// `u`, and the point `P`.
#[allow(non_snake_case)]
#[derive(Debug, PartialEq, Eq)]
pub struct IpStatement {
    generators: ProofGenerators,
    h_bold_weights: ScalarVector,
    u: Scalar,
    P: P,
}

/// A statement as plain values.
pub struct IpStatementView {
    pub generators: GeneratorsView,
    pub weights: Seq<nat>,
    pub u: nat,
    pub p: P,
}

impl IpStatementView {
    /// The point `u * g` which the inner product is committed on.
    pub open spec fn u_point(self) -> Seq<u8> {
        point_mul(self.generators.g, self.u)
    }

    /// The transcript after the statement was written to it.
    pub open spec fn start(self, t: TranscriptView) -> TranscriptView {
        ip_start(t, self.generators.transcript, self.u, bound_point(self.p))
    }

    /// What the prover holds before the first round.
    pub open spec fn first_round(self, w: IpWitnessView) -> IpRound {
        IpRound {
            g: self.generators.g_bold,
            h: scaled_points(self.generators.h_bold, self.weights),
            a: w.a,
            b: w.b,
        }
    }

    /// How proving ends for a witness, from a transcript.
    pub open spec fn proved(self, w: IpWitnessView, t: TranscriptView) -> IpOutcome {
        ip_run(self.first_round(w), self.u_point(), Seq::empty(), Seq::empty(), self.start(t))
    }

    /// Whether a proof has one pair of commitments for each halving of the
    /// generators.
    pub open spec fn shaped(self, proof: IpProofView) -> bool {
        proof.L.len() == proof.R.len() && proof.L.len() == log2(self.generators.len())
    }

    /// The challenges of a proof's rounds, from a transcript.
    pub open spec fn challenges(self, proof: IpProofView, t: TranscriptView) -> Seq<nat> {
        round_challenges(self.start(t), proof.L, proof.R, proof.L.len())
    }

    /// The accumulator after a proof was added under the weight `w`, with
    /// the challenges drawn from a transcript.
    pub open spec fn verified(
        self,
        v: BatchView,
        w: nat,
        proof: IpProofView,
        t: TranscriptView,
    ) -> BatchView {
        ip_accumulated(
            v,
            self.generators.len(),
            self.weights,
            self.u,
            bound_point(self.p),
            weight_of(self.p, w),
            proof,
            self.challenges(proof, t),
        )
    }
}

impl Clone for IpWitness {
    /// A copy which stands for the same values.
    fn clone(&self) -> (r: IpWitness)
        ensures
            r@ == self@,
    {
        proof {
            use_type_invariant(self);
        }
        IpWitness { a: self.a.copy(), b: self.b.copy() }
    }
}

impl Clone for IpStatement {
    /// A copy which stands for the same values.
    fn clone(&self) -> (r: IpStatement)
        ensures
            r@ == self@,
    {
        proof {
            use_type_invariant(self);
        }
        IpStatement {
            generators: self.generators.clone(),
            h_bold_weights: self.h_bold_weights.copy(),
            u: self.u,
            P: self.P,
        }
    }
}

/// The commitment of one side of a round.
fn round_commitment(
    a: &ScalarVector,
    g: &PointVector,
    b: &ScalarVector,
    h: &PointVector,
    c: Scalar,
    u: Point,
) -> (r: Point)
    requires
        a@.len() == g@.len(),
        b@.len() == h@.len(),
    ensures
        r@ == msm(zip(a@, g@) + zip(b@, h@) + seq![(c@, u@)]),
{
    let mut terms: Vec<(Scalar, Point)> = Vec::new();
    push_pairs(&mut terms, &a.0, &g.0);
    push_pairs(&mut terms, &b.0, &h.0);
    terms.push((c, u));
    assert(pairs_view(terms@) =~= zip(a@, g@) + zip(b@, h@) + seq![(c@, u@)]);
    let r = multiexp(&terms);
    crate::commitment::wipe_pairs(&mut terms);
    r
}

/// A copy of a list of points.
fn copy_points(points: &Vec<Point>) -> (r: PointVector)
    ensures
        r@ == encodings(points@),
{
    let mut out: Vec<Point> = Vec::with_capacity(points.len());
    let mut i: usize = 0;
    while i < points.len()
        invariant
            i <= points@.len(),
            out@.len() == i,
            forall|k: int| 0 <= k < i ==> out@[k] == points@[k],
        decreases points@.len() - i,
    {
        out.push(points[i]);
        i += 1;
    }
    PointVector(out)
}

impl IpStatement {
    /// There is one weight for each generator.
    #[verifier::type_invariant]
    pub closed spec fn inv(self) -> bool {
        self.h_bold_weights@.len() == self.generators@.len()
    }

    /// What this stands for, as plain values.
    pub closed spec fn view(&self) -> IpStatementView {
        IpStatementView {
            generators: self.generators@,
            weights: self.h_bold_weights@,
            u: self.u@,
            p: self.P,
        }
    }

    /// A statement about the point `P`, which is written to the transcript.
    #[allow(non_snake_case)]
    pub fn new(generators: ProofGenerators, h_bold_weights: ScalarVector, u: Scalar, P: Point) -> (r:
        Result<IpStatement, IpError>)
        ensures
            r.is_ok() == (h_bold_weights@.len() == generators@.len()),
            r matches Ok(s) ==> s@ == (IpStatementView {
                generators: generators@,
                weights: h_bold_weights@,
                u: u@,
                p: P::Point(P),
            }),
            r matches Err(e) ==> e == IpError::IncorrectAmountOfGenerators,
    {
        IpStatement::new_without_P_transcript(generators, h_bold_weights, u, P::Point(P))
    }

    /// A statement whose point `P` is given in any of the three ways.
    #[allow(non_snake_case)]
    pub fn new_without_P_transcript(
        generators: ProofGenerators,
        h_bold_weights: ScalarVector,
        u: Scalar,
        P: P,
    ) -> (r: Result<IpStatement, IpError>)
        ensures
            r.is_ok() == (h_bold_weights@.len() == generators@.len()),
            r matches Ok(s) ==> s@ == (IpStatementView {
                generators: generators@,
                weights: h_bold_weights@,
                u: u@,
                p: P,
            }),
            r matches Err(e) ==> e == IpError::IncorrectAmountOfGenerators,
    {
        if generators.len() != h_bold_weights.len() {
            return Err(IpError::IncorrectAmountOfGenerators);
        }
        Ok(IpStatement { generators, h_bold_weights, u, P })
    }

    /// What holds of every statement.
    pub fn properties(&self)
        ensures
            self@.generators.wf(),
            self@.weights.len() == self@.generators.len(),
    {
        proof {
            use_type_invariant(self);
        }
        self.generators.properties();
    }

    /// Whether a proof of the statement can be verified into an
    /// accumulator: the statement does not hold the point as the prover
    /// does, and the accumulator has a weight for each generator.
    pub fn verifiable(&self, verifier: &BatchVerifier) -> (r: bool)
        ensures
            r == (!(self@.p is ProverWithoutTranscript) && verifier@.fits(
                self@.generators.len(),
            )),
    {
        self.generators.properties();
        match self.P {
            P::ProverWithoutTranscript(_) => false,
            _ => verifier.fits(self.generators.len()),
        }
    }

    /// Writes the statement to the transcript.
    fn initial_transcript(&self, transcript: &mut Transcript)
        ensures
            final(transcript)@ == self@.start(old(transcript)@),
    {
        transcript.domain_separate("inner_product");
        transcript.append_message("generators", self.generators.transcript().as_slice());
        transcript.append_message("u", self.u.to_bytes().as_slice());
        match self.P {
            P::Point(point) => {
                transcript.append_message("P", point.to_bytes().as_slice());
            },
            _ => {},
        }
    }

    /// The challenge which a round with these two commitments would draw,
    /// found on a copy: the transcript itself takes no step.
    fn next_l_r(transcript: &Transcript, l: &Point, r: &Point) -> (e: Scalar)
        ensures
            e@ == lr_challenge(transcript@, l@, r@),
    {
        let mut copy = transcript.clone();
        copy.append_message("L", l.to_bytes().as_slice());
        copy.append_message("R", r.to_bytes().as_slice());
        let challenge = copy.challenge("e");
        Scalar::hash("inner_product", challenge.as_slice())
    }

    /// Writes the two commitments of a round and draws its challenge, for
    /// a round whose challenge is not zero.
    fn transcript_l_r(transcript: &mut Transcript, l: &Point, r: &Point) -> (e: Scalar)
        requires
            lr_challenge(old(transcript)@, l@, r@) != 0,
        ensures
            e@ == lr_challenge(old(transcript)@, l@, r@),
            e@ != 0,
            final(transcript)@ == lr_next(old(transcript)@, l@, r@),
    {
        transcript.append_message("L", l.to_bytes().as_slice());
        transcript.append_message("R", r.to_bytes().as_slice());
        let challenge = transcript.challenge("e");
        Scalar::hash("inner_product", challenge.as_slice())
    }

    /// Proves the statement for a witness of as many scalars as there are
    /// generators. The proof and the transcript are those of the rounds.
    ///
    /// Each round's challenge is first found on a copy of the transcript.
    /// Where it is zero the argument cannot go on: nothing is returned, and
    /// the transcript is left as it was before that round.
    pub fn prove(self, transcript: &mut Transcript, witness: IpWitness) -> (r: Option<
        Result<IpProof, IpError>,
    >)
        ensures
            match r {
                Some(Ok(proof)) => witness@.a.len() == self@.generators.len() && self@.proved(
                    witness@,
                    old(transcript)@,
                ) == (IpOutcome { proof: Some(proof@), transcript: final(transcript)@ }),
                None => witness@.a.len() == self@.generators.len()
                    && self@.proved(witness@, old(transcript)@) == (IpOutcome {
                    proof: None,
                    transcript: final(transcript)@,
                }),
                Some(Err(IpError::IncorrectAmountOfGenerators)) => witness@.a.len()
                    != self@.generators.len() && final(transcript)@ == old(transcript)@,
                Some(Err(IpError::DifferingLrLengths)) => false,
            },
    {
        proof {
            use_type_invariant(&self);
            use_type_invariant(&witness);
        }
        self.generators.properties();
        if self.generators.len() != witness.a.len() {
            return Some(Err(IpError::IncorrectAmountOfGenerators));
        }
        self.initial_transcript(transcript);
        let ghost goal = self@.proved(witness@, old(transcript)@);
        let u = self.generators.g().mul(&self.u);
        let mut g = copy_points(self.generators.g_bold_slice());
        let mut h = copy_points(self.generators.h_bold_slice()).mul_vec(&self.h_bold_weights);
        let mut a = witness.a.copy();
        let mut b = witness.b.copy();
        let mut ls: Vec<Point> = Vec::new();
        let mut rs: Vec<Point> = Vec::new();
        assert(encodings(ls@) =~= Seq::empty());
        while a.len() > 1
            invariant
                a@.len() == b@.len(),
                a@.len() == g@.len(),
                a@.len() == h@.len(),
                is_pow2(a@.len()),
                witness@.a.len() == self@.generators.len(),
                goal == self@.proved(witness@, old(transcript)@),
                ip_run(
                    IpRound { g: g@, h: h@, a: a@, b: b@ },
                    u@,
                    encodings(ls@),
                    encodings(rs@),
                    transcript@,
                ) == goal,
            decreases a@.len(),
        {
            proof {
                lemma_pow2_halves(a@.len());
            }
            let ghost round = IpRound { g: g@, h: h@, a: a@, b: b@ };
            let (a_lo, a_hi) = a.split();
            let (b_lo, b_hi) = b.split();
            let (g_lo, g_hi) = g.split();
            let (h_lo, h_hi) = h.split();
            let cl = a_lo.inner_product(&b_hi);
            let cr = a_hi.inner_product(&b_lo);
            let l = round_commitment(&a_lo, &g_hi, &b_hi, &h_lo, cl, u);
            let r = round_commitment(&a_hi, &g_lo, &b_lo, &h_hi, cr, u);
            if IpStatement::next_l_r(transcript, &l, &r).is_zero() {
                assert(ip_run(round, u@, encodings(ls@), encodings(rs@), transcript@) == (IpOutcome {
                    proof: None,
                    transcript: transcript@,
                }));
                return None;
            }
            let e = IpStatement::transcript_l_r(transcript, &l, &r);
            match e.invert() {
                None => {
                    return vstd::pervasive::unreached();
                },
                Some(inv) => {
                    g = g_lo.fold(&g_hi, &inv, &e);
                    h = h_lo.fold(&h_hi, &e, &inv);
                    a = a_lo.scale(&e).add(&a_hi.scale(&inv));
                    b = b_lo.scale(&inv).add(&b_hi.scale(&e));
                    let ghost before_l = encodings(ls@);
                    let ghost before_r = encodings(rs@);
                    ls.push(l);
                    rs.push(r);
                    assert(encodings(ls@) =~= before_l.push(l@));
                    assert(encodings(rs@) =~= before_r.push(r@));
                },
            }
        }
        Some(Ok(IpProof { L: ls, R: rs, a: a.get(0), b: b.get(0) }))
    }

    /// Writes the statement and the commitments of a proof's rounds to the
    /// transcript, and draws the challenge of each round. A proof of the
    /// wrong shape is refused before anything is written.
    ///
    /// Each round's challenge is first found on a copy of the transcript.
    /// Where it is zero nothing is returned, and the transcript is left as
    /// it was before that round.
    pub fn challenges(&self, transcript: &mut Transcript, proof: &IpProof) -> (r: Option<
        Result<IpChallenges, IpError>,
    >)
        ensures
            match r {
                Some(Ok(c)) => {
                    &&& self@.shaped(proof@)
                    &&& c.es@ == self@.challenges(proof@, old(transcript)@)
                    &&& c.invs@ == inverses(c.es@)
                    &&& rounds_clear(
                        self@.start(old(transcript)@),
                        proof@.L,
                        proof@.R,
                        proof@.L.len(),
                    )
                    &&& final(transcript)@ == rounds_transcript(
                        self@.start(old(transcript)@),
                        proof@.L,
                        proof@.R,
                        proof@.L.len(),
                    )
                },
                Some(Err(IpError::DifferingLrLengths)) => proof@.L.len() != proof@.R.len() && final(transcript)@ == old(transcript)@,
                Some(Err(IpError::IncorrectAmountOfGenerators)) => proof@.L.len() == proof@.R.len()
                    && !self@.shaped(proof@) && final(transcript)@ == old(transcript)@,
                None => self@.shaped(proof@) && exists|j: nat|
                    {
                        &&& j < proof@.L.len()
                        &&& rounds_clear(self@.start(old(transcript)@), proof@.L, proof@.R, j)
                        &&& round_challenge(self@.start(old(transcript)@), proof@.L, proof@.R, j)
                            == 0
                        &&& final(transcript)@ == rounds_transcript(
                            self@.start(old(transcript)@),
                            proof@.L,
                            proof@.R,
                            j,
                        )
                    },
            },
    {
        proof {
            use_type_invariant(self);
        }
        let n = self.generators.len();
        if proof.L.len() != proof.R.len() {
            return Some(Err(IpError::DifferingLrLengths));
        }
        if proof.L.len() != log2_of(n) {
            return Some(Err(IpError::IncorrectAmountOfGenerators));
        }
        self.initial_transcript(transcript);
        let ghost start = transcript@;
        let ghost ls = proof@.L;
        let ghost rs = proof@.R;
        let mut es: Vec<Scalar> = Vec::with_capacity(proof.L.len());
        let mut invs: Vec<Scalar> = Vec::with_capacity(proof.L.len());
        let mut j: usize = 0;
        while j < proof.L.len()
            invariant
                j <= proof.L@.len(),
                proof.L@.len() == proof.R@.len(),
                self@.shaped(proof@),
                start == self@.start(old(transcript)@),
                ls == encodings(proof.L@),
                rs == encodings(proof.R@),
                es@.len() == j,
                invs@.len() == j,
                transcript@ == rounds_transcript(start, ls, rs, j as nat),
                rounds_clear(start, ls, rs, j as nat),
                forall|i: int| 0 <= i < j ==> es@[i]@ == round_challenge(start, ls, rs, i as nat),
                forall|i: int| 0 <= i < j ==> invs@[i]@ == field_inv(es@[i]@),
            decreases proof.L@.len() - j,
        {
            if IpStatement::next_l_r(transcript, &proof.L[j], &proof.R[j]).is_zero() {
                proof {
                    let at = j as nat;
                    assert(at < proof@.L.len() && rounds_clear(start, ls, rs, at)
                        && round_challenge(start, ls, rs, at) == 0 && transcript@
                        == rounds_transcript(start, ls, rs, at));
                }
                return None;
            }
            let e = IpStatement::transcript_l_r(transcript, &proof.L[j], &proof.R[j]);
            match e.invert() {
                None => {
                    return vstd::pervasive::unreached();
                },
                Some(inv) => {
                    es.push(e);
                    invs.push(inv);
                },
            }
            j += 1;
        }
        let c = IpChallenges { es: ScalarVector(es), invs: ScalarVector(invs) };
        Some(Ok(c))
    }

    /// The product table of a proof's challenges: for each generator, the
    /// scalar it is folded under.
    fn product_table(es: &ScalarVector, alt: &ScalarVector) -> (r: ScalarVector)
        requires
            es@.len() == alt@.len(),
            two_pow(es@.len()) <= usize::MAX,
        ensures
            r@ == products(es@, alt@),
            r@.len() == two_pow(es@.len()),
    {
        let k = es.len();
        let mut table: Vec<Scalar> = Vec::new();
        table.push(Scalar::one());
        let mut j: usize = k;
        while j > 0
            invariant
                j <= k,
                k == es@.len(),
                k == alt@.len(),
                two_pow(k as nat) <= usize::MAX,
                crate::scalar_vector::values(table@) == products(es@.skip(j as int), alt@.skip(j as int)),
                table@.len() == two_pow((k - j) as nat),
            decreases j,
        {
            let ghost rest = crate::scalar_vector::values(table@);
            let len = table.len();
            proof {
                lemma_two_pow_increases((k - j + 1) as nat, k as nat);
            }
            let e = es.get(j - 1);
            let inv = alt.get(j - 1);
            let mut next: Vec<Scalar> = Vec::with_capacity(2 * len);
            let mut i: usize = 0;
            while i < len
                invariant
                    i <= len,
                    len == table@.len(),
                    rest == crate::scalar_vector::values(table@),
                    next@.len() == i,
                    forall|m: int| 0 <= m < i ==> next@[m]@ == field_mul(inv@, rest[m]),
                decreases len - i,
            {
                next.push(inv.mul(&table[i]));
                i += 1;
            }
            let mut i: usize = 0;
            while i < len
                invariant
                    i <= len,
                    len == table@.len(),
                    rest == crate::scalar_vector::values(table@),
                    next@.len() == len + i,
                    forall|m: int| 0 <= m < len ==> next@[m]@ == field_mul(inv@, rest[m]),
                    forall|m: int| 0 <= m < i ==> next@[len + m]@ == field_mul(e@, rest[m]),
                decreases len - i,
            {
                next.push(e.mul(&table[i]));
                i += 1;
            }
            proof {
                let es_here = es@.skip(j - 1);
                let alt_here = alt@.skip(j - 1);
                assert(es_here.skip(1) =~= es@.skip(j as int));
                assert(alt_here.skip(1) =~= alt@.skip(j as int));
            }
            table = next;
            j -= 1;
        }
        assert(es@.skip(0) =~= es@);
        assert(alt@.skip(0) =~= alt@);
        ScalarVector(table)
    }

    /// Adds a proof to the accumulator under a weight, with the challenges
    /// of its rounds.
    pub fn accumulate(
        &self,
        weight: &Scalar,
        verifier: &mut BatchVerifier,
        proof: &IpProof,
        challenges: &IpChallenges,
    )
        requires
            !(self@.p is ProverWithoutTranscript),
            old(verifier)@.fits(self@.generators.len()),
            self@.shaped(proof@),
            challenges.es@.len() == proof@.L.len(),
            challenges.invs@ == inverses(challenges.es@),
        ensures
            final(verifier)@ == ip_accumulated(
                old(verifier)@,
                self@.generators.len(),
                self@.weights,
                self@.u,
                bound_point(self@.p),
                weight_of(self@.p, weight@),
                proof@,
                challenges.es@,
            ),
    {
        proof {
            use_type_invariant(self);
        }
        self.generators.properties();
        let n = self.generators.len();
        let k = proof.L.len();
        let ghost v = verifier@;
        let ghost es = challenges.es@;
        let ghost invs = challenges.invs@;
        proof {
            lemma_two_pow_bounds(n as nat);
        }
        let w = match self.P {
            P::VerifierWithoutTranscript { verifier_weight } => verifier_weight,
            _ => *weight,
        };
        match self.P {
            P::Point(point) => {
                verifier.push(w, point);
            },
            _ => {},
        }
        let ghost start = verifier@.additional;
        let g_table = IpStatement::product_table(&challenges.es, &challenges.invs);
        let h_table = IpStatement::product_table(&challenges.invs, &challenges.es);
        let wa = w.mul(&proof.a);
        let wb = w.mul(&proof.b);
        let mut i: usize = 0;
        while i < n
            invariant
                i <= n,
                n == self@.generators.len(),
                n == g_table@.len(),
                n == h_table@.len(),
                n == self.h_bold_weights@.len(),
                v.fits(n as nat),
                verifier@.g == v.g,
                verifier@.h == v.h,
                verifier@.h_sum == v.h_sum,
                verifier@.additional == start,
                verifier@.g_bold.len() == v.g_bold.len(),
                verifier@.h_bold.len() == v.h_bold.len(),
                wa@ == field_mul(w@, proof@.a),
                wb@ == field_mul(w@, proof@.b),
                forall|m: int|
                    0 <= m < v.g_bold.len() ==> verifier@.g_bold[m] == if m < i {
                        field_sub(v.g_bold[m], field_mul(wa@, g_table@[m]))
                    } else {
                        v.g_bold[m]
                    },
                forall|m: int|
                    0 <= m < v.h_bold.len() ==> verifier@.h_bold[m] == if m < i {
                        field_sub(
                            v.h_bold[m],
                            field_mul(field_mul(wb@, h_table@[m]), self.h_bold_weights@[m]),
                        )
                    } else {
                        v.h_bold[m]
                    },
            decreases n - i,
        {
            let g_term = wa.mul(&g_table.get(i));
            let g_next = verifier.g_bold.get(i).sub(&g_term);
            verifier.g_bold.set(i, g_next);
            let h_term = wb.mul(&h_table.get(i)).mul(&self.h_bold_weights.get(i));
            let h_next = verifier.h_bold.get(i).sub(&h_term);
            verifier.h_bold.set(i, h_next);
            i += 1;
        }
        let c = proof.a.mul(&proof.b);
        verifier.g = verifier.g.sub(&w.mul(&c).mul(&self.u));
        let mut j: usize = 0;
        while j < k
            invariant
                j <= k,
                k == proof.L@.len(),
                k == proof.R@.len(),
                k == challenges.es@.len(),
                k == challenges.invs@.len(),
                es == challenges.es@,
                invs == challenges.invs@,
                verifier@.g == field_sub(v.g, field_mul(field_mul(w@, field_mul(proof@.a, proof@.b)), self@.u)),
                verifier@.h == v.h,
                verifier@.h_sum == v.h_sum,
                verifier@.g_bold == ip_accumulated(
                    v,
                    n as nat,
                    self@.weights,
                    self@.u,
                    bound_point(self@.p),
                    w@,
                    proof@,
                    es,
                ).g_bold,
                verifier@.h_bold == ip_accumulated(
                    v,
                    n as nat,
                    self@.weights,
                    self@.u,
                    bound_point(self@.p),
                    w@,
                    proof@,
                    es,
                ).h_bold,
                verifier@.additional == start + lr_terms(w@, es, invs, proof@.L, proof@.R, j as nat),
            decreases k - j,
        {
            let e = challenges.es.get(j);
            let inv = challenges.invs.get(j);
            verifier.push(w.mul(&e.mul(&e)), proof.L[j]);
            verifier.push(w.mul(&inv.mul(&inv)), proof.R[j]);
            assert(verifier@.additional =~= start + lr_terms(
                w@,
                es,
                invs,
                proof@.L,
                proof@.R,
                (j + 1) as nat,
            ));
            j += 1;
        }
    }

    /// Verifies a proof under a given weight: the checks are added to the
    /// accumulator, which is left as it was where the proof is refused, and
    /// where the challenge of a round is zero and nothing is returned.
    pub fn verify_with_weight(
        self,
        weight: &Scalar,
        verifier: &mut BatchVerifier,
        transcript: &mut Transcript,
        proof: IpProof,
    ) -> (r: Option<Result<(), IpError>>)
        requires
            !(self@.p is ProverWithoutTranscript),
            old(verifier)@.fits(self@.generators.len()),
        ensures
            match r {
                Some(Ok(())) => {
                    &&& self@.shaped(proof@)
                    &&& rounds_clear(
                        self@.start(old(transcript)@),
                        proof@.L,
                        proof@.R,
                        proof@.L.len(),
                    )
                    &&& final(transcript)@ == rounds_transcript(
                        self@.start(old(transcript)@),
                        proof@.L,
                        proof@.R,
                        proof@.L.len(),
                    )
                    &&& final(verifier)@ == self@.verified(
                        old(verifier)@,
                        weight@,
                        proof@,
                        old(transcript)@,
                    )
                },
                Some(Err(IpError::DifferingLrLengths)) => proof@.L.len() != proof@.R.len() && final(transcript)@ == old(transcript)@ && final(verifier)@ == old(verifier)@,
                Some(Err(IpError::IncorrectAmountOfGenerators)) => proof@.L.len() == proof@.R.len()
                    && !self@.shaped(proof@) && final(transcript)@ == old(transcript)@ && final(verifier)@ == old(verifier)@,
                None => self@.shaped(proof@) && final(verifier)@ == old(verifier)@ && exists|j: nat|
                    {
                        &&& j < proof@.L.len()
                        &&& rounds_clear(self@.start(old(transcript)@), proof@.L, proof@.R, j)
                        &&& round_challenge(self@.start(old(transcript)@), proof@.L, proof@.R, j)
                            == 0
                        &&& final(transcript)@ == rounds_transcript(
                            self@.start(old(transcript)@),
                            proof@.L,
                            proof@.R,
                            j,
                        )
                    },
            },
    {
        match self.challenges(transcript, &proof) {
            None => None,
            Some(Err(e)) => Some(Err(e)),
            Some(Ok(c)) => {
                self.accumulate(weight, verifier, &proof, &c);
                Some(Ok(()))
            },
        }
    }

    /// Verifies a proof under a weight drawn from the generator, which is
    /// used where the statement brings none.
    pub fn verify(
        self,
        rng: &mut rand_core::OsRng,
        verifier: &mut BatchVerifier,
        transcript: &mut Transcript,
        proof: IpProof,
    ) -> (r: Option<Result<(), IpError>>)
        requires
            !(self@.p is ProverWithoutTranscript),
            old(verifier)@.fits(self@.generators.len()),
        ensures
            match r {
                Some(Ok(())) => {
                    &&& self@.shaped(proof@)
                    &&& rounds_clear(
                        self@.start(old(transcript)@),
                        proof@.L,
                        proof@.R,
                        proof@.L.len(),
                    )
                    &&& final(transcript)@ == rounds_transcript(
                        self@.start(old(transcript)@),
                        proof@.L,
                        proof@.R,
                        proof@.L.len(),
                    )
                    &&& exists|w: nat| #[trigger]
                        self@.verified(old(verifier)@, w, proof@, old(transcript)@) == final(verifier)@
                },
                Some(Err(IpError::DifferingLrLengths)) => proof@.L.len() != proof@.R.len() && final(transcript)@ == old(transcript)@ && final(verifier)@ == old(verifier)@,
                Some(Err(IpError::IncorrectAmountOfGenerators)) => proof@.L.len() == proof@.R.len()
                    && !self@.shaped(proof@) && final(transcript)@ == old(transcript)@ && final(verifier)@ == old(verifier)@,
                None => self@.shaped(proof@) && final(verifier)@ == old(verifier)@ && exists|j: nat|
                    {
                        &&& j < proof@.L.len()
                        &&& rounds_clear(self@.start(old(transcript)@), proof@.L, proof@.R, j)
                        &&& round_challenge(self@.start(old(transcript)@), proof@.L, proof@.R, j)
                            == 0
                        &&& final(transcript)@ == rounds_transcript(
                            self@.start(old(transcript)@),
                            proof@.L,
                            proof@.R,
                            j,
                        )
                    },
            },
    {
        let weight = Scalar::random(rng);
        let ghost view = self@;
        let r = self.verify_with_weight(&weight, verifier, transcript, proof);
        proof {
            if r == Some(Ok::<(), IpError>(())) {
                assert(view.verified(old(verifier)@, weight@, proof@, old(transcript)@)
                    == verifier@);
            }
        }
        r
    }
}

} // verus!
