//! What holds between the functions of the library.
use crate::algebra::{
    applied_terms, commitment_terms, congruent, diagonal, dot, dots, law_value_of_the_product,
    lemma_center, lemma_commitment_rows, lemma_commitment_side, lemma_congruent_product,
    lemma_congruent_same, lemma_congruent_sum, lemma_convolution, lemma_dot_cancels,
    lemma_dot_commutes, lemma_dot_of_applied, lemma_dot_zeros, lemma_evaluation_len,
    lemma_field_add, lemma_inner, lemma_powers_inverse, lemma_sum_add,
    lemma_sum_congruent, lemma_sum_equal, lemma_sum_parts, lemma_sum_reversed, row_values, sum,
    weighted_commitments,
};
use crate::arithmetic_circuit_proof::{sized, AcError};
use crate::circuit::{
    after_len, challenges_of, evaluation, ip_begin, l_poly, lr_len, ni, proved, proving, r_poly,
    s_index,
    shaped, t_commitment, t_len, t_poly, verified, walk, yz, z_powers, BlindsView, ChallengesView,
    ProofView, StatementView, WitnessView,
};
use crate::field::{field_add, field_sub, lemma_order_positive, order};
use crate::generators::{is_pow2, lemma_pow2_halves, log2, BatchView};
use crate::circuit::{commitment_rows, g_values, h_values, row_left, row_right};
use crate::field::{field_inv, field_mul};
use crate::scalar_matrix::{apply, lemma_columns_below, row_dot};
use crate::scalar_vector::{inner, powers, vec_mul, zeros};
use crate::inner_product::{
    ip_run, round_challenge, rounds_clear, rounds_transcript, IpOutcome, IpProofView,
    IpRound, IpStatementView, IpWitnessView,
};
use crate::transcript::TranscriptView;
use vstd::prelude::*;

verus! {

/// Whether an error is one of those a statement is refused for.
pub open spec fn is_shape_error(e: AcError) -> bool {
    e == AcError::InconsistentAmountOfConstraints || e == AcError::ConstrainedNonExistentTerm
        || e == AcError::ConstrainedNonExistentCommitment
}

/// A statement is refused for its shape when it is made, and never later:
/// neither proving nor verifying ends with one of the errors a statement is
/// refused for.
pub proof fn law_shape_is_settled_by_the_statement(
    s: StatementView,
    w: WitnessView,
    b: BlindsView,
    p: ProofView,
    t0: TranscriptView,
    t1: TranscriptView,
    v0: BatchView,
    v1: BatchView,
    w1: nat,
    w2: nat,
    made: Option<Result<ProofView, AcError>>,
    r: Option<Result<(), AcError>>,
)
    ensures
        proving(s, w, b, t0, t1, made) ==> (made matches Some(Err(e)) ==> !is_shape_error(e)),
        verified(s, p, t0, t1, v0, v1, w1, w2, r) ==> (r matches Some(Err(e)) ==> !is_shape_error(e)),
{
}

/// A statement which was accepted breaks none of the rules statements are
/// refused for, and one which breaks a rule is refused for the first it
/// breaks.
pub proof fn law_accepted_statements_are_well_shaped(s: StatementView)
    ensures
        s.violation() is None <==> {
            &&& s.rows_agree()
            &&& s.terms_exist()
            &&& s.commitments_agree()
            &&& s.vector_terms_exist()
            &&& s.scalar_commitments_exist()
        },
        s.violation() matches Some(e) ==> is_shape_error(e),
{
}

/// The rounds of the prover of the inner-product argument make a proof
/// with one pair of commitments for each halving of its vectors, behind
/// those of the rounds before; and the transcript the prover leaves, and
/// the challenges it drew, are those the proof's commitments lead to.
pub proof fn lemma_rounds_agree(
    s: IpRound,
    u: Seq<u8>,
    ls: Seq<Seq<u8>>,
    rs: Seq<Seq<u8>>,
    t: TranscriptView,
    start: TranscriptView,
)
    requires
        is_pow2(s.a.len()),
        ls.len() == rs.len(),
        ip_run(s, u, ls, rs, t).proof is Some,
    ensures
        ({
            let out = ip_run(s, u, ls, rs, t);
            let proof = out.proof->Some_0;
            &&& proof.L.len() == ls.len() + log2(s.a.len())
            &&& proof.R.len() == proof.L.len()
            &&& proof.L.take(ls.len() as int) == ls
            &&& proof.R.take(rs.len() as int) == rs
            &&& t == rounds_transcript(start, proof.L, proof.R, ls.len()) ==> out.transcript
                == rounds_transcript(start, proof.L, proof.R, proof.L.len())
            &&& t == rounds_transcript(start, proof.L, proof.R, ls.len()) && rounds_clear(
                start,
                proof.L,
                proof.R,
                ls.len(),
            ) ==> rounds_clear(start, proof.L, proof.R, proof.L.len())
        }),
    decreases s.a.len(),
{
    let out = ip_run(s, u, ls, rs, t);
    let proof = out.proof->Some_0;
    if s.a.len() <= 1 {
        assert(proof.L.take(ls.len() as int) =~= ls);
        assert(proof.R.take(rs.len() as int) =~= rs);
    } else {
        lemma_pow2_halves(s.a.len());
        let l = s.left(u);
        let r = s.right(u);
        let e = crate::inner_product::lr_challenge(t, l, r);
        let next = crate::inner_product::lr_next(t, l, r);
        lemma_rounds_agree(s.folded(e), u, ls.push(l), rs.push(r), next, start);
        let k = ls.len() as int;
        assert(proof.L.take(k + 1)[k] == l);
        assert(proof.R.take(k + 1)[k] == r);
        assert(proof.L.take(k) =~= proof.L.take(k + 1).take(k));
        assert(proof.R.take(k) =~= proof.R.take(k + 1).take(k));
        assert(ls.push(l).take(k) =~= ls);
        assert(rs.push(r).take(k) =~= rs);
        if t == rounds_transcript(start, proof.L, proof.R, ls.len()) {
            assert(next == rounds_transcript(start, proof.L, proof.R, (k + 1) as nat));
            assert(round_challenge(start, proof.L, proof.R, k as nat) == e);
            if rounds_clear(start, proof.L, proof.R, ls.len()) {
                assert(rounds_clear(start, proof.L, proof.R, (k + 1) as nat)) by {
                    assert forall|j: nat| j < k + 1 implies round_challenge(
                        start,
                        proof.L,
                        proof.R,
                        j,
                    ) != 0 by {
                        if j < k {
                        }
                    }
                }
            }
        }
    }
}

/// The verifier of the inner-product argument refuses no proof which the
/// prover made from the same transcript: the proof has the shape the
/// statement asks for, none of the challenges the verifier draws is zero,
/// and the verifier leaves the transcript as the prover left it.
pub proof fn law_inner_product_verifier_follows_prover(
    s: IpStatementView,
    w: IpWitnessView,
    t: TranscriptView,
    proof: IpProofView,
    after: TranscriptView,
)
    requires
        s.generators.wf(),
        w.a.len() == s.generators.len(),
        s.proved(w, t) == (IpOutcome { proof: Some(proof), transcript: after }),
    ensures
        s.shaped(proof),
        rounds_clear(s.start(t), proof.L, proof.R, proof.L.len()),
        after == rounds_transcript(s.start(t), proof.L, proof.R, proof.L.len()),
{
    lemma_rounds_agree(
        s.first_round(w),
        s.u_point(),
        Seq::empty(),
        Seq::empty(),
        s.start(t),
        s.start(t),
    );
}

/// How verifying a proof ends, and what it leaves of the transcript, does
/// not depend on the accumulator the proof is verified into, nor on the
/// weights: a proof which is accepted into one accumulator is accepted into
/// every other, also into one which holds that proof already.
pub proof fn law_outcome_is_that_of_the_proof(
    s: StatementView,
    p: ProofView,
    t: TranscriptView,
    first: (TranscriptView, BatchView, BatchView, nat, nat, Option<Result<(), AcError>>),
    second: (TranscriptView, BatchView, BatchView, nat, nat, Option<Result<(), AcError>>),
)
    requires
        verified(s, p, t, first.0, first.1, first.2, first.3, first.4, first.5),
        verified(s, p, t, second.0, second.1, second.2, second.3, second.4, second.5),
    ensures
        (first.5 matches Some(Ok(_))) == (second.5 matches Some(Ok(_))),
        first.5 matches Some(Err(e)) ==> second.5 == first.5,
        first.5 is None == second.5 is None,
        first.0 == second.0,
{
    let steps = walk(s, p, t);
    let begin = ip_begin(s, steps);
    let rounds = p.ip.L.len();
    if steps.clear() {
        if first.5 is None {
            let i = choose|j: nat|
                j < rounds && rounds_clear(begin, p.ip.L, p.ip.R, j) && round_challenge(
                    begin,
                    p.ip.L,
                    p.ip.R,
                    j,
                ) == 0 && first.0 == rounds_transcript(begin, p.ip.L, p.ip.R, j);
            if second.5 is None {
                // The round which stopped the one stopped the other
                let k = choose|j: nat|
                    j < rounds && rounds_clear(begin, p.ip.L, p.ip.R, j) && round_challenge(
                        begin,
                        p.ip.L,
                        p.ip.R,
                        j,
                    ) == 0 && second.0 == rounds_transcript(begin, p.ip.L, p.ip.R, j);
                assert(i == k);
            } else if second.5 matches Some(Ok(_)) {
                assert(round_challenge(begin, p.ip.L, p.ip.R, i) != 0);
            }
        } else if second.5 is None && first.5 matches Some(Ok(_)) {
            let k = choose|j: nat|
                j < rounds && rounds_clear(begin, p.ip.L, p.ip.R, j) && round_challenge(
                    begin,
                    p.ip.L,
                    p.ip.R,
                    j,
                ) == 0 && second.0 == rounds_transcript(begin, p.ip.L, p.ip.R, j);
            assert(round_challenge(begin, p.ip.L, p.ip.R, k) != 0);
        }
    }
}

/// A proof commits to every coefficient of `t(X)` but the one at `n'`.
///
/// The blinding vectors are the coefficients of `l(X)` and of `r(X)` at
/// the position `n' + 1`, one above the circuit's outputs at `n'`, so the
/// two polynomials have `n' + 2` coefficients each and their product has
/// `2 n' + 3`. A proof which the prover made holds, in the order of the
/// powers, a commitment to each of the `n'` coefficients below the one at
/// `n'` and to each of the `n' + 2` above it, under the mask drawn for it;
/// and it has the shape which the verifier asks for.
pub proof fn law_every_coefficient_but_one_is_committed(
    s: StatementView,
    w: WitnessView,
    b: BlindsView,
    t: TranscriptView,
)
    requires
        proved(s, w, b, t).proof is Some,
    ensures
        ({
            let p = proved(s, w, b, t).proof->Some_0;
            let c = s.c();
            let first = yz(s, t, p.AI, p.AO, p.S);
            let y_inv = crate::scalar_vector::powers(crate::field::field_inv(first.y), s.n());
            let ys = crate::scalar_vector::powers(first.y, s.n());
            let z = z_powers(first.z, s.q());
            let l = l_poly(s, w, b.sL, y_inv, z);
            let r = r_poly(s, w, b.sR, ys, z);
            let all = t_poly(l, r);
            &&& l.len() == lr_len(c)
            &&& r.len() == lr_len(c)
            &&& l[s_index(c)] == b.sL
            &&& r[s_index(c)] == crate::scalar_vector::vec_mul(b.sR, ys)
            &&& all.len() == t_len(c)
            &&& t_len(c) == 2 * ni(c) + 3
            &&& after_len(c) == ni(c) + 2
            &&& p.T_before_ni.len() + 1 + p.T_after_ni.len() == all.len()
            &&& shaped(s, p)
            &&& forall|i: int|
                0 <= i < ni(c) ==> #[trigger] p.T_before_ni[i] == t_commitment(
                    s.generators,
                    all[i],
                    b.tau_before_ni[i],
                )
            &&& forall|i: int|
                0 <= i < after_len(c) ==> #[trigger] p.T_after_ni[i] == t_commitment(
                    s.generators,
                    all[ni(c) + 1 + i],
                    b.tau_after_ni[i],
                )
        }),
{
}

/// The verifier refuses no proof which the prover made from the same
/// transcript: whatever the witness and the blinding scalars, a proof which
/// proving ends with has the shape the statement asks for, leads the
/// verifier to the challenges the prover drew, none of which is zero, and
/// the verifier ends without an error and leaves the transcript as the
/// prover left it. What is then left of verifying is the one check of the
/// accumulator.
pub proof fn law_verifier_follows_prover(
    s: StatementView,
    w: WitnessView,
    b: BlindsView,
    t0: TranscriptView,
    t1: TranscriptView,
    v0: BatchView,
    v1: BatchView,
    w1: nat,
    w2: nat,
    r: Option<Result<(), AcError>>,
)
    requires
        s.generators.wf(),
        proved(s, w, b, t0).proof is Some,
        verified(s, proved(s, w, b, t0).proof->Some_0, t0, t1, v0, v1, w1, w2, r),
    ensures
        r matches Some(Ok(_)),
        t1 == proved(s, w, b, t0).transcript,
        v1 == crate::circuit::accumulated(
            s,
            v0,
            proved(s, w, b, t0).proof->Some_0,
            challenges_of(s, proved(s, w, b, t0).proof->Some_0, walk(s, proved(s, w, b, t0).proof->Some_0, t0)),
            w1,
            w2,
        ),
{
    let out = proved(s, w, b, t0);
    let p = out.proof->Some_0;
    let steps = walk(s, p, t0);
    assert(steps.clear());
    let y_inv = crate::scalar_vector::powers(crate::field::field_inv(steps.y), s.n());
    let ys = crate::scalar_vector::powers(steps.y, s.n());
    let z = crate::circuit::z_powers(steps.z, s.q());
    let l = l_poly(s, w, b.sL, y_inv, z);
    let r_ = r_poly(s, w, b.sR, ys, z);
    let xs = crate::scalar_vector::powers(steps.x, 2 * ni(s.c()) + 3);
    let l_x = evaluation(l, xs, s.n(), l.len());
    let r_x = evaluation(r_, xs, s.n(), r_.len());
    lemma_evaluation_len(l, xs, s.n(), l.len());
    assert(t_poly(l, r_).len() == 2 * ni(s.c()) + 3);
    assert(shaped(s, p));
    let first = IpRound {
        g: s.generators.g_bold,
        h: crate::point_vector::scaled_points(s.generators.h_bold, y_inv),
        a: l_x,
        b: r_x,
    };
    let begin = ip_begin(s, steps);
    lemma_rounds_agree(
        first,
        crate::group::point_mul(s.generators.g, steps.ip_x),
        Seq::empty(),
        Seq::empty(),
        begin,
        begin,
    );
}


/// Where a weight stands for what it was and what was added to nothing,
/// it still does after the same is added to both.
proof fn lemma_step_add(v: nat, g: nat, g0: nat, x: nat)
    requires
        congruent(g as int, (v + g0) as int),
    ensures
        congruent(field_add(g, x) as int, (v + field_add(g0, x)) as int),
        field_add(g, x) < order(),
{
    lemma_order_positive();
    let m = order() as int;
    let r = field_add(g0, x) as int;
    vstd::arithmetic::div_mod::lemma_add_mod_noop(g as int, x as int, m);
    vstd::arithmetic::div_mod::lemma_add_mod_noop((v + g0) as int, x as int, m);
    vstd::arithmetic::div_mod::lemma_add_mod_noop(v as int, r, m);
    vstd::arithmetic::div_mod::lemma_add_mod_noop(v as int, (g0 + x) as int, m);
    vstd::arithmetic::div_mod::lemma_mod_twice((g0 + x) as int, m);
    vstd::arithmetic::div_mod::lemma_mod_twice((g + x) as int, m);
    vstd::arithmetic::div_mod::lemma_mod_bound((g + x) as int, m);
}

/// Where a weight stands for what it was and what was added to nothing,
/// it still does after the same is taken from both.
proof fn lemma_step_sub(v: nat, g: nat, g0: nat, x: nat)
    requires
        congruent(g as int, (v + g0) as int),
    ensures
        congruent(field_sub(g, x) as int, (v + field_sub(g0, x)) as int),
        field_sub(g, x) < order(),
{
    lemma_order_positive();
    let m = order() as int;
    let r = field_sub(g0, x) as int;
    vstd::arithmetic::div_mod::lemma_sub_mod_noop(g as int, x as int, m);
    vstd::arithmetic::div_mod::lemma_sub_mod_noop((v + g0) as int, x as int, m);
    vstd::arithmetic::div_mod::lemma_add_mod_noop(v as int, r, m);
    vstd::arithmetic::div_mod::lemma_add_mod_noop(v as int, g0 - x, m);
    vstd::arithmetic::div_mod::lemma_mod_twice(g0 - x, m);
    vstd::arithmetic::div_mod::lemma_mod_twice(g - x, m);
    vstd::arithmetic::div_mod::lemma_mod_bound(g - x, m);
    vstd::arithmetic::div_mod::lemma_mod_bound(g0 - x, m);
}

/// An element of the field which stands for what a weight was and what was
/// added to nothing is their sum in the field.
proof fn lemma_finish(v: nat, g: nat, g0: nat)
    requires
        congruent(g as int, (v + g0) as int),
        g < order(),
    ensures
        g == field_add(v, g0),
{
    vstd::arithmetic::div_mod::lemma_small_mod(g, order());
}

/// The scalars which weigh `h_bold` are as many as the statement has
/// generators.
proof fn lemma_h_scalars_len(s: StatementView, ch: ChallengesView, k: nat)
    ensures
        crate::circuit::h_scalars(s, ch, k).len() == s.n(),
    decreases k,
{
    if k > 0 {
        lemma_h_scalars_len(s, ch, (k - 1) as nat);
    }
}

/// As many weights of `g_bold` are left as there were.
proof fn lemma_g_weights_len(s: StatementView, weights: Seq<nat>, ch: ChallengesView, w: nat, k: nat)
    ensures
        crate::circuit::g_weights(s, weights, ch, w, k).len() == weights.len(),
    decreases k,
{
    if k > 0 {
        lemma_g_weights_len(s, weights, ch, w, (k - 1) as nat);
    }
}

/// The weights of `g_bold` after the constraints' weights were added to
/// them stand for what they were and what is added to nothing; beyond the
/// statement's generators nothing is added.
proof fn lemma_g_weights_add(
    s: StatementView,
    weights: Seq<nat>,
    ch: ChallengesView,
    w: nat,
    k: nat,
    i: int,
)
    requires
        0 <= i < weights.len(),
    ensures
        crate::circuit::g_weights(s, weights, ch, w, k).len() == weights.len(),
        crate::circuit::g_weights(s, zeros(weights.len()), ch, w, k).len() == weights.len(),
        congruent(
            crate::circuit::g_weights(s, weights, ch, w, k)[i] as int,
            (weights[i] + crate::circuit::g_weights(s, zeros(weights.len()), ch, w, k)[i]) as int,
        ),
        i >= s.n() ==> crate::circuit::g_weights(s, weights, ch, w, k)[i] == weights[i]
            && crate::circuit::g_weights(s, zeros(weights.len()), ch, w, k)[i] == 0,
    decreases k,
{
    let none = zeros(weights.len());
    if k == 0 {
        let scalars = crate::scalar_vector::vec_scale(
            crate::scalar_vector::vec_mul(
                crate::scalar_matrix::apply(s.WR, s.n(), ch.z),
                ch.y_inv,
            ),
            ch.xs[crate::circuit::lr_index(s.c())],
        );
        if i < s.n() {
            lemma_step_add(weights[i], weights[i], 0, crate::field::field_mul(w, scalars[i]));
        }
    } else {
        lemma_g_weights_add(s, weights, ch, w, (k - 1) as nat, i);
        let before = crate::circuit::g_weights(s, weights, ch, w, (k - 1) as nat);
        let before_none = crate::circuit::g_weights(s, none, ch, w, (k - 1) as nat);
        let scalars = crate::scalar_vector::vec_scale(
            crate::scalar_vector::vec_mul(
                crate::scalar_matrix::apply(s.WCR[k - 1], s.n(), ch.z),
                ch.y_inv,
            ),
            ch.xs[crate::circuit::weight_index(s.c(), k - 1)],
        );
        if i < s.n() {
            lemma_step_add(
                weights[i],
                before[i],
                before_none[i],
                crate::field::field_mul(w, scalars[i]),
            );
        }
    }
}

/// Verifying a proof adds to an accumulator: what verifying leaves of an
/// accumulator is what it held, and what verifying leaves of one which
/// held nothing, merged. So many proofs may be verified each into an
/// accumulator of its own, and the accumulators merged before the one
/// check.
pub proof fn law_verifying_is_merging(
    s: StatementView,
    v: BatchView,
    p: ProofView,
    ch: ChallengesView,
    w1: nat,
    w2: nat,
)
    requires
        v.canonical(),
        v.fits(s.n()),
    ensures
        crate::circuit::accumulated(s, v, p, ch, w1, w2) == v.merged(
            crate::circuit::accumulated(s, v.emptied(), p, ch, w1, w2),
        ),
{
    let full = crate::circuit::accumulated(s, v, p, ch, w1, w2);
    let part = crate::circuit::accumulated(s, v.emptied(), p, ch, w1, w2);
    let sum = v.merged(part);
    let first = crate::circuit::first_check(s, v, p, ch, w1);
    let first_none = crate::circuit::first_check(s, v.emptied(), p, ch, w1);
    let second = crate::circuit::second_check(s, first, p, ch, w2);
    let second_none = crate::circuit::second_check(s, first_none, p, ch, w2);
    let invs = crate::inner_product::inverses(ch.es);

    // g: the first check adds and takes away, the second adds, the argument takes away
    let a = crate::field::field_mul(p.t_caret, w1);
    let b = crate::field::field_mul(
        crate::field::field_mul(w1, ch.xs[crate::circuit::o_index(s.c())]),
        field_add(s.delta(ch.y_inv, ch.z), crate::scalar_vector::inner(ch.z, s.c)),
    );
    let c = crate::field::field_mul(crate::field::field_mul(w2, ch.ip_x), p.t_caret);
    let d = crate::field::field_mul(
        crate::field::field_mul(w2, crate::field::field_mul(p.ip.a, p.ip.b)),
        ch.ip_x,
    );
    lemma_step_add(v.g, v.g, 0, a);
    lemma_step_sub(v.g, field_add(v.g, a), field_add(0, a), b);
    lemma_step_add(v.g, first.g, first_none.g, c);
    lemma_step_sub(v.g, second.g, second_none.g, d);
    lemma_finish(v.g, full.g, part.g);

    // h: the first check adds, the second takes away
    let e = crate::field::field_mul(p.tau_x, w1);
    let f = crate::field::field_mul(w2, p.u);
    lemma_step_add(v.h, v.h, 0, e);
    lemma_step_sub(v.h, first.h, first_none.h, f);
    lemma_finish(v.h, full.h, part.h);

    // g_bold: the second check adds, the argument takes away
    lemma_g_weights_len(s, v.g_bold, ch, w2, s.c());
    lemma_g_weights_len(s, zeros(v.g_bold.len()), ch, w2, s.c());
    assert forall|i: int| 0 <= i < v.g_bold.len() implies full.g_bold[i] == sum.g_bold[i] by {
        lemma_g_weights_add(s, v.g_bold, ch, w2, s.c(), i);
        if i < s.n() {
            let t = crate::field::field_mul(
                crate::field::field_mul(w2, p.ip.a),
                crate::inner_product::products(ch.es, invs)[i],
            );
            lemma_step_sub(v.g_bold[i], second.g_bold[i], second_none.g_bold[i], t);
            lemma_finish(v.g_bold[i], full.g_bold[i], part.g_bold[i]);
        } else {
            vstd::arithmetic::div_mod::lemma_small_mod(v.g_bold[i], order());
        }
    }
    assert(full.g_bold =~= sum.g_bold);

    // h_bold: likewise
    lemma_h_scalars_len(s, ch, s.c());
    let scalars = crate::scalar_vector::vec_mul(
        crate::circuit::h_scalars(s, ch, s.c()),
        ch.y_inv,
    );
    assert forall|i: int| 0 <= i < v.h_bold.len() implies full.h_bold[i] == sum.h_bold[i] by {
        if i < s.n() {
            let x = crate::field::field_mul(w2, scalars[i]);
            let t = crate::field::field_mul(
                crate::field::field_mul(
                    crate::field::field_mul(w2, p.ip.b),
                    crate::inner_product::products(invs, ch.es)[i],
                ),
                ch.y_inv[i],
            );
            lemma_step_add(v.h_bold[i], v.h_bold[i], 0, x);
            lemma_step_sub(v.h_bold[i], second.h_bold[i], second_none.h_bold[i], t);
            lemma_finish(v.h_bold[i], full.h_bold[i], part.h_bold[i]);
        } else {
            vstd::arithmetic::div_mod::lemma_small_mod(v.h_bold[i], order());
        }
    }
    assert(full.h_bold =~= sum.h_bold);

    // h_sum: the second check takes the weight away at one position
    let at = log2(s.n()) as int;
    assert forall|i: int| 0 <= i < v.h_sum.len() implies full.h_sum[i] == sum.h_sum[i] by {
        if i == at {
            lemma_step_sub(v.h_sum[i], v.h_sum[i], 0, w2);
            lemma_finish(v.h_sum[i], full.h_sum[i], part.h_sum[i]);
        } else {
            vstd::arithmetic::div_mod::lemma_small_mod(v.h_sum[i], order());
        }
    }
    assert(full.h_sum =~= sum.h_sum);

    // The points which the proof brought stand behind those which were there
    assert(full.additional =~= sum.additional);
}


/// Every coefficient of the prover's two polynomials has as many places as
/// the statement has generators.
proof fn lemma_polynomials_uniform(
    s: StatementView,
    w: WitnessView,
    b: BlindsView,
    y_inv: Seq<nat>,
    ys: Seq<nat>,
    z: Seq<nat>,
)
    requires
        sized(w, s.n()),
        w.c.len() == s.c(),
        b.shaped(s.n(), s.c()),
    ensures
        crate::polynomial::uniform(l_poly(s, w, b.sL, y_inv, z), s.n()),
        crate::polynomial::uniform(r_poly(s, w, b.sR, ys, z), s.n()),
{
    let l = l_poly(s, w, b.sL, y_inv, z);
    let r = r_poly(s, w, b.sR, ys, z);
    assert forall|k: int| 0 <= k < l.len() implies (#[trigger] l[k]).len() == s.n() by {
        if 1 <= k <= s.c() {
            assert(w.c[k - 1].g_values.len() == s.n());
        }
    }
    assert forall|k: int| 0 <= k < r.len() implies (#[trigger] r[k]).len() == s.n() by {
        if 1 <= k <= s.c() {
            assert(w.c[k - 1].h_values.len() == s.n());
        }
    }
}

/// The scalar `t_caret` of a proof is the value at `x` of the polynomial
/// `t(X) = l(X) . r(X)`: the sum of its coefficients, those the proof
/// commits to and the one it does not, each multiplied by its power of `x`.
/// So the first of the verifier's two checks weighs what the prover
/// committed to.
pub proof fn law_t_caret_is_the_value_of_t(
    s: StatementView,
    w: WitnessView,
    b: BlindsView,
    t: TranscriptView,
)
    requires
        sized(w, s.n()),
        w.c.len() == s.c(),
        b.shaped(s.n(), s.c()),
        proved(s, w, b, t).proof is Some,
    ensures
        ({
            let proof = proved(s, w, b, t).proof->Some_0;
            let steps = walk(s, proof, t);
            let y_inv = crate::scalar_vector::powers(crate::field::field_inv(steps.y), s.n());
            let ys = crate::scalar_vector::powers(steps.y, s.n());
            let z = crate::circuit::z_powers(steps.z, s.q());
            let xs = crate::scalar_vector::powers(steps.x, 2 * ni(s.c()) + 3);
            proof.t_caret == crate::circuit::weighted_sum(
                t_poly(l_poly(s, w, b.sL, y_inv, z), r_poly(s, w, b.sR, ys, z)),
                xs,
                2 * ni(s.c()) + 3,
            )
        }),
{
    let proof = proved(s, w, b, t).proof->Some_0;
    let steps = walk(s, proof, t);
    let y_inv = crate::scalar_vector::powers(crate::field::field_inv(steps.y), s.n());
    let ys = crate::scalar_vector::powers(steps.y, s.n());
    let z = crate::circuit::z_powers(steps.z, s.q());
    lemma_polynomials_uniform(s, w, b, y_inv, ys, z);
    law_value_of_the_product(
        l_poly(s, w, b.sL, y_inv, z),
        r_poly(s, w, b.sR, ys, z),
        steps.x,
        s.n(),
        ni(s.c()) + 2,
    );
}

/// The sum over the powers which make `n'`, taken in its parts: the
/// lowest, those of the vector commitments' values, that of the circuit's
/// inputs, those of the vector commitments' weights, that of the circuit's
/// outputs, and the highest.
proof fn lemma_diagonal_parts(
    d: spec_fn(int) -> int,
    low: spec_fn(int) -> int,
    high: spec_fn(int) -> int,
    c: nat,
)
    requires
        forall|j: int| 0 <= j < c ==> #[trigger] low(j) == d(1 + j),
        forall|j: int| 0 <= j < c ==> #[trigger] high(j) == d(c + 2 + j),
    ensures
        sum(d, 2 * c + 4) == d(0) + sum(low, c) + d(c as int + 1) + sum(high, c) + d(
            2 * c as int + 2,
        ) + d(2 * c as int + 3),
{
    lemma_sum_parts(d, low, 1, c);
    lemma_sum_parts(d, high, c + 2, c);
    assert(sum(d, 1) == d(0)) by {
        assert(sum(d, 0) == 0);
    }
    assert(sum(d, (c + 2) as nat) == sum(d, (c + 1) as nat) + d(c as int + 1));
    assert(sum(d, (2 * c + 3) as nat) == sum(d, (2 * c + 2) as nat) + d(2 * c as int + 2));
    assert(sum(d, (2 * c + 4) as nat) == sum(d, (2 * c + 3) as nat) + d(2 * c as int + 3));
    assert(c + 2 + c == 2 * c + 2);
}

/// For each row, its scalar multiplied by the constant of the row.
pub open spec fn weighted_constants(z: Seq<nat>, constants: Seq<nat>) -> spec_fn(int) -> int {
    |q: int| (z[q] * constants[q]) as int
}

/// The rows' scalars, each multiplied by the left side of its row, add up
/// to what they do with the right side: what the weights make of the
/// circuit's terms and of the vector commitments' values stands for what
/// they make of the scalar commitments' values, and the constants.
proof fn lemma_rows_hold(s: StatementView, w: WitnessView, z: Seq<nat>)
    requires
        s.provable(),
        w.c.len() == s.c(),
        forall|i: int| 0 <= i < s.q() ==> row_left(s, w, i) == row_right(s, w, i),
    ensures
        congruent(
            sum(row_values(s.WL, w.aL, z), s.q()) + sum(row_values(s.WR, w.aR, z), s.q()) + sum(
                row_values(s.WO, w.aO, z),
                s.q(),
            ) + sum(weighted_commitments(s.WCL, g_values(w), z), s.q()) + sum(
                weighted_commitments(s.WCR, h_values(w), z),
                s.q(),
            ),
            sum(row_values(s.WV, w.values(), z), s.q()) + sum(weighted_constants(z, s.c), s.q()),
        ),
{
    let q = s.q();
    let f1 = row_values(s.WL, w.aL, z);
    let f2 = row_values(s.WR, w.aR, z);
    let f3 = row_values(s.WO, w.aO, z);
    let f4 = weighted_commitments(s.WCL, g_values(w), z);
    let f5 = weighted_commitments(s.WCR, h_values(w), z);
    let p2 = |k: int| f1(k) + f2(k);
    let p3 = |k: int| p2(k) + f3(k);
    let p4 = |k: int| p3(k) + f4(k);
    let left = |k: int| p4(k) + f5(k);
    lemma_sum_add(f1, f2, q);
    lemma_sum_add(p2, f3, q);
    lemma_sum_add(p3, f4, q);
    lemma_sum_add(p4, f5, q);
    let g1 = row_values(s.WV, w.values(), z);
    let g2 = weighted_constants(z, s.c);
    let right = |k: int| g1(k) + g2(k);
    lemma_sum_add(g1, g2, q);
    assert forall|k: int| 0 <= k < q implies congruent(#[trigger] left(k), right(k)) by {
        let a1 = row_dot(s.WL[k], w.aL, s.WL[k].len());
        let a2 = row_dot(s.WR[k], w.aR, s.WR[k].len());
        let a3 = row_dot(s.WO[k], w.aO, s.WO[k].len());
        let a4 = commitment_rows(s.WCL, k, g_values(w), s.WCL.len());
        let a5 = commitment_rows(s.WCR, k, h_values(w), s.WCR.len());
        let s4 = sum(commitment_terms(s.WCL, k, g_values(w)), s.WCL.len());
        let s5 = sum(commitment_terms(s.WCR, k, h_values(w)), s.WCR.len());
        lemma_commitment_rows(s.WCL, k, g_values(w), s.WCL.len());
        lemma_commitment_rows(s.WCR, k, h_values(w), s.WCR.len());
        let b1 = crate::field::field_add(a1, a2);
        let b2 = crate::field::field_add(b1, a3);
        let b3 = crate::field::field_add(b2, a4);
        lemma_field_add(a1, a2);
        lemma_field_add(b1, a3);
        lemma_field_add(b2, a4);
        lemma_field_add(b3, a5);
        lemma_congruent_sum(b1 as int, (a1 + a2) as int, a3 as int, a3 as int);
        lemma_congruent_sum(b2 as int, (a1 + a2 + a3) as int, a4 as int, s4);
        lemma_congruent_sum(b3 as int, a1 + a2 + a3 + s4, a5 as int, s5);
        assert(congruent(row_left(s, w, k) as int, a1 + a2 + a3 + s4 + s5));
        lemma_congruent_product(z[k] as int, z[k] as int, row_left(s, w, k) as int, a1 + a2 + a3 + s4 + s5);
        assert(z[k] * (a1 + a2 + a3 + s4 + s5) == left(k)) by {
            assert(z[k] * (a1 + a2 + a3 + s4 + s5) == z[k] * a1 + z[k] * a2 + z[k] * a3 + z[k] * s4
                + z[k] * s5) by (nonlinear_arith);
        }
        let v = row_dot(s.WV[k], w.values(), s.WV[k].len());
        lemma_field_add(v, s.c[k]);
        lemma_congruent_product(z[k] as int, z[k] as int, row_right(s, w, k) as int, (v + s.c[k]) as int);
        assert(z[k] * (v + s.c[k]) == right(k)) by {
            assert(z[k] * (v + s.c[k]) == z[k] * v + z[k] * s.c[k]) by (nonlinear_arith);
        }
    }
    lemma_sum_congruent(left, right, q);
}

/// The one coefficient of `t(X)` which a proof does not commit to is what
/// the verifier makes of the statement and of the scalar commitments: for
/// a witness whose outputs are the products of its inputs and which
/// satisfies every row of the constraints, and a challenge `y` which has
/// an inverse, the coefficient at `n'` is `delta + z . c + WV(z) . v`,
/// whatever the blinding vectors are.
pub proof fn law_the_open_coefficient_is_the_verifiers(
    s: StatementView,
    w: WitnessView,
    s_l: Seq<nat>,
    s_r: Seq<nat>,
    y: nat,
    z: Seq<nat>,
)
    requires
        s.provable(),
        sized(w, s.n()),
        w.c.len() == s.c(),
        w.v.len() == s.m(),
        w.aO == vec_mul(w.aL, w.aR),
        forall|i: int| 0 <= i < s.q() ==> row_left(s, w, i) == row_right(s, w, i),
        s_l.len() == s.n(),
        s_r.len() == s.n(),
        field_mul(y, field_inv(y)) == 1,
        z.len() == s.q(),
    ensures
        ({
            let y_inv = powers(field_inv(y), s.n());
            let ys = powers(y, s.n());
            let l = l_poly(s, w, s_l, y_inv, z);
            let r = r_poly(s, w, s_r, ys, z);
            t_poly(l, r)[ni(s.c()) as int] == crate::field::field_add(
                crate::field::field_add(s.delta(y_inv, z), inner(z, s.c)),
                inner(apply(s.WV, s.m(), z), w.values()),
            )
        }),
{
    lemma_order_positive();
    let n = s.n();
    let c = s.c();
    let q = s.q();
    let m = s.m();
    let np = ni(c) as int;
    let y_inv = powers(field_inv(y), n);
    let ys = powers(y, n);
    let l = l_poly(s, w, s_l, y_inv, z);
    let r = r_poly(s, w, s_r, ys, z);
    let b = BlindsView {
        alpha: 0,
        beta: 0,
        rho: 0,
        sL: s_l,
        sR: s_r,
        tau_before_ni: zeros(ni(c)),
        tau_after_ni: zeros(ni(c) + 2),
    };
    lemma_polynomials_uniform(s, w, b, y_inv, ys, z);
    lemma_convolution(l, r, np, l.len(), n);
    let d = diagonal(l, r, np, n);
    lemma_columns_below(s.WL, n);
    lemma_columns_below(s.WR, n);
    lemma_columns_below(s.WO, n);
    let wl = apply(s.WL, n, z);
    let wr = apply(s.WR, n, z);
    let wo = apply(s.WO, n, z);
    assert forall|k: int| 0 <= k < n implies field_mul(#[trigger] y_inv[k], ys[k]) == 1 by {
        lemma_powers_inverse(y, field_inv(y), k as nat);
    }
    let gv = g_values(w);
    let hv = h_values(w);
    let gl = applied_terms(s.WCL, gv, z, n);
    let gr = applied_terms(s.WCR, hv, z, n);
    let low = |j: int| d(1 + j);
    let high = |j: int| d(c + 2 + j);
    let back = |j: int| gr(c - 1 - j);
    lemma_diagonal_parts(d, low, high, c);
    // The lowest and the highest
    assert(d(0) == 0) by {
        assert(l[0] == zeros(n));
        lemma_dot_zeros(r[np], n);
    }
    assert(d(np + 1) == 0);
    // The vector commitments' values
    assert forall|j: int| 0 <= j < c implies #[trigger] low(j) == gl(j) by {
        assert(l[1 + j] == w.c[j].g_values);
        assert(r[np - (1 + j)] == apply(s.WCL[j], n, z));
    }
    lemma_sum_equal(low, gl, c);
    // The vector commitments' weights
    assert forall|j: int| 0 <= j < c implies congruent(#[trigger] high(j), back(j)) by {
        let at = c - 1 - j;
        assert(l[c + 2 + j] == vec_mul(apply(s.WCR[at], n, z), y_inv));
        assert(r[np - (c + 2 + j)] == vec_mul(w.c[at].h_values, ys));
        lemma_dot_cancels(apply(s.WCR[at], n, z), y_inv, w.c[at].h_values, ys, n);
        lemma_dot_commutes(apply(s.WCR[at], n, z), w.c[at].h_values, n);
    }
    lemma_sum_congruent(high, back, c);
    lemma_sum_reversed(gr, back, c);
    lemma_commitment_side(s.WCL, gv, z, n, q);
    lemma_commitment_side(s.WCR, hv, z, n, q);
    // The circuit's own terms
    let half = c as int + 1;
    assert(d(half) == dot(l[half], r[half], n));
    assert(d(np) == dot(l[np], r[0], n));
    lemma_center(wl, wr, wo, w.aL, w.aR, w.aO, y_inv, ys, n);
    lemma_dot_of_applied(s.WL, n, z, w.aL);
    lemma_dot_of_applied(s.WR, n, z, w.aR);
    lemma_dot_of_applied(s.WO, n, z, w.aO);
    lemma_rows_hold(s, w, z);
    // What the verifier makes of the scalar commitments, and the constants
    lemma_dot_of_applied(s.WV, m, z, w.values());
    lemma_inner(apply(s.WV, m, z), w.values());
    lemma_inner(z, s.c);
    lemma_sum_equal(weighted_constants(z, s.c), dots(z, s.c), q);
    let delta = s.delta(y_inv, z);
    let s1 = sum(row_values(s.WL, w.aL, z), q);
    let s2 = sum(row_values(s.WR, w.aR, z), q);
    let s3 = sum(row_values(s.WO, w.aO, z), q);
    let s4 = sum(weighted_commitments(s.WCL, gv, z), q);
    let s5 = sum(weighted_commitments(s.WCR, hv, z), q);
    let center = d(half) + d(np);
    lemma_congruent_sum(dot(wr, w.aR, n), s2, dot(w.aL, wl, n), s1);
    lemma_congruent_sum(dot(wr, w.aR, n) + dot(w.aL, wl, n), s2 + s1, dot(w.aO, wo, n), s3);
    lemma_congruent_sum(
        delta as int,
        delta as int,
        dot(wr, w.aR, n) + dot(w.aL, wl, n) + dot(w.aO, wo, n),
        s2 + s1 + s3,
    );
    assert(congruent(center, delta + (s2 + s1 + s3)));
    lemma_congruent_sum(sum(low, c), s4, sum(high, c), s5);
    lemma_congruent_sum(center, delta + (s2 + s1 + s3), sum(low, c) + sum(high, c), s4 + s5);
    assert(sum(d, (2 * c + 4) as nat) == center + (sum(low, c) + sum(high, c)));
    let rows = sum(row_values(s.WV, w.values(), z), q) + sum(weighted_constants(z, s.c), q);
    lemma_congruent_sum(delta as int, delta as int, s1 + s2 + s3 + s4 + s5, rows);
    assert(delta + (s2 + s1 + s3) + (s4 + s5) == delta + (s1 + s2 + s3 + s4 + s5));
    // Both sides are scalars of the field
    let constant = inner(z, s.c);
    let values = inner(apply(s.WV, m, z), w.values());
    lemma_field_add(delta, constant);
    lemma_field_add(crate::field::field_add(delta, constant), values);
    lemma_congruent_sum(
        crate::field::field_add(delta, constant) as int,
        (delta + constant) as int,
        values as int,
        values as int,
    );
    lemma_congruent_sum(delta as int, delta as int, constant as int, sum(dots(z, s.c), q));
    lemma_congruent_sum(
        (delta + constant) as int,
        delta + sum(dots(z, s.c), q),
        values as int,
        sum(row_values(s.WV, w.values(), z), q),
    );
    lemma_congruent_same(
        t_poly(l, r)[np],
        crate::field::field_add(crate::field::field_add(delta, constant), values),
    );
}

/// The first of the verifier's two checks weighs what the prover committed
/// to. For a proof which the prover made of a witness whose outputs are
/// the products of its inputs and which satisfies every row of the
/// constraints, under a challenge `y` which has an inverse:
///
/// `t_caret` is the sum, each under its power of `x`, of the coefficients
/// of `t(X)` which the proof commits to and, at `n'`, of
/// `delta + z . c + WV(z) . v`; and `tau_x` is the same sum of the masks of
/// those commitments and, at `n'`, of what `WV(z)` makes of the masks of
/// the scalar commitments.
pub proof fn law_first_check_weighs_what_was_committed(
    s: StatementView,
    w: WitnessView,
    b: BlindsView,
    t: TranscriptView,
)
    requires
        s.provable(),
        sized(w, s.n()),
        w.c.len() == s.c(),
        w.v.len() == s.m(),
        w.aO == vec_mul(w.aL, w.aR),
        forall|i: int| 0 <= i < s.q() ==> row_left(s, w, i) == row_right(s, w, i),
        b.shaped(s.n(), s.c()),
        proved(s, w, b, t).proof is Some,
        ({
            let proof = proved(s, w, b, t).proof->Some_0;
            let y = walk(s, proof, t).y;
            field_mul(y, field_inv(y)) == 1
        }),
    ensures
        ({
            let proof = proved(s, w, b, t).proof->Some_0;
            let steps = walk(s, proof, t);
            let y_inv = powers(field_inv(steps.y), s.n());
            let ys = powers(steps.y, s.n());
            let z = z_powers(steps.z, s.q());
            let xs = powers(steps.x, 2 * ni(s.c()) + 3);
            let all = t_poly(l_poly(s, w, b.sL, y_inv, z), r_poly(s, w, b.sR, ys, z));
            let open = crate::field::field_add(
                crate::field::field_add(s.delta(y_inv, z), inner(z, s.c)),
                inner(apply(s.WV, s.m(), z), w.values()),
            );
            let masked = inner(apply(s.WV, s.m(), z), w.masks());
            &&& proof.t_caret == crate::circuit::weighted_sum(
                all.take(ni(s.c()) as int) + seq![open] + all.skip(ni(s.c()) as int + 1),
                xs,
                2 * ni(s.c()) + 3,
            )
            &&& proof.tau_x == crate::circuit::weighted_sum(
                b.tau_before_ni + seq![masked] + b.tau_after_ni,
                xs,
                2 * ni(s.c()) + 3,
            )
        }),
{
    let proof = proved(s, w, b, t).proof->Some_0;
    let steps = walk(s, proof, t);
    let y_inv = powers(field_inv(steps.y), s.n());
    let ys = powers(steps.y, s.n());
    let z = z_powers(steps.z, s.q());
    let all = t_poly(l_poly(s, w, b.sL, y_inv, z), r_poly(s, w, b.sR, ys, z));
    let at = ni(s.c()) as int;
    law_t_caret_is_the_value_of_t(s, w, b, t);
    law_the_open_coefficient_is_the_verifiers(s, w, b.sL, b.sR, steps.y, z);
    assert(all =~= all.take(at) + seq![all[at]] + all.skip(at + 1));
}

} // verus!
