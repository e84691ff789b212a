//! The arithmetic-circuit relation and the protocol which proves it, as
//! mathematics over plain values.
//!
//! A statement says that there are vectors `aL`, `aR` and `aO = aL * aR`,
//! and openings of the public commitments, such that every row `i` of the
//! constraints holds:
//! `WL_i . aL + WR_i . aR + WO_i . aO + sum_j (WCL_j,i . C_j.g + WCR_j,i . C_j.h)
//!  = WV_i . v + c_i`.
use crate::arithmetic_circuit_proof::AcError;
use crate::commitment::{commitment, vector_commitment, CommitmentView, VectorCommitmentView};
use crate::field::{
    field_add, field_inv, field_mul, field_neg, field_sub, hashed_scalar, le_bytes,
};
use crate::generators::{added, log2, weighted, BatchView, GeneratorsView};
use crate::group::msm;
use crate::inner_product::{
    ip_accumulated, ip_run, ip_start, round_challenges, rounds_clear, rounds_transcript, IpError,
    IpProofView, IpRound,
};
use crate::point_vector::{scaled_points, wrote_points, zip};
use crate::scalar_matrix::{apply, columns_below, highest, row_dot, RowView};
use crate::scalar_vector::{
    field_pow, inner, padded, powers, vec_add, vec_mul, vec_scale, vec_sub, zeros,
};
use crate::transcript::TranscriptView;
use vstd::prelude::*;

verus! {

/// The tag under which challenges are hashed to scalars.
pub open spec fn tag() -> Seq<char> {
    "arithmetic_circuit_proof"@
}

/// The scalar drawn from a transcript under a label.
pub open spec fn challenge_scalar(t: TranscriptView, label: Seq<char>) -> nat {
    hashed_scalar(tag(), t.challenge(label))
}

/// A statement as plain values.
#[allow(non_snake_case)]
pub struct StatementView {
    pub generators: GeneratorsView,
    pub WL: Seq<RowView>,
    pub WR: Seq<RowView>,
    pub WO: Seq<RowView>,
    pub WV: Seq<RowView>,
    pub WCL: Seq<Seq<RowView>>,
    pub WCR: Seq<Seq<RowView>>,
    pub c: Seq<nat>,
    pub C: Seq<Seq<u8>>,
    pub V: Seq<Seq<u8>>,
}

/// A witness as plain values.
#[allow(non_snake_case)]
pub struct WitnessView {
    pub aL: Seq<nat>,
    pub aR: Seq<nat>,
    pub aO: Seq<nat>,
    pub c: Seq<VectorCommitmentView>,
    pub v: Seq<CommitmentView>,
}

/// A proof as plain values.
#[allow(non_snake_case)]
pub struct ProofView {
    pub AI: Seq<u8>,
    pub AO: Seq<u8>,
    pub S: Seq<u8>,
    pub T_before_ni: Seq<Seq<u8>>,
    pub T_after_ni: Seq<Seq<u8>>,
    pub tau_x: nat,
    pub u: nat,
    pub t_caret: nat,
    pub ip: IpProofView,
}

/// The prover's blinding scalars as plain values.
#[allow(non_snake_case)]
pub struct BlindsView {
    pub alpha: nat,
    pub beta: nat,
    pub rho: nat,
    pub sL: Seq<nat>,
    pub sR: Seq<nat>,
    pub tau_before_ni: Seq<nat>,
    pub tau_after_ni: Seq<nat>,
}

/// The index `n'` of the one coefficient which is not committed to, for a
/// statement with `c` vector commitments.
pub open spec fn ni(c: nat) -> nat {
    2 * (c + 1)
}

/// The position of the circuit's inputs in `l(X)` and in `r(X)`: half of
/// `n'`, which lies above the positions of the vector commitments' values
/// and below those of their weights.
pub open spec fn lr_index(c: nat) -> int {
    ni(c) as int / 2
}

/// The position of the circuit's outputs in `l(X)`: `n'`.
pub open spec fn o_index(c: nat) -> int {
    ni(c) as int
}

/// The position of the blinding vectors in `l(X)` and in `r(X)`: the
/// highest, `n' + 1`.
pub open spec fn s_index(c: nat) -> int {
    ni(c) as int + 1
}

/// The number of coefficients of `l(X)` and of `r(X)`: one for each
/// position from zero to that of the blinding vectors, `n' + 2` in all.
pub open spec fn lr_len(c: nat) -> nat {
    (s_index(c) + 1) as nat
}

/// The number of coefficients of `t(X)`, the product of two polynomials of
/// `lr_len` coefficients each: `2 n' + 3`.
pub open spec fn t_len(c: nat) -> nat {
    (2 * lr_len(c) - 1) as nat
}

/// The number of coefficients of `t(X)` above the one at `n'`, to each of
/// which a proof commits: `n' + 2`. The two highest are there for the
/// blinding vectors, which stand one position above the circuit's outputs.
pub open spec fn after_len(c: nat) -> nat {
    (t_len(c) - ni(c) - 1) as nat
}

/// The position in `l(X)` and in `r(X)` of the values of vector commitment
/// `i`: they are counted up from one.
pub open spec fn value_index(i: int) -> int {
    i + 1
}

/// The position in `l(X)` and in `r(X)` of the weights of vector commitment
/// `i`: they are counted down from `n' - 1`.
pub open spec fn weight_index(c: nat, i: int) -> int {
    ni(c) as int - value_index(i)
}

/// Whether the highest column of each of the matrices is at most `bound`.
pub open spec fn all_highest_within(ws: Seq<Seq<RowView>>, bound: nat) -> bool {
    forall|i: int| 0 <= i < ws.len() ==> highest(#[trigger] ws[i], ws[i].len()) <= bound
}

/// Whether each of the matrices has `q` rows.
pub open spec fn all_have_rows(ws: Seq<Seq<RowView>>, q: nat) -> bool {
    forall|i: int| 0 <= i < ws.len() ==> (#[trigger] ws[i]).len() == q
}

/// Whether each of the matrices weighs columns below `n` only.
pub open spec fn all_columns_below(ws: Seq<Seq<RowView>>, n: nat) -> bool {
    forall|i: int| 0 <= i < ws.len() ==> columns_below(#[trigger] ws[i], n)
}

/// Each of the matrices with every weight replaced by zero.
pub open spec fn all_wiped(ws: Seq<Seq<RowView>>) -> Seq<Seq<RowView>> {
    Seq::new(ws.len(), |i: int| crate::scalar_matrix::wiped(ws[i]))
}

impl StatementView {
    /// The statement with every weight and constant replaced by zero, and
    /// every commitment by the neutral element.
    pub open spec fn wiped(self) -> StatementView {
        StatementView {
            generators: self.generators,
            WL: crate::scalar_matrix::wiped(self.WL),
            WR: crate::scalar_matrix::wiped(self.WR),
            WO: crate::scalar_matrix::wiped(self.WO),
            WV: crate::scalar_matrix::wiped(self.WV),
            WCL: all_wiped(self.WCL),
            WCR: all_wiped(self.WCR),
            c: zeros(self.c.len()),
            C: Seq::new(self.C.len(), |i: int| crate::group::identity_bytes()),
            V: Seq::new(self.V.len(), |i: int| crate::group::identity_bytes()),
        }
    }

    /// The number of multiplications.
    pub open spec fn n(self) -> nat {
        self.generators.len()
    }

    /// The number of constraints.
    pub open spec fn q(self) -> nat {
        self.WL.len()
    }

    /// The number of vector commitments.
    pub open spec fn c(self) -> nat {
        self.C.len()
    }

    /// The number of scalar commitments.
    pub open spec fn m(self) -> nat {
        self.V.len()
    }

    /// Whether the weights and the constants all have one row for each
    /// constraint.
    pub open spec fn rows_agree(self) -> bool {
        &&& self.WR.len() == self.q()
        &&& self.WO.len() == self.q()
        &&& self.WV.len() == self.q()
        &&& self.c.len() == self.q()
        &&& all_have_rows(self.WCL, self.q())
        &&& all_have_rows(self.WCR, self.q())
    }

    /// Whether the weights on the circuit's own terms stay below `n`.
    pub open spec fn terms_exist(self) -> bool {
        &&& highest(self.WL, self.WL.len()) < self.n()
        &&& highest(self.WR, self.WR.len()) < self.n()
        &&& highest(self.WO, self.WO.len()) < self.n()
    }

    /// Whether there is one pair of weights for each vector commitment.
    pub open spec fn commitments_agree(self) -> bool {
        self.WCL.len() == self.C.len() && self.WCR.len() == self.C.len()
    }

    /// Whether the weights on the vector commitments reach no further than
    /// `n`.
    pub open spec fn vector_terms_exist(self) -> bool {
        all_highest_within(self.WCL, self.n()) && all_highest_within(self.WCR, self.n())
    }

    /// Whether the weights on the scalar commitments reach no further than
    /// their number.
    pub open spec fn scalar_commitments_exist(self) -> bool {
        highest(self.WV, self.WV.len()) <= self.m()
    }

    /// The first rule a statement breaks, in the order they are checked.
    pub open spec fn violation(self) -> Option<AcError> {
        if !self.rows_agree() {
            Some(AcError::InconsistentAmountOfConstraints)
        } else if !self.terms_exist() {
            Some(AcError::ConstrainedNonExistentTerm)
        } else if !self.commitments_agree() {
            Some(AcError::ConstrainedNonExistentCommitment)
        } else if !self.vector_terms_exist() {
            Some(AcError::ConstrainedNonExistentTerm)
        } else if !self.scalar_commitments_exist() {
            Some(AcError::ConstrainedNonExistentCommitment)
        } else {
            None
        }
    }

    /// What holds of every statement which was accepted.
    pub open spec fn wf(self) -> bool {
        self.generators.wf() && self.violation() is None
    }

    /// Whether every weight stands in a column which exists: below `n` on
    /// the vector commitments, below their number on the scalar
    /// commitments.
    pub open spec fn indexable(self) -> bool {
        &&& all_columns_below(self.WCL, self.n())
        &&& all_columns_below(self.WCR, self.n())
        &&& columns_below(self.WV, self.m())
    }

    /// Whether the statement can be proved and verified on this machine: it
    /// was accepted, every weight stands in a column which exists, the
    /// number of constraints fits in 32 bits, and the number of coefficients
    /// of `t` fits in a `usize`.
    pub open spec fn provable(self) -> bool {
        &&& self.wf()
        &&& self.indexable()
        &&& self.q() <= u32::MAX
        &&& 2 * ni(self.c()) + 3 <= usize::MAX
    }

    /// The transcript after the statement and the three commitments of the
    /// first round were written to it.
    pub open spec fn start(self, t: TranscriptView, ai: Seq<u8>, ao: Seq<u8>, s: Seq<u8>) -> TranscriptView {
        let head = t.domain(tag()).message("generators"@, self.generators.transcript).message(
            "n"@,
            vstd::bytes::spec_u32_to_le_bytes(self.n() as u32),
        ).message("q"@, vstd::bytes::spec_u32_to_le_bytes(self.q() as u32));
        wrote_points(wrote_points(head, "vector_commitment"@, self.C), "commitment"@, self.V).message(
            "AI"@,
            ai,
        ).message("AO"@, ao).message("S"@, s)
    }

    /// The constant of the one coefficient which is not committed to:
    /// `(WR(z) * y_inv) . WL(z)`.
    pub open spec fn delta(self, y_inv: Seq<nat>, z: Seq<nat>) -> nat {
        inner(vec_mul(apply(self.WR, self.n(), z), y_inv), apply(self.WL, self.n(), z))
    }
}

impl WitnessView {
    /// The witness with every vector extended by zeros to the length `n`.
    pub open spec fn padded(self, n: nat) -> WitnessView {
        WitnessView {
            aL: padded(self.aL, n),
            aR: padded(self.aR, n),
            aO: padded(self.aO, n),
            c: Seq::new(self.c.len(), |i: int| self.c[i].padded(n)),
            v: self.v,
        }
    }

    /// Whether a vector of the witness is longer than `n`.
    pub open spec fn oversized(self, n: nat) -> bool {
        self.aL.len() > n || exists|i: int|
            0 <= i < self.c.len() && ((#[trigger] self.c[i]).g_values.len() > n
                || self.c[i].h_values.len() > n)
    }

    /// The values of the scalar commitments.
    pub open spec fn values(self) -> Seq<nat> {
        Seq::new(self.v.len(), |i: int| self.v[i].value)
    }

    /// The masks of the scalar commitments.
    pub open spec fn masks(self) -> Seq<nat> {
        Seq::new(self.v.len(), |i: int| self.v[i].mask)
    }
}

/// Over the first `k` vector commitments, row `i` of each one's weights
/// applied to its values: summed from the left.
pub open spec fn commitment_rows(
    ws: Seq<Seq<RowView>>,
    i: int,
    vals: Seq<Seq<nat>>,
    k: nat,
) -> nat
    decreases k,
{
    if k == 0 {
        0
    } else {
        field_add(
            commitment_rows(ws, i, vals, (k - 1) as nat),
            row_dot(ws[k - 1][i], vals[k - 1], ws[k - 1][i].len()),
        )
    }
}

/// The values each vector commitment holds on one side: on `g_bold`, or
/// else on `h_bold`.
pub open spec fn side_values(c: Seq<VectorCommitmentView>, on_g: bool) -> Seq<Seq<nat>> {
    Seq::new(
        c.len(),
        |i: int|
            if on_g {
                c[i].g_values
            } else {
                c[i].h_values
            },
    )
}

/// The values each vector commitment holds on `g_bold`.
pub open spec fn g_values(w: WitnessView) -> Seq<Seq<nat>> {
    side_values(w.c, true)
}

/// The values each vector commitment holds on `h_bold`.
pub open spec fn h_values(w: WitnessView) -> Seq<Seq<nat>> {
    side_values(w.c, false)
}

/// The left side of row `i` of the constraints.
pub open spec fn row_left(s: StatementView, w: WitnessView, i: int) -> nat {
    field_add(
        field_add(
            field_add(
                field_add(
                    row_dot(s.WL[i], w.aL, s.WL[i].len()),
                    row_dot(s.WR[i], w.aR, s.WR[i].len()),
                ),
                row_dot(s.WO[i], w.aO, s.WO[i].len()),
            ),
            commitment_rows(s.WCL, i, g_values(w), s.WCL.len()),
        ),
        commitment_rows(s.WCR, i, h_values(w), s.WCR.len()),
    )
}

/// The right side of row `i` of the constraints.
pub open spec fn row_right(s: StatementView, w: WitnessView, i: int) -> nat {
    field_add(row_dot(s.WV[i], w.values(), s.WV[i].len()), s.c[i])
}

/// Whether the witness opens scalar commitment `i`.
pub open spec fn opens_scalar(s: StatementView, w: WitnessView, i: int) -> bool {
    s.V[i] == commitment(w.v[i].value, w.v[i].mask, s.generators.g, s.generators.h)
}

/// Whether the witness opens vector commitment `i`.
pub open spec fn opens_vector(s: StatementView, w: WitnessView, i: int) -> bool {
    s.C[i] == vector_commitment(
        w.c[i].g_values,
        w.c[i].h_values,
        w.c[i].mask,
        s.generators.g_bold,
        s.generators.h_bold,
        s.generators.h,
    )
}

/// Whether a witness, extended to the statement's size, opens every
/// commitment of the statement and satisfies every row of its constraints.
pub open spec fn consistent(s: StatementView, w: WitnessView) -> bool {
    &&& w.c.len() == s.c()
    &&& w.v.len() == s.m()
    &&& forall|i: int| 0 <= i < s.m() ==> opens_scalar(s, w, i)
    &&& forall|i: int| 0 <= i < s.c() ==> opens_vector(s, w, i)
    &&& forall|i: int| 0 <= i < s.q() ==> row_left(s, w, i) == row_right(s, w, i)
}

/// The commitment to two vectors on the generators, under a mask on `h`.
pub open spec fn commit_pair(g: GeneratorsView, l: Seq<nat>, r: Seq<nat>, mask: nat) -> Seq<u8> {
    msm(zip(l, g.g_bold) + zip(r, g.h_bold) + seq![(mask, g.h)])
}

/// The commitment to one vector on `g_bold`, under a mask on `h`.
pub open spec fn commit_single(g: GeneratorsView, o: Seq<nat>, mask: nat) -> Seq<u8> {
    msm(zip(o, g.g_bold) + seq![(mask, g.h)])
}

/// The terms of the point which the inner-product argument is about: the
/// evaluated `l` on `g_bold`, the evaluated `r` on the weighted `h_bold`,
/// and the claimed inner product on `g`.
pub open spec fn p_terms(
    g: GeneratorsView,
    l: Seq<nat>,
    r: Seq<nat>,
    y_inv: Seq<nat>,
    ip_x: nat,
    t_caret: nat,
) -> Seq<(nat, Seq<u8>)> {
    Seq::new(
        2 * l.len(),
        |i: int|
            if i % 2 == 0 {
                (l[i / 2], g.g_bold[i / 2])
            } else {
                (field_mul(y_inv[i / 2], r[i / 2]), g.h_bold[i / 2])
            },
    ) + seq![(field_mul(ip_x, t_caret), g.g)]
}

/// The powers of `z` from `z^1` to `z^q`.
pub open spec fn z_powers(z: nat, q: nat) -> Seq<nat> {
    Seq::new(q, |i: int| field_pow(z, (i + 1) as nat))
}

/// Coefficient `k` of the polynomial `l(X)`.
pub open spec fn l_coefficient(
    s: StatementView,
    w: WitnessView,
    s_l: Seq<nat>,
    y_inv: Seq<nat>,
    z: Seq<nat>,
    k: int,
) -> Seq<nat> {
    let c = s.c();
    if k == lr_index(c) {
        vec_add(vec_mul(apply(s.WR, s.n(), z), y_inv), w.aL)
    } else if k == o_index(c) {
        w.aO
    } else if k == s_index(c) {
        s_l
    } else if value_index(0) <= k < lr_index(c) {
        w.c[k - value_index(0)].g_values
    } else if lr_index(c) < k <= weight_index(c, 0) {
        vec_mul(apply(s.WCR[weight_index(c, 0) - k], s.n(), z), y_inv)
    } else {
        zeros(s.n())
    }
}

/// Coefficient `k` of the polynomial `r(X)`.
pub open spec fn r_coefficient(
    s: StatementView,
    w: WitnessView,
    s_r: Seq<nat>,
    y: Seq<nat>,
    z: Seq<nat>,
    k: int,
) -> Seq<nat> {
    let c = s.c();
    if k == lr_index(c) {
        vec_add(apply(s.WL, s.n(), z), vec_mul(w.aR, y))
    } else if k == 0 {
        vec_sub(apply(s.WO, s.n(), z), y)
    } else if k == s_index(c) {
        vec_mul(s_r, y)
    } else if value_index(0) <= k < lr_index(c) {
        vec_mul(w.c[k - value_index(0)].h_values, y)
    } else if lr_index(c) < k <= weight_index(c, 0) {
        apply(s.WCL[weight_index(c, 0) - k], s.n(), z)
    } else {
        zeros(s.n())
    }
}

/// The polynomial `l(X)`: one vector for each power of `X`.
pub open spec fn l_poly(
    s: StatementView,
    w: WitnessView,
    s_l: Seq<nat>,
    y_inv: Seq<nat>,
    z: Seq<nat>,
) -> Seq<Seq<nat>> {
    Seq::new(ni(s.c()) + 2, |k: int| l_coefficient(s, w, s_l, y_inv, z, k))
}

/// The polynomial `r(X)`: one vector for each power of `X`.
pub open spec fn r_poly(
    s: StatementView,
    w: WitnessView,
    s_r: Seq<nat>,
    y: Seq<nat>,
    z: Seq<nat>,
) -> Seq<Seq<nat>> {
    Seq::new(ni(s.c()) + 2, |k: int| r_coefficient(s, w, s_r, y, z, k))
}

/// Of the products of a coefficient of `l` among the first `m` with a
/// coefficient of `r`, those of the power `k`: summed from the left.
pub open spec fn convolution(l: Seq<Seq<nat>>, r: Seq<Seq<nat>>, k: int, m: nat) -> nat
    decreases m,
{
    if m == 0 {
        0
    } else {
        let rest = convolution(l, r, k, (m - 1) as nat);
        if 0 <= k - (m - 1) < r.len() {
            field_add(rest, inner(l[m - 1], r[k - (m - 1)]))
        } else {
            rest
        }
    }
}

/// The coefficients of `t(X) = l(X) . r(X)`.
pub open spec fn t_poly(l: Seq<Seq<nat>>, r: Seq<Seq<nat>>) -> Seq<nat> {
    Seq::new((2 * l.len() - 1) as nat, |k: int| convolution(l, r, k, l.len()))
}

/// The commitment to a coefficient of `t`.
pub open spec fn t_commitment(g: GeneratorsView, t: nat, tau: nat) -> Seq<u8> {
    msm(seq![(t, g.g), (tau, g.h)])
}

/// The commitments to a run of coefficients of `t`.
pub open spec fn t_commitments(g: GeneratorsView, t: Seq<nat>, tau: Seq<nat>) -> Seq<Seq<u8>> {
    Seq::new(t.len(), |i: int| t_commitment(g, t[i], tau[i]))
}

/// The first `m` coefficients of a polynomial, each scaled by the power of
/// `x` it belongs to: summed from the left.
pub open spec fn evaluation(poly: Seq<Seq<nat>>, xs: Seq<nat>, n: nat, m: nat) -> Seq<nat>
    decreases m,
{
    if m == 0 {
        zeros(n)
    } else {
        vec_add(evaluation(poly, xs, n, (m - 1) as nat), vec_scale(poly[m - 1], xs[m - 1]))
    }
}

/// The first `m` scalars, each multiplied by the power of `x` it belongs
/// to: summed from the left.
pub open spec fn weighted_sum(coefficients: Seq<nat>, xs: Seq<nat>, m: nat) -> nat
    decreases m,
{
    if m == 0 {
        0
    } else {
        field_add(
            weighted_sum(coefficients, xs, (m - 1) as nat),
            field_mul(coefficients[m - 1], xs[m - 1]),
        )
    }
}

/// The masks which blind `t(x)`: those of the committed coefficients, and
/// between them that of the scalar commitments under the weights `WV(z)`.
pub open spec fn tau_poly(s: StatementView, w: WitnessView, b: BlindsView, z: Seq<nat>) -> Seq<nat> {
    b.tau_before_ni + seq![inner(apply(s.WV, s.m(), z), w.masks())] + b.tau_after_ni
}

/// `base` and the masks of the first `k` vector commitments, each
/// multiplied by its power of `x`: summed from the left.
pub open spec fn masked(base: nat, xs: Seq<nat>, w: WitnessView, k: nat) -> nat
    decreases k,
{
    if k == 0 {
        base
    } else {
        field_add(
            masked(base, xs, w, (k - 1) as nat),
            field_mul(xs[value_index(k - 1)], w.c[k - 1].mask),
        )
    }
}

/// The scalar `u` of a proof: the masks of the three commitments of the
/// first round and of the vector commitments, each under its power of `x`.
pub open spec fn u_scalar(s: StatementView, w: WitnessView, b: BlindsView, xs: Seq<nat>) -> nat {
    let c = s.c();
    let base = field_add(
        field_add(field_mul(b.alpha, xs[lr_index(c)]), field_mul(b.beta, xs[o_index(c)])),
        field_mul(b.rho, xs[s_index(c)]),
    );
    masked(base, xs, w, s.c())
}

/// The transcript after the commitments to the coefficients of `t` were
/// written to it.
pub open spec fn wrote_ts(t: TranscriptView, before: Seq<Seq<u8>>, after: Seq<Seq<u8>>) -> TranscriptView {
    wrote_points(wrote_points(t, "Ti"@, before), "Tni+1+i"@, after)
}

/// The transcript after the three scalars of a proof were written to it.
pub open spec fn wrote_scalars(t: TranscriptView, tau_x: nat, u: nat, t_caret: nat) -> TranscriptView {
    t.message("tau_x"@, le_bytes(tau_x, 32)).message("u"@, le_bytes(u, 32)).message(
        "t_caret"@,
        le_bytes(t_caret, 32),
    )
}

/// How proving ended: with a proof, or without one where a challenge is
/// zero; and the transcript as it was left, which is then the transcript
/// before that challenge's part of the protocol.
pub struct ProveOutcome {
    pub proof: Option<ProofView>,
    pub transcript: TranscriptView,
}

/// The challenges `y` and `z` drawn after the first round, and the
/// transcript after each.
pub struct YzView {
    pub y: nat,
    pub z: nat,
    pub after_y: TranscriptView,
    pub after_z: TranscriptView,
}

/// The challenges drawn after a statement and the commitments of the first
/// round were written to a transcript.
pub open spec fn yz(s: StatementView, t: TranscriptView, ai: Seq<u8>, ao: Seq<u8>, cs: Seq<u8>) -> YzView {
    let t1 = s.start(t, ai, ao, cs);
    let t2 = t1.challenged("y"@);
    YzView {
        y: challenge_scalar(t1, "y"@),
        z: challenge_scalar(t2, "z"@),
        after_y: t2,
        after_z: t2.challenged("z"@),
    }
}

/// The challenge `x` drawn after the commitments to the coefficients of
/// `t` were written to a transcript.
pub open spec fn x_challenge(t: TranscriptView, before: Seq<Seq<u8>>, after: Seq<Seq<u8>>) -> nat {
    challenge_scalar(wrote_ts(t, before, after), "x"@)
}

/// The transcript after the challenge `x` was drawn.
pub open spec fn after_x(t: TranscriptView, before: Seq<Seq<u8>>, after: Seq<Seq<u8>>) -> TranscriptView {
    wrote_ts(t, before, after).challenged("x"@)
}

/// The challenge which the inner-product argument is scaled by, drawn after
/// the three scalars of a proof were written to a transcript.
pub open spec fn ip_challenge(t: TranscriptView, tau_x: nat, u: nat, t_caret: nat) -> nat {
    challenge_scalar(wrote_scalars(t, tau_x, u, t_caret), "ip_x"@)
}

/// The transcript after that challenge was drawn.
pub open spec fn after_ip_challenge(t: TranscriptView, tau_x: nat, u: nat, t_caret: nat) -> TranscriptView {
    wrote_scalars(t, tau_x, u, t_caret).challenged("ip_x"@)
}

/// The proof which a consistent witness of the statement's size proves the
/// statement with, under given blinding scalars and from a given
/// transcript; none where a challenge is zero.
pub open spec fn proved(s: StatementView, w: WitnessView, b: BlindsView, t: TranscriptView) -> ProveOutcome {
    let g = s.generators;
    let c = s.c();
    let ai = commit_pair(g, w.aL, w.aR, b.alpha);
    let ao = commit_single(g, w.aO, b.beta);
    let cs = commit_pair(g, b.sL, b.sR, b.rho);
    let first = yz(s, t, ai, ao, cs);
    if first.y == 0 || first.z == 0 {
        ProveOutcome { proof: None, transcript: t }
    } else {
        let y_inv = powers(field_inv(first.y), s.n());
        let ys = powers(first.y, s.n());
        let z = z_powers(first.z, s.q());
        let l = l_poly(s, w, b.sL, y_inv, z);
        let r = r_poly(s, w, b.sR, ys, z);
        let t_all = t_poly(l, r);
        let before = t_commitments(g, t_all.take(ni(c) as int), b.tau_before_ni);
        let after = t_commitments(g, t_all.skip(ni(c) as int + 1), b.tau_after_ni);
        let x = x_challenge(first.after_z, before, after);
        let t5 = after_x(first.after_z, before, after);
        if x == 0 {
            ProveOutcome { proof: None, transcript: first.after_z }
        } else {
            let xs = powers(x, 2 * ni(c) + 3);
            let l_x = evaluation(l, xs, s.n(), l.len());
            let r_x = evaluation(r, xs, s.n(), r.len());
            let t_caret = inner(l_x, r_x);
            let tau_x = weighted_sum(tau_poly(s, w, b, z), xs, 2 * ni(c) + 3);
            let u = u_scalar(s, w, b, xs);
            let ip_x = ip_challenge(t5, tau_x, u, t_caret);
            let t7 = after_ip_challenge(t5, tau_x, u, t_caret);
            if ip_x == 0 {
                ProveOutcome { proof: None, transcript: t5 }
            } else {
                let ip = ip_run(
                    IpRound { g: g.g_bold, h: scaled_points(g.h_bold, y_inv), a: l_x, b: r_x },
                    crate::group::point_mul(g.g, ip_x),
                    Seq::empty(),
                    Seq::empty(),
                    ip_start(t7, g.transcript, ip_x, None),
                );
                ProveOutcome {
                    proof: match ip.proof {
                        Some(p) => Some(
                            ProofView {
                                AI: ai,
                                AO: ao,
                                S: cs,
                                T_before_ni: before,
                                T_after_ni: after,
                                tau_x,
                                u,
                                t_caret,
                                ip: p,
                            },
                        ),
                        None => None,
                    },
                    transcript: ip.transcript,
                }
            }
        }
    }
}

/// What proving a statement for a witness under the blinding scalars `b`
/// does: how it ends, `r`, and what it leaves of the transcript `t0`, `t1`.
///
/// A witness with a vector longer than the statement has generators, and
/// one which, extended to the statement's size, does not open the
/// commitments or does not satisfy a row of the constraints, is refused,
/// and the transcript is left as it was. Else the proof and the transcript
/// are those of the protocol, and where a challenge is zero there is no
/// proof. Proving ends with no other error.
pub open spec fn proving(
    s: StatementView,
    w: WitnessView,
    b: BlindsView,
    t0: TranscriptView,
    t1: TranscriptView,
    r: Option<Result<ProofView, AcError>>,
) -> bool {
    if w.oversized(s.n()) {
        r == Some(Err::<ProofView, AcError>(AcError::IncorrectAmountOfGenerators)) && t1 == t0
    } else if !consistent(s, w.padded(s.n())) {
        r == Some(Err::<ProofView, AcError>(AcError::InconsistentWitness)) && t1 == t0
    } else {
        let out = proved(s, w.padded(s.n()), b, t0);
        &&& t1 == out.transcript
        &&& match r {
            Some(Ok(p)) => out.proof == Some(p),
            Some(Err(_)) => false,
            None => out.proof is None,
        }
    }
}

impl BlindsView {
    /// Whether there is one blinding scalar for each thing to blind.
    pub open spec fn shaped(self, n: nat, c: nat) -> bool {
        &&& self.sL.len() == n
        &&& self.sR.len() == n
        &&& self.tau_before_ni.len() == ni(c)
        &&& self.tau_after_ni.len() == ni(c) + 2
    }
}


/// The four challenges of the circuit's own protocol, as the verifier draws
/// them for a proof, and the transcript after each.
pub struct WalkView {
    pub y: nat,
    pub z: nat,
    pub x: nat,
    pub ip_x: nat,
    pub before: TranscriptView,
    pub after_y: TranscriptView,
    pub after_z: TranscriptView,
    pub after_x: TranscriptView,
    pub after_ip: TranscriptView,
}

/// The challenges which a proof of a statement leads to, from a transcript.
pub open spec fn walk(s: StatementView, p: ProofView, t: TranscriptView) -> WalkView {
    let first = yz(s, t, p.AI, p.AO, p.S);
    let t5 = after_x(first.after_z, p.T_before_ni, p.T_after_ni);
    WalkView {
        y: first.y,
        z: first.z,
        x: x_challenge(first.after_z, p.T_before_ni, p.T_after_ni),
        ip_x: ip_challenge(t5, p.tau_x, p.u, p.t_caret),
        before: t,
        after_y: first.after_y,
        after_z: first.after_z,
        after_x: t5,
        after_ip: after_ip_challenge(t5, p.tau_x, p.u, p.t_caret),
    }
}

impl WalkView {
    /// Whether none of the four challenges is zero.
    pub open spec fn clear(self) -> bool {
        self.y != 0 && self.z != 0 && self.x != 0 && self.ip_x != 0
    }

    /// The transcript where a challenge is zero: as it was before that
    /// challenge's part of the protocol, of which `y` and `z` share one.
    pub open spec fn stopped(self) -> TranscriptView {
        if self.y == 0 || self.z == 0 {
            self.before
        } else if self.x == 0 {
            self.after_z
        } else {
            self.after_x
        }
    }
}

/// What the verifier weighs a proof by: the powers of the inverse of `y`,
/// of `z` and of `x`, the challenge which scales the inner-product
/// argument, and the challenges of its rounds.
pub struct ChallengesView {
    pub y_inv: Seq<nat>,
    pub z: Seq<nat>,
    pub xs: Seq<nat>,
    pub ip_x: nat,
    pub es: Seq<nat>,
}

/// The transcript the inner-product argument of a proof starts from.
pub open spec fn ip_begin(s: StatementView, w: WalkView) -> TranscriptView {
    ip_start(w.after_ip, s.generators.transcript, w.ip_x, None)
}

/// The challenges of a proof, from those drawn from the transcript.
pub open spec fn challenges_of(s: StatementView, p: ProofView, w: WalkView) -> ChallengesView {
    ChallengesView {
        y_inv: powers(field_inv(w.y), s.n()),
        z: z_powers(w.z, s.q()),
        xs: powers(w.x, 2 * ni(s.c()) + 3),
        ip_x: w.ip_x,
        es: round_challenges(ip_begin(s, w), p.ip.L, p.ip.R, p.ip.L.len()),
    }
}

/// Whether a proof commits to as many coefficients of `t` as the statement
/// asks for: to each of the `n'` below the one at `n'`, and to each of the
/// `n' + 2` above it.
pub open spec fn shaped(s: StatementView, p: ProofView) -> bool {
    p.T_before_ni.len() == ni(s.c()) && p.T_after_ni.len() == after_len(s.c())
}

/// The accumulator after the first check was added under the weight `w`:
/// `t_caret * g + tau_x * h` on one side; on the other the constant of the
/// coefficient `n'`, the scalar commitments under `WV(z)`, and the
/// commitments to the other coefficients, each under its power of `x`.
pub open spec fn first_check(
    s: StatementView,
    v: BatchView,
    p: ProofView,
    ch: ChallengesView,
    w: nat,
) -> BatchView {
    let at = o_index(s.c());
    let constant = field_add(s.delta(ch.y_inv, ch.z), inner(ch.z, s.c));
    BatchView {
        g: field_sub(
            field_add(v.g, field_mul(p.t_caret, w)),
            field_mul(field_mul(w, ch.xs[at]), constant),
        ),
        h: field_add(v.h, field_mul(p.tau_x, w)),
        additional: v.additional + weighted(
            field_neg(w),
            vec_scale(apply(s.WV, s.m(), ch.z), ch.xs[at]),
            0,
            s.V,
        ) + weighted(field_neg(w), ch.xs, 0, p.T_before_ni) + weighted(
            field_neg(w),
            ch.xs,
            at + 1,
            p.T_after_ni,
        ),
        ..v
    }
}

/// The scalars which weigh `h_bold`, before they are scaled by the powers
/// of the inverse of `y`: those of `WL` and `WO`, and of the first `k`
/// vector commitments' `WCL`.
pub open spec fn h_scalars(s: StatementView, ch: ChallengesView, k: nat) -> Seq<nat>
    decreases k,
{
    if k == 0 {
        vec_add(
            vec_add(zeros(s.n()), vec_scale(apply(s.WL, s.n(), ch.z), ch.xs[lr_index(s.c())])),
            apply(s.WO, s.n(), ch.z),
        )
    } else {
        vec_add(
            h_scalars(s, ch, (k - 1) as nat),
            vec_scale(apply(s.WCL[k - 1], s.n(), ch.z), ch.xs[weight_index(s.c(), k - 1)]),
        )
    }
}

/// The weights of `g_bold` after those of `WR`, and of the first `k`
/// vector commitments' `WCR`, were added under the weight `w`.
pub open spec fn g_weights(
    s: StatementView,
    g_bold: Seq<nat>,
    ch: ChallengesView,
    w: nat,
    k: nat,
) -> Seq<nat>
    decreases k,
{
    if k == 0 {
        added(
            g_bold,
            w,
            vec_scale(vec_mul(apply(s.WR, s.n(), ch.z), ch.y_inv), ch.xs[lr_index(s.c())]),
        )
    } else {
        added(
            g_weights(s, g_bold, ch, w, (k - 1) as nat),
            w,
            vec_scale(
                vec_mul(apply(s.WCR[k - 1], s.n(), ch.z), ch.y_inv),
                ch.xs[weight_index(s.c(), k - 1)],
            ),
        )
    }
}

/// The accumulator after the point of the inner-product argument was added
/// under the weight `w`: the three commitments of the first round and the
/// vector commitments, each under its power of `x`; the constraints'
/// weights on `g_bold` and `h_bold`; the sum of the first `n` of `h_bold`
/// taken away; `u * h` taken away; and the claimed inner product on `g`.
pub open spec fn second_check(
    s: StatementView,
    v: BatchView,
    p: ProofView,
    ch: ChallengesView,
    w: nat,
) -> BatchView {
    let c = s.c();
    BatchView {
        g: field_add(v.g, field_mul(field_mul(w, ch.ip_x), p.t_caret)),
        h: field_sub(v.h, field_mul(w, p.u)),
        g_bold: g_weights(s, v.g_bold, ch, w, s.c()),
        h_bold: added(v.h_bold, w, vec_mul(h_scalars(s, ch, s.c()), ch.y_inv)),
        h_sum: v.h_sum.update(log2(s.n()) as int, field_sub(v.h_sum[log2(s.n()) as int], w)),
        additional: v.additional + seq![
            (field_mul(w, ch.xs[lr_index(c)]), p.AI),
            (field_mul(w, ch.xs[o_index(c)]), p.AO),
            (field_mul(w, ch.xs[s_index(c)]), p.S),
        ] + weighted(w, ch.xs, value_index(0), s.C),
    }
}

/// The accumulator after a proof was added to it: the first check under
/// the weight `w1`, and the point of the inner-product argument and the
/// argument itself under the weight `w2`.
pub open spec fn accumulated(
    s: StatementView,
    v: BatchView,
    p: ProofView,
    ch: ChallengesView,
    w1: nat,
    w2: nat,
) -> BatchView {
    ip_accumulated(
        second_check(s, first_check(s, v, p, ch, w1), p, ch, w2),
        s.n(),
        ch.y_inv,
        ch.ip_x,
        None,
        w2,
        p.ip,
        ch.es,
    )
}

/// What verifying a proof of a statement under the weights `w1` and `w2`
/// does: how it ends, `r`; what it leaves of the transcript `t0`, `t1`; and
/// what it leaves of the accumulator `v0`, `v1`.
///
/// A proof is refused for the number of coefficients it commits to, or by
/// the inner-product argument. Where a challenge is zero there is no
/// verdict. Either way the accumulator is left as it was, and the
/// transcript where the verifier stopped.
pub open spec fn verified(
    s: StatementView,
    p: ProofView,
    t0: TranscriptView,
    t1: TranscriptView,
    v0: BatchView,
    v1: BatchView,
    w1: nat,
    w2: nat,
    r: Option<Result<(), AcError>>,
) -> bool {
    let w = walk(s, p, t0);
    let begin = ip_begin(s, w);
    let rounds = p.ip.L.len();
    match r {
        Some(Err(AcError::IncorrectTBeforeNiLength)) => {
            &&& p.T_before_ni.len() != ni(s.c())
            &&& t1 == t0
            &&& v1 == v0
        },
        Some(Err(AcError::IncorrectTAfterNiLength)) => {
            &&& p.T_before_ni.len() == ni(s.c())
            &&& p.T_after_ni.len() != after_len(s.c())
            &&& t1 == t0
            &&& v1 == v0
        },
        None => {
            &&& shaped(s, p)
            &&& v1 == v0
            &&& if !w.clear() {
                t1 == w.stopped()
            } else {
                &&& p.ip.L.len() == p.ip.R.len()
                &&& p.ip.L.len() == log2(s.n())
                &&& exists|j: nat|
                    {
                        &&& j < rounds
                        &&& rounds_clear(begin, p.ip.L, p.ip.R, j)
                        &&& crate::inner_product::round_challenge(begin, p.ip.L, p.ip.R, j) == 0
                        &&& t1 == rounds_transcript(begin, p.ip.L, p.ip.R, j)
                    }
            }
        },
        Some(Err(AcError::Ip(IpError::DifferingLrLengths))) => {
            &&& shaped(s, p)
            &&& w.clear()
            &&& p.ip.L.len() != p.ip.R.len()
            &&& t1 == w.after_ip
            &&& v1 == v0
        },
        Some(Err(AcError::Ip(IpError::IncorrectAmountOfGenerators))) => {
            &&& shaped(s, p)
            &&& w.clear()
            &&& p.ip.L.len() == p.ip.R.len()
            &&& p.ip.L.len() != log2(s.n())
            &&& t1 == w.after_ip
            &&& v1 == v0
        },
        Some(Err(_)) => false,
        Some(Ok(())) => {
            &&& shaped(s, p)
            &&& w.clear()
            &&& p.ip.L.len() == p.ip.R.len()
            &&& p.ip.L.len() == log2(s.n())
            &&& rounds_clear(begin, p.ip.L, p.ip.R, rounds)
            &&& t1 == rounds_transcript(begin, p.ip.L, p.ip.R, rounds)
            &&& v1 == accumulated(s, v0, p, challenges_of(s, p, w), w1, w2)
        },
    }
}

} // verus!
