//! Statements about arithmetic circuits, their witnesses and their proofs.
//!
//! The prover commits to the circuit's wires and to blinding vectors, is
//! challenged through the transcript, and reduces what is left to an
//! inner-product argument. The verifier draws the same challenges and adds
//! its two checks, each under a weight of its own, to a [`BatchVerifier`].
use crate::circuit::{
    after_ip_challenge, after_x, all_columns_below, all_have_rows, all_highest_within, consistent,
    g_weights, h_scalars, ip_challenge, l_coefficient, l_poly, lr_index, masked, ni, o_index,
    opens_scalar, opens_vector, p_terms, proved, proving, r_coefficient, r_poly, row_left, row_right,
    s_index, side_values, t_commitment, t_commitments, tau_poly, u_scalar, verified, walk,
    weighted_sum, x_challenge, yz, z_powers, ChallengesView, ProveOutcome, StatementView,
    WitnessView,
};
use crate::commitment::{wipe_pairs, PedersenCommitment, PedersenVectorCommitment};
use crate::field::{field_inv, Scalar};
use crate::generators::{log2_of, BatchVerifier, BatchView, ProofGenerators};
use crate::group::{msm, multiexp, multiexp_vartime, pairs_view, Point};
use crate::inner_product::{
    rounds_clear, rounds_transcript, IpError, IpProof, IpStatement, IpWitness, P,
};
use crate::point_vector::{encodings, push_pairs, write_points, zip, PointVector};
use crate::polynomial::{evaluate, multiply, poly_view, uniform, weigh};
use crate::scalar_matrix::{
    columns_below, highest, lemma_columns_below, wiped, RowView, ScalarMatrix,
};
use crate::scalar_vector::{
    field_pow, lemma_padded_same, padded, powers, vec_mul, zeros, ScalarVector,
};
use crate::transcript::Transcript;
use vstd::prelude::*;

verus! {

/// Why a statement, a witness or a proof was refused.
#[derive(Clone, Copy, Debug, PartialEq, Eq)]
pub enum AcError {
    /// The witness's two vectors differ in length.
    DifferingLrLengths,
    /// The weights and the constants do not all have one row for each
    /// constraint.
    InconsistentAmountOfConstraints,
    /// A constraint weighs a term of the circuit which is not there.
    ConstrainedNonExistentTerm,
    /// A constraint weighs a commitment which is not there.
    ConstrainedNonExistentCommitment,
    /// The witness is longer than the generators reach.
    IncorrectAmountOfGenerators,
    /// The witness does not open the commitments, or does not satisfy the
    /// constraints.
    InconsistentWitness,
    /// The proof commits to the wrong number of low coefficients.
    IncorrectTBeforeNiLength,
    /// The proof commits to the wrong number of high coefficients.
    IncorrectTAfterNiLength,
    /// The inner-product argument was refused.
    Ip(IpError),
}

/// The rows of each of a list of matrices.
pub open spec fn matrices_view(ws: Seq<ScalarMatrix>) -> Seq<Seq<RowView>> {
    Seq::new(ws.len(), |i: int| ws[i]@)
}

/// What each of a list of openings stands for.
pub open spec fn vector_openings_view(c: Seq<PedersenVectorCommitment>) -> Seq<
    crate::commitment::VectorCommitmentView,
> {
    Seq::new(c.len(), |i: int| c[i]@)
}

/// What each of a list of openings stands for.
pub open spec fn openings_view(v: Seq<PedersenCommitment>) -> Seq<crate::commitment::CommitmentView> {
    Seq::new(v.len(), |i: int| v[i]@)
}

/// A statement: the circuit's linear constraints, and the commitments they
/// speak of.
///
/// `aL * aR = aO`, and for each row
/// `WL . aL + WR . aR + WO . aO + WCL . C.g + WCR . C.h = WV . V + c`.
#[allow(non_snake_case)]
#[derive(Clone, Debug, PartialEq, Eq)]
pub struct ArithmeticCircuitStatement {
    pub generators: ProofGenerators,
    pub WL: ScalarMatrix,
    pub WR: ScalarMatrix,
    pub WO: ScalarMatrix,
    pub WV: ScalarMatrix,
    pub WCL: Vec<ScalarMatrix>,
    pub WCR: Vec<ScalarMatrix>,
    pub c: ScalarVector,
    pub C: PointVector,
    pub V: PointVector,
}

/// The witness of a statement: the wires of the circuit and the openings of
/// the commitments.
#[allow(non_snake_case)]
#[derive(Debug, PartialEq, Eq)]
pub struct ArithmeticCircuitWitness {
    aL: ScalarVector,
    aR: ScalarVector,
    aO: ScalarVector,
    c: Vec<PedersenVectorCommitment>,
    v: Vec<PedersenCommitment>,
}

/// A proof of a statement.
///
/// The polynomials `l(X)` and `r(X)` have a coefficient for each position
/// up to `n' + 1`, where the blinding vectors stand, so `t(X) = l(X) . r(X)`
/// has `2 n' + 3` coefficients. The proof commits to each but the one at
/// `n'`, which the verifier makes of the statement: to the `n'` below it in
/// `T_before_ni`, and to the `n' + 2` above it in `T_after_ni`.
#[allow(non_snake_case)]
#[derive(Clone, Debug, PartialEq, Eq)]
pub struct ArithmeticCircuitProof {
    /// The commitment to the circuit's inputs.
    pub AI: Point,
    /// The commitment to the circuit's outputs.
    pub AO: Point,
    /// The commitment to the blinding vectors.
    pub S: Point,
    /// The commitments to the coefficients of `t(X)` below the one at `n'`.
    pub T_before_ni: Vec<Point>,
    /// The commitments to the coefficients of `t(X)` above the one at `n'`.
    pub T_after_ni: Vec<Point>,
    /// The mask of `t_caret`.
    pub tau_x: Scalar,
    /// The mask of the point which the inner-product argument is about.
    pub u: Scalar,
    /// The value of `t(X)` at the challenge `x`.
    pub t_caret: Scalar,
    /// The inner-product argument.
    pub ip: IpProof,
}

impl ArithmeticCircuitProof {
    /// What this stands for, as plain values.
    pub open spec fn view(&self) -> crate::circuit::ProofView {
        crate::circuit::ProofView {
            AI: self.AI@,
            AO: self.AO@,
            S: self.S@,
            T_before_ni: encodings(self.T_before_ni@),
            T_after_ni: encodings(self.T_after_ni@),
            tau_x: self.tau_x@,
            u: self.u@,
            t_caret: self.t_caret@,
            ip: self.ip@,
        }
    }
}

impl ArithmeticCircuitWitness {
    /// The two vectors are of one length, and the third is their product.
    #[verifier::type_invariant]
    pub closed spec fn inv(self) -> bool {
        self.aL@.len() == self.aR@.len() && self.aO@ == vec_mul(self.aL@, self.aR@)
    }

    /// What this stands for, as plain values.
    pub closed spec fn view(&self) -> WitnessView {
        WitnessView {
            aL: self.aL@,
            aR: self.aR@,
            aO: self.aO@,
            c: vector_openings_view(self.c@),
            v: openings_view(self.v@),
        }
    }

    /// A witness of two vectors of one length, whose product it computes,
    /// and of the openings of the commitments.
    #[allow(non_snake_case)]
    pub fn new(
        aL: ScalarVector,
        aR: ScalarVector,
        c: Vec<PedersenVectorCommitment>,
        v: Vec<PedersenCommitment>,
    ) -> (r: Result<ArithmeticCircuitWitness, AcError>)
        ensures
            r.is_ok() == (aL@.len() == aR@.len()),
            r matches Err(e) ==> e == AcError::DifferingLrLengths,
            r matches Ok(w) ==> w@ == (WitnessView {
                aL: aL@,
                aR: aR@,
                aO: vec_mul(aL@, aR@),
                c: vector_openings_view(c@),
                v: openings_view(v@),
            }),
    {
        if aL.len() != aR.len() {
            return Err(AcError::DifferingLrLengths);
        }
        let aO = aL.mul(&aR);
        Ok(ArithmeticCircuitWitness { aL, aR, aO, c, v })
    }

    /// What holds of every witness.
    pub fn properties(&self)
        ensures
            self@.aL.len() == self@.aR.len(),
            self@.aO == vec_mul(self@.aL, self@.aR),
    {
        proof {
            use_type_invariant(self);
        }
    }

    /// The witness taken apart, as it is laid out for proving.
    pub fn into_assignment(self) -> (r: Assignment)
        ensures
            r@ == self@,
    {
        let ArithmeticCircuitWitness { aL, aR, aO, c, v } = self;
        Assignment { aL, aR, aO, c, v }
    }
}

/// A copy of a list of openings.
fn copy_vector_openings(c: &Vec<PedersenVectorCommitment>) -> (r: Vec<PedersenVectorCommitment>)
    ensures
        vector_openings_view(r@) == vector_openings_view(c@),
{
    let mut out: Vec<PedersenVectorCommitment> = Vec::with_capacity(c.len());
    let mut i: usize = 0;
    while i < c.len()
        invariant
            i <= c@.len(),
            out@.len() == i,
            forall|k: int| 0 <= k < i ==> out@[k]@ == c@[k]@,
        decreases c@.len() - i,
    {
        out.push(
            PedersenVectorCommitment {
                g_values: c[i].g_values.copy(),
                h_values: c[i].h_values.copy(),
                mask: c[i].mask,
            },
        );
        i += 1;
    }
    out
}

/// A copy of a list of openings.
fn copy_openings(v: &Vec<PedersenCommitment>) -> (r: Vec<PedersenCommitment>)
    ensures
        openings_view(r@) == openings_view(v@),
{
    let mut out: Vec<PedersenCommitment> = Vec::with_capacity(v.len());
    let mut i: usize = 0;
    while i < v.len()
        invariant
            i <= v@.len(),
            out@.len() == i,
            forall|k: int| 0 <= k < i ==> out@[k] == v@[k],
        decreases v@.len() - i,
    {
        out.push(v[i]);
        i += 1;
    }
    out
}

impl Clone for ArithmeticCircuitWitness {
    /// A copy which stands for the same values.
    fn clone(&self) -> (r: ArithmeticCircuitWitness)
        ensures
            r@ == self@,
    {
        proof {
            use_type_invariant(self);
        }
        ArithmeticCircuitWitness {
            aL: self.aL.copy(),
            aR: self.aR.copy(),
            aO: self.aO.copy(),
            c: copy_vector_openings(&self.c),
            v: copy_openings(&self.v),
        }
    }
}

/// Overwrites every weight of every matrix with zero.
fn wipe_matrices(ws: &mut Vec<ScalarMatrix>)
    ensures
        matrices_view(final(ws)@) == crate::circuit::all_wiped(matrices_view(old(ws)@)),
{
    let mut i: usize = 0;
    while i < ws.len()
        invariant
            i <= ws@.len(),
            ws@.len() == old(ws)@.len(),
            forall|k: int| 0 <= k < i ==> (#[trigger] ws@[k])@ == wiped(old(ws)@[k]@),
            forall|k: int| i <= k < ws@.len() ==> ws@[k] == old(ws)@[k],
        decreases ws@.len() - i,
    {
        ws[i].zeroize();
        i += 1;
    }
}

/// Whether each of the matrices has `q` rows.
fn each_has_rows(ws: &Vec<ScalarMatrix>, q: usize) -> (r: bool)
    ensures
        r == all_have_rows(matrices_view(ws@), q as nat),
{
    let mut i: usize = 0;
    while i < ws.len()
        invariant
            i <= ws@.len(),
            forall|k: int| 0 <= k < i ==> (#[trigger] matrices_view(ws@)[k]).len() == q,
        decreases ws@.len() - i,
    {
        if ws[i].len() != q {
            assert(matrices_view(ws@)[i as int].len() != q);
            return false;
        }
        i += 1;
    }
    true
}

/// Whether each of the matrices weighs columns below `n` only.
fn each_below(ws: &Vec<ScalarMatrix>, n: usize) -> (r: bool)
    ensures
        r == all_columns_below(matrices_view(ws@), n as nat),
{
    let mut i: usize = 0;
    while i < ws.len()
        invariant
            i <= ws@.len(),
            forall|k: int| 0 <= k < i ==> columns_below(#[trigger] matrices_view(ws@)[k], n as nat),
        decreases ws@.len() - i,
    {
        if !ws[i].columns_below(n) {
            assert(!columns_below(matrices_view(ws@)[i as int], n as nat));
            return false;
        }
        i += 1;
    }
    true
}

/// Whether the highest column of each of the matrices is at most `bound`.
fn each_highest_within(ws: &Vec<ScalarMatrix>, bound: usize) -> (r: bool)
    ensures
        r == all_highest_within(matrices_view(ws@), bound as nat),
{
    let mut i: usize = 0;
    while i < ws.len()
        invariant
            i <= ws@.len(),
            forall|k: int|
                0 <= k < i ==> highest(
                    #[trigger] matrices_view(ws@)[k],
                    matrices_view(ws@)[k].len(),
                ) <= bound,
        decreases ws@.len() - i,
    {
        if ws[i].highest_index() > bound {
            assert(highest(matrices_view(ws@)[i as int], matrices_view(ws@)[i as int].len())
                > bound);
            return false;
        }
        i += 1;
    }
    true
}

impl ArithmeticCircuitStatement {
    /// What this stands for, as plain values.
    pub open spec fn view(&self) -> StatementView {
        StatementView {
            generators: self.generators@,
            WL: self.WL@,
            WR: self.WR@,
            WO: self.WO@,
            WV: self.WV@,
            WCL: matrices_view(self.WCL@),
            WCR: matrices_view(self.WCR@),
            c: self.c@,
            C: self.C@,
            V: self.V@,
        }
    }

    /// The number of multiplications.
    pub fn n(&self) -> (r: usize)
        ensures
            r == self@.n(),
            self@.generators.wf(),
    {
        self.generators.len()
    }

    /// The number of constraints.
    pub fn q(&self) -> (r: usize)
        ensures
            r == self@.q(),
    {
        self.WL.len()
    }

    /// The number of vector commitments.
    pub fn c(&self) -> (r: usize)
        ensures
            r == self@.c(),
    {
        self.C.len()
    }

    /// The number of scalar commitments.
    pub fn m(&self) -> (r: usize)
        ensures
            r == self@.m(),
    {
        self.V.len()
    }

    /// Overwrites the statement: every weight and every constant with
    /// zero, every commitment with the neutral element. Its shape stays.
    pub fn zeroize(&mut self)
        ensures
            final(self)@ == old(self)@.wiped(),
    {
        self.WL.zeroize();
        self.WR.zeroize();
        self.WO.zeroize();
        wipe_matrices(&mut self.WCL);
        wipe_matrices(&mut self.WCR);
        self.WV.zeroize();
        self.c.zeroize();
        self.C.zeroize();
        self.V.zeroize();
    }

    /// A statement of the given constraints on the given commitments, or
    /// the first rule they break: every matrix and the constants have one
    /// row for each constraint; the weights on the circuit's terms stay below
    /// the number of generators; there is one pair of matrices for each
    /// vector commitment, neither of which reaches beyond the number of
    /// generators; the weights on the scalar commitments do not reach beyond
    /// their number.
    #[allow(non_snake_case)]
    pub fn new(
        generators: ProofGenerators,
        WL: ScalarMatrix,
        WR: ScalarMatrix,
        WO: ScalarMatrix,
        WCL: Vec<ScalarMatrix>,
        WCR: Vec<ScalarMatrix>,
        WV: ScalarMatrix,
        c: ScalarVector,
        C: PointVector,
        V: PointVector,
    ) -> (r: Result<ArithmeticCircuitStatement, AcError>)
        ensures
            match r {
                Ok(s) => s@.wf() && s@ == (StatementView {
                    generators: generators@,
                    WL: WL@,
                    WR: WR@,
                    WO: WO@,
                    WV: WV@,
                    WCL: matrices_view(WCL@),
                    WCR: matrices_view(WCR@),
                    c: c@,
                    C: C@,
                    V: V@,
                }),
                Err(e) => (StatementView {
                    generators: generators@,
                    WL: WL@,
                    WR: WR@,
                    WO: WO@,
                    WV: WV@,
                    WCL: matrices_view(WCL@),
                    WCR: matrices_view(WCR@),
                    c: c@,
                    C: C@,
                    V: V@,
                }).violation() == Some(e),
            },
    {
        let statement = ArithmeticCircuitStatement {
            generators,
            WL,
            WR,
            WO,
            WV,
            WCL,
            WCR,
            c,
            C,
            V,
        };
        match statement.violation() {
            Some(e) => Err(e),
            None => Ok(statement),
        }
    }

    /// The first rule the statement breaks, in the order they are checked;
    /// none for a statement as [`Self::new`] makes it.
    pub fn violation(&self) -> (r: Option<AcError>)
        ensures
            r == self@.violation(),
            self@.generators.wf(),
    {
        let n = self.generators.len();
        let m = self.V.len();
        let q = self.WL.len();
        if self.WR.len() != q || self.WO.len() != q || self.WV.len() != q || self.c.len() != q {
            return Some(AcError::InconsistentAmountOfConstraints);
        }
        if !each_has_rows(&self.WCL, q) {
            return Some(AcError::InconsistentAmountOfConstraints);
        }
        if !each_has_rows(&self.WCR, q) {
            return Some(AcError::InconsistentAmountOfConstraints);
        }
        if self.WL.highest_index() >= n || self.WR.highest_index() >= n
            || self.WO.highest_index() >= n {
            return Some(AcError::ConstrainedNonExistentTerm);
        }
        if self.WCL.len() != self.C.len() {
            return Some(AcError::ConstrainedNonExistentCommitment);
        }
        if self.WCR.len() != self.C.len() {
            return Some(AcError::ConstrainedNonExistentCommitment);
        }
        if !each_highest_within(&self.WCL, n) {
            return Some(AcError::ConstrainedNonExistentTerm);
        }
        if !each_highest_within(&self.WCR, n) {
            return Some(AcError::ConstrainedNonExistentTerm);
        }
        if self.WV.highest_index() > m {
            return Some(AcError::ConstrainedNonExistentCommitment);
        }
        None
    }

    /// Whether the statement can be proved and verified: it breaks no
    /// rule, every weight stands in a column which exists, and its sizes
    /// fit the machine.
    pub fn provable(&self) -> (r: bool)
        ensures
            r == self@.provable(),
    {
        if self.violation().is_some() {
            return false;
        }
        let n = self.generators.len();
        if !each_below(&self.WCL, n) || !each_below(&self.WCR, n) {
            return false;
        }
        if !self.WV.columns_below(self.V.len()) {
            return false;
        }
        if self.WL.len() > 0xffff_ffff {
            return false;
        }
        // 2 * (2 * (c + 1)) + 3 has to fit
        self.C.len() <= (usize::MAX - 7) / 4
    }
}


/// A witness laid out for proving: every vector extended by zeros to the
/// number of generators.
#[allow(non_snake_case)]
pub struct Assignment {
    pub aL: ScalarVector,
    pub aR: ScalarVector,
    pub aO: ScalarVector,
    pub c: Vec<PedersenVectorCommitment>,
    pub v: Vec<PedersenCommitment>,
}

impl Assignment {
    /// What this stands for, as plain values.
    pub open spec fn view(&self) -> WitnessView {
        WitnessView {
            aL: self.aL@,
            aR: self.aR@,
            aO: self.aO@,
            c: vector_openings_view(self.c@),
            v: openings_view(self.v@),
        }
    }

    /// Overwrites every scalar with zero.
    pub fn zeroize(&mut self)
        ensures
            final(self)@.aL == zeros(old(self)@.aL.len()),
            final(self)@.aR == zeros(old(self)@.aR.len()),
            final(self)@.aO == zeros(old(self)@.aO.len()),
            final(self)@.c.len() == old(self)@.c.len(),
            final(self)@.v.len() == old(self)@.v.len(),
            forall|i: int|
                0 <= i < old(self)@.c.len() ==> (#[trigger] final(self)@.c[i]).mask == 0
                    && final(self)@.c[i].g_values == zeros(old(self)@.c[i].g_values.len())
                    && final(self)@.c[i].h_values == zeros(old(self)@.c[i].h_values.len()),
            forall|i: int|
                0 <= i < old(self)@.v.len() ==> (#[trigger] final(self)@.v[i]).value == 0
                    && final(self)@.v[i].mask == 0,
    {
        self.aL.zeroize();
        self.aR.zeroize();
        self.aO.zeroize();
        let mut i: usize = 0;
        while i < self.c.len()
            invariant
                i <= self.c@.len(),
                self.c@.len() == old(self).c@.len(),
                self.aL@ == zeros(old(self)@.aL.len()),
                self.aR@ == zeros(old(self)@.aR.len()),
                self.aO@ == zeros(old(self)@.aO.len()),
                self.v == old(self).v,
                forall|k: int|
                    0 <= k < i ==> (#[trigger] self.c@[k]).mask@ == 0 && self.c@[k].g_values@
                        == zeros(old(self).c@[k].g_values@.len()) && self.c@[k].h_values@ == zeros(
                        old(self).c@[k].h_values@.len(),
                    ),
                forall|k: int| i <= k < self.c@.len() ==> self.c@[k] == old(self).c@[k],
            decreases self.c@.len() - i,
        {
            self.c[i].zeroize();
            i += 1;
        }
        let mut i: usize = 0;
        while i < self.v.len()
            invariant
                i <= self.v@.len(),
                self.v@.len() == old(self).v@.len(),
                self.c@.len() == old(self).c@.len(),
                self.aL@ == zeros(old(self)@.aL.len()),
                self.aR@ == zeros(old(self)@.aR.len()),
                self.aO@ == zeros(old(self)@.aO.len()),
                forall|k: int|
                    0 <= k < self.c@.len() ==> (#[trigger] self.c@[k]).mask@ == 0
                        && self.c@[k].g_values@ == zeros(old(self).c@[k].g_values@.len())
                        && self.c@[k].h_values@ == zeros(old(self).c@[k].h_values@.len()),
                forall|k: int|
                    0 <= k < i ==> (#[trigger] self.v@[k]).value@ == 0 && self.v@[k].mask@ == 0,
            decreases self.v@.len() - i,
        {
            self.v[i].zeroize();
            i += 1;
        }
    }
}

/// Whether every vector of a witness has the length `n`.
pub open spec fn sized(w: WitnessView, n: nat) -> bool {
    &&& w.aL.len() == n
    &&& w.aR.len() == n
    &&& w.aO.len() == n
    &&& forall|i: int|
        0 <= i < w.c.len() ==> (#[trigger] w.c[i]).g_values.len() == n && w.c[i].h_values.len()
            == n
}

/// Where the circuit's vectors stand in the polynomials `l(X)` and `r(X)`:
/// the inputs, the outputs (which is `n'`, the position of the coefficient
/// of `t(X)` which is not committed to), and the blinding vectors.
pub struct Positions {
    pub lr: usize,
    pub o: usize,
    pub s: usize,
}

/// The positions for a statement with `c` vector commitments. Prover and
/// verifier take them from here.
pub fn positions(c: usize) -> (r: Positions)
    requires
        2 * ni(c as nat) + 3 <= usize::MAX,
    ensures
        r.lr == lr_index(c as nat),
        r.o == o_index(c as nat),
        r.s == s_index(c as nat),
{
    let ni = 2 * (c + 1);
    Positions { lr: ni / 2, o: ni, s: ni + 1 }
}

/// The prover's blinding scalars: the masks of the three commitments of the
/// first round, the two blinding vectors, and a mask for each coefficient
/// of `t` which is committed to.
#[allow(non_snake_case)]
pub struct ProverBlinds {
    pub alpha: Scalar,
    pub beta: Scalar,
    pub rho: Scalar,
    pub sL: ScalarVector,
    pub sR: ScalarVector,
    pub tau_before_ni: ScalarVector,
    pub tau_after_ni: ScalarVector,
}

/// Scalars drawn from the generator, as many as asked for.
fn random_vector(rng: &mut rand_core::OsRng, len: usize) -> (r: ScalarVector)
    ensures
        r@.len() == len,
{
    let mut v: Vec<Scalar> = Vec::with_capacity(len);
    let mut i: usize = 0;
    while i < len
        invariant
            i <= len,
            v@.len() == i,
        decreases len - i,
    {
        v.push(Scalar::random(rng));
        i += 1;
    }
    ScalarVector(v)
}

impl ProverBlinds {
    /// What this stands for, as plain values.
    pub open spec fn view(&self) -> crate::circuit::BlindsView {
        crate::circuit::BlindsView {
            alpha: self.alpha@,
            beta: self.beta@,
            rho: self.rho@,
            sL: self.sL@,
            sR: self.sR@,
            tau_before_ni: self.tau_before_ni@,
            tau_after_ni: self.tau_after_ni@,
        }
    }

    /// Blinding scalars for a statement of `n` multiplications and `c`
    /// vector commitments, drawn from the operating system's generator.
    pub fn random(rng: &mut rand_core::OsRng, n: usize, c: usize) -> (r: ProverBlinds)
        requires
            2 * ni(c as nat) + 3 <= usize::MAX,
        ensures
            r@.shaped(n as nat, c as nat),
    {
        let alpha = Scalar::random(rng);
        let beta = Scalar::random(rng);
        let rho = Scalar::random(rng);
        let sL = random_vector(rng, n);
        let sR = random_vector(rng, n);
        let at = positions(c);
        let tau_before_ni = random_vector(rng, at.o);
        let tau_after_ni = random_vector(rng, at.o + 2);
        ProverBlinds { alpha, beta, rho, sL, sR, tau_before_ni, tau_after_ni }
    }

    /// Overwrites every scalar with zero.
    pub fn zeroize(&mut self)
        ensures
            final(self)@ == (crate::circuit::BlindsView {
                alpha: 0,
                beta: 0,
                rho: 0,
                sL: zeros(old(self)@.sL.len()),
                sR: zeros(old(self)@.sR.len()),
                tau_before_ni: zeros(old(self)@.tau_before_ni.len()),
                tau_after_ni: zeros(old(self)@.tau_after_ni.len()),
            }),
    {
        self.alpha.zeroize();
        self.beta.zeroize();
        self.rho.zeroize();
        self.sL.zeroize();
        self.sR.zeroize();
        self.tau_before_ni.zeroize();
        self.tau_after_ni.zeroize();
    }
}

/// The challenges drawn after the first round: `y`, the powers of its
/// inverse, and the powers of `z` from the first.
pub struct YzChallenges {
    pub y: Scalar,
    pub y_inv: ScalarVector,
    pub z: ScalarVector,
}

/// The commitment to two vectors on the generators, under a mask on `h`.
fn commit_pair(generators: &ProofGenerators, l: &ScalarVector, r: &ScalarVector, mask: &Scalar) -> (p:
    Point)
    requires
        l@.len() == generators@.len(),
        r@.len() == generators@.len(),
    ensures
        p@ == crate::circuit::commit_pair(generators@, l@, r@, mask@),
{
    generators.properties();
    let mut terms: Vec<(Scalar, Point)> = Vec::new();
    push_pairs(&mut terms, &l.0, generators.g_bold_slice());
    push_pairs(&mut terms, &r.0, generators.h_bold_slice());
    terms.push((*mask, generators.h()));
    assert(pairs_view(terms@) =~= zip(l@, generators@.g_bold) + zip(r@, generators@.h_bold)
        + seq![(mask@, generators@.h)]);
    let p = multiexp(&terms);
    wipe_pairs(&mut terms);
    p
}

/// The commitment to one vector on `g_bold`, under a mask on `h`.
fn commit_single(generators: &ProofGenerators, o: &ScalarVector, mask: &Scalar) -> (p: Point)
    requires
        o@.len() == generators@.len(),
    ensures
        p@ == crate::circuit::commit_single(generators@, o@, mask@),
{
    let mut terms: Vec<(Scalar, Point)> = Vec::new();
    push_pairs(&mut terms, &o.0, generators.g_bold_slice());
    terms.push((*mask, generators.h()));
    assert(pairs_view(terms@) =~= zip(o@, generators@.g_bold) + seq![(mask@, generators@.h)]);
    let p = multiexp(&terms);
    wipe_pairs(&mut terms);
    p
}

/// Over the vector commitments, row `i` of each one's weights applied to
/// the values it holds on one side.
fn commitment_rows(ws: &Vec<ScalarMatrix>, i: usize, c: &Vec<PedersenVectorCommitment>, on_g: bool) -> (r:
    Scalar)
    requires
        ws@.len() == c@.len(),
        forall|k: int| 0 <= k < ws@.len() ==> i < (#[trigger] ws@[k])@.len(),
        forall|k: int|
            0 <= k < ws@.len() ==> columns_below(
                (#[trigger] ws@[k])@,
                if on_g {
                    c@[k].g_values@.len()
                } else {
                    c@[k].h_values@.len()
                },
            ),
    ensures
        r@ == crate::circuit::commitment_rows(
            matrices_view(ws@),
            i as int,
            side_values(vector_openings_view(c@), on_g),
            ws@.len(),
        ),
{
    let ghost vals = side_values(vector_openings_view(c@), on_g);
    let mut acc = Scalar::zero();
    let mut k: usize = 0;
    while k < ws.len()
        invariant
            k <= ws@.len(),
            ws@.len() == c@.len(),
            vals == side_values(vector_openings_view(c@), on_g),
            forall|j: int| 0 <= j < ws@.len() ==> i < (#[trigger] ws@[j])@.len(),
            forall|j: int|
                0 <= j < ws@.len() ==> columns_below(
                    (#[trigger] ws@[j])@,
                    if on_g {
                        c@[j].g_values@.len()
                    } else {
                        c@[j].h_values@.len()
                    },
                ),
            acc@ == crate::circuit::commitment_rows(matrices_view(ws@), i as int, vals, k as nat),
        decreases ws@.len() - k,
    {
        let term = if on_g {
            ws[k].row_dot(i, &c[k].g_values)
        } else {
            ws[k].row_dot(i, &c[k].h_values)
        };
        acc = acc.add(&term);
        k += 1;
    }
    acc
}

/// Extends the vectors of each opening by zeros to the length `n`.
fn pad_openings(c: &mut Vec<PedersenVectorCommitment>, n: usize)
    ensures
        final(c)@.len() == old(c)@.len(),
        forall|i: int| 0 <= i < old(c)@.len() ==> (#[trigger] final(c)@[i])@ == old(c)@[i]@.padded(n as nat),
{
    let mut i: usize = 0;
    while i < c.len()
        invariant
            i <= c@.len(),
            c@.len() == old(c)@.len(),
            forall|k: int| 0 <= k < i ==> (#[trigger] c@[k])@ == old(c)@[k]@.padded(n as nat),
            forall|k: int| i <= k < c@.len() ==> c@[k] == old(c)@[k],
        decreases c@.len() - i,
    {
        c[i].pad(n);
        i += 1;
    }
}

/// The values of a list of openings.
fn opened_values(v: &Vec<PedersenCommitment>) -> (r: ScalarVector)
    ensures
        r@ == Seq::new(v@.len(), |i: int| v@[i].value@),
{
    let mut out: Vec<Scalar> = Vec::with_capacity(v.len());
    let mut i: usize = 0;
    while i < v.len()
        invariant
            i <= v@.len(),
            out@.len() == i,
            forall|k: int| 0 <= k < i ==> out@[k] == v@[k].value,
        decreases v@.len() - i,
    {
        out.push(v[i].value);
        i += 1;
    }
    ScalarVector(out)
}

/// The masks of a list of openings.
fn opened_masks(v: &Vec<PedersenCommitment>) -> (r: ScalarVector)
    ensures
        r@ == Seq::new(v@.len(), |i: int| v@[i].mask@),
{
    let mut out: Vec<Scalar> = Vec::with_capacity(v.len());
    let mut i: usize = 0;
    while i < v.len()
        invariant
            i <= v@.len(),
            out@.len() == i,
            forall|k: int| 0 <= k < i ==> out@[k] == v@[k].mask,
        decreases v@.len() - i,
    {
        out.push(v[i].mask);
        i += 1;
    }
    ScalarVector(out)
}

impl ArithmeticCircuitStatement {
    /// Whether the openings of an assignment are those of the statement's
    /// commitments.
    fn opens(&self, a: &Assignment) -> (r: bool)
        requires
            self@.provable(),
            sized(a@, self@.n()),
            a@.c.len() == self@.c(),
            a@.v.len() == self@.m(),
        ensures
            r == ((forall|i: int| 0 <= i < self@.m() ==> opens_scalar(self@, a@, i)) && (forall|
                i: int,
            | 0 <= i < self@.c() ==> opens_vector(self@, a@, i))),
    {
        let g = self.generators.g();
        let h = self.generators.h();
        let mut i: usize = 0;
        while i < self.V.len()
            invariant
                i <= self.V@.len(),
                a@.v.len() == self@.m(),
                g@ == self@.generators.g,
                h@ == self@.generators.h,
                forall|k: int| 0 <= k < i ==> opens_scalar(self@, a@, k),
            decreases self.V@.len() - i,
        {
            let commitment = a.v[i].commit(&g, &h);
            if !self.V.get(i).equals(&commitment) {
                assert(!opens_scalar(self@, a@, i as int));
                return false;
            }
            i += 1;
        }
        self.generators.properties();
        let mut i: usize = 0;
        while i < self.C.len()
            invariant
                i <= self.C@.len(),
                a@.c.len() == self@.c(),
                sized(a@, self@.n()),
                self@.generators.wf(),
                h@ == self@.generators.h,
                forall|k: int| 0 <= k < self@.m() ==> opens_scalar(self@, a@, k),
                forall|k: int| 0 <= k < i ==> opens_vector(self@, a@, k),
            decreases self.C@.len() - i,
        {
            let commitment = a.c[i].commit(
                self.generators.g_bold_slice(),
                self.generators.h_bold_slice(),
                &h,
            );
            if !self.C.get(i).equals(&commitment) {
                assert(!opens_vector(self@, a@, i as int));
                return false;
            }
            i += 1;
        }
        true
    }

    /// Whether an assignment satisfies row `i` of the constraints.
    fn row_holds(&self, a: &Assignment, values: &ScalarVector, i: usize) -> (r: bool)
        requires
            self@.provable(),
            sized(a@, self@.n()),
            a@.c.len() == self@.c(),
            a@.v.len() == self@.m(),
            values@ == a@.values(),
            i < self@.q(),
        ensures
            r == (row_left(self@, a@, i as int) == row_right(self@, a@, i as int)),
    {
        proof {
            lemma_columns_below(self@.WL, self@.n());
            lemma_columns_below(self@.WR, self@.n());
            lemma_columns_below(self@.WO, self@.n());
            assert forall|k: int| 0 <= k < self.WCL@.len() implies i < (#[trigger] self.WCL@[k])@.len()
                && columns_below(self.WCL@[k]@, a.c@[k].g_values@.len()) by {
                assert(matrices_view(self.WCL@)[k] == self.WCL@[k]@);
                assert(a@.c[k].g_values.len() == self@.n());
            }
            assert forall|k: int| 0 <= k < self.WCR@.len() implies i < (#[trigger] self.WCR@[k])@.len()
                && columns_below(self.WCR@[k]@, a.c@[k].h_values@.len()) by {
                assert(matrices_view(self.WCR@)[k] == self.WCR@[k]@);
                assert(a@.c[k].h_values.len() == self@.n());
            }
        }
        let left = self.WL.row_dot(i, &a.aL).add(&self.WR.row_dot(i, &a.aR)).add(
            &self.WO.row_dot(i, &a.aO),
        ).add(&commitment_rows(&self.WCL, i, &a.c, true)).add(
            &commitment_rows(&self.WCR, i, &a.c, false),
        );
        let right = self.WV.row_dot(i, values).add(&self.c.get(i));
        left.equals(&right)
    }

    /// Whether an assignment opens every commitment and satisfies every
    /// row.
    fn satisfied(&self, a: &Assignment) -> (r: bool)
        requires
            self@.provable(),
            sized(a@, self@.n()),
        ensures
            r == consistent(self@, a@),
    {
        if self.C.len() != a.c.len() || self.V.len() != a.v.len() {
            return false;
        }
        if !self.opens(a) {
            return false;
        }
        let values = opened_values(&a.v);
        let mut i: usize = 0;
        while i < self.WL.len()
            invariant
                i <= self@.q(),
                self@.provable(),
                sized(a@, self@.n()),
                a@.c.len() == self@.c(),
                a@.v.len() == self@.m(),
                values@ == a@.values(),
                forall|k: int| 0 <= k < i ==> row_left(self@, a@, k) == row_right(self@, a@, k),
            decreases self@.q() - i,
        {
            if !self.row_holds(a, &values, i) {
                return false;
            }
            i += 1;
        }
        true
    }

    /// Lays a witness out for proving: extends its vectors to the number of
    /// generators, and checks that it opens the commitments and satisfies
    /// the constraints. A witness which is refused is wiped.
    pub fn assign(&self, witness: ArithmeticCircuitWitness) -> (r: Result<Assignment, AcError>)
        requires
            self@.provable(),
        ensures
            match r {
                Ok(a) => !witness@.oversized(self@.n()) && a@ == witness@.padded(self@.n())
                    && sized(a@, self@.n()) && consistent(self@, a@),
                Err(e) => if witness@.oversized(self@.n()) {
                    e == AcError::IncorrectAmountOfGenerators
                } else {
                    e == AcError::InconsistentWitness && !consistent(
                        self@,
                        witness@.padded(self@.n()),
                    )
                },
            },
    {
        proof {
            use_type_invariant(&witness);
        }
        let n = self.n();
        let mut a = witness.into_assignment();
        if a.aL.len() > n {
            a.zeroize();
            return Err(AcError::IncorrectAmountOfGenerators);
        }
        let mut i: usize = 0;
        while i < a.c.len()
            invariant
                i <= a.c@.len(),
                n == self@.n(),
                a@ == witness@,
                forall|k: int|
                    0 <= k < i ==> (#[trigger] a@.c[k]).g_values.len() <= n && a@.c[k].h_values.len()
                        <= n,
            decreases a.c@.len() - i,
        {
            if a.c[i].g_values.len() > n || a.c[i].h_values.len() > n {
                assert(witness@.c[i as int].g_values.len() > n || witness@.c[i as int].h_values.len()
                    > n);
                a.zeroize();
                return Err(AcError::IncorrectAmountOfGenerators);
            }
            i += 1;
        }
        a.aL.pad(n);
        a.aR.pad(n);
        a.aO.pad(n);
        pad_openings(&mut a.c, n);
        assert(a@.c =~= witness@.padded(n as nat).c);
        if !self.satisfied(&a) {
            a.zeroize();
            return Err(AcError::InconsistentWitness);
        }
        Ok(a)
    }
}


/// How proving ended, as plain values.
pub open spec fn outcome_view(r: Option<Result<ArithmeticCircuitProof, AcError>>) -> Option<
    Result<crate::circuit::ProofView, AcError>,
> {
    match r {
        Some(Ok(proof)) => Some(Ok(proof@)),
        Some(Err(e)) => Some(Err(e)),
        None => None,
    }
}

/// The proof which proving ended with, if it ended with one, as plain
/// values.
pub open spec fn proof_view(r: Option<Result<ArithmeticCircuitProof, AcError>>) -> Option<
    crate::circuit::ProofView,
> {
    match r {
        Some(Ok(proof)) => Some(proof@),
        _ => None,
    }
}

/// The commitments to a run of the coefficients of `t`, from the position
/// `from`, each under its mask.
fn commit_coefficients(
    generators: &ProofGenerators,
    t: &ScalarVector,
    from: usize,
    taus: &ScalarVector,
) -> (r: Vec<Point>)
    requires
        from + taus@.len() <= t@.len(),
    ensures
        encodings(r@) == t_commitments(
            generators@,
            t@.subrange(from as int, from + taus@.len()),
            taus@,
        ),
{
    let g = generators.g();
    let h = generators.h();
    let ghost run = t@.subrange(from as int, from + taus@.len());
    let total = t.len();
    let mut out: Vec<Point> = Vec::with_capacity(taus.len());
    let mut i: usize = 0;
    while i < taus.len()
        invariant
            i <= taus@.len(),
            from + taus@.len() <= t@.len(),
            total == t@.len(),
            run == t@.subrange(from as int, from + taus@.len()),
            g@ == generators@.g,
            h@ == generators@.h,
            out@.len() == i,
            forall|k: int| 0 <= k < i ==> out@[k]@ == t_commitment(generators@, run[k], taus@[k]),
        decreases taus@.len() - i,
    {
        let mut terms: Vec<(Scalar, Point)> = Vec::with_capacity(2);
        terms.push((t.get(from + i), g));
        terms.push((taus.get(i), h));
        assert(pairs_view(terms@) =~= seq![(run[i as int], g@), (taus@[i as int], h@)]);
        out.push(multiexp(&terms));
        wipe_pairs(&mut terms);
        i += 1;
    }
    out
}

impl ArithmeticCircuitStatement {
    /// Writes the statement and the commitments of the first round to the
    /// transcript.
    #[allow(non_snake_case)]
    fn write_statement(&self, transcript: &mut Transcript, AI: &Point, AO: &Point, S: &Point)
        requires
            self@.generators.wf(),
            self@.q() <= u32::MAX,
        ensures
            final(transcript)@ == self@.start(old(transcript)@, AI@, AO@, S@),
    {
        transcript.domain_separate("arithmetic_circuit_proof");
        transcript.append_message("generators", self.generators.transcript().as_slice());
        let n = self.n();
        let q = self.q();
        transcript.append_message("n", vstd::bytes::u32_to_le_bytes(n as u32).as_slice());
        transcript.append_message("q", vstd::bytes::u32_to_le_bytes(q as u32).as_slice());
        self.C.transcript(transcript, "vector_commitment");
        self.V.transcript(transcript, "commitment");
        transcript.append_message("AI", AI.to_bytes().as_slice());
        transcript.append_message("AO", AO.to_bytes().as_slice());
        transcript.append_message("S", S.to_bytes().as_slice());
    }

    /// The challenges `y` and `z` which the statement and the commitments
    /// of the first round would draw, found on a copy: the transcript
    /// itself takes no step.
    #[allow(non_snake_case)]
    fn next_y_z(&self, transcript: &Transcript, AI: &Point, AO: &Point, S: &Point) -> (r: (Scalar, Scalar))
        requires
            self@.generators.wf(),
            self@.q() <= u32::MAX,
        ensures
            r.0@ == yz(self@, transcript@, AI@, AO@, S@).y,
            r.1@ == yz(self@, transcript@, AI@, AO@, S@).z,
    {
        let mut copy = transcript.clone();
        self.write_statement(&mut copy, AI, AO, S);
        let y = Scalar::hash("arithmetic_circuit_proof", copy.challenge("y").as_slice());
        let z = Scalar::hash("arithmetic_circuit_proof", copy.challenge("z").as_slice());
        (y, z)
    }

    /// Writes the statement and the commitments of the first round to the
    /// transcript, and draws the challenges `y` and `z`, of which neither
    /// is zero: `y`, the powers of its inverse, and the powers of `z`.
    #[allow(non_snake_case)]
    fn initial_transcript(&self, transcript: &mut Transcript, AI: &Point, AO: &Point, S: &Point) -> (c:
        YzChallenges)
        requires
            self@.generators.wf(),
            self@.q() <= u32::MAX,
            yz(self@, old(transcript)@, AI@, AO@, S@).y != 0,
            yz(self@, old(transcript)@, AI@, AO@, S@).z != 0,
        ensures
            ({
                let first = yz(self@, old(transcript)@, AI@, AO@, S@);
                &&& c.y@ == first.y
                &&& c.y@ != 0
                &&& c.y_inv@ == powers(field_inv(first.y), self@.n())
                &&& c.z@ == z_powers(first.z, self@.q())
                &&& final(transcript)@ == first.after_z
            }),
    {
        let n = self.n();
        let q = self.q();
        self.write_statement(transcript, AI, AO, S);
        let y = Scalar::hash("arithmetic_circuit_proof", transcript.challenge("y").as_slice());
        let inverse = match y.invert() {
            None => {
                return vstd::pervasive::unreached();
            },
            Some(inverse) => inverse,
        };
        let y_inv = ScalarVector::powers(&inverse, n);
        let z_1 = Scalar::hash("arithmetic_circuit_proof", transcript.challenge("z").as_slice());
        z_1.bounded();
        let mut z: Vec<Scalar> = Vec::with_capacity(q);
        let mut i: usize = 0;
        while i < q
            invariant
                i <= q,
                z_1@ < crate::field::order(),
                z@.len() == i,
                forall|k: int| 0 <= k < i ==> z@[k]@ == field_pow(z_1@, (k + 1) as nat),
            decreases q - i,
        {
            if i == 0 {
                proof {
                    crate::field::lemma_mul_one(z_1@);
                    reveal_with_fuel(field_pow, 2);
                }
                z.push(z_1);
            } else {
                let next = z[i - 1].mul(&z_1);
                z.push(next);
            }
            i += 1;
        }
        YzChallenges { y, y_inv, z: ScalarVector(z) }
    }

    /// The challenge `x` which the commitments to the coefficients of `t`
    /// would draw, found on a copy: the transcript itself takes no step.
    #[allow(non_snake_case)]
    fn next_x(transcript: &Transcript, T_before_ni: &Vec<Point>, T_after_ni: &Vec<Point>) -> (x: Scalar)
        ensures
            x@ == x_challenge(transcript@, encodings(T_before_ni@), encodings(T_after_ni@)),
    {
        let mut copy = transcript.clone();
        write_points(&mut copy, "Ti", T_before_ni);
        write_points(&mut copy, "Tni+1+i", T_after_ni);
        Scalar::hash("arithmetic_circuit_proof", copy.challenge("x").as_slice())
    }

    /// Writes the commitments to the coefficients of `t` to the transcript
    /// and draws the challenge `x`, which is not zero: its powers, one for
    /// each coefficient of `t`.
    #[allow(non_snake_case)]
    fn transcript_Ts(transcript: &mut Transcript, T_before_ni: &Vec<Point>, T_after_ni: &Vec<Point>) -> (xs:
        ScalarVector)
        requires
            T_before_ni@.len() + 1 + T_after_ni@.len() <= usize::MAX,
            x_challenge(old(transcript)@, encodings(T_before_ni@), encodings(T_after_ni@)) != 0,
        ensures
            final(transcript)@ == after_x(
                old(transcript)@,
                encodings(T_before_ni@),
                encodings(T_after_ni@),
            ),
            xs@ == powers(
                x_challenge(old(transcript)@, encodings(T_before_ni@), encodings(T_after_ni@)),
                (T_before_ni@.len() + 1 + T_after_ni@.len()) as nat,
            ),
    {
        write_points(transcript, "Ti", T_before_ni);
        write_points(transcript, "Tni+1+i", T_after_ni);
        let x = Scalar::hash("arithmetic_circuit_proof", transcript.challenge("x").as_slice());
        ScalarVector::powers(&x, T_before_ni.len() + 1 + T_after_ni.len())
    }

    /// The challenge which the three scalars of a proof would draw, found
    /// on a copy: the transcript itself takes no step.
    fn next_ip_x(transcript: &Transcript, tau_x: &Scalar, u: &Scalar, t_caret: &Scalar) -> (ip_x: Scalar)
        ensures
            ip_x@ == ip_challenge(transcript@, tau_x@, u@, t_caret@),
    {
        let mut copy = transcript.clone();
        copy.append_message("tau_x", tau_x.to_bytes().as_slice());
        copy.append_message("u", u.to_bytes().as_slice());
        copy.append_message("t_caret", t_caret.to_bytes().as_slice());
        Scalar::hash("arithmetic_circuit_proof", copy.challenge("ip_x").as_slice())
    }

    /// Writes the three scalars of a proof to the transcript and draws the
    /// challenge which the inner-product argument is scaled by, which is
    /// not zero.
    fn transcript_tau_x_u_t_caret(
        transcript: &mut Transcript,
        tau_x: &Scalar,
        u: &Scalar,
        t_caret: &Scalar,
    ) -> (ip_x: Scalar)
        requires
            ip_challenge(old(transcript)@, tau_x@, u@, t_caret@) != 0,
        ensures
            final(transcript)@ == after_ip_challenge(old(transcript)@, tau_x@, u@, t_caret@),
            ip_x@ == ip_challenge(old(transcript)@, tau_x@, u@, t_caret@),
            ip_x@ != 0,
    {
        transcript.append_message("tau_x", tau_x.to_bytes().as_slice());
        transcript.append_message("u", u.to_bytes().as_slice());
        transcript.append_message("t_caret", t_caret.to_bytes().as_slice());
        Scalar::hash("arithmetic_circuit_proof", transcript.challenge("ip_x").as_slice())
    }

    /// The polynomial `l(X)`.
    fn l_polynomial(
        &self,
        a: &Assignment,
        s_l: &ScalarVector,
        y_inv: &ScalarVector,
        z: &ScalarVector,
    ) -> (r: Vec<ScalarVector>)
        requires
            self@.provable(),
            sized(a@, self@.n()),
            a@.c.len() == self@.c(),
            s_l@.len() == self@.n(),
            y_inv@.len() == self@.n(),
            z@.len() == self@.q(),
        ensures
            poly_view(r@) == l_poly(self@, a@, s_l@, y_inv@, z@),
            uniform(poly_view(r@), self@.n()),
    {
        let n = self.n();
        let c = self.c();
        let at = positions(c);
        let len = at.s + 1;
        proof {
            lemma_columns_below(self@.WR, self@.n());
        }
        let mut poly: Vec<ScalarVector> = Vec::with_capacity(len);
        let mut k: usize = 0;
        while k < len
            invariant
                k <= len,
                len == at.s + 1,
                at.lr == lr_index(c as nat),
                at.o == o_index(c as nat),
                at.s == s_index(c as nat),
                len <= usize::MAX,
                n == self@.n(),
                c == self@.c(),
                self@.provable(),
                columns_below(self@.WR, self@.n()),
                sized(a@, self@.n()),
                a@.c.len() == self@.c(),
                s_l@.len() == self@.n(),
                y_inv@.len() == self@.n(),
                z@.len() == self@.q(),
                poly@.len() == k,
                forall|j: int|
                    0 <= j < k ==> (#[trigger] poly@[j])@ == l_coefficient(
                        self@,
                        a@,
                        s_l@,
                        y_inv@,
                        z@,
                        j,
                    ),
                forall|j: int| 0 <= j < k ==> (#[trigger] poly@[j])@.len() == n,
            decreases len - k,
        {
            let coefficient = if k == at.lr {
                self.WR.mul_vec(n, z).mul(y_inv).add(&a.aL)
            } else if k == at.o {
                a.aO.copy()
            } else if k == at.s {
                s_l.copy()
            } else if 1 <= k && k < at.lr {
                assert(a@.c[k - 1].g_values.len() == n);
                a.c[k - 1].g_values.copy()
            } else if at.lr < k && k < at.o {
                assert(matrices_view(self.WCR@)[at.o - 1 - k] == self.WCR@[at.o - 1 - k]@);
                self.WCR[at.o - 1 - k].mul_vec(n, z).mul(y_inv)
            } else {
                ScalarVector::new(n)
            };
            poly.push(coefficient);
            k += 1;
        }
        poly
    }

    /// The polynomial `r(X)`.
    fn r_polynomial(
        &self,
        a: &Assignment,
        s_r: &ScalarVector,
        y: &ScalarVector,
        z: &ScalarVector,
    ) -> (r: Vec<ScalarVector>)
        requires
            self@.provable(),
            sized(a@, self@.n()),
            a@.c.len() == self@.c(),
            s_r@.len() == self@.n(),
            y@.len() == self@.n(),
            z@.len() == self@.q(),
        ensures
            poly_view(r@) == r_poly(self@, a@, s_r@, y@, z@),
            uniform(poly_view(r@), self@.n()),
    {
        let n = self.n();
        let c = self.c();
        let at = positions(c);
        let len = at.s + 1;
        proof {
            lemma_columns_below(self@.WL, self@.n());
            lemma_columns_below(self@.WO, self@.n());
        }
        let mut poly: Vec<ScalarVector> = Vec::with_capacity(len);
        let mut k: usize = 0;
        while k < len
            invariant
                k <= len,
                len == at.s + 1,
                at.lr == lr_index(c as nat),
                at.o == o_index(c as nat),
                at.s == s_index(c as nat),
                len <= usize::MAX,
                n == self@.n(),
                c == self@.c(),
                self@.provable(),
                columns_below(self@.WL, self@.n()),
                columns_below(self@.WO, self@.n()),
                sized(a@, self@.n()),
                a@.c.len() == self@.c(),
                s_r@.len() == self@.n(),
                y@.len() == self@.n(),
                z@.len() == self@.q(),
                poly@.len() == k,
                forall|j: int|
                    0 <= j < k ==> (#[trigger] poly@[j])@ == r_coefficient(
                        self@,
                        a@,
                        s_r@,
                        y@,
                        z@,
                        j,
                    ),
                forall|j: int| 0 <= j < k ==> (#[trigger] poly@[j])@.len() == n,
            decreases len - k,
        {
            let coefficient = if k == at.lr {
                self.WL.mul_vec(n, z).add(&a.aR.mul(y))
            } else if k == 0 {
                self.WO.mul_vec(n, z).sub(y)
            } else if k == at.s {
                s_r.mul(y)
            } else if 1 <= k && k < at.lr {
                assert(a@.c[k - 1].h_values.len() == n);
                a.c[k - 1].h_values.mul(y)
            } else if at.lr < k && k < at.o {
                assert(matrices_view(self.WCL@)[at.o - 1 - k] == self.WCL@[at.o - 1 - k]@);
                self.WCL[at.o - 1 - k].mul_vec(n, z)
            } else {
                ScalarVector::new(n)
            };
            poly.push(coefficient);
            k += 1;
        }
        poly
    }

    /// The mask which blinds `t(x)`.
    fn tau_x(&self, a: &Assignment, blinds: &ProverBlinds, z: &ScalarVector, xs: &ScalarVector) -> (r:
        Scalar)
        requires
            self@.provable(),
            a@.v.len() == self@.m(),
            z@.len() == self@.q(),
            blinds@.shaped(self@.n(), self@.c()),
            xs@.len() == 2 * ni(self@.c()) + 3,
        ensures
            r@ == weighted_sum(tau_poly(self@, a@, blinds@, z@), xs@, 2 * ni(self@.c()) + 3),
    {
        let m = self.m();
        let masks = opened_masks(&a.v);
        assert(masks@ =~= a@.masks());
        let middle = self.WV.mul_vec(m, z).inner_product(&masks);
        let mut poly: Vec<Scalar> = Vec::with_capacity(xs.len());
        let mut i: usize = 0;
        while i < blinds.tau_before_ni.len()
            invariant
                i <= blinds.tau_before_ni@.len(),
                poly@.len() == i,
                forall|k: int| 0 <= k < i ==> poly@[k]@ == blinds.tau_before_ni@[k],
            decreases blinds.tau_before_ni@.len() - i,
        {
            poly.push(blinds.tau_before_ni.get(i));
            i += 1;
        }
        poly.push(middle);
        let before = blinds.tau_before_ni.len();
        let mut i: usize = 0;
        while i < blinds.tau_after_ni.len()
            invariant
                i <= blinds.tau_after_ni@.len(),
                before == blinds.tau_before_ni@.len(),
                poly@.len() == before + 1 + i,
                forall|k: int| 0 <= k < before ==> poly@[k]@ == blinds.tau_before_ni@[k],
                poly@[before as int]@ == middle@,
                forall|k: int| 0 <= k < i ==> poly@[before + 1 + k]@ == blinds.tau_after_ni@[k],
            decreases blinds.tau_after_ni@.len() - i,
        {
            poly.push(blinds.tau_after_ni.get(i));
            i += 1;
        }
        let poly = ScalarVector(poly);
        assert(poly@ =~= tau_poly(self@, a@, blinds@, z@));
        weigh(&poly, xs)
    }

    /// The scalar `u` of a proof.
    fn u(&self, a: &Assignment, blinds: &ProverBlinds, xs: &ScalarVector) -> (r: Scalar)
        requires
            self@.provable(),
            a@.c.len() == self@.c(),
            xs@.len() == 2 * ni(self@.c()) + 3,
        ensures
            r@ == u_scalar(self@, a@, blinds@, xs@),
    {
        let c = self.c();
        let at = positions(c);
        let mut u = blinds.alpha.mul(&xs.get(at.lr)).add(&blinds.beta.mul(&xs.get(at.o))).add(
            &blinds.rho.mul(&xs.get(at.s)),
        );
        let ghost base = u@;
        let mut i: usize = 0;
        while i < c
            invariant
                i <= c,
                c == a.c@.len(),
                a@.c.len() == c,
                xs@.len() == 2 * ni(c as nat) + 3,
                u@ == masked(base, xs@, a@, i as nat),
            decreases c - i,
        {
            let term = xs.get(i + 1).mul(&a.c[i].mask);
            u = u.add(&term);
            i += 1;
        }
        u
    }

    /// The point which the inner-product argument is about.
    fn p_point(
        &self,
        l: &ScalarVector,
        r: &ScalarVector,
        y_inv: &ScalarVector,
        ip_x: &Scalar,
        t_caret: &Scalar,
    ) -> (p: Point)
        requires
            l@.len() == self@.n(),
            r@.len() == self@.n(),
            y_inv@.len() == self@.n(),
        ensures
            p@ == msm(p_terms(self@.generators, l@, r@, y_inv@, ip_x@, t_caret@)),
    {
        let n = self.n();
        let ghost all = p_terms(self@.generators, l@, r@, y_inv@, ip_x@, t_caret@);
        let mut terms: Vec<(Scalar, Point)> = Vec::new();
        let mut i: usize = 0;
        while i < n
            invariant
                i <= n,
                n == self@.n(),
                self@.generators.wf(),
                l@.len() == n,
                r@.len() == n,
                y_inv@.len() == n,
                all == p_terms(self@.generators, l@, r@, y_inv@, ip_x@, t_caret@),
                terms@.len() == 2 * i,
                pairs_view(terms@) == all.take(2 * i),
            decreases n - i,
        {
            let ghost prev = pairs_view(terms@);
            let first = (l.get(i), self.generators.g_bold(i));
            let second = (y_inv.get(i).mul(&r.get(i)), self.generators.h_bold(i));
            terms.push(first);
            terms.push(second);
            i += 1;
        }
        let ghost prev = pairs_view(terms@);
        let last = (ip_x.mul(t_caret), self.generators.g());
        terms.push(last);
        assert(pairs_view(terms@) =~= prev.push((last.0@, last.1@)));
        assert(pairs_view(terms@) =~= all);
        multiexp_vartime(&terms)
    }
}


impl ArithmeticCircuitStatement {
    /// Proves the statement for an assignment which satisfies it, under
    /// given blinding scalars.
    ///
    /// Each challenge is first found on a copy of the transcript. Where it
    /// is zero the protocol cannot go on, and nothing is returned.
    #[allow(non_snake_case)]
    fn prove_assigned(&self, blinds: &ProverBlinds, transcript: &mut Transcript, a: &Assignment) -> (r:
        Option<Result<ArithmeticCircuitProof, AcError>>)
        requires
            self@.provable(),
            sized(a@, self@.n()),
            consistent(self@, a@),
            blinds@.shaped(self@.n(), self@.c()),
        ensures
            !(r matches Some(Err(_))),
            proved(self@, a@, blinds@, old(transcript)@) == (ProveOutcome {
                proof: proof_view(r),
                transcript: final(transcript)@,
            }),
    {
        let n = self.n();
        let at = positions(self.c());
        let AI = commit_pair(&self.generators, &a.aL, &a.aR, &blinds.alpha);
        let AO = commit_single(&self.generators, &a.aO, &blinds.beta);
        let S = commit_pair(&self.generators, &blinds.sL, &blinds.sR, &blinds.rho);
        let first = self.next_y_z(transcript, &AI, &AO, &S);
        if first.0.is_zero() || first.1.is_zero() {
            return None;
        }
        let challenges = self.initial_transcript(transcript, &AI, &AO, &S);
        let y = ScalarVector::powers(&challenges.y, n);
        let l = self.l_polynomial(a, &blinds.sL, &challenges.y_inv, &challenges.z);
        let r = self.r_polynomial(a, &blinds.sR, &y, &challenges.z);
        let t = multiply(&l, &r, n);
        let T_before_ni = commit_coefficients(&self.generators, &t, 0, &blinds.tau_before_ni);
        let T_after_ni = commit_coefficients(&self.generators, &t, at.s, &blinds.tau_after_ni);
        if ArithmeticCircuitStatement::next_x(transcript, &T_before_ni, &T_after_ni).is_zero() {
            return None;
        }
        let xs = ArithmeticCircuitStatement::transcript_Ts(transcript, &T_before_ni, &T_after_ni);
        let l_x = evaluate(&l, &xs, n);
        let r_x = evaluate(&r, &xs, n);
        let t_caret = l_x.inner_product(&r_x);
        let tau_x = self.tau_x(a, blinds, &challenges.z, &xs);
        let u = self.u(a, blinds, &xs);
        if ArithmeticCircuitStatement::next_ip_x(transcript, &tau_x, &u, &t_caret).is_zero() {
            return None;
        }
        let ip_x = ArithmeticCircuitStatement::transcript_tau_x_u_t_caret(
            transcript,
            &tau_x,
            &u,
            &t_caret,
        );
        let p = self.p_point(&l_x, &r_x, &challenges.y_inv, &ip_x, &t_caret);
        proof {
            lemma_padded_same(l_x@, n as nat);
            lemma_padded_same(r_x@, n as nat);
        }
        let statement = match IpStatement::new_without_P_transcript(
            self.generators.clone(),
            challenges.y_inv,
            ip_x,
            P::ProverWithoutTranscript(p),
        ) {
            Ok(statement) => statement,
            Err(_) => vstd::pervasive::unreached(),
        };
        let witness = match IpWitness::new(l_x, r_x) {
            Some(witness) => witness,
            None => vstd::pervasive::unreached(),
        };
        match statement.prove(transcript, witness) {
            Some(Ok(ip)) => Some(
                Ok(ArithmeticCircuitProof { AI, AO, S, T_before_ni, T_after_ni, tau_x, u, t_caret, ip }),
            ),
            Some(Err(_)) => vstd::pervasive::unreached(),
            None => None,
        }
    }

    /// Proves the statement for a witness under given blinding scalars.
    ///
    /// A witness with a vector longer than the statement has generators,
    /// and one which does not open the commitments or does not satisfy a
    /// row of the constraints, is refused before anything is committed to
    /// or written to the transcript. Else the proof and the transcript are
    /// those of the protocol; where a challenge is zero the protocol cannot
    /// go on, and nothing is returned. The witness and the blinding scalars
    /// are wiped either way.
    pub fn prove_with_blinds(
        self,
        blinds: ProverBlinds,
        transcript: &mut Transcript,
        witness: ArithmeticCircuitWitness,
    ) -> (r: Option<Result<ArithmeticCircuitProof, AcError>>)
        requires
            self@.provable(),
            blinds@.shaped(self@.n(), self@.c()),
        ensures
            proving(
                self@,
                witness@,
                blinds@,
                old(transcript)@,
                final(transcript)@,
                outcome_view(r),
            ),
    {
        let mut blinds = blinds;
        match self.assign(witness) {
            Err(e) => {
                blinds.zeroize();
                Some(Err(e))
            },
            Ok(assignment) => {
                let mut assignment = assignment;
                let r = self.prove_assigned(&blinds, transcript, &assignment);
                assignment.zeroize();
                blinds.zeroize();
                r
            },
        }
    }

    /// Proves the statement for a witness, under blinding scalars drawn
    /// from the operating system's generator.
    ///
    /// A witness with a vector longer than the statement has generators,
    /// and one which does not open the commitments or does not satisfy a
    /// row of the constraints, is refused before anything is drawn,
    /// committed to or written to the transcript. Else there are blinding
    /// scalars under which the proof and the transcript are those of the
    /// protocol; where a challenge is zero the protocol cannot go on, and
    /// nothing is returned.
    pub fn prove(
        self,
        rng: &mut rand_core::OsRng,
        transcript: &mut Transcript,
        witness: ArithmeticCircuitWitness,
    ) -> (r: Option<Result<ArithmeticCircuitProof, AcError>>)
        requires
            self@.provable(),
        ensures
            exists|b: crate::circuit::BlindsView|
                b.shaped(self@.n(), self@.c()) && #[trigger] proving(
                    self@,
                    witness@,
                    b,
                    old(transcript)@,
                    final(transcript)@,
                    outcome_view(r),
                ),
    {
        match self.assign(witness) {
            Err(e) => {
                proof {
                    let none = crate::circuit::BlindsView {
                        alpha: 0,
                        beta: 0,
                        rho: 0,
                        sL: crate::scalar_vector::zeros(self@.n()),
                        sR: crate::scalar_vector::zeros(self@.n()),
                        tau_before_ni: crate::scalar_vector::zeros(ni(self@.c())),
                        tau_after_ni: crate::scalar_vector::zeros(ni(self@.c()) + 2),
                    };
                    assert(none.shaped(self@.n(), self@.c()) && proving(
                        self@,
                        witness@,
                        none,
                        old(transcript)@,
                        transcript@,
                        outcome_view(Some(Err::<ArithmeticCircuitProof, AcError>(e))),
                    ));
                }
                Some(Err(e))
            },
            Ok(assignment) => {
                let mut assignment = assignment;
                let mut blinds = ProverBlinds::random(rng, self.n(), self.c());
                let ghost b = blinds@;
                let r = self.prove_assigned(&blinds, transcript, &assignment);
                assert(b.shaped(self@.n(), self@.c()) && proving(
                    self@,
                    witness@,
                    b,
                    old(transcript)@,
                    transcript@,
                    outcome_view(r),
                ));
                assignment.zeroize();
                blinds.zeroize();
                r
            },
        }
    }
}


/// The challenges a proof is weighed by, as the verifier holds them.
pub struct VerifierChallenges {
    pub y_inv: ScalarVector,
    pub z: ScalarVector,
    pub xs: ScalarVector,
    pub ip_x: Scalar,
    pub es: ScalarVector,
}

impl VerifierChallenges {
    /// What this stands for, as plain values.
    pub open spec fn view(&self) -> ChallengesView {
        ChallengesView {
            y_inv: self.y_inv@,
            z: self.z@,
            xs: self.xs@,
            ip_x: self.ip_x@,
            es: self.es@,
        }
    }
}

impl ArithmeticCircuitStatement {
    /// Adds the first check of a proof to the accumulator.
    fn first_check(
        &self,
        verifier: &mut BatchVerifier,
        proof: &ArithmeticCircuitProof,
        ch: &VerifierChallenges,
        weight: &Scalar,
    )
        requires
            self@.provable(),
            crate::circuit::shaped(self@, proof@),
            ch@.y_inv.len() == self@.n(),
            ch@.z.len() == self@.q(),
            ch@.xs.len() == 2 * ni(self@.c()) + 3,
        ensures
            final(verifier)@ == crate::circuit::first_check(
                self@,
                old(verifier)@,
                proof@,
                ch@,
                weight@,
            ),
    {
        let n = self.n();
        let m = self.m();
        let at = positions(self.c());
        proof {
            lemma_columns_below(self@.WL, self@.n());
            lemma_columns_below(self@.WR, self@.n());
        }
        let delta = self.WR.mul_vec(n, &ch.z).mul(&ch.y_inv).inner_product(
            &self.WL.mul_vec(n, &ch.z),
        );
        let constant = delta.add(&ch.z.inner_product(&self.c));
        verifier.g = verifier.g.add(&proof.t_caret.mul(weight));
        verifier.h = verifier.h.add(&proof.tau_x.mul(weight));
        verifier.g = verifier.g.sub(&weight.mul(&ch.xs.get(at.o)).mul(&constant));
        let v_weights = self.WV.mul_vec(m, &ch.z).scale(&ch.xs.get(at.o));
        let negated = weight.neg();
        verifier.push_weighted(&negated, &v_weights, 0, &self.V.0);
        verifier.push_weighted(&negated, &ch.xs, 0, &proof.T_before_ni);
        verifier.push_weighted(&negated, &ch.xs, at.s, &proof.T_after_ni);
    }

    /// Adds the point of a proof's inner-product argument to the
    /// accumulator.
    fn second_check(
        &self,
        verifier: &mut BatchVerifier,
        proof: &ArithmeticCircuitProof,
        ch: &VerifierChallenges,
        weight: &Scalar,
    )
        requires
            self@.provable(),
            old(verifier)@.fits(self@.n()),
            ch@.y_inv.len() == self@.n(),
            ch@.z.len() == self@.q(),
            ch@.xs.len() == 2 * ni(self@.c()) + 3,
        ensures
            final(verifier)@ == crate::circuit::second_check(
                self@,
                old(verifier)@,
                proof@,
                ch@,
                weight@,
            ),
            final(verifier)@.fits(self@.n()),
    {
        let n = self.n();
        let c = self.c();
        let at = positions(c);
        let ghost v = verifier@;
        proof {
            lemma_columns_below(self@.WL, self@.n());
            lemma_columns_below(self@.WR, self@.n());
            lemma_columns_below(self@.WO, self@.n());
        }
        verifier.push(weight.mul(&ch.xs.get(at.lr)), proof.AI);
        verifier.push(weight.mul(&ch.xs.get(at.o)), proof.AO);
        let log2_n = log2_of(n);
        let lowered = verifier.h_sum.get(log2_n).sub(weight);
        verifier.h_sum.set(log2_n, lowered);
        verifier.push(weight.mul(&ch.xs.get(at.s)), proof.S);
        verifier.push_weighted(weight, &ch.xs, 1, &self.C.0);
        let mut h_bold_scalars = ScalarVector::new(n).add(
            &self.WL.mul_vec(n, &ch.z).scale(&ch.xs.get(at.lr)),
        ).add(&self.WO.mul_vec(n, &ch.z));
        verifier.add_g_bold(
            weight,
            &self.WR.mul_vec(n, &ch.z).mul(&ch.y_inv).scale(&ch.xs.get(at.lr)),
        );
        proof {
            let goal = crate::circuit::second_check(self@, v, proof@, ch@, weight@);
            assert(verifier@.additional =~= goal.additional);
        }
        let mut k: usize = 0;
        while k < c
            invariant
                k <= c,
                c == self@.c(),
                n == self@.n(),
                at.o == o_index(c as nat),
                self@.provable(),
                v.fits(self@.n()),
                ch@.y_inv.len() == self@.n(),
                ch@.z.len() == self@.q(),
                ch@.xs.len() == 2 * ni(self@.c()) + 3,
                h_bold_scalars@ == h_scalars(self@, ch@, k as nat),
                h_bold_scalars@.len() == n,
                verifier@ == (BatchView {
                    g_bold: g_weights(self@, v.g_bold, ch@, weight@, k as nat),
                    h_sum: crate::circuit::second_check(self@, v, proof@, ch@, weight@).h_sum,
                    additional: crate::circuit::second_check(
                        self@,
                        v,
                        proof@,
                        ch@,
                        weight@,
                    ).additional,
                    ..v
                }),
                verifier@.g_bold.len() == v.g_bold.len(),
            decreases c - k,
        {
            let j = at.o - (k + 1);
            assert(matrices_view(self.WCL@)[k as int] == self.WCL@[k as int]@);
            assert(matrices_view(self.WCR@)[k as int] == self.WCR@[k as int]@);
            h_bold_scalars = h_bold_scalars.add(
                &self.WCL[k].mul_vec(n, &ch.z).scale(&ch.xs.get(j)),
            );
            verifier.add_g_bold(
                weight,
                &self.WCR[k].mul_vec(n, &ch.z).mul(&ch.y_inv).scale(&ch.xs.get(j)),
            );
            k += 1;
        }
        let h_bold_scalars = h_bold_scalars.mul(&ch.y_inv);
        verifier.add_h_bold(weight, &h_bold_scalars);
        verifier.h = verifier.h.sub(&weight.mul(&proof.u));
        verifier.g = verifier.g.add(&weight.mul(&ch.ip_x).mul(&proof.t_caret));
    }

    /// Verifies a proof under two given weights: draws the challenges from
    /// the transcript as the prover did, and adds the two checks and the
    /// inner-product argument to the accumulator. Where the proof is
    /// refused the accumulator is left as it was.
    ///
    /// Each challenge is first found on a copy of the transcript. Where it
    /// is zero the protocol cannot go on: nothing is returned, and the
    /// accumulator is left as it was.
    pub fn verify_with_weights(
        self,
        first: &Scalar,
        second: &Scalar,
        verifier: &mut BatchVerifier,
        transcript: &mut Transcript,
        proof: ArithmeticCircuitProof,
    ) -> (r: Option<Result<(), AcError>>)
        requires
            self@.provable(),
            old(verifier)@.fits(self@.n()),
        ensures
            verified(
                self@,
                proof@,
                old(transcript)@,
                final(transcript)@,
                old(verifier)@,
                final(verifier)@,
                first@,
                second@,
                r,
            ),
    {
        let at = positions(self.c());
        if proof.T_before_ni.len() != at.o {
            return Some(Err(AcError::IncorrectTBeforeNiLength));
        }
        if proof.T_after_ni.len() != at.o + 2 {
            return Some(Err(AcError::IncorrectTAfterNiLength));
        }
        let ghost w = walk(self@, proof@, old(transcript)@);
        let next = self.next_y_z(transcript, &proof.AI, &proof.AO, &proof.S);
        if next.0.is_zero() || next.1.is_zero() {
            return None;
        }
        let yz = self.initial_transcript(transcript, &proof.AI, &proof.AO, &proof.S);
        if ArithmeticCircuitStatement::next_x(
            transcript,
            &proof.T_before_ni,
            &proof.T_after_ni,
        ).is_zero() {
            return None;
        }
        let xs = ArithmeticCircuitStatement::transcript_Ts(
            transcript,
            &proof.T_before_ni,
            &proof.T_after_ni,
        );
        if ArithmeticCircuitStatement::next_ip_x(
            transcript,
            &proof.tau_x,
            &proof.u,
            &proof.t_caret,
        ).is_zero() {
            return None;
        }
        let ip_x = ArithmeticCircuitStatement::transcript_tau_x_u_t_caret(
            transcript,
            &proof.tau_x,
            &proof.u,
            &proof.t_caret,
        );
        let statement = match IpStatement::new_without_P_transcript(
            self.generators.clone(),
            yz.y_inv.copy(),
            ip_x,
            P::VerifierWithoutTranscript { verifier_weight: *second },
        ) {
            Ok(statement) => statement,
            Err(_) => vstd::pervasive::unreached(),
        };
        let ghost begin = crate::circuit::ip_begin(self@, w);
        assert(begin == statement@.start(transcript@));
        let rounds = match statement.challenges(transcript, &proof.ip) {
            None => {
                proof {
                    let j = choose|j: nat|
                        {
                            &&& j < proof@.ip.L.len()
                            &&& rounds_clear(begin, proof@.ip.L, proof@.ip.R, j)
                            &&& crate::inner_product::round_challenge(
                                begin,
                                proof@.ip.L,
                                proof@.ip.R,
                                j,
                            ) == 0
                            &&& transcript@ == rounds_transcript(begin, proof@.ip.L, proof@.ip.R, j)
                        };
                    assert(rounds_clear(begin, proof@.ip.L, proof@.ip.R, j));
                    assert(w.clear());
                }
                return None;
            },
            Some(Err(e)) => {
                return Some(Err(AcError::Ip(e)));
            },
            Some(Ok(rounds)) => rounds,
        };
        let ch = VerifierChallenges { y_inv: yz.y_inv, z: yz.z, xs, ip_x, es: rounds.es.copy() };
        self.first_check(verifier, &proof, &ch, first);
        self.second_check(verifier, &proof, &ch, second);
        statement.accumulate(second, verifier, &proof.ip, &rounds);
        Some(Ok(()))
    }

    /// Verifies a proof under two weights drawn from the operating
    /// system's generator; see [`Self::verify_with_weights`].
    pub fn verify(
        self,
        rng: &mut rand_core::OsRng,
        verifier: &mut BatchVerifier,
        transcript: &mut Transcript,
        proof: ArithmeticCircuitProof,
    ) -> (r: Option<Result<(), AcError>>)
        requires
            self@.provable(),
            old(verifier)@.fits(self@.n()),
        ensures
            exists|w1: nat, w2: nat| #[trigger]
                verified(
                    self@,
                    proof@,
                    old(transcript)@,
                    final(transcript)@,
                    old(verifier)@,
                    final(verifier)@,
                    w1,
                    w2,
                    r,
                ),
    {
        let first = Scalar::random(rng);
        let second = Scalar::random(rng);
        let ghost s = self@;
        let r = self.verify_with_weights(&first, &second, verifier, transcript, proof);
        assert(verified(
            s,
            proof@,
            old(transcript)@,
            transcript@,
            old(verifier)@,
            verifier@,
            first@,
            second@,
            r,
        ));
        r
    }
}

} // verus!
