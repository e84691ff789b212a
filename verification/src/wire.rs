//! How a proof is written as bytes: words of 32 bytes each, in a fixed
//! order.
//!
//! First the three commitments of the first round, `AI`, `AO` and `S`; then
//! the commitments to the coefficients of `t` below `n'`, then those above
//! it; then the scalars `tau_x`, `u` and `t_caret`; then the inner-product
//! argument: the two commitments of each round, and its two scalars. The
//! reader takes the number of vector commitments from the statement, and
//! the number of rounds from what is left.
use crate::arithmetic_circuit_proof::ArithmeticCircuitProof;
use crate::circuit::{ni, ProofView};
use crate::field::{le_bytes, le_nat, lemma_le_bytes_of_le_nat, order, Scalar};
use crate::group::{is_point, Point};
use crate::inner_product::IpProof;
use crate::point_vector::encodings;
use vstd::prelude::*;

verus! {

/// The number of words of a proof.
pub open spec fn word_count(p: ProofView) -> nat {
    p.T_before_ni.len() + p.T_after_ni.len() + 2 * p.ip.L.len() + 8
}

/// Word `k` of a proof.
#[verifier::opaque]
pub open spec fn proof_word(p: ProofView, k: int) -> Seq<u8> {
    let before = p.T_before_ni.len() as int;
    let after = p.T_after_ni.len() as int;
    let rounds = p.ip.L.len() as int;
    let scalars = 3 + before + after;
    let argument = scalars + 3;
    if k == 0 {
        p.AI
    } else if k == 1 {
        p.AO
    } else if k == 2 {
        p.S
    } else if k < 3 + before {
        p.T_before_ni[k - 3]
    } else if k < scalars {
        p.T_after_ni[k - 3 - before]
    } else if k == scalars {
        le_bytes(p.tau_x, 32)
    } else if k == scalars + 1 {
        le_bytes(p.u, 32)
    } else if k == scalars + 2 {
        le_bytes(p.t_caret, 32)
    } else if k < argument + 2 * rounds {
        if (k - argument) % 2 == 0 {
            p.ip.L[(k - argument) / 2]
        } else {
            p.ip.R[(k - argument) / 2]
        }
    } else if k == argument + 2 * rounds {
        le_bytes(p.ip.a, 32)
    } else {
        le_bytes(p.ip.b, 32)
    }
}

/// The words of a proof, in order.
pub open spec fn proof_words(p: ProofView) -> Seq<Seq<u8>> {
    Seq::new(word_count(p), |k: int| proof_word(p, k))
}

/// Words of 32 bytes each, one behind the other.
pub open spec fn flat(words: Seq<Seq<u8>>) -> Seq<u8> {
    Seq::new(32 * words.len(), |i: int| words[i / 32][i % 32])
}

/// The bytes of a proof.
pub open spec fn wire(p: ProofView) -> Seq<u8> {
    flat(proof_words(p))
}

/// Word `k` of a string of bytes.
pub open spec fn chunk(bytes: Seq<u8>, k: int) -> Seq<u8> {
    bytes.subrange(32 * k, 32 * k + 32)
}

/// Whether every point of a list is the encoding of a point.
pub open spec fn all_points(points: Seq<Seq<u8>>) -> bool {
    forall|i: int| 0 <= i < points.len() ==> is_point(#[trigger] points[i]) && points[i].len() == 32
}

/// Whether a proof holds encodings of points and scalars of the field, and
/// as many commitments as there are words for: those to the coefficients of
/// `t` which a statement with `c` vector commitments asks for, and two for
/// each round of the inner-product argument.
pub open spec fn well_formed(p: ProofView, c: nat) -> bool {
    &&& is_point(p.AI) && p.AI.len() == 32
    &&& is_point(p.AO) && p.AO.len() == 32
    &&& is_point(p.S) && p.S.len() == 32
    &&& all_points(p.T_before_ni)
    &&& all_points(p.T_after_ni)
    &&& all_points(p.ip.L)
    &&& all_points(p.ip.R)
    &&& p.tau_x < order()
    &&& p.u < order()
    &&& p.t_caret < order()
    &&& p.ip.a < order()
    &&& p.ip.b < order()
    &&& p.T_before_ni.len() == ni(c)
    &&& p.T_after_ni.len() == ni(c) + 2
    &&& p.ip.L.len() == p.ip.R.len()
}

/// The number of rounds of the inner-product argument which a proof of so
/// many bytes holds, for a statement with `c` vector commitments.
pub open spec fn rounds_in(len: nat, c: nat) -> int {
    (len as int / 32 - (2 * ni(c) + 10)) / 2
}

/// Whether a string of bytes is read as the proof of a statement with `c`
/// vector commitments: it is a whole number of words, as many as a proof
/// with some number of rounds has, and each word encodes what stands at its
/// position, a point or a scalar.
pub open spec fn parses(bytes: Seq<u8>, c: nat) -> bool {
    let scalars = 2 * ni(c) as int + 5;
    let argument = scalars + 3;
    let rounds = rounds_in(bytes.len(), c);
    &&& bytes.len() % 32 == 0
    &&& 4 * c + 14 <= usize::MAX
    &&& bytes.len() / 32 >= argument + 2
    &&& (bytes.len() / 32 - argument - 2) % 2 == 0
    &&& forall|k: int| 0 <= k < scalars ==> is_point(#[trigger] chunk(bytes, k))
    &&& le_nat(chunk(bytes, scalars)) < order()
    &&& le_nat(chunk(bytes, scalars + 1)) < order()
    &&& le_nat(chunk(bytes, scalars + 2)) < order()
    &&& forall|j: int| 0 <= j < rounds ==> is_point(#[trigger] chunk(bytes, argument + 2 * j))
    &&& forall|j: int| 0 <= j < rounds ==> is_point(#[trigger] chunk(bytes, argument + 1 + 2 * j))
    &&& le_nat(chunk(bytes, argument + 2 * rounds)) < order()
    &&& le_nat(chunk(bytes, argument + 2 * rounds + 1)) < order()
}

/// The proof of a statement with `c` vector commitments which a string of
/// bytes is read as: each commitment and each scalar from the word at its
/// position.
pub open spec fn parsed(bytes: Seq<u8>, c: nat) -> ProofView {
    let before = ni(c) as int;
    let scalars = 2 * before + 5;
    let argument = scalars + 3;
    let rounds = rounds_in(bytes.len(), c);
    ProofView {
        AI: chunk(bytes, 0),
        AO: chunk(bytes, 1),
        S: chunk(bytes, 2),
        T_before_ni: Seq::new(before as nat, |i: int| chunk(bytes, 3 + i)),
        T_after_ni: Seq::new((before + 2) as nat, |i: int| chunk(bytes, 3 + before + i)),
        tau_x: le_nat(chunk(bytes, scalars)),
        u: le_nat(chunk(bytes, scalars + 1)),
        t_caret: le_nat(chunk(bytes, scalars + 2)),
        ip: crate::inner_product::IpProofView {
            L: Seq::new(rounds as nat, |j: int| chunk(bytes, argument + 2 * j)),
            R: Seq::new(rounds as nat, |j: int| chunk(bytes, argument + 1 + 2 * j)),
            a: le_nat(chunk(bytes, argument + 2 * rounds)),
            b: le_nat(chunk(bytes, argument + 2 * rounds + 1)),
        },
    }
}

/// The bytes which spell an integer below `256^len` spell that integer.
pub proof fn lemma_le_nat_of_le_bytes(x: nat, len: nat)
    ensures
        le_bytes(x, len).len() == len,
        x < vstd::arithmetic::power::pow(256, len) ==> le_nat(le_bytes(x, len)) == x,
    decreases len,
{
    vstd::arithmetic::power::lemma_pow0(256);
    if len > 0 {
        lemma_le_nat_of_le_bytes(x / 256, (len - 1) as nat);
        let rest = le_bytes(x / 256, (len - 1) as nat);
        let all = le_bytes(x, len);
        assert(all.skip(1) =~= rest);
        vstd::arithmetic::power::lemma_pow1(256);
        vstd::arithmetic::power::lemma_pow_adds(256, 1, (len - 1) as nat);
        if x < vstd::arithmetic::power::pow(256, len) {
            let high = vstd::arithmetic::power::pow(256, (len - 1) as nat);
            assert(x / 256 < high) by (nonlinear_arith)
                requires
                    x < 256 * high,
            ;
        }
    }
}

/// Words of 32 bytes are found again where they were laid.
pub proof fn lemma_chunk_of_flat(words: Seq<Seq<u8>>, k: int)
    requires
        0 <= k < words.len(),
        words[k].len() == 32,
    ensures
        chunk(flat(words), k) == words[k],
{
    assert forall|j: int| 0 <= j < 32 implies chunk(flat(words), k)[j] == words[k][j] by {
        assert((32 * k + j) / 32 == k && (32 * k + j) % 32 == j) by (nonlinear_arith)
            requires
                0 <= j < 32,
        ;
    }
}

/// The word of a string of bytes at the position `k`.
fn word_at(bytes: &[u8], k: usize) -> (r: [u8; 32])
    requires
        32 * (k + 1) <= bytes@.len(),
    ensures
        r@ == chunk(bytes@, k as int),
{
    let total = bytes.len();
    let mut out = [0u8; 32];
    let mut j: usize = 0;
    while j < 32
        invariant
            j <= 32,
            32 * (k + 1) <= bytes@.len(),
            total == bytes@.len(),
            forall|i: int| 0 <= i < j ==> out@[i] == bytes@[32 * k + i],
        decreases 32 - j,
    {
        out[j] = bytes[32 * k + j];
        j += 1;
    }
    out
}

/// The point which the word at the position `k` encodes, if it encodes one.
fn point_at(bytes: &[u8], k: usize) -> (r: Option<Point>)
    requires
        32 * (k + 1) <= bytes@.len(),
    ensures
        r.is_some() == is_point(chunk(bytes@, k as int)),
        r matches Some(p) ==> p@ == chunk(bytes@, k as int),
{
    Point::from_bytes(word_at(bytes, k))
}

/// The scalar which the word at the position `k` encodes, if it encodes one.
fn scalar_at(bytes: &[u8], k: usize) -> (r: Option<Scalar>)
    requires
        32 * (k + 1) <= bytes@.len(),
    ensures
        r.is_some() == (le_nat(chunk(bytes@, k as int)) < order()),
        r matches Some(s) ==> s@ == le_nat(chunk(bytes@, k as int)),
{
    let word = word_at(bytes, k);
    proof {
        lemma_le_bytes_of_le_nat(word@);
    }
    Scalar::from_bytes(word)
}

/// The points which the `count` words from the position `from` encode, if
/// each encodes one.
fn points_at(bytes: &[u8], from: usize, count: usize) -> (r: Option<Vec<Point>>)
    requires
        32 * (from + count) <= bytes@.len(),
    ensures
        r.is_some() == (forall|k: int|
            from <= k < from + count ==> is_point(#[trigger] chunk(bytes@, k))),
        r matches Some(points) ==> encodings(points@) == Seq::new(
            count as nat,
            |i: int| chunk(bytes@, from + i),
        ),
{
    let total = bytes.len();
    let mut out: Vec<Point> = Vec::new();
    let mut i: usize = 0;
    while i < count
        invariant
            i <= count,
            32 * (from + count) <= bytes@.len(),
            total == bytes@.len(),
            out@.len() == i,
            forall|k: int| from <= k < from + i ==> is_point(#[trigger] chunk(bytes@, k)),
            forall|j: int| 0 <= j < i ==> (#[trigger] out@[j])@ == chunk(bytes@, from + j),
        decreases count - i,
    {
        match point_at(bytes, from + i) {
            None => {
                return None;
            },
            Some(point) => {
                out.push(point);
            },
        }
        i += 1;
    }
    Some(out)
}

/// The points which every second of the `2 * count` words from the
/// position `from` encodes, if each encodes one.
fn alternate_points_at(bytes: &[u8], from: usize, count: usize) -> (r: Option<Vec<Point>>)
    requires
        32 * (from + 2 * count) <= bytes@.len(),
    ensures
        r.is_some() == (forall|j: int|
            0 <= j < count ==> is_point(#[trigger] chunk(bytes@, from + 2 * j))),
        r matches Some(points) ==> encodings(points@) == Seq::new(
            count as nat,
            |j: int| chunk(bytes@, from + 2 * j),
        ),
{
    let total = bytes.len();
    let mut out: Vec<Point> = Vec::new();
    let mut i: usize = 0;
    while i < count
        invariant
            i <= count,
            32 * (from + 2 * count) <= bytes@.len(),
            total == bytes@.len(),
            out@.len() == i,
            forall|j: int| 0 <= j < i ==> is_point(#[trigger] chunk(bytes@, from + 2 * j)),
            forall|j: int| 0 <= j < i ==> (#[trigger] out@[j])@ == chunk(bytes@, from + 2 * j),
        decreases count - i,
    {
        match point_at(bytes, from + 2 * i) {
            None => {
                return None;
            },
            Some(point) => {
                out.push(point);
            },
        }
        i += 1;
    }
    Some(out)
}

/// Appends a word to a string of bytes.
fn push_word(out: &mut Vec<u8>, word: &[u8; 32])
    ensures
        final(out)@ == old(out)@ + word@,
{
    let mut j: usize = 0;
    while j < 32
        invariant
            j <= 32,
            out@ == old(out)@ + word@.take(j as int),
        decreases 32 - j,
    {
        out.push(word[j]);
        j += 1;
    }
}

/// The first `k` words of a proof, one behind the other.
pub open spec fn wire_prefix(p: ProofView, k: int) -> Seq<u8> {
    flat(proof_words(p)).take(32 * k)
}

/// Laying one more word behind the first `k` gives the first `k + 1`.
proof fn lemma_wire_step(p: ProofView, k: int, word: Seq<u8>)
    requires
        0 <= k < word_count(p),
        word == proof_word(p, k),
        word.len() == 32,
    ensures
        wire_prefix(p, k) + word == wire_prefix(p, k + 1),
{
    let all = flat(proof_words(p));
    assert forall|i: int| 0 <= i < 32 * (k + 1) implies (wire_prefix(p, k) + word)[i] == all[i] by {
        if i >= 32 * k {
            let j = i - 32 * k;
            assert((32 * k + j) / 32 == k && (32 * k + j) % 32 == j) by (nonlinear_arith)
                requires
                    0 <= j < 32,
            ;
        }
    }
}

impl ArithmeticCircuitProof {
    /// The proof as bytes.
    pub fn serialize(&self) -> (r: Vec<u8>)
        requires
            self@.ip.L.len() == self@.ip.R.len(),
            word_count(self@) <= usize::MAX,
        ensures
            r@ == wire(self@),
    {
        let ghost p = self@;
        let before = self.T_before_ni.len();
        let after = self.T_after_ni.len();
        let rounds = self.ip.L.len();
        let mut out: Vec<u8> = Vec::new();
        self.AI.bounded();
        self.AO.bounded();
        self.S.bounded();
        proof {
            lemma_fixed_words(p);
            lemma_wire_step(p, 0, self.AI@);
            lemma_wire_step(p, 1, self.AO@);
            lemma_wire_step(p, 2, self.S@);
        }
        push_word(&mut out, &self.AI.to_bytes());
        push_word(&mut out, &self.AO.to_bytes());
        push_word(&mut out, &self.S.to_bytes());
        let mut i: usize = 0;
        while i < before
            invariant
                i <= before,
                p == self@,
                before == p.T_before_ni.len(),
                word_count(p) <= usize::MAX,
                out@ == wire_prefix(p, 3 + i),
            decreases before - i,
        {
            self.T_before_ni[i].bounded();
            proof {
                lemma_listed_words(p, i as int);
                lemma_wire_step(p, 3 + i, self.T_before_ni@[i as int]@);
            }
            push_word(&mut out, &self.T_before_ni[i].to_bytes());
            i += 1;
        }
        let mut i: usize = 0;
        while i < after
            invariant
                i <= after,
                p == self@,
                before == p.T_before_ni.len(),
                after == p.T_after_ni.len(),
                word_count(p) <= usize::MAX,
                out@ == wire_prefix(p, 3 + before + i),
            decreases after - i,
        {
            self.T_after_ni[i].bounded();
            proof {
                lemma_listed_words(p, i as int);
                lemma_wire_step(p, 3 + before + i, self.T_after_ni@[i as int]@);
            }
            push_word(&mut out, &self.T_after_ni[i].to_bytes());
            i += 1;
        }
        let ghost scalars = 3 + before + after;
        proof {
            lemma_le_nat_of_le_bytes(p.tau_x, 32);
            lemma_le_nat_of_le_bytes(p.u, 32);
            lemma_le_nat_of_le_bytes(p.t_caret, 32);
            lemma_le_nat_of_le_bytes(p.ip.a, 32);
            lemma_le_nat_of_le_bytes(p.ip.b, 32);
            lemma_wire_step(p, scalars, le_bytes(p.tau_x, 32));
            lemma_wire_step(p, scalars + 1, le_bytes(p.u, 32));
            lemma_wire_step(p, scalars + 2, le_bytes(p.t_caret, 32));
        }
        push_word(&mut out, &self.tau_x.to_bytes());
        push_word(&mut out, &self.u.to_bytes());
        push_word(&mut out, &self.t_caret.to_bytes());
        let ghost argument = scalars + 3;
        let mut j: usize = 0;
        while j < rounds
            invariant
                j <= rounds,
                p == self@,
                rounds == p.ip.L.len(),
                rounds == p.ip.R.len(),
                argument == 6 + p.T_before_ni.len() + p.T_after_ni.len(),
                word_count(p) <= usize::MAX,
                out@ == wire_prefix(p, argument + 2 * j),
            decreases rounds - j,
        {
            self.ip.L[j].bounded();
            self.ip.R[j].bounded();
            proof {
                lemma_listed_words(p, j as int);
                lemma_wire_step(p, argument + 2 * j, self.ip.L@[j as int]@);
                lemma_wire_step(p, argument + 2 * j + 1, self.ip.R@[j as int]@);
            }
            push_word(&mut out, &self.ip.L[j].to_bytes());
            push_word(&mut out, &self.ip.R[j].to_bytes());
            j += 1;
        }
        proof {
            lemma_wire_step(p, argument + 2 * rounds, le_bytes(p.ip.a, 32));
            lemma_wire_step(p, argument + 2 * rounds + 1, le_bytes(p.ip.b, 32));
        }
        push_word(&mut out, &self.ip.a.to_bytes());
        push_word(&mut out, &self.ip.b.to_bytes());
        out
    }

    /// Reads the proof of a statement with `c` vector commitments from its
    /// bytes: each commitment and each scalar from the word at its
    /// position. There is none where the bytes are not as many words as
    /// such a proof has, or where a word does not encode what stands at its
    /// position.
    pub fn read(bytes: &[u8], c: usize) -> (r: Option<ArithmeticCircuitProof>)
        ensures
            r.is_some() == parses(bytes@, c as nat),
            r matches Some(proof) ==> proof@ == parsed(bytes@, c as nat),
    {
        let length = bytes.len();
        // Eight words, four commitments for each vector commitment and six beside
        if length % 32 != 0 || c > (usize::MAX - 14) / 4 {
            return None;
        }
        let words = length / 32;
        let before = 2 * (c + 1);
        let after = before + 2;
        let scalars = 3 + before + after;
        let argument = scalars + 3;
        if words < argument + 2 || (words - argument - 2) % 2 != 0 {
            return None;
        }
        let rounds = (words - argument - 2) / 2;
        let ai = point_at(bytes, 0);
        let ao = point_at(bytes, 1);
        let s = point_at(bytes, 2);
        let t_before = points_at(bytes, 3, before);
        let t_after = points_at(bytes, 3 + before, after);
        let tau_x = scalar_at(bytes, scalars);
        let u = scalar_at(bytes, scalars + 1);
        let t_caret = scalar_at(bytes, scalars + 2);
        let ls = alternate_points_at(bytes, argument, rounds);
        let rs = alternate_points_at(bytes, argument + 1, rounds);
        let a = scalar_at(bytes, argument + 2 * rounds);
        let b = scalar_at(bytes, argument + 2 * rounds + 1);
        match (ai, ao, s, t_before, t_after, tau_x, u, t_caret, ls, rs, a, b) {
            (
                Some(ai),
                Some(ao),
                Some(s),
                Some(t_before),
                Some(t_after),
                Some(tau_x),
                Some(u),
                Some(t_caret),
                Some(ls),
                Some(rs),
                Some(a),
                Some(b),
            ) => Some(
                ArithmeticCircuitProof {
                    AI: ai,
                    AO: ao,
                    S: s,
                    T_before_ni: t_before,
                    T_after_ni: t_after,
                    tau_x,
                    u,
                    t_caret,
                    ip: IpProof { L: ls, R: rs, a, b },
                },
            ),
            _ => None,
        }
    }
}

/// The words of a proof which stand at fixed positions.
proof fn lemma_fixed_words(p: ProofView)
    ensures
        proof_word(p, 0) == p.AI,
        proof_word(p, 1) == p.AO,
        proof_word(p, 2) == p.S,
        proof_word(p, 3int + p.T_before_ni.len() + p.T_after_ni.len()) == le_bytes(p.tau_x, 32),
        proof_word(p, 4int + p.T_before_ni.len() + p.T_after_ni.len()) == le_bytes(p.u, 32),
        proof_word(p, 5int + p.T_before_ni.len() + p.T_after_ni.len()) == le_bytes(p.t_caret, 32),
        proof_word(p, 6int + p.T_before_ni.len() + p.T_after_ni.len() + 2 * p.ip.L.len())
            == le_bytes(p.ip.a, 32),
        proof_word(p, 7int + p.T_before_ni.len() + p.T_after_ni.len() + 2 * p.ip.L.len())
            == le_bytes(p.ip.b, 32),
{
    reveal(proof_word);
}

/// The words of a proof which hold its lists of commitments.
proof fn lemma_listed_words(p: ProofView, i: int)
    ensures
        0 <= i < p.T_before_ni.len() ==> proof_word(p, 3 + i) == p.T_before_ni[i],
        0 <= i < p.T_after_ni.len() ==> proof_word(p, 3 + p.T_before_ni.len() + i)
            == p.T_after_ni[i],
        0 <= i < p.ip.L.len() ==> proof_word(
            p,
            6 + p.T_before_ni.len() + p.T_after_ni.len() + 2 * i,
        ) == p.ip.L[i],
        0 <= i < p.ip.L.len() ==> proof_word(
            p,
            7 + p.T_before_ni.len() + p.T_after_ni.len() + 2 * i,
        ) == p.ip.R[i],
{
    reveal(proof_word);
    let argument = 6 + p.T_before_ni.len() + p.T_after_ni.len();
    assert((argument + 2 * i + 1 - argument) % 2 == 1 && (argument + 2 * i + 1 - argument) / 2
        == i);
}

/// Each word of a proof which holds encodings has 32 bytes.
proof fn lemma_word_len(p: ProofView, c: nat, k: int)
    requires
        well_formed(p, c),
        0 <= k < word_count(p),
    ensures
        proof_word(p, k).len() == 32,
{
    reveal(proof_word);
    lemma_le_nat_of_le_bytes(p.tau_x, 32);
    lemma_le_nat_of_le_bytes(p.u, 32);
    lemma_le_nat_of_le_bytes(p.t_caret, 32);
    lemma_le_nat_of_le_bytes(p.ip.a, 32);
    lemma_le_nat_of_le_bytes(p.ip.b, 32);
}

/// Word `k` of the bytes of a proof is word `k` of the proof.
proof fn lemma_word_of_wire(p: ProofView, c: nat, k: int)
    requires
        well_formed(p, c),
        0 <= k < word_count(p),
    ensures
        chunk(wire(p), k) == proof_word(p, k),
{
    lemma_word_len(p, c, k);
    lemma_chunk_of_flat(proof_words(p), k);
}

/// The bytes which a proof is written as are read.
proof fn lemma_wire_parses(p: ProofView, c: nat)
    requires
        well_formed(p, c),
        4 * c + 14 <= usize::MAX,
    ensures
        parses(wire(p), c),
        rounds_in(wire(p).len(), c) == p.ip.L.len(),
{
    let bytes = wire(p);
    lemma_le_nat_of_le_bytes(p.tau_x, 32);
    lemma_le_nat_of_le_bytes(p.u, 32);
    lemma_le_nat_of_le_bytes(p.t_caret, 32);
    lemma_le_nat_of_le_bytes(p.ip.a, 32);
    lemma_le_nat_of_le_bytes(p.ip.b, 32);
    lemma_pow_256_32();
    lemma_fixed_words(p);
    let before = ni(c) as int;
    let scalars = 2 * before + 5;
    let argument = scalars + 3;
    let rounds = p.ip.L.len() as int;
    assert forall|j: int| 0 <= j < rounds implies is_point(
        #[trigger] chunk(bytes, argument + 2 * j),
    ) by {
        lemma_word_of_wire(p, c, argument + 2 * j);
        lemma_listed_words(p, j);
    }
    assert forall|j: int| 0 <= j < rounds implies is_point(
        #[trigger] chunk(bytes, argument + 1 + 2 * j),
    ) by {
        lemma_word_of_wire(p, c, argument + 1 + 2 * j);
        lemma_listed_words(p, j);
    }
    assert forall|k: int| 0 <= k < scalars implies is_point(#[trigger] chunk(bytes, k)) by {
        lemma_word_of_wire(p, c, k);
        if 3 <= k < 3 + before {
            lemma_listed_words(p, k - 3);
        } else if 3 + before <= k {
            lemma_listed_words(p, k - 3 - before);
        }
    }
    lemma_word_of_wire(p, c, scalars);
    lemma_word_of_wire(p, c, scalars + 1);
    lemma_word_of_wire(p, c, scalars + 2);
    lemma_word_of_wire(p, c, argument + 2 * rounds);
    lemma_word_of_wire(p, c, argument + 2 * rounds + 1);
}

/// The bytes which a proof is written as are read as that proof.
proof fn lemma_wire_parsed(p: ProofView, c: nat)
    requires
        well_formed(p, c),
        rounds_in(wire(p).len(), c) == p.ip.L.len(),
    ensures
        parsed(wire(p), c) == p,
{
    let bytes = wire(p);
    lemma_le_nat_of_le_bytes(p.tau_x, 32);
    lemma_le_nat_of_le_bytes(p.u, 32);
    lemma_le_nat_of_le_bytes(p.t_caret, 32);
    lemma_le_nat_of_le_bytes(p.ip.a, 32);
    lemma_le_nat_of_le_bytes(p.ip.b, 32);
    lemma_pow_256_32();
    lemma_fixed_words(p);
    let before = ni(c) as int;
    let scalars = 2 * before + 5;
    let argument = scalars + 3;
    let rounds = p.ip.L.len() as int;
    let q = parsed(bytes, c);
    lemma_word_of_wire(p, c, 0);
    lemma_word_of_wire(p, c, 1);
    lemma_word_of_wire(p, c, 2);
    assert forall|i: int| 0 <= i < before implies q.T_before_ni[i] == p.T_before_ni[i] by {
        lemma_word_of_wire(p, c, 3 + i);
        lemma_listed_words(p, i);
    }
    assert(q.T_before_ni =~= p.T_before_ni);
    assert forall|i: int| 0 <= i < before + 2 implies q.T_after_ni[i] == p.T_after_ni[i] by {
        lemma_word_of_wire(p, c, 3 + before + i);
        lemma_listed_words(p, i);
    }
    assert(q.T_after_ni =~= p.T_after_ni);
    lemma_word_of_wire(p, c, scalars);
    lemma_word_of_wire(p, c, scalars + 1);
    lemma_word_of_wire(p, c, scalars + 2);
    assert forall|j: int| 0 <= j < rounds implies q.ip.L[j] == p.ip.L[j] by {
        lemma_word_of_wire(p, c, argument + 2 * j);
        lemma_listed_words(p, j);
    }
    assert(q.ip.L =~= p.ip.L);
    assert forall|j: int| 0 <= j < rounds implies q.ip.R[j] == p.ip.R[j] by {
        lemma_word_of_wire(p, c, argument + 1 + 2 * j);
        lemma_listed_words(p, j);
    }
    assert(q.ip.R =~= p.ip.R);
    lemma_word_of_wire(p, c, argument + 2 * rounds);
    lemma_word_of_wire(p, c, argument + 2 * rounds + 1);
}

/// What is read from the bytes of a proof is that proof: the bytes which a
/// proof is written as are read, and read as the proof which was written.
pub proof fn law_read_inverts_serialize(p: ProofView, c: nat)
    requires
        well_formed(p, c),
        4 * c + 14 <= usize::MAX,
    ensures
        parses(wire(p), c),
        parsed(wire(p), c) == p,
{
    lemma_wire_parses(p, c);
    lemma_wire_parsed(p, c);
}

/// What was read holds encodings of points and of scalars, and as many
/// commitments as the statement asks for.
proof fn lemma_parsed_well_formed(bytes: Seq<u8>, c: nat)
    requires
        parses(bytes, c),
    ensures
        well_formed(parsed(bytes, c), c),
{
    let p = parsed(bytes, c);
    let before = ni(c) as int;
    assert forall|i: int| 0 <= i < before implies is_point(#[trigger] p.T_before_ni[i]) by {
    }
    assert forall|i: int| 0 <= i < before + 2 implies is_point(#[trigger] p.T_after_ni[i]) by {
    }
}

/// Each word of what was read is the word of the bytes at its position.
proof fn lemma_parsed_word(bytes: Seq<u8>, c: nat, k: int)
    requires
        parses(bytes, c),
        0 <= k < bytes.len() / 32,
    ensures
        proof_word(parsed(bytes, c), k) == chunk(bytes, k),
{
    let p = parsed(bytes, c);
    let before = ni(c) as int;
    let scalars = 2 * before + 5;
    let argument = scalars + 3;
    let rounds = rounds_in(bytes.len(), c);
    lemma_le_bytes_of_le_nat(chunk(bytes, scalars));
    lemma_le_bytes_of_le_nat(chunk(bytes, scalars + 1));
    lemma_le_bytes_of_le_nat(chunk(bytes, scalars + 2));
    lemma_le_bytes_of_le_nat(chunk(bytes, argument + 2 * rounds));
    lemma_le_bytes_of_le_nat(chunk(bytes, argument + 2 * rounds + 1));
    lemma_fixed_words(p);
    if 3 <= k < 3 + before {
        lemma_listed_words(p, k - 3);
    } else if 3 + before <= k < scalars {
        lemma_listed_words(p, k - 3 - before);
    } else if argument <= k < argument + 2 * rounds {
        let j = (k - argument) / 2;
        lemma_listed_words(p, j);
    }
}

/// What is written of a proof which was read is what it was read from,
/// and what was read holds encodings of points and of scalars, and as many
/// commitments as the statement asks for.
pub proof fn law_serialize_inverts_read(bytes: Seq<u8>, c: nat)
    requires
        parses(bytes, c),
    ensures
        well_formed(parsed(bytes, c), c),
        wire(parsed(bytes, c)) == bytes,
{
    let p = parsed(bytes, c);
    lemma_parsed_well_formed(bytes, c);
    assert forall|i: int| 0 <= i < bytes.len() implies wire(p)[i] == bytes[i] by {
        let k = i / 32;
        lemma_parsed_word(bytes, c, k);
    }
}

/// The order is below `256^32`.
proof fn lemma_pow_256_32()
    ensures
        order() < vstd::arithmetic::power::pow(256, 32),
{
    use_power_lemmas();
}

/// `256^32` is sixteen times `2^252`, and `2^128` lies below `2^252`.
proof fn use_power_lemmas()
    ensures
        vstd::arithmetic::power::pow(256, 32) == 16 * vstd::arithmetic::power2::pow2(252),
        vstd::arithmetic::power2::pow2(128) == 0x1_0000_0000_0000_0000_0000_0000_0000_0000,
        vstd::arithmetic::power2::pow2(128) < vstd::arithmetic::power2::pow2(252),
{
    vstd::arithmetic::power2::lemma2_to64();
    vstd::arithmetic::power2::lemma_pow2(8);
    vstd::arithmetic::power2::lemma_pow2(256);
    vstd::arithmetic::power::lemma_pow_multiplies(2, 8, 32);
    vstd::arithmetic::power2::lemma_pow2_adds(252, 4);
    vstd::arithmetic::power2::lemma_pow2_adds(64, 64);
    vstd::arithmetic::power2::lemma_pow2_strictly_increases(128, 252);
}

} // verus!
