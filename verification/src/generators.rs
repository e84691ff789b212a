//! The generators proofs are made on, and the accumulator which checks many
//! proofs with one multiexponentiation.
use crate::field::{field_add, field_mul, Scalar};
use crate::group::{msm, multiexp_vartime, pairs_view, Point};
use crate::point_vector::{encodings, point_sum, push_pairs, wrote_points, zip};
use crate::scalar_vector::{values, vec_add, zeros, ScalarVector};
use crate::transcript::{Transcript, TranscriptView};
use vstd::prelude::*;

verus! {

/// Two to the power `k`.
pub open spec fn two_pow(k: nat) -> nat
    decreases k,
{
    if k == 0 {
        1
    } else {
        2 * two_pow((k - 1) as nat)
    }
}

/// The number of times `n` can be halved before it reaches one.
pub open spec fn log2(n: nat) -> nat
    decreases n,
{
    if n <= 1 {
        0
    } else {
        1 + log2(n / 2)
    }
}

/// Whether `n` is a power of two.
pub open spec fn is_pow2(n: nat) -> bool {
    n >= 1 && two_pow(log2(n)) == n
}

/// The least power of two which is no less than `n`.
pub open spec fn padded_len(n: nat) -> nat {
    if n <= 1 {
        1
    } else if is_pow2(n) {
        n
    } else {
        2 * two_pow(log2(n))
    }
}

/// A power of two is halved as often as its exponent says.
pub proof fn lemma_log2_two_pow(k: nat)
    ensures
        two_pow(k) >= 1,
        log2(two_pow(k)) == k,
    decreases k,
{
    if k > 0 {
        lemma_log2_two_pow((k - 1) as nat);
    }
}

/// A number lies between the power of two it is halved down from and the next.
pub proof fn lemma_two_pow_bounds(n: nat)
    requires
        n >= 1,
    ensures
        two_pow(log2(n)) <= n < 2 * two_pow(log2(n)),
    decreases n,
{
    if n > 1 {
        lemma_two_pow_bounds(n / 2);
    }
}

/// A higher power of two is no less.
pub proof fn lemma_two_pow_increases(a: nat, b: nat)
    requires
        a <= b,
    ensures
        two_pow(a) <= two_pow(b),
    decreases b,
{
    if a < b {
        lemma_two_pow_increases(a, (b - 1) as nat);
    }
}

/// A power of two above one is twice a power of two.
pub proof fn lemma_pow2_halves(n: nat)
    requires
        is_pow2(n),
        n > 1,
    ensures
        n % 2 == 0,
        is_pow2(n / 2),
        log2(n) == log2(n / 2) + 1,
{
}

/// The digest which binds a set of generators into a transcript.
pub open spec fn generators_digest(
    g: Seq<u8>,
    h: Seq<u8>,
    g_bold: Seq<Seq<u8>>,
    h_bold: Seq<Seq<u8>>,
) -> Seq<u8> {
    let start = TranscriptView::named("generators"@);
    let named = start.message("g"@, g).message("h"@, h);
    wrote_points(wrote_points(named, "g_bold"@, g_bold), "h_bold"@, h_bold).challenge("summary"@)
}

/// For each power of two up to the number of generators, the sum of that
/// many of the first of `h_bold`.
pub open spec fn h_sums(h_bold: Seq<Seq<u8>>) -> Seq<Seq<u8>> {
    Seq::new(log2(h_bold.len()) + 1, |k: int| point_sum(h_bold, two_pow(k as nat)))
}

/// A set of generators as plain values.
pub struct GeneratorsView {
    pub g: Seq<u8>,
    pub h: Seq<u8>,
    pub g_bold: Seq<Seq<u8>>,
    pub h_bold: Seq<Seq<u8>>,
    pub transcript: Seq<u8>,
}

impl GeneratorsView {
    /// The number of generators in each of the two vectors.
    pub open spec fn len(self) -> nat {
        self.g_bold.len()
    }

    /// What holds of every set of generators.
    pub open spec fn wf(self) -> bool {
        &&& self.g_bold.len() == self.h_bold.len()
        &&& is_pow2(self.g_bold.len())
        &&& self.g_bold.len() <= u32::MAX
        &&& self.transcript.len() == 64
    }

    /// The first `n` generators of each vector, under the same digest.
    pub open spec fn reduced(self, n: nat) -> GeneratorsView {
        GeneratorsView {
            g: self.g,
            h: self.h,
            g_bold: self.g_bold.take(n as int),
            h_bold: self.h_bold.take(n as int),
            transcript: self.transcript,
        }
    }
}

/// Why a set of generators was refused.
#[derive(Clone, Copy, Debug, PartialEq, Eq)]
pub enum GeneratorsError {
    /// There was no generator.
    GBoldEmpty,
    /// The two vectors of generators differed in length.
    DifferingGhBoldLengths,
    /// The number of generators was no power of two.
    NotPowerOfTwo,
    /// The number of generators did not fit in 32 bits.
    TooManyGenerators,
}

/// An accumulator for the checks of many proofs: a weight for each
/// generator, for each sum of the first of `h_bold`, and for each other
/// point that a proof brought.
#[derive(Clone, Debug, PartialEq, Eq)]
pub struct BatchVerifier {
    pub g: Scalar,
    pub h: Scalar,
    pub g_bold: ScalarVector,
    pub h_bold: ScalarVector,
    pub h_sum: ScalarVector,
    pub additional: Vec<(Scalar, Point)>,
}

/// An accumulator as plain values.
pub struct BatchView {
    pub g: nat,
    pub h: nat,
    pub g_bold: Seq<nat>,
    pub h_bold: Seq<nat>,
    pub h_sum: Seq<nat>,
    pub additional: Seq<(nat, Seq<u8>)>,
}

impl BatchView {
    /// Whether the accumulator has a weight for each of `n` generators, and
    /// for the sum of the first `n` of `h_bold`.
    pub open spec fn fits(self, n: nat) -> bool {
        &&& n <= self.g_bold.len()
        &&& n <= self.h_bold.len()
        &&& log2(n) < self.h_sum.len()
    }

    /// The accumulator with one more weighted point.
    pub open spec fn with_point(self, weight: nat, point: Seq<u8>) -> BatchView {
        BatchView { additional: self.additional.push((weight, point)), ..self }
    }

    /// The accumulator of the same size which holds nothing: every weight
    /// is zero.
    pub open spec fn emptied(self) -> BatchView {
        BatchView {
            g: 0,
            h: 0,
            g_bold: zeros(self.g_bold.len()),
            h_bold: zeros(self.h_bold.len()),
            h_sum: zeros(self.h_sum.len()),
            additional: Seq::empty(),
        }
    }

    /// Whether every weight on a generator is an element of the field.
    pub open spec fn canonical(self) -> bool {
        &&& self.g < crate::field::order()
        &&& self.h < crate::field::order()
        &&& forall|i: int| 0 <= i < self.g_bold.len() ==> self.g_bold[i] < crate::field::order()
        &&& forall|i: int| 0 <= i < self.h_bold.len() ==> self.h_bold[i] < crate::field::order()
        &&& forall|i: int| 0 <= i < self.h_sum.len() ==> self.h_sum[i] < crate::field::order()
    }

    /// The sum of two accumulators of one size, weight by weight.
    pub open spec fn merged(self, other: BatchView) -> BatchView {
        BatchView {
            g: field_add(self.g, other.g),
            h: field_add(self.h, other.h),
            g_bold: vec_add(self.g_bold, other.g_bold),
            h_bold: vec_add(self.h_bold, other.h_bold),
            h_sum: vec_add(self.h_sum, other.h_sum),
            additional: self.additional + other.additional,
        }
    }
}

/// Each point under the product of `w` and the scalar at its position,
/// counted from `from`.
pub open spec fn weighted(w: nat, scalars: Seq<nat>, from: int, points: Seq<Seq<u8>>) -> Seq<
    (nat, Seq<u8>),
> {
    Seq::new(points.len(), |i: int| (field_mul(w, scalars[from + i]), points[i]))
}

/// The weights `acc` with, at each position `scalars` reaches, the product
/// of `w` and the scalar there added.
pub open spec fn added(acc: Seq<nat>, w: nat, scalars: Seq<nat>) -> Seq<nat> {
    Seq::new(
        acc.len(),
        |i: int|
            if i < scalars.len() {
                field_add(acc[i], field_mul(w, scalars[i]))
            } else {
                acc[i]
            },
    )
}

impl BatchVerifier {
    /// What this stands for, as plain values.
    pub open spec fn view(&self) -> BatchView {
        BatchView {
            g: self.g@,
            h: self.h@,
            g_bold: self.g_bold@,
            h_bold: self.h_bold@,
            h_sum: self.h_sum@,
            additional: pairs_view(self.additional@),
        }
    }

    /// What holds of every accumulator: each weight on a generator is an
    /// element of the field.
    pub fn bounded(&self)
        ensures
            self@.canonical(),
    {
        self.g.bounded();
        self.h.bounded();
        self.g_bold.bounded();
        self.h_bold.bounded();
        self.h_sum.bounded();
    }

    /// Whether the accumulator has a weight for each of `n` generators,
    /// and for the sum of the first `n` of `h_bold`.
    pub fn fits(&self, n: usize) -> (r: bool)
        ensures
            r == self@.fits(n as nat),
    {
        n <= self.g_bold.len() && n <= self.h_bold.len() && log2_of(n) < self.h_sum.len()
    }

    /// Adds a weighted point to the accumulator.
    pub fn push(&mut self, weight: Scalar, point: Point)
        ensures
            final(self)@ == old(self)@.with_point(weight@, point@),
    {
        self.additional.push((weight, point));
        assert(pairs_view(self.additional@) =~= pairs_view(old(self).additional@).push(
            (weight@, point@),
        ));
    }

    /// Adds each point under the product of the weight and the scalar at
    /// its position, counted from `from`.
    pub fn push_weighted(
        &mut self,
        weight: &Scalar,
        scalars: &ScalarVector,
        from: usize,
        points: &Vec<Point>,
    )
        requires
            from + points@.len() <= scalars@.len(),
        ensures
            final(self)@ == (BatchView {
                additional: old(self)@.additional + weighted(
                    weight@,
                    scalars@,
                    from as int,
                    encodings(points@),
                ),
                ..old(self)@
            }),
    {
        let ghost before = self@.additional;
        let ghost all = weighted(weight@, scalars@, from as int, encodings(points@));
        let total = scalars.len();
        let mut i: usize = 0;
        while i < points.len()
            invariant
                i <= points@.len(),
                from + points@.len() <= scalars@.len(),
                total == scalars@.len(),
                all == weighted(weight@, scalars@, from as int, encodings(points@)),
                self@.additional == before + all.take(i as int),
                self.g == old(self).g,
                self.h == old(self).h,
                self.g_bold == old(self).g_bold,
                self.h_bold == old(self).h_bold,
                self.h_sum == old(self).h_sum,
            decreases points@.len() - i,
        {
            let ghost prev = self@.additional;
            let scalar = weight.mul(&scalars.get(from + i));
            self.additional.push((scalar, points[i]));
            assert(self@.additional =~= prev.push(all[i as int]));
            i += 1;
        }
        assert(all.take(points@.len() as int) =~= all);
    }

    /// Adds to the weight of each generator of `g_bold` which `scalars`
    /// reaches the product of the weight and the scalar.
    pub fn add_g_bold(&mut self, weight: &Scalar, scalars: &ScalarVector)
        requires
            scalars@.len() <= old(self)@.g_bold.len(),
        ensures
            final(self)@ == (BatchView {
                g_bold: added(old(self)@.g_bold, weight@, scalars@),
                ..old(self)@
            }),
    {
        let mut i: usize = 0;
        while i < scalars.len()
            invariant
                i <= scalars@.len(),
                scalars@.len() <= self@.g_bold.len(),
                self@.g_bold.len() == old(self)@.g_bold.len(),
                self.g == old(self).g,
                self.h == old(self).h,
                self.h_bold == old(self).h_bold,
                self.h_sum == old(self).h_sum,
                self.additional == old(self).additional,
                forall|k: int|
                    0 <= k < self@.g_bold.len() ==> self@.g_bold[k] == if k < i {
                        field_add(old(self)@.g_bold[k], field_mul(weight@, scalars@[k]))
                    } else {
                        old(self)@.g_bold[k]
                    },
            decreases scalars@.len() - i,
        {
            let next = self.g_bold.get(i).add(&weight.mul(&scalars.get(i)));
            self.g_bold.set(i, next);
            i += 1;
        }
        assert(self@.g_bold =~= added(old(self)@.g_bold, weight@, scalars@));
    }

    /// Adds to the weight of each generator of `h_bold` which `scalars`
    /// reaches the product of the weight and the scalar.
    pub fn add_h_bold(&mut self, weight: &Scalar, scalars: &ScalarVector)
        requires
            scalars@.len() <= old(self)@.h_bold.len(),
        ensures
            final(self)@ == (BatchView {
                h_bold: added(old(self)@.h_bold, weight@, scalars@),
                ..old(self)@
            }),
    {
        let mut i: usize = 0;
        while i < scalars.len()
            invariant
                i <= scalars@.len(),
                scalars@.len() <= self@.h_bold.len(),
                self@.h_bold.len() == old(self)@.h_bold.len(),
                self.g == old(self).g,
                self.h == old(self).h,
                self.g_bold == old(self).g_bold,
                self.h_sum == old(self).h_sum,
                self.additional == old(self).additional,
                forall|k: int|
                    0 <= k < self@.h_bold.len() ==> self@.h_bold[k] == if k < i {
                        field_add(old(self)@.h_bold[k], field_mul(weight@, scalars@[k]))
                    } else {
                        old(self)@.h_bold[k]
                    },
            decreases scalars@.len() - i,
        {
            let next = self.h_bold.get(i).add(&weight.mul(&scalars.get(i)));
            self.h_bold.set(i, next);
            i += 1;
        }
        assert(self@.h_bold =~= added(old(self)@.h_bold, weight@, scalars@));
    }

    /// Adds another accumulator of the same size to this one, weight by
    /// weight.
    pub fn merge(&mut self, other: &BatchVerifier)
        requires
            old(self)@.g_bold.len() == other@.g_bold.len(),
            old(self)@.h_bold.len() == other@.h_bold.len(),
            old(self)@.h_sum.len() == other@.h_sum.len(),
        ensures
            final(self)@ == old(self)@.merged(other@),
    {
        self.g = self.g.add(&other.g);
        self.h = self.h.add(&other.h);
        self.g_bold = self.g_bold.add(&other.g_bold);
        self.h_bold = self.h_bold.add(&other.h_bold);
        self.h_sum = self.h_sum.add(&other.h_sum);
        let ghost before = pairs_view(self.additional@);
        let mut i: usize = 0;
        while i < other.additional.len()
            invariant
                i <= other.additional@.len(),
                pairs_view(self.additional@) == before + pairs_view(other.additional@).take(
                    i as int,
                ),
                self.g == self.g,
                self.g@ == field_add(old(self).g@, other.g@),
                self.h@ == field_add(old(self).h@, other.h@),
                self.g_bold@ == vec_add(old(self).g_bold@, other.g_bold@),
                self.h_bold@ == vec_add(old(self).h_bold@, other.h_bold@),
                self.h_sum@ == vec_add(old(self).h_sum@, other.h_sum@),
            decreases other.additional@.len() - i,
        {
            let ghost prev = pairs_view(self.additional@);
            self.additional.push(other.additional[i]);
            assert(pairs_view(self.additional@) =~= prev.push(
                pairs_view(other.additional@)[i as int],
            ));
            assert(pairs_view(other.additional@).take(i + 1) =~= pairs_view(
                other.additional@,
            ).take(i as int).push(pairs_view(other.additional@)[i as int]));
            assert(pairs_view(self.additional@) =~= before + pairs_view(other.additional@).take(
                i + 1,
            ));
            i += 1;
        }
        assert(pairs_view(other.additional@).take(other.additional@.len() as int) =~= pairs_view(
            other.additional@,
        ));
    }
}

/// The weighted points an accumulator stands for, on a set of generators.
pub open spec fn batch_terms(gens: GeneratorsView, v: BatchView) -> Seq<(nat, Seq<u8>)> {
    seq![(v.g, gens.g), (v.h, gens.h)] + zip(v.g_bold, gens.g_bold) + zip(v.h_bold, gens.h_bold)
        + zip(v.h_sum, h_sums(gens.h_bold)) + v.additional
}

/// Whether an accumulator has exactly one weight for each generator and sum.
pub open spec fn batch_matches(gens: GeneratorsView, v: BatchView) -> bool {
    &&& v.g_bold.len() == gens.g_bold.len()
    &&& v.h_bold.len() == gens.h_bold.len()
    &&& v.h_sum.len() == log2(gens.h_bold.len()) + 1
}

/// A set of generators: `g`, `h`, and two vectors of one length, a power of
/// two.
#[derive(Debug, PartialEq, Eq)]
pub struct Generators {
    g: Point,
    h: Point,
    g_bold: Vec<Point>,
    h_bold: Vec<Point>,
    h_sum: Vec<Point>,
    transcript: Vec<u8>,
}

/// A copy of a byte string.
fn copy_bytes(bytes: &[u8]) -> (r: Vec<u8>)
    ensures
        r@ == bytes@,
{
    let mut out: Vec<u8> = Vec::with_capacity(bytes.len());
    let mut i: usize = 0;
    while i < bytes.len()
        invariant
            i <= bytes.len(),
            out@ == bytes@.take(i as int),
        decreases bytes.len() - i,
    {
        out.push(bytes[i]);
        i += 1;
    }
    out
}

/// The digest of a set of generators.
fn digest(g: &Point, h: &Point, g_bold: &Vec<Point>, h_bold: &Vec<Point>) -> (r: Vec<u8>)
    ensures
        r@ == generators_digest(g@, h@, encodings(g_bold@), encodings(h_bold@)),
        r@.len() == 64,
{
    let mut transcript = Transcript::new("generators");
    transcript.append_message("g", g.to_bytes().as_slice());
    transcript.append_message("h", h.to_bytes().as_slice());
    let mut i: usize = 0;
    let ghost named = transcript@;
    while i < g_bold.len()
        invariant
            i <= g_bold@.len(),
            transcript@ == wrote_points(named, "g_bold"@, encodings(g_bold@).take(i as int)),
        decreases g_bold@.len() - i,
    {
        transcript.append_message("g_bold", g_bold[i].to_bytes().as_slice());
        assert(encodings(g_bold@).take(i + 1).drop_last() =~= encodings(g_bold@).take(i as int));
        i += 1;
    }
    assert(encodings(g_bold@).take(g_bold@.len() as int) =~= encodings(g_bold@));
    let ghost half = transcript@;
    let mut i: usize = 0;
    while i < h_bold.len()
        invariant
            i <= h_bold@.len(),
            transcript@ == wrote_points(half, "h_bold"@, encodings(h_bold@).take(i as int)),
        decreases h_bold@.len() - i,
    {
        transcript.append_message("h_bold", h_bold[i].to_bytes().as_slice());
        assert(encodings(h_bold@).take(i + 1).drop_last() =~= encodings(h_bold@).take(i as int));
        i += 1;
    }
    assert(encodings(h_bold@).take(h_bold@.len() as int) =~= encodings(h_bold@));
    transcript.challenge("summary")
}

/// The least power of two which is no less than `n`.
pub fn least_power_of_two(n: usize) -> (p: u128)
    ensures
        p == padded_len(n as nat),
        is_pow2(p as nat),
        p >= n,
{
    if n <= 1 {
        proof {
            lemma_log2_two_pow(0);
        }
        return 1;
    }
    let mut p: u128 = 1;
    let ghost mut k: nat = 0;
    while p < n as u128
        invariant
            p == two_pow(k),
            p >= 1,
            k > 0 ==> p / 2 < n,
            p <= 2 * (n as u128),
            n > 1,
        decreases 2 * n - p,
    {
        p = p * 2;
        proof {
            k = k + 1;
        }
    }
    proof {
        // two_pow(k - 1) < n <= two_pow(k)
        lemma_log2_two_pow(k);
        lemma_two_pow_bounds(n as nat);
        if p != n as u128 {
            if log2(n as nat) >= k {
                lemma_two_pow_increases(k, log2(n as nat));
            }
            if log2(n as nat) + 1 < k {
                lemma_two_pow_increases(log2(n as nat) + 1, (k - 1) as nat);
            }
        }
    }
    p
}

/// Whether `n` is a power of two.
pub fn power_of_two(n: usize) -> (r: bool)
    ensures
        r == is_pow2(n as nat),
{
    proof {
        if n >= 1 {
            lemma_two_pow_bounds(n as nat);
        }
    }
    n != 0 && least_power_of_two(n) == n as u128
}

/// The number of times `n` can be halved before it reaches one.
pub fn log2_of(n: usize) -> (r: usize)
    ensures
        r == log2(n as nat),
        r < 64,
{
    proof {
        if n >= 1 {
            lemma_two_pow_bounds(n as nat);
            lemma_two_pow_64();
            if log2(n as nat) >= 64 {
                lemma_two_pow_increases(64, log2(n as nat));
            }
        }
    }
    let mut m: usize = n;
    let mut k: usize = 0;
    while m > 1
        invariant
            k + log2(m as nat) == log2(n as nat),
            log2(n as nat) < 64,
        decreases m,
    {
        m = m / 2;
        k = k + 1;
    }
    k
}

/// The value of `2^64`.
proof fn lemma_two_pow_64()
    ensures
        two_pow(64) == 0x1_0000_0000_0000_0000,
{
    reveal_with_fuel(two_pow, 65);
}

impl Generators {
    /// The vectors are of one length, a power of two which fits in 32 bits;
    /// the sums and the digest are those of the generators.
    #[verifier::type_invariant]
    pub closed spec fn inv(self) -> bool {
        &&& self@.wf()
        &&& encodings(self.h_sum@) == h_sums(encodings(self.h_bold@))
    }

    /// What this stands for, as plain values.
    pub closed spec fn view(&self) -> GeneratorsView {
        GeneratorsView {
            g: self.g@,
            h: self.h@,
            g_bold: encodings(self.g_bold@),
            h_bold: encodings(self.h_bold@),
            transcript: self.transcript@,
        }
    }

    /// A set of generators, where the two vectors are of one length which is
    /// a power of two and fits in 32 bits.
    pub fn new(g: Point, h: Point, g_bold: Vec<Point>, h_bold: Vec<Point>) -> (r: Result<
        Generators,
        GeneratorsError,
    >)
        ensures
            match r {
                Ok(gens) => {
                    &&& gens@.wf()
                    &&& gens@.g == g@
                    &&& gens@.h == h@
                    &&& gens@.g_bold == encodings(g_bold@)
                    &&& gens@.h_bold == encodings(h_bold@)
                    &&& gens@.transcript == generators_digest(
                        g@,
                        h@,
                        encodings(g_bold@),
                        encodings(h_bold@),
                    )
                },
                Err(GeneratorsError::GBoldEmpty) => g_bold@.len() == 0,
                Err(GeneratorsError::DifferingGhBoldLengths) => g_bold@.len() != 0 && g_bold@.len()
                    != h_bold@.len(),
                Err(GeneratorsError::NotPowerOfTwo) => g_bold@.len() == h_bold@.len() && g_bold@.len() != 0
                    && !is_pow2(g_bold@.len()),
                Err(GeneratorsError::TooManyGenerators) => g_bold@.len() == h_bold@.len() && is_pow2(
                    g_bold@.len(),
                ) && g_bold@.len() > u32::MAX,
            },
    {
        if g_bold.len() == 0 {
            return Err(GeneratorsError::GBoldEmpty);
        }
        if g_bold.len() != h_bold.len() {
            return Err(GeneratorsError::DifferingGhBoldLengths);
        }
        if !power_of_two(g_bold.len()) {
            return Err(GeneratorsError::NotPowerOfTwo);
        }
        if g_bold.len() > 0xffff_ffff {
            return Err(GeneratorsError::TooManyGenerators);
        }
        let transcript = digest(&g, &h, &g_bold, &h_bold);
        let h_sum = sums(&h_bold);
        Ok(Generators { g, h, g_bold, h_bold, h_sum, transcript })
    }

    /// What holds of every set of generators.
    pub fn properties(&self)
        ensures
            self@.wf(),
    {
        proof {
            use_type_invariant(self);
        }
    }

    /// The number of generators in each of the two vectors.
    pub fn len(&self) -> (r: usize)
        ensures
            r == self@.len(),
    {
        self.g_bold.len()
    }

    /// The generator `g`.
    pub fn g(&self) -> (r: Point)
        ensures
            r@ == self@.g,
    {
        self.g
    }

    /// The generator `h`.
    pub fn h(&self) -> (r: Point)
        ensures
            r@ == self@.h,
    {
        self.h
    }

    /// The generators `g_bold`.
    pub fn g_bold_slice(&self) -> (r: &Vec<Point>)
        ensures
            encodings(r@) == self@.g_bold,
    {
        &self.g_bold
    }

    /// The generators `h_bold`.
    pub fn h_bold_slice(&self) -> (r: &Vec<Point>)
        ensures
            encodings(r@) == self@.h_bold,
    {
        &self.h_bold
    }

    /// An accumulator of the size of these generators, with every weight
    /// zero.
    pub fn batch_verifier(&self) -> (r: BatchVerifier)
        ensures
            batch_matches(self@, r@),
            r@ == (BatchView {
                g: 0,
                h: 0,
                g_bold: zeros(self@.len()),
                h_bold: zeros(self@.len()),
                h_sum: zeros(log2(self@.len()) + 1),
                additional: Seq::empty(),
            }),
    {
        proof {
            use_type_invariant(self);
        }
        let r = BatchVerifier {
            g: Scalar::zero(),
            h: Scalar::zero(),
            g_bold: ScalarVector::new(self.g_bold.len()),
            h_bold: ScalarVector::new(self.h_bold.len()),
            h_sum: ScalarVector::new(self.h_sum.len()),
            additional: Vec::new(),
        };
        assert(pairs_view(r.additional@) =~= Seq::empty());
        assert(encodings(self.h_sum@).len() == self.h_sum@.len());
        r
    }

    /// Whether everything an accumulator of the size of these generators
    /// holds sums to the neutral element.
    pub fn verify(&self, verifier: BatchVerifier) -> (r: bool)
        ensures
            r == (batch_matches(self@, verifier@) && msm(batch_terms(self@, verifier@))
                == crate::group::identity_bytes()),
    {
        proof {
            use_type_invariant(self);
        }
        if verifier.g_bold.len() != self.g_bold.len() || verifier.h_bold.len() != self.h_bold.len()
            || verifier.h_sum.len() != self.h_sum.len() {
            return false;
        }
        let mut terms: Vec<(Scalar, Point)> = Vec::new();
        terms.push((verifier.g, self.g));
        terms.push((verifier.h, self.h));
        assert(pairs_view(terms@) =~= seq![(verifier@.g, self@.g), (verifier@.h, self@.h)]);
        push_pairs(&mut terms, &verifier.g_bold.0, &self.g_bold);
        push_pairs(&mut terms, &verifier.h_bold.0, &self.h_bold);
        push_pairs(&mut terms, &verifier.h_sum.0, &self.h_sum);
        let ghost front = pairs_view(terms@);
        let mut i: usize = 0;
        while i < verifier.additional.len()
            invariant
                i <= verifier.additional@.len(),
                pairs_view(terms@) == front + pairs_view(verifier.additional@).take(i as int),
            decreases verifier.additional@.len() - i,
        {
            let ghost prev = pairs_view(terms@);
            terms.push(verifier.additional[i]);
            assert(pairs_view(terms@) =~= prev.push(pairs_view(verifier.additional@)[i as int]));
            assert(pairs_view(verifier.additional@).take(i + 1) =~= pairs_view(
                verifier.additional@,
            ).take(i as int).push(pairs_view(verifier.additional@)[i as int]));
            i += 1;
        }
        assert(pairs_view(verifier.additional@).take(verifier.additional@.len() as int)
            =~= pairs_view(verifier.additional@));
        multiexp_vartime(&terms).is_identity()
    }

    /// The first `generators` of each vector, where that is a power of two
    /// and no more than there are.
    pub fn reduce(&self, generators: usize) -> (r: Option<ProofGenerators>)
        ensures
            r.is_some() == (is_pow2(generators as nat) && generators <= self@.len()),
            r matches Some(reduced) ==> reduced@ == self@.reduced(generators as nat),
    {
        proof {
            use_type_invariant(self);
        }
        if generators > self.g_bold.len() || !power_of_two(generators) {
            return None;
        }
        let g_bold = prefix(&self.g_bold, generators);
        let h_bold = prefix(&self.h_bold, generators);
        let transcript = copy_bytes(self.transcript.as_slice());
        Some(ProofGenerators { g: self.g, h: self.h, g_bold, h_bold, transcript })
    }
}

/// The first `n` points.
fn prefix(points: &Vec<Point>, n: usize) -> (r: Vec<Point>)
    requires
        n <= points@.len(),
    ensures
        encodings(r@) == encodings(points@).take(n as int),
{
    let mut out: Vec<Point> = Vec::with_capacity(n);
    let mut i: usize = 0;
    while i < n
        invariant
            i <= n <= points@.len(),
            out@.len() == i,
            forall|k: int| 0 <= k < i ==> out@[k] == points@[k],
        decreases n - i,
    {
        out.push(points[i]);
        i += 1;
    }
    out
}

/// For each power of two up to the number of points, the sum of that many
/// of the first of them.
fn sums(h_bold: &Vec<Point>) -> (r: Vec<Point>)
    requires
        is_pow2(h_bold@.len()),
        h_bold@.len() <= u32::MAX,
    ensures
        encodings(r@) == h_sums(encodings(h_bold@)),
{
    let ghost points = encodings(h_bold@);
    let ghost n = h_bold@.len();
    let mut out: Vec<Point> = Vec::new();
    let mut acc = Point::identity();
    let mut next: u64 = 1;
    let mut i: usize = 0;
    while i < h_bold.len()
        invariant
            i <= n <= u32::MAX,
            n == h_bold@.len(),
            points == encodings(h_bold@),
            acc@ == point_sum(points, i as nat),
            next == two_pow(out@.len()),
            i < next,
            out@.len() > 0 ==> next <= 2 * i,
            forall|k: int| 0 <= k < out@.len() ==> out@[k]@ == point_sum(points, two_pow(k as nat)),
        decreases n - i,
    {
        acc = acc.add(&h_bold[i]);
        i += 1;
        if i as u64 == next {
            out.push(acc);
            next = next * 2;
        }
    }
    proof {
        // two_pow(len - 1) <= n < two_pow(len), and n is a power of two
        let len = out@.len();
        lemma_two_pow_bounds(n);
        if len - 1 > log2(n) {
            lemma_two_pow_increases(log2(n) + 1, (len - 1) as nat);
        }
        if len <= log2(n) {
            lemma_two_pow_increases(len, log2(n));
        }
    }
    out
}

/// The generators of one proof: the first of a set, as many as the circuit
/// has multiplications.
#[derive(Debug, PartialEq, Eq)]
pub struct ProofGenerators {
    g: Point,
    h: Point,
    g_bold: Vec<Point>,
    h_bold: Vec<Point>,
    transcript: Vec<u8>,
}

impl Clone for Generators {
    /// A copy which stands for the same values.
    fn clone(&self) -> (r: Generators)
        ensures
            r@ == self@,
    {
        proof {
            use_type_invariant(self);
        }
        let g_bold = prefix(&self.g_bold, self.g_bold.len());
        let h_bold = prefix(&self.h_bold, self.h_bold.len());
        let h_sum = prefix(&self.h_sum, self.h_sum.len());
        let transcript = copy_bytes(self.transcript.as_slice());
        assert(encodings(g_bold@) =~= encodings(self.g_bold@));
        assert(encodings(h_bold@) =~= encodings(self.h_bold@));
        assert(encodings(h_sum@) =~= encodings(self.h_sum@));
        Generators { g: self.g, h: self.h, g_bold, h_bold, h_sum, transcript }
    }
}

impl Clone for ProofGenerators {
    /// A copy which stands for the same values.
    fn clone(&self) -> (r: ProofGenerators)
        ensures
            r@ == self@,
    {
        proof {
            use_type_invariant(self);
        }
        let g_bold = prefix(&self.g_bold, self.g_bold.len());
        let h_bold = prefix(&self.h_bold, self.h_bold.len());
        let transcript = copy_bytes(self.transcript.as_slice());
        assert(encodings(g_bold@) =~= encodings(self.g_bold@));
        assert(encodings(h_bold@) =~= encodings(self.h_bold@));
        ProofGenerators { g: self.g, h: self.h, g_bold, h_bold, transcript }
    }
}

impl ProofGenerators {
    /// The vectors are of one length, a power of two which fits in 32 bits; the digest has 64 bytes.
    #[verifier::type_invariant]
    pub closed spec fn inv(self) -> bool {
        self@.wf()
    }

    /// What this stands for, as plain values.
    pub closed spec fn view(&self) -> GeneratorsView {
        GeneratorsView {
            g: self.g@,
            h: self.h@,
            g_bold: encodings(self.g_bold@),
            h_bold: encodings(self.h_bold@),
            transcript: self.transcript@,
        }
    }

    /// What holds of the generators of every proof.
    pub fn properties(&self)
        ensures
            self@.wf(),
    {
        proof {
            use_type_invariant(self);
        }
    }

    /// The number of generators in each of the two vectors.
    pub fn len(&self) -> (r: usize)
        ensures
            r == self@.len(),
            self@.wf(),
    {
        proof {
            use_type_invariant(self);
        }
        self.g_bold.len()
    }

    /// The generator `g`.
    pub fn g(&self) -> (r: Point)
        ensures
            r@ == self@.g,
    {
        self.g
    }

    /// The generator `h`.
    pub fn h(&self) -> (r: Point)
        ensures
            r@ == self@.h,
    {
        self.h
    }

    /// The generator of `g_bold` at a position.
    pub fn g_bold(&self, i: usize) -> (r: Point)
        requires
            i < self@.len(),
        ensures
            r@ == self@.g_bold[i as int],
    {
        self.g_bold[i]
    }

    /// The generator of `h_bold` at a position.
    pub fn h_bold(&self, i: usize) -> (r: Point)
        requires
            i < self@.len(),
        ensures
            r@ == self@.h_bold[i as int],
    {
        proof {
            use_type_invariant(self);
        }
        self.h_bold[i]
    }

    /// The generators `g_bold`.
    pub fn g_bold_slice(&self) -> (r: &Vec<Point>)
        ensures
            encodings(r@) == self@.g_bold,
    {
        &self.g_bold
    }

    /// The generators `h_bold`.
    pub fn h_bold_slice(&self) -> (r: &Vec<Point>)
        ensures
            encodings(r@) == self@.h_bold,
    {
        &self.h_bold
    }

    /// The digest which binds the generators into a transcript.
    pub fn transcript(&self) -> (r: &Vec<u8>)
        ensures
            r@ == self@.transcript,
    {
        &self.transcript
    }
}

} // verus!
