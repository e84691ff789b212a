//! Sums of integers, and what the arithmetic of the field has to do with
//! them: the sums, products and inner products of the field stand for those
//! of the integers.
use crate::circuit::{commitment_rows, convolution, evaluation, t_poly, weighted_sum};
use crate::field::{field_add, field_mul, field_sub, lemma_order_positive, order};
use crate::polynomial::uniform;
use crate::scalar_matrix::{apply, columns_below, fold_row, fold_rows, row_dot, RowView};
use crate::scalar_vector::{field_pow, inner, vec_add, vec_mul, vec_sub, zeros};
use vstd::prelude::*;

verus! {

/// Whether two integers stand for the same element of the field.
pub open spec fn congruent(a: int, b: int) -> bool {
    a % (order() as int) == b % (order() as int)
}

/// The sum of `f` over the integers below `n`.
pub open spec fn sum(f: spec_fn(int) -> int, n: nat) -> int
    decreases n,
{
    if n == 0 {
        0
    } else {
        sum(f, (n - 1) as nat) + f(n - 1)
    }
}

/// Sums of what is equal place by place are equal.
pub proof fn lemma_sum_equal(f: spec_fn(int) -> int, g: spec_fn(int) -> int, n: nat)
    requires
        forall|i: int| 0 <= i < n ==> #[trigger] f(i) == g(i),
    ensures
        sum(f, n) == sum(g, n),
    decreases n,
{
    if n > 0 {
        lemma_sum_equal(f, g, (n - 1) as nat);
    }
}

/// The sum of two integers stands for what the sum of what they stand for
/// stands for.
pub proof fn lemma_congruent_sum(a: int, b: int, c: int, d: int)
    requires
        congruent(a, b),
        congruent(c, d),
    ensures
        congruent(a + c, b + d),
{
    lemma_order_positive();
    let m = order() as int;
    vstd::arithmetic::div_mod::lemma_add_mod_noop(a, c, m);
    vstd::arithmetic::div_mod::lemma_add_mod_noop(b, d, m);
}

/// Likewise the product.
pub proof fn lemma_congruent_product(a: int, b: int, c: int, d: int)
    requires
        congruent(a, b),
        congruent(c, d),
    ensures
        congruent(a * c, b * d),
{
    lemma_order_positive();
    let m = order() as int;
    vstd::arithmetic::div_mod::lemma_mul_mod_noop(a, c, m);
    vstd::arithmetic::div_mod::lemma_mul_mod_noop(b, d, m);
}

/// The sum in the field stands for the sum.
pub proof fn lemma_field_add(a: nat, b: nat)
    ensures
        congruent(field_add(a, b) as int, (a + b) as int),
        field_add(a, b) < order(),
{
    lemma_order_positive();
    let m = order() as int;
    vstd::arithmetic::div_mod::lemma_mod_twice((a + b) as int, m);
    vstd::arithmetic::div_mod::lemma_mod_bound((a + b) as int, m);
}

/// The product in the field stands for the product.
pub proof fn lemma_field_mul(a: nat, b: nat)
    ensures
        congruent(field_mul(a, b) as int, (a * b) as int),
        field_mul(a, b) < order(),
{
    lemma_order_positive();
    let m = order() as int;
    vstd::arithmetic::div_mod::lemma_mod_twice((a * b) as int, m);
    vstd::arithmetic::div_mod::lemma_mod_bound((a * b) as int, m);
}

/// Sums of what stands for the same place by place stand for the same.
pub proof fn lemma_sum_congruent(f: spec_fn(int) -> int, g: spec_fn(int) -> int, n: nat)
    requires
        forall|i: int| 0 <= i < n ==> congruent(#[trigger] f(i), g(i)),
    ensures
        congruent(sum(f, n), sum(g, n)),
    decreases n,
{
    if n > 0 {
        lemma_sum_congruent(f, g, (n - 1) as nat);
        lemma_congruent_sum(sum(f, (n - 1) as nat), sum(g, (n - 1) as nat), f(n - 1), g(n - 1));
    }
}

/// The sum of sums is the sum of the two sums.
pub proof fn lemma_sum_add(f: spec_fn(int) -> int, g: spec_fn(int) -> int, n: nat)
    ensures
        sum(|i: int| f(i) + g(i), n) == sum(f, n) + sum(g, n),
    decreases n,
{
    if n > 0 {
        lemma_sum_add(f, g, (n - 1) as nat);
    }
}

/// A sum of products with one factor is the product of the sum with it.
pub proof fn lemma_sum_scale(f: spec_fn(int) -> int, c: int, n: nat)
    ensures
        sum(|i: int| f(i) * c, n) == sum(f, n) * c,
    decreases n,
{
    if n > 0 {
        lemma_sum_scale(f, c, (n - 1) as nat);
        assert((sum(f, (n - 1) as nat) + f(n - 1)) * c == sum(f, (n - 1) as nat) * c + f(n - 1) * c)
            by (nonlinear_arith);
    }
}

/// A sum of sums may be taken in either order.
pub proof fn lemma_sum_swap(f: spec_fn(int, int) -> int, n: nat, m: nat)
    ensures
        sum(|a: int| sum(|j: int| f(a, j), m), n) == sum(|j: int| sum(|a: int| f(a, j), n), m),
    decreases n,
{
    let rows = |a: int| sum(|j: int| f(a, j), m);
    let columns = |j: int| sum(|a: int| f(a, j), n);
    if n == 0 {
        lemma_sum_zero(columns, m);
    } else {
        lemma_sum_swap(f, (n - 1) as nat, m);
        let before = |j: int| sum(|a: int| f(a, j), (n - 1) as nat);
        let last = |j: int| f(n - 1, j);
        // each column is the column before and the last row's entry
        lemma_sum_add(before, last, m);
        lemma_sum_equal(columns, |j: int| before(j) + last(j), m);
        assert(rows(n - 1) == sum(last, m));
    }
}

/// A sum of zeros is zero.
pub proof fn lemma_sum_zero(f: spec_fn(int) -> int, n: nat)
    requires
        forall|i: int| 0 <= i < n ==> #[trigger] f(i) == 0,
    ensures
        sum(f, n) == 0,
    decreases n,
{
    if n > 0 {
        lemma_sum_zero(f, (n - 1) as nat);
    }
}

/// The products of the entries of two vectors, place by place.
pub open spec fn dots(a: Seq<nat>, b: Seq<nat>) -> spec_fn(int) -> int {
    |i: int| (a[i] * b[i]) as int
}

/// The inner product of the field stands for the sum of the products.
pub proof fn lemma_inner(a: Seq<nat>, b: Seq<nat>)
    requires
        a.len() == b.len(),
    ensures
        congruent(inner(a, b) as int, sum(dots(a, b), a.len())),
        inner(a, b) < order(),
    decreases a.len(),
{
    lemma_order_positive();
    if a.len() > 0 {
        let front_a = a.drop_last();
        let front_b = b.drop_last();
        lemma_inner(front_a, front_b);
        let n = (a.len() - 1) as nat;
        lemma_sum_equal(dots(front_a, front_b), dots(a, b), n);
        lemma_field_mul(a.last(), b.last());
        lemma_field_add(inner(front_a, front_b), field_mul(a.last(), b.last()));
        lemma_congruent_sum(
            inner(front_a, front_b) as int,
            sum(dots(a, b), n),
            field_mul(a.last(), b.last()) as int,
            (a.last() * b.last()) as int,
        );
    }
}

/// The powers of the field multiply as powers do.
pub proof fn lemma_powers_multiply(x: nat, i: nat, j: nat)
    ensures
        congruent((field_pow(x, i) * field_pow(x, j)) as int, field_pow(x, i + j) as int),
    decreases j,
{
    lemma_order_positive();
    let p = field_pow(x, i) as int;
    if j == 0 {
        assert(p * 1 == p);
    } else {
        let before = (j - 1) as nat;
        let q = field_pow(x, before) as int;
        lemma_powers_multiply(x, i, before);
        // x^i * (x^(j-1) * x) stands for (x^i * x^(j-1)) * x, and that for x^(i+j-1) * x
        lemma_field_mul(field_pow(x, before), x);
        lemma_congruent_product(p, p, field_pow(x, j) as int, q * x);
        assert(p * (q * x) == (p * q) * x) by (nonlinear_arith);
        lemma_congruent_product(p * q, field_pow(x, i + before) as int, x as int, x as int);
        lemma_field_mul(field_pow(x, i + before), x);
    }
}


/// Two elements of the field which stand for the same are the same.
pub proof fn lemma_congruent_same(a: nat, b: nat)
    requires
        a < order(),
        b < order(),
        congruent(a as int, b as int),
    ensures
        a == b,
{
    vstd::arithmetic::div_mod::lemma_small_mod(a, order());
    vstd::arithmetic::div_mod::lemma_small_mod(b, order());
}

/// What stands for the same as a second stands for the same as what the
/// second stands for the same as.
pub proof fn lemma_congruent_chain(a: int, b: int, c: int)
    requires
        congruent(a, b),
        congruent(b, c),
    ensures
        congruent(a, c),
{
}

/// A sum over a window: what is summed over `t` from `i` to `i + m` of
/// `g(t - i)` is what is summed of `g` below `m`.
pub open spec fn window(g: spec_fn(int) -> int, i: int, m: int) -> spec_fn(int) -> int {
    |t: int|
        if 0 <= t - i < m {
            g(t - i)
        } else {
            0
        }
}

/// The sum over a window, as far as the window is reached.
pub proof fn lemma_sum_window(g: spec_fn(int) -> int, i: nat, m: nat, k: nat)
    ensures
        sum(window(g, i as int, m as int), k) == sum(
            g,
            if k <= i {
                0
            } else if k - i <= m {
                (k - i) as nat
            } else {
                m
            },
        ),
    decreases k,
{
    if k > 0 {
        lemma_sum_window(g, i, m, (k - 1) as nat);
    }
}

/// Place `a` of each coefficient of a polynomial, multiplied by the power
/// of `x` the coefficient belongs to.
pub open spec fn terms_at(poly: Seq<Seq<nat>>, xs: Seq<nat>, a: int) -> spec_fn(int) -> int {
    |i: int| (poly[i][a] * xs[i]) as int
}

/// Place `a` of the value of a polynomial stands for the sum of its
/// coefficients at that place, each multiplied by its power of `x`.
pub proof fn lemma_evaluation(poly: Seq<Seq<nat>>, xs: Seq<nat>, n: nat, m: nat, a: int)
    requires
        m <= poly.len(),
        uniform(poly, n),
        0 <= a < n,
    ensures
        evaluation(poly, xs, n, m).len() == n,
        congruent(evaluation(poly, xs, n, m)[a] as int, sum(terms_at(poly, xs, a), m)),
    decreases m,
{
    lemma_order_positive();
    if m > 0 {
        let before = (m - 1) as nat;
        lemma_evaluation(poly, xs, n, before, a);
        let value = evaluation(poly, xs, n, before)[a];
        let term = field_mul(poly[m - 1][a], xs[m - 1]);
        assert(poly[m - 1].len() == n);
        lemma_field_mul(poly[m - 1][a], xs[m - 1]);
        lemma_field_add(value, term);
        lemma_congruent_sum(
            value as int,
            sum(terms_at(poly, xs, a), before),
            term as int,
            (poly[m - 1][a] * xs[m - 1]) as int,
        );
    }
}

/// Each scalar multiplied by the power of `x` at its position.
pub open spec fn weights_of(c: Seq<nat>, xs: Seq<nat>) -> spec_fn(int) -> int {
    |k: int| (c[k] * xs[k]) as int
}

/// The weighted sum of the field stands for the sum of the products.
pub proof fn lemma_weighted_sum(c: Seq<nat>, xs: Seq<nat>, m: nat)
    ensures
        congruent(weighted_sum(c, xs, m) as int, sum(weights_of(c, xs), m)),
        weighted_sum(c, xs, m) < order(),
    decreases m,
{
    lemma_order_positive();
    if m > 0 {
        let before = (m - 1) as nat;
        lemma_weighted_sum(c, xs, before);
        let term = field_mul(c[m - 1], xs[m - 1]);
        lemma_field_mul(c[m - 1], xs[m - 1]);
        lemma_field_add(weighted_sum(c, xs, before), term);
        lemma_congruent_sum(
            weighted_sum(c, xs, before) as int,
            sum(weights_of(c, xs), before),
            term as int,
            (c[m - 1] * xs[m - 1]) as int,
        );
    }
}

/// The inner product of two vectors of the length `n`, as an integer.
pub open spec fn dot(a: Seq<nat>, b: Seq<nat>, n: nat) -> int {
    sum(dots(a, b), n)
}

/// For each coefficient of `l`, its inner product with the coefficient of
/// `r` which brings the power of `X` to `k`, if there is one.
pub open spec fn diagonal(l: Seq<Seq<nat>>, r: Seq<Seq<nat>>, k: int, n: nat) -> spec_fn(int) -> int {
    |i: int|
        if 0 <= k - i < r.len() {
            dot(l[i], r[k - i], n)
        } else {
            0
        }
}

/// A coefficient of the product of two polynomials stands for the sum of
/// the inner products of the coefficients which make its power of `X`.
pub proof fn lemma_convolution(l: Seq<Seq<nat>>, r: Seq<Seq<nat>>, k: int, m: nat, n: nat)
    requires
        m <= l.len(),
        uniform(l, n),
        uniform(r, n),
    ensures
        congruent(convolution(l, r, k, m) as int, sum(diagonal(l, r, k, n), m)),
        convolution(l, r, k, m) < order(),
    decreases m,
{
    lemma_order_positive();
    if m > 0 {
        let before = (m - 1) as nat;
        lemma_convolution(l, r, k, before, n);
        if 0 <= k - (m - 1) < r.len() {
            let a = l[m - 1];
            let b = r[k - (m - 1)];
            assert(a.len() == n && b.len() == n);
            lemma_inner(a, b);
            lemma_field_add(convolution(l, r, k, before), inner(a, b));
            lemma_congruent_sum(
                convolution(l, r, k, before) as int,
                sum(diagonal(l, r, k, n), before),
                inner(a, b) as int,
                dot(a, b, n),
            );
        }
    }
}


/// A sum of sums may be taken in either order: the sum of the sums of the
/// rows is the sum of the sums of the columns.
pub proof fn lemma_sum_exchange(
    f: spec_fn(int, int) -> int,
    rows: spec_fn(int) -> int,
    columns: spec_fn(int) -> int,
    n: nat,
    m: nat,
)
    requires
        forall|a: int| 0 <= a < n ==> #[trigger] rows(a) == sum(|j: int| f(a, j), m),
        forall|j: int| 0 <= j < m ==> #[trigger] columns(j) == sum(|a: int| f(a, j), n),
    ensures
        sum(rows, n) == sum(columns, m),
{
    lemma_sum_swap(f, n, m);
    lemma_sum_equal(rows, |a: int| sum(|j: int| f(a, j), m), n);
    lemma_sum_equal(columns, |j: int| sum(|a: int| f(a, j), n), m);
}

/// The product of place `a` of two coefficients, each with its power of
/// `x`.
pub open spec fn piece(l: Seq<Seq<nat>>, r: Seq<Seq<nat>>, xs: Seq<nat>, a: int, i: int, j: int) -> int {
    ((l[i][a] * xs[i]) as int) * ((r[j][a] * xs[j]) as int)
}

/// The product of the sums of two polynomials' terms at one place is the
/// sum of the products of their terms.
pub proof fn lemma_product_of_sums(
    l: Seq<Seq<nat>>,
    r: Seq<Seq<nat>>,
    xs: Seq<nat>,
    a: int,
    m: nat,
)
    ensures
        sum(terms_at(l, xs, a), m) * sum(terms_at(r, xs, a), m) == sum(
            |i: int| sum(|j: int| piece(l, r, xs, a, i, j), m),
            m,
        ),
{
    let left = terms_at(l, xs, a);
    let right = terms_at(r, xs, a);
    let whole = sum(right, m);
    lemma_sum_scale(left, whole, m);
    assert forall|i: int| 0 <= i < m implies #[trigger] left(i) * whole == sum(
        |j: int| piece(l, r, xs, a, i, j),
        m,
    ) by {
        lemma_sum_scale(right, left(i), m);
        let scaled = |j: int| right(j) * left(i);
        let pieces = |j: int| piece(l, r, xs, a, i, j);
        assert forall|j: int| 0 <= j < m implies #[trigger] scaled(j) == pieces(j) by {
            assert(right(j) * left(i) == left(i) * right(j)) by (nonlinear_arith);
        }
        lemma_sum_equal(scaled, pieces, m);
        assert(left(i) * whole == whole * left(i)) by (nonlinear_arith);
    }
    lemma_sum_equal(
        |i: int| left(i) * whole,
        |i: int| sum(|j: int| piece(l, r, xs, a, i, j), m),
        m,
    );
}


/// The value of a polynomial has the length of its coefficients.
pub proof fn lemma_evaluation_len(poly: Seq<Seq<nat>>, xs: Seq<nat>, n: nat, m: nat)
    ensures
        evaluation(poly, xs, n, m).len() == n,
    decreases m,
{
    if m > 0 {
        lemma_evaluation_len(poly, xs, n, (m - 1) as nat);
    }
}

/// The products of two coefficients' places, summed over the places, are
/// the inner product of the coefficients, multiplied by the two powers of
/// `x`.
pub proof fn lemma_pieces_over_places(
    l: Seq<Seq<nat>>,
    r: Seq<Seq<nat>>,
    xs: Seq<nat>,
    i: int,
    j: int,
    n: nat,
)
    ensures
        sum(|a: int| piece(l, r, xs, a, i, j), n) == dot(l[i], r[j], n) * ((xs[i] * xs[j]) as int),
{
    let c = (xs[i] * xs[j]) as int;
    let products = dots(l[i], r[j]);
    let scaled = |a: int| products(a) * c;
    let pieces = |a: int| piece(l, r, xs, a, i, j);
    lemma_sum_scale(products, c, n);
    assert forall|a: int| 0 <= a < n implies #[trigger] scaled(a) == pieces(a) by {
        let p = l[i][a] as int;
        let q = r[j][a] as int;
        let u = xs[i] as int;
        let v = xs[j] as int;
        assert((p * q) * (u * v) == (p * u) * (q * v)) by (nonlinear_arith);
    }
    lemma_sum_equal(scaled, pieces, n);
}

/// The sum over the places, over the coefficients of `l` and over those of
/// `r` may be taken with the places innermost.
pub proof fn lemma_places_innermost(l: Seq<Seq<nat>>, r: Seq<Seq<nat>>, xs: Seq<nat>, n: nat, m: nat)
    ensures
        sum(|a: int| sum(|i: int| sum(|j: int| piece(l, r, xs, a, i, j), m), m), n) == sum(
            |i: int| sum(|j: int| sum(|a: int| piece(l, r, xs, a, i, j), n), m),
            m,
        ),
{
    let f = |a: int, i: int| sum(|j: int| piece(l, r, xs, a, i, j), m);
    let rows = |a: int| sum(|i: int| sum(|j: int| piece(l, r, xs, a, i, j), m), m);
    let middle = |i: int| sum(|a: int| sum(|j: int| piece(l, r, xs, a, i, j), m), n);
    let target = |i: int| sum(|j: int| sum(|a: int| piece(l, r, xs, a, i, j), n), m);
    assert forall|a: int| 0 <= a < n implies #[trigger] rows(a) == sum(|i: int| f(a, i), m) by {
        lemma_sum_equal(
            |i: int| sum(|j: int| piece(l, r, xs, a, i, j), m),
            |i: int| f(a, i),
            m,
        );
    }
    assert forall|i: int| 0 <= i < m implies #[trigger] middle(i) == sum(|a: int| f(a, i), n) by {
        lemma_sum_equal(
            |a: int| sum(|j: int| piece(l, r, xs, a, i, j), m),
            |a: int| f(a, i),
            n,
        );
    }
    lemma_sum_exchange(f, rows, middle, n, m);
    assert forall|i: int| 0 <= i < m implies #[trigger] middle(i) == target(i) by {
        let g = |a: int, j: int| piece(l, r, xs, a, i, j);
        let inner_rows = |a: int| sum(|j: int| piece(l, r, xs, a, i, j), m);
        let inner_columns = |j: int| sum(|a: int| piece(l, r, xs, a, i, j), n);
        assert forall|a: int| 0 <= a < n implies #[trigger] inner_rows(a) == sum(
            |j: int| g(a, j),
            m,
        ) by {
            lemma_sum_equal(|j: int| piece(l, r, xs, a, i, j), |j: int| g(a, j), m);
        }
        assert forall|j: int| 0 <= j < m implies #[trigger] inner_columns(j) == sum(
            |a: int| g(a, j),
            n,
        ) by {
            lemma_sum_equal(|a: int| piece(l, r, xs, a, i, j), |a: int| g(a, j), n);
        }
        lemma_sum_exchange(g, inner_rows, inner_columns, n, m);
    }
    lemma_sum_equal(middle, target, m);
}


/// The inner product of coefficient `i` of `l` with coefficient `j` of
/// `r`, multiplied by the power of `x` the two make together.
pub open spec fn cross(l: Seq<Seq<nat>>, r: Seq<Seq<nat>>, xs: Seq<nat>, n: nat, i: int, j: int) -> int {
    dot(l[i], r[j], n) * (xs[i + j] as int)
}

/// The sum of the inner products of every coefficient of `l` with every
/// coefficient of `r`, each multiplied by its power of `x`.
pub open spec fn crosses(l: Seq<Seq<nat>>, r: Seq<Seq<nat>>, xs: Seq<nat>, n: nat, m: nat) -> int {
    sum(|i: int| sum(|j: int| cross(l, r, xs, n, i, j), m), m)
}

/// Whether `xs` holds the powers of `x`, at least the first `k`.
pub open spec fn holds_powers(xs: Seq<nat>, x: nat, k: nat) -> bool {
    xs.len() >= k && forall|i: int| 0 <= i < k ==> xs[i] == field_pow(x, i as nat)
}

/// The inner product of the values of two polynomials stands for the sum
/// of the inner products of their coefficients, each multiplied by its
/// power of `x`.
pub proof fn lemma_product_of_values(
    l: Seq<Seq<nat>>,
    r: Seq<Seq<nat>>,
    xs: Seq<nat>,
    x: nat,
    n: nat,
    m: nat,
)
    requires
        m >= 1,
        l.len() == m,
        r.len() == m,
        uniform(l, n),
        uniform(r, n),
        holds_powers(xs, x, (2 * m - 1) as nat),
    ensures
        congruent(
            inner(evaluation(l, xs, n, m), evaluation(r, xs, n, m)) as int,
            crosses(l, r, xs, n, m),
        ),
{
    let left = evaluation(l, xs, n, m);
    let right = evaluation(r, xs, n, m);
    lemma_evaluation_len(l, xs, n, m);
    lemma_evaluation_len(r, xs, n, m);
    lemma_inner(left, right);
    // Place by place, the values stand for the sums of the terms
    let values = |a: int| sum(terms_at(l, xs, a), m) * sum(terms_at(r, xs, a), m);
    assert forall|a: int| 0 <= a < n implies congruent(#[trigger] dots(left, right)(a), values(a)) by {
        lemma_evaluation(l, xs, n, m, a);
        lemma_evaluation(r, xs, n, m, a);
        lemma_congruent_product(
            left[a] as int,
            sum(terms_at(l, xs, a), m),
            right[a] as int,
            sum(terms_at(r, xs, a), m),
        );
    }
    lemma_sum_congruent(dots(left, right), values, n);
    // The product of the sums is the sum of the products
    let pieces = |a: int| sum(|i: int| sum(|j: int| piece(l, r, xs, a, i, j), m), m);
    assert forall|a: int| 0 <= a < n implies #[trigger] values(a) == pieces(a) by {
        lemma_product_of_sums(l, r, xs, a, m);
    }
    lemma_sum_equal(values, pieces, n);
    lemma_places_innermost(l, r, xs, n, m);
    // Summed over the places, the products are the inner products
    let by_places = |i: int| sum(|j: int| sum(|a: int| piece(l, r, xs, a, i, j), n), m);
    let by_powers = |i: int| sum(|j: int| cross(l, r, xs, n, i, j), m);
    assert forall|i: int| 0 <= i < m implies congruent(#[trigger] by_places(i), by_powers(i)) by {
        let summed = |j: int| sum(|a: int| piece(l, r, xs, a, i, j), n);
        let crossed = |j: int| cross(l, r, xs, n, i, j);
        assert forall|j: int| 0 <= j < m implies congruent(#[trigger] summed(j), crossed(j)) by {
            lemma_pieces_over_places(l, r, xs, i, j, n);
            lemma_powers_multiply(x, i as nat, j as nat);
            lemma_congruent_product(
                dot(l[i], r[j], n),
                dot(l[i], r[j], n),
                (xs[i] * xs[j]) as int,
                xs[i + j] as int,
            );
        }
        lemma_sum_congruent(summed, crossed, m);
    }
    lemma_sum_congruent(by_places, by_powers, m);
}

/// The coefficients of the product of two polynomials, each multiplied by
/// its power of `x`, sum to what stands for the sum of the inner products
/// of the coefficients, each multiplied by its power of `x`.
pub proof fn lemma_value_of_product(
    l: Seq<Seq<nat>>,
    r: Seq<Seq<nat>>,
    xs: Seq<nat>,
    n: nat,
    m: nat,
)
    requires
        m >= 1,
        l.len() == m,
        r.len() == m,
        uniform(l, n),
        uniform(r, n),
        xs.len() >= 2 * m - 1,
    ensures
        congruent(
            weighted_sum(t_poly(l, r), xs, (2 * m - 1) as nat) as int,
            crosses(l, r, xs, n, m),
        ),
{
    let count = (2 * m - 1) as nat;
    let t = t_poly(l, r);
    lemma_weighted_sum(t, xs, count);
    // Each coefficient stands for the sum along its diagonal
    let along = |k: int| sum(diagonal(l, r, k, n), m) * (xs[k] as int);
    assert forall|k: int| 0 <= k < count implies congruent(#[trigger] weights_of(t, xs)(k), along(k)) by {
        lemma_convolution(l, r, k, m, n);
        lemma_congruent_product(
            t[k] as int,
            sum(diagonal(l, r, k, n), m),
            xs[k] as int,
            xs[k] as int,
        );
    }
    lemma_sum_congruent(weights_of(t, xs), along, count);
    // The sums along the diagonals, taken coefficient by coefficient of `l`
    let f = |k: int, i: int| diagonal(l, r, k, n)(i) * (xs[k] as int);
    let by_coefficient = |i: int| sum(|k: int| f(k, i), count);
    assert forall|k: int| 0 <= k < count implies #[trigger] along(k) == sum(|i: int| f(k, i), m) by {
        lemma_sum_scale(diagonal(l, r, k, n), xs[k] as int, m);
        lemma_sum_equal(
            |i: int| diagonal(l, r, k, n)(i) * (xs[k] as int),
            |i: int| f(k, i),
            m,
        );
    }
    lemma_sum_exchange(f, along, by_coefficient, count, m);
    // For each coefficient of `l`, the diagonals it lies on are a window
    let by_powers = |i: int| sum(|j: int| cross(l, r, xs, n, i, j), m);
    assert forall|i: int| 0 <= i < m implies #[trigger] by_coefficient(i) == by_powers(i) by {
        let crossed = |j: int| cross(l, r, xs, n, i, j);
        let column = |k: int| f(k, i);
        let windowed = window(crossed, i, m as int);
        lemma_sum_window(crossed, i as nat, m, count);
        assert forall|k: int| 0 <= k < count implies #[trigger] column(k) == windowed(k) by {
            if 0 <= k - i < m {
                assert(crossed(k - i) == dot(l[i], r[k - i], n) * (xs[i + (k - i)] as int));
            }
        }
        lemma_sum_equal(column, windowed, count);
    }
    lemma_sum_equal(by_coefficient, by_powers, m);
}

/// The inner product of the values of two polynomials at `x` is the value
/// at `x` of their product: the sum of its coefficients, each multiplied by
/// its power of `x`.
pub proof fn law_value_of_the_product(
    l: Seq<Seq<nat>>,
    r: Seq<Seq<nat>>,
    x: nat,
    n: nat,
    m: nat,
)
    requires
        m >= 1,
        l.len() == m,
        r.len() == m,
        uniform(l, n),
        uniform(r, n),
    ensures
        ({
            let xs = crate::scalar_vector::powers(x, (2 * m - 1) as nat);
            inner(evaluation(l, xs, n, m), evaluation(r, xs, n, m)) == weighted_sum(
                t_poly(l, r),
                xs,
                (2 * m - 1) as nat,
            )
        }),
{
    let count = (2 * m - 1) as nat;
    let xs = crate::scalar_vector::powers(x, count);
    lemma_product_of_values(l, r, xs, x, n, m);
    lemma_value_of_product(l, r, xs, n, m);
    let left = inner(evaluation(l, xs, n, m), evaluation(r, xs, n, m));
    let right = weighted_sum(t_poly(l, r), xs, count);
    lemma_evaluation_len(l, xs, n, m);
    lemma_evaluation_len(r, xs, n, m);
    lemma_inner(evaluation(l, xs, n, m), evaluation(r, xs, n, m));
    lemma_weighted_sum(t_poly(l, r), xs, count);
    lemma_congruent_same(left, right);
}

/// Entry `e` of a row: its weight where it stands in column `j`, else
/// zero.
pub open spec fn in_column(row: RowView, j: int) -> spec_fn(int) -> int {
    |e: int|
        if row[e].0 == j {
            row[e].1 as int
        } else {
            0
        }
}

/// What row `q` of a matrix adds to column `j` under its scalar.
pub open spec fn column_terms(rows: Seq<RowView>, z: Seq<nat>, j: int) -> spec_fn(int) -> int {
    |q: int| z[q] * sum(in_column(rows[q], j), rows[q].len())
}

/// The products of a row's weights with the values in their columns.
pub open spec fn row_terms(row: RowView, vals: Seq<nat>) -> spec_fn(int) -> int {
    |e: int| (row[e].1 * vals[row[e].0 as int]) as int
}

/// For each column, its value multiplied by the weights which the first
/// `k` entries of a row have in it.
pub open spec fn over_columns(row: RowView, vals: Seq<nat>, k: nat) -> spec_fn(int) -> int {
    |j: int| vals[j] * sum(in_column(row, j), k)
}

/// For each column, its value multiplied by `w` where it is the column
/// `c`, else zero.
pub open spec fn picked(vals: Seq<nat>, c: int, w: int) -> spec_fn(int) -> int {
    |j: int|
        if c == j {
            vals[j] * w
        } else {
            0
        }
}

/// Over the first `i` rows of a matrix, the row's scalar multiplied by what
/// the row makes of the values: summed from the left.
pub open spec fn weighted_rows(rows: Seq<RowView>, vals: Seq<nat>, z: Seq<nat>, i: nat) -> nat
    decreases i,
{
    if i == 0 {
        0
    } else {
        field_add(
            weighted_rows(rows, vals, z, (i - 1) as nat),
            field_mul(z[i - 1], row_dot(rows[i - 1], vals, rows[i - 1].len())),
        )
    }
}

/// What a row adds to a column stands for the scalar multiplied by the
/// weights which the row has in that column.
proof fn lemma_fold_row(acc: nat, row: RowView, z: nat, j: int, k: nat)
    ensures
        congruent(fold_row(acc, row, z, j, k) as int, acc + z * sum(in_column(row, j), k)),
    decreases k,
{
    if k == 0 {
        assert(z * 0 == 0);
    } else {
        let before = (k - 1) as nat;
        lemma_fold_row(acc, row, z, j, before);
        let rest = fold_row(acc, row, z, j, before);
        let s = sum(in_column(row, j), before);
        if row[k - 1].0 == j {
            let w = row[k - 1].1;
            lemma_field_mul(w, z);
            lemma_field_add(rest, field_mul(w, z));
            lemma_congruent_sum(rest as int, acc + z * s, field_mul(w, z) as int, (w * z) as int);
            assert(acc + z * s + w * z == acc + z * (s + w)) by (nonlinear_arith);
            assert(sum(in_column(row, j), k) == s + w);
        } else {
            assert(sum(in_column(row, j), k) == s + 0);
        }
    }
}

/// A column of what a matrix makes of scalars stands for the sum over the
/// rows of what each adds to it.
proof fn lemma_fold_rows(rows: Seq<RowView>, z: Seq<nat>, j: int, i: nat)
    ensures
        congruent(fold_rows(rows, z, j, i) as int, sum(column_terms(rows, z, j), i)),
    decreases i,
{
    if i > 0 {
        let before = (i - 1) as nat;
        lemma_fold_rows(rows, z, j, before);
        let acc = fold_rows(rows, z, j, before);
        lemma_fold_row(acc, rows[i - 1], z[i - 1], j, rows[i - 1].len());
        let term = z[i - 1] * sum(in_column(rows[i - 1], j), rows[i - 1].len());
        assert(column_terms(rows, z, j)(i - 1) == term);
        lemma_congruent_sum(acc as int, sum(column_terms(rows, z, j), before), term, term);
    }
}

/// What a row makes of values stands for the sum of the products of its
/// weights with the values in their columns.
proof fn lemma_row_dot(row: RowView, vals: Seq<nat>, k: nat)
    ensures
        congruent(row_dot(row, vals, k) as int, sum(row_terms(row, vals), k)),
        row_dot(row, vals, k) < order(),
    decreases k,
{
    lemma_order_positive();
    if k > 0 {
        let before = (k - 1) as nat;
        lemma_row_dot(row, vals, before);
        let w = row[k - 1].1;
        let v = vals[row[k - 1].0 as int];
        lemma_field_mul(w, v);
        lemma_field_add(row_dot(row, vals, before), field_mul(w, v));
        lemma_congruent_sum(
            row_dot(row, vals, before) as int,
            sum(row_terms(row, vals), before),
            field_mul(w, v) as int,
            (w * v) as int,
        );
    }
}

/// Only the column `c` is picked.
proof fn lemma_picked(vals: Seq<nat>, c: int, w: int, n: nat)
    ensures
        sum(picked(vals, c, w), n) == if 0 <= c < n {
            vals[c] * w
        } else {
            0
        },
    decreases n,
{
    if n > 0 {
        lemma_picked(vals, c, w, (n - 1) as nat);
    }
}

/// The values of the columns, each multiplied by the weights a row has in
/// it, add up to the products of the row's weights with the values in their
/// columns.
proof fn lemma_row_over_columns(row: RowView, vals: Seq<nat>, n: nat, k: nat)
    requires
        k <= row.len(),
        forall|e: int| 0 <= e < row.len() ==> (#[trigger] row[e]).0 < n,
    ensures
        sum(over_columns(row, vals, k), n) == sum(row_terms(row, vals), k),
    decreases k,
{
    if k == 0 {
        assert forall|j: int| 0 <= j < n implies #[trigger] over_columns(row, vals, 0)(j) == 0 by {
            assert(vals[j] * 0 == 0);
        }
        lemma_sum_zero(over_columns(row, vals, 0), n);
    } else {
        let before = (k - 1) as nat;
        lemma_row_over_columns(row, vals, n, before);
        let c = row[k - 1].0 as int;
        let w = row[k - 1].1 as int;
        let earlier = over_columns(row, vals, before);
        let last = picked(vals, c, w);
        let both = |j: int| earlier(j) + last(j);
        assert forall|j: int| 0 <= j < n implies #[trigger] over_columns(row, vals, k)(j) == both(
            j,
        ) by {
            let s = sum(in_column(row, j), before);
            if c == j {
                assert(sum(in_column(row, j), k) == s + w);
                assert(vals[j] * (s + w) == vals[j] * s + vals[j] * w) by (nonlinear_arith);
            } else {
                assert(sum(in_column(row, j), k) == s + 0);
            }
        }
        lemma_sum_equal(over_columns(row, vals, k), both, n);
        lemma_sum_add(earlier, last, n);
        lemma_picked(vals, c, w, n);
        assert(row_terms(row, vals)(k - 1) == w * vals[c]);
        assert(vals[c] * w == w * vals[c]) by (nonlinear_arith);
    }
}

/// The rows' scalars, each multiplied by what its row makes of the values,
/// stand for the sum over the rows.
proof fn lemma_weighted_rows(rows: Seq<RowView>, vals: Seq<nat>, z: Seq<nat>, i: nat)
    ensures
        congruent(
            weighted_rows(rows, vals, z, i) as int,
            sum(|q: int| z[q] * sum(row_terms(rows[q], vals), rows[q].len()), i),
        ),
        weighted_rows(rows, vals, z, i) < order(),
    decreases i,
{
    lemma_order_positive();
    if i > 0 {
        let before = (i - 1) as nat;
        let terms = |q: int| z[q] * sum(row_terms(rows[q], vals), rows[q].len());
        lemma_weighted_rows(rows, vals, z, before);
        let row = rows[i - 1];
        lemma_row_dot(row, vals, row.len());
        lemma_field_mul(z[i - 1], row_dot(row, vals, row.len()));
        lemma_congruent_product(
            z[i - 1] as int,
            z[i - 1] as int,
            row_dot(row, vals, row.len()) as int,
            sum(row_terms(row, vals), row.len()),
        );
        lemma_field_add(
            weighted_rows(rows, vals, z, before),
            field_mul(z[i - 1], row_dot(row, vals, row.len())),
        );
        lemma_congruent_sum(
            weighted_rows(rows, vals, z, before) as int,
            sum(terms, before),
            field_mul(z[i - 1], row_dot(row, vals, row.len())) as int,
            terms(i - 1),
        );
    }
}

/// To weigh the values by what a matrix makes of the rows' scalars is to
/// weigh, by its scalar, what each row makes of the values: `W(z) . v` is
/// the sum over the rows `q` of `z[q] * (W[q] . v)`.
pub proof fn law_weighing_columns_is_weighing_rows(
    rows: Seq<RowView>,
    n: nat,
    z: Seq<nat>,
    vals: Seq<nat>,
)
    requires
        columns_below(rows, n),
        vals.len() == n,
    ensures
        inner(apply(rows, n, z), vals) == weighted_rows(rows, vals, z, rows.len()),
{
    lemma_order_positive();
    let count = rows.len();
    let made = apply(rows, n, z);
    lemma_inner(made, vals);
    lemma_weighted_rows(rows, vals, z, count);
    let f = |j: int, q: int| vals[j] * column_terms(rows, z, j)(q);
    let by_column = |j: int| sum(|q: int| f(j, q), count);
    let by_row = |q: int| sum(|j: int| f(j, q), n);
    // Each place of the inner product stands for the column's sum over the rows
    assert forall|j: int| 0 <= j < n implies congruent(#[trigger] dots(made, vals)(j), by_column(j)) by {
        lemma_fold_rows(rows, z, j, count);
        let whole = sum(column_terms(rows, z, j), count);
        lemma_congruent_product(made[j] as int, whole, vals[j] as int, vals[j] as int);
        lemma_sum_scale(column_terms(rows, z, j), vals[j] as int, count);
        let scaled = |q: int| column_terms(rows, z, j)(q) * (vals[j] as int);
        let here = |q: int| f(j, q);
        assert forall|q: int| 0 <= q < count implies #[trigger] scaled(q) == here(q) by {
            assert(column_terms(rows, z, j)(q) * (vals[j] as int) == vals[j] * column_terms(
                rows,
                z,
                j,
            )(q)) by (nonlinear_arith);
        }
        lemma_sum_equal(scaled, here, count);
    }
    lemma_sum_congruent(dots(made, vals), by_column, n);
    lemma_sum_exchange(f, by_column, by_row, n, count);
    // Each row's sum over the columns is its scalar and what it makes of the values
    let terms = |q: int| z[q] * sum(row_terms(rows[q], vals), rows[q].len());
    assert forall|q: int| 0 <= q < count implies #[trigger] by_row(q) == terms(q) by {
        let row = rows[q];
        assert forall|e: int| 0 <= e < row.len() implies (#[trigger] row[e]).0 < n by {
            assert(rows[q][e].0 < n);
        }
        lemma_row_over_columns(row, vals, n, row.len());
        lemma_sum_scale(over_columns(row, vals, row.len()), z[q] as int, n);
        let scaled = |j: int| over_columns(row, vals, row.len())(j) * (z[q] as int);
        let here = |j: int| f(j, q);
        assert forall|j: int| 0 <= j < n implies #[trigger] scaled(j) == here(j) by {
            let s = sum(in_column(row, j), row.len());
            assert((vals[j] * s) * (z[q] as int) == vals[j] * (z[q] * s)) by (nonlinear_arith);
        }
        lemma_sum_equal(scaled, here, n);
        assert(sum(row_terms(row, vals), row.len()) * (z[q] as int) == z[q] * sum(
            row_terms(row, vals),
            row.len(),
        )) by (nonlinear_arith);
    }
    lemma_sum_equal(by_row, terms, count);
    vstd::arithmetic::div_mod::lemma_small_mod(inner(made, vals), order());
    vstd::arithmetic::div_mod::lemma_small_mod(weighted_rows(rows, vals, z, count), order());
}

/// A sum of differences is the difference of the two sums.
pub proof fn lemma_sum_sub(f: spec_fn(int) -> int, g: spec_fn(int) -> int, n: nat)
    ensures
        sum(|i: int| f(i) - g(i), n) == sum(f, n) - sum(g, n),
    decreases n,
{
    if n > 0 {
        lemma_sum_sub(f, g, (n - 1) as nat);
    }
}

/// A sum may be taken in two parts.
pub proof fn lemma_sum_split(f: spec_fn(int) -> int, a: nat, b: nat)
    ensures
        sum(f, a + b) == sum(f, a) + sum(|i: int| f(a + i), b),
    decreases b,
{
    if b > 0 {
        lemma_sum_split(f, a, (b - 1) as nat);
        assert(a + b - 1 == a + (b - 1));
    }
}

/// A sum may be taken from the end.
pub proof fn lemma_sum_reverse(f: spec_fn(int) -> int, n: nat)
    ensures
        sum(|i: int| f(n - 1 - i), n) == sum(f, n),
    decreases n,
{
    if n > 0 {
        let before = (n - 1) as nat;
        let shifted = |j: int| f(1 + j);
        let back = |i: int| f(n - 1 - i);
        let shifted_back = |i: int| shifted(before - 1 - i);
        lemma_sum_reverse(shifted, before);
        assert forall|i: int| 0 <= i < before implies #[trigger] back(i) == shifted_back(i) by {
            assert(n - 1 - i == 1 + (before - 1 - i));
        }
        lemma_sum_equal(back, shifted_back, before);
        lemma_sum_split(f, 1, before);
        assert(sum(f, 1) == f(0)) by {
            assert(sum(f, 0) == 0);
        }
        assert(back(n - 1) == f(0));
        assert(1 + before == n);
    }
}

/// The inner product of integers does not depend on the order of the two
/// vectors.
pub proof fn lemma_dot_commutes(a: Seq<nat>, b: Seq<nat>, n: nat)
    ensures
        dot(a, b, n) == dot(b, a, n),
{
    assert forall|k: int| 0 <= k < n implies #[trigger] dots(a, b)(k) == dots(b, a)(k) by {
        assert(a[k] * b[k] == b[k] * a[k]) by (nonlinear_arith);
    }
    lemma_sum_equal(dots(a, b), dots(b, a), n);
}

/// The inner product with a sum of the field stands for the sum of the
/// inner products.
pub proof fn lemma_dot_sum(u: Seq<nat>, v: Seq<nat>, b: Seq<nat>, n: nat)
    requires
        n <= u.len(),
    ensures
        congruent(dot(vec_add(u, v), b, n), dot(u, b, n) + dot(v, b, n)),
        congruent(dot(b, vec_add(u, v), n), dot(b, u, n) + dot(b, v, n)),
{
    let f = dots(u, b);
    let g = dots(v, b);
    let both = |k: int| f(k) + g(k);
    assert forall|k: int| 0 <= k < n implies congruent(
        #[trigger] dots(vec_add(u, v), b)(k),
        both(k),
    ) by {
        lemma_field_add(u[k], v[k]);
        lemma_congruent_product(
            field_add(u[k], v[k]) as int,
            (u[k] + v[k]) as int,
            b[k] as int,
            b[k] as int,
        );
        assert((u[k] + v[k]) * b[k] == u[k] * b[k] + v[k] * b[k]) by (nonlinear_arith);
    }
    lemma_sum_congruent(dots(vec_add(u, v), b), both, n);
    lemma_sum_add(f, g, n);
    lemma_dot_commutes(b, vec_add(u, v), n);
    lemma_dot_commutes(b, u, n);
    lemma_dot_commutes(b, v, n);
}

/// The inner product with a difference of the field stands for the
/// difference of the inner products.
pub proof fn lemma_dot_difference(a: Seq<nat>, u: Seq<nat>, v: Seq<nat>, n: nat)
    requires
        n <= u.len(),
    ensures
        congruent(dot(a, vec_sub(u, v), n), dot(a, u, n) - dot(a, v, n)),
{
    lemma_order_positive();
    let f = dots(a, u);
    let g = dots(a, v);
    let both = |k: int| f(k) - g(k);
    assert forall|k: int| 0 <= k < n implies congruent(
        #[trigger] dots(a, vec_sub(u, v))(k),
        both(k),
    ) by {
        vstd::arithmetic::div_mod::lemma_mod_twice(u[k] as int - v[k] as int, order() as int);
        vstd::arithmetic::div_mod::lemma_mod_bound(u[k] as int - v[k] as int, order() as int);
        lemma_congruent_product(
            a[k] as int,
            a[k] as int,
            field_sub(u[k], v[k]) as int,
            u[k] as int - v[k] as int,
        );
        assert(a[k] * (u[k] as int - v[k] as int) == a[k] * u[k] - a[k] * v[k])
            by (nonlinear_arith);
    }
    lemma_sum_congruent(dots(a, vec_sub(u, v)), both, n);
    lemma_sum_sub(f, g, n);
}

/// Factors whose product is one place by place leave the inner product
/// as it was.
pub proof fn lemma_dot_cancels(u: Seq<nat>, p: Seq<nat>, v: Seq<nat>, q: Seq<nat>, n: nat)
    requires
        n <= u.len(),
        n <= v.len(),
        forall|k: int| 0 <= k < n ==> field_mul(#[trigger] p[k], q[k]) == 1,
    ensures
        congruent(dot(vec_mul(u, p), vec_mul(v, q), n), dot(u, v, n)),
{
    assert forall|k: int| 0 <= k < n implies congruent(
        #[trigger] dots(vec_mul(u, p), vec_mul(v, q))(k),
        dots(u, v)(k),
    ) by {
        lemma_field_mul(u[k], p[k]);
        lemma_field_mul(v[k], q[k]);
        lemma_field_mul(p[k], q[k]);
        lemma_congruent_product(
            field_mul(u[k], p[k]) as int,
            (u[k] * p[k]) as int,
            field_mul(v[k], q[k]) as int,
            (v[k] * q[k]) as int,
        );
        assert((u[k] * p[k]) * (v[k] * q[k]) == (u[k] * v[k]) * (p[k] * q[k])) by (nonlinear_arith);
        lemma_congruent_product((u[k] * v[k]) as int, (u[k] * v[k]) as int, (p[k] * q[k]) as int, 1);
    }
    lemma_sum_congruent(dots(vec_mul(u, p), vec_mul(v, q)), dots(u, v), n);
}

/// A factor may be moved from one side of the inner product to the other.
pub proof fn lemma_dot_moves(a: Seq<nat>, b: Seq<nat>, y: Seq<nat>, n: nat)
    requires
        n <= a.len(),
        n <= b.len(),
    ensures
        congruent(dot(a, vec_mul(b, y), n), dot(vec_mul(a, b), y, n)),
{
    assert forall|k: int| 0 <= k < n implies congruent(
        #[trigger] dots(a, vec_mul(b, y))(k),
        dots(vec_mul(a, b), y)(k),
    ) by {
        lemma_field_mul(b[k], y[k]);
        lemma_field_mul(a[k], b[k]);
        lemma_congruent_product(
            a[k] as int,
            a[k] as int,
            field_mul(b[k], y[k]) as int,
            (b[k] * y[k]) as int,
        );
        lemma_congruent_product(
            field_mul(a[k], b[k]) as int,
            (a[k] * b[k]) as int,
            y[k] as int,
            y[k] as int,
        );
        assert(a[k] * (b[k] * y[k]) == (a[k] * b[k]) * y[k]) by (nonlinear_arith);
    }
    lemma_sum_congruent(dots(a, vec_mul(b, y)), dots(vec_mul(a, b), y), n);
}

/// The inner product with zeros is zero.
pub proof fn lemma_dot_zeros(b: Seq<nat>, n: nat)
    ensures
        dot(zeros(n), b, n) == 0,
        dot(b, zeros(n), n) == 0,
{
    assert forall|k: int| 0 <= k < n implies #[trigger] dots(zeros(n), b)(k) == 0 by {
        assert(0 * b[k] == 0);
    }
    lemma_sum_zero(dots(zeros(n), b), n);
    lemma_dot_commutes(b, zeros(n), n);
}

/// The powers of a scalar and of its inverse are inverses of each other.
pub proof fn lemma_powers_inverse(y: nat, inv: nat, k: nat)
    requires
        field_mul(y, inv) == 1,
    ensures
        field_mul(field_pow(inv, k), field_pow(y, k)) == 1,
    decreases k,
{
    lemma_order_positive();
    if k == 0 {
        vstd::arithmetic::div_mod::lemma_small_mod(1, order());
        assert(field_pow(inv, 0) == 1 && field_pow(y, 0) == 1);
        assert(1 * 1 == 1);
    } else {
        let before = (k - 1) as nat;
        lemma_powers_inverse(y, inv, before);
        let p = field_pow(inv, before);
        let q = field_pow(y, before);
        lemma_field_mul(p, inv);
        lemma_field_mul(q, y);
        lemma_field_mul(p, q);
        lemma_field_mul(y, inv);
        lemma_field_mul(field_mul(p, inv), field_mul(q, y));
        lemma_congruent_product(
            field_mul(p, inv) as int,
            (p * inv) as int,
            field_mul(q, y) as int,
            (q * y) as int,
        );
        assert((p * inv) * (q * y) == (p * q) * (y * inv)) by (nonlinear_arith);
        lemma_congruent_product((p * q) as int, 1, (y * inv) as int, 1);
        vstd::arithmetic::div_mod::lemma_small_mod(1, order());
    }
}

/// For each row of a matrix, its scalar multiplied by what the row makes
/// of the values.
pub open spec fn row_values(rows: Seq<RowView>, vals: Seq<nat>, z: Seq<nat>) -> spec_fn(int) -> int {
    |q: int| (z[q] * row_dot(rows[q], vals, rows[q].len())) as int
}

/// The rows' scalars, each multiplied by what its row makes of the values,
/// stand for the sum of these products.
pub proof fn lemma_weighted_rows_values(rows: Seq<RowView>, vals: Seq<nat>, z: Seq<nat>, i: nat)
    ensures
        congruent(weighted_rows(rows, vals, z, i) as int, sum(row_values(rows, vals, z), i)),
    decreases i,
{
    if i > 0 {
        let before = (i - 1) as nat;
        lemma_weighted_rows_values(rows, vals, z, before);
        let made = row_dot(rows[i - 1], vals, rows[i - 1].len());
        lemma_field_mul(z[i - 1], made);
        lemma_field_add(weighted_rows(rows, vals, z, before), field_mul(z[i - 1], made));
        lemma_congruent_sum(
            weighted_rows(rows, vals, z, before) as int,
            sum(row_values(rows, vals, z), before),
            field_mul(z[i - 1], made) as int,
            (z[i - 1] * made) as int,
        );
    }
}

/// The inner product of the values with what a matrix makes of the rows'
/// scalars stands for the sum over the rows of the row's scalar multiplied
/// by what the row makes of the values.
pub proof fn lemma_dot_of_applied(rows: Seq<RowView>, n: nat, z: Seq<nat>, vals: Seq<nat>)
    requires
        columns_below(rows, n),
        vals.len() == n,
    ensures
        congruent(dot(apply(rows, n, z), vals, n), sum(row_values(rows, vals, z), rows.len())),
        congruent(dot(vals, apply(rows, n, z), n), sum(row_values(rows, vals, z), rows.len())),
{
    lemma_inner(apply(rows, n, z), vals);
    law_weighing_columns_is_weighing_rows(rows, n, z, vals);
    lemma_weighted_rows_values(rows, vals, z, rows.len());
    lemma_dot_commutes(vals, apply(rows, n, z), n);
}

/// For each vector commitment, what row `q` of its weights makes of its
/// values.
pub open spec fn commitment_terms(ws: Seq<Seq<RowView>>, q: int, vals: Seq<Seq<nat>>) -> spec_fn(
    int,
) -> int {
    |j: int| row_dot(ws[j][q], vals[j], ws[j][q].len()) as int
}

/// What the weights on the vector commitments make of their values in one
/// row stands for the sum over the commitments.
pub proof fn lemma_commitment_rows(ws: Seq<Seq<RowView>>, q: int, vals: Seq<Seq<nat>>, k: nat)
    ensures
        congruent(commitment_rows(ws, q, vals, k) as int, sum(commitment_terms(ws, q, vals), k)),
    decreases k,
{
    if k > 0 {
        let before = (k - 1) as nat;
        lemma_commitment_rows(ws, q, vals, before);
        let made = row_dot(ws[k - 1][q], vals[k - 1], ws[k - 1][q].len());
        lemma_field_add(commitment_rows(ws, q, vals, before), made);
        lemma_congruent_sum(
            commitment_rows(ws, q, vals, before) as int,
            sum(commitment_terms(ws, q, vals), before),
            made as int,
            made as int,
        );
    }
}

/// A sum in two parts, the second given as a function of its own.
pub proof fn lemma_sum_parts(f: spec_fn(int) -> int, g: spec_fn(int) -> int, a: nat, b: nat)
    requires
        forall|i: int| 0 <= i < b ==> #[trigger] g(i) == f(a + i),
    ensures
        sum(f, a + b) == sum(f, a) + sum(g, b),
{
    lemma_sum_split(f, a, b);
    lemma_sum_equal(g, |i: int| f(a + i), b);
}

/// A sum from the end, given as a function of its own.
pub proof fn lemma_sum_reversed(f: spec_fn(int) -> int, g: spec_fn(int) -> int, n: nat)
    requires
        forall|i: int| 0 <= i < n ==> #[trigger] g(i) == f(n - 1 - i),
    ensures
        sum(g, n) == sum(f, n),
{
    lemma_sum_reverse(f, n);
    lemma_sum_equal(g, |i: int| f(n - 1 - i), n);
}

/// The inner products which make the coefficient of the circuit's own
/// terms: the products of the inputs cancel against the outputs, and what
/// is left is the constant of the weights and what the weights make of the
/// inputs and the outputs.
pub proof fn lemma_center(
    wl: Seq<nat>,
    wr: Seq<nat>,
    wo: Seq<nat>,
    a_l: Seq<nat>,
    a_r: Seq<nat>,
    a_o: Seq<nat>,
    y_inv: Seq<nat>,
    ys: Seq<nat>,
    n: nat,
)
    requires
        wl.len() == n,
        wr.len() == n,
        wo.len() == n,
        a_l.len() == n,
        a_r.len() == n,
        a_o == vec_mul(a_l, a_r),
        forall|k: int| 0 <= k < n ==> field_mul(#[trigger] y_inv[k], ys[k]) == 1,
    ensures
        congruent(
            dot(vec_add(vec_mul(wr, y_inv), a_l), vec_add(wl, vec_mul(a_r, ys)), n) + dot(
                a_o,
                vec_sub(wo, ys),
                n,
            ),
            inner(vec_mul(wr, y_inv), wl) + dot(wr, a_r, n) + dot(a_l, wl, n) + dot(a_o, wo, n),
        ),
{
    let p = vec_mul(wr, y_inv);
    let right = vec_add(wl, vec_mul(a_r, ys));
    lemma_dot_sum(p, a_l, right, n);
    lemma_dot_sum(wl, vec_mul(a_r, ys), p, n);
    lemma_dot_sum(wl, vec_mul(a_r, ys), a_l, n);
    lemma_inner(p, wl);
    lemma_dot_cancels(wr, y_inv, a_r, ys, n);
    lemma_dot_moves(a_l, a_r, ys, n);
    lemma_dot_difference(a_o, wo, ys, n);
    let whole = dot(vec_add(p, a_l), right, n);
    let d1 = dot(p, wl, n);
    let d2 = dot(p, vec_mul(a_r, ys), n);
    let d3 = dot(a_l, wl, n);
    let d4 = dot(a_l, vec_mul(a_r, ys), n);
    let last = dot(a_o, vec_sub(wo, ys), n);
    // The whole is the four products of the parts
    lemma_congruent_sum(dot(p, right, n), d1 + d2, dot(a_l, right, n), d3 + d4);
    assert(congruent(whole, (d1 + d2) + (d3 + d4)));
    // Each part is what it stands for
    lemma_congruent_sum(d1, inner(p, wl) as int, d2, dot(wr, a_r, n));
    lemma_congruent_sum(d3, d3, d4, dot(a_o, ys, n));
    lemma_congruent_sum(
        d1 + d2,
        inner(p, wl) + dot(wr, a_r, n),
        d3 + d4,
        d3 + dot(a_o, ys, n),
    );
    lemma_congruent_sum(
        whole,
        (inner(p, wl) + dot(wr, a_r, n)) + (d3 + dot(a_o, ys, n)),
        last,
        dot(a_o, wo, n) - dot(a_o, ys, n),
    );
}

/// For each vector commitment, the inner product of its values with what
/// its weights make of the rows' scalars.
pub open spec fn applied_terms(
    ws: Seq<Seq<RowView>>,
    vals: Seq<Seq<nat>>,
    z: Seq<nat>,
    n: nat,
) -> spec_fn(int) -> int {
    |j: int| dot(vals[j], apply(ws[j], n, z), n)
}

/// For each row, its scalar multiplied by what the row of each vector
/// commitment's weights makes of the commitment's values.
pub open spec fn weighted_commitments(
    ws: Seq<Seq<RowView>>,
    vals: Seq<Seq<nat>>,
    z: Seq<nat>,
) -> spec_fn(int) -> int {
    |q: int| z[q] * sum(commitment_terms(ws, q, vals), ws.len())
}

/// To weigh each vector commitment's values by what its weights make of
/// the rows' scalars is to weigh, by its scalar, what each row makes of
/// them all.
pub proof fn lemma_commitment_side(
    ws: Seq<Seq<RowView>>,
    vals: Seq<Seq<nat>>,
    z: Seq<nat>,
    n: nat,
    rows: nat,
)
    requires
        vals.len() == ws.len(),
        forall|j: int| 0 <= j < ws.len() ==> (#[trigger] ws[j]).len() == rows,
        forall|j: int| 0 <= j < ws.len() ==> columns_below(#[trigger] ws[j], n),
        forall|j: int| 0 <= j < ws.len() ==> (#[trigger] vals[j]).len() == n,
    ensures
        congruent(
            sum(applied_terms(ws, vals, z, n), ws.len()),
            sum(weighted_commitments(ws, vals, z), rows),
        ),
{
    let count = ws.len();
    let f = |j: int, q: int| row_values(ws[j], vals[j], z)(q);
    let by_commitment = |j: int| sum(|q: int| f(j, q), rows);
    let by_row = |q: int| sum(|j: int| f(j, q), count);
    assert forall|j: int| 0 <= j < count implies congruent(
        #[trigger] applied_terms(ws, vals, z, n)(j),
        by_commitment(j),
    ) by {
        lemma_dot_of_applied(ws[j], n, z, vals[j]);
        lemma_sum_equal(row_values(ws[j], vals[j], z), |q: int| f(j, q), rows);
    }
    lemma_sum_congruent(applied_terms(ws, vals, z, n), by_commitment, count);
    lemma_sum_exchange(f, by_commitment, by_row, count, rows);
    assert forall|q: int| 0 <= q < rows implies #[trigger] by_row(q) == weighted_commitments(
        ws,
        vals,
        z,
    )(q) by {
        let terms = commitment_terms(ws, q, vals);
        lemma_sum_scale(terms, z[q] as int, count);
        let scaled = |j: int| terms(j) * (z[q] as int);
        let here = |j: int| f(j, q);
        assert forall|j: int| 0 <= j < count implies #[trigger] scaled(j) == here(j) by {
            let made = row_dot(ws[j][q], vals[j], ws[j][q].len());
            assert(made * z[q] == z[q] * made) by (nonlinear_arith);
        }
        lemma_sum_equal(scaled, here, count);
        assert(sum(terms, count) * (z[q] as int) == z[q] * sum(terms, count)) by (nonlinear_arith);
    }
    lemma_sum_equal(by_row, weighted_commitments(ws, vals, z), rows);
}

} // verus!
