//! The integer skeleton of the composite Simpson rule: how many
//! sub-intervals are used and which weight each sample point gets.
//!
//! The rule approximates the integral of `f` over `[a, b]` by
//! `h / 3 * sum_i w_i * f(a + i * h)` with `h = (b - a) / m`, where `m` is the
//! number of sub-intervals (always even) and the weights follow the pattern
//! `1, 4, 2, 4, 2, ..., 2, 4, 1`.

use vstd::prelude::*;

verus! {

/// The number of sub-intervals actually used for a request of `n`: `n`
/// itself when it is even, the next even number otherwise.
pub open spec fn even_intervals(n: int) -> int {
    if n % 2 != 0 {
        n + 1
    } else {
        n
    }
}

/// Weight of sample point `i` when the interval is cut into `m` pieces: the
/// two end points weigh 1, the odd inner points 4 and the even inner points 2.
pub open spec fn simpson_coefficient(m: int, i: int) -> int {
    if i == 0 || i == m {
        1
    } else if i % 2 == 1 {
        4
    } else {
        2
    }
}

/// The number of sub-intervals used is the least even number that is not
/// below the number requested.
pub proof fn even_intervals_is_least_even_not_below(n: int)
    requires
        n >= 0,
    ensures
        even_intervals(n) % 2 == 0,
        n <= even_intervals(n) <= n + 1,
{
}

/// Rounds a requested number of sub-intervals up to the next even number.
pub fn simpson_intervals(n: usize) -> (m: usize)
    requires
        n % 2 == 0 || n < usize::MAX,
    ensures
        m == even_intervals(n as int),
        m % 2 == 0,
        n <= m <= n + 1,
{
    proof {
        even_intervals_is_least_even_not_below(n as int);
    }
    if n % 2 != 0 {
        n + 1
    } else {
        n
    }
}

/// The weights of the sample points `0, 1, ..., m` for a request of `n`
/// sub-intervals, where `m` is `n` rounded up to an even number.
pub fn simpson_coefficients(n: usize) -> (weights: Vec<u32>)
    requires
        even_intervals(n as int) < usize::MAX,
    ensures
        weights.len() == even_intervals(n as int) + 1,
        weights.len() % 2 == 1,
        n + 1 <= weights.len() <= n + 2,
        forall|i: int|
            0 <= i < weights.len() ==> #[trigger] weights[i] == simpson_coefficient(
                even_intervals(n as int),
                i,
            ),
{
    let m = simpson_intervals(n);
    let mut weights: Vec<u32> = Vec::new();
    let mut i: usize = 0;
    while i <= m
        invariant
            m == even_intervals(n as int),
            m < usize::MAX,
            i <= m + 1,
            weights.len() == i,
            forall|t: int| 0 <= t < i ==> #[trigger] weights[t] == simpson_coefficient(m as int, t),
        decreases m + 1 - i,
    {
        let w: u32 = if i == 0 || i == m {
            1
        } else if i % 2 == 1 {
            4
        } else {
            2
        };
        weights.push(w);
        i += 1;
    }
    weights
}

/// `x` to the power `p`.
pub open spec fn power(x: int, p: nat) -> int
    decreases p,
{
    if p == 0 {
        1
    } else {
        x * power(x, (p - 1) as nat)
    }
}

/// Sum of `w_i * i^p` over the sample points `i < k` of an `m`-piece rule.
pub open spec fn partial_moment(m: int, p: nat, k: int) -> int
    decreases k,
{
    if k <= 0 {
        0
    } else {
        partial_moment(m, p, k - 1) + simpson_coefficient(m, k - 1) * power(k - 1, p)
    }
}

/// What the rule with unit step gives, times 3, for `x^p` over `[0, m]`:
/// the weighted sum of `i^p` over all sample points `0..=m`.
pub open spec fn simpson_moment(m: int, p: nat) -> int {
    partial_moment(m, p, m + 1)
}

proof fn lemma_prefix_unchanged(m: int, p: nat, k: int)
    requires
        m >= 1,
        0 <= k <= m,
    ensures
        partial_moment(m + 2, p, k) == partial_moment(m, p, k),
    decreases k,
{
    if k > 0 {
        lemma_prefix_unchanged(m, p, k - 1);
        assert(simpson_coefficient(m + 2, k - 1) == simpson_coefficient(m, k - 1));
    }
}

proof fn lemma_two_more_pieces(m: int, p: nat)
    requires
        m >= 2,
        m % 2 == 0,
    ensures
        simpson_moment(m + 2, p) == simpson_moment(m, p) + power(m, p) + 4 * power(m + 1, p)
            + power(m + 2, p),
{
    lemma_prefix_unchanged(m, p, m);
    assert(simpson_coefficient(m + 2, m) == 2);
    assert(simpson_coefficient(m + 2, m + 1) == 4);
    assert(simpson_coefficient(m + 2, m + 2) == 1);
    assert(simpson_coefficient(m, m) == 1);
    assert(partial_moment(m + 2, p, m + 1) == partial_moment(m + 2, p, m) + 2 * power(m, p));
    assert(partial_moment(m + 2, p, m + 2) == partial_moment(m + 2, p, m + 1) + 4 * power(m + 1, p));
    assert(partial_moment(m + 2, p, m + 3) == partial_moment(m + 2, p, m + 2) + power(m + 2, p));
    assert(partial_moment(m, p, m + 1) == partial_moment(m, p, m) + power(m, p));
}

proof fn lemma_powers(x: int)
    ensures
        power(x, 0) == 1,
        power(x, 1) == x,
        power(x, 2) == x * x,
        power(x, 3) == x * x * x,
{
    reveal_with_fuel(power, 4);
    assert(x * (x * x) == x * x * x) by (nonlinear_arith);
}

/// The composite Simpson rule is exact for polynomials up to degree three:
/// with unit step over `[0, m]` (any even `m` from 2 on), `sum w_i * i^p`
/// equals three times the integral of `x^p`, that is `3m`, `3m^2 / 2`, `m^3`
/// and `3m^4 / 4` for `p = 0, 1, 2, 3`.
pub proof fn simpson_rule_exact_for_cubics(m: int)
    requires
        m >= 2,
        m % 2 == 0,
    ensures
        simpson_moment(m, 0) == 3 * m,
        2 * simpson_moment(m, 1) == 3 * m * m,
        simpson_moment(m, 2) == m * m * m,
        4 * simpson_moment(m, 3) == 3 * m * m * m * m,
    decreases m,
{
    if m == 2 {
        lemma_powers(0);
        lemma_powers(1);
        lemma_powers(2);
        reveal_with_fuel(partial_moment, 4);
    } else {
        let k = m - 2;
        simpson_rule_exact_for_cubics(k);
        lemma_two_more_pieces(k, 0);
        lemma_two_more_pieces(k, 1);
        lemma_two_more_pieces(k, 2);
        lemma_two_more_pieces(k, 3);
        lemma_powers(k);
        lemma_powers(k + 1);
        lemma_powers(k + 2);
        assert(2 * simpson_moment(m, 1) == 3 * m * m) by (nonlinear_arith)
            requires
                2 * simpson_moment(k, 1) == 3 * k * k,
                simpson_moment(m, 1) == simpson_moment(k, 1) + k + 4 * (k + 1) + (k + 2),
                m == k + 2,
        ;
        assert(simpson_moment(m, 2) == m * m * m) by (nonlinear_arith)
            requires
                simpson_moment(k, 2) == k * k * k,
                simpson_moment(m, 2) == simpson_moment(k, 2) + k * k + 4 * ((k + 1) * (k + 1)) + (k
                    + 2) * (k + 2),
                m == k + 2,
        ;
        assert(4 * simpson_moment(m, 3) == 3 * m * m * m * m) by (nonlinear_arith)
            requires
                4 * simpson_moment(k, 3) == 3 * k * k * k * k,
                simpson_moment(m, 3) == simpson_moment(k, 3) + k * k * k + 4 * ((k + 1) * (k + 1) * (
                k + 1)) + (k + 2) * (k + 2) * (k + 2),
                m == k + 2,
        ;
    }
}

/// The weights read the same from both ends.
pub proof fn simpson_weights_symmetric(m: int, i: int)
    requires
        m % 2 == 0,
        0 <= i <= m,
    ensures
        simpson_coefficient(m, i) == simpson_coefficient(m, m - i),
{
}

} // verus!
