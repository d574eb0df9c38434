//! Search plan of the calibration: the coarse parameter grid, the choice of
//! the starting points for the local searches, and the choice of the winner.
//!
//! Costs are ranked through integer keys: a key orders candidates as their
//! costs do, so the library never handles the costs themselves.

use vstd::prelude::*;

verus! {

/// `i` ranks before `j`: a lower key first and, among equal keys, the
/// candidate that came first.
pub open spec fn ranks_before(keys: Seq<u64>, i: int, j: int) -> bool {
    keys[i] < keys[j] || (keys[i] == keys[j] && i < j)
}

/// `sel` lists, best first, the `count` best-ranked candidates (all of them
/// when there are fewer): what a stable sort by key followed by a truncation
/// to `count` leaves.
pub open spec fn is_start_selection(keys: Seq<u64>, count: int, sel: Seq<usize>) -> bool {
    &&& sel.len() == if count < keys.len() { count } else { keys.len() as int }
    &&& forall|r: int| 0 <= r < sel.len() ==> #[trigger] sel[r] < keys.len()
    &&& forall|r: int, s: int|
        0 <= r < s < sel.len() ==> ranks_before(keys, #[trigger] sel[r] as int, #[trigger] sel[s] as int)
    &&& forall|j: int, r: int|
        #![trigger sel.contains(j as usize), sel[r]]
        0 <= j < keys.len() && !sel.contains(j as usize) && 0 <= r < sel.len() ==> ranks_before(
            keys,
            sel[r] as int,
            j,
        )
}

fn ranks_before_exec(keys: &Vec<u64>, i: usize, j: usize) -> (b: bool)
    requires
        i < keys.len(),
        j < keys.len(),
    ensures
        b == ranks_before(keys@, i as int, j as int),
{
    keys[i] < keys[j] || (keys[i] == keys[j] && i < j)
}

/// Indices of the `count` candidates with the lowest keys, best first; among
/// equal keys the earlier candidate comes first.
pub fn select_starts(keys: &Vec<u64>, count: usize) -> (sel: Vec<usize>)
    ensures
        is_start_selection(keys@, count as int, sel@),
{
    let n = keys.len();
    let target = if count < n { count } else { n };
    let mut sel: Vec<usize> = Vec::new();
    let mut rest: Vec<usize> = Vec::new();
    let mut i: usize = 0;
    while i < n
        invariant
            i <= n,
            n == keys.len(),
            rest.len() == i,
            forall|q: int| 0 <= q < i ==> #[trigger] rest[q] == q,
        decreases n - i,
    {
        rest.push(i);
        i += 1;
    }
    assert forall|j: int| 0 <= j < n implies #[trigger] rest@.contains(j as usize) by {
        assert(rest@[j] == j as usize);
    }
    while sel.len() < target
        invariant
            n == keys.len(),
            target <= n,
            target == if count < n { count } else { n },
            sel.len() <= target,
            sel.len() + rest.len() == n,
            forall|q: int| 0 <= q < rest.len() ==> #[trigger] rest[q] < n,
            forall|r: int| 0 <= r < sel.len() ==> #[trigger] sel[r] < n,
            forall|p: int, q: int| 0 <= p < q < rest.len() ==> #[trigger] rest[p] != #[trigger] rest[q],
            forall|r: int, s: int|
                0 <= r < s < sel.len() ==> ranks_before(keys@, #[trigger] sel[r] as int, #[trigger] sel[s] as int),
            forall|r: int, q: int|
                0 <= r < sel.len() && 0 <= q < rest.len() ==> ranks_before(
                    keys@,
                    #[trigger] sel[r] as int,
                    #[trigger] rest[q] as int,
                ),
            forall|j: int|
                0 <= j < n ==> #[trigger] sel@.contains(j as usize) || rest@.contains(j as usize),
        decreases target - sel.len(),
    {
        let mut p: usize = 0;
        let mut q: usize = 1;
        while q < rest.len()
            invariant
                n == keys.len(),
                0 < rest.len(),
                p < q <= rest.len(),
                forall|t: int| 0 <= t < rest.len() ==> #[trigger] rest[t] < n,
                forall|a: int, b: int| 0 <= a < b < rest.len() ==> #[trigger] rest[a] != #[trigger] rest[b],
                forall|t: int|
                    0 <= t < q && t != p ==> ranks_before(keys@, rest[p as int] as int, #[trigger] rest[t] as int),
            decreases rest.len() - q,
        {
            if ranks_before_exec(keys, rest[q], rest[p]) {
                p = q;
            }
            q += 1;
        }
        let ghost old_sel = sel@;
        let ghost old_rest = rest@;
        let m = rest.remove(p);
        sel.push(m);
        assert(sel@ == old_sel.push(m));
        assert forall|t: int| 0 <= t < rest.len() implies #[trigger] rest[t] == if t < p {
            old_rest[t]
        } else {
            old_rest[t + 1]
        } by {}
        assert forall|r: int, s: int| 0 <= r < s < sel.len() implies ranks_before(
            keys@,
            #[trigger] sel[r] as int,
            #[trigger] sel[s] as int,
        ) by {
            if s == sel.len() - 1 {
                assert(sel[r] == old_sel[r]);
                assert(m == old_rest[p as int]);
            }
        }
        assert forall|r: int, t: int| 0 <= r < sel.len() && 0 <= t < rest.len() implies ranks_before(
            keys@,
            #[trigger] sel[r] as int,
            #[trigger] rest[t] as int,
        ) by {
            let u = if t < p { t } else { t + 1 };
            assert(rest[t] == old_rest[u]);
            assert(u != p);
            if r < sel.len() - 1 {
                assert(sel[r] == old_sel[r]);
            } else {
                assert(old_rest[u] != old_rest[p as int]);
            }
        }
        assert forall|j: int| 0 <= j < n implies #[trigger] sel@.contains(j as usize)
            || rest@.contains(j as usize) by {
            if old_sel.contains(j as usize) {
                let r = choose|r: int| 0 <= r < old_sel.len() && old_sel[r] == j as usize;
                assert(sel@[r] == j as usize);
            } else {
                assert(old_rest.contains(j as usize));
                let u = choose|u: int| 0 <= u < old_rest.len() && old_rest[u] == j as usize;
                if u == p {
                    assert(sel@[sel.len() - 1] == j as usize);
                } else if u < p {
                    assert(rest@[u] == j as usize);
                } else {
                    assert(rest@[u - 1] == j as usize);
                }
            }
        }
    }
    assert forall|j: int, r: int|
        #![trigger sel@.contains(j as usize), sel@[r]]
        0 <= j < n && !sel@.contains(j as usize) && 0 <= r < sel.len() implies ranks_before(
        keys@,
        sel@[r] as int,
        j,
    ) by {
        assert(rest@.contains(j as usize));
        let u = choose|u: int| 0 <= u < rest.len() && rest[u] == j as usize;
        assert(ranks_before(keys@, sel[r] as int, rest[u] as int));
    }
    sel
}

/// `i` is the first candidate with the lowest key.
pub open spec fn is_first_minimum(keys: Seq<u64>, i: int) -> bool {
    &&& 0 <= i < keys.len()
    &&& forall|j: int| 0 <= j < keys.len() ==> keys[i] <= #[trigger] keys[j]
    &&& forall|j: int| 0 <= j < i ==> keys[i] < #[trigger] keys[j]
}

/// Whether the scan for the winner of the local searches moves from run `cur`
/// to run `next`: when either cost is not a number (`None`), or when the cost
/// of `next` is strictly lower. A run is never replaced by a run of equal cost.
pub open spec fn replaces(costs: Seq<Option<u64>>, cur: int, next: int) -> bool {
    costs[cur] is None || costs[next] is None || costs[next]->0 < costs[cur]->0
}

/// The run that the scan over the first `k` runs ends on, starting from run 0.
pub open spec fn run_winner(costs: Seq<Option<u64>>, k: int) -> int
    decreases k,
{
    if k <= 1 {
        0
    } else {
        let w = run_winner(costs, k - 1);
        if replaces(costs, w, k - 1) {
            k - 1
        } else {
            w
        }
    }
}

proof fn lemma_run_winner_bounds(costs: Seq<Option<u64>>, k: int)
    requires
        k >= 1,
    ensures
        0 <= run_winner(costs, k) < k,
    decreases k,
{
    if k > 1 {
        lemma_run_winner_bounds(costs, k - 1);
    }
}

/// The winner among the results of the local searches, each given by the key
/// of its cost (`None` for a cost that is not a number): the run that a scan
/// keeping the current run, unless the next one is strictly better or either
/// cost is not a number, ends on; `None` when there is no run at all.
pub fn best_run(costs: &Vec<Option<u64>>) -> (best: Option<usize>)
    ensures
        best is None <==> costs.len() == 0,
        best matches Some(i) ==> i == run_winner(costs@, costs.len() as int),
{
    if costs.len() == 0 {
        return None;
    }
    let mut best: usize = 0;
    let mut j: usize = 1;
    while j < costs.len()
        invariant
            0 < j <= costs.len(),
            best == run_winner(costs@, j as int),
        decreases costs.len() - j,
    {
        proof {
            lemma_run_winner_bounds(costs@, j as int);
        }
        let switch = match (costs[best], costs[j]) {
            (Some(cur), Some(next)) => next < cur,
            _ => true,
        };
        if switch {
            best = j;
        }
        j += 1;
    }
    Some(best)
}

/// The costs of runs that are all numbers, with these keys.
pub open spec fn numeric_costs(keys: Seq<u64>) -> Seq<Option<u64>> {
    keys.map_values(|k: u64| Some(k))
}

proof fn lemma_numeric_winner(keys: Seq<u64>, k: int)
    requires
        1 <= k <= keys.len(),
    ensures
        is_first_minimum(keys.take(k), run_winner(numeric_costs(keys), k)),
    decreases k,
{
    let costs = numeric_costs(keys);
    if k > 1 {
        lemma_numeric_winner(keys, k - 1);
        lemma_run_winner_bounds(costs, k - 1);
        let w = run_winner(costs, k - 1);
        assert(costs[w] == Some(keys[w]));
        assert(costs[k - 1] == Some(keys[k - 1]));
        assert forall|j: int| 0 <= j < k - 1 implies #[trigger] keys.take(k)[j] == keys.take(k - 1)[j] by {}
    }
}

/// With costs that are all numbers, the winning run is the first run of lowest
/// cost.
pub proof fn numeric_winner_is_first_minimum(keys: Seq<u64>)
    requires
        keys.len() >= 1,
    ensures
        is_first_minimum(keys, run_winner(numeric_costs(keys), keys.len() as int)),
{
    lemma_numeric_winner(keys, keys.len() as int);
    assert(keys.take(keys.len() as int) =~= keys);
}

/// The best of the selected starting points is the run that wins when the
/// runs keep the costs of their starting points: ranking the grid and picking
/// the winning run agree on which point is best.
pub proof fn first_start_is_winner(keys: Seq<u64>, count: int, sel: Seq<usize>)
    requires
        keys.len() <= usize::MAX,
        keys.len() >= 1,
        is_start_selection(keys, count, sel),
        count >= 1,
    ensures
        sel[0] as int == run_winner(numeric_costs(keys), keys.len() as int),
{
    numeric_winner_is_first_minimum(keys);
    let best = run_winner(numeric_costs(keys), keys.len() as int);
    let first = sel[0] as int;
    assert(sel.len() >= 1);
    if first != best {
        if sel.contains(best as usize) {
            let r = choose|r: int| 0 <= r < sel.len() && sel[r] == best as usize;
            assert(r != 0);
            assert(ranks_before(keys, sel[0] as int, sel[r] as int));
        } else {
            assert(ranks_before(keys, sel[0] as int, best));
        }
        assert(keys[best] <= keys[first]);
    }
}

/// Number of values tried along each of the five model parameters (mean
/// reversion, long-run variance, volatility of variance, correlation, initial
/// variance).
#[derive(Clone, Copy, Debug, PartialEq, Eq, Structural)]
pub struct GridShape {
    pub kappa: usize,
    pub theta: usize,
    pub xi: usize,
    pub rho: usize,
    pub v0: usize,
}

/// Position of a grid point: the index of the value taken along each axis.
#[derive(Clone, Copy, Debug, PartialEq, Eq, Structural)]
pub struct GridPoint {
    pub kappa: usize,
    pub theta: usize,
    pub xi: usize,
    pub rho: usize,
    pub v0: usize,
}

/// How a calibration searches: its grid, how many of the best grid points
/// start a local search, and how many iterations each local search may run.
#[derive(Clone, Copy, Debug, PartialEq, Eq, Structural)]
pub struct CalibrationPlan {
    pub grid: GridShape,
    pub starts: usize,
    pub max_iters: u64,
}

/// Number of points of a grid.
pub open spec fn grid_size(shape: GridShape) -> int {
    shape.kappa * shape.theta * shape.xi * shape.rho * shape.v0
}

/// The `k`-th point of the grid walk: the first parameter varies slowest and
/// the last one fastest, as in five nested loops.
pub open spec fn grid_point(shape: GridShape, k: int) -> GridPoint {
    GridPoint {
        v0: (k % shape.v0 as int) as usize,
        rho: ((k / shape.v0 as int) % shape.rho as int) as usize,
        xi: ((k / shape.v0 as int / shape.rho as int) % shape.xi as int) as usize,
        theta: ((k / shape.v0 as int / shape.rho as int / shape.xi as int) % shape.theta as int) as usize,
        kappa: (k / shape.v0 as int / shape.rho as int / shape.xi as int / shape.theta as int) as usize,
    }
}

/// The plan of a calibration: the fast mode tries two values per parameter and
/// refines the single best point for 100 iterations; the precise mode tries
/// 4 x 3 x 3 x 3 x 3 points and refines the 5 best for 400 iterations each.
pub fn calibration_plan(fast: bool) -> (plan: CalibrationPlan)
    ensures
        plan == if fast {
            CalibrationPlan {
                grid: GridShape { kappa: 2, theta: 2, xi: 2, rho: 2, v0: 2 },
                starts: 1,
                max_iters: 100,
            }
        } else {
            CalibrationPlan {
                grid: GridShape { kappa: 4, theta: 3, xi: 3, rho: 3, v0: 3 },
                starts: 5,
                max_iters: 400,
            }
        },
{
    if fast {
        CalibrationPlan {
            grid: GridShape { kappa: 2, theta: 2, xi: 2, rho: 2, v0: 2 },
            starts: 1,
            max_iters: 100,
        }
    } else {
        CalibrationPlan {
            grid: GridShape { kappa: 4, theta: 3, xi: 3, rho: 3, v0: 3 },
            starts: 5,
            max_iters: 400,
        }
    }
}

proof fn lemma_zero_factor(a: int, b: int, c: int, d: int, e: int)
    requires
        a == 0 || b == 0 || c == 0 || d == 0 || e == 0,
    ensures
        a * b * c * d * e == 0,
{
    assert(a * b * c * d * e == 0) by (nonlinear_arith)
        requires
            a == 0 || b == 0 || c == 0 || d == 0 || e == 0,
    ;
}

proof fn lemma_partial_products(a: int, b: int, c: int, d: int, e: int)
    requires
        a >= 1, b >= 1, c >= 1, d >= 1, e >= 1,
    ensures
        a * b <= a * b * c,
        a * b * c <= a * b * c * d,
        a * b * c * d <= a * b * c * d * e,
        a <= a * b,
{
    assert(a <= a * b && a * b <= a * b * c && a * b * c <= a * b * c * d
        && a * b * c * d <= a * b * c * d * e) by (nonlinear_arith)
        requires
            a >= 1, b >= 1, c >= 1, d >= 1, e >= 1,
    ;
}

/// Every point of the grid walk, in walk order.
pub fn grid_points(shape: &GridShape) -> (points: Vec<GridPoint>)
    requires
        grid_size(*shape) <= usize::MAX,
    ensures
        points.len() == grid_size(*shape),
        forall|k: int| 0 <= k < points.len() ==> #[trigger] points[k] == grid_point(*shape, k),
{
    let mut points: Vec<GridPoint> = Vec::new();
    if shape.kappa == 0 || shape.theta == 0 || shape.xi == 0 || shape.rho == 0 || shape.v0 == 0 {
        proof {
            lemma_zero_factor(shape.kappa as int, shape.theta as int, shape.xi as int, shape.rho as int, shape.v0 as int);
        }
        return points;
    }
    proof {
        lemma_partial_products(shape.kappa as int, shape.theta as int, shape.xi as int, shape.rho as int, shape.v0 as int);
    }
    let size = shape.kappa * shape.theta * shape.xi * shape.rho * shape.v0;
    let mut k: usize = 0;
    while k < size
        invariant
            size == grid_size(*shape),
            shape.kappa > 0, shape.theta > 0, shape.xi > 0, shape.rho > 0, shape.v0 > 0,
            k <= size,
            points.len() == k,
            forall|t: int| 0 <= t < k ==> #[trigger] points[t] == grid_point(*shape, t),
        decreases size - k,
    {
        let a = k / shape.v0;
        let b = a / shape.rho;
        let c = b / shape.xi;
        let point = GridPoint {
            v0: k % shape.v0,
            rho: a % shape.rho,
            xi: b % shape.xi,
            theta: c % shape.theta,
            kappa: c / shape.theta,
        };
        points.push(point);
        k += 1;
    }
    points
}

proof fn lemma_quotient_below(x: int, q: int, m: int)
    requires
        0 <= x < q * m,
        m > 0,
    ensures
        x / m < q,
        x / m >= 0,
{
    let d = x / m;
    let r = x % m;
    vstd::arithmetic::div_mod::lemma_fundamental_div_mod(x, m);
    assert(0 <= r < m);
    assert(d < q && d >= 0) by (nonlinear_arith)
        requires
            x == m * d + r,
            0 <= r < m,
            0 <= x < q * m,
            m > 0,
    ;
}

/// Each step of the grid walk is a point of the grid: every index is below
/// the number of values along its axis.
pub proof fn grid_walk_stays_in_grid(shape: GridShape, k: int)
    requires
        0 <= k < grid_size(shape),
    ensures
        in_grid(shape, grid_point(shape, k)),
{
    let (a, b, c, d, e) = (
        shape.kappa as int,
        shape.theta as int,
        shape.xi as int,
        shape.rho as int,
        shape.v0 as int,
    );
    if a == 0 || b == 0 || c == 0 || d == 0 || e == 0 {
        lemma_zero_factor(a, b, c, d, e);
    }
    lemma_quotient_below(k, a * b * c * d, e);
    lemma_quotient_below(k / e, a * b * c, d);
    lemma_quotient_below(k / e / d, a * b, c);
    lemma_quotient_below(k / e / d / c, a, b);
}

/// Whether every index of `point` lies within its axis.
pub open spec fn in_grid(shape: GridShape, point: GridPoint) -> bool {
    &&& point.kappa < shape.kappa
    &&& point.theta < shape.theta
    &&& point.xi < shape.xi
    &&& point.rho < shape.rho
    &&& point.v0 < shape.v0
}

/// Step of the grid walk at which `point` is visited.
pub open spec fn walk_step(shape: GridShape, point: GridPoint) -> int {
    (((point.kappa * shape.theta + point.theta) * shape.xi + point.xi) * shape.rho + point.rho)
        * shape.v0 + point.v0
}

/// The grid walk visits every point of the grid: each point lies within the
/// walk's length, and the walk is at that point at its step.
pub proof fn grid_walk_visits_every_point(shape: GridShape, point: GridPoint)
    requires
        in_grid(shape, point),
    ensures
        0 <= walk_step(shape, point) < grid_size(shape),
        grid_point(shape, walk_step(shape, point)) == point,
{
    let (a, b, c, d, e) = (
        shape.kappa as int,
        shape.theta as int,
        shape.xi as int,
        shape.rho as int,
        shape.v0 as int,
    );
    let (pa, pb, pc, pd, pe) = (
        point.kappa as int,
        point.theta as int,
        point.xi as int,
        point.rho as int,
        point.v0 as int,
    );
    let q1 = pa * b + pb;
    let q2 = q1 * c + pc;
    let q3 = q2 * d + pd;
    let k = q3 * e + pe;
    assert(0 <= q1 < a * b) by (nonlinear_arith)
        requires
            0 <= pa < a, 0 <= pb < b, q1 == pa * b + pb,
    ;
    assert(0 <= q2 < a * b * c) by (nonlinear_arith)
        requires
            0 <= q1 < a * b, 0 <= pc < c, q2 == q1 * c + pc,
    ;
    assert(0 <= q3 < a * b * c * d) by (nonlinear_arith)
        requires
            0 <= q2 < a * b * c, 0 <= pd < d, q3 == q2 * d + pd,
    ;
    assert(0 <= k < a * b * c * d * e) by (nonlinear_arith)
        requires
            0 <= q3 < a * b * c * d, 0 <= pe < e, k == q3 * e + pe,
    ;
    vstd::arithmetic::div_mod::lemma_fundamental_div_mod_converse(k, e, q3, pe);
    vstd::arithmetic::div_mod::lemma_fundamental_div_mod_converse(q3, d, q2, pd);
    vstd::arithmetic::div_mod::lemma_fundamental_div_mod_converse(q2, c, q1, pc);
    vstd::arithmetic::div_mod::lemma_fundamental_div_mod_converse(q1, b, pa, pb);
    assert(walk_step(shape, point) == k);
}

} // verus!
