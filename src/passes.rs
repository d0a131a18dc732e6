use vstd::prelude::*;

verus! {

/// The pairs `(i, j)` with `j < i < n` in column `j`, rows in increasing order.
pub open spec fn column_pairs(n: int, j: int) -> Seq<(int, int)> {
    Seq::new((n - j - 1) as nat, |k: int| (j + 1 + k, j))
}

/// The pairs of the columns below `j` that size reduction visits, columns in
/// decreasing order and, within a column, rows in increasing order.
pub open spec fn reduction_order(n: int, j: int) -> Seq<(int, int)>
    decreases j,
{
    if j <= 0 {
        seq![]
    } else {
        column_pairs(n, j - 1) + reduction_order(n, j - 1)
    }
}

/// Index pairs read as pairs of integers.
pub open spec fn pair_ints(p: Seq<(usize, usize)>) -> Seq<(int, int)> {
    p.map_values(|q: (usize, usize)| (q.0 as int, q.1 as int))
}

/// The coefficient pairs `(i, j)` that one size-reduction pass visits in a
/// basis of `n` rows, in the order it visits them: `j` from `n - 1` down to
/// `0`, and for each `j` the rows `i` from `j + 1` up to `n - 1`.
pub fn size_reduction_pairs(n: usize) -> (r: Vec<(usize, usize)>)
    ensures
        pair_ints(r@) == reduction_order(n as int, n as int),
{
    let mut r: Vec<(usize, usize)> = Vec::new();
    let mut j: usize = n;
    while j > 0
        invariant
            j <= n,
            pair_ints(r@) + reduction_order(n as int, j as int) == reduction_order(n as int, n as int),
        decreases j,
    {
        let ghost before = r@;
        let c = j - 1;
        let mut i: usize = j;
        while i < n
            invariant
                c + 1 == j <= i <= n,
                r@.len() == before.len() + (i - j),
                r@.subrange(0, before.len() as int) == before,
                forall|k: int|
                    0 <= k < i - j ==> (#[trigger] r@[before.len() + k]).0 == j + k && r@[before.len() + k].1 == c,
            decreases n - i,
        {
            r.push((i, c));
            i = i + 1;
        }
        let ghost b = before.len() as int;
        assert forall|k: int| 0 <= k < r@.len() implies #[trigger] pair_ints(r@)[k] == (
        pair_ints(before) + column_pairs(n as int, c as int))[k] by {
            if k < b {
                assert(r@.subrange(0, b)[k] == r@[k]);
            } else {
                assert(r@[b + (k - b)] == r@[k]);
            }
        }
        assert(pair_ints(r@) =~= pair_ints(before) + column_pairs(n as int, c as int));
        assert(reduction_order(n as int, j as int) == column_pairs(n as int, c as int)
            + reduction_order(n as int, c as int));
        assert(pair_ints(r@) + reduction_order(n as int, c as int) =~= pair_ints(before)
            + reduction_order(n as int, j as int));
        j = c;
    }
    assert(pair_ints(r@) =~= reduction_order(n as int, n as int));
    r
}

/// The first adjacent pair `(i, i + 1)` whose Lovász test holds, given the
/// outcome of the test for each pair in order: the pair that the swap pass
/// exchanges, or `None` when no pair blocks.
pub fn first_blocking_pair(blocking: &Vec<bool>) -> (r: Option<usize>)
    ensures
        match r {
            Some(i) => i < blocking@.len() && blocking@[i as int] && forall|k: int|
                0 <= k < i ==> !#[trigger] blocking@[k],
            None => forall|k: int| 0 <= k < blocking@.len() ==> !#[trigger] blocking@[k],
        },
{
    let mut i: usize = 0;
    while i < blocking.len()
        invariant
            i <= blocking@.len(),
            forall|k: int| 0 <= k < i ==> !#[trigger] blocking@[k],
        decreases blocking@.len() - i,
    {
        if blocking[i] {
            return Some(i);
        }
        i = i + 1;
    }
    None
}

/// The pairs in `p` come column by column, columns in decreasing order and,
/// within a column, rows in increasing order.
pub open spec fn visits_in_order(p: Seq<(int, int)>) -> bool {
    forall|k1: int, k2: int|
        0 <= k1 < k2 < p.len() ==> (#[trigger] p[k1]).1 > (#[trigger] p[k2]).1 || (p[k1].1
            == p[k2].1 && p[k1].0 < p[k2].0)
}

/// The pair `(a, b)` occurs in `p`.
pub open spec fn visits(p: Seq<(int, int)>, a: int, b: int) -> bool {
    exists|k: int| 0 <= k < p.len() && #[trigger] p[k] == (a, b)
}

/// The pairs of the columns below `j` that size reduction visits are exactly
/// the pairs `(a, b)` with `b < j` and `b < a < n`, column by column in
/// decreasing order and rows within a column in increasing order, so each
/// pair is visited once.
pub proof fn lemma_reduction_order(n: int, j: int)
    requires
        0 <= j <= n,
    ensures
        forall|k: int|
            0 <= k < reduction_order(n, j).len() ==> {
                let q = #[trigger] reduction_order(n, j)[k];
                0 <= q.1 < j && q.1 < q.0 < n
            },
        visits_in_order(reduction_order(n, j)),
        forall|a: int, b: int|
            0 <= b < j && b < a < n ==> #[trigger] visits(reduction_order(n, j), a, b),
    decreases j,
{
    if j > 0 {
        lemma_reduction_order(n, j - 1);
        let c = column_pairs(n, j - 1);
        let rest = reduction_order(n, j - 1);
        let p = reduction_order(n, j);
        assert(p == c + rest);
        assert forall|a: int, b: int| 0 <= b < j && b < a < n implies #[trigger] visits(
            p,
            a,
            b,
        ) by {
            if b == j - 1 {
                assert(p[a - j] == (a, b));
            } else {
                assert(visits(rest, a, b));
                let k0 = choose|k: int| 0 <= k < rest.len() && #[trigger] rest[k] == (a, b);
                assert(p[c.len() + k0] == (a, b));
            }
        }
    }
}

/// The coefficients `q` after the steps for the first `k` pairs of `p`, in order.
pub open spec fn after_steps<T>(
    q: spec_fn(int, int) -> T,
    step: spec_fn(spec_fn(int, int) -> T, int, int) -> spec_fn(int, int) -> T,
    p: Seq<(int, int)>,
    k: int,
) -> spec_fn(int, int) -> T
    decreases k,
{
    if k <= 0 || k > p.len() {
        q
    } else {
        step(after_steps(q, step, p, k - 1), p[k - 1].0, p[k - 1].1)
    }
}

/// The step for pair `(i, j)` leaves entry `(i, j)` reduced and changes no
/// entry but those of row `i` in columns up to `j`.
pub open spec fn reduces_its_entry<T>(
    step: spec_fn(spec_fn(int, int) -> T, int, int) -> spec_fn(int, int) -> T,
    reduced: spec_fn(T) -> bool,
) -> bool {
    &&& forall|q: spec_fn(int, int) -> T, i: int, j: int| #[trigger]
        reduced(step(q, i, j)(i, j))
    &&& forall|q: spec_fn(int, int) -> T, i: int, j: int, r: int, t: int|
        r != i || t > j ==> #[trigger] step(q, i, j)(r, t) == q(r, t)
}

proof fn lemma_after_steps<T>(
    q: spec_fn(int, int) -> T,
    step: spec_fn(spec_fn(int, int) -> T, int, int) -> spec_fn(int, int) -> T,
    reduced: spec_fn(T) -> bool,
    p: Seq<(int, int)>,
    k: int,
)
    requires
        reduces_its_entry(step, reduced),
        visits_in_order(p),
        0 <= k <= p.len(),
    ensures
        forall|m: int|
            0 <= m < k ==> reduced(after_steps(q, step, p, k)(#[trigger] p[m].0, p[m].1)),
    decreases k,
{
    if k > 0 {
        lemma_after_steps(q, step, reduced, p, k - 1);
        let prev = after_steps(q, step, p, k - 1);
        let cur = after_steps(q, step, p, k);
        assert(cur == step(prev, p[k - 1].0, p[k - 1].1));
        assert forall|m: int| 0 <= m < k implies reduced(cur(#[trigger] p[m].0, p[m].1)) by {
            if m < k - 1 {
                assert(p[m].1 > p[k - 1].1 || (p[m].1 == p[k - 1].1 && p[m].0 < p[k - 1].0));
                assert(cur(p[m].0, p[m].1) == prev(p[m].0, p[m].1));
            }
        }
    }
}

/// One size-reduction pass leaves every coefficient below the diagonal
/// reduced, whatever the arithmetic, as long as the step for pair `(i, j)`
/// reduces entry `(i, j)` and changes only entries of row `i` in columns up
/// to `j`: a later pair of the pass touches no entry that an earlier one
/// reduced.
pub proof fn lemma_size_reduction_pass<T>(
    q: spec_fn(int, int) -> T,
    step: spec_fn(spec_fn(int, int) -> T, int, int) -> spec_fn(int, int) -> T,
    reduced: spec_fn(T) -> bool,
    n: int,
)
    requires
        0 <= n,
        reduces_its_entry(step, reduced),
    ensures
        forall|i: int, j: int|
            0 <= j < i < n ==> #[trigger] reduced(
                after_steps(q, step, reduction_order(n, n), reduction_order(n, n).len() as int)(
                    i,
                    j,
                ),
            ),
{
    let p = reduction_order(n, n);
    lemma_reduction_order(n, n);
    lemma_after_steps(q, step, reduced, p, p.len() as int);
    assert forall|i: int, j: int| 0 <= j < i < n implies #[trigger] reduced(
        after_steps(q, step, p, p.len() as int)(i, j),
    ) by {
        assert(visits(p, i, j));
        let k = choose|k: int| 0 <= k < p.len() && #[trigger] p[k] == (i, j);
        assert(p[k].0 == i && p[k].1 == j);
    }
}

} // verus!
