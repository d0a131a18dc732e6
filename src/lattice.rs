use vstd::prelude::*;
use crate::rows::swap_adjacent_rows;

verus! {

/// A row of machine integers read as mathematical integers.
pub open spec fn int_row(r: Seq<i64>) -> Seq<int> {
    r.map_values(|x: i64| x as int)
}

/// A basis of machine-integer rows read as rows of mathematical integers.
pub open spec fn int_rows(m: Seq<Vec<i64>>) -> Seq<Seq<int>> {
    m.map_values(|r: Vec<i64>| int_row(r@))
}

/// Every row has `d` entries.
pub open spec fn rectangular(m: Seq<Seq<int>>, d: int) -> bool {
    forall|k: int| 0 <= k < m.len() ==> (#[trigger] m[k]).len() == d
}

/// `m` with `lambda` times row `j` added to row `i`.
pub open spec fn with_row_multiple(m: Seq<Seq<int>>, i: int, j: int, lambda: int) -> Seq<Seq<int>> {
    m.update(i, Seq::new(m[i].len(), |t: int| m[i][t] + lambda * m[j][t]))
}

/// `m` with rows `i` and `i + 1` exchanged.
pub open spec fn swapped_rows<T>(m: Seq<T>, i: int) -> Seq<T> {
    m.update(i, m[i + 1]).update(i + 1, m[i])
}

/// Entry `t` of the combination of the first `k` rows of `m` with coefficients `c`.
pub open spec fn combination_at(m: Seq<Seq<int>>, c: Seq<int>, t: int, k: int) -> int
    decreases k,
{
    if k <= 0 {
        0
    } else {
        combination_at(m, c, t, k - 1) + c[k - 1] * m[k - 1][t]
    }
}

/// `v` is the combination of all rows of `m` with the integer coefficients `c`.
pub open spec fn is_combination(m: Seq<Seq<int>>, c: Seq<int>, v: Seq<int>) -> bool {
    &&& c.len() == m.len()
    &&& forall|t: int| 0 <= t < v.len() ==> v[t] == #[trigger] combination_at(m, c, t, m.len() as int)
}

/// `v` lies in the lattice spanned by the rows of `m`.
pub open spec fn in_lattice(v: Seq<int>, m: Seq<Seq<int>>) -> bool {
    exists|c: Seq<int>| is_combination(m, c, v)
}

/// Every row of `a` lies in the lattice spanned by the rows of `m`.
pub open spec fn rows_in_lattice(a: Seq<Seq<int>>, m: Seq<Seq<int>>) -> bool {
    forall|k: int| 0 <= k < a.len() ==> in_lattice(#[trigger] a[k], m)
}

/// The rows of `a` and of `b` span the same lattice: each is an integer
/// combination of the other's rows.
pub open spec fn same_lattice(a: Seq<Seq<int>>, b: Seq<Seq<int>>) -> bool {
    rows_in_lattice(a, b) && rows_in_lattice(b, a)
}

/// Coefficients with `1` at `i`, `lambda` at `j` (when `j != i`), `0` elsewhere.
pub open spec fn pair_coeffs(n: int, i: int, j: int, lambda: int) -> Seq<int> {
    Seq::new(n as nat, |l: int| if l == i { 1 } else if l == j { lambda } else { 0 })
}

proof fn lemma_pair_combination(m: Seq<Seq<int>>, n: int, i: int, j: int, lambda: int, t: int, k: int)
    requires
        0 <= k <= n == m.len(),
    ensures
        combination_at(m, pair_coeffs(n, i, j, lambda), t, k) == (if 0 <= i < k {
            m[i][t]
        } else {
            0
        }) + (if 0 <= j < k && j != i {
            lambda * m[j][t]
        } else {
            0
        }),
    decreases k,
{
    if k > 0 {
        lemma_pair_combination(m, n, i, j, lambda, t, k - 1);
    }
}

/// A row of `m` lies in the lattice of `m`.
proof fn lemma_row_in_lattice(m: Seq<Seq<int>>, k: int, v: Seq<int>)
    requires
        0 <= k < m.len(),
        v == m[k],
    ensures
        in_lattice(v, m),
{
    let n = m.len() as int;
    let c = pair_coeffs(n, k, k, 0);
    assert forall|t: int| 0 <= t < v.len() implies v[t] == #[trigger] combination_at(m, c, t, n) by {
        lemma_pair_combination(m, n, k, k, 0, t, n);
    }
    assert(is_combination(m, c, v));
}

/// Each row after a row-multiple addition is an integer combination of the rows before.
proof fn lemma_row_multiple_rows_in_lattice(m: Seq<Seq<int>>, i: int, j: int, lambda: int)
    requires
        0 <= i < m.len(),
        0 <= j < m.len(),
        i != j,
    ensures
        rows_in_lattice(with_row_multiple(m, i, j, lambda), m),
{
    let a = with_row_multiple(m, i, j, lambda);
    let n = m.len() as int;
    assert forall|k: int| 0 <= k < a.len() implies in_lattice(#[trigger] a[k], m) by {
        if k == i {
            let c = pair_coeffs(n, i, j, lambda);
            assert forall|t: int| 0 <= t < a[k].len() implies a[k][t] == #[trigger] combination_at(
                m,
                c,
                t,
                n,
            ) by {
                lemma_pair_combination(m, n, i, j, lambda, t, n);
            }
            assert(is_combination(m, c, a[k]));
        } else {
            lemma_row_in_lattice(m, k, a[k]);
        }
    }
}

/// Adding an integer multiple of one row to another row keeps the lattice
/// spanned by the rows.
pub proof fn lemma_row_multiple_keeps_lattice(m: Seq<Seq<int>>, i: int, j: int, lambda: int)
    requires
        0 <= i < m.len(),
        0 <= j < m.len(),
        i != j,
        m[i].len() == m[j].len(),
    ensures
        same_lattice(with_row_multiple(m, i, j, lambda), m),
{
    let a = with_row_multiple(m, i, j, lambda);
    lemma_row_multiple_rows_in_lattice(m, i, j, lambda);
    lemma_row_multiple_rows_in_lattice(a, i, j, -lambda);
    lemma_row_multiple_undone(m, i, j, lambda);
}

/// Each row after an adjacent swap is a row from before the swap.
proof fn lemma_swap_rows_in_lattice(m: Seq<Seq<int>>, i: int)
    requires
        0 <= i && i + 1 < m.len(),
    ensures
        rows_in_lattice(swapped_rows(m, i), m),
{
    let a = swapped_rows(m, i);
    assert forall|k: int| 0 <= k < a.len() implies in_lattice(#[trigger] a[k], m) by {
        if k == i {
            lemma_row_in_lattice(m, i + 1, a[k]);
        } else if k == i + 1 {
            lemma_row_in_lattice(m, i, a[k]);
        } else {
            lemma_row_in_lattice(m, k, a[k]);
        }
    }
}

/// Exchanging two adjacent rows keeps the lattice spanned by the rows.
pub proof fn lemma_swap_keeps_lattice(m: Seq<Seq<int>>, i: int)
    requires
        0 <= i && i + 1 < m.len(),
    ensures
        same_lattice(swapped_rows(m, i), m),
{
    let a = swapped_rows(m, i);
    lemma_swap_rows_in_lattice(m, i);
    lemma_swap_rows_in_lattice(a, i);
    assert(swapped_rows(a, i) =~= m);
}

/// Adding a row multiple twice, with opposite multipliers, gives back the basis.
pub proof fn lemma_row_multiple_undone(m: Seq<Seq<int>>, i: int, j: int, lambda: int)
    requires
        0 <= i < m.len(),
        0 <= j < m.len(),
        i != j,
        m[i].len() == m[j].len(),
    ensures
        with_row_multiple(with_row_multiple(m, i, j, lambda), i, j, -lambda) == m,
{
    let a = with_row_multiple(m, i, j, lambda);
    let b = with_row_multiple(a, i, j, -lambda);
    assert forall|t: int| 0 <= t < m[i].len() implies #[trigger] b[i][t] == m[i][t] by {
        let x = m[i][t];
        let y = m[j][t];
        assert((x + lambda * y) + (-lambda) * y == x) by (nonlinear_arith);
    }
    assert(b[i] =~= m[i]);
    assert(b =~= m);
}

/// Every entry of row `i` stays within `i64` when `lambda` times row `j` is added.
pub open spec fn row_multiple_fits(m: Seq<Seq<int>>, i: int, j: int, lambda: int) -> bool {
    forall|t: int|
        0 <= t < m[i].len() ==> i64::MIN <= #[trigger] m[i][t] + lambda * m[j][t] <= i64::MAX
}

proof fn lemma_i64_product_bound(a: i64, b: i64)
    ensures
        -0x4000_0000_0000_0000_0000_0000_0000_0000 <= (a as int) * (b as int)
            <= 0x4000_0000_0000_0000_0000_0000_0000_0000,
{
    assert(-0x4000_0000_0000_0000_0000_0000_0000_0000 <= (a as int) * (b as int)
        <= 0x4000_0000_0000_0000_0000_0000_0000_0000) by (nonlinear_arith)
        requires
            -0x8000_0000_0000_0000 <= a <= 0x7fff_ffff_ffff_ffff,
            -0x8000_0000_0000_0000 <= b <= 0x7fff_ffff_ffff_ffff,
    ;
}

/// Adds `lambda` times row `j` of the integer basis `o` to its row `i`, the
/// size-reduction step on an integer basis (with `lambda` the negated rounded
/// coefficient). Returns `false`, and leaves `o` as it was, exactly when some
/// entry of the new row would leave `i64`.
pub fn add_row_multiple(o: &mut Vec<Vec<i64>>, i: usize, j: usize, lambda: i64) -> (r: bool)
    requires
        i < old(o)@.len(),
        j < old(o)@.len(),
        i != j,
        old(o)@[i as int]@.len() == old(o)@[j as int]@.len(),
    ensures
        r == row_multiple_fits(int_rows(old(o)@), i as int, j as int, lambda as int),
        r ==> int_rows(final(o)@) == with_row_multiple(
            int_rows(old(o)@),
            i as int,
            j as int,
            lambda as int,
        ),
        r ==> same_lattice(int_rows(final(o)@), int_rows(old(o)@)),
        !r ==> final(o)@ == old(o)@,
{
    let ghost m = int_rows(o@);
    let d = o[i].len();
    let mut row: Vec<i64> = Vec::new();
    let mut t: usize = 0;
    while t < d
        invariant
            t <= d,
            d == o@[i as int]@.len(),
            d == o@[j as int]@.len(),
            i < o@.len(),
            j < o@.len(),
            m == int_rows(o@),
            row@.len() == t,
            forall|s: int|
                0 <= s < t ==> i64::MIN <= #[trigger] m[i as int][s] + lambda * m[j as int][s]
                    <= i64::MAX,
            forall|s: int|
                0 <= s < t ==> (#[trigger] row@[s]) as int == m[i as int][s] + lambda * m[j as int][s],
        decreases d - t,
    {
        let a = o[i][t];
        let b = o[j][t];
        proof {
            lemma_i64_product_bound(lambda, b);
        }
        let v: i128 = a as i128 + (lambda as i128) * (b as i128);
        assert(m[i as int][t as int] == a as int);
        assert(m[j as int][t as int] == b as int);
        if v < i64::MIN as i128 || v > i64::MAX as i128 {
            assert(!row_multiple_fits(m, i as int, j as int, lambda as int));
            return false;
        }
        row.push(v as i64);
        t = t + 1;
    }
    o[i] = row;
    proof {
        assert(int_row(row@) =~= with_row_multiple(m, i as int, j as int, lambda as int)[i as int]);
        assert(int_rows(o@) =~= with_row_multiple(m, i as int, j as int, lambda as int));
        lemma_row_multiple_keeps_lattice(m, i as int, j as int, lambda as int);
    }
    true
}

/// Exchanges rows `i` and `i + 1` of the integer basis `o`, the swap step of
/// reduction on an integer basis.
pub fn swap_basis_rows(o: &mut Vec<Vec<i64>>, i: usize)
    requires
        i + 1 < old(o)@.len(),
    ensures
        int_rows(final(o)@) == swapped_rows(int_rows(old(o)@), i as int),
        same_lattice(int_rows(final(o)@), int_rows(old(o)@)),
{
    let ghost before = o@;
    swap_adjacent_rows(o, i);
    proof {
        assert(int_rows(o@) =~= swapped_rows(int_rows(before), i as int));
        lemma_swap_keeps_lattice(int_rows(before), i as int);
    }
}

} // verus!
