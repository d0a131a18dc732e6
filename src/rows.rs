use vstd::prelude::*;
use crate::lattice::swapped_rows;

verus! {

/// Exchanges rows `i` and `i + 1` of a matrix held as a sequence of rows.
pub fn swap_adjacent_rows<T>(m: &mut Vec<T>, i: usize)
    requires
        i + 1 < old(m)@.len(),
    ensures
        final(m)@ == swapped_rows(old(m)@, i as int),
{
    let ghost before = m@;
    let n = m.len();
    assert(i + 1 < n);
    let row = m.remove(i + 1);
    m.insert(i, row);
    assert(m@ =~= swapped_rows(before, i as int));
}

/// Row `v` of the projection coefficients in a basis of `n` rows: the
/// coefficients on the rows before `v`, then one, then zeros up to `n` entries.
pub open spec fn coefficient_layout<T>(coeffs: Seq<T>, one: T, zero: T, n: int) -> Seq<T> {
    coeffs + seq![one] + Seq::new((n - coeffs.len() - 1) as nat, |_k: int| zero)
}

/// Lays out the coefficient row whose leading coefficients are `coeffs`, in a
/// basis of `n` rows.
pub fn coefficient_row<T: Copy>(coeffs: Vec<T>, one: T, zero: T, n: usize) -> (r: Vec<T>)
    requires
        coeffs@.len() < n,
    ensures
        r@ == coefficient_layout(coeffs@, one, zero, n as int),
        r@.len() == n,
{
    let ghost c = coeffs@;
    let mut r = coeffs;
    r.push(one);
    while r.len() < n
        invariant
            c.len() < r@.len() <= n,
            r@ == c + seq![one] + Seq::new((r@.len() - c.len() - 1) as nat, |_k: int| zero),
        decreases n - r@.len(),
    {
        r.push(zero);
        assert(r@ =~= c + seq![one] + Seq::new((r@.len() - c.len() - 1) as nat, |_k: int| zero));
    }
    r
}

} // verus!
