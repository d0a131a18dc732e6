use vstd::prelude::*;

verus! {

/// Exact dot product of the first `k` entries of two integer rows.
pub open spec fn dot_prefix(a: Seq<i64>, b: Seq<i64>, k: int) -> int
    decreases k,
{
    if k <= 0 {
        0
    } else {
        dot_prefix(a, b, k - 1) + (a[k - 1] as int) * (b[k - 1] as int)
    }
}

/// Two rows of equal length whose running dot product stays within `i128`.
pub open spec fn dot_fits(a: Seq<i64>, b: Seq<i64>) -> bool {
    &&& a.len() == b.len()
    &&& forall|k: int|
        0 <= k <= a.len() ==> i128::MIN <= #[trigger] dot_prefix(a, b, k) <= i128::MAX
}

/// The scalar product of two rows of one dimension.
pub trait DotProduct<BaseField>: Sized {
    type Output;

    /// The inputs on which the product can be computed.
    spec fn dotprod_defined(&self, other: &Self) -> bool;

    /// The value of the product.
    spec fn spec_dotprod(&self, other: &Self) -> BaseField;

    fn dotprod(&self, other: &Self) -> (r: BaseField)
        requires
            self.dotprod_defined(other),
        ensures
            r == self.spec_dotprod(other),
    ;
}

impl DotProduct<i128> for Vec<i64> {
    type Output = i128;

    open spec fn dotprod_defined(&self, other: &Self) -> bool {
        dot_fits(self@, other@)
    }

    open spec fn spec_dotprod(&self, other: &Self) -> i128 {
        dot_prefix(self@, other@, self@.len() as int) as i128
    }

    fn dotprod(&self, other: &Self) -> (r: i128) {
        let n = self.len();
        let mut acc: i128 = 0;
        let mut k: usize = 0;
        while k < n
            invariant
                k <= n,
                n == self@.len(),
                dot_fits(self@, other@),
                acc as int == dot_prefix(self@, other@, k as int),
            decreases n - k,
        {
            let a = self[k] as i128;
            let b = other[k] as i128;
            assert(-0x4000_0000_0000_0000_0000_0000_0000_0000 <= (a as int) * (b as int)
                <= 0x4000_0000_0000_0000_0000_0000_0000_0000) by (nonlinear_arith)
                requires
                    -0x8000_0000_0000_0000 <= a <= 0x7fff_ffff_ffff_ffff,
                    -0x8000_0000_0000_0000 <= b <= 0x7fff_ffff_ffff_ffff,
            ;
            assert(i128::MIN <= dot_prefix(self@, other@, k + 1) <= i128::MAX);
            acc = acc + a * b;
            k = k + 1;
        }
        acc
    }
}

} // verus!
