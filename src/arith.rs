use vstd::arithmetic::div_mod::{lemma_fundamental_div_mod, lemma_fundamental_div_mod_converse};
use vstd::prelude::*;

verus! {

/// Division rounding toward negative infinity, which is what `/` means on
/// mathematical integers with a positive divisor.
pub fn floor_div(n: i128, d: i128) -> (q: i128)
    requires
        d > 0,
        n > i128::MIN,
    ensures
        q == n / d,
{
    if n >= 0 {
        let q = ((n as u128) / (d as u128)) as i128;
        q
    } else {
        let m: i128 = -n - 1;
        let qm = ((m as u128) / (d as u128)) as i128;
        let rm: i128 = ((m as u128) % (d as u128)) as i128;
        proof {
            assert(qm == m / d && rm == m % d);
            lemma_fundamental_div_mod(m as int, d as int);
            assert(0 <= rm < d);
            assert(n == (-qm - 1) * d + (d - rm - 1)) by (nonlinear_arith)
                requires
                    m == d * qm + rm,
                    m == -n - 1,
            ;
            lemma_fundamental_div_mod_converse(n as int, d as int, -qm - 1, d - rm - 1);
        }
        -qm - 1
    }
}

} // verus!
