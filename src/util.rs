//! Floor division and modulo, which keep negative coordinates in range.
use vstd::prelude::*;
use vstd::arithmetic::div_mod::{lemma_fundamental_div_mod, lemma_fundamental_div_mod_converse};

verus! {

/// Floor division and floor modulo of `x` by a positive `n`, as a pair.
fn floor_div_mod(x: i32, n: i32) -> (r: (i32, i32))
    requires
        n > 0,
    ensures
        r.0 as int == x as int / n as int,
        r.1 as int == x as int % n as int,
        0 <= r.1 < n,
{
    let un = n as u32;
    if x >= 0 {
        let ux = x as u32;
        let q = ux / un;
        let m = ux % un;
        proof {
            lemma_fundamental_div_mod(ux as int, un as int);
            lemma_fundamental_div_mod_converse(x as int, n as int, q as int, m as int);
        }
        (q as i32, m as i32)
    } else {
        let a = (-(x as i64) - 1) as u32;
        let q0 = a / un;
        let m0 = a % un;
        proof {
            lemma_fundamental_div_mod(a as int, un as int);
        }
        let q = -(q0 as i32) - 1;
        let m = n - 1 - m0 as i32;
        proof {
            assert(x == q * n + m) by (nonlinear_arith)
                requires
                    a == un * q0 + m0,
                    a == -x - 1,
                    q == -q0 - 1,
                    m == n - 1 - m0,
                    un == n,
            ;
            lemma_fundamental_div_mod_converse(x as int, n as int, q as int, m as int);
        }
        (q, m)
    }
}

/// `x` modulo a positive `n`, rounded toward negative infinity: the result
/// is always in `[0, n)`, so `-1` modulo 16 is 15.
pub fn positive_mod(x: i32, n: i32) -> (r: i32)
    requires
        n > 0,
    ensures
        r as int == x as int % n as int,
        0 <= r < n,
{
    floor_div_mod(x, n).1
}

/// `x` divided by a positive `n`, rounded toward negative infinity, so
/// `-1` divided by 16 is -1.
pub fn positive_div(x: i32, n: i32) -> (r: i32)
    requires
        n > 0,
    ensures
        r as int == x as int / n as int,
{
    floor_div_mod(x, n).0
}

} // verus!
