use vstd::prelude::*;

verus! {

/// The least non-negative residue of `a` modulo `b`: the wrap-around that
/// keeps an accumulating phase inside one period. Periods are positive by
/// nature here — every caller wraps a phase into `[0, b)` — so a negative
/// or zero modulus is left out.
pub fn modulo(a: i64, b: i64) -> (r: i64)
    requires
        0 < b,
    ensures
        r == a % b,
{
    if a >= 0 {
        let r = (a as u64) % (b as u64);
        r as i64
    } else {
        let neg = (-(a as i128)) as u128;
        let m = neg % (b as u128);
        proof {
            let aa = a as int;
            let bb = b as int;
            vstd::arithmetic::div_mod::lemma_fundamental_div_mod(-aa, bb);
            let q = (-aa) / bb;
            let mm = (-aa) % bb;
            assert(m == mm);
            if mm == 0 {
                assert(aa == (-q) * bb + 0) by (nonlinear_arith)
                    requires
                        -aa == bb * q + mm && mm == 0,
                ;
                vstd::arithmetic::div_mod::lemma_fundamental_div_mod_converse(aa, bb, -q, 0);
            } else {
                assert(aa == (-q - 1) * bb + (bb - mm)) by (nonlinear_arith)
                    requires
                        -aa == bb * q + mm,
                ;
                vstd::arithmetic::div_mod::lemma_fundamental_div_mod_converse(
                    aa,
                    bb,
                    -q - 1,
                    bb - mm,
                );
            }
        }
        if m == 0 {
            0
        } else {
            (b as u128 - m) as i64
        }
    }
}

} // verus!
