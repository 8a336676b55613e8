//! Angles in whole units of `1 / TURN` of a turn, and floor division.
use vstd::prelude::*;

use crate::TURN;

verus! {

/// Floor division with a non-negative remainder: `(a / m, a % m)` in the Euclidean sense.
pub fn floor_div_mod(a: i64, m: i64) -> (r: (i64, i64))
    requires
        m > 0,
    ensures
        r.0 == a as int / m as int,
        r.1 == a as int % m as int,
        0 <= r.1 < m,
{
    if a >= 0 {
        let q: i64 = a / m;
        let rem: i64 = a % m;
        (q, rem)
    } else {
        // a == -(k + 1) with k >= 0
        let k: i64 = -(a + 1);
        let q: i64 = k / m;
        let rem: i64 = k % m;
        proof {
            let ki = k as int;
            let mi = m as int;
            assert(ki == (ki / mi) * mi + ki % mi) by {
                vstd::arithmetic::div_mod::lemma_fundamental_div_mod(ki, mi);
            }
            let nq = -(q as int) - 1;
            let nr = mi - 1 - rem as int;
            assert(a as int == nq * mi + nr) by (nonlinear_arith)
                requires
                    a as int == -(ki + 1),
                    ki == (q as int) * mi + rem as int,
                    nq == -(q as int) - 1,
                    nr == mi - 1 - rem as int,
            ;
            vstd::arithmetic::div_mod::lemma_fundamental_div_mod_converse(a as int, mi, nq, nr);
        }
        (-q - 1, m - 1 - rem)
    }
}

/// An angle brought into one turn, `[0, TURN)`.
pub open spec fn normal_angle(a: int) -> int {
    a % (TURN as int)
}

/// Brings an angle into `[0, TURN)` by whole turns.
pub fn angle_to_normal_range(input_angle: i64) -> (r: i64)
    ensures
        r == normal_angle(input_angle as int),
        0 <= r < TURN,
{
    floor_div_mod(input_angle, TURN).1
}

/// Whole turns do not change a normalized angle.
pub proof fn lemma_normal_angle_turns(a: int, k: int)
    ensures
        normal_angle(a + k * TURN) == normal_angle(a),
{
    vstd::arithmetic::div_mod::lemma_mod_multiples_vanish(k, a, TURN as int);
    assert(k * TURN + a == a + k * TURN);
}

} // verus!
