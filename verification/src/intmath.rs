//! Euclidean remainder and floor division on machine integers, the numeric
//! base of every coordinate transform: spec-level `%` and `/` in Verus are
//! already Euclidean, and these functions compute the same values in exec
//! code without relying on the sign behaviour of Rust's `%`.

use vstd::prelude::*;
use vstd::arithmetic::div_mod::{
    lemma_fundamental_div_mod, lemma_fundamental_div_mod_converse,
};
use crate::in_world_range;

verus! {

/// Quotient and Euclidean remainder of `v` by `m`: `v == m * q + r` with
/// `0 <= r < m`, matching the spec-level `/` and `%`.
pub fn div_mod_floor(v: i64, m: i64) -> (qr: (i64, i64))
    requires
        0 < m,
        in_world_range(v as int),
        in_world_range(m as int),
    ensures
        qr.0 == v as int / m as int,
        qr.1 == v as int % m as int,
        0 <= qr.1 < m,
        v as int == m as int * qr.0 as int + qr.1 as int,
{
    let mu: u64 = m as u64;
    if v >= 0 {
        let u: u64 = v as u64;
        let qu: u64 = u / mu;
        let ru: u64 = u % mu;
        proof {
            lemma_fundamental_div_mod(u as int, mu as int);
            lemma_fundamental_div_mod_converse(
                v as int,
                m as int,
                qu as int,
                ru as int,
            );
        }
        (qu as i64, ru as i64)
    } else {
        let u: u64 = (-(v + 1)) as u64;
        let qu: u64 = u / mu;
        let ru: u64 = u % mu;
        let q: i64 = -(qu as i64) - 1;
        let r: i64 = m - 1 - (ru as i64);
        proof {
            lemma_fundamental_div_mod(u as int, mu as int);
            assert(v as int == m as int * q as int + r as int) by (nonlinear_arith)
                requires
                    u as int == mu as int * (qu as int) + ru as int,
                    v as int == -(u as int) - 1,
                    mu == m,
                    q as int == -(qu as int) - 1,
                    r as int == m as int - 1 - ru as int,
            ;
            lemma_fundamental_div_mod_converse(v as int, m as int, q as int, r as int);
        }
        (q, r)
    }
}

/// Euclidean remainder: the canonical representative of `v` modulo `m`,
/// always in `[0, m)`.
pub fn wrap_i64(v: i64, m: i64) -> (r: i64)
    requires
        0 < m,
        in_world_range(v as int),
        in_world_range(m as int),
    ensures
        r == v as int % m as int,
        0 <= r < m,
{
    div_mod_floor(v, m).1
}

/// Floor division: the largest `q` with `m * q <= v`.
pub fn div_floor_i64(v: i64, m: i64) -> (q: i64)
    requires
        0 < m,
        in_world_range(v as int),
        in_world_range(m as int),
    ensures
        q == v as int / m as int,
        m as int * q as int <= v as int,
        (v as int) < m as int * (q as int + 1),
{
    let (q, r) = div_mod_floor(v, m);
    proof {
        lemma_fundamental_div_mod(v as int, m as int);
        assert(m as int * q as int <= v as int && (v as int) < m as int * (q as int + 1)) by (nonlinear_arith)
            requires
                v as int == m as int * q as int + r as int,
                0 <= (r as int) && (r as int) < m as int,
        ;
    }
    q
}

/// Shifting the argument by any whole number of periods leaves the
/// Euclidean remainder unchanged: `(v + k*m) % m == v % m`.
pub proof fn lemma_wrap_periodic(v: int, m: int, k: int)
    requires
        0 < m,
    ensures
        (v + k * m) % m == v % m,
{
    lemma_fundamental_div_mod(v, m);
    let q = v / m;
    let r = v % m;
    assert(v + k * m == m * (q + k) + r) by (nonlinear_arith)
        requires
            v == m * q + r,
    ;
    lemma_fundamental_div_mod_converse(v + k * m, m, q + k, r);
}

} // verus!
