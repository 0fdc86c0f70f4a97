//! Single-precision scaling of terminal coordinates, stated over whole
//! numbers.
//!
//! A coordinate `v` is scaled from a `d`-wide terminal to an `n`-wide one
//! by multiplying it with the ratio `n / d` in single precision: the ratio
//! is rounded to a 24-bit significand (nearest, ties to the even one), the
//! product is rounded the same way, and the product is then rounded to a
//! whole number, halves away from zero. Both roundings are modelled
//! exactly here, so that scaled geometry is fixed to the last column.

use vstd::prelude::*;
use vstd::arithmetic::power2::{
    pow2, lemma2_to64, lemma2_to64_rest, lemma_pow2_adds, lemma_pow2_pos, lemma_pow2_strictly_increases,
    lemma_pow2_unfold,
};
use vstd::arithmetic::div_mod::{
    lemma_div_is_ordered, lemma_fundamental_div_mod, lemma_fundamental_div_mod_converse,
    lemma_mod_pos_bound,
};

verus! {

/// `a / b` rounded to the nearest whole number, ties to the even one.
pub open spec fn round_half_even(a: nat, b: nat) -> nat {
    let q = a / b;
    let r = a % b;
    if 2 * r < b {
        q
    } else if 2 * r > b {
        q + 1
    } else if q % 2 == 0 {
        q
    } else {
        q + 1
    }
}

/// The least `s`, from `s` up to 64, with `n * 2^s >= 2^23 * d`.
pub open spec fn ratio_scale_from(n: nat, d: nat, s: nat) -> nat
    decreases 64 - s,
{
    if s >= 64 || n * pow2(s) >= pow2(23) * d {
        s
    } else {
        ratio_scale_from(n, d, s + 1)
    }
}

/// The binary scale of `n / d` in single precision: its significand is
/// `n * 2^s / d`, between `2^23` and `2^24`.
pub open spec fn ratio_scale(n: nat, d: nat) -> nat {
    ratio_scale_from(n, d, 0)
}

/// The significand of `n / d` rounded to single precision; the rounded
/// ratio is `ratio_significand(n, d) / 2^ratio_scale(n, d)`.
pub open spec fn ratio_significand(n: nat, d: nat) -> nat {
    round_half_even(n * pow2(ratio_scale(n, d)), d)
}

/// How many low bits of `p` lie beyond a 24-bit significand.
pub open spec fn excess_bits(p: nat) -> nat
    decreases p,
{
    if p < 0x100_0000 {
        0
    } else {
        1 + excess_bits(p / 2)
    }
}

/// `p` rounded to a 24-bit significand, ties to the even one.
pub open spec fn round_significand(p: nat) -> nat {
    round_half_even(p, pow2(excess_bits(p))) * pow2(excess_bits(p))
}

/// `v * (n / d)` computed in single precision, then rounded to a whole
/// number with halves away from zero.
pub open spec fn single_scaled(v: nat, n: nat, d: nat) -> nat {
    if n == 0 {
        0
    } else {
        let s = ratio_scale(n, d);
        let y = round_significand(v * ratio_significand(n, d));
        (2 * y + pow2(s)) / (2 * pow2(s))
    }
}

proof fn lemma_rhe_bounds(a: nat, b: nat)
    requires
        b > 0,
    ensures
        a / b <= round_half_even(a, b) <= a / b + 1,
        a == b * (a / b) + a % b,
        a % b < b,
{
    lemma_fundamental_div_mod(a as int, b as int);
    lemma_mod_pos_bound(a as int, b as int);
}

/// Rounding `c * b` by `b` gives `c` back.
proof fn lemma_rhe_exact(c: nat, b: nat)
    requires
        b > 0,
    ensures
        round_half_even(c * b, b) == c,
{
    lemma_fundamental_div_mod_converse((c * b) as int, b as int, c as int, 0);
}

/// Rounding by a fixed divisor keeps order.
proof fn lemma_rhe_monotone(a1: nat, a2: nat, b: nat)
    requires
        b > 0,
        a1 <= a2,
    ensures
        round_half_even(a1, b) <= round_half_even(a2, b),
{
    lemma_rhe_bounds(a1, b);
    lemma_rhe_bounds(a2, b);
    lemma_div_is_ordered(a1 as int, a2 as int, b as int);
    if a1 / b == a2 / b {
        let q = a1 / b;
        assert(a1 % b <= a2 % b);
    }
}

fn round_half_even_exec(a: u64, b: u64) -> (r: u64)
    requires
        b > 0,
        a < 0x8000_0000_0000_0000,
    ensures
        r == round_half_even(a as nat, b as nat),
{
    proof {
        lemma_rhe_bounds(a as nat, b as nat);
        assert((a / b) as nat <= a as nat) by (nonlinear_arith)
            requires
                a as nat == b as nat * (a as nat / b as nat) + a as nat % b as nat,
                b >= 1,
        ;
    }
    let q = a / b;
    let r = a % b;
    if 2 * r < b {
        q
    } else if 2 * r > b {
        q + 1
    } else if q % 2 == 0 {
        q
    } else {
        q + 1
    }
}

proof fn lemma_ratio_scale_found(n: nat, d: nat, s: nat)
    requires
        s < 64,
        n * pow2(s) >= pow2(23) * d,
    ensures
        ratio_scale_from(n, d, s) == s,
{
}

proof fn lemma_ratio_scale_step(n: nat, d: nat, s: nat)
    requires
        s < 64,
        n * pow2(s) < pow2(23) * d,
    ensures
        ratio_scale_from(n, d, s) == ratio_scale_from(n, d, s + 1),
{
}

/// `excess_bits(p)` is `k` when `p` has between `24 + k - 1` and `24 + k`
/// significant bits.
proof fn lemma_excess_bits_is(p: nat, k: nat)
    requires
        p < pow2(24 + k),
        k == 0 || p >= pow2(23 + k),
    ensures
        excess_bits(p) == k,
    decreases k,
{
    lemma2_to64();
    if k > 0 {
        lemma_pow2_unfold(24 + k);
        lemma_pow2_unfold(23 + k);
        assert(pow2(24) <= pow2(23 + k)) by {
            if k > 1 {
                lemma_pow2_strictly_increases(24, 23 + k);
            }
        }
        assert((k - 1) as nat + 24 == (23 + k) as nat);
        assert((k - 1) as nat + 23 == (22 + k) as nat);
        if k > 1 {
            lemma_pow2_unfold((23 + k - 1) as nat);
        }
        lemma_excess_bits_is(p / 2, (k - 1) as nat);
    }
}

/// `excess_bits(p)` is the least `k` with `p < 2^(24 + k)`.
proof fn lemma_excess_bits_range(p: nat)
    ensures
        p < pow2(24 + excess_bits(p)),
        excess_bits(p) == 0 || p >= pow2(23 + excess_bits(p)),
    decreases p,
{
    lemma2_to64();
    if p >= 0x100_0000 {
        let k = excess_bits(p);
        lemma_excess_bits_range(p / 2);
        assert(k == 1 + excess_bits(p / 2));
        lemma_pow2_unfold(24 + k);
        lemma_pow2_unfold(23 + k);
        assert((24 + excess_bits(p / 2)) as nat == (23 + k) as nat);
        if excess_bits(p / 2) == 0 {
            assert(p >= pow2(24));
        } else {
            assert((23 + excess_bits(p / 2)) as nat == (22 + k) as nat);
            lemma_pow2_unfold((22 + k + 1) as nat);
        }
    }
}

/// A whole ratio `c` is exact in single precision.
pub proof fn lemma_whole_ratio_is_exact(n: nat, d: nat, c: nat)
    requires
        d > 0,
        n == c * d,
    ensures
        ratio_significand(n, d) == c * pow2(ratio_scale(n, d)),
{
    let ps = pow2(ratio_scale(n, d));
    assert(n * ps == (c * ps) * d) by (nonlinear_arith)
        requires
            n == c * d,
    ;
    lemma_rhe_exact(c * ps, d);
}

/// A number with at most 24 significant bits is kept by the rounding.
pub proof fn lemma_round_significand_exact(c: nat, j: nat)
    requires
        c < 0x100_0000,
    ensures
        round_significand(c * pow2(j)) == c * pow2(j),
{
    lemma2_to64();
    let p = c * pow2(j);
    let k = excess_bits(p);
    lemma_excess_bits_range(p);
    lemma_pow2_adds(24, j);
    lemma_pow2_pos(j);
    assert(p < pow2(24 + j)) by (nonlinear_arith)
        requires
            p == c * pow2(j),
            c < 0x100_0000,
            pow2(24) == 0x100_0000,
            pow2(24 + j) == pow2(24) * pow2(j),
            pow2(j) > 0,
    ;
    if k > j {
        if 23 + k > 24 + j {
            lemma_pow2_strictly_increases(24 + j, 23 + k);
        }
        assert(false);
    }
    let e = (j - k) as nat;
    lemma_pow2_adds(e, k);
    assert(e + k == j);
    lemma_pow2_pos(k);
    assert(p == (c * pow2(e)) * pow2(k)) by (nonlinear_arith)
        requires
            p == c * pow2(j),
            pow2(j) == pow2(e) * pow2(k),
    ;
    lemma_rhe_exact(c * pow2(e), pow2(k));
}

/// Scaling by a whole ratio `c` is exact while the result keeps within 24
/// bits.
pub proof fn lemma_whole_scaling_is_exact(v: nat, n: nat, d: nat, c: nat)
    requires
        d > 0,
        n > 0,
        n == c * d,
        v * c < 0x100_0000,
    ensures
        single_scaled(v, n, d) == v * c,
{
    let s = ratio_scale(n, d);
    let ps = pow2(s);
    lemma_pow2_pos(s);
    lemma_whole_ratio_is_exact(n, d, c);
    assert(v * (c * ps) == (v * c) * ps) by (nonlinear_arith);
    lemma_round_significand_exact(v * c, s);
    assert(2 * ((v * c) * ps) + ps == (v * c) * (2 * ps) + ps) by (nonlinear_arith);
    lemma_fundamental_div_mod_converse(
        (2 * ((v * c) * ps) + ps) as int,
        (2 * ps) as int,
        (v * c) as int,
        ps as int,
    );
}

/// Rounding to a 24-bit significand keeps order.
pub proof fn lemma_round_significand_monotone(p1: nat, p2: nat)
    requires
        p1 <= p2,
    ensures
        round_significand(p1) <= round_significand(p2),
{
    lemma2_to64();
    let k1 = excess_bits(p1);
    let k2 = excess_bits(p2);
    lemma_excess_bits_range(p1);
    lemma_excess_bits_range(p2);
    lemma_pow2_pos(k1);
    lemma_pow2_pos(k2);
    if k1 > k2 {
        if 23 + k1 > 24 + k2 {
            lemma_pow2_strictly_increases(24 + k2, 23 + k1);
        }
        assert(false);
    }
    if k1 == k2 {
        lemma_rhe_monotone(p1, p2, pow2(k1));
        let m1 = round_half_even(p1, pow2(k1));
        let m2 = round_half_even(p2, pow2(k1));
        assert(m1 * pow2(k1) <= m2 * pow2(k1)) by (nonlinear_arith)
            requires
                m1 <= m2,
        ;
    } else {
        lemma_pow2_adds(24, k1);
        lemma_pow2_adds(23, k2);
        if 24 + k1 < 23 + k2 {
            lemma_pow2_strictly_increases(24 + k1, 23 + k2);
        }
        lemma_rhe_monotone(p1, pow2(24) * pow2(k1), pow2(k1));
        lemma_rhe_exact(pow2(24), pow2(k1));
        lemma_rhe_monotone(pow2(23) * pow2(k2), p2, pow2(k2));
        lemma_rhe_exact(pow2(23), pow2(k2));
        let m1 = round_half_even(p1, pow2(k1));
        let m2 = round_half_even(p2, pow2(k2));
        assert(m1 * pow2(k1) <= pow2(24) * pow2(k1)) by (nonlinear_arith)
            requires
                m1 <= pow2(24),
        ;
        assert(pow2(23) * pow2(k2) <= m2 * pow2(k2)) by (nonlinear_arith)
            requires
                pow2(23) <= m2,
        ;
    }
}

/// Scaling keeps order: a smaller coordinate never scales past a larger
/// one.
pub proof fn lemma_single_scaled_monotone(v1: nat, v2: nat, n: nat, d: nat)
    requires
        v1 <= v2,
    ensures
        single_scaled(v1, n, d) <= single_scaled(v2, n, d),
{
    if n > 0 {
        let s = ratio_scale(n, d);
        let m = ratio_significand(n, d);
        lemma_pow2_pos(s);
        assert(v1 * m <= v2 * m) by (nonlinear_arith)
            requires
                v1 <= v2,
        ;
        lemma_round_significand_monotone(v1 * m, v2 * m);
        let y1 = round_significand(v1 * m);
        let y2 = round_significand(v2 * m);
        lemma_div_is_ordered((2 * y1 + pow2(s)) as int, (2 * y2 + pow2(s)) as int, (2 * pow2(s)) as int);
    }
}

/// `v * (n / d)` in single precision, rounded to a whole number with
/// halves away from zero.
pub fn scale_single(v: u16, n: u16, d: u16) -> (r: u64)
    requires
        d > 0,
    ensures
        r == single_scaled(v as nat, n as nat, d as nat),
{
    if n == 0 {
        return 0;
    }
    proof {
        lemma2_to64();
        lemma2_to64_rest();
    }
    let n64 = n as u64;
    let d64 = d as u64;
    let mut s: u64 = 0;
    let mut ps: u64 = 1;
    while n64 * ps < 0x80_0000 * d64
        invariant
            n64 == n,
            d64 == d,
            1 <= n64 <= 65535,
            1 <= d64 <= 65535,
            s <= 39,
            ps == pow2(s as nat),
            1 <= ps <= 0x80_0000_0000,
            n64 * ps < 0x100_0000 * d64,
            ratio_scale_from(n as nat, d as nat, s as nat) == ratio_scale(n as nat, d as nat),
            pow2(23) == 0x80_0000,
            pow2(39) == 0x80_0000_0000,
        decreases 39 - s,
    {
        proof {
            lemma_ratio_scale_step(n as nat, d as nat, s as nat);
            assert(ps <= n64 * ps) by (nonlinear_arith)
                requires
                    n64 >= 1,
            ;
            assert(0x80_0000 * d64 <= 0x80_0000 * 65535) by (nonlinear_arith)
                requires
                    d64 <= 65535,
            ;
            if s == 39 {
                assert(false);
            }
            lemma_pow2_unfold((s + 1) as nat);
            if s + 1 < 39 {
                lemma_pow2_strictly_increases((s + 1) as nat, 39);
            }
            assert(n64 * (ps * 2) == 2 * (n64 * ps)) by (nonlinear_arith);
        }
        s = s + 1;
        ps = ps * 2;
    }
    proof {
        lemma_ratio_scale_found(n as nat, d as nat, s as nat);
        assert(n64 * ps <= 65535 * 0x80_0000_0000) by (nonlinear_arith)
            requires
                n64 <= 65535,
                ps <= 0x80_0000_0000,
        ;
    }
    let num: u64 = n64 * ps;
    let m = round_half_even_exec(num, d64);
    proof {
        lemma_rhe_bounds(num as nat, d64 as nat);
        let q = num as nat / d64 as nat;
        assert(q < 0x100_0000) by (nonlinear_arith)
            requires
                num as nat == d64 as nat * q + num as nat % d64 as nat,
                num < 0x100_0000 * d64,
        ;
        assert(v as u64 * m <= 65535 * 0x100_0000) by (nonlinear_arith)
            requires
                v <= 65535,
                m <= 0x100_0000,
        ;
    }
    let p: u64 = v as u64 * m;
    let mut k: u64 = 0;
    let mut pk: u64 = 1;
    while p >= 0x100_0000 * pk
        invariant
            p <= 65535 * 0x100_0000,
            k <= 17,
            pk == pow2(k as nat),
            pk <= 0x2_0000,
            k == 0 || p >= 0x80_0000 * pk,
            pow2(17) == 0x2_0000,
            pow2(24) == 0x100_0000,
            pow2(23) == 0x80_0000,
        decreases 17 - k,
    {
        proof {
            if k == 17 {
                assert(false);
            }
            lemma_pow2_unfold((k + 1) as nat);
            if k + 1 < 17 {
                lemma_pow2_strictly_increases((k + 1) as nat, 17);
            }
        }
        k = k + 1;
        pk = pk * 2;
    }
    proof {
        lemma_pow2_adds(24, k as nat);
        lemma_pow2_adds(23, k as nat);
        assert((24 + k) as nat == (24 + k as nat) as nat);
        lemma_excess_bits_is(p as nat, k as nat);
    }
    let big_m = round_half_even_exec(p, pk);
    proof {
        lemma_rhe_bounds(p as nat, pk as nat);
        let q = p as nat / pk as nat;
        assert(q < 0x100_0000) by (nonlinear_arith)
            requires
                p as nat == pk as nat * q + p as nat % pk as nat,
                p < 0x100_0000 * pk,
        ;
        assert(big_m * pk <= 0x100_0000 * 0x2_0000) by (nonlinear_arith)
            requires
                big_m <= 0x100_0000,
                pk <= 0x2_0000,
        ;
    }
    let y: u64 = big_m * pk;
    (2 * y + ps) / (2 * ps)
}

} // verus!
