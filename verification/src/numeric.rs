//! Exact arithmetic over IEEE-754 double-precision bit patterns.
//!
//! The library never computes with machine floating point.  A double travels
//! through the diff engine as its raw 64-bit pattern, and every comparison is
//! carried out exactly over the number the pattern denotes: a sign, an
//! integer mantissa and a power-of-two exponent.  Since every finite double
//! is an integer multiple of 2^-1074, all values are modelled in the
//! specification as ordinary integers scaled by 2^1100, which makes the
//! contracts plain integer statements.

use vstd::arithmetic::div_mod::lemma_fundamental_div_mod;
use vstd::arithmetic::power2::lemma_pow2_adds;
use vstd::arithmetic::power2::lemma_pow2_pos;
use vstd::arithmetic::power2::lemma_pow2_strictly_increases;
use vstd::arithmetic::power2::pow2;
use vstd::prelude::*;

verus! {

/// Every exponent handled by the engine lies in this range: finite doubles
/// use exponents down to -1074, and 64-bit integers as well as exact
/// differences never push an exponent above 1100.
pub open spec fn exp_in_range(e: int) -> bool {
    -1100 <= e <= 1100
}

/// The magnitude `m * 2^e`, scaled by the fixed factor 2^1100 so that it is
/// a plain integer for every exponent the engine uses.
pub open spec fn mval(m: nat, e: int) -> int
    recommends
        exp_in_range(e),
{
    (m * pow2((e + 1100) as nat)) as int
}

/// The signed value `(-1)^neg * m * 2^e`, scaled like `mval`.
pub open spec fn sval(neg: bool, m: nat, e: int) -> int
    recommends
        exp_in_range(e),
{
    if neg {
        -mval(m, e)
    } else {
        mval(m, e)
    }
}

/// 2^k as a 128-bit integer.
fn pow2_u128(k: u32) -> (p: u128)
    requires
        k <= 127,
    ensures
        p == pow2(k as nat),
{
    let mut p: u128 = 1;
    let mut i: u32 = 0;
    proof {
        vstd::arithmetic::power2::lemma2_to64();
    }
    while i < k
        invariant
            i <= k <= 127,
            p == pow2(i as nat),
        decreases k - i,
    {
        proof {
            vstd::arithmetic::power2::lemma2_to64();
            lemma_pow2_adds(i as nat, 1);
            lemma_pow2_strictly_increases(i as nat + 1, 128);
            lemma_pow2_128();
        }
        p = p * 2;
        i = i + 1;
    }
    p
}

proof fn lemma_pow2_128()
    ensures
        pow2(128) == 0x100000000000000000000000000000000,
{
    vstd::arithmetic::power2::lemma2_to64();
    lemma_pow2_adds(64, 64);
}

/// Exactly compares the magnitudes `m1 * 2^e1` and `m2 * 2^e2`, returning
/// -1, 0 or 1 for less, equal or greater.
pub fn cmp_mag(m1: u128, e1: i32, m2: u128, e2: i32) -> (o: i8)
    requires
        exp_in_range(e1 as int),
        exp_in_range(e2 as int),
    ensures
        -1 <= o <= 1,
        (o == -1) <==> mval(m1 as nat, e1 as int) < mval(m2 as nat, e2 as int),
        (o == 0) <==> mval(m1 as nat, e1 as int) == mval(m2 as nat, e2 as int),
        (o == 1) <==> mval(m1 as nat, e1 as int) > mval(m2 as nat, e2 as int),
{
    proof {
        lemma_pow2_pos((e1 + 1100) as nat);
        lemma_pow2_pos((e2 + 1100) as nat);
    }
    if m1 == 0 && m2 == 0 {
        assert(mval(m1 as nat, e1 as int) == 0);
        assert(mval(m2 as nat, e2 as int) == 0);
        return 0;
    }
    if m1 == 0 {
        proof {
            assert(mval(m1 as nat, e1 as int) == 0);
            vstd::arithmetic::mul::lemma_mul_strictly_positive(m2 as int, pow2((e2 + 1100) as nat) as int);
        }
        return -1;
    }
    if m2 == 0 {
        proof {
            assert(mval(m2 as nat, e2 as int) == 0);
            vstd::arithmetic::mul::lemma_mul_strictly_positive(m1 as int, pow2((e1 + 1100) as nat) as int);
        }
        return 1;
    }
    if e1 >= e2 {
        cmp_mag_aligned(m1, m2, (e1 - e2) as u32, e2)
    } else {
        let o = cmp_mag_aligned(m2, m1, (e2 - e1) as u32, e1);
        -o
    }
}

/// Compares `m1 * 2^(e + k)` with `m2 * 2^e` for positive mantissas.
fn cmp_mag_aligned(m1: u128, m2: u128, k: u32, e: i32) -> (o: i8)
    requires
        exp_in_range(e as int),
        exp_in_range(e + k),
        m1 >= 1,
        m2 >= 1,
    ensures
        -1 <= o <= 1,
        (o == -1) <==> mval(m1 as nat, e + k) < mval(m2 as nat, e as int),
        (o == 0) <==> mval(m1 as nat, e + k) == mval(m2 as nat, e as int),
        (o == 1) <==> mval(m1 as nat, e + k) > mval(m2 as nat, e as int),
{
    let ghost eb = (e + 1100) as nat;
    proof {
        lemma_pow2_pos(eb);
        lemma_pow2_pos(k as nat);
        lemma_pow2_adds(eb, k as nat);
        vstd::arithmetic::mul::lemma_mul_is_associative(m1 as int, pow2(k as nat) as int, pow2(eb) as int);
        vstd::arithmetic::mul::lemma_mul_is_commutative(pow2(k as nat) as int, pow2(eb) as int);
        assert(mval(m1 as nat, e + k) == (m1 * pow2(k as nat)) * pow2(eb));
    }
    if k >= 128 {
        proof {
            lemma_pow2_pos(k as nat);
            assert(pow2(128) <= pow2(k as nat)) by {
                if 128 < k {
                    lemma_pow2_strictly_increases(128, k as nat);
                }
            }
            assert(m2 < pow2(128)) by {
                lemma_pow2_128();
            }
            assert((m2 as int) < m1 * pow2(k as nat)) by {
                vstd::arithmetic::mul::lemma_mul_inequality(1, m1 as int, pow2(k as nat) as int);
            }
            assert(mval(m2 as nat, e as int) < (m1 * pow2(k as nat)) * pow2(eb)) by {
                vstd::arithmetic::mul::lemma_mul_strict_inequality(
                    m2 as int,
                    m1 * pow2(k as nat),
                    pow2(eb) as int,
                );
            }
        }
        return 1;
    }
    let p = pow2_u128(k);
    proof {
        lemma_pow2_pos(k as nat);
    }
    let q = m2 / p;
    let r = m2 % p;
    proof {
        lemma_fundamental_div_mod(m2 as int, p as int);
        vstd::arithmetic::div_mod::lemma_mod_bound(m2 as int, p as int);
        vstd::arithmetic::mul::lemma_mul_is_commutative(p as int, q as int);
        // compare m1 * 2^k with m2 = q * 2^k + r, 0 <= r < 2^k
        assert(m2 == q * p + r);
        if m1 > q {
            assert((q + 1) * p <= m1 * p) by {
                vstd::arithmetic::mul::lemma_mul_inequality(q as int + 1, m1 as int, p as int);
            }
            assert((q + 1) * p == q * p + p) by {
                vstd::arithmetic::mul::lemma_mul_is_distributive_add_other_way(p as int, q as int, 1);
            }
            assert(m2 < m1 * pow2(k as nat));
            assert(mval(m2 as nat, e as int) < (m1 * pow2(k as nat)) * pow2(eb)) by {
                vstd::arithmetic::mul::lemma_mul_strict_inequality(
                    m2 as int,
                    m1 * pow2(k as nat),
                    pow2(eb) as int,
                );
            }
        } else if m1 < q {
            assert(m1 * p < q * p) by {
                vstd::arithmetic::mul::lemma_mul_strict_inequality(m1 as int, q as int, p as int);
            }
            assert(m1 * pow2(k as nat) < m2);
            assert((m1 * pow2(k as nat)) * pow2(eb) < mval(m2 as nat, e as int)) by {
                vstd::arithmetic::mul::lemma_mul_strict_inequality(
                    m1 * pow2(k as nat),
                    m2 as int,
                    pow2(eb) as int,
                );
            }
        } else {
            if r == 0 {
                assert(m1 * pow2(k as nat) == m2);
            } else {
                assert(m1 * pow2(k as nat) < m2);
                assert((m1 * pow2(k as nat)) * pow2(eb) < mval(m2 as nat, e as int)) by {
                    vstd::arithmetic::mul::lemma_mul_strict_inequality(
                        m1 * pow2(k as nat),
                        m2 as int,
                        pow2(eb) as int,
                    );
                }
            }
        }
    }
    if m1 > q {
        1
    } else if m1 < q {
        -1
    } else if r > 0 {
        -1
    } else {
        proof {
            vstd::arithmetic::mul::lemma_mul_is_commutative(m1 as int * pow2(k as nat), pow2(eb) as int);
        }
        0
    }
}

proof fn lemma_mval_lt_gap(m1: nat, e1: int, m2: nat, e2: int, g: nat)
    requires
        exp_in_range(e1),
        exp_in_range(e2),
        m2 >= 1,
        m1 < pow2(g),
        e1 + g <= e2,
    ensures
        mval(m1, e1) < mval(m2, e2),
{
    let k1 = (e1 + 1100) as nat;
    let k2 = (e2 + 1100) as nat;
    lemma_pow2_pos(k1);
    lemma_pow2_pos(k2);
    lemma_pow2_adds(k1, g);
    assert(mval(m1, e1) < pow2(g) * pow2(k1)) by {
        vstd::arithmetic::mul::lemma_mul_strict_inequality(m1 as int, pow2(g) as int, pow2(k1) as int);
    }
    assert(pow2(g) * pow2(k1) == pow2(k1 + g)) by {
        vstd::arithmetic::mul::lemma_mul_is_commutative(pow2(g) as int, pow2(k1) as int);
    }
    assert(pow2(k1 + g) <= pow2(k2)) by {
        if k1 + g < k2 {
            lemma_pow2_strictly_increases(k1 + g, k2);
        }
    }
    assert(pow2(k2) <= mval(m2, e2)) by {
        vstd::arithmetic::mul::lemma_mul_inequality(1, m2 as int, pow2(k2) as int);
    }
}

/// A magnitude with a mantissa below 2^64 that is at least as large as
/// another positive magnitude cannot sit more than 63 exponent steps below
/// it.
proof fn lemma_mag_le_exp_gap(m1: nat, e1: int, m2: nat, e2: int)
    requires
        exp_in_range(e1),
        exp_in_range(e2),
        m2 >= 1,
        m1 < pow2(64),
        mval(m2, e2) <= mval(m1, e1),
    ensures
        e2 <= e1 + 63,
{
    if e1 + 64 <= e2 {
        lemma_mval_lt_gap(m1, e1, m2, e2, 64);
    }
}

/// Two magnitudes whose exponents both sit at least 65 steps below `eh`
/// together stay strictly below the bare power `2^eh`.
proof fn lemma_two_small_lt(ml: nat, el: int, mt: nat, et: int, eh: int)
    requires
        exp_in_range(el),
        exp_in_range(et),
        exp_in_range(eh),
        ml < pow2(64),
        mt < pow2(64),
        el + 65 <= eh,
        et + 65 <= eh,
    ensures
        mval(ml, el) + mval(mt, et) < pow2((eh + 1100) as nat),
{
    let kh = (eh + 1100) as nat;
    lemma_pow2_pos((kh - 1) as nat);
    assert(mval(ml, el) < pow2((kh - 1) as nat)) by {
        let kl = (el + 1100) as nat;
        lemma_pow2_pos(kl);
        lemma_pow2_adds(kl, 64);
        assert(mval(ml, el) < pow2(64) * pow2(kl)) by {
            vstd::arithmetic::mul::lemma_mul_strict_inequality(ml as int, pow2(64) as int, pow2(kl) as int);
        }
        assert(pow2(64) * pow2(kl) == pow2(kl + 64)) by {
            vstd::arithmetic::mul::lemma_mul_is_commutative(pow2(64) as int, pow2(kl) as int);
        }
        if kl + 64 < kh - 1 {
            lemma_pow2_strictly_increases(kl + 64, (kh - 1) as nat);
        }
    }
    assert(mval(mt, et) < pow2((kh - 1) as nat)) by {
        let kt = (et + 1100) as nat;
        lemma_pow2_pos(kt);
        lemma_pow2_adds(kt, 64);
        assert(mval(mt, et) < pow2(64) * pow2(kt)) by {
            vstd::arithmetic::mul::lemma_mul_strict_inequality(mt as int, pow2(64) as int, pow2(kt) as int);
        }
        assert(pow2(64) * pow2(kt) == pow2(kt + 64)) by {
            vstd::arithmetic::mul::lemma_mul_is_commutative(pow2(64) as int, pow2(kt) as int);
        }
        if kt + 64 < kh - 1 {
            lemma_pow2_strictly_increases(kt + 64, (kh - 1) as nat);
        }
    }
    assert(pow2(kh) == 2 * pow2((kh - 1) as nat)) by {
        lemma_pow2_adds((kh - 1) as nat, 1);
        vstd::arithmetic::power2::lemma2_to64();
        vstd::arithmetic::mul::lemma_mul_is_commutative(pow2((kh - 1) as nat) as int, 2);
    }
}

proof fn lemma_u64_lt_pow2_64(m: u64)
    ensures
        (m as nat) < pow2(64),
        (m as nat) < pow2(128),
    {
    vstd::arithmetic::power2::lemma2_to64();
    lemma_pow2_128();
}

proof fn lemma_mval_nonneg(m: nat, e: int)
    ensures
        mval(m, e) >= 0,
{
    vstd::arithmetic::mul::lemma_mul_nonnegative(m as int, pow2((e + 1100) as nat) as int);
}

proof fn lemma_mval_pos(m: nat, e: int)
    requires
        m >= 1,
    ensures
        mval(m, e) > 0,
{
    lemma_pow2_pos((e + 1100) as nat);
    vstd::arithmetic::mul::lemma_mul_strictly_positive(m as int, pow2((e + 1100) as nat) as int);
}

/// Exactly subtracts the magnitude `m2 * 2^e2` from the larger or equal
/// magnitude `m1 * 2^e1`; the result is an extended magnitude with a 128-bit
/// mantissa.
fn sub_mag(m1: u64, e1: i32, m2: u64, e2: i32) -> (d: (u128, i32))
    requires
        exp_in_range(e1 as int),
        exp_in_range(e2 as int),
        mval(m2 as nat, e2 as int) <= mval(m1 as nat, e1 as int),
        e1 - e2 <= 64,
        e2 - e1 <= 63,
    ensures
        exp_in_range(d.1 as int),
        mval(d.0 as nat, d.1 as int) == mval(m1 as nat, e1 as int) - mval(m2 as nat, e2 as int),
{
    if e1 >= e2 {
        let k = (e1 - e2) as u32;
        let p = pow2_u128(k);
        let ghost kb = (e2 + 1100) as nat;
        proof {
            lemma_pow2_pos(kb);
            lemma_pow2_pos(k as nat);
            lemma_u64_lt_pow2_64(m1);
            // m1 * 2^k stays below 2^128
            assert((m1 as int) * (p as int) < pow2((k + 64) as nat)) by {
                lemma_pow2_adds(64, k as nat);
                vstd::arithmetic::mul::lemma_mul_strict_inequality(m1 as int, pow2(64) as int, p as int);
                vstd::arithmetic::mul::lemma_mul_is_commutative(pow2(64) as int, pow2(k as nat) as int);
            }
            assert(pow2((k + 64) as nat) <= pow2(128)) by {
                if k + 64 < 128 {
                    lemma_pow2_strictly_increases((k + 64) as nat, 128);
                }
            }
            lemma_pow2_128();
            vstd::arithmetic::mul::lemma_mul_nonnegative(m1 as int, p as int);
        }
        let a: u128 = (m1 as u128) * p;
        proof {
            // mval(m1, e1) == a * 2^(e2 + 1100)
            lemma_pow2_adds(kb, k as nat);
            vstd::arithmetic::mul::lemma_mul_is_associative(m1 as int, pow2(k as nat) as int, pow2(kb) as int);
            vstd::arithmetic::mul::lemma_mul_is_commutative(pow2(k as nat) as int, pow2(kb) as int);
            assert(mval(m1 as nat, e1 as int) == (a as int) * pow2(kb));
            // the magnitude ordering forces a >= m2
            assert(m2 as int <= a as int) by {
                vstd::arithmetic::mul::lemma_mul_inequality_converse(m2 as int, a as int, pow2(kb) as int);
            }
            // (a - m2) * 2^kb == a * 2^kb - m2 * 2^kb
            vstd::arithmetic::mul::lemma_mul_is_distributive_sub_other_way(
                pow2(kb) as int,
                a as int,
                m2 as int,
            );
        }
        (a - (m2 as u128), e2)
    } else {
        let k = (e2 - e1) as u32;
        let p = pow2_u128(k);
        let ghost kb = (e1 + 1100) as nat;
        proof {
            lemma_pow2_pos(kb);
            lemma_pow2_pos(k as nat);
            lemma_u64_lt_pow2_64(m2);
            assert((m2 as int) * (p as int) < pow2((k + 64) as nat)) by {
                lemma_pow2_adds(64, k as nat);
                vstd::arithmetic::mul::lemma_mul_strict_inequality(m2 as int, pow2(64) as int, p as int);
                vstd::arithmetic::mul::lemma_mul_is_commutative(pow2(64) as int, pow2(k as nat) as int);
            }
            assert(pow2((k + 64) as nat) <= pow2(128)) by {
                if k + 64 < 128 {
                    lemma_pow2_strictly_increases((k + 64) as nat, 128);
                }
            }
            lemma_pow2_128();
            vstd::arithmetic::mul::lemma_mul_nonnegative(m2 as int, p as int);
        }
        let b: u128 = (m2 as u128) * p;
        proof {
            lemma_pow2_adds(kb, k as nat);
            vstd::arithmetic::mul::lemma_mul_is_associative(m2 as int, pow2(k as nat) as int, pow2(kb) as int);
            vstd::arithmetic::mul::lemma_mul_is_commutative(pow2(k as nat) as int, pow2(kb) as int);
            assert(mval(m2 as nat, e2 as int) == (b as int) * pow2(kb));
            assert(b as int <= m1 as int) by {
                vstd::arithmetic::mul::lemma_mul_inequality_converse(b as int, m1 as int, pow2(kb) as int);
            }
            vstd::arithmetic::mul::lemma_mul_is_distributive_sub_other_way(
                pow2(kb) as int,
                m1 as int,
                b as int,
            );
        }
        ((m1 as u128) - b, e1)
    }
}

/// Whether the distance between the signed values `(-1)^sa * ma * 2^ea` and
/// `(-1)^sb * mb * 2^eb` is at most the magnitude `mt * 2^et`.
pub open spec fn within_tol(
    sa: bool,
    ma: nat,
    ea: int,
    sb: bool,
    mb: nat,
    eb: int,
    mt: nat,
    et: int,
) -> bool {
    let d = sval(sa, ma, ea) - sval(sb, mb, eb);
    let ad = if d < 0 {
        -d
    } else {
        d
    };
    ad <= mval(mt, et)
}

/// Exactly decides `|a - b| <= t` for numbers given as sign, mantissa and
/// binary exponent, without rounding.
pub fn within_tolerance_parts(
    sa: bool,
    ma: u64,
    ea: i32,
    sb: bool,
    mb: u64,
    eb: i32,
    mt: u64,
    et: i32,
) -> (r: bool)
    requires
        exp_in_range(ea as int),
        exp_in_range(eb as int),
        exp_in_range(et as int),
    ensures
        r == within_tol(sa, ma as nat, ea as int, sb, mb as nat, eb as int, mt as nat, et as int),
{
    proof {
        lemma_mval_nonneg(ma as nat, ea as int);
        lemma_mval_nonneg(mb as nat, eb as int);
        lemma_mval_nonneg(mt as nat, et as int);
        lemma_u64_lt_pow2_64(ma);
        lemma_u64_lt_pow2_64(mb);
        lemma_u64_lt_pow2_64(mt);
    }
    if ma == 0 {
        // the distance is just |b|
        assert(mval(ma as nat, ea as int) == 0) by {
            vstd::arithmetic::mul::lemma_mul_by_zero_is_zero(pow2((ea + 1100) as nat) as int);
        }
        return cmp_mag(mb as u128, eb, mt as u128, et) <= 0;
    }
    if mb == 0 {
        assert(mval(mb as nat, eb as int) == 0) by {
            vstd::arithmetic::mul::lemma_mul_by_zero_is_zero(pow2((eb + 1100) as nat) as int);
        }
        return cmp_mag(ma as u128, ea, mt as u128, et) <= 0;
    }
    proof {
        lemma_mval_pos(ma as nat, ea as int);
        lemma_mval_pos(mb as nat, eb as int);
    }
    if mt == 0 {
        // zero tolerance: the values must be exactly equal
        assert(mval(mt as nat, et as int) == 0) by {
            vstd::arithmetic::mul::lemma_mul_by_zero_is_zero(pow2((et + 1100) as nat) as int);
        }
        if sa != sb {
            return false;
        }
        return cmp_mag(ma as u128, ea, mb as u128, eb) == 0;
    }
    proof {
        lemma_mval_pos(mt as nat, et as int);
    }
    if sa == sb {
        // the distance is | |a| - |b| |
        let c = cmp_mag(ma as u128, ea, mb as u128, eb);
        if c == 0 {
            return true;
        }
        let (mh, eh, ml, el) = if c > 0 {
            (ma, ea, mb, eb)
        } else {
            (mb, eb, ma, ea)
        };
        if cmp_mag(mh as u128, eh, mt as u128, et) <= 0 {
            // the distance is below |hi|, which is already within tolerance
            return true;
        }
        proof {
            lemma_mag_le_exp_gap(mh as nat, eh as int, ml as nat, el as int);
        }
        if eh - el <= 64 {
            let (dm, de) = sub_mag(mh, eh, ml, el);
            return cmp_mag(dm, de, mt as u128, et) <= 0;
        }
        proof {
            lemma_mag_le_exp_gap(mh as nat, eh as int, mt as nat, et as int);
        }
        if eh - et <= 64 {
            // align the tolerance with hi: |hi| - |lo| <= t  <=>  |hi| - t <= |lo|
            let (wm, we) = sub_mag(mh, eh, mt, et);
            return cmp_mag(wm, we, ml as u128, el) <= 0;
        }
        // both |lo| and t sit far below |hi|, so the distance exceeds t
        proof {
            lemma_two_small_lt(ml as nat, el as int, mt as nat, et as int, eh as int);
            assert(pow2((eh + 1100) as nat) <= mval(mh as nat, eh as int)) by {
                lemma_pow2_pos((eh + 1100) as nat);
                vstd::arithmetic::mul::lemma_mul_inequality(
                    1,
                    mh as int,
                    pow2((eh + 1100) as nat) as int,
                );
            }
        }
        false
    } else {
        // opposite signs: the distance is |a| + |b|
        if cmp_mag(ma as u128, ea, mt as u128, et) > 0 {
            return false;
        }
        if cmp_mag(mb as u128, eb, mt as u128, et) > 0 {
            return false;
        }
        proof {
            lemma_mag_le_exp_gap(mt as nat, et as int, mb as nat, eb as int);
            lemma_mag_le_exp_gap(mt as nat, et as int, ma as nat, ea as int);
        }
        if et - eb <= 64 {
            // |a| + |b| <= t  <=>  |a| <= t - |b|
            let (um, ue) = sub_mag(mt, et, mb, eb);
            return cmp_mag(ma as u128, ea, um, ue) <= 0;
        }
        if et - ea <= 64 {
            let (um, ue) = sub_mag(mt, et, ma, ea);
            return cmp_mag(mb as u128, eb, um, ue) <= 0;
        }
        // both magnitudes sit far below the tolerance
        proof {
            lemma_two_small_lt(ma as nat, ea as int, mb as nat, eb as int, et as int);
            assert(pow2((et + 1100) as nat) <= mval(mt as nat, et as int)) by {
                lemma_pow2_pos((et + 1100) as nat);
                vstd::arithmetic::mul::lemma_mul_inequality(
                    1,
                    mt as int,
                    pow2((et + 1100) as nat) as int,
                );
            }
        }
        true
    }
}

/// The sign bit of a double's bit pattern.
pub open spec fn f64_sign(bits: u64) -> bool {
    bits / 0x8000000000000000 == 1
}

/// The 11-bit biased exponent field of a double's bit pattern.
pub open spec fn f64_biased_exp(bits: u64) -> u64 {
    (bits / 0x10000000000000) % 0x800
}

/// The 52-bit fraction field of a double's bit pattern.
pub open spec fn f64_frac(bits: u64) -> u64 {
    bits % 0x10000000000000
}

/// Whether the bit pattern denotes a NaN.
pub open spec fn f64_is_nan(bits: u64) -> bool {
    f64_biased_exp(bits) == 0x7FF && f64_frac(bits) != 0
}

/// Whether the bit pattern denotes one of the two infinities.
pub open spec fn f64_is_inf(bits: u64) -> bool {
    f64_biased_exp(bits) == 0x7FF && f64_frac(bits) == 0
}

/// Whether the bit pattern denotes a finite number.
pub open spec fn f64_is_finite(bits: u64) -> bool {
    f64_biased_exp(bits) != 0x7FF
}

/// The integer mantissa of a finite double: the fraction field, with the
/// implicit leading bit added for normal numbers.
pub open spec fn f64_mant(bits: u64) -> nat {
    if f64_biased_exp(bits) == 0 {
        f64_frac(bits) as nat
    } else {
        (f64_frac(bits) + 0x10000000000000) as nat
    }
}

/// The binary exponent that scales `f64_mant`: a finite double's value is
/// `(-1)^sign * mant * 2^exp`.
pub open spec fn f64_exp(bits: u64) -> int {
    if f64_biased_exp(bits) == 0 {
        -1074
    } else {
        f64_biased_exp(bits) - 1075
    }
}

/// The exact value of a finite double, scaled by 2^1100 to an integer.
pub open spec fn f64_sval(bits: u64) -> int
    recommends
        f64_is_finite(bits),
{
    sval(f64_sign(bits), f64_mant(bits), f64_exp(bits))
}

/// Splits a finite double's bit pattern into sign, integer mantissa and
/// binary exponent.
pub fn f64_unpack(bits: u64) -> (r: (bool, u64, i32))
    requires
        f64_is_finite(bits),
    ensures
        r.0 == f64_sign(bits),
        r.1 as nat == f64_mant(bits),
        r.2 as int == f64_exp(bits),
        exp_in_range(r.2 as int),
{
    let sign = bits / 0x8000000000000000 == 1;
    let biased = (bits / 0x10000000000000) % 0x800;
    let frac = bits % 0x10000000000000;
    if biased == 0 {
        (sign, frac, -1074)
    } else {
        (sign, frac + 0x10000000000000, (biased as i32) - 1075)
    }
}

/// Run-time test for NaN.
pub fn f64_nan_bits(bits: u64) -> (r: bool)
    ensures
        r == f64_is_nan(bits),
{
    let biased = (bits / 0x10000000000000) % 0x800;
    let frac = bits % 0x10000000000000;
    biased == 0x7FF && frac != 0
}

/// Run-time test for finiteness.
pub fn f64_finite_bits(bits: u64) -> (r: bool)
    ensures
        r == f64_is_finite(bits),
{
    let biased = (bits / 0x10000000000000) % 0x800;
    biased != 0x7FF
}

/// Double equality as cell comparison uses it: NaN equals NaN, the two
/// zeroes are equal, infinities equal only themselves, and finite patterns
/// are equal exactly when they denote the same number.
pub open spec fn f64_eq_bits(a: u64, b: u64) -> bool {
    if f64_is_nan(a) && f64_is_nan(b) {
        true
    } else if f64_is_nan(a) || f64_is_nan(b) {
        false
    } else if f64_is_inf(a) || f64_is_inf(b) {
        a == b
    } else {
        f64_sval(a) == f64_sval(b)
    }
}

/// Decides `f64_eq_bits` on raw bit patterns.
pub fn f64_eq(a: u64, b: u64) -> (r: bool)
    ensures
        r == f64_eq_bits(a, b),
{
    let a_nan = f64_nan_bits(a);
    let b_nan = f64_nan_bits(b);
    if a_nan && b_nan {
        return true;
    }
    if a_nan || b_nan {
        return false;
    }
    if !f64_finite_bits(a) || !f64_finite_bits(b) {
        return a == b;
    }
    let (sa, ma, ea) = f64_unpack(a);
    let (sb, mb, eb) = f64_unpack(b);
    if ma == 0 && mb == 0 {
        // +0 and -0 denote the same number
        proof {
            vstd::arithmetic::mul::lemma_mul_by_zero_is_zero(pow2((ea + 1100) as nat) as int);
            vstd::arithmetic::mul::lemma_mul_by_zero_is_zero(pow2((eb + 1100) as nat) as int);
        }
        return true;
    }
    if ma == 0 || mb == 0 {
        proof {
            vstd::arithmetic::mul::lemma_mul_by_zero_is_zero(pow2((ea + 1100) as nat) as int);
            vstd::arithmetic::mul::lemma_mul_by_zero_is_zero(pow2((eb + 1100) as nat) as int);
            if ma != 0 {
                lemma_mval_pos(ma as nat, ea as int);
            }
            if mb != 0 {
                lemma_mval_pos(mb as nat, eb as int);
            }
        }
        return false;
    }
    proof {
        lemma_mval_pos(ma as nat, ea as int);
        lemma_mval_pos(mb as nat, eb as int);
    }
    if sa != sb {
        return false;
    }
    cmp_mag(ma as u128, ea, mb as u128, eb) == 0
}

/// The sign and magnitude of a 64-bit integer.
pub open spec fn i64_mag(i: i64) -> nat {
    if i < 0 {
        (-(i as int)) as nat
    } else {
        i as nat
    }
}

/// Splits an integer into sign and magnitude; the magnitude always fits in
/// a `u64`.
pub fn i64_unpack(i: i64) -> (r: (bool, u64))
    ensures
        r.0 == (i < 0),
        r.1 as nat == i64_mag(i),
{
    if i >= 0 {
        (false, i as u64)
    } else if i == i64::MIN {
        (true, 0x8000000000000000)
    } else {
        (true, (-i) as u64)
    }
}

/// How many binary digits of a magnitude stick out above the 53 bits a
/// double's mantissa holds: the least `s` with `m < 2^(53+s)`.
pub open spec fn f53_shift(m: nat) -> nat
    decreases m,
{
    if m < 0x20000000000000 {
        0
    } else {
        1 + f53_shift(m / 2)
    }
}

proof fn lemma_f53_shift_bounds(m: nat)
    ensures
        m < pow2(53 + f53_shift(m)),
        f53_shift(m) > 0 ==> pow2(52 + f53_shift(m)) <= m,
    decreases m,
{
    vstd::arithmetic::power2::lemma2_to64();
    vstd::arithmetic::power2::lemma2_to64_rest();
    if m >= 0x20000000000000 {
        lemma_f53_shift_bounds(m / 2);
        let s1 = f53_shift(m / 2);
        vstd::arithmetic::div_mod::lemma_fundamental_div_mod(m as int, 2);
        assert(m <= 2 * (m / 2) + 1);
        assert(pow2(53 + (1 + s1)) == pow2(53 + s1) * 2) by {
            lemma_pow2_adds(53 + s1, 1);
        }
        if s1 > 0 {
            assert(pow2(52 + (1 + s1)) == pow2(52 + s1) * 2) by {
                lemma_pow2_adds(52 + s1, 1);
            }
        }
    }
}

proof fn lemma_f53_shift_det(m: nat, s: nat)
    requires
        (s == 0 && m < pow2(53)) || (s >= 1 && pow2(52 + s) <= m && m < pow2(53 + s)),
    ensures
        f53_shift(m) == s,
{
    vstd::arithmetic::power2::lemma2_to64();
        vstd::arithmetic::power2::lemma2_to64_rest();
    let s0 = f53_shift(m);
    lemma_f53_shift_bounds(m);
    if s == 0 {
        if s0 > 0 {
            lemma_pow2_strictly_increases(53, 52 + s0);
            assert(pow2(53) <= pow2(52 + s0));
        }
    } else {
        if s0 == 0 {
            lemma_pow2_strictly_increases(53, 52 + s);
            assert(pow2(53) <= pow2(52 + s));
        } else if s0 < s {
            if 53 + s0 < 52 + s {
                lemma_pow2_strictly_increases(53 + s0, 52 + s);
            }
            assert(m < pow2(53 + s0) <= pow2(52 + s) <= m);
        } else if s < s0 {
            if 53 + s < 52 + s0 {
                lemma_pow2_strictly_increases(53 + s, 52 + s0);
            }
            assert(m < pow2(53 + s) <= pow2(52 + s0) <= m);
        }
    }
}

/// The mantissa of the double nearest to a magnitude: magnitudes below 2^53
/// convert exactly; larger ones are rounded to 53 significant bits, to the
/// nearest and, on a tie, to the even mantissa, as a cast to a double
/// rounds.
pub open spec fn nearest_f64_mant(m: nat) -> nat {
    let s = f53_shift(m);
    if s == 0 {
        m
    } else {
        let q = m / pow2(s);
        let r = m % pow2(s);
        let half = pow2((s - 1) as nat);
        if r > half || (r == half && q % 2 == 1) {
            q + 1
        } else {
            q
        }
    }
}

/// The binary exponent that scales `nearest_f64_mant`.
pub open spec fn nearest_f64_exp(m: nat) -> int {
    f53_shift(m) as int
}

/// A 64-bit integer's value after conversion to the nearest double, scaled
/// like `f64_sval`; exact for magnitudes below 2^53.
pub open spec fn i64_nearest_f64(i: i64) -> int {
    sval(i < 0, nearest_f64_mant(i64_mag(i)), nearest_f64_exp(i64_mag(i)))
}

/// Splits an integer into the sign, mantissa and binary exponent of the
/// nearest double, rounding ties to even as a cast to a double does.
pub fn i64_f64_parts(i: i64) -> (r: (bool, u64, i32))
    ensures
        r.0 == (i < 0),
        r.1 as nat == nearest_f64_mant(i64_mag(i)),
        r.2 as int == nearest_f64_exp(i64_mag(i)),
        exp_in_range(r.2 as int),
        sval(r.0, r.1 as nat, r.2 as int) == i64_nearest_f64(i),
{
    let (neg, m) = i64_unpack(i);
    proof {
        vstd::arithmetic::power2::lemma2_to64();
        vstd::arithmetic::power2::lemma2_to64_rest();
        assert(m as nat <= pow2(63));
    }
    if m < 0x20000000000000 {
        proof {
            lemma_f53_shift_det(m as nat, 0);
        }
        (neg, m, 0)
    } else {
        let mut s: u32 = 0;
        let mut p: u64 = 1;
        while m / p >= 0x20000000000000
            invariant
                m >= 0x20000000000000,
                m as nat <= pow2(63),
                s <= 11,
                p >= 1,
                p == pow2(s as nat),
                s > 0 ==> pow2(52 + s as nat) <= m as nat,
            decreases 12 - s,
        {
            proof {
                vstd::arithmetic::power2::lemma2_to64();
        vstd::arithmetic::power2::lemma2_to64_rest();
                lemma_pow2_adds(s as nat, 1);
                // the quotient bound forces the magnitude above 2^(53+s)
                assert(m as nat >= pow2(53 + s as nat)) by {
                    lemma_pow2_adds(53, s as nat);
                    vstd::arithmetic::div_mod::lemma_fundamental_div_mod(m as int, p as int);
                    vstd::arithmetic::div_mod::lemma_mod_bound(m as int, p as int);
                    vstd::arithmetic::mul::lemma_mul_inequality(
                        pow2(53) as int,
                        (m / p) as int,
                        p as int,
                    );
                    vstd::arithmetic::mul::lemma_mul_is_commutative((m / p) as int, p as int);
                    vstd::arithmetic::mul::lemma_mul_is_commutative(pow2(53) as int, p as int);
                }
                assert(pow2(52 + (s + 1) as nat) <= m as nat) by {
                    lemma_pow2_adds(53, s as nat);
                    lemma_pow2_adds(52 + s as nat, 1);
                    lemma_pow2_adds(52, s as nat + 1);
                }
                // the magnitude bound keeps the shift at or below eleven
                assert(s <= 10) by {
                    if s >= 11 {
                        lemma_pow2_strictly_increases(63, 53 + s as nat);
                        assert(m as nat >= pow2(53 + s as nat) > pow2(63));
                    }
                }
            }
            p = p * 2;
            s = s + 1;
        }
        proof {
            vstd::arithmetic::power2::lemma2_to64();
        vstd::arithmetic::power2::lemma2_to64_rest();
            // now 2^(52+s) <= m < 2^(53+s), which pins the shift
            assert(((m / p) as nat) < pow2(53));
            assert((m as nat) < pow2(53 + s as nat)) by {
                vstd::arithmetic::div_mod::lemma_fundamental_div_mod(m as int, p as int);
                vstd::arithmetic::div_mod::lemma_mod_bound(m as int, p as int);
                lemma_pow2_adds(53, s as nat);
                assert(p * ((m / p) as int) + p <= p * pow2(53)) by {
                    vstd::arithmetic::mul::lemma_mul_is_distributive_add(
                        p as int,
                        (m / p) as int,
                        1,
                    );
                    vstd::arithmetic::mul::lemma_mul_inequality(
                        (m / p) as int + 1,
                        pow2(53) as int,
                        p as int,
                    );
                    vstd::arithmetic::mul::lemma_mul_is_commutative((m / p) as int + 1, p as int);
                    vstd::arithmetic::mul::lemma_mul_is_commutative(pow2(53) as int, p as int);
                }
            }
            assert(s >= 1);
            lemma_f53_shift_det(m as nat, s as nat);
        }
        let q = m / p;
        let half = p / 2;
        let rem = m % p;
        proof {
            vstd::arithmetic::power2::lemma2_to64();
        vstd::arithmetic::power2::lemma2_to64_rest();
            assert(pow2((s - 1) as nat) == p / 2) by {
                lemma_pow2_adds((s - 1) as nat, 1);
            }
        }
        let q2 = if rem > half || (rem == half && q % 2 == 1) {
            q + 1
        } else {
            q
        };
        (neg, q2, s as i32)
    }
}

/// Whether a finite double denotes the integer's converted double value: the
/// nearest double to `i`, ties rounded to even.  Below 2^53 this is exact
/// equality with the integer.
pub open spec fn int_f64_eq(i: i64, bits: u64) -> bool {
    f64_is_finite(bits) && i64_nearest_f64(i) == f64_sval(bits)
}

/// Decides whether a double's bit pattern denotes the integer's converted
/// double value; NaN and the infinities never do.
pub fn int_eq_f64(i: i64, bits: u64) -> (r: bool)
    ensures
        r == int_f64_eq(i, bits),
{
    if !f64_finite_bits(bits) {
        return false;
    }
    let (si, mi, ei) = i64_f64_parts(i);
    let (sf, mf, ef) = f64_unpack(bits);
    if mi == 0 && mf == 0 {
        proof {
            vstd::arithmetic::mul::lemma_mul_by_zero_is_zero(pow2((ei + 1100) as nat) as int);
            vstd::arithmetic::mul::lemma_mul_by_zero_is_zero(pow2((ef + 1100) as nat) as int);
        }
        return true;
    }
    if mi == 0 || mf == 0 {
        proof {
            vstd::arithmetic::mul::lemma_mul_by_zero_is_zero(pow2((ei + 1100) as nat) as int);
            vstd::arithmetic::mul::lemma_mul_by_zero_is_zero(pow2((ef + 1100) as nat) as int);
            if mi != 0 {
                lemma_mval_pos(mi as nat, ei as int);
            }
            if mf != 0 {
                lemma_mval_pos(mf as nat, ef as int);
            }
        }
        return false;
    }
    proof {
        lemma_mval_pos(mi as nat, ei as int);
        lemma_mval_pos(mf as nat, ef as int);
    }
    if si != sf {
        return false;
    }
    cmp_mag(mi as u128, ei, mf as u128, ef) == 0
}

/// Strict order on non-NaN doubles: the negative infinity below every other
/// value, the positive one above, finite values by their exact numbers.
pub open spec fn f64_lt(a: u64, b: u64) -> bool
    recommends
        !f64_is_nan(a),
        !f64_is_nan(b),
{
    if f64_is_inf(a) && f64_sign(a) {
        !(f64_is_inf(b) && f64_sign(b))
    } else if f64_is_inf(a) {
        false
    } else if f64_is_inf(b) {
        !f64_sign(b)
    } else {
        f64_sval(a) < f64_sval(b)
    }
}

/// Orders two non-NaN doubles, returning -1, 0 or 1.
pub fn f64_cmp(a: u64, b: u64) -> (o: i8)
    requires
        !f64_is_nan(a),
        !f64_is_nan(b),
    ensures
        -1 <= o <= 1,
        (o == -1) <==> f64_lt(a, b),
        (o == 1) <==> f64_lt(b, a),
        (o == 0) <==> (!f64_lt(a, b) && !f64_lt(b, a)),
{
    let a_fin = f64_finite_bits(a);
    let b_fin = f64_finite_bits(b);
    if !a_fin || !b_fin {
        let a_neg_inf = !a_fin && a / 0x8000000000000000 == 1;
        let b_neg_inf = !b_fin && b / 0x8000000000000000 == 1;
        let a_pos_inf = !a_fin && a / 0x8000000000000000 == 0;
        let b_pos_inf = !b_fin && b / 0x8000000000000000 == 0;
        if a_neg_inf {
            return if b_neg_inf {
                0
            } else {
                -1
            };
        }
        if b_neg_inf {
            return 1;
        }
        if a_pos_inf {
            return if b_pos_inf {
                0
            } else {
                1
            };
        }
        // only b is infinite here, and it is the positive infinity
        return -1;
    }
    let (sa, ma, ea) = f64_unpack(a);
    let (sb, mb, eb) = f64_unpack(b);
    proof {
        lemma_mval_nonneg(ma as nat, ea as int);
        lemma_mval_nonneg(mb as nat, eb as int);
        if ma == 0 {
            vstd::arithmetic::mul::lemma_mul_by_zero_is_zero(pow2((ea + 1100) as nat) as int);
        }
        if mb == 0 {
            vstd::arithmetic::mul::lemma_mul_by_zero_is_zero(pow2((eb + 1100) as nat) as int);
        }
        if ma != 0 {
            lemma_mval_pos(ma as nat, ea as int);
        }
        if mb != 0 {
            lemma_mval_pos(mb as nat, eb as int);
        }
    }
    if ma == 0 && mb == 0 {
        return 0;
    }
    if sa && !sb {
        if ma == 0 {
            // a is a negative zero, b is positive
            return -1;
        }
        return -1;
    }
    if !sa && sb {
        if mb == 0 {
            return 1;
        }
        return 1;
    }
    // equal signs
    let c = cmp_mag(ma as u128, ea, mb as u128, eb);
    if sa {
        -c
    } else {
        c
    }
}

} // verus!
