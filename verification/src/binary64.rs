//! The share of memory in use as the agent reports it: `used / total * 100` computed in
//! IEEE-754 double precision (each step rounded to nearest, ties to even), then shown
//! with one decimal. A positive double is held as `(m, e)`, the value `m * 2^e` with
//! `2^52 <= m < 2^53`.
use vstd::prelude::*;
use vstd::arithmetic::power2::{pow2, lemma2_to64, lemma2_to64_rest, lemma_pow2_adds,
    lemma_pow2_strictly_increases, lemma_pow2_unfold, lemma_pow2_pos};
use crate::load::{pow2_u128, round_half_even};

verus! {

/// The number of binary digits of `x`.
pub open spec fn bit_length(x: nat) -> nat
    decreases x,
{
    if x == 0 {
        0
    } else {
        1 + bit_length(x / 2)
    }
}

pub open spec fn normalized(f: (nat, int)) -> bool {
    pow2(52) <= f.0 < pow2(53)
}

/// A rounded significand that reached `2^53` moves up one binade.
pub open spec fn settle(m: nat, e: int) -> (nat, int) {
    if m == pow2(53) {
        (pow2(52), e + 1)
    } else {
        (m, e)
    }
}

/// The double nearest to the count `x >= 1` (`x as f64`).
pub open spec fn double_of(x: nat) -> (nat, int) {
    let l = bit_length(x);
    if l <= 53 {
        (x * pow2((53 - l) as nat), l - 53)
    } else {
        settle(round_half_even(x, pow2((l - 53) as nat)), l - 53)
    }
}

/// The double nearest to `a / b`.
pub open spec fn quotient(a: (nat, int), b: (nat, int)) -> (nat, int) {
    let s: nat = if a.0 >= b.0 {
        52
    } else {
        53
    };
    settle(round_half_even(a.0 * pow2(s), b.0), a.1 - b.1 - s)
}

/// The double nearest to `a * 100`.
pub open spec fn times_hundred(a: (nat, int)) -> (nat, int) {
    let k: nat = if a.0 * 100 < pow2(59) {
        6
    } else {
        7
    };
    settle(round_half_even(a.0 * 100, pow2(k)), a.1 + k)
}

/// `(used as f64 / total as f64) * 100.0` for `used, total >= 1`.
pub open spec fn used_percent(used: nat, total: nat) -> (nat, int) {
    times_hundred(quotient(double_of(used), double_of(total)))
}

/// Ten times the double, rounded half to even: the digits `{:.1}` shows.
pub open spec fn double_tenths(f: (nat, int)) -> nat {
    if f.1 >= 0 {
        10 * f.0 * pow2(f.1 as nat)
    } else {
        round_half_even(10 * f.0, pow2((-f.1) as nat))
    }
}

/// The whole number of fives in the double (`floor(v / 5)`).
pub open spec fn double_fifths(f: (nat, int)) -> nat {
    if f.1 >= 0 {
        f.0 * pow2(f.1 as nat) / 5
    } else {
        f.0 / (5 * pow2((-f.1) as nat))
    }
}

proof fn lemma_bit_length(x: nat)
    requires
        x >= 1,
    ensures
        bit_length(x) >= 1,
        pow2((bit_length(x) - 1) as nat) <= x < pow2(bit_length(x)),
    decreases x,
{
    lemma_pow2_unfold(bit_length(x));
    if x == 1 {
        assert(bit_length(0) == 0);
        lemma2_to64();
    } else {
        lemma_bit_length(x / 2);
        let l = bit_length(x / 2);
        lemma_pow2_unfold(l);
        assert(bit_length(x) == l + 1);
    }
}

fn bit_length_of(x: u64) -> (l: u32)
    ensures
        l == bit_length(x as nat),
        l <= 64,
{
    proof {
        lemma2_to64();
        lemma_bit_length_bound(x as nat);
    }
    let mut y = x;
    let mut l: u32 = 0;
    while y > 0
        invariant
            bit_length(x as nat) == l + bit_length(y as nat),
            l + bit_length(y as nat) <= 64,
            y <= x,
        decreases y,
    {
        proof {
            assert(bit_length(y as nat) == 1 + bit_length((y / 2) as nat));
        }
        y = y / 2;
        l = l + 1;
    }
    l
}

proof fn lemma_bit_length_bound(x: nat)
    requires
        x < pow2(64),
    ensures
        bit_length(x) <= 64,
{
    if x >= 1 {
        lemma_bit_length(x);
        if bit_length(x) > 64 {
            if bit_length(x) - 1 > 64 {
                lemma_pow2_strictly_increases(64, (bit_length(x) - 1) as nat);
            }
        }
    }
}

fn round_even(a: u128, d: u128) -> (r: u128)
    requires
        d > 0,
        a / d < u128::MAX,
    ensures
        r == round_half_even(a as nat, d as nat),
{
    let q = a / d;
    let rem = a % d;
    if rem > d - rem {
        q + 1
    } else if rem < d - rem {
        q
    } else if q % 2 == 0 {
        q
    } else {
        q + 1
    }
}

proof fn lemma_round_bounds(a: nat, d: nat, lo: nat, hi: nat)
    requires
        d > 0,
        lo * d <= a,
        a < hi * d,
    ensures
        lo <= round_half_even(a, d) <= hi,
{
    assert(lo <= a / d) by (nonlinear_arith)
        requires
            d > 0,
            lo * d <= a,
    ;
    assert(a / d < hi) by (nonlinear_arith)
        requires
            d > 0,
            a < hi * d,
    ;
}

fn settle_exec(m: u128, e: i64) -> (f: (u64, i64))
    requires
        pow2(52) <= m <= pow2(53),
        -1000 <= e <= 1000,
    ensures
        (f.0 as nat, f.1 as int) == settle(m as nat, e as int),
        normalized((f.0 as nat, f.1 as int)),
{
    proof {
        lemma2_to64();
        lemma2_to64_rest();
    }
    if m == 0x20_0000_0000_0000 {
        (0x10_0000_0000_0000, e + 1)
    } else {
        (m as u64, e)
    }
}

/// `x as f64`, for `x >= 1`.
fn double_from(x: u64) -> (f: (u64, i64))
    requires
        x >= 1,
    ensures
        (f.0 as nat, f.1 as int) == double_of(x as nat),
        normalized((f.0 as nat, f.1 as int)),
        -52 <= f.1 <= 12,
{
    proof {
        lemma2_to64();
        lemma2_to64_rest();
        lemma_bit_length(x as nat);
    }
    let l = bit_length_of(x);
    if l <= 53 {
        let p = pow2_u128(53 - l);
        proof {
            lemma_pow2_adds((l - 1) as nat, (53 - l) as nat);
            lemma_pow2_adds(l as nat, (53 - l) as nat);
            let lo = pow2((l - 1) as nat);
            let hi = pow2(l as nat);
            assert(lo * p <= x * p && x * p < hi * p) by (nonlinear_arith)
                requires
                    lo <= x < hi,
                    p > 0,
            ;
        }
        let m = (x as u128) * p;
        ((m as u64), l as i64 - 53)
    } else {
        let k = l - 53;
        let d = pow2_u128(k);
        proof {
            lemma_pow2_adds(52, k as nat);
            lemma_pow2_adds(53, k as nat);
            lemma_pow2_pos(k as nat);
            lemma_round_bounds(x as nat, d as nat, pow2(52), pow2(53));
        }
        let m = round_even(x as u128, d);
        settle_exec(m, k as i64)
    }
}

/// The double nearest to `a / b`.
fn divide(a: (u64, i64), b: (u64, i64)) -> (f: (u64, i64))
    requires
        normalized((a.0 as nat, a.1 as int)),
        normalized((b.0 as nat, b.1 as int)),
        -200 <= a.1 <= 200,
        -200 <= b.1 <= 200,
    ensures
        (f.0 as nat, f.1 as int) == quotient((a.0 as nat, a.1 as int), (b.0 as nat, b.1 as int)),
        normalized((f.0 as nat, f.1 as int)),
        a.1 - b.1 - 53 <= f.1 <= a.1 - b.1 - 51,
{
    proof {
        lemma2_to64();
        lemma2_to64_rest();
    }
    let s: u32 = if a.0 >= b.0 {
        52
    } else {
        53
    };
    let p = pow2_u128(s);
    let n = (a.0 as u128) * p;
    proof {
        let x = a.0 as nat;
        let y = b.0 as nat;
        if s == 52 {
            assert(pow2(52) * y <= x * pow2(52) && x * pow2(52) < pow2(53) * y) by (nonlinear_arith)
                requires
                    x >= y,
                    x < pow2(53),
                    pow2(53) == 2 * pow2(52),
                    y >= pow2(52),
            ;
        } else {
            assert(pow2(52) * y <= x * pow2(53) && x * pow2(53) < pow2(53) * y) by (nonlinear_arith)
                requires
                    x < y,
                    x >= pow2(52),
                    y < pow2(53),
                    pow2(53) == 2 * pow2(52),
            ;
        }
        lemma_round_bounds(x * pow2(s as nat), y, pow2(52), pow2(53));
    }
    let m = round_even(n, b.0 as u128);
    settle_exec(m, a.1 - b.1 - s as i64)
}

/// The double nearest to `a * 100`.
fn hundredfold(a: (u64, i64)) -> (f: (u64, i64))
    requires
        normalized((a.0 as nat, a.1 as int)),
        -200 <= a.1 <= 200,
    ensures
        (f.0 as nat, f.1 as int) == times_hundred((a.0 as nat, a.1 as int)),
        normalized((f.0 as nat, f.1 as int)),
        a.1 + 6 <= f.1 <= a.1 + 8,
{
    proof {
        lemma2_to64();
        lemma2_to64_rest();
    }
    let n = (a.0 as u128) * 100;
    let k: u32 = if n < 0x800_0000_0000_0000 {
        6
    } else {
        7
    };
    let d = pow2_u128(k);
    proof {
        lemma_round_bounds(n as nat, d as nat, pow2(52), pow2(53));
    }
    let m = round_even(n, d);
    settle_exec(m, a.1 + k as i64)
}

/// `(used as f64 / total as f64) * 100.0`, for `used, total >= 1`.
pub fn percent_of(used: u64, total: u64) -> (f: (u64, i64))
    requires
        used >= 1,
        total >= 1,
    ensures
        (f.0 as nat, f.1 as int) == used_percent(used as nat, total as nat),
        normalized((f.0 as nat, f.1 as int)),
        -111 <= f.1 <= 21,
{
    let a = double_from(used);
    let b = double_from(total);
    let q = divide(a, b);
    hundredfold(q)
}

/// The digits that `{:.1}` shows of a double, as a count of tenths.
pub fn tenths_of(f: (u64, i64)) -> (t: u128)
    requires
        normalized((f.0 as nat, f.1 as int)),
        -120 <= f.1 <= 21,
    ensures
        t == double_tenths((f.0 as nat, f.1 as int)),
{
    proof {
        lemma2_to64();
        lemma2_to64_rest();
    }
    let m = f.0 as u128;
    if f.1 >= 0 {
        let p = pow2_u128(f.1 as u32);
        proof {
            if f.1 < 21 {
                lemma_pow2_strictly_increases(f.1 as nat, 21);
            }
            assert(10 * m * p < 0x10_0000_0000_0000_0000_0000) by (nonlinear_arith)
                requires
                    m < 0x20_0000_0000_0000,
                    p <= 0x20_0000,
            ;
        }
        10 * m * p
    } else {
        let d = pow2_u128((0 - f.1) as u32);
        proof {
            lemma_pow2_pos((0 - f.1) as nat);
            let a: nat = (10 * m) as nat;
            assert(a / (d as nat) <= a) by (nonlinear_arith)
                requires
                    d > 0,
            ;
        }
        round_even(10 * m, d)
    }
}

/// The whole number of fives in a double.
pub fn fifths_of(f: (u64, i64)) -> (n: u128)
    requires
        normalized((f.0 as nat, f.1 as int)),
        -120 <= f.1 <= 21,
    ensures
        n == double_fifths((f.0 as nat, f.1 as int)),
{
    proof {
        lemma2_to64();
        lemma2_to64_rest();
    }
    let m = f.0 as u128;
    if f.1 >= 0 {
        let p = pow2_u128(f.1 as u32);
        proof {
            if f.1 < 21 {
                lemma_pow2_strictly_increases(f.1 as nat, 21);
            }
            assert(m * p < 0x10_0000_0000_0000_0000_0000) by (nonlinear_arith)
                requires
                    m < 0x20_0000_0000_0000,
                    p <= 0x20_0000,
            ;
        }
        m * p / 5
    } else {
        let d = pow2_u128((0 - f.1) as u32);
        proof {
            if 0 - f.1 < 120 {
                lemma_pow2_strictly_increases((0 - f.1) as nat, 120);
            }
            lemma_pow2_adds(64, 56);
            lemma2_to64_rest();
            lemma_pow2_pos((0 - f.1) as nat);
        }
        m / (5 * d)
    }
}

} // verus!
