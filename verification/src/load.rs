//! Processor loads as the operating system reports them: an `f32` percentage,
//! held here as its IEEE-754 bit pattern so that it can be shown, ranked and
//! drawn exactly as the `f32` itself would be.
use vstd::prelude::*;
use vstd::arithmetic::power2::{pow2, lemma2_to64, lemma2_to64_rest, lemma_pow2_adds, lemma_pow2_strictly_increases,
    lemma_pow2_unfold, lemma_pow2_pos};
use crate::text::{decimal, push_char, push_decimal, tenths};

verus! {

/// A load in percent, as the bit pattern of an `f32`.
#[derive(Debug, Clone, Copy, PartialEq, Eq, Structural)]
pub struct Load {
    pub bits: u32,
}

pub open spec fn sign_set(b: u32) -> bool {
    b >= 0x8000_0000
}

pub open spec fn exponent_field(b: u32) -> nat {
    ((b % 0x8000_0000) / 0x80_0000) as nat
}

pub open spec fn fraction_field(b: u32) -> nat {
    (b % 0x80_0000) as nat
}

pub open spec fn is_nan(b: u32) -> bool {
    exponent_field(b) == 255 && fraction_field(b) != 0
}

pub open spec fn is_infinite(b: u32) -> bool {
    exponent_field(b) == 255 && fraction_field(b) == 0
}

/// The integer significand: the magnitude of a finite value is
/// `significand * 2^scale`.
pub open spec fn significand(b: u32) -> nat {
    if exponent_field(b) == 0 {
        fraction_field(b)
    } else {
        fraction_field(b) + 0x80_0000
    }
}

pub open spec fn scale(b: u32) -> int {
    if exponent_field(b) == 0 {
        -149
    } else {
        exponent_field(b) - 150
    }
}

/// `a / d` rounded to the nearest integer, ties to the even one.
pub open spec fn round_half_even(a: nat, d: nat) -> nat
    recommends
        d > 0,
{
    let q = a / d;
    let r = a % d;
    if 2 * r > d {
        q + 1
    } else if 2 * r < d {
        q
    } else if q % 2 == 0 {
        q
    } else {
        q + 1
    }
}

/// Ten times the magnitude of a finite value, rounded half to even: the digits
/// that `{:.1}` shows.
pub open spec fn magnitude_tenths(b: u32) -> nat {
    if scale(b) >= 0 {
        10 * significand(b) * pow2(scale(b) as nat)
    } else {
        round_half_even(10 * significand(b), pow2((-scale(b)) as nat))
    }
}

/// The load as `{:.1}` shows the `f32`: `NaN`, `inf`, `-inf`, or an optional
/// minus sign and the magnitude with one decimal.
pub open spec fn load_text(b: u32) -> Seq<char> {
    if is_nan(b) {
        "NaN"@
    } else if is_infinite(b) {
        if sign_set(b) {
            "-inf"@
        } else {
            "inf"@
        }
    } else if sign_set(b) {
        "-"@ + tenths(magnitude_tenths(b))
    } else {
        tenths(magnitude_tenths(b))
    }
}

/// The whole number of tens in a finite non-negative value (`floor(v / 10)`).
pub open spec fn whole_tens(b: u32) -> nat {
    if scale(b) >= 0 {
        significand(b) * pow2(scale(b) as nat) / 10
    } else {
        significand(b) / (10 * pow2((-scale(b)) as nat))
    }
}

/// How many of the ten cells of the processor bar are filled: `(v / 10.0) as usize`,
/// capped at ten. Negative loads and NaN fill none; infinity fills all.
///
/// For an `f32` `v`, rounding `v / 10` to an `f32` never crosses a whole number (the
/// `f32` values next below `10 n` are too far from it for `n <= 10`), so the cast gives
/// `floor(v / 10)`.
pub open spec fn load_cells(b: u32) -> nat {
    if is_nan(b) || sign_set(b) {
        0
    } else if is_infinite(b) {
        10
    } else if whole_tens(b) < 10 {
        whole_tens(b)
    } else {
        10
    }
}

/// An integer whose order is the order of the loads (for loads that are not NaN):
/// for non-negative values the bit pattern, for negative ones minus their magnitude's
/// pattern, so that `-0.0` and `0.0` rank alike.
pub open spec fn load_rank(b: u32) -> int {
    if sign_set(b) {
        -(b - 0x8000_0000)
    } else {
        b as int
    }
}

pub(crate) fn pow2_u128(n: u32) -> (p: u128)
    requires
        n <= 126,
    ensures
        p == pow2(n as nat),
{
    proof {
        lemma2_to64();
        lemma2_to64_rest();
        lemma_pow2_adds(64, 62);
    }
    let mut p: u128 = 1;
    let mut i: u32 = 0;
    assert(pow2(0) == 1);
    while i < n
        invariant
            i <= n <= 126,
            p == pow2(i as nat),
            pow2(126) == 0x1_0000_0000_0000_0000 * 0x4000_0000_0000_0000,
        decreases n - i,
    {
        proof {
            lemma_pow2_unfold((i + 1) as nat);
            if i + 1 < 126 {
                lemma_pow2_strictly_increases((i + 1) as nat, 126);
            }
        }
        p = p * 2;
        i = i + 1;
    }
    p
}

fn pow2_u64(n: u32) -> (p: u64)
    requires
        n <= 40,
    ensures
        p == pow2(n as nat),
{
    proof {
        lemma2_to64();
        lemma2_to64_rest();
    }
    let mut p: u64 = 1;
    let mut i: u32 = 0;
    while i < n
        invariant
            i <= n <= 40,
            p == pow2(i as nat),
            pow2(40) == 0x100_0000_0000,
        decreases n - i,
    {
        proof {
            lemma_pow2_unfold((i + 1) as nat);
            if i + 1 < 40 {
                lemma_pow2_strictly_increases((i + 1) as nat, 40);
            }
        }
        p = p * 2;
        i = i + 1;
    }
    p
}

/// The three fields of the bit pattern.
fn fields(b: u32) -> (r: (bool, u32, u32))
    ensures
        r.0 == sign_set(b),
        r.1 == exponent_field(b),
        r.2 == fraction_field(b),
        r.1 <= 255,
        r.2 < 0x80_0000,
{
    (b >= 0x8000_0000, (b % 0x8000_0000) / 0x80_0000, b % 0x80_0000)
}

proof fn lemma_tenths_of_whole(x: nat)
    ensures
        tenths(10 * x) == decimal(x) + ".0"@,
{
    assert((10 * x) / 10 == x) by (nonlinear_arith);
    assert((10 * x) % 10 == 0) by (nonlinear_arith);
    reveal_strlit(".0");
    assert(tenths(10 * x) =~= decimal(x) + ".0"@);
}

/// Ten times the magnitude, rounded, for a finite load with a negative scale.
fn fraction_tenths(sig: u64, k: u32) -> (t: u64)
    requires
        sig < 0x100_0000,
        1 <= k <= 149,
    ensures
        t == round_half_even(10 * sig as nat, pow2(k as nat)),
        t <= 10 * sig + 1,
{
    if k > 28 {
        proof {
            lemma2_to64();
        lemma2_to64_rest();
            if k > 29 {
                lemma_pow2_strictly_increases(29, k as nat);
            }
            let a = 10 * sig as nat;
            let d = pow2(k as nat);
            assert(d > 2 * a);
            assert(a / d == 0) by (nonlinear_arith)
                requires
                    d > 2 * a,
            ;
            assert(a % d == a) by (nonlinear_arith)
                requires
                    d > 2 * a,
            ;
        }
        return 0;
    }
    let d = pow2_u64(k);
    proof {
        lemma2_to64();
        lemma2_to64_rest();
        if k < 28 {
            lemma_pow2_strictly_increases(k as nat, 28);
        }
    }
    let a = 10 * sig;
    let q = a / d;
    let r = a % d;
    assert(q <= a) by (nonlinear_arith)
        requires
            q == a / d,
            d >= 1,
    ;
    if 2 * r > d {
        q + 1
    } else if 2 * r < d {
        q
    } else if q % 2 == 0 {
        q
    } else {
        q + 1
    }
}

/// Appends the load as `{:.1}` shows it.
pub fn push_load(out: &mut String, load: Load)
    ensures
        final(out)@ == old(out)@ + load_text(load.bits),
{
    let b = load.bits;
    let (sign, exp, frac) = fields(b);
    if exp == 255 && frac != 0 {
        out.append("NaN");
        return;
    }
    if exp == 255 {
        if sign {
            out.append("-inf");
        } else {
            out.append("inf");
        }
        return;
    }
    let ghost start = out@;
    if sign {
        out.append("-");
    }
    let ghost signed = out@;
    let sig: u64 = if exp == 0 {
        frac as u64
    } else {
        frac as u64 + 0x80_0000
    };
    if exp >= 150 {
        let s = exp - 150;
        let p = pow2_u128(s);
        proof {
            lemma2_to64();
        lemma2_to64_rest();
            lemma_pow2_adds(64, 40);
            if s < 104 {
                lemma_pow2_strictly_increases(s as nat, 104);
            }
            lemma_tenths_of_whole(sig as nat * p as nat);
            assert(sig as nat * p as nat <= 0xff_ffff * (0x1_0000_0000_0000_0000 * 0x100_0000_0000))
                by (nonlinear_arith)
                requires
                    sig <= 0xff_ffff,
                    p <= 0x1_0000_0000_0000_0000 * 0x100_0000_0000,
            ;
            assert(10 * sig as nat * p as nat == 10 * (sig as nat * p as nat)) by (nonlinear_arith);
        }
        let whole = (sig as u128) * p;
        push_decimal(out, whole);
        out.append(".0");
        assert(magnitude_tenths(b) == 10 * (sig as nat * p as nat));
        assert(out@ =~= signed + tenths(magnitude_tenths(b)));
    } else {
        let k: u32 = if exp == 0 {
            149
        } else {
            150 - exp
        };
        let t = fraction_tenths(sig, k);
        push_decimal(out, (t / 10) as u128);
        push_char(out, '.');
        push_char(out, crate::text::digit_char((t % 10) as u128));
        assert(magnitude_tenths(b) == t);
        assert(out@ =~= signed + tenths(magnitude_tenths(b)));
    }
    assert(out@ =~= old(out)@ + load_text(b));
}

/// The load as `{:.1}` shows it, as a new string.
pub fn load_string(load: Load) -> (r: String)
    ensures
        r@ == load_text(load.bits),
{
    let mut r = String::new();
    push_load(&mut r, load);
    assert(r@ =~= load_text(load.bits));
    r
}

/// The number of filled cells of the processor bar for this load.
pub fn load_cells_of(load: Load) -> (c: u64)
    ensures
        c == load_cells(load.bits),
{
    let b = load.bits;
    let (sign, exp, frac) = fields(b);
    if sign || exp == 255 && frac != 0 {
        return 0;
    }
    if exp == 255 {
        return 10;
    }
    let sig: u64 = if exp == 0 {
        frac as u64
    } else {
        frac as u64 + 0x80_0000
    };
    if exp >= 150 {
        proof {
            lemma_pow2_pos((exp - 150) as nat);
            let p = pow2((exp - 150) as nat);
            assert(sig as nat * p / 10 >= 10) by (nonlinear_arith)
                requires
                    sig >= 0x80_0000,
                    p >= 1,
            ;
        }
        return 10;
    }
    let k: u32 = if exp == 0 {
        149
    } else {
        150 - exp
    };
    if k > 24 {
        proof {
            lemma2_to64();
        lemma2_to64_rest();
            lemma_pow2_strictly_increases(24, k as nat);
            let p = pow2(k as nat);
            assert(sig as nat / (10 * p) == 0) by (nonlinear_arith)
                requires
                    sig < 0x100_0000,
                    p > 0x100_0000,
            ;
        }
        return 0;
    }
    let p = pow2_u64(k);
    proof {
        lemma2_to64();
        lemma2_to64_rest();
        if k < 24 {
            lemma_pow2_strictly_increases(k as nat, 24);
        }
    }
    let w = sig / (10 * p);
    if w < 10 {
        w
    } else {
        10
    }
}

/// The rank of a load: loads compare as their ranks do.
pub fn load_rank_of(load: Load) -> (r: i64)
    ensures
        r == load_rank(load.bits),
{
    let b = load.bits;
    if b >= 0x8000_0000 {
        -((b - 0x8000_0000) as i64)
    } else {
        b as i64
    }
}

} // verus!
