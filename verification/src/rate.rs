//! The minimum destination amount a Prepare demands: the source amount
//! converted through the exchange rate, less the configured slippage,
//! rescaled between the two assets' scales, and always rounded up in
//! the sender's favor. The arithmetic is exact rational arithmetic; no
//! precision is lost at any step.

use vstd::prelude::*;
use vstd::arithmetic::power::{pow, lemma_pow0, lemma_pow_positive, lemma_pow_adds, lemma_pow1};
use vstd::arithmetic::div_mod::{
    lemma_fundamental_div_mod,
    lemma_fundamental_div_mod_converse,
    lemma_div_is_ordered,
    lemma_multiply_divide_lt,
};
use vstd::arithmetic::mul::{lemma_mul_inequality, lemma_mul_is_commutative};

verus! {

/// A price as an exact ratio.
#[derive(Debug, Clone, Copy, PartialEq, Eq, Structural)]
pub struct Price {
    /// Numerator.
    pub num: u32,
    /// Denominator; zero denominators are meaningless.
    pub den: u32,
}

/// Is the price a real ratio?
pub open spec fn price_wf(p: Price) -> bool {
    p.den >= 1
}

/// Per-code prices in a common numeraire, an injected collaborator.
pub trait ExchangeRateStore {
    /// The prices of the two asset codes, or `None` when either is
    /// unknown.
    fn get_exchange_rates(&self, source_code: &Vec<u8>, dest_code: &Vec<u8>) -> (r: Option<
        (Price, Price),
    >)
        ensures
            r matches Some(pair) ==> price_wf(pair.0) && price_wf(pair.1),
    ;
}

/// Rounding up: the least integer at least `a / b`, for positive `b`.
pub open spec fn ceil_div(a: int, b: int) -> int {
    (a + b - 1) / b
}

/// Clamping into the `u64` range from above.
pub open spec fn sat64(x: int) -> int {
    if x > u64::MAX {
        u64::MAX as int
    } else {
        x
    }
}

/// The exact minimum destination amount: source units turned into base
/// units, multiplied by the rate and by the kept share after slippage,
/// turned into destination units, rounded up.
pub open spec fn min_dest_spec(
    source_amount: u64,
    rate_num: u64,
    rate_den: u64,
    slippage_bp: u16,
    src_scale: u8,
    dst_scale: u8,
) -> int {
    ceil_div(
        source_amount * rate_num * ((10000 - slippage_bp) as int) * pow(10, dst_scale as nat),
        rate_den * 10000 * pow(10, src_scale as nat),
    )
}

/// With a known witness decomposition, the ceiling of the division is
/// the quotient, plus one when a remainder is left.
proof fn lemma_ceil_div_witness(a: int, b: int, q: int, r: int)
    requires
        b > 0,
        a == q * b + r,
        0 <= r < b,
    ensures
        ceil_div(a, b) == q + if r > 0 {
            1int
        } else {
            0int
        },
{
    if r > 0 {
        assert(a + b - 1 == (q + 1) * b + (r - 1)) by (nonlinear_arith)
            requires
                a == q * b + r,
        ;
        lemma_fundamental_div_mod_converse(a + b - 1, b, q + 1, r - 1);
    } else {
        assert(a + b - 1 == q * b + (b - 1)) by (nonlinear_arith)
            requires
                a == q * b + r,
                r == 0,
        ;
        lemma_fundamental_div_mod_converse(a + b - 1, b, q, b - 1);
    }
}

/// The ceiling of a division is at least any lower quotient witness.
proof fn lemma_ceil_div_lower(a: int, b: int, q: int)
    requires
        b > 0,
        q >= 0,
        a >= q * b,
    ensures
        ceil_div(a, b) >= q,
{
    assert(q * b + b - 1 >= 0) by (nonlinear_arith)
        requires
            b > 0,
            q >= 0,
    ;
    lemma_div_is_ordered(q * b + b - 1, a + b - 1, b);
    assert(q * b + b - 1 == q * b + (b - 1));
    lemma_fundamental_div_mod_converse(q * b + b - 1, b, q, b - 1);
}

/// Powers of ten are at least one.
proof fn lemma_pow10_pos(e: nat)
    ensures
        pow(10, e) >= 1,
{
    lemma_pow_positive(10, e);
}

/// One more power of ten.
proof fn lemma_pow10_step(e: nat)
    ensures
        pow(10, e + 1) == 10 * pow(10, e),
{
    lemma_pow_adds(10, 1, e);
    lemma_pow1(10);
}

/// The exact minimum destination amount, clamped into `u64` from
/// above. Zero whenever the kept share, the source amount or the rate
/// is zero — such a packet must be unfulfillable.
#[verifier::loop_isolation(false)]
#[verifier::spinoff_prover]
pub fn min_destination_amount(
    source_amount: u64,
    rate_num: u64,
    rate_den: u64,
    slippage_bp: u16,
    src_scale: u8,
    dst_scale: u8,
) -> (r: u64)
    requires
        rate_den >= 1,
        slippage_bp <= 10000,
    ensures
        r as int == sat64(
            min_dest_spec(source_amount, rate_num, rate_den, slippage_bp, src_scale, dst_scale),
        ),
{
    let ghost a_target: int = source_amount * rate_num * ((10000 - slippage_bp) as int) * pow(
        10,
        dst_scale as nat,
    );
    let ghost b_target: int = rate_den * 10000 * pow(10, src_scale as nat);
    proof {
        lemma_pow10_pos(src_scale as nat);
        lemma_pow10_pos(dst_scale as nat);
        assert(b_target > 0) by (nonlinear_arith)
            requires
                rate_den >= 1,
                pow(10, src_scale as nat) >= 1,
                b_target == rate_den * 10000 * pow(10, src_scale as nat),
        ;
    }
    let keep: u64 = 10000 - (slippage_bp as u64);
    if keep == 0 || source_amount == 0 || rate_num == 0 {
        proof {
            assert(a_target == 0) by (nonlinear_arith)
                requires
                    a_target == source_amount * rate_num * ((10000 - slippage_bp) as int) * pow(
                        10,
                        dst_scale as nat,
                    ),
                    source_amount == 0 || rate_num == 0 || (10000 - slippage_bp) == 0,
            ;
            lemma_ceil_div_witness(0, b_target, 0, 0);
        }
        return 0;
    }
    proof {
        assert((source_amount as int) * (rate_num as int) <= 0xFFFF_FFFF_FFFF_FFFFint
            * 0xFFFF_FFFF_FFFF_FFFFint) by (nonlinear_arith)
            requires
                source_amount <= 0xFFFF_FFFF_FFFF_FFFFu64,
                rate_num <= 0xFFFF_FFFF_FFFF_FFFFu64,
        ;
    }
    let num0: u128 = (source_amount as u128) * (rate_num as u128);
    let den: u128 = (rate_den as u128) * 10000;
    proof {
        assert((den as int) <= 0xFFFF_FFFF_FFFF_FFFFint * 10000) by (nonlinear_arith)
            requires
                (den as int) == (rate_den as int) * 10000,
                rate_den <= 0xFFFF_FFFF_FFFF_FFFFu64,
        ;
    }
    let mut q: u128 = num0 / den;
    let mut rem: u128 = num0 % den;
    proof {
        lemma_fundamental_div_mod(num0 as int, den as int);
        lemma_pow0(10);
    }
    if dst_scale >= src_scale {
        let d: u8 = dst_scale - src_scale;
        if q > (u64::MAX as u128) {
            proof {
                saturation_bound(
                    num0 as int,
                    den as int,
                    q as int,
                    rem as int,
                    keep as int,
                    0nat,
                    d as nat,
                    src_scale as nat,
                    dst_scale as nat,
                    a_target,
                    b_target,
                    source_amount,
                    rate_num,
                    rate_den,
                    slippage_bp,
                );
            }
            return u64::MAX;
        }
        let mut t: u8 = 0;
        while t < d
            invariant
                t <= d,
                keep == 10000 - slippage_bp,
                1 <= keep <= 10000,
                den == (rate_den as u128) * 10000,
                (den as int) <= 0xFFFF_FFFF_FFFF_FFFFint * 10000,
                den >= 1,
                rem < den,
                q * den + rem == num0 * pow(10, t as nat),
                q <= u64::MAX,
            decreases d - t,
        {
            proof {
                lemma_pow10_step(t as nat);
                lemma_pow10_pos(t as nat);
            }
            let r10: u128 = rem * 10;
            proof {
                assert(r10 < den * 10) by (nonlinear_arith)
                    requires
                        rem < den,
                        r10 == rem * 10,
                ;
                lemma_multiply_divide_lt(r10 as int, den as int, 10);
            }
            let q10: u128 = q * 10 + r10 / den;
            let rem10: u128 = r10 % den;
            proof {
                lemma_fundamental_div_mod(r10 as int, den as int);
                assert(q10 * den + rem10 == num0 * pow(10, (t + 1) as nat)) by (nonlinear_arith)
                    requires
                        q * den + rem == num0 * pow(10, t as nat),
                        r10 == rem * 10,
                        q10 == q * 10 + r10 / den,
                        rem10 == r10 % den,
                        r10 == den * (r10 / den) + r10 % den,
                        pow(10, (t + 1) as nat) == 10 * pow(10, t as nat),
                ;
            }
            q = q10;
            rem = rem10;
            t = t + 1;
            if q > (u64::MAX as u128) {
                proof {
                    saturation_bound(
                        num0 as int,
                        den as int,
                        q as int,
                        rem as int,
                        keep as int,
                        t as nat,
                        d as nat,
                        src_scale as nat,
                        dst_scale as nat,
                        a_target,
                        b_target,
                        source_amount,
                        rate_num,
                        rate_den,
                        slippage_bp,
                    );
                }
                return u64::MAX;
            }
        }
        proof {
            assert((rem as int) * (keep as int) < (den as int) * 10001) by (nonlinear_arith)
                requires
                    rem < den,
                    keep <= 10000,
                    den >= 1,
            ;
            assert((den as int) * 10001 <= u128::MAX) by (nonlinear_arith)
                requires
                    (den as int) <= 0xFFFF_FFFF_FFFF_FFFFint * 10000,
            ;
        }
        let rk: u128 = rem * (keep as u128);
        proof {
            assert(rk < den * (keep as u128)) by (nonlinear_arith)
                requires
                    rem < den,
                    rk == rem * (keep as u128),
                    keep >= 1,
            ;
            lemma_multiply_divide_lt(rk as int, den as int, keep as int);
            assert(q * (keep as u128) <= (u64::MAX as u128) * 10000) by (nonlinear_arith)
                requires
                    q <= u64::MAX,
                    keep <= 10000,
            ;
        }
        let qk: u128 = q * (keep as u128) + rk / den;
        let remk: u128 = rk % den;
        proof {
            lemma_fundamental_div_mod(rk as int, den as int);
            assert(qk * den + remk == (num0 * pow(10, d as nat)) * keep) by (nonlinear_arith)
                requires
                    q * den + rem == num0 * pow(10, d as nat),
                    rk == rem * (keep as u128),
                    qk == q * (keep as u128) + rk / den,
                    remk == rk % den,
                    rk == den * (rk / den) + rk % den,
            ;
        }
        if qk > (u64::MAX as u128) {
            proof {
                saturation_bound_final(
                    num0 as int,
                    den as int,
                    qk as int,
                    remk as int,
                    keep as int,
                    d as nat,
                    src_scale as nat,
                    dst_scale as nat,
                    a_target,
                    b_target,
                    source_amount,
                    rate_num,
                    rate_den,
                    slippage_bp,
                );
            }
            return u64::MAX;
        }
        let ceil: u128 = qk + if remk > 0 {
            1u128
        } else {
            0u128
        };
        proof {
            exactness_final(
                num0 as int,
                den as int,
                qk as int,
                remk as int,
                keep as int,
                d as nat,
                src_scale as nat,
                dst_scale as nat,
                a_target,
                b_target,
                source_amount,
                rate_num,
                rate_den,
                slippage_bp,
            );
        }
        if ceil > (u64::MAX as u128) {
            return u64::MAX;
        }
        ceil as u64
    } else {
        let e: u8 = src_scale - dst_scale;
        proof {
            assert(q * (keep as u128) <= q * den) by (nonlinear_arith)
                requires
                    keep <= 10000,
                    den >= 10000,
                    (keep as u128) <= den,
            ;
            assert(q * den <= num0) by (nonlinear_arith)
                requires
                    q * den + rem == num0 * pow(10, 0nat),
                    pow(10, 0nat) == 1,
                    rem >= 0,
            ;
        }
        proof {
            assert((rem as int) * (keep as int) < (den as int) * 10001) by (nonlinear_arith)
                requires
                    rem < den,
                    keep <= 10000,
                    den >= 1,
            ;
            assert((den as int) * 10001 <= u128::MAX) by (nonlinear_arith)
                requires
                    (den as int) <= 0xFFFF_FFFF_FFFF_FFFFint * 10000,
            ;
        }
        let rk: u128 = rem * (keep as u128);
        proof {
            assert(rk < den * (keep as u128)) by (nonlinear_arith)
                requires
                    rem < den,
                    rk == rem * (keep as u128),
                    keep >= 1,
            ;
            lemma_multiply_divide_lt(rk as int, den as int, keep as int);
            assert((q as int) * (keep as int) + 10000 <= u128::MAX) by (nonlinear_arith)
                requires
                    (q as int) * (den as int) <= (num0 as int),
                    (keep as int) <= (den as int),
                    q >= 0,
                    den >= 1,
                    keep >= 1,
                    (num0 as int) <= 0xFFFF_FFFF_FFFF_FFFFint * 0xFFFF_FFFF_FFFF_FFFFint,
            ;
            assert(rk / den < (keep as u128)) by {
                lemma_multiply_divide_lt(rk as int, den as int, keep as int);
            }
        }
        let mut qe: u128 = q * (keep as u128) + rk / den;
        let ghost mut re: int = rk as int % den as int;
        proof {
            lemma_fundamental_div_mod(rk as int, den as int);
            assert(qe * den + re == (num0 * keep)) by (nonlinear_arith)
                requires
                    q * den + rem == num0,
                    rk == rem * (keep as u128),
                    qe == q * (keep as u128) + rk / den,
                    re == rk as int % den as int,
                    rk == den * (rk / den) + rk % den,
            ;
        }
        let mut frac_pos: bool = (rk % den) > 0;
        let mut t: u8 = 0;
        while t < e
            invariant
                t <= e,
                den >= 1,
                qe * (den * pow(10, t as nat)) + re == num0 * keep,
                0 <= re < den * pow(10, t as nat),
                frac_pos == (re > 0),
            decreases e - t,
        {
            proof {
                lemma_pow10_step(t as nat);
                lemma_pow10_pos(t as nat);
                let bp = den * pow(10, t as nat);
                assert(bp >= 1) by (nonlinear_arith)
                    requires
                        den >= 1,
                        pow(10, t as nat) >= 1,
                        bp == den * pow(10, t as nat),
                ;
                assert((qe / 10) * (bp * 10) + ((qe % 10) * bp + re) == num0 * keep)
                    by (nonlinear_arith)
                    requires
                        qe * bp + re == num0 * keep,
                        qe == 10 * (qe / 10) + qe % 10,
                ;
                assert((qe % 10) * bp + re < bp * 10) by (nonlinear_arith)
                    requires
                        qe % 10 <= 9,
                        re < bp,
                        bp >= 1,
                ;
                assert(den * pow(10, (t + 1) as nat) == bp * 10) by (nonlinear_arith)
                    requires
                        pow(10, (t + 1) as nat) == 10 * pow(10, t as nat),
                        bp == den * pow(10, t as nat),
                ;
                assert((qe % 10) * bp + re > 0 <==> (qe % 10 > 0 || re > 0)) by (nonlinear_arith)
                    requires
                        bp >= 1,
                        re >= 0,
                ;
            }
            let digit = qe % 10;
            proof {
                re = (digit as int) * (den * pow(10, t as nat)) + re;
            }
            frac_pos = digit > 0 || frac_pos;
            qe = qe / 10;
            t = t + 1;
        }
        proof {
            exactness_final_neg(
                num0 as int,
                den as int,
                qe as int,
                re,
                keep as int,
                e as nat,
                src_scale as nat,
                dst_scale as nat,
                a_target,
                b_target,
                source_amount,
                rate_num,
                rate_den,
                slippage_bp,
                frac_pos,
            );
        }
        if qe >= (u64::MAX as u128) {
            return u64::MAX;
        }
        let ceil: u128 = qe + if frac_pos {
            1u128
        } else {
            0u128
        };
        if ceil > (u64::MAX as u128) {
            return u64::MAX;
        }
        ceil as u64
    }
}

/// Mid-loop saturation: once the running quotient exceeds `u64`, so
/// does the exact result.
proof fn saturation_bound(
    num0: int,
    den: int,
    q: int,
    rem: int,
    keep: int,
    t: nat,
    d: nat,
    src_scale: nat,
    dst_scale: nat,
    a_target: int,
    b_target: int,
    source_amount: u64,
    rate_num: u64,
    rate_den: u64,
    slippage_bp: u16,
)
    requires
        den >= 1,
        1 <= keep <= 10000,
        keep == 10000 - slippage_bp,
        num0 == source_amount * rate_num,
        den == rate_den * 10000,
        rate_den >= 1,
        t <= d,
        dst_scale == src_scale + d,
        0 <= rem < den,
        q * den + rem == num0 * pow(10, t),
        q > u64::MAX,
        a_target == source_amount * rate_num * ((10000 - slippage_bp) as int) * pow(10, dst_scale),
        b_target == rate_den * 10000 * pow(10, src_scale),
    ensures
        ceil_div(a_target, b_target) > u64::MAX,
{
    lemma_pow10_pos(src_scale);
    lemma_pow10_pos(t);
    lemma_pow10_pos((d - t) as nat);
    lemma_pow_adds(10, t, (d - t) as nat);
    lemma_pow_adds(10, src_scale, d);
    let ghost b_pos = b_target;
    assert(b_target > 0) by (nonlinear_arith)
        requires
            b_target == rate_den * 10000 * pow(10, src_scale),
            rate_den >= 1,
            pow(10, src_scale) >= 1,
    ;
    // a_target == num0 * keep * pow10(dst) == (num0 * pow10(t)) * keep * pow10(d - t) * pow10(src)
    assert(a_target == (num0 * pow(10, t)) * (keep * pow(10, (d - t) as nat) * pow(10, src_scale)))
        by (nonlinear_arith)
        requires
            a_target == source_amount * rate_num * ((10000 - slippage_bp) as int) * pow(
                10,
                dst_scale,
            ),
            num0 == source_amount * rate_num,
            keep == 10000 - slippage_bp,
            pow(10, dst_scale) == pow(10, src_scale) * pow(10, d),
            pow(10, d) == pow(10, t) * pow(10, (d - t) as nat),
    ;
    let factor = keep * pow(10, (d - t) as nat) * pow(10, src_scale);
    assert(factor >= pow(10, src_scale) && factor >= 1) by (nonlinear_arith)
        requires
            keep >= 1,
            pow(10, (d - t) as nat) >= 1,
            pow(10, src_scale) >= 1,
            factor == keep * pow(10, (d - t) as nat) * pow(10, src_scale),
    ;
    assert(b_target == den * pow(10, src_scale)) by (nonlinear_arith)
        requires
            b_target == rate_den * 10000 * pow(10, src_scale),
            den == rate_den * 10000,
    ;
    assert(a_target >= (q * den) * factor) by (nonlinear_arith)
        requires
            a_target == (num0 * pow(10, t)) * factor,
            num0 * pow(10, t) == q * den + rem,
            rem >= 0,
            q >= 0,
            den >= 1,
            factor >= 1,
    ;
    assert((q * den) * factor >= q * b_target) by (nonlinear_arith)
        requires
            q >= 0,
            den >= 1,
            factor >= pow(10, src_scale),
            pow(10, src_scale) >= 1,
            b_target == den * pow(10, src_scale),
    ;
    lemma_ceil_div_lower(a_target, b_target, q);
}

/// Post-fold saturation: the folded quotient already exceeds `u64`.
proof fn saturation_bound_final(
    num0: int,
    den: int,
    qk: int,
    remk: int,
    keep: int,
    d: nat,
    src_scale: nat,
    dst_scale: nat,
    a_target: int,
    b_target: int,
    source_amount: u64,
    rate_num: u64,
    rate_den: u64,
    slippage_bp: u16,
)
    requires
        den >= 1,
        1 <= keep <= 10000,
        keep == 10000 - slippage_bp,
        num0 == source_amount * rate_num,
        den == rate_den * 10000,
        rate_den >= 1,
        dst_scale == src_scale + d,
        0 <= remk < den,
        qk * den + remk == (num0 * pow(10, d)) * keep,
        qk > u64::MAX,
        a_target == source_amount * rate_num * ((10000 - slippage_bp) as int) * pow(10, dst_scale),
        b_target == rate_den * 10000 * pow(10, src_scale),
    ensures
        ceil_div(a_target, b_target) > u64::MAX,
{
    lemma_pow10_pos(src_scale);
    lemma_pow_adds(10, src_scale, d);
    assert(b_target > 0) by (nonlinear_arith)
        requires
            b_target == rate_den * 10000 * pow(10, src_scale),
            rate_den >= 1,
            pow(10, src_scale) >= 1,
    ;
    assert(a_target == (num0 * pow(10, d) * keep) * pow(10, src_scale)) by (nonlinear_arith)
        requires
            a_target == source_amount * rate_num * ((10000 - slippage_bp) as int) * pow(
                10,
                dst_scale,
            ),
            num0 == source_amount * rate_num,
            keep == 10000 - slippage_bp,
            pow(10, dst_scale) == pow(10, src_scale) * pow(10, d),
    ;
    assert(a_target >= qk * b_target) by (nonlinear_arith)
        requires
            a_target == (num0 * pow(10, d) * keep) * pow(10, src_scale),
            qk * den + remk == num0 * pow(10, d) * keep,
            remk >= 0,
            qk >= 0,
            b_target == den * pow(10, src_scale),
            pow(10, src_scale) >= 1,
            den >= 1,
    ;
    lemma_ceil_div_lower(a_target, b_target, qk);
}

/// Exactness when nothing saturated and the scale grows.
proof fn exactness_final(
    num0: int,
    den: int,
    qk: int,
    remk: int,
    keep: int,
    d: nat,
    src_scale: nat,
    dst_scale: nat,
    a_target: int,
    b_target: int,
    source_amount: u64,
    rate_num: u64,
    rate_den: u64,
    slippage_bp: u16,
)
    requires
        den >= 1,
        1 <= keep <= 10000,
        keep == 10000 - slippage_bp,
        num0 == source_amount * rate_num,
        den == rate_den * 10000,
        rate_den >= 1,
        dst_scale == src_scale + d,
        0 <= remk < den,
        qk * den + remk == (num0 * pow(10, d)) * keep,
        a_target == source_amount * rate_num * ((10000 - slippage_bp) as int) * pow(10, dst_scale),
        b_target == rate_den * 10000 * pow(10, src_scale),
    ensures
        ceil_div(a_target, b_target) == qk + if remk > 0 {
            1int
        } else {
            0int
        },
{
    lemma_pow10_pos(src_scale);
    lemma_pow_adds(10, src_scale, d);
    let p = pow(10, src_scale);
    assert(b_target == den * p);
    assert(b_target > 0) by (nonlinear_arith)
        requires
            b_target == den * p,
            den >= 1,
            p >= 1,
    ;
    assert(a_target == qk * (den * p) + remk * p) by (nonlinear_arith)
        requires
            a_target == source_amount * rate_num * ((10000 - slippage_bp) as int) * pow(
                10,
                dst_scale,
            ),
            num0 == source_amount * rate_num,
            keep == 10000 - slippage_bp,
            pow(10, dst_scale) == p * pow(10, d),
            qk * den + remk == num0 * pow(10, d) * keep,
    ;
    assert(0 <= remk * p < den * p) by (nonlinear_arith)
        requires
            0 <= remk < den,
            p >= 1,
    ;
    lemma_ceil_div_witness(a_target, b_target, qk, remk * p);
    assert((remk * p > 0) == (remk > 0)) by (nonlinear_arith)
        requires
            p >= 1,
            remk >= 0,
    ;
}

/// Exactness when the scale shrinks: the sticky fractional flag stands
/// for a positive remainder.
proof fn exactness_final_neg(
    num0: int,
    den: int,
    qe: int,
    re: int,
    keep: int,
    e: nat,
    src_scale: nat,
    dst_scale: nat,
    a_target: int,
    b_target: int,
    source_amount: u64,
    rate_num: u64,
    rate_den: u64,
    slippage_bp: u16,
    frac_pos: bool,
)
    requires
        den >= 1,
        1 <= keep <= 10000,
        keep == 10000 - slippage_bp,
        num0 == source_amount * rate_num,
        den == rate_den * 10000,
        rate_den >= 1,
        src_scale == dst_scale + e,
        qe * (den * pow(10, e)) + re == num0 * keep,
        0 <= re < den * pow(10, e),
        frac_pos == (re > 0),
        a_target == source_amount * rate_num * ((10000 - slippage_bp) as int) * pow(10, dst_scale),
        b_target == rate_den * 10000 * pow(10, src_scale),
    ensures
        ceil_div(a_target, b_target) == qe + if frac_pos {
            1int
        } else {
            0int
        },
{
    lemma_pow10_pos(dst_scale);
    lemma_pow10_pos(e);
    lemma_pow_adds(10, dst_scale, e);
    let p = pow(10, dst_scale);
    assert(b_target == (den * pow(10, e)) * p) by (nonlinear_arith)
        requires
            b_target == den * pow(10, src_scale),
            pow(10, src_scale) == p * pow(10, e),
    ;
    assert(b_target > 0) by (nonlinear_arith)
        requires
            b_target == (den * pow(10, e)) * p,
            den >= 1,
            pow(10, e) >= 1,
            p >= 1,
    ;
    assert(a_target == qe * b_target + re * p) by (nonlinear_arith)
        requires
            a_target == source_amount * rate_num * ((10000 - slippage_bp) as int) * p,
            num0 == source_amount * rate_num,
            keep == 10000 - slippage_bp,
            qe * (den * pow(10, e)) + re == num0 * keep,
            b_target == (den * pow(10, e)) * p,
    ;
    assert(0 <= re * p < b_target) by (nonlinear_arith)
        requires
            0 <= re < den * pow(10, e),
            p >= 1,
            b_target == (den * pow(10, e)) * p,
    ;
    lemma_ceil_div_witness(a_target, b_target, qe, re * p);
    assert((re * p > 0) == (re > 0)) by (nonlinear_arith)
        requires
            p >= 1,
            re >= 0,
    ;
}

} // verus!
