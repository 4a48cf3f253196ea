use vstd::prelude::*;
use crate::pixel::{in_bounds, Sample};
use crate::score::abs_diff;
use crate::wide::{add_wide, le_wide, mul_wide, wide_val};

verus! {

/// The fourth root of the distance from the centre is taken in millionths.
pub const ROOT_ONE: u64 = 1_000_000;

/// `ROOT_ONE^4 / 4`: the squared distance `dist_num / (4 (W H)^2)` has
/// fourth root `r / ROOT_ONE` where `r^4 (W H)^2` meets `dist_num * ROOT_QUARTER`.
pub const ROOT_QUARTER: u128 = 250_000_000_000_000_000_000_000;

/// Weights are in millionths.
pub const WEIGHT_ONE: u64 = 1_000_000;

/// Subtracted from `1 / (r + 1)`, in millionths: a weight of `0.3`.
pub const WEIGHT_SHIFT: u64 = 300_000;

/// Largest weight, that of the centre: `1 - 0.3`.
pub const MAX_WEIGHT: u64 = 700_000;

/// Smallest weight of any pixel, that of a corner at distance `sqrt(0.5)`.
pub const MIN_WEIGHT: u64 = 243_213;

pub open spec fn pow4(r: nat) -> nat {
    r * r * r * r
}

/// Twice the offset of `p` from the middle of `0..extent`: `|2 p - extent|`.
pub open spec fn center_offset(p: u32, extent: u32) -> nat {
    abs_diff(2 * p, extent as int)
}

/// The squared normalised distance of `s` from the centre,
/// `((x - W/2) / W)^2 + ((y - H/2) / H)^2`, times `4 (W H)^2`.
pub open spec fn dist_num(s: Sample, width: u32, height: u32) -> nat {
    let a = center_offset(s.x, width) * height as nat;
    let b = center_offset(s.y, height) * width as nat;
    a * a + b * b
}

/// `(W H)^2`.
pub open spec fn area_sq(width: u32, height: u32) -> nat {
    (width as nat * height as nat) * (width as nat * height as nat)
}

/// `r` is the fourth root of `x / m`, rounded down.
pub open spec fn is_root(r: nat, x: nat, m: nat) -> bool {
    pow4(r) * m <= x < pow4(r + 1) * m
}

/// The fourth root of the squared normalised distance of `s` from the
/// centre, in millionths, rounded down.
pub open spec fn scaled_root(s: Sample, width: u32, height: u32) -> nat {
    choose|r: nat| #[trigger] is_root(r, dist_num(s, width, height) * ROOT_QUARTER as nat, area_sq(width, height))
}

/// The weight, in millionths and rounded down, of a point whose distance from
/// the centre has fourth root `r` millionths: `1 / (r + 1) - 0.3`.
pub open spec fn weight_of_root(r: nat) -> int {
    (WEIGHT_ONE * ROOT_ONE) as int / (r + ROOT_ONE) as int - WEIGHT_SHIFT as int
}

/// Sampling weight of `s` in a `width` by `height` image.
pub open spec fn weight_spec(s: Sample, width: u32, height: u32) -> int {
    weight_of_root(scaled_root(s, width, height))
}

proof fn lemma_pow4_monotone(a: nat, b: nat)
    requires
        a <= b,
    ensures
        pow4(a) <= pow4(b),
{
    assert(a * a * a * a <= b * b * b * b) by (nonlinear_arith)
        requires
            a <= b,
    ;
}

proof fn lemma_pow4_zero(m: nat)
    ensures
        pow4(0) * m == 0,
{
    assert(pow4(0) == 0);
    assert(0 * m == 0) by (nonlinear_arith);
}

proof fn lemma_mul_le(a: nat, b: nat, m: nat)
    requires
        a <= b,
    ensures
        a * m <= b * m,
{
    assert(a * m <= b * m) by (nonlinear_arith)
        requires
            a <= b,
    ;
}

/// Two fourth roots of one quotient are equal, and a larger quotient has a
/// root at least as large.
pub proof fn lemma_root_monotone(r1: nat, x1: nat, r2: nat, x2: nat, m: nat)
    requires
        is_root(r1, x1, m),
        is_root(r2, x2, m),
        x1 <= x2,
    ensures
        r1 <= r2,
{
    if r1 > r2 {
        lemma_pow4_monotone(r2 + 1, r1);
        lemma_mul_le(pow4(r2 + 1), pow4(r1), m);
    }
}

/// Below any bracket `x < n^4 m` there is a fourth root of `x / m`.
pub proof fn lemma_root_exists(x: nat, m: nat, n: nat)
    requires
        x < pow4(n) * m,
    ensures
        exists|r: nat| #[trigger] is_root(r, x, m),
    decreases n,
{
    if n == 0 {
        lemma_pow4_zero(m);
    } else if pow4((n - 1) as nat) * m <= x {
        assert(is_root((n - 1) as nat, x, m));
    } else {
        lemma_root_exists(x, m, (n - 1) as nat);
    }
}

proof fn lemma_dist_bounds(s: Sample, width: u32, height: u32)
    requires
        in_bounds(s, width, height),
    ensures
        dist_num(s, width, height) <= 2 * area_sq(width, height),
        area_sq(width, height) > 0,
        area_sq(width, height) <= u128::MAX,
        (center_offset(s.x, width) * height as nat) * (center_offset(s.x, width) * height as nat)
            <= area_sq(width, height),
        (center_offset(s.y, height) * width as nat) * (center_offset(s.y, height) * width as nat)
            <= area_sq(width, height),
{
    let (w, h) = (width as nat, height as nat);
    let (a, b) = (center_offset(s.x, width), center_offset(s.y, height));
    assert(a <= w && b <= h);
    assert((a * h) * (a * h) <= (w * h) * (w * h) && (b * w) * (b * w) <= (w * h) * (w * h))
        by (nonlinear_arith)
        requires
            a <= w,
            b <= h,
    ;
    assert((w * h) * (w * h) > 0 && (w * h) * (w * h) <= u128::MAX) by (nonlinear_arith)
        requires
            0 < w <= 0xffff_ffff,
            0 < h <= 0xffff_ffff,
    ;
}

/// Every pixel has a root, at most 840896 millionths (the corner of a
/// square image is at distance `sqrt(0.5)`, whose fourth root is 0.8408964...).
pub proof fn lemma_scaled_root(s: Sample, width: u32, height: u32)
    requires
        in_bounds(s, width, height),
    ensures
        is_root(
            scaled_root(s, width, height),
            dist_num(s, width, height) * ROOT_QUARTER as nat,
            area_sq(width, height),
        ),
        scaled_root(s, width, height) <= 840896,
{
    let x = dist_num(s, width, height) * ROOT_QUARTER as nat;
    let m = area_sq(width, height);
    lemma_dist_bounds(s, width, height);
    assert(pow4(1_000_000) == 1_000_000_000_000_000_000_000_000);
    assert(x < pow4(1_000_000) * m) by (nonlinear_arith)
        requires
            x == dist_num(s, width, height) * 250_000_000_000_000_000_000_000,
            dist_num(s, width, height) <= 2 * m,
            m > 0,
            pow4(1_000_000) == 1_000_000_000_000_000_000_000_000,
    ;
    lemma_root_exists(x, m, 1_000_000);
    let r = scaled_root(s, width, height);
    if r > 840896 {
        lemma_pow4_monotone(840897, r);
        assert(pow4(840897) == 500001390770336952922881);
        assert(false) by (nonlinear_arith)
            requires
                pow4(r) * m <= x,
                x == dist_num(s, width, height) * 250_000_000_000_000_000_000_000,
                dist_num(s, width, height) <= 2 * m,
                m > 0,
                pow4(840897) <= pow4(r),
                pow4(840897) == 500001390770336952922881,
        ;
    }
}

/// Sampling weight of `pixel`, in millionths: `1 / (r + 1) - 0.3`, where `r`
/// is the fourth root of the squared normalised distance from the centre.
/// The root is rounded down to millionths and the quotient is rounded down,
/// which keeps the result within one millionth of the exact weight and a
/// non-increasing function of the exact distance.
pub fn weight(pixel: &Sample, width: u32, height: u32) -> (w: u64)
    requires
        in_bounds(*pixel, width, height),
    ensures
        w == weight_spec(*pixel, width, height),
        MIN_WEIGHT <= w <= MAX_WEIGHT,
{
    proof {
        lemma_dist_bounds(*pixel, width, height);
        lemma_scaled_root(*pixel, width, height);
    }
    let a: u128 = if 2 * (pixel.x as u64) >= width as u64 {
        (2 * (pixel.x as u64) - width as u64) as u128
    } else {
        (width as u64 - 2 * (pixel.x as u64)) as u128
    };
    let b: u128 = if 2 * (pixel.y as u64) >= height as u64 {
        (2 * (pixel.y as u64) - height as u64) as u128
    } else {
        (height as u64 - 2 * (pixel.y as u64)) as u128
    };
    proof {
        assert(a * height <= 0xffff_ffff * 0xffff_ffff && b * width <= 0xffff_ffff * 0xffff_ffff
            && width * height <= 0xffff_ffff * 0xffff_ffff)
            by (nonlinear_arith)
            requires
                a <= width,
                b <= height,
                width <= 0xffff_ffff,
                height <= 0xffff_ffff,
        ;
    }
    let ah = a * (height as u128);
    let bw = b * (width as u128);
    let wh = (width as u128) * (height as u128);
    let m = wh * wh;
    let ghost x = dist_num(*pixel, width, height) * ROOT_QUARTER as nat;
    let xa = mul_wide(ah * ah, ROOT_QUARTER);
    let xb = mul_wide(bw * bw, ROOT_QUARTER);
    let xw = add_wide(xa, xb);
    assert(wide_val(xw) == x) by (nonlinear_arith)
        requires
            wide_val(xw) == wide_val(xa) + wide_val(xb),
            wide_val(xa) == (ah * ah) as int * ROOT_QUARTER as int,
            wide_val(xb) == (bw * bw) as int * ROOT_QUARTER as int,
            x == dist_num(*pixel, width, height) * ROOT_QUARTER as nat,
            dist_num(*pixel, width, height) == ah * ah + bw * bw,
    ;
    let mut lo: u128 = 0;
    let mut hi: u128 = 1_000_000;
    assert(pow4(1_000_000) == 1_000_000_000_000_000_000_000_000);
    assert(x < pow4(1_000_000) * m) by (nonlinear_arith)
        requires
            x == dist_num(*pixel, width, height) * 250_000_000_000_000_000_000_000,
            dist_num(*pixel, width, height) <= 2 * m,
            m > 0,
            pow4(1_000_000) == 1_000_000_000_000_000_000_000_000,
    ;
    proof {
        lemma_pow4_zero(m as nat);
    }
    while hi - lo > 1
        invariant
            lo < hi <= 1_000_000,
            pow4(lo as nat) * m <= x < pow4(hi as nat) * m,
            wide_val(xw) == x,
        decreases hi - lo,
    {
        let mid = lo + (hi - lo) / 2;
        proof {
            assert(mid * mid * mid * mid <= 1_000_000_000_000_000_000_000_000) by (nonlinear_arith)
                requires
                    mid <= 1_000_000,
            ;
            assert(mid * mid <= 1_000_000_000_000 && mid * mid * mid <= 1_000_000_000_000_000_000)
                by (nonlinear_arith)
                requires
                    mid <= 1_000_000,
            ;
        }
        if le_wide(mul_wide(mid * mid * mid * mid, m), xw) {
            lo = mid;
        } else {
            hi = mid;
        }
    }
    proof {
        assert(is_root(lo as nat, x, m as nat));
        lemma_root_monotone(lo as nat, x, scaled_root(*pixel, width, height), x, m as nat);
        lemma_root_monotone(scaled_root(*pixel, width, height), x, lo as nat, x, m as nat);
        vstd::arithmetic::div_mod::lemma_div_is_ordered_by_denominator(
            1_000_000_000_000,
            1_000_000,
            (lo + 1_000_000) as int,
        );
        vstd::arithmetic::div_mod::lemma_div_is_ordered_by_denominator(
            1_000_000_000_000,
            (lo + 1_000_000) as int,
            1_840_896,
        );
    }
    let r = lo as u64;
    WEIGHT_ONE * ROOT_ONE / (r + ROOT_ONE) - WEIGHT_SHIFT
}

/// Weight does not increase with the distance from the centre: a pixel no
/// farther from the centre than another, by the exact normalised distance
/// `(a/2W)^2 + (b/2H)^2` compared cross-multiplied, weighs at least as much.
pub proof fn lemma_weight_nonincreasing(p1: Sample, p2: Sample, width: u32, height: u32)
    requires
        in_bounds(p1, width, height),
        in_bounds(p2, width, height),
        dist_num(p1, width, height) <= dist_num(p2, width, height),
    ensures
        weight_spec(p1, width, height) >= weight_spec(p2, width, height),
{
    lemma_scaled_root(p1, width, height);
    lemma_scaled_root(p2, width, height);
    let (r1, r2) = (scaled_root(p1, width, height), scaled_root(p2, width, height));
    let q = ROOT_QUARTER as nat;
    lemma_mul_le(dist_num(p1, width, height), dist_num(p2, width, height), q);
    lemma_root_monotone(
        r1,
        dist_num(p1, width, height) * q,
        r2,
        dist_num(p2, width, height) * q,
        area_sq(width, height),
    );
    vstd::arithmetic::div_mod::lemma_div_is_ordered_by_denominator(
        1_000_000_000_000,
        (r1 + 1_000_000) as int,
        (r2 + 1_000_000) as int,
    );
}

/// The largest weight, `0.7`, is reached exactly at the centre of the image
/// (`2 x == W` and `2 y == H`); every other pixel weighs less.
pub proof fn lemma_weight_max_only_at_center(p: Sample, width: u32, height: u32)
    requires
        in_bounds(p, width, height),
    ensures
        weight_spec(p, width, height) <= MAX_WEIGHT,
        weight_spec(p, width, height) == MAX_WEIGHT <==> (2 * p.x == width && 2 * p.y == height),
{
    lemma_scaled_root(p, width, height);
    lemma_dist_bounds(p, width, height);
    let r = scaled_root(p, width, height);
    let m = area_sq(width, height);
    let n = dist_num(p, width, height);
    let (w, h) = (width as nat, height as nat);
    let (a, b) = (center_offset(p.x, width), center_offset(p.y, height));
    vstd::arithmetic::div_mod::lemma_div_is_ordered_by_denominator(
        1_000_000_000_000,
        1_000_000,
        (r + 1_000_000) as int,
    );
    if 2 * p.x == width && 2 * p.y == height {
        assert(a == 0 && b == 0);
        assert(n == 0) by (nonlinear_arith)
            requires
                n == (a * h) * (a * h) + (b * w) * (b * w),
                a == 0,
                b == 0,
        ;
        assert(pow4(1) == 1);
        if r > 0 {
            lemma_pow4_monotone(1, r);
            lemma_mul_le(1, pow4(r), m);
        }
        assert(r == 0);
    } else {
        assert(a >= 1 || b >= 1);
        assert(m <= n * (ROOT_QUARTER as nat)) by (nonlinear_arith)
            requires
                n == (a * h) * (a * h) + (b * w) * (b * w),
                a >= 1 || b >= 1,
                m == (w * h) * (w * h),
                w <= 0xffff_ffff,
                h <= 0xffff_ffff,
                0 < w,
                0 < h,
        ;
        assert(pow4(1) == 1);
        if r == 0 {
            assert(n * (ROOT_QUARTER as nat) < pow4(1) * m);
            assert(false);
        }
        vstd::arithmetic::div_mod::lemma_div_is_ordered_by_denominator(
            1_000_000_000_000,
            1_000_001,
            (r + 1_000_000) as int,
        );
        assert(1_000_000_000_000int / 1_000_001int == 999_999);
    }
}

proof fn lemma_pow4_strict(a: nat, b: nat)
    requires
        a < b,
    ensures
        pow4(a) < pow4(b),
{
    assert(a * a * a * a < b * b * b * b) by (nonlinear_arith)
        requires
            a < b,
    ;
}

proof fn lemma_pow4_mul(a: nat, b: nat)
    ensures
        pow4(a * b) == pow4(a) * pow4(b),
{
    assert((a * b) * (a * b) * (a * b) * (a * b) == (a * a * a * a) * (b * b * b * b))
        by (nonlinear_arith);
}

/// The weight is within one millionth of the exact `1 / (1 + rho) - 0.3`,
/// where `rho` is the fourth root of the exact squared normalised distance
/// `x / m`, with `x = dist_num * ROOT_QUARTER` and `m = (W H)^2`, so that
/// `rho^4 = x / (m * 10^24)`. With `t` the weight plus 0.3, in millionths,
/// `(t - 1) (1 + rho) < 10^6` and, where `10^6 (t + 1) <= 10^12`,
/// `(t + 1) (1 + rho) > 10^6`; both are stated raised to the fourth power.
pub proof fn lemma_weight_within_one(p: Sample, width: u32, height: u32)
    requires
        in_bounds(p, width, height),
    ensures
        ({
            let t = weight_spec(p, width, height) + WEIGHT_SHIFT as int;
            let x = dist_num(p, width, height) * ROOT_QUARTER as nat;
            let m = area_sq(width, height);
            &&& 1 < t <= 1_000_000
            &&& x * pow4((t - 1) as nat) < m * pow4((1_000_000_000_000 - 1_000_000 * (t - 1)) as nat)
            &&& (1_000_000 * (t + 1) <= 1_000_000_000_000 ==> m * pow4(
                (1_000_000_000_000 - 1_000_000 * (t + 1)) as nat,
            ) < x * pow4((t + 1) as nat))
        }),
{
    lemma_scaled_root(p, width, height);
    lemma_dist_bounds(p, width, height);
    let r = scaled_root(p, width, height);
    let x = dist_num(p, width, height) * ROOT_QUARTER as nat;
    let m = area_sq(width, height);
    let d = r + 1_000_000;
    let t = 1_000_000_000_000int / d as int;
    assert(t == weight_spec(p, width, height) + WEIGHT_SHIFT as int);
    vstd::arithmetic::div_mod::lemma_fundamental_div_mod(1_000_000_000_000, d as int);
    let rem = 1_000_000_000_000int % d as int;
    assert(0 <= rem < d);
    vstd::arithmetic::div_mod::lemma_div_is_ordered_by_denominator(1_000_000_000_000, 1_000_000, d as int);
    vstd::arithmetic::div_mod::lemma_div_is_ordered_by_denominator(1_000_000_000_000, d as int, 1_840_896);
    assert(1_000_000_000_000int / 1_840_896int == 543_213);
    assert(1 < t <= 1_000_000);
    let tm = (t - 1) as nat;
    let tp = (t + 1) as nat;
    // Lower side: (t - 1) (r + 1) < 10^12 - 10^6 (t - 1).
    let k = (1_000_000_000_000 - 1_000_000 * (t - 1)) as nat;
    assert(tm * (r + 1) < k) by (nonlinear_arith)
        requires
            1_000_000_000_000 == d * t + rem,
            0 <= rem,
            d == r + 1_000_000,
            tm == t - 1,
            k == 1_000_000_000_000 - 1_000_000 * (t - 1),
            t <= 1_000_000,
    ;
    lemma_pow4_strict(tm * (r + 1), k);
    lemma_pow4_mul(tm, r + 1);
    assert(pow4(tm) > 0) by (nonlinear_arith)
        requires
            tm > 0,
            pow4(tm) == tm * tm * tm * tm,
    ;
    assert(x * pow4(tm) < m * pow4(k)) by (nonlinear_arith)
        requires
            x < pow4(r + 1) * m,
            pow4(tm) > 0,
            pow4(tm * (r + 1)) == pow4(tm) * pow4(r + 1),
            pow4(tm * (r + 1)) < pow4(k),
            m > 0,
    ;
    // Upper side: (t + 1) r > 10^12 - 10^6 (t + 1).
    if 1_000_000 * (t + 1) <= 1_000_000_000_000 {
        let k2 = (1_000_000_000_000 - 1_000_000 * (t + 1)) as nat;
        assert(k2 < tp * r) by (nonlinear_arith)
            requires
                1_000_000_000_000 == d * t + rem,
                rem < d,
                d == r + 1_000_000,
                tp == t + 1,
                k2 == 1_000_000_000_000 - 1_000_000 * (t + 1),
        ;
        lemma_pow4_strict(k2, tp * r);
        lemma_pow4_mul(tp, r);
        assert(m * pow4(k2) < x * pow4(tp)) by (nonlinear_arith)
            requires
                pow4(r) * m <= x,
                pow4(tp * r) == pow4(tp) * pow4(r),
                pow4(k2) < pow4(tp * r),
                m > 0,
        ;
    }
}

} // verus!
