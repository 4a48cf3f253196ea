use vstd::prelude::*;

verus! {

/// `2^64`, the base of a half word.
pub open spec fn half_base() -> int {
    0x1_0000_0000_0000_0000
}

/// `2^128`, the base of a word.
pub open spec fn word_base() -> int {
    u128::MAX as int + 1
}

/// The value of a two-word number `(high, low)`.
pub open spec fn wide_val(w: (u128, u128)) -> int {
    w.0 as int * word_base() + w.1 as int
}

/// The full product of `a` and `b`, as a two-word number.
pub fn mul_wide(a: u128, b: u128) -> (r: (u128, u128))
    ensures
        wide_val(r) == a as int * b as int,
        r.0 <= b,
{
    let base: u128 = 0x1_0000_0000_0000_0000;
    let a1 = a / base;
    let a0 = a % base;
    let b1 = b / base;
    let b0 = b % base;
    proof {
        assert(a1 < base && b1 < base);
        assert(a1 * base + a0 == a && b1 * base + b0 == b);
        assert(a0 * b0 < base * base && a0 * b1 < base * base && a1 * b0 < base * base && a1 * b1
            < base * base) by (nonlinear_arith)
            requires
                a0 < base,
                b0 < base,
                a1 < base,
                b1 < base,
                base == 0x1_0000_0000_0000_0000u128,
        ;
    }
    let p00 = a0 * b0;
    let p01 = a0 * b1;
    let p10 = a1 * b0;
    let p11 = a1 * b1;
    let mid = p00 / base + p01 % base + p10 % base;
    let lo = p00 % base + (mid % base) * base;
    let ghost hi_val = p11 as int + p01 as int / base as int + p10 as int / base as int + mid as int
        / base as int;
    proof {
        let bb = base as int;
        assert(a as int * b as int == p11 as int * bb * bb + (p01 as int + p10 as int) * bb
            + p00 as int) by (nonlinear_arith)
            requires
                a == a1 * bb + a0,
                b == b1 * bb + b0,
                p00 == a0 * b0,
                p01 == a0 * b1,
                p10 == a1 * b0,
                p11 == a1 * b1,
        ;
        let (q00, r00) = (p00 as int / bb, p00 as int % bb);
        let (q01, r01) = (p01 as int / bb, p01 as int % bb);
        let (q10, r10) = (p10 as int / bb, p10 as int % bb);
        let (qm, rm) = (mid as int / bb, mid as int % bb);
        assert(p00 == q00 * 0x1_0000_0000_0000_0000 + r00);
        assert(p01 == q01 * 0x1_0000_0000_0000_0000 + r01);
        assert(p10 == q10 * 0x1_0000_0000_0000_0000 + r10);
        assert(mid == qm * 0x1_0000_0000_0000_0000 + rm);
        assert(a as int * b as int == hi_val * (bb * bb) + lo as int);
        assert(hi_val <= b) by (nonlinear_arith)
            requires
                a as int * b as int == hi_val * (bb * bb) + lo as int,
                0 <= lo,
                a < bb * bb,
                bb > 0,
                0 <= b,
        ;
        assert(word_base() == bb * bb);
    }
    let hi = p11 + p01 / base + p10 / base + mid / base;
    (hi, lo)
}

/// The sum of two two-word numbers whose high words leave room for a carry.
pub fn add_wide(x: (u128, u128), y: (u128, u128)) -> (r: (u128, u128))
    requires
        x.0 as int + y.0 as int + 1 <= u128::MAX,
    ensures
        wide_val(r) == wide_val(x) + wide_val(y),
        r.0 <= x.0 + y.0 + 1,
{
    proof {
        let wb = word_base();
        assert((x.0 as int + y.0 as int + 1) * wb == x.0 as int * wb + y.0 as int * wb + wb
            && (x.0 as int + y.0 as int) * wb == x.0 as int * wb + y.0 as int * wb)
            by (nonlinear_arith);
    }
    if x.1 > u128::MAX - y.1 {
        (x.0 + y.0 + 1, x.1 - (u128::MAX - y.1) - 1)
    } else {
        (x.0 + y.0, x.1 + y.1)
    }
}

/// Whether `x` is at most `y`.
pub fn le_wide(x: (u128, u128), y: (u128, u128)) -> (r: bool)
    ensures
        r == (wide_val(x) <= wide_val(y)),
{
    proof {
        if x.0 < y.0 {
            assert(x.0 as int * word_base() + word_base() <= y.0 as int * word_base())
                by (nonlinear_arith)
                requires
                    x.0 < y.0,
                    word_base() > 0,
            ;
        } else if x.0 > y.0 {
            assert(y.0 as int * word_base() + word_base() <= x.0 as int * word_base())
                by (nonlinear_arith)
                requires
                    y.0 < x.0,
                    word_base() > 0,
            ;
        }
    }
    x.0 < y.0 || (x.0 == y.0 && x.1 <= y.1)
}

} // verus!
