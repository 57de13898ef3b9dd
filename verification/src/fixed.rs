//! Fixed-point scalars.
//!
//! Every continuous quantity of the simulation (coordinates, speeds, timers,
//! gene values) is a [`Fixed`]: an `i64` that counts millionths of a unit.
//! All operations are total. A result that does not fit is pinned to the
//! nearest representable value, and a quotient by zero is zero.

use vstd::prelude::*;

verus! {

/// A scalar in millionths of a unit.
pub type Fixed = i64;

/// One whole unit.
pub const ONE: i64 = 1_000_000;

/// The `i64` nearest to `v`.
pub open spec fn saturated(v: int) -> i64 {
    if v < i64::MIN {
        i64::MIN
    } else if v > i64::MAX {
        i64::MAX
    } else {
        v as i64
    }
}

/// The quotient of `n` by a positive `d`, rounded toward zero.
pub open spec fn toward_zero(n: int, d: int) -> int {
    if n >= 0 {
        n / d
    } else {
        -((-n) / d)
    }
}

/// Saturating sum.
pub open spec fn sum(a: i64, b: i64) -> i64 {
    saturated(a + b)
}

/// Saturating difference.
pub open spec fn difference(a: i64, b: i64) -> i64 {
    saturated(a - b)
}

/// Saturating negation.
pub open spec fn negated(a: i64) -> i64 {
    saturated(-a)
}

/// Fixed-point product: `a * b` in units, rounded toward zero.
pub open spec fn product(a: i64, b: i64) -> i64 {
    saturated(toward_zero(a * b, ONE as int))
}

/// Fixed-point quotient: `a / b` in units, rounded toward zero; zero when `b` is zero.
pub open spec fn quotient(a: i64, b: i64) -> i64 {
    if b == 0 {
        0
    } else if b > 0 {
        saturated(toward_zero(a * ONE, b as int))
    } else {
        saturated(toward_zero(-(a * ONE), -(b as int)))
    }
}

/// `value` pinned into `[lo, hi]`; `lo` wins where the bounds cross.
pub open spec fn clamped(value: i64, lo: i64, hi: i64) -> i64 {
    if value < lo {
        lo
    } else if value > hi {
        hi
    } else {
        value
    }
}

/// The smaller of two scalars.
pub open spec fn lesser(a: i64, b: i64) -> i64 {
    if a <= b {
        a
    } else {
        b
    }
}

/// Linear interpolation from `a` (at `t == 0`) to `b` (at `t == ONE`).
pub open spec fn blend(a: i64, b: i64, t: i64) -> i64 {
    sum(a, product(difference(b, a), t))
}

/// The mean of two scalars, rounded toward zero.
pub open spec fn midpoint(a: i64, b: i64) -> i64 {
    toward_zero(a + b, 2) as i64
}

/// The fixed-point value of a whole number of units.
pub open spec fn whole(units: int) -> i64 {
    saturated(units * ONE)
}

/// Whether `n` lies between the square of `r` and the next square.
pub open spec fn brackets(r: nat, n: nat) -> bool {
    r * r <= n < (r + 1) * (r + 1)
}

/// The integer square root: the largest `r` with `r * r <= n`.
pub closed spec fn root(n: nat) -> nat {
    choose|r: nat| brackets(r, n)
}

/// The length of the vector `(dx, dy)`, rounded down and saturated.
pub open spec fn hypot(dx: int, dy: int) -> i64 {
    saturated(root((dx * dx + dy * dy) as nat) as int)
}

/// The square root rounded up: the smallest `r` with `r * r >= n`.
pub open spec fn root_up(n: nat) -> nat {
    if root(n) * root(n) == n {
        root(n)
    } else {
        root(n) + 1
    }
}

/// The length of the vector `(dx, dy)`, rounded up and saturated.
pub open spec fn hypot_up(dx: int, dy: int) -> i64 {
    saturated(root_up((dx * dx + dy * dy) as nat) as int)
}

proof fn lemma_square_monotonic(a: nat, b: nat)
    by (nonlinear_arith)
    requires
        a <= b,
    ensures
        a * a <= b * b,
{
}

proof fn lemma_root_exists(n: nat)
    ensures
        exists|r: nat| brackets(r, n),
    decreases n,
{
    if n == 0 {
        assert(brackets(0, n)) by (nonlinear_arith)
            requires
                n == 0,
        ;
    } else {
        let m = (n - 1) as nat;
        lemma_root_exists(m);
        let r = choose|r: nat| brackets(r, m);
        if n < (r + 1) * (r + 1) {
            assert(brackets(r, n));
        } else {
            let s = r + 1;
            assert(s * s == n);
            assert(s * s <= n < (s + 1) * (s + 1)) by (nonlinear_arith)
                requires
                    s * s == n,
            ;
            assert(brackets(s, n));
        }
    }
}

/// `root(n)` is the one number whose square is at most `n` while the next square is not.
pub proof fn lemma_root(n: nat)
    ensures
        brackets(root(n), n),
{
    lemma_root_exists(n);
}

/// Any `r` that brackets `n` between its square and the next is `root(n)`.
pub proof fn lemma_root_unique(n: nat, r: nat)
    requires
        brackets(r, n),
    ensures
        root(n) == r,
{
    lemma_root(n);
    let q = root(n);
    if q < r {
        lemma_square_monotonic(q + 1, r);
    } else if r < q {
        lemma_square_monotonic(r + 1, q);
    }
}

/// The root of a number that is at most a square is at most the root of the square.
pub proof fn lemma_root_below(n: nat, r: nat)
    requires
        n <= r * r,
    ensures
        root(n) <= r,
{
    lemma_root(n);
    if r < root(n) {
        lemma_square_monotonic(r + 1, root(n));
        assert((r + 1) * (r + 1) > r * r) by (nonlinear_arith);
    }
}

/// The square of the root rounded up reaches the number, and the root
/// rounded up is zero only for zero.
pub proof fn lemma_root_up(n: nat)
    ensures
        root_up(n) * root_up(n) >= n,
        n > 0 ==> root_up(n) > 0,
{
    lemma_root(n);
    if n > 0 && root_up(n) == 0 {
        assert(0nat * 0nat == 0) by (nonlinear_arith);
    }
}

/// A quotient that is rounded toward zero, taken times the divisor, lies
/// between zero and the number that was divided.
pub proof fn lemma_toward_zero(n: int, d: int)
    requires
        d > 0,
    ensures
        n >= 0 ==> 0 <= toward_zero(n, d) * d <= n,
        n < 0 ==> n <= toward_zero(n, d) * d <= 0,
        toward_zero(n, d) * d * (toward_zero(n, d) * d) <= n * n,
{
    let q = toward_zero(n, d);
    if n >= 0 {
        vstd::arithmetic::div_mod::lemma_fundamental_div_mod(n, d);
        vstd::arithmetic::div_mod::lemma_mod_bound(n, d);
        assert(q * d == d * (n / d)) by (nonlinear_arith)
            requires
                q == n / d,
        ;
        assert(0 <= q * d) by (nonlinear_arith)
            requires
                q * d == n - n % d,
                0 <= n % d < d,
                q == n / d,
                n >= 0,
                d > 0,
        ;
    } else {
        vstd::arithmetic::div_mod::lemma_fundamental_div_mod(-n, d);
        vstd::arithmetic::div_mod::lemma_mod_bound(-n, d);
        let p = (-n) / d;
        assert(q * d == -(d * p)) by (nonlinear_arith)
            requires
                q == -p,
        ;
        assert(0 <= d * p) by (nonlinear_arith)
            requires
                d * p == -n - (-n) % d,
                0 <= (-n) % d < d,
                p == (-n) / d,
                n < 0,
                d > 0,
        ;
    }
    let m = q * d;
    assert(m * m <= n * n) by (nonlinear_arith)
        requires
            (n >= 0 && 0 <= m <= n) || (n < 0 && n <= m <= 0),
    ;
}

/// Where two numbers, taken times `m`, are each no larger in size than
/// `x` and `y` taken times `k`, and `(x, y)` is no longer than `m`, there
/// the two numbers make a vector that is no longer than `k`.
pub proof fn lemma_rescaled_is_short(qx: int, qy: int, m: int, x: int, y: int, k: int)
    requires
        qx * m * (qx * m) <= x * k * (x * k),
        qy * m * (qy * m) <= y * k * (y * k),
        x * x + y * y <= m * m,
        m > 0,
    ensures
        qx * qx + qy * qy <= k * k,
{
    let a = qx * qx;
    let b = qy * qy;
    let mm = m * m;
    let kk = k * k;
    let xx = x * x;
    let yy = y * y;
    assert(qx * m * (qx * m) == a * mm) by (nonlinear_arith)
        requires
            a == qx * qx,
            mm == m * m,
    ;
    assert(qy * m * (qy * m) == b * mm) by (nonlinear_arith)
        requires
            b == qy * qy,
            mm == m * m,
    ;
    assert(x * k * (x * k) == xx * kk) by (nonlinear_arith)
        requires
            xx == x * x,
            kk == k * k,
    ;
    assert(y * k * (y * k) == yy * kk) by (nonlinear_arith)
        requires
            yy == y * y,
            kk == k * k,
    ;
    assert((a + b) * mm == a * mm + b * mm) by (nonlinear_arith);
    assert((xx + yy) * kk == xx * kk + yy * kk) by (nonlinear_arith);
    assert(kk >= 0) by (nonlinear_arith)
        requires
            kk == k * k,
    ;
    assert((xx + yy) * kk <= mm * kk) by (nonlinear_arith)
        requires
            xx + yy <= mm,
            kk >= 0,
    ;
    assert(mm > 0) by (nonlinear_arith)
        requires
            mm == m * m,
            m > 0,
    ;
    assert(a + b <= kk) by (nonlinear_arith)
        requires
            (a + b) * mm <= mm * kk,
            mm > 0,
    ;
}

/// A fraction of a non-negative amount lies between nothing and the amount.
pub proof fn lemma_fraction_of(fraction: Fixed, amount: Fixed)
    requires
        0 <= fraction <= ONE,
        amount >= 0,
    ensures
        0 <= product(fraction, amount) <= amount,
{
    assert(0 <= fraction * amount <= ONE * amount) by (nonlinear_arith)
        requires
            0 <= fraction <= ONE,
            amount >= 0,
    ;
}

/// Pins `v` into the `i64` range.
pub fn saturate(v: i128) -> (r: i64)
    ensures
        r == saturated(v as int),
{
    if v < i64::MIN as i128 {
        i64::MIN
    } else if v > i64::MAX as i128 {
        i64::MAX
    } else {
        v as i64
    }
}

/// Saturating sum of two scalars.
pub fn plus(a: Fixed, b: Fixed) -> (r: Fixed)
    ensures
        r == sum(a, b),
{
    saturate(a as i128 + b as i128)
}

/// Saturating difference of two scalars.
pub fn minus(a: Fixed, b: Fixed) -> (r: Fixed)
    ensures
        r == difference(a, b),
{
    saturate(a as i128 - b as i128)
}

/// Saturating negation.
pub fn negate(a: Fixed) -> (r: Fixed)
    ensures
        r == negated(a),
{
    saturate(-(a as i128))
}

/// Divides by a positive number, rounding toward zero.
fn divide_toward_zero(n: i128, d: i128) -> (q: i128)
    requires
        d > 0,
        n > i128::MIN,
    ensures
        q == toward_zero(n as int, d as int),
{
    if n >= 0 {
        n / d
    } else {
        -((-n) / d)
    }
}

/// Fixed-point product of two scalars.
pub fn times(a: Fixed, b: Fixed) -> (r: Fixed)
    ensures
        r == product(a, b),
{
    assert(-0x4000_0000_0000_0000_0000_0000_0000_0000 <= a * b
        <= 0x4000_0000_0000_0000_0000_0000_0000_0000) by (nonlinear_arith)
        requires
            -0x8000_0000_0000_0000 <= a <= 0x7fff_ffff_ffff_ffff,
            -0x8000_0000_0000_0000 <= b <= 0x7fff_ffff_ffff_ffff,
    ;
    let wide: i128 = a as i128 * b as i128;
    saturate(divide_toward_zero(wide, ONE as i128))
}

/// Fixed-point quotient of two scalars; zero when the divisor is zero.
pub fn over(a: Fixed, b: Fixed) -> (r: Fixed)
    ensures
        r == quotient(a, b),
{
    if b == 0 {
        0
    } else {
        let wide: i128 = a as i128 * 1_000_000;
        if b > 0 {
            saturate(divide_toward_zero(wide, b as i128))
        } else {
            saturate(divide_toward_zero(-wide, -(b as i128)))
        }
    }
}

/// Pins `value` into `[lo, hi]`.
pub fn clamp(value: Fixed, lo: Fixed, hi: Fixed) -> (r: Fixed)
    ensures
        r == clamped(value, lo, hi),
{
    if value < lo {
        lo
    } else if value > hi {
        hi
    } else {
        value
    }
}

/// The smaller of two scalars.
pub fn min(a: Fixed, b: Fixed) -> (r: Fixed)
    ensures
        r == lesser(a, b),
{
    if a <= b {
        a
    } else {
        b
    }
}

/// The mean of two scalars.
pub fn average(a: Fixed, b: Fixed) -> (r: Fixed)
    ensures
        r == midpoint(a, b),
{
    let total: i128 = a as i128 + b as i128;
    let half: i128 = if total >= 0 {
        total / 2
    } else {
        -((-total) / 2)
    };
    half as i64
}

/// Linear interpolation between `a` and `b` by the fraction `t`.
pub fn lerp(a: Fixed, b: Fixed, t: Fixed) -> (r: Fixed)
    ensures
        r == blend(a, b, t),
{
    plus(a, times(minus(b, a), t))
}

/// The fixed-point value of `units` whole units.
pub fn from_units(units: i64) -> (r: Fixed)
    ensures
        r == whole(units as int),
{
    saturate(units as i128 * 1_000_000)
}

/// Integer square root.
pub fn isqrt(n: u128) -> (r: u64)
    ensures
        r == root(n as nat),
{
    let mut lo: u128 = 0;
    let mut hi: u128 = 0x1_0000_0000_0000_0000;
    assert(0x1_0000_0000_0000_0000int * 0x1_0000_0000_0000_0000int
        == 0x1_0000_0000_0000_0000_0000_0000_0000_0000int) by (nonlinear_arith);
    while hi - lo > 1
        invariant
            lo < hi <= 0x1_0000_0000_0000_0000,
            lo * lo <= n < hi * hi,
        decreases hi - lo,
    {
        let mid: u128 = lo + (hi - lo) / 2;
        assert(mid * mid <= 0xffff_ffff_ffff_ffff_ffff_ffff_ffff_ffff) by (nonlinear_arith)
            requires
                0 <= mid < 0x1_0000_0000_0000_0000,
        ;
        if mid * mid <= n {
            lo = mid;
        } else {
            hi = mid;
        }
    }
    proof {
        lemma_root_unique(n as nat, lo as nat);
    }
    lo as u64
}

/// The length of the vector `(dx, dy)`, rounded up.
pub fn length_up(dx: i128, dy: i128) -> (r: Fixed)
    requires
        -0xffff_ffff_ffff_ffff <= dx <= 0xffff_ffff_ffff_ffff,
        -0xffff_ffff_ffff_ffff <= dy <= 0xffff_ffff_ffff_ffff,
    ensures
        r == hypot_up(dx as int, dy as int),
        r >= 0,
{
    let ax: u128 = if dx < 0 { (-dx) as u128 } else { dx as u128 };
    let ay: u128 = if dy < 0 { (-dy) as u128 } else { dy as u128 };
    assert(ax * ax == dx * dx && ax * ax <= 0xffff_ffff_ffff_ffff_ffff_ffff_ffff_ffff)
        by (nonlinear_arith)
        requires
            ax == dx || ax == -dx,
            0 <= ax <= 0xffff_ffff_ffff_ffff,
    ;
    assert(ay * ay == dy * dy && ay * ay <= 0xffff_ffff_ffff_ffff_ffff_ffff_ffff_ffff)
        by (nonlinear_arith)
        requires
            ay == dy || ay == -dy,
            0 <= ay <= 0xffff_ffff_ffff_ffff,
    ;
    let sx: u128 = ax * ax;
    let sy: u128 = ay * ay;
    proof {
        lemma_root((dx * dx + dy * dy) as nat);
    }
    match sx.checked_add(sy) {
        Some(total) => {
            let r = isqrt(total);
            assert(r * r <= 0xffff_ffff_ffff_ffff_ffff_ffff_ffff_ffff) by (nonlinear_arith)
                requires
                    0 <= r <= 0xffff_ffff_ffff_ffff,
            ;
            let exact = (r as u128) * (r as u128) == total;
            if r >= i64::MAX as u64 {
                i64::MAX
            } else if exact {
                r as i64
            } else {
                (r + 1) as i64
            }
        },
        None => {
            proof {
                let total = (dx * dx + dy * dy) as nat;
                let bound: nat = 0x1_0000_0000_0000_0000;
                assert(bound * bound == 0x1_0000_0000_0000_0000_0000_0000_0000_0000nat)
                    by (nonlinear_arith)
                    requires
                        bound == 0x1_0000_0000_0000_0000nat,
                ;
                if root(total) < bound {
                    lemma_square_monotonic(root(total) + 1, bound);
                }
            }
            i64::MAX
        },
    }
}

/// The length of the vector `(dx, dy)` whose components are differences of scalars.
pub fn length(dx: i128, dy: i128) -> (r: Fixed)
    requires
        -0xffff_ffff_ffff_ffff <= dx <= 0xffff_ffff_ffff_ffff,
        -0xffff_ffff_ffff_ffff <= dy <= 0xffff_ffff_ffff_ffff,
    ensures
        r == hypot(dx as int, dy as int),
        r >= 0,
{
    let ax: u128 = if dx < 0 { (-dx) as u128 } else { dx as u128 };
    let ay: u128 = if dy < 0 { (-dy) as u128 } else { dy as u128 };
    assert(ax * ax == dx * dx && ax * ax <= 0xffff_ffff_ffff_ffff_ffff_ffff_ffff_ffff)
        by (nonlinear_arith)
        requires
            ax == dx || ax == -dx,
            0 <= ax <= 0xffff_ffff_ffff_ffff,
    ;
    assert(ay * ay == dy * dy && ay * ay <= 0xffff_ffff_ffff_ffff_ffff_ffff_ffff_ffff)
        by (nonlinear_arith)
        requires
            ay == dy || ay == -dy,
            0 <= ay <= 0xffff_ffff_ffff_ffff,
    ;
    let sx: u128 = ax * ax;
    let sy: u128 = ay * ay;
    proof {
        lemma_root((dx * dx + dy * dy) as nat);
    }
    match sx.checked_add(sy) {
        Some(total) => {
            let r = isqrt(total);
            if r > i64::MAX as u64 {
                i64::MAX
            } else {
                r as i64
            }
        },
        None => {
            proof {
                let total = (dx * dx + dy * dy) as nat;
                let bound: nat = 0x1_0000_0000_0000_0000;
                assert(bound * bound == 0x1_0000_0000_0000_0000_0000_0000_0000_0000nat)
                    by (nonlinear_arith)
                    requires
                        bound == 0x1_0000_0000_0000_0000nat,
                ;
                if root(total) < bound {
                    lemma_square_monotonic(root(total) + 1, bound);
                }
            }
            i64::MAX
        },
    }
}

} // verus!
