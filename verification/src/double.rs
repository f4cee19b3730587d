//! Shares of a whole, computed as in double precision.
//!
//! A number in double precision has 53 binary digits. What an operation gives is the number
//! of that kind which is nearest to the exact result, and of two that are equally near the
//! even one. Here such numbers are whole, or whole over a power of two.

use vstd::prelude::*;

verus! {

/// The multiple of `unit` that is nearest to `n`; of two the even one.
pub open spec fn nearest_multiple(n: int, unit: int) -> int {
    let over = n % unit;
    if 2 * over < unit || (2 * over == unit && n / unit % 2 == 0) {
        n - over
    } else {
        n - over + unit
    }
}

/// The whole number that is nearest to `n` over `d`; of two the even one.
pub open spec fn nearest_quotient(n: int, d: int) -> int {
    let over = n % d;
    if 2 * over < d || (2 * over == d && n / d % 2 == 0) {
        n / d
    } else {
        n / d + 1
    }
}

/// How far apart the numbers with 53 binary digits are around `n`, where they are whole: one
/// apart as long as `n` has no more digits, and twice as far with each digit more.
pub open spec fn spacing(n: int) -> int
    decreases n,
{
    if n < 0x20_0000_0000_0000 {
        1
    } else {
        2 * spacing(n / 2)
    }
}

/// The number with 53 binary digits that is nearest to a whole number.
pub open spec fn double_of(n: int) -> int {
    nearest_multiple(n, spacing(n))
}

/// `x` and `t`, both doubled until `x` over `b` has 53 binary digits before the point.
pub open spec fn scaled(x: int, t: int, b: int) -> (int, int)
    decreases 0x20_0000_0000_0000 * b - x,
{
    if x <= 0 || x >= 0x10_0000_0000_0000 * b {
        (x, t)
    } else {
        scaled(2 * x, 2 * t, b)
    }
}

/// The number with 53 binary digits that is nearest to `a` over `b`, where that is no more
/// than one: a whole number, and the power of two that it stands over.
pub open spec fn double_quotient(a: int, b: int) -> (int, int) {
    let s = scaled(a, 1, b);
    (nearest_quotient(s.0, b), s.1)
}

/// `n` over `max`, times 24, each step in double precision; then rounded to the nearest whole
/// number, and up from the middle. Nothing where `n` is not positive.
pub open spec fn share(n: int, max: int) -> int {
    if n <= 0 {
        0
    } else {
        let q = double_quotient(double_of(n), double_of(max));
        let product = double_of(24 * q.0);
        (2 * product + q.1) / (2 * q.1)
    }
}

proof fn lemma_spacing(n: int)
    requires
        0 < n,
    ensures
        1 <= spacing(n) <= n,
        n < 0x20_0000_0000_0000 * spacing(n),
        spacing(n) == 1 || n >= 0x10_0000_0000_0000 * spacing(n),
    decreases n,
{
    if n >= 0x20_0000_0000_0000 {
        lemma_spacing(n / 2);
    }
}

proof fn lemma_spacing_grows(n: int, m: int)
    requires
        0 < n <= m,
    ensures
        spacing(n) == spacing(m) || 2 * spacing(n) <= spacing(m),
    decreases n,
{
    if n >= 0x20_0000_0000_0000 {
        lemma_spacing_grows(n / 2, m / 2);
    } else if m >= 0x20_0000_0000_0000 {
        lemma_spacing(m / 2);
    }
}

proof fn lemma_parts(n: int, u: int)
    requires
        0 <= n,
        0 < u,
    ensures
        n == u * (n / u) + n % u,
        0 <= n % u < u,
        0 <= n / u,
{
    vstd::arithmetic::div_mod::lemma_fundamental_div_mod(n, u);
    vstd::arithmetic::div_mod::lemma_mod_bound(n, u);
    vstd::arithmetic::div_mod::lemma_div_pos_is_pos(n, u);
}

proof fn lemma_nearest_multiple(n: int, u: int)
    requires
        0 <= n,
        0 < u,
    ensures
        u * (n / u) <= nearest_multiple(n, u) <= u * (n / u + 1),
        0 <= nearest_multiple(n, u) <= n + u,
        u <= n ==> nearest_multiple(n, u) > 0,
{
    lemma_parts(n, u);
    let q = n / u;
    assert(u * (q + 1) == u * q + u) by (nonlinear_arith);
    assert(0 <= u * q) by (nonlinear_arith)
        requires
            0 <= q,
            0 < u,
    ;
    if u <= n {
        assert(u * q > 0);
    }
}

/// Rounding to 53 digits keeps the order.
proof fn lemma_double_keeps_order(n: int, m: int)
    requires
        0 < n <= m,
    ensures
        0 < double_of(n) <= double_of(m),
{
    let u = spacing(n);
    let v = spacing(m);
    lemma_spacing(n);
    lemma_spacing(m);
    lemma_spacing_grows(n, m);
    lemma_nearest_multiple(n, u);
    lemma_nearest_multiple(m, v);
    lemma_parts(n, u);
    lemma_parts(m, v);
    let p = n / u;
    let q = m / v;
    if u == v {
        if p != q {
            assert(p < q) by (nonlinear_arith)
                requires
                    p != q,
                    n <= m,
                    0 < u,
                    n == u * p + n % u,
                    m == u * q + m % u,
                    0 <= n % u < u,
                    0 <= m % u < u,
            ;
            assert(u * (p + 1) <= u * q) by (nonlinear_arith)
                requires
                    p < q,
                    0 < u,
            ;
        }
    } else {
        assert(p < 0x20_0000_0000_0000) by (nonlinear_arith)
            requires
                n == u * p + n % u,
                0 <= n % u,
                n < 0x20_0000_0000_0000 * u,
                0 < u,
        ;
        assert(u * (p + 1) <= 0x20_0000_0000_0000 * u) by (nonlinear_arith)
            requires
                p < 0x20_0000_0000_0000,
                0 < u,
        ;
        assert(q >= 0x10_0000_0000_0000) by (nonlinear_arith)
            requires
                m == v * q + m % v,
                0 <= m % v < v,
                m >= 0x10_0000_0000_0000 * v,
                0 < v,
        ;
        assert(v * q >= 0x10_0000_0000_0000 * v) by (nonlinear_arith)
            requires
                q >= 0x10_0000_0000_0000,
                0 < v,
        ;
    }
}

proof fn lemma_scaled(x: int, t: int, b: int)
    requires
        0 < x,
        0 < t,
        0 < b,
        x <= b * t,
        x < 0x20_0000_0000_0000 * b,
        t == 1 || t == 2 || t % 4 == 0,
    ensures
        ({
            let s = scaled(x, t, b);
            &&& x <= s.0 <= b * s.1
            &&& s.0 < 0x20_0000_0000_0000 * b
            &&& t <= s.1 && s.1 % 4 == 0
            &&& x == b * t ==> s.0 == b * s.1
        }),
    decreases 0x20_0000_0000_0000 * b - x,
{
    if x < 0x10_0000_0000_0000 * b {
        assert(b * (2 * t) == 2 * (b * t)) by (nonlinear_arith);
        lemma_scaled(2 * x, 2 * t, b);
    } else {
        assert(t > 2) by (nonlinear_arith)
            requires
                0x10_0000_0000_0000 * b <= x <= b * t,
                0 < b,
        ;
    }
}

proof fn lemma_nearest_quotient(x: int, b: int, t: int)
    requires
        0 < x <= b * t,
        0 < b,
        x < 0x20_0000_0000_0000 * b,
    ensures
        0 <= nearest_quotient(x, b) <= t,
        nearest_quotient(x, b) <= 0x20_0000_0000_0000,
        x == b * t ==> nearest_quotient(x, b) == t,
{
    lemma_parts(x, b);
    let q = x / b;
    let over = x % b;
    assert(q < t || (q == t && over == 0)) by (nonlinear_arith)
        requires
            x == b * q + over,
            0 <= over < b,
            x <= b * t,
    ;
    assert(q < 0x20_0000_0000_0000) by (nonlinear_arith)
        requires
            x == b * q + over,
            0 <= over < b,
            x < 0x20_0000_0000_0000 * b,
    ;
    if x == b * t {
        assert(q == t) by (nonlinear_arith)
            requires
                x == b * q + over,
                0 <= over < b,
                x == b * t,
        ;
    }
}

/// A number with at most five digits too many stays below a limit that has five zeros at its
/// end, and is kept where it is that limit.
proof fn lemma_double_below(m: int, limit: int)
    requires
        0 <= m <= limit,
        m < 0x400_0000_0000_0000,
        limit % 32 == 0,
    ensures
        0 <= double_of(m) <= limit,
        m == limit ==> double_of(m) == limit,
{
    reveal_with_fuel(spacing, 7);
    let u = spacing(m);
    assert(u == 1 || u == 2 || u == 4 || u == 8 || u == 16 || u == 32);
    if u == 1 {
        assert(nearest_multiple(m, 1) == m);
    } else if u == 2 {
        assert(0 <= nearest_multiple(m, 2) <= limit);
    } else if u == 4 {
        assert(0 <= nearest_multiple(m, 4) <= limit);
    } else if u == 8 {
        assert(0 <= nearest_multiple(m, 8) <= limit);
    } else if u == 16 {
        assert(0 <= nearest_multiple(m, 16) <= limit);
    } else {
        assert(0 <= nearest_multiple(m, 32) <= limit);
    }
}

/// No share is more than the whole, and the whole is its own share.
pub proof fn law_share_fits(n: int, max: int)
    requires
        0 < max,
        n <= max,
    ensures
        0 <= share(n, max) <= 24,
        n == max ==> share(n, max) == 24,
{
    if n > 0 {
        let a = double_of(n);
        let b = double_of(max);
        lemma_double_keeps_order(n, max);
        lemma_scaled(a, 1, b);
        let s = scaled(a, 1, b);
        lemma_nearest_quotient(s.0, b, s.1);
        let t = s.1;
        let q = nearest_quotient(s.0, b);
        lemma_double_below(24 * q, 24 * t);
        let r = double_of(24 * q);
        assert(0 <= (2 * r + t) / (2 * t) <= 24) by (nonlinear_arith)
            requires
                0 <= r <= 24 * t,
                0 < t,
        ;
        if n == max {
            assert(r == 24 * t);
            assert((2 * r + t) / (2 * t) == 24) by (nonlinear_arith)
                requires
                    r == 24 * t,
                    0 < t,
            ;
        }
    }
}

/// How far apart the numbers with 53 binary digits are around `n`.
fn spacing_at(n: u128) -> (r: u128)
    requires
        0 < n,
    ensures
        r == spacing(n as int),
        1 <= r <= n,
    decreases n,
{
    proof {
        lemma_spacing(n as int);
    }
    if n < 0x20_0000_0000_0000 {
        1
    } else {
        2 * spacing_at(n / 2)
    }
}

/// The number with 53 binary digits that is nearest to a whole number.
fn to_double(n: u128) -> (r: u128)
    requires
        n <= 0x1000_0000_0000_0000_0000_0000_0000_0000,
    ensures
        r == double_of(n as int),
        r <= 2 * n,
{
    if n == 0 {
        return 0;
    }
    let unit = spacing_at(n);
    let over = n % unit;
    proof {
        lemma_nearest_multiple(n as int, unit as int);
        lemma_parts(n as int, unit as int);
    }
    if 2 * over < unit || (2 * over == unit && n / unit % 2 == 0) {
        n - over
    } else {
        n - over + unit
    }
}

/// `n` over `max`, times 24, each step in double precision, and rounded.
pub fn share_of(n: i64, max: i64) -> (r: usize)
    requires
        0 < max,
        n <= max,
    ensures
        r == share(n as int, max as int),
        r <= 24,
{
    proof {
        law_share_fits(n as int, max as int);
    }
    if n <= 0 {
        return 0;
    }
    let a: u128 = to_double(n as u128);
    let b: u128 = to_double(max as u128);
    proof {
        lemma_double_keeps_order(n as int, max as int);
        lemma_scaled(a as int, 1, b as int);
    }
    let mut x: u128 = a;
    let mut t: u128 = 1;
    while x < 0x10_0000_0000_0000 * b
        invariant
            0 < b <= 0x1_0000_0000_0000_0000,
            0 < t <= x,
            x < 0x20_0000_0000_0000 * b,
            scaled(a as int, 1, b as int) == scaled(x as int, t as int, b as int),
        decreases 0x20_0000_0000_0000 * b - x,
    {
        x = 2 * x;
        t = 2 * t;
    }
    let over: u128 = x % b;
    let down: u128 = x / b;
    proof {
        lemma_parts(x as int, b as int);
        lemma_nearest_quotient(x as int, b as int, t as int);
    }
    let q: u128 = if 2 * over < b || (2 * over == b && down % 2 == 0) {
        down
    } else {
        down + 1
    };
    assert(q == nearest_quotient(x as int, b as int));
    let product: u128 = to_double(24 * q);
    ((2 * product + t) / (2 * t)) as usize
}

proof fn lemma_double_is_near(n: int)
    requires
        0 < n,
    ensures
        0x20_0000_0000_0000 * (double_of(n) - n) <= n,
        0x20_0000_0000_0000 * (n - double_of(n)) <= n,
{
    let u = spacing(n);
    lemma_spacing(n);
    lemma_parts(n, u);
    if u == 1 {
        assert(n % 1 == 0);
        assert(double_of(n) == n);
    } else {
        assert(2 * (double_of(n) - n) <= u && 2 * (n - double_of(n)) <= u);
    }
}

proof fn lemma_scaled_keeps_ratio(x: int, t: int, b: int)
    requires
        0 < x < 0x20_0000_0000_0000 * b,
        0 < t,
        0 < b,
    ensures
        scaled(x, t, b).0 * t == x * scaled(x, t, b).1,
        scaled(x, t, b).0 >= 0x10_0000_0000_0000 * b,
        scaled(x, t, b).0 < 0x20_0000_0000_0000 * b,
    decreases 0x20_0000_0000_0000 * b - x,
{
    if x < 0x10_0000_0000_0000 * b {
        lemma_scaled_keeps_ratio(2 * x, 2 * t, b);
        let s = scaled(2 * x, 2 * t, b);
        assert(s.0 * t == x * s.1) by (nonlinear_arith)
            requires
                s.0 * (2 * t) == (2 * x) * s.1,
        ;
    } else {
        assert(x * t == x * t);
    }
}

proof fn lemma_quotient_is_near(x: int, b: int)
    requires
        0 <= x,
        0 < b,
    ensures
        2 * (nearest_quotient(x, b) * b - x) <= b,
        2 * (x - nearest_quotient(x, b) * b) <= b,
{
    lemma_parts(x, b);
    let q = x / b;
    assert((q + 1) * b == b * q + b) by (nonlinear_arith);
    assert(q * b == b * q) by (nonlinear_arith);
}

proof fn lemma_product_is_near(m: int)
    requires
        0 <= m < 0x400_0000_0000_0000,
    ensures
        -16 <= double_of(m) - m <= 16,
{
    if m > 0 {
        let u = spacing(m);
        lemma_spacing(m);
        lemma_parts(m, u);
        assert(u <= 64);
        reveal_with_fuel(spacing, 7);
        assert(u <= 32);
        assert(2 * (double_of(m) - m) <= u && 2 * (m - double_of(m)) <= u);
    } else {
        assert(spacing(m) == 1);
        assert(0int % 1 == 0);
    }
}

proof fn lemma_ratio_is_near(a: int, b: int, t: int, q: int, r: int, bar: int)
    requires
        0 < a <= b,
        0x10_0000_0000_0000 <= t,
        -b <= 2 * (q * b - a * t) <= b,
        -16 <= r - 24 * q <= 16,
        -t <= 2 * t * bar - 2 * r <= t,
    ensures
        10000 * (2 * b * bar - 48 * a) <= 10001 * b,
        10000 * (48 * a - 2 * b * bar) <= 10001 * b,
{
    let d = 2 * b * bar - 48 * a;
    let e1 = 2 * t * bar - 2 * r;
    let e2 = r - 24 * q;
    let e3 = q * b - a * t;
    assert(t * d == b * e1 + 2 * b * e2 + 48 * e3) by (nonlinear_arith)
        requires
            d == 2 * b * bar - 48 * a,
            e1 == 2 * t * bar - 2 * r,
            e2 == r - 24 * q,
            e3 == q * b - a * t,
    ;
    assert(-(b * t) <= b * e1 <= b * t) by (nonlinear_arith)
        requires
            -t <= e1 <= t,
            0 < b,
    ;
    assert(-(32 * b) <= 2 * b * e2 <= 32 * b) by (nonlinear_arith)
        requires
            -16 <= e2 <= 16,
            0 < b,
    ;
    let bt = b * t;
    let td = t * d;
    assert(-(bt + 56 * b) <= td <= bt + 56 * b);
    assert(560000 * b <= bt) by (nonlinear_arith)
        requires
            bt == b * t,
            0 < b,
            560000 <= t,
    ;
    assert(10000 * td <= 10001 * bt && -10001 * bt <= 10000 * td);
    assert(10000 * d <= 10001 * b) by (nonlinear_arith)
        requires
            10000 * td <= 10001 * bt,
            td == t * d,
            bt == b * t,
            0 < t,
    ;
    assert(-10001 * b <= 10000 * d) by (nonlinear_arith)
        requires
            -10001 * bt <= 10000 * td,
            td == t * d,
            bt == b * t,
            0 < t,
    ;
}

/// A share is the number of parts in twenty-four that is nearest to the ratio: it is off by no
/// more than half a part, but for what rounding adds.
pub proof fn law_share_is_the_nearest(n: int, max: int)
    requires
        0 < n <= max,
    ensures
        10000 * (max * share(n, max) - 24 * n) <= 5001 * max,
        10000 * (24 * n - max * share(n, max)) <= 5001 * max,
{
    let a = double_of(n);
    let b = double_of(max);
    lemma_double_keeps_order(n, max);
    lemma_double_is_near(n);
    lemma_double_is_near(max);
    lemma_scaled_keeps_ratio(a, 1, b);
    let x = scaled(a, 1, b).0;
    let t = scaled(a, 1, b).1;
    assert(x == a * t) by (nonlinear_arith)
        requires
            x * 1 == a * t,
    ;
    assert(0x10_0000_0000_0000 <= t) by (nonlinear_arith)
        requires
            x == a * t,
            x >= 0x10_0000_0000_0000 * b,
            0 < a <= b,
    ;
    let q = nearest_quotient(x, b);
    lemma_quotient_is_near(x, b);
    assert(0 <= q <= 0x20_0000_0000_0000) by (nonlinear_arith)
        requires
            2 * (q * b - x) <= b,
            2 * (x - q * b) <= b,
            0 < x < 0x20_0000_0000_0000 * b,
            0 < b,
    ;
    lemma_product_is_near(24 * q);
    let r = double_of(24 * q);
    let bar = (2 * r + t) / (2 * t);
    assert(bar == share(n, max));
    law_share_fits(n, max);
    vstd::arithmetic::div_mod::lemma_fundamental_div_mod(2 * r + t, 2 * t);
    vstd::arithmetic::div_mod::lemma_mod_bound(2 * r + t, 2 * t);
    lemma_ratio_is_near(a, b, t, q, r, bar);
    let far = max - b;
    assert(2 * max * bar == 2 * b * bar + 2 * (far * bar)) by (nonlinear_arith)
        requires
            far == max - b,
    ;
    let f = far * bar;
    assert(0x20_0000_0000_0000 * f <= 24 * max && -(24 * max) <= 0x20_0000_0000_0000 * f)
        by (nonlinear_arith)
        requires
            f == far * bar,
            0 <= bar <= 24,
            0x20_0000_0000_0000 * far <= max,
            -max <= 0x20_0000_0000_0000 * far,
            0 < max,
    ;
    assert(2 * max * bar == 2 * (max * bar)) by (nonlinear_arith);
}

} // verus!
