//! Vertex colors without premultiplied alpha.
//!
//! egui gives vertex colors with premultiplied alpha, and Skia modulates a paint with colors that
//! are not premultiplied. A channel is converted as single-precision arithmetic (IEEE 754
//! binary32, rounding to nearest) does it: channel and alpha are multiplied by 1/255, divided, and
//! the quotient is multiplied by 255 and cut to a byte. Each of these steps rounds, so that a
//! quotient that should be a whole number can come out one lower.
//!
//! The numbers in between are held as integers: a value times a power of two that makes all of
//! its digits whole.
use vstd::prelude::*;

use crate::geometry::Color32;

verus! {

/// The single-precision number nearest to 1/255, times 2 to the power of 31.
pub const UNIT: u32 = 8421505;

/// The integer nearest to a quotient; of two that are equally near, the even one.
pub open spec fn nearest(n: int, d: int) -> int {
    let floor = n / d;
    let rest = 2 * (n % d);
    if rest < d || (rest == d && floor % 2 == 0) {
        floor
    } else {
        floor + 1
    }
}

/// The smallest of the spacings `spacing`, twice it, four times it and so on with which a quotient
/// has at most twenty-four binary digits.
pub open spec fn spacing_from(n: int, d: int, spacing: int) -> int
    decreases n - spacing,
{
    if d < 1 || spacing < 1 || n < 0x100_0000 * (spacing * d) {
        spacing
    } else {
        proof {
            assert(spacing * d >= spacing) by (nonlinear_arith)
                requires
                    d >= 1,
                    spacing >= 1,
            ;
        }
        spacing_from(n, d, 2 * spacing)
    }
}

/// A quotient rounded to twenty-four binary digits.
pub open spec fn single(n: int, d: int) -> int {
    let spacing = spacing_from(n, d, 1);
    nearest(n, spacing * d) * spacing
}

/// A channel divided by 255, times 2 to the power of 31.
pub open spec fn normalized(channel: u8) -> int {
    single(channel * UNIT, 1)
}

/// A channel divided by alpha, times 2 to the power of 32. Without alpha it is not divided.
pub open spec fn divided(channel: u8, alpha: u8) -> int {
    if alpha == 0 {
        2 * normalized(channel)
    } else {
        single(normalized(channel) * 0x1_0000_0000, normalized(alpha))
    }
}

/// A channel without premultiplied alpha.
pub open spec fn unmultiplied(channel: u8, alpha: u8) -> u8 {
    let whole = single(divided(channel, alpha) * 255, 1) / 0x1_0000_0000;
    if whole > 255 {
        255
    } else {
        whole as u8
    }
}

/// A color without premultiplied alpha.
#[derive(Clone, Copy, Debug, PartialEq, Eq, Structural)]
pub struct Color {
    pub a: u8,
    pub r: u8,
    pub g: u8,
    pub b: u8,
}

/// What the spacing of a quotient is: with it the quotient has at most twenty-four digits, and no
/// fewer if it was ever doubled.
proof fn lemma_spacing(n: int, d: int, spacing: int)
    requires
        d >= 1,
        spacing >= 1,
        n >= 0,
    ensures
        spacing_from(n, d, spacing) >= spacing,
        n < 0x100_0000 * (spacing_from(n, d, spacing) * d),
        spacing_from(n, d, spacing) == spacing || 0x80_0000 * (spacing_from(n, d, spacing) * d)
            <= n,
    decreases n - spacing,
{
    if n >= 0x100_0000 * (spacing * d) {
        assert(spacing * d >= spacing) by (nonlinear_arith)
            requires
                d >= 1,
                spacing >= 1,
        ;
        assert((2 * spacing) * d == 2 * (spacing * d)) by (nonlinear_arith);
        lemma_spacing(n, d, 2 * spacing);
    }
}

/// How large a rounded quotient can be.
proof fn lemma_single_bound(n: int, d: int)
    requires
        d >= 1,
        n >= 0,
    ensures
        0 <= single(n, d) <= 2 * n + 1,
        n >= 0x80_0000 * d ==> single(n, d) > 0,
{
    let u = spacing_from(n, d, 1);
    lemma_spacing(n, d, 1);
    let step = u * d;
    assert(step >= u && step >= d) by (nonlinear_arith)
        requires
            step == u * d,
            u >= 1,
            d >= 1,
    ;
    let floor = n / step;
    assert(0 <= floor && floor * u <= n) by (nonlinear_arith)
        requires
            n >= 0,
            step >= u,
            u >= 1,
            floor == n / step,
    ;
    let near = nearest(n, step);
    assert(0 <= near * u <= floor * u + u) by (nonlinear_arith)
        requires
            0 <= floor <= near <= floor + 1,
            u >= 1,
    ;
    if n >= 0x80_0000 * d {
        assert(floor >= 1) by (nonlinear_arith)
            requires
                1 <= step <= n,
                floor == n / step,
        ;
        assert(near * u >= 1) by (nonlinear_arith)
            requires
                near >= 1,
                u >= 1,
        ;
    }
}

/// How far off a rounded quotient can be.
proof fn lemma_single_error(n: int, d: int)
    requires
        d >= 1,
        n >= 0x80_0000 * d,
    ensures
        -n <= 0x100_0000 * (single(n, d) * d - n) <= n,
{
    let u = spacing_from(n, d, 1);
    lemma_spacing(n, d, 1);
    let step = u * d;
    assert(step >= 1) by (nonlinear_arith)
        requires
            step == u * d,
            u >= 1,
            d >= 1,
    ;
    let floor = n / step;
    let rest = n % step;
    assert(n == step * floor + rest && 0 <= rest < step) by (nonlinear_arith)
        requires
            step >= 1,
            floor == n / step,
            rest == n % step,
    ;
    let near = nearest(n, step);
    assert(step * (floor + 1) == step * floor + step) by (nonlinear_arith);
    assert((near * u) * d == step * near) by (nonlinear_arith)
        requires
            step == u * d,
    ;
}

/// The roundings on the way from a channel to its quotient times 255 are all relative ones: the
/// outcome times alpha is 255 times the channel, up to four of them.
proof fn lemma_unmultiply_error(channel: u8, alpha: u8)
    requires
        0 < channel,
        0 < alpha,
    ensures
        ({
            let t = single(divided(channel, alpha) * 255, 1);
            let wanted = 255 * channel;
            let n: int = 0x100_0000;
            let scale: int = 0x1_0000_0000;
            &&& (n * n * (n - 1)) * (t * alpha) <= ((n + 1) * (n + 1) * (n + 1)) * (wanted * scale)
            &&& (n * n * (n + 1)) * (t * alpha) >= ((n - 1) * (n - 1) * (n - 1)) * (wanted * scale)
        }),
{
    let n: int = 0x100_0000;
    let scale: int = 0x1_0000_0000;
    let c = channel as int;
    let a = alpha as int;
    let k = UNIT as int;
    let x = normalized(channel);
    let y = normalized(alpha);
    let q = divided(channel, alpha);
    let t = single(q * 255, 1);
    assert(0x80_0000 <= c * k <= 0x8000_0080 && 0x80_0000 <= a * k <= 0x8000_0080)
        by (nonlinear_arith)
        requires
            1 <= c <= 255,
            1 <= a <= 255,
            k == 8421505,
    ;
    lemma_single_error(c * k, 1);
    lemma_single_error(a * k, 1);
    assert(0x80_0000 <= x < scale);
    assert(0x80_0000 <= y < scale);
    lemma_single_error(x * scale, y);
    assert((n + 1) * (x * scale) >= n * (q * y) >= (n - 1) * (x * scale));
    assert(q >= 0x40_0000) by (nonlinear_arith)
        requires
            n * (q * y) >= (n - 1) * (x * scale),
            x >= 0x80_0000,
            0 < y < scale,
            n == 0x100_0000,
            scale == 0x1_0000_0000,
    ;
    lemma_single_error(q * 255, 1);
    let up = n + 1;
    let down = n - 1;
    // Every step is multiplied with what is already known of the one before.
    assert((n * n * n) * (t * y) <= (up * up * up) * (255 * c * scale) * k) by {
        assert((n * t) * (n * y) <= (up * (255 * q)) * (n * y)) by (nonlinear_arith)
            requires
                n * t <= up * (255 * q),
                n * y >= 0,
        ;
        assert((up * (255 * q)) * (n * y) == (255 * up) * (n * (q * y))) by (nonlinear_arith);
        assert((255 * up) * (n * (q * y)) <= (255 * up) * (up * (x * scale))) by (nonlinear_arith)
            requires
                n * (q * y) <= up * (x * scale),
                up >= 0,
        ;
        assert((255 * up * up * scale) * (n * x) <= (255 * up * up * scale) * (up * (c * k)))
            by (nonlinear_arith)
            requires
                n * x <= up * (c * k),
                up >= 0,
                scale >= 0,
        ;
        assert((255 * up * up * scale) * (up * (c * k)) == (up * up * up) * (255 * c * scale) * k)
            by (nonlinear_arith);
        assert(n * ((n * t) * (n * y)) == (n * n * n) * (t * y)) by (nonlinear_arith);
    }
    assert((n * n * n) * (t * y) >= (down * down * down) * (255 * c * scale) * k) by {
        assert((n * t) * (n * y) >= (down * (255 * q)) * (n * y)) by (nonlinear_arith)
            requires
                n * t >= down * (255 * q),
                n * y >= 0,
        ;
        assert((down * (255 * q)) * (n * y) == (255 * down) * (n * (q * y))) by (nonlinear_arith);
        assert((255 * down) * (n * (q * y)) >= (255 * down) * (down * (x * scale)))
            by (nonlinear_arith)
            requires
                n * (q * y) >= down * (x * scale),
                down >= 0,
        ;
        assert((255 * down * down * scale) * (down * (c * k)) == (down * down * down) * (255 * c
            * scale) * k) by (nonlinear_arith);
        assert(n * ((n * t) * (n * y)) == (n * n * n) * (t * y)) by (nonlinear_arith);
    }
    assert((n * n * n) * (t * y) == (n * n * t) * (n * y)) by (nonlinear_arith);
    assert((n * n * t) * (n * y) >= (n * n * t) * (down * (a * k)) && (n * n * t) * (n * y) <= (n
        * n * t) * (up * (a * k))) by (nonlinear_arith)
        requires
            t >= 0,
            n >= 0,
            down * (a * k) <= n * y <= up * (a * k),
    ;
    assert((n * n * t) * (down * (a * k)) == (n * n * down) * (t * a) * k) by (nonlinear_arith);
    assert((n * n * t) * (up * (a * k)) == (n * n * up) * (t * a) * k) by (nonlinear_arith);
}

/// Taking alpha out of a channel that is at most alpha gives 255 times the channel divided by
/// alpha, without its fraction, or, only where there is no fraction, one less.
pub proof fn law_unmultiply_is_close(channel: u8, alpha: u8)
    requires
        channel <= alpha,
        0 < alpha,
    ensures
        ({
            let exact = 255 * channel / (alpha as int);
            let r = unmultiplied(channel, alpha);
            &&& r == exact || r == exact - 1
            &&& r == exact - 1 ==> exact * alpha == 255 * channel
        }),
{
    let n: int = 0x100_0000;
    let scale: int = 0x1_0000_0000;
    let a = alpha as int;
    let p = 255 * channel;
    let exact = p / a;
    let t = single(divided(channel, alpha) * 255, 1);
    assert(exact * a <= p < (exact + 1) * a && 0 <= exact <= 255) by (nonlinear_arith)
        requires
            exact == p / a,
            a >= 1,
            0 <= p <= 255 * a,
    ;
    if channel == 0 {
        lemma_zero(alpha);
    } else {
        lemma_unmultiply_error(channel, alpha);
        let whole = t / scale;
        assert(whole <= exact) by {
            if whole > exact {
                assert(t * a >= (p + 1) * scale) by (nonlinear_arith)
                    requires
                        t >= scale * (exact + 1),
                        (exact + 1) * a >= p + 1,
                        a >= 1,
                        scale == 0x1_0000_0000,
                ;
                let factor = n * n * (n - 1);
                let cube = (n + 1) * (n + 1) * (n + 1);
                let w = t * a;
                assert(false) by (nonlinear_arith)
                    requires
                        factor * w <= cube * (p * scale),
                        w >= (p + 1) * scale,
                        factor == 4722366201394668503040,
                        cube == 4722367327294625677313,
                        0 <= p <= 65025,
                        scale == 0x1_0000_0000,
                ;
            }
        }
        let lowest = if exact * a == p {
            exact - 1
        } else {
            exact
        };
        assert(whole >= lowest) by {
            if whole < lowest {
                assert(lowest * a <= p - 1) by (nonlinear_arith)
                    requires
                        exact * a <= p,
                        a >= 1,
                        lowest == exact - 1 || (lowest == exact && exact * a != p),
                ;
                assert(t * a <= (p - 1) * scale) by (nonlinear_arith)
                    requires
                        t < scale * lowest,
                        lowest * a <= p - 1,
                        a >= 1,
                        scale == 0x1_0000_0000,
                ;
                let factor = n * n * (n + 1);
                let cube = (n - 1) * (n - 1) * (n - 1);
                let w = t * a;
                assert(false) by (nonlinear_arith)
                    requires
                        factor * w >= cube * (p * scale),
                        w <= (p - 1) * scale,
                        factor == 4722366764344621924352,
                        cube == 4722365638444765413375,
                        0 <= p <= 65025,
                        scale == 0x1_0000_0000,
                ;
            }
        }
    }
}

/// Taking alpha out keeps what is missing and what is full: a channel that is zero stays zero, and
/// a channel as large as alpha becomes 255.
pub proof fn law_unmultiply_ends(alpha: u8)
    ensures
        unmultiplied(0, alpha) == 0,
        0 < alpha ==> unmultiplied(alpha, alpha) == 255,
{
    lemma_zero(alpha);
    if alpha > 0 {
        let scale: int = 0x1_0000_0000;
        let d = normalized(alpha);
        lemma_single_bound(alpha * UNIT, 1);
        reveal_with_fuel(spacing_from, 18);
        assert(spacing_from(d * scale, d, 1) == 512);
        assert((d * scale) / (512 * d) == 0x80_0000 && (d * scale) % (512 * d) == 0)
            by (nonlinear_arith)
            requires
                d >= 1,
                scale == 0x1_0000_0000,
        ;
        assert(spacing_from(scale * 255, 1, 1) == 0x1_0000);
    }
}

/// Is this one of the spacings of the numbers that occur?
spec fn small_power(s: int) -> bool {
    ||| s == 0x1 || s == 0x2 || s == 0x4 || s == 0x8
    ||| s == 0x10 || s == 0x20 || s == 0x40 || s == 0x80
    ||| s == 0x100 || s == 0x200 || s == 0x400 || s == 0x800
    ||| s == 0x1000 || s == 0x2000 || s == 0x4000 || s == 0x8000
    ||| s == 0x1_0000 || s == 0x2_0000
}

/// Doubling a small power gives small powers for numbers that are not too large.
proof fn lemma_spacing_power(n: int, d: int, spacing: int)
    requires
        d >= 1,
        0 <= n < 0x200_0000_0000 * d,
        small_power(spacing),
    ensures
        small_power(spacing_from(n, d, spacing)),
    decreases n - spacing,
{
    if n >= 0x100_0000 * (spacing * d) {
        lemma_spacing_power(n, d, 2 * spacing);
    }
}

/// Dividing by an alpha of one rounds nothing.
proof fn lemma_divided_by_one(channel: u8)
    requires
        channel > 0,
    ensures
        normalized(255) == 0x8000_0000,
        divided(channel, 255) == 2 * normalized(channel),
{
    let c = channel as int;
    let k = UNIT as int;
    let x = normalized(channel);
    let scale: int = 0x1_0000_0000;
    let one: int = 0x8000_0000;
    assert(normalized(255) == one) by {
        let n = 255 * k;
        reveal_with_fuel(spacing_from, 10);
        assert(spacing_from(n, 1, 1) == 256);
    }
    let v = spacing_from(c * k, 1, 1);
    lemma_spacing(c * k, 1, 1);
    lemma_spacing_power(c * k, 1, 1);
    let near = nearest(c * k, v * 1);
    let u = spacing_from(x * scale, one, 1);
    lemma_single_bound(c * k, 1);
    lemma_spacing(x * scale, one, 1);
    lemma_spacing_power(x * scale, one, 1);
    let (w, f) = if near < 0x100_0000 {
        (2 * v, near)
    } else {
        (4 * v, 0x80_0000)
    };
    assert(v <= 256 && small_power(w));
    assert(2 * x == f * w) by (nonlinear_arith)
        requires
            x == near * v,
            (near < 0x100_0000 && w == 2 * v && f == near) || (near == 0x100_0000 && w == 4 * v && f
                == 0x80_0000),
    ;
    assert(u <= w) by (nonlinear_arith)
        requires
            u == 1 || 0x80_0000 * u <= 2 * x,
            2 * x == f * w,
            f < 0x100_0000,
            w >= 1,
            small_power(u),
            small_power(w),
    ;
    let parts = lemma_power_divides(u, w);
    let m = f * parts;
    assert(2 * x == m * u) by (nonlinear_arith)
        requires
            2 * x == f * w,
            w == parts * u,
            m == f * parts,
    ;
    let step = u * one;
    assert(x * scale == m * step) by (nonlinear_arith)
        requires
            2 * x == m * u,
            step == u * one,
            scale == 2 * one,
    ;
    assert((x * scale) / step == m && (x * scale) % step == 0) by (nonlinear_arith)
        requires
            x * scale == m * step,
            step >= 1,
    ;
}

/// Of two small powers, the smaller divides the larger.
proof fn lemma_power_divides(u: int, w: int) -> (parts: int)
    requires
        small_power(u),
        small_power(w),
        u <= w,
    ensures
        w == parts * u,
    decreases w,
{
    if u == w {
        1
    } else {
        let half = lemma_power_divides(u, w / 2);
        2 * half
    }
}

/// Rounding never passes a multiple of the spacing, and reaches one that is close enough.
proof fn lemma_single_reaches(n: int, m: int)
    requires
        0 <= n,
        n - m * spacing_from(n, 1, 1) > -spacing_from(n, 1, 1) / 2,
    ensures
        single(n, 1) >= m * spacing_from(n, 1, 1),
{
    let u = spacing_from(n, 1, 1);
    lemma_spacing(n, 1, 1);
    let floor = n / u;
    let rest = n % u;
    assert(n == u * floor + rest && 0 <= rest < u) by (nonlinear_arith)
        requires
            u >= 1,
            floor == n / u,
            rest == n % u,
    ;
    let near = nearest(n, u);
    assert(near >= m) by {
        if near < m {
            assert(u * near <= u * m - u && (near == floor ==> u * near == u * floor) && (near
                == floor + 1 ==> u * near == u * floor + u)) by (nonlinear_arith)
                requires
                    near <= m - 1,
                    u >= 1,
            ;
        }
    }
    assert(near * u >= m * u) by (nonlinear_arith)
        requires
            near >= m,
            u >= 1,
    ;
}

/// An opaque color has no alpha to take out: it stays what it is.
pub proof fn law_opaque_stays(channel: u8)
    ensures
        unmultiplied(channel, 255) == channel,
{
    if channel == 0 {
        lemma_zero(255);
    } else {
        let scale: int = 0x1_0000_0000;
        let c = channel as int;
        let k = UNIT as int;
        let n = divided(channel, 255) * 255;
        lemma_single_error(c * k, 1);
        lemma_divided_by_one(channel);
        law_unmultiply_is_close(channel, 255);
        let u = spacing_from(n, 1, 1);
        lemma_spacing(n, 1, 1);
        lemma_spacing_power(n, 1, 1);
        let parts = lemma_power_divides(u, 0x2_0000);
        let m = 0x8000 * parts * c;
        assert(m * u == c * scale) by (nonlinear_arith)
            requires
                m == 0x8000 * parts * c,
                0x2_0000 == parts * u,
                scale == 0x1_0000_0000,
        ;
        lemma_single_reaches(n, m);
    }
}

/// A color without alpha is not divided: its channels stay what they are.
pub proof fn law_invisible_stays(channel: u8)
    ensures
        unmultiplied(channel, 0) == channel,
{
    if channel == 0 {
        lemma_zero(0);
    } else {
        lemma_divided_by_one(channel);
        law_opaque_stays(channel);
    }
}

/// A channel that is larger than alpha, which no premultiplied color has, is cut to 255.
pub proof fn law_unmultiply_saturates(channel: u8, alpha: u8)
    requires
        0 < alpha < channel,
    ensures
        unmultiplied(channel, alpha) == 255,
{
    let n: int = 0x100_0000;
    let scale: int = 0x1_0000_0000;
    let a = alpha as int;
    let p = 255 * channel;
    let t = single(divided(channel, alpha) * 255, 1);
    lemma_unmultiply_error(channel, alpha);
    assert(t >= 255 * scale) by {
        if t < 255 * scale {
            let factor = n * n * (n + 1);
            let cube = (n - 1) * (n - 1) * (n - 1);
            let w = t * a;
            assert(w <= (p - 255) * scale) by (nonlinear_arith)
                requires
                    w == t * a,
                    t <= 255 * scale,
                    1 <= a,
                    255 * a <= p - 255,
                    scale == 0x1_0000_0000,
            ;
            assert(false) by (nonlinear_arith)
                requires
                    factor * w >= cube * (p * scale),
                    w <= (p - 255) * scale,
                    factor == 4722366764344621924352,
                    cube == 4722365638444765413375,
                    0 <= p <= 65025,
                    scale == 0x1_0000_0000,
            ;
        }
    }
}

/// What taking alpha out of one channel can give: the channel itself where alpha is full or
/// missing, 255 where the channel is larger than alpha, and otherwise 255 times the channel divided
/// by alpha, without its fraction, or, only where there is no fraction, one less.
pub open spec fn restored(channel: u8, alpha: u8, r: u8) -> bool {
    &&& alpha == 0 || alpha == 255 ==> r == channel
    &&& 0 < alpha < channel ==> r == 255
    &&& 0 < alpha && channel <= alpha ==> {
        ||| r * alpha <= 255 * channel < (r + 1) * alpha
        ||| (r + 1) * alpha == 255 * channel
    }
}

/// Taking alpha out of a channel gives one of the values that it can give.
pub proof fn law_unmultiply_restores(channel: u8, alpha: u8)
    ensures
        restored(channel, alpha, unmultiplied(channel, alpha)),
{
    if alpha == 0 {
        law_invisible_stays(channel);
    } else if channel > alpha {
        law_unmultiply_saturates(channel, alpha);
    } else {
        law_unmultiply_is_close(channel, alpha);
        let a = alpha as int;
        let p = 255 * channel;
        let exact = p / a;
        assert(exact * a <= p < (exact + 1) * a) by (nonlinear_arith)
            requires
                exact == p / a,
                a >= 1,
                0 <= p,
        ;
    }
    if alpha == 255 {
        law_opaque_stays(channel);
    }
}

/// A channel that is zero stays zero.
proof fn lemma_zero(alpha: u8)
    ensures
        unmultiplied(0, alpha) == 0,
{
    lemma_single_zero(1);
    if alpha > 0 {
        lemma_single_bound(alpha * UNIT, 1);
        lemma_single_zero(normalized(alpha));
    }
}

/// Zero needs no rounding.
proof fn lemma_single_zero(d: int)
    requires
        d >= 1,
    ensures
        single(0, d) == 0,
{
    assert(spacing_from(0, d, 1) == 1);
}

/// Rounds a quotient to twenty-four binary digits.
fn round_single(n: u128, d: u128) -> (r: u128)
    requires
        n < 0x1_0000_0000_0000_0000_0000,
        1 <= d < 0x1_0000_0000_0000,
    ensures
        r == single(n as int, d as int),
        r <= 2 * n + 1,
        n >= 0x80_0000 * d ==> r > 0,
{
    let mut spacing: u128 = 1;
    let mut step: u128 = d;
    while n >= 0x100_0000 * step
        invariant
            n < 0x1_0000_0000_0000_0000_0000,
            1 <= d < 0x1_0000_0000_0000,
            1 <= spacing,
            spacing == 1 || spacing <= n,
            step == spacing * d,
            step < 0x1_0000_0000_0000_0000_0000,
            spacing_from(n as int, d as int, spacing as int) == spacing_from(
                n as int,
                d as int,
                1,
            ),
        decreases n - step,
    {
        assert(spacing * d >= spacing && 2 * (spacing * d) == (2 * spacing) * d && spacing * d
            >= 1) by (nonlinear_arith)
            requires
                d >= 1,
                spacing >= 1,
        ;
        spacing = 2 * spacing;
        step = 2 * step;
    }
    let floor: u128 = n / step;
    let rest: u128 = 2 * (n % step);
    let near: u128 = if rest < step || (rest == step && floor % 2 == 0) {
        floor
    } else {
        floor + 1
    };
    proof {
        lemma_single_bound(n as int, d as int);
    }
    near * spacing
}

/// Takes premultiplied alpha out of a channel.
pub fn unmultiply(channel: u8, alpha: u8) -> (r: u8)
    ensures
        r == unmultiplied(channel, alpha),
{
    assert(channel * UNIT <= 0x8000_0080 && alpha * UNIT <= 0x8000_0080 && (alpha > 0 ==> alpha
        * UNIT >= 0x80_0000)) by (nonlinear_arith)
        requires
            channel <= 255,
            alpha <= 255,
            UNIT == 8421505,
    ;
    let channel_unit: u128 = round_single(channel as u128 * UNIT as u128, 1);
    let alpha_unit: u128 = round_single(alpha as u128 * UNIT as u128, 1);
    let quotient: u128 = if alpha > 0 {
        round_single(channel_unit * 0x1_0000_0000, alpha_unit)
    } else {
        2 * channel_unit
    };
    let whole: u128 = round_single(quotient * 255, 1) / 0x1_0000_0000;
    if whole > 255 {
        255
    } else {
        whole as u8
    }
}

impl Color32 {
    /// This color without premultiplied alpha. Alpha itself stays as it is.
    pub open spec fn spec_unmultiplied(self) -> Color {
        Color {
            a: self.a,
            r: unmultiplied(self.r, self.a),
            g: unmultiplied(self.g, self.a),
            b: unmultiplied(self.b, self.a),
        }
    }

    /// Takes premultiplied alpha out of this color.
    pub fn unmultiplied(&self) -> (r: Color)
        ensures
            r == self.spec_unmultiplied(),
            r.a == self.a,
            r.r == unmultiplied(self.r, self.a),
            r.g == unmultiplied(self.g, self.a),
            r.b == unmultiplied(self.b, self.a),
    {
        Color {
            a: self.a,
            r: unmultiply(self.r, self.a),
            g: unmultiply(self.g, self.a),
            b: unmultiply(self.b, self.a),
        }
    }
}

/// Each channel is restored by itself: red from red and alpha, green from green and alpha, blue
/// from blue and alpha. Alpha stays, and so do all channels of a color that is opaque or has no
/// alpha at all.
pub proof fn law_channels_are_restored(c: Color32)
    ensures
        c.spec_unmultiplied().a == c.a,
        restored(c.r, c.a, c.spec_unmultiplied().r),
        restored(c.g, c.a, c.spec_unmultiplied().g),
        restored(c.b, c.a, c.spec_unmultiplied().b),
        c.a == 0 || c.a == 255 ==> {
            &&& c.spec_unmultiplied().r == c.r
            &&& c.spec_unmultiplied().g == c.g
            &&& c.spec_unmultiplied().b == c.b
        },
        0 < c.a ==> {
            &&& c.r == c.a ==> c.spec_unmultiplied().r == 255
            &&& c.g == c.a ==> c.spec_unmultiplied().g == 255
            &&& c.b == c.a ==> c.spec_unmultiplied().b == 255
        },
        c.r == 0 ==> c.spec_unmultiplied().r == 0,
        c.g == 0 ==> c.spec_unmultiplied().g == 0,
        c.b == 0 ==> c.spec_unmultiplied().b == 0,
{
    law_unmultiply_restores(c.r, c.a);
    law_unmultiply_restores(c.g, c.a);
    law_unmultiply_restores(c.b, c.a);
    law_unmultiply_ends(c.a);
}

/// A channel depends on nothing but itself and alpha, and the three channels are treated alike:
/// colors with the same alpha get the same out of the same channel value, wherever it stands, and
/// that is what the channel gets alone.
pub proof fn law_channels_are_independent(c: Color32, d: Color32)
    requires
        c.a == d.a,
    ensures
        c.r == d.r ==> c.spec_unmultiplied().r == d.spec_unmultiplied().r,
        c.g == d.g ==> c.spec_unmultiplied().g == d.spec_unmultiplied().g,
        c.b == d.b ==> c.spec_unmultiplied().b == d.spec_unmultiplied().b,
        c.r == d.g ==> c.spec_unmultiplied().r == d.spec_unmultiplied().g,
        c.g == d.b ==> c.spec_unmultiplied().g == d.spec_unmultiplied().b,
        c.b == d.r ==> c.spec_unmultiplied().b == d.spec_unmultiplied().r,
        c.spec_unmultiplied().r == unmultiplied(c.r, c.a),
        c.spec_unmultiplied().g == unmultiplied(c.g, c.a),
        c.spec_unmultiplied().b == unmultiplied(c.b, c.a),
{
}

} // verus!
