//! IEEE-754 single precision, carried as bit patterns.
//!
//! Frame rates, corner positions and sizes reach this crate as 32-bit floats. They are held as
//! bit patterns, and the few operations that decisions rest on are computed here with integers:
//! comparison, maximum, sum, difference, product, quotient, the size of a root, conversion from and
//! to integers. Each is stated against the exact mathematical result, rounded to the nearest representable number, ties to
//! even.
use vstd::arithmetic::{div_mod, mul, power2};
use vstd::prelude::*;

verus! {

/// One past the largest sum of sign-free bits: the sign bit.
pub const SIGN: u32 = 0x8000_0000;

/// The sign-free bits of infinity. Larger ones are not-a-number.
pub const INFINITY: u32 = 0x7f80_0000;

/// The sign-free bits of the number that `NAN` of the standard library stands for.
pub const QUIET: u32 = 0x7fc0_0000;

/// The first number whose exponent is not the smallest one, as bits: two to the 23rd.
pub const IMPLICIT: u32 = 0x0080_0000;

/// A 32-bit float by its bit pattern.
#[derive(Debug, Clone, Copy, PartialEq, Eq, Structural)]
pub struct F32 {
    pub bits: u32,
}

/// What a sign-free bit pattern is worth, in units of two to the power -149: the smallest
/// positive single. Infinity is worth what the next binade would start with.
pub open spec fn units(mag: nat) -> nat {
    if mag < IMPLICIT {
        mag
    } else {
        (IMPLICIT + mag % (IMPLICIT as nat)) as nat * power2::pow2((mag / (IMPLICIT as nat) - 1) as nat)
    }
}

/// The integer nearest to `n / d`; of two equally near ones, the even one.
pub open spec fn half_even(n: nat, d: nat) -> nat {
    let q = n / d;
    let r = n % d;
    if 2 * r > d || (2 * r == d && q % 2 == 1) {
        q + 1
    } else {
        q
    }
}

/// How many binary places `n / d` has beyond the 24 that a single holds.
pub open spec fn excess(n: nat, d: nat) -> nat
    decreases n - d,
{
    if d == 0 || n < d * 0x100_0000 {
        0
    } else {
        1 + excess(n, 2 * d)
    }
}

/// The sign-free bits of the single nearest to `n / d` units, ties to even; infinity past the
/// largest finite one.
pub open spec fn nearest(n: nat, d: nat) -> nat {
    let s = excess(n, d);
    let bits = s * (IMPLICIT as nat) + half_even(n, d * power2::pow2(s));
    if bits < INFINITY {
        bits
    } else {
        INFINITY as nat
    }
}

impl F32 {
    pub open spec fn mag(self) -> nat {
        (self.bits % SIGN) as nat
    }

    pub open spec fn negative(self) -> bool {
        self.bits >= SIGN
    }

    pub open spec fn nan(self) -> bool {
        self.mag() > INFINITY
    }

    pub open spec fn infinite(self) -> bool {
        self.mag() == INFINITY
    }

    /// The number in units of two to the power -149, signed.
    pub open spec fn value(self) -> int {
        if self.negative() {
            -units(self.mag())
        } else {
            units(self.mag()) as int
        }
    }

    /// `self < other`: false where either is not a number.
    pub open spec fn spec_lt(self, other: F32) -> bool {
        !self.nan() && !other.nan() && self.value() < other.value()
    }

    /// `self <= other`: false where either is not a number.
    pub open spec fn spec_le(self, other: F32) -> bool {
        !self.nan() && !other.nan() && self.value() <= other.value()
    }
}

/// A larger pattern is a larger number.
pub proof fn lemma_units_increase(a: nat, b: nat)
    requires
        a < b <= INFINITY,
    ensures
        units(a) < units(b),
{
    let i = IMPLICIT as nat;
    power2::lemma2_to64();
    div_mod::lemma_fundamental_div_mod(a as int, i as int);
    div_mod::lemma_fundamental_div_mod(b as int, i as int);
    if b >= i {
        let eb = (b / i - 1) as nat;
        power2::lemma_pow2_pos(eb);
        let p = power2::pow2(eb);
        assert(units(b) >= i * p) by (nonlinear_arith)
            requires
                units(b) == (i + b % i) * p,
                b % i >= 0,
                p >= 0,
        ;
        if a < i {
            assert(i * p >= i) by (nonlinear_arith)
                requires
                    p >= 1,
            ;
        } else {
            let ea = (a / i - 1) as nat;
            assert(a / i <= b / i) by {
                div_mod::lemma_div_is_ordered(a as int, b as int, i as int);
            }
            power2::lemma_pow2_pos(ea);
            if ea == eb {
                assert(a % i < b % i);
                let (ra, rb) = (a % i, b % i);
                assert((i + ra) * p < (i + rb) * p) by (nonlinear_arith)
                    requires
                        ra < rb,
                        p > 0,
                ;
            } else {
                power2::lemma_pow2_unfold((ea + 1) as nat);
                if ea + 1 < eb {
                    power2::lemma_pow2_strictly_increases((ea + 1) as nat, eb);
                }
                let pa = power2::pow2(ea);
                let ra = a % i;
                assert((i + ra) * pa < 2 * i * pa) by (nonlinear_arith)
                    requires
                        ra < i,
                        pa > 0,
                ;
                assert(2 * i * pa <= i * p) by (nonlinear_arith)
                    requires
                        2 * pa <= p,
                        i > 0,
                ;
            }
        }
    }
}

/// Equal or larger patterns are equal or larger numbers, both ways.
pub proof fn lemma_units_order(a: nat, b: nat)
    requires
        a <= INFINITY,
        b <= INFINITY,
    ensures
        a < b <==> units(a) < units(b),
        a == b <==> units(a) == units(b),
        units(a) == 0 <==> a == 0,
{
    if a < b {
        lemma_units_increase(a, b);
    } else if b < a {
        lemma_units_increase(b, a);
    }
    if a > 0 {
        lemma_units_increase(0, a);
    }
}

impl F32 {
    /// Sign-free bits.
    pub(crate) fn magnitude(&self) -> (r: u32)
        ensures
            r == self.mag(),
    {
        self.bits % SIGN
    }

    fn is_negative(&self) -> (r: bool)
        ensures
            r == self.negative(),
    {
        self.bits >= SIGN
    }

    pub fn is_nan(&self) -> (r: bool)
        ensures
            r == self.nan(),
    {
        self.magnitude() > INFINITY
    }

    /// The bit pattern as a signed integer that is ordered as the numbers are.
    fn key(&self) -> (r: i64)
        requires
            !self.nan(),
        ensures
            r == if self.negative() { -(self.mag() as int) } else { self.mag() as int },
    {
        if self.is_negative() {
            0 - (self.magnitude() as i64)
        } else {
            self.magnitude() as i64
        }
    }

    pub fn less(&self, other: &F32) -> (r: bool)
        ensures
            r == self.spec_lt(*other),
    {
        if self.is_nan() || other.is_nan() {
            return false;
        }
        proof {
            lemma_units_order(self.mag(), other.mag());
            lemma_units_order(other.mag(), self.mag());
        }
        self.key() < other.key()
    }

    pub fn at_most(&self, other: &F32) -> (r: bool)
        ensures
            r == self.spec_le(*other),
    {
        if self.is_nan() || other.is_nan() {
            return false;
        }
        proof {
            lemma_units_order(self.mag(), other.mag());
            lemma_units_order(other.mag(), self.mag());
        }
        self.key() <= other.key()
    }
}


/// A common factor cancels in a comparison.
proof fn lemma_scale_below(a: nat, b: nat, c: nat)
    by (nonlinear_arith)
    requires
        c > 0,
    ensures
        a < b <==> a * c < b * c,
{
}

/// A common factor cancels in a quotient.
proof fn lemma_scale_half_even(a: nat, b: nat, c: nat)
    requires
        b > 0,
        c > 0,
    ensures
        half_even(a * c, b * c) == half_even(a, b),
{
    let (q, r) = (a / b, a % b);
    div_mod::lemma_fundamental_div_mod(a as int, b as int);
    assert(a * c == q * (b * c) + r * c) by (nonlinear_arith)
        requires
            a == b * q + r,
    ;
    assert(0 <= r * c < b * c) by (nonlinear_arith)
        requires
            0 <= r < b,
            c > 0,
    ;
    div_mod::lemma_fundamental_div_mod_converse(
        (a * c) as int,
        (b * c) as int,
        q as int,
        (r * c) as int,
    );
    lemma_scale_below(b, (2 * r) as nat, c);
    lemma_scale_below((2 * r) as nat, b, c);
    assert(2 * (r * c) == (2 * r) * c) by (nonlinear_arith);
}

/// The excess is the only count with these two bounds.
proof fn lemma_excess(n: nat, d: nat, s: nat)
    requires
        d > 0,
        n < d * power2::pow2(24 + s),
        s > 0 ==> n >= d * power2::pow2((23 + s) as nat),
    ensures
        excess(n, d) == s,
    decreases s,
{
    power2::lemma2_to64();
    if s > 0 {
        if s > 1 {
            power2::lemma_pow2_strictly_increases(24, (23 + s) as nat);
        }
        let (p, q) = (power2::pow2(24), power2::pow2((23 + s) as nat));
        assert(d * q >= d * p) by (nonlinear_arith)
            requires
                q >= p,
        ;
        power2::lemma_pow2_unfold(24 + s);
        power2::lemma_pow2_unfold((23 + s) as nat);
        let (x, y) = (power2::pow2((23 + s) as nat), power2::pow2((22 + s) as nat));
        assert(d * (2 * x) == (2 * d) * x) by (nonlinear_arith);
        assert(d * (2 * y) == (2 * d) * y) by (nonlinear_arith);
        lemma_excess(n, 2 * d, (s - 1) as nat);
    }
}

/// The part of an exponent above zero.
pub open spec fn above(e: int) -> nat {
    if e > 0 {
        e as nat
    } else {
        0
    }
}

/// Two pairs of exponents with the same difference differ by a common factor.
proof fn lemma_common_factor(lo: nat, hi: nat, wide_lo: nat, wide_hi: nat)
    requires
        wide_hi - wide_lo == hi - lo,
        wide_lo >= lo,
    ensures
        power2::pow2(wide_lo) == power2::pow2(lo) * power2::pow2((wide_lo - lo) as nat),
        power2::pow2(wide_hi) == power2::pow2(hi) * power2::pow2((wide_lo - lo) as nat),
        power2::pow2((wide_lo - lo) as nat) > 0,
{
    let c = (wide_lo - lo) as nat;
    power2::lemma_pow2_adds(lo, c);
    power2::lemma_pow2_adds(hi, c);
    power2::lemma_pow2_pos(c);
}

/// Two to the power `e`.
pub(crate) fn power(e: u32) -> (r: u128)
    requires
        e < 128,
    ensures
        r == power2::pow2(e as nat),
        r > 0,
{
    let mut i: u32 = 0;
    let mut p: u128 = 1;
    proof {
        power2::lemma2_to64();
    }
    while i < e
        invariant
            i <= e < 128,
            p == power2::pow2(i as nat),
            p > 0,
        decreases e - i,
    {
        proof {
            power2::lemma_pow2_unfold((i + 1) as nat);
            power2::lemma2_to64();
            power2::lemma2_to64_rest();
            if i < 126 {
                power2::lemma_pow2_strictly_increases(i as nat, 126);
            }
            power2::lemma_pow2_adds(63, 63);
        }
        p = p * 2;
        i = i + 1;
    }
    p
}

/// `n < d * 2^e`, for an exponent of either sign.
fn below(n: u128, d: u128, e: i32) -> (r: bool)
    requires
        0 < d,
        d < 0x100_0000,
        n < 0x10_0000_0000_0000_0000_0000_0000,
        -1000 <= e <= 1000,
    ensures
        r == (n * power2::pow2(above(-e)) < d * power2::pow2(above(e as int))),
{
    proof {
        power2::lemma2_to64();
        power2::lemma2_to64_rest();
        power2::lemma_pow2_adds(60, 40);
        mul::lemma_mul_basics(n as int);
        mul::lemma_mul_basics(d as int);
    }
    if e >= 0 {
        let ghost p = power2::pow2(e as nat);
        proof {
            power2::lemma_pow2_pos(e as nat);
        }
        if e >= 100 {
            proof {
                if e > 100 {
                    power2::lemma_pow2_strictly_increases(100, e as nat);
                }
                assert(n < d * p) by (nonlinear_arith)
                    requires
                        n < p,
                        d >= 1,
                ;
            }
            return true;
        }
        let p: u128 = power(e as u32);
        proof {
            div_mod::lemma_fundamental_div_mod(n as int, p as int);
            let (q, r) = (n as int / p as int, n as int % p as int);
            assert(q < d <==> n < d * p) by (nonlinear_arith)
                requires
                    n == p * q + r,
                    0 <= r < p,
                    d > 0,
            ;
        }
        n / p < d
    } else {
        let f: i32 = 0 - e;
        let ghost p = power2::pow2(f as nat);
        proof {
            power2::lemma_pow2_pos(f as nat);
        }
        if f >= 24 {
            proof {
                if f > 24 {
                    power2::lemma_pow2_strictly_increases(24, f as nat);
                }
                assert(n * p < d <==> n == 0) by (nonlinear_arith)
                    requires
                        0 < d < p,
                        n >= 0,
                ;
            }
            return n == 0;
        }
        let p: u128 = power(f as u32);
        proof {
            div_mod::lemma_fundamental_div_mod(d - 1, p as int);
            let (q, r) = ((d - 1) / p as int, (d - 1) % p as int);
            assert(n <= q <==> n * p < d) by (nonlinear_arith)
                requires
                    d - 1 == p * q + r,
                    0 <= r < p,
            ;
        }
        n <= (d - 1) / p
    }
}

/// The integer nearest to `n / d`, ties to even.
fn divide_half_even(n: u128, d: u128) -> (r: u128)
    requires
        0 < d < 0x4000_0000_0000_0000_0000_0000_0000_0000,
        n < 0x4000_0000_0000_0000_0000_0000_0000_0000,
    ensures
        r == half_even(n as nat, d as nat),
{
    let q: u128 = n / d;
    let r: u128 = n % d;
    proof {
        div_mod::lemma_fundamental_div_mod(n as int, d as int);
        assert(q <= n) by (nonlinear_arith)
            requires
                n == d * q + r,
                d >= 1,
                r >= 0,
                q >= 0,
        ;
    }
    if 2 * r > d || (2 * r == d && q % 2 == 1) {
        q + 1
    } else {
        q
    }
}

/// The sign-free bits of the single nearest to `n / d * 2^u` units.
fn round(n: u128, d: u128, u: i32) -> (r: u32)
    requires
        0 < d,
        d < 0x100_0000,
        n < 0x10_0000_0000_0000_0000_0000_0000,
        -420 <= u <= 420,
    ensures
        r == nearest(
            n as nat * power2::pow2(above(u as int)),
            d as nat * power2::pow2(above(-u)),
        ),
        r <= INFINITY,
{
    let ghost wide_n = n as nat * power2::pow2(above(u as int));
    let ghost wide_d = d as nat * power2::pow2(above(-u));
    proof {
        power2::lemma_pow2_pos(above(-u));
        assert(wide_d > 0) by (nonlinear_arith)
            requires
                wide_d == d as nat * power2::pow2(above(-u)),
                d > 0,
                power2::pow2(above(-u)) > 0,
        ;
        assert forall|t: int| t + u >= 0 implies #[trigger] fits(n as nat, d as nat, 24 + t) == (
        wide_n < wide_d * power2::pow2((24 + t + u) as nat)) by {
            lemma_fits(n as nat, d as nat, u as int, 24 + t);
        }
    }
    let mut t: i32 = 0 - u;
    while !below(n, d, 24 + t)
        invariant
            0 < d,
            d < 0x100_0000,
            n < 0x10_0000_0000_0000_0000_0000_0000,
            -420 <= u <= 420,
            0 - u <= t <= 420,
            t > 0 - u ==> t <= 76,
            t > 0 - u ==> wide_n >= wide_d * power2::pow2((23 + t + u) as nat),
            forall|t: int|
                t + u >= 0 ==> #[trigger] fits(n as nat, d as nat, 24 + t) == (wide_n < wide_d
                    * power2::pow2((24 + t + u) as nat)),
        decreases 421 - t,
    {
        proof {
            assert(!fits(n as nat, d as nat, 24 + t));
            if t >= 76 {
                power2::lemma2_to64();
                power2::lemma2_to64_rest();
                power2::lemma_pow2_adds(60, 40);
                if t > 76 {
                    power2::lemma_pow2_strictly_increases(100, (24 + t) as nat);
                }
                assert(n < d * power2::pow2((24 + t) as nat)) by (nonlinear_arith)
                    requires
                        n < power2::pow2((24 + t) as nat),
                        d >= 1,
                ;
            }
        }
        t = t + 1;
    }
    let ghost s = (t + u) as nat;
    proof {
        assert(fits(n as nat, d as nat, 24 + t));
        lemma_excess(wide_n, wide_d, s);
        // Numerator and denominator of the quotient, with the common power of two taken out.
        lemma_common_factor(above(-t), above(t as int), above(u as int), (above(-u) + s) as nat);
        let c = power2::pow2((above(u as int) - above(-t)) as nat);
        let (x, y) = (power2::pow2(above(-t)), power2::pow2(above(t as int)));
        power2::lemma_pow2_pos(above(t as int));
        power2::lemma_pow2_adds(above(-u), s);
        assert(wide_n == (n as nat * x) * c) by (nonlinear_arith)
            requires
                wide_n == n as nat * (x * c),
        ;
        let (p, q) = (power2::pow2(above(-u)), power2::pow2(s));
        assert(wide_d * q == (d as nat * y) * c) by (nonlinear_arith)
            requires
                wide_d == d as nat * p,
                p * q == y * c,
        ;
        assert(d as nat * y > 0) by (nonlinear_arith)
            requires
                d > 0,
                y > 0,
        ;
        lemma_scale_half_even(n as nat * x, d as nat * y, c);
        power2::lemma2_to64();
        power2::lemma2_to64_rest();
        mul::lemma_mul_basics(n as int);
        mul::lemma_mul_basics(d as int);
        assert(half_even(wide_n, wide_d * power2::pow2(s)) == half_even(
            n as nat * x,
            d as nat * y,
        ));
    }
    let q: u128;
    if t > 100 {
        q = 0;
        proof {
            power2::lemma_pow2_adds(60, 41);
            if t > 101 {
                power2::lemma_pow2_strictly_increases(101, t as nat);
            }
            let y = power2::pow2(t as nat);
            assert(2 * n <= d * y) by (nonlinear_arith)
                requires
                    2 * n <= y,
                    d >= 1,
            ;
            div_mod::lemma_fundamental_div_mod_converse(n as int, (d * y) as int, 0, n as int);
        }
    } else if t >= 0 {
        let p: u128 = power(t as u32);
        proof {
            power2::lemma_pow2_adds(60, 40);
            if t < 100 {
                power2::lemma_pow2_strictly_increases(t as nat, 100);
            }
            assert(0 < d * p < 0x100_0000 * 0x10_0000_0000_0000_0000_0000_0000) by (nonlinear_arith)
                requires
                    0 < d < 0x100_0000,
                    0 < p <= 0x10_0000_0000_0000_0000_0000_0000,
            ;
        }
        q = divide_half_even(n, d * p);
    } else {
        if n == 0 {
            q = 0;
            proof {
                div_mod::lemma_fundamental_div_mod_converse(0, d as int, 0, 0);
            }
        } else {
            proof {
                lemma_small_shift(n as nat, d as nat, t as int);
            }
            let p: u128 = power((0 - t) as u32);
            q = divide_half_even(n * p, d);
        }
    }
    proof {
        lemma_half_even_bound(wide_n, wide_d, s);
        assert(q == half_even(wide_n, wide_d * power2::pow2(s)));
    }
    let bits: u32 = ((t + u) as u32) * IMPLICIT + (q as u32);
    if bits < INFINITY {
        bits
    } else {
        INFINITY
    }
}

/// `n < d * 2^e`, for an exponent of either sign.
spec fn fits(n: nat, d: nat, e: int) -> bool {
    n * power2::pow2(above(-e)) < d * power2::pow2(above(e))
}

/// The same comparison with the powers of two on the side where they stand in a number of units.
proof fn lemma_fits(n: nat, d: nat, u: int, e: int)
    requires
        e + u >= 0,
    ensures
        fits(n, d, e) == (n * power2::pow2(above(u)) < d * power2::pow2(above(-u)) * power2::pow2(
            (e + u) as nat,
        )),
{
    lemma_common_factor(above(-e), above(e), above(u), (above(-u) + e + u) as nat);
    power2::lemma_pow2_adds(above(-u), (e + u) as nat);
    let c = power2::pow2((above(u) - above(-e)) as nat);
    let (x, y) = (power2::pow2(above(-e)), power2::pow2(above(e)));
    let (p, q) = (power2::pow2(above(-u)), power2::pow2((e + u) as nat));
    lemma_scale_below(n * x, d * y, c);
    assert(n * (x * c) == (n * x) * c) by (nonlinear_arith);
    assert(d * p * q == (d * y) * c) by (nonlinear_arith)
        requires
            p * q == y * c,
    ;
}

/// A positive numerator that is shifted left is below two to the 48th, and so is the shift.
proof fn lemma_small_shift(n: nat, d: nat, t: int)
    requires
        t < 0,
        0 < n,
        0 < d < 0x100_0000,
        fits(n, d, 24 + t),
    ensures
        n * power2::pow2(above(-t)) < 0x1_0000_0000_0000,
        -t < 48,
{
    lemma_fits(n, d, -t, 24 + t);
    power2::lemma2_to64();
    power2::lemma2_to64_rest();
    let p = power2::pow2(above(-t));
    assert(power2::pow2(24) == 0x100_0000);
    assert(d * power2::pow2(0) * power2::pow2(24) < 0x1_0000_0000_0000) by (nonlinear_arith)
        requires
            power2::pow2(0) == 1,
            power2::pow2(24) == 0x100_0000,
            d < 0x100_0000,
    ;
    assert(p <= n * p) by (nonlinear_arith)
        requires
            n >= 1,
            p >= 0,
    ;
    if -t >= 48 {
        if -t > 48 {
            power2::lemma_pow2_strictly_increases(48, above(-t));
        }
    }
}

/// The rounded quotient takes 24 bits, or is the next power of two.
proof fn lemma_half_even_bound(n: nat, d: nat, s: nat)
    requires
        d > 0,
        n < d * power2::pow2(24 + s),
    ensures
        half_even(n, d * power2::pow2(s)) <= 0x100_0000,
{
    power2::lemma_pow2_adds(24, s);
    power2::lemma2_to64();
    power2::lemma_pow2_pos(s);
    let p = power2::pow2(s);
    let w = d * p;
    assert(w > 0) by (nonlinear_arith)
        requires
            w == d * p,
            d > 0,
            p > 0,
    ;
    assert(n < 0x100_0000 * w) by (nonlinear_arith)
        requires
            n < d * power2::pow2(24 + s),
            power2::pow2(24 + s) == 0x100_0000 * p,
            w == d * p,
    ;
    div_mod::lemma_fundamental_div_mod(n as int, w as int);
    let (q, r) = (n / w, n % w);
    assert(q < 0x100_0000) by (nonlinear_arith)
        requires
            n < 0x100_0000 * w,
            n == w * q + r,
            r >= 0,
            w > 0,
    ;
}


/// Rounding looks at the ratio only.
proof fn lemma_scale_nearest(n: nat, d: nat, c: nat)
    requires
        d > 0,
        c > 0,
    ensures
        nearest(n * c, d * c) == nearest(n, d),
{
    lemma_scale_excess(n, d, c);
    let s = excess(n, d);
    let p = power2::pow2(s);
    power2::lemma_pow2_pos(s);
    assert(d * p > 0) by (nonlinear_arith)
        requires
            d > 0,
            p > 0,
    ;
    lemma_scale_half_even(n, d * p, c);
    assert((d * c) * p == (d * p) * c) by (nonlinear_arith);
}

proof fn lemma_scale_excess(n: nat, d: nat, c: nat)
    requires
        d > 0,
        c > 0,
    ensures
        excess(n * c, d * c) == excess(n, d),
        d * c > 0,
    decreases n - d,
{
    assert(d * c > 0) by (nonlinear_arith)
        requires
            d > 0,
            c > 0,
    ;
    assert((d * 0x100_0000) * c == (d * c) * 0x100_0000) by (nonlinear_arith);
    lemma_scale_below(n, d * 0x100_0000, c);
    if n >= d * 0x100_0000 {
        lemma_scale_excess(n, 2 * d, c);
        assert((2 * d) * c == 2 * (d * c)) by (nonlinear_arith);
    }
}

/// Significand and exponent of a finite number.
fn parts(mag: u32) -> (r: (u32, u32))
    requires
        mag < INFINITY,
    ensures
        units(mag as nat) == r.0 * power2::pow2(r.1 as nat),
        r.0 < 0x100_0000,
        r.1 <= 253,
        r.1 > 0 ==> r.0 >= IMPLICIT,
        mag == r.1 * IMPLICIT + r.0,
{
    proof {
        power2::lemma2_to64();
        div_mod::lemma_fundamental_div_mod(mag as int, IMPLICIT as int);
    }
    if mag < IMPLICIT {
        proof {
            mul::lemma_mul_basics(mag as int);
        }
        (mag, 0)
    } else {
        (IMPLICIT + mag % IMPLICIT, mag / IMPLICIT - 1)
    }
}

/// Adding something far smaller than the last place changes nothing.
proof fn lemma_absorbed(m: nat, g: nat, x: nat, sum: nat)
    requires
        IMPLICIT <= m < 0x100_0000,
        g > 0,
        4 * x < power2::pow2(g),
        m * power2::pow2(g) + x == sum || m * power2::pow2(g) - x == sum,
        g * IMPLICIT + m < INFINITY,
    ensures
        nearest(sum, 1) == g * IMPLICIT + m,
{
    let p = power2::pow2(g);
    power2::lemma2_to64();
    power2::lemma_pow2_pos(g);
    power2::lemma_pow2_adds(24, g);
    power2::lemma_pow2_adds(23, g);
    mul::lemma_mul_basics(power2::pow2(24 + g) as int);
    mul::lemma_mul_basics(power2::pow2((23 + g) as nat) as int);
    mul::lemma_mul_basics(p as int);
    assert(0x80_0000 * p <= m * p <= 0xff_ffff * p) by (nonlinear_arith)
        requires
            0x80_0000 <= m <= 0xff_ffff,
            p >= 0,
    ;
    if sum >= 0x80_0000 * p {
        lemma_excess(sum, 1, g);
        if sum == m * p + x {
            div_mod::lemma_fundamental_div_mod_converse(sum as int, p as int, m as int, x as int);
        } else if x > 0 {
            assert((m - 1) * p == m * p - p) by (nonlinear_arith);
            div_mod::lemma_fundamental_div_mod_converse(
                sum as int,
                p as int,
                m - 1,
                p - x,
            );
        }
    } else {
        assert(m == 0x80_0000) by {
            if m > 0x80_0000 {
                assert(m * p >= 0x80_0000 * p + p) by (nonlinear_arith)
                    requires
                        m >= 0x80_0001,
                        p >= 0,
                ;
            }
        }
        let h = power2::pow2((g - 1) as nat);
        power2::lemma_pow2_unfold(g);
        power2::lemma_pow2_adds(23, (g - 1) as nat);
        mul::lemma_mul_basics(power2::pow2((23 + g - 1) as nat) as int);
        mul::lemma_mul_basics(h as int);
        lemma_excess(sum, 1, (g - 1) as nat);
        assert(sum == 0xff_ffff * h + (h - x));
        div_mod::lemma_fundamental_div_mod_converse(
            sum as int,
            h as int,
            0xff_ffff,
            h - x,
        );
    }
}

/// The sign bit, or nothing.
pub open spec fn sign_bit(negative: bool) -> nat {
    if negative {
        SIGN as nat
    } else {
        0
    }
}

impl F32 {
    /// The float nearest to a natural number.
    pub open spec fn of_nat(x: nat) -> F32 {
        F32 { bits: nearest(x * power2::pow2(149), 1) as u32 }
    }

    /// `self + other`.
    pub open spec fn spec_plus(self, other: F32) -> F32 {
        if self.nan() || other.nan() {
            F32 { bits: QUIET }
        } else if self.infinite() {
            if other.infinite() && self.negative() != other.negative() {
                F32 { bits: QUIET }
            } else {
                self
            }
        } else if other.infinite() {
            other
        } else {
            let sum = self.value() + other.value();
            let negative = sum < 0 || (sum == 0 && self.negative() && other.negative());
            let size = if sum < 0 {
                -sum
            } else {
                sum
            };
            F32 { bits: (sign_bit(negative) + nearest(size as nat, 1)) as u32 }
        }
    }

    pub open spec fn spec_negated(self) -> F32 {
        F32 {
            bits: (if self.negative() {
                self.bits - SIGN
            } else {
                self.bits + SIGN
            }) as u32,
        }
    }

    /// `self - other`.
    pub open spec fn spec_minus(self, other: F32) -> F32 {
        self.spec_plus(other.spec_negated())
    }

    /// The root of the number, rounded to the nearest single, is at least `other`: it lies above
    /// the middle between `other` and the next smaller single. No single has its root in the
    /// middle between two others, whose square takes too many places.
    pub open spec fn spec_root_reaches(self, other: F32) -> bool {
        if self.nan() || other.nan() || (self.negative() && self.mag() > 0) {
            false
        } else if other.negative() || other.mag() == 0 || self.infinite() {
            true
        } else if other.infinite() {
            false
        } else {
            let twice = units((other.mag() - 1) as nat) + units(other.mag());
            twice * twice < 4 * units(self.mag()) * power2::pow2(149)
        }
    }

    /// `self * other`.
    pub open spec fn spec_times(self, other: F32) -> F32 {
        let sign = sign_bit(self.negative() != other.negative());
        if self.nan() || other.nan() || (self.infinite() && other.mag() == 0) || (self.mag() == 0
            && other.infinite()) {
            F32 { bits: QUIET }
        } else if self.infinite() || other.infinite() {
            F32 { bits: (sign + INFINITY) as u32 }
        } else {
            F32 {
                bits: (sign + nearest(
                    units(self.mag()) * units(other.mag()),
                    power2::pow2(149),
                )) as u32,
            }
        }
    }

    /// `self / other`.
    pub open spec fn spec_over(self, other: F32) -> F32 {
        let sign = sign_bit(self.negative() != other.negative());
        if self.nan() || other.nan() || (self.infinite() && other.infinite()) || (self.mag() == 0
            && other.mag() == 0) {
            F32 { bits: QUIET }
        } else if self.infinite() || other.mag() == 0 {
            F32 { bits: (sign + INFINITY) as u32 }
        } else if other.infinite() {
            F32 { bits: sign as u32 }
        } else {
            F32 {
                bits: (sign + nearest(
                    units(self.mag()) * power2::pow2(149),
                    units(other.mag()),
                )) as u32,
            }
        }
    }

    /// The larger of two; the other one where one is not a number.
    pub open spec fn spec_larger(self, other: F32) -> F32 {
        if self.nan() || self.spec_lt(other) {
            other
        } else {
            self
        }
    }

    /// Rounded to the nearest integer, halves away from zero, into the range of `u32`.
    pub open spec fn spec_rounded(self) -> nat {
        if self.nan() || self.negative() {
            0
        } else {
            let whole = (2 * units(self.mag()) + power2::pow2(149)) as nat / (2 * power2::pow2(
                149,
            ));
            if whole <= u32::MAX {
                whole
            } else {
                u32::MAX as nat
            }
        }
    }

    fn signed(negative: bool, mag: u32) -> (r: F32)
        requires
            mag < SIGN,
        ensures
            r.bits == sign_bit(negative) + mag,
    {
        if negative {
            F32 { bits: SIGN + mag }
        } else {
            F32 { bits: mag }
        }
    }

    pub fn from_u64(x: u64) -> (r: F32)
        ensures
            r == F32::of_nat(x as nat),
    {
        proof {
            power2::lemma2_to64();
            mul::lemma_mul_basics(1);
        }
        F32 { bits: round(x as u128, 1, 149) }
    }

    pub fn larger(&self, other: &F32) -> (r: F32)
        ensures
            r == self.spec_larger(*other),
    {
        if self.is_nan() || self.less(other) {
            *other
        } else {
            *self
        }
    }

    pub fn times(&self, other: &F32) -> (r: F32)
        ensures
            r == self.spec_times(*other),
    {
        let (a, b): (u32, u32) = (self.magnitude(), other.magnitude());
        let negative = self.is_negative() != other.is_negative();
        if self.is_nan() || other.is_nan() || (a == INFINITY && b == 0) || (a == 0 && b
            == INFINITY) {
            return F32 { bits: QUIET };
        }
        if a == INFINITY || b == INFINITY {
            return F32::signed(negative, INFINITY);
        }
        let (ma, ka): (u32, u32) = parts(a);
        let (mb, kb): (u32, u32) = parts(b);
        let u: i32 = (ka as i32) + (kb as i32) - 149;
        proof {
            assert(ma * mb < 0x1_0000_0000_0000) by (nonlinear_arith)
                requires
                    ma < 0x100_0000,
                    mb < 0x100_0000,
            ;
            power2::lemma2_to64();
            let (pa, pb) = (power2::pow2(ka as nat), power2::pow2(kb as nat));
            power2::lemma_pow2_adds(ka as nat, kb as nat);
            let n = (ma * mb) as nat;
            lemma_common_factor(above(u as int), above(-u), (ka + kb) as nat, 149);
            let c = power2::pow2((ka + kb - above(u as int)) as nat);
            let (x, y) = (power2::pow2(above(u as int)), power2::pow2(above(-u)));
            power2::lemma_pow2_pos(above(-u));
            lemma_scale_nearest(n * x, y, c);
            assert((n * x) * c == units(a as nat) * units(b as nat)) by (nonlinear_arith)
                requires
                    units(a as nat) == ma * pa,
                    units(b as nat) == mb * pb,
                    pa * pb == x * c,
                    n == ma * mb,
            ;
            mul::lemma_mul_basics(y as int);
        }
        F32::signed(negative, round((ma as u128) * (mb as u128), 1, u))
    }

    pub fn over(&self, other: &F32) -> (r: F32)
        ensures
            r == self.spec_over(*other),
    {
        let (a, b): (u32, u32) = (self.magnitude(), other.magnitude());
        let negative = self.is_negative() != other.is_negative();
        if self.is_nan() || other.is_nan() || (a == INFINITY && b == INFINITY) || (a == 0 && b
            == 0) {
            return F32 { bits: QUIET };
        }
        if a == INFINITY || b == 0 {
            return F32::signed(negative, INFINITY);
        }
        if b == INFINITY {
            return F32::signed(negative, 0);
        }
        let (ma, ka): (u32, u32) = parts(a);
        let (mb, kb): (u32, u32) = parts(b);
        let u: i32 = (ka as i32) - (kb as i32) + 149;
        proof {
            let (pa, pb) = (power2::pow2(ka as nat), power2::pow2(kb as nat));
            assert(mb > 0);
            power2::lemma_pow2_adds(ka as nat, 149);
            lemma_common_factor(above(u as int), above(-u), (ka + 149) as nat, kb as nat);
            let c = power2::pow2((ka + 149 - above(u as int)) as nat);
            let (x, y) = (power2::pow2(above(u as int)), power2::pow2(above(-u)));
            power2::lemma_pow2_pos(above(-u));
            assert(mb as nat * y > 0) by (nonlinear_arith)
                requires
                    mb > 0,
                    y > 0,
            ;
            lemma_scale_nearest(ma as nat * x, mb as nat * y, c);
            assert((ma as nat * x) * c == units(a as nat) * power2::pow2(149)) by (nonlinear_arith)
                requires
                    units(a as nat) == ma * pa,
                    pa * power2::pow2(149) == x * c,
            ;
            assert((mb as nat * y) * c == units(b as nat)) by (nonlinear_arith)
                requires
                    units(b as nat) == mb * pb,
                    pb == y * c,
            ;
        }
        F32::signed(negative, round(ma as u128, mb as u128, u))
    }

    /// The sum of two finite numbers, the first with the larger or the same exponent.
    fn plus_smaller(&self, other: &F32) -> (r: F32)
        requires
            self.mag() < INFINITY,
            other.mag() < INFINITY,
            self.mag() >= other.mag(),
        ensures
            r == self.spec_plus(*other),
    {
        let (ma, ka): (u32, u32) = parts(self.magnitude());
        let (mb, kb): (u32, u32) = parts(other.magnitude());
        let ghost (pa, pb) = (power2::pow2(ka as nat), power2::pow2(kb as nat));
        proof {
            lemma_units_order(self.mag(), other.mag());
            power2::lemma2_to64();
            power2::lemma2_to64_rest();
            power2::lemma_pow2_pos(kb as nat);
            mul::lemma_mul_basics(1);
            assert(ka >= kb) by {
                if kb > ka {
                    assert(ka * IMPLICIT + ma < kb * IMPLICIT + mb);
                }
            }
        }
        let gap: u32 = ka - kb;
        if gap > 70 {
            proof {
                power2::lemma_pow2_adds(kb as nat, gap as nat);
                if gap > 71 {
                    power2::lemma_pow2_strictly_increases(71, gap as nat);
                }
                power2::lemma_pow2_adds(26, 45);
                let pg = power2::pow2(gap as nat);
                assert(pg >= 0x400_0000 * 0x2000_0000_0000);
                assert(4 * units(other.mag()) < pa) by (nonlinear_arith)
                    requires
                        units(other.mag()) == mb * pb,
                        pa == pb * pg,
                        mb < 0x100_0000,
                        pg >= 0x400_0000,
                        pb > 0,
                ;
                let sum = self.value() + other.value();
                let size = if sum < 0 {
                    -sum
                } else {
                    sum
                };
                assert(units(self.mag()) >= pa) by (nonlinear_arith)
                    requires
                        units(self.mag()) == ma * pa,
                        ma >= 1,
                        pa >= 0,
                ;
                lemma_absorbed(ma as nat, ka as nat, units(other.mag()), size as nat);
            }
            return *self;
        }
        let p: u128 = power(gap);
        proof {
            power2::lemma_pow2_adds(kb as nat, gap as nat);
            if gap < 70 {
                power2::lemma_pow2_strictly_increases(gap as nat, 70);
            }
            power2::lemma_pow2_adds(60, 10);
            assert(ma * p < 0x100_0000 * 0x40_0000_0000_0000_0000) by (nonlinear_arith)
                requires
                    ma < 0x100_0000,
                    0 < p <= 0x40_0000_0000_0000_0000,
            ;
            assert((ma * p) * pb == units(self.mag())) by (nonlinear_arith)
                requires
                    units(self.mag()) == ma * pa,
                    pa == pb * p,
            ;
            let (x, y) = ((ma * p) as int, mb as int);
            assert(x * pb - y * pb == (x - y) * pb) by (nonlinear_arith);
            assert(x * pb + y * pb == (x + y) * pb) by (nonlinear_arith);
            assert(x >= y) by (nonlinear_arith)
                requires
                    x * pb >= y * pb,
                    pb > 0,
            ;
            assert((x - y) * pb == 0 <==> x == y) by (nonlinear_arith)
                requires
                    pb > 0,
            ;
            assert((x + y) * pb == 0 <==> x + y == 0) by (nonlinear_arith)
                requires
                    pb > 0,
            ;
        }
        let wide: u128 = (ma as u128) * p;
        if self.is_negative() == other.is_negative() {
            F32::signed(self.is_negative(), round(wide + (mb as u128), 1, kb as i32))
        } else {
            let n: u128 = wide - (mb as u128);
            F32::signed(self.is_negative() && n > 0, round(n, 1, kb as i32))
        }
    }

    pub fn plus(&self, other: &F32) -> (r: F32)
        ensures
            r == self.spec_plus(*other),
    {
        let (a, b): (u32, u32) = (self.magnitude(), other.magnitude());
        if self.is_nan() || other.is_nan() {
            return F32 { bits: QUIET };
        }
        if a == INFINITY {
            if b == INFINITY && self.is_negative() != other.is_negative() {
                return F32 { bits: QUIET };
            }
            return *self;
        }
        if b == INFINITY {
            return *other;
        }
        if a >= b {
            self.plus_smaller(other)
        } else {
            other.plus_smaller(self)
        }
    }

    fn negated(&self) -> (r: F32)
        ensures
            r == self.spec_negated(),
    {
        if self.is_negative() {
            F32 { bits: self.bits - SIGN }
        } else {
            F32 { bits: self.bits + SIGN }
        }
    }

    pub fn minus(&self, other: &F32) -> (r: F32)
        ensures
            r == self.spec_minus(*other),
    {
        self.plus(&other.negated())
    }

    pub fn root_reaches(&self, other: &F32) -> (r: bool)
        ensures
            r == self.spec_root_reaches(*other),
    {
        let (a, b): (u32, u32) = (self.magnitude(), other.magnitude());
        if self.is_nan() || other.is_nan() || (self.is_negative() && a > 0) {
            return false;
        }
        if other.is_negative() || b == 0 || a == INFINITY {
            return true;
        }
        if b == INFINITY {
            return false;
        }
        let (x, kx): (u32, u32) = parts(a);
        let (m, k): (u32, u32) = parts(b - 1);
        let (mb, kb): (u32, u32) = parts(b);
        proof {
            assert(kb == k || kb == k + 1) by {
                assert(kb * IMPLICIT + mb == k * IMPLICIT + m + 1);
            }
        }
        let top: u64 = if kb == k {
            mb as u64
        } else {
            2 * (mb as u64)
        };
        let l: u64 = m as u64 + top;
        let ghost p = power2::pow2(k as nat);
        let ghost twice = units((b - 1) as nat) + units(b as nat);
        proof {
            power2::lemma_pow2_unfold((k + 1) as nat);
            assert(twice == l * p) by (nonlinear_arith)
                requires
                    twice == m * p + mb * power2::pow2(kb as nat),
                    l == m + top,
                    (kb == k && top == mb) || (top == 2 * mb && power2::pow2(kb as nat) == 2 * p),
                    kb == k ==> power2::pow2(kb as nat) == p,
            ;
            assert(l * l < 0x400_0000 * 0x400_0000) by (nonlinear_arith)
                requires
                    l < 0x400_0000,
            ;
        }
        if x == 0 {
            proof {
                assert(units(a as nat) == 0) by (nonlinear_arith)
                    requires
                        units(a as nat) == x * power2::pow2(kx as nat),
                        x == 0,
                ;
                assert(twice * twice >= 0) by (nonlinear_arith);
                mul::lemma_mul_basics(power2::pow2(149) as int);
            }
            return false;
        }
        let e: i32 = kx as i32 + 151 - 2 * (k as i32);
        proof {
            let (lo, hi) = (above(-e), above(e as int));
            lemma_common_factor(lo, hi, (2 * k) as nat, (kx + 151) as nat);
            power2::lemma_pow2_adds(k as nat, k as nat);
            power2::lemma_pow2_adds(kx as nat, 151);
            power2::lemma_pow2_adds(2, 149);
            power2::lemma2_to64();
            let c = power2::pow2((2 * k - lo) as nat);
            let (w, u) = (power2::pow2(149), units(a as nat));
            let (pl, ph, px) = (power2::pow2(lo), power2::pow2(hi), power2::pow2(kx as nat));
            assert(twice * twice == (l * l) * pl * c) by (nonlinear_arith)
                requires
                    twice == l * p,
                    p * p == pl * c,
            ;
            assert(4 * u * w == x * ph * c) by (nonlinear_arith)
                requires
                    u == x * px,
                    px * (4 * w) == ph * c,
            ;
            assert(twice * twice < 4 * u * w <==> (l * l) * pl < x * ph) by (nonlinear_arith)
                requires
                    twice * twice == (l * l) * pl * c,
                    4 * u * w == x * ph * c,
                    c > 0,
            ;
        }
        below((l * l) as u128, x as u128, e)
    }

    pub fn rounded(&self) -> (r: u32)
        ensures
            r == self.spec_rounded(),
    {
        if self.is_nan() || self.is_negative() {
            return 0;
        }
        let whole: u128 = self.whole();
        if whole <= 0xffff_ffff {
            whole as u32
        } else {
            0xffff_ffff
        }
    }

    /// The integer part of the size, after adding a half.
    fn whole(&self) -> (r: u128)
        requires
            !self.nan(),
        ensures
            r <= u64::MAX ==> r == (2 * units(self.mag()) + power2::pow2(149)) as nat / (2
                * power2::pow2(149)),
            r > u64::MAX ==> (2 * units(self.mag()) + power2::pow2(149)) as nat / (2
                * power2::pow2(149)) > u64::MAX,
    {
        proof {
            power2::lemma2_to64();
            power2::lemma2_to64_rest();
            power2::lemma_pow2_pos(149);
        }
        let ghost w = power2::pow2(149);
        let a: u32 = self.magnitude();
        if a == INFINITY {
            proof {
                assert(units(a as nat) == IMPLICIT * power2::pow2(254));
                power2::lemma_pow2_adds(105, 149);
                power2::lemma_pow2_adds(60, 45);
                let q = IMPLICIT * power2::pow2(105);
                assert(units(a as nat) == q * w) by (nonlinear_arith)
                    requires
                        units(a as nat) == IMPLICIT * power2::pow2(254),
                        power2::pow2(254) == power2::pow2(105) * w,
                        q == IMPLICIT * power2::pow2(105),
                ;
                assert(2 * units(a as nat) + w == q * (2 * w) + w) by (nonlinear_arith)
                    requires
                        units(a as nat) == q * w,
                ;
                div_mod::lemma_fundamental_div_mod_converse(
                    (2 * units(a as nat) + w) as int,
                    2 * w as int,
                    q,
                    w as int,
                );
            }
            return 0x1_0000_0000_0000_0000_0000;
        }
        let (m, k): (u32, u32) = parts(a);
        let ghost v = units(a as nat);
        if k >= 149 {
            let p: u128 = power(k - 149);
            proof {
                power2::lemma_pow2_adds((k - 149) as nat, 149);
                if k < 253 {
                    power2::lemma_pow2_strictly_increases((k - 149) as nat, 104);
                }
                power2::lemma_pow2_adds(60, 44);
                assert(m * p < 0x100_0000 * 0x100_0000_0000_0000_0000_0000_0000) by (nonlinear_arith)
                    requires
                        m < 0x100_0000,
                        0 < p <= 0x100_0000_0000_0000_0000_0000_0000,
                ;
                let q = (m * p) as int;
                assert(v == q * w) by (nonlinear_arith)
                    requires
                        v == m * power2::pow2(k as nat),
                        power2::pow2(k as nat) == p * w,
                        q == m * p,
                ;
                assert(2 * v + w == q * (2 * w) + w) by (nonlinear_arith)
                    requires
                        v == q * w,
                ;
                div_mod::lemma_fundamental_div_mod_converse((2 * v + w) as int, 2 * w as int, q, w as int);
            }
            (m as u128) * p
        } else {
            let down: u32 = 149 - k;
            if down > 100 {
                proof {
                    power2::lemma_pow2_adds(k as nat, down as nat);
                    if down > 101 {
                        power2::lemma_pow2_strictly_increases(101, down as nat);
                    }
                    power2::lemma_pow2_adds(60, 41);
                    let (pk, pd) = (power2::pow2(k as nat), power2::pow2(down as nat));
                    power2::lemma_pow2_pos(k as nat);
                    assert(2 * v < w) by (nonlinear_arith)
                        requires
                            v == m * pk,
                            w == pk * pd,
                            2 * m < pd,
                            pk > 0,
                    ;
                    div_mod::lemma_fundamental_div_mod_converse(
                        (2 * v + w) as int,
                        2 * w as int,
                        0,
                        (2 * v + w) as int,
                    );
                }
                return 0;
            }
            let p: u128 = power(down);
            proof {
                power2::lemma_pow2_adds(k as nat, down as nat);
                if down < 100 {
                    power2::lemma_pow2_strictly_increases(down as nat, 100);
                }
                power2::lemma_pow2_adds(60, 40);
                let pk = power2::pow2(k as nat);
                power2::lemma_pow2_pos(k as nat);
                let n = 2 * m + p;
                let (q, r) = (n / (2 * p), n % (2 * p));
                div_mod::lemma_fundamental_div_mod(n, 2 * p);
                assert(q * (2 * (pk * p)) + r * pk == n * pk) by (nonlinear_arith)
                    requires
                        n == (2 * p) * q + r,
                ;
                assert(0 <= r * pk < (2 * p) * pk) by (nonlinear_arith)
                    requires
                        0 <= r < 2 * p,
                        pk > 0,
                ;
                assert((2 * p) * pk == 2 * w) by (nonlinear_arith)
                    requires
                        w == pk * p,
                ;
                assert(n * pk == 2 * v + w) by (nonlinear_arith)
                    requires
                        n == 2 * m + p,
                        v == m * pk,
                        w == pk * p,
                ;
                div_mod::lemma_fundamental_div_mod_converse(n * pk, 2 * w as int, q, r * pk);
                assert(q <= n) by (nonlinear_arith)
                    requires
                        n == (2 * p) * q + r,
                        r >= 0,
                        p >= 1,
                        q >= 0,
                ;
                if q > u64::MAX {
                    assert(n >= (2 * p) * q);
                }
            }
            (2 * (m as u128) + p) / (2 * p)
        }
    }
}

proof fn lemma_excess_at_most(n: nat, d: nat, t: nat)
    requires
        d > 0,
        n < d * power2::pow2(24 + t),
    ensures
        excess(n, d) <= t,
        n < d * power2::pow2(24 + excess(n, d)),
    decreases t,
{
    power2::lemma2_to64();
    if n >= d * 0x100_0000 {
        assert(t > 0);
        power2::lemma_pow2_unfold(24 + t);
        let p = power2::pow2((23 + t) as nat);
        assert((2 * d) * p == d * (2 * p)) by (nonlinear_arith);
        lemma_excess_at_most(n, 2 * d, (t - 1) as nat);
        let e = excess(n, 2 * d);
        power2::lemma_pow2_unfold(25 + e);
        let q = power2::pow2(24 + e);
        assert((2 * d) * q == d * (2 * q)) by (nonlinear_arith);
    }
}

/// A positive integer of 64 bits becomes a positive, finite number.
pub proof fn lemma_of_nat_is_finite(x: nat)
    requires
        1 <= x <= u64::MAX,
    ensures
        0 < F32::of_nat(x).mag() < INFINITY,
        !F32::of_nat(x).negative(),
{
    let w = power2::pow2(149);
    let n = x * w;
    power2::lemma2_to64();
    power2::lemma2_to64_rest();
    power2::lemma_pow2_pos(125);
    power2::lemma_pow2_adds(24, 125);
    power2::lemma_pow2_adds(64, 149);
    let v = power2::pow2(125);
    assert(n >= 1 * 0x100_0000) by (nonlinear_arith)
        requires
            n == x * w,
            x >= 1,
            w == 0x100_0000 * v,
            v >= 1,
    ;
    let f = power2::pow2(64);
    assert(n < f * w) by (nonlinear_arith)
        requires
            n == x * w,
            x < f,
            w > 0,
    ;
    lemma_excess_at_most(n, 1, 189);
    lemma_half_even_bound(n, 1, excess(n, 1));
}

/// Nothing becomes zero.
pub proof fn lemma_of_zero()
    ensures
        F32::of_nat(0).bits == 0,
{
    power2::lemma2_to64();
    mul::lemma_mul_basics(power2::pow2(149) as int);
    mul::lemma_mul_basics(1);
}

/// A finite number over a finite number other than zero is a number.
pub proof fn lemma_quotient_is_a_number(a: F32, b: F32)
    requires
        a.mag() < INFINITY,
        0 < b.mag() < INFINITY,
    ensures
        !a.spec_over(b).nan(),
        a.spec_over(b).negative() == (a.negative() != b.negative()),
{
}

/// Nothing at all is nearest to zero.
proof fn lemma_nearest_nothing(d: nat)
    requires
        d > 0,
    ensures
        nearest(0, d) == 0,
{
    assert(0 < d * 0x100_0000);
    power2::lemma2_to64();
    assert(d * power2::pow2(0) == d) by (nonlinear_arith)
        requires
            power2::pow2(0) == 1,
    ;
    div_mod::lemma_div_basics(d as int);
    div_mod::lemma_small_mod(0, d);
}

/// A number less itself is zero; what is infinite or not a number, less itself, is not a number.
pub proof fn less_itself_is_nothing(x: F32)
    ensures
        x.spec_minus(x).bits == 0 || x.spec_minus(x).nan(),
        x.mag() < INFINITY ==> x.spec_minus(x).bits == 0,
{
    let y = x.spec_negated();
    assert(y.mag() == x.mag() && y.negative() != x.negative());
    lemma_nearest_nothing(1);
}

/// Sums and products of zeros are zero, and of what is not a number are not numbers.
pub proof fn nothing_comes_of_nothing(a: F32, b: F32)
    requires
        a.bits == 0 || a.nan(),
        b.bits == 0 || b.nan(),
    ensures
        a.spec_plus(b).bits == 0 || a.spec_plus(b).nan(),
        a.spec_times(b).bits == 0 || a.spec_times(b).nan(),
{
    lemma_nearest_nothing(1);
    power2::lemma_pow2_pos(149);
    lemma_nearest_nothing(power2::pow2(149));
}

/// The root of zero, and of what is not a number, reaches nothing above zero.
pub proof fn nothing_reaches_nothing(a: F32, least: F32)
    requires
        a.bits == 0 || a.nan(),
        (F32 { bits: 0 }).spec_lt(least),
    ensures
        !a.spec_root_reaches(least),
{
    if !a.nan() {
        let twice = units((least.mag() - 1) as nat) + units(least.mag());
        assert(twice * twice >= 0) by (nonlinear_arith);
        mul::lemma_mul_basics(power2::pow2(149) as int);
    }
}

/// The excess is bounded on both sides.
proof fn lemma_excess_bounds(n: nat, d: nat)
    requires
        d > 0,
    ensures
        n < d * power2::pow2(24 + excess(n, d)),
        excess(n, d) > 0 ==> n >= d * power2::pow2((23 + excess(n, d)) as nat),
    decreases n - d,
{
    power2::lemma2_to64();
    if n >= d * 0x100_0000 {
        lemma_excess_bounds(n, 2 * d);
        let e = excess(n, 2 * d);
        power2::lemma_pow2_unfold(25 + e);
        power2::lemma_pow2_unfold(24 + e);
        let (x, y) = (power2::pow2(24 + e), power2::pow2((23 + e) as nat));
        assert((2 * d) * x == d * (2 * x)) by (nonlinear_arith);
        assert((2 * d) * y == d * (2 * y)) by (nonlinear_arith);
    }
}

/// The nearest integer is within a half.
proof fn lemma_half_even_near(n: nat, w: nat)
    requires
        w > 0,
    ensures
        2 * (half_even(n, w) * w) <= 2 * n + w,
        2 * (half_even(n, w) * w) + w >= 2 * n,
        n >= 0x80_0000 * w ==> half_even(n, w) >= 0x80_0000,
{
    let (q, r) = (n / w, n % w);
    div_mod::lemma_fundamental_div_mod(n as int, w as int);
    assert((q + 1) * w == q * w + w) by (nonlinear_arith);
    assert(w * q == q * w) by (nonlinear_arith);
    if n >= 0x80_0000 * w {
        assert(q >= 0x80_0000) by (nonlinear_arith)
            requires
                n >= 0x80_0000 * w,
                n == w * q + r,
                r < w,
                w > 0,
        ;
    }
}

/// What a pattern with this exponent and this significand is worth.
pub proof fn lemma_units_of(s: nat, h: nat)
    requires
        h <= 0x100_0000,
        s > 0 ==> h >= 0x80_0000,
    ensures
        units(s * (IMPLICIT as nat) + h) == h * power2::pow2(s),
{
    let i = IMPLICIT as nat;
    let bits = s * i + h;
    power2::lemma2_to64();
    mul::lemma_mul_basics(h as int);
    if h < i {
        assert(s == 0);
    } else if h < 2 * i {
        assert(bits == (s + 1) * i + (h - i)) by (nonlinear_arith)
            requires
                bits == s * i + h,
        ;
        div_mod::lemma_fundamental_div_mod_converse(bits as int, i as int, (s + 1) as int, h - i);
    } else {
        assert(bits == (s + 2) * i) by (nonlinear_arith)
            requires
                bits == s * i + 2 * i,
        ;
        mul::lemma_mul_is_commutative((s + 2) as int, i as int);
        div_mod::lemma_fundamental_div_mod_converse(bits as int, i as int, (s + 2) as int, 0);
        power2::lemma_pow2_unfold((s + 1) as nat);
        let p = power2::pow2(s);
        assert(i * (2 * p) == (2 * i) * p) by (nonlinear_arith);
    }
}

/// Rounding goes no farther than half a place: `w` is a place, of `d` at least and of a part in two
/// to the 23rd of the number where it is more. Beyond the largest number it only falls short.
#[verifier::spinoff_prover]
#[verifier::rlimit(40)]
proof fn lemma_rounding(n: nat, d: nat) -> (w: nat)
    requires
        d > 0,
    ensures
        w == d || w * 0x80_0000 <= n,
        2 * (units(nearest(n, d)) * d) <= 2 * n + w,
        nearest(n, d) < INFINITY ==> 2 * (units(nearest(n, d)) * d) + w >= 2 * n,
        nearest(n, d) <= INFINITY,
{
    let s = excess(n, d);
    let p = power2::pow2(s);
    let i = IMPLICIT as nat;
    let w = d * p;
    power2::lemma2_to64();
    power2::lemma_pow2_pos(s);
    assert(w > 0) by (nonlinear_arith)
        requires
            w == d * p,
            d > 0,
            p > 0,
    ;
    lemma_excess_bounds(n, d);
    lemma_half_even_near(n, w);
    lemma_half_even_bound(n, d, s);
    let h = half_even(n, w);
    if s == 0 {
        mul::lemma_mul_basics(d as int);
    } else {
        power2::lemma_pow2_adds(23, s);
        assert(n >= 0x80_0000 * w) by (nonlinear_arith)
            requires
                n >= d * power2::pow2((23 + s) as nat),
                power2::pow2((23 + s) as nat) == 0x80_0000 * p,
                w == d * p,
        ;
    }
    lemma_units_of(s, h);
    assert((h * p) * d == h * w) by (nonlinear_arith)
        requires
            w == d * p,
    ;
    let bits = s * i + h;
    if bits >= INFINITY {
        assert(s >= 253) by {
            if s < 253 {
                assert(s * i <= 252 * i) by (nonlinear_arith)
                    requires
                        s <= 252,
                ;
            }
        }
        lemma_units_of(253, 0x100_0000);
        let q = power2::pow2(253);
        if s == 253 {
            assert(h == 0x100_0000);
        } else {
            power2::lemma_pow2_unfold(254);
            if s > 254 {
                power2::lemma_pow2_strictly_increases(254, s);
            }
            assert(h * p >= 0x100_0000 * q) by (nonlinear_arith)
                requires
                    h >= 0x80_0000,
                    p >= 2 * q,
                    q >= 0,
            ;
        }
        let (u, v) = (units(INFINITY as nat), h * p);
        assert(u * d <= v * d) by (nonlinear_arith)
            requires
                u <= v,
                d > 0,
        ;
    }
    w
}

/// What comes of rounding, within a part in 128: of a whole number without, of a fraction with one
/// unit to spare.
#[verifier::spinoff_prover]
#[verifier::rlimit(40)]
pub proof fn rounding_is_close(n: nat, d: nat)
    requires
        d > 0,
    ensures
        128 * (units(nearest(n, d)) * d) <= 129 * n + 128 * d,
        nearest(n, d) < INFINITY ==> 128 * (units(nearest(n, d)) * d) + 128 * d >= 127 * n,
        d == 1 ==> 128 * units(nearest(n, d)) <= 129 * n,
        d == 1 && nearest(n, d) < INFINITY ==> 128 * units(nearest(n, d)) >= 127 * n,
        nearest(n, d) <= INFINITY,
{
    let w = lemma_rounding(n, d);
    mul::lemma_mul_basics(units(nearest(n, d)) as int);
}

/// A larger number is rounded to a number that is no smaller.
#[verifier::spinoff_prover]
#[verifier::rlimit(40)]
pub proof fn rounding_keeps_the_order(a: nat, b: nat, d: nat)
    requires
        d > 0,
        a <= b,
    ensures
        nearest(a, d) <= nearest(b, d),
{
    let (s, t) = (excess(a, d), excess(b, d));
    let i = IMPLICIT as nat;
    lemma_excess_bounds(a, d);
    lemma_excess_bounds(b, d);
    lemma_half_even_bound(a, d, s);
    lemma_half_even_bound(b, d, t);
    power2::lemma2_to64();
    power2::lemma_pow2_pos(s);
    power2::lemma_pow2_pos(t);
    let (x, y) = (d * power2::pow2(s), d * power2::pow2(t));
    assert(x > 0 && y > 0) by (nonlinear_arith)
        requires
            x == d * power2::pow2(s),
            y == d * power2::pow2(t),
            d > 0,
            power2::pow2(s) > 0,
            power2::pow2(t) > 0,
    ;
    if t < s {
        if t + 24 < s + 23 {
            power2::lemma_pow2_strictly_increases((24 + t) as nat, (23 + s) as nat);
        }
        let (p, q) = (power2::pow2((24 + t) as nat), power2::pow2((23 + s) as nat));
        assert(d * p <= d * q) by (nonlinear_arith)
            requires
                p <= q,
        ;
    } else if s == t {
        lemma_half_even_order(a, b, x);
    } else {
        power2::lemma_pow2_adds(23, t);
        let p = power2::pow2(t);
        assert(b >= 0x80_0000 * y) by (nonlinear_arith)
            requires
                b >= d * power2::pow2((23 + t) as nat),
                power2::pow2((23 + t) as nat) == 0x80_0000 * p,
                y == d * p,
        ;
        lemma_half_even_near(b, y);
        assert(t * i >= s * i + i) by (nonlinear_arith)
            requires
                t >= s + 1,
        ;
    }
}

proof fn lemma_half_even_order(a: nat, b: nat, w: nat)
    requires
        w > 0,
        a <= b,
    ensures
        half_even(a, w) <= half_even(b, w),
{
    div_mod::lemma_fundamental_div_mod(a as int, w as int);
    div_mod::lemma_fundamental_div_mod(b as int, w as int);
    div_mod::lemma_div_is_ordered(a as int, b as int, w as int);
}

/// A number that a single can hold is not rounded.
#[verifier::spinoff_prover]
#[verifier::rlimit(40)]
pub proof fn what_fits_is_not_rounded(mag: nat)
    requires
        mag < INFINITY,
    ensures
        nearest(units(mag), 1) == mag,
{
    let i = IMPLICIT as nat;
    let n = units(mag);
    power2::lemma2_to64();
    div_mod::lemma_fundamental_div_mod(mag as int, i as int);
    if mag < i {
        mul::lemma_mul_basics(1);
        assert(excess(n, 1) == 0);
        div_mod::lemma_fundamental_div_mod_converse(n as int, 1, n as int, 0);
    } else {
        let s = (mag / i - 1) as nat;
        let h = i + mag % i;
        let p = power2::pow2(s);
        power2::lemma_pow2_pos(s);
        power2::lemma_pow2_adds(24, s);
        power2::lemma_pow2_adds(23, s);
        assert(0x80_0000 * p <= h * p < 0x100_0000 * p) by (nonlinear_arith)
            requires
                0x80_0000 <= h < 0x100_0000,
                p > 0,
        ;
        mul::lemma_mul_basics(p as int);
        mul::lemma_mul_basics(power2::pow2(24 + s) as int);
        mul::lemma_mul_basics(power2::pow2((23 + s) as nat) as int);
        lemma_excess(n, 1, s);
        mul::lemma_mul_is_commutative(h as int, p as int);
        div_mod::lemma_fundamental_div_mod_converse(n as int, p as int, h as int, 0);
        assert(mag == s * i + h) by (nonlinear_arith)
            requires
                mag == i * (s + 1) + (h - i),
        ;
    }
}

/// The sizes whose squares a single holds in full: from two to the power -60 to two to the power 60.
pub open spec fn squarable(mag: nat) -> bool {
    0x2180_0000 <= mag <= 0x5d80_0000
}

/// Of a square, rounded, the root is what was squared: it is nearer to that than to the singles on
/// either side of it.
#[verifier::spinoff_prover]
#[verifier::rlimit(40)]
proof fn lemma_root_of_square(mag: nat)
    requires
        0x2100_0000 <= mag <= 0x5d80_0000,
    ensures
        ({
            let u = units(mag);
            let w = power2::pow2(149);
            let q = nearest(u * u, w);
            &&& q < INFINITY
            &&& (units((mag - 1) as nat) + u) * (units((mag - 1) as nat) + u) < 4 * units(q) * w
            &&& 4 * units(q) * w <= (u + units(mag + 1)) * (u + units(mag + 1))
        }),
{
    let i = IMPLICIT as nat;
    let w = power2::pow2(149);
    power2::lemma2_to64();
    power2::lemma2_to64_rest();
    div_mod::lemma_fundamental_div_mod(mag as int, i as int);
    let k = (mag / i - 1) as nat;
    let m = (i + mag % i) as nat;
    assert(65 <= k <= 186) by {
        div_mod::lemma_div_is_ordered(0x2100_0000, mag as int, i as int);
        div_mod::lemma_div_is_ordered(mag as int, 0x5d80_0000, i as int);
    }
    let p = power2::pow2(k);
    let pp = power2::pow2(2 * k);
    power2::lemma_pow2_pos(k);
    power2::lemma_pow2_pos(2 * k);
    power2::lemma_pow2_adds(k, k);
    let u = m * p;
    assert(units(mag) == u);
    assert(mag == k * i + m) by (nonlinear_arith)
        requires
            mag == i * (k + 1) + (m - i),
    ;
    assert(0x4000_0000_0000 <= m * m < 0x1_0000_0000_0000) by (nonlinear_arith)
        requires
            0x80_0000 <= m < 0x100_0000,
    ;
    assert(u * u == (m * m) * pp) by (nonlinear_arith)
        requires
            u == m * p,
            pp == p * p,
    ;
    // The place of the square: two to the 23rd, or to the 24th, of what `m * m` counts.
    let t: nat = if m * m < 0x8000_0000_0000 {
        23
    } else {
        24
    };
    let s = (2 * k + t - 149) as nat;
    let ph = power2::pow2(t);
    power2::lemma_pow2_adds(149, s);
    power2::lemma_pow2_adds(2 * k, t);
    assert(w * power2::pow2(s) == pp * ph);
    power2::lemma_pow2_adds((24 + t) as nat, 2 * k);
    power2::lemma_pow2_adds((23 + t) as nat, 2 * k);
    power2::lemma_pow2_adds(149, 24 + s);
    power2::lemma_pow2_adds(149, (23 + s) as nat);
    let (hi, lo) = (power2::pow2((24 + t) as nat), power2::pow2((23 + t) as nat));
    assert(lo <= m * m < hi);
    assert(lo * pp <= (m * m) * pp < hi * pp) by (nonlinear_arith)
        requires
            lo <= m * m < hi,
            pp > 0,
    ;
    lemma_excess(u * u, w, s);
    power2::lemma_pow2_pos(t);
    lemma_scale_half_even(m * m, ph, pp);
    mul::lemma_mul_is_commutative(ph as int, pp as int);
    let h = half_even(m * m, ph);
    assert(h == half_even(u * u, w * power2::pow2(s)));
    lemma_half_even_near(m * m, ph);
    lemma_half_even_bound(u * u, w, s);
    lemma_units_of(s, h);
    let q = nearest(u * u, w);
    assert(s * i + h < INFINITY) by (nonlinear_arith)
        requires
            s <= 247,
            h <= 0x100_0000,
            i == 0x80_0000,
            INFINITY == 0x7f80_0000,
    ;
    assert(units(q) == h * power2::pow2(s));
    let ps = power2::pow2(s);
    let hh = h * ph;
    assert(4 * units(q) * w == (4 * hh) * pp) by (nonlinear_arith)
        requires
            units(q) == h * ps,
            w * ps == pp * ph,
            hh == h * ph,
    ;
    // The next larger single is one place more.
    lemma_units_of(k, (m + 1) as nat);
    let up = units(mag + 1);
    assert(up == (m + 1) * p);
    let b = u + up;
    assert(b * b == ((2 * m + 1) * (2 * m + 1)) * pp) by (nonlinear_arith)
        requires
            b == m * p + (m + 1) * p,
            pp == p * p,
    ;
    assert((2 * m + 1) * (2 * m + 1) == 4 * (m * m) + 4 * m + 1) by (nonlinear_arith);
    if t == 24 {
        assert(m >= 0x80_0001) by {
            if m <= 0x80_0000 {
                assert(m * m <= 0x80_0000 * 0x80_0000) by (nonlinear_arith)
                    requires
                        m <= 0x80_0000,
                ;
            }
        }
    }
    let big = (2 * m + 1) * (2 * m + 1);
    assert((4 * hh) * pp <= big * pp) by (nonlinear_arith)
        requires
            4 * hh <= big,
            pp > 0,
    ;
    // The next smaller one is one place less, or half of one.
    if m > i {
        lemma_units_of(k, (m - 1) as nat);
        let a = u + units((mag - 1) as nat);
        assert(a * a == ((2 * m - 1) * (2 * m - 1)) * pp) by (nonlinear_arith)
            requires
                a == m * p + (m - 1) * p,
                pp == p * p,
        ;
        assert((2 * m - 1) * (2 * m - 1) == 4 * (m * m) - 4 * m + 1) by (nonlinear_arith);
        let small = (2 * m - 1) * (2 * m - 1);
        assert(small * pp < (4 * hh) * pp) by (nonlinear_arith)
            requires
                small < 4 * hh,
                pp > 0,
        ;
    } else {
        let half = power2::pow2((k - 1) as nat);
        power2::lemma_pow2_unfold(k);
        power2::lemma_pow2_pos((k - 1) as nat);
        lemma_units_of((k - 1) as nat, 0xff_ffff);
        assert((k - 1) * i + 0xff_ffff == mag - 1) by (nonlinear_arith)
            requires
                mag == k * i + m,
                m == i,
                i == 0x80_0000,
        ;
        let a = u + units((mag - 1) as nat);
        assert(a * a < (4 * hh) * pp) by (nonlinear_arith)
            requires
                a == 0x80_0000 * (2 * half) + 0xff_ffff * half,
                pp == (2 * half) * (2 * half),
                half > 0,
                hh == 0x80_0000 * 0x80_0000,
        ;
    }
}

/// A number that is not negative is below, or no more than, another where its bits are.
proof fn lemma_mag_order(a: nat, b: nat)
    requires
        a <= b <= INFINITY,
    ensures
        units(a) <= units(b),
{
    if a < b {
        lemma_units_increase(a, b);
    }
}

/// A sum of two numbers that are not negative is neither, and no smaller than either.
#[verifier::spinoff_prover]
#[verifier::rlimit(40)]
pub proof fn a_sum_is_no_smaller(a: F32, b: F32)
    requires
        a.bits <= INFINITY,
        b.bits <= INFINITY,
    ensures
        a.spec_plus(b).bits <= INFINITY,
        a.bits <= a.spec_plus(b).bits,
        b.bits <= a.spec_plus(b).bits,
        a.bits < INFINITY && b.bits < INFINITY ==> a.spec_plus(b).bits == nearest(
            units(a.bits as nat) + units(b.bits as nat),
            1,
        ),
        b.bits == 0 ==> a.spec_plus(b) == a,
        a.bits == 0 ==> a.spec_plus(b) == b,
{
    if a.bits < INFINITY && b.bits < INFINITY {
        let (x, y) = (units(a.bits as nat), units(b.bits as nat));
        what_fits_is_not_rounded(a.bits as nat);
        what_fits_is_not_rounded(b.bits as nat);
        rounding_keeps_the_order(x, x + y, 1);
        rounding_keeps_the_order(y, x + y, 1);
        rounding_is_close(x + y, 1);
    }
}

/// The square of a difference of two finite numbers: by how much they differ, rounded, then
/// squared, then rounded; never negative.
#[verifier::spinoff_prover]
#[verifier::rlimit(40)]
pub proof fn the_square_of_a_difference(a: F32, b: F32)
    requires
        a.mag() < INFINITY,
        b.mag() < INFINITY,
    ensures
        ({
            let x = if a.value() >= b.value() {
                (a.value() - b.value()) as nat
            } else {
                (b.value() - a.value()) as nat
            };
            let d = a.spec_minus(b);
            &&& d.mag() == nearest(x, 1)
            &&& d.mag() <= INFINITY
            &&& d.spec_times(d).bits <= INFINITY
            &&& d.mag() < INFINITY ==> d.spec_times(d).bits == nearest(
                units(d.mag()) * units(d.mag()),
                power2::pow2(149),
            )
            &&& d.mag() == INFINITY ==> d.spec_times(d).bits == INFINITY
            &&& a == b ==> d.spec_times(d).bits == 0
        }),
{
    let n = b.spec_negated();
    assert(n.mag() == b.mag() && n.negative() != b.negative());
    let x = if a.value() >= b.value() {
        (a.value() - b.value()) as nat
    } else {
        (b.value() - a.value()) as nat
    };
    rounding_is_close(x, 1);
    power2::lemma_pow2_pos(149);
    let d = a.spec_minus(b);
    if d.mag() < INFINITY {
        rounding_is_close(units(d.mag()) * units(d.mag()), power2::pow2(149));
    }
    if a == b {
        less_itself_is_nothing(a);
        nothing_comes_of_nothing(d, d);
    }
}

/// A root that reaches a number reaches every smaller one, and a larger number has a root that
/// reaches as far.
#[verifier::spinoff_prover]
#[verifier::rlimit(40)]
pub proof fn reaching_farther_reaches_nearer(a: F32, b: F32, far: F32, near: F32)
    requires
        a.bits <= b.bits <= INFINITY,
        near.bits <= far.bits < INFINITY,
        a.spec_root_reaches(far),
    ensures
        b.spec_root_reaches(near),
{
    if near.bits > 0 && b.bits < INFINITY {
        lemma_mag_order(a.bits as nat, b.bits as nat);
        lemma_mag_order(near.bits as nat, far.bits as nat);
        lemma_mag_order((near.bits - 1) as nat, (far.bits - 1) as nat);
        let x = units((far.bits - 1) as nat) + units(far.bits as nat);
        let y = units((near.bits - 1) as nat) + units(near.bits as nat);
        let (p, q, w) = (units(a.bits as nat), units(b.bits as nat), power2::pow2(149));
        assert(y * y <= x * x) by (nonlinear_arith)
            requires
                0 <= y <= x,
        ;
        assert(4 * p * w <= 4 * q * w) by (nonlinear_arith)
            requires
                p <= q,
                w >= 0,
        ;
    }
}

/// What has a root that reaches a number, as `square` and all that is more have.
proof fn lemma_root_reaches(square: nat, s: nat, least: F32)
    requires
        s <= square <= INFINITY,
        !least.negative(),
        squarable(least.mag()),
        ({
            let twice = units((least.mag() - 1) as nat) + units(least.mag());
            twice * twice < 4 * units(s) * power2::pow2(149)
        }),
    ensures
        (F32 { bits: square as u32 }).spec_root_reaches(least),
{
    let w = power2::pow2(149);
    lemma_mag_order(s, square);
    let (x, y) = (units(s), units(square));
    assert(4 * x * w <= 4 * y * w) by (nonlinear_arith)
        requires
            x <= y,
            w >= 0,
    ;
}

/// What has a root that does not reach a number, as `square` and all that is less have.
proof fn lemma_root_falls_short(square: nat, s: nat, least: F32)
    requires
        square <= s < INFINITY,
        !least.negative(),
        squarable(least.mag()),
        ({
            let twice = units((least.mag() - 1) as nat) + units(least.mag());
            4 * units(s) * power2::pow2(149) <= twice * twice
        }),
    ensures
        !(F32 { bits: square as u32 }).spec_root_reaches(least),
{
    let w = power2::pow2(149);
    lemma_mag_order(square, s);
    let (x, y) = (units(square), units(s));
    assert(4 * x * w <= 4 * y * w) by (nonlinear_arith)
        requires
            x <= y,
            w >= 0,
    ;
}

/// The root of the square of a number is that number: it reaches what is no larger, and nothing
/// else, as long as what is to be reached is squarable.
#[verifier::spinoff_prover]
#[verifier::rlimit(60)]
pub proof fn the_root_of_a_square(size: nat, least: F32)
    requires
        size < INFINITY,
        !least.negative(),
        squarable(least.mag()),
    ensures
        ({
            let square = nearest(units(size) * units(size), power2::pow2(149));
            (F32 { bits: square as u32 }).spec_root_reaches(least) <==> least.mag() <= size
        }),
{
    let w = power2::pow2(149);
    power2::lemma_pow2_pos(149);
    let square = nearest(units(size) * units(size), w);
    rounding_is_close(units(size) * units(size), w);
    if least.mag() <= size {
        let u = units(least.mag());
        lemma_root_of_square(least.mag());
        lemma_mag_order(least.mag(), size);
        assert(u * u <= units(size) * units(size)) by (nonlinear_arith)
            requires
                0 <= u <= units(size),
        ;
        rounding_keeps_the_order(u * u, units(size) * units(size), w);
        lemma_root_reaches(square, nearest(u * u, w), least);
    } else {
        let mag = (least.mag() - 1) as nat;
        let u = units(mag);
        lemma_mag_order(size, mag);
        assert(units(size) * units(size) <= u * u) by (nonlinear_arith)
            requires
                0 <= units(size) <= u,
        ;
        rounding_keeps_the_order(units(size) * units(size), u * u, w);
        lemma_root_of_square(mag);
        lemma_root_falls_short(square, nearest(u * u, w), least);
    }
}

/// The squarable numbers in units, and the one below each; infinity in units.
#[verifier::spinoff_prover]
#[verifier::rlimit(40)]
pub proof fn sizes_of_squarable_numbers(mag: nat)
    requires
        squarable(mag),
    ensures
        power2::pow2(89) <= units(mag) <= power2::pow2(209),
        128 * units((mag - 1) as nat) >= 127 * units(mag),
        units(INFINITY as nat) == power2::pow2(277),
{
    let i = IMPLICIT as nat;
    power2::lemma2_to64();
    what_infinity_is_worth();
    lemma_mag_order(0x2180_0000, mag);
    lemma_mag_order(mag, 0x5d80_0000);
    power2::lemma_pow2_adds(23, 66);
    power2::lemma_pow2_adds(23, 186);
    div_mod::lemma_fundamental_div_mod(mag as int, i as int);
    let k = (mag / i - 1) as nat;
    let m = (i + mag % i) as nat;
    assert(k >= 66) by {
        div_mod::lemma_div_is_ordered(0x2180_0000, mag as int, i as int);
    }
    assert(mag == k * i + m) by (nonlinear_arith)
        requires
            mag == i * (k + 1) + (m - i),
    ;
    let p = power2::pow2(k);
    if m > i {
        lemma_units_of(k, (m - 1) as nat);
        assert(128 * ((m - 1) * p) >= 127 * (m * p)) by (nonlinear_arith)
            requires
                m >= 0x80_0000,
                p >= 0,
        ;
    } else {
        let half = power2::pow2((k - 1) as nat);
        power2::lemma_pow2_unfold(k);
        lemma_units_of((k - 1) as nat, 0xff_ffff);
        assert((k - 1) * i + 0xff_ffff == mag - 1) by (nonlinear_arith)
            requires
                mag == k * i + m,
                m == i,
                i == 0x80_0000,
        ;
        assert(128 * (0xff_ffff * half) >= 127 * (0x80_0000 * (2 * half))) by (nonlinear_arith)
            requires
                half >= 0,
        ;
    }
}

/// Infinity in units, of which every other number has fewer.
pub proof fn what_infinity_is_worth()
    ensures
        units(INFINITY as nat) == power2::pow2(277),
        units(INFINITY as nat) > 0,
{
    power2::lemma2_to64();
    power2::lemma_pow2_adds(23, 254);
    power2::lemma_pow2_pos(277);
}

/// What 24 binary places hold is not rounded.
#[verifier::spinoff_prover]
#[verifier::rlimit(40)]
pub proof fn what_24_places_hold(m: nat, t: nat)
    requires
        m < 0x100_0000,
        t <= 213,
    ensures
        nearest(m * power2::pow2(t), 1) < INFINITY,
        units(nearest(m * power2::pow2(t), 1)) == m * power2::pow2(t),
{
    let i = IMPLICIT as nat;
    let p = power2::pow2(t);
    let n = m * p;
    power2::lemma2_to64();
    power2::lemma_pow2_adds(24, t);
    power2::lemma_pow2_pos(t);
    assert(n < 0x100_0000 * p) by (nonlinear_arith)
        requires
            n == m * p,
            m < 0x100_0000,
            p > 0,
    ;
    mul::lemma_mul_basics(power2::pow2(24 + t) as int);
    lemma_excess_at_most(n, 1, t);
    let s = excess(n, 1);
    let rest = power2::pow2((t - s) as nat);
    power2::lemma_pow2_adds(s, (t - s) as nat);
    power2::lemma_pow2_pos(s);
    let w = power2::pow2(s);
    mul::lemma_mul_basics(w as int);
    let h = m * rest;
    assert(n == h * w) by (nonlinear_arith)
        requires
            n == m * p,
            p == w * rest,
            h == m * rest,
    ;
    div_mod::lemma_fundamental_div_mod_converse(n as int, w as int, h as int, 0);
    assert(half_even(n, 1 * w) == h);
    lemma_excess_bounds(n, 1);
    lemma_half_even_bound(n, 1, s);
    lemma_half_even_near(n, w);
    if s > 0 {
        mul::lemma_mul_basics(power2::pow2((23 + s) as nat) as int);
        power2::lemma_pow2_adds(23, s);
    }
    lemma_units_of(s, h);
    assert(s * i + h < INFINITY) by (nonlinear_arith)
        requires
            s <= 213,
            h <= 0x100_0000,
            i == 0x80_0000,
            INFINITY == 0x7f80_0000,
    ;
    assert(nearest(n, 1) == s * i + h);
}

/// Whole numbers of 24 binary places are held in full.
#[verifier::spinoff_prover]
#[verifier::rlimit(40)]
pub proof fn whole_numbers_are_held(m: nat)
    requires
        m < 0x100_0000,
    ensures
        F32::of_nat(m).mag() < INFINITY,
        !F32::of_nat(m).negative(),
        F32::of_nat(m).value() == m * power2::pow2(149),
{
    what_24_places_hold(m, 149);
}

/// They add up to whole numbers.
#[verifier::spinoff_prover]
#[verifier::rlimit(40)]
pub proof fn whole_numbers_add_up(a: nat, b: nat)
    requires
        a + b < 0x100_0000,
    ensures
        F32::of_nat(a).spec_plus(F32::of_nat(b)) == F32::of_nat(a + b),
{
    let w = power2::pow2(149);
    whole_numbers_are_held(a);
    whole_numbers_are_held(b);
    whole_numbers_are_held(a + b);
    assert(a * w + b * w == (a + b) * w) by (nonlinear_arith);
    assert(a * w >= 0 && b * w >= 0) by (nonlinear_arith);
}

/// Twice a number is that number twice over, unless that is more than a single holds.
#[verifier::spinoff_prover]
#[verifier::rlimit(40)]
pub proof fn twice_is_twice(x: F32)
    requires
        x.mag() + 0x80_0000 < INFINITY,
    ensures
        F32::of_nat(2).spec_times(x).value() == 2 * x.value(),
        x.spec_times(F32::of_nat(2)).value() == 2 * x.value(),
        F32::of_nat(2).spec_times(x).mag() < INFINITY,
        x.spec_times(F32::of_nat(2)).mag() < INFINITY,
{
    let i = IMPLICIT as nat;
    let w = power2::pow2(149);
    power2::lemma_pow2_pos(149);
    whole_numbers_are_held(2);
    let u = units(x.mag());
    let twice = if x.mag() < i {
        2 * x.mag()
    } else {
        x.mag() + i
    };
    assert(units(twice) == 2 * u) by {
        power2::lemma2_to64();
        if x.mag() < i {
            if twice >= i {
                div_mod::lemma_fundamental_div_mod_converse(
                    twice as int,
                    i as int,
                    1,
                    twice - i,
                );
                mul::lemma_mul_basics(twice as int);
            }
        } else {
            let (q, r) = (x.mag() / i, x.mag() % i);
            div_mod::lemma_fundamental_div_mod(x.mag() as int, i as int);
            assert(q >= 1) by (nonlinear_arith)
                requires
                    x.mag() == i * q + r,
                    r < i,
                    x.mag() >= i,
            ;
            assert(i * (q + 1) == i * q + i) by (nonlinear_arith);
            div_mod::lemma_fundamental_div_mod_converse(
                twice as int,
                i as int,
                (q + 1) as int,
                r as int,
            );
            power2::lemma_pow2_unfold(q);
            let p = power2::pow2((q - 1) as nat);
            assert((i + r) * (2 * p) == 2 * ((i + r) * p)) by (nonlinear_arith);
        }
    }
    what_fits_is_not_rounded(twice);
    mul::lemma_mul_basics(w as int);
    lemma_scale_nearest(2 * u, 1, w);
    assert((2 * w) * u == (2 * u) * w) by (nonlinear_arith);
    assert(u * (2 * w) == (2 * u) * w) by (nonlinear_arith);
    lemma_units_order(0, F32::of_nat(2).mag());
}

/// Rounding to a whole number is off by a half at most, and by a half it rounds up.
pub proof fn rounding_is_off_by_half_at_most(x: F32)
    requires
        x.bits <= INFINITY,
        x.value() < 0xffff_ffff * power2::pow2(149),
    ensures
        2 * (x.spec_rounded() * power2::pow2(149)) <= 2 * x.value() + power2::pow2(149),
        2 * (x.spec_rounded() * power2::pow2(149)) + power2::pow2(149) > 2 * x.value(),
{
    let w = power2::pow2(149);
    power2::lemma_pow2_pos(149);
    let n = (2 * units(x.mag()) + w) as nat;
    let q = n / (2 * w);
    div_mod::lemma_fundamental_div_mod(n as int, (2 * w) as int);
    assert(2 * (q * w) == (2 * w) * q) by (nonlinear_arith);
    assert(q <= 0xffff_ffff) by (nonlinear_arith)
        requires
            2 * (q * w) <= n,
            n < 2 * (0xffff_ffff * w) + w,
            w > 0,
    ;
}

/// A whole number over a divisor of it is their quotient.
#[verifier::spinoff_prover]
#[verifier::rlimit(40)]
pub proof fn a_multiple_is_divided(k: nat, n: nat)
    requires
        0 < k <= u64::MAX,
        k * n < 0x100_0000,
    ensures
        F32::of_nat(k * n).spec_over(F32::of_nat(k)) == F32::of_nat(n),
{
    let w = power2::pow2(149);
    power2::lemma2_to64();
    power2::lemma_pow2_pos(149);
    assert(n < 0x100_0000) by (nonlinear_arith)
        requires
            k > 0,
            k * n < 0x100_0000,
            n >= 0,
    ;
    if n == 0 {
        mul::lemma_mul_basics(k as int);
        lemma_of_zero();
        lemma_of_nat_or_more(k);
        mul::lemma_mul_basics(w as int);
        lemma_nearest_nothing(units(F32::of_nat(k).mag()));
    } else {
        assert(k < 0x100_0000) by (nonlinear_arith)
            requires
                n > 0,
                k * n < 0x100_0000,
                k > 0,
        ;
        mul::lemma_mul_basics(k as int);
        mul::lemma_mul_basics(n as int);
        mul::lemma_mul_basics((k * n) as int);
        whole_numbers_are_held(k * n);
        whole_numbers_are_held(k);
        whole_numbers_are_held(n);
        lemma_of_nat_or_more(k);
        let (a, b) = (F32::of_nat(k * n), F32::of_nat(k));
        assert(k * w > 0) by (nonlinear_arith)
            requires
                k > 0,
                w > 0,
        ;
        assert((k * n * w) * w == (n * w) * (k * w)) by (nonlinear_arith);
        mul::lemma_mul_basics((k * w) as int);
        lemma_scale_nearest(n * w, 1, k * w);
        assert(nearest(units(a.mag()) * w, units(b.mag())) == nearest(n * w, 1));
        assert(a.mag() != 0) by {
            assert(k * n * w > 0) by (nonlinear_arith)
                requires
                    k > 0,
                    n > 0,
                    w > 0,
            ;
        }
    }
}

proof fn lemma_of_nat_or_more(k: nat)
    requires
        0 < k <= u64::MAX,
    ensures
        0 < F32::of_nat(k).mag() < INFINITY,
        !F32::of_nat(k).negative(),
        units(F32::of_nat(k).mag()) > 0,
{
    lemma_of_nat_is_finite(k);
    lemma_units_order(0, F32::of_nat(k).mag());
}

/// Zero over anything else is zero.
pub proof fn nothing_over_something(a: F32, b: F32)
    requires
        a.bits == 0,
        0 < b.mag() < INFINITY,
        !b.negative(),
    ensures
        a.spec_over(b).bits == 0,
{
    lemma_units_order(0, b.mag());
    mul::lemma_mul_basics(power2::pow2(149) as int);
    lemma_nearest_nothing(units(b.mag()));
}

/// The single of a whole number that has 24 binary places or fewer, spelled out: its places and
/// its exponent.
#[verifier::spinoff_prover]
#[verifier::rlimit(40)]
pub proof fn a_pattern_is_its_value(places: nat, m: nat, shift: nat, exponent: nat)
    requires
        0x80_0000 <= places < 0x100_0000,
        places == m * power2::pow2(shift),
        shift + exponent == 149,
    ensures
        F32::of_nat(m).bits == exponent * 0x80_0000 + places,
{
    let i = IMPLICIT as nat;
    power2::lemma2_to64();
    power2::lemma_pow2_pos(shift);
    assert(m < 0x100_0000) by (nonlinear_arith)
        requires
            places == m * power2::pow2(shift),
            places < 0x100_0000,
            power2::pow2(shift) > 0,
    ;
    mul::lemma_mul_basics(m as int);
    whole_numbers_are_held(m);
    lemma_units_of(exponent, places);
    power2::lemma_pow2_adds(shift, exponent);
    assert(places * power2::pow2(exponent) == m * power2::pow2(149)) by (nonlinear_arith)
        requires
            places == m * power2::pow2(shift),
            power2::pow2(149) == power2::pow2(shift) * power2::pow2(exponent),
    ;
    let bits = exponent * i + places;
    assert(bits < INFINITY) by (nonlinear_arith)
        requires
            bits == exponent * i + places,
            exponent <= 149,
            places < 0x100_0000,
            i == 0x80_0000,
            INFINITY == 0x7f80_0000,
    ;
    lemma_units_order(bits, F32::of_nat(m).mag());
}

/// A fraction of a whole number is not rounded where 24 binary places hold it.
#[verifier::spinoff_prover]
#[verifier::rlimit(40)]
pub proof fn a_fraction_of_a_whole_number(f: F32, places: nat, exponent: nat, n: nat)
    requires
        f.bits < INFINITY,
        f.value() == places * power2::pow2(exponent),
        exponent <= 149,
        places * n < 0x100_0000,
        n < 0x100_0000,
    ensures
        f.spec_times(F32::of_nat(n)).value() == f.value() * n,
        f.spec_times(F32::of_nat(n)).bits < INFINITY,
{
    let w = power2::pow2(149);
    let p = power2::pow2(exponent);
    power2::lemma_pow2_pos(149);
    whole_numbers_are_held(n);
    what_24_places_hold(places * n, exponent);
    mul::lemma_mul_basics(w as int);
    lemma_scale_nearest((places * n) * p, 1, w);
    assert((places * p) * (n * w) == ((places * n) * p) * w) by (nonlinear_arith);
    assert((places * n) * p == (places * p) * n) by (nonlinear_arith);
}

/// Rounded to whole numbers, a quotient is off by a half at most; of two that are equally near, the
/// even one is taken.
pub proof fn of_two_equally_near_the_even_one(n: nat, d: nat)
    requires
        d > 0,
    ensures
        2 * (half_even(n, d) * d) <= 2 * n + d,
        2 * n <= 2 * (half_even(n, d) * d) + d,
        2 * (half_even(n, d) * d) == 2 * n + d || 2 * (half_even(n, d) * d) + d == 2 * n
            ==> half_even(n, d) % 2 == 0,
{
    let (q, r) = (n / d, n % d);
    div_mod::lemma_fundamental_div_mod(n as int, d as int);
    lemma_half_even_near(n, d);
    assert((q + 1) * d == q * d + d) by (nonlinear_arith);
    assert(d * q == q * d) by (nonlinear_arith);
}

/// Numbers are compared by their values; what is not a number is neither less nor as much, and
/// nothing is less than it.
pub proof fn numbers_are_compared_by_value(a: F32, b: F32)
    ensures
        a.mag() > 0x7f80_0000 || b.mag() > 0x7f80_0000 ==> !a.spec_lt(b) && !a.spec_le(b),
        a.mag() <= 0x7f80_0000 && b.mag() <= 0x7f80_0000 ==> {
            &&& a.spec_lt(b) <==> !b.spec_le(a)
            &&& a.spec_le(b) || b.spec_le(a)
            &&& !a.negative() && !b.negative() ==> (a.spec_lt(b) <==> a.bits < b.bits)
            &&& a.negative() && b.negative() ==> (a.spec_lt(b) <==> b.bits < a.bits)
            &&& a.negative() && !b.negative() && a.mag() > 0 ==> a.spec_lt(b)
        },
{
    if a.mag() <= 0x7f80_0000 && b.mag() <= 0x7f80_0000 {
        lemma_units_order(a.mag(), b.mag());
        lemma_units_order(0, a.mag());
        lemma_units_order(b.mag(), a.mag());
    }
}

/// The larger of two is one of them, and no less than either; where one is not a number it is the
/// other.
pub proof fn the_larger_is_one_of_the_two(a: F32, b: F32)
    ensures
        a.spec_larger(b) == a || a.spec_larger(b) == b,
        !a.nan() && !b.nan() ==> a.spec_larger(b).value() >= a.value() && a.spec_larger(b).value()
            >= b.value(),
        a.nan() ==> a.spec_larger(b) == b,
        !a.nan() && b.nan() ==> a.spec_larger(b) == a,
{
}

/// What comes of infinities and zeros.
pub proof fn what_comes_of_infinities_and_zeros(a: F32, b: F32)
    ensures
        a.nan() || b.nan() ==> a.spec_plus(b).nan() && a.spec_times(b).nan() && a.spec_over(b).nan(),
        a.infinite() && b.infinite() && a.negative() != b.negative() ==> a.spec_plus(b).nan(),
        a.infinite() && b.infinite() ==> a.spec_over(b).nan(),
        a.infinite() && b.mag() == 0 ==> a.spec_times(b).nan(),
        a.mag() == 0 && b.mag() == 0 ==> a.spec_over(b).nan(),
        0 < a.mag() <= 0x7f80_0000 && b.mag() == 0 ==> a.spec_over(b).infinite() && a.spec_over(
            b,
        ).negative() == (a.negative() != b.negative()),
        a.infinite() && b.mag() < 0x7f80_0000 ==> a.spec_plus(b) == a,
        a.mag() < 0x7f80_0000 && b.infinite() ==> a.spec_over(b).mag() == 0 && a.spec_plus(b) == b,
{
}

/// A number of nanoseconds below a second, over a thousand million: the fraction of a second that
/// they are, as far as rounding goes.
#[verifier::spinoff_prover]
#[verifier::rlimit(40)]
pub proof fn nanoseconds_are_a_fraction_of_a_second(rest: nat)
    requires
        1 <= rest < 1_000_000_000,
    ensures
        ({
            let q = F32::of_nat(rest).spec_over(F32::of_nat(1_000_000_000));
            let w = power2::pow2(149);
            &&& q.bits < INFINITY
            &&& 16384 * (1_000_000_000 * q.value()) <= 16770 * (rest * w)
            &&& 16384 * (1_000_000_000 * q.value()) >= 16002 * (rest * w)
        }),
{
    let w = power2::pow2(149);
    let e: nat = 1_000_000_000;
    power2::lemma2_to64();
    power2::lemma2_to64_rest();
    power2::lemma_pow2_adds(9, 149);
    power2::lemma_pow2_adds(64, 85);
    power2::lemma_pow2_pos(85);
    power2::lemma_pow2_pos(149);
    assert(w >= 0x1_0000_0000_0000_0000) by (nonlinear_arith)
        requires
            w == 0x1_0000_0000_0000_0000 * power2::pow2(85),
            power2::pow2(85) >= 1,
    ;
    assert(e * w == 1953125 * power2::pow2(158)) by (nonlinear_arith)
        requires
            power2::pow2(158) == 512 * w,
            e == 1_000_000_000,
    ;
    what_24_places_hold(1953125, 158);
    lemma_of_nat_is_finite(rest);
    lemma_of_nat_is_finite(e);
    let (a, b) = (F32::of_nat(rest), F32::of_nat(e));
    rounding_is_close(rest * w, 1);
    let v = units(a.mag());
    assert(units(b.mag()) == e * w);
    lemma_scale_nearest(v, e, w);
    rounding_is_close(v, e);
    assert(rest * w >= w) by (nonlinear_arith)
        requires
            rest >= 1,
            w >= 0,
    ;
    // Less than two seconds.
    assert(v <= (2 * w) * e) by {
        assert(rest * w <= e * w) by (nonlinear_arith)
            requires
                rest <= e,
                w >= 0,
        ;
        assert((2 * w) * e == 2 * (e * w)) by (nonlinear_arith);
    }
    rounding_keeps_the_order(v, (2 * w) * e, e);
    mul::lemma_mul_basics(e as int);
    lemma_scale_nearest(2 * w, 1, e);
    what_24_places_hold(2, 149);
    let q = nearest(v, e);
    assert(128 * (units(q) * e) <= 130 * v);
    assert(128 * (units(q) * e) >= 126 * v);
}

} // verus!
