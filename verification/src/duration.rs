//! Spans of time, to the nanosecond.
use vstd::arithmetic::{div_mod, power2};
use vstd::prelude::*;

use crate::single::{self, F32};

verus! {

pub const NANOS_PER_SEC: u128 = 1_000_000_000;

pub const NANOS_PER_MILLI: u128 = 1_000_000;

/// A span of time, or a point on the monotonic clock counted from its start.
#[derive(Debug, Clone, Copy, PartialEq, Eq, Structural)]
pub struct Duration {
    pub nanos: u128,
}

impl Duration {
    /// Whole seconds and further nanoseconds. Nanoseconds beyond a second carry over; the seconds
    /// must stay within 64 bits.
    pub fn new(secs: u64, nanos: u32) -> (r: Duration)
        requires
            secs + nanos as int / 1_000_000_000 <= u64::MAX,
        ensures
            r.nanos == secs * 1_000_000_000 + nanos,
    {
        Duration { nanos: (secs as u128) * NANOS_PER_SEC + (nanos as u128) }
    }

    pub fn from_secs(secs: u64) -> (r: Duration)
        ensures
            r.nanos == secs * 1_000_000_000,
    {
        Duration { nanos: (secs as u128) * NANOS_PER_SEC }
    }

    pub fn from_millis(millis: u64) -> (r: Duration)
        ensures
            r.nanos == millis * 1_000_000,
    {
        Duration { nanos: (millis as u128) * NANOS_PER_MILLI }
    }

    pub fn from_nanos(nanos: u64) -> (r: Duration)
        ensures
            r.nanos == nanos,
    {
        Duration { nanos: nanos as u128 }
    }

    /// The time from `earlier` to `self`, zero where `earlier` is later.
    pub fn saturating_sub(&self, earlier: Duration) -> (r: Duration)
        ensures
            r.nanos == if self.nanos >= earlier.nanos {
                self.nanos - earlier.nanos
            } else {
                0
            },
    {
        if self.nanos >= earlier.nanos {
            Duration { nanos: self.nanos - earlier.nanos }
        } else {
            Duration { nanos: 0 }
        }
    }

    /// The span in seconds: the whole seconds and the fraction, each as a single, added up.
    pub open spec fn spec_secs(self) -> F32 {
        F32::of_nat((self.nanos / NANOS_PER_SEC) as nat).spec_plus(
            F32::of_nat((self.nanos % NANOS_PER_SEC) as nat).spec_over(F32::of_nat(1_000_000_000)),
        )
    }

    /// The span in seconds.
    pub fn as_secs_f32(&self) -> (r: F32)
        requires
            self.nanos / NANOS_PER_SEC <= u64::MAX,
        ensures
            r == self.spec_secs(),
    {
        let secs: u64 = (self.nanos / NANOS_PER_SEC) as u64;
        let rest: u64 = (self.nanos % NANOS_PER_SEC) as u64;
        F32::from_u64(secs).plus(&F32::from_u64(rest).over(&F32::from_u64(1_000_000_000)))
    }
}

/// A span of whole seconds is that many seconds.
#[verifier::spinoff_prover]
#[verifier::rlimit(40)]
pub proof fn whole_seconds_are_counted(secs: nat)
    requires
        secs < 0x100_0000,
    ensures
        (Duration { nanos: (secs * 1_000_000_000) as u128 }).spec_secs() == F32::of_nat(secs),
{
    let nanos: u128 = (secs * 1_000_000_000) as u128;
    div_mod::lemma_fundamental_div_mod_converse(
        nanos as int,
        1_000_000_000,
        secs as int,
        0,
    );
    single::lemma_of_nat_is_finite(1_000_000_000);
    single::lemma_of_zero();
    single::nothing_over_something(F32::of_nat(0), F32::of_nat(1_000_000_000));
    if secs > 0 {
        single::lemma_of_nat_is_finite(secs);
    }
    single::a_sum_is_no_smaller(F32::of_nat(secs), F32 { bits: 0 });
}

proof fn lemma_together(secs: int, rest: int, q: int, sum: int)
    requires
        secs >= 0,
        rest >= 0,
        q >= 0,
        16384 * (1_000_000_000 * q) <= 16770 * rest,
        16384 * (1_000_000_000 * q) >= 16002 * rest,
        128 * sum <= 129 * (secs + q),
        128 * sum >= 127 * (secs + q),
    ensures
        24 * (1_000_000_000 * secs + rest) <= 25 * (1_000_000_000 * sum),
        25 * (1_000_000_000 * sum) <= 26 * (1_000_000_000 * secs + rest),
{
}

/// The fraction of a second that is left over, and whole seconds with it, as singles.
#[verifier::spinoff_prover]
#[verifier::rlimit(40)]
proof fn lemma_seconds(secs: nat, q: F32)
    requires
        secs < 0x80_0000,
        q.bits < 0x7f80_0000,
        q.value() <= 2 * power2::pow2(149),
    ensures
        ({
            let sum = F32::of_nat(secs).spec_plus(q);
            let n = secs * power2::pow2(149) + q.value();
            &&& sum.bits < 0x7f80_0000
            &&& 128 * sum.value() <= 129 * n
            &&& 128 * sum.value() >= 127 * n
        }),
{
    let w = power2::pow2(149);
    power2::lemma_pow2_pos(149);
    single::whole_numbers_are_held(secs);
    let a = F32::of_nat(secs);
    let n = single::units(a.mag()) + single::units(q.mag());
    single::a_sum_is_no_smaller(a, q);
    single::rounding_is_close(n, 1);
    assert(secs * w + 2 * w <= 0x80_0001 * w) by (nonlinear_arith)
        requires
            secs + 2 <= 0x80_0001,
            w >= 0,
    ;
    single::what_24_places_hold(0x80_0001, 149);
    single::rounding_keeps_the_order(n, 0x80_0001 * w, 1);
}

/// A span is so many seconds as its nanoseconds come to, within one part in twenty-five.
#[verifier::spinoff_prover]
#[verifier::rlimit(40)]
pub proof fn nanoseconds_come_to_seconds(d: Duration)
    requires
        d.nanos < 0x80_0000 * 1_000_000_000,
    ensures
        d.spec_secs().bits < 0x7f80_0000,
        24 * (d.nanos * power2::pow2(149)) <= 25 * (1_000_000_000 * d.spec_secs().value()),
        25 * (1_000_000_000 * d.spec_secs().value()) <= 26 * (d.nanos * power2::pow2(149)),
{
    let w = power2::pow2(149);
    let secs = (d.nanos / NANOS_PER_SEC) as nat;
    let rest = (d.nanos % NANOS_PER_SEC) as nat;
    let q = F32::of_nat(rest).spec_over(F32::of_nat(1_000_000_000));
    lemma_fraction(rest);
    lemma_seconds(secs, q);
    let (a, r, s) = (secs * w, rest * w, d.spec_secs().value());
    assert(a >= 0 && r >= 0) by (nonlinear_arith)
        requires
            a == secs * w,
            r == rest * w,
    ;
    lemma_together(a as int, r as int, q.value(), s);
    assert(d.nanos * w == 1_000_000_000 * a + r) by (nonlinear_arith)
        requires
            d.nanos == 1_000_000_000 * secs + rest,
            a == secs * w,
            r == rest * w,
    ;
}

#[verifier::spinoff_prover]
#[verifier::rlimit(40)]
proof fn lemma_fraction(rest: nat)
    requires
        rest < 1_000_000_000,
    ensures
        ({
            let q = F32::of_nat(rest).spec_over(F32::of_nat(1_000_000_000));
            let r = rest * power2::pow2(149);
            &&& q.bits < 0x7f80_0000
            &&& 0 <= q.value() <= 2 * power2::pow2(149)
            &&& 16384 * (1_000_000_000 * q.value()) <= 16770 * r
            &&& 16384 * (1_000_000_000 * q.value()) >= 16002 * r
        }),
{
    let w = power2::pow2(149);
    if rest > 0 {
        single::nanoseconds_are_a_fraction_of_a_second(rest);
        assert(rest * w <= 1_000_000_000 * w) by (nonlinear_arith)
            requires
                rest <= 1_000_000_000,
                w >= 0,
        ;
    } else {
        single::lemma_of_zero();
        single::lemma_of_nat_is_finite(1_000_000_000);
        single::nothing_over_something(F32::of_nat(0), F32::of_nat(1_000_000_000));
        assert(rest * w == 0) by (nonlinear_arith)
            requires
                rest == 0,
        ;
    }
}

} // verus!
