use vstd::prelude::*;

use vstd::arithmetic::div_mod::lemma_fundamental_div_mod;

use std::time::Duration;

verus! {

/// Nanoseconds in one second.
pub const NANOS_PER_SECOND: u64 = 1_000_000_000;

/// `numerator / denominator` rounded to the nearest integer, ties to even.
pub open spec fn div_round_half_even(numerator: int, denominator: int) -> int {
    let q = numerator / denominator;
    let r = numerator % denominator;
    if 2 * r > denominator || (2 * r == denominator && q % 2 == 1) {
        q + 1
    } else {
        q
    }
}

/// The length of a `std::time::Duration` in nanoseconds.
pub uninterp spec fn duration_nanos(d: Duration) -> nat;

/// `Duration::as_nanos`: the whole duration in nanoseconds.
#[verifier::external_body]
fn nanos_of(d: &Duration) -> (r: u128)
    ensures
        r == duration_nanos(*d),
{
    d.as_nanos()
}

/// `Duration::from_nanos`: a duration of exactly that many nanoseconds.
#[verifier::external_body]
fn duration_from_nanos(nanos: u64) -> (r: Duration)
    ensures
        duration_nanos(r) == nanos,
{
    Duration::from_nanos(nanos)
}

/// Two to the power `n`.
pub open spec fn two_pow(n: nat) -> nat
    decreases n,
{
    if n == 0 {
        1
    } else {
        2 * two_pow((n - 1) as nat)
    }
}

/// The least exponent from `k` up (64 at most) whose power of two reaches
/// `hz`: for `1 <= hz`, `1 / hz` lies in `[2^-k, 2^(1-k))`.
pub open spec fn scale_from(hz: nat, k: nat) -> nat
    decreases 64 - k,
{
    if k >= 64 || hz <= two_pow(k) {
        k
    } else {
        scale_from(hz, k + 1)
    }
}

/// The step in nanoseconds that `Duration::from_secs_f64(1.0 / hz)` gives:
/// the division yields the `f64` nearest to `1 / hz` (a 53-bit significand
/// over `2^(52 + k)`, ties to even), and the conversion rounds its
/// nanoseconds to the nearest integer, ties to even.
pub open spec fn f64_step_nanos(hz: nat) -> int {
    let scale = two_pow(52 + scale_from(hz, 0));
    let significand = div_round_half_even(scale as int, hz as int);
    div_round_half_even(significand * NANOS_PER_SECOND, scale as int)
}

proof fn lemma_two_pow_values()
    ensures
        two_pow(32) == 0x1_0000_0000,
        two_pow(52) == 0x10_0000_0000_0000,
{
    reveal_with_fuel(two_pow, 53);
}

/// At 60 Hz a step lasts 16 666 667 nanoseconds.
proof fn lemma_sixty_hz()
    ensures
        f64_step_nanos(60) == 16_666_667,
{
    reveal_with_fuel(two_pow, 59);
    reveal_with_fuel(scale_from, 8);
    assert(two_pow(6) == 64);
    assert(two_pow(5) == 32);
    assert(scale_from(60, 0) == 6);
    assert(two_pow(58) == 288230376151711744);
    let significand = div_round_half_even(288230376151711744, 60);
    assert(288230376151711744int / 60 == 4803839602528529);
    assert(288230376151711744int % 60 == 4);
    assert(significand == 4803839602528529);
    assert(4803839602528529000000000int / 288230376151711744 == 16666666);
    assert(4803839602528529000000000int % 288230376151711744 == 192153584034474496);
}

/// The rounded reciprocal's significand stays below `2^53`.
proof fn lemma_quotient_below(q: int, d: int, r: int, scale: int, power: int, k: int)
    requires
        d >= 1,
        scale == d * q + r,
        0 <= r < d,
        scale == power * 0x10_0000_0000_0000,
        k > 0 ==> power < 2 * d,
        k == 0 ==> power == 1,
        k >= 0,
        q >= 0,
    ensures
        q < 0x20_0000_0000_0000,
        q + 1 <= 0x20_0000_0000_0000,
{
    assert(d * q <= scale);
    if k == 0 {
        assert(d * q <= 0x10_0000_0000_0000);
        assert(q <= 0x10_0000_0000_0000) by (nonlinear_arith)
            requires
                d >= 1,
                d * q <= 0x10_0000_0000_0000,
                q >= 0,
        ;
    } else {
        assert(q < 0x20_0000_0000_0000) by (nonlinear_arith)
            requires
                d >= 1,
                d * q <= power * 0x10_0000_0000_0000,
                power < 2 * d,
                q >= 0,
        ;
    }
}

/// The nanoseconds before rounding stay within two seconds.
proof fn lemma_step_below(q: int, scale: int, r: int, product: int)
    requires
        scale >= 0x10_0000_0000_0000,
        product == scale * q + r,
        0 <= r < scale,
        0 <= product <= 0x20_0000_0000_0000 * 1_000_000_000,
        q >= 0,
    ensures
        q <= 2_000_000_000,
{
    assert(q <= 2_000_000_000) by (nonlinear_arith)
        requires
            scale >= 0x10_0000_0000_0000,
            scale * q <= 0x20_0000_0000_0000 * 1_000_000_000,
            q >= 0,
    ;
}

/// Deterministic time associated with the fixed-update schedule.
#[derive(Clone, Copy, Debug, PartialEq, Eq, Structural)]
pub struct FixedTime {
    delta_nanos: u64,
    tick: u64,
}

impl FixedTime {
    pub closed spec fn spec_delta_nanos(self) -> u64 {
        self.delta_nanos
    }

    pub closed spec fn spec_tick(self) -> u64 {
        self.tick
    }

    /// Creates a fixed clock with the given update frequency. One step lasts
    /// the `f64` reciprocal of the frequency converted to nanoseconds, as
    /// `f64_step_nanos` says; a frequency whose step rounds to zero is
    /// refused.
    pub fn from_hz(updates_per_second: u32) -> (t: Self)
        requires
            updates_per_second > 0,
            f64_step_nanos(updates_per_second as nat) > 0,
        ensures
            t.spec_delta_nanos() == f64_step_nanos(updates_per_second as nat),
            t.spec_tick() == 0,
    {
        let hz = updates_per_second as u64;
        let mut k: u64 = 0;
        let mut power: u64 = 1;
        let mut scale: u128 = 0x10_0000_0000_0000;
        proof {
            lemma_two_pow_values();
        }
        while k < 32 && power < hz
            invariant
                hz == updates_per_second as u64,
                1 <= hz <= u32::MAX,
                k <= 32,
                power == two_pow(k as nat),
                scale == two_pow(52 + k as nat),
                scale == power * 0x10_0000_0000_0000,
                1 <= power <= 0x2_0000_0000,
                k > 0 ==> power < 2 * hz,
                scale_from(hz as nat, 0) == scale_from(hz as nat, k as nat),
            decreases 32 - k,
        {
            proof {
                assert(two_pow(k as nat + 1) == 2 * two_pow(k as nat));
                assert(two_pow(52 + k as nat + 1) == 2 * two_pow(52 + k as nat));
            }
            power = power * 2;
            scale = scale * 2;
            k = k + 1;
        }
        proof {
            if k == 32 {
                assert(power == two_pow(32));
            }
            assert(hz <= power);
            assert(scale_from(hz as nat, k as nat) == k);
        }
        let divisor = hz as u128;
        let q = scale / divisor;
        let r = scale % divisor;
        proof {
            lemma_fundamental_div_mod(scale as int, divisor as int);
            lemma_quotient_below(q as int, divisor as int, r as int, scale as int, power as int, k as int);
        }
        let significand: u128 = if 2 * r > divisor || (2 * r == divisor && q % 2 == 1) {
            q + 1
        } else {
            q
        };
        let product: u128 = significand * 1_000_000_000;
        let q2 = product / scale;
        let r2 = product % scale;
        proof {
            lemma_fundamental_div_mod(product as int, scale as int);
            lemma_step_below(q2 as int, scale as int, r2 as int, product as int);
        }
        let nanos: u128 = if 2 * r2 > scale || (2 * r2 == scale && q2 % 2 == 1) {
            q2 + 1
        } else {
            q2
        };
        Self::from_nanos(nanos as u64)
    }

    /// Creates a fixed clock with an explicit step duration in nanoseconds.
    pub fn from_nanos(delta_nanos: u64) -> (t: Self)
        requires
            delta_nanos > 0,
        ensures
            t.spec_delta_nanos() == delta_nanos,
            t.spec_tick() == 0,
    {
        Self { delta_nanos, tick: 0 }
    }

    /// Creates a fixed clock with an explicit step duration, which must be
    /// non-zero. The clock counts in nanoseconds, so the step must also fit
    /// in `u64` nanoseconds (about 584 years).
    pub fn from_duration(delta: Duration) -> (t: Self)
        requires
            0 < duration_nanos(delta) <= u64::MAX,
        ensures
            t.spec_delta_nanos() == duration_nanos(delta),
            t.spec_tick() == 0,
    {
        let nanos = nanos_of(&delta);
        Self::from_nanos(nanos as u64)
    }

    /// A fixed clock with the given step, or `None` when the step is zero or
    /// does not fit in `u64` nanoseconds.
    pub fn try_from_duration(delta: Duration) -> (r: Option<Self>)
        ensures
            r is Some <==> 0 < duration_nanos(delta) <= u64::MAX,
            r matches Some(t) ==> t.spec_delta_nanos() == duration_nanos(delta) && t.spec_tick() == 0,
    {
        let nanos = nanos_of(&delta);
        if nanos == 0 || nanos > u64::MAX as u128 {
            None
        } else {
            Some(Self::from_duration(delta))
        }
    }

    /// The duration of one fixed update.
    pub fn delta(self) -> (r: Duration)
        ensures
            duration_nanos(r) == self.spec_delta_nanos(),
    {
        duration_from_nanos(self.delta_nanos)
    }

    /// The 60 Hz clock used by default.
    pub fn default_clock() -> (t: Self)
        ensures
            t.spec_delta_nanos() == 16_666_667,
            t.spec_tick() == 0,
    {
        proof {
            lemma_sixty_hz();
        }
        Self::from_hz(60)
    }

    /// Returns the duration of one fixed update, in nanoseconds.
    pub fn delta_nanos(self) -> (r: u64)
        ensures
            r == self.spec_delta_nanos(),
    {
        self.delta_nanos
    }

    /// Returns the number of completed fixed updates.
    pub fn tick(self) -> (r: u64)
        ensures
            r == self.spec_tick(),
    {
        self.tick
    }

    /// Counts one more completed fixed update.
    pub fn complete_tick(&mut self)
        requires
            old(self).spec_tick() < u64::MAX,
        ensures
            final(self).spec_tick() == old(self).spec_tick() + 1,
            final(self).spec_delta_nanos() == old(self).spec_delta_nanos(),
    {
        self.tick = self.tick + 1;
    }
}

} // verus!
