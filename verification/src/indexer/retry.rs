use vstd::prelude::*;

use vstd::arithmetic::power::pow;

use crate::indexer::error::SourceError;

verus! {

/// Nanoseconds in a second.
pub const NANOS_PER_SEC: u32 = 1_000_000_000;

/// The longest representable delay, in nanoseconds: `u64::MAX` whole seconds
/// and the largest sub-second part.
pub open spec fn max_delay_nanos() -> nat {
    (u64::MAX as nat) * 1_000_000_000 + 999_999_999
}

/// A span of time: whole seconds and a sub-second part in nanoseconds,
/// covering the same values as `std::time::Duration`.
#[derive(Debug, Clone, Copy, PartialEq, Eq, Structural)]
pub struct Delay {
    secs: u64,
    nanos: u32,
}

impl View for Delay {
    type V = nat;

    /// The length of the delay in nanoseconds.
    closed spec fn view(&self) -> nat {
        (self.secs as nat) * 1_000_000_000 + self.nanos as nat
    }
}

impl Delay {
    #[verifier::type_invariant]
    spec fn well_formed(self) -> bool {
        self.nanos < NANOS_PER_SEC
    }

    /// The delay of `secs` seconds and `subsec_nanos` nanoseconds.
    pub fn new(secs: u64, subsec_nanos: u32) -> (d: Delay)
        requires
            subsec_nanos < NANOS_PER_SEC,
        ensures
            d@ == (secs as nat) * 1_000_000_000 + subsec_nanos as nat,
            d.as_secs_spec() == secs,
            d.subsec_nanos_spec() == subsec_nanos,
    {
        Delay { secs, nanos: subsec_nanos }
    }

    /// No delay at all.
    pub fn zero() -> (d: Delay)
        ensures
            d@ == 0,
    {
        Delay { secs: 0, nanos: 0 }
    }

    /// The delay of `secs` seconds.
    pub fn from_secs(secs: u64) -> (d: Delay)
        ensures
            d@ == (secs as nat) * 1_000_000_000,
    {
        Delay { secs, nanos: 0 }
    }

    /// The delay of `millis` milliseconds.
    pub fn from_millis(millis: u64) -> (d: Delay)
        ensures
            d@ == (millis as nat) * 1_000_000,
    {
        let secs = millis / 1000;
        let rem = millis % 1000;
        let nanos = (rem as u32) * 1_000_000;
        assert((secs as nat) * 1_000_000_000 + nanos as nat == (millis as nat) * 1_000_000)
            by (nonlinear_arith)
            requires
                secs == millis / 1000,
                rem == millis % 1000,
                nanos == rem * 1_000_000,
        ;
        Delay { secs, nanos }
    }

    /// Whole seconds of the delay.
    pub closed spec fn as_secs_spec(self) -> u64 {
        self.secs
    }

    /// Sub-second part of the delay, in nanoseconds.
    pub closed spec fn subsec_nanos_spec(self) -> u32 {
        self.nanos
    }

    /// Whole seconds of the delay.
    pub fn as_secs(&self) -> (r: u64)
        ensures
            r == self.as_secs_spec(),
    {
        self.secs
    }

    /// Sub-second part of the delay, in nanoseconds; below one second.
    pub fn subsec_nanos(&self) -> (r: u32)
        ensures
            r == self.subsec_nanos_spec(),
            r < NANOS_PER_SEC,
            self@ == (self.as_secs_spec() as nat) * 1_000_000_000 + r as nat,
    {
        proof {
            use_type_invariant(self);
        }
        self.nanos
    }

    /// The shorter of two delays.
    pub fn shorter(self, other: Delay) -> (r: Delay)
        ensures
            r@ == if self@ <= other@ {
                self@
            } else {
                other@
            },
    {
        proof {
            use_type_invariant(self);
            use_type_invariant(other);
            lemma_delay_order(self.secs, self.nanos, other.secs, other.nanos);
        }
        if self.secs < other.secs || (self.secs == other.secs && self.nanos <= other.nanos) {
            self
        } else {
            other
        }
    }
}

/// Whole seconds dominate the order of delays.
proof fn lemma_delay_order(s1: u64, n1: u32, s2: u64, n2: u32)
    requires
        n1 < 1_000_000_000,
        n2 < 1_000_000_000,
    ensures
        ((s1 as nat) * 1_000_000_000 + n1 as nat <= (s2 as nat) * 1_000_000_000 + n2 as nat) <==> (s1
            < s2 || (s1 == s2 && n1 <= n2)),
{
    if s1 < s2 {
        assert((s1 as nat) * 1_000_000_000 + 1_000_000_000 <= (s2 as nat) * 1_000_000_000) by (nonlinear_arith)
            requires
                s1 < s2,
        ;
    } else if s1 > s2 {
        assert((s2 as nat) * 1_000_000_000 + 1_000_000_000 <= (s1 as nat) * 1_000_000_000) by (nonlinear_arith)
            requires
                s2 < s1,
        ;
    }
}

/// `Duration::saturating_mul` on the delay: the product, or the longest
/// representable delay if the product exceeds it.
#[verifier::external_body]
fn delay_saturating_mul(d: Delay, k: u32) -> (r: Delay)
    ensures
        r@ == saturating_scale(d@, k as int),
{
    let p = std::time::Duration::new(d.secs, d.nanos).saturating_mul(k);
    Delay { secs: p.as_secs(), nanos: p.subsec_nanos() }
}

/// `u32::saturating_pow`: `base` to the power `exp`, or `u32::MAX` if that
/// exceeds it.
#[verifier::external_body]
fn u32_saturating_pow(base: u32, exp: u32) -> (r: u32)
    ensures
        r == if pow(base as int, exp as nat) > u32::MAX {
            u32::MAX as int
        } else {
            pow(base as int, exp as nat)
        },
{
    base.saturating_pow(exp)
}

/// `2^attempt`, saturated at `u32::MAX`.
pub open spec fn backoff_factor(attempt: u32) -> int {
    if pow(2, attempt as nat) > u32::MAX {
        u32::MAX as int
    } else {
        pow(2, attempt as nat)
    }
}

/// `base * factor` nanoseconds, saturated at the longest representable delay.
pub open spec fn saturating_scale(base: nat, factor: int) -> int {
    if base * factor > max_delay_nanos() {
        max_delay_nanos() as int
    } else {
        base * factor
    }
}

/// How an operation backs off and gives up across transient failures.
#[derive(Debug, Clone, Copy)]
pub struct RetryPolicy {
    /// Extra attempts after the first. `0` disables retrying.
    pub max_retries: u32,
    /// Delay before the first retry; doubles each subsequent attempt.
    pub base_delay: Delay,
    /// Ceiling the exponential delay is clamped to.
    pub max_delay: Delay,
}

impl Default for RetryPolicy {
    fn default() -> (p: Self)
        ensures
            p.max_retries == 5,
            p.base_delay@ == 200_000_000,
            p.max_delay@ == 5_000_000_000,
    {
        RetryPolicy {
            max_retries: 5,
            base_delay: Delay::from_millis(200),
            max_delay: Delay::from_secs(5),
        }
    }
}

/// The backoff before the retry following attempt `attempt`:
/// `base_delay * 2^attempt`, each step saturating, clamped to `max_delay`.
pub open spec fn delay_for_spec(p: RetryPolicy, attempt: u32) -> nat {
    let scaled = saturating_scale(p.base_delay@, backoff_factor(attempt));
    if scaled <= p.max_delay@ {
        scaled as nat
    } else {
        p.max_delay@
    }
}

impl RetryPolicy {
    /// Backoff before the retry following attempt `attempt` (0-based):
    /// `base_delay * 2^attempt`, clamped to `max_delay`. Saturating throughout,
    /// so a large `attempt` can never overflow the multiplication.
    pub fn delay_for(&self, attempt: u32) -> (d: Delay)
        ensures
            d@ == delay_for_spec(*self, attempt),
    {
        let factor = u32_saturating_pow(2, attempt);
        delay_saturating_mul(self.base_delay, factor).shorter(self.max_delay)
    }

    /// What to do after attempt `attempt` (0-based) failed with `err`: wait
    /// the returned delay and try again, or give up (`None`) when the error is
    /// not retryable or the retry budget is spent.
    pub fn next_retry(&self, attempt: u32, err: &SourceError) -> (r: Option<Delay>)
        ensures
            r is Some <==> (err is Rpc && attempt < self.max_retries),
            r matches Some(d) ==> d@ == delay_for_spec(*self, attempt),
    {
        if err.is_retryable() && attempt < self.max_retries {
            Some(self.delay_for(attempt))
        } else {
            None
        }
    }
}

/// Wraps any block source, retrying each call under a [`RetryPolicy`]. Keeps
/// the underlying source free of resilience concerns.
pub struct RetryingSource<S> {
    inner: S,
    policy: RetryPolicy,
}

impl<S> RetryingSource<S> {
    /// Wraps `inner`, retrying its calls under `policy`.
    pub fn new(inner: S, policy: RetryPolicy) -> (r: RetryingSource<S>)
        ensures
            r.inner_spec() == inner,
            r.policy_spec() == policy,
    {
        RetryingSource { inner, policy }
    }

    /// The wrapped source.
    pub closed spec fn inner_spec(&self) -> S {
        self.inner
    }

    /// The retry policy.
    pub closed spec fn policy_spec(&self) -> RetryPolicy {
        self.policy
    }

    /// The wrapped source.
    pub fn inner(&self) -> (r: &S)
        ensures
            *r == self.inner_spec(),
    {
        &self.inner
    }

    /// The retry policy.
    pub fn policy(&self) -> (r: &RetryPolicy)
        ensures
            *r == self.policy_spec(),
    {
        &self.policy
    }
}

/// The backoff never exceeds the policy's ceiling.
pub proof fn law_delay_is_clamped(p: RetryPolicy, attempt: u32)
    ensures
        delay_for_spec(p, attempt) <= p.max_delay@,
{
    vstd::arithmetic::power::lemma_pow_positive(2, attempt as nat);
    let b = p.base_delay@;
    let f = backoff_factor(attempt);
    assert(b * f >= 0) by (nonlinear_arith)
        requires
            f >= 0,
            b >= 0,
    ;
}

/// The backoff never shrinks as attempts go on.
pub proof fn law_delay_grows_with_attempts(p: RetryPolicy, a1: u32, a2: u32)
    requires
        a1 <= a2,
    ensures
        delay_for_spec(p, a1) <= delay_for_spec(p, a2),
{
    vstd::arithmetic::power::lemma_pow_increases(2, a1 as nat, a2 as nat);
    let f1 = backoff_factor(a1);
    let f2 = backoff_factor(a2);
    assert(0 <= f1 <= f2) by {
        vstd::arithmetic::power::lemma_pow_positive(2, a1 as nat);
    }
    let b = p.base_delay@;
    assert(b * f1 <= b * f2) by (nonlinear_arith)
        requires
            0 <= f1 <= f2,
            b >= 0,
    ;
}

/// `2^a` fits the `u32` factor for `a < 32`.
proof fn lemma_factor_exact(a: u32)
    requires
        a < 32,
    ensures
        backoff_factor(a) == pow(2, a as nat),
        pow(2, a as nat) >= 1,
{
    vstd::arithmetic::power2::lemma2_to64();
    vstd::arithmetic::power2::lemma_pow2(a as nat);
    vstd::arithmetic::power2::lemma_pow2(31);
    vstd::arithmetic::power::lemma_pow_positive(2, a as nat);
    vstd::arithmetic::power::lemma_pow_increases(2, a as nat, 31);
}

/// Exponential backoff: the delay before the retry that follows attempt `a`
/// is exactly `base_delay * 2^a` whenever that is within the ceiling, for
/// every attempt whose factor `2^a` fits a `u32` (`a < 32`); so below the
/// ceiling each further attempt waits exactly twice as long as the one
/// before. (`max_delay` is a real delay, at most the longest
/// representable one.)
pub proof fn law_delay_doubles_below_the_ceiling(p: RetryPolicy, a: u32)
    requires
        a < 32,
        p.max_delay@ <= max_delay_nanos(),
    ensures
        p.base_delay@ * pow(2, a as nat) <= p.max_delay@ ==> delay_for_spec(p, a) == p.base_delay@
            * pow(2, a as nat),
        a < 31 && p.base_delay@ * pow(2, (a + 1) as nat) <= p.max_delay@ ==> delay_for_spec(
            p,
            (a + 1) as u32,
        ) == 2 * delay_for_spec(p, a),
{
    lemma_factor_exact(a);
    let b = p.base_delay@;
    if a < 31 {
        lemma_factor_exact((a + 1) as u32);
        vstd::arithmetic::power::lemma_pow_increases(2, a as nat, (a + 1) as nat);
        assert(pow(2, (a + 1) as nat) == 2 * pow(2, a as nat)) by {
            reveal(pow);
        }
        assert(b * pow(2, (a + 1) as nat) == 2 * (b * pow(2, a as nat))) by (nonlinear_arith)
            requires
                pow(2, (a + 1) as nat) == 2 * pow(2, a as nat),
        ;
        assert(b * pow(2, a as nat) <= b * pow(2, (a + 1) as nat)) by (nonlinear_arith)
            requires
                pow(2, a as nat) <= pow(2, (a + 1) as nat),
                b >= 0,
        ;
    }
}

/// The first retry waits exactly the base delay, unless the ceiling is lower.
pub proof fn law_first_retry_waits_base_delay(p: RetryPolicy)
    requires
        p.base_delay@ <= max_delay_nanos(),
    ensures
        delay_for_spec(p, 0) == if p.base_delay@ <= p.max_delay@ {
            p.base_delay@
        } else {
            p.max_delay@
        },
{
    vstd::arithmetic::power::lemma_pow0(2);
    assert(p.base_delay@ * 1 == p.base_delay@);
}

} // verus!
