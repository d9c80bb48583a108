//! Circuit breaker for provider failover.
//!
//! Tracks consecutive failures per provider and quarantines broken providers
//! to avoid wasting latency on endpoints that are known to be down. State
//! transitions follow the classic circuit-breaker pattern:
//!
//! - **Closed** (healthy): all calls pass through normally.
//! - **Open** (quarantined): calls are rejected immediately; the provider is
//!   skipped in the fallback loop.
//! - **HalfOpen** (probing): a limited number of calls are allowed through to
//!   test recovery. Success resets to Closed; failure reopens the circuit.

use crate::clock::{nanos_between, nanos_of, time_between, Clock};
use std::time::Duration;
use vstd::hash_map::StringHashMap;
use vstd::prelude::*;

verus! {

/// High-level circuit state.
#[derive(Debug, Clone, Copy, PartialEq, Eq, Structural)]
pub enum CircuitState {
    /// Healthy: all calls pass through.
    Closed,
    /// Quarantined: the provider is skipped entirely.
    Open,
    /// Probing: limited calls allowed to test recovery.
    HalfOpen,
}

/// Per-provider bookkeeping.
#[derive(Debug, Clone, Copy)]
pub struct ProviderCircuitState {
    pub state: CircuitState,
    /// Consecutive failure count (reset on success).
    pub consecutive_failures: u32,
    /// When the last failure was recorded, in nanoseconds of the clock.
    pub last_failure_time: Option<u128>,
    /// Number of probe calls still allowed while half-open.
    pub half_open_calls_remaining: u32,
}

impl ProviderCircuitState {
    /// A provider of which nothing is recorded.
    pub open spec fn fresh(half_open_max_calls: u32) -> Self {
        ProviderCircuitState {
            state: CircuitState::Closed,
            consecutive_failures: 0,
            last_failure_time: None,
            half_open_calls_remaining: half_open_max_calls,
        }
    }

    /// A provider of which nothing is recorded.
    pub fn new(half_open_max_calls: u32) -> (entry: Self)
        ensures
            entry == Self::fresh(half_open_max_calls),
    {
        ProviderCircuitState {
            state: CircuitState::Closed,
            consecutive_failures: 0,
            last_failure_time: None,
            half_open_calls_remaining: half_open_max_calls,
        }
    }
}

/// A count that is taken one off, as long as there is any.
pub open spec fn one_less(count: u32) -> u32 {
    if count > 0 {
        (count - 1) as u32
    } else {
        0
    }
}

/// A count that is taken one off, as long as there is any.
fn take_one(count: u32) -> (left: u32)
    ensures
        left == one_less(count),
{
    if count > 0 {
        count - 1
    } else {
        0
    }
}

/// The limits of a breaker.
pub struct Limits {
    /// Failures in a row that open the circuit.
    pub failure_threshold: u32,
    /// Nanoseconds after the last failure before a provider is probed.
    pub recovery: u128,
    /// Probe calls that a circuit lets through between opening and a result.
    pub half_open_max_calls: u32,
}

/// A breaker, as its callers see it: its limits, and what is recorded of each
/// provider.
pub struct BreakerView {
    pub limits: Limits,
    pub providers: Map<Seq<char>, ProviderCircuitState>,
}

impl BreakerView {
    /// What is recorded of a provider, or what would be on first sight of it.
    pub open spec fn entry(self, provider: Seq<char>) -> ProviderCircuitState {
        if self.providers.contains_key(provider) {
            self.providers[provider]
        } else {
            ProviderCircuitState::fresh(self.limits.half_open_max_calls)
        }
    }

    /// The state of a provider; one never seen is `Closed`.
    pub open spec fn state(self, provider: Seq<char>) -> CircuitState {
        self.entry(provider).state
    }

    /// The breaker with `entry` recorded of a provider.
    pub open spec fn with(self, provider: Seq<char>, entry: ProviderCircuitState) -> Self {
        BreakerView { limits: self.limits, providers: self.providers.insert(provider, entry) }
    }

    /// Whether the quarantine of an open circuit is over.
    pub open spec fn recovered(self, entry: ProviderCircuitState, now: u128) -> bool {
        match entry.last_failure_time {
            Some(last) => time_between(last as int, now as int) >= self.limits.recovery,
            None => false,
        }
    }

    /// The record of a provider that is asked for at `now`. A call that is let
    /// through to probe is taken off the budget: off a whole one where the call
    /// turns the circuit half open.
    pub open spec fn asked(self, entry: ProviderCircuitState, now: u128) -> ProviderCircuitState {
        if entry.state == CircuitState::Open && self.recovered(entry, now) {
            ProviderCircuitState {
                state: CircuitState::HalfOpen,
                half_open_calls_remaining: one_less(self.limits.half_open_max_calls),
                ..entry
            }
        } else if entry.state == CircuitState::HalfOpen {
            ProviderCircuitState {
                half_open_calls_remaining: one_less(entry.half_open_calls_remaining),
                ..entry
            }
        } else {
            entry
        }
    }

    /// Whether a provider with this record may be called at `now`.
    pub open spec fn may_call(self, entry: ProviderCircuitState, now: u128) -> bool {
        match entry.state {
            CircuitState::Closed => true,
            CircuitState::Open => entry.last_failure_time is None || self.recovered(entry, now),
            CircuitState::HalfOpen => entry.half_open_calls_remaining > 0,
        }
    }

    /// Whether a provider may be called at `now`.
    pub open spec fn available(self, provider: Seq<char>, now: u128) -> bool {
        self.may_call(self.entry(provider), now)
    }

    /// The breaker after a provider was asked for at `now`.
    pub open spec fn after_asking(self, provider: Seq<char>, now: u128) -> Self {
        self.with(provider, self.asked(self.entry(provider), now))
    }

    /// The breaker after a call of a provider succeeded.
    pub open spec fn after_success(self, provider: Seq<char>) -> Self {
        self.with(provider, ProviderCircuitState::fresh(self.limits.half_open_max_calls))
    }

    /// The record of a provider after a call that failed at `now`.
    pub open spec fn failed(self, entry: ProviderCircuitState, now: u128) -> ProviderCircuitState {
        let failures = (entry.consecutive_failures + 1) as u32;
        ProviderCircuitState {
            state: if entry.state == CircuitState::Closed && failures
                < self.limits.failure_threshold {
                CircuitState::Closed
            } else {
                CircuitState::Open
            },
            consecutive_failures: failures,
            last_failure_time: Some(now),
            half_open_calls_remaining: if entry.state == CircuitState::HalfOpen {
                one_less(entry.half_open_calls_remaining)
            } else {
                entry.half_open_calls_remaining
            },
        }
    }

    /// The breaker after a call of a provider failed at `now`.
    pub open spec fn after_failure(self, provider: Seq<char>, now: u128) -> Self {
        self.with(provider, self.failed(self.entry(provider), now))
    }

    /// A record that the breaker can come to hold.
    pub open spec fn sound_entry(self, entry: ProviderCircuitState) -> bool {
        &&& entry.state == CircuitState::Closed <==> entry.consecutive_failures
            < self.limits.failure_threshold
        &&& entry.consecutive_failures > 0 <==> entry.last_failure_time is Some
        &&& entry.half_open_calls_remaining <= self.limits.half_open_max_calls
        &&& entry.state == CircuitState::Closed ==> entry.half_open_calls_remaining
            == self.limits.half_open_max_calls
    }

    /// Both counts of the limits are at least one, and every record is one that
    /// the breaker can come to hold.
    pub open spec fn sound(self) -> bool {
        &&& self.limits.failure_threshold >= 1
        &&& self.limits.half_open_max_calls >= 1
        &&& forall|p: Seq<char>|
            self.providers.contains_key(p) ==> self.sound_entry(#[trigger] self.providers[p])
    }
}

/// A breaker stays sound when a record that it can come to hold is added.
pub proof fn lemma_with_is_sound(
    breaker: BreakerView,
    provider: Seq<char>,
    entry: ProviderCircuitState,
)
    requires
        breaker.sound(),
        breaker.sound_entry(entry),
    ensures
        breaker.with(provider, entry).sound(),
{
    let next = breaker.with(provider, entry);
    assert forall|p: Seq<char>| next.providers.contains_key(p) implies next.sound_entry(
        #[trigger] next.providers[p],
    ) by {
        if p != provider {
            assert(next.providers[p] == breaker.providers[p]);
        }
    }
}

/// Circuit breaker that tracks per-provider health.
pub struct CircuitBreaker {
    failure_threshold: u32,
    recovery_nanos: u128,
    half_open_max_calls: u32,
    clock: Clock,
    states: StringHashMap<ProviderCircuitState>,
}

impl View for CircuitBreaker {
    type V = BreakerView;

    closed spec fn view(&self) -> BreakerView {
        BreakerView {
            limits: Limits {
                failure_threshold: self.failure_threshold,
                recovery: self.recovery_nanos,
                half_open_max_calls: self.half_open_max_calls,
            },
            providers: self.states@,
        }
    }
}

impl CircuitBreaker {
    /// The clock that the breaker reads.
    pub closed spec fn clock(&self) -> Clock {
        self.clock
    }

    /// Create a new circuit breaker with the given parameters. Both counts are
    /// raised to one where they are zero.
    pub fn new(
        failure_threshold: u32,
        recovery_timeout: Duration,
        half_open_max_calls: u32,
    ) -> (breaker: Self)
        ensures
            breaker@.limits == (Limits {
                failure_threshold: if failure_threshold >= 1 {
                    failure_threshold
                } else {
                    1
                },
                recovery: nanos_of(recovery_timeout),
                half_open_max_calls: if half_open_max_calls >= 1 {
                    half_open_max_calls
                } else {
                    1
                },
            }),
            breaker@.providers == Map::<Seq<char>, ProviderCircuitState>::empty(),
            breaker@.sound(),
            breaker.clock().started(),
    {
        CircuitBreaker {
            failure_threshold: if failure_threshold >= 1 {
                failure_threshold
            } else {
                1
            },
            recovery_nanos: recovery_timeout.as_nanos(),
            half_open_max_calls: if half_open_max_calls >= 1 {
                half_open_max_calls
            } else {
                1
            },
            clock: Clock::start(),
            states: StringHashMap::new(),
        }
    }

    /// What is recorded of a provider, or what would be on first sight of it.
    pub fn entry(&self, provider: &str) -> (entry: ProviderCircuitState)
        ensures
            entry == self@.entry(provider@),
    {
        match self.states.get(provider) {
            Some(entry) => *entry,
            None => ProviderCircuitState::new(self.half_open_max_calls),
        }
    }

    /// Returns `true` when the provider may be called.
    ///
    /// - `Closed`: always available.
    /// - `Open`: available only once the recovery timeout has elapsed
    ///   (transitions to `HalfOpen` on the spot).
    /// - `HalfOpen`: available while probe budget remains.
    ///
    /// A call that is let through while the circuit is not closed takes one probe
    /// off the budget.
    pub fn is_available(&mut self, provider: &str) -> (available: bool)
        ensures
            exists|now: u128|
                old(self).clock().can_read(now) && available == old(self)@.available(provider@, now)
                    && final(self)@ == #[trigger] old(self)@.after_asking(provider@, now),
            final(self).clock() == old(self).clock(),
            old(self)@.sound() ==> final(self)@.sound(),
    {
        let now = self.clock.read();
        self.is_available_at(provider, now)
    }

    /// Returns `true` when the provider may be called at `now`, in nanoseconds
    /// of the clock.
    pub fn is_available_at(&mut self, provider: &str, now: u128) -> (available: bool)
        ensures
            available == old(self)@.available(provider@, now),
            final(self)@ == old(self)@.after_asking(provider@, now),
            final(self).clock() == old(self).clock(),
            old(self)@.sound() ==> final(self)@.sound(),
    {
        let mut entry = self.entry(provider);
        let available = match entry.state {
            CircuitState::Closed => true,
            CircuitState::Open => match entry.last_failure_time {
                Some(last) => {
                    if nanos_between(last, now) >= self.recovery_nanos {
                        entry.state = CircuitState::HalfOpen;
                        entry.half_open_calls_remaining = take_one(self.half_open_max_calls);
                        true
                    } else {
                        false
                    }
                },
                None => true,
            },
            CircuitState::HalfOpen => {
                let left = entry.half_open_calls_remaining;
                entry.half_open_calls_remaining = take_one(left);
                left > 0
            },
        };
        self.states.insert(provider.to_owned(), entry);
        proof {
            if old(self)@.sound() {
                lemma_with_is_sound(old(self)@, provider@, entry);
            }
        }
        available
    }

    /// Record a successful call. Resets circuit to `Closed`.
    pub fn record_success(&mut self, provider: &str)
        ensures
            final(self)@ == old(self)@.after_success(provider@),
            final(self).clock() == old(self).clock(),
            old(self)@.sound() ==> final(self)@.sound(),
    {
        let entry = ProviderCircuitState::new(self.half_open_max_calls);
        self.states.insert(provider.to_owned(), entry);
        proof {
            if old(self)@.sound() {
                lemma_with_is_sound(old(self)@, provider@, entry);
            }
        }
    }

    /// Record a failed call. May transition to `Open` if the failure threshold
    /// is reached, or reopen the circuit if already in `HalfOpen`.
    pub fn record_failure(&mut self, provider: &str)
        requires
            old(self)@.entry(provider@).consecutive_failures < u32::MAX,
        ensures
            exists|now: u128|
                old(self).clock().can_read(now) && final(self)@ == #[trigger] old(
                    self,
                )@.after_failure(provider@, now),
            final(self).clock() == old(self).clock(),
            old(self)@.sound() ==> final(self)@.sound(),
    {
        let now = self.clock.read();
        self.record_failure_at(provider, now);
    }

    /// Record a call that failed at `now`, in nanoseconds of the clock.
    pub fn record_failure_at(&mut self, provider: &str, now: u128)
        requires
            old(self)@.entry(provider@).consecutive_failures < u32::MAX,
        ensures
            final(self)@ == old(self)@.after_failure(provider@, now),
            final(self).clock() == old(self).clock(),
            old(self)@.sound() ==> final(self)@.sound(),
    {
        let mut entry = self.entry(provider);
        entry.consecutive_failures = entry.consecutive_failures + 1;
        entry.last_failure_time = Some(now);
        match entry.state {
            CircuitState::Closed => {
                if entry.consecutive_failures >= self.failure_threshold {
                    entry.state = CircuitState::Open;
                }
            },
            CircuitState::HalfOpen => {
                entry.half_open_calls_remaining = take_one(entry.half_open_calls_remaining);
                // The probe failed: reopen.
                entry.state = CircuitState::Open;
            },
            CircuitState::Open => {},
        }
        self.states.insert(provider.to_owned(), entry);
        proof {
            if old(self)@.sound() {
                lemma_with_is_sound(old(self)@, provider@, entry);
            }
        }
    }

    /// Return the current state for a provider (or `Closed` if unknown).
    pub fn state(&self, provider: &str) -> (state: CircuitState)
        ensures
            state == self@.state(provider@),
    {
        self.entry(provider).state
    }
}

/// Every operation keeps a breaker sound: a circuit is closed exactly while its
/// failures in a row stay below the threshold, the time of the last failure is
/// known as long as there is one, and a closed circuit has its whole probe
/// budget.
pub proof fn law_operations_keep_the_breaker_sound(
    breaker: BreakerView,
    provider: Seq<char>,
    now: u128,
)
    requires
        breaker.sound(),
    ensures
        breaker.after_asking(provider, now).sound(),
        breaker.after_success(provider).sound(),
        breaker.entry(provider).consecutive_failures < u32::MAX ==> breaker.after_failure(
            provider,
            now,
        ).sound(),
{
    let entry = breaker.entry(provider);
    lemma_with_is_sound(breaker, provider, breaker.asked(entry, now));
    lemma_with_is_sound(
        breaker,
        provider,
        ProviderCircuitState::fresh(breaker.limits.half_open_max_calls),
    );
    if entry.consecutive_failures < u32::MAX {
        lemma_with_is_sound(breaker, provider, breaker.failed(entry, now));
    }
}

/// A provider that was never seen is closed, and may be called.
pub proof fn law_unseen_provider_is_available(
    breaker: BreakerView,
    provider: Seq<char>,
    now: u128,
)
    requires
        !breaker.providers.contains_key(provider),
    ensures
        breaker.state(provider) == CircuitState::Closed,
        breaker.available(provider, now),
{
}

/// What is asked or recorded of one provider leaves every other one as it was,
/// and leaves the limits as they were.
pub proof fn law_providers_are_independent(
    breaker: BreakerView,
    provider: Seq<char>,
    other: Seq<char>,
    now: u128,
)
    requires
        provider != other,
    ensures
        breaker.after_asking(provider, now).entry(other) == breaker.entry(other),
        breaker.after_success(provider).entry(other) == breaker.entry(other),
        breaker.after_failure(provider, now).entry(other) == breaker.entry(other),
        breaker.after_asking(provider, now).limits == breaker.limits,
        breaker.after_success(provider).limits == breaker.limits,
        breaker.after_failure(provider, now).limits == breaker.limits,
{
}

/// A recorded success closes the circuit from whatever state, forgets the
/// failures, and leaves the provider available at any time.
pub proof fn law_success_closes_the_circuit(
    breaker: BreakerView,
    provider: Seq<char>,
    now: u128,
)
    ensures
        breaker.after_success(provider).state(provider) == CircuitState::Closed,
        breaker.after_success(provider).entry(provider).consecutive_failures == 0,
        breaker.after_success(provider).available(provider, now),
{
}

impl BreakerView {
    /// The breaker after one call of a provider failed at each of `times`.
    pub open spec fn after_failures(self, provider: Seq<char>, times: Seq<u128>) -> Self
        decreases times.len(),
    {
        if times.len() == 0 {
            self
        } else {
            self.after_failures(provider, times.drop_last()).after_failure(provider, times.last())
        }
    }
}

/// Failures in a row, counted from a provider without any, leave the circuit
/// closed as long as there are fewer of them than the threshold, and open it
/// from the threshold on.
pub proof fn law_circuit_opens_at_the_threshold(
    breaker: BreakerView,
    provider: Seq<char>,
    times: Seq<u128>,
)
    requires
        breaker.sound(),
        breaker.entry(provider).consecutive_failures == 0,
        times.len() <= u32::MAX,
    ensures
        ({
            let after = breaker.after_failures(provider, times);
            &&& after.sound()
            &&& after.limits == breaker.limits
            &&& after.entry(provider).consecutive_failures == times.len()
            &&& after.state(provider) == (if times.len() < breaker.limits.failure_threshold {
                CircuitState::Closed
            } else {
                CircuitState::Open
            })
            &&& times.len() > 0 ==> after.entry(provider).last_failure_time == Some(times.last())
        }),
    decreases times.len(),
{
    if times.len() > 0 {
        law_circuit_opens_at_the_threshold(breaker, provider, times.drop_last());
        let before = breaker.after_failures(provider, times.drop_last());
        law_operations_keep_the_breaker_sound(before, provider, times.last());
    }
}

/// An open circuit rejects calls until the recovery time has passed since the
/// last failure. Asked before, it stays as it is; asked later, it turns half
/// open, and the call may be made as the first of the probes.
pub proof fn law_open_circuit_waits_for_recovery(
    breaker: BreakerView,
    provider: Seq<char>,
    now: u128,
)
    requires
        breaker.sound(),
        breaker.state(provider) == CircuitState::Open,
    ensures
        ({
            let entry = breaker.entry(provider);
            let after = breaker.after_asking(provider, now);
            &&& entry.last_failure_time is Some
            &&& breaker.available(provider, now) <==> time_between(
                entry.last_failure_time->0 as int,
                now as int,
            ) >= breaker.limits.recovery
            &&& !breaker.available(provider, now) ==> after.entry(provider) == entry
            &&& breaker.available(provider, now) ==> after.state(provider)
                == CircuitState::HalfOpen && after.entry(provider).half_open_calls_remaining
                == breaker.limits.half_open_max_calls - 1
        }),
{
}

/// A circuit whose failure was just recorded as open rejects every call made
/// sooner than the recovery time after that failure.
pub proof fn law_quarantine_follows_the_failure(
    breaker: BreakerView,
    provider: Seq<char>,
    failed_at: u128,
    now: u128,
)
    requires
        breaker.after_failure(provider, failed_at).state(provider) == CircuitState::Open,
        time_between(failed_at as int, now as int) < breaker.limits.recovery,
    ensures
        !breaker.after_failure(provider, failed_at).available(provider, now),
        breaker.after_failure(provider, failed_at).after_asking(provider, now).state(provider)
            == CircuitState::Open,
{
}

/// A half-open circuit lets calls through while its probe budget lasts, and
/// takes each off the budget. A failed one reopens the circuit, and a successful
/// one closes it.
pub proof fn law_half_open_circuit_is_decided_by_the_probe(
    breaker: BreakerView,
    provider: Seq<char>,
    now: u128,
)
    requires
        breaker.state(provider) == CircuitState::HalfOpen,
    ensures
        ({
            let left = breaker.entry(provider).half_open_calls_remaining;
            let after = breaker.after_asking(provider, now);
            &&& breaker.available(provider, now) <==> left > 0
            &&& after.state(provider) == CircuitState::HalfOpen
            &&& after.entry(provider).half_open_calls_remaining == one_less(left)
        }),
        breaker.after_failure(provider, now).state(provider) == CircuitState::Open,
        breaker.after_success(provider).state(provider) == CircuitState::Closed,
{
}

impl BreakerView {
    /// The breaker after a provider was asked for at each of `times`.
    pub open spec fn after_asks(self, provider: Seq<char>, times: Seq<u128>) -> Self
        decreases times.len(),
    {
        if times.len() == 0 {
            self
        } else {
            self.after_asks(provider, times.drop_last()).after_asking(provider, times.last())
        }
    }

    /// How many calls are let through where a provider is asked for at each of
    /// `times`.
    pub open spec fn let_through(self, provider: Seq<char>, times: Seq<u128>) -> nat
        decreases times.len(),
    {
        if times.len() == 0 {
            0
        } else {
            self.let_through(provider, times.drop_last()) + if self.after_asks(
                provider,
                times.drop_last(),
            ).available(provider, times.last()) {
                1nat
            } else {
                0nat
            }
        }
    }
}

/// However often a provider whose circuit is not closed is asked for, as long as
/// no result is recorded of it the circuit does not close, and lets at most as
/// many calls through as the probe budget has. A half-open circuit lets exactly
/// as many through as its budget has left, where it is asked that often.
pub proof fn law_probes_are_limited(breaker: BreakerView, provider: Seq<char>, times: Seq<u128>)
    requires
        breaker.sound(),
        breaker.state(provider) != CircuitState::Closed,
    ensures
        ({
            let after = breaker.after_asks(provider, times);
            let passed = breaker.let_through(provider, times);
            let left = breaker.entry(provider).half_open_calls_remaining;
            &&& after.sound()
            &&& after.limits == breaker.limits
            &&& after.state(provider) != CircuitState::Closed
            &&& passed <= breaker.limits.half_open_max_calls
            &&& after.state(provider) == CircuitState::Open ==> passed == 0
            &&& after.state(provider) == CircuitState::HalfOpen && breaker.state(provider)
                == CircuitState::Open ==> passed + after.entry(provider).half_open_calls_remaining
                == breaker.limits.half_open_max_calls
            &&& breaker.state(provider) == CircuitState::HalfOpen ==> {
                &&& after.state(provider) == CircuitState::HalfOpen
                &&& passed + after.entry(provider).half_open_calls_remaining == left
                &&& passed == (if times.len() <= left {
                    times.len()
                } else {
                    left as nat
                })
            }
        }),
    decreases times.len(),
{
    if times.len() > 0 {
        law_probes_are_limited(breaker, provider, times.drop_last());
        let before = breaker.after_asks(provider, times.drop_last());
        law_operations_keep_the_breaker_sound(before, provider, times.last());
    }
}

} // verus!
