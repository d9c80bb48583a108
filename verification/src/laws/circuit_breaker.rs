//! What a circuit breaker makes of asks and results, one after the other.

use crate::circuit_breaker::{law_operations_keep_the_breaker_sound, BreakerView, CircuitState,
    ProviderCircuitState};
use crate::clock::time_between;
use vstd::prelude::*;

verus! {

/// The time between two readings is the one added to the earlier to give the
/// later, and none where the later comes first.
pub proof fn law_time_between_readings(earlier: int, later: int)
    ensures
        earlier <= later ==> earlier + time_between(earlier, later) == later,
        earlier >= later ==> time_between(earlier, later) == 0,
{
}

/// Asking for a provider whose circuit is closed lets the call through, and leaves
/// the record of the provider as it was.
pub proof fn law_asking_a_closed_circuit_changes_nothing(
    breaker: BreakerView,
    provider: Seq<char>,
    now: u128,
)
    requires
        breaker.entry(provider).state == CircuitState::Closed,
    ensures
        breaker.available(provider, now),
        breaker.after_asking(provider, now).entry(provider) == breaker.entry(provider),
{
}

/// A provider that nothing was recorded of has no failures and its whole probe
/// budget.
pub proof fn law_unseen_provider_has_no_failures(breaker: BreakerView, provider: Seq<char>)
    requires
        !breaker.providers.contains_key(provider),
    ensures
        breaker.entry(provider).state == CircuitState::Closed,
        breaker.entry(provider).consecutive_failures == 0,
        breaker.entry(provider).last_failure_time is None,
        breaker.entry(provider).half_open_calls_remaining == breaker.limits.half_open_max_calls,
{
}

/// Asking for a provider never touches its failures, in whatever state it is.
pub proof fn law_asking_keeps_the_failures(breaker: BreakerView, provider: Seq<char>, now: u128)
    ensures
        ({
            let before = breaker.entry(provider);
            let after = breaker.after_asking(provider, now).entry(provider);
            &&& after.consecutive_failures == before.consecutive_failures
            &&& after.last_failure_time == before.last_failure_time
            &&& before.state == CircuitState::Closed <==> after.state == CircuitState::Closed
            &&& before.state == CircuitState::HalfOpen ==> after.state == CircuitState::HalfOpen
        }),
{
}

/// A failure adds one to the failures in a row and is the last one from then on,
/// in whatever state the circuit is. It leaves a circuit that is not closed open.
pub proof fn law_each_failure_counts(breaker: BreakerView, provider: Seq<char>, now: u128)
    requires
        breaker.entry(provider).consecutive_failures < u32::MAX,
    ensures
        ({
            let before = breaker.entry(provider);
            let after = breaker.after_failure(provider, now).entry(provider);
            &&& after.consecutive_failures == before.consecutive_failures + 1
            &&& after.last_failure_time == Some(now)
            &&& before.state != CircuitState::Closed ==> after.state == CircuitState::Open
            &&& before.state == CircuitState::Closed ==> (after.state == CircuitState::Open <==>
                before.consecutive_failures + 1 >= breaker.limits.failure_threshold)
            &&& after.state != CircuitState::HalfOpen
        }),
{
}

/// A success leaves nothing of what was recorded before.
pub proof fn law_success_forgets_the_past(
    breaker: BreakerView,
    other: BreakerView,
    provider: Seq<char>,
)
    requires
        breaker.limits == other.limits,
    ensures
        breaker.after_success(provider).entry(provider) == other.after_success(provider).entry(
            provider,
        ),
        breaker.after_success(provider).entry(provider) == (ProviderCircuitState {
            state: CircuitState::Closed,
            consecutive_failures: 0,
            last_failure_time: None,
            half_open_calls_remaining: breaker.limits.half_open_max_calls,
        }),
{
}

/// An open circuit lets a call through exactly from the recovery time after the
/// last failure on, and turns half open exactly then.
pub proof fn law_open_circuit_recovers_in_time(
    breaker: BreakerView,
    provider: Seq<char>,
    failed_at: u128,
    now: u128,
)
    requires
        breaker.entry(provider).state == CircuitState::Open,
        breaker.entry(provider).last_failure_time == Some(failed_at),
        failed_at <= now,
    ensures
        breaker.available(provider, now) <==> now >= failed_at + breaker.limits.recovery,
        breaker.after_asking(provider, now).entry(provider).state == CircuitState::HalfOpen <==> now
            >= failed_at + breaker.limits.recovery,
{
}

/// What happens to a provider without a success.
pub enum Happening {
    Asked { now: u128 },
    Failed { now: u128 },
}

/// The breaker after some happenings, in order.
pub open spec fn after_happenings(
    breaker: BreakerView,
    provider: Seq<char>,
    happenings: Seq<Happening>,
) -> BreakerView
    decreases happenings.len(),
{
    if happenings.len() == 0 {
        breaker
    } else {
        let before = after_happenings(breaker, provider, happenings.drop_last());
        match happenings.last() {
            Happening::Asked { now } => before.after_asking(provider, now),
            Happening::Failed { now } => before.after_failure(provider, now),
        }
    }
}

/// Failures in a row, counted from a provider without any, open the circuit at the
/// threshold, however often the provider is asked for in between. Until a success
/// is recorded the circuit does not close again, and all failures count.
pub proof fn law_failures_open_the_circuit_between_asks(
    breaker: BreakerView,
    provider: Seq<char>,
    happenings: Seq<Happening>,
)
    requires
        breaker.sound(),
        breaker.entry(provider).consecutive_failures == 0,
        happenings.len() <= u32::MAX,
    ensures
        ({
            let after = after_happenings(breaker, provider, happenings);
            let failures = happenings.filter(|h: Happening| h is Failed).len();
            &&& after.sound()
            &&& after.limits == breaker.limits
            &&& failures <= happenings.len()
            &&& after.entry(provider).consecutive_failures == failures
            &&& after.entry(provider).state == CircuitState::Closed <==> failures
                < breaker.limits.failure_threshold
            &&& happenings.len() > 0 ==> (happenings.last() matches Happening::Failed { now } ==>
                after.entry(provider).last_failure_time == Some(now) && after.entry(provider).state
                != CircuitState::HalfOpen)
        }),
    decreases happenings.len(),
{
    reveal_with_fuel(Seq::filter, 2);
    if happenings.len() > 0 {
        let prev = happenings.drop_last();
        law_failures_open_the_circuit_between_asks(breaker, provider, prev);
        let before = after_happenings(breaker, provider, prev);
        match happenings.last() {
            Happening::Asked { now } => {
                law_operations_keep_the_breaker_sound(before, provider, now);
            },
            Happening::Failed { now } => {
                law_operations_keep_the_breaker_sound(before, provider, now);
            },
        }
    }
}

} // verus!
