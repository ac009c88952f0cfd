//! Retry timing: an exponential ceiling with full jitter, and the clock. Spans of time are in
//! milliseconds.

use rand::Rng;
use vstd::arithmetic::power2::{lemma2_to64, pow2};
use vstd::prelude::*;

verus! {

/// Backoff floor after a transient failure. Shared by the outbound delivery and the inbound
/// staging, so the two retry loops cannot drift.
pub const BACKOFF_BASE: u64 = 1_000;

/// Backoff ceiling. The exponential sequence (1, 2, 4, 8, … s) is clamped here.
pub const BACKOFF_CAP: u64 = 900_000;

/// Upper bound on the random delay that a destination present at startup waits before its
/// first drain.
pub const STARTUP_JITTER_MAX: u64 = 30_000;

/// Twice a number, but no more than the backoff ceiling.
pub open spec fn doubled(millis: int) -> int {
    if 2 * millis <= BACKOFF_CAP {
        2 * millis
    } else {
        BACKOFF_CAP as int
    }
}

/// Double the backoff ceiling, clamped at [`BACKOFF_CAP`].
pub fn next_backoff(current: u64) -> (next: u64)
    ensures
        next == doubled(current as int),
{
    if current <= BACKOFF_CAP / 2 {
        current * 2
    } else {
        BACKOFF_CAP
    }
}

/// The ceiling after some failures in a row, from the floor.
pub open spec fn ceiling_after(failures: nat) -> int
    decreases failures,
{
    if failures == 0 {
        BACKOFF_BASE as int
    } else {
        doubled(ceiling_after((failures - 1) as nat))
    }
}

/// The ceiling after `n` failures is `2^n` seconds, clamped at [`BACKOFF_CAP`].
pub proof fn ceiling_is_power_of_two(n: nat)
    ensures
        ceiling_after(n) == if 1000 * pow2(n) <= BACKOFF_CAP {
            1000 * pow2(n) as int
        } else {
            BACKOFF_CAP as int
        },
    decreases n,
{
    if n == 0 {
        lemma2_to64();
    } else {
        ceiling_is_power_of_two((n - 1) as nat);
        vstd::arithmetic::power2::lemma_pow2_unfold(n);
    }
}

/// A wait that ran its course doubles the next, up to a quarter of an hour; a kick brings it back
/// to one second.
pub proof fn wait_doubles(ceiling: int)
    requires
        1_000 <= ceiling <= 900_000,
    ensures
        ceiling_after_wait(ceiling, true) == 1_000,
        ceiling <= 450_000 ==> ceiling_after_wait(ceiling, false) == ceiling + ceiling,
        ceiling > 450_000 ==> ceiling_after_wait(ceiling, false) == 900_000,
        ceiling_after(0) == 1_000,
{
}

/// Only the destinations of the first round wait, and then for as long as was drawn.
pub proof fn only_the_first_round_waits(drawn: u64)
    ensures
        delayed(true, drawn) == drawn,
        delayed(false, drawn) == 0,
{
}

/// A timestamp is what the clock shows, wherever that fits; a clock before the epoch shows 0.
pub proof fn timestamp_is_the_clock(ms: u128)
    ensures
        ms <= u64::MAX ==> timestamp_of(Some(ms)) == ms,
        timestamp_of(None) == 0,
{
}

/// The ceiling never leaves the span from the floor to the cap, and never falls.
pub proof fn ceiling_is_bounded(n: nat)
    ensures
        BACKOFF_BASE <= ceiling_after(n) <= BACKOFF_CAP,
        ceiling_after(n) <= ceiling_after(n + 1),
    decreases n,
{
    if n > 0 {
        ceiling_is_bounded((n - 1) as nat);
    }
}

/// `rand`'s thread-local generator, asked for a number in `0..=max`. Which one is left to chance.
#[verifier::external_body]
fn random_up_to(max: u64) -> (n: u64)
    ensures
        n <= max,
{
    rand::rng().random_range(0..=max)
}

/// Full jitter: a random span in `[0, ceiling]`. Spreads retries (and startup), so that a fleet
/// of senders does not thunder a recovering peer in lockstep.
pub fn jitter(ceiling: u64) -> (wait: u64)
    ensures
        wait <= ceiling,
{
    if ceiling == 0 {
        return 0;
    }
    random_up_to(ceiling)
}

/// What a destination waits before its first drain, given the jitter that was drawn: one of the
/// first round waits it out, a later one waits for nothing.
pub open spec fn delayed(first_round: bool, drawn: u64) -> u64 {
    if first_round {
        drawn
    } else {
        0
    }
}

/// What a destination waits before its first drain, given the jitter that was drawn.
pub fn delay_of(first_round: bool, drawn: u64) -> (wait: u64)
    ensures
        wait == delayed(first_round, drawn),
{
    if first_round {
        drawn
    } else {
        0
    }
}

/// What a destination waits before its first drain: a destination of the first round some
/// jitter, a later one nothing.
pub fn initial_delay(first_round: bool, startup_jitter_max: u64) -> (wait: u64)
    ensures
        exists|drawn: u64|
            drawn <= startup_jitter_max && wait == #[trigger] delayed(first_round, drawn),
        wait <= startup_jitter_max,
        !first_round ==> wait == 0,
{
    let drawn = jitter(startup_jitter_max);
    delay_of(first_round, drawn)
}

/// The ceiling after a wait. A wait cut short by a kick starts again from the floor; one that
/// ran its course raises the ceiling.
pub open spec fn ceiling_after_wait(ceiling: int, kicked: bool) -> int {
    if kicked {
        BACKOFF_BASE as int
    } else {
        doubled(ceiling)
    }
}

/// The ceiling after a wait under `ceiling` that a kick cut short or not.
pub fn after_wait(ceiling: u64, kicked: bool) -> (next: u64)
    ensures
        next == ceiling_after_wait(ceiling as int, kicked),
{
    if kicked {
        BACKOFF_BASE
    } else {
        next_backoff(ceiling)
    }
}

/// `UNIX_EPOCH.elapsed()`: the milliseconds since the epoch, or nothing where the clock stands
/// before it. What the clock shows is left open.
#[verifier::external_body]
fn epoch_elapsed() -> (elapsed: Option<u128>) {
    std::time::UNIX_EPOCH.elapsed().ok().map(|d| d.as_millis())
}

/// A reading of the clock as a timestamp: 0 on a clock before the epoch.
pub open spec fn timestamp_of(elapsed: Option<u128>) -> u64 {
    match elapsed {
        Some(ms) => ms as u64,
        None => 0,
    }
}

/// A reading of the clock as a timestamp: 0 on a clock before the epoch.
pub fn timestamp(elapsed: Option<u128>) -> (ms: u64)
    ensures
        ms == timestamp_of(elapsed),
{
    match elapsed {
        Some(ms) => ms as u64,
        None => 0,
    }
}

/// Milliseconds since the Unix epoch, for the `origin_server_ts` of a transaction. 0 on a
/// pre-epoch clock.
pub fn now_ms() -> (ms: u64)
    ensures
        exists|elapsed: Option<u128>| ms == #[trigger] timestamp_of(elapsed),
{
    let elapsed = epoch_elapsed();
    timestamp(elapsed)
}

/// What is waited never exceeds what may be waited; a destination of a later round waits for nothing.
pub proof fn waits_no_longer_than_allowed(ceiling: u64, drawn: u64, first: u64, later: u64)
    requires
        call_ensures(jitter, (ceiling,), drawn),
        call_ensures(initial_delay, (true, ceiling), first),
        call_ensures(initial_delay, (false, ceiling), later),
    ensures
        drawn <= ceiling,
        first <= ceiling,
        later == 0,
{
}

} // verus!
