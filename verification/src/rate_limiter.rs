//! The sliding-window rate limiter: for each client the times of its admitted
//! calls that still lie within the window, oldest first.

use std::collections::HashMap;
use std::time::Instant;
use vstd::prelude::*;

verus! {

/// The network address of a client.
#[derive(Clone, Copy, Debug)]
pub enum ClientAddr {
    /// An IPv4 address, as its 32 bits.
    V4(u32),
    /// An IPv6 address, as its 128 bits.
    V6(u128),
}

/// The nanoseconds in a second.
pub const NANOS_PER_SECOND: u128 = 1_000_000_000;

/// The time from `time` to `now`, or nothing if `time` is later than `now`.
pub open spec fn elapsed(now: u128, time: u128) -> nat {
    if now >= time {
        (now - time) as nat
    } else {
        0
    }
}

/// True when a call at `time` still counts at `now`: it is not older than
/// `window`, so no more than `window` has passed since.
pub open spec fn recent(time: u128, now: u128, window: nat) -> bool {
    elapsed(now, time) <= window
}

/// The calls of `log` that still count at `now`, in their order.
pub open spec fn pruned(log: Seq<u128>, now: u128, window: nat) -> Seq<u128>
    decreases log.len(),
{
    if log.len() == 0 {
        Seq::empty()
    } else if recent(log.last(), now, window) {
        pruned(log.drop_last(), now, window).push(log.last())
    } else {
        pruned(log.drop_last(), now, window)
    }
}

/// True when a call at `now` is turned away: `max_requests` or more calls of
/// `log` still count.
pub open spec fn limited(log: Seq<u128>, now: u128, window: nat, max_requests: nat) -> bool {
    pruned(log, now, window).len() >= max_requests
}

/// The log after a call at `now`: the calls that still count, and behind them
/// the call itself unless it was turned away.
pub open spec fn after_call(log: Seq<u128>, now: u128, window: nat, max_requests: nat) -> Seq<
    u128,
> {
    if limited(log, now, window, max_requests) {
        pruned(log, now, window)
    } else {
        pruned(log, now, window).push(now)
    }
}

/// The log after the calls at the times `calls`, one after the other,
/// starting with no call on record.
pub open spec fn replay(calls: Seq<u128>, window: nat, max_requests: nat) -> Seq<u128>
    decreases calls.len(),
{
    if calls.len() == 0 {
        Seq::empty()
    } else {
        after_call(
            replay(calls.drop_last(), window, max_requests),
            calls.last(),
            window,
            max_requests,
        )
    }
}

/// The times of those of `calls` that were admitted, in their order.
pub open spec fn admitted(calls: Seq<u128>, window: nat, max_requests: nat) -> Seq<u128>
    decreases calls.len(),
{
    if calls.len() == 0 {
        Seq::empty()
    } else if limited(
        replay(calls.drop_last(), window, max_requests),
        calls.last(),
        window,
        max_requests,
    ) {
        admitted(calls.drop_last(), window, max_requests)
    } else {
        admitted(calls.drop_last(), window, max_requests).push(calls.last())
    }
}

/// True when no time in `calls` is earlier than the one before it.
pub open spec fn in_order(calls: Seq<u128>) -> bool {
    forall|i: int, j: int| 0 <= i <= j < calls.len() ==> calls[i] <= calls[j]
}

/// Pruning keeps no more than there was, and keeps only calls of the log.
pub proof fn lemma_pruned_is_shorter(log: Seq<u128>, now: u128, window: nat)
    ensures
        pruned(log, now, window).len() <= log.len(),
        forall|i: int|
            0 <= i < pruned(log, now, window).len() ==> recent(
                #[trigger] pruned(log, now, window)[i],
                now,
                window,
            ),
    decreases log.len(),
{
    if log.len() > 0 {
        lemma_pruned_is_shorter(log.drop_last(), now, window);
    }
}

/// A call that no longer counts is gone after pruning: with one such call in
/// the log, pruning makes the log shorter.
pub proof fn lemma_pruned_drops_old(log: Seq<u128>, now: u128, window: nat, i: int)
    requires
        0 <= i < log.len(),
        !recent(log[i], now, window),
    ensures
        pruned(log, now, window).len() < log.len(),
    decreases log.len(),
{
    lemma_pruned_is_shorter(log.drop_last(), now, window);
    if i < log.len() - 1 {
        lemma_pruned_drops_old(log.drop_last(), now, window, i);
    }
}

/// Pruning at a time and then at a later time gives what pruning at the later
/// time alone gives.
pub proof fn lemma_pruned_twice(log: Seq<u128>, earlier: u128, later: u128, window: nat)
    requires
        earlier <= later,
    ensures
        pruned(pruned(log, earlier, window), later, window) == pruned(log, later, window),
    decreases log.len(),
{
    if log.len() > 0 {
        lemma_pruned_twice(log.drop_last(), earlier, later, window);
        let rest = pruned(log.drop_last(), earlier, window);
        if recent(log.last(), earlier, window) {
            assert(rest.push(log.last()).drop_last() =~= rest);
        }
    }
}

/// A call that is turned away leaves no trace: every later call is judged,
/// and leaves the log, as if the call that was turned away had never been
/// made.
pub proof fn lemma_rejected_call_leaves_no_trace(
    log: Seq<u128>,
    rejected_at: u128,
    later: u128,
    window: nat,
    max_requests: nat,
)
    requires
        limited(log, rejected_at, window, max_requests),
        rejected_at <= later,
    ensures
        limited(after_call(log, rejected_at, window, max_requests), later, window, max_requests)
            == limited(log, later, window, max_requests),
        after_call(after_call(log, rejected_at, window, max_requests), later, window, max_requests)
            == after_call(log, later, window, max_requests),
{
    lemma_pruned_twice(log, rejected_at, later, window);
}

/// The log never holds more calls than are admitted within one window.
pub proof fn lemma_log_is_bounded(calls: Seq<u128>, window: nat, max_requests: nat)
    ensures
        replay(calls, window, max_requests).len() <= max_requests,
    decreases calls.len(),
{
    if calls.len() > 0 {
        lemma_log_is_bounded(calls.drop_last(), window, max_requests);
        lemma_pruned_is_shorter(
            replay(calls.drop_last(), window, max_requests),
            calls.last(),
            window,
        );
    }
}

/// With calls at times in order, the log holds, of all the calls admitted so
/// far, exactly those that still count: pruned at `now`, a time no earlier
/// than the last call, the log and the list of all admitted calls agree.
pub proof fn lemma_log_is_recent_admitted(
    calls: Seq<u128>,
    now: u128,
    window: nat,
    max_requests: nat,
)
    requires
        in_order(calls),
        calls.len() > 0 ==> calls.last() <= now,
    ensures
        pruned(replay(calls, window, max_requests), now, window) == pruned(
            admitted(calls, window, max_requests),
            now,
            window,
        ),
    decreases calls.len(),
{
    if calls.len() > 0 {
        let before = calls.drop_last();
        let last = calls.last();
        let log = replay(before, window, max_requests);
        assert(in_order(before));
        if before.len() > 0 {
            assert(before.last() == calls[calls.len() - 2]);
        }
        lemma_log_is_recent_admitted(before, now, window, max_requests);
        lemma_pruned_twice(log, last, now, window);
        let kept = pruned(log, last, window);
        let known = admitted(before, window, max_requests);
        if !limited(log, last, window, max_requests) {
            assert(kept.push(last).drop_last() =~= kept);
            assert(known.push(last).drop_last() =~= known);
        }
    }
}

/// The sliding window: after calls at times in order, a call at `now`, no
/// earlier than the last of them, is turned away exactly when `max_requests`
/// or more of the calls admitted so far lie no more than `window` before
/// `now`.
pub proof fn lemma_window_is_exact(calls: Seq<u128>, now: u128, window: nat, max_requests: nat)
    requires
        in_order(calls),
        calls.len() > 0 ==> calls.last() <= now,
    ensures
        limited(replay(calls, window, max_requests), now, window, max_requests) <==> pruned(
            admitted(calls, window, max_requests),
            now,
            window,
        ).len() >= max_requests,
{
    lemma_log_is_recent_admitted(calls, now, window, max_requests);
}

/// Once a call on record has fallen out of the window, a slot is free: the
/// next call is admitted.
pub proof fn lemma_expired_call_frees_slot(
    calls: Seq<u128>,
    now: u128,
    window: nat,
    max_requests: nat,
    i: int,
)
    requires
        0 <= i < replay(calls, window, max_requests).len(),
        !recent(replay(calls, window, max_requests)[i], now, window),
    ensures
        !limited(replay(calls, window, max_requests), now, window, max_requests),
{
    lemma_log_is_bounded(calls, window, max_requests);
    lemma_pruned_drops_old(replay(calls, window, max_requests), now, window, i);
}

/// Where the limiter is full, the next call is turned away: with
/// `max_requests` calls on record that all still count, a call is limited.
pub proof fn lemma_full_window_limits(log: Seq<u128>, now: u128, window: nat, max_requests: nat)
    requires
        log.len() >= max_requests,
        forall|i: int| 0 <= i < log.len() ==> recent(#[trigger] log[i], now, window),
    ensures
        limited(log, now, window, max_requests),
        pruned(log, now, window) == log,
{
    lemma_pruned_keeps_recent(log, now, window);
}

/// Pruning changes nothing in a log whose calls all still count.
pub proof fn lemma_pruned_keeps_recent(log: Seq<u128>, now: u128, window: nat)
    requires
        forall|i: int| 0 <= i < log.len() ==> recent(#[trigger] log[i], now, window),
    ensures
        pruned(log, now, window) == log,
    decreases log.len(),
{
    if log.len() > 0 {
        lemma_pruned_keeps_recent(log.drop_last(), now, window);
        assert(log.drop_last().push(log.last()) =~= log);
    }
}

/// The calls of `log` that still count at `now`.
fn retain_recent(log: &Vec<u128>, now: u128, window: u128) -> (kept: Vec<u128>)
    ensures
        kept@ == pruned(log@, now, window as nat),
{
    let mut kept: Vec<u128> = Vec::new();
    let mut i: usize = 0;
    while i < log.len()
        invariant
            i <= log.len(),
            kept@ == pruned(log@.take(i as int), now, window as nat),
        decreases log.len() - i,
    {
        let time = log[i];
        let passed: u128 = if now >= time {
            now - time
        } else {
            0
        };
        proof {
            assert(log@.take(i + 1).drop_last() =~= log@.take(i as int));
            assert(log@.take(i + 1).last() == time);
        }
        if passed <= window {
            kept.push(time);
        }
        i = i + 1;
    }
    assert(log@.take(log.len() as int) =~= log@);
    kept
}

/// The log that `logs` holds for `key`: nothing where it holds none.
pub open spec fn log_of<K>(logs: Map<K, Vec<u128>>, key: K) -> Seq<u128> {
    if logs.contains_key(key) {
        logs[key]@
    } else {
        Seq::empty()
    }
}

/// The limiter: a window, a number of calls admitted within it, and the log
/// of each client.
pub struct RateLimiter {
    v4: HashMap<u32, Vec<u128>>,
    v6: HashMap<u128, Vec<u128>>,
    window: u128,
    max_requests: usize,
    started: Instant,
}

/// `std::time::Instant`, a moment on the monotonic clock. Nothing is seen
/// of what it holds.
#[verifier::external_type_specification]
#[verifier::external_body]
pub struct ExInstant(Instant);

/// Calls `Instant::now`: the present moment on the monotonic clock. Nothing
/// is claimed of it.
#[verifier::external_body]
fn clock_now() -> Instant {
    Instant::now()
}

/// Calls `Instant::elapsed` and `Duration::as_nanos`: the nanoseconds that
/// have passed since `since`. Nothing is claimed of the number, which differs
/// from call to call.
#[verifier::external_body]
fn nanos_since(since: &Instant) -> u128 {
    since.elapsed().as_nanos()
}

impl RateLimiter {
    /// The length of the window in nanoseconds.
    pub closed spec fn window(&self) -> nat {
        self.window as nat
    }

    /// The number of calls that each client is admitted within one window.
    pub closed spec fn max_requests(&self) -> nat {
        self.max_requests as nat
    }

    /// The times, in nanoseconds since the limiter was made, of the admitted
    /// calls of `client` that are on record, oldest first.
    pub closed spec fn log(&self, client: ClientAddr) -> Seq<u128> {
        match client {
            ClientAddr::V4(addr) => log_of(self.v4@, addr),
            ClientAddr::V6(addr) => log_of(self.v6@, addr),
        }
    }

    /// A limiter that admits `max_requests` calls of each client within any
    /// `window_secs` seconds. It has no call on record.
    pub fn new_with_limits(window_secs: u64, max_requests: usize) -> (limiter: RateLimiter)
        ensures
            limiter.window() == window_secs * NANOS_PER_SECOND,
            limiter.max_requests() == max_requests,
            forall|client: ClientAddr| limiter.log(client) == Seq::<u128>::empty(),
    {
        let window: u128 = (window_secs as u128) * NANOS_PER_SECOND;
        RateLimiter {
            v4: HashMap::new(),
            v6: HashMap::new(),
            window,
            max_requests,
            started: clock_now(),
        }
    }

    /// Judges a call of `client` at `now`, a time in nanoseconds since the
    /// limiter was made: the calls of the client that no longer count are
    /// forgotten; the call is turned away if `max_requests` calls still
    /// count, and is put on record if not. No other client is touched.
    pub fn is_rate_limited_at(&mut self, client: ClientAddr, now: u128) -> (turned_away: bool)
        ensures
            turned_away == limited(
                old(self).log(client),
                now,
                old(self).window(),
                old(self).max_requests(),
            ),
            final(self).log(client) == after_call(
                old(self).log(client),
                now,
                old(self).window(),
                old(self).max_requests(),
            ),
            forall|other: ClientAddr| other != client ==> final(self).log(other) == old(self).log(other),
            final(self).window() == old(self).window(),
            final(self).max_requests() == old(self).max_requests(),
    {
        match client {
            ClientAddr::V4(addr) => {
                let log = match self.v4.remove(&addr) {
                    Some(log) => log,
                    None => Vec::new(),
                };
                let mut kept = retain_recent(&log, now, self.window);
                let turned_away = kept.len() >= self.max_requests;
                if !turned_away {
                    kept.push(now);
                }
                self.v4.insert(addr, kept);
                assert forall|other: ClientAddr| other != client implies self.log(other) == old(
                    self,
                ).log(other) by {
                    match other {
                        ClientAddr::V4(a) => {
                            assert(a != addr);
                        },
                        ClientAddr::V6(a) => {},
                    }
                }
                turned_away
            },
            ClientAddr::V6(addr) => {
                let log = match self.v6.remove(&addr) {
                    Some(log) => log,
                    None => Vec::new(),
                };
                let mut kept = retain_recent(&log, now, self.window);
                let turned_away = kept.len() >= self.max_requests;
                if !turned_away {
                    kept.push(now);
                }
                self.v6.insert(addr, kept);
                assert forall|other: ClientAddr| other != client implies self.log(other) == old(
                    self,
                ).log(other) by {
                    match other {
                        ClientAddr::V4(a) => {},
                        ClientAddr::V6(a) => {
                            assert(a != addr);
                        },
                    }
                }
                turned_away
            },
        }
    }

    /// Judges a call of `client` made now, as `is_rate_limited_at` does for the
    /// time that the clock gives.
    pub fn is_rate_limited(&mut self, client: ClientAddr) -> (turned_away: bool)
        ensures
            exists|now: u128|
                {
                    &&& turned_away == #[trigger] limited(
                        old(self).log(client),
                        now,
                        old(self).window(),
                        old(self).max_requests(),
                    )
                    &&& final(self).log(client) == after_call(
                        old(self).log(client),
                        now,
                        old(self).window(),
                        old(self).max_requests(),
                    )
                },
            forall|other: ClientAddr| other != client ==> final(self).log(other) == old(self).log(other),
            final(self).window() == old(self).window(),
            final(self).max_requests() == old(self).max_requests(),
    {
        let now = nanos_since(&self.started);
        self.is_rate_limited_at(client, now)
    }
}

} // verus!
