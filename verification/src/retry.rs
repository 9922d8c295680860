//! Sending over a pool: one attempt, and one more elsewhere if it fails.
//!
//! A send goes from step to step. Each step says what has to be done outside,
//! and what came of it decides on the next one.
use crate::clock::{chance_brings, draw, duration_end};
use crate::endpoint::LumberjackEndpoint;
use crate::pool::{LumberjackConnectionPool, PoolView};
use crate::stats::{count, PoolStats};
use crate::text::joined;
use vstd::prelude::*;
use vstd::string::*;

verus! {

/// An attempt to send over the endpoint number `idx`.
#[derive(Debug, Clone, Copy, PartialEq, Eq, Structural)]
pub struct Attempt {
    pub idx: usize,
    /// Whether it is the second one.
    pub retry: bool,
}

/// What a send needs next.
pub enum SendStep<C> {
    /// A connection to `addr`.
    Connect { attempt: Attempt, addr: String },
    /// That the events go out over `client`.
    Transmit { attempt: Attempt, client: C },
    /// Nothing: it is over. Either so many events were acknowledged, or it
    /// failed for the reason given.
    Finished { result: Result<u32, String> },
}

/// What a `SendStep` says.
#[verifier::ext_equal]
pub enum StepView<C> {
    Connect { attempt: Attempt, addr: Seq<char> },
    Transmit { attempt: Attempt, client: C },
    Finished { result: Result<u32, Seq<char>> },
}

/// What a result says whose error is a text.
pub open spec fn outcome<T>(result: Result<T, String>) -> Result<T, Seq<char>> {
    match result {
        Ok(value) => Ok(value),
        Err(error) => Err(error@),
    }
}

impl<C> View for SendStep<C> {
    type V = StepView<C>;

    open spec fn view(&self) -> StepView<C> {
        match *self {
            SendStep::Connect { attempt, addr } => StepView::Connect { attempt, addr: addr@ },
            SendStep::Transmit { attempt, client } => StepView::Transmit { attempt, client },
            SendStep::Finished { result } => StepView::Finished { result: outcome(result) },
        }
    }
}

impl<C> StepView<C> {
    /// The attempt that the step belongs to.
    pub open spec fn attempt(self) -> Option<Attempt> {
        match self {
            StepView::Connect { attempt, .. } => Some(attempt),
            StepView::Transmit { attempt, .. } => Some(attempt),
            StepView::Finished { .. } => None,
        }
    }
}

/// The pool, its statistics and the step that a send has come to.
#[verifier::ext_equal]
pub struct Progress<C> {
    pub pool: PoolView<C>,
    pub stats: PoolStats,
    pub step: StepView<C>,
}

/// The send is over and failed for the reason given, with no endpoint left to
/// turn to.
pub open spec fn give_up<C>(pool: PoolView<C>, stats: PoolStats, error: Seq<char>) -> Progress<C> {
    Progress {
        pool,
        stats: stats.gave_up(),
        step: StepView::Finished { result: Err(error) },
    }
}

/// Starts an attempt: the connection of the endpoint is taken for it, or one is
/// asked for.
pub open spec fn attempted<C>(pool: PoolView<C>, attempt: Attempt) -> (PoolView<C>, StepView<C>) {
    let endpoint = pool.endpoints[attempt.idx as int];
    match endpoint.client {
        Some(client) => (
            pool.with(attempt.idx as int, LumberjackEndpoint { client: None, ..endpoint }),
            StepView::Transmit { attempt, client },
        ),
        None => (pool, StepView::Connect { attempt, addr: endpoint.spec_addr() }),
    }
}

/// The send has come to an attempt.
pub open spec fn go_on<C>(pool: PoolView<C>, stats: PoolStats, attempt: Attempt) -> Progress<C> {
    let (after, step) = attempted(pool, attempt);
    Progress { pool: after, stats, step }
}

/// Starts a send at the moment `now`.
pub open spec fn begun<C>(pool: PoolView<C>, stats: PoolStats, now: u128) -> Progress<C> {
    let (picked, after) = pool.pick(now);
    match picked {
        Some(idx) => go_on(after, stats, Attempt { idx, retry: false }),
        None => give_up(after, stats, "all endpoints unavailable"@),
    }
}

/// Goes on after an attempt failed: after the first one with a second one, over
/// whichever endpoint is to be used now.
pub open spec fn fell_through<C>(
    pool: PoolView<C>,
    stats: PoolStats,
    attempt: Attempt,
    error: Seq<char>,
    now: u128,
    random: u64,
) -> Progress<C> {
    let rested = pool.failed(attempt.idx as int, now, random);
    if attempt.retry {
        give_up(rested, stats, "retry also failed: "@ + error)
    } else {
        let (picked, after) = rested.pick(now);
        match picked {
            Some(idx) => go_on(after, stats.write_failed(), Attempt { idx, retry: true }),
            None => give_up(after, stats.write_failed(), "all endpoints unavailable after retry"@),
        }
    }
}

/// Goes on after a connection was asked for.
pub open spec fn after_connect<C>(
    pool: PoolView<C>,
    stats: PoolStats,
    attempt: Attempt,
    result: Result<C, Seq<char>>,
    now: u128,
    random: u64,
) -> Progress<C> {
    match result {
        Ok(client) => Progress { pool, stats, step: StepView::Transmit { attempt, client } },
        Err(error) => fell_through(
            pool,
            stats,
            attempt,
            "connect to "@ + pool.endpoints[attempt.idx as int].spec_addr() + ": "@ + error,
            now,
            random,
        ),
    }
}

/// Goes on after the events went out over `client`, which the endpoint keeps if
/// they were acknowledged.
pub open spec fn after_transmit<C>(
    pool: PoolView<C>,
    stats: PoolStats,
    attempt: Attempt,
    client: C,
    result: Result<u32, Seq<char>>,
    now: u128,
    random: u64,
) -> Progress<C> {
    let endpoint = pool.endpoints[attempt.idx as int];
    match result {
        Ok(acked) => Progress {
            pool: pool.with(
                attempt.idx as int,
                LumberjackEndpoint { client: Some(client), ..endpoint }.succeeded(0),
            ),
            stats: if attempt.retry {
                stats.retry_succeeded()
            } else {
                stats
            },
            step: StepView::Finished { result: Ok(acked) },
        },
        Err(error) => fell_through(pool, stats, attempt, "send: "@ + error, now, random),
    }
}

impl<C> LumberjackConnectionPool<C> {
    /// Starts an attempt over an endpoint: with its connection if there is one,
    /// else by connecting.
    pub fn try_send(&mut self, attempt: Attempt) -> (step: SendStep<C>)
        requires
            attempt.idx < old(self)@.endpoints.len(),
        ensures
            (final(self)@, step@) == attempted(old(self)@, attempt),
            final(self).set_up_like(*old(self)),
    {
        match self.endpoints[attempt.idx].client.take() {
            Some(client) => SendStep::Transmit { attempt, client },
            None => {
                assert(self@.endpoints =~= old(self)@.endpoints);
                SendStep::Connect { attempt, addr: self.endpoints[attempt.idx].addr() }
            },
        }
    }

    /// Starts a send at the moment `now`.
    pub fn send_with_retry_at(&mut self, stats: &mut PoolStats, now: u128) -> (step: SendStep<C>)
        ensures
            (Progress { pool: final(self)@, stats: *final(stats), step: step@ }) == begun(
                old(self)@,
                *old(stats),
                now,
            ),
            final(self).set_up_like(*old(self)),
    {
        match self.pick_endpoint_at(now) {
            Some(idx) => self.try_send(Attempt { idx, retry: false }),
            None => {
                count(&mut stats.all_endpoints_failed, 1);
                SendStep::Finished { result: Err("all endpoints unavailable".to_owned()) }
            },
        }
    }

    /// Starts a send.
    pub fn send_with_retry(&mut self, stats: &mut PoolStats) -> (step: SendStep<C>)
        ensures
            exists|now: u128|
                old(self).clock.shows(now) && now < duration_end() && (Progress {
                    pool: final(self)@,
                    stats: *final(stats),
                    step: step@,
                }) == #[trigger] begun(old(self)@, *old(stats), now),
            final(self).set_up_like(*old(self)),
    {
        let now: u128 = self.clock.now();
        self.send_with_retry_at(stats, now)
    }

    /// Goes on after an attempt failed at the moment `now`; the jitter of the
    /// cooldown comes from `random`.
    pub fn attempt_failed_at(
        &mut self,
        stats: &mut PoolStats,
        attempt: Attempt,
        error: &str,
        now: u128,
        random: u64,
    ) -> (step: SendStep<C>)
        requires
            attempt.idx < old(self)@.endpoints.len(),
            now < duration_end(),
        ensures
            (Progress { pool: final(self)@, stats: *final(stats), step: step@ }) == fell_through(
                old(self)@,
                *old(stats),
                attempt,
                error@,
                now,
                random,
            ),
            final(self).set_up_like(*old(self)),
    {
        self.mark_failure_at(attempt.idx, now, random);
        if attempt.retry {
            count(&mut stats.all_endpoints_failed, 1);
            return SendStep::Finished { result: Err(joined("retry also failed: ", error)) };
        }
        count(&mut stats.write_failures, 1);
        match self.pick_endpoint_at(now) {
            Some(idx) => self.try_send(Attempt { idx, retry: true }),
            None => {
                count(&mut stats.all_endpoints_failed, 1);
                SendStep::Finished {
                    result: Err("all endpoints unavailable after retry".to_owned()),
                }
            },
        }
    }

    /// The moment it is now and a random number. They are drawn if and only if
    /// they are `needed`.
    pub(crate) fn drawn(&self, needed: bool) -> (drawn: Option<(u128, u64)>)
        ensures
            drawn is Some <==> needed,
            drawn matches Some((now, random)) ==> self.clock.shows(now) && now < duration_end()
                && chance_brings(random),
    {
        if needed {
            let random: u64 = draw();
            Some((self.clock.now(), random))
        } else {
            None
        }
    }

    /// Goes on after a connection to the endpoint of `attempt` was opened, or
    /// could not be opened at the moment `now`; the jitter of the cooldown comes
    /// from `random`.
    pub fn connected_at(
        &mut self,
        stats: &mut PoolStats,
        attempt: Attempt,
        result: Result<C, String>,
        now: u128,
        random: u64,
    ) -> (step: SendStep<C>)
        requires
            attempt.idx < old(self)@.endpoints.len(),
            now < duration_end(),
        ensures
            (Progress { pool: final(self)@, stats: *final(stats), step: step@ }) == after_connect(
                old(self)@,
                *old(stats),
                attempt,
                outcome(result),
                now,
                random,
            ),
            final(self).set_up_like(*old(self)),
    {
        match result {
            Ok(client) => SendStep::Transmit { attempt, client },
            Err(error) => {
                let mut text = joined("connect to ", self.endpoints[attempt.idx].addr().as_str());
                text.append(": ");
                text.append(error.as_str());
                self.attempt_failed_at(stats, attempt, text.as_str(), now, random)
            },
        }
    }

    /// Goes on after a connection to the endpoint of `attempt` was opened, or
    /// could not be.
    pub fn connected(
        &mut self,
        stats: &mut PoolStats,
        attempt: Attempt,
        result: Result<C, String>,
    ) -> (step: SendStep<C>)
        requires
            attempt.idx < old(self)@.endpoints.len(),
        ensures
            exists|now: u128, random: u64|
                (result is Err ==> old(self).clock.shows(now) && chance_brings(random)) && now
                    < duration_end() && (Progress {
                    pool: final(self)@,
                    stats: *final(stats),
                    step: step@,
                }) == #[trigger] after_connect(
                    old(self)@,
                    *old(stats),
                    attempt,
                    outcome(result),
                    now,
                    random,
                ),
            final(self).set_up_like(*old(self)),
    {
        let (now, random): (u128, u64) = match self.drawn(result.is_err()) {
            Some(drawn) => drawn,
            None => (0, 0),
        };
        self.connected_at(stats, attempt, result, now, random)
    }

    /// Goes on after the events went out over `client`: so many were
    /// acknowledged, or it failed at the moment `now`; the jitter of the cooldown
    /// comes from `random`.
    pub fn transmitted_at(
        &mut self,
        stats: &mut PoolStats,
        attempt: Attempt,
        client: C,
        result: Result<u32, String>,
        now: u128,
        random: u64,
    ) -> (step: SendStep<C>)
        requires
            attempt.idx < old(self)@.endpoints.len(),
            now < duration_end(),
        ensures
            (Progress { pool: final(self)@, stats: *final(stats), step: step@ }) == after_transmit(
                old(self)@,
                *old(stats),
                attempt,
                client,
                outcome(result),
                now,
                random,
            ),
            final(self).set_up_like(*old(self)),
    {
        match result {
            Ok(acked) => {
                self.endpoints[attempt.idx].client = Some(client);
                self.mark_success(attempt.idx, 0);
                if attempt.retry {
                    count(&mut stats.retry_successes, 1);
                }
                assert(self@.endpoints =~= after_transmit(
                    old(self)@,
                    *old(stats),
                    attempt,
                    client,
                    outcome(result),
                    now,
                    random,
                ).pool.endpoints);
                SendStep::Finished { result: Ok(acked) }
            },
            Err(error) => {
                let text = joined("send: ", error.as_str());
                self.attempt_failed_at(stats, attempt, text.as_str(), now, random)
            },
        }
    }

    /// Goes on after the events went out over `client`: so many were
    /// acknowledged, or it failed.
    pub fn transmitted(
        &mut self,
        stats: &mut PoolStats,
        attempt: Attempt,
        client: C,
        result: Result<u32, String>,
    ) -> (step: SendStep<C>)
        requires
            attempt.idx < old(self)@.endpoints.len(),
        ensures
            exists|now: u128, random: u64|
                (result is Err ==> old(self).clock.shows(now) && chance_brings(random)) && now
                    < duration_end() && (Progress {
                    pool: final(self)@,
                    stats: *final(stats),
                    step: step@,
                }) == #[trigger] after_transmit(
                    old(self)@,
                    *old(stats),
                    attempt,
                    client,
                    outcome(result),
                    now,
                    random,
                ),
            final(self).set_up_like(*old(self)),
    {
        let (now, random): (u128, u64) = match self.drawn(result.is_err()) {
            Some(drawn) => drawn,
            None => (0, 0),
        };
        self.transmitted_at(stats, attempt, client, result, now, random)
    }
}

} // verus!
