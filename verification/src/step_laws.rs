//! What each step of a send comes to.
use crate::clock::duration_end;
use crate::endpoint::{EndpointState, LumberjackEndpoint};
use crate::endpoint_laws::law_failure;
use crate::pool::PoolView;
use crate::pool_laws::{hits, law_hit_is_picked, law_picked_is_ready, slot};
use crate::retry::{
    after_connect, after_transmit, attempted, begun, fell_through, outcome, Attempt, SendStep,
    StepView,
};
use crate::retry_laws::{law_failure_is_kept, law_retry_elsewhere};
use crate::stats::{counted, PoolStats};
use vstd::arithmetic::div_mod::lemma_mod_bound;
use vstd::prelude::*;

verus! {

/// Whether the statistics have moved on by these numbers: of sends whose first
/// attempt failed, of those whose second one succeeded, and of those that no
/// endpoint took.
pub open spec fn moved(
    before: PoolStats,
    after: PoolStats,
    first_failed: nat,
    second_succeeded: nat,
    not_taken: nat,
) -> bool {
    &&& after.write_failures == counted(before.write_failures, first_failed)
    &&& after.retry_successes == counted(before.retry_successes, second_succeeded)
    &&& after.all_endpoints_failed == counted(before.all_endpoints_failed, not_taken)
}

/// Whether a send over `pool` stands at the start of `attempt`: the endpoint has
/// given out its connection for it, or one to its address is asked for, and nothing
/// else has changed.
pub open spec fn starts<C>(
    pool: PoolView<C>,
    attempt: Attempt,
    after: PoolView<C>,
    step: StepView<C>,
) -> bool {
    let idx = attempt.idx as int;
    let endpoint = pool.endpoints[idx];
    let left = after.endpoints[idx];
    &&& after.cursor == pool.cursor
    &&& after.endpoints.len() == pool.endpoints.len()
    &&& forall|i: int|
        0 <= i < pool.endpoints.len() && i != idx ==> #[trigger] after.endpoints[i]
            == pool.endpoints[i]
    &&& left.client is None
    &&& left.ip == endpoint.ip
    &&& left.port == endpoint.port
    &&& left.state == endpoint.state
    &&& left.consecutive_failures == endpoint.consecutive_failures
    &&& match endpoint.client {
        Some(client) => step == (StepView::Transmit { attempt, client }),
        None => step == (StepView::<C>::Connect { attempt, addr: endpoint.spec_addr() }),
    }
}

/// An attempt starts with the connection that the endpoint has, or by opening one.
pub proof fn law_attempt<C>(pool: PoolView<C>, attempt: Attempt)
    requires
        attempt.idx < pool.endpoints.len(),
    ensures
        starts(pool, attempt, attempted(pool, attempt).0, attempted(pool, attempt).1),
{
}

/// A send starts with a first attempt over the endpoint that is chosen, and counts
/// nothing; where none is chosen it is over, has failed, and is counted as one that
/// no endpoint took.
pub proof fn law_begun<C>(pool: PoolView<C>, stats: PoolStats, now: u128)
    requires
        pool.endpoints.len() <= usize::MAX,
    ensures
        ({
            let after = begun(pool, stats, now);
            let (picked, chosen) = pool.pick(now);
            match picked {
                Some(idx) => {
                    &&& starts(chosen, Attempt { idx, retry: false }, after.pool, after.step)
                    &&& after.stats == stats
                },
                None => {
                    &&& after.pool == chosen
                    &&& after.step == (StepView::<C>::Finished {
                        result: Err("all endpoints unavailable"@),
                    })
                    &&& moved(stats, after.stats, 0, 0, 1)
                },
            }
        }),
{
    law_picked_is_ready(pool, now);
}

/// An attempt that fails leaves its endpoint with that failure recorded. After the
/// first attempt that is counted, and a second one starts over the endpoint that is
/// chosen then; where none is, and after the second attempt, the send is over, has
/// failed, and is counted as one that no endpoint took.
pub proof fn law_attempt_fails<C>(
    pool: PoolView<C>,
    stats: PoolStats,
    attempt: Attempt,
    error: Seq<char>,
    now: u128,
    random: u64,
)
    requires
        attempt.idx < pool.endpoints.len() <= usize::MAX,
        now < duration_end(),
    ensures
        ({
            let after = fell_through(pool, stats, attempt, error, now, random);
            let rested = PoolView {
                endpoints: pool.endpoints.update(
                    attempt.idx as int,
                    pool.endpoints[attempt.idx as int].failed(now, random),
                ),
                cursor: pool.cursor,
            };
            let (picked, chosen) = rested.pick(now);
            if attempt.retry {
                &&& after.pool == rested
                &&& after.step == (StepView::<C>::Finished {
                    result: Err("retry also failed: "@ + error),
                })
                &&& moved(stats, after.stats, 0, 0, 1)
            } else {
                match picked {
                    Some(idx) => {
                        &&& starts(chosen, Attempt { idx, retry: true }, after.pool, after.step)
                        &&& moved(stats, after.stats, 1, 0, 0)
                    },
                    None => {
                        &&& after.pool == chosen
                        &&& after.step == (StepView::<C>::Finished {
                            result: Err("all endpoints unavailable after retry"@),
                        })
                        &&& moved(stats, after.stats, 1, 0, 1)
                    },
                }
            }
        }),
{
    law_picked_is_ready(pool.failed(attempt.idx as int, now, random), now);
}

/// A first attempt that fails is followed by a second one, over another endpoint,
/// wherever a choice made before the failure would have had a hit elsewhere.
pub proof fn law_second_attempt<C>(
    pool: PoolView<C>,
    stats: PoolStats,
    attempt: Attempt,
    error: Seq<char>,
    now: u128,
    random: u64,
    probe: int,
)
    requires
        attempt.idx < pool.endpoints.len() <= usize::MAX,
        now < duration_end(),
        !attempt.retry,
        0 <= probe < 3 * pool.endpoints.len(),
        hits(pool, now, probe),
        slot(pool.cursor, probe, pool.endpoints.len()) != attempt.idx,
    ensures
        match fell_through(pool, stats, attempt, error, now, random).step {
            StepView::Connect { attempt: next, .. } => next.retry && next.idx != attempt.idx
                && next.idx < pool.endpoints.len(),
            StepView::Transmit { attempt: next, .. } => next.retry && next.idx != attempt.idx
                && next.idx < pool.endpoints.len(),
            StepView::Finished { .. } => false,
        },
{
    let rested = pool.failed(attempt.idx as int, now, random);
    let total = pool.endpoints.len() as int;
    lemma_mod_bound((pool.cursor + probe) % (usize::MAX + 1), total);
    assert(hits(rested, now, probe));
    law_hit_is_picked(rested, now, probe);
    law_retry_elsewhere(pool, stats, attempt, error, now, random);
}

/// Whether an endpoint is left as after one failure more at the moment `now`: it
/// has no connection, and cools down for ten, twenty or forty seconds and the jitter
/// of less than five.
pub open spec fn rests<C>(
    before: LumberjackEndpoint<C>,
    now: u128,
    random: u64,
    after: LumberjackEndpoint<C>,
) -> bool {
    let failures = after.consecutive_failures as int;
    &&& before.consecutive_failures < 255 ==> failures == before.consecutive_failures + 1
    &&& before.consecutive_failures == 255 ==> failures == 255
    &&& after.client is None
    &&& after.ip == before.ip
    &&& after.port == before.port
    &&& after.state matches EndpointState::Cooldown { until } && {
        let millis = (until - now) / 1_000_000;
        &&& failures == 1 ==> millis == 10_000 + random % 5000
        &&& failures == 2 ==> millis == 20_000 + random % 5000
        &&& failures >= 3 ==> millis == 40_000 + random % 5000
    }
}

/// An endpoint over which an attempt failed has one failure more, has no connection,
/// and cools down.
pub proof fn law_failed_endpoint<C>(
    pool: PoolView<C>,
    stats: PoolStats,
    attempt: Attempt,
    error: Seq<char>,
    now: u128,
    random: u64,
)
    requires
        attempt.idx < pool.endpoints.len() <= usize::MAX,
        now < duration_end(),
    ensures
        rests(
            pool.endpoints[attempt.idx as int],
            now,
            random,
            fell_through(pool, stats, attempt, error, now, random).pool.endpoints[attempt.idx
                as int],
        ),
{
    law_failure_is_kept(pool, stats, attempt, error, now, random);
    law_failure(pool.endpoints[attempt.idx as int], now, random);
}

/// A connection that is open is used at once for the attempt that it was opened
/// for; one that could not be opened is a failure of that attempt, and the reason
/// names the address.
pub proof fn law_after_connect<C>(
    pool: PoolView<C>,
    stats: PoolStats,
    attempt: Attempt,
    client: C,
    error: Seq<char>,
    now: u128,
    random: u64,
)
    requires
        attempt.idx < pool.endpoints.len(),
    ensures
        ({
            let after = after_connect(pool, stats, attempt, Ok(client), now, random);
            &&& after.pool == pool
            &&& after.stats == stats
            &&& after.step == (StepView::Transmit { attempt, client })
        }),
        after_connect(pool, stats, attempt, Err(error), now, random) == fell_through(
            pool,
            stats,
            attempt,
            "connect to "@ + pool.endpoints[attempt.idx as int].spec_addr() + ": "@ + error,
            now,
            random,
        ),
{
}

/// Events that are acknowledged end the send with that number. The endpoint keeps
/// the connection, is available and has no failure; every other one stays as it is,
/// and a second attempt is counted as one that succeeded. Events that could not be
/// sent are a failure of the attempt.
pub proof fn law_after_transmit<C>(
    pool: PoolView<C>,
    stats: PoolStats,
    attempt: Attempt,
    client: C,
    acked: u32,
    error: Seq<char>,
    now: u128,
    random: u64,
)
    requires
        attempt.idx < pool.endpoints.len(),
    ensures
        ({
            let idx = attempt.idx as int;
            let after = after_transmit(pool, stats, attempt, client, Ok(acked), now, random);
            &&& after.step == (StepView::<C>::Finished { result: Ok(acked) })
            &&& after.pool.cursor == pool.cursor
            &&& after.pool.endpoints.len() == pool.endpoints.len()
            &&& forall|i: int|
                0 <= i < pool.endpoints.len() && i != idx ==> #[trigger] after.pool.endpoints[i]
                    == pool.endpoints[i]
            &&& after.pool.endpoints[idx].client == Some(client)
            &&& after.pool.endpoints[idx].state is Available
            &&& after.pool.endpoints[idx].consecutive_failures == 0
            &&& after.pool.endpoints[idx].ip == pool.endpoints[idx].ip
            &&& after.pool.endpoints[idx].port == pool.endpoints[idx].port
            &&& attempt.retry ==> moved(stats, after.stats, 0, 1, 0)
            &&& !attempt.retry ==> after.stats == stats
        }),
        after_transmit(pool, stats, attempt, client, Err(error), now, random) == fell_through(
            pool,
            stats,
            attempt,
            "send: "@ + error,
            now,
            random,
        ),
{
}

/// A step says what it holds, and so does a result.
pub proof fn law_step_says<C>(step: SendStep<C>, result: Result<u32, String>)
    ensures
        match step {
            SendStep::Connect { attempt, addr } => step@ == (StepView::<C>::Connect {
                attempt,
                addr: addr@,
            }),
            SendStep::Transmit { attempt, client } => step@ == (StepView::Transmit {
                attempt,
                client,
            }),
            SendStep::Finished { result } => step@ == (StepView::<C>::Finished {
                result: outcome(result),
            }),
        },
        result matches Ok(acked) ==> outcome(result) == Ok::<u32, Seq<char>>(acked),
        result matches Err(error) ==> outcome(result) == Err::<u32, Seq<char>>(error@),
{
}

} // verus!
