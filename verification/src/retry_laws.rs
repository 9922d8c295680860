//! What holds of every send.
use crate::clock::duration_end;
use crate::pool::{advanced, fresh, probed, PoolView};
use crate::pool_laws::{
    last_pass, law_failed_endpoint_rests, law_pick_finds, law_picked_is_ready, law_round_robin,
    reaches,
};
use crate::retry::{
    after_connect, after_transmit, attempted, begun, fell_through, Attempt, Progress, StepView,
};
use crate::stats::{counted, lemma_counted_twice, PoolStats};
use vstd::arithmetic::div_mod::{
    lemma_add_mod_noop_right, lemma_fundamental_div_mod, lemma_mod_bound, lemma_mod_mod,
    lemma_small_mod,
};
use vstd::prelude::*;

verus! {

/// How many exchanges with an endpoint are left to a send at most.
pub open spec fn exchanges_left<C>(step: StepView<C>) -> nat {
    match step {
        StepView::Connect { attempt, .. } => if attempt.retry {
            2
        } else {
            4
        },
        StepView::Transmit { attempt, .. } => if attempt.retry {
            1
        } else {
            3
        },
        StepView::Finished { .. } => 0,
    }
}

/// Whether a step stays within `total` endpoints.
pub open spec fn within<C>(step: StepView<C>, total: nat) -> bool {
    step.attempt() matches Some(attempt) ==> attempt.idx < total
}

/// A send starts with its first attempt, over one of the endpoints, or is over
/// at once.
pub proof fn law_send_starts<C>(pool: PoolView<C>, stats: PoolStats, now: u128)
    requires
        pool.endpoints.len() <= usize::MAX,
    ensures
        begun(pool, stats, now).pool.endpoints.len() == pool.endpoints.len(),
        within(begun(pool, stats, now).step, pool.endpoints.len()),
        begun(pool, stats, now).step.attempt() matches Some(attempt) ==> !attempt.retry
            && pool.endpoints[attempt.idx as int].state.ready_at(now),
        exchanges_left(begun(pool, stats, now).step) <= 4,
{
    law_picked_is_ready(pool, now);
}

/// The second attempt goes to another endpoint than the first, one that may be
/// tried, and there is no third.
pub proof fn law_retry_elsewhere<C>(
    pool: PoolView<C>,
    stats: PoolStats,
    attempt: Attempt,
    error: Seq<char>,
    now: u128,
    random: u64,
)
    requires
        attempt.idx < pool.endpoints.len() <= usize::MAX,
        now < duration_end(),
    ensures
        match fell_through(pool, stats, attempt, error, now, random).step.attempt() {
            Some(next) => {
                &&& !attempt.retry
                &&& next.retry
                &&& next.idx != attempt.idx
                &&& next.idx < pool.endpoints.len()
                &&& pool.endpoints[next.idx as int].state.ready_at(now)
            },
            None => true,
        },
        fell_through(pool, stats, attempt, error, now, random).pool.endpoints.len()
            == pool.endpoints.len(),
{
    let rested = pool.failed(attempt.idx as int, now, random);
    law_failed_endpoint_rests(pool, attempt.idx as int, now, random, now);
    law_picked_is_ready(rested, now);
}

/// Where another endpoint may be tried, the first attempt is not the last: a
/// second one is made, if the last pass of the choice looks at that endpoint.
pub proof fn law_failover<C>(
    pool: PoolView<C>,
    stats: PoolStats,
    attempt: Attempt,
    error: Seq<char>,
    now: u128,
    random: u64,
    other: int,
)
    requires
        attempt.idx < pool.endpoints.len() <= usize::MAX,
        !attempt.retry,
        now < duration_end(),
        other != attempt.idx,
        reaches(last_pass(pool), pool.endpoints.len(), other),
        0 <= other < pool.endpoints.len(),
        pool.endpoints[other].state.ready_at(now),
    ensures
        fell_through(pool, stats, attempt, error, now, random).step.attempt() matches Some(next)
            && next.retry,
{
    law_pick_finds(pool.failed(attempt.idx as int, now, random), now, other);
}

/// Where no endpoint may be tried, a send is refused at once, and no endpoint is
/// touched.
pub proof fn law_refused<C>(pool: PoolView<C>, stats: PoolStats, now: u128)
    requires
        pool.endpoints.len() <= usize::MAX,
        forall|i: int|
            0 <= i < pool.endpoints.len() ==> !(#[trigger] pool.endpoints[i]).state.ready_at(now),
    ensures
        ({
            let after = begun(pool, stats, now);
            &&& after.step == StepView::<C>::Finished { result: Err("all endpoints unavailable"@) }
            &&& after.stats == stats.gave_up()
            &&& after.pool.endpoints == pool.endpoints
        }),
{
    law_picked_is_ready(pool, now);
}

/// Where no other endpoint may be tried, a send is over with its first attempt,
/// and only the endpoint of that attempt is touched.
pub proof fn law_nowhere_else<C>(
    pool: PoolView<C>,
    stats: PoolStats,
    attempt: Attempt,
    error: Seq<char>,
    now: u128,
    random: u64,
)
    requires
        attempt.idx < pool.endpoints.len() <= usize::MAX,
        !attempt.retry,
        now < duration_end(),
        forall|i: int|
            0 <= i < pool.endpoints.len() && i != attempt.idx ==> !(
            #[trigger] pool.endpoints[i]).state.ready_at(now),
    ensures
        ({
            let after = fell_through(pool, stats, attempt, error, now, random);
            &&& after.step == StepView::<C>::Finished {
                result: Err("all endpoints unavailable after retry"@),
            }
            &&& after.stats == stats.write_failed().gave_up()
            &&& after.pool.endpoints == pool.failed(attempt.idx as int, now, random).endpoints
        }),
{
    law_retry_elsewhere(pool, stats, attempt, error, now, random);
    law_picked_is_ready(pool.failed(attempt.idx as int, now, random), now);
}

/// A send whose first attempt failed stands or falls with its second one.
pub proof fn law_second_decides<C>(
    pool: PoolView<C>,
    stats: PoolStats,
    first: Attempt,
    error: Seq<char>,
    now: u128,
    random: u64,
    client: C,
    result: Result<u32, Seq<char>>,
    later: u128,
    another: u64,
)
    requires
        first.idx < pool.endpoints.len() <= usize::MAX,
        now < duration_end(),
    ensures
        ({
            let between = fell_through(pool, stats, first, error, now, random);
            between.step.attempt() matches Some(second) ==> {
                let after = after_transmit(
                    between.pool,
                    between.stats,
                    second,
                    client,
                    result,
                    later,
                    another,
                );
                match result {
                    Ok(acked) => {
                        &&& after.step == StepView::<C>::Finished { result: Ok(acked) }
                        &&& after.stats == stats.write_failed().retry_succeeded()
                    },
                    Err(reason) => {
                        &&& after.step == StepView::<C>::Finished {
                            result: Err("retry also failed: "@ + ("send: "@ + reason)),
                        }
                        &&& after.stats == stats.write_failed().gave_up()
                    },
                }
            }
        }),
{
    law_retry_elsewhere(pool, stats, first, error, now, random);
}

/// A connection is opened only where there is none, and one over which a send
/// succeeded is used for the next attempt over that endpoint.
pub proof fn law_connection_reused<C>(
    pool: PoolView<C>,
    stats: PoolStats,
    attempt: Attempt,
    next: Attempt,
    client: C,
    acked: u32,
    now: u128,
    random: u64,
)
    requires
        attempt.idx < pool.endpoints.len(),
        next.idx == attempt.idx,
    ensures
        attempted(pool, attempt).1 is Connect <==> pool.endpoints[attempt.idx as int].client
            is None,
        attempted(
            after_transmit(pool, stats, attempt, client, Ok(acked), now, random).pool,
            next,
        ).1 == (StepView::Transmit { attempt: next, client }),
{
}

/// Opening a connection brings a send nearer to its end, whatever comes of it.
pub proof fn law_connect_advances<C>(
    pool: PoolView<C>,
    stats: PoolStats,
    attempt: Attempt,
    addr: Seq<char>,
    result: Result<C, Seq<char>>,
    now: u128,
    random: u64,
)
    requires
        attempt.idx < pool.endpoints.len() <= usize::MAX,
        now < duration_end(),
    ensures
        ({
            let after = after_connect(pool, stats, attempt, result, now, random);
            &&& exchanges_left(after.step) < exchanges_left(
                StepView::<C>::Connect { attempt, addr },
            )
            &&& within(after.step, pool.endpoints.len())
            &&& after.pool.endpoints.len() == pool.endpoints.len()
        }),
{
    if let Err(error) = result {
        law_retry_elsewhere(
            pool,
            stats,
            attempt,
            "connect to "@ + pool.endpoints[attempt.idx as int].spec_addr() + ": "@ + error,
            now,
            random,
        );
    }
}

/// Transmitting brings a send nearer to its end, whatever comes of it.
pub proof fn law_transmit_advances<C>(
    pool: PoolView<C>,
    stats: PoolStats,
    attempt: Attempt,
    client: C,
    result: Result<u32, Seq<char>>,
    now: u128,
    random: u64,
)
    requires
        attempt.idx < pool.endpoints.len() <= usize::MAX,
        now < duration_end(),
    ensures
        ({
            let after = after_transmit(pool, stats, attempt, client, result, now, random);
            &&& exchanges_left(after.step) < exchanges_left(
                StepView::Transmit { attempt, client },
            )
            &&& within(after.step, pool.endpoints.len())
            &&& after.pool.endpoints.len() == pool.endpoints.len()
        }),
{
    if let Err(error) = result {
        law_retry_elsewhere(pool, stats, attempt, "send: "@ + error, now, random);
    }
}

/// Whether a step gives up: the send is over, and failed.
pub open spec fn gives_up<C>(progress: Progress<C>) -> bool {
    progress.step matches StepView::Finished { result } && result is Err
}

/// Once if it is so, else not at all.
pub open spec fn once(so: bool) -> nat {
    if so {
        1
    } else {
        0
    }
}

/// What the statistics are after a step that came from `stats`: one more send
/// that no endpoint took, if and only if the step gives up; one more first
/// attempt that failed, if and only if `first_failed`; one more second attempt
/// that succeeded, if and only if `second_succeeded`.
pub open spec fn accounted<C>(
    stats: PoolStats,
    progress: Progress<C>,
    first_failed: bool,
    second_succeeded: bool,
) -> bool {
    progress.stats == PoolStats {
        write_failures: counted(stats.write_failures, once(first_failed)),
        retry_successes: counted(stats.retry_successes, once(second_succeeded)),
        all_endpoints_failed: counted(stats.all_endpoints_failed, once(gives_up(progress))),
    }
}

/// A send that starts counts nothing, unless it gives up at once.
pub proof fn law_start_accounted<C>(pool: PoolView<C>, stats: PoolStats, now: u128)
    ensures
        accounted(stats, begun(pool, stats, now), false, false),
{
}

/// A failed attempt is counted for what it is.
proof fn lemma_failure_accounted<C>(
    pool: PoolView<C>,
    stats: PoolStats,
    attempt: Attempt,
    error: Seq<char>,
    now: u128,
    random: u64,
)
    ensures
        accounted(
            stats,
            fell_through(pool, stats, attempt, error, now, random),
            !attempt.retry,
            false,
        ),
{
}

/// Whatever comes of connecting is counted for what it is.
pub proof fn law_connect_accounted<C>(
    pool: PoolView<C>,
    stats: PoolStats,
    attempt: Attempt,
    result: Result<C, Seq<char>>,
    now: u128,
    random: u64,
)
    ensures
        accounted(
            stats,
            after_connect(pool, stats, attempt, result, now, random),
            result is Err && !attempt.retry,
            false,
        ),
{
    if let Err(error) = result {
        lemma_failure_accounted(
            pool,
            stats,
            attempt,
            "connect to "@ + pool.endpoints[attempt.idx as int].spec_addr() + ": "@ + error,
            now,
            random,
        );
    }
}

/// Whatever comes of transmitting is counted for what it is.
pub proof fn law_transmit_accounted<C>(
    pool: PoolView<C>,
    stats: PoolStats,
    attempt: Attempt,
    client: C,
    result: Result<u32, Seq<char>>,
    now: u128,
    random: u64,
)
    ensures
        accounted(
            stats,
            after_transmit(pool, stats, attempt, client, result, now, random),
            result is Err && !attempt.retry,
            result is Ok && attempt.retry,
        ),
{
    if let Err(error) = result {
        lemma_failure_accounted(pool, stats, attempt, "send: "@ + error, now, random);
    }
}

/// An exchange with an endpoint, and what came of it.
pub enum Exchange<C> {
    /// A connection was asked for.
    Opened { opened: Result<C, Seq<char>>, now: u128, random: u64 },
    /// The events went out over `client`.
    Acked { client: C, acked: Result<u32, Seq<char>>, now: u128, random: u64 },
}

impl<C> Exchange<C> {
    pub open spec fn failed(self) -> bool {
        match self {
            Exchange::Opened { opened, .. } => opened is Err,
            Exchange::Acked { acked, .. } => acked is Err,
        }
    }

    /// Whether it is the exchange that a step needs.
    pub open spec fn fits(self, step: StepView<C>) -> bool {
        match self {
            Exchange::Opened { now, .. } => step is Connect && now < duration_end(),
            Exchange::Acked { now, .. } => step is Transmit && now < duration_end(),
        }
    }
}

/// Where a send is after an exchange.
#[verifier::opaque]
pub open spec fn exchanged<C>(progress: Progress<C>, exchange: Exchange<C>) -> Progress<C> {
    let attempt = progress.step.attempt()->0;
    match exchange {
        Exchange::Opened { opened, now, random } => after_connect(
            progress.pool,
            progress.stats,
            attempt,
            opened,
            now,
            random,
        ),
        Exchange::Acked { client, acked, now, random } => after_transmit(
            progress.pool,
            progress.stats,
            attempt,
            client,
            acked,
            now,
            random,
        ),
    }
}

/// Where a send that starts at the moment `now` is after these exchanges.
pub open spec fn sent_over<C>(
    pool: PoolView<C>,
    stats: PoolStats,
    now: u128,
    exchanges: Seq<Exchange<C>>,
) -> Progress<C>
    decreases exchanges.len(),
{
    if exchanges.len() == 0 {
        begun(pool, stats, now)
    } else {
        exchanged(sent_over(pool, stats, now, exchanges.drop_last()), exchanges.last())
    }
}

/// Whether each of these exchanges is the one that the send then needs.
pub open spec fn goes_over<C>(
    pool: PoolView<C>,
    stats: PoolStats,
    now: u128,
    exchanges: Seq<Exchange<C>>,
) -> bool
    decreases exchanges.len(),
{
    exchanges.len() > 0 ==> {
        &&& goes_over(pool, stats, now, exchanges.drop_last())
        &&& exchanges.last().fits(sent_over(pool, stats, now, exchanges.drop_last()).step)
    }
}

/// Whether the first attempt of a send failed in one of these exchanges.
pub open spec fn first_failed<C>(
    pool: PoolView<C>,
    stats: PoolStats,
    now: u128,
    exchanges: Seq<Exchange<C>>,
) -> bool
    decreases exchanges.len(),
{
    exchanges.len() > 0 && {
        let earlier = exchanges.drop_last();
        ||| first_failed(pool, stats, now, earlier)
        ||| exchanges.last().failed() && !(sent_over(
            pool,
            stats,
            now,
            earlier,
        ).step.attempt()->0.retry)
    }
}

/// Every send ends after at most four exchanges, whatever comes of them. In the
/// end it is counted in whole: as one that no endpoint took, if and only if its
/// result is an error; as one whose first attempt failed, if and only if it did;
/// and as one that was saved by its second attempt, if and only if the first failed
/// and the result is a success.
pub proof fn law_whole_send<C>(
    pool: PoolView<C>,
    stats: PoolStats,
    now: u128,
    exchanges: Seq<Exchange<C>>,
)
    requires
        pool.endpoints.len() <= usize::MAX,
        goes_over(pool, stats, now, exchanges),
    ensures
        ({
            let progress = sent_over(pool, stats, now, exchanges);
            &&& exchanges.len() <= 4
            &&& exchanges.len() == 4 ==> progress.step is Finished
            &&& progress.step matches StepView::Finished { result } ==> {
                let failed = first_failed(pool, stats, now, exchanges);
                progress.stats == PoolStats {
                    write_failures: counted(stats.write_failures, once(failed)),
                    retry_successes: counted(stats.retry_successes, once(failed && result is Ok)),
                    all_endpoints_failed: counted(stats.all_endpoints_failed, once(result is Err)),
                }
            }
        }),
{
    lemma_send_so_far(pool, stats, now, exchanges);
}

/// What holds of a send at any time.
proof fn lemma_send_so_far<C>(
    pool: PoolView<C>,
    stats: PoolStats,
    now: u128,
    exchanges: Seq<Exchange<C>>,
)
    requires
        pool.endpoints.len() <= usize::MAX,
        goes_over(pool, stats, now, exchanges),
    ensures
        ({
            let progress = sent_over(pool, stats, now, exchanges);
            let failed = first_failed(pool, stats, now, exchanges);
            &&& progress.pool.endpoints.len() == pool.endpoints.len()
            &&& within(progress.step, pool.endpoints.len())
            &&& exchanges_left(progress.step) + exchanges.len() <= 4
            &&& progress.step.attempt() matches Some(attempt) ==> attempt.retry == failed
            &&& accounted(
                stats,
                progress,
                failed,
                failed && progress.step is Finished && !gives_up(progress),
            )
        }),
    decreases exchanges.len(),
{
    if exchanges.len() == 0 {
        law_send_starts(pool, stats, now);
        law_start_accounted(pool, stats, now);
    } else {
        let earlier = exchanges.drop_last();
        let before = sent_over(pool, stats, now, earlier);
        let after = sent_over(pool, stats, now, exchanges);
        lemma_send_so_far(pool, stats, now, earlier);
        lemma_exchange(before, exchanges.last());
        lemma_accounts_follow(
            stats,
            before,
            after,
            first_failed(pool, stats, now, earlier),
            exchanges.last().failed() && !before.step.attempt()->0.retry,
            before.step.attempt()->0.retry && after.step is Finished && !gives_up(after),
        );
    }
}

/// What was counted up to a step that does not end the send, and what was counted
/// for the next one, is what was counted altogether.
proof fn lemma_accounts_follow<C>(
    stats: PoolStats,
    before: Progress<C>,
    after: Progress<C>,
    failed_before: bool,
    fails: bool,
    saved: bool,
)
    requires
        accounted(stats, before, failed_before, false),
        !gives_up(before),
        accounted(before.stats, after, fails, saved),
        !(failed_before && fails),
    ensures
        accounted(stats, after, failed_before || fails, saved),
{
    lemma_counted_twice(stats.write_failures, once(failed_before), once(fails));
    lemma_counted_twice(stats.retry_successes, 0, once(saved));
    lemma_counted_twice(stats.all_endpoints_failed, 0, once(gives_up(after)));
}

/// What one exchange does to a send.
proof fn lemma_exchange<C>(before: Progress<C>, exchange: Exchange<C>)
    requires
        before.pool.endpoints.len() <= usize::MAX,
        within(before.step, before.pool.endpoints.len()),
        exchange.fits(before.step),
    ensures
        ({
            let after = exchanged(before, exchange);
            let attempt = before.step.attempt()->0;
            &&& after.pool.endpoints.len() == before.pool.endpoints.len()
            &&& within(after.step, before.pool.endpoints.len())
            &&& exchanges_left(after.step) < exchanges_left(before.step)
            &&& after.step.attempt() matches Some(next) ==> next.retry == (attempt.retry
                || exchange.failed())
            &&& after.step is Finished && !gives_up(after) ==> !exchange.failed()
            &&& accounted(
                before.stats,
                after,
                exchange.failed() && !attempt.retry,
                attempt.retry && after.step is Finished && !gives_up(after),
            )
        }),
{
    reveal(exchanged);
    let attempt = before.step.attempt()->0;
    match exchange {
        Exchange::Opened { opened, now, random } => {
            let addr = before.step->addr;
            law_connect_advances(before.pool, before.stats, attempt, addr, opened, now, random);
            law_connect_accounted(before.pool, before.stats, attempt, opened, now, random);
            if let Err(error) = opened {
                law_retry_elsewhere(
                    before.pool,
                    before.stats,
                    attempt,
                    "connect to "@ + before.pool.endpoints[attempt.idx as int].spec_addr() + ": "@
                        + error,
                    now,
                    random,
                );
            }
        },
        Exchange::Acked { client, acked, now, random } => {
            law_transmit_advances(
                before.pool,
                before.stats,
                attempt,
                client,
                acked,
                now,
                random,
            );
            law_transmit_accounted(
                before.pool,
                before.stats,
                attempt,
                client,
                acked,
                now,
                random,
            );
            if let Err(error) = acked {
                law_retry_elsewhere(
                    before.pool,
                    before.stats,
                    attempt,
                    "send: "@ + error,
                    now,
                    random,
                );
            }
        },
    }
}

/// A send succeeds with the number that the endpoint acknowledged, and with no
/// other; the endpoint then keeps its connection and is available.
pub proof fn law_success_is_kept<C>(
    pool: PoolView<C>,
    stats: PoolStats,
    attempt: Attempt,
    client: C,
    acked: u32,
    now: u128,
    random: u64,
)
    requires
        attempt.idx < pool.endpoints.len(),
    ensures
        ({
            let after = after_transmit(pool, stats, attempt, client, Ok(acked), now, random);
            &&& after.step == StepView::<C>::Finished { result: Ok(acked) }
            &&& after.pool.endpoints[attempt.idx as int].client == Some(client)
            &&& after.pool.endpoints[attempt.idx as int].state is Available
            &&& after.pool.endpoints[attempt.idx as int].consecutive_failures == 0
        }),
{
}

/// An endpoint over which an attempt failed is left without a connection, with
/// one failure more, and cools down.
pub proof fn law_failure_is_kept<C>(
    pool: PoolView<C>,
    stats: PoolStats,
    attempt: Attempt,
    error: Seq<char>,
    now: u128,
    random: u64,
)
    requires
        attempt.idx < pool.endpoints.len() <= usize::MAX,
        now < duration_end(),
    ensures
        fell_through(pool, stats, attempt, error, now, random).pool.endpoints[attempt.idx as int]
            == pool.endpoints[attempt.idx as int].failed(now, random),
{
    let rested = pool.failed(attempt.idx as int, now, random);
    law_picked_is_ready(rested, now);
    law_retry_elsewhere(pool, stats, attempt, error, now, random);
}

/// A send leaves every endpoint as it was, but for the one whose attempt ends
/// and the one whose attempt starts, of which at most the connection is taken.
pub proof fn law_others_unchanged<C>(
    pool: PoolView<C>,
    stats: PoolStats,
    attempt: Attempt,
    error: Seq<char>,
    now: u128,
    random: u64,
    other: int,
)
    requires
        attempt.idx < pool.endpoints.len() <= usize::MAX,
        now < duration_end(),
        0 <= other < pool.endpoints.len(),
        other != attempt.idx,
    ensures
        ({
            let before = pool.endpoints[other];
            let after = fell_through(
                pool,
                stats,
                attempt,
                error,
                now,
                random,
            );
            let started = begun(pool, stats, now);
            &&& after.pool.endpoints[other].state == before.state
            &&& after.pool.endpoints[other].consecutive_failures == before.consecutive_failures
            &&& started.pool.endpoints[other].state == before.state
            &&& started.pool.endpoints[other].consecutive_failures == before.consecutive_failures
            &&& after.step.attempt() != Some(Attempt { idx: other as usize, retry: true })
                ==> after.pool.endpoints[other] == before
            &&& started.step.attempt() != Some(Attempt { idx: other as usize, retry: false })
                ==> started.pool.endpoints[other] == before
        }),
{
    law_picked_is_ready(pool, now);
    law_picked_is_ready(pool.failed(attempt.idx as int, now, random), now);
}

/// Endpoints fit together with what is known of them at every step of a send.
pub proof fn law_send_stays_sound<C>(
    pool: PoolView<C>,
    stats: PoolStats,
    attempt: Attempt,
    client: C,
    opened: Result<C, Seq<char>>,
    acked: Result<u32, Seq<char>>,
    now: u128,
    random: u64,
)
    requires
        pool.sound(),
        attempt.idx < pool.endpoints.len() <= usize::MAX,
    ensures
        begun(pool, stats, now).pool.sound(),
        after_connect(pool, stats, attempt, opened, now, random).pool.sound(),
        after_transmit(pool, stats, attempt, client, acked, now, random).pool.sound(),
{
    lemma_start_sound(pool, stats, now);
    lemma_connect_sound(pool, stats, attempt, opened, now, random);
    lemma_transmit_sound(pool, stats, attempt, client, acked, now, random);
}

/// They do after connecting.
pub proof fn lemma_connect_sound<C>(
    pool: PoolView<C>,
    stats: PoolStats,
    attempt: Attempt,
    result: Result<C, Seq<char>>,
    now: u128,
    random: u64,
)
    requires
        pool.sound(),
        attempt.idx < pool.endpoints.len() <= usize::MAX,
    ensures
        after_connect(pool, stats, attempt, result, now, random).pool.sound(),
{
    if let Err(error) = result {
        lemma_failure_sound(
            pool,
            stats,
            attempt,
            "connect to "@ + pool.endpoints[attempt.idx as int].spec_addr() + ": "@ + error,
            now,
            random,
        );
    }
}

/// They do after transmitting.
pub proof fn lemma_transmit_sound<C>(
    pool: PoolView<C>,
    stats: PoolStats,
    attempt: Attempt,
    client: C,
    result: Result<u32, Seq<char>>,
    now: u128,
    random: u64,
)
    requires
        pool.sound(),
        attempt.idx < pool.endpoints.len() <= usize::MAX,
    ensures
        after_transmit(pool, stats, attempt, client, result, now, random).pool.sound(),
{
    if let Err(error) = result {
        lemma_failure_sound(pool, stats, attempt, "send: "@ + error, now, random);
    }
}

/// They do where a send starts.
pub proof fn lemma_start_sound<C>(pool: PoolView<C>, stats: PoolStats, now: u128)
    requires
        pool.sound(),
        pool.endpoints.len() <= usize::MAX,
    ensures
        begun(pool, stats, now).pool.sound(),
{
    law_picked_is_ready(pool, now);
}

/// They do where an attempt failed.
proof fn lemma_failure_sound<C>(
    pool: PoolView<C>,
    stats: PoolStats,
    attempt: Attempt,
    error: Seq<char>,
    now: u128,
    random: u64,
)
    requires
        pool.sound(),
        attempt.idx < pool.endpoints.len() <= usize::MAX,
    ensures
        fell_through(pool, stats, attempt, error, now, random).pool.sound(),
{
    law_picked_is_ready(pool.failed(attempt.idx as int, now, random), now);
}

/// A pool after one send over it that goes well: an endpoint is found at the
/// moment `now`, is connected to if need be, and acknowledges over `client`. The
/// statistics and the number acknowledged make no difference to it.
pub open spec fn sent_well<C>(pool: PoolView<C>, now: u128, client: C) -> PoolView<C> {
    let stats = PoolStats { write_failures: 0, retry_successes: 0, all_endpoints_failed: 0 };
    let started = begun(pool, stats, now);
    after_transmit(
        started.pool,
        stats,
        started.step.attempt()->0,
        client,
        Ok(0),
        now,
        0,
    ).pool
}

/// A pool of these endpoints after as many sends as there are pairs, each of which
/// went well at that moment and over that connection.
pub open spec fn sent_well_since<C>(
    endpoints: Seq<(String, u16)>,
    sends: Seq<(u128, C)>,
) -> PoolView<C>
    decreases sends.len(),
{
    if sends.len() == 0 {
        fresh(endpoints)
    } else {
        sent_well(
            sent_well_since(endpoints, sends.drop_last()),
            sends.last().0,
            sends.last().1,
        )
    }
}

/// As long as all goes well, the sends go around the endpoints: the one after
/// `sends.len()` others goes to the endpoint of that number, modulo the number of
/// endpoints, and connects only in the first round.
pub proof fn law_sends_go_around<C>(
    endpoints: Seq<(String, u16)>,
    sends: Seq<(u128, C)>,
    stats: PoolStats,
    now: u128,
)
    requires
        0 < endpoints.len() <= usize::MAX,
    ensures
        ({
            let step = begun(sent_well_since(endpoints, sends), stats, now).step;
            &&& step.attempt() matches Some(attempt) && !attempt.retry && attempt.idx == probed(
                0,
                sends.len() as int,
                endpoints.len(),
            )
            &&& sends.len() <= usize::MAX || (usize::MAX + 1) % endpoints.len() as int == 0
                ==> step.attempt()->0.idx == sends.len() % endpoints.len()
            &&& step is Connect <==> sends.len() < endpoints.len()
        }),
{
    let total = endpoints.len();
    let count = sends.len() as int;
    let pool = sent_well_since(endpoints, sends);
    lemma_went_well(endpoints, sends);
    lemma_next_available(pool, now);
    if count <= usize::MAX {
        lemma_small_mod(count as nat, (usize::MAX + 1) as nat);
    } else if (usize::MAX + 1) % total as int == 0 {
        lemma_fundamental_div_mod(usize::MAX + 1, total as int);
        let turns = (usize::MAX + 1) / total as int;
        assert(turns > 0) by (nonlinear_arith)
            requires
                usize::MAX + 1 == total as int * turns,
                total > 0,
        ;
        lemma_mod_mod(count, total as int, turns);
    }
    if count < total {
        lemma_small_mod(count as nat, total);
    }
    lemma_mod_bound(pool.cursor as int, total as int);
}

/// An available endpoint under the cursor is the one that a send starts with.
proof fn lemma_next_available<C>(pool: PoolView<C>, now: u128)
    requires
        0 < pool.endpoints.len() <= usize::MAX,
        forall|i: int|
            0 <= i < pool.endpoints.len() ==> (#[trigger] pool.endpoints[i]).state is Available,
    ensures
        pool.pick(now) == (
            Some((pool.cursor as int % pool.endpoints.len() as int) as usize),
            PoolView { cursor: advanced(pool.cursor, 1), ..pool },
        ),
        0 <= pool.cursor as int % (pool.endpoints.len() as int) < pool.endpoints.len(),
{
    law_round_robin(pool, 0, 0, now);
    lemma_small_mod(pool.cursor as nat, (usize::MAX + 1) as nat);
    assert(advanced(pool.cursor, 0) == pool.cursor);
    lemma_mod_bound(pool.cursor as int, pool.endpoints.len() as int);
}

/// After sends that all went well the cursor has moved on by as many, every
/// endpoint is available, and those that have had their turn are connected.
proof fn lemma_went_well<C>(endpoints: Seq<(String, u16)>, sends: Seq<(u128, C)>)
    requires
        0 < endpoints.len() <= usize::MAX,
    ensures
        ({
            let pool = sent_well_since(endpoints, sends);
            &&& pool.endpoints.len() == endpoints.len()
            &&& pool.cursor == advanced(0, sends.len() as int)
            &&& forall|i: int|
                0 <= i < endpoints.len() ==> {
                    &&& (#[trigger] pool.endpoints[i]).state is Available
                    &&& pool.endpoints[i].client is Some <==> i < sends.len()
                }
        }),
    decreases sends.len(),
{
    let total = endpoints.len();
    let range = usize::MAX + 1;
    if sends.len() == 0 {
        lemma_small_mod(0, range as nat);
    } else {
        let before = sent_well_since(endpoints, sends.drop_last());
        let done = sends.len() - 1;
        lemma_went_well(endpoints, sends.drop_last());
        lemma_next_available(before, sends.last().0);
        lemma_add_mod_noop_right(1, done, range);
        assert(advanced(before.cursor, 1) == advanced(0, sends.len() as int));
        if done < total {
            lemma_small_mod(done as nat, range as nat);
            lemma_small_mod(done as nat, total);
        }
    }
}

} // verus!
