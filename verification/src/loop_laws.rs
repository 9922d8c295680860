//! What each step of the send loop comes to.
use crate::clock::duration_end;
use crate::endpoint::EndpointState;
use crate::event::{events_of, total_len, Encoded, SenderConfig};
use crate::json::Json;
use crate::pool::{fresh, PoolView};
use crate::pool_laws::{hits, slot};
use crate::retry::{after_connect, after_transmit, begun, fell_through, Attempt, Progress, StepView};
use crate::retry_laws::{law_nowhere_else, law_retry_elsewhere};
use crate::sender::{
    full_batch, pool_ensured, Action, ActionView, PhaseView, PoolInUse, SenderView,
};
use crate::sender_laws::lemma_filter_parts;
use crate::stats::{counted, law_counted, SenderCounter};
use crate::step_laws::{
    law_after_transmit, law_attempt_fails, law_failed_endpoint, law_second_attempt, moved, rests,
};
use vstd::prelude::*;

verus! {

/// A full batch has as many messages as are configured, but at least one and at
/// most 1024.
pub proof fn law_full_batch(configured: usize)
    ensures
        configured == 0 ==> full_batch(configured) == 1,
        1 <= configured <= 1024 ==> full_batch(configured) == configured,
        configured > 1024 ==> full_batch(configured) == 1024,
{
}

/// Whether the counters have moved on by these numbers: of messages received, of
/// events acknowledged and of their bytes, and of messages that were not sent.
pub open spec fn counts(
    before: SenderCounter,
    after: SenderCounter,
    came: nat,
    acked: nat,
    bytes: nat,
    dropped: nat,
) -> bool {
    &&& after.rx == counted(before.rx, came)
    &&& after.tx == counted(before.tx, acked)
    &&& after.tx_bytes == counted(before.tx_bytes, bytes)
    &&& after.dropped == counted(before.dropped, dropped)
}

/// A loop that is not to go on stops, and changes nothing. One that is begins an
/// empty batch with these settings and waits three seconds for its first message.
pub proof fn law_polled<M, C>(
    sender: SenderView<M, C>,
    settings: SenderConfig,
    pool: Option<PoolInUse<C>>,
)
    ensures
        sender.polled(false, settings, pool).0 == sender,
        sender.polled(false, settings, pool).1 is Stop,
        ({
            let (after, action) = sender.polled(true, settings, pool);
            let configured = settings.lumberjack_batch_size;
            &&& action == (ActionView::<M, C>::Receive { timeout_secs: 3 })
            &&& after.counter == sender.counter
            &&& after.pool_stats == sender.pool_stats
            &&& after.pool == pool
            &&& after.phase matches PhaseView::Receiving { batch, batch_size, settings: kept } && {
                &&& batch.len() == 0
                &&& batch_size == full_batch(configured)
                &&& kept == settings
            }
        }),
{
}

/// A pool that there is stays, whatever the settings say. Where there is none, the
/// first settings that name an endpoint make one: with these endpoints, and with
/// the compression, the timeout and the ports that they give.
pub proof fn law_pool_ensured<C>(
    before: Option<PoolInUse<C>>,
    config: SenderConfig,
    after: Option<PoolInUse<C>>,
)
    requires
        pool_ensured(before, config, after),
    ensures
        before is Some ==> after == before,
        before is None && config.lumberjack_endpoints@.len() == 0 ==> after is None,
        before is None && config.lumberjack_endpoints@.len() > 0 ==> (after matches Some(pool) && {
            &&& pool.state == fresh::<C>(config.lumberjack_endpoints@)
            &&& pool.config.compression_level == config.lumberjack_compression_level
            &&& pool.config.ack_timeout == config.lumberjack_ack_timeout
            &&& pool.config.local_port_range == config.lumberjack_local_port_range
        }),
{
}

/// A message that leaves the batch short of its size is followed by waiting for
/// another that is there at once; one that fills the batch, by handing all of it
/// on. Where no message is there in time, what there is of the batch is handed on,
/// and an empty one is over. The messages of a batch are counted when it is handed
/// on, and nothing else changes.
pub proof fn law_received<M, C>(sender: SenderView<M, C>, message: Option<M>)
    requires
        sender.wf(),
        sender.phase is Receiving,
    ensures
        ({
            let (after, action) = sender.received(message);
            let batch = sender.phase->batch;
            let size = sender.phase->batch_size;
            let settings = sender.phase->Receiving_settings;
            let longer = match message {
                Some(message) => batch.push(message),
                None => batch,
            };
            let goes_on = message is Some && longer.len() < size;
            let is_over = message is None && batch.len() == 0;
            &&& after.pool == sender.pool
            &&& after.pool_stats == sender.pool_stats
            &&& goes_on ==> {
                &&& action == (ActionView::<M, C>::Receive { timeout_secs: 0 })
                &&& after.phase == (PhaseView::Receiving {
                    batch: longer,
                    batch_size: size,
                    settings,
                })
                &&& after.counter == sender.counter
            }
            &&& is_over ==> {
                &&& action == (ActionView::<M, C>::Poll { failure: None })
                &&& after.phase is Idle
                &&& after.counter == sender.counter
            }
            &&& !goes_on && !is_over ==> {
                &&& action == (ActionView::<M, C>::Encode { batch: longer })
                &&& after.phase == (PhaseView::<M>::Encoding { messages: longer.len(), settings })
                &&& counts(sender.counter, after.counter, longer.len(), 0, 0, 0)
                &&& message is Some ==> longer.len() == size
            }
        }),
{
    law_counted(sender.counter.tx, 0);
    law_counted(sender.counter.tx_bytes, 0);
    law_counted(sender.counter.dropped, 0);
}

/// A sender after these messages came one by one.
pub open spec fn took<M, C>(sender: SenderView<M, C>, messages: Seq<M>) -> SenderView<M, C>
    decreases messages.len(),
{
    if messages.len() == 0 {
        sender
    } else {
        took(sender, messages.drop_last()).received(Some(messages.last())).0
    }
}

/// A batch is filled up to the size that is configured, which counts as 1024 where
/// it is more and as one where it is zero: as long as fewer messages came, one more
/// is waited for, and the one that fills the batch sees all of them handed on, in
/// the order in which they came.
pub proof fn law_batch_is_filled<M, C>(
    sender: SenderView<M, C>,
    settings: SenderConfig,
    pool: Option<PoolInUse<C>>,
    messages: Seq<M>,
)
    requires
        sender.wf(),
        sender.phase is Idle,
        pool_ensured(sender.pool, settings, pool),
        messages.len() > 0,
        messages.len() <= 1024,
        messages.len() <= settings.lumberjack_batch_size || messages.len() == 1,
    ensures
        ({
            let begun = sender.polled(true, settings, pool).0;
            let before = took(begun, messages.drop_last());
            let (after, action) = before.received(Some(messages.last()));
            &&& before.phase is Receiving
            &&& before.wf()
            &&& if messages.len() < settings.lumberjack_batch_size && messages.len() < 1024 {
                &&& action == (ActionView::<M, C>::Receive { timeout_secs: 0 })
                &&& after.phase matches PhaseView::Receiving { batch, .. } && batch == messages
                &&& after.counter == sender.counter
            } else {
                &&& action == (ActionView::<M, C>::Encode { batch: messages })
                &&& after.counter.rx == counted(sender.counter.rx, messages.len())
            }
        }),
{
    let begun = sender.polled(true, settings, pool).0;
    assert(settings.lumberjack_endpoints.len() <= usize::MAX);
    assert(begun.wf());
    lemma_collects(begun, messages.drop_last());
    assert(messages.drop_last().push(messages.last()) =~= messages);
}

/// Messages that do not fill a batch are collected in it.
proof fn lemma_collects<M, C>(sender: SenderView<M, C>, messages: Seq<M>)
    requires
        sender.wf(),
        sender.phase is Receiving,
        sender.phase->batch.len() + messages.len() < sender.phase->batch_size,
    ensures
        ({
            let after = took(sender, messages);
            &&& after.wf()
            &&& after.counter == sender.counter
            &&& after.phase is Receiving
            &&& after.phase->batch == sender.phase->batch + messages
            &&& after.phase->batch_size == sender.phase->batch_size
            &&& after.phase->Receiving_settings == sender.phase->Receiving_settings
        }),
    decreases messages.len(),
{
    if messages.len() == 0 {
        assert(sender.phase->batch + messages =~= sender.phase->batch);
    } else {
        lemma_collects(sender, messages.drop_last());
        assert((sender.phase->batch + messages.drop_last()).push(messages.last())
            =~= sender.phase->batch + messages);
    }
}

/// The events that the messages of a batch become, by the settings that it was
/// begun with, wait for admission with their length; the messages that become none
/// are counted as dropped, and where none becomes one the batch is over. Nothing
/// else changes.
pub proof fn law_encoded<M, C>(sender: SenderView<M, C>, messages: Seq<Encoded>)
    requires
        sender.wf(),
        sender.phase is Encoding,
        messages.len() == sender.phase->messages,
    ensures
        ({
            let (after, action) = sender.encoded(messages);
            let events = events_of(messages, sender.phase->Encoding_settings);
            let raw_bytes = counted(0, total_len(events));
            let unreadable = messages.filter(|message: Encoded| message.json is None).len();
            &&& after.pool == sender.pool
            &&& after.pool_stats == sender.pool_stats
            &&& counts(sender.counter, after.counter, 0, 0, 0, unreadable)
            &&& events.len() + unreadable == messages.len()
            &&& unreadable == messages.len() ==> {
                &&& after.phase is Idle
                &&& action == (ActionView::<M, C>::Poll { failure: None })
            }
            &&& unreadable < messages.len() ==> {
                &&& after.phase == (PhaseView::<M>::Admitting { events, raw_bytes })
                &&& action == (ActionView::<M, C>::Admit { raw_bytes })
            }
        }),
{
    lemma_filter_parts(messages);
    law_counted(sender.counter.rx, 0);
    law_counted(sender.counter.tx, 0);
    law_counted(sender.counter.tx_bytes, 0);
}

/// Whether a sender has passed on what the send of these events came to: the pool
/// and its statistics are those of the send, and the pool's settings and clock are
/// as before; while the send needs something, that is what is asked for next, the
/// same events are kept for it and nothing is counted; when it is over, what was
/// acknowledged is counted with the bytes, or all events are counted as dropped and
/// the reason is given.
pub open spec fn passed_on<M, C>(
    before: SenderView<M, C>,
    events: Seq<Json>,
    raw_bytes: u64,
    progress: Progress<C>,
    after: SenderView<M, C>,
    action: ActionView<M, C>,
) -> bool {
    &&& after.pool matches Some(pool) && {
        &&& pool.state == progress.pool
        &&& pool.config == before.pool->0.config
        &&& pool.clock == before.pool->0.clock
    }
    &&& after.pool_stats == progress.stats
    &&& match progress.step {
        StepView::Connect { attempt, addr } => {
            &&& after.counter == before.counter
            &&& after.phase == (PhaseView::<M>::Connecting { events, raw_bytes, attempt })
            &&& action == (ActionView::<M, C>::Connect { attempt, addr })
        },
        StepView::Transmit { attempt, client } => {
            &&& after.counter == before.counter
            &&& after.phase == (PhaseView::<M>::Transmitting { events, raw_bytes, attempt })
            &&& action == (ActionView::<M, C>::Transmit { attempt, client })
        },
        StepView::Finished { result } => {
            &&& after.phase is Idle
            &&& match result {
                Ok(acked) => {
                    &&& counts(
                        before.counter,
                        after.counter,
                        0,
                        acked as nat,
                        raw_bytes as nat,
                        0,
                    )
                    &&& action == (ActionView::<M, C>::Poll { failure: None })
                },
                Err(error) => {
                    &&& counts(before.counter, after.counter, 0, 0, 0, events.len())
                    &&& action == (ActionView::<M, C>::Poll { failure: Some(error) })
                },
            }
        },
    }
}

/// Nothing is counted by counting nothing.
proof fn lemma_count_nothing(counter: SenderCounter)
    ensures
        counted(counter.rx, 0) == counter.rx,
        counted(counter.tx, 0) == counter.tx,
        counted(counter.tx_bytes, 0) == counter.tx_bytes,
        counted(counter.dropped, 0) == counter.dropped,
{
    law_counted(counter.rx, 0);
    law_counted(counter.tx, 0);
    law_counted(counter.tx_bytes, 0);
    law_counted(counter.dropped, 0);
}

/// Events that are admitted are sent over the pool. Those that are not, or that
/// there is no pool for, are counted as dropped, all of them, and the batch is over
/// without the pool having been touched.
pub proof fn law_admitted<M, C>(sender: SenderView<M, C>, granted: bool, now: u128)
    requires
        sender.wf(),
        sender.phase is Admitting,
    ensures
        ({
            let (after, action) = sender.admitted(granted, now);
            let events = sender.phase->Admitting_events;
            let raw_bytes = sender.phase->Admitting_raw_bytes;
            &&& granted && sender.pool is Some ==> passed_on(
                sender,
                events,
                raw_bytes,
                begun(sender.pool->0.state, sender.pool_stats, now),
                after,
                action,
            )
            &&& !granted || sender.pool is None ==> {
                &&& after.pool == sender.pool
                &&& after.pool_stats == sender.pool_stats
                &&& after.phase is Idle
                &&& counts(sender.counter, after.counter, 0, 0, 0, events.len())
                &&& action == (ActionView::<M, C>::Poll { failure: None })
            }
        }),
{
    lemma_count_nothing(sender.counter);
}

/// What comes of connecting is passed on, with the events that are to be sent.
pub proof fn law_connected<M, C>(
    sender: SenderView<M, C>,
    result: Result<C, Seq<char>>,
    now: u128,
    random: u64,
)
    requires
        sender.wf(),
        sender.phase is Connecting,
    ensures
        ({
            let (after, action) = sender.connected(result, now, random);
            passed_on(
                sender,
                sender.phase->Connecting_events,
                sender.phase->Connecting_raw_bytes,
                after_connect(
                    sender.pool->0.state,
                    sender.pool_stats,
                    sender.phase->Connecting_attempt,
                    result,
                    now,
                    random,
                ),
                after,
                action,
            )
        }),
{
    lemma_count_nothing(sender.counter);
}

/// What comes of transmitting is passed on, with the events that were sent.
pub proof fn law_transmitted<M, C>(
    sender: SenderView<M, C>,
    client: C,
    result: Result<u32, Seq<char>>,
    now: u128,
    random: u64,
)
    requires
        sender.wf(),
        sender.phase is Transmitting,
    ensures
        ({
            let (after, action) = sender.transmitted(client, result, now, random);
            passed_on(
                sender,
                sender.phase->Transmitting_events,
                sender.phase->Transmitting_raw_bytes,
                after_transmit(
                    sender.pool->0.state,
                    sender.pool_stats,
                    sender.phase->Transmitting_attempt,
                    client,
                    result,
                    now,
                    random,
                ),
                after,
                action,
            )
        }),
{
    lemma_count_nothing(sender.counter);
}

/// Whether a sender goes on with a second attempt for these events over another
/// endpoint than the one number `idx`, and has counted nothing.
pub open spec fn goes_elsewhere<M, C>(
    before: SenderView<M, C>,
    idx: usize,
    events: Seq<Json>,
    raw_bytes: u64,
    after: SenderView<M, C>,
    action: ActionView<M, C>,
) -> bool {
    &&& after.counter == before.counter
    &&& match action {
        ActionView::Connect { attempt, .. } => {
            &&& attempt.retry
            &&& attempt.idx != idx
            &&& after.phase == (PhaseView::<M>::Connecting { events, raw_bytes, attempt })
        },
        ActionView::Transmit { attempt, .. } => {
            &&& attempt.retry
            &&& attempt.idx != idx
            &&& after.phase == (PhaseView::<M>::Transmitting { events, raw_bytes, attempt })
        },
        _ => false,
    }
}

/// Whether a sender has given up on these events: the batch is over, all of them
/// are counted as dropped, and the reason is given.
pub open spec fn gives_up_on<M, C>(
    before: SenderView<M, C>,
    events: Seq<Json>,
    reason: Seq<char>,
    after: SenderView<M, C>,
    action: ActionView<M, C>,
) -> bool {
    &&& after.phase is Idle
    &&& counts(before.counter, after.counter, 0, 0, 0, events.len())
    &&& action == (ActionView::<M, C>::Poll { failure: Some(reason) })
}

/// Whether every endpoint but the one number `idx` cools down at the moment `now`.
pub open spec fn alone<C>(pool: PoolView<C>, idx: int, now: u128) -> bool {
    forall|i: int|
        0 <= i < pool.endpoints.len() && i != idx ==> ((
        #[trigger] pool.endpoints[i]).state matches EndpointState::Cooldown { until } && now
            < until)
}

/// What a sender comes to after an attempt failed.
pub open spec fn failed_over<M, C>(
    sender: SenderView<M, C>,
    attempt: Attempt,
    events: Seq<Json>,
    raw_bytes: u64,
    error: Seq<char>,
    now: u128,
    random: u64,
    probe: int,
    after: SenderView<M, C>,
    action: ActionView<M, C>,
) -> bool {
    let pool = sender.pool->0.state;
    let idx = attempt.idx as int;
    let total = pool.endpoints.len();
    &&& after.pool matches Some(left) && {
        &&& left.config == sender.pool->0.config
        &&& left.clock == sender.pool->0.clock
        &&& left.state.endpoints.len() == total
        &&& rests(pool.endpoints[idx], now, random, left.state.endpoints[idx])
    }
    &&& moved(
        sender.pool_stats,
        after.pool_stats,
        if attempt.retry {
            0
        } else {
            1
        },
        0,
        if action is Poll {
            1
        } else {
            0
        },
    )
    &&& !attempt.retry && 0 <= probe < 3 * total && hits(pool, now, probe) && slot(
        pool.cursor,
        probe,
        total,
    ) != idx ==> goes_elsewhere(sender, attempt.idx, events, raw_bytes, after, action)
    &&& attempt.retry ==> gives_up_on(
        sender,
        events,
        "retry also failed: "@ + error,
        after,
        action,
    )
    &&& !attempt.retry && alone(pool, idx, now) ==> gives_up_on(
        sender,
        events,
        "all endpoints unavailable after retry"@,
        after,
        action,
    )
}

/// A failed attempt that is passed on is failed over.
proof fn lemma_failed<M, C>(
    sender: SenderView<M, C>,
    attempt: Attempt,
    events: Seq<Json>,
    raw_bytes: u64,
    error: Seq<char>,
    now: u128,
    random: u64,
    probe: int,
    after: SenderView<M, C>,
    action: ActionView<M, C>,
)
    requires
        sender.pool is Some,
        attempt.idx < sender.pool->0.state.endpoints.len() <= usize::MAX,
        now < duration_end(),
        passed_on(
            sender,
            events,
            raw_bytes,
            fell_through(
                sender.pool->0.state,
                sender.pool_stats,
                attempt,
                error,
                now,
                random,
            ),
            after,
            action,
        ),
    ensures
        failed_over(
            sender,
            attempt,
            events,
            raw_bytes,
            error,
            now,
            random,
            probe,
            after,
            action,
        ),
{
    let pool = sender.pool->0.state;
    let stats = sender.pool_stats;
    let total = pool.endpoints.len();
    law_attempt_fails(pool, stats, attempt, error, now, random);
    law_failed_endpoint(pool, stats, attempt, error, now, random);
    law_retry_elsewhere(pool, stats, attempt, error, now, random);
    if !attempt.retry && 0 <= probe < 3 * total && hits(pool, now, probe) && slot(
        pool.cursor,
        probe,
        total,
    ) != attempt.idx {
        law_second_attempt(pool, stats, attempt, error, now, random, probe);
    }
    if !attempt.retry && alone(pool, attempt.idx as int, now) {
        law_nowhere_else(pool, stats, attempt, error, now, random);
    }
}

/// After a failed transmission the pool and its statistics are those that the send
/// comes to: the endpoint cools down, without a connection and with one failure
/// more, and the failure of a first attempt is counted. If it was the first
/// attempt, and a choice would have a hit at another endpoint, a second one is made
/// over another endpoint, with the same events and bytes, and nothing is dropped;
/// if every other endpoint cools down, or if it was the second attempt, the events
/// are given up.
pub proof fn law_transmission_fails<M, C>(
    sender: SenderView<M, C>,
    client: C,
    error: Seq<char>,
    now: u128,
    random: u64,
    probe: int,
)
    requires
        sender.wf(),
        sender.phase is Transmitting,
        now < duration_end(),
    ensures
        ({
            let (after, action) = sender.transmitted(client, Err(error), now, random);
            let attempt = sender.phase->Transmitting_attempt;
            let step = after_transmit(
                sender.pool->0.state,
                sender.pool_stats,
                attempt,
                client,
                Err(error),
                now,
                random,
            );
            &&& after.pool is Some
            &&& after.pool->0.state == step.pool
            &&& after.pool_stats == step.stats
            &&& failed_over(
                sender,
                attempt,
                sender.phase->Transmitting_events,
                sender.phase->Transmitting_raw_bytes,
                "send: "@ + error,
                now,
                random,
                probe,
                after,
                action,
            )
        }),
{
    let (after, action) = sender.transmitted(client, Err(error), now, random);
    law_transmitted(sender, client, Err(error), now, random);
    lemma_failed(
        sender,
        sender.phase->Transmitting_attempt,
        sender.phase->Transmitting_events,
        sender.phase->Transmitting_raw_bytes,
        "send: "@ + error,
        now,
        random,
        probe,
        after,
        action,
    );
}

/// The same holds after a connection that could not be opened, the reason being one
/// that names the address.
pub proof fn law_connection_fails<M, C>(
    sender: SenderView<M, C>,
    error: Seq<char>,
    now: u128,
    random: u64,
    probe: int,
)
    requires
        sender.wf(),
        sender.phase is Connecting,
        now < duration_end(),
    ensures
        ({
            let (after, action) = sender.connected(Err(error), now, random);
            let attempt = sender.phase->Connecting_attempt;
            let endpoint = sender.pool->0.state.endpoints[attempt.idx as int];
            let step = after_connect(
                sender.pool->0.state,
                sender.pool_stats,
                attempt,
                Err(error),
                now,
                random,
            );
            &&& after.pool is Some
            &&& after.pool->0.state == step.pool
            &&& after.pool_stats == step.stats
            &&& failed_over(
                sender,
                attempt,
                sender.phase->Connecting_events,
                sender.phase->Connecting_raw_bytes,
                "connect to "@ + endpoint.spec_addr() + ": "@ + error,
                now,
                random,
                probe,
                after,
                action,
            )
        }),
{
    let (after, action) = sender.connected(Err(error), now, random);
    let attempt = sender.phase->Connecting_attempt;
    law_connected(sender, Err(error), now, random);
    lemma_failed(
        sender,
        attempt,
        sender.phase->Connecting_events,
        sender.phase->Connecting_raw_bytes,
        "connect to "@ + sender.pool->0.state.endpoints[attempt.idx as int].spec_addr() + ": "@
            + error,
        now,
        random,
        probe,
        after,
        action,
    );
}

/// A connection that is opened is used at once, for the same attempt and with the
/// same events and bytes, and nothing else changes.
pub proof fn law_connection_opens<M, C>(
    sender: SenderView<M, C>,
    client: C,
    now: u128,
    random: u64,
)
    requires
        sender.wf(),
        sender.phase is Connecting,
    ensures
        ({
            let (after, action) = sender.connected(Ok(client), now, random);
            let attempt = sender.phase->Connecting_attempt;
            &&& action == (ActionView::<M, C>::Transmit { attempt, client })
            &&& after.phase == (PhaseView::<M>::Transmitting {
                events: sender.phase->Connecting_events,
                raw_bytes: sender.phase->Connecting_raw_bytes,
                attempt,
            })
            &&& after.counter == sender.counter
            &&& after.pool_stats == sender.pool_stats
            &&& after.pool == sender.pool
        }),
{
}

/// Events that are acknowledged are counted, in the number acknowledged and with
/// their bytes, and the batch is over. The endpoint keeps the connection, is
/// available and has no failure; a second attempt is counted as one that succeeded.
pub proof fn law_transmission_succeeds<M, C>(
    sender: SenderView<M, C>,
    client: C,
    acked: u32,
    now: u128,
    random: u64,
)
    requires
        sender.wf(),
        sender.phase is Transmitting,
    ensures
        ({
            let (after, action) = sender.transmitted(client, Ok(acked), now, random);
            let attempt = sender.phase->Transmitting_attempt;
            let raw_bytes = sender.phase->Transmitting_raw_bytes;
            let before = sender.pool->0.state;
            let idx = attempt.idx as int;
            &&& action == (ActionView::<M, C>::Poll { failure: None })
            &&& after.phase is Idle
            &&& counts(sender.counter, after.counter, 0, acked as nat, raw_bytes as nat, 0)
            &&& moved(
                sender.pool_stats,
                after.pool_stats,
                0,
                if attempt.retry {
                    1
                } else {
                    0
                },
                0,
            )
            &&& after.pool matches Some(left) && {
                &&& left.config == sender.pool->0.config
                &&& left.clock == sender.pool->0.clock
                &&& left.state.cursor == before.cursor
                &&& left.state.endpoints.len() == before.endpoints.len()
                &&& forall|i: int|
                    0 <= i < before.endpoints.len() && i != idx
                        ==> #[trigger] left.state.endpoints[i] == before.endpoints[i]
                &&& left.state.endpoints[idx].client == Some(client)
                &&& left.state.endpoints[idx].state is Available
                &&& left.state.endpoints[idx].consecutive_failures == 0
                &&& left.state.endpoints[idx].ip == before.endpoints[idx].ip
                &&& left.state.endpoints[idx].port == before.endpoints[idx].port
            }
        }),
{
    law_transmitted(sender, client, Ok(acked), now, random);
    law_after_transmit(
        sender.pool->0.state,
        sender.pool_stats,
        sender.phase->Transmitting_attempt,
        client,
        acked,
        Seq::empty(),
        now,
        random,
    );
    law_counted(sender.pool_stats.write_failures, 0);
    law_counted(sender.pool_stats.retry_successes, 0);
    law_counted(sender.pool_stats.all_endpoints_failed, 0);
}

/// What holds of a sender at any time: a batch that is being received is short of its
/// size, which is between one and 1024; what waits for admission or is being sent is
/// between one and 1024 events; an attempt goes to an endpoint that the pool has; and
/// every endpoint has failed since its last success exactly where it cools down, and
/// then has no connection.
pub proof fn law_always<M, C>(sender: SenderView<M, C>)
    requires
        sender.wf(),
    ensures
        match sender.phase {
            PhaseView::Idle => true,
            PhaseView::Receiving { batch, batch_size, .. } => batch.len() < batch_size
                && batch_size <= 1024,
            PhaseView::Encoding { messages, .. } => 1 <= messages <= 1024,
            PhaseView::Admitting { events, .. } => 1 <= events.len() <= 1024,
            PhaseView::Connecting { events, attempt, .. } => 1 <= events.len() <= 1024
                && sender.pool is Some && attempt.idx < sender.pool->0.state.endpoints.len(),
            PhaseView::Transmitting { events, attempt, .. } => 1 <= events.len() <= 1024
                && sender.pool is Some && attempt.idx < sender.pool->0.state.endpoints.len(),
        },
        sender.pool matches Some(pool) ==> {
            let endpoints = pool.state.endpoints;
            &&& endpoints.len() > 0
            &&& forall|i: int|
                0 <= i < endpoints.len() ==> {
                    &&& (#[trigger] endpoints[i]).consecutive_failures > 0 <==> endpoints[i].state
                        is Cooldown
                    &&& endpoints[i].state is Cooldown ==> endpoints[i].client is None
                }
        },
{
    if let Some(pool) = sender.pool {
        assert forall|i: int| 0 <= i < pool.state.endpoints.len() implies (
        #[trigger] pool.state.endpoints[i]).sound() by {}
    }
}

/// An action says what it holds.
pub proof fn law_action_says<M, C>(action: Action<M, C>)
    ensures
        match action {
            Action::Stop => action@ is Stop,
            Action::Poll { failure } => action@ matches ActionView::Poll { failure: said } && {
                &&& failure is None <==> said is None
                &&& failure matches Some(text) ==> said == Some(text@)
            },
            Action::Receive { timeout_secs } => action@ == (ActionView::<M, C>::Receive {
                timeout_secs,
            }),
            Action::Encode { batch } => action@ == (ActionView::<M, C>::Encode { batch: batch@ }),
            Action::Admit { raw_bytes } => action@ == (ActionView::<M, C>::Admit { raw_bytes }),
            Action::Connect { attempt, addr } => action@ == (ActionView::<M, C>::Connect {
                attempt,
                addr: addr@,
            }),
            Action::Transmit { attempt, client } => action@ == (ActionView::<M, C>::Transmit {
                attempt,
                client,
            }),
        },
{
}

} // verus!
