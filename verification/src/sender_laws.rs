//! What holds of every sender.
use crate::clock::duration_end;
use crate::event::{Encoded, SenderConfig};
use crate::retry_laws::{
    law_connect_advances, law_send_starts, law_transmit_advances, lemma_connect_sound,
    lemma_start_sound, lemma_transmit_sound,
};
use crate::sender::{
    full_batch, pool_ensured, ActionView, PhaseView, PoolInUse, SenderView, QUEUE_BATCH_SIZE,
};
use crate::stats::{counted, lemma_counted_twice};
use vstd::arithmetic::div_mod::{lemma_add_mod_noop, lemma_small_mod};
use vstd::prelude::*;

verus! {

/// A batch holds at least one message and no more than the queue hands out at a
/// time.
pub proof fn law_batch_bounds(configured: usize)
    ensures
        1 <= full_batch(configured) <= QUEUE_BATCH_SIZE,
        1 <= configured <= QUEUE_BATCH_SIZE ==> full_batch(configured) == configured,
{
}

/// Receiving never makes a batch larger than it may be, and never hands on an
/// empty one; the messages keep the order in which they came, and the batch the
/// settings that it was begun with.
pub proof fn law_batch_in_order<M, C>(sender: SenderView<M, C>, message: Option<M>)
    requires
        sender.wf(),
        sender.phase is Receiving,
    ensures
        ({
            let batch = sender.phase->batch;
            let batch_size = sender.phase->batch_size;
            let settings = sender.phase->Receiving_settings;
            let longer = match message {
                Some(message) => batch.push(message),
                None => batch,
            };
            match sender.received(message).1 {
                ActionView::Encode { batch: whole } => {
                    &&& sender.received(message).0.phase == PhaseView::<M>::Encoding {
                        messages: whole.len(),
                        settings,
                    }
                    &&& whole == longer
                    &&& 0 < whole.len() <= batch_size
                },
                ActionView::Receive { timeout_secs } => {
                    &&& sender.received(message).0.phase == PhaseView::Receiving {
                        batch: longer,
                        batch_size,
                        settings,
                    }
                    &&& timeout_secs == 0
                    &&& 0 < longer.len() < batch_size
                },
                ActionView::Poll { failure } => failure is None && message is None && batch.len()
                    == 0,
                _ => false,
            }
        }),
{
}

/// The messages that have been counted as received and whose fate is open.
pub open spec fn in_flight<M>(phase: PhaseView<M>) -> nat {
    match phase {
        PhaseView::Idle => 0,
        PhaseView::Receiving { .. } => 0,
        PhaseView::Encoding { messages, .. } => messages,
        PhaseView::Admitting { events, .. } => events.len(),
        PhaseView::Connecting { events, .. } => events.len(),
        PhaseView::Transmitting { events, .. } => events.len(),
    }
}

/// Whether between `before` and `after` every message is accounted for: so many
/// came in, so many were counted as dropped, `delivered` were taken by an
/// endpoint, and the others are still in flight.
pub open spec fn balanced<M, C>(
    before: SenderView<M, C>,
    after: SenderView<M, C>,
    came: nat,
    dropped: nat,
    delivered: nat,
) -> bool {
    &&& after.counter.rx == counted(before.counter.rx, came)
    &&& after.counter.dropped == counted(before.counter.dropped, dropped)
    &&& in_flight(before.phase) + came == in_flight(after.phase) + dropped + delivered
}

/// What is accounted for over one stretch and over the next is accounted for over
/// both together. Over whole batches, between which nothing is in flight, as many
/// messages come in as are dropped and delivered.
pub proof fn law_balance_adds_up<M, C>(
    before: SenderView<M, C>,
    between: SenderView<M, C>,
    after: SenderView<M, C>,
    came: (nat, nat),
    dropped: (nat, nat),
    delivered: (nat, nat),
)
    requires
        balanced(before, between, came.0, dropped.0, delivered.0),
        balanced(between, after, came.1, dropped.1, delivered.1),
    ensures
        balanced(
            before,
            after,
            came.0 + came.1,
            dropped.0 + dropped.1,
            delivered.0 + delivered.1,
        ),
        before.phase is Idle && after.phase is Idle ==> came.0 + came.1 == dropped.0 + dropped.1
            + delivered.0 + delivered.1,
{
    lemma_counted_twice(before.counter.rx, came.0, came.1);
    lemma_counted_twice(before.counter.dropped, dropped.0, dropped.1);
}

/// Beginning a batch counts nothing, and changes the pool only where there was
/// none.
pub proof fn law_poll_counts_nothing<M, C>(
    sender: SenderView<M, C>,
    running: bool,
    config: SenderConfig,
    pool: Option<PoolInUse<C>>,
)
    requires
        sender.wf(),
        sender.phase is Idle,
        pool_ensured(sender.pool, config, pool),
    ensures
        ({
            let after = sender.polled(running, config, pool).0;
            &&& after.counter == sender.counter
            &&& after.pool_stats == sender.pool_stats
            &&& balanced(sender, after, 0, 0, 0)
            &&& sender.pool is Some ==> after.pool == sender.pool
        }),
{
}

/// No message gets lost while it is received: the batch that is handed on is
/// counted in whole, and nothing is dropped.
pub proof fn law_received_balanced<M, C>(sender: SenderView<M, C>, message: Option<M>)
    requires
        sender.wf(),
        sender.phase is Receiving,
    ensures
        ({
            let (after, action) = sender.received(message);
            let came: nat = match action {
                ActionView::Encode { batch } => batch.len(),
                _ => 0,
            };
            balanced(sender, after, came, 0, 0)
        }),
{
}

/// A message that is not in JSON is counted as dropped, and every other one
/// becomes an event.
pub proof fn law_encoded_balanced<M, C>(
    sender: SenderView<M, C>,
    messages: Seq<Encoded>,
)
    requires
        sender.wf(),
        sender.phase is Encoding,
        messages.len() == sender.phase->messages,
    ensures
        ({
            let after = sender.encoded(messages).0;
            let unreadable = messages.filter(|message: Encoded| message.json is None).len();
            balanced(sender, after, 0, unreadable, 0)
        }),
{
    lemma_filter_parts(messages);
}

/// Each message is in JSON or is not.
pub(crate) proof fn lemma_filter_parts(messages: Seq<Encoded>)
    ensures
        messages.filter(|message: Encoded| message.json is Some).len() + messages.filter(
            |message: Encoded| message.json is None,
        ).len() == messages.len(),
    decreases messages.len(),
{
    reveal_with_fuel(Seq::filter, 2);
    if messages.len() > 0 {
        lemma_filter_parts(messages.drop_last());
    }
}

/// A batch that is not admitted, or that there is no pool for, is counted as
/// dropped in whole; so is one that no endpoint can be tried for.
pub proof fn law_admitted_balanced<M, C>(sender: SenderView<M, C>, granted: bool, now: u128)
    requires
        sender.wf(),
        sender.phase is Admitting,
    ensures
        ({
            let (after, action) = sender.admitted(granted, now);
            let events = sender.phase->Admitting_events.len();
            let dropped: nat = if action is Poll {
                events
            } else {
                0
            };
            &&& balanced(sender, after, 0, dropped, 0)
            &&& !granted || sender.pool is None ==> action is Poll
            &&& after.counter.tx == sender.counter.tx
            &&& after.counter.tx_bytes == sender.counter.tx_bytes
        }),
{
}

/// No batch is delivered by connecting alone: it goes on, or it is counted as
/// dropped in whole.
pub proof fn law_connected_balanced<M, C>(
    sender: SenderView<M, C>,
    result: Result<C, Seq<char>>,
    now: u128,
    random: u64,
)
    requires
        sender.wf(),
        sender.phase is Connecting,
    ensures
        ({
            let (after, action) = sender.connected(result, now, random);
            let dropped: nat = if action is Poll {
                sender.phase->Connecting_events.len()
            } else {
                0
            };
            &&& balanced(sender, after, 0, dropped, 0)
            &&& after.counter.tx == sender.counter.tx
            &&& after.counter.tx_bytes == sender.counter.tx_bytes
        }),
{
}

/// A batch that was acknowledged is delivered: it is not counted as dropped, and
/// what was acknowledged and its bytes are counted as sent. One that was not
/// acknowledged goes on elsewhere, or is counted as dropped in whole.
pub proof fn law_transmitted_balanced<M, C>(
    sender: SenderView<M, C>,
    client: C,
    result: Result<u32, Seq<char>>,
    now: u128,
    random: u64,
)
    requires
        sender.wf(),
        sender.phase is Transmitting,
    ensures
        ({
            let (after, action) = sender.transmitted(client, result, now, random);
            let events = sender.phase->Transmitting_events.len();
            let raw_bytes = sender.phase->Transmitting_raw_bytes;
            match result {
                Ok(acked) => {
                    &&& action == ActionView::<M, C>::Poll { failure: None }
                    &&& balanced(sender, after, 0, 0, events)
                    &&& after.counter.tx == counted(sender.counter.tx, acked as nat)
                    &&& after.counter.tx_bytes == counted(
                        sender.counter.tx_bytes,
                        raw_bytes as nat,
                    )
                },
                Err(_) => {
                    &&& balanced(
                        sender,
                        after,
                        0,
                        if action is Poll {
                            events
                        } else {
                            0
                        },
                        0,
                    )
                    &&& after.counter.tx == sender.counter.tx
                    &&& after.counter.tx_bytes == sender.counter.tx_bytes
                },
            }
        }),
{
}

/// What came of an action.
pub enum Report<M, C> {
    Polled { running: bool, settings: SenderConfig, pool: Option<PoolInUse<C>> },
    Received { message: Option<M> },
    Encoded { messages: Seq<Encoded> },
    Admitted { granted: bool, now: u128 },
    Connected { opened: Result<C, Seq<char>>, now: u128, random: u64 },
    Transmitted { client: C, acked: Result<u32, Seq<char>>, now: u128, random: u64 },
}

/// Whether a report is one on the action that the sender waits for.
pub open spec fn answers<M, C>(sender: SenderView<M, C>, report: Report<M, C>) -> bool {
    match report {
        Report::Polled { settings, pool, .. } => sender.phase is Idle && pool_ensured(
            sender.pool,
            settings,
            pool,
        ),
        Report::Received { .. } => sender.phase is Receiving,
        Report::Encoded { messages } => sender.phase is Encoding && messages.len()
            == sender.phase->messages,
        Report::Admitted { now, .. } => sender.phase is Admitting && now < duration_end(),
        Report::Connected { now, .. } => sender.phase is Connecting && now < duration_end(),
        Report::Transmitted { now, .. } => sender.phase is Transmitting && now < duration_end(),
    }
}

/// The sender after a report.
#[verifier::opaque]
pub open spec fn reported<M, C>(sender: SenderView<M, C>, report: Report<M, C>) -> SenderView<
    M,
    C,
> {
    match report {
        Report::Polled { running, settings, pool } => sender.polled(running, settings, pool).0,
        Report::Received { message } => sender.received(message).0,
        Report::Encoded { messages } => sender.encoded(messages).0,
        Report::Admitted { granted, now } => sender.admitted(granted, now).0,
        Report::Connected { opened, now, random } => sender.connected(opened, now, random).0,
        Report::Transmitted { client, acked, now, random } => sender.transmitted(
            client,
            acked,
            now,
            random,
        ).0,
    }
}

/// The sender after a run of reports.
pub open spec fn ran<M, C>(sender: SenderView<M, C>, reports: Seq<Report<M, C>>) -> SenderView<
    M,
    C,
>
    decreases reports.len(),
{
    if reports.len() == 0 {
        sender
    } else {
        reported(ran(sender, reports.drop_last()), reports.last())
    }
}

/// Whether each report of a run is on the action that the sender then waits for.
pub open spec fn runs<M, C>(sender: SenderView<M, C>, reports: Seq<Report<M, C>>) -> bool
    decreases reports.len(),
{
    reports.len() > 0 ==> runs(sender, reports.drop_last()) && answers(
        ran(sender, reports.drop_last()),
        reports.last(),
    )
}

/// The messages that a report brings.
pub open spec fn brought_by<M, C>(report: Report<M, C>) -> nat {
    match report {
        Report::Received { message: Some(_) } => 1,
        _ => 0,
    }
}

/// The messages that the reports of a run bring.
pub open spec fn brought_over<M, C>(reports: Seq<Report<M, C>>) -> nat
    decreases reports.len(),
{
    if reports.len() == 0 {
        0
    } else {
        brought_over(reports.drop_last()) + brought_by(reports.last())
    }
}

/// The messages of a batch that is being received, which are counted when it is
/// handed on.
pub open spec fn collected<M>(phase: PhaseView<M>) -> nat {
    match phase {
        PhaseView::Receiving { batch, .. } => batch.len(),
        _ => 0,
    }
}

/// The events that a report says were delivered.
pub open spec fn delivered_by<M, C>(sender: SenderView<M, C>, report: Report<M, C>) -> nat {
    match report {
        Report::Transmitted { acked: Ok(_), .. } => sender.phase->Transmitting_events.len(),
        _ => 0,
    }
}

/// The events that were delivered over a run.
pub open spec fn delivered_over<M, C>(
    sender: SenderView<M, C>,
    reports: Seq<Report<M, C>>,
) -> nat
    decreases reports.len(),
{
    if reports.len() == 0 {
        0
    } else {
        delivered_over(sender, reports.drop_last()) + delivered_by(
            ran(sender, reports.drop_last()),
            reports.last(),
        )
    }
}

/// Whether every acknowledgement of a run covers its batch: an endpoint that
/// acknowledges at all acknowledges every event that it was sent.
pub open spec fn acked_in_full<M, C>(
    sender: SenderView<M, C>,
    reports: Seq<Report<M, C>>,
) -> bool
    decreases reports.len(),
{
    reports.len() > 0 ==> {
        &&& acked_in_full(sender, reports.drop_last())
        &&& reports.last() matches Report::Transmitted { acked: Ok(number), .. } ==> number
            == delivered_by(ran(sender, reports.drop_last()), reports.last())
    }
}

/// One report, whatever it says, keeps what holds of a sender at any time, and
/// loses no message.
proof fn lemma_report<M, C>(sender: SenderView<M, C>, report: Report<M, C>) -> (flow: (nat, nat))
    requires
        sender.wf(),
        answers(sender, report),
    ensures
        reported(sender, report).wf(),
        balanced(
            sender,
            reported(sender, report),
            flow.0,
            flow.1,
            delivered_by(sender, report),
        ),
        collected(sender.phase) + brought_by(report) == collected(reported(sender, report).phase)
            + flow.0,
        !(report matches Report::Transmitted { acked: Ok(_), .. }) ==> reported(
            sender,
            report,
        ).counter.tx == sender.counter.tx,
        report matches Report::Transmitted { acked: Ok(number), .. } ==> reported(
            sender,
            report,
        ).counter.tx == counted(sender.counter.tx, number as nat),
{
    reveal(reported);
    match report {
        Report::Polled { running, settings, pool } => {
            law_poll_counts_nothing(sender, running, settings, pool);
            assert(settings.lumberjack_endpoints.len() <= usize::MAX);
            (0, 0)
        },
        Report::Received { message } => {
            law_received_balanced(sender, message);
            match sender.received(message).1 {
                ActionView::Encode { batch } => (batch.len(), 0),
                _ => (0, 0),
            }
        },
        Report::Encoded { messages } => {
            law_encoded_balanced(sender, messages);
            (0, messages.filter(|message: Encoded| message.json is None).len())
        },
        Report::Admitted { granted, now } => {
            law_admitted_balanced(sender, granted, now);
            if let Some(pool) = sender.pool {
                law_send_starts(pool.state, sender.pool_stats, now);
                lemma_start_sound(pool.state, sender.pool_stats, now);
            }
            (
                0,
                if sender.admitted(granted, now).1 is Poll {
                    sender.phase->Admitting_events.len()
                } else {
                    0
                },
            )
        },
        Report::Connected { opened, now, random } => {
            law_connected_balanced(sender, opened, now, random);
            let pool = sender.pool->0.state;
            let attempt = sender.phase->Connecting_attempt;
            law_connect_advances(
                pool,
                sender.pool_stats,
                attempt,
                Seq::empty(),
                opened,
                now,
                random,
            );
            lemma_connect_sound(pool, sender.pool_stats, attempt, opened, now, random);
            (
                0,
                if sender.connected(opened, now, random).1 is Poll {
                    sender.phase->Connecting_events.len()
                } else {
                    0
                },
            )
        },
        Report::Transmitted { client, acked, now, random } => {
            law_transmitted_balanced(sender, client, acked, now, random);
            let pool = sender.pool->0.state;
            let attempt = sender.phase->Transmitting_attempt;
            law_transmit_advances(
                pool,
                sender.pool_stats,
                attempt,
                client,
                acked,
                now,
                random,
            );
            lemma_transmit_sound(pool, sender.pool_stats, attempt, client, acked, now, random);
            (
                0,
                if acked is Err && sender.transmitted(client, acked, now, random).1 is Poll {
                    sender.phase->Transmitting_events.len()
                } else {
                    0
                },
            )
        },
    }
}

/// Over any run every message is accounted for, and what holds of a sender at any
/// time goes on holding. The messages that came in are those that the reports
/// brought, but for those of a batch that is still being received. If every acknowledgement covers its batch, what is
/// counted as sent is what was delivered.
pub proof fn law_run_balanced<M, C>(sender: SenderView<M, C>, reports: Seq<Report<M, C>>) -> (flow:
    (nat, nat))
    requires
        sender.wf(),
        runs(sender, reports),
    ensures
        ran(sender, reports).wf(),
        balanced(
            sender,
            ran(sender, reports),
            flow.0,
            flow.1,
            delivered_over(sender, reports),
        ),
        collected(sender.phase) + brought_over(reports) == collected(ran(sender, reports).phase)
            + flow.0,
        acked_in_full(sender, reports) ==> ran(sender, reports).counter.tx == counted(
            sender.counter.tx,
            delivered_over(sender, reports),
        ),
    decreases reports.len(),
{
    if reports.len() == 0 {
        (0, 0)
    } else {
        let earlier = reports.drop_last();
        let between = ran(sender, earlier);
        let first = law_run_balanced(sender, earlier);
        let last = lemma_report(between, reports.last());
        let delivered = (
            delivered_over(sender, earlier),
            delivered_by(between, reports.last()),
        );
        law_balance_adds_up(
            sender,
            between,
            ran(sender, reports),
            (first.0, last.0),
            (first.1, last.1),
            delivered,
        );
        lemma_counted_twice(sender.counter.tx, delivered.0, delivered.1);
        (first.0 + last.0, first.1 + last.1)
    }
}

/// Over any run of a sender that starts from nothing and comes to rest between two
/// batches, in which every acknowledgement covers its batch, the messages received
/// are those that were brought, and they are those sent and those dropped: exactly
/// so as long as the counters have not wrapped around.
pub proof fn law_nothing_lost<M, C>(sender: SenderView<M, C>, reports: Seq<Report<M, C>>)
    requires
        sender.wf(),
        sender.phase is Idle,
        sender.counter.rx == 0,
        sender.counter.tx == 0,
        sender.counter.dropped == 0,
        runs(sender, reports),
        acked_in_full(sender, reports),
        ran(sender, reports).phase is Idle,
    ensures
        ({
            let counter = ran(sender, reports).counter;
            let brought = brought_over(reports);
            &&& counter.rx == counted(0, brought)
            &&& counter.rx == counted(counter.tx, counter.dropped as nat)
            &&& brought <= u64::MAX ==> counter.rx == brought && counter.rx == counter.tx
                + counter.dropped
        }),
{
    let flow = law_run_balanced(sender, reports);
    let delivered = delivered_over(sender, reports);
    lemma_add_mod_noop(delivered as int, flow.1 as int, u64::MAX + 1);
    if brought_over(reports) <= u64::MAX {
        lemma_small_mod(brought_over(reports), (u64::MAX + 1) as nat);
        lemma_small_mod(delivered, (u64::MAX + 1) as nat);
        lemma_small_mod(flow.1, (u64::MAX + 1) as nat);
    }
}

/// How far a batch is from its end at most.
pub open spec fn distance<M>(phase: PhaseView<M>) -> nat {
    match phase {
        PhaseView::Idle => 0,
        PhaseView::Receiving { batch, batch_size, .. } => if batch.len() < batch_size {
            (7 + batch_size - batch.len()) as nat
        } else {
            7
        },
        PhaseView::Encoding { .. } => 6,
        PhaseView::Admitting { .. } => 5,
        PhaseView::Connecting { attempt, .. } => if attempt.retry {
            2
        } else {
            4
        },
        PhaseView::Transmitting { attempt, .. } => if attempt.retry {
            1
        } else {
            3
        },
    }
}

/// Every batch comes to its end: whatever comes of an action, it brings the batch
/// nearer to it.
pub proof fn law_batch_ends<M, C>(
    sender: SenderView<M, C>,
    message: Option<M>,
    messages: Seq<Encoded>,
    granted: bool,
    opened: Result<C, Seq<char>>,
    client: C,
    acked: Result<u32, Seq<char>>,
    now: u128,
    random: u64,
)
    requires
        sender.wf(),
        now < duration_end(),
    ensures
        match sender.phase {
            PhaseView::Idle => true,
            PhaseView::Receiving { .. } => distance(sender.received(message).0.phase)
                < distance(sender.phase),
            PhaseView::Encoding { .. } => distance(
                sender.encoded(messages).0.phase,
            ) < distance(sender.phase),
            PhaseView::Admitting { .. } => distance(sender.admitted(granted, now).0.phase)
                < distance(sender.phase),
            PhaseView::Connecting { .. } => distance(
                sender.connected(opened, now, random).0.phase,
            ) < distance(sender.phase),
            PhaseView::Transmitting { .. } => distance(
                sender.transmitted(client, acked, now, random).0.phase,
            ) < distance(sender.phase),
        },
{
    match sender.phase {
        PhaseView::Admitting { .. } => {
            if let Some(pool) = sender.pool {
                law_send_starts(pool.state, sender.pool_stats, now);
            }
        },
        PhaseView::Connecting { attempt, .. } => {
            law_connect_advances(
                sender.pool->0.state,
                sender.pool_stats,
                attempt,
                Seq::empty(),
                opened,
                now,
                random,
            );
        },
        PhaseView::Transmitting { attempt, .. } => {
            law_transmit_advances(
                sender.pool->0.state,
                sender.pool_stats,
                attempt,
                client,
                acked,
                now,
                random,
            );
        },
        _ => {},
    }
}

} // verus!
