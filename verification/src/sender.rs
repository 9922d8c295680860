//! The send loop: receive a batch of messages, make events of it, ask for
//! admission, send.
//!
//! The loop goes from action to action. Each one is done outside, and what came
//! of it is handed back, which decides on the next one.
use crate::clock::{chance_brings, duration_end, Clock};
use crate::event::{contents, events_of, prepare, total_len, Encoded, Prepared, SenderConfig};
use crate::json::Json;
use crate::pool::{fresh, LumberjackConnectionPool, PoolConfig, PoolView};
use crate::retry::{
    after_connect, after_transmit, begun, outcome, Attempt, Progress, SendStep, StepView,
};
use crate::retry_laws::{
    law_connect_advances, law_send_starts, law_transmit_advances, lemma_connect_sound,
    lemma_start_sound, lemma_transmit_sound, within,
};
use crate::stats::{count, counted, PoolStats, SenderCounter};
use serde_json::Value;
use std::sync::Arc;
use vstd::prelude::*;

verus! {

/// No batch is larger.
pub const QUEUE_BATCH_SIZE: usize = 1024;

/// How long the first message of a batch is waited for, in seconds.
pub const FIRST_MESSAGE_SECS: u64 = 3;

/// The size of a full batch where `configured` is asked for.
pub open spec fn full_batch(configured: usize) -> usize {
    if configured == 0 {
        1
    } else if configured < QUEUE_BATCH_SIZE {
        configured
    } else {
        QUEUE_BATCH_SIZE
    }
}

/// Computes `full_batch`.
pub fn batch_size(configured: usize) -> (size: usize)
    ensures
        size == full_batch(configured),
{
    if configured == 0 {
        1
    } else if configured < QUEUE_BATCH_SIZE {
        configured
    } else {
        QUEUE_BATCH_SIZE
    }
}

/// Where the loop stands.
enum Phase<M> {
    Idle,
    Receiving { batch: Vec<M>, batch_size: usize, settings: Arc<SenderConfig> },
    Encoding { messages: usize, settings: Arc<SenderConfig> },
    Admitting { prepared: Prepared },
    Connecting { prepared: Prepared, attempt: Attempt },
    Transmitting { prepared: Prepared, attempt: Attempt },
}

/// Where the loop stands. A batch goes by the settings that it was begun with.
#[verifier::ext_equal]
pub enum PhaseView<M> {
    /// Between two batches.
    Idle,
    /// Waiting for a message to add to a batch that is not full.
    Receiving { batch: Seq<M>, batch_size: usize, settings: SenderConfig },
    /// Waiting for so many messages to be put into JSON.
    Encoding { messages: nat, settings: SenderConfig },
    /// Waiting for the admission of these events.
    Admitting { events: Seq<Json>, raw_bytes: u64 },
    /// Waiting for a connection to send these events over.
    Connecting { events: Seq<Json>, raw_bytes: u64, attempt: Attempt },
    /// Waiting for these events to be acknowledged.
    Transmitting { events: Seq<Json>, raw_bytes: u64, attempt: Attempt },
}

impl<M> Phase<M> {
    spec fn view(self) -> PhaseView<M> {
        match self {
            Phase::Idle => PhaseView::Idle,
            Phase::Receiving { batch, batch_size, settings } => PhaseView::Receiving {
                batch: batch@,
                batch_size,
                settings: *settings,
            },
            Phase::Encoding { messages, settings } => PhaseView::Encoding {
                messages: messages as nat,
                settings: *settings,
            },
            Phase::Admitting { prepared } => PhaseView::Admitting {
                events: contents(prepared.events@),
                raw_bytes: prepared.raw_bytes,
            },
            Phase::Connecting { prepared, attempt } => PhaseView::Connecting {
                events: contents(prepared.events@),
                raw_bytes: prepared.raw_bytes,
                attempt,
            },
            Phase::Transmitting { prepared, attempt } => PhaseView::Transmitting {
                events: contents(prepared.events@),
                raw_bytes: prepared.raw_bytes,
                attempt,
            },
        }
    }
}

/// What the loop needs next.
pub enum Action<M, C> {
    /// Nothing more: the loop is over.
    Stop,
    /// To be told whether to go on with another batch. If the batch before
    /// failed, the reason is given.
    Poll { failure: Option<String> },
    /// A message, waited for no longer than this.
    Receive { timeout_secs: u64 },
    /// These messages in JSON, in their order.
    Encode { batch: Vec<M> },
    /// The admission of so many bytes.
    Admit { raw_bytes: u64 },
    /// A connection to `addr`.
    Connect { attempt: Attempt, addr: String },
    /// That the events go out over `client`.
    Transmit { attempt: Attempt, client: C },
}

/// What an `Action` says.
#[verifier::ext_equal]
pub enum ActionView<M, C> {
    Stop,
    Poll { failure: Option<Seq<char>> },
    Receive { timeout_secs: u64 },
    Encode { batch: Seq<M> },
    Admit { raw_bytes: u64 },
    Connect { attempt: Attempt, addr: Seq<char> },
    Transmit { attempt: Attempt, client: C },
}

impl<M, C> View for Action<M, C> {
    type V = ActionView<M, C>;

    open spec fn view(&self) -> ActionView<M, C> {
        match *self {
            Action::Stop => ActionView::Stop,
            Action::Poll { failure } => ActionView::Poll {
                failure: match failure {
                    Some(text) => Some(text@),
                    None => None,
                },
            },
            Action::Receive { timeout_secs } => ActionView::Receive { timeout_secs },
            Action::Encode { batch } => ActionView::Encode { batch: batch@ },
            Action::Admit { raw_bytes } => ActionView::Admit { raw_bytes },
            Action::Connect { attempt, addr } => ActionView::Connect { attempt, addr: addr@ },
            Action::Transmit { attempt, client } => ActionView::Transmit { attempt, client },
        }
    }
}

/// A pool, how it opens connections, and the clock it goes by.
#[verifier::ext_equal]
pub struct PoolInUse<C> {
    pub state: PoolView<C>,
    pub config: PoolConfig,
    pub clock: Clock,
}

/// A sender: what it has counted, its pool, if there is one yet, and where its
/// loop stands.
#[verifier::ext_equal]
pub struct SenderView<M, C> {
    pub counter: SenderCounter,
    pub pool_stats: PoolStats,
    pub pool: Option<PoolInUse<C>>,
    pub phase: PhaseView<M>,
}

/// How the settings say that connections are to be opened.
pub open spec fn pool_config(config: SenderConfig) -> PoolConfig {
    PoolConfig {
        compression_level: config.lumberjack_compression_level,
        ack_timeout: config.lumberjack_ack_timeout,
        local_port_range: config.lumberjack_local_port_range,
    }
}

/// Whether `after` is the pool that there was before, or a fresh one by the
/// settings if there was none; none as long as they name no endpoint.
pub open spec fn pool_ensured<C>(
    before: Option<PoolInUse<C>>,
    config: SenderConfig,
    after: Option<PoolInUse<C>>,
) -> bool {
    if before is Some || config.lumberjack_endpoints@.len() == 0 {
        after == before
    } else {
        after matches Some(pool) && pool.state == fresh::<C>(config.lumberjack_endpoints@)
            && pool.config == pool_config(config)
    }
}

impl<M, C> SenderView<M, C> {
    /// Whether a pool, if there is one, has endpoints, and what is known of them
    /// fits together.
    pub open spec fn pool_wf(self) -> bool {
        self.pool matches Some(pool) ==> pool.state.sound() && 0 < pool.state.endpoints.len()
            <= usize::MAX
    }

    /// What holds of a sender at any time: a pool has endpoints, and what is known
    /// of them fits together, a batch that is being received is not full, there is something to send where something is
    /// to be sent, and never too much, and an attempt goes to an endpoint that
    /// exists.
    pub open spec fn wf(self) -> bool {
        &&& self.pool_wf()
        &&& match self.phase {
            PhaseView::Idle => true,
            PhaseView::Receiving { batch, batch_size, settings } => batch.len() < batch_size
                && batch_size == full_batch(settings.lumberjack_batch_size),
            PhaseView::Encoding { messages, .. } => 0 < messages <= QUEUE_BATCH_SIZE,
            PhaseView::Admitting { events, .. } => 0 < events.len() <= QUEUE_BATCH_SIZE,
            PhaseView::Connecting { events, attempt, .. } => {
                &&& 0 < events.len() <= QUEUE_BATCH_SIZE
                &&& self.pool matches Some(pool) && attempt.idx < pool.state.endpoints.len()
            },
            PhaseView::Transmitting { events, attempt, .. } => {
                &&& 0 < events.len() <= QUEUE_BATCH_SIZE
                &&& self.pool matches Some(pool) && attempt.idx < pool.state.endpoints.len()
            },
        }
    }

    /// The batch is over. If it failed, the reason is given.
    pub open spec fn over(self, failure: Option<Seq<char>>) -> (Self, ActionView<M, C>) {
        (SenderView { phase: PhaseView::Idle, ..self }, ActionView::Poll { failure })
    }

    /// The batch is over, and so many messages were lost.
    pub open spec fn over_lost(self, messages: nat, failure: Option<Seq<char>>) -> (
        Self,
        ActionView<M, C>,
    ) {
        SenderView { counter: self.counter.lost(messages), ..self }.over(failure)
    }

    /// Another batch is begun with these settings and this pool, if the loop is to
    /// go on.
    pub open spec fn polled(
        self,
        running: bool,
        settings: SenderConfig,
        pool: Option<PoolInUse<C>>,
    ) -> (Self, ActionView<M, C>) {
        if !running {
            (self, ActionView::Stop)
        } else {
            (
                SenderView {
                    pool,
                    phase: PhaseView::Receiving {
                        batch: Seq::empty(),
                        batch_size: full_batch(settings.lumberjack_batch_size),
                        settings,
                    },
                    ..self
                },
                ActionView::Receive { timeout_secs: FIRST_MESSAGE_SECS },
            )
        }
    }

    /// The batch has been received.
    pub open spec fn batched(self, batch: Seq<M>, settings: SenderConfig) -> (
        Self,
        ActionView<M, C>,
    ) {
        (
            SenderView {
                counter: self.counter.received(batch.len()),
                phase: PhaseView::Encoding { messages: batch.len(), settings },
                ..self
            },
            ActionView::Encode { batch },
        )
    }

    /// A message came, or none did in time. After the first one, whatever is
    /// there at once is added until the batch is full.
    pub open spec fn received(self, message: Option<M>) -> (Self, ActionView<M, C>) {
        let batch = self.phase->batch;
        let batch_size = self.phase->batch_size;
        let settings = self.phase->Receiving_settings;
        match message {
            None => if batch.len() == 0 {
                self.over(None)
            } else {
                self.batched(batch, settings)
            },
            Some(message) => if batch.len() + 1 < batch_size {
                (
                    SenderView {
                        phase: PhaseView::Receiving {
                            batch: batch.push(message),
                            batch_size,
                            settings,
                        },
                        ..self
                    },
                    ActionView::Receive { timeout_secs: 0 },
                )
            } else {
                self.batched(batch.push(message), settings)
            },
        }
    }

    /// The messages were put into JSON. Those for which that failed are lost.
    pub open spec fn encoded(self, messages: Seq<Encoded>) -> (Self, ActionView<M, C>) {
        let events = events_of(messages, self.phase->Encoding_settings);
        let raw_bytes = counted(0, total_len(events));
        let after = SenderView {
            counter: self.counter.lost((messages.len() - events.len()) as nat),
            ..self
        };
        if events.len() == 0 {
            after.over(None)
        } else {
            (
                SenderView { phase: PhaseView::Admitting { events, raw_bytes }, ..after },
                ActionView::Admit { raw_bytes },
            )
        }
    }

    /// The send of these events has come to a step.
    pub open spec fn stepped(self, events: Seq<Json>, raw_bytes: u64, progress: Progress<C>) -> (
        Self,
        ActionView<M, C>,
    ) {
        let after = SenderView {
            pool: Some(PoolInUse { state: progress.pool, ..self.pool->0 }),
            pool_stats: progress.stats,
            ..self
        };
        match progress.step {
            StepView::Connect { attempt, addr } => (
                SenderView { phase: PhaseView::Connecting { events, raw_bytes, attempt }, ..after },
                ActionView::Connect { attempt, addr },
            ),
            StepView::Transmit { attempt, client } => (
                SenderView {
                    phase: PhaseView::Transmitting { events, raw_bytes, attempt },
                    ..after
                },
                ActionView::Transmit { attempt, client },
            ),
            StepView::Finished { result: Ok(acked) } => SenderView {
                counter: self.counter.sent(acked as nat, raw_bytes as nat),
                ..after
            }.over(None),
            StepView::Finished { result: Err(error) } => after.over_lost(
                events.len(),
                Some(error),
            ),
        }
    }

    /// The events were admitted at the moment `now`, or not. Those that were not,
    /// or that there is no pool for, are lost.
    pub open spec fn admitted(self, granted: bool, now: u128) -> (Self, ActionView<M, C>) {
        let events = self.phase->Admitting_events;
        let raw_bytes = self.phase->Admitting_raw_bytes;
        match self.pool {
            Some(pool) if granted => self.stepped(
                events,
                raw_bytes,
                begun(pool.state, self.pool_stats, now),
            ),
            _ => self.over_lost(events.len(), None),
        }
    }

    /// A connection was opened, or could not be.
    pub open spec fn connected(self, result: Result<C, Seq<char>>, now: u128, random: u64) -> (
        Self,
        ActionView<M, C>,
    ) {
        self.stepped(
            self.phase->Connecting_events,
            self.phase->Connecting_raw_bytes,
            after_connect(
                self.pool->0.state,
                self.pool_stats,
                self.phase->Connecting_attempt,
                result,
                now,
                random,
            ),
        )
    }

    /// The events were acknowledged, or could not be sent.
    pub open spec fn transmitted(
        self,
        client: C,
        result: Result<u32, Seq<char>>,
        now: u128,
        random: u64,
    ) -> (Self, ActionView<M, C>) {
        self.stepped(
            self.phase->Transmitting_events,
            self.phase->Transmitting_raw_bytes,
            after_transmit(
                self.pool->0.state,
                self.pool_stats,
                self.phase->Transmitting_attempt,
                client,
                result,
                now,
                random,
            ),
        )
    }
}

/// The send loop for messages of type `M` over connections of type `C`.
pub struct LumberjackSender<M, C> {
    counter: SenderCounter,
    pool: Option<LumberjackConnectionPool<C>>,
    pool_stats: PoolStats,
    phase: Phase<M>,
}

spec fn in_use<C>(pool: Option<LumberjackConnectionPool<C>>) -> Option<PoolInUse<C>> {
    match pool {
        Some(pool) => Some(
            PoolInUse { state: pool@, config: pool.config, clock: pool.clock },
        ),
        None => None,
    }
}

impl<M, C> View for LumberjackSender<M, C> {
    type V = SenderView<M, C>;

    closed spec fn view(&self) -> SenderView<M, C> {
        SenderView {
            counter: self.counter,
            pool_stats: self.pool_stats,
            pool: in_use(self.pool),
            phase: self.phase.view(),
        }
    }
}

/// Copies a list of endpoints.
fn copied(endpoints: &Vec<(String, u16)>) -> (copy: Vec<(String, u16)>)
    ensures
        copy@ == endpoints@,
{
    let mut copy: Vec<(String, u16)> = Vec::new();
    let mut i: usize = 0;
    while i < endpoints.len()
        invariant
            i <= endpoints@.len(),
            copy@ == endpoints@.take(i as int),
        decreases endpoints@.len() - i,
    {
        copy.push((endpoints[i].0.clone(), endpoints[i].1));
        i += 1;
    }
    copy
}

impl<M, C> LumberjackSender<M, C> {
    #[verifier::type_invariant]
    spec fn type_inv(self) -> bool {
        self@.wf()
    }

    /// A sender without a pool that goes on counting from here.
    pub fn new(counter: SenderCounter, pool_stats: PoolStats) -> (sender: Self)
        ensures
            sender@ == (SenderView::<M, C> {
                counter,
                pool_stats,
                pool: None,
                phase: PhaseView::Idle,
            }),
            sender@.wf(),
    {
        LumberjackSender { counter, pool: None, pool_stats, phase: Phase::Idle }
    }

    /// What became of the messages so far.
    pub fn counter(&self) -> (counter: SenderCounter)
        ensures
            counter == self@.counter,
    {
        self.counter
    }

    /// What the pool has been through so far.
    pub fn pool_stats(&self) -> (pool_stats: PoolStats)
        ensures
            pool_stats == self@.pool_stats,
    {
        self.pool_stats
    }

    /// How connections are opened, once there is a pool.
    pub fn pool_config(&self) -> (config: Option<&PoolConfig>)
        ensures
            match config {
                Some(config) => self@.pool matches Some(pool) && *config == pool.config,
                None => self@.pool is None,
            },
    {
        match &self.pool {
            Some(pool) => Some(&pool.config),
            None => None,
        }
    }

    /// The address of an endpoint of the pool, if there is one of that number.
    pub fn endpoint_addr(&self, idx: usize) -> (addr: Option<String>)
        ensures
            match addr {
                Some(addr) => {
                    &&& self@.pool matches Some(pool)
                    &&& idx < pool.state.endpoints.len()
                    &&& addr@ == pool.state.endpoints[idx as int].spec_addr()
                },
                None => self@.pool matches Some(pool) ==> idx >= pool.state.endpoints.len(),
            },
    {
        match &self.pool {
            Some(pool) => if idx < pool.endpoints.len() {
                Some(pool.endpoints[idx].addr())
            } else {
                None
            },
            None => None,
        }
    }

    /// The events that are being sent, if any are.
    pub fn events(&self) -> (events: Option<&Vec<Value>>)
        ensures
            match events {
                Some(events) => self@.phase is Transmitting && contents(events@)
                    == self@.phase->Transmitting_events,
                None => !(self@.phase is Transmitting),
            },
    {
        match &self.phase {
            Phase::Transmitting { prepared, .. } => Some(&prepared.events),
            _ => None,
        }
    }

    /// Makes the pool by the settings, unless there is one or they name no
    /// endpoint.
    pub fn ensure_pool(&mut self, config: &SenderConfig)
        ensures
            final(self)@ == (SenderView { pool: final(self)@.pool, ..old(self)@ }),
            pool_ensured(old(self)@.pool, *config, final(self)@.pool),
            final(self)@.wf(),
    {
        proof {
            use_type_invariant(&*self);
        }
        if self.pool.is_some() || config.lumberjack_endpoints.len() == 0 {
            return;
        }
        let pool = LumberjackConnectionPool::new(
            copied(&config.lumberjack_endpoints),
            PoolConfig {
                compression_level: config.lumberjack_compression_level,
                ack_timeout: config.lumberjack_ack_timeout,
                local_port_range: config.lumberjack_local_port_range,
            },
        );
        self.pool = Some(pool);
    }

    /// Begins another batch with these settings, if the loop is to go on.
    pub fn poll(&mut self, running: bool, settings: Arc<SenderConfig>) -> (action: Action<M, C>)
        requires
            old(self)@.phase is Idle,
        ensures
            (final(self)@, action@) == old(self)@.polled(running, *settings, final(self)@.pool),
            running ==> pool_ensured(old(self)@.pool, *settings, final(self)@.pool),
            final(self)@.wf(),
    {
        proof {
            use_type_invariant(&*self);
        }
        if !running {
            return Action::Stop;
        }
        self.ensure_pool(&settings);
        let batch_size: usize = batch_size(settings.lumberjack_batch_size);
        self.phase = Phase::Receiving { batch: Vec::new(), batch_size, settings };
        Action::Receive { timeout_secs: FIRST_MESSAGE_SECS }
    }

    /// Takes the phase out, and leaves the sender between two batches.
    fn take_phase(&mut self) -> (phase: Phase<M>)
        ensures
            phase.view() == old(self)@.phase,
            final(self)@ == (SenderView { phase: PhaseView::Idle, ..old(self)@ }),
            final(self).pool == old(self).pool,
            old(self)@.wf(),
    {
        proof {
            use_type_invariant(&*self);
        }
        let mut phase: Phase<M> = Phase::Idle;
        std::mem::swap(&mut phase, &mut self.phase);
        phase
    }

    /// Goes on with a batch that has been received.
    fn finish_batch(&mut self, batch: Vec<M>, settings: Arc<SenderConfig>) -> (action: Action<
        M,
        C,
    >)
        requires
            0 < batch@.len() <= QUEUE_BATCH_SIZE,
        ensures
            (final(self)@, action@) == old(self)@.batched(batch@, *settings),
            final(self)@.wf(),
    {
        proof {
            use_type_invariant(&*self);
        }
        let mut counter: SenderCounter = self.counter;
        count(&mut counter.rx, batch.len() as u64);
        self.counter = counter;
        self.phase = Phase::Encoding { messages: batch.len(), settings };
        Action::Encode { batch }
    }

    /// Goes on after a message was waited for.
    pub fn received(&mut self, message: Option<M>) -> (action: Action<M, C>)
        requires
            old(self)@.phase is Receiving,
        ensures
            (final(self)@, action@) == old(self)@.received(message),
            final(self)@.wf(),
    {
        match self.take_phase() {
            Phase::Receiving { mut batch, batch_size, settings } => match message {
                None => if batch.len() == 0 {
                    Action::Poll { failure: None }
                } else {
                    self.finish_batch(batch, settings)
                },
                Some(message) => {
                    batch.push(message);
                    if batch.len() < batch_size {
                        self.phase = Phase::Receiving { batch, batch_size, settings };
                        Action::Receive { timeout_secs: 0 }
                    } else {
                        self.finish_batch(batch, settings)
                    }
                },
            },
            _ => Action::Stop,
        }
    }

    /// Counts messages that are lost.
    fn lose(&mut self, messages: usize)
        ensures
            final(self)@ == (SenderView {
                counter: old(self)@.counter.lost(messages as nat),
                ..old(self)@
            }),
            final(self)@.wf(),
    {
        proof {
            use_type_invariant(&*self);
        }
        let mut counter: SenderCounter = self.counter;
        count(&mut counter.dropped, messages as u64);
        self.counter = counter;
    }

    /// Goes on after the messages of the batch were put into JSON, in their order.
    pub fn encoded(&mut self, messages: Vec<Encoded>) -> (action: Action<M, C>)
        requires
            old(self)@.phase is Encoding,
            messages@.len() == old(self)@.phase->messages,
        ensures
            (final(self)@, action@) == old(self)@.encoded(messages@),
            final(self)@.wf(),
    {
        match self.take_phase() {
            Phase::Encoding { settings, .. } => {
                let total: usize = messages.len();
                let prepared = prepare(messages, &settings);
                self.lose(total - prepared.events.len());
                if prepared.events.len() == 0 {
                    return Action::Poll { failure: None };
                }
                let raw_bytes: u64 = prepared.raw_bytes;
                self.phase = Phase::Admitting { prepared };
                Action::Admit { raw_bytes }
            },
            _ => Action::Stop,
        }
    }

    /// Goes on with the step that the send of these events has come to, where the
    /// pool and its statistics are these now.
    fn go_on(
        &mut self,
        prepared: Prepared,
        pool: LumberjackConnectionPool<C>,
        pool_stats: PoolStats,
        step: SendStep<C>,
    ) -> (action: Action<M, C>)
        requires
            0 < prepared.events@.len() <= QUEUE_BATCH_SIZE,
            pool@.sound(),
            0 < pool@.endpoints.len(),
            within(step@, pool@.endpoints.len()),
            old(self)@.phase is Idle,
        ensures
            ({
                let before = SenderView {
                    pool: Some(
                        PoolInUse { state: pool@, config: pool.config, clock: pool.clock },
                    ),
                    ..old(self)@
                };
                (final(self)@, action@) == before.stepped(
                    contents(prepared.events@),
                    prepared.raw_bytes,
                    Progress { pool: pool@, stats: pool_stats, step: step@ },
                )
            }),
            final(self)@.wf(),
    {
        assert(pool.endpoints.len() <= usize::MAX);
        self.pool = Some(pool);
        self.pool_stats = pool_stats;
        match step {
            SendStep::Connect { attempt, addr } => {
                self.phase = Phase::Connecting { prepared, attempt };
                Action::Connect { attempt, addr }
            },
            SendStep::Transmit { attempt, client } => {
                self.phase = Phase::Transmitting { prepared, attempt };
                Action::Transmit { attempt, client }
            },
            SendStep::Finished { result } => {
                match result {
                    Ok(acked) => {
                        let mut counter: SenderCounter = self.counter;
                        count(&mut counter.tx, acked as u64);
                        count(&mut counter.tx_bytes, prepared.raw_bytes);
                        self.counter = counter;
                        Action::Poll { failure: None }
                    },
                    Err(error) => {
                        self.lose(prepared.events.len());
                        Action::Poll { failure: Some(error) }
                    },
                }
            },
        }
    }

    /// Takes the pool out of a sender between two batches.
    fn take_pool(&mut self) -> (pool: Option<LumberjackConnectionPool<C>>)
        requires
            old(self)@.phase is Idle,
        ensures
            pool == old(self).pool,
            final(self)@ == (SenderView { pool: None, ..old(self)@ }),
            old(self)@.wf(),
    {
        proof {
            use_type_invariant(&*self);
        }
        let mut pool: Option<LumberjackConnectionPool<C>> = None;
        std::mem::swap(&mut pool, &mut self.pool);
        pool
    }

    /// Goes on after the events were admitted at the moment `now`, or not.
    pub fn admitted_at(&mut self, granted: bool, now: u128) -> (action: Action<M, C>)
        requires
            old(self)@.phase is Admitting,
        ensures
            (final(self)@, action@) == old(self)@.admitted(granted, now),
            final(self)@.wf(),
    {
        match self.take_phase() {
            Phase::Admitting { prepared } => {
                if granted {
                    if let Some(mut pool) = self.take_pool() {
                        let mut pool_stats: PoolStats = self.pool_stats;
                        assert(pool.endpoints.len() <= usize::MAX);
                        proof {
                            law_send_starts(pool@, pool_stats, now);
                            lemma_start_sound(pool@, pool_stats, now);
                        }
                        let step = pool.send_with_retry_at(&mut pool_stats, now);
                        return self.go_on(prepared, pool, pool_stats, step);
                    }
                }
                self.lose(prepared.events.len());
                Action::Poll { failure: None }
            },
            _ => Action::Stop,
        }
    }

    /// Goes on after the events were admitted, or not.
    pub fn admitted(&mut self, granted: bool) -> (action: Action<M, C>)
        requires
            old(self)@.phase is Admitting,
        ensures
            exists|now: u128|
                (old(self)@.pool matches Some(pool) ==> pool.clock.shows(now)) && now
                    < duration_end() && (final(self)@, action@) == #[trigger] old(
                    self,
                )@.admitted(granted, now),
            final(self)@.wf(),
    {
        let now: u128 = match &self.pool {
            Some(pool) => pool.clock.now(),
            None => 0,
        };
        self.admitted_at(granted, now)
    }

    /// Goes on after a connection was opened, or could not be opened at the
    /// moment `now`; the jitter of the cooldown comes from `random`.
    pub fn connected_at(&mut self, result: Result<C, String>, now: u128, random: u64) -> (action:
        Action<M, C>)
        requires
            old(self)@.phase is Connecting,
            now < duration_end(),
        ensures
            (final(self)@, action@) == old(self)@.connected(outcome(result), now, random),
            final(self)@.wf(),
    {
        if let Phase::Connecting { prepared, attempt } = self.take_phase() {
            if let Some(mut pool) = self.take_pool() {
                let mut pool_stats: PoolStats = self.pool_stats;
                proof {
                    law_connect_advances(
                        pool@,
                        pool_stats,
                        attempt,
                        Seq::empty(),
                        outcome(result),
                        now,
                        random,
                    );
                    lemma_connect_sound(
                        pool@,
                        pool_stats,
                        attempt,
                        outcome(result),
                        now,
                        random,
                    );
                }
                let step = pool.connected_at(&mut pool_stats, attempt, result, now, random);
                return self.go_on(prepared, pool, pool_stats, step);
            }
        }
        Action::Stop
    }

    /// The moment it is now, by the clock of the pool, and a random number. They
    /// are drawn if and only if they are `needed` and there is a pool.
    fn drawn(&self, needed: bool) -> (drawn: Option<(u128, u64)>)
        ensures
            drawn is Some <==> needed && self@.pool is Some,
            drawn matches Some((now, random)) ==> self@.pool->0.clock.shows(now) && now
                < duration_end() && chance_brings(random),
    {
        match &self.pool {
            Some(pool) => pool.drawn(needed),
            None => None,
        }
    }

    /// Goes on after a connection was opened, or could not be.
    pub fn connected(&mut self, result: Result<C, String>) -> (action: Action<M, C>)
        requires
            old(self)@.phase is Connecting,
        ensures
            exists|now: u128, random: u64|
                (result is Err ==> old(self)@.pool->0.clock.shows(now) && chance_brings(random))
                    && now < duration_end() && (final(self)@, action@) == #[trigger] old(
                    self,
                )@.connected(outcome(result), now, random),
            final(self)@.wf(),
    {
        proof {
            use_type_invariant(&*self);
        }
        let (now, random): (u128, u64) = match self.drawn(result.is_err()) {
            Some(drawn) => drawn,
            None => (0, 0),
        };
        self.connected_at(result, now, random)
    }

    /// Goes on after the events went out over `client`: so many were
    /// acknowledged, or it failed at the moment `now`; the jitter of the cooldown
    /// comes from `random`.
    pub fn transmitted_at(
        &mut self,
        client: C,
        result: Result<u32, String>,
        now: u128,
        random: u64,
    ) -> (action: Action<M, C>)
        requires
            old(self)@.phase is Transmitting,
            now < duration_end(),
        ensures
            (final(self)@, action@) == old(self)@.transmitted(
                client,
                outcome(result),
                now,
                random,
            ),
            final(self)@.wf(),
    {
        if let Phase::Transmitting { prepared, attempt } = self.take_phase() {
            if let Some(mut pool) = self.take_pool() {
                let mut pool_stats: PoolStats = self.pool_stats;
                proof {
                    law_transmit_advances(
                        pool@,
                        pool_stats,
                        attempt,
                        client,
                        outcome(result),
                        now,
                        random,
                    );
                    lemma_transmit_sound(
                        pool@,
                        pool_stats,
                        attempt,
                        client,
                        outcome(result),
                        now,
                        random,
                    );
                }
                let step = pool.transmitted_at(
                    &mut pool_stats,
                    attempt,
                    client,
                    result,
                    now,
                    random,
                );
                return self.go_on(prepared, pool, pool_stats, step);
            }
        }
        Action::Stop
    }

    /// Goes on after the events went out over `client`: so many were
    /// acknowledged, or it failed.
    pub fn transmitted(&mut self, client: C, result: Result<u32, String>) -> (action: Action<
        M,
        C,
    >)
        requires
            old(self)@.phase is Transmitting,
        ensures
            exists|now: u128, random: u64|
                (result is Err ==> old(self)@.pool->0.clock.shows(now) && chance_brings(random))
                    && now < duration_end() && (final(self)@, action@) == #[trigger] old(
                    self,
                )@.transmitted(client, outcome(result), now, random),
            final(self)@.wf(),
    {
        proof {
            use_type_invariant(&*self);
        }
        let (now, random): (u128, u64) = match self.drawn(result.is_err()) {
            Some(drawn) => drawn,
            None => (0, 0),
        };
        self.transmitted_at(client, result, now, random)
    }
}

} // verus!
