//! The endpoints of a sender, and which of them to use next.
use crate::clock::{chance_brings, draw, duration_end, Clock};
use crate::endpoint::{EndpointState, LumberjackEndpoint};
use crate::pool_laws::law_picked_is_ready;
use std::time::Duration;
use vstd::prelude::*;

verus! {

/// How connections are opened.
pub struct PoolConfig {
    pub compression_level: u32,
    pub ack_timeout: Duration,
    pub local_port_range: Option<(u16, u16)>,
}

/// Several endpoints for the same purpose, used in turn.
pub struct LumberjackConnectionPool<C> {
    pub endpoints: Vec<LumberjackEndpoint<C>>,
    pub next_index: usize,
    pub config: PoolConfig,
    pub clock: Clock,
}

/// The endpoints of a pool, and the cursor that the next scan starts from.
#[verifier::ext_equal]
pub struct PoolView<C> {
    pub endpoints: Seq<LumberjackEndpoint<C>>,
    pub cursor: usize,
}

/// The cursor after so many probes. It wraps around at the end of its range.
pub open spec fn advanced(cursor: usize, probes: int) -> usize {
    ((cursor + probes) % (usize::MAX + 1)) as usize
}

/// The endpoint, out of `total`, that the probe number `probe` of a scan from
/// `cursor` looks at.
pub open spec fn probed(cursor: usize, probe: int, total: nat) -> int {
    advanced(cursor, probe) as int % total as int
}

/// What a scan can come to that asks each endpoint it looks at in turn, once
/// around, and stops at the first that says yes: `answers` holds of an endpoint
/// and each answer it may give.
pub open spec fn scanned<E>(
    endpoints: Seq<E>,
    cursor: usize,
    answers: spec_fn(E, bool) -> bool,
    picked: Option<usize>,
    next: usize,
) -> bool {
    let total = endpoints.len();
    match picked {
        Some(index) => exists|probe: int|
            {
                &&& 0 <= probe < total
                &&& index == #[trigger] probed(cursor, probe, total)
                &&& answers(endpoints[index as int], true)
                &&& forall|earlier: int|
                    0 <= earlier < probe ==> answers(
                        endpoints[#[trigger] probed(cursor, earlier, total)],
                        false,
                    )
                &&& next == advanced(cursor, probe + 1)
            },
        None => {
            &&& forall|probe: int|
                0 <= probe < total ==> answers(
                    endpoints[#[trigger] probed(cursor, probe, total)],
                    false,
                )
            &&& next == advanced(cursor, total as int)
        },
    }
}

/// Whether the probe number `probe` is the first whose endpoint is `wanted`.
pub open spec fn first_hit<E>(
    endpoints: Seq<E>,
    cursor: usize,
    wanted: spec_fn(E) -> bool,
    probe: int,
) -> bool {
    &&& 0 <= probe < endpoints.len()
    &&& wanted(endpoints[probed(cursor, probe, endpoints.len())])
    &&& forall|earlier: int|
        0 <= earlier < probe ==> !wanted(
            endpoints[#[trigger] probed(cursor, earlier, endpoints.len())],
        )
}

/// The first `wanted` endpoint once around from `cursor`, and the cursor behind
/// it; or none, and the cursor after a full round.
pub open spec fn scan<E>(endpoints: Seq<E>, cursor: usize, wanted: spec_fn(E) -> bool) -> (
    Option<usize>,
    usize,
) {
    if exists|probe: int| first_hit(endpoints, cursor, wanted, probe) {
        let probe = choose|probe: int| first_hit(endpoints, cursor, wanted, probe);
        (
            Some(probed(cursor, probe, endpoints.len()) as usize),
            advanced(cursor, probe + 1),
        )
    } else {
        (None, advanced(cursor, endpoints.len() as int))
    }
}

/// Where each endpoint gives the answer `wanted` and no other, a scan comes to
/// one thing.
proof fn lemma_scanned_is_scan<E>(
    endpoints: Seq<E>,
    cursor: usize,
    answers: spec_fn(E, bool) -> bool,
    wanted: spec_fn(E) -> bool,
    picked: Option<usize>,
    next: usize,
)
    requires
        scanned(endpoints, cursor, answers, picked, next),
        forall|endpoint: E, answer: bool| #[trigger]
            answers(endpoint, answer) ==> answer == wanted(endpoint),
    ensures
        (picked, next) == scan(endpoints, cursor, wanted),
{
    let total = endpoints.len();
    match picked {
        Some(index) => {
            let probe = choose|probe: int|
                {
                    &&& 0 <= probe < total
                    &&& index == #[trigger] probed(cursor, probe, total)
                    &&& answers(endpoints[index as int], true)
                    &&& forall|earlier: int|
                        0 <= earlier < probe ==> answers(
                            endpoints[#[trigger] probed(cursor, earlier, total)],
                            false,
                        )
                    &&& next == advanced(cursor, probe + 1)
                };
            assert(first_hit(endpoints, cursor, wanted, probe));
            let chosen = choose|p: int| first_hit(endpoints, cursor, wanted, p);
            assert(first_hit(endpoints, cursor, wanted, chosen));
            if chosen < probe {
                assert(!wanted(endpoints[probed(cursor, chosen, total)]));
            }
            if probe < chosen {
                assert(!wanted(endpoints[probed(cursor, probe, total)]));
            }
        },
        None => {
            if exists|probe: int| first_hit(endpoints, cursor, wanted, probe) {
                let probe = choose|probe: int| first_hit(endpoints, cursor, wanted, probe);
                assert(answers(endpoints[probed(cursor, probe, total)], false));
            }
        },
    }
}

impl<C> PoolView<C> {
    /// Whether what is known of each endpoint fits together.
    pub open spec fn sound(self) -> bool {
        forall|i: int| 0 <= i < self.endpoints.len() ==> (#[trigger] self.endpoints[i]).sound()
    }

    /// The endpoint to use at the moment `now`, and the pool after that choice:
    /// the next one that is available, else the next one that is slow, else the
    /// next one that may be tried again.
    pub open spec fn pick(self, now: u128) -> (Option<usize>, PoolView<C>) {
        let available = scan(
            self.endpoints,
            self.cursor,
            |endpoint: LumberjackEndpoint<C>| endpoint.state is Available,
        );
        let slow = scan(
            self.endpoints,
            available.1,
            |endpoint: LumberjackEndpoint<C>| endpoint.state is Slow,
        );
        let ready = scan(
            self.endpoints,
            slow.1,
            |endpoint: LumberjackEndpoint<C>| endpoint.state.ready_at(now),
        );
        let choice = if available.0 is Some {
            available
        } else if slow.0 is Some {
            slow
        } else {
            ready
        };
        (choice.0, PoolView { cursor: choice.1, ..self })
    }

    /// The pool with the endpoint number `index` replaced.
    pub open spec fn with(self, index: int, endpoint: LumberjackEndpoint<C>) -> PoolView<C> {
        PoolView { endpoints: self.endpoints.update(index, endpoint), ..self }
    }

    pub open spec fn succeeded(self, index: int, keepalives: u32) -> PoolView<C> {
        self.with(index, self.endpoints[index].succeeded(keepalives))
    }

    pub open spec fn failed(self, index: int, now: u128, random: u64) -> PoolView<C> {
        self.with(index, self.endpoints[index].failed(now, random))
    }
}

/// A pool that has not been used yet: every endpoint is available and none is
/// connected.
pub open spec fn fresh<C>(endpoints: Seq<(String, u16)>) -> PoolView<C> {
    PoolView {
        endpoints: endpoints.map_values(
            |endpoint: (String, u16)|
                LumberjackEndpoint {
                    ip: endpoint.0,
                    port: endpoint.1,
                    client: None,
                    state: EndpointState::Available,
                    consecutive_failures: 0,
                },
        ),
        cursor: 0,
    }
}

impl<C> View for LumberjackConnectionPool<C> {
    type V = PoolView<C>;

    open spec fn view(&self) -> PoolView<C> {
        PoolView { endpoints: self.endpoints@, cursor: self.next_index }
    }
}

impl<C> LumberjackConnectionPool<C> {
    /// Whether the pool opens connections in the same way as `other`, and goes
    /// by the same clock.
    pub open spec fn set_up_like(self, other: Self) -> bool {
        self.config == other.config && self.clock == other.clock
    }

    /// A pool of these endpoints, none of which is connected yet.
    pub fn new(endpoints: Vec<(String, u16)>, config: PoolConfig) -> (pool: Self)
        ensures
            pool.config == config,
            pool@ == fresh::<C>(endpoints@),
    {
        let mut made: Vec<LumberjackEndpoint<C>> = Vec::new();
        for endpoint in it: endpoints
            invariant
                it.seq() == endpoints@,
                made@ == fresh::<C>(endpoints@).endpoints.take(it.index()),
        {
            made.push(LumberjackEndpoint::new(endpoint.0, endpoint.1));
        }
        LumberjackConnectionPool { endpoints: made, next_index: 0, config, clock: Clock::start() }
    }

    /// The next endpoint, once around, that `predicate` says yes to.
    pub fn pick_endpoint_by<F>(&mut self, predicate: F) -> (picked: Option<usize>) where
        F: Fn(&LumberjackEndpoint<C>) -> bool,

        requires
            forall|endpoint: &LumberjackEndpoint<C>| #[trigger]
                call_requires(predicate, (endpoint,)),
        ensures
            scanned(
                old(self)@.endpoints,
                old(self)@.cursor,
                |endpoint: LumberjackEndpoint<C>, answer: bool|
                    call_ensures(predicate, (&endpoint,), answer),
                picked,
                final(self)@.cursor,
            ),
            final(self)@.endpoints == old(self)@.endpoints,
            final(self).set_up_like(*old(self)),
    {
        let total: usize = self.endpoints.len();
        let ghost start = self.next_index;
        let mut probe: usize = 0;
        proof {
            vstd::arithmetic::div_mod::lemma_small_mod(start as nat, (usize::MAX + 1) as nat);
        }
        while probe < total
            invariant
                probe <= total,
                total == self.endpoints@.len(),
                self.endpoints == old(self).endpoints,
                self.set_up_like(*old(self)),
                start == old(self).next_index,
                self.next_index == advanced(start, probe as int),
                forall|endpoint: &LumberjackEndpoint<C>| #[trigger]
                    call_requires(predicate, (endpoint,)),
                forall|earlier: int|
                    0 <= earlier < probe ==> call_ensures(
                        predicate,
                        (&self.endpoints@[#[trigger] probed(start, earlier, total as nat)],),
                        false,
                    ),
            decreases total - probe,
        {
            let index: usize = self.next_index % total;
            assert(index == probed(start, probe as int, total as nat));
            proof {
                lemma_advanced_by_one(start, probe as int);
            }
            self.next_index = self.next_index.wrapping_add(1);
            if predicate(&self.endpoints[index]) {
                return Some(index);
            }
            probe += 1;
        }
        None
    }

    /// The endpoint to use at the moment `now`.
    pub fn pick_endpoint_at(&mut self, now: u128) -> (picked: Option<usize>)
        ensures
            (picked, final(self)@) == old(self)@.pick(now),
            picked matches Some(index) ==> index < old(self)@.endpoints.len(),
            final(self).set_up_like(*old(self)),
    {
        assert(self.endpoints.len() <= usize::MAX);
        proof {
            law_picked_is_ready(self@, now);
        }
        let ghost endpoints = self.endpoints@;
        let ghost cursor = self.next_index;
        let is_available = |endpoint: &LumberjackEndpoint<C>| -> (answer: bool)
            ensures
                answer == (endpoint.state is Available),
            { endpoint.is_available() };
        let picked = self.pick_endpoint_by(is_available);
        proof {
            lemma_scanned_is_scan(
                endpoints,
                cursor,
                |endpoint: LumberjackEndpoint<C>, answer: bool|
                    call_ensures(is_available, (&endpoint,), answer),
                |endpoint: LumberjackEndpoint<C>| endpoint.state is Available,
                picked,
                self.next_index,
            );
        }
        if picked.is_some() {
            return picked;
        }
        let ghost cursor = self.next_index;
        let is_slow = |endpoint: &LumberjackEndpoint<C>| -> (answer: bool)
            ensures
                answer == (endpoint.state is Slow),
            { endpoint.is_slow() };
        let picked = self.pick_endpoint_by(is_slow);
        proof {
            lemma_scanned_is_scan(
                endpoints,
                cursor,
                |endpoint: LumberjackEndpoint<C>, answer: bool|
                    call_ensures(is_slow, (&endpoint,), answer),
                |endpoint: LumberjackEndpoint<C>| endpoint.state is Slow,
                picked,
                self.next_index,
            );
        }
        if picked.is_some() {
            return picked;
        }
        let ghost cursor = self.next_index;
        let can_try = |endpoint: &LumberjackEndpoint<C>| -> (answer: bool)
            ensures
                answer == endpoint.state.ready_at(now),
            { endpoint.can_try_at(now) };
        let picked = self.pick_endpoint_by(can_try);
        proof {
            lemma_scanned_is_scan(
                endpoints,
                cursor,
                |endpoint: LumberjackEndpoint<C>, answer: bool|
                    call_ensures(can_try, (&endpoint,), answer),
                |endpoint: LumberjackEndpoint<C>| endpoint.state.ready_at(now),
                picked,
                self.next_index,
            );
        }
        picked
    }

    /// The endpoint to use now.
    pub fn pick_endpoint(&mut self) -> (picked: Option<usize>)
        ensures
            exists|now: u128|
                old(self).clock.shows(now) && now < duration_end() && (picked, final(self)@)
                    == #[trigger] old(self)@.pick(now),
            picked matches Some(index) ==> index < old(self)@.endpoints.len(),
            final(self).set_up_like(*old(self)),
    {
        let now: u128 = self.clock.now();
        self.pick_endpoint_at(now)
    }

    /// Records that an exchange with the endpoint number `idx` succeeded, with so
    /// many keepalives before the answer.
    pub fn mark_success(&mut self, idx: usize, keepalives: u32)
        requires
            idx < old(self)@.endpoints.len(),
        ensures
            final(self)@ == old(self)@.succeeded(idx as int, keepalives),
            final(self).set_up_like(*old(self)),
    {
        self.endpoints[idx].mark_success(keepalives);
    }

    /// Records that an exchange with the endpoint number `idx` failed at the
    /// moment `now`; the jitter of the cooldown comes from `random`.
    pub fn mark_failure_at(&mut self, idx: usize, now: u128, random: u64)
        requires
            idx < old(self)@.endpoints.len(),
            now < duration_end(),
        ensures
            final(self)@ == old(self)@.failed(idx as int, now, random),
            final(self).set_up_like(*old(self)),
    {
        self.endpoints[idx].mark_failure_at(now, random);
    }

    /// Records that an exchange with the endpoint number `idx` failed just now.
    pub fn mark_failure(&mut self, idx: usize)
        requires
            idx < old(self)@.endpoints.len(),
        ensures
            exists|now: u128, random: u64|
                old(self).clock.shows(now) && now < duration_end() && chance_brings(random)
                    && final(self)@ == #[trigger] old(self)@.failed(idx as int, now, random),
            final(self).set_up_like(*old(self)),
    {
        let random: u64 = draw();
        let now: u128 = self.clock.now();
        self.mark_failure_at(idx, now, random);
    }
}

/// One probe more moves the cursor on by one, around the end of its range.
proof fn lemma_advanced_by_one(cursor: usize, probes: int)
    requires
        probes >= 0,
    ensures
        advanced(cursor, probes + 1) == advanced(advanced(cursor, probes), 1),
        forall|c: usize| #[trigger] advanced(c, 1) == c.wrapping_add(1),
{
    vstd::arithmetic::div_mod::lemma_add_mod_noop_right(1, cursor + probes, usize::MAX + 1);
    assert forall|c: usize| #[trigger] advanced(c, 1) == c.wrapping_add(1) by {
        if c == usize::MAX {
            vstd::arithmetic::div_mod::lemma_mod_self_0(usize::MAX + 1);
        } else {
            vstd::arithmetic::div_mod::lemma_small_mod((c + 1) as nat, (usize::MAX + 1) as nat);
        }
    }
}

} // verus!
