//! What holds of every pool.
use crate::clock::duration_end;
use crate::endpoint::{
    cooldown_nanos, law_cooldown_bounds, one_more_failure, EndpointState, LumberjackEndpoint,
    NANOS_PER_SEC,
};
use crate::pool::{
    advanced, first_hit, fresh, probed, scan, scanned, LumberjackConnectionPool, PoolView,
};
use vstd::arithmetic::div_mod::{
    lemma_add_mod_noop_right, lemma_mod_bound, lemma_mod_mod, lemma_small_mod,
    lemma_sub_mod_noop_right,
};
use vstd::prelude::*;

verus! {

/// Whether a scan from `cursor` over `total` endpoints looks at the one number
/// `index`.
pub open spec fn reaches(cursor: usize, total: nat, index: int) -> bool {
    exists|probe: int| 0 <= probe < total && #[trigger] probed(cursor, probe, total) == index
}

/// Whether a scan from `cursor` looks at each of `total` endpoints.
pub open spec fn covers(cursor: usize, total: nat) -> bool {
    forall|index: int| 0 <= index < total ==> #[trigger] reaches(cursor, total, index)
}

/// A scan finds an endpoint that is wanted, or none that it looks at is.
proof fn lemma_scan<E>(endpoints: Seq<E>, cursor: usize, wanted: spec_fn(E) -> bool)
    requires
        endpoints.len() <= usize::MAX,
    ensures
        match scan(endpoints, cursor, wanted).0 {
            Some(index) => index < endpoints.len() && wanted(endpoints[index as int]),
            None => forall|probe: int|
                0 <= probe < endpoints.len() ==> !wanted(
                    endpoints[#[trigger] probed(cursor, probe, endpoints.len())],
                ),
        },
{
    let total = endpoints.len();
    if exists|probe: int| first_hit(endpoints, cursor, wanted, probe) {
        let probe = choose|probe: int| first_hit(endpoints, cursor, wanted, probe);
        lemma_mod_bound(advanced(cursor, probe) as int, total as int);
    } else {
        assert forall|probe: int| 0 <= probe < total implies !wanted(
            endpoints[#[trigger] probed(cursor, probe, total)],
        ) by {
            lemma_no_hit(endpoints, cursor, wanted, probe);
        }
    }
}

/// Where no probe is the first hit, none is a hit.
proof fn lemma_no_hit<E>(
    endpoints: Seq<E>,
    cursor: usize,
    wanted: spec_fn(E) -> bool,
    probe: int,
)
    requires
        !exists|p: int| first_hit(endpoints, cursor, wanted, p),
        0 <= probe < endpoints.len(),
    ensures
        !wanted(endpoints[probed(cursor, probe, endpoints.len())]),
    decreases probe,
{
    assert forall|earlier: int| 0 <= earlier < probe implies !wanted(
        endpoints[#[trigger] probed(cursor, earlier, endpoints.len())],
    ) by {
        lemma_no_hit(endpoints, cursor, wanted, earlier);
    }
    assert(!first_hit(endpoints, cursor, wanted, probe));
}

/// A scan that does not run over the end of the cursor's range looks at every
/// endpoint; so does any scan where the range is a multiple of their number.
pub proof fn law_scan_covers(cursor: usize, total: nat)
    requires
        0 < total,
        cursor + total <= usize::MAX + 1 || (usize::MAX + 1) % total as int == 0,
    ensures
        covers(cursor, total),
{
    let range = usize::MAX + 1;
    assert forall|index: int| 0 <= index < total implies #[trigger] reaches(
        cursor,
        total,
        index,
    ) by {
        let probe = (index - cursor) % total as int;
        lemma_mod_bound(index - cursor, total as int);
        lemma_add_mod_noop_right(cursor as int, index - cursor, total as int);
        lemma_small_mod(index as nat, total);
        assert((cursor + probe) % total as int == index);
        if cursor + total <= range {
            lemma_small_mod((cursor + probe) as nat, range as nat);
        } else {
            let turns = range / total as int;
            vstd::arithmetic::div_mod::lemma_fundamental_div_mod(range, total as int);
            assert(range == total as int * turns);
            assert(turns > 0) by (nonlinear_arith)
                requires
                    range == total as int * turns,
                    range > 0,
                    total > 0,
            ;
            lemma_mod_mod(cursor + probe, total as int, turns);
        }
        assert(probed(cursor, probe, total) == index);
    }
}

/// Only an endpoint that may be tried is ever picked.
pub proof fn law_picked_is_ready<C>(pool: PoolView<C>, now: u128)
    requires
        pool.endpoints.len() <= usize::MAX,
    ensures
        pool.pick(now).0 matches Some(index) ==> index < pool.endpoints.len()
            && pool.endpoints[index as int].state.ready_at(now),
        pool.pick(now).1.endpoints == pool.endpoints,
{
    lemma_passes(pool, now);
}

/// What each of the three passes of a choice comes to.
proof fn lemma_passes<C>(pool: PoolView<C>, now: u128)
    requires
        pool.endpoints.len() <= usize::MAX,
    ensures
        ({
            let endpoints = pool.endpoints;
            let total = endpoints.len();
            let second = advanced(pool.cursor, total as int);
            let third = advanced(second, total as int);
            match pool.pick(now).0 {
                Some(index) => {
                    &&& index < total
                    &&& endpoints[index as int].state.ready_at(now)
                    &&& !(endpoints[index as int].state is Available) ==> none_probed(
                        endpoints,
                        pool.cursor,
                        |e: LumberjackEndpoint<C>| e.state is Available,
                    )
                    &&& endpoints[index as int].state is Cooldown ==> none_probed(
                        endpoints,
                        second,
                        |e: LumberjackEndpoint<C>| e.state is Slow,
                    )
                },
                None => none_probed(
                    endpoints,
                    third,
                    |e: LumberjackEndpoint<C>| e.state.ready_at(now),
                ),
            }
        }),
{
    let endpoints = pool.endpoints;
    let second = advanced(pool.cursor, endpoints.len() as int);
    let third = advanced(second, endpoints.len() as int);
    lemma_scan(endpoints, pool.cursor, |e: LumberjackEndpoint<C>| e.state is Available);
    lemma_scan(endpoints, second, |e: LumberjackEndpoint<C>| e.state is Slow);
    lemma_scan(endpoints, third, |e: LumberjackEndpoint<C>| e.state.ready_at(now));
}

/// Whether none of the endpoints that a scan from `cursor` looks at is `wanted`.
spec fn none_probed<E>(endpoints: Seq<E>, cursor: usize, wanted: spec_fn(E) -> bool) -> bool {
    forall|probe: int|
        0 <= probe < endpoints.len() ==> !wanted(
            endpoints[#[trigger] probed(cursor, probe, endpoints.len())],
        )
}

/// What none of the endpoints that a scan looks at is, the one number `index` is
/// not, if it is among them.
proof fn lemma_none<E>(endpoints: Seq<E>, cursor: usize, wanted: spec_fn(E) -> bool, index: int)
    requires
        none_probed(endpoints, cursor, wanted),
        reaches(cursor, endpoints.len(), index),
    ensures
        !wanted(endpoints[index]),
{
    let probe = choose|probe: int|
        0 <= probe < endpoints.len() && #[trigger] probed(cursor, probe, endpoints.len())
            == index;
    assert(!wanted(endpoints[probed(cursor, probe, endpoints.len())]));
}

/// An available endpoint goes before a slow one, and a slow one before one that
/// has cooled down: of the endpoints that a pass looks at, none would have gone
/// before the one that is picked.
pub proof fn law_pick_priority<C>(pool: PoolView<C>, now: u128, other: int)
    requires
        pool.endpoints.len() <= usize::MAX,
    ensures
        pool.pick(now).0 matches Some(index) ==> {
            &&& reaches(pool.cursor, pool.endpoints.len(), other)
                && pool.endpoints[other].state is Available
                ==> pool.endpoints[index as int].state is Available
            &&& reaches(
                advanced(pool.cursor, pool.endpoints.len() as int),
                pool.endpoints.len(),
                other,
            ) && pool.endpoints[other].state is Slow ==> !(
            pool.endpoints[index as int].state is Cooldown)
        },
{
    let endpoints = pool.endpoints;
    let second = advanced(pool.cursor, endpoints.len() as int);
    lemma_passes(pool, now);
    if let Some(index) = pool.pick(now).0 {
        if !(endpoints[index as int].state is Available) && reaches(
            pool.cursor,
            endpoints.len(),
            other,
        ) {
            lemma_none(
                endpoints,
                pool.cursor,
                |e: LumberjackEndpoint<C>| e.state is Available,
                other,
            );
        }
        if endpoints[index as int].state is Cooldown && reaches(second, endpoints.len(), other) {
            lemma_none(endpoints, second, |e: LumberjackEndpoint<C>| e.state is Slow, other);
        }
    }
}

/// The cursor that the last pass of a choice starts from.
pub open spec fn last_pass<C>(pool: PoolView<C>) -> usize {
    advanced(advanced(pool.cursor, pool.endpoints.len() as int), pool.endpoints.len() as int)
}

/// Where none is picked, none of the endpoints that the last pass looks at may be
/// tried.
pub proof fn law_pick_finds<C>(pool: PoolView<C>, now: u128, other: int)
    requires
        pool.endpoints.len() <= usize::MAX,
        reaches(last_pass(pool), pool.endpoints.len(), other),
        pool.endpoints[other].state.ready_at(now),
    ensures
        pool.pick(now).0 is Some,
{
    lemma_passes(pool, now);
    if pool.pick(now).0 is None {
        lemma_none(
            pool.endpoints,
            last_pass(pool),
            |e: LumberjackEndpoint<C>| e.state.ready_at(now),
            other,
        );
    }
}

/// The endpoints take turns: while all are available, the choice number `turn`
/// after the cursor stood at `pool.cursor` falls on the endpoint behind the one
/// chosen before it, and within one round that does not run over the end of the
/// cursor's range no endpoint is chosen twice.
pub proof fn law_round_robin<C>(pool: PoolView<C>, turn: int, other: int, now: u128)
    requires
        0 < pool.endpoints.len() <= usize::MAX,
        forall|i: int|
            0 <= i < pool.endpoints.len() ==> (#[trigger] pool.endpoints[i]).state is Available,
        0 <= turn,
        0 <= other,
    ensures
        (PoolView { cursor: advanced(pool.cursor, turn), ..pool }).pick(now) == (
            Some(probed(pool.cursor, turn, pool.endpoints.len()) as usize),
            PoolView { cursor: advanced(pool.cursor, turn + 1), ..pool },
        ),
        pool.cursor + pool.endpoints.len() <= usize::MAX + 1 && turn < other
            < pool.endpoints.len() ==> probed(pool.cursor, turn, pool.endpoints.len()) != probed(
            pool.cursor,
            other,
            pool.endpoints.len(),
        ),
{
    let total = pool.endpoints.len();
    let range = usize::MAX + 1;
    let cursor = advanced(pool.cursor, turn);
    let wanted = |e: LumberjackEndpoint<C>| e.state is Available;
    lemma_small_mod(cursor as nat, range as nat);
    assert(advanced(cursor, 0) == cursor);
    lemma_mod_bound(cursor as int, total as int);
    assert(first_hit(pool.endpoints, cursor, wanted, 0));
    let probe = choose|probe: int| first_hit(pool.endpoints, cursor, wanted, probe);
    assert(first_hit(pool.endpoints, cursor, wanted, probe));
    assert(probe == 0) by {
        if probe > 0 {
            assert(!wanted(pool.endpoints[probed(cursor, 0, total)]));
        }
    }
    lemma_add_mod_noop_right(1, pool.cursor + turn, range);
    assert(advanced(cursor, 1) == advanced(pool.cursor, turn + 1));
    if pool.cursor + total <= range && turn < other < total {
        lemma_small_mod((pool.cursor + turn) as nat, range as nat);
        lemma_small_mod((pool.cursor + other) as nat, range as nat);
        let a = pool.cursor + turn;
        let b = pool.cursor + other;
        if a % total as int == b % total as int {
            lemma_sub_mod_noop_right(b, a, total as int);
            lemma_sub_mod_noop_right(a, a, total as int);
            vstd::arithmetic::div_mod::lemma_mod_equivalence(b, a, total as int);
            lemma_small_mod((b - a) as nat, total);
        }
    }
}

/// An endpoint that failed is not picked for at least ten seconds; once
/// forty-five seconds have passed it may be tried again.
pub proof fn law_failed_endpoint_rests<C>(
    pool: PoolView<C>,
    index: int,
    failed_at: u128,
    random: u64,
    now: u128,
)
    requires
        pool.endpoints.len() <= usize::MAX,
        0 <= index < pool.endpoints.len(),
        failed_at < duration_end(),
    ensures
        now < failed_at + 10 * NANOS_PER_SEC ==> pool.failed(index, failed_at, random).pick(now).0
            != Some(index as usize),
        now >= failed_at + 45 * NANOS_PER_SEC ==> pool.failed(
            index,
            failed_at,
            random,
        ).endpoints[index].state.ready_at(now),
{
    let failures = one_more_failure(pool.endpoints[index].consecutive_failures);
    law_cooldown_bounds(failures, failures, random);
    let after = pool.failed(index, failed_at, random);
    law_picked_is_ready(after, now);
    assert(after.endpoints[index].state == EndpointState::Cooldown {
        until: (failed_at + cooldown_nanos(failures, random)) as u128,
    });
}

/// Endpoints fit together with what is known of them from the start, and choosing
/// one and recording what came of an exchange with one keeps it so.
pub proof fn law_pool_stays_sound<C>(
    endpoints: Seq<(String, u16)>,
    pool: PoolView<C>,
    index: int,
    keepalives: u32,
    now: u128,
    random: u64,
)
    requires
        pool.sound(),
        0 <= index < pool.endpoints.len(),
    ensures
        fresh::<C>(endpoints).sound(),
        pool.pick(now).1.sound(),
        pool.succeeded(index, keepalives).sound(),
        pool.failed(index, now, random).sound(),
{
}

/// An endpoint that succeeded is out of its cooldown, and available if there were
/// no keepalives, whatever had happened before; a failure after that is its first.
pub proof fn law_success_clears<C>(
    endpoint: LumberjackEndpoint<C>,
    keepalives: u32,
    now: u128,
    random: u64,
)
    ensures
        endpoint.succeeded(keepalives).consecutive_failures == 0,
        endpoint.succeeded(keepalives).state is Slow <==> keepalives > 0,
        endpoint.succeeded(keepalives).state is Available <==> keepalives == 0,
        endpoint.failed(now, random).succeeded(keepalives).consecutive_failures == 0,
        endpoint.succeeded(keepalives).failed(now, random).consecutive_failures == 1,
{
}

/// The number of the endpoint, out of `total`, that comes `probe` steps after the
/// cursor: counted up from the cursor, around the end of its range, and around the
/// endpoints.
pub open spec fn slot(cursor: usize, probe: int, total: nat) -> int {
    (cursor + probe) % (usize::MAX + 1) % (total as int)
}

/// Whether the probe number `probe` of a choice at the moment `now` finds what it
/// is looking for. The choice goes around the endpoints three times: first it wants
/// one that is available, second one that is slow, and third any that does not cool
/// down any more.
pub open spec fn hits<C>(pool: PoolView<C>, now: u128, probe: int) -> bool {
    let total = pool.endpoints.len();
    let state = pool.endpoints[slot(pool.cursor, probe, total)].state;
    if probe < total {
        state is Available
    } else if probe < 2 * total {
        state is Slow
    } else {
        !(state matches EndpointState::Cooldown { until } && now < until)
    }
}

/// A choice falls on the endpoint that the first probe with a hit looks at, and the
/// cursor then stands behind that probe; without any hit there is no choice, and
/// the cursor has gone around three times. The endpoints stay as they are.
pub proof fn law_pick<C>(pool: PoolView<C>, now: u128, probe: int)
    requires
        pool.endpoints.len() <= usize::MAX,
    ensures
        ({
            let total = pool.endpoints.len();
            let (picked, after) = pool.pick(now);
            &&& after.endpoints == pool.endpoints
            &&& 0 <= probe < 3 * total && hits(pool, now, probe) && (forall|earlier: int|
                0 <= earlier < probe ==> !#[trigger] hits(pool, now, earlier)) ==> {
                &&& picked == Some(slot(pool.cursor, probe, total) as usize)
                &&& after.cursor == (pool.cursor + probe + 1) % (usize::MAX + 1)
            }
            &&& (forall|p: int| 0 <= p < 3 * total ==> !#[trigger] hits(pool, now, p)) ==> {
                &&& picked is None
                &&& after.cursor == (pool.cursor + 3 * total) % (usize::MAX + 1)
            }
        }),
{
    let total = pool.endpoints.len();
    let endpoints = pool.endpoints;
    let second = advanced(pool.cursor, total as int);
    let third = advanced(second, total as int);
    lemma_advanced_twice(pool.cursor, total as int, total as int);
    let available = |e: LumberjackEndpoint<C>| e.state is Available;
    let slow = |e: LumberjackEndpoint<C>| e.state is Slow;
    let ready = |e: LumberjackEndpoint<C>| e.state.ready_at(now);
    let limit = if forall|p: int| 0 <= p < 3 * total ==> !#[trigger] hits(pool, now, p) {
        3 * total as int
    } else {
        probe
    };
    if 0 <= limit <= 3 * total && (forall|earlier: int|
        0 <= earlier < limit ==> !#[trigger] hits(pool, now, earlier)) {
        assert forall|p: int| 0 <= p < total && p < limit implies !available(
            endpoints[#[trigger] probed(pool.cursor, p, total)],
        ) by {
            assert(!hits(pool, now, p));
        }
        assert forall|p: int| 0 <= p < total && total + p < limit implies !slow(
            endpoints[#[trigger] probed(second, p, total)],
        ) by {
            lemma_advanced_twice(pool.cursor, total as int, p);
            assert(!hits(pool, now, total + p));
        }
        assert forall|p: int| 0 <= p < total && 2 * total + p < limit implies !ready(
            endpoints[#[trigger] probed(third, p, total)],
        ) by {
            lemma_advanced_twice(pool.cursor, 2 * total as int, p);
            assert(!hits(pool, now, 2 * total + p));
        }
        if limit < total {
            if hits(pool, now, limit) {
                lemma_scan_first(endpoints, pool.cursor, available, limit);
            }
        } else {
            lemma_scan_none(endpoints, pool.cursor, available);
            if limit < 2 * total {
                if hits(pool, now, limit) {
                    lemma_advanced_twice(pool.cursor, total as int, limit - total);
                    lemma_advanced_twice(pool.cursor, total as int, limit - total + 1);
                    lemma_scan_first(endpoints, second, slow, limit - total);
                }
            } else {
                lemma_scan_none(endpoints, second, slow);
                if limit < 3 * total {
                    if hits(pool, now, limit) {
                        lemma_advanced_twice(pool.cursor, 2 * total as int, limit - 2 * total);
                        lemma_advanced_twice(
                            pool.cursor,
                            2 * total as int,
                            limit - 2 * total + 1,
                        );
                        lemma_scan_first(endpoints, third, ready, limit - 2 * total);
                    }
                } else {
                    lemma_scan_none(endpoints, third, ready);
                    lemma_advanced_twice(pool.cursor, 2 * total as int, total as int);
                }
            }
        }
    }
}

/// Moving on twice is moving on by both together.
proof fn lemma_advanced_twice(cursor: usize, first: int, second: int)
    ensures
        advanced(advanced(cursor, first), second) == advanced(cursor, first + second),
{
    lemma_add_mod_noop_right(second, cursor + first, usize::MAX + 1);
    lemma_mod_bound(cursor + first, usize::MAX + 1);
}

/// A scan comes to its first hit.
proof fn lemma_scan_first<E>(
    endpoints: Seq<E>,
    cursor: usize,
    wanted: spec_fn(E) -> bool,
    probe: int,
)
    requires
        first_hit(endpoints, cursor, wanted, probe),
    ensures
        scan(endpoints, cursor, wanted) == (
            Some(probed(cursor, probe, endpoints.len()) as usize),
            advanced(cursor, probe + 1),
        ),
{
    let chosen = choose|p: int| first_hit(endpoints, cursor, wanted, p);
    assert(first_hit(endpoints, cursor, wanted, chosen));
    if chosen < probe {
        assert(!wanted(endpoints[probed(cursor, chosen, endpoints.len())]));
    }
    if probe < chosen {
        assert(!wanted(endpoints[probed(cursor, probe, endpoints.len())]));
    }
}

/// A scan without a hit comes to nothing.
proof fn lemma_scan_none<E>(endpoints: Seq<E>, cursor: usize, wanted: spec_fn(E) -> bool)
    requires
        none_probed(endpoints, cursor, wanted),
    ensures
        scan(endpoints, cursor, wanted) == (
            None::<usize>,
            advanced(cursor, endpoints.len() as int),
        ),
{
    if exists|p: int| first_hit(endpoints, cursor, wanted, p) {
        let probe = choose|p: int| first_hit(endpoints, cursor, wanted, p);
        assert(!wanted(endpoints[probed(cursor, probe, endpoints.len())]));
    }
}

/// Where any probe hits, there is a choice.
pub proof fn law_hit_is_picked<C>(pool: PoolView<C>, now: u128, probe: int)
    requires
        pool.endpoints.len() <= usize::MAX,
        0 <= probe < 3 * pool.endpoints.len(),
        hits(pool, now, probe),
    ensures
        pool.pick(now).0 is Some,
    decreases probe,
{
    if exists|earlier: int| 0 <= earlier < probe && #[trigger] hits(pool, now, earlier) {
        let earlier = choose|earlier: int|
            0 <= earlier < probe && #[trigger] hits(pool, now, earlier);
        law_hit_is_picked(pool, now, earlier);
    } else {
        law_pick(pool, now, probe);
    }
}

/// A scan by a test that always answers alike goes once around from the cursor. It
/// finds the first endpoint that passes, and the cursor then stands behind it; if
/// none passes, the cursor has gone around once.
pub proof fn law_scanned<E>(
    endpoints: Seq<E>,
    cursor: usize,
    wanted: spec_fn(E) -> bool,
    picked: Option<usize>,
    next: usize,
)
    requires
        endpoints.len() <= usize::MAX,
        scanned(endpoints, cursor, |e: E, answer: bool| answer == wanted(e), picked, next),
    ensures
        picked is None ==> next == (cursor + endpoints.len()) % (usize::MAX + 1) && forall|p: int|
            0 <= p < endpoints.len() ==> !wanted(
                endpoints[#[trigger] slot(cursor, p, endpoints.len())],
            ),
        picked matches Some(index) ==> exists|probe: int|
            {
                &&& 0 <= probe < endpoints.len()
                &&& index == #[trigger] slot(cursor, probe, endpoints.len())
                &&& wanted(endpoints[index as int])
                &&& next == (cursor + probe + 1) % (usize::MAX + 1)
                &&& forall|earlier: int|
                    0 <= earlier < probe ==> !wanted(
                        endpoints[#[trigger] slot(cursor, earlier, endpoints.len())],
                    )
            },
{
    let answers = |e: E, answer: bool| answer == wanted(e);
    let total = endpoints.len();
    match picked {
        None => {
            assert forall|p: int| 0 <= p < total implies !wanted(
                endpoints[#[trigger] slot(cursor, p, total)],
            ) by {
                assert(answers(endpoints[probed(cursor, p, total)], false));
            }
        },
        Some(index) => {
            let probe = choose|probe: int|
                {
                    &&& 0 <= probe < total
                    &&& index == #[trigger] probed(cursor, probe, total)
                    &&& answers(endpoints[index as int], true)
                    &&& forall|earlier: int|
                        0 <= earlier < probe ==> answers(
                            endpoints[#[trigger] probed(cursor, earlier, total)],
                            false,
                        )
                    &&& next == advanced(cursor, probe + 1)
                };
            assert(index == slot(cursor, probe, total));
            assert forall|earlier: int| 0 <= earlier < probe implies !wanted(
                endpoints[#[trigger] slot(cursor, earlier, total)],
            ) by {
                assert(answers(endpoints[probed(cursor, earlier, total)], false));
            }
        },
    }
}

/// A pool starts with the endpoints that it is given, in their order, each of them
/// available, without a connection and without a failure, and with the first of
/// them next.
pub proof fn law_fresh<C>(endpoints: Seq<(String, u16)>)
    ensures
        ({
            let pool = fresh::<C>(endpoints);
            &&& pool.cursor == 0
            &&& pool.endpoints.len() == endpoints.len()
            &&& forall|i: int|
                0 <= i < endpoints.len() ==> {
                    &&& (#[trigger] pool.endpoints[i]).ip == endpoints[i].0
                    &&& pool.endpoints[i].port == endpoints[i].1
                    &&& pool.endpoints[i].client is None
                    &&& pool.endpoints[i].state is Available
                    &&& pool.endpoints[i].consecutive_failures == 0
                }
        }),
{
}

/// What came of an exchange with an endpoint is recorded for that endpoint alone,
/// and moves no cursor.
pub proof fn law_recorded_alone<C>(
    pool: PoolView<C>,
    index: int,
    keepalives: u32,
    now: u128,
    random: u64,
)
    requires
        0 <= index < pool.endpoints.len(),
    ensures
        ({
            let good = pool.succeeded(index, keepalives);
            let bad = pool.failed(index, now, random);
            &&& good.endpoints == pool.endpoints.update(
                index,
                pool.endpoints[index].succeeded(keepalives),
            )
            &&& good.cursor == pool.cursor
            &&& bad.endpoints == pool.endpoints.update(
                index,
                pool.endpoints[index].failed(now, random),
            )
            &&& bad.cursor == pool.cursor
        }),
{
}

/// A pool is what its endpoints and its cursor are; one that is set up like another
/// has its settings and its clock.
pub proof fn law_pool_shows<C>(
    pool: LumberjackConnectionPool<C>,
    other: LumberjackConnectionPool<C>,
)
    ensures
        pool@.endpoints == pool.endpoints@,
        pool@.cursor == pool.next_index,
        pool.set_up_like(other) <==> pool.config == other.config && pool.clock == other.clock,
{
}

} // verus!
