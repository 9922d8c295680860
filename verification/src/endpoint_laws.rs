//! What holds of every endpoint.
use crate::clock::duration_end;
use crate::endpoint::{law_cooldown_steps, EndpointState, LumberjackEndpoint};
use crate::text::decimal;
use vstd::prelude::*;

verus! {

/// An endpoint that is available or slow may be tried at any moment, and one that
/// cools down from the moment on at which that ends, and no sooner.
pub proof fn law_ready(state: EndpointState, now: u128)
    ensures
        !(state is Cooldown) ==> state.ready_at(now),
        state matches EndpointState::Cooldown { until } ==> (state.ready_at(now) <==> until <= now),
{
}

/// A failure, in whatever state the endpoint is and at whatever moment, makes the
/// failures in a row one more, up to 255. The endpoint then cools down for ten
/// seconds if there was one, twenty if there were two and forty if there were
/// more, and for the jitter of less than five seconds besides; its connection is
/// gone, and its address stays.
pub proof fn law_failure<C>(endpoint: LumberjackEndpoint<C>, now: u128, random: u64)
    requires
        now < duration_end(),
    ensures
        ({
            let after = endpoint.failed(now, random);
            let failures = after.consecutive_failures as int;
            &&& endpoint.consecutive_failures < 255 ==> failures == endpoint.consecutive_failures
                + 1
            &&& endpoint.consecutive_failures == 255 ==> failures == 255
            &&& after.state matches EndpointState::Cooldown { until } && {
                let millis = (until - now) / 1_000_000;
                &&& (until - now) % 1_000_000 == 0
                &&& failures == 1 ==> millis == 10_000 + random % 5000
                &&& failures == 2 ==> millis == 20_000 + random % 5000
                &&& failures >= 3 ==> millis == 40_000 + random % 5000
            }
            &&& after.client is None
            &&& after.ip == endpoint.ip
            &&& after.port == endpoint.port
        }),
{
    law_cooldown_steps(endpoint.failed(now, random).consecutive_failures);
}

/// A success, whatever had happened before, clears the failures, and makes the
/// endpoint available if there were no keepalives and else slow, with their
/// number, up to 255; its connection and its address stay.
pub proof fn law_success<C>(endpoint: LumberjackEndpoint<C>, keepalives: u32)
    ensures
        ({
            let after = endpoint.succeeded(keepalives);
            &&& after.consecutive_failures == 0
            &&& keepalives == 0 ==> after.state is Available
            &&& keepalives > 0 ==> (after.state matches EndpointState::Slow { keepalive_count } && (
            if keepalives <= 255 {
                keepalive_count == keepalives
            } else {
                keepalive_count == 255
            }))
            &&& after.client == endpoint.client
            &&& after.ip == endpoint.ip
            &&& after.port == endpoint.port
        }),
{
}

/// An endpoint after failures in a row, each at a moment and with a random number
/// for its jitter.
pub open spec fn failed_in_a_row<C>(
    endpoint: LumberjackEndpoint<C>,
    failures: Seq<(u128, u64)>,
) -> LumberjackEndpoint<C>
    decreases failures.len(),
{
    if failures.len() == 0 {
        endpoint
    } else {
        failed_in_a_row(endpoint, failures.drop_last()).failed(
            failures.last().0,
            failures.last().1,
        )
    }
}

/// Failures in a row are counted one by one, whatever time passes between them:
/// with each of the first three since the last success the cooldown is twice as
/// long, and then no longer.
pub proof fn law_failures_add_up<C>(
    endpoint: LumberjackEndpoint<C>,
    keepalives: u32,
    failures: Seq<(u128, u64)>,
)
    requires
        forall|i: int| 0 <= i < failures.len() ==> (#[trigger] failures[i]).0 < duration_end(),
    ensures
        ({
            let after = failed_in_a_row(endpoint.succeeded(keepalives), failures);
            let count = failures.len();
            &&& count <= 255 ==> after.consecutive_failures == count
            &&& count > 255 ==> after.consecutive_failures == 255
            &&& count > 0 ==> (after.state matches EndpointState::Cooldown { until } && {
                let millis = (until - failures.last().0) / 1_000_000;
                let jitter = failures.last().1 % 5000;
                &&& count == 1 ==> millis == 10_000 + jitter
                &&& count == 2 ==> millis == 20_000 + jitter
                &&& count >= 3 ==> millis == 40_000 + jitter
            })
        }),
    decreases failures.len(),
{
    if failures.len() > 0 {
        let earlier = failures.drop_last();
        assert forall|i: int| 0 <= i < earlier.len() implies (#[trigger] earlier[i]).0
            < duration_end() by {
            assert(earlier[i] == failures[i]);
        }
        law_failures_add_up(endpoint, keepalives, earlier);
        assert(failures.last() == failures[failures.len() - 1]);
        law_failure(
            failed_in_a_row(endpoint.succeeded(keepalives), earlier),
            failures.last().0,
            failures.last().1,
        );
    }
}

/// An address is the ip, a colon and the numeral of the port.
pub proof fn law_addr<C>(endpoint: LumberjackEndpoint<C>)
    ensures
        ({
            let addr = endpoint.spec_addr();
            let ip = endpoint.ip@;
            &&& addr.len() > ip.len()
            &&& addr.subrange(0, ip.len() as int) == ip
            &&& addr[ip.len() as int] == ':'
            &&& addr.subrange(ip.len() as int + 1, addr.len() as int) == decimal(endpoint.port as nat)
        }),
{
    let addr = endpoint.spec_addr();
    let ip = endpoint.ip@;
    assert(addr.subrange(0, ip.len() as int) =~= ip);
    assert(addr.subrange(ip.len() as int + 1, addr.len() as int) =~= decimal(endpoint.port as nat));
}

} // verus!
