//! One endpoint and its health.
use crate::clock::{duration_end, Clock};
use crate::text::{decimal, decimal_text, joined};
use vstd::arithmetic::power2::{lemma2_to64, pow2};
use vstd::prelude::*;
use vstd::string::*;

verus! {

/// The cooldown after the first failure in a row, in seconds.
pub const BASE_COOLDOWN_SECS: u64 = 10;

/// What the cooldown is cut off at before the jitter is added, in seconds.
pub const MAX_COOLDOWN_SECS: u64 = 60;

/// The number of failures in a row from which on the cooldown stops growing.
pub const MAX_COUNTED_FAILURES: u8 = 3;

/// The jitter is below this many milliseconds.
pub const JITTER_MILLIS: u64 = 5000;

pub const NANOS_PER_SEC: u128 = 1_000_000_000;

pub const NANOS_PER_MILLI: u128 = 1_000_000;

/// Whether an endpoint can be used.
#[derive(Debug, Clone, Copy, PartialEq, Eq, Structural)]
pub enum EndpointState {
    Available,
    /// It answered, but had to be waited for.
    Slow { keepalive_count: u8 },
    /// It failed, and is left alone until the moment `until`.
    Cooldown { until: u128 },
}

impl EndpointState {
    /// Whether an endpoint in this state may be tried at the moment `now`.
    pub open spec fn ready_at(self, now: u128) -> bool {
        match self {
            EndpointState::Available => true,
            EndpointState::Slow { .. } => true,
            EndpointState::Cooldown { until } => now >= until,
        }
    }
}

/// One endpoint with its connection, of type `C`, if there is one.
pub struct LumberjackEndpoint<C> {
    pub ip: String,
    pub port: u16,
    pub client: Option<C>,
    pub state: EndpointState,
    pub consecutive_failures: u8,
}

/// The seconds for which an endpoint is left alone after so many failures in a
/// row, without the jitter: they double with each failure up to a limit.
pub open spec fn cooldown_secs(failures: u8) -> int {
    let counted: int = if failures < MAX_COUNTED_FAILURES {
        failures as int
    } else {
        MAX_COUNTED_FAILURES as int
    };
    let exponent: nat = if counted > 0 {
        (counted - 1) as nat
    } else {
        0
    };
    let grown: int = BASE_COOLDOWN_SECS * pow2(exponent);
    if grown < MAX_COOLDOWN_SECS {
        grown
    } else {
        MAX_COOLDOWN_SECS as int
    }
}

/// The nanoseconds for which an endpoint is left alone after so many failures
/// in a row, where the random number drawn for the jitter is `random`.
pub open spec fn cooldown_nanos(failures: u8, random: u64) -> int {
    cooldown_secs(failures) * NANOS_PER_SEC + (random % JITTER_MILLIS) * NANOS_PER_MILLI
}

/// The number of failures in a row after one more.
pub open spec fn one_more_failure(failures: u8) -> u8 {
    if failures < u8::MAX {
        (failures + 1) as u8
    } else {
        u8::MAX
    }
}

/// Every cooldown is one of three: the limit on the growth is met before the
/// cut-off, and any number of failures above three counts as three.
pub proof fn law_cooldown_steps(failures: u8)
    ensures
        failures <= 1 ==> cooldown_secs(failures) == 10,
        failures == 2 ==> cooldown_secs(failures) == 20,
        failures >= 3 ==> cooldown_secs(failures) == 40,
{
    lemma2_to64();
}

/// More failures never make for a shorter cooldown, but for the jitter; and with
/// the jitter it takes at least ten seconds and less than forty-five.
pub proof fn law_cooldown_bounds(fewer: u8, more: u8, random: u64)
    requires
        fewer <= more,
    ensures
        cooldown_secs(fewer) <= cooldown_secs(more),
        10 * NANOS_PER_SEC <= cooldown_nanos(more, random) < 45 * NANOS_PER_SEC,
{
    law_cooldown_steps(fewer);
    law_cooldown_steps(more);
}

/// Computes `cooldown_secs`.
fn cooldown_base(failures: u8) -> (secs: u64)
    ensures
        secs == cooldown_secs(failures),
{
    let counted: u8 = if failures < MAX_COUNTED_FAILURES {
        failures
    } else {
        MAX_COUNTED_FAILURES
    };
    let exponent: u8 = counted.saturating_sub(1);
    proof {
        lemma2_to64();
    }
    let factor: u64 = if exponent == 0 {
        1
    } else if exponent == 1 {
        2
    } else {
        4
    };
    let grown: u64 = BASE_COOLDOWN_SECS * factor;
    if grown < MAX_COOLDOWN_SECS {
        grown
    } else {
        MAX_COOLDOWN_SECS
    }
}

impl<C> LumberjackEndpoint<C> {
    /// `ip:port`.
    pub open spec fn spec_addr(self) -> Seq<char> {
        self.ip@ + seq![':'] + decimal(self.port as nat)
    }

    /// Whether what is known of the endpoint fits together: it cools down exactly
    /// where it has failed last, and has no connection then.
    pub open spec fn sound(self) -> bool {
        &&& self.consecutive_failures > 0 <==> self.state is Cooldown
        &&& self.state is Cooldown ==> self.client is None
    }

    /// The endpoint after an exchange that succeeded, with so many keepalives
    /// before the answer.
    pub open spec fn succeeded(self, keepalives: u32) -> Self {
        LumberjackEndpoint {
            consecutive_failures: 0,
            state: if keepalives > 0 {
                EndpointState::Slow {
                    keepalive_count: if keepalives < 255 {
                        keepalives as u8
                    } else {
                        255
                    },
                }
            } else {
                EndpointState::Available
            },
            ..self
        }
    }

    /// The endpoint after an exchange that failed at the moment `now`, where the
    /// random number drawn for the jitter is `random`.
    pub open spec fn failed(self, now: u128, random: u64) -> Self {
        let failures = one_more_failure(self.consecutive_failures);
        LumberjackEndpoint {
            consecutive_failures: failures,
            state: EndpointState::Cooldown {
                until: (now + cooldown_nanos(failures, random)) as u128,
            },
            client: None,
            ..self
        }
    }

    /// An endpoint that nothing is known of yet: available and not connected.
    pub fn new(ip: String, port: u16) -> (endpoint: Self)
        ensures
            endpoint == (LumberjackEndpoint::<C> {
                ip,
                port,
                client: None,
                state: EndpointState::Available,
                consecutive_failures: 0,
            }),
    {
        LumberjackEndpoint {
            ip,
            port,
            client: None,
            state: EndpointState::Available,
            consecutive_failures: 0,
        }
    }

    /// The address to connect to.
    pub fn addr(&self) -> (addr: String)
        ensures
            addr@ == self.spec_addr(),
    {
        proof {
            reveal_strlit(":");
        }
        let mut addr = joined(self.ip.as_str(), ":");
        addr.append(decimal_text(self.port).as_str());
        assert(":"@ =~= seq![':']);
        addr
    }

    pub fn is_available(&self) -> (available: bool)
        ensures
            available == (self.state is Available),
    {
        matches!(self.state, EndpointState::Available)
    }

    pub fn is_slow(&self) -> (slow: bool)
        ensures
            slow == (self.state is Slow),
    {
        matches!(self.state, EndpointState::Slow { .. })
    }

    /// Whether the endpoint may be tried at the moment `now`.
    pub fn can_try_at(&self, now: u128) -> (can: bool)
        ensures
            can == self.state.ready_at(now),
    {
        match &self.state {
            EndpointState::Available | EndpointState::Slow { .. } => true,
            EndpointState::Cooldown { until } => now >= *until,
        }
    }

    /// Whether the endpoint may be tried at the moment that `clock` shows.
    pub fn can_try_now(&self, clock: &Clock) -> (can: bool)
        ensures
            exists|now: u128|
                clock.shows(now) && now < duration_end() && can == #[trigger] self.state.ready_at(
                    now,
                ),
    {
        let now: u128 = clock.now();
        self.can_try_at(now)
    }

    /// Records an exchange that succeeded.
    pub fn mark_success(&mut self, keepalives: u32)
        ensures
            *final(self) == old(self).succeeded(keepalives),
    {
        self.consecutive_failures = 0;
        if keepalives > 0 {
            let keepalive_count: u8 = if keepalives < 255 {
                keepalives as u8
            } else {
                255
            };
            self.state = EndpointState::Slow { keepalive_count };
        } else {
            self.state = EndpointState::Available;
        }
    }

    /// Records an exchange that failed: the connection is given up, and the
    /// endpoint cools down.
    pub fn mark_failure_at(&mut self, now: u128, random: u64)
        requires
            now < duration_end(),
        ensures
            *final(self) == old(self).failed(now, random),
    {
        self.consecutive_failures = self.consecutive_failures.saturating_add(1);
        let secs: u64 = cooldown_base(self.consecutive_failures);
        let jitter: u64 = random % JITTER_MILLIS;
        proof {
            law_cooldown_bounds(self.consecutive_failures, self.consecutive_failures, random);
        }
        let cooldown: u128 = secs as u128 * NANOS_PER_SEC + jitter as u128 * NANOS_PER_MILLI;
        self.state = EndpointState::Cooldown { until: now + cooldown };
        self.client = None;
    }
}

} // verus!
