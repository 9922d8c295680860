//! Time and chance.
//!
//! A moment is the number of nanoseconds since the clock it was read from was
//! started. Moments of one clock compare as the instants they stand for.
use std::time::Instant;
use vstd::prelude::*;

verus! {

/// `std::time::Instant`, carried as an opaque value.
#[verifier::external_type_specification]
#[verifier::external_body]
pub struct ExInstant(std::time::Instant);

/// `std::time::Instant::now`. Nothing is claimed of the instant it returns.
pub assume_specification[ std::time::Instant::now ]() -> Instant;

/// The first count of nanoseconds that no `std::time::Duration` holds: a
/// duration is a `u64` number of seconds and less than one second besides.
pub open spec fn duration_end() -> int {
    (u64::MAX + 1) * 1_000_000_000
}

/// `std::time::Instant::elapsed`, as a number of nanoseconds. How much time has
/// passed depends on the machine: the contract claims only that the number is
/// one that a `std::time::Duration` can hold.
#[verifier::external_body]
fn elapsed_nanos(origin: &Instant) -> (nanos: u128)
    ensures
        nanos < duration_end(),
{
    origin.elapsed().as_nanos()
}

/// `rand::random`, for a `u64`. Every number can come back, so nothing is
/// claimed of it.
#[verifier::external_body]
fn random_u64() -> u64 {
    rand::random::<u64>()
}

/// Whether `random` is a number that chance may bring when one is drawn.
pub closed spec fn chance_brings(random: u64) -> bool {
    call_ensures(random_u64, (), random)
}

/// Draws a number.
pub(crate) fn draw() -> (random: u64)
    ensures
        chance_brings(random),
{
    random_u64()
}

/// A clock that counts from the moment it was started.
pub struct Clock {
    origin: Instant,
}

impl Clock {
    /// Starts a clock.
    pub(crate) fn start() -> Clock {
        Clock { origin: Instant::now() }
    }

    /// Whether `now` is a moment that the clock may show when it is read.
    pub closed spec fn shows(self, now: u128) -> bool {
        call_ensures(elapsed_nanos, (&self.origin,), now)
    }

    /// The moment it is now.
    pub fn now(&self) -> (now: u128)
        ensures
            self.shows(now),
            now < duration_end(),
    {
        elapsed_nanos(&self.origin)
    }
}

} // verus!
