//! Counters. All of them wrap around at the end of their range.
use vstd::arithmetic::div_mod::{
    lemma_add_mod_noop, lemma_add_mod_noop_right, lemma_mod_add_multiples_vanish, lemma_small_mod,
    lemma_sub_mod_noop,
};
use vstd::prelude::*;

verus! {

/// `counter` after `amount` more.
pub open spec fn counted(counter: u64, amount: nat) -> u64 {
    ((counter + amount) % (u64::MAX + 1)) as u64
}

/// Adding in two portions is adding the sum.
pub proof fn lemma_counted_twice(counter: u64, first: nat, second: nat)
    ensures
        counted(counted(counter, first), second) == counted(counter, first + second),
{
    lemma_add_mod_noop_right(second as int, counter + first, u64::MAX + 1);
}

/// Counting adds, exactly so as long as the sum is in the range of the counter, and
/// else but for a multiple of that range.
pub proof fn law_counted(counter: u64, amount: nat)
    ensures
        counter + amount <= 0xffff_ffff_ffff_ffff ==> counted(counter, amount) == counter + amount,
        (counter + amount - counted(counter, amount)) % 0x1_0000_0000_0000_0000 == 0,
{
    let sum = counter + amount;
    lemma_sub_mod_noop(sum, counted(counter, amount) as int, 0x1_0000_0000_0000_0000);
    lemma_small_mod(counted(counter, amount) as nat, 0x1_0000_0000_0000_0000);
    if sum <= 0xffff_ffff_ffff_ffff {
        lemma_small_mod(sum as nat, 0x1_0000_0000_0000_0000);
    }
}

/// Counts `amount` more.
pub(crate) fn count(counter: &mut u64, amount: u64)
    ensures
        *final(counter) == counted(*old(counter), amount as nat),
{
    *counter = counter.wrapping_add(amount);
}

/// How much was counted between two readings of a counter.
pub open spec fn counted_between(before: u64, after: u64) -> nat {
    ((after - before) % (u64::MAX + 1)) as nat
}

/// Counting on what was counted between two readings leads from the one to the
/// other; and what was counted from one reading to a second and on to a third
/// leads there as what was counted in between altogether.
pub proof fn law_readings_follow(sum: u64, first: u64, second: u64, third: u64)
    ensures
        counted(first, counted_between(first, second)) == second,
        counted(
            counted(sum, counted_between(first, second)),
            counted_between(second, third),
        ) == counted(sum, counted_between(first, third)),
{
    let range = u64::MAX + 1;
    let one = counted_between(first, second);
    let two = counted_between(second, third);
    lemma_add_mod_noop_right(first as int, second - first, range);
    lemma_small_mod(second as nat, range as nat);
    lemma_counted_twice(sum, one, two);
    lemma_add_mod_noop(second - first, third - second, range);
    assert((one + two) as int % range == counted_between(first, third));
    lemma_add_mod_noop_right(sum as int, (one + two) as int, range);
}

/// What was counted between two readings is their difference, exactly so where the
/// counter has not wrapped around, and else but for the range of the counter.
pub proof fn law_between(before: u64, after: u64)
    ensures
        before <= after ==> counted_between(before, after) == after - before,
        before > after ==> counted_between(before, after) == after - before
            + 0x1_0000_0000_0000_0000,
{
    if before <= after {
        lemma_small_mod((after - before) as nat, 0x1_0000_0000_0000_0000);
    } else {
        lemma_mod_add_multiples_vanish(after - before, 0x1_0000_0000_0000_0000);
        lemma_small_mod(
            (after - before + 0x1_0000_0000_0000_0000) as nat,
            0x1_0000_0000_0000_0000,
        );
    }
}

/// Counts what was counted elsewhere between two readings.
fn count_between(counter: &mut u64, before: u64, after: u64)
    ensures
        *final(counter) == counted(*old(counter), counted_between(before, after)),
{
    let amount: u64 = after.wrapping_sub(before);
    assert(amount == counted_between(before, after));
    count(counter, amount);
}

/// What a connection pool has been through.
#[derive(Debug, Clone, Copy, PartialEq, Eq, Structural)]
pub struct PoolStats {
    /// Sends whose first attempt failed.
    pub write_failures: u64,
    /// Sends whose second attempt succeeded.
    pub retry_successes: u64,
    /// Sends that no endpoint took.
    pub all_endpoints_failed: u64,
}

impl Default for PoolStats {
    fn default() -> (stats: PoolStats)
        ensures
            stats == (PoolStats {
                write_failures: 0,
                retry_successes: 0,
                all_endpoints_failed: 0,
            }),
    {
        PoolStats { write_failures: 0, retry_successes: 0, all_endpoints_failed: 0 }
    }
}

impl PoolStats {
    pub open spec fn write_failed(self) -> PoolStats {
        PoolStats { write_failures: counted(self.write_failures, 1), ..self }
    }

    pub open spec fn retry_succeeded(self) -> PoolStats {
        PoolStats { retry_successes: counted(self.retry_successes, 1), ..self }
    }

    pub open spec fn gave_up(self) -> PoolStats {
        PoolStats { all_endpoints_failed: counted(self.all_endpoints_failed, 1), ..self }
    }

    /// Counts here what was counted elsewhere between two readings.
    pub fn count_between(&mut self, before: &PoolStats, after: &PoolStats)
        ensures
            *final(self) == (PoolStats {
                write_failures: counted(
                    old(self).write_failures,
                    counted_between(before.write_failures, after.write_failures),
                ),
                retry_successes: counted(
                    old(self).retry_successes,
                    counted_between(before.retry_successes, after.retry_successes),
                ),
                all_endpoints_failed: counted(
                    old(self).all_endpoints_failed,
                    counted_between(before.all_endpoints_failed, after.all_endpoints_failed),
                ),
            }),
    {
        count_between(&mut self.write_failures, before.write_failures, after.write_failures);
        count_between(&mut self.retry_successes, before.retry_successes, after.retry_successes);
        count_between(
            &mut self.all_endpoints_failed,
            before.all_endpoints_failed,
            after.all_endpoints_failed,
        );
    }
}

/// What became of the messages of a sender.
#[derive(Debug, Clone, Copy, PartialEq, Eq, Structural)]
pub struct SenderCounter {
    /// Messages received.
    pub rx: u64,
    /// Events that an endpoint acknowledged.
    pub tx: u64,
    /// Bytes of the batches that an endpoint took, before compression.
    pub tx_bytes: u64,
    /// Messages that were not sent.
    pub dropped: u64,
}

impl Default for SenderCounter {
    fn default() -> (counter: SenderCounter)
        ensures
            counter == (SenderCounter { rx: 0, tx: 0, tx_bytes: 0, dropped: 0 }),
    {
        SenderCounter { rx: 0, tx: 0, tx_bytes: 0, dropped: 0 }
    }
}

impl SenderCounter {
    pub open spec fn received(self, messages: nat) -> SenderCounter {
        SenderCounter { rx: counted(self.rx, messages), ..self }
    }

    pub open spec fn lost(self, messages: nat) -> SenderCounter {
        SenderCounter { dropped: counted(self.dropped, messages), ..self }
    }

    pub open spec fn sent(self, acked: nat, bytes: nat) -> SenderCounter {
        SenderCounter {
            tx: counted(self.tx, acked),
            tx_bytes: counted(self.tx_bytes, bytes),
            ..self
        }
    }

    /// Counts here what was counted elsewhere between two readings.
    pub fn count_between(&mut self, before: &SenderCounter, after: &SenderCounter)
        ensures
            *final(self) == (SenderCounter {
                rx: counted(old(self).rx, counted_between(before.rx, after.rx)),
                tx: counted(old(self).tx, counted_between(before.tx, after.tx)),
                tx_bytes: counted(
                    old(self).tx_bytes,
                    counted_between(before.tx_bytes, after.tx_bytes),
                ),
                dropped: counted(
                    old(self).dropped,
                    counted_between(before.dropped, after.dropped),
                ),
            }),
    {
        count_between(&mut self.rx, before.rx, after.rx);
        count_between(&mut self.tx, before.tx, after.tx);
        count_between(&mut self.tx_bytes, before.tx_bytes, after.tx_bytes);
        count_between(&mut self.dropped, before.dropped, after.dropped);
    }
}

/// Each thing that can befall a send moves one statistic by one, and no other.
pub proof fn law_statistics_move(stats: PoolStats)
    ensures
        stats.write_failed().write_failures == counted(stats.write_failures, 1),
        stats.write_failed().retry_successes == stats.retry_successes,
        stats.write_failed().all_endpoints_failed == stats.all_endpoints_failed,
        stats.retry_succeeded().write_failures == stats.write_failures,
        stats.retry_succeeded().retry_successes == counted(stats.retry_successes, 1),
        stats.retry_succeeded().all_endpoints_failed == stats.all_endpoints_failed,
        stats.gave_up().write_failures == stats.write_failures,
        stats.gave_up().retry_successes == stats.retry_successes,
        stats.gave_up().all_endpoints_failed == counted(stats.all_endpoints_failed, 1),
{
}

/// Messages received and lost move one counter each, and what was sent moves two.
pub proof fn law_counters_move(counter: SenderCounter, messages: nat, bytes: nat)
    ensures
        counter.received(messages).rx == counted(counter.rx, messages),
        counter.received(messages).tx == counter.tx,
        counter.received(messages).tx_bytes == counter.tx_bytes,
        counter.received(messages).dropped == counter.dropped,
        counter.lost(messages).rx == counter.rx,
        counter.lost(messages).tx == counter.tx,
        counter.lost(messages).tx_bytes == counter.tx_bytes,
        counter.lost(messages).dropped == counted(counter.dropped, messages),
        counter.sent(messages, bytes).rx == counter.rx,
        counter.sent(messages, bytes).tx == counted(counter.tx, messages),
        counter.sent(messages, bytes).tx_bytes == counted(counter.tx_bytes, bytes),
        counter.sent(messages, bytes).dropped == counter.dropped,
{
}

} // verus!
