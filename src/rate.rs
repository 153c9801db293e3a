use vstd::prelude::*;

verus! {

/// Smallest spacing, in milliseconds, between two observations that yields a rate.
pub const MIN_INTERVAL_MS: u64 = 100;

/// Whether an observation at `now_ms` is far enough from `last_ms` to give a rate.
pub open spec fn spaced_enough(last_ms: u64, now_ms: u64) -> bool {
    now_ms >= last_ms + MIN_INTERVAL_MS
}

/// Throughput, in units per second, of a counter that went from `prev` to `cur`
/// over `elapsed_ms` milliseconds: zero when the counter went back (a reset),
/// rounded down, and capped at `u64::MAX`.
pub open spec fn rate_of(prev: u64, cur: u64, elapsed_ms: u64) -> u64 {
    if cur < prev || elapsed_ms == 0 {
        0
    } else {
        let r = (cur - prev) * 1000 / (elapsed_ms as int);
        if r > u64::MAX { u64::MAX } else { r as u64 }
    }
}

/// Turns cumulative receive / transmit counters into per-second rates.
pub struct RateTracker {
    pub last_rx: u64,
    pub last_tx: u64,
    pub last_ms: u64,
}

impl RateTracker {
    /// A tracker whose baseline is the given counters at instant `now_ms`.
    pub fn new(rx: u64, tx: u64, now_ms: u64) -> (r: RateTracker)
        ensures
            r.last_rx == rx,
            r.last_tx == tx,
            r.last_ms == now_ms,
    {
        RateTracker { last_rx: rx, last_tx: tx, last_ms: now_ms }
    }

    /// Records the counters seen at `now_ms` and returns the (rx, tx) rates per second
    /// since the previous baseline. Observations closer than `MIN_INTERVAL_MS` to the
    /// baseline (or before it) give (0, 0) and leave the tracker as it was; any other
    /// observation becomes the new baseline, also after a counter reset.
    pub fn observe(&mut self, rx: u64, tx: u64, now_ms: u64) -> (r: (u64, u64))
        ensures
            spaced_enough(old(self).last_ms, now_ms) ==> {
                &&& r.0 == rate_of(old(self).last_rx, rx, (now_ms - old(self).last_ms) as u64)
                &&& r.1 == rate_of(old(self).last_tx, tx, (now_ms - old(self).last_ms) as u64)
                &&& final(self).last_rx == rx
                &&& final(self).last_tx == tx
                &&& final(self).last_ms == now_ms
            },
            !spaced_enough(old(self).last_ms, now_ms) ==> {
                &&& r == (0u64, 0u64)
                &&& *final(self) == *old(self)
            },
    {
        if now_ms < self.last_ms || now_ms - self.last_ms < MIN_INTERVAL_MS {
            return (0, 0);
        }
        let elapsed = now_ms - self.last_ms;
        let rx_rate = per_second(self.last_rx, rx, elapsed);
        let tx_rate = per_second(self.last_tx, tx, elapsed);
        self.last_rx = rx;
        self.last_tx = tx;
        self.last_ms = now_ms;
        (rx_rate, tx_rate)
    }
}

/// Rate per second of a counter that went from `prev` to `cur` in `elapsed_ms` milliseconds.
pub fn per_second(prev: u64, cur: u64, elapsed_ms: u64) -> (r: u64)
    ensures
        r == rate_of(prev, cur, elapsed_ms),
{
    if cur < prev || elapsed_ms == 0 {
        return 0;
    }
    let delta: u128 = (cur - prev) as u128;
    let scaled: u128 = delta * 1000;
    let q: u128 = scaled / (elapsed_ms as u128);
    if q > u64::MAX as u128 {
        u64::MAX
    } else {
        q as u64
    }
}

} // verus!
