use vstd::prelude::*;

use crate::agg::{
    count_where, lemma_count_has_witness, lemma_picked_counts, max_where, mean, min_where, saturate,
    sum_where,
};

verus! {

pub const SECS_PER_HOUR: u64 = 3600;

pub const SECS_PER_DAY: u64 = 86400;

/// Raw samples are kept for one day.
pub const RAW_RETENTION_SECS: u64 = 86400;

/// Hourly rollups are kept for thirty days.
pub const HOURLY_RETENTION_SECS: u64 = 2592000;

/// Fixed-point scale of every percentage in the store: values are hundredths of a percent.
pub const PERCENT_SCALE: u64 = 100;

/// One stored sample of one server. Times are seconds since the Unix epoch; gauges
/// (cpu, memory, disk) are hundredths of a percent; loads are thousandths; the
/// latency is in microseconds.
pub struct RawRow {
    pub server_id: String,
    pub timestamp: u64,
    pub cpu_usage: u64,
    pub memory_usage: u64,
    pub disk_usage: u64,
    pub net_rx: u64,
    pub net_tx: u64,
    pub load_1: u64,
    pub load_5: u64,
    pub load_15: u64,
    pub ping_us: Option<u64>,
}

/// Summary of one server's raw samples over one hour.
#[derive(Clone, Copy, Debug, PartialEq, Eq, Structural)]
pub struct HourStats {
    pub cpu_avg: u64,
    pub cpu_max: u64,
    pub memory_avg: u64,
    pub memory_max: u64,
    pub disk_avg: u64,
    pub net_rx_total: u64,
    pub net_tx_total: u64,
    pub sample_count: u64,
}

/// Summary of one server's hourly rollups over one day.
#[derive(Clone, Copy, Debug, PartialEq, Eq, Structural)]
pub struct DayStats {
    pub cpu_avg: u64,
    pub cpu_max: u64,
    pub memory_avg: u64,
    pub memory_max: u64,
    pub disk_avg: u64,
    pub net_rx_total: u64,
    pub net_tx_total: u64,
    pub uptime_percent: u64,
    pub sample_count: u64,
}

/// An aggregated row, unique on (server_id, start): `start` is the first second of
/// the hour (hourly tier) or of the UTC day (daily tier) that it summarises.
pub struct Rollup<S> {
    pub server_id: String,
    pub start: u64,
    pub stats: S,
}

pub type HourlyRow = Rollup<HourStats>;

pub type DailyRow = Rollup<DayStats>;

// ---------------------------------------------------------------------------
// Hourly tier
// ---------------------------------------------------------------------------

/// First second of the closed hour before the hour that holds `as_of`.
pub open spec fn prev_hour_start(as_of: u64) -> u64 {
    (((as_of - SECS_PER_HOUR) / SECS_PER_HOUR as int) * SECS_PER_HOUR) as u64
}

/// Whether a raw row belongs to server `sid` and to the hour that begins at `start`.
pub open spec fn in_hour(r: RawRow, sid: Seq<char>, start: u64) -> bool {
    r.server_id@ == sid && start <= r.timestamp < start + SECS_PER_HOUR
}

pub open spec fn hour_sel(sid: Seq<char>, start: u64) -> spec_fn(RawRow) -> bool {
    |r: RawRow| in_hour(r, sid, start)
}

pub open spec fn cpu_of() -> spec_fn(RawRow) -> u64 {
    |r: RawRow| r.cpu_usage
}

pub open spec fn memory_of() -> spec_fn(RawRow) -> u64 {
    |r: RawRow| r.memory_usage
}

pub open spec fn disk_of() -> spec_fn(RawRow) -> u64 {
    |r: RawRow| r.disk_usage
}

pub open spec fn rx_of() -> spec_fn(RawRow) -> u64 {
    |r: RawRow| r.net_rx
}

pub open spec fn tx_of() -> spec_fn(RawRow) -> u64 {
    |r: RawRow| r.net_tx
}

/// Spread (largest minus smallest) of a monotonic counter over a selection.
pub open spec fn spread<T>(s: Seq<T>, sel: spec_fn(T) -> bool, f: spec_fn(T) -> u64) -> u64 {
    if count_where(s, sel) == 0 {
        0
    } else {
        (max_where(s, sel, f) - min_where(s, sel, f)) as u64
    }
}

/// The hourly summary of server `sid`'s raw rows in the hour that begins at `start`:
/// mean and maximum of the gauges, spread of the counters, number of samples.
pub open spec fn hour_stats_of(rows: Seq<RawRow>, sid: Seq<char>, start: u64) -> HourStats {
    let sel = hour_sel(sid, start);
    let n = count_where(rows, sel);
    HourStats {
        cpu_avg: mean(sum_where(rows, sel, cpu_of()), n),
        cpu_max: max_where(rows, sel, cpu_of()),
        memory_avg: mean(sum_where(rows, sel, memory_of()), n),
        memory_max: max_where(rows, sel, memory_of()),
        disk_avg: mean(sum_where(rows, sel, disk_of()), n),
        net_rx_total: spread(rows, sel, rx_of()),
        net_tx_total: spread(rows, sel, tx_of()),
        sample_count: n as u64,
    }
}

/// Integer mean of a `u128` sum of `n` values that each fit in a `u64`.
fn mean_u128(sum: u128, n: u64) -> (r: u64)
    requires
        sum <= n * 0xFFFF_FFFF_FFFF_FFFFnat,
    ensures
        r == mean(sum as nat, n as nat),
{
    if n == 0 {
        0
    } else {
        let q: u128 = sum / (n as u128);
        assert(q <= 0xFFFF_FFFF_FFFF_FFFFu128) by (nonlinear_arith)
            requires
                q == sum / (n as u128),
                sum <= n * 0xFFFF_FFFF_FFFF_FFFFnat,
                n > 0,
        ;
        q as u64
    }
}

/// Computes `hour_stats_of` for one server and one hour.
pub fn hour_stats(rows: &Vec<RawRow>, sid: &String, start: u64) -> (r: HourStats)
    ensures
        r == hour_stats_of(rows@, sid@, start),
{
    let ghost sel = hour_sel(sid@, start);
    let mut n: u64 = 0;
    let mut cpu_sum: u128 = 0;
    let mut mem_sum: u128 = 0;
    let mut disk_sum: u128 = 0;
    let mut cpu_max: u64 = 0;
    let mut mem_max: u64 = 0;
    let mut rx_max: u64 = 0;
    let mut tx_max: u64 = 0;
    let mut rx_min: u64 = u64::MAX;
    let mut tx_min: u64 = u64::MAX;
    let mut i: usize = 0;
    while i < rows.len()
        invariant
            i <= rows.len(),
            sel == hour_sel(sid@, start),
            n == count_where(rows@.subrange(0, i as int), sel),
            n <= i,
            cpu_sum == sum_where(rows@.subrange(0, i as int), sel, cpu_of()),
            mem_sum == sum_where(rows@.subrange(0, i as int), sel, memory_of()),
            disk_sum == sum_where(rows@.subrange(0, i as int), sel, disk_of()),
            cpu_sum <= n * 0xFFFF_FFFF_FFFF_FFFFnat,
            mem_sum <= n * 0xFFFF_FFFF_FFFF_FFFFnat,
            disk_sum <= n * 0xFFFF_FFFF_FFFF_FFFFnat,
            cpu_max == max_where(rows@.subrange(0, i as int), sel, cpu_of()),
            mem_max == max_where(rows@.subrange(0, i as int), sel, memory_of()),
            rx_max == max_where(rows@.subrange(0, i as int), sel, rx_of()),
            tx_max == max_where(rows@.subrange(0, i as int), sel, tx_of()),
            rx_min == min_where(rows@.subrange(0, i as int), sel, rx_of()),
            tx_min == min_where(rows@.subrange(0, i as int), sel, tx_of()),
            n > 0 ==> rx_min <= rx_max && tx_min <= tx_max,
        decreases rows.len() - i,
    {
        let r = &rows[i];
        let ghost pre = rows@.subrange(0, i as int);
        let ghost next = rows@.subrange(0, i + 1);
        assert(next.drop_last() =~= pre);
        assert(next.last() == rows@[i as int]);
        if r.server_id == *sid && r.timestamp >= start && r.timestamp - start < SECS_PER_HOUR {
            assert(sel(rows@[i as int]));
            n = n + 1;
            cpu_sum = cpu_sum + r.cpu_usage as u128;
            mem_sum = mem_sum + r.memory_usage as u128;
            disk_sum = disk_sum + r.disk_usage as u128;
            if r.cpu_usage > cpu_max {
                cpu_max = r.cpu_usage;
            }
            if r.memory_usage > mem_max {
                mem_max = r.memory_usage;
            }
            if r.net_rx > rx_max {
                rx_max = r.net_rx;
            }
            if r.net_tx > tx_max {
                tx_max = r.net_tx;
            }
            if r.net_rx < rx_min {
                rx_min = r.net_rx;
            }
            if r.net_tx < tx_min {
                tx_min = r.net_tx;
            }
        } else {
            assert(!sel(rows@[i as int]));
        }
        i = i + 1;
    }
    assert(rows@.subrange(0, rows.len() as int) =~= rows@);
    let rx_total: u64 = if n == 0 { 0 } else { rx_max - rx_min };
    let tx_total: u64 = if n == 0 { 0 } else { tx_max - tx_min };
    HourStats {
        cpu_avg: mean_u128(cpu_sum, n),
        cpu_max,
        memory_avg: mean_u128(mem_sum, n),
        memory_max: mem_max,
        disk_avg: mean_u128(disk_sum, n),
        net_rx_total: rx_total,
        net_tx_total: tx_total,
        sample_count: n,
    }
}


// ---------------------------------------------------------------------------
// Daily tier
// ---------------------------------------------------------------------------

/// First second of the UTC day before the day that holds `as_of`.
pub open spec fn prev_day_start(as_of: u64) -> u64 {
    (((as_of - SECS_PER_DAY) / SECS_PER_DAY as int) * SECS_PER_DAY) as u64
}

/// Whether an hourly row belongs to server `sid` and to the day that begins at `start`.
pub open spec fn in_day(h: HourlyRow, sid: Seq<char>, start: u64) -> bool {
    h.server_id@ == sid && start <= h.start < start + SECS_PER_DAY
}

pub open spec fn day_sel(sid: Seq<char>, start: u64) -> spec_fn(HourlyRow) -> bool {
    |h: HourlyRow| in_day(h, sid, start)
}

pub open spec fn h_cpu_avg() -> spec_fn(HourlyRow) -> u64 {
    |h: HourlyRow| h.stats.cpu_avg
}

pub open spec fn h_cpu_max() -> spec_fn(HourlyRow) -> u64 {
    |h: HourlyRow| h.stats.cpu_max
}

pub open spec fn h_memory_avg() -> spec_fn(HourlyRow) -> u64 {
    |h: HourlyRow| h.stats.memory_avg
}

pub open spec fn h_memory_max() -> spec_fn(HourlyRow) -> u64 {
    |h: HourlyRow| h.stats.memory_max
}

pub open spec fn h_disk_avg() -> spec_fn(HourlyRow) -> u64 {
    |h: HourlyRow| h.stats.disk_avg
}

pub open spec fn h_rx() -> spec_fn(HourlyRow) -> u64 {
    |h: HourlyRow| h.stats.net_rx_total
}

pub open spec fn h_tx() -> spec_fn(HourlyRow) -> u64 {
    |h: HourlyRow| h.stats.net_tx_total
}

pub open spec fn h_samples() -> spec_fn(HourlyRow) -> u64 {
    |h: HourlyRow| h.stats.sample_count
}

/// Share of the day's 24 hours that have an hourly row, in hundredths of a percent.
pub open spec fn coverage(hours: nat) -> u64 {
    saturate(hours * 100 * PERCENT_SCALE as nat / 24)
}

/// The daily summary of server `sid`'s hourly rows in the day that begins at `start`:
/// mean of the hourly means, maximum of the hourly maxima, sums of the counter
/// totals and sample counts, and hour coverage.
pub open spec fn day_stats_of(rows: Seq<HourlyRow>, sid: Seq<char>, start: u64) -> DayStats {
    let sel = day_sel(sid, start);
    let n = count_where(rows, sel);
    DayStats {
        cpu_avg: mean(sum_where(rows, sel, h_cpu_avg()), n),
        cpu_max: max_where(rows, sel, h_cpu_max()),
        memory_avg: mean(sum_where(rows, sel, h_memory_avg()), n),
        memory_max: max_where(rows, sel, h_memory_max()),
        disk_avg: mean(sum_where(rows, sel, h_disk_avg()), n),
        net_rx_total: saturate(sum_where(rows, sel, h_rx())),
        net_tx_total: saturate(sum_where(rows, sel, h_tx())),
        uptime_percent: coverage(n),
        sample_count: saturate(sum_where(rows, sel, h_samples())),
    }
}

fn saturate_u128(x: u128) -> (r: u64)
    ensures
        r == saturate(x as nat),
{
    if x > u64::MAX as u128 {
        u64::MAX
    } else {
        x as u64
    }
}

/// Computes `day_stats_of` for one server and one day.
pub fn day_stats(rows: &Vec<HourlyRow>, sid: &String, start: u64) -> (r: DayStats)
    ensures
        r == day_stats_of(rows@, sid@, start),
{
    let ghost sel = day_sel(sid@, start);
    let mut n: u64 = 0;
    let mut cpu_sum: u128 = 0;
    let mut mem_sum: u128 = 0;
    let mut disk_sum: u128 = 0;
    let mut rx_sum: u128 = 0;
    let mut tx_sum: u128 = 0;
    let mut samples: u128 = 0;
    let mut cpu_max: u64 = 0;
    let mut mem_max: u64 = 0;
    let mut i: usize = 0;
    while i < rows.len()
        invariant
            i <= rows.len(),
            sel == day_sel(sid@, start),
            n == count_where(rows@.subrange(0, i as int), sel),
            n <= i,
            cpu_sum == sum_where(rows@.subrange(0, i as int), sel, h_cpu_avg()),
            mem_sum == sum_where(rows@.subrange(0, i as int), sel, h_memory_avg()),
            disk_sum == sum_where(rows@.subrange(0, i as int), sel, h_disk_avg()),
            rx_sum == sum_where(rows@.subrange(0, i as int), sel, h_rx()),
            tx_sum == sum_where(rows@.subrange(0, i as int), sel, h_tx()),
            samples == sum_where(rows@.subrange(0, i as int), sel, h_samples()),
            cpu_sum <= n * 0xFFFF_FFFF_FFFF_FFFFnat,
            mem_sum <= n * 0xFFFF_FFFF_FFFF_FFFFnat,
            disk_sum <= n * 0xFFFF_FFFF_FFFF_FFFFnat,
            rx_sum <= n * 0xFFFF_FFFF_FFFF_FFFFnat,
            tx_sum <= n * 0xFFFF_FFFF_FFFF_FFFFnat,
            samples <= n * 0xFFFF_FFFF_FFFF_FFFFnat,
            cpu_max == max_where(rows@.subrange(0, i as int), sel, h_cpu_max()),
            mem_max == max_where(rows@.subrange(0, i as int), sel, h_memory_max()),
        decreases rows.len() - i,
    {
        let h = &rows[i];
        let ghost pre = rows@.subrange(0, i as int);
        let ghost next = rows@.subrange(0, i + 1);
        assert(next.drop_last() =~= pre);
        assert(next.last() == rows@[i as int]);
        if h.server_id == *sid && h.start >= start && h.start - start < SECS_PER_DAY {
            assert(sel(rows@[i as int]));
            n = n + 1;
            cpu_sum = cpu_sum + h.stats.cpu_avg as u128;
            mem_sum = mem_sum + h.stats.memory_avg as u128;
            disk_sum = disk_sum + h.stats.disk_avg as u128;
            rx_sum = rx_sum + h.stats.net_rx_total as u128;
            tx_sum = tx_sum + h.stats.net_tx_total as u128;
            samples = samples + h.stats.sample_count as u128;
            if h.stats.cpu_max > cpu_max {
                cpu_max = h.stats.cpu_max;
            }
            if h.stats.memory_max > mem_max {
                mem_max = h.stats.memory_max;
            }
        } else {
            assert(!sel(rows@[i as int]));
        }
        i = i + 1;
    }
    assert(rows@.subrange(0, rows.len() as int) =~= rows@);
    let scaled: u128 = (n as u128) * 100 * (PERCENT_SCALE as u128);
    DayStats {
        cpu_avg: mean_u128(cpu_sum, n),
        cpu_max,
        memory_avg: mean_u128(mem_sum, n),
        memory_max: mem_max,
        disk_avg: mean_u128(disk_sum, n),
        net_rx_total: saturate_u128(rx_sum),
        net_tx_total: saturate_u128(tx_sum),
        uptime_percent: saturate_u128(scaled / 24),
        sample_count: saturate_u128(samples),
    }
}

// ---------------------------------------------------------------------------
// Keyed tiers
// ---------------------------------------------------------------------------

pub open spec fn same_key<S>(r: Rollup<S>, sid: Seq<char>, start: u64) -> bool {
    r.server_id@ == sid && r.start == start
}

/// No two rows share a (server_id, start) key.
pub open spec fn keys_unique<S>(rows: Seq<Rollup<S>>) -> bool {
    forall|i: int, j: int|
        0 <= i < j < rows.len() ==> !same_key(#[trigger] rows[i], rows[j].server_id@, #[trigger] rows[j].start)
}

/// Whether `rows` holds a row under key (sid, start) with the given stats.
pub open spec fn has_row<S>(rows: Seq<Rollup<S>>, sid: Seq<char>, start: u64, stats: S) -> bool {
    exists|j: int| 0 <= j < rows.len() && same_key(#[trigger] rows[j], sid, start) && rows[j].stats == stats
}

/// Whether `rows` holds the row `r`.
pub open spec fn holds<S>(rows: Seq<Rollup<S>>, r: Rollup<S>) -> bool {
    exists|j: int| 0 <= j < rows.len() && #[trigger] rows[j] == r
}

/// Writes `stats` under key (sid, start): replaces the row with that key, or adds one.
pub fn upsert<S: Copy>(rows: &mut Vec<Rollup<S>>, sid: &String, start: u64, stats: S)
    requires
        keys_unique(old(rows)@),
    ensures
        keys_unique(final(rows)@),
        has_row(final(rows)@, sid@, start, stats),
        forall|i: int|
            0 <= i < old(rows)@.len() && !same_key(#[trigger] old(rows)@[i], sid@, start)
                ==> holds(final(rows)@, old(rows)@[i]),
        forall|j: int|
            0 <= j < final(rows)@.len() ==> (same_key(#[trigger] final(rows)@[j], sid@, start)
                && final(rows)@[j].stats == stats) || (holds(old(rows)@, final(rows)@[j])
                && !same_key(final(rows)@[j], sid@, start)),
{
    let mut i: usize = 0;
    while i < rows.len()
        invariant
            i <= rows.len(),
            rows@ == old(rows)@,
            keys_unique(old(rows)@),
            forall|k: int| 0 <= k < i ==> !same_key(#[trigger] rows@[k], sid@, start),
        decreases rows.len() - i,
    {
        if rows[i].server_id == *sid && rows[i].start == start {
            let row = Rollup { server_id: sid.clone(), start, stats };
            rows.set(i, row);
            assert forall|k: int| 0 <= k < rows@.len() implies #[trigger] rows@[k].server_id@ == old(rows)@[k].server_id@
                && rows@[k].start == old(rows)@[k].start by {}
            assert forall|a: int, b: int| 0 <= a < b < rows@.len() implies !same_key(
                #[trigger] rows@[a],
                rows@[b].server_id@,
                #[trigger] rows@[b].start,
            ) by {
                assert(!same_key(old(rows)@[a], old(rows)@[b].server_id@, old(rows)@[b].start));
            }
            assert forall|k: int| 0 <= k < old(rows)@.len() && !same_key(#[trigger] old(rows)@[k], sid@, start)
                implies holds(rows@, old(rows)@[k]) by {
                assert(rows@[k] == old(rows)@[k]);
            }
            assert forall|j: int| 0 <= j < rows@.len() && j != i implies holds(old(rows)@, #[trigger] rows@[j])
                && !same_key(rows@[j], sid@, start) by {
                assert(old(rows)@[j] == rows@[j]);
                if j < i {
                    assert(!same_key(old(rows)@[j], old(rows)@[i as int].server_id@, old(rows)@[i as int].start));
                } else {
                    assert(!same_key(old(rows)@[i as int], old(rows)@[j].server_id@, old(rows)@[j].start));
                }
            }
            assert(same_key(rows@[i as int], sid@, start));
            return;
        }
        i = i + 1;
    }
    rows.push(Rollup { server_id: sid.clone(), start, stats });
    let ghost n = old(rows)@.len();
    assert(same_key(rows@[n as int], sid@, start));
    assert forall|k: int| 0 <= k < old(rows)@.len() && !same_key(#[trigger] old(rows)@[k], sid@, start)
        implies holds(rows@, old(rows)@[k]) by {
        assert(rows@[k] == old(rows)@[k]);
    }
    assert forall|j: int| 0 <= j < n implies holds(old(rows)@, #[trigger] rows@[j]) by {
        assert(old(rows)@[j] == rows@[j]);
    }
}

/// Whether the hourly rollup at `as_of` writes key (sid, start): the key is the closed
/// hour before `as_of` and that server has raw rows in it.
pub open spec fn hourly_rewrites(raw: Seq<RawRow>, as_of: u64, sid: Seq<char>, start: u64) -> bool {
    &&& as_of >= SECS_PER_HOUR
    &&& start == prev_hour_start(as_of)
    &&& count_where(raw, hour_sel(sid, start)) > 0
}

/// Whether the daily rollup at `as_of` writes key (sid, start): the key is the closed
/// hour before `as_of` and that server has raw rows in it.
pub open spec fn daily_rewrites(hourly: Seq<HourlyRow>, as_of: u64, sid: Seq<char>, start: u64) -> bool {
    &&& as_of >= SECS_PER_DAY
    &&& start == prev_day_start(as_of)
    &&& count_where(hourly, day_sel(sid, start)) > 0
}

// ---------------------------------------------------------------------------
// Rows derived from one snapshot
// ---------------------------------------------------------------------------

pub open spec fn measured() -> spec_fn(Option<u64>) -> bool {
    |l: Option<u64>| l is Some
}

pub open spec fn latency_value() -> spec_fn(Option<u64>) -> u64 {
    |l: Option<u64>| match l {
        Some(v) => v,
        None => 0,
    }
}

/// Mean of the latencies that were measured, or `None` when none was.
pub open spec fn mean_latency_of(lat: Seq<Option<u64>>) -> Option<u64> {
    let n = count_where(lat, measured());
    if n == 0 {
        None
    } else {
        Some(mean(sum_where(lat, measured(), latency_value()), n))
    }
}

/// Mean latency over the probe targets that have one.
pub fn mean_latency(lat: &Vec<Option<u64>>) -> (r: Option<u64>)
    ensures
        r == mean_latency_of(lat@),
{
    let mut n: u64 = 0;
    let mut sum: u128 = 0;
    let mut i: usize = 0;
    while i < lat.len()
        invariant
            i <= lat.len(),
            n == count_where(lat@.subrange(0, i as int), measured()),
            n <= i,
            sum == sum_where(lat@.subrange(0, i as int), measured(), latency_value()),
            sum <= n * 0xFFFF_FFFF_FFFF_FFFFnat,
        decreases lat.len() - i,
    {
        let ghost next = lat@.subrange(0, i + 1);
        assert(next.drop_last() =~= lat@.subrange(0, i as int));
        assert(next.last() == lat@[i as int]);
        match lat[i] {
            Some(v) => {
                n = n + 1;
                sum = sum + v as u128;
            },
            None => {},
        }
        i = i + 1;
    }
    assert(lat@.subrange(0, lat.len() as int) =~= lat@);
    if n == 0 {
        None
    } else {
        Some(mean_u128(sum, n))
    }
}

/// Usage recorded for a snapshot: that of its first physical disk, 0 without disks.
pub open spec fn first_disk_usage_of(usages: Seq<u64>) -> u64 {
    if usages.len() == 0 { 0 } else { usages[0] }
}

/// One snapshot's figures, as handed to the store.
pub struct SampleFigures {
    pub timestamp: u64,
    pub cpu_usage: u64,
    pub memory_usage: u64,
    /// Usage of each physical disk, in snapshot order.
    pub disk_usages: Vec<u64>,
    pub net_rx: u64,
    pub net_tx: u64,
    pub load_1: u64,
    pub load_5: u64,
    pub load_15: u64,
    /// Latency of each probe target, `None` where none was measured.
    pub latencies: Vec<Option<u64>>,
}

/// The raw row for server `server_id` and one snapshot: disk usage is the first
/// physical disk's, latency the mean over the targets that have one.
pub fn raw_row(server_id: &String, f: &SampleFigures) -> (r: RawRow)
    ensures
        r.server_id@ == server_id@,
        r.timestamp == f.timestamp,
        r.cpu_usage == f.cpu_usage,
        r.memory_usage == f.memory_usage,
        r.disk_usage == first_disk_usage_of(f.disk_usages@),
        r.net_rx == f.net_rx,
        r.net_tx == f.net_tx,
        r.load_1 == f.load_1,
        r.load_5 == f.load_5,
        r.load_15 == f.load_15,
        r.ping_us == mean_latency_of(f.latencies@),
{
    let disk_usage: u64 = if f.disk_usages.len() == 0 { 0 } else { f.disk_usages[0] };
    RawRow {
        server_id: server_id.clone(),
        timestamp: f.timestamp,
        cpu_usage: f.cpu_usage,
        memory_usage: f.memory_usage,
        disk_usage,
        net_rx: f.net_rx,
        net_tx: f.net_tx,
        load_1: f.load_1,
        load_5: f.load_5,
        load_15: f.load_15,
        ping_us: mean_latency(&f.latencies),
    }
}

/// Whether a raw row is still inside the raw retention window at `now`.
pub open spec fn raw_kept(now: u64) -> spec_fn(RawRow) -> bool {
    |r: RawRow| r.timestamp + RAW_RETENTION_SECS >= now
}

/// Whether an hourly row is still inside the hourly retention window at `now`.
pub open spec fn hourly_kept(now: u64) -> spec_fn(HourlyRow) -> bool {
    |h: HourlyRow| h.start + HOURLY_RETENTION_SECS >= now
}

/// A copy of a raw row.
pub fn copy_raw(r: &RawRow) -> (c: RawRow)
    ensures
        c == *r,
{
    RawRow {
        server_id: r.server_id.clone(),
        timestamp: r.timestamp,
        cpu_usage: r.cpu_usage,
        memory_usage: r.memory_usage,
        disk_usage: r.disk_usage,
        net_rx: r.net_rx,
        net_tx: r.net_tx,
        load_1: r.load_1,
        load_5: r.load_5,
        load_15: r.load_15,
        ping_us: r.ping_us,
    }
}

/// A copy of a rollup row.
pub fn copy_rollup<S: Copy>(r: &Rollup<S>) -> (c: Rollup<S>)
    ensures
        c == *r,
{
    Rollup { server_id: r.server_id.clone(), start: r.start, stats: r.stats }
}

/// The raw rows inside the retention window at `now`, in their order.
fn retain_raw(rows: &Vec<RawRow>, now: u64) -> (r: Vec<RawRow>)
    ensures
        r@ == rows@.filter(raw_kept(now)),
{
    let mut out: Vec<RawRow> = Vec::new();
    let mut i: usize = 0;
    while i < rows.len()
        invariant
            i <= rows.len(),
            out@ == rows@.subrange(0, i as int).filter(raw_kept(now)),
        decreases rows.len() - i,
    {
        let ghost pre = rows@.subrange(0, i as int);
        let ghost next = rows@.subrange(0, i + 1);
        assert(next.drop_last() =~= pre);
        reveal(Seq::filter);
        if rows[i].timestamp as u128 + RAW_RETENTION_SECS as u128 >= now as u128 {
            out.push(copy_raw(&rows[i]));
        }
        i = i + 1;
    }
    assert(rows@.subrange(0, rows.len() as int) =~= rows@);
    out
}

/// The hourly rows inside the retention window at `now`, in their order.
fn retain_hourly(rows: &Vec<HourlyRow>, now: u64) -> (r: Vec<HourlyRow>)
    requires
        keys_unique(rows@),
    ensures
        r@ == rows@.filter(hourly_kept(now)),
        keys_unique(r@),
{
    let mut out: Vec<HourlyRow> = Vec::new();
    let mut i: usize = 0;
    while i < rows.len()
        invariant
            i <= rows.len(),
            keys_unique(rows@),
            out@ == rows@.subrange(0, i as int).filter(hourly_kept(now)),
            keys_unique(out@),
            forall|m: int| 0 <= m < out@.len() ==> holds(rows@.subrange(0, i as int), #[trigger] out@[m]),
        decreases rows.len() - i,
    {
        let ghost pre = rows@.subrange(0, i as int);
        let ghost next = rows@.subrange(0, i + 1);
        assert(next.drop_last() =~= pre);
        reveal(Seq::filter);
        if rows[i].start as u128 + HOURLY_RETENTION_SECS as u128 >= now as u128 {
            let ghost before = out@;
            out.push(copy_rollup(&rows[i]));
            assert forall|a: int, b: int| 0 <= a < b < out@.len() implies !same_key(
                #[trigger] out@[a],
                out@[b].server_id@,
                #[trigger] out@[b].start,
            ) by {
                if b == out@.len() - 1 {
                    assert(holds(rows@.subrange(0, i as int), before[a]));
                    let k = choose|k: int| 0 <= k < i && #[trigger] rows@.subrange(0, i as int)[k] == before[a];
                    assert(rows@.subrange(0, i as int)[k] == rows@[k]);
                    assert(!same_key(rows@[k], rows@[i as int].server_id@, rows@[i as int].start));
                } else {
                    assert(out@[a] == before[a] && out@[b] == before[b]);
                }
            }
            assert forall|m: int| 0 <= m < out@.len() implies holds(rows@.subrange(0, i + 1), #[trigger] out@[m]) by {
                if m < out@.len() - 1 {
                    assert(out@[m] == before[m]);
                    assert(holds(rows@.subrange(0, i as int), before[m]));
                    let k = choose|k: int| 0 <= k < i && #[trigger] rows@.subrange(0, i as int)[k] == before[m];
                    assert(rows@.subrange(0, i + 1)[k] == before[m]);
                } else {
                    assert(rows@.subrange(0, i + 1)[i as int] == out@[m]);
                }
            }
        }
        i = i + 1;
    }
    assert(rows@.subrange(0, rows.len() as int) =~= rows@);
    out
}

/// Start of the hour that `aggregate_hourly(as_of)` summarises, if there is one.
pub fn hourly_window(as_of: u64) -> (r: Option<u64>)
    ensures
        as_of >= SECS_PER_HOUR ==> r == Some(prev_hour_start(as_of)),
        as_of < SECS_PER_HOUR ==> r is None,
{
    if as_of < SECS_PER_HOUR {
        None
    } else {
        Some(((as_of - SECS_PER_HOUR) / SECS_PER_HOUR) * SECS_PER_HOUR)
    }
}

/// Start of the day that `aggregate_daily(as_of)` summarises, if there is one.
pub fn daily_window(as_of: u64) -> (r: Option<u64>)
    ensures
        as_of >= SECS_PER_DAY ==> r == Some(prev_day_start(as_of)),
        as_of < SECS_PER_DAY ==> r is None,
{
    if as_of < SECS_PER_DAY {
        None
    } else {
        Some(((as_of - SECS_PER_DAY) / SECS_PER_DAY) * SECS_PER_DAY)
    }
}

/// The tiered sample store: raw samples, hourly rollups and daily rollups.
pub struct TimeSeriesStore {
    pub raw: Vec<RawRow>,
    pub hourly: Vec<HourlyRow>,
    pub daily: Vec<DailyRow>,
}

impl TimeSeriesStore {
    /// Both rollup tiers hold at most one row per key.
    pub open spec fn wf(&self) -> bool {
        keys_unique(self.hourly@) && keys_unique(self.daily@)
    }

    /// What `aggregate_hourly(as_of)` makes of `before`: raw and daily rows untouched;
    /// for every server with raw rows in the closed hour before `as_of`, one row for
    /// that hour with the summary of those rows; every other hourly row kept.
    pub open spec fn hourly_rolled(before: TimeSeriesStore, after: TimeSeriesStore, as_of: u64) -> bool {
        let raw = before.raw@;
        &&& after.wf()
        &&& after.raw@ == before.raw@
        &&& after.daily@ == before.daily@
        &&& forall|sid: Seq<char>|
            #[trigger] hourly_rewrites(raw, as_of, sid, prev_hour_start(as_of))
                ==> has_row(after.hourly@, sid, prev_hour_start(as_of), hour_stats_of(raw, sid, prev_hour_start(as_of)))
        &&& forall|i: int|
            0 <= i < before.hourly@.len()
                && !hourly_rewrites(raw, as_of, (#[trigger] before.hourly@[i]).server_id@, before.hourly@[i].start)
                ==> holds(after.hourly@, before.hourly@[i])
        &&& forall|j: int|
            0 <= j < after.hourly@.len() ==> {
                let r = #[trigger] after.hourly@[j];
                ||| hourly_rewrites(raw, as_of, r.server_id@, r.start) && r.stats == hour_stats_of(raw, r.server_id@, r.start)
                ||| holds(before.hourly@, r) && !hourly_rewrites(raw, as_of, r.server_id@, r.start)
            }
    }

    /// What `aggregate_daily(as_of)` makes of `before`: raw and hourly rows untouched;
    /// for every server with hourly rows in the UTC day before `as_of`, one row for
    /// that day with the summary of those rows; every other daily row kept.
    pub open spec fn daily_rolled(before: TimeSeriesStore, after: TimeSeriesStore, as_of: u64) -> bool {
        let src = before.hourly@;
        &&& after.wf()
        &&& after.raw@ == before.raw@
        &&& after.hourly@ == before.hourly@
        &&& forall|sid: Seq<char>|
            #[trigger] daily_rewrites(src, as_of, sid, prev_day_start(as_of))
                ==> has_row(after.daily@, sid, prev_day_start(as_of), day_stats_of(src, sid, prev_day_start(as_of)))
        &&& forall|i: int|
            0 <= i < before.daily@.len()
                && !daily_rewrites(src, as_of, (#[trigger] before.daily@[i]).server_id@, before.daily@[i].start)
                ==> holds(after.daily@, before.daily@[i])
        &&& forall|j: int|
            0 <= j < after.daily@.len() ==> {
                let r = #[trigger] after.daily@[j];
                ||| daily_rewrites(src, as_of, r.server_id@, r.start) && r.stats == day_stats_of(src, r.server_id@, r.start)
                ||| holds(before.daily@, r) && !daily_rewrites(src, as_of, r.server_id@, r.start)
            }
    }

    /// An empty store.
    pub fn new() -> (r: TimeSeriesStore)
        ensures
            r.wf(),
            r.raw@.len() == 0,
            r.hourly@.len() == 0,
            r.daily@.len() == 0,
    {
        TimeSeriesStore { raw: Vec::new(), hourly: Vec::new(), daily: Vec::new() }
    }

    /// Aggregates, per server, the raw rows of the closed hour before `as_of` into one
    /// hourly row keyed by (server_id, hour start), replacing any row under that key.
    /// Before the first full hour of the epoch there is nothing to do.
    pub fn aggregate_hourly(&mut self, as_of: u64)
        requires
            old(self).wf(),
        ensures
            as_of >= SECS_PER_HOUR ==> Self::hourly_rolled(*old(self), *final(self), as_of),
            as_of < SECS_PER_HOUR ==> *final(self) == *old(self),
    {
        if as_of < SECS_PER_HOUR {
            return;
        }
        let start: u64 = ((as_of - SECS_PER_HOUR) / SECS_PER_HOUR) * SECS_PER_HOUR;
        let ghost raw = self.raw@;
        let ghost before = *self;
        let mut i: usize = 0;
        while i < self.raw.len()
            invariant
                i <= self.raw.len(),
                start == prev_hour_start(as_of),
                as_of >= SECS_PER_HOUR,
                self.raw@ == raw,
                raw == before.raw@,
                self.daily@ == before.daily@,
                self.wf(),
                forall|k: int|
                    0 <= k < i && in_hour(#[trigger] raw[k], raw[k].server_id@, start) ==> has_row(
                        self.hourly@,
                        raw[k].server_id@,
                        start,
                        hour_stats_of(raw, raw[k].server_id@, start),
                    ),
                forall|k: int|
                    0 <= k < before.hourly@.len()
                        && !hourly_rewrites(raw, as_of, (#[trigger] before.hourly@[k]).server_id@, before.hourly@[k].start)
                        ==> holds(self.hourly@, before.hourly@[k]),
                forall|j: int|
                    0 <= j < self.hourly@.len() ==> {
                        let r = #[trigger] self.hourly@[j];
                        ||| hourly_rewrites(raw, as_of, r.server_id@, r.start) && r.stats == hour_stats_of(raw, r.server_id@, r.start)
                        ||| holds(before.hourly@, r)
                    },
            decreases self.raw.len() - i,
        {
            let ts = self.raw[i].timestamp;
            if ts >= start && ts - start < SECS_PER_HOUR {
                let sid = self.raw[i].server_id.clone();
                let stats = hour_stats(&self.raw, &sid, start);
                proof {
                    assert(hour_sel(sid@, start)(raw[i as int]));
                    lemma_picked_counts(raw, hour_sel(sid@, start), i as int);
                }
                let ghost mid = self.hourly@;
                upsert(&mut self.hourly, &sid, start, stats);
                assert forall|k: int|
                    0 <= k < before.hourly@.len()
                        && !hourly_rewrites(raw, as_of, (#[trigger] before.hourly@[k]).server_id@, before.hourly@[k].start)
                        implies holds(self.hourly@, before.hourly@[k]) by {
                    let j = choose|j: int| 0 <= j < mid.len() && #[trigger] mid[j] == before.hourly@[k];
                    assert(!same_key(mid[j], sid@, start));
                }
                assert forall|j: int| 0 <= j < self.hourly@.len() implies {
                    let r = #[trigger] self.hourly@[j];
                    ||| hourly_rewrites(raw, as_of, r.server_id@, r.start) && r.stats == hour_stats_of(raw, r.server_id@, r.start)
                    ||| holds(before.hourly@, r)
                } by {
                    let r = self.hourly@[j];
                    if !(same_key(r, sid@, start) && r.stats == stats) {
                        let m = choose|m: int| 0 <= m < mid.len() && #[trigger] mid[m] == r;
                        assert(mid[m] == r);
                    }
                }
                assert forall|k: int|
                    0 <= k < i + 1 && in_hour(#[trigger] raw[k], raw[k].server_id@, start) implies has_row(
                        self.hourly@,
                        raw[k].server_id@,
                        start,
                        hour_stats_of(raw, raw[k].server_id@, start),
                    ) by {
                    if k < i && raw[k].server_id@ != sid@ {
                        let j = choose|j: int|
                            0 <= j < mid.len() && same_key(#[trigger] mid[j], raw[k].server_id@, start)
                                && mid[j].stats == hour_stats_of(raw, raw[k].server_id@, start);
                        assert(holds(self.hourly@, mid[j]));
                        let j2 = choose|j2: int| 0 <= j2 < self.hourly@.len() && #[trigger] self.hourly@[j2] == mid[j];
                        assert(same_key(self.hourly@[j2], raw[k].server_id@, start));
                    }
                }
            }
            i = i + 1;
        }
        assert forall|sid: Seq<char>| #[trigger] hourly_rewrites(raw, as_of, sid, prev_hour_start(as_of))
            implies has_row(self.hourly@, sid, prev_hour_start(as_of), hour_stats_of(raw, sid, prev_hour_start(as_of))) by {
            lemma_count_has_witness(raw, hour_sel(sid, start));
            let k = choose|k: int| 0 <= k < raw.len() && hour_sel(sid, start)(#[trigger] raw[k]);
            assert(in_hour(raw[k], raw[k].server_id@, start));
        }
        assert forall|j: int| 0 <= j < self.hourly@.len() implies {
            let r = #[trigger] self.hourly@[j];
            ||| hourly_rewrites(raw, as_of, r.server_id@, r.start) && r.stats == hour_stats_of(raw, r.server_id@, r.start)
            ||| holds(before.hourly@, r) && !hourly_rewrites(raw, as_of, r.server_id@, r.start)
        } by {
            let r = self.hourly@[j];
            if hourly_rewrites(raw, as_of, r.server_id@, r.start) {
                let sid = r.server_id@;
                assert(hourly_rewrites(raw, as_of, sid, prev_hour_start(as_of)));
                let j2 = choose|j2: int|
                    0 <= j2 < self.hourly@.len() && same_key(#[trigger] self.hourly@[j2], sid, start)
                        && self.hourly@[j2].stats == hour_stats_of(raw, sid, start);
                if j2 < j {
                    assert(!same_key(self.hourly@[j2], self.hourly@[j].server_id@, self.hourly@[j].start));
                } else if j < j2 {
                    assert(!same_key(self.hourly@[j], self.hourly@[j2].server_id@, self.hourly@[j2].start));
                }
            }
        }
    }

    /// Aggregates, per server, the hourly rows of the UTC day before the day of `as_of`
    /// into one daily row keyed by (server_id, day start), replacing any row under that
    /// key. Before the first full day of the epoch there is nothing to do.
    pub fn aggregate_daily(&mut self, as_of: u64)
        requires
            old(self).wf(),
        ensures
            as_of >= SECS_PER_DAY ==> Self::daily_rolled(*old(self), *final(self), as_of),
            as_of < SECS_PER_DAY ==> *final(self) == *old(self),
    {
        if as_of < SECS_PER_DAY {
            return;
        }
        let start: u64 = ((as_of - SECS_PER_DAY) / SECS_PER_DAY) * SECS_PER_DAY;
        let ghost src = self.hourly@;
        let ghost before = *self;
        let mut i: usize = 0;
        while i < self.hourly.len()
            invariant
                i <= self.hourly.len(),
                start == prev_day_start(as_of),
                as_of >= SECS_PER_DAY,
                self.hourly@ == src,
                src == before.hourly@,
                self.raw@ == before.raw@,
                self.wf(),
                forall|k: int|
                    0 <= k < i && in_day(#[trigger] src[k], src[k].server_id@, start) ==> has_row(
                        self.daily@,
                        src[k].server_id@,
                        start,
                        day_stats_of(src, src[k].server_id@, start),
                    ),
                forall|k: int|
                    0 <= k < before.daily@.len()
                        && !daily_rewrites(src, as_of, (#[trigger] before.daily@[k]).server_id@, before.daily@[k].start)
                        ==> holds(self.daily@, before.daily@[k]),
                forall|j: int|
                    0 <= j < self.daily@.len() ==> {
                        let r = #[trigger] self.daily@[j];
                        ||| daily_rewrites(src, as_of, r.server_id@, r.start) && r.stats == day_stats_of(src, r.server_id@, r.start)
                        ||| holds(before.daily@, r)
                    },
            decreases self.hourly.len() - i,
        {
            let ts = self.hourly[i].start;
            if ts >= start && ts - start < SECS_PER_DAY {
                let sid = self.hourly[i].server_id.clone();
                let stats = day_stats(&self.hourly, &sid, start);
                proof {
                    assert(day_sel(sid@, start)(src[i as int]));
                    lemma_picked_counts(src, day_sel(sid@, start), i as int);
                }
                let ghost mid = self.daily@;
                upsert(&mut self.daily, &sid, start, stats);
                assert forall|k: int|
                    0 <= k < before.daily@.len()
                        && !daily_rewrites(src, as_of, (#[trigger] before.daily@[k]).server_id@, before.daily@[k].start)
                        implies holds(self.daily@, before.daily@[k]) by {
                    let j = choose|j: int| 0 <= j < mid.len() && #[trigger] mid[j] == before.daily@[k];
                    assert(!same_key(mid[j], sid@, start));
                }
                assert forall|j: int| 0 <= j < self.daily@.len() implies {
                    let r = #[trigger] self.daily@[j];
                    ||| daily_rewrites(src, as_of, r.server_id@, r.start) && r.stats == day_stats_of(src, r.server_id@, r.start)
                    ||| holds(before.daily@, r)
                } by {
                    let r = self.daily@[j];
                    if !(same_key(r, sid@, start) && r.stats == stats) {
                        let m = choose|m: int| 0 <= m < mid.len() && #[trigger] mid[m] == r;
                        assert(mid[m] == r);
                    }
                }
                assert forall|k: int|
                    0 <= k < i + 1 && in_day(#[trigger] src[k], src[k].server_id@, start) implies has_row(
                        self.daily@,
                        src[k].server_id@,
                        start,
                        day_stats_of(src, src[k].server_id@, start),
                    ) by {
                    if k < i && src[k].server_id@ != sid@ {
                        let j = choose|j: int|
                            0 <= j < mid.len() && same_key(#[trigger] mid[j], src[k].server_id@, start)
                                && mid[j].stats == day_stats_of(src, src[k].server_id@, start);
                        assert(holds(self.daily@, mid[j]));
                        let j2 = choose|j2: int| 0 <= j2 < self.daily@.len() && #[trigger] self.daily@[j2] == mid[j];
                        assert(same_key(self.daily@[j2], src[k].server_id@, start));
                    }
                }
            }
            i = i + 1;
        }
        assert forall|sid: Seq<char>| #[trigger] daily_rewrites(src, as_of, sid, prev_day_start(as_of))
            implies has_row(self.daily@, sid, prev_day_start(as_of), day_stats_of(src, sid, prev_day_start(as_of))) by {
            lemma_count_has_witness(src, day_sel(sid, start));
            let k = choose|k: int| 0 <= k < src.len() && day_sel(sid, start)(#[trigger] src[k]);
            assert(in_day(src[k], src[k].server_id@, start));
        }
        assert forall|j: int| 0 <= j < self.daily@.len() implies {
            let r = #[trigger] self.daily@[j];
            ||| daily_rewrites(src, as_of, r.server_id@, r.start) && r.stats == day_stats_of(src, r.server_id@, r.start)
            ||| holds(before.daily@, r) && !daily_rewrites(src, as_of, r.server_id@, r.start)
        } by {
            let r = self.daily@[j];
            if daily_rewrites(src, as_of, r.server_id@, r.start) {
                let sid = r.server_id@;
                assert(daily_rewrites(src, as_of, sid, prev_day_start(as_of)));
                let j2 = choose|j2: int|
                    0 <= j2 < self.daily@.len() && same_key(#[trigger] self.daily@[j2], sid, start)
                        && self.daily@[j2].stats == day_stats_of(src, sid, start);
                if j2 < j {
                    assert(!same_key(self.daily@[j2], self.daily@[j].server_id@, self.daily@[j].start));
                } else if j < j2 {
                    assert(!same_key(self.daily@[j], self.daily@[j2].server_id@, self.daily@[j2].start));
                }
            }
        }
    }
    /// Appends one raw row; the rollup tiers are untouched.
    pub fn append(&mut self, row: RawRow)
        requires
            old(self).wf(),
        ensures
            final(self).wf(),
            final(self).raw@ == old(self).raw@.push(row),
            final(self).hourly@ == old(self).hourly@,
            final(self).daily@ == old(self).daily@,
    {
        self.raw.push(row);
    }

    /// Appends the raw row of one snapshot of server `server_id`.
    pub fn store_metrics(&mut self, server_id: &String, f: &SampleFigures)
        requires
            old(self).wf(),
        ensures
            final(self).wf(),
            final(self).raw@.len() == old(self).raw@.len() + 1,
            final(self).raw@.drop_last() == old(self).raw@,
            final(self).raw@.last().server_id@ == server_id@,
            final(self).raw@.last().timestamp == f.timestamp,
            final(self).raw@.last().cpu_usage == f.cpu_usage,
            final(self).raw@.last().memory_usage == f.memory_usage,
            final(self).raw@.last().disk_usage == first_disk_usage_of(f.disk_usages@),
            final(self).raw@.last().net_rx == f.net_rx,
            final(self).raw@.last().net_tx == f.net_tx,
            final(self).raw@.last().load_1 == f.load_1,
            final(self).raw@.last().load_5 == f.load_5,
            final(self).raw@.last().load_15 == f.load_15,
            final(self).raw@.last().ping_us == mean_latency_of(f.latencies@),
            final(self).hourly@ == old(self).hourly@,
            final(self).daily@ == old(self).daily@,
    {
        let row = raw_row(server_id, f);
        self.append(row);
        assert(self.raw@.drop_last() =~= old(self).raw@);
    }

    /// What `cleanup_old_data(now)` makes of `before`: raw rows older than a day and hourly rows
    /// older than thirty days dropped, all other rows kept in order, daily rows untouched.
    pub open spec fn evicted(before: TimeSeriesStore, after: TimeSeriesStore, now: u64) -> bool {
        &&& after.wf()
        &&& after.raw@ == before.raw@.filter(raw_kept(now))
        &&& after.hourly@ == before.hourly@.filter(hourly_kept(now))
        &&& after.daily@ == before.daily@
    }

    /// Drops the raw rows older than `RAW_RETENTION_SECS` and the hourly rows older
    /// than `HOURLY_RETENTION_SECS` at instant `now`. Daily rows are kept forever.
    pub fn cleanup_old_data(&mut self, now: u64)
        requires
            old(self).wf(),
        ensures
            Self::evicted(*old(self), *final(self), now),
    {
        let raw = retain_raw(&self.raw, now);
        let hourly = retain_hourly(&self.hourly, now);
        self.raw = raw;
        self.hourly = hourly;
    }
}

/// Rolling up the same hour twice leaves exactly one row per rewritten key, with the
/// same summary after the first and after the second run.
pub proof fn lemma_aggregate_hourly_idempotent(
    a: TimeSeriesStore,
    b: TimeSeriesStore,
    c: TimeSeriesStore,
    as_of: u64,
    sid: Seq<char>,
)
    requires
        TimeSeriesStore::hourly_rolled(a, b, as_of),
        TimeSeriesStore::hourly_rolled(b, c, as_of),
        hourly_rewrites(a.raw@, as_of, sid, prev_hour_start(as_of)),
    ensures
        has_row(b.hourly@, sid, prev_hour_start(as_of), hour_stats_of(a.raw@, sid, prev_hour_start(as_of))),
        has_row(c.hourly@, sid, prev_hour_start(as_of), hour_stats_of(a.raw@, sid, prev_hour_start(as_of))),
        forall|j: int|
            0 <= j < c.hourly@.len() && same_key(#[trigger] c.hourly@[j], sid, prev_hour_start(as_of))
                ==> c.hourly@[j].stats == hour_stats_of(a.raw@, sid, prev_hour_start(as_of)),
        forall|j1: int, j2: int|
            0 <= j1 < c.hourly@.len() && 0 <= j2 < c.hourly@.len()
                && same_key(#[trigger] c.hourly@[j1], sid, prev_hour_start(as_of))
                && same_key(#[trigger] c.hourly@[j2], sid, prev_hour_start(as_of)) ==> j1 == j2,
{
    let start = prev_hour_start(as_of);
    assert(hourly_rewrites(b.raw@, as_of, sid, start));
    assert forall|j: int|
        0 <= j < c.hourly@.len() && same_key(#[trigger] c.hourly@[j], sid, start)
            implies c.hourly@[j].stats == hour_stats_of(a.raw@, sid, start) by {
        assert(hourly_rewrites(b.raw@, as_of, c.hourly@[j].server_id@, c.hourly@[j].start));
    }
    assert forall|j1: int, j2: int|
        0 <= j1 < c.hourly@.len() && 0 <= j2 < c.hourly@.len()
            && same_key(#[trigger] c.hourly@[j1], sid, start)
            && same_key(#[trigger] c.hourly@[j2], sid, start) implies j1 == j2 by {
        if j1 < j2 {
            assert(!same_key(c.hourly@[j1], c.hourly@[j2].server_id@, c.hourly@[j2].start));
        } else if j2 < j1 {
            assert(!same_key(c.hourly@[j2], c.hourly@[j1].server_id@, c.hourly@[j1].start));
        }
    }
}

/// Rolling up the same day twice leaves exactly one row per rewritten key, with the
/// same summary after the first and after the second run.
pub proof fn lemma_aggregate_daily_idempotent(
    a: TimeSeriesStore,
    b: TimeSeriesStore,
    c: TimeSeriesStore,
    as_of: u64,
    sid: Seq<char>,
)
    requires
        TimeSeriesStore::daily_rolled(a, b, as_of),
        TimeSeriesStore::daily_rolled(b, c, as_of),
        daily_rewrites(a.hourly@, as_of, sid, prev_day_start(as_of)),
    ensures
        has_row(b.daily@, sid, prev_day_start(as_of), day_stats_of(a.hourly@, sid, prev_day_start(as_of))),
        has_row(c.daily@, sid, prev_day_start(as_of), day_stats_of(a.hourly@, sid, prev_day_start(as_of))),
        forall|j: int|
            0 <= j < c.daily@.len() && same_key(#[trigger] c.daily@[j], sid, prev_day_start(as_of))
                ==> c.daily@[j].stats == day_stats_of(a.hourly@, sid, prev_day_start(as_of)),
        forall|j1: int, j2: int|
            0 <= j1 < c.daily@.len() && 0 <= j2 < c.daily@.len()
                && same_key(#[trigger] c.daily@[j1], sid, prev_day_start(as_of))
                && same_key(#[trigger] c.daily@[j2], sid, prev_day_start(as_of)) ==> j1 == j2,
{
    let start = prev_day_start(as_of);
    assert(daily_rewrites(b.hourly@, as_of, sid, start));
    assert forall|j: int|
        0 <= j < c.daily@.len() && same_key(#[trigger] c.daily@[j], sid, start)
            implies c.daily@[j].stats == day_stats_of(a.hourly@, sid, start) by {
        assert(daily_rewrites(b.hourly@, as_of, c.daily@[j].server_id@, c.daily@[j].start));
    }
    assert forall|j1: int, j2: int|
        0 <= j1 < c.daily@.len() && 0 <= j2 < c.daily@.len()
            && same_key(#[trigger] c.daily@[j1], sid, start)
            && same_key(#[trigger] c.daily@[j2], sid, start) implies j1 == j2 by {
        if j1 < j2 {
            assert(!same_key(c.daily@[j1], c.daily@[j2].server_id@, c.daily@[j2].start));
        } else if j2 < j1 {
            assert(!same_key(c.daily@[j2], c.daily@[j1].server_id@, c.daily@[j1].start));
        }
    }
}

/// After eviction at `now` no raw row is older than a day, no hourly row is older than
/// thirty days, and the daily tier is exactly as before.
pub proof fn lemma_evict_leaves_no_stale_rows(a: TimeSeriesStore, b: TimeSeriesStore, now: u64)
    requires
        TimeSeriesStore::evicted(a, b, now),
    ensures
        forall|j: int| 0 <= j < b.raw@.len() ==> #[trigger] b.raw@[j].timestamp + RAW_RETENTION_SECS >= now,
        forall|j: int| 0 <= j < b.hourly@.len() ==> #[trigger] b.hourly@[j].start + HOURLY_RETENTION_SECS >= now,
        b.daily@ == a.daily@,
{
    assert forall|j: int| 0 <= j < b.raw@.len() implies #[trigger] b.raw@[j].timestamp + RAW_RETENTION_SECS >= now by {
        a.raw@.lemma_filter_pred(raw_kept(now), j);
    }
    assert forall|j: int| 0 <= j < b.hourly@.len() implies #[trigger] b.hourly@[j].start + HOURLY_RETENTION_SECS >= now by {
        a.hourly@.lemma_filter_pred(hourly_kept(now), j);
    }
}

/// Keeping what a filter keeps a second time keeps everything.
proof fn lemma_filter_twice<A>(s: Seq<A>, keep: spec_fn(A) -> bool)
    ensures
        s.filter(keep).filter(keep) == s.filter(keep),
    decreases s.len(),
{
    reveal(Seq::filter);
    if s.len() > 0 {
        lemma_filter_twice(s.drop_last(), keep);
        let f = s.drop_last().filter(keep);
        if keep(s.last()) {
            assert(f.push(s.last()).drop_last() =~= f);
        }
    }
}

/// Cleaning up twice at the same instant leaves the store as the first cleanup did.
pub proof fn lemma_cleanup_idempotent(a: TimeSeriesStore, b: TimeSeriesStore, c: TimeSeriesStore, now: u64)
    requires
        TimeSeriesStore::evicted(a, b, now),
        TimeSeriesStore::evicted(b, c, now),
    ensures
        c.raw@ == b.raw@,
        c.hourly@ == b.hourly@,
        c.daily@ == b.daily@,
{
    lemma_filter_twice(a.raw@, raw_kept(now));
    lemma_filter_twice(a.hourly@, hourly_kept(now));
}

} // verus!
