use vstats::store::{
    day_stats, hour_stats, mean_latency, raw_row, RawRow, SampleFigures, TimeSeriesStore,
};

const HOUR: u64 = 3600;
const DAY: u64 = 86400;

fn row(sid: &str, ts: u64, cpu: u64, rx: u64) -> RawRow {
    RawRow {
        server_id: sid.to_string(),
        timestamp: ts,
        cpu_usage: cpu,
        memory_usage: cpu * 2,
        disk_usage: 50,
        net_rx: rx,
        net_tx: rx / 2,
        load_1: 1,
        load_5: 2,
        load_15: 3,
        ping_us: None,
    }
}

fn filled_store(base: u64) -> TimeSeriesStore {
    let mut s = TimeSeriesStore::new();
    for (k, cpu) in (10u64..=34).enumerate() {
        s.append(row("s1", base + k as u64 * 140, cpu, 1000 + k as u64 * 10));
    }
    s
}

#[test]
fn hourly_rollup_of_twenty_five_rows() {
    let base = 100 * HOUR;
    let mut s = filled_store(base);
    s.aggregate_hourly(base + HOUR + 5);
    assert_eq!(s.hourly.len(), 1);
    let h = &s.hourly[0];
    assert_eq!(h.server_id, "s1");
    assert_eq!(h.start, base);
    assert_eq!(h.stats.cpu_avg, 22);
    assert_eq!(h.stats.cpu_max, 34);
    assert_eq!(h.stats.sample_count, 25);
    assert_eq!(h.stats.memory_avg, 44);
    assert_eq!(h.stats.memory_max, 68);
    assert_eq!(h.stats.net_rx_total, 240);
    assert_eq!(h.stats.net_tx_total, 120);
}

#[test]
fn hourly_rollup_twice_is_idempotent() {
    let base = 100 * HOUR;
    let mut s = filled_store(base);
    s.aggregate_hourly(base + HOUR);
    let first = s.hourly[0].stats;
    s.aggregate_hourly(base + HOUR + 1800);
    assert_eq!(s.hourly.len(), 1);
    assert_eq!(s.hourly[0].stats, first);
}

#[test]
fn hourly_rollup_groups_by_server_and_skips_other_hours() {
    let base = 10 * HOUR;
    let mut s = TimeSeriesStore::new();
    s.append(row("a", base + 10, 10, 0));
    s.append(row("b", base + 20, 30, 0));
    s.append(row("a", base + 30, 20, 0));
    s.append(row("a", base + HOUR, 90, 0));
    s.aggregate_hourly(base + HOUR + 59);
    assert_eq!(s.hourly.len(), 2);
    let a = s.hourly.iter().find(|h| h.server_id == "a").unwrap();
    let b = s.hourly.iter().find(|h| h.server_id == "b").unwrap();
    assert_eq!((a.stats.cpu_avg, a.stats.sample_count), (15, 2));
    assert_eq!((b.stats.cpu_avg, b.stats.sample_count), (30, 1));
}

#[test]
fn rollups_before_first_window_do_nothing() {
    let mut s = TimeSeriesStore::new();
    s.append(row("a", 10, 10, 0));
    s.aggregate_hourly(HOUR - 1);
    s.aggregate_daily(DAY - 1);
    assert!(s.hourly.is_empty());
    assert!(s.daily.is_empty());
}

#[test]
fn daily_rollup_summarises_hours() {
    let day = 20 * DAY;
    let mut s = TimeSeriesStore::new();
    for h in 0..6u64 {
        s.append(row("s1", day + h * HOUR + 5, 10 + h * 10, 100 * h));
        s.append(row("s1", day + h * HOUR + 65, 10 + h * 10, 100 * h + 40));
        s.aggregate_hourly(day + (h + 1) * HOUR);
    }
    assert_eq!(s.hourly.len(), 6);
    s.aggregate_daily(day + DAY + 100);
    assert_eq!(s.daily.len(), 1);
    let d = &s.daily[0];
    assert_eq!(d.start, day);
    assert_eq!(d.stats.cpu_avg, 35);
    assert_eq!(d.stats.cpu_max, 60);
    assert_eq!(d.stats.net_rx_total, 240);
    assert_eq!(d.stats.sample_count, 12);
    // 6 of 24 hours: 25.00 %
    assert_eq!(d.stats.uptime_percent, 2500);
    s.aggregate_daily(day + DAY + 200);
    assert_eq!(s.daily.len(), 1);
}

#[test]
fn cleanup_drops_old_raw_and_hourly_rows_only() {
    let now = 100 * DAY;
    let mut s = TimeSeriesStore::new();
    s.append(row("a", now - DAY - 1, 1, 0));
    s.append(row("a", now - DAY, 2, 0));
    s.append(row("a", now - 10, 3, 0));
    s.aggregate_hourly(now - 40 * DAY);
    s.aggregate_daily(now - 40 * DAY);
    let mut old = TimeSeriesStore::new();
    old.append(row("a", now - 31 * DAY, 1, 0));
    old.aggregate_hourly(now - 31 * DAY + HOUR);
    assert_eq!(old.hourly.len(), 1);
    s.hourly.push(vstats::store::Rollup { server_id: "a".to_string(), start: old.hourly[0].start, stats: old.hourly[0].stats });
    s.hourly.push(vstats::store::Rollup { server_id: "a".to_string(), start: now - 5 * DAY, stats: old.hourly[0].stats });
    s.daily.push(vstats::store::Rollup { server_id: "a".to_string(), start: 0, stats: day_stats(&Vec::new(), &"a".to_string(), 0) });
    s.cleanup_old_data(now);
    let kept: Vec<u64> = s.raw.iter().map(|r| r.timestamp).collect();
    assert_eq!(kept, vec![now - DAY, now - 10]);
    assert_eq!(s.hourly.len(), 1);
    assert_eq!(s.hourly[0].start, now - 5 * DAY);
    assert_eq!(s.daily.len(), 1);
}

#[test]
fn hour_stats_of_empty_window_is_zero() {
    let rows = vec![row("a", 5000, 10, 0)];
    let st = hour_stats(&rows, &"b".to_string(), 3600);
    assert_eq!(st.sample_count, 0);
    assert_eq!(st.cpu_avg, 0);
    assert_eq!(st.net_rx_total, 0);
}

#[test]
fn mean_latency_skips_unmeasured_targets() {
    assert_eq!(mean_latency(&vec![Some(1000), None, Some(3001)]), Some(2000));
    assert_eq!(mean_latency(&vec![None, None]), None);
    assert_eq!(mean_latency(&vec![]), None);
}

#[test]
fn raw_row_takes_first_disk_and_mean_ping() {
    let f = SampleFigures {
        timestamp: 77,
        cpu_usage: 1234,
        memory_usage: 5000,
        disk_usages: vec![4200, 9000],
        net_rx: 10,
        net_tx: 20,
        load_1: 150,
        load_5: 100,
        load_15: 50,
        latencies: vec![Some(10), Some(20)],
    };
    let r = raw_row(&"srv".to_string(), &f);
    assert_eq!(r.server_id, "srv");
    assert_eq!(r.disk_usage, 4200);
    assert_eq!(r.ping_us, Some(15));
    let mut s = TimeSeriesStore::new();
    s.store_metrics(&"srv".to_string(), &SampleFigures { disk_usages: vec![], latencies: vec![], ..f });
    assert_eq!(s.raw[0].disk_usage, 0);
    assert_eq!(s.raw[0].ping_us, None);
    assert_eq!(s.raw[0].cpu_usage, 1234);
}
