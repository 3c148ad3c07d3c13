use pi_dash::history::{bucket_timestamp, HistoryStore, Resolution};
use pi_dash::model::{
    CpuStats, DiskStats, HistoryPoint, HistoryQuery, MemoryStats, SystemStats, TempGroup,
};

const BASE: i64 = 1_699_999_980; // a minute boundary

fn point(ts: i64, cpu: u32) -> HistoryPoint {
    HistoryPoint {
        timestamp: ts,
        cpu_percent: cpu,
        cpu_freq: 1000,
        cpu_temp: None,
        mem_percent: 5000,
        disk_percent: 2500,
        temperatures: Vec::new(),
    }
}

#[test]
fn day_series_scenario() {
    let mut store = HistoryStore::new();
    store.push_at(point(BASE + 10, 1000), BASE + 10);
    store.push_at(point(BASE + 40, 2000), BASE + 40);
    store.push_at(point(BASE + 65, 3000), BASE + 65);
    let day = store.get_day();
    assert_eq!(day.len(), 2);
    assert_eq!(day[0].timestamp, BASE);
    assert_eq!(day[0].cpu_percent, 1500);
    assert_eq!(day[1].timestamp, BASE + 60);
    assert_eq!(day[1].cpu_percent, 3000);
    assert_eq!(store.get_raw().len(), 3);
}

#[test]
fn same_minute_bucket_is_mean() {
    let mut store = HistoryStore::new();
    store.push_at(point(BASE + 1, 1010), BASE + 1);
    store.push_at(point(BASE + 59, 1020), BASE + 59);
    let day = store.get_day();
    assert_eq!(day.len(), 1);
    assert_eq!(day[0].cpu_percent, 1015);
    assert_eq!(day[0].mem_percent, 5000);
    assert_eq!(day[0].cpu_freq, 1000);
}

#[test]
fn raw_series_keeps_five_minutes() {
    let mut store = HistoryStore::new();
    for k in 0..400i64 {
        store.push_at(point(BASE + k, 100), BASE + k);
    }
    let raw = store.get_raw();
    // points from the last 300 seconds, both ends included
    assert_eq!(raw.len(), 301);
    assert_eq!(raw[0].timestamp, BASE + 99);
    assert_eq!(raw[300].timestamp, BASE + 399);
}

#[test]
fn truncation_is_stable_within_a_slot() {
    for t in BASE..BASE + 60 {
        assert_eq!(bucket_timestamp(t, 60), BASE);
    }
    assert_eq!(bucket_timestamp(BASE + 60, 60), BASE + 60);
    assert_eq!(bucket_timestamp(BASE + 899, 900), 1_700_000_100);
    assert_eq!(bucket_timestamp(1_699_999_200 + 899, 900), 1_699_999_200);
    assert_eq!(bucket_timestamp(-1, 60), -60);
    assert_eq!(bucket_timestamp(i64::MIN, 60), i64::MIN);
}

#[test]
fn week_series_uses_quarter_hours() {
    let mut store = HistoryStore::new();
    store.push_at(point(1_699_999_200, 1000), 1_699_999_200);
    store.push_at(point(1_699_999_200 + 899, 3000), 1_699_999_200 + 899);
    store.push_at(point(1_699_999_200 + 900, 500), 1_699_999_200 + 900);
    let week = store.get_week();
    assert_eq!(week.len(), 2);
    assert_eq!(week[0].cpu_percent, 2000);
    assert_eq!(week[1].cpu_percent, 500);
    assert_eq!(store.get_day().len(), 3);
}

#[test]
fn old_buckets_are_pruned() {
    let mut store = HistoryStore::new();
    store.push_at(point(BASE, 1000), BASE);
    store.push_at(point(BASE + 86400 + 60, 2000), BASE + 86400 + 60);
    let day = store.get_day();
    assert_eq!(day.len(), 1);
    assert_eq!(day[0].cpu_percent, 2000);
    assert_eq!(store.get_week().len(), 2);
    assert_eq!(store.get_raw().len(), 1);
}

#[test]
fn temperature_mean_counts_only_reporting_points() {
    let mut store = HistoryStore::new();
    let mut a = point(BASE, 0);
    a.cpu_temp = Some(4000);
    let b = point(BASE + 1, 0);
    let mut c = point(BASE + 2, 0);
    c.cpu_temp = Some(5001);
    c.temperatures = vec![TempGroup { label: "SOC".to_string(), temperature: 5000 }];
    store.push_at(a, BASE);
    store.push_at(b, BASE + 1);
    store.push_at(c, BASE + 2);
    let day = store.get_day();
    assert_eq!(day[0].cpu_temp, Some(4500));
    assert_eq!(day[0].temperatures.len(), 1);
    assert_eq!(day[0].temperatures[0].label, "SOC");

    let mut none = HistoryStore::new();
    none.push_at(point(BASE, 0), BASE);
    assert_eq!(none.get_day()[0].cpu_temp, None);
}

#[test]
fn negative_temperatures_average_down() {
    let mut store = HistoryStore::new();
    let mut a = point(BASE, 0);
    a.cpu_temp = Some(-5);
    let mut b = point(BASE + 1, 0);
    b.cpu_temp = Some(-10);
    store.push_at(a, BASE);
    store.push_at(b, BASE + 1);
    assert_eq!(store.get_day()[0].cpu_temp, Some(-8));
}

#[test]
fn resolution_tags() {
    assert_eq!(Resolution::from_tag(Some("raw")), Resolution::Raw);
    assert_eq!(Resolution::from_tag(Some("week")), Resolution::Week);
    assert_eq!(Resolution::from_tag(Some("day")), Resolution::Day);
    assert_eq!(Resolution::from_tag(Some("month")), Resolution::Day);
    assert_eq!(Resolution::from_tag(None), Resolution::Day);
}

#[test]
fn respond_echoes_the_tag() {
    let mut store = HistoryStore::new();
    store.push_at(point(BASE + 1, 1000), BASE + 1);
    store.push_at(point(BASE + 2, 3000), BASE + 2);
    let r = store.respond(&HistoryQuery { range: Some("raw".to_string()) });
    assert_eq!(r.range, "raw");
    assert_eq!(r.points.len(), 2);
    let r = store.respond(&HistoryQuery { range: Some("bogus".to_string()) });
    assert_eq!(r.range, "bogus");
    assert_eq!(r.points.len(), 1);
    assert_eq!(r.points[0].cpu_percent, 2000);
    let r = store.respond(&HistoryQuery { range: None });
    assert_eq!(r.range, "day");
    assert_eq!(store.query(Resolution::Week).len(), 1);
}

#[test]
fn push_takes_a_snapshot() {
    let mut store = HistoryStore::new();
    assert!(store.has_room());
    let stats = SystemStats {
        timestamp: BASE,
        cpu: CpuStats { usage_percent: 1230, frequency_mhz: 1800, temperature: Some(4210) },
        memory: MemoryStats { usage_percent: 5000, total_bytes: 8, free_bytes: 4, used_bytes: 4 },
        disk: DiskStats { usage_percent: 7500, used_bytes: 3, available_bytes: 1, total_bytes: 4 },
        temperatures: vec![TempGroup { label: "SOC".to_string(), temperature: 4210 }],
    };
    let p = HistoryPoint::from_stats(&stats);
    assert_eq!(p.cpu_percent, 1230);
    assert_eq!(p.cpu_freq, 1800);
    assert_eq!(p.cpu_temp, Some(4210));
    assert_eq!(p.mem_percent, 5000);
    assert_eq!(p.disk_percent, 7500);
    assert_eq!(p.temperatures, stats.temperatures);
    store.push_at(p.copy(), BASE);
    assert_eq!(store.get_raw()[0], p);
    assert!(store.has_room());
}
