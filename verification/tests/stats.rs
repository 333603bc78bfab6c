use open_promux::stats::{Counters, TrafficStats};

#[test]
fn records_and_aggregates_per_upstream_and_per_model() {
    let mut stats = TrafficStats::new();
    stats.record("a", "m1", true, 100, 200, 30);
    stats.record("a", "m1", true, 50, 80, 10);
    stats.record("a", "m2", false, 5, 0, 50);
    stats.record("b", "m1", true, 10, 20, 5);

    let snap = stats.snapshot(0);
    assert_eq!(snap.global.requests_total, 4);
    assert_eq!(snap.global.requests_success, 3);
    assert_eq!(snap.global.requests_error, 1);
    assert_eq!(snap.global.bytes_in, 165);
    assert_eq!(snap.global.bytes_out, 300);
    assert_eq!(snap.global.latency_ms_max, 50);

    assert_eq!(snap.upstreams.len(), 2);
    let a = &snap.upstreams.iter().find(|u| u.upstream == "a").unwrap().counters;
    assert_eq!(a.requests_total, 3);
    assert_eq!(a.requests_error, 1);

    assert_eq!(snap.models.len(), 3);
    let am1 = &snap
        .models
        .iter()
        .find(|m| m.upstream == "a" && m.model == "m1")
        .unwrap()
        .counters;
    assert_eq!(am1.requests_total, 2);
    assert_eq!(am1.bytes_in, 150);
}

#[test]
fn clear_resets_counters_but_keeps_buckets() {
    let mut stats = TrafficStats::new();
    stats.record("a", "m1", true, 1, 1, 1);
    stats.clear();
    let snap = stats.snapshot(0);
    assert_eq!(snap.global.requests_total, 0);
    // Buckets stay so the UI keeps its rows.
    assert_eq!(snap.upstreams.len(), 1);
    assert_eq!(snap.upstreams[0].counters.requests_total, 0);
}

#[test]
fn snapshot_lists_buckets_in_key_order() {
    let mut stats = TrafficStats::new();
    stats.record("zeta", "m", true, 0, 0, 1);
    stats.record("alpha", "y", true, 0, 0, 1);
    stats.record("alpha", "x", true, 0, 0, 1);
    let snap = stats.snapshot(7);
    assert_eq!(snap.uptime_seconds, 7);
    let names: Vec<_> = snap.upstreams.iter().map(|u| u.upstream.clone()).collect();
    assert_eq!(names, vec!["alpha".to_string(), "zeta".to_string()]);
    let pairs: Vec<_> = snap.models.iter().map(|m| (m.upstream.clone(), m.model.clone())).collect();
    assert_eq!(
        pairs,
        vec![
            ("alpha".to_string(), "x".to_string()),
            ("alpha".to_string(), "y".to_string()),
            ("zeta".to_string(), "m".to_string()),
        ]
    );
}

#[test]
fn average_latency_rounds_down_and_is_zero_before_any_request() {
    let mut c = Counters::new();
    assert_eq!(c.snapshot().latency_ms_avg, 0);
    c.record(true, 0, 0, 10);
    c.record(false, 0, 0, 5);
    let s = c.snapshot();
    assert_eq!(s.latency_ms_avg, 7);
    assert_eq!(s.latency_ms_max, 10);
    assert_eq!(s.requests_total, s.requests_success + s.requests_error);
}

#[test]
fn counters_wrap_around_like_atomic_counters() {
    let mut c = Counters::new();
    c.bytes_in = u64::MAX;
    c.record(true, 2, 0, 0);
    assert_eq!(c.bytes_in, 1);
}
