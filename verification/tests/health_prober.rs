use proxy::{BoundedQueue, HealthDataPoint, HealthProber, Timestamp, DATA_RECORD_LENGTH};

fn point(id: &str, bytes: u32, at: i64) -> HealthDataPoint {
    HealthDataPoint {
        id: id.to_string(),
        ingress_addresses: vec!["127.0.0.1:8080".to_string()],
        egress_addresses: vec!["127.0.0.1:9090".to_string()],
        bytes_sent: bytes,
        timestamp: Timestamp { secs: at, nanos: 7 },
    }
}

#[test]
fn unknown_id_has_no_points() {
    let p = HealthProber::new();
    assert!(p.get_points("a").is_none());
    assert!(p.points_for("a").is_empty());
    assert!(p.summary().is_empty());
}

#[test]
fn inserted_points_come_back_in_order() {
    let mut p = HealthProber::new();
    p.insert(point("a", 10, 1));
    p.insert(point("b", 5, 2));
    p.insert(point("a", 20, 3));
    let a = p.get_points("a").unwrap();
    assert_eq!(a.len(), 2);
    assert_eq!(a[0].bytes_sent, 10);
    assert_eq!(a[1].bytes_sent, 20);
    assert_eq!(a[1].timestamp, Timestamp { secs: 3, nanos: 7 });
    assert_eq!(a[1].egress_addresses, vec!["127.0.0.1:9090".to_string()]);
    let b = p.points_for("b");
    assert_eq!(b.len(), 1);
    assert_eq!(b[0].id, "b");
}

#[test]
fn summary_totals_bytes_per_id() {
    let mut p = HealthProber::new();
    p.insert(point("a", 10, 1));
    p.insert(point("b", u32::MAX, 2));
    p.insert(point("a", 20, 3));
    p.insert(point("b", u32::MAX, 4));
    let mut s = p.summary();
    s.sort();
    assert_eq!(s, vec![("a".to_string(), 30), ("b".to_string(), 2 * u32::MAX as u64)]);
}

#[test]
fn record_keeps_newest_points() {
    let mut p = HealthProber::new();
    for i in 0..(DATA_RECORD_LENGTH as i64 + 5) {
        p.insert(point("a", 1, i));
    }
    let a = p.get_points("a").unwrap();
    assert_eq!(a.len(), DATA_RECORD_LENGTH);
    assert_eq!(a[0].timestamp.secs, 5);
    assert_eq!(a[DATA_RECORD_LENGTH - 1].timestamp.secs, DATA_RECORD_LENGTH as i64 + 4);
    assert_eq!(p.summary(), vec![("a".to_string(), DATA_RECORD_LENGTH as u64)]);
}

#[test]
fn with_queue_sees_the_record() {
    let mut p = HealthProber::new();
    p.insert(point("a", 4, 1));
    p.insert(point("a", 6, 2));
    let total = p.with_queue("a", |q: Option<&BoundedQueue<HealthDataPoint>>| {
        q.map(|q| q.iter().map(|d| d.bytes_sent as u64).sum::<u64>())
    });
    assert_eq!(total, Some(10));
    let missing = p.with_queue("z", |q: Option<&BoundedQueue<HealthDataPoint>>| q.is_none());
    assert!(missing);
}

#[test]
fn data_point_clone_is_equal() {
    let d = point("a", 3, 9);
    let c = d.clone();
    assert_eq!(c.id, d.id);
    assert_eq!(c.ingress_addresses, d.ingress_addresses);
    assert_eq!(c.bytes_sent, 3);
    assert_eq!(c.timestamp, Timestamp { secs: 9, nanos: 7 });
}
