use proxy::{Instance, RelayAction, RelayContext, RelayEvent, RelayMeter, SocketAddress, Timestamp};

fn ctx() -> RelayContext {
    let inst = Instance {
        name: "edge".to_string(),
        ttl: 7,
        egress_addresses: vec![
            SocketAddress::new("127.0.0.1".to_string(), 9090),
            SocketAddress::new("[::1]".to_string(), 9091),
        ],
        ..Instance::default()
    };
    RelayContext::from_instance(&inst)
}

#[test]
fn context_copies_instance() {
    let c = ctx();
    assert_eq!(c.name, "edge");
    assert_eq!(c.ttl, 7);
    assert_eq!(c.egress_addresses.len(), 2);
}

#[test]
fn empty_read_finishes() {
    let mut m = RelayMeter::new();
    assert!(m.step(RelayEvent::Read { len: 0 }) == RelayAction::Finish);
    assert_eq!(m.bytes_sent, 0);
}

#[test]
fn read_is_forwarded_then_counted() {
    let mut m = RelayMeter::new();
    assert!(m.step(RelayEvent::Read { len: 100 }) == RelayAction::Forward { len: 100 });
    assert!(m.step(RelayEvent::Forwarded { len: 100, shutdown: false }) == RelayAction::ReadMore);
    assert!(m.step(RelayEvent::Forwarded { len: 50, shutdown: true }) == RelayAction::ShutDown);
    assert_eq!(m.bytes_sent, 150);
}

#[test]
fn count_saturates() {
    let mut m = RelayMeter { bytes_sent: u32::MAX - 10 };
    m.step(RelayEvent::Forwarded { len: 4096, shutdown: false });
    assert_eq!(m.bytes_sent, u32::MAX);
}

#[test]
fn data_point_records_relay() {
    let c = ctx();
    let ingress = SocketAddress::new("0.0.0.0".to_string(), 8080);
    let d = c.data_point(&ingress, 1234, Timestamp { secs: 42, nanos: 999_999_999 });
    assert_eq!(d.id, "edge");
    assert_eq!(d.ingress_addresses, vec!["0.0.0.0:8080".to_string()]);
    assert_eq!(d.egress_addresses, vec!["127.0.0.1:9090".to_string(), "[::1]:9091".to_string()]);
    assert_eq!(d.bytes_sent, 1234);
    assert_eq!(d.timestamp, Timestamp { secs: 42, nanos: 999_999_999 });
}

