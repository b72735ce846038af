use proxy::{validate_config, Config, ConfigError, Instance, OperatingMode, SocketAddress};

fn address(text: &str) -> SocketAddress {
    let (host, port) = text.rsplit_once(':').expect("address without a port");
    SocketAddress::new(host.to_string(), port.parse().expect("bad port"))
}

fn addresses(value: Option<&toml::Value>) -> Vec<SocketAddress> {
    match value {
        Some(v) => v
            .as_array()
            .expect("addresses must be a list")
            .iter()
            .map(|a| address(a.as_str().expect("address must be a string")))
            .collect(),
        None => Vec::new(),
    }
}

fn mode(text: &str) -> OperatingMode {
    match text {
        "LoadBalancer" => OperatingMode::LoadBalancer,
        "ReverseProxy" => OperatingMode::ReverseProxy,
        "Proxy" => OperatingMode::Proxy,
        other => panic!("unknown operating mode {other}"),
    }
}

fn parse(toml: &str) -> Config {
    let table: toml::Table = toml::from_str(toml).expect("Failed to parse test config");
    let instances = table["instances"]
        .as_array()
        .expect("instances must be a list")
        .iter()
        .map(|v| {
            let t = v.as_table().expect("instance must be a table");
            let defaults = Instance::default();
            Instance {
                name: t["name"].as_str().expect("name").to_string(),
                ttl: t.get("ttl").map(|x| x.as_integer().expect("ttl") as u64).unwrap_or(defaults.ttl),
                operating_mode: mode(t["operating_mode"].as_str().expect("operating_mode")),
                ingress_addresses: addresses(t.get("ingress_addresses")),
                egress_addresses: addresses(t.get("egress_addresses")),
            }
        })
        .collect();
    Config { instances }
}

fn instance(name: &str, ingress: &[&str], egress: &[&str]) -> Instance {
    Instance {
        name: name.to_string(),
        ingress_addresses: ingress.iter().map(|a| address(a)).collect(),
        egress_addresses: egress.iter().map(|a| address(a)).collect(),
        ..Instance::default()
    }
}

#[test]
fn test_valid_config() {
    let cfg = parse(
        r#"instances = [
    {
        name = "Test",
        operating_mode = "Proxy",
        ingress_addresses = ["127.0.0.1:8080", "127.0.0.1:8081"],
        egress_addresses  = ["127.0.0.1:9090"],
    },
    ]"#,
    );
    assert!(matches!(
        cfg.instances.first().unwrap().operating_mode,
        OperatingMode::Proxy
    ));
    assert_eq!(
        cfg.instances.first().unwrap().ingress_addresses[0].port(),
        8080
    );
    assert_eq!(
        cfg.instances.first().unwrap().egress_addresses[0].port(),
        9090
    );
    assert!(validate_config(&cfg).is_ok());
}

#[test]
fn default_instance_is_an_unnamed_proxy() {
    let d = Instance::default();
    assert_eq!(d.name, "");
    assert_eq!(d.ttl, 30000);
    assert_eq!(d.operating_mode, OperatingMode::Proxy);
    assert!(d.ingress_addresses.is_empty());
    assert!(d.egress_addresses.is_empty());
}

#[test]
fn address_text_form() {
    assert_eq!(address("127.0.0.1:8080").to_string(), "127.0.0.1:8080");
    assert_eq!(address("[::1]:0").to_string(), "[::1]:0");
    assert_eq!(address("10.0.0.1:65535").to_string(), "10.0.0.1:65535");
}

#[test]
fn empty_config_is_valid() {
    assert!(validate_config(&Config { instances: vec![] }).is_ok());
}

#[test]
fn shared_port_with_same_name_is_valid() {
    let cfg = Config {
        instances: vec![
            instance("a", &["127.0.0.1:8080"], &["127.0.0.1:9090"]),
            instance("a", &["0.0.0.0:8080"], &["127.0.0.1:9090"]),
        ],
    };
    assert!(validate_config(&cfg).is_ok());
}

#[test]
fn ingress_conflict_is_reported() {
    let cfg = Config {
        instances: vec![
            instance("a", &["127.0.0.1:8080"], &[]),
            instance("b", &["127.0.0.1:8081", "127.0.0.1:8080"], &[]),
        ],
    };
    match validate_config(&cfg) {
        Err(e) => {
            assert!(matches!(
                &e,
                ConfigError::IngressPortConflict { port: 8080, name, other } if name == "b" && other == "a"
            ));
            assert_eq!(e.message(), "Ingress port 8080 on 'b' conflicts with 'a'");
        }
        Ok(()) => panic!("conflict not found"),
    }
}

#[test]
fn egress_conflict_is_reported() {
    let cfg = Config {
        instances: vec![
            instance("x", &[], &["127.0.0.1:9000"]),
            instance("y", &[], &["10.0.0.1:9000"]),
        ],
    };
    let e = validate_config(&cfg).unwrap_err();
    assert_eq!(e.message(), "Egress port 9000 on 'y' conflicts with 'x'");
}

#[test]
fn ingress_conflict_comes_before_egress_conflict() {
    let cfg = Config {
        instances: vec![
            instance("x", &["127.0.0.1:2000"], &["127.0.0.1:9000"]),
            instance("y", &["127.0.0.1:2000"], &["10.0.0.1:9000"]),
        ],
    };
    let e = validate_config(&cfg).unwrap_err();
    assert!(matches!(e, ConfigError::IngressPortConflict { port: 2000, .. }));
}

#[test]
fn overlap_is_reported_with_first_port() {
    let cfg = Config {
        instances: vec![
            instance("a", &["127.0.0.1:8080"], &["127.0.0.1:9090"]),
            instance("b", &["127.0.0.1:8081"], &["127.0.0.1:9091", "127.0.0.1:8081", "127.0.0.1:8080"]),
        ],
    };
    let e = validate_config(&cfg).unwrap_err();
    assert!(matches!(e, ConfigError::PortOverlap { port: 8081 }));
    assert_eq!(e.message(), "Ingress and egress port overlap at 8081");
}

#[test]
fn low_ingress_port_is_refused() {
    let cfg = Config { instances: vec![instance("a", &["127.0.0.1:80"], &["127.0.0.1:9090"])] };
    let e = validate_config(&cfg).unwrap_err();
    assert!(matches!(e, ConfigError::IngressPortBelow1024));
    assert_eq!(e.message(), "Ingress ports shouldn't be below 1024");
}

#[test]
fn low_egress_port_is_refused() {
    let cfg = Config { instances: vec![instance("a", &["127.0.0.1:8080"], &["127.0.0.1:1023"])] };
    let e = validate_config(&cfg).unwrap_err();
    assert!(matches!(e, ConfigError::EgressPortBelow1024));
    assert_eq!(e.message(), "Egress ports shouldn't be below 1024");
}

#[test]
fn overlap_comes_before_low_ports() {
    let cfg = Config { instances: vec![instance("a", &["127.0.0.1:80"], &["127.0.0.1:80"])] };
    assert!(matches!(validate_config(&cfg).unwrap_err(), ConfigError::PortOverlap { port: 80 }));
}

#[test]
fn first_failing_instance_decides() {
    let cfg = Config {
        instances: vec![
            instance("a", &["127.0.0.1:8080"], &["127.0.0.1:100"]),
            instance("b", &["127.0.0.1:10"], &["127.0.0.1:9090"]),
        ],
    };
    assert!(matches!(validate_config(&cfg).unwrap_err(), ConfigError::EgressPortBelow1024));
}

#[test]
fn from_instances_keeps_valid_config() {
    let c = Config::from_instances(vec![instance("a", &["127.0.0.1:8080"], &["127.0.0.1:9090"])]).unwrap();
    assert_eq!(c.instances.len(), 1);
    assert_eq!(c.instances[0].name, "a");
    assert!(Config::from_instances(vec![instance("a", &["127.0.0.1:80"], &[])]).is_err());
}

#[test]
fn instance_clone_keeps_fields() {
    let i = instance("a", &["127.0.0.1:8080"], &["127.0.0.1:9090"]);
    let c = i.clone();
    assert_eq!(c.name, "a");
    assert_eq!(c.ingress_addresses[0].port(), 8080);
    assert_eq!(c.egress_addresses[0].to_string(), "127.0.0.1:9090");
}
