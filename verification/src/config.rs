use crate::text::{decimal, push_decimal};
use vstd::prelude::*;
use vstd::string::*;

verus! {

/// How an instance treats its traffic.
#[derive(Clone, Copy, Debug, PartialEq, Eq, Structural)]
pub enum OperatingMode {
    LoadBalancer,
    ReverseProxy,
    Proxy,
}

/// A socket address, held as the host part of its text form (for IPv6
/// within its brackets) and the port.
#[derive(Debug)]
pub struct SocketAddress {
    pub host: String,
    pub port: u16,
}

impl Clone for SocketAddress {
    fn clone(&self) -> (r: Self)
        ensures
            r == *self,
    {
        SocketAddress { host: self.host.clone(), port: self.port }
    }
}

impl SocketAddress {
    /// The text form: the host, a colon and the port in decimal.
    pub open spec fn text(&self) -> Seq<char> {
        self.host@ + seq![':'] + decimal(self.port as nat)
    }

    pub fn new(host: String, port: u16) -> (r: SocketAddress)
        ensures
            r.host == host,
            r.port == port,
    {
        SocketAddress { host, port }
    }

    pub fn port(&self) -> (r: u16)
        ensures
            r == self.port,
    {
        self.port
    }

    /// The text form of the address, as in `127.0.0.1:8080`.
    pub fn to_string(&self) -> (r: String)
        ensures
            r@ == self.text(),
    {
        let mut s = self.host.clone();
        proof {
            reveal_strlit(":");
        }
        s.append(":");
        push_decimal(&mut s, self.port as u64);
        assert(s@ =~= self.text());
        s
    }
}

/// Copies a list of addresses.
pub fn clone_addresses(v: &Vec<SocketAddress>) -> (r: Vec<SocketAddress>)
    ensures
        r@ == v@,
{
    let mut r: Vec<SocketAddress> = Vec::new();
    let mut i: usize = 0;
    while i < v.len()
        invariant
            i <= v.len(),
            r@ == v@.take(i as int),
        decreases v.len() - i,
    {
        r.push(v[i].clone());
        i = i + 1;
        assert(r@ =~= v@.take(i as int));
    }
    assert(v@.take(v.len() as int) =~= v@);
    r
}

/// One relay instance of the configuration.
#[derive(Debug)]
pub struct Instance {
    pub name: String,
    pub ttl: u64,
    pub operating_mode: OperatingMode,
    pub ingress_addresses: Vec<SocketAddress>,
    pub egress_addresses: Vec<SocketAddress>,
}

impl Clone for Instance {
    fn clone(&self) -> (r: Self)
        ensures
            r.name == self.name,
            r.ttl == self.ttl,
            r.operating_mode == self.operating_mode,
            r.ingress_addresses@ == self.ingress_addresses@,
            r.egress_addresses@ == self.egress_addresses@,
    {
        let r = Instance {
            name: self.name.clone(),
            ttl: self.ttl,
            operating_mode: self.operating_mode,
            ingress_addresses: clone_addresses(&self.ingress_addresses),
            egress_addresses: clone_addresses(&self.egress_addresses),
        };
        r
    }
}

impl Default for Instance {
    /// An unnamed instance in proxy mode with a ttl of 30000 and no addresses.
    fn default() -> (r: Self)
        ensures
            r.name@ == Seq::<char>::empty(),
            r.ttl == 30000,
            r.operating_mode == OperatingMode::Proxy,
            r.ingress_addresses@ == Seq::<SocketAddress>::empty(),
            r.egress_addresses@ == Seq::<SocketAddress>::empty(),
    {
        Instance {
            name: String::new(),
            ttl: 30000,
            operating_mode: OperatingMode::Proxy,
            ingress_addresses: Vec::new(),
            egress_addresses: Vec::new(),
        }
    }
}

/// The whole configuration: its instances, in order.
#[derive(Clone, Debug)]
pub struct Config {
    pub instances: Vec<Instance>,
}

/// Why a configuration was refused.
#[derive(Debug)]
pub enum ConfigError {
    /// Two instances of different names listen on one ingress port.
    IngressPortConflict { port: u16, name: String, other: String },
    /// Two instances of different names use one egress port.
    EgressPortConflict { port: u16, name: String, other: String },
    /// An egress port is also an ingress port.
    PortOverlap { port: u16 },
    /// An ingress port is below 1024.
    IngressPortBelow1024,
    /// An egress port is below 1024.
    EgressPortBelow1024,
}

/// A `ConfigError` with its names as character sequences.
pub enum ConfigErrorView {
    IngressPortConflict { port: u16, name: Seq<char>, other: Seq<char> },
    EgressPortConflict { port: u16, name: Seq<char>, other: Seq<char> },
    PortOverlap { port: u16 },
    IngressPortBelow1024,
    EgressPortBelow1024,
}

impl View for ConfigError {
    type V = ConfigErrorView;

    open spec fn view(&self) -> ConfigErrorView {
        match self {
            ConfigError::IngressPortConflict { port, name, other } => {
                ConfigErrorView::IngressPortConflict { port: *port, name: name@, other: other@ }
            },
            ConfigError::EgressPortConflict { port, name, other } => {
                ConfigErrorView::EgressPortConflict { port: *port, name: name@, other: other@ }
            },
            ConfigError::PortOverlap { port } => ConfigErrorView::PortOverlap { port: *port },
            ConfigError::IngressPortBelow1024 => ConfigErrorView::IngressPortBelow1024,
            ConfigError::EgressPortBelow1024 => ConfigErrorView::EgressPortBelow1024,
        }
    }
}

impl ConfigErrorView {
    /// The text that reports the error.
    pub open spec fn message(self) -> Seq<char> {
        match self {
            ConfigErrorView::IngressPortConflict { port, name, other } => "Ingress port "@ + decimal(
                port as nat,
            ) + " on '"@ + name + "' conflicts with '"@ + other + "'"@,
            ConfigErrorView::EgressPortConflict { port, name, other } => "Egress port "@ + decimal(
                port as nat,
            ) + " on '"@ + name + "' conflicts with '"@ + other + "'"@,
            ConfigErrorView::PortOverlap { port } => "Ingress and egress port overlap at "@
                + decimal(port as nat),
            ConfigErrorView::IngressPortBelow1024 => "Ingress ports shouldn't be below 1024"@,
            ConfigErrorView::EgressPortBelow1024 => "Egress ports shouldn't be below 1024"@,
        }
    }
}

fn conflict_message(prefix: &str, port: u16, name: &String, other: &String) -> (r: String)
    ensures
        r@ == prefix@ + decimal(port as nat) + " on '"@ + name@ + "' conflicts with '"@ + other@
            + "'"@,
{
    let mut s = String::new();
    s.append(prefix);
    push_decimal(&mut s, port as u64);
    s.append(" on '");
    s.append(name.as_str());
    s.append("' conflicts with '");
    s.append(other.as_str());
    s.append("'");
    assert(s@ =~= prefix@ + decimal(port as nat) + " on '"@ + name@ + "' conflicts with '"@
        + other@ + "'"@);
    s
}

impl ConfigError {
    /// The text that reports the error.
    pub fn message(&self) -> (r: String)
        ensures
            r@ == self@.message(),
    {
        match self {
            ConfigError::IngressPortConflict { port, name, other } => {
                conflict_message("Ingress port ", *port, name, other)
            },
            ConfigError::EgressPortConflict { port, name, other } => {
                conflict_message("Egress port ", *port, name, other)
            },
            ConfigError::PortOverlap { port } => {
                let mut s = String::new();
                s.append("Ingress and egress port overlap at ");
                push_decimal(&mut s, *port as u64);
                assert(s@ =~= "Ingress and egress port overlap at "@ + decimal(*port as nat));
                s
            },
            ConfigError::IngressPortBelow1024 => {
                String::from_str("Ingress ports shouldn't be below 1024")
            },
            ConfigError::EgressPortBelow1024 => {
                String::from_str("Egress ports shouldn't be below 1024")
            },
        }
    }
}

} // verus!
