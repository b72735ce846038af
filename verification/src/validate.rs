use crate::config::{Config, ConfigError, ConfigErrorView, Instance, SocketAddress};
use crate::validate_laws::{genuine_conflict, lemma_conflicts_are_genuine};
use std::collections::HashMap;
use vstd::prelude::*;

verus! {

broadcast use vstd::std_specs::hash::group_hash_axioms;

/// The ingress (`ingress == true`) or egress addresses of an instance.
pub open spec fn side(inst: Instance, ingress: bool) -> Seq<SocketAddress> {
    if ingress {
        inst.ingress_addresses@
    } else {
        inst.egress_addresses@
    }
}

/// The ports of `addrs`, each paired with `owner`.
pub open spec fn claims_of(addrs: Seq<SocketAddress>, owner: int) -> Seq<(u16, int)> {
    addrs.map_values(|a: SocketAddress| (a.port, owner))
}

/// Every port of one side of every instance, paired with the position of
/// its instance: instance by instance, address by address.
pub open spec fn port_claims(insts: Seq<Instance>, ingress: bool) -> Seq<(u16, int)>
    decreases insts.len(),
{
    if insts.len() == 0 {
        Seq::empty()
    } else {
        port_claims(insts.drop_last(), ingress) + claims_of(
            side(insts.last(), ingress),
            insts.len() - 1,
        )
    }
}

/// Hands the ports out in the order of `claims`; each port goes to its most
/// recent claimant. A claim on a port whose current owner has another name
/// stops the scan with (port, claimant, owner).
pub open spec fn claim_ports(insts: Seq<Instance>, claims: Seq<(u16, int)>) -> Result<
    Map<u16, int>,
    (u16, int, int),
>
    decreases claims.len(),
{
    if claims.len() == 0 {
        Ok(Map::empty())
    } else {
        match claim_ports(insts, claims.drop_last()) {
            Err(e) => Err(e),
            Ok(owners) => {
                let port = claims.last().0;
                let claimant = claims.last().1;
                if owners.contains_key(port) && insts[owners[port]].name@
                    != insts[claimant].name@ {
                    Err((port, claimant, owners[port]))
                } else {
                    Ok(owners.insert(port, claimant))
                }
            },
        }
    }
}

/// Position `k` holds the first egress address whose port is in `ports`.
pub open spec fn first_overlap(egress: Seq<SocketAddress>, ports: Set<u16>, k: int) -> bool {
    &&& 0 <= k < egress.len()
    &&& ports.contains(egress[k].port)
    &&& forall|j: int| 0 <= j < k ==> !ports.contains(#[trigger] egress[j].port)
}

/// Some address of `addrs` has a port below 1024.
pub open spec fn has_low_port(addrs: Seq<SocketAddress>) -> bool {
    exists|k: int| 0 <= k < addrs.len() && #[trigger] addrs[k].port < 1024
}

/// The port rules for one instance, given the set of all ingress ports:
/// no egress port is an ingress port, then no ingress port is below 1024,
/// then no egress port is below 1024.
pub open spec fn instance_rules(inst: Instance, ingress_ports: Set<u16>) -> Result<
    (),
    ConfigErrorView,
> {
    let egress = inst.egress_addresses@;
    if exists|k: int| first_overlap(egress, ingress_ports, k) {
        let k = choose|k: int| first_overlap(egress, ingress_ports, k);
        Err(ConfigErrorView::PortOverlap { port: egress[k].port })
    } else if has_low_port(inst.ingress_addresses@) {
        Err(ConfigErrorView::IngressPortBelow1024)
    } else if has_low_port(egress) {
        Err(ConfigErrorView::EgressPortBelow1024)
    } else {
        Ok(())
    }
}

/// The port rules applied instance by instance; the first failure counts.
pub open spec fn port_rules(insts: Seq<Instance>, ingress_ports: Set<u16>) -> Result<
    (),
    ConfigErrorView,
>
    decreases insts.len(),
{
    if insts.len() == 0 {
        Ok(())
    } else {
        match port_rules(insts.drop_last(), ingress_ports) {
            Err(e) => Err(e),
            Ok(_) => instance_rules(insts.last(), ingress_ports),
        }
    }
}

/// The outcome of validating a configuration with these instances:
/// ingress ports are handed out first, then egress ports, then the port
/// rules are applied with the set of all ingress ports.
pub open spec fn validation(insts: Seq<Instance>) -> Result<(), ConfigErrorView> {
    match claim_ports(insts, port_claims(insts, true)) {
        Err(e) => Err(
            ConfigErrorView::IngressPortConflict {
                port: e.0,
                name: insts[e.1].name@,
                other: insts[e.2].name@,
            },
        ),
        Ok(ingress_owners) => match claim_ports(insts, port_claims(insts, false)) {
            Err(e) => Err(
                ConfigErrorView::EgressPortConflict {
                    port: e.0,
                    name: insts[e.1].name@,
                    other: insts[e.2].name@,
                },
            ),
            Ok(_) => port_rules(insts, ingress_owners.dom()),
        },
    }
}

/// `m` holds the owners that `s` gives, with positions as `usize`.
pub open spec fn same_owners(m: Map<u16, usize>, s: Map<u16, int>) -> bool {
    &&& m.dom() == s.dom()
    &&& forall|p: u16| #[trigger] m.contains_key(p) ==> m[p] as int == s[p]
}

proof fn lemma_port_claims_step(insts: Seq<Instance>, i: int, ingress: bool)
    requires
        0 <= i < insts.len(),
    ensures
        port_claims(insts.take(i + 1), ingress) == port_claims(insts.take(i), ingress) + claims_of(
            side(insts[i], ingress),
            i,
        ),
{
    assert(insts.take(i + 1).drop_last() =~= insts.take(i));
}

/// An early stop of `claim_ports` is kept when more claims follow.
proof fn lemma_claim_ports_err_prefix(insts: Seq<Instance>, claims: Seq<(u16, int)>, n: int)
    requires
        0 <= n <= claims.len(),
        claim_ports(insts, claims.take(n)) is Err,
    ensures
        claim_ports(insts, claims) == claim_ports(insts, claims.take(n)),
    decreases claims.len() - n,
{
    if n < claims.len() {
        assert(claims.take(n + 1).drop_last() =~= claims.take(n));
        lemma_claim_ports_err_prefix(insts, claims, n + 1);
    } else {
        assert(claims.take(n) =~= claims);
    }
}

/// The claims of the first `n` instances come first among all claims.
proof fn lemma_port_claims_prefix(insts: Seq<Instance>, n: int, ingress: bool)
    requires
        0 <= n <= insts.len(),
    ensures
        port_claims(insts.take(n), ingress).len() <= port_claims(insts, ingress).len(),
        port_claims(insts, ingress).take(port_claims(insts.take(n), ingress).len() as int)
            == port_claims(insts.take(n), ingress),
    decreases insts.len(),
{
    if n == insts.len() {
        assert(insts.take(n) =~= insts);
        assert(port_claims(insts, ingress).take(port_claims(insts, ingress).len() as int)
            =~= port_claims(insts, ingress));
    } else {
        let d = insts.drop_last();
        assert(d.take(n) =~= insts.take(n));
        lemma_port_claims_prefix(d, n, ingress);
        let a = port_claims(insts.take(n), ingress);
        let b = port_claims(d, ingress);
        let c = claims_of(side(insts.last(), ingress), insts.len() - 1);
        assert((b + c).take(a.len() as int) =~= b.take(a.len() as int));
    }
}

/// Hands out the ports of one side of every instance, as `claim_ports` does.
fn claim_side(insts: &Vec<Instance>, ingress: bool) -> (r: Result<
    HashMap<u16, usize>,
    (u16, usize, usize),
>)
    ensures
        match r {
            Ok(m) => {
                &&& claim_ports(insts@, port_claims(insts@, ingress)) is Ok
                &&& same_owners(m@, claim_ports(insts@, port_claims(insts@, ingress))->Ok_0)
            },
            Err(e) => {
                &&& e.1 < insts@.len()
                &&& e.2 < insts@.len()
                &&& claim_ports(insts@, port_claims(insts@, ingress)) == Err::<
                    Map<u16, int>,
                    (u16, int, int),
                >((e.0, e.1 as int, e.2 as int))
            },
        },
{
    let mut owners: HashMap<u16, usize> = HashMap::new();
    let mut i: usize = 0;
    assert(insts@.take(0) =~= Seq::<Instance>::empty());
    while i < insts.len()
        invariant
            i <= insts@.len(),
            claim_ports(insts@, port_claims(insts@.take(i as int), ingress)) is Ok,
            same_owners(
                owners@,
                claim_ports(insts@, port_claims(insts@.take(i as int), ingress))->Ok_0,
            ),
            forall|p: u16| #[trigger] owners@.contains_key(p) ==> owners@[p] < i,
        decreases insts.len() - i,
    {
        let addrs = if ingress {
            &insts[i].ingress_addresses
        } else {
            &insts[i].egress_addresses
        };
        let ghost base = port_claims(insts@.take(i as int), ingress);
        let mut j: usize = 0;
        assert(base + claims_of(addrs@.take(0), i as int) =~= base);
        while j < addrs.len()
            invariant
                i < insts@.len(),
                addrs@ == side(insts@[i as int], ingress),
                base == port_claims(insts@.take(i as int), ingress),
                j <= addrs@.len(),
                claim_ports(insts@, base + claims_of(addrs@.take(j as int), i as int)) is Ok,
                same_owners(
                    owners@,
                    claim_ports(insts@, base + claims_of(addrs@.take(j as int), i as int))->Ok_0,
                ),
                forall|p: u16| #[trigger] owners@.contains_key(p) ==> owners@[p] <= i,
            decreases addrs.len() - j,
        {
            let ghost before = base + claims_of(addrs@.take(j as int), i as int);
            let ghost after = base + claims_of(addrs@.take(j + 1), i as int);
            let ghost spec_owners = claim_ports(insts@, before)->Ok_0;
            let port = addrs[j].port;
            assert(after =~= before.push((port, i as int)));
            assert(after.drop_last() =~= before);
            let prev = owners.insert(port, i);
            match prev {
                Some(other) => {
                    if insts[other].name != insts[i].name {
                        proof {
                            let whole = port_claims(insts@, ingress);
                            let next = port_claims(insts@.take(i + 1), ingress);
                            lemma_port_claims_step(insts@, i as int, ingress);
                            lemma_port_claims_prefix(insts@, i + 1, ingress);
                            assert(next.take(after.len() as int) =~= after);
                            assert(whole.take(after.len() as int) =~= after);
                            lemma_claim_ports_err_prefix(insts@, whole, after.len() as int);
                        }
                        return Err((port, i, other));
                    }
                },
                None => {},
            }
            j = j + 1;
            assert(owners@.dom() =~= spec_owners.insert(port, i as int).dom());
        }
        proof {
            assert(addrs@.take(addrs@.len() as int) =~= addrs@);
            lemma_port_claims_step(insts@, i as int, ingress);
        }
        i = i + 1;
    }
    assert(insts@.take(insts@.len() as int) =~= insts@);
    Ok(owners)
}

proof fn lemma_first_overlap_unique(egress: Seq<SocketAddress>, ports: Set<u16>, k: int)
    requires
        first_overlap(egress, ports, k),
    ensures
        (choose|k2: int| first_overlap(egress, ports, k2)) == k,
{
    let k2 = choose|k2: int| first_overlap(egress, ports, k2);
    assert(first_overlap(egress, ports, k2));
    if k2 < k {
        assert(!ports.contains(egress[k2].port));
    }
    if k < k2 {
        assert(!ports.contains(egress[k].port));
    }
}

/// Applies the port rules to one instance, as `instance_rules` does.
fn check_instance(inst: &Instance, ingress_owner: &HashMap<u16, usize>) -> (r: Result<
    (),
    ConfigError,
>)
    ensures
        match r {
            Ok(_) => instance_rules(*inst, ingress_owner@.dom()) == Ok::<(), ConfigErrorView>(()),
            Err(e) => instance_rules(*inst, ingress_owner@.dom()) == Err::<(), ConfigErrorView>(
                e@,
            ),
        },
{
    let ghost ports = ingress_owner@.dom();
    let egress = &inst.egress_addresses;
    let ingress = &inst.ingress_addresses;
    let mut k: usize = 0;
    while k < egress.len()
        invariant
            k <= egress@.len(),
            egress@ == inst.egress_addresses@,
            ports == ingress_owner@.dom(),
            forall|j: int| 0 <= j < k ==> !ports.contains(#[trigger] egress@[j].port),
        decreases egress.len() - k,
    {
        if ingress_owner.contains_key(&egress[k].port) {
            proof {
                assert(first_overlap(egress@, ports, k as int));
                lemma_first_overlap_unique(egress@, ports, k as int);
            }
            return Err(ConfigError::PortOverlap { port: egress[k].port });
        }
        k = k + 1;
    }
    assert(!exists|k: int| first_overlap(egress@, ports, k));
    let mut k: usize = 0;
    while k < ingress.len()
        invariant
            k <= ingress@.len(),
            ingress@ == inst.ingress_addresses@,
            egress@ == inst.egress_addresses@,
            ports == ingress_owner@.dom(),
            !exists|k: int| first_overlap(egress@, ports, k),
            forall|j: int| 0 <= j < k ==> #[trigger] ingress@[j].port >= 1024,
        decreases ingress.len() - k,
    {
        if ingress[k].port < 1024 {
            assert(inst.ingress_addresses@[k as int].port < 1024);
            assert(has_low_port(inst.ingress_addresses@));
            return Err(ConfigError::IngressPortBelow1024);
        }
        k = k + 1;
    }
    assert(!has_low_port(inst.ingress_addresses@));
    let mut k: usize = 0;
    while k < egress.len()
        invariant
            k <= egress@.len(),
            egress@ == inst.egress_addresses@,
            ports == ingress_owner@.dom(),
            !exists|k: int| first_overlap(egress@, ports, k),
            !has_low_port(inst.ingress_addresses@),
            forall|j: int| 0 <= j < k ==> #[trigger] egress@[j].port >= 1024,
        decreases egress.len() - k,
    {
        if egress[k].port < 1024 {
            assert(inst.egress_addresses@[k as int].port < 1024);
            assert(has_low_port(inst.egress_addresses@));
            return Err(ConfigError::EgressPortBelow1024);
        }
        k = k + 1;
    }
    Ok(())
}

/// Checks the configuration: no two instances of different names share an
/// ingress port or an egress port, no egress port is an ingress port, and
/// no port is below 1024. The error is the first failure found, in the
/// order that `validation` gives.
pub fn validate_config(config: &Config) -> (r: Result<(), ConfigError>)
    ensures
        match r {
            Ok(_) => validation(config.instances@) == Ok::<(), ConfigErrorView>(()),
            Err(e) => validation(config.instances@) == Err::<(), ConfigErrorView>(e@),
        },
        r matches Err(ConfigError::IngressPortConflict { port, name, other })
            ==> genuine_conflict(config.instances@, true, port, name@, other@),
        r matches Err(ConfigError::EgressPortConflict { port, name, other })
            ==> genuine_conflict(config.instances@, false, port, name@, other@),
{
    proof {
        lemma_conflicts_are_genuine(config.instances@);
    }
    let insts = &config.instances;
    let ingress_owner = match claim_side(insts, true) {
        Ok(m) => m,
        Err(e) => {
            let (port, claimant, owner) = e;
            return Err(
                ConfigError::IngressPortConflict {
                    port,
                    name: insts[claimant].name.clone(),
                    other: insts[owner].name.clone(),
                },
            );
        },
    };
    match claim_side(insts, false) {
        Ok(_) => {},
        Err(e) => {
            let (port, claimant, owner) = e;
            return Err(
                ConfigError::EgressPortConflict {
                    port,
                    name: insts[claimant].name.clone(),
                    other: insts[owner].name.clone(),
                },
            );
        },
    }
    let ghost ports = ingress_owner@.dom();
    assert(validation(insts@) == port_rules(insts@, ports));
    let mut i: usize = 0;
    assert(insts@.take(0) =~= Seq::<Instance>::empty());
    while i < insts.len()
        invariant
            i <= insts@.len(),
            insts@ == config.instances@,
            ports == ingress_owner@.dom(),
            validation(insts@) == port_rules(insts@, ports),
            port_rules(insts@.take(i as int), ports) == Ok::<(), ConfigErrorView>(()),
        decreases insts.len() - i,
    {
        let res = check_instance(&insts[i], &ingress_owner);
        assert(insts@.take(i + 1).drop_last() =~= insts@.take(i as int));
        match res {
            Ok(_) => {},
            Err(e) => {
                proof {
                    assert(port_rules(insts@.take(i + 1), ports) == Err::<(), ConfigErrorView>(
                        e@,
                    ));
                    lemma_port_rules_prefix_err(insts@, ports, i + 1);
                    assert(port_rules(insts@, ports) == Err::<(), ConfigErrorView>(e@));
                    assert(validation(insts@) == Err::<(), ConfigErrorView>(e@));
                }
                return Err(e);
            },
        }
        i = i + 1;
    }
    assert(insts@.take(insts@.len() as int) =~= insts@);
    Ok(())
}

/// A failure of the port rules on the first `n` instances is the failure
/// of the port rules on all of them.
proof fn lemma_port_rules_prefix_err(insts: Seq<Instance>, ports: Set<u16>, n: int)
    requires
        0 <= n <= insts.len(),
        port_rules(insts.take(n), ports) is Err,
    ensures
        port_rules(insts, ports) == port_rules(insts.take(n), ports),
    decreases insts.len() - n,
{
    if n < insts.len() {
        assert(insts.take(n + 1).drop_last() =~= insts.take(n));
        lemma_port_rules_prefix_err(insts, ports, n + 1);
    } else {
        assert(insts.take(n) =~= insts);
    }
}

impl Config {
    /// The configuration with these instances, if it passes
    /// `validate_config`; otherwise the error that it reports.
    pub fn from_instances(instances: Vec<Instance>) -> (r: Result<Config, ConfigError>)
        ensures
            match r {
                Ok(c) => c.instances@ == instances@ && validation(instances@) is Ok,
                Err(e) => validation(instances@) == Err::<(), ConfigErrorView>(e@),
            },
    {
        let config = Config { instances };
        match validate_config(&config) {
            Ok(_) => Ok(config),
            Err(e) => Err(e),
        }
    }
}

} // verus!
