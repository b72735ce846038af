use crate::config::{ConfigErrorView, Instance, SocketAddress};
use crate::validate::{
    claim_ports, first_overlap, instance_rules, port_claims, port_rules, side, validation,
};
use vstd::prelude::*;

verus! {

/// Two instances that list one port on the given side have one name.
pub open spec fn names_agree_on_ports(insts: Seq<Instance>, ingress: bool) -> bool {
    forall|i: int, a: int, j: int, b: int|
        #![trigger side(insts[i], ingress)[a], side(insts[j], ingress)[b]]
        0 <= i < insts.len() && 0 <= j < insts.len() && 0 <= a < side(insts[i], ingress).len()
            && 0 <= b < side(insts[j], ingress).len() && side(insts[i], ingress)[a].port == side(
            insts[j],
            ingress,
        )[b].port ==> insts[i].name@ == insts[j].name@
}

/// No egress port of any instance is an ingress port of any instance.
pub open spec fn sides_disjoint(insts: Seq<Instance>) -> bool {
    forall|i: int, a: int, j: int, b: int|
        #![trigger insts[i].egress_addresses@[a], insts[j].ingress_addresses@[b]]
        0 <= i < insts.len() && 0 <= j < insts.len() && 0 <= a
            < insts[i].egress_addresses@.len() && 0 <= b < insts[j].ingress_addresses@.len()
            ==> insts[i].egress_addresses@[a].port != insts[j].ingress_addresses@[b].port
}

/// Every port of every instance is at least 1024.
pub open spec fn ports_unprivileged(insts: Seq<Instance>) -> bool {
    &&& forall|i: int, a: int|
        0 <= i < insts.len() && 0 <= a < insts[i].ingress_addresses@.len()
            ==> #[trigger] insts[i].ingress_addresses@[a].port >= 1024
    &&& forall|i: int, a: int|
        0 <= i < insts.len() && 0 <= a < insts[i].egress_addresses@.len()
            ==> #[trigger] insts[i].egress_addresses@[a].port >= 1024
}

/// What a configuration must satisfy to be accepted.
pub open spec fn config_well_formed(insts: Seq<Instance>) -> bool {
    &&& names_agree_on_ports(insts, true)
    &&& names_agree_on_ports(insts, false)
    &&& sides_disjoint(insts)
    &&& ports_unprivileged(insts)
}

/// Two claims on one port come from instances of one name.
pub open spec fn claims_agree(insts: Seq<Instance>, claims: Seq<(u16, int)>) -> bool {
    forall|x: int, y: int|
        #![trigger claims[x], claims[y]]
        0 <= x < claims.len() && 0 <= y < claims.len() && claims[x].0 == claims[y].0
            ==> insts[claims[x].1].name@ == insts[claims[y].1].name@
}

/// What the owners handed out by an uninterrupted scan of `claims` are:
/// exactly the claimed ports, each owned by an instance with the name of
/// every claimant of that port.
pub open spec fn owners_fit(insts: Seq<Instance>, claims: Seq<(u16, int)>, m: Map<u16, int>) -> bool {
    &&& forall|p: u16| #[trigger]
        m.contains_key(p) ==> exists|k: int| 0 <= k < claims.len() && #[trigger] claims[k].0 == p
    &&& forall|k: int|
        0 <= k < claims.len() ==> m.contains_key(#[trigger] claims[k].0) && insts[m[claims[k].0]].name@
            == insts[claims[k].1].name@
}

/// The scan runs through exactly when the claims agree, and then hands out
/// owners as `owners_fit` says.
pub proof fn lemma_claim_ports_ok_iff(insts: Seq<Instance>, claims: Seq<(u16, int)>)
    ensures
        claim_ports(insts, claims) is Ok <==> claims_agree(insts, claims),
        claim_ports(insts, claims) is Ok ==> owners_fit(
            insts,
            claims,
            claim_ports(insts, claims)->Ok_0,
        ),
    decreases claims.len(),
{
    if claims.len() > 0 {
        let c = claims.drop_last();
        let x = claims.last();
        let n = claims.len() - 1;
        lemma_claim_ports_ok_iff(insts, c);
        assert forall|k: int| 0 <= k < n implies claims[k] == c[k] by {}
        if claim_ports(insts, claims) is Ok {
            let m = claim_ports(insts, c)->Ok_0;
            let m2 = m.insert(x.0, x.1);
            assert(claim_ports(insts, claims)->Ok_0 == m2);
            assert forall|a: int, b: int|
                0 <= a < claims.len() && 0 <= b < claims.len() && claims[a].0
                    == claims[b].0 implies insts[claims[a].1].name@
                == insts[claims[b].1].name@ by {
                if a < n {
                    assert(c[a] == claims[a]);
                }
                if b < n {
                    assert(c[b] == claims[b]);
                }
            }
            assert forall|p: u16| #[trigger] m2.contains_key(p) implies exists|k: int|
                0 <= k < claims.len() && #[trigger] claims[k].0 == p by {
                if p == x.0 {
                    assert(claims[n].0 == p);
                } else {
                    let k = choose|k: int| 0 <= k < c.len() && #[trigger] c[k].0 == p;
                    assert(claims[k].0 == p);
                }
            }
            assert forall|k: int| 0 <= k < claims.len() implies m2.contains_key(
                #[trigger] claims[k].0,
            ) && insts[m2[claims[k].0]].name@ == insts[claims[k].1].name@ by {
                if k < n {
                    assert(c[k] == claims[k]);
                }
            }
        } else if claims_agree(insts, c) {
            let m = claim_ports(insts, c)->Ok_0;
            let k = choose|k: int| 0 <= k < c.len() && #[trigger] c[k].0 == x.0;
            assert(c[k] == claims[k]);
            assert(claims[n] == x);
            assert(!claims_agree(insts, claims));
        } else {
            let (a, b) = choose|a: int, b: int|
                #![trigger c[a], c[b]]
                0 <= a < c.len() && 0 <= b < c.len() && c[a].0 == c[b].0 && insts[c[a].1].name@
                    != insts[c[b].1].name@;
            assert(claims[a] == c[a] && claims[b] == c[b]);
        }
    }
}

/// Where the claim at position `k` comes from.
pub proof fn lemma_claim_origin(insts: Seq<Instance>, ingress: bool, k: int) -> (ia: (int, int))
    requires
        0 <= k < port_claims(insts, ingress).len(),
    ensures
        0 <= ia.0 < insts.len(),
        0 <= ia.1 < side(insts[ia.0], ingress).len(),
        port_claims(insts, ingress)[k] == (side(insts[ia.0], ingress)[ia.1].port, ia.0),
    decreases insts.len(),
{
    let d = insts.drop_last();
    let pd = port_claims(d, ingress);
    if k < pd.len() {
        let ia = lemma_claim_origin(d, ingress, k);
        assert(d[ia.0] == insts[ia.0]);
        ia
    } else {
        (insts.len() - 1, k - pd.len())
    }
}

/// Where the claim of address `a` of instance `i` stands.
pub proof fn lemma_claim_position(insts: Seq<Instance>, ingress: bool, i: int, a: int) -> (k: int)
    requires
        0 <= i < insts.len(),
        0 <= a < side(insts[i], ingress).len(),
    ensures
        0 <= k < port_claims(insts, ingress).len(),
        port_claims(insts, ingress)[k] == (side(insts[i], ingress)[a].port, i),
    decreases insts.len(),
{
    let d = insts.drop_last();
    let pd = port_claims(d, ingress);
    if i < insts.len() - 1 {
        assert(d[i] == insts[i]);
        lemma_claim_position(d, ingress, i, a)
    } else {
        pd.len() + a
    }
}

/// The claims of one side agree exactly when the names agree on that side.
pub proof fn lemma_claims_agree_iff(insts: Seq<Instance>, ingress: bool)
    ensures
        claims_agree(insts, port_claims(insts, ingress)) <==> names_agree_on_ports(insts, ingress),
{
    let pc = port_claims(insts, ingress);
    if claims_agree(insts, pc) {
        assert forall|i: int, a: int, j: int, b: int|
            0 <= i < insts.len() && 0 <= j < insts.len() && 0 <= a < side(insts[i], ingress).len()
                && 0 <= b < side(insts[j], ingress).len() && #[trigger] side(insts[i], ingress)[a].port
                == #[trigger] side(insts[j], ingress)[b].port implies insts[i].name@
            == insts[j].name@ by {
            let x = lemma_claim_position(insts, ingress, i, a);
            let y = lemma_claim_position(insts, ingress, j, b);
            assert(pc[x].0 == pc[y].0);
        }
    }
    if names_agree_on_ports(insts, ingress) {
        assert forall|x: int, y: int|
            0 <= x < pc.len() && 0 <= y < pc.len() && #[trigger] pc[x].0
                == #[trigger] pc[y].0 implies insts[pc[x].1].name@ == insts[pc[y].1].name@ by {
            let ia = lemma_claim_origin(insts, ingress, x);
            let jb = lemma_claim_origin(insts, ingress, y);
            assert(side(insts[ia.0], ingress)[ia.1].port == side(insts[jb.0], ingress)[jb.1].port);
        }
    }
}

/// If some egress address has its port in `ports`, a first one does.
proof fn lemma_first_overlap_exists(egress: Seq<SocketAddress>, ports: Set<u16>, k: int)
    requires
        0 <= k < egress.len(),
        ports.contains(egress[k].port),
    ensures
        exists|k2: int| first_overlap(egress, ports, k2),
    decreases k,
{
    if exists|j: int| 0 <= j < k && ports.contains(#[trigger] egress[j].port) {
        let j = choose|j: int| 0 <= j < k && ports.contains(#[trigger] egress[j].port);
        lemma_first_overlap_exists(egress, ports, j);
    } else {
        assert(first_overlap(egress, ports, k));
    }
}

/// The port rules pass for one instance exactly when none of its egress
/// ports is in `ports` and none of its ports is below 1024.
proof fn lemma_instance_rules_ok_iff(inst: Instance, ports: Set<u16>)
    ensures
        instance_rules(inst, ports) is Ok <==> {
            &&& forall|a: int|
                0 <= a < inst.egress_addresses@.len() ==> !ports.contains(
                    #[trigger] inst.egress_addresses@[a].port,
                )
            &&& forall|a: int|
                0 <= a < inst.ingress_addresses@.len() ==> #[trigger] inst.ingress_addresses@[a].port
                    >= 1024
            &&& forall|a: int|
                0 <= a < inst.egress_addresses@.len() ==> #[trigger] inst.egress_addresses@[a].port
                    >= 1024
        },
{
    let egress = inst.egress_addresses@;
    if exists|a: int| 0 <= a < egress.len() && ports.contains(#[trigger] egress[a].port) {
        let a = choose|a: int| 0 <= a < egress.len() && ports.contains(#[trigger] egress[a].port);
        lemma_first_overlap_exists(egress, ports, a);
    }
}

/// The port rules pass for all instances exactly when they pass for each.
proof fn lemma_port_rules_ok_iff(insts: Seq<Instance>, ports: Set<u16>)
    ensures
        port_rules(insts, ports) is Ok <==> forall|i: int|
            0 <= i < insts.len() ==> #[trigger] instance_rules(insts[i], ports) is Ok,
    decreases insts.len(),
{
    if insts.len() > 0 {
        let d = insts.drop_last();
        lemma_port_rules_ok_iff(d, ports);
        assert forall|i: int| 0 <= i < d.len() implies d[i] == insts[i] by {}
        if port_rules(insts, ports) is Ok {
            assert forall|i: int| 0 <= i < insts.len() implies #[trigger] instance_rules(
                insts[i],
                ports,
            ) is Ok by {
                if i < d.len() {
                    assert(instance_rules(d[i], ports) is Ok);
                }
            }
        }
        if forall|i: int| 0 <= i < insts.len() ==> #[trigger] instance_rules(insts[i], ports) is Ok {
            assert forall|i: int| 0 <= i < d.len() implies #[trigger] instance_rules(
                d[i],
                ports,
            ) is Ok by {
                assert(instance_rules(insts[i], ports) is Ok);
            }
            assert(instance_rules(insts[insts.len() - 1], ports) is Ok);
        }
    }
}

/// A configuration passes validation exactly when it is well formed: no
/// two instances of different names share an ingress port or an egress
/// port, no egress port is an ingress port, and every port is at least
/// 1024.
pub proof fn lemma_validation_ok_iff(insts: Seq<Instance>)
    ensures
        validation(insts) is Ok <==> config_well_formed(insts),
{
    let pin = port_claims(insts, true);
    let peg = port_claims(insts, false);
    lemma_claim_ports_ok_iff(insts, pin);
    lemma_claim_ports_ok_iff(insts, peg);
    lemma_claims_agree_iff(insts, true);
    lemma_claims_agree_iff(insts, false);
    if claim_ports(insts, pin) is Ok && claim_ports(insts, peg) is Ok {
        let m = claim_ports(insts, pin)->Ok_0;
        let ports = m.dom();
        lemma_port_rules_ok_iff(insts, ports);
        // The ports handed out are exactly the ingress ports.
        assert forall|j: int, b: int|
            0 <= j < insts.len() && 0 <= b < insts[j].ingress_addresses@.len() implies ports.contains(
            #[trigger] insts[j].ingress_addresses@[b].port,
        ) by {
            let k = lemma_claim_position(insts, true, j, b);
            assert(m.contains_key(pin[k].0));
        }
        assert forall|p: u16| ports.contains(p) implies exists|j: int, b: int|
            0 <= j < insts.len() && 0 <= b < insts[j].ingress_addresses@.len()
                && #[trigger] insts[j].ingress_addresses@[b].port == p by {
            let k = choose|k: int| 0 <= k < pin.len() && #[trigger] pin[k].0 == p;
            let jb = lemma_claim_origin(insts, true, k);
            assert(insts[jb.0].ingress_addresses@[jb.1].port == p);
        }
        if port_rules(insts, ports) is Ok {
            assert forall|i: int|
                0 <= i < insts.len() implies #[trigger] instance_rules(insts[i], ports) is Ok by {}
            assert forall|i: int, a: int, j: int, b: int|
                0 <= i < insts.len() && 0 <= j < insts.len() && 0 <= a
                    < insts[i].egress_addresses@.len() && 0 <= b
                    < insts[j].ingress_addresses@.len() implies #[trigger] insts[i].egress_addresses@[a].port
                != #[trigger] insts[j].ingress_addresses@[b].port by {
                assert(instance_rules(insts[i], ports) is Ok);
                lemma_instance_rules_ok_iff(insts[i], ports);
                assert(ports.contains(insts[j].ingress_addresses@[b].port));
            }
            assert forall|i: int, a: int|
                0 <= i < insts.len() && 0 <= a
                    < insts[i].ingress_addresses@.len() implies #[trigger] insts[i].ingress_addresses@[a].port
                >= 1024 by {
                assert(instance_rules(insts[i], ports) is Ok);
                lemma_instance_rules_ok_iff(insts[i], ports);
            }
            assert forall|i: int, a: int|
                0 <= i < insts.len() && 0 <= a
                    < insts[i].egress_addresses@.len() implies #[trigger] insts[i].egress_addresses@[a].port
                >= 1024 by {
                assert(instance_rules(insts[i], ports) is Ok);
                lemma_instance_rules_ok_iff(insts[i], ports);
            }
        }
        if config_well_formed(insts) {
            assert forall|i: int|
                0 <= i < insts.len() implies #[trigger] instance_rules(insts[i], ports) is Ok by {
                lemma_instance_rules_ok_iff(insts[i], ports);
                assert forall|a: int|
                    0 <= a < insts[i].egress_addresses@.len() implies !ports.contains(
                    #[trigger] insts[i].egress_addresses@[a].port,
                ) by {
                    let p = insts[i].egress_addresses@[a].port;
                    if ports.contains(p) {
                        let (j, b) = choose|j: int, b: int|
                            0 <= j < insts.len() && 0 <= b < insts[j].ingress_addresses@.len()
                                && #[trigger] insts[j].ingress_addresses@[b].port == p;
                        assert(insts[i].egress_addresses@[a].port
                            != insts[j].ingress_addresses@[b].port);
                    }
                }
            }
        }
    }
}

/// Some address on the given side of `inst` has port `port`.
pub open spec fn lists_port(inst: Instance, ingress: bool, port: u16) -> bool {
    exists|a: int| 0 <= a < side(inst, ingress).len() && #[trigger] side(inst, ingress)[a].port == port
}

/// Two instances of the configuration, named `name` and `other`, both list
/// `port` on the given side, and the names differ.
pub open spec fn genuine_conflict(
    insts: Seq<Instance>,
    ingress: bool,
    port: u16,
    name: Seq<char>,
    other: Seq<char>,
) -> bool {
    &&& name != other
    &&& exists|i: int, j: int|
        0 <= i < insts.len() && 0 <= j < insts.len() && #[trigger] insts[i].name@ == name
            && #[trigger] insts[j].name@ == other && lists_port(insts[i], ingress, port)
            && lists_port(insts[j], ingress, port)
}

/// Each owner handed out by an uninterrupted scan is one of the claims.
proof fn lemma_owners_are_claims(insts: Seq<Instance>, claims: Seq<(u16, int)>)
    ensures
        claim_ports(insts, claims) is Ok ==> forall|p: u16| #[trigger]
            claim_ports(insts, claims)->Ok_0.contains_key(p) ==> exists|k: int|
                0 <= k < claims.len() && #[trigger] claims[k] == (
                p,
                claim_ports(insts, claims)->Ok_0[p],
            ),
    decreases claims.len(),
{
    if claims.len() > 0 {
        let c = claims.drop_last();
        lemma_owners_are_claims(insts, c);
        if claim_ports(insts, claims) is Ok {
            let m = claim_ports(insts, c)->Ok_0;
            let x = claims.last();
            let m2 = claim_ports(insts, claims)->Ok_0;
            assert(m2 == m.insert(x.0, x.1));
            assert forall|p: u16| #[trigger] m2.contains_key(p) implies exists|k: int|
                0 <= k < claims.len() && #[trigger] claims[k] == (p, m2[p]) by {
                if p == x.0 {
                    assert(claims[claims.len() - 1] == (p, m2[p]));
                } else {
                    let k = choose|k: int| 0 <= k < c.len() && #[trigger] c[k] == (p, m[p]);
                    assert(claims[k] == c[k]);
                }
            }
        }
    }
}

/// A stopped scan stops on two claims of the reported port: one by the
/// reported claimant and one by the reported owner, whose names differ.
proof fn lemma_stop_is_two_claims(insts: Seq<Instance>, claims: Seq<(u16, int)>)
    ensures
        claim_ports(insts, claims) is Err ==> {
            let e = claim_ports(insts, claims)->Err_0;
            &&& insts[e.1].name@ != insts[e.2].name@
            &&& exists|x: int, y: int|
                0 <= x < claims.len() && 0 <= y < claims.len() && #[trigger] claims[x] == (
                    e.0,
                    e.1,
                ) && #[trigger] claims[y] == (e.0, e.2)
        },
    decreases claims.len(),
{
    if claims.len() > 0 {
        let c = claims.drop_last();
        lemma_stop_is_two_claims(insts, c);
        lemma_owners_are_claims(insts, c);
        if claim_ports(insts, claims) is Err {
            let e = claim_ports(insts, claims)->Err_0;
            if claim_ports(insts, c) is Err {
                let (x, y) = choose|x: int, y: int|
                    0 <= x < c.len() && 0 <= y < c.len() && #[trigger] c[x] == (e.0, e.1)
                        && #[trigger] c[y] == (e.0, e.2);
                assert(claims[x] == c[x] && claims[y] == c[y]);
            } else {
                let m = claim_ports(insts, c)->Ok_0;
                let last = claims.len() - 1;
                assert(claims[last] == (e.0, e.1));
                assert(m.contains_key(e.0));
                let y = choose|k: int| 0 <= k < c.len() && #[trigger] c[k] == (e.0, m[e.0]);
                assert(claims[y] == c[y]);
                assert(claims[y] == (e.0, e.2));
            }
        }
    }
}

proof fn lemma_side_stop_is_genuine(insts: Seq<Instance>, ingress: bool)
    ensures
        claim_ports(insts, port_claims(insts, ingress)) is Err ==> {
            let e = claim_ports(insts, port_claims(insts, ingress))->Err_0;
            &&& 0 <= e.1 < insts.len()
            &&& 0 <= e.2 < insts.len()
            &&& genuine_conflict(insts, ingress, e.0, insts[e.1].name@, insts[e.2].name@)
        },
{
    let pc = port_claims(insts, ingress);
    lemma_stop_is_two_claims(insts, pc);
    if claim_ports(insts, pc) is Err {
        let e = claim_ports(insts, pc)->Err_0;
        let (x, y) = choose|x: int, y: int|
            0 <= x < pc.len() && 0 <= y < pc.len() && #[trigger] pc[x] == (e.0, e.1)
                && #[trigger] pc[y] == (e.0, e.2);
        let ia = lemma_claim_origin(insts, ingress, x);
        let jb = lemma_claim_origin(insts, ingress, y);
        let i = ia.0;
        let j = jb.0;
        assert(i == e.1 && j == e.2);
        assert(side(insts[i], ingress)[ia.1].port == e.0);
        assert(side(insts[j], ingress)[jb.1].port == e.0);
        assert(lists_port(insts[i], ingress, e.0));
        assert(lists_port(insts[j], ingress, e.0));
        assert(insts[i].name@ == insts[e.1].name@ && insts[j].name@ == insts[e.2].name@);
    }
}

/// The port rules never report a port conflict.
proof fn lemma_port_rules_no_conflict(insts: Seq<Instance>, ports: Set<u16>)
    ensures
        !(port_rules(insts, ports) matches Err(ConfigErrorView::IngressPortConflict { .. })),
        !(port_rules(insts, ports) matches Err(ConfigErrorView::EgressPortConflict { .. })),
    decreases insts.len(),
{
    if insts.len() > 0 {
        lemma_port_rules_no_conflict(insts.drop_last(), ports);
    }
}

/// A reported port conflict is a real one: the two named instances both
/// list the reported port on that side, and their names differ.
pub proof fn lemma_conflicts_are_genuine(insts: Seq<Instance>)
    ensures
        validation(insts) matches Err(
            ConfigErrorView::IngressPortConflict { port, name, other },
        ) ==> genuine_conflict(insts, true, port, name, other),
        validation(insts) matches Err(
            ConfigErrorView::EgressPortConflict { port, name, other },
        ) ==> genuine_conflict(insts, false, port, name, other),
{
    lemma_side_stop_is_genuine(insts, true);
    lemma_side_stop_is_genuine(insts, false);
    let pin = port_claims(insts, true);
    let peg = port_claims(insts, false);
    if claim_ports(insts, pin) is Ok && claim_ports(insts, peg) is Ok {
        lemma_port_rules_no_conflict(insts, claim_ports(insts, pin)->Ok_0.dom());
    }
}

} // verus!
