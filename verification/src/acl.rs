//! Stateful access control: first-match rules over flow headers, where a rule
//! may also ask whether the flow belongs to a connection already let through.
use crate::flow::{Flow, FlowKey, Ipv4Prefix};
use crate::flow_table::FlowCache;
use vstd::prelude::*;

verus! {

/// One access-control rule. A field that is `None` matches anything.
#[derive(Clone, Copy, Debug)]
pub struct Acl {
    pub src_ip: Option<Ipv4Prefix>,
    pub dst_ip: Option<Ipv4Prefix>,
    pub src_port: Option<u16>,
    pub dst_port: Option<u16>,
    /// `Some(true)`: only flows of known connections; `Some(false)`: only new ones.
    pub established: Option<bool>,
    /// Whether matching flows are dropped (else they are let through).
    pub drop: bool,
}

/// An optional network admits an address: no network admits all of them.
pub open spec fn prefix_admits(p: Option<Ipv4Prefix>, ip: u32) -> bool {
    match p {
        None => true,
        Some(p) => p.contains(ip),
    }
}

/// An optional port admits a port: no port admits all of them.
pub open spec fn port_admits(p: Option<u16>, port: u16) -> bool {
    match p {
        None => true,
        Some(q) => q == port,
    }
}

/// The flow, in either direction, is in the set of known connections.
pub open spec fn known_connection(flow: Flow, conns: Set<FlowKey>) -> bool {
    conns.contains(flow.key()) || conns.contains(flow.reversed().key())
}

impl Acl {
    /// The addresses and ports of the flow fit the rule.
    pub open spec fn header_fits(self, flow: Flow) -> bool {
        &&& prefix_admits(self.src_ip, flow.src_ip)
        &&& prefix_admits(self.dst_ip, flow.dst_ip)
        &&& port_admits(self.src_port, flow.src_port)
        &&& port_admits(self.dst_port, flow.dst_port)
    }

    /// The rule matches the flow, given the known connections.
    pub open spec fn admits(self, flow: Flow, conns: Set<FlowKey>) -> bool {
        &&& self.header_fits(flow)
        &&& match self.established {
            None => true,
            Some(e) => known_connection(flow, conns) == e,
        }
    }

    pub fn matches(&self, flow: &Flow, connections: &FlowCache) -> (r: bool)
        ensures
            r == self.admits(*flow, connections@),
    {
        let src_ok = match self.src_ip {
            None => true,
            Some(p) => p.in_range(flow.src_ip),
        };
        let dst_ok = match self.dst_ip {
            None => true,
            Some(p) => p.in_range(flow.dst_ip),
        };
        let sport_ok = match self.src_port {
            None => true,
            Some(p) => flow.src_port == p,
        };
        let dport_ok = match self.dst_port {
            None => true,
            Some(p) => flow.dst_port == p,
        };
        if src_ok && dst_ok && sport_ok && dport_ok {
            match self.established {
                Some(established) => {
                    let rev_flow = flow.reverse_flow();
                    (connections.contains(flow) || connections.contains(&rev_flow)) == established
                },
                None => true,
            }
        } else {
            false
        }
    }
}

/// The index of the first rule at or after `from` that matches the flow.
pub open spec fn first_match(acls: Seq<Acl>, flow: Flow, conns: Set<FlowKey>, from: int) -> Option<int>
    decreases acls.len() - from,
{
    if from < 0 || from >= acls.len() {
        None
    } else if acls[from].admits(flow, conns) {
        Some(from)
    } else {
        first_match(acls, flow, conns, from + 1)
    }
}

/// Whether a packet with the given flow (or with none, for non-TCP/UDP traffic)
/// is let through: with no rules nothing is; a packet without a flow is; else
/// the first matching rule decides, and a flow no rule matches is dropped.
pub open spec fn verdict(acls: Seq<Acl>, flow: Option<Flow>, conns: Set<FlowKey>) -> bool {
    if acls.len() == 0 {
        false
    } else {
        match flow {
            None => true,
            Some(f) => match first_match(acls, f, conns, 0) {
                Some(i) => !acls[i].drop,
                None => false,
            },
        }
    }
}

/// The known connections after the decision: a flow let through by a rule is added.
pub open spec fn connections_after(acls: Seq<Acl>, flow: Option<Flow>, conns: Set<FlowKey>) -> Set<FlowKey> {
    match flow {
        Some(f) => if verdict(acls, flow, conns) {
            conns.insert(f.key())
        } else {
            conns
        },
        None => conns,
    }
}

/// Decides whether a packet passes the rules, in order, and records the flow of
/// a packet that a rule lets through as a known connection.
pub fn acl_match(acls: &Vec<Acl>, flow: Option<Flow>, flow_cache: &mut FlowCache) -> (pass: bool)
    ensures
        pass == verdict(acls@, flow, old(flow_cache)@),
        final(flow_cache)@ == connections_after(acls@, flow, old(flow_cache)@),
        flow is None ==> pass == (acls@.len() > 0),
        !pass || flow is None ==> final(flow_cache)@ == old(flow_cache)@,
        pass && flow is Some ==> final(flow_cache)@ == old(flow_cache)@.insert(flow->0.key()),
{
    proof {
        lemma_cache_changes_only_on_pass(acls@, flow, old(flow_cache)@);
        lemma_flowless_packet_passes(acls@, old(flow_cache)@);
    }
    let n = acls.len();
    let mut i: usize = 0;
    while i < n
        invariant
            n == acls@.len(),
            0 <= i <= n,
            *flow_cache == *old(flow_cache),
            i > 0 ==> flow is Some,
            flow matches Some(f) ==> first_match(acls@, f, flow_cache@, 0) == first_match(
                acls@,
                f,
                flow_cache@,
                i as int,
            ),
        decreases n - i,
    {
        match flow {
            None => {
                return true;
            },
            Some(f) => {
                let acl = &acls[i];
                if acl.matches(&f, flow_cache) {
                    if !acl.drop {
                        flow_cache.insert(f);
                    }
                    return !acl.drop;
                }
            },
        }
        i = i + 1;
    }
    false
}

/// `first_match` finds the lowest-indexed matching rule at or after `from`,
/// and finds none exactly when no rule from there on matches.
pub proof fn lemma_first_match_is_first(acls: Seq<Acl>, flow: Flow, conns: Set<FlowKey>, from: int)
    requires
        0 <= from <= acls.len(),
    ensures
        match first_match(acls, flow, conns, from) {
            Some(i) => from <= i < acls.len() && acls[i].admits(flow, conns) && forall|j: int|
                from <= j < i ==> !#[trigger] acls[j].admits(flow, conns),
            None => forall|j: int| from <= j < acls.len() ==> !#[trigger] acls[j].admits(flow, conns),
        },
    decreases acls.len() - from,
{
    if from < acls.len() && !acls[from].admits(flow, conns) {
        lemma_first_match_is_first(acls, flow, conns, from + 1);
    }
}

/// A connection is known in one direction exactly when it is known in the other.
pub proof fn lemma_known_connection_symmetric(flow: Flow, conns: Set<FlowKey>)
    ensures
        known_connection(flow, conns) == known_connection(flow.reversed(), conns),
{
    crate::flow::lemma_reverse_involutive(flow);
}

/// With no rules, every packet is dropped.
pub proof fn lemma_no_rules_drop_all(flow: Option<Flow>, conns: Set<FlowKey>)
    ensures
        !verdict(Seq::<Acl>::empty(), flow, conns),
{
}

/// A flow that no rule matches is dropped.
pub proof fn lemma_unmatched_flow_dropped(acls: Seq<Acl>, flow: Flow, conns: Set<FlowKey>)
    requires
        forall|j: int| 0 <= j < acls.len() ==> !#[trigger] acls[j].admits(flow, conns),
    ensures
        !verdict(acls, Some(flow), conns),
{
    lemma_first_match_is_first(acls, flow, conns, 0);
}

/// A flow is let through exactly when some rule matches it and the first rule
/// that matches it does not drop.
pub proof fn lemma_verdict_first_match(acls: Seq<Acl>, flow: Flow, conns: Set<FlowKey>)
    ensures
        verdict(acls, Some(flow), conns) <==> exists|i: int|
            0 <= i < acls.len() && #[trigger] acls[i].admits(flow, conns) && !acls[i].drop
                && forall|j: int| 0 <= j < i ==> !#[trigger] acls[j].admits(flow, conns),
{
    lemma_first_match_is_first(acls, flow, conns, 0);
    if verdict(acls, Some(flow), conns) {
        let i = first_match(acls, flow, conns, 0)->0;
        assert(acls[i].admits(flow, conns));
    }
    if exists|i: int|
        0 <= i < acls.len() && #[trigger] acls[i].admits(flow, conns) && !acls[i].drop
            && forall|j: int| 0 <= j < i ==> !#[trigger] acls[j].admits(flow, conns) {
        let i = choose|i: int|
            0 <= i < acls.len() && #[trigger] acls[i].admits(flow, conns) && !acls[i].drop
                && forall|j: int| 0 <= j < i ==> !#[trigger] acls[j].admits(flow, conns);
        match first_match(acls, flow, conns, 0) {
            Some(k) => {
                if k < i {
                    assert(!acls[k].admits(flow, conns));
                } else if k > i {
                    assert(!acls[i].admits(flow, conns));
                }
            },
            None => {
                assert(!acls[i].admits(flow, conns));
            },
        }
    }
}

/// Deciding never forgets a known connection.
pub proof fn lemma_connections_only_grow(acls: Seq<Acl>, flow: Option<Flow>, conns: Set<FlowKey>)
    ensures
        conns.subset_of(connections_after(acls, flow, conns)),
{
}

/// Once a flow is let through, its connection is known in both directions, so
/// the reply traffic matches any rule for established connections whose
/// addresses and ports fit it.
pub proof fn lemma_passed_flow_established(acls: Seq<Acl>, flow: Flow, conns: Set<FlowKey>, rule: Acl)
    requires
        verdict(acls, Some(flow), conns),
        rule.established == Some(true),
        rule.header_fits(flow.reversed()),
    ensures
        known_connection(flow, connections_after(acls, Some(flow), conns)),
        known_connection(flow.reversed(), connections_after(acls, Some(flow), conns)),
        rule.admits(flow.reversed(), connections_after(acls, Some(flow), conns)),
{
    lemma_known_connection_symmetric(flow, connections_after(acls, Some(flow), conns));
}

/// What a rule checks, field by field: each given network holds the flow's
/// address on the same side, each given port equals the flow's port on the
/// same side, and a given `established` says whether the connection, in
/// either direction, is among the known ones.
pub proof fn lemma_admits_fields(rule: Acl, flow: Flow, conns: Set<FlowKey>)
    ensures
        rule.admits(flow, conns) <==> {
            &&& (rule.src_ip is None || rule.src_ip->0.contains(flow.src_ip))
            &&& (rule.dst_ip is None || rule.dst_ip->0.contains(flow.dst_ip))
            &&& (rule.src_port is None || rule.src_port->0 == flow.src_port)
            &&& (rule.dst_port is None || rule.dst_port->0 == flow.dst_port)
            &&& (rule.established is None || rule.established->0 == (conns.contains(
                (flow.src_ip, flow.dst_ip, flow.src_port, flow.dst_port, flow.proto),
            ) || conns.contains(
                (flow.dst_ip, flow.src_ip, flow.dst_port, flow.src_port, flow.proto),
            )))
        },
{
}

/// A rule that only names a source port matches exactly the flows from that
/// port, whatever their destination port; likewise for a destination port.
pub proof fn lemma_port_only_rules(p: u16, flow: Flow, conns: Set<FlowKey>, drop: bool)
    ensures
        (Acl {
            src_ip: None,
            dst_ip: None,
            src_port: Some(p),
            dst_port: None,
            established: None,
            drop,
        }).admits(flow, conns) <==> flow.src_port == p,
        (Acl {
            src_ip: None,
            dst_ip: None,
            src_port: None,
            dst_port: Some(p),
            established: None,
            drop,
        }).admits(flow, conns) <==> flow.dst_port == p,
{
}

/// With at least one rule, a packet without a flow is let through, whatever
/// the rules say.
pub proof fn lemma_flowless_packet_passes(acls: Seq<Acl>, conns: Set<FlowKey>)
    ensures
        verdict(acls, None, conns) == (acls.len() > 0),
{
}

/// The known connections change only when a packet with a flow is let
/// through, and then gain exactly that flow.
pub proof fn lemma_cache_changes_only_on_pass(acls: Seq<Acl>, flow: Option<Flow>, conns: Set<FlowKey>)
    ensures
        !verdict(acls, flow, conns) ==> connections_after(acls, flow, conns) == conns,
        flow is None ==> connections_after(acls, flow, conns) == conns,
        verdict(acls, flow, conns) && flow is Some ==> connections_after(acls, flow, conns)
            == conns.insert(
            (
                flow->0.src_ip,
                flow->0.dst_ip,
                flow->0.src_port,
                flow->0.dst_port,
                flow->0.proto,
            ),
        ),
{
}

} // verus!
