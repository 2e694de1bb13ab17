//! Packet-filter rules whose networks must be given: first-match over the
//! flow headers, with no connection tracking.
use crate::acl::port_admits;
use crate::flow::{Flow, Ipv4Prefix};
use crate::flow_table::FlowCache;
use vstd::prelude::*;

verus! {

/// One filter rule. The networks must be given (see `evaluable`); a port that
/// is `None` matches any port. `established` is carried but not consulted.
#[derive(Clone, Copy, Debug)]
pub struct Acl {
    pub src_ip: Option<Ipv4Prefix>,
    pub dst_ip: Option<Ipv4Prefix>,
    pub src_port: Option<u16>,
    pub dst_port: Option<u16>,
    pub established: Option<bool>,
    pub drop: bool,
}

impl Acl {
    /// The rule can be checked against the flow: the source network is given,
    /// and so is the destination network if the source address is in the
    /// source network (the destination is looked at only then).
    pub open spec fn evaluable(self, flow: Flow) -> bool {
        &&& self.src_ip matches Some(p)
        &&& p.contains(flow.src_ip) ==> self.dst_ip is Some
    }

    /// The rule matches the flow (both networks given and containing its addresses).
    pub open spec fn admits(self, flow: Flow) -> bool {
        &&& self.src_ip matches Some(p) && p.contains(flow.src_ip)
        &&& self.dst_ip matches Some(p) && p.contains(flow.dst_ip)
        &&& port_admits(self.src_port, flow.src_port)
        &&& port_admits(self.dst_port, flow.dst_port)
    }

    pub fn matches(&self, flow: &Flow, _connections: &FlowCache) -> (r: bool)
        requires
            self.evaluable(*flow),
        ensures
            r == self.admits(*flow),
    {
        let src = self.src_ip.unwrap();
        if !src.in_range(flow.src_ip) {
            return false;
        }
        let dst = self.dst_ip.unwrap();
        let sport_ok = match self.src_port {
            None => true,
            Some(p) => flow.src_port == p,
        };
        let dport_ok = match self.dst_port {
            None => true,
            Some(p) => flow.dst_port == p,
        };
        dst.in_range(flow.dst_ip) && sport_ok && dport_ok
    }
}

/// The rules are checked in order until one matches; every rule checked must
/// be evaluable against the flow.
pub open spec fn rules_evaluable(acls: Seq<Acl>, flow: Flow, from: int) -> bool
    decreases acls.len() - from,
{
    if from < 0 || from >= acls.len() {
        true
    } else if !acls[from].evaluable(flow) {
        false
    } else if acls[from].admits(flow) {
        true
    } else {
        rules_evaluable(acls, flow, from + 1)
    }
}

/// The index of the first rule at or after `from` that matches the flow.
pub open spec fn first_match(acls: Seq<Acl>, flow: Flow, from: int) -> Option<int>
    decreases acls.len() - from,
{
    if from < 0 || from >= acls.len() {
        None
    } else if acls[from].admits(flow) {
        Some(from)
    } else {
        first_match(acls, flow, from + 1)
    }
}

/// Whether a packet passes: with no rules nothing does; a packet without a
/// flow does; else the first matching rule decides and an unmatched flow is dropped.
pub open spec fn verdict(acls: Seq<Acl>, flow: Option<Flow>) -> bool {
    if acls.len() == 0 {
        false
    } else {
        match flow {
            None => true,
            Some(f) => match first_match(acls, f, 0) {
                Some(i) => !acls[i].drop,
                None => false,
            },
        }
    }
}

/// Checking the rules on this packet looks only at networks that are given.
pub open spec fn decidable(acls: Seq<Acl>, flow: Option<Flow>) -> bool {
    flow matches Some(f) ==> rules_evaluable(acls, f, 0)
}

/// Whether checking the rules on this packet is defined (see `decidable`).
pub fn can_decide(acls: &Vec<Acl>, flow: Option<Flow>) -> (r: bool)
    ensures
        r == decidable(acls@, flow),
{
    match flow {
        None => true,
        Some(f) => {
            let n = acls.len();
            let mut i: usize = 0;
            while i < n
                invariant
                    n == acls@.len(),
                    0 <= i <= n,
                    flow == Some(f),
                    rules_evaluable(acls@, f, 0) == rules_evaluable(acls@, f, i as int),
                decreases n - i,
            {
                let acl = &acls[i];
                if acl.src_ip.is_none() {
                    return false;
                }
                let src = acl.src_ip.unwrap();
                let src_ok = src.in_range(f.src_ip);
                if src_ok && acl.dst_ip.is_none() {
                    return false;
                }
                let sport_ok = match acl.src_port {
                    None => true,
                    Some(p) => f.src_port == p,
                };
                let dport_ok = match acl.dst_port {
                    None => true,
                    Some(p) => f.dst_port == p,
                };
                if src_ok && acl.dst_ip.unwrap().in_range(f.dst_ip) && sport_ok && dport_ok {
                    return true;
                }
                i = i + 1;
            }
            true
        },
    }
}

/// Decides whether a packet passes the rules, in order. The flow cache is not
/// consulted by the rules and is left as it is.
pub fn acl_match(acls: &Vec<Acl>, flow: Option<Flow>, flow_cache: &FlowCache) -> (pass: bool)
    requires
        decidable(acls@, flow),
    ensures
        pass == verdict(acls@, flow),
        flow is None ==> pass == (acls@.len() > 0),
{
    proof {
        lemma_flowless_packet_passes(acls@);
    }
    let n = acls.len();
    let mut i: usize = 0;
    while i < n
        invariant
            n == acls@.len(),
            0 <= i <= n,
            i > 0 ==> flow is Some,
            flow matches Some(f) ==> {
                &&& first_match(acls@, f, 0) == first_match(acls@, f, i as int)
                &&& rules_evaluable(acls@, f, i as int)
            },
        decreases n - i,
    {
        match flow {
            None => {
                return true;
            },
            Some(f) => {
                let acl = &acls[i];
                if acl.matches(&f, flow_cache) {
                    return !acl.drop;
                }
            },
        }
        i = i + 1;
    }
    false
}

/// `first_match` finds the lowest-indexed matching rule at or after `from`,
/// and finds none exactly when no rule from there on matches.
pub proof fn lemma_first_match_is_first(acls: Seq<Acl>, flow: Flow, from: int)
    requires
        0 <= from <= acls.len(),
    ensures
        match first_match(acls, flow, from) {
            Some(i) => from <= i < acls.len() && acls[i].admits(flow) && forall|j: int|
                from <= j < i ==> !#[trigger] acls[j].admits(flow),
            None => forall|j: int| from <= j < acls.len() ==> !#[trigger] acls[j].admits(flow),
        },
    decreases acls.len() - from,
{
    if from < acls.len() && !acls[from].admits(flow) {
        lemma_first_match_is_first(acls, flow, from + 1);
    }
}

/// A flow is let through exactly when some rule matches it and the first rule
/// that matches it does not drop.
pub proof fn lemma_verdict_first_match(acls: Seq<Acl>, flow: Flow)
    ensures
        verdict(acls, Some(flow)) <==> exists|i: int|
            0 <= i < acls.len() && #[trigger] acls[i].admits(flow) && !acls[i].drop && forall|j: int|
                0 <= j < i ==> !#[trigger] acls[j].admits(flow),
{
    lemma_first_match_is_first(acls, flow, 0);
    if verdict(acls, Some(flow)) {
        let i = first_match(acls, flow, 0)->0;
        assert(acls[i].admits(flow));
    }
    if exists|i: int|
        0 <= i < acls.len() && #[trigger] acls[i].admits(flow) && !acls[i].drop && forall|j: int|
            0 <= j < i ==> !#[trigger] acls[j].admits(flow) {
        let i = choose|i: int|
            0 <= i < acls.len() && #[trigger] acls[i].admits(flow) && !acls[i].drop && forall|j: int|
                0 <= j < i ==> !#[trigger] acls[j].admits(flow);
        match first_match(acls, flow, 0) {
            Some(k) => {
                if k < i {
                    assert(!acls[k].admits(flow));
                } else if k > i {
                    assert(!acls[i].admits(flow));
                }
            },
            None => {
                assert(!acls[i].admits(flow));
            },
        }
    }
}

/// With no rules, every packet is dropped.
pub proof fn lemma_no_rules_drop_all(flow: Option<Flow>)
    ensures
        !verdict(Seq::<Acl>::empty(), flow),
{
}

/// A flow that no rule matches is dropped.
pub proof fn lemma_unmatched_flow_dropped(acls: Seq<Acl>, flow: Flow)
    requires
        forall|j: int| 0 <= j < acls.len() ==> !#[trigger] acls[j].admits(flow),
    ensures
        !verdict(acls, Some(flow)),
{
    lemma_first_match_is_first(acls, flow, 0);
}

/// Rules after the first one that matches are never looked at: appending
/// rules changes neither the decision nor whether it is defined.
pub proof fn lemma_rules_after_match_ignored(acls: Seq<Acl>, more: Seq<Acl>, flow: Flow, from: int)
    requires
        0 <= from <= acls.len(),
        first_match(acls, flow, from) is Some,
    ensures
        first_match(acls + more, flow, from) == first_match(acls, flow, from),
        rules_evaluable(acls + more, flow, from) == rules_evaluable(acls, flow, from),
    decreases acls.len() - from,
{
    if from < acls.len() && !acls[from].admits(flow) {
        lemma_rules_after_match_ignored(acls, more, flow, from + 1);
    }
}

/// What a rule checks, field by field: both networks are given and hold the
/// flow's address on the same side, and each given port equals the flow's
/// port on the same side.
pub proof fn lemma_admits_fields(rule: Acl, flow: Flow)
    ensures
        rule.admits(flow) <==> {
            &&& rule.src_ip is Some && rule.src_ip->0.contains(flow.src_ip)
            &&& rule.dst_ip is Some && rule.dst_ip->0.contains(flow.dst_ip)
            &&& (rule.src_port is None || rule.src_port->0 == flow.src_port)
            &&& (rule.dst_port is None || rule.dst_port->0 == flow.dst_port)
        },
{
}

/// When a rule can be checked against a flow: its source network is given,
/// and its destination network too if the source network holds the flow's
/// source address.
pub proof fn lemma_evaluable_fields(rule: Acl, flow: Flow)
    ensures
        rule.evaluable(flow) <==> (rule.src_ip is Some && (rule.src_ip->0.contains(flow.src_ip)
            ==> rule.dst_ip is Some)),
{
}

/// With at least one rule, a packet without a flow is let through, whatever
/// the rules say; with none it is dropped.
pub proof fn lemma_flowless_packet_passes(acls: Seq<Acl>)
    ensures
        verdict(acls, None) == (acls.len() > 0),
        decidable(acls, None),
{
}

/// Checking the rules from `from` is defined exactly when every rule reached
/// (every rule all of whose predecessors from `from` can be checked and do not
/// match) can be checked.
pub proof fn lemma_rules_evaluable_reached(acls: Seq<Acl>, flow: Flow, from: int)
    requires
        0 <= from <= acls.len(),
    ensures
        rules_evaluable(acls, flow, from) <==> forall|i: int|
            from <= i < acls.len() && (forall|j: int|
                from <= j < i ==> #[trigger] acls[j].evaluable(flow) && !acls[j].admits(flow))
                ==> #[trigger] acls[i].evaluable(flow),
    decreases acls.len() - from,
{
    if from < acls.len() {
        lemma_rules_evaluable_reached(acls, flow, from + 1);
        if rules_evaluable(acls, flow, from) {
            assert forall|i: int|
                from <= i < acls.len() && (forall|j: int|
                    from <= j < i ==> #[trigger] acls[j].evaluable(flow) && !acls[j].admits(flow))
                    implies #[trigger] acls[i].evaluable(flow) by {
                if i > from && acls[from].admits(flow) {
                    assert(!acls[from].admits(flow));
                }
                if i > from && !acls[from].admits(flow) {
                    assert(forall|j: int|
                        from + 1 <= j < i ==> #[trigger] acls[j].evaluable(flow) && !acls[j].admits(
                            flow,
                        ));
                }
            }
        } else {
            if acls[from].evaluable(flow) {
                let i = choose|i: int|
                    from + 1 <= i < acls.len() && (forall|j: int|
                        from + 1 <= j < i ==> #[trigger] acls[j].evaluable(flow)
                            && !acls[j].admits(flow)) && !#[trigger] acls[i].evaluable(flow);
                assert(forall|j: int|
                    from <= j < i ==> #[trigger] acls[j].evaluable(flow) && !acls[j].admits(flow));
            }
        }
    }
}

} // verus!
