//! The filter stage of the six-stage rule chain: the same rules as in `bpf2`,
//! and flows let through are recorded in a flow cache.
use crate::bpf2::{decidable, verdict};
use crate::flow::{Flow, FlowKey};
use crate::flow_table::FlowCache;
use vstd::prelude::*;

pub use crate::bpf2::Acl;

verus! {

/// The recorded flows after the decision: a flow let through is added.
pub open spec fn recorded_after(acls: Seq<Acl>, flow: Option<Flow>, cache: Set<FlowKey>) -> Set<FlowKey> {
    match flow {
        Some(f) => if verdict(acls, flow) {
            cache.insert(f.key())
        } else {
            cache
        },
        None => cache,
    }
}

/// Decides whether a packet passes the rules, in order, and records the flow
/// of a packet that a rule lets through. What is recorded never changes a
/// decision, since the rules do not consult it.
pub fn acl_match(acls: &Vec<Acl>, flow: Option<Flow>, flow_cache: &mut FlowCache) -> (pass: bool)
    requires
        decidable(acls@, flow),
    ensures
        pass == verdict(acls@, flow),
        final(flow_cache)@ == recorded_after(acls@, flow, old(flow_cache)@),
        flow is None ==> pass == (acls@.len() > 0),
        !pass || flow is None ==> final(flow_cache)@ == old(flow_cache)@,
        pass && flow is Some ==> final(flow_cache)@ == old(flow_cache)@.insert(flow->0.key()),
{
    proof {
        lemma_recorded_only_on_pass(acls@, flow, old(flow_cache)@);
        crate::bpf2::lemma_flowless_packet_passes(acls@);
    }
    let n = acls.len();
    let mut i: usize = 0;
    while i < n
        invariant
            n == acls@.len(),
            0 <= i <= n,
            *flow_cache == *old(flow_cache),
            i > 0 ==> flow is Some,
            flow matches Some(f) ==> {
                &&& crate::bpf2::first_match(acls@, f, 0) == crate::bpf2::first_match(acls@, f, i as int)
                &&& crate::bpf2::rules_evaluable(acls@, f, i as int)
            },
        decreases n - i,
    {
        match flow {
            None => {
                return true;
            },
            Some(f) => {
                let acl = &acls[i];
                if acl.matches(&f, flow_cache) {
                    if !acl.drop {
                        flow_cache.insert(f);
                    }
                    return !acl.drop;
                }
            },
        }
        i = i + 1;
    }
    false
}

/// The recorded flows change only when a packet with a flow is let through,
/// and then gain exactly that flow.
pub proof fn lemma_recorded_only_on_pass(acls: Seq<Acl>, flow: Option<Flow>, cache: Set<FlowKey>)
    ensures
        !verdict(acls, flow) ==> recorded_after(acls, flow, cache) == cache,
        flow is None ==> recorded_after(acls, flow, cache) == cache,
        verdict(acls, flow) && flow is Some ==> recorded_after(acls, flow, cache) == cache.insert(
            (
                flow->0.src_ip,
                flow->0.dst_ip,
                flow->0.src_port,
                flow->0.dst_port,
                flow->0.proto,
            ),
        ),
{
}

} // verus!
