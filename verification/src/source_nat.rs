//! Source NAT: outgoing flows get the NAT address and a fresh source port,
//! and the reply direction is mapped back.
use crate::flow::{Flow, FlowKey};
use crate::flow_table::FlowMap;
use vstd::prelude::*;

verus! {

/// The first port handed out.
pub const MIN_PORT: u16 = 1024;

/// Ports are handed out while the next one is below this.
pub const MAX_PORT: u16 = 65535;

/// The number of slots in the port table: one for each of `MIN_PORT..MAX_PORT`.
/// The table is indexed by the port number itself, so ports from this value
/// on have no slot.
pub const PORT_SLOTS: usize = 64511;

/// A slot of the port table: the flow a port was handed to.
#[derive(Clone, Copy, Debug)]
pub struct FlowUsed {
    pub flow: Flow,
    pub time: u64,
    pub used: bool,
}

/// The state of the translator as plain values.
pub struct NatState {
    /// The address that outgoing flows are given.
    pub ip: u32,
    /// Flow (either direction) to the flow that replaces it.
    pub mappings: Map<FlowKey, Flow>,
    /// The port table.
    pub slots: Seq<FlowUsed>,
    /// The port the next new flow gets.
    pub next_port: u16,
}

impl NatState {
    pub open spec fn well_formed(self) -> bool {
        &&& self.slots.len() == PORT_SLOTS
        &&& MIN_PORT <= self.next_port
    }

    /// The flow would get a new port.
    pub open spec fn assigns_new(self, flow: Flow) -> bool {
        !self.mappings.contains_key(flow.key()) && self.next_port < MAX_PORT
    }

    /// The port the flow would get has no slot in the port table.
    pub open spec fn overruns(self, flow: Flow) -> bool {
        self.assigns_new(flow) && self.next_port >= PORT_SLOTS
    }

    /// Every port handed out so far is recorded in its slot as used, with the
    /// flow it was handed to, and the reply to that flow's replacement is
    /// mapped back to the reply to the flow.
    pub open spec fn ports_recorded(self) -> bool {
        &&& self.well_formed()
        &&& forall|p: int|
            MIN_PORT <= p < self.next_port && p < PORT_SLOTS ==> {
                &&& (#[trigger] self.slots[p]).used
                &&& self.mappings.contains_key(reply_key(self.slots[p].flow, self.ip, p as u16))
                &&& self.mappings[reply_key(self.slots[p].flow, self.ip, p as u16)]
                    == self.slots[p].flow.reversed()
            }
    }
}

/// A slot of the port table that no port has been handed to yet.
pub open spec fn empty_slot() -> FlowUsed {
    FlowUsed {
        flow: Flow { src_ip: 0, dst_ip: 0, src_port: 0, dst_port: 0, proto: 0 },
        time: 0,
        used: false,
    }
}

/// The flow with its source replaced by the NAT address and the given port.
pub open spec fn outgoing(flow: Flow, ip: u32, port: u16) -> Flow {
    Flow { src_ip: ip, src_port: port, ..flow }
}

/// The key of the reply to `flow` once it has been given `ip` and `port`.
pub open spec fn reply_key(flow: Flow, ip: u32, port: u16) -> FlowKey {
    outgoing(flow, ip, port).reversed().key()
}

/// One translation step: a known flow is replaced by what it maps to; a new
/// flow gets the next port, and both it and the reply to its replacement are
/// recorded, as is the flow in the port's slot (if the port has one); when
/// ports have run out a new flow is left untranslated.
pub open spec fn nat_step(s: NatState, flow: Flow) -> (NatState, Option<Flow>) {
    if s.mappings.contains_key(flow.key()) {
        (s, Some(s.mappings[flow.key()]))
    } else if s.next_port < MAX_PORT {
        let port = s.next_port;
        let out = outgoing(flow, s.ip, port);
        let slots = if (port as int) < s.slots.len() {
            s.slots.update(port as int, FlowUsed { flow, used: true, ..s.slots[port as int] })
        } else {
            s.slots
        };
        (
            NatState {
                ip: s.ip,
                mappings: s.mappings.insert(flow.key(), out).insert(
                    out.reversed().key(),
                    flow.reversed(),
                ),
                slots,
                next_port: (port + 1) as u16,
            },
            Some(out),
        )
    } else {
        (s, None)
    }
}

/// The translator's state.
pub struct Nat {
    ip: u32,
    port_hash: FlowMap,
    flow_vec: Vec<FlowUsed>,
    next_port: u16,
}

impl View for Nat {
    type V = NatState;

    closed spec fn view(&self) -> NatState {
        NatState {
            ip: self.ip,
            mappings: self.port_hash@,
            slots: self.flow_vec@,
            next_port: self.next_port,
        }
    }
}

impl Nat {
    /// A translator that gives outgoing flows the address `nat_ip`; nothing is
    /// mapped yet and the first port is `MIN_PORT`.
    pub fn new(nat_ip: u32) -> (n: Nat)
        ensures
            n@.well_formed(),
            n@.ip == nat_ip,
            n@.mappings =~= Map::empty(),
            n@.next_port == MIN_PORT,
            forall|i: int| 0 <= i < PORT_SLOTS ==> #[trigger] n@.slots[i] == empty_slot(),
            n@.ports_recorded(),
    {
        let port_hash = FlowMap::for_all_ports();
        let mut flow_vec: Vec<FlowUsed> = Vec::new();
        let mut i: usize = 0;
        while i < PORT_SLOTS
            invariant
                flow_vec@.len() == i,
                i <= PORT_SLOTS,
                forall|j: int| 0 <= j < i ==> #[trigger] flow_vec@[j] == empty_slot(),
            decreases PORT_SLOTS - i,
        {
            let empty = Flow { src_ip: 0, dst_ip: 0, src_port: 0, dst_port: 0, proto: 0 };
            flow_vec.push(FlowUsed { flow: empty, time: 0, used: false });
            i = i + 1;
        }
        Nat { ip: nat_ip, port_hash, flow_vec, next_port: MIN_PORT }
    }

    /// Whether `translate` is defined on this flow: it is unless the flow
    /// would get a port that has no slot in the port table.
    pub fn can_translate(&self, flow: &Flow) -> (r: bool)
        ensures
            r == !self@.overruns(*flow),
    {
        match self.port_hash.get(flow) {
            Some(_) => true,
            None => !(self.next_port < MAX_PORT && (self.next_port as usize) >= PORT_SLOTS),
        }
    }

    /// Translates a flow: returns the flow to write into the packet, if any.
    pub fn translate(&mut self, flow: Flow) -> (r: Option<Flow>)
        requires
            old(self)@.well_formed(),
            !old(self)@.overruns(flow),
        ensures
            final(self)@.well_formed(),
            (final(self)@, r) == nat_step(old(self)@, flow),
            old(self)@.ports_recorded() ==> final(self)@.ports_recorded(),
    {
        proof {
            if old(self)@.ports_recorded() {
                lemma_step_keeps_records(old(self)@, flow);
            }
        }
        match self.port_hash.get(&flow) {
            Some(s) => Some(s),
            None => {
                if self.next_port < MAX_PORT {
                    let assigned_port = self.next_port;
                    self.next_port = self.next_port + 1;
                    let idx = assigned_port as usize;
                    let mut slot = self.flow_vec[idx];
                    slot.flow = flow;
                    slot.used = true;
                    self.flow_vec.set(idx, slot);
                    let mut outgoing_flow = flow;
                    outgoing_flow.src_ip = self.ip;
                    outgoing_flow.src_port = assigned_port;
                    let rev_flow = outgoing_flow.reverse_flow();
                    self.port_hash.insert(flow, outgoing_flow);
                    self.port_hash.insert(rev_flow, flow.reverse_flow());
                    Some(outgoing_flow)
                } else {
                    None
                }
            },
        }
    }

    /// The port the next new flow gets.
    pub fn next_port(&self) -> (p: u16)
        ensures
            p == self@.next_port,
    {
        self.next_port
    }

    /// The address outgoing flows are given.
    pub fn nat_ip(&self) -> (a: u32)
        ensures
            a == self@.ip,
    {
        self.ip
    }

    /// The slot of the port table for `port`, if the table has one.
    pub fn slot(&self, port: u16) -> (s: Option<FlowUsed>)
        requires
            self@.well_formed(),
        ensures
            s == (if (port as int) < PORT_SLOTS {
                Some(self@.slots[port as int])
            } else {
                None
            }),
    {
        if (port as usize) < PORT_SLOTS {
            Some(self.flow_vec[port as usize])
        } else {
            None
        }
    }
}

/// A translation, once made, is given again for the same flow and nothing
/// changes the second time. (If the reply to the new flow's replacement is the
/// flow itself, recording the reply overwrote it; that case is left out.)
pub proof fn lemma_translation_stable(s: NatState, flow: Flow)
    requires
        nat_step(s, flow).1 is Some,
        nat_step(s, flow).1->0.reversed().key() != flow.key() || s.mappings.contains_key(flow.key()),
    ensures
        nat_step(nat_step(s, flow).0, flow) == (nat_step(s, flow).0, nat_step(s, flow).1),
{
}

/// The reply to a newly translated flow is translated back into the reply to
/// the original flow.
pub proof fn lemma_reply_translated_back(s: NatState, flow: Flow)
    requires
        s.assigns_new(flow),
    ensures
        nat_step(nat_step(s, flow).0, nat_step(s, flow).1->0.reversed()).1 == Some(flow.reversed()),
{
    crate::flow::lemma_reverse_involutive(flow);
}

/// A new flow keeps its destination and protocol, gets the NAT address and
/// the next port as its source, the port is recorded as handed to the flow,
/// and the next new flow gets the following port.
pub proof fn lemma_new_flow_gets_fresh_port(s: NatState, flow: Flow)
    requires
        s.well_formed(),
        s.assigns_new(flow),
        !s.overruns(flow),
    ensures
        ({
            let (t, r) = nat_step(s, flow);
            &&& r == Some(outgoing(flow, s.ip, s.next_port))
            &&& r->0.dst_ip == flow.dst_ip && r->0.dst_port == flow.dst_port && r->0.proto == flow.proto
            &&& r->0.src_ip == s.ip && r->0.src_port == s.next_port
            &&& MIN_PORT <= r->0.src_port < MAX_PORT
            &&& t.next_port == s.next_port + 1
            &&& t.slots[s.next_port as int].used && t.slots[s.next_port as int].flow == flow
            &&& t.well_formed()
        }),
{
}

/// Ports are never handed out twice: the next port only grows, and every
/// port handed out is below the next one.
pub proof fn lemma_ports_increase(s: NatState, flow: Flow)
    ensures
        nat_step(s, flow).0.next_port >= s.next_port,
        s.assigns_new(flow) ==> nat_step(s, flow).1->0.src_port < nat_step(s, flow).0.next_port,
{
}

/// Known flows keep their translation while new flows are added, unless the
/// new entries reuse their keys.
pub proof fn lemma_known_flow_kept(s: NatState, flow: Flow, other: Flow)
    requires
        s.mappings.contains_key(other.key()),
        other.key() != flow.key(),
        s.assigns_new(flow) ==> other.key() != outgoing(flow, s.ip, s.next_port).reversed().key(),
    ensures
        nat_step(nat_step(s, flow).0, other) == (nat_step(s, flow).0, Some(s.mappings[other.key()])),
{
}

/// When ports have run out, a new flow is left untranslated and nothing changes.
pub proof fn lemma_exhausted_untranslated(s: NatState, flow: Flow)
    requires
        !s.mappings.contains_key(flow.key()),
        s.next_port == MAX_PORT,
    ensures
        nat_step(s, flow) == (s, Option::<Flow>::None),
{
}

/// The state after the flows, one translation step each.
pub open spec fn nat_run(s: NatState, flows: Seq<Flow>) -> NatState
    decreases flows.len(),
{
    if flows.len() == 0 {
        s
    } else {
        nat_run(nat_step(s, flows[0]).0, flows.drop_first())
    }
}

/// How many of the flows get a new port.
pub open spec fn new_flow_count(s: NatState, flows: Seq<Flow>) -> nat
    decreases flows.len(),
{
    if flows.len() == 0 {
        0
    } else {
        (if s.assigns_new(flows[0]) {
            1nat
        } else {
            0nat
        }) + new_flow_count(nat_step(s, flows[0]).0, flows.drop_first())
    }
}

/// None of the flows, translated one after the other, records its reply
/// under the key `k`.
pub open spec fn key_untouched(s: NatState, flows: Seq<Flow>, k: FlowKey) -> bool
    decreases flows.len(),
{
    if flows.len() == 0 {
        true
    } else {
        &&& !(s.assigns_new(flows[0]) && reply_key(flows[0], s.ip, s.next_port) == k)
        &&& key_untouched(nat_step(s, flows[0]).0, flows.drop_first(), k)
    }
}

/// One step keeps the NAT address and the slots of ports already handed out,
/// never lowers the next port, and keeps the port records.
pub proof fn lemma_step_keeps_records(s: NatState, flow: Flow)
    ensures
        nat_step(s, flow).0.ip == s.ip,
        nat_step(s, flow).0.next_port >= s.next_port,
        nat_step(s, flow).0.slots.len() == s.slots.len(),
        forall|p: int|
            0 <= p < s.next_port && p < s.slots.len() ==> #[trigger] nat_step(s, flow).0.slots[p]
                == s.slots[p],
        s.well_formed() ==> nat_step(s, flow).0.well_formed(),
        s.ports_recorded() ==> nat_step(s, flow).0.ports_recorded(),
{
    let t = nat_step(s, flow).0;
    if s.ports_recorded() && s.assigns_new(flow) {
        let port = s.next_port;
        let out = outgoing(flow, s.ip, port);
        assert forall|p: int| MIN_PORT <= p < t.next_port && p < PORT_SLOTS implies {
            &&& (#[trigger] t.slots[p]).used
            &&& t.mappings.contains_key(reply_key(t.slots[p].flow, t.ip, p as u16))
            &&& t.mappings[reply_key(t.slots[p].flow, t.ip, p as u16)] == t.slots[p].flow.reversed()
        } by {
            if p < port {
                let k = reply_key(s.slots[p].flow, s.ip, p as u16);
                assert(s.mappings.contains_key(k));
                assert(k != flow.key());
                assert(k.3 != out.reversed().key().3);
            } else {
                assert(t.slots[p].flow == flow);
            }
        }
    }
}

/// Translating flows one after the other keeps the NAT address and the slots
/// of ports already handed out, never lowers the next port, and keeps the
/// port records.
pub proof fn lemma_run_keeps_records(s: NatState, flows: Seq<Flow>)
    ensures
        nat_run(s, flows).ip == s.ip,
        nat_run(s, flows).next_port >= s.next_port,
        nat_run(s, flows).slots.len() == s.slots.len(),
        forall|p: int|
            0 <= p < s.next_port && p < s.slots.len() ==> #[trigger] nat_run(s, flows).slots[p]
                == s.slots[p],
        s.ports_recorded() ==> nat_run(s, flows).ports_recorded(),
    decreases flows.len(),
{
    if flows.len() > 0 {
        let t = nat_step(s, flows[0]).0;
        lemma_step_keeps_records(s, flows[0]);
        lemma_run_keeps_records(t, flows.drop_first());
        assert forall|p: int| 0 <= p < s.next_port && p < s.slots.len() implies #[trigger] nat_run(
            s,
            flows,
        ).slots[p] == s.slots[p] by {
            assert(nat_run(t, flows.drop_first()).slots[p] == t.slots[p]);
        }
    }
}

/// After any later traffic, the reply to a newly translated flow is still
/// translated back into the reply to the original flow.
pub proof fn lemma_reply_translated_back_later(s: NatState, flow: Flow, later: Seq<Flow>)
    requires
        s.ports_recorded(),
        s.assigns_new(flow),
        !s.overruns(flow),
    ensures
        ({
            let (t, r) = nat_step(s, flow);
            let u = nat_run(t, later);
            nat_step(u, r->0.reversed()) == (u, Some(flow.reversed()))
        }),
{
    let (t, r) = nat_step(s, flow);
    let port = s.next_port;
    lemma_step_keeps_records(s, flow);
    lemma_run_keeps_records(t, later);
    let u = nat_run(t, later);
    assert(t.slots[port as int].flow == flow);
    assert(u.slots[port as int] == t.slots[port as int]);
    assert(u.slots[port as int].used);
    assert(r->0.reversed().key() == reply_key(flow, s.ip, port));
}

/// Each flow that gets a new port raises the next port by one.
pub proof fn lemma_run_counts_new_flows(s: NatState, flows: Seq<Flow>)
    ensures
        nat_run(s, flows).next_port == s.next_port + new_flow_count(s, flows),
        nat_run(s, flows).ip == s.ip,
    decreases flows.len(),
{
    if flows.len() > 0 {
        lemma_run_counts_new_flows(nat_step(s, flows[0]).0, flows.drop_first());
    }
}

/// After `earlier` traffic, a new flow gets the NAT address and the port that
/// follows the ones handed out: starting from `MIN_PORT`, the k-th new flow
/// (counting from 0) gets port `MIN_PORT + k`.
pub proof fn lemma_new_flow_port_counts(s: NatState, earlier: Seq<Flow>, flow: Flow)
    requires
        nat_run(s, earlier).assigns_new(flow),
    ensures
        nat_step(nat_run(s, earlier), flow).1 == Some(
            outgoing(flow, s.ip, (s.next_port + new_flow_count(s, earlier)) as u16),
        ),
        s.next_port + new_flow_count(s, earlier) < MAX_PORT,
{
    lemma_run_counts_new_flows(s, earlier);
}

/// A mapping stays as it is through any traffic that does not record a reply
/// under its key.
pub proof fn lemma_mapping_kept(s: NatState, flows: Seq<Flow>, k: FlowKey)
    requires
        s.mappings.contains_key(k),
        key_untouched(s, flows, k),
    ensures
        nat_run(s, flows).mappings.contains_key(k),
        nat_run(s, flows).mappings[k] == s.mappings[k],
    decreases flows.len(),
{
    if flows.len() > 0 {
        let g = flows[0];
        let t = nat_step(s, g).0;
        if s.assigns_new(g) {
            assert(k != g.key());
        }
        lemma_mapping_kept(t, flows.drop_first(), k);
    }
}

/// Replies are recorded under keys whose destination is the NAT address, so
/// traffic never records one under a key with another destination.
pub proof fn lemma_untouched_off_nat_address(s: NatState, flows: Seq<Flow>, k: FlowKey)
    requires
        k.1 != s.ip,
    ensures
        key_untouched(s, flows, k),
    decreases flows.len(),
{
    if flows.len() > 0 {
        lemma_untouched_off_nat_address(nat_step(s, flows[0]).0, flows.drop_first(), k);
    }
}

/// A translation, once made, is given again after any later traffic that
/// does not record a reply under the flow's key (which holds in particular of
/// every flow not addressed to the NAT address).
pub proof fn lemma_translation_kept_later(s: NatState, flow: Flow, later: Seq<Flow>)
    requires
        nat_step(s, flow).1 is Some,
        nat_step(s, flow).1->0.reversed().key() != flow.key() || s.mappings.contains_key(flow.key()),
        key_untouched(nat_step(s, flow).0, later, flow.key()),
    ensures
        ({
            let u = nat_run(nat_step(s, flow).0, later);
            nat_step(u, flow) == (u, nat_step(s, flow).1)
        }),
{
    let t = nat_step(s, flow).0;
    lemma_mapping_kept(t, later, flow.key());
}

/// A flow already mapped is replaced by what it maps to, and nothing changes.
pub proof fn lemma_known_flow_translated(s: NatState, flow: Flow)
    requires
        s.mappings.contains_key(flow.key()),
    ensures
        nat_step(s, flow) == (s, Some(s.mappings[flow.key()])),
{
}

/// A step is undefined exactly for a flow not mapped yet while the next port
/// is one without a slot but still below `MAX_PORT`.
pub proof fn lemma_overruns_exactly(s: NatState, flow: Flow)
    ensures
        s.overruns(flow) <==> (!s.mappings.contains_key(flow.key()) && PORT_SLOTS <= s.next_port
            && s.next_port < MAX_PORT),
{
}

} // verus!
