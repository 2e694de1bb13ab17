//! Flow sets and flow maps kept in standard hash tables with FNV hashing.
use crate::flow::{Flow, FlowKey};
use fnv::{FnvHashMap, FnvHashSet, FnvHasher};
use std::hash::BuildHasherDefault;
use vstd::prelude::*;

verus! {

/// The type `fnv::FnvHasher`, opaque: the hasher of the sets and maps below.
#[verifier::external_type_specification]
#[verifier::external_body]
pub struct ExFnvHasher(FnvHasher);

/// The type `std::hash::BuildHasherDefault`, opaque: with `FnvHasher` it is
/// `fnv::FnvBuildHasher`.
#[verifier::external_type_specification]
#[verifier::external_body]
#[verifier::reject_recursive_types(H)]
pub struct ExBuildHasherDefault<H>(BuildHasherDefault<H>);

/// `HashSet::contains` on a set hashed by `fnv::FnvHasher`. Claimed: the
/// result tells whether the key is in the set. (vstd states the same for
/// hashers it knows; FNV hashing is deterministic, so it holds here too.)
#[verifier::external_body]
fn fnv_set_contains(s: &FnvHashSet<FlowKey>, k: &FlowKey) -> (r: bool)
    ensures
        r == s@.contains(*k),
{
    s.contains(k)
}

/// `HashSet::insert` on a set hashed by `fnv::FnvHasher`. Claimed: the key is
/// added, nothing else changes, and the result tells whether it was new.
#[verifier::external_body]
fn fnv_set_insert(s: &mut FnvHashSet<FlowKey>, k: FlowKey) -> (r: bool)
    ensures
        final(s)@ == old(s)@.insert(k),
        r == !old(s)@.contains(k),
{
    s.insert(k)
}

/// `HashMap::get` on a map hashed by `fnv::FnvHasher`, the value copied out.
/// Claimed: the value stored under the key, if there is one.
#[verifier::external_body]
fn fnv_map_get(m: &FnvHashMap<FlowKey, Flow>, k: &FlowKey) -> (r: Option<Flow>)
    ensures
        r == (if m@.contains_key(*k) {
            Some(m@[*k])
        } else {
            None
        }),
{
    m.get(k).copied()
}

/// `HashMap::insert` on a map hashed by `fnv::FnvHasher`. Claimed: the key now
/// maps to the value, other keys are untouched, and the result is the value
/// the key had before, if any.
#[verifier::external_body]
fn fnv_map_insert(m: &mut FnvHashMap<FlowKey, Flow>, k: FlowKey, v: Flow) -> (r: Option<Flow>)
    ensures
        final(m)@ == old(m)@.insert(k, v),
        r == (if old(m)@.contains_key(k) {
            Some(old(m)@[k])
        } else {
            None
        }),
{
    m.insert(k, v)
}

/// A set of flows (connection tracking state), hashed with FNV.
pub struct FlowCache {
    set: FnvHashSet<FlowKey>,
}

impl View for FlowCache {
    type V = Set<FlowKey>;

    closed spec fn view(&self) -> Set<FlowKey> {
        self.set@
    }
}

impl FlowCache {
    pub fn new() -> (c: FlowCache)
        ensures
            c@ == Set::<FlowKey>::empty(),
    {
        FlowCache { set: FnvHashSet::<FlowKey>::default() }
    }

    pub fn contains(&self, flow: &Flow) -> (r: bool)
        ensures
            r == self@.contains(flow.key()),
    {
        fnv_set_contains(&self.set, &flow.to_key())
    }

    /// Adds a flow; returns whether it was not there before.
    pub fn insert(&mut self, flow: Flow) -> (r: bool)
        ensures
            final(self)@ == old(self)@.insert(flow.key()),
            r == !old(self)@.contains(flow.key()),
    {
        fnv_set_insert(&mut self.set, flow.to_key())
    }
}

/// A map from flows to flows, hashed with FNV.
pub struct FlowMap {
    map: FnvHashMap<FlowKey, Flow>,
}

impl View for FlowMap {
    type V = Map<FlowKey, Flow>;

    closed spec fn view(&self) -> Map<FlowKey, Flow> {
        self.map@
    }
}

impl FlowMap {
    /// An empty map.
    pub fn new() -> (m: FlowMap)
        ensures
            m@ =~= Map::empty(),
    {
        FlowMap { map: FnvHashMap::<FlowKey, Flow>::default() }
    }

    /// An empty map with room for one entry per port number (65536).
    pub fn for_all_ports() -> (m: FlowMap)
        ensures
            m@ =~= Map::empty(),
    {
        let mut map = FnvHashMap::<FlowKey, Flow>::default();
        map.reserve(65536);
        FlowMap { map }
    }

    pub fn get(&self, flow: &Flow) -> (r: Option<Flow>)
        ensures
            r == (if self@.contains_key(flow.key()) {
                Some(self@[flow.key()])
            } else {
                None
            }),
    {
        fnv_map_get(&self.map, &flow.to_key())
    }

    /// Maps `flow` to `value`; returns what `flow` was mapped to before, if anything.
    pub fn insert(&mut self, flow: Flow, value: Flow) -> (r: Option<Flow>)
        ensures
            final(self)@ == old(self)@.insert(flow.key(), value),
            r == (if old(self)@.contains_key(flow.key()) {
                Some(old(self)@[flow.key()])
            } else {
                None
            }),
    {
        fnv_map_insert(&mut self.map, flow.to_key(), value)
    }
}

} // verus!
