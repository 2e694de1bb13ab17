//! Packet-processing rules of a set of network functions: first-match ACL
//! filtering with connection tracking, BPF-style rule chains, source NAT with
//! port allocation, and the timestamp bookkeeping of the scheduler benchmarks.

pub mod flow;
pub mod flow_table;
pub mod acl;
pub mod bpf2;
pub mod bpf6;
pub mod source_nat;
pub mod stats;
