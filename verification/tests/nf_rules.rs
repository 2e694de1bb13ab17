use faas_nfv::acl::{self, Acl};
use faas_nfv::bpf2;
use faas_nfv::bpf6;
use faas_nfv::flow::{Flow, Ipv4Prefix};
use faas_nfv::flow_table::{FlowCache, FlowMap};
use faas_nfv::source_nat::{Nat, MIN_PORT, PORT_SLOTS};
use faas_nfv::stats::{checked_total, timestamp_diffs};

fn ip(a: u32, b: u32, c: u32, d: u32) -> u32 {
    (a << 24) | (b << 16) | (c << 8) | d
}

fn tcp(src_ip: u32, src_port: u16, dst_ip: u32, dst_port: u16) -> Flow {
    Flow { src_ip, dst_ip, src_port, dst_port, proto: 6 }
}

fn allow_all() -> Acl {
    Acl { src_ip: None, dst_ip: None, src_port: None, dst_port: None, established: None, drop: false }
}

#[test]
fn reverse_flow_twice_is_identity() {
    let f = tcp(ip(10, 0, 0, 1), 1234, ip(192, 168, 1, 1), 80);
    let r = f.reverse_flow();
    assert_eq!(r, Flow { src_ip: ip(192, 168, 1, 1), dst_ip: ip(10, 0, 0, 1), src_port: 80, dst_port: 1234, proto: 6 });
    assert_eq!(r.reverse_flow(), f);
    assert_eq!(f.to_key(), (ip(10, 0, 0, 1), ip(192, 168, 1, 1), 1234, 80, 6));
}

#[test]
fn prefix_membership() {
    let p = Ipv4Prefix::new(ip(10, 0, 0, 0), 8);
    assert_eq!(p.ip_address(), ip(10, 0, 0, 0));
    assert_eq!(p.prefix(), 8);
    assert!(p.in_range(ip(10, 255, 3, 4)));
    assert!(!p.in_range(ip(11, 0, 0, 0)));
    let p24 = Ipv4Prefix::new(ip(192, 168, 1, 77), 24);
    assert!(p24.in_range(ip(192, 168, 1, 1)));
    assert!(!p24.in_range(ip(192, 168, 2, 1)));
}

#[test]
fn prefix_extremes() {
    let all = Ipv4Prefix::new(ip(1, 2, 3, 4), 0);
    assert!(all.in_range(0));
    assert!(all.in_range(u32::MAX));
    let host = Ipv4Prefix::new(ip(1, 2, 3, 4), 32);
    assert!(host.in_range(ip(1, 2, 3, 4)));
    assert!(!host.in_range(ip(1, 2, 3, 5)));
    let one = Ipv4Prefix::new(ip(128, 0, 0, 0), 1);
    assert!(one.in_range(u32::MAX));
    assert!(!one.in_range(ip(127, 255, 255, 255)));
}

#[test]
fn flow_cache_insert_and_contains() {
    let mut c = FlowCache::new();
    let f = tcp(1, 2, 3, 4);
    assert!(!c.contains(&f));
    assert!(c.insert(f));
    assert!(c.contains(&f));
    assert!(!c.contains(&f.reverse_flow()));
    assert!(!c.insert(f));
}

#[test]
fn flow_map_get_and_insert() {
    let mut m = FlowMap::new();
    let f = tcp(1, 2, 3, 4);
    let g = tcp(5, 6, 7, 8);
    assert_eq!(m.get(&f), None);
    assert_eq!(m.insert(f, g), None);
    assert_eq!(m.get(&f), Some(g));
    assert_eq!(m.insert(f, f), Some(g));
    assert_eq!(m.get(&f), Some(f));
    assert_eq!(m.get(&g), None);
    let mut big = FlowMap::for_all_ports();
    assert_eq!(big.get(&f), None);
    big.insert(g, f);
    assert_eq!(big.get(&g), Some(f));
}

#[test]
fn acl_fields_and_ports() {
    let rule = Acl {
        src_ip: Some(Ipv4Prefix::new(ip(10, 0, 0, 0), 8)),
        dst_ip: Some(Ipv4Prefix::new(ip(192, 168, 0, 0), 16)),
        src_port: None,
        dst_port: Some(80),
        established: None,
        drop: false,
    };
    let c = FlowCache::new();
    assert!(rule.matches(&tcp(ip(10, 1, 1, 1), 5555, ip(192, 168, 9, 9), 80), &c));
    assert!(!rule.matches(&tcp(ip(10, 1, 1, 1), 5555, ip(192, 168, 9, 9), 443), &c));
    assert!(!rule.matches(&tcp(ip(11, 1, 1, 1), 5555, ip(192, 168, 9, 9), 80), &c));
    assert!(!rule.matches(&tcp(ip(10, 1, 1, 1), 5555, ip(192, 169, 9, 9), 80), &c));
}

#[test]
fn acl_established_needs_known_connection() {
    let rule = Acl { established: Some(true), ..allow_all() };
    let new_only = Acl { established: Some(false), ..allow_all() };
    let mut c = FlowCache::new();
    let f = tcp(1, 1000, 2, 80);
    assert!(!rule.matches(&f, &c));
    assert!(new_only.matches(&f, &c));
    c.insert(f);
    assert!(rule.matches(&f, &c));
    assert!(rule.matches(&f.reverse_flow(), &c));
    assert!(!new_only.matches(&f.reverse_flow(), &c));
}

#[test]
fn acl_first_match_decides() {
    let f = tcp(ip(10, 0, 0, 5), 4000, ip(8, 8, 8, 8), 53);
    let deny_dns = Acl { dst_port: Some(53), drop: true, ..allow_all() };
    let mut c = FlowCache::new();
    let rules = vec![deny_dns, allow_all()];
    assert!(!acl::acl_match(&rules, Some(f), &mut c));
    assert!(!c.contains(&f));
    let rules = vec![allow_all(), deny_dns];
    assert!(acl::acl_match(&rules, Some(f), &mut c));
    assert!(c.contains(&f));
}

#[test]
fn acl_no_rules_drop_everything() {
    let mut c = FlowCache::new();
    let rules: Vec<Acl> = Vec::new();
    assert!(!acl::acl_match(&rules, Some(tcp(1, 2, 3, 4)), &mut c));
    assert!(!acl::acl_match(&rules, None, &mut c));
}

#[test]
fn acl_packet_without_flow_passes() {
    let mut c = FlowCache::new();
    let deny = Acl { drop: true, ..allow_all() };
    assert!(acl::acl_match(&vec![deny], None, &mut c));
    assert!(!c.contains(&tcp(0, 0, 0, 0)));
}

#[test]
fn acl_unmatched_flow_dropped() {
    let mut c = FlowCache::new();
    let only_http = Acl { dst_port: Some(80), ..allow_all() };
    assert!(!acl::acl_match(&vec![only_http], Some(tcp(1, 2, 3, 443)), &mut c));
    assert!(!c.contains(&tcp(1, 2, 3, 443)));
}

#[test]
fn acl_reply_to_passed_flow_is_established() {
    // Outbound from the inside network is allowed; inbound only for known connections.
    let inside = Ipv4Prefix::new(ip(10, 0, 0, 0), 8);
    let outbound = Acl { src_ip: Some(inside), ..allow_all() };
    let inbound = Acl { dst_ip: Some(inside), established: Some(true), ..allow_all() };
    let rules = vec![outbound, inbound];
    let mut c = FlowCache::new();
    let out = tcp(ip(10, 0, 0, 7), 40000, ip(93, 184, 216, 34), 443);
    let unsolicited = tcp(ip(93, 184, 216, 34), 443, ip(10, 0, 0, 8), 40000);
    assert!(!acl::acl_match(&rules, Some(unsolicited), &mut c));
    assert!(acl::acl_match(&rules, Some(out), &mut c));
    assert!(acl::acl_match(&rules, Some(out.reverse_flow()), &mut c));
    assert!(!acl::acl_match(&rules, Some(unsolicited), &mut c));
}

fn bpf_rule(src: (u32, u32), dst: (u32, u32), dst_port: Option<u16>, drop: bool) -> bpf2::Acl {
    bpf2::Acl {
        src_ip: Some(Ipv4Prefix::new(src.0, src.1)),
        dst_ip: Some(Ipv4Prefix::new(dst.0, dst.1)),
        src_port: None,
        dst_port,
        established: None,
        drop,
    }
}

#[test]
fn bpf2_first_match_decides() {
    let c = FlowCache::new();
    let drop_ssh = bpf_rule((0, 0), (0, 0), Some(22), true);
    let allow_lan = bpf_rule((ip(192, 168, 0, 0), 16), (0, 0), None, false);
    let rules = vec![drop_ssh, allow_lan];
    assert!(!bpf2::acl_match(&rules, Some(tcp(ip(192, 168, 1, 1), 5000, 9, 22)), &c));
    assert!(bpf2::acl_match(&rules, Some(tcp(ip(192, 168, 1, 1), 5000, 9, 80)), &c));
    assert!(!bpf2::acl_match(&rules, Some(tcp(ip(172, 16, 1, 1), 5000, 9, 80)), &c));
    assert!(bpf2::acl_match(&rules, None, &c));
    assert!(!bpf2::acl_match(&Vec::new(), None, &c));
}

#[test]
fn bpf2_rule_without_network_is_undecidable() {
    let incomplete = bpf2::Acl {
        src_ip: None,
        dst_ip: Some(Ipv4Prefix::new(0, 0)),
        src_port: None,
        dst_port: None,
        established: None,
        drop: false,
    };
    let allow_all = bpf_rule((0, 0), (0, 0), None, false);
    let f = tcp(1, 2, 3, 4);
    assert!(!bpf2::can_decide(&vec![incomplete], Some(f)));
    assert!(bpf2::can_decide(&vec![incomplete], None));
    // A rule after the first match is never checked.
    assert!(bpf2::can_decide(&vec![allow_all, incomplete], Some(f)));
    assert!(!bpf2::can_decide(&vec![bpf_rule((ip(9, 0, 0, 0), 8), (0, 0), None, false), incomplete], Some(f)));
    // The destination network is looked at only for a source in the source network.
    let no_dst = bpf2::Acl { src_ip: Some(Ipv4Prefix::new(ip(9, 0, 0, 0), 8)), dst_ip: None, ..incomplete };
    assert!(bpf2::can_decide(&vec![no_dst], Some(f)));
    assert!(!bpf2::acl_match(&vec![no_dst], Some(f), &FlowCache::new()));
    assert!(!bpf2::can_decide(&vec![no_dst], Some(tcp(ip(9, 1, 1, 1), 2, 3, 4))));
    assert!(!no_dst.matches(&f, &FlowCache::new()));
}

#[test]
fn bpf6_records_passed_flows() {
    let mut c = FlowCache::new();
    let drop_web = bpf_rule((0, 0), (0, 0), Some(80), true);
    let allow = bpf_rule((0, 0), (0, 0), None, false);
    let rules = vec![drop_web, allow];
    let web = tcp(1, 2, 3, 80);
    let dns = tcp(1, 2, 3, 53);
    assert!(!bpf6::acl_match(&rules, Some(web), &mut c));
    assert!(!c.contains(&web));
    assert!(bpf6::acl_match(&rules, Some(dns), &mut c));
    assert!(c.contains(&dns));
    // Recorded flows do not change verdicts.
    assert!(bpf6::acl_match(&rules, Some(dns), &mut c));
    assert!(!bpf6::acl_match(&rules, Some(web), &mut c));
}

#[test]
fn nat_new_flow_gets_nat_address_and_first_port() {
    let nat_ip = ip(10, 0, 0, 1);
    let mut n = Nat::new(nat_ip);
    let f = tcp(ip(192, 168, 1, 2), 5555, ip(8, 8, 8, 8), 53);
    assert!(n.can_translate(&f));
    let out = n.translate(f).unwrap();
    assert_eq!(out, Flow { src_ip: nat_ip, src_port: MIN_PORT, ..f });
}

#[test]
fn nat_translation_is_stable() {
    let mut n = Nat::new(ip(10, 0, 0, 1));
    let f = tcp(ip(192, 168, 1, 2), 5555, ip(8, 8, 8, 8), 53);
    let first = n.translate(f);
    assert_eq!(n.translate(f), first);
    assert_eq!(n.translate(f), first);
}

#[test]
fn nat_reply_is_translated_back() {
    let mut n = Nat::new(ip(10, 0, 0, 1));
    let f = tcp(ip(192, 168, 1, 2), 5555, ip(8, 8, 8, 8), 53);
    let out = n.translate(f).unwrap();
    assert_eq!(n.translate(out.reverse_flow()), Some(f.reverse_flow()));
}

#[test]
fn nat_ports_are_fresh_and_increasing() {
    let mut n = Nat::new(ip(10, 0, 0, 1));
    let a = n.translate(tcp(1, 100, 9, 80)).unwrap();
    let b = n.translate(tcp(2, 100, 9, 80)).unwrap();
    let c = n.translate(tcp(1, 101, 9, 80)).unwrap();
    assert_eq!(a.src_port, 1024);
    assert_eq!(b.src_port, 1025);
    assert_eq!(c.src_port, 1026);
    // An earlier flow keeps its port.
    assert_eq!(n.translate(tcp(1, 100, 9, 80)), Some(a));
}

#[test]
fn nat_port_table_limit() {
    let mut n = Nat::new(ip(10, 0, 0, 1));
    let slots = PORT_SLOTS as u32;
    let mut k: u32 = 1024;
    while k < slots {
        let f = tcp(ip(192, 168, 0, 0) + k, 7000, ip(1, 1, 1, 1), 80);
        assert!(n.can_translate(&f));
        assert_eq!(n.translate(f).unwrap().src_port, k as u16);
        k += 1;
    }
    let fresh = tcp(ip(172, 16, 0, 1), 7000, ip(1, 1, 1, 1), 80);
    assert!(!n.can_translate(&fresh));
    // Known flows still translate.
    let known = tcp(ip(192, 168, 0, 0) + 1024, 7000, ip(1, 1, 1, 1), 80);
    assert!(n.can_translate(&known));
    assert_eq!(n.translate(known).unwrap().src_port, 1024);
}

#[test]
fn timestamp_diffs_of_pairs() {
    assert_eq!(timestamp_diffs(&vec![10, 15, 100, 130]), vec![5, 30]);
    // The clock going backwards gives 0; an unpaired last stamp is ignored.
    assert_eq!(timestamp_diffs(&vec![50, 40, 7, 7, 99]), vec![0, 0]);
    assert_eq!(timestamp_diffs(&vec![3]), Vec::<u64>::new());
    assert_eq!(timestamp_diffs(&Vec::new()), Vec::<u64>::new());
    assert_eq!(timestamp_diffs(&vec![0, u64::MAX]), vec![u64::MAX]);
}

#[test]
fn checked_total_sums_or_reports_overflow() {
    assert_eq!(checked_total(&vec![5, 30]), Some(35));
    assert_eq!(checked_total(&Vec::new()), Some(0));
    assert_eq!(checked_total(&vec![u64::MAX, 0]), Some(u64::MAX));
    assert_eq!(checked_total(&vec![u64::MAX, 1]), None);
    assert_eq!(checked_total(&vec![u64::MAX / 2, u64::MAX / 2, 2]), None);
}

#[test]
fn nat_records_port_owner() {
    let mut n = Nat::new(ip(10, 0, 0, 1));
    assert_eq!(n.nat_ip(), ip(10, 0, 0, 1));
    assert_eq!(n.next_port(), MIN_PORT);
    assert!(!n.slot(MIN_PORT).unwrap().used);
    let f = tcp(ip(192, 168, 1, 2), 5555, ip(8, 8, 8, 8), 53);
    n.translate(f);
    assert_eq!(n.next_port(), MIN_PORT + 1);
    let slot = n.slot(MIN_PORT).unwrap();
    assert!(slot.used);
    assert_eq!(slot.flow, f);
    assert!(!n.slot(MIN_PORT + 1).unwrap().used);
    assert!(n.slot(65000).is_none());
}

#[test]
fn nat_new_starts_with_empty_slots() {
    let n = Nat::new(ip(10, 0, 0, 1));
    for port in [0u16, 1, MIN_PORT, 40000, (PORT_SLOTS - 1) as u16] {
        let slot = n.slot(port).unwrap();
        assert!(!slot.used);
        assert_eq!(slot.time, 0);
        assert_eq!(slot.flow, Flow { src_ip: 0, dst_ip: 0, src_port: 0, dst_port: 0, proto: 0 });
    }
}

#[test]
fn nat_reply_translated_back_after_later_traffic() {
    let mut n = Nat::new(ip(10, 0, 0, 1));
    let f = tcp(ip(192, 168, 1, 2), 5555, ip(8, 8, 8, 8), 53);
    let out = n.translate(f).unwrap();
    for k in 0..200u32 {
        let g = tcp(ip(192, 168, 2, 0) + k, 6000, ip(9, 9, 9, 9), 443);
        let t = n.translate(g).unwrap();
        n.translate(t.reverse_flow());
        n.translate(g);
    }
    assert_eq!(n.translate(out.reverse_flow()), Some(f.reverse_flow()));
    assert_eq!(n.translate(f), Some(out));
}

#[test]
fn nat_kth_new_flow_gets_port_min_plus_k() {
    let mut n = Nat::new(ip(10, 0, 0, 1));
    let mut k: u16 = 0;
    for i in 0..50u32 {
        let f = tcp(ip(192, 168, 3, 0) + i, 7000, ip(1, 1, 1, 1), 80);
        let out = n.translate(f).unwrap();
        assert_eq!(out, Flow { src_ip: ip(10, 0, 0, 1), src_port: MIN_PORT + k, ..f });
        // Known flows and replies do not use up ports.
        n.translate(f);
        n.translate(out.reverse_flow());
        k += 1;
    }
    assert_eq!(n.next_port(), MIN_PORT + k);
}

#[test]
fn nat_flow_to_nat_address_can_lose_its_mapping() {
    // A flow addressed to the NAT address itself, on a port handed out later,
    // has its key reused for the reply of that later flow.
    let nat_ip = ip(10, 0, 0, 1);
    let mut n = Nat::new(nat_ip);
    let f1 = tcp(5, 7, nat_ip, 1025);
    let out1 = n.translate(f1).unwrap();
    assert_eq!(out1.src_port, 1024);
    let g = tcp(99, 100, 5, 7);
    let out_g = n.translate(g).unwrap();
    assert_eq!(out_g.src_port, 1025);
    assert_eq!(out_g.reverse_flow(), f1);
    assert_eq!(n.translate(f1), Some(g.reverse_flow()));
}
