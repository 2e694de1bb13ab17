//! Flows (the TCP/UDP five-tuple) and IPv4 prefixes.
use vstd::prelude::*;

verus! {

/// The five values that identify a transport connection in one direction.
pub type FlowKey = (u32, u32, u16, u16, u8);

/// A TCP/UDP flow: source and destination address and port, and the IP protocol.
#[derive(Clone, Copy, Debug, PartialEq, Eq, Structural, Hash)]
pub struct Flow {
    pub src_ip: u32,
    pub dst_ip: u32,
    pub src_port: u16,
    pub dst_port: u16,
    pub proto: u8,
}

impl Flow {
    /// The flow as a tuple of plain integers, one per field.
    pub open spec fn key(self) -> FlowKey {
        (self.src_ip, self.dst_ip, self.src_port, self.dst_port, self.proto)
    }

    /// The same connection seen in the other direction.
    pub open spec fn reversed(self) -> Flow {
        Flow {
            src_ip: self.dst_ip,
            dst_ip: self.src_ip,
            src_port: self.dst_port,
            dst_port: self.src_port,
            proto: self.proto,
        }
    }

    pub fn to_key(&self) -> (k: FlowKey)
        ensures
            k == self.key(),
    {
        (self.src_ip, self.dst_ip, self.src_port, self.dst_port, self.proto)
    }

    /// Swaps source and destination (addresses and ports); keeps the protocol.
    pub fn reverse_flow(&self) -> (r: Flow)
        ensures
            r == self.reversed(),
    {
        Flow {
            src_ip: self.dst_ip,
            dst_ip: self.src_ip,
            src_port: self.dst_port,
            dst_port: self.src_port,
            proto: self.proto,
        }
    }
}

/// Reversing a flow twice gives the flow back.
pub proof fn lemma_reverse_involutive(f: Flow)
    ensures
        f.reversed().reversed() == f,
{
}

/// Two flows have the same key exactly when they are the same flow.
pub proof fn lemma_key_injective(f: Flow, g: Flow)
    ensures
        (f.key() == g.key()) <==> (f == g),
{
}

/// The netmask of a prefix length: the top `prefix` bits set.
pub open spec fn prefix_mask(prefix: u32) -> u32 {
    if prefix == 0 {
        0
    } else {
        (0xffff_ffffu32 << ((32 - prefix) as u32)) as u32
    }
}

/// Whether `ip` lies in the network `address/prefix`: the top `prefix` bits agree.
pub open spec fn in_network(address: u32, prefix: u32, ip: u32) -> bool {
    prefix == 0 || (ip >> ((32 - prefix) as u32)) == (address >> ((32 - prefix) as u32))
}

/// An IPv4 network given by an address and a prefix length (0 to 32).
#[derive(Clone, Copy, Debug)]
pub struct Ipv4Prefix {
    ip_address: u32,
    prefix: u32,
    mask: u32,
}

impl Ipv4Prefix {
    #[verifier::type_invariant]
    spec fn well_formed(self) -> bool {
        self.prefix <= 32 && self.mask == prefix_mask(self.prefix)
    }

    /// The network address.
    pub closed spec fn address(self) -> u32 {
        self.ip_address
    }

    /// The prefix length.
    pub closed spec fn length(self) -> u32 {
        self.prefix
    }

    /// Whether `ip` belongs to this network.
    pub open spec fn contains(self, ip: u32) -> bool {
        in_network(self.address(), self.length(), ip)
    }

    pub fn new(address: u32, prefix: u32) -> (p: Ipv4Prefix)
        requires
            prefix <= 32,
        ensures
            p.address() == address,
            p.length() == prefix,
    {
        let mask: u32 = if prefix == 0 {
            0
        } else {
            0xffff_ffffu32 << (32 - prefix)
        };
        Ipv4Prefix { ip_address: address, prefix, mask }
    }

    pub fn ip_address(&self) -> (a: u32)
        ensures
            a == self.address(),
    {
        self.ip_address
    }

    pub fn prefix(&self) -> (l: u32)
        ensures
            l == self.length(),
            l <= 32,
    {
        proof {
            use_type_invariant(self);
        }
        self.prefix
    }

    /// Whether `ip` agrees with the network address under the netmask.
    pub fn in_range(&self, ip: u32) -> (r: bool)
        ensures
            r == self.contains(ip),
    {
        proof {
            use_type_invariant(self);
            lemma_mask_agrees(self.ip_address, ip, self.prefix);
        }
        (self.ip_address & self.mask) == (ip & self.mask)
    }
}

/// Comparing under the netmask of `prefix` is comparing the top `prefix` bits.
pub proof fn lemma_mask_agrees(a: u32, b: u32, prefix: u32)
    requires
        prefix <= 32,
    ensures
        ((a & prefix_mask(prefix)) == (b & prefix_mask(prefix))) == in_network(a, prefix, b),
{
    if prefix == 0 {
        assert((a & 0u32) == 0u32 && (b & 0u32) == 0u32) by (bit_vector);
    } else {
        let s: u32 = (32 - prefix) as u32;
        assert(s < 32 ==> (((a & (0xffff_ffffu32 << s)) == (b & (0xffff_ffffu32 << s))) == ((b
            >> s) == (a >> s)))) by (bit_vector);
    }
}

/// A /0 network holds every address; a /32 network holds only its own address.
pub proof fn lemma_prefix_extremes(address: u32, ip: u32)
    ensures
        in_network(address, 0, ip),
        in_network(address, 32, ip) == (ip == address),
{
    assert((ip >> 0u32) == ip && (address >> 0u32) == address) by (bit_vector);
}

/// A network holds its own address.
pub proof fn lemma_network_holds_address(address: u32, prefix: u32)
    requires
        prefix <= 32,
    ensures
        in_network(address, prefix, address),
{
}

/// The reverse of a flow swaps the addresses and the ports and keeps the
/// protocol; a flow's key lists its fields in order.
pub proof fn lemma_reverse_fields(f: Flow)
    ensures
        f.reversed().src_ip == f.dst_ip,
        f.reversed().dst_ip == f.src_ip,
        f.reversed().src_port == f.dst_port,
        f.reversed().dst_port == f.src_port,
        f.reversed().proto == f.proto,
        f.key() == (f.src_ip, f.dst_ip, f.src_port, f.dst_port, f.proto),
{
}

/// A network holds exactly the addresses that agree with its address under
/// its netmask.
pub proof fn lemma_contains_is_masked_compare(p: Ipv4Prefix, ip: u32)
    ensures
        p.length() <= 32 ==> (p.contains(ip) == ((p.address() & prefix_mask(p.length())) == (ip
            & prefix_mask(p.length())))),
{
    if p.length() <= 32 {
        lemma_mask_agrees(p.address(), ip, p.length());
    }
}

} // verus!
