//! Layer 2-4 decoders (Ethernet, IPv4, IPv6, ARP, TCP, UDP) and the
//! port-keyed dissector registry.
use std::collections::HashMap;
use vstd::prelude::*;
use crate::text::{decimal, push_decimal};
use vstd::slice::slice_to_vec;

verus! {

broadcast use {vstd::std_specs::hash::group_hash_axioms, vstd::map::group_map_axioms};

// ---------------------------------------------------------------------
// Addresses
// ---------------------------------------------------------------------

/// An IPv4 address: its four octets in network order.
#[derive(Clone, Copy, Debug)]
pub struct Ipv4Address {
    pub octets: [u8; 4],
}

/// An IPv6 address: its sixteen octets in network order.
#[derive(Clone, Copy, Debug)]
pub struct Ipv6Address {
    pub octets: [u8; 16],
}

/// The big-endian value of `s[i..i + 2]`.
pub open spec fn be16(s: Seq<u8>, i: int) -> u16 {
    (s[i] as int * 256 + s[i + 1] as int) as u16
}

/// The big-endian value of `s[i..i + 4]`.
pub open spec fn be32(s: Seq<u8>, i: int) -> u32 {
    (s[i] as int * 16777216 + s[i + 1] as int * 65536 + s[i + 2] as int * 256
        + s[i + 3] as int) as u32
}

pub fn read_be16(d: &[u8], i: usize) -> (r: u16)
    requires
        i + 1 < d@.len(),
    ensures
        r == be16(d@, i as int),
{
    (d[i] as u16) * 256 + (d[i + 1] as u16)
}

pub fn read_be32(d: &[u8], i: usize) -> (r: u32)
    requires
        i + 3 < d@.len(),
    ensures
        r == be32(d@, i as int),
{
    (d[i] as u32) * 16777216 + (d[i + 1] as u32) * 65536 + (d[i + 2] as u32) * 256 + (d[i
        + 3] as u32)
}

impl Ipv4Address {
    /// The address `a.b.c.d`.
    pub fn new(a: u8, b: u8, c: u8, d: u8) -> (r: Self)
        ensures
            r.octets@ == seq![a, b, c, d],
    {
        let r = Ipv4Address { octets: [a, b, c, d] };
        assert(r.octets@ =~= seq![a, b, c, d]);
        r
    }

    /// The address as a 32-bit number, most significant octet first.
    pub open spec fn spec_to_u32(self) -> u32 {
        be32(self.octets@, 0)
    }

    pub fn to_u32(&self) -> (r: u32)
        ensures
            r == self.spec_to_u32(),
    {
        read_be32(&self.octets, 0)
    }
}

/// The big-endian value of `s[i..i + 8]`.
pub open spec fn be64(s: Seq<u8>, i: int) -> u64 {
    (be32(s, i) as int * 4294967296 + be32(s, i + 4) as int) as u64
}

/// The dotted-decimal text of an IPv4 address, e.g. `192.168.0.1`.
pub open spec fn ipv4_text(a: Ipv4Address) -> Seq<char> {
    decimal(a.octets@[0] as nat) + "."@ + decimal(a.octets@[1] as nat) + "."@ + decimal(
        a.octets@[2] as nat,
    ) + "."@ + decimal(a.octets@[3] as nat)
}

/// Appends the dotted-decimal text of `a` to `s`.
pub fn push_ipv4(s: &mut String, a: &Ipv4Address)
    ensures
        final(s)@ == old(s)@ + ipv4_text(*a),
{
    push_decimal(s, a.octets[0] as u64);
    s.append(".");
    push_decimal(s, a.octets[1] as u64);
    s.append(".");
    push_decimal(s, a.octets[2] as u64);
    s.append(".");
    push_decimal(s, a.octets[3] as u64);
    assert(s@ =~= old(s)@ + ipv4_text(*a));
}

impl Ipv4Address {
    /// The dotted-decimal text of the address.
    pub fn to_string(&self) -> (r: String)
        ensures
            r@ == ipv4_text(*self),
    {
        let mut s = String::new();
        push_ipv4(&mut s, self);
        assert(s@ =~= ipv4_text(*self));
        s
    }
}

/// A MAC address as a 48-bit number, most significant octet first.
pub open spec fn mac_value(m: [u8; 6]) -> u64 {
    (m@[0] as int * 1099511627776 + m@[1] as int * 4294967296 + m@[2] as int * 16777216 + m@[3] as int
        * 65536 + m@[4] as int * 256 + m@[5] as int) as u64
}

pub fn mac_to_u64(m: &[u8; 6]) -> (r: u64)
    ensures
        r == mac_value(*m),
{
    (m[0] as u64) * 1099511627776 + (m[1] as u64) * 4294967296 + (m[2] as u64) * 16777216 + (m[3]
        as u64) * 65536 + (m[4] as u64) * 256 + (m[5] as u64)
}

impl Ipv6Address {
    pub fn new(octets: [u8; 16]) -> (r: Self)
        ensures
            r.octets == octets,
    {
        Ipv6Address { octets }
    }

    /// The address as a 128-bit number, most significant octet first.
    pub open spec fn spec_to_u128(self) -> u128 {
        (be64(self.octets@, 0) as int * 18446744073709551616 + be64(self.octets@, 8) as int) as u128
    }

    pub fn to_u128(&self) -> (r: u128)
        ensures
            r == self.spec_to_u128(),
    {
        let hi = (read_be32(&self.octets, 0) as u64) * 4294967296 + (read_be32(&self.octets, 4) as u64);
        let lo = (read_be32(&self.octets, 8) as u64) * 4294967296 + (read_be32(&self.octets, 12) as u64);
        (hi as u128) * 18446744073709551616 + (lo as u128)
    }
}

/// An IPv4 or IPv6 address.
#[derive(Clone, Copy, Debug)]
pub enum IpAddress {
    V4(Ipv4Address),
    V6(Ipv6Address),
}

/// Four octets taken from `d[i..i + 4]`.
fn ipv4_at(d: &[u8], i: usize) -> (r: Ipv4Address)
    requires
        i + 4 <= d@.len(),
    ensures
        r.octets@ == d@.subrange(i as int, i + 4),
{
    let r = Ipv4Address { octets: [d[i], d[i + 1], d[i + 2], d[i + 3]] };
    assert(r.octets@ =~= d@.subrange(i as int, i + 4));
    r
}

/// Six octets taken from `d[i..i + 6]`.
fn mac_at(d: &[u8], i: usize) -> (r: [u8; 6])
    requires
        i + 6 <= d@.len(),
    ensures
        r@ == d@.subrange(i as int, i + 6),
{
    let r = [d[i], d[i + 1], d[i + 2], d[i + 3], d[i + 4], d[i + 5]];
    assert(r@ =~= d@.subrange(i as int, i + 6));
    r
}

/// Sixteen octets taken from `d[i..i + 16]`.
fn ipv6_at(d: &[u8], i: usize) -> (r: Ipv6Address)
    requires
        i + 16 <= d@.len(),
    ensures
        r.octets@ == d@.subrange(i as int, i + 16),
{
    let r = Ipv6Address {
        octets: [
            d[i],
            d[i + 1],
            d[i + 2],
            d[i + 3],
            d[i + 4],
            d[i + 5],
            d[i + 6],
            d[i + 7],
            d[i + 8],
            d[i + 9],
            d[i + 10],
            d[i + 11],
            d[i + 12],
            d[i + 13],
            d[i + 14],
            d[i + 15],
        ],
    };
    assert(r.octets@ =~= d@.subrange(i as int, i + 16));
    r
}

// ---------------------------------------------------------------------
// Decoded packet tree
// ---------------------------------------------------------------------

#[derive(Debug, Clone)]
pub struct EthernetFrame {
    pub dst_mac: [u8; 6],
    pub src_mac: [u8; 6],
    pub ethertype: u16,
}

#[derive(Debug, Clone)]
pub enum L3 {
    Ipv4(Ipv4Header),
    Ipv6(Ipv6Header),
    Arp { sender_mac: [u8; 6], sender_ip: Ipv4Address, target_ip: Ipv4Address, op: u16 },
    Other(u16),
}

#[derive(Debug, Clone)]
pub struct Ipv4Header {
    pub src: Ipv4Address,
    pub dst: Ipv4Address,
    pub protocol: u8,
    pub ttl: u8,
    pub total_len: u16,
}

#[derive(Debug, Clone)]
pub struct Ipv6Header {
    pub src: Ipv6Address,
    pub dst: Ipv6Address,
    pub next_header: u8,
}

#[derive(Debug, Clone)]
pub enum L4 {
    Tcp(TcpHeader),
    Udp(UdpHeader),
    Other(u8),
    Absent,
}

/// A TCP header's fixed fields.  `flags` holds the low flag bits:
/// bit 0 FIN, bit 1 SYN, bit 2 RST, bit 3 PSH, bit 4 ACK, bit 5 URG.
#[derive(Debug, Clone)]
pub struct TcpHeader {
    pub src_port: u16,
    pub dst_port: u16,
    pub seq: u32,
    pub ack: u32,
    pub flags: u8,
    pub window: u16,
}

impl TcpHeader {
    pub fn is_syn(&self) -> (r: bool)
        ensures
            r == (self.flags & 0x02 != 0),
    {
        self.flags & 0b0000_0010 != 0
    }

    pub fn is_ack(&self) -> (r: bool)
        ensures
            r == (self.flags & 0x10 != 0),
    {
        self.flags & 0b0001_0000 != 0
    }

    pub fn is_rst(&self) -> (r: bool)
        ensures
            r == (self.flags & 0x04 != 0),
    {
        self.flags & 0b0000_0100 != 0
    }

    pub fn is_fin(&self) -> (r: bool)
        ensures
            r == (self.flags & 0x01 != 0),
    {
        self.flags & 0b0000_0001 != 0
    }
}

#[derive(Debug, Clone)]
pub struct UdpHeader {
    pub src_port: u16,
    pub dst_port: u16,
    pub length: u16,
}

#[derive(Debug, Clone)]
pub struct DecodedPacket {
    pub eth: Option<EthernetFrame>,
    pub l3: Option<L3>,
    pub l4: L4,
    pub payload: Vec<u8>,
}

/// A header was shorter than its layer needs; the text names the layer.
#[derive(Debug)]
pub enum DecodeError {
    TooShort(&'static str),
}

/// `e` reports a header of layer `what` as too short.
pub open spec fn too_short(e: DecodeError, what: Seq<char>) -> bool {
    match e {
        DecodeError::TooShort(w) => w@ == what,
    }
}

// ---------------------------------------------------------------------
// Header layouts
// ---------------------------------------------------------------------

/// `f` holds the Ethernet II header at the start of `d`.
pub open spec fn ethernet_frame_of(f: EthernetFrame, d: Seq<u8>) -> bool {
    &&& f.dst_mac@ == d.subrange(0, 6)
    &&& f.src_mac@ == d.subrange(6, 12)
    &&& f.ethertype == be16(d, 12)
}

/// The IPv4 header length in bytes: the IHL nibble times four.
pub open spec fn ipv4_ihl(d: Seq<u8>) -> int {
    (d[0] % 16) as int * 4
}

/// `h` holds the IPv4 header at the start of `d`.
pub open spec fn ipv4_header_of(h: Ipv4Header, d: Seq<u8>) -> bool {
    &&& h.src.octets@ == d.subrange(12, 16)
    &&& h.dst.octets@ == d.subrange(16, 20)
    &&& h.protocol == d[9]
    &&& h.ttl == d[8]
    &&& h.total_len == be16(d, 2)
}

/// `h` holds the IPv6 fixed header at the start of `d`.
pub open spec fn ipv6_header_of(h: Ipv6Header, d: Seq<u8>) -> bool {
    &&& h.src.octets@ == d.subrange(8, 24)
    &&& h.dst.octets@ == d.subrange(24, 40)
    &&& h.next_header == d[6]
}

/// The TCP header length in bytes: the data-offset nibble times four.
pub open spec fn tcp_offset(d: Seq<u8>) -> int {
    (d[12] / 16) as int * 4
}

/// `t` holds the TCP header at the start of `d`.
pub open spec fn tcp_header_of(t: TcpHeader, d: Seq<u8>) -> bool {
    &&& t.src_port == be16(d, 0)
    &&& t.dst_port == be16(d, 2)
    &&& t.seq == be32(d, 4)
    &&& t.ack == be32(d, 8)
    &&& t.flags == d[13]
    &&& t.window == be16(d, 14)
}

/// `u` holds the UDP header at the start of `d`.
pub open spec fn udp_header_of(u: UdpHeader, d: Seq<u8>) -> bool {
    &&& u.src_port == be16(d, 0)
    &&& u.dst_port == be16(d, 2)
    &&& u.length == be16(d, 4)
}

// ---------------------------------------------------------------------
// Decoders
// ---------------------------------------------------------------------

pub fn decode_ethernet(data: &[u8]) -> (r: Result<(EthernetFrame, &[u8]), DecodeError>)
    ensures
        match r {
            Ok((f, rest)) => data@.len() >= 14 && ethernet_frame_of(f, data@) && rest@
                == data@.skip(14),
            Err(e) => data@.len() < 14 && too_short(e, "ethernet"@),
        },
{
    if data.len() < 14 {
        return Err(DecodeError::TooShort("ethernet"));
    }
    let dst_mac = mac_at(data, 0);
    let src_mac = mac_at(data, 6);
    let ethertype = read_be16(data, 12);
    let rest = &data[14..data.len()];
    Ok((EthernetFrame { dst_mac, src_mac, ethertype }, rest))
}

pub fn decode_ipv4(data: &[u8]) -> (r: Result<(Ipv4Header, &[u8]), DecodeError>)
    ensures
        match r {
            Ok((h, rest)) => {
                &&& data@.len() >= 20
                &&& data@.len() >= ipv4_ihl(data@)
                &&& ipv4_header_of(h, data@)
                &&& rest@ == data@.skip(ipv4_ihl(data@))
            },
            Err(e) => {
                ||| data@.len() < 20 && too_short(e, "ipv4"@)
                ||| 20 <= data@.len() < ipv4_ihl(data@) && too_short(e, "ipv4 options"@)
            },
        },
{
    if data.len() < 20 {
        return Err(DecodeError::TooShort("ipv4"));
    }
    let ihl = (data[0] % 16) as usize * 4;
    if data.len() < ihl {
        return Err(DecodeError::TooShort("ipv4 options"));
    }
    let total_len = read_be16(data, 2);
    let ttl = data[8];
    let protocol = data[9];
    let src = ipv4_at(data, 12);
    let dst = ipv4_at(data, 16);
    Ok((Ipv4Header { src, dst, protocol, ttl, total_len }, &data[ihl..data.len()]))
}

pub fn decode_ipv6(data: &[u8]) -> (r: Result<(Ipv6Header, &[u8]), DecodeError>)
    ensures
        match r {
            Ok((h, rest)) => data@.len() >= 40 && ipv6_header_of(h, data@) && rest@
                == data@.skip(40),
            Err(e) => data@.len() < 40 && too_short(e, "ipv6"@),
        },
{
    if data.len() < 40 {
        return Err(DecodeError::TooShort("ipv6"));
    }
    let next_header = data[6];
    let src = ipv6_at(data, 8);
    let dst = ipv6_at(data, 24);
    Ok((Ipv6Header { src, dst, next_header }, &data[40..data.len()]))
}

pub fn decode_tcp(data: &[u8]) -> (r: Result<(TcpHeader, &[u8]), DecodeError>)
    ensures
        match r {
            Ok((t, rest)) => {
                &&& data@.len() >= 20
                &&& data@.len() >= tcp_offset(data@)
                &&& tcp_header_of(t, data@)
                &&& rest@ == data@.skip(tcp_offset(data@))
                &&& rest@ == data@.skip((data@[12] / 16) as int * 4)
            },
            Err(e) => {
                ||| data@.len() < 20 && too_short(e, "tcp"@)
                ||| 20 <= data@.len() < tcp_offset(data@) && too_short(e, "tcp options"@)
            },
        },
{
    if data.len() < 20 {
        return Err(DecodeError::TooShort("tcp"));
    }
    let src_port = read_be16(data, 0);
    let dst_port = read_be16(data, 2);
    let seq = read_be32(data, 4);
    let ack = read_be32(data, 8);
    let data_offset = (data[12] / 16) as usize * 4;
    let flags = data[13];
    let window = read_be16(data, 14);
    if data.len() < data_offset {
        return Err(DecodeError::TooShort("tcp options"));
    }
    Ok((TcpHeader { src_port, dst_port, seq, ack, flags, window }, &data[data_offset..data.len()]))
}

pub fn decode_udp(data: &[u8]) -> (r: Result<(UdpHeader, &[u8]), DecodeError>)
    ensures
        match r {
            Ok((u, rest)) => data@.len() >= 8 && udp_header_of(u, data@) && rest@ == data@.skip(
                8,
            ),
            Err(e) => data@.len() < 8 && too_short(e, "udp"@),
        },
{
    if data.len() < 8 {
        return Err(DecodeError::TooShort("udp"));
    }
    let src_port = read_be16(data, 0);
    let dst_port = read_be16(data, 2);
    let length = read_be16(data, 4);
    Ok((UdpHeader { src_port, dst_port, length }, &data[8..data.len()]))
}

/// `p`'s transport layer and payload are those decoded from `d`, the bytes
/// that follow a network header announcing protocol `proto`.  When the
/// transport header is too short, `p`'s transport layer and payload stay
/// as they were (`L4::Absent`, empty) in `decode_packet`.
pub open spec fn l4_decoded(p: DecodedPacket, proto: u8, d: Seq<u8>) -> bool {
    if proto == 6 {
        if d.len() >= 20 && d.len() >= tcp_offset(d) {
            &&& p.l4 matches L4::Tcp(t)
            &&& tcp_header_of(t, d)
            &&& p.payload@ == d.skip(tcp_offset(d))
        } else {
            p.l4 is Absent && p.payload@.len() == 0
        }
    } else if proto == 17 {
        if d.len() >= 8 {
            &&& p.l4 matches L4::Udp(u)
            &&& udp_header_of(u, d)
            &&& p.payload@ == d.skip(8)
        } else {
            p.l4 is Absent && p.payload@.len() == 0
        }
    } else {
        &&& p.l4 matches L4::Other(x)
        &&& x == proto
        &&& p.payload@ == d
    }
}

/// `p` is the decoding of the raw frame `raw`: Ethernet II, then IPv4,
/// IPv6 or ARP by ethertype, then TCP or UDP by protocol number.
pub open spec fn packet_decoded(p: DecodedPacket, raw: Seq<u8>) -> bool {
    if raw.len() < 14 {
        &&& p.eth is None
        &&& p.l3 is None
        &&& p.l4 is Absent
        &&& p.payload@ == raw
    } else {
        let t = be16(raw, 12);
        let d = raw.skip(14);
        &&& p.eth matches Some(f) && ethernet_frame_of(f, raw)
        &&& if t == 0x0800 {
            if d.len() >= 20 && d.len() >= ipv4_ihl(d) {
                &&& p.l3 matches Some(L3::Ipv4(h))
                &&& ipv4_header_of(h, d)
                &&& l4_decoded(p, d[9], d.skip(ipv4_ihl(d)))
            } else {
                p.l3 is None && p.l4 is Absent && p.payload@.len() == 0
            }
        } else if t == 0x86DD {
            if d.len() >= 40 {
                &&& p.l3 matches Some(L3::Ipv6(h))
                &&& ipv6_header_of(h, d)
                &&& l4_decoded(p, d[6], d.skip(40))
            } else {
                p.l3 is None && p.l4 is Absent && p.payload@.len() == 0
            }
        } else if t == 0x0806 {
            &&& p.l4 is Absent
            &&& p.payload@.len() == 0
            &&& if d.len() >= 28 {
                &&& p.l3 matches Some(L3::Arp { sender_mac, sender_ip, target_ip, op })
                &&& sender_mac@ == d.subrange(8, 14)
                &&& sender_ip.octets@ == d.subrange(14, 18)
                &&& target_ip.octets@ == d.subrange(24, 28)
                &&& op == be16(d, 6)
            } else {
                p.l3 is None
            }
        } else {
            &&& p.l3 matches Some(L3::Other(x))
            &&& x == t
            &&& p.l4 is Absent
            &&& p.payload@ == d
        }
    }
}

/// A TCP segment's payload starts after its whole header, options
/// included: the data-offset nibble (the high four bits of byte 12) counts
/// the header's 32-bit words.  When the segment holds that many bytes (at
/// least 20), the decoded transport layer is TCP, its flags are byte 13,
/// and the payload is everything after them; otherwise no transport layer
/// is decoded.
pub proof fn law_tcp_payload_after_options(p: DecodedPacket, d: Seq<u8>)
    requires
        l4_decoded(p, 6, d),
    ensures
        d.len() >= 20 && d.len() >= (d[12] / 16) as int * 4 ==> {
            &&& p.l4 matches L4::Tcp(t) && t.flags == d[13] && t.dst_port == d[2] as int * 256 + d[3]
            &&& p.payload@ == d.skip((d[12] / 16) as int * 4)
            &&& p.payload@.len() == d.len() - (d[12] / 16) as int * 4
        },
        !(d.len() >= 20 && d.len() >= (d[12] / 16) as int * 4) ==> p.l4 is Absent && p.payload@.len() == 0,
{
}

/// Whatever the frame, the decoded payload is a trailing part of it: the
/// bytes after the last header that was decoded (or none at all).
pub proof fn law_payload_is_suffix(p: DecodedPacket, raw: Seq<u8>)
    requires
        packet_decoded(p, raw),
    ensures
        p.payload@.len() == 0 || exists|k: int| 0 <= k <= raw.len() && p.payload@ == raw.skip(k),
{
    if raw.len() < 14 {
        assert(p.payload@ == raw.skip(0));
    } else {
        let t = be16(raw, 12);
        let d = raw.skip(14);
        if t == 0x0800 && d.len() >= 20 && d.len() >= ipv4_ihl(d) {
            assert(d.skip(ipv4_ihl(d)) =~= raw.skip(14 + ipv4_ihl(d)));
            lemma_l4_suffix(p, d[9], raw, 14 + ipv4_ihl(d));
        } else if t == 0x86DD && d.len() >= 40 {
            assert(d.skip(40) =~= raw.skip(54));
            lemma_l4_suffix(p, d[6], raw, 54);
        } else if t != 0x0800 && t != 0x86DD && t != 0x0806 {
            assert(p.payload@ == raw.skip(14));
        }
    }
}

proof fn lemma_l4_suffix(p: DecodedPacket, proto: u8, raw: Seq<u8>, at: int)
    requires
        0 <= at <= raw.len(),
        l4_decoded(p, proto, raw.skip(at)),
    ensures
        p.payload@.len() == 0 || exists|k: int| 0 <= k <= raw.len() && p.payload@ == raw.skip(k),
{
    let d = raw.skip(at);
    if proto == 6 && d.len() >= 20 && d.len() >= tcp_offset(d) {
        assert(d.skip(tcp_offset(d)) =~= raw.skip(at + tcp_offset(d)));
    } else if proto == 17 && d.len() >= 8 {
        assert(d.skip(8) =~= raw.skip(at + 8));
    } else if proto != 6 && proto != 17 {
        assert(p.payload@ == raw.skip(at));
    }
}

/// Full decode pipeline: Ethernet -> IPv4/IPv6/ARP -> TCP/UDP.
pub fn decode_packet(raw: &[u8]) -> (r: DecodedPacket)
    ensures
        packet_decoded(r, raw@),
{
    let mut result = DecodedPacket { eth: None, l3: None, l4: L4::Absent, payload: Vec::new() };
    let (ethertype, l3_data) = match decode_ethernet(raw) {
        Ok((eth, rest)) => {
            let ethertype = eth.ethertype;
            result.eth = Some(eth);
            (ethertype, rest)
        },
        Err(_) => {
            result.payload = slice_to_vec(raw);
            return result;
        },
    };
    if ethertype == 0x0800 {
        if let Ok((ip4, rest)) = decode_ipv4(l3_data) {
            let proto = ip4.protocol;
            result.l3 = Some(L3::Ipv4(ip4));
            decode_l4(proto, rest, &mut result);
        }
    } else if ethertype == 0x86DD {
        if let Ok((ip6, rest)) = decode_ipv6(l3_data) {
            let next = ip6.next_header;
            result.l3 = Some(L3::Ipv6(ip6));
            decode_l4(next, rest, &mut result);
        }
    } else if ethertype == 0x0806 {
        if l3_data.len() >= 28 {
            let op = read_be16(l3_data, 6);
            let sender_mac = mac_at(l3_data, 8);
            let sender_ip = ipv4_at(l3_data, 14);
            let target_ip = ipv4_at(l3_data, 24);
            result.l3 = Some(L3::Arp { sender_mac, sender_ip, target_ip, op });
        }
    } else {
        result.l3 = Some(L3::Other(ethertype));
        result.payload = slice_to_vec(l3_data);
    }
    result
}

/// The transport header in `d` cannot be decoded: a TCP segment shorter
/// than its header, or a UDP datagram shorter than eight bytes.
pub open spec fn l4_undecodable(proto: u8, d: Seq<u8>) -> bool {
    ||| proto == 6 && !(d.len() >= 20 && d.len() >= tcp_offset(d))
    ||| proto == 17 && d.len() < 8
}

/// Decodes the transport layer into `out`; where its header cannot be
/// decoded, `out` is left as it was.
pub fn decode_l4(proto: u8, data: &[u8], out: &mut DecodedPacket)
    ensures
        final(out).eth == old(out).eth,
        final(out).l3 == old(out).l3,
        l4_undecodable(proto, data@) ==> *final(out) == *old(out),
        !l4_undecodable(proto, data@) ==> l4_decoded(*final(out), proto, data@),
{
    if proto == 6 {
        if let Ok((tcp, rest)) = decode_tcp(data) {
            out.payload = slice_to_vec(rest);
            out.l4 = L4::Tcp(tcp);
        }
    } else if proto == 17 {
        if let Ok((udp, rest)) = decode_udp(data) {
            out.payload = slice_to_vec(rest);
            out.l4 = L4::Udp(udp);
        }
    } else {
        out.l4 = L4::Other(proto);
        out.payload = slice_to_vec(data);
    }
}


// ---------------------------------------------------------------------
// Dissector registry and plugin loading
// ---------------------------------------------------------------------

/// The (name, value) pairs of a field tree, as text.
pub open spec fn fields_view(fields: Seq<(String, String)>) -> Seq<(Seq<char>, Seq<char>)> {
    fields.map_values(|f: (String, String)| (f.0@, f.1@))
}

/// A protocol dissector, registered under a well-known TCP or UDP port.
/// `dissect` returns the layer's field tree as (name, value) pairs, as
/// `spec_dissect` says, for a dissector whose `obeys_dissect_spec` is
/// true.  A dissector written in plain Rust cannot define spec functions,
/// so it keeps the defaults below: it obeys nothing, and nothing is
/// promised of its fields.
pub trait Dissector: Send + Sync {
    closed spec fn obeys_dissect_spec(&self) -> bool {
        false
    }

    closed spec fn spec_name(&self) -> Seq<char> {
        Seq::empty()
    }

    closed spec fn spec_dissect(&self, payload: Seq<u8>) -> Seq<(Seq<char>, Seq<char>)> {
        Seq::empty()
    }

    fn name(&self) -> (r: &str)
        ensures
            self.obeys_dissect_spec() ==> r@ == self.spec_name(),
    ;

    fn dissect(&self, payload: &[u8]) -> (r: Vec<(String, String)>)
        ensures
            self.obeys_dissect_spec() ==> fields_view(r@) == self.spec_dissect(payload@),
    ;
}

/// A registered dissector.
struct Registered<D: ?Sized>(Box<D>);

proof fn lemma_insert(m: Map<u16, Registered<dyn Dissector>>, k: u16, v: Registered<dyn Dissector>)
    ensures
        m.insert(k, v).dom() == m.dom().insert(k),
        m.insert(k, v)[k] == v,
        forall|q: u16| q != k ==> m.insert(k, v)[q] == m[q],
{
    assert(m.insert(k, v).dom() =~= m.dom().insert(k));
}

/// Dissectors keyed by TCP port and by UDP port.
pub struct ProtocolRegistry {
    by_tcp_port: HashMap<u16, Registered<dyn Dissector>>,
    by_udp_port: HashMap<u16, Registered<dyn Dissector>>,
}

impl ProtocolRegistry {
    /// The TCP ports that have a dissector.
    pub closed spec fn tcp_ports(&self) -> Set<u16> {
        self.by_tcp_port@.dom()
    }

    /// The UDP ports that have a dissector.
    pub closed spec fn udp_ports(&self) -> Set<u16> {
        self.by_udp_port@.dom()
    }

    /// The dissector registered for TCP `port` obeys its description.
    pub closed spec fn tcp_obeys(&self, port: u16) -> bool {
        self.by_tcp_port@[port].0.obeys_dissect_spec()
    }

    /// The dissector registered for UDP `port` obeys its description.
    pub closed spec fn udp_obeys(&self, port: u16) -> bool {
        self.by_udp_port@[port].0.obeys_dissect_spec()
    }

    /// What the dissector registered for TCP `port` makes of `payload`.
    pub closed spec fn tcp_dissect(&self, port: u16, payload: Seq<u8>) -> Seq<(Seq<char>, Seq<char>)> {
        self.by_tcp_port@[port].0.spec_dissect(payload)
    }

    /// What the dissector registered for UDP `port` makes of `payload`.
    pub closed spec fn udp_dissect(&self, port: u16, payload: Seq<u8>) -> Seq<(Seq<char>, Seq<char>)> {
        self.by_udp_port@[port].0.spec_dissect(payload)
    }

    pub fn new() -> (r: Self)
        ensures
            r.tcp_ports() == Set::<u16>::empty(),
            r.udp_ports() == Set::<u16>::empty(),
    {
        ProtocolRegistry { by_tcp_port: HashMap::new(), by_udp_port: HashMap::new() }
    }

    /// Registers `dissector` for TCP `port`, replacing any earlier one.
    pub fn register_tcp_port(&mut self, port: u16, dissector: Box<dyn Dissector>)
        ensures
            final(self).tcp_ports() == old(self).tcp_ports().insert(port),
            final(self).tcp_obeys(port) == dissector.obeys_dissect_spec(),
            forall|q: u16| q != port ==> #[trigger] final(self).tcp_obeys(q) == old(self).tcp_obeys(q),
            forall|q: u16| #[trigger] final(self).udp_obeys(q) == old(self).udp_obeys(q),
            forall|payload: Seq<u8>| #[trigger] final(self).tcp_dissect(port, payload) == dissector.spec_dissect(payload),
            forall|q: u16, payload: Seq<u8>|
                q != port ==> #[trigger] final(self).tcp_dissect(q, payload) == old(self).tcp_dissect(q, payload),
            final(self).udp_ports() == old(self).udp_ports(),
            forall|q: u16, payload: Seq<u8>| #[trigger] final(self).udp_dissect(q, payload) == old(self).udp_dissect(q, payload),
    {
        let r = Registered(dissector);
        let ghost gr = r;
        self.by_tcp_port.insert(port, r);
        proof {
            lemma_insert(old(self).by_tcp_port@, port, gr);
        }
    }

    /// Registers `dissector` for UDP `port`, replacing any earlier one.
    pub fn register_udp_port(&mut self, port: u16, dissector: Box<dyn Dissector>)
        ensures
            final(self).udp_ports() == old(self).udp_ports().insert(port),
            final(self).udp_obeys(port) == dissector.obeys_dissect_spec(),
            forall|q: u16| q != port ==> #[trigger] final(self).udp_obeys(q) == old(self).udp_obeys(q),
            forall|q: u16| #[trigger] final(self).tcp_obeys(q) == old(self).tcp_obeys(q),
            forall|payload: Seq<u8>| #[trigger] final(self).udp_dissect(port, payload) == dissector.spec_dissect(payload),
            forall|q: u16, payload: Seq<u8>|
                q != port ==> #[trigger] final(self).udp_dissect(q, payload) == old(self).udp_dissect(q, payload),
            final(self).tcp_ports() == old(self).tcp_ports(),
            forall|q: u16, payload: Seq<u8>| #[trigger] final(self).tcp_dissect(q, payload) == old(self).tcp_dissect(q, payload),
    {
        let r = Registered(dissector);
        let ghost gr = r;
        self.by_udp_port.insert(port, r);
        proof {
            lemma_insert(old(self).by_udp_port@, port, gr);
        }
    }

    /// Runs the dissector registered for TCP `port`, if there is one.
    pub fn dissect_tcp(&self, port: u16, payload: &[u8]) -> (r: Option<Vec<(String, String)>>)
        ensures
            match r {
                Some(fields) => self.tcp_ports().contains(port) && (self.tcp_obeys(port) ==> fields_view(fields@)
                    == self.tcp_dissect(port, payload@)),
                None => !self.tcp_ports().contains(port),
            },
    {
        match self.by_tcp_port.get(&port) {
            Some(d) => Some(d.0.dissect(payload)),
            None => None,
        }
    }

    /// Runs the dissector registered for UDP `port`, if there is one.
    pub fn dissect_udp(&self, port: u16, payload: &[u8]) -> (r: Option<Vec<(String, String)>>)
        ensures
            match r {
                Some(fields) => self.udp_ports().contains(port) && (self.udp_obeys(port) ==> fields_view(fields@)
                    == self.udp_dissect(port, payload@)),
                None => !self.udp_ports().contains(port),
            },
    {
        match self.by_udp_port.get(&port) {
            Some(d) => Some(d.0.dissect(payload)),
            None => None,
        }
    }
}

impl Default for ProtocolRegistry {
    fn default() -> (r: Self)
        ensures
            r.tcp_ports() == Set::<u16>::empty(),
            r.udp_ports() == Set::<u16>::empty(),
    {
        Self::new()
    }
}

/// Loads dissector plugins from a directory into a registry and returns how
/// many were loaded.
pub trait PluginLoader {
    fn load_plugins(&self, dir: &str, registry: &mut ProtocolRegistry) -> Result<usize, String>;
}

/// A loader that loads nothing.
pub struct NoopPluginLoader;

impl PluginLoader for NoopPluginLoader {
    fn load_plugins(&self, _dir: &str, registry: &mut ProtocolRegistry) -> (r: Result<
        usize,
        String,
    >)
        ensures
            r == Ok::<usize, String>(0),
            *final(registry) == *old(registry),
    {
        Ok(0)
    }
}

/// Registering a dissector for a TCP port makes it the one that port's
/// payloads go to (with the fields it describes, if it obeys its
/// description), replacing any earlier one; every other TCP port keeps
/// its dissector, and the UDP ports keep theirs.
pub proof fn law_register_then_dissect(
    before: ProtocolRegistry,
    after: ProtocolRegistry,
    d: Box<dyn Dissector>,
    port: u16,
    q: u16,
    payload: Seq<u8>,
)
    requires
        after.tcp_ports() == before.tcp_ports().insert(port),
        after.tcp_obeys(port) == d.obeys_dissect_spec(),
        forall|p: Seq<u8>| #[trigger] after.tcp_dissect(port, p) == d.spec_dissect(p),
        forall|x: u16, p: Seq<u8>| x != port ==> #[trigger] after.tcp_dissect(x, p) == before.tcp_dissect(x, p),
        after.udp_ports() == before.udp_ports(),
        forall|x: u16, p: Seq<u8>| #[trigger] after.udp_dissect(x, p) == before.udp_dissect(x, p),
    ensures
        after.tcp_ports().contains(port),
        after.tcp_dissect(port, payload) == d.spec_dissect(payload),
        d.obeys_dissect_spec() ==> after.tcp_obeys(port),
        q != port ==> after.tcp_ports().contains(q) == before.tcp_ports().contains(q),
        q != port ==> after.tcp_dissect(q, payload) == before.tcp_dissect(q, payload),
        after.udp_ports().contains(q) == before.udp_ports().contains(q),
        after.udp_dissect(q, payload) == before.udp_dissect(q, payload),
{
}

}
