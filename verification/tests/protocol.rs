use ndap::protocol::{
    decode_ethernet, decode_ipv4, decode_ipv6, decode_packet, decode_tcp, decode_udp,
    DecodeError, Dissector, Ipv4Address, NoopPluginLoader, PluginLoader, ProtocolRegistry,
    TcpHeader, L3, L4,
};

fn too_short(e: DecodeError) -> &'static str {
    match e {
        DecodeError::TooShort(w) => w,
    }
}

fn tcp_header(flags: u8) -> TcpHeader {
    TcpHeader { src_port: 1, dst_port: 2, seq: 0, ack: 0, flags, window: 0 }
}

#[test]
fn tcp_flag_bits() {
    assert!(tcp_header(0x02).is_syn());
    assert!(!tcp_header(0x02).is_ack());
    assert!(tcp_header(0x12).is_syn() && tcp_header(0x12).is_ack());
    assert!(tcp_header(0x04).is_rst());
    assert!(tcp_header(0x01).is_fin());
    assert!(!tcp_header(0x00).is_fin());
}

#[test]
fn ethernet_fields_and_rest() {
    let mut f = vec![1u8, 2, 3, 4, 5, 6, 7, 8, 9, 10, 11, 12, 0x08, 0x00];
    f.extend_from_slice(&[0xAA, 0xBB]);
    let (eth, rest) = decode_ethernet(&f).unwrap();
    assert_eq!(eth.dst_mac, [1, 2, 3, 4, 5, 6]);
    assert_eq!(eth.src_mac, [7, 8, 9, 10, 11, 12]);
    assert_eq!(eth.ethertype, 0x0800);
    assert_eq!(rest, &[0xAA, 0xBB]);
    assert_eq!(too_short(decode_ethernet(&f[..13]).unwrap_err()), "ethernet");
}

fn ipv4_header(proto: u8, ihl_words: u8) -> Vec<u8> {
    let mut h = vec![0x40 | ihl_words, 0, 0, 40, 0, 0, 0, 0, 64, proto, 0, 0, 10, 0, 0, 1, 10, 0, 0, 2];
    while h.len() < (ihl_words as usize) * 4 {
        h.push(0);
    }
    h
}

#[test]
fn ipv4_fields_options_and_errors() {
    let h = ipv4_header(6, 6);
    let mut d = h.clone();
    d.extend_from_slice(&[9, 9]);
    let (ip, rest) = decode_ipv4(&d).unwrap();
    assert_eq!(ip.src.octets, [10, 0, 0, 1]);
    assert_eq!(ip.dst.octets, [10, 0, 0, 2]);
    assert_eq!(ip.protocol, 6);
    assert_eq!(ip.ttl, 64);
    assert_eq!(ip.total_len, 40);
    assert_eq!(rest, &[9, 9]);
    assert_eq!(too_short(decode_ipv4(&d[..19]).unwrap_err()), "ipv4");
    let mut long_ihl = ipv4_header(6, 5);
    long_ihl[0] = 0x4F; // 60-byte header announced, 20 present
    assert_eq!(too_short(decode_ipv4(&long_ihl).unwrap_err()), "ipv4 options");
}

#[test]
fn ipv6_fields_and_errors() {
    let mut d = vec![0u8; 40];
    d[6] = 17;
    for i in 0..16 {
        d[8 + i] = i as u8;
        d[24 + i] = 100 + i as u8;
    }
    d.push(7);
    let (ip, rest) = decode_ipv6(&d).unwrap();
    assert_eq!(ip.next_header, 17);
    assert_eq!(ip.src.octets[15], 15);
    assert_eq!(ip.dst.octets[0], 100);
    assert_eq!(rest, &[7]);
    assert_eq!(too_short(decode_ipv6(&d[..39]).unwrap_err()), "ipv6");
}

fn tcp_segment(dst_port: u16, flags: u8, offset_words: u8) -> Vec<u8> {
    let p = dst_port.to_be_bytes();
    let mut s = vec![0x30, 0x39, p[0], p[1], 0, 0, 0, 7, 0, 0, 0, 9, offset_words << 4, flags, 0x01, 0x00];
    s.extend_from_slice(&[0, 0, 0, 0]);
    while s.len() < (offset_words as usize) * 4 {
        s.push(0);
    }
    s
}

#[test]
fn tcp_fields_options_and_errors() {
    let mut s = tcp_segment(443, 0x12, 5);
    s.extend_from_slice(b"hi");
    let (t, rest) = decode_tcp(&s).unwrap();
    assert_eq!(t.src_port, 12345);
    assert_eq!(t.dst_port, 443);
    assert_eq!(t.seq, 7);
    assert_eq!(t.ack, 9);
    assert_eq!(t.flags, 0x12);
    assert_eq!(t.window, 256);
    assert_eq!(rest, b"hi");
    assert_eq!(too_short(decode_tcp(&s[..19]).unwrap_err()), "tcp");
    let mut bad = tcp_segment(80, 0x02, 5);
    bad[12] = 0xF0; // 60-byte header announced
    assert_eq!(too_short(decode_tcp(&bad).unwrap_err()), "tcp options");
}

#[test]
fn udp_fields_and_errors() {
    let d = [0, 53, 0x30, 0x39, 0, 12, 0, 0, 1, 2, 3, 4];
    let (u, rest) = decode_udp(&d).unwrap();
    assert_eq!(u.src_port, 53);
    assert_eq!(u.dst_port, 12345);
    assert_eq!(u.length, 12);
    assert_eq!(rest, &[1, 2, 3, 4]);
    assert_eq!(too_short(decode_udp(&d[..7]).unwrap_err()), "udp");
}

fn frame(ethertype: u16, l3: &[u8]) -> Vec<u8> {
    let t = ethertype.to_be_bytes();
    let mut f = vec![0xff; 12];
    f.extend_from_slice(&t);
    f.extend_from_slice(l3);
    f
}

#[test]
fn decode_packet_tcp_over_ipv4() {
    let mut l3 = ipv4_header(6, 5);
    l3.extend_from_slice(&tcp_segment(22, 0x02, 5));
    l3.extend_from_slice(b"payload");
    let p = decode_packet(&frame(0x0800, &l3));
    assert!(p.eth.is_some());
    match (&p.l3, &p.l4) {
        (Some(L3::Ipv4(ip)), L4::Tcp(t)) => {
            assert_eq!(ip.src.octets, [10, 0, 0, 1]);
            assert_eq!(t.dst_port, 22);
        }
        _ => panic!("expected IPv4/TCP"),
    }
    assert_eq!(p.payload, b"payload");
}

#[test]
fn decode_packet_short_and_odd_frames() {
    let p = decode_packet(&[1, 2, 3]);
    assert!(p.eth.is_none() && p.l3.is_none());
    assert!(matches!(p.l4, L4::Absent));
    assert_eq!(p.payload, vec![1, 2, 3]);

    let p = decode_packet(&frame(0x1234, &[5, 6]));
    assert!(matches!(p.l3, Some(L3::Other(0x1234))));
    assert_eq!(p.payload, vec![5, 6]);

    // IPv4 with an unknown protocol: the rest is the payload.
    let mut l3 = ipv4_header(1, 5);
    l3.extend_from_slice(&[8, 0, 1]);
    let p = decode_packet(&frame(0x0800, &l3));
    assert!(matches!(p.l4, L4::Other(1)));
    assert_eq!(p.payload, vec![8, 0, 1]);

    // IPv4 header too short: no network layer, no payload.
    let p = decode_packet(&frame(0x0800, &[0x45, 0, 0]));
    assert!(p.eth.is_some() && p.l3.is_none());
    assert!(p.payload.is_empty());

    // UDP too short after IPv6: transport absent, payload empty.
    let mut v6 = vec![0u8; 40];
    v6[6] = 17;
    v6.extend_from_slice(&[1, 2, 3]);
    let p = decode_packet(&frame(0x86DD, &v6));
    assert!(matches!(p.l3, Some(L3::Ipv6(_))));
    assert!(matches!(p.l4, L4::Absent));
    assert!(p.payload.is_empty());
}

#[test]
fn decode_packet_arp() {
    let mut arp = vec![0, 1, 8, 0, 6, 4, 0, 2];
    arp.extend_from_slice(&[0xaa, 0xbb, 0xcc, 0xdd, 0xee, 0xff]);
    arp.extend_from_slice(&[192, 168, 1, 1]);
    arp.extend_from_slice(&[0; 6]);
    arp.extend_from_slice(&[192, 168, 1, 7]);
    let p = decode_packet(&frame(0x0806, &arp));
    match p.l3 {
        Some(L3::Arp { sender_mac, sender_ip, target_ip, op }) => {
            assert_eq!(sender_mac, [0xaa, 0xbb, 0xcc, 0xdd, 0xee, 0xff]);
            assert_eq!(sender_ip.octets, [192, 168, 1, 1]);
            assert_eq!(target_ip.octets, [192, 168, 1, 7]);
            assert_eq!(op, 2);
        }
        _ => panic!("expected ARP"),
    }
    let p = decode_packet(&frame(0x0806, &arp[..27]));
    assert!(p.l3.is_none());
}

#[test]
fn ipv4_text_and_number() {
    let a = Ipv4Address::new(192, 168, 0, 10);
    assert_eq!(a.to_string(), "192.168.0.10");
    assert_eq!(a.to_u32(), 0xC0A8_000A);
}

struct Echo;

impl Dissector for Echo {
    fn name(&self) -> &str {
        "echo"
    }
    fn dissect(&self, payload: &[u8]) -> Vec<(String, String)> {
        vec![("len".to_string(), payload.len().to_string())]
    }
}

#[test]
fn registry_dispatches_by_transport_and_port() {
    let mut reg = ProtocolRegistry::new();
    assert!(reg.dissect_tcp(80, b"x").is_none());
    reg.register_tcp_port(80, Box::new(Echo));
    assert_eq!(reg.dissect_tcp(80, b"abc").unwrap(), vec![("len".to_string(), "3".to_string())]);
    assert!(reg.dissect_udp(80, b"abc").is_none());
    reg.register_udp_port(53, Box::new(Echo));
    assert!(reg.dissect_udp(53, b"").is_some());
    assert_eq!(NoopPluginLoader.load_plugins("plugins", &mut reg), Ok(0));
}

struct Named(&'static str);

impl Dissector for Named {
    fn name(&self) -> &str {
        self.0
    }
    fn dissect(&self, _payload: &[u8]) -> Vec<(String, String)> {
        vec![("by".to_string(), self.0.to_string())]
    }
}

#[test]
fn registry_last_registration_wins() {
    let mut reg = ProtocolRegistry::new();
    reg.register_udp_port(53, Box::new(Named("first")));
    reg.register_tcp_port(53, Box::new(Named("tcp")));
    reg.register_udp_port(53, Box::new(Named("second")));
    assert_eq!(reg.dissect_udp(53, b"q").unwrap(), vec![("by".to_string(), "second".to_string())]);
    assert_eq!(reg.dissect_tcp(53, b"q").unwrap(), vec![("by".to_string(), "tcp".to_string())]);
    assert!(reg.dissect_udp(54, b"q").is_none());
    assert_eq!(NoopPluginLoader.load_plugins("plugins", &mut reg), Ok(0));
    assert_eq!(reg.dissect_udp(53, b"").unwrap(), vec![("by".to_string(), "second".to_string())]);
}
