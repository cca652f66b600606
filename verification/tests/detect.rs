use ndap::detect::{
    alert_record, error_record, Alert, ArpSpoofRule, DetectionEngine, DetectionRule, PortScanRule, Severity,
    SynFloodRule,
};
use ndap::protocol::{DecodedPacket, Ipv4Address, Ipv4Header, TcpHeader, L3, L4};

fn tcp_packet(src: [u8; 4], dst: [u8; 4], dst_port: u16, flags: u8) -> DecodedPacket {
    DecodedPacket {
        eth: None,
        l3: Some(L3::Ipv4(Ipv4Header {
            src: Ipv4Address { octets: src },
            dst: Ipv4Address { octets: dst },
            protocol: 6,
            ttl: 64,
            total_len: 40,
        })),
        l4: L4::Tcp(TcpHeader { src_port: 40000, dst_port, seq: 0, ack: 0, flags, window: 0 }),
        payload: Vec::new(),
    }
}

fn arp_packet(ip: [u8; 4], mac: [u8; 6]) -> DecodedPacket {
    DecodedPacket {
        eth: None,
        l3: Some(L3::Arp {
            sender_mac: mac,
            sender_ip: Ipv4Address { octets: ip },
            target_ip: Ipv4Address { octets: [0, 0, 0, 0] },
            op: 2,
        }),
        l4: L4::Absent,
        payload: Vec::new(),
    }
}

#[test]
fn port_scan_fires_at_threshold() {
    let mut rule = PortScanRule::new(10, 3);
    assert_eq!(rule.name(), "port_scan");
    assert!(rule.on_packet(&tcp_packet([1, 2, 3, 4], [5, 6, 7, 8], 22, 0x02), 100).is_empty());
    assert!(rule.on_packet(&tcp_packet([1, 2, 3, 4], [5, 6, 7, 8], 22, 0x02), 101).is_empty());
    // SYN-ACK is not a probe.
    assert!(rule.on_packet(&tcp_packet([1, 2, 3, 4], [5, 6, 7, 8], 23, 0x12), 101).is_empty());
    assert!(rule.on_packet(&tcp_packet([1, 2, 3, 4], [5, 6, 7, 8], 23, 0x02), 102).is_empty());
    let alerts = rule.on_packet(&tcp_packet([1, 2, 3, 4], [5, 6, 7, 8], 25, 0x02), 103);
    assert_eq!(alerts.len(), 1);
    assert_eq!(alerts[0].rule, "port_scan");
    assert_eq!(alerts[0].severity, Severity::Medium);
    assert_eq!(alerts[0].ts_sec, 103);
    assert_eq!(
        alerts[0].message,
        "1.2.3.4 touched 3 distinct ports on 5.6.7.8 in 10s (possible port scan)"
    );
    assert_eq!(alerts[0].mitre.as_ref().unwrap().id, "T1046");
    // A fourth port in the same window: past the threshold, no alert.
    assert!(rule.on_packet(&tcp_packet([1, 2, 3, 4], [5, 6, 7, 8], 26, 0x02), 104).is_empty());
}

#[test]
fn port_scan_window_resets() {
    let mut rule = PortScanRule::new(10, 2);
    assert!(rule.on_packet(&tcp_packet([9, 9, 9, 9], [1, 1, 1, 1], 1, 0x02), 0).is_empty());
    // More than 10 s later: a fresh window, the old port is forgotten.
    assert!(rule.on_packet(&tcp_packet([9, 9, 9, 9], [1, 1, 1, 1], 2, 0x02), 11).is_empty());
    assert_eq!(rule.on_packet(&tcp_packet([9, 9, 9, 9], [1, 1, 1, 1], 3, 0x02), 12).len(), 1);
}

#[test]
fn syn_flood_fires_once_per_window() {
    let mut rule = SynFloodRule::new(5, 3);
    assert_eq!(rule.name(), "syn_flood");
    assert!(rule.on_packet(&tcp_packet([1, 1, 1, 1], [10, 0, 0, 9], 80, 0x02), 1).is_empty());
    assert!(rule.on_packet(&tcp_packet([2, 2, 2, 2], [10, 0, 0, 9], 80, 0x02), 2).is_empty());
    let alerts = rule.on_packet(&tcp_packet([3, 3, 3, 3], [10, 0, 0, 9], 80, 0x02), 3);
    assert_eq!(alerts.len(), 1);
    assert_eq!(alerts[0].severity, Severity::High);
    assert_eq!(alerts[0].message, "10.0.0.9 received 3 SYNs in 5s (possible SYN flood)");
    assert_eq!(alerts[0].mitre.as_ref().unwrap().id, "T1499");
    assert!(rule.on_packet(&tcp_packet([4, 4, 4, 4], [10, 0, 0, 9], 80, 0x02), 4).is_empty());
}

#[test]
fn arp_spoof_alerts_once_per_pair() {
    let mut rule = ArpSpoofRule::new();
    assert_eq!(rule.name(), "arp_spoof");
    assert!(rule.on_packet(&arp_packet([192, 168, 1, 1], [1, 1, 1, 1, 1, 1]), 5).is_empty());
    assert!(rule.on_packet(&arp_packet([192, 168, 1, 1], [1, 1, 1, 1, 1, 1]), 6).is_empty());
    let alerts = rule.on_packet(&arp_packet([192, 168, 1, 1], [2, 2, 2, 2, 2, 2]), 7);
    assert_eq!(alerts.len(), 1);
    assert_eq!(alerts[0].severity, Severity::Critical);
    assert_eq!(
        alerts[0].message,
        "IP 192.168.1.1 claimed by 2 different MAC addresses (possible ARP spoofing)"
    );
    assert_eq!(alerts[0].mitre.as_ref().unwrap().id, "T1557");
    assert!(rule.on_packet(&arp_packet([192, 168, 1, 1], [2, 2, 2, 2, 2, 2]), 8).is_empty());
    // The first MAC, seen again now that the IP has two: a new pair alert.
    assert_eq!(rule.on_packet(&arp_packet([192, 168, 1, 1], [1, 1, 1, 1, 1, 1]), 9).len(), 1);
}

#[test]
fn engine_runs_default_rules() {
    let mut engine = DetectionEngine::with_default_rules();
    let mut fired = Vec::new();
    for port in 0..15u16 {
        fired.extend(engine.feed(&tcp_packet([6, 6, 6, 6], [7, 7, 7, 7], 1000 + port, 0x02), 50));
    }
    assert_eq!(fired.len(), 1);
    assert_eq!(fired[0].rule, "port_scan");
    assert!(DetectionEngine::new().feed(&tcp_packet([6, 6, 6, 6], [7, 7, 7, 7], 1, 0x02), 0).is_empty());
}

/// A rule that answers every packet with one alert carrying its tag and a
/// running count.
struct Counter {
    tag: &'static str,
    seen: u32,
}

impl DetectionRule for Counter {
    fn name(&self) -> &str {
        self.tag
    }
    fn on_packet(&mut self, _pkt: &DecodedPacket, ts_sec: u32) -> Vec<Alert> {
        self.seen += 1;
        vec![Alert {
            rule: self.tag.to_string(),
            severity: Severity::Low,
            message: format!("{} #{}", self.tag, self.seen),
            ts_sec,
            mitre: None,
        }]
    }
}

#[test]
fn engine_concatenates_rule_alerts_in_registration_order() {
    let mut engine = DetectionEngine::new();
    engine.register(Box::new(Counter { tag: "a", seen: 0 }));
    engine.register(Box::new(Counter { tag: "b", seen: 0 }));
    let pkt = arp_packet([10, 0, 0, 1], [1, 1, 1, 1, 1, 1]);
    let first = engine.feed(&pkt, 5);
    let msgs: Vec<&str> = first.iter().map(|a| a.message.as_str()).collect();
    assert_eq!(msgs, vec!["a #1", "b #1"]);
    let second = engine.feed(&pkt, 6);
    let msgs: Vec<&str> = second.iter().map(|a| a.message.as_str()).collect();
    assert_eq!(msgs, vec!["a #2", "b #2"]);
    assert!(second.iter().all(|a| a.ts_sec == 6));
}

#[test]
fn empty_engine_raises_nothing() {
    let mut engine = DetectionEngine::new();
    assert!(engine.feed(&arp_packet([10, 0, 0, 1], [1, 1, 1, 1, 1, 1]), 0).is_empty());
}

#[test]
fn default_engine_port_scan_needs_fifteen_ports_in_ten_seconds() {
    let mut engine = DetectionEngine::with_default_rules();
    for port in 1..15u16 {
        assert!(engine.feed(&tcp_packet([1, 1, 1, 1], [2, 2, 2, 2], port, 0x02), 100).is_empty());
    }
    let alerts = engine.feed(&tcp_packet([1, 1, 1, 1], [2, 2, 2, 2], 15, 0x02), 110);
    assert_eq!(alerts.len(), 1);
    assert_eq!(alerts[0].rule, "port_scan");
    assert_eq!(
        alerts[0].message,
        "1.1.1.1 touched 15 distinct ports on 2.2.2.2 in 10s (possible port scan)"
    );
}

#[test]
fn default_engine_syn_flood_window_is_five_seconds() {
    let mut engine = DetectionEngine::with_default_rules();
    let mut fired = Vec::new();
    for i in 0..100u32 {
        // One source port per SYN keeps the port-scan rule below its threshold.
        let src = [3, 3, 3, (i % 200) as u8];
        fired.extend(engine.feed(&tcp_packet(src, [4, 4, 4, 4], 80, 0x02), 1000 + i / 20));
    }
    assert_eq!(fired.len(), 1);
    assert_eq!(fired[0].rule, "syn_flood");
    assert_eq!(fired[0].message, "4.4.4.4 received 100 SYNs in 5s (possible SYN flood)");
}

#[test]
fn alert_record_names_severity_and_technique() {
    let alert = Alert {
        rule: "syn_flood".to_string(),
        severity: Severity::High,
        message: "m".to_string(),
        ts_sec: 7,
        mitre: None,
    };
    let r = alert_record(&alert);
    assert_eq!(r.ts_sec, 7);
    assert_eq!(r.rule, "syn_flood");
    assert_eq!(r.severity, "High");
    assert_eq!(r.message, "m");
    assert_eq!(r.mitre_id.as_deref(), Some("T1499"));
    assert_eq!(r.mitre_name.as_deref(), Some("Endpoint Denial of Service"));
    let other = Alert { rule: "custom".to_string(), severity: Severity::Low, ..alert };
    let r = alert_record(&other);
    assert_eq!(r.severity, "Low");
    assert!(r.mitre_id.is_none() && r.mitre_name.is_none());
}

#[test]
fn error_record_is_a_system_error() {
    let r = error_record("failed to open pcap: Truncated".to_string());
    assert_eq!(r.ts_sec, 0);
    assert_eq!(r.rule, "system");
    assert_eq!(r.severity, "Error");
    assert_eq!(r.message, "failed to open pcap: Truncated");
    assert!(r.mitre_id.is_none() && r.mitre_name.is_none());
}
