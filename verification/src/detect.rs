//! The detection engine: rules fed one decoded packet at a time, each
//! keeping its own state, emitting alerts tagged with MITRE techniques.
use crate::intel::{mitre_for_rule, mitre_spec, technique_is, MitreTechnique};
use crate::protocol::{
    ipv4_text, mac_to_u64, mac_value, push_ipv4, DecodedPacket, Ipv4Address, TcpHeader, L3, L4,
};
use crate::text::{decimal, push_decimal};
use std::collections::{HashMap, HashSet};
use vstd::prelude::*;

verus! {

broadcast use {
    vstd::std_specs::hash::group_hash_axioms,
    vstd::map::group_map_axioms,
    vstd::set::group_set_axioms,
};

#[derive(Debug, Clone, Copy, PartialEq, Eq, PartialOrd, Ord)]
pub enum Severity {
    Low,
    Medium,
    High,
    Critical,
}

#[derive(Debug, Clone)]
pub struct Alert {
    pub rule: String,
    pub severity: Severity,
    pub message: String,
    pub ts_sec: u32,
    pub mitre: Option<MitreTechnique>,
}

/// What an alert says, as plain values.
pub struct AlertView {
    pub rule: Seq<char>,
    pub severity: Severity,
    pub message: Seq<char>,
    pub ts_sec: u32,
    pub mitre: Option<(Seq<char>, Seq<char>)>,
}

impl View for Alert {
    type V = AlertView;

    open spec fn view(&self) -> AlertView {
        AlertView {
            rule: self.rule@,
            severity: self.severity,
            message: self.message@,
            ts_sec: self.ts_sec,
            mitre: match self.mitre {
                Some(t) => Some((t.id@, t.name@)),
                None => None,
            },
        }
    }
}

/// The alert of rule `rule` with the given severity, message and time,
/// tagged with the rule's MITRE technique.
pub open spec fn alert_view(rule: Seq<char>, severity: Severity, message: Seq<char>, ts: u32) -> AlertView {
    AlertView { rule, severity, message, ts_sec: ts, mitre: mitre_spec(rule) }
}

pub open spec fn alerts_view(s: Seq<Alert>) -> Seq<AlertView> {
    s.map_values(|a: Alert| a@)
}

fn make_alert(rule: &str, severity: Severity, message: String, ts_sec: u32) -> (a: Alert)
    ensures
        a@ == alert_view(rule@, severity, message@, ts_sec),
{
    let mitre = mitre_for_rule(rule);
    Alert { rule: String::from_str(rule), severity, message, ts_sec, mitre }
}

/// A detection rule: inspects one packet at a time and returns zero or
/// more alerts.
///
/// A rule is described by its name and by `spec_run`: the alerts it
/// answers each packet of a sequence with, fed from its present state.
/// The description binds only a rule whose `obeys_rule_spec` is true.  A
/// rule written in plain Rust cannot define spec functions, so it keeps
/// the defaults below: it obeys nothing, and nothing is promised of it.
pub trait DetectionRule: Send {
    closed spec fn obeys_rule_spec(&self) -> bool {
        false
    }

    closed spec fn spec_name(&self) -> Seq<char> {
        Seq::empty()
    }

    closed spec fn spec_run(&self, events: Seq<(DecodedPacket, u32)>) -> Seq<Seq<AlertView>> {
        Seq::empty()
    }

    fn name(&self) -> (r: &str)
        ensures
            self.obeys_rule_spec() ==> r@ == self.spec_name(),
    ;

    /// Answers the packet as `spec_run` says, and leaves the rule ready
    /// to answer what follows as `spec_run` says of it.
    fn on_packet(&mut self, pkt: &DecodedPacket, ts_sec: u32) -> (r: Vec<Alert>)
        ensures
            final(self).obeys_rule_spec() == old(self).obeys_rule_spec(),
            final(self).spec_name() == old(self).spec_name(),
            old(self).obeys_rule_spec() ==> forall|events: Seq<(DecodedPacket, u32)>|
                #[trigger] old(self).spec_run(seq![(*pkt, ts_sec)] + events) == seq![alerts_view(r@)]
                    + final(self).spec_run(events),
    ;
}

/// `a - b`, or 0 when `b > a`.
pub open spec fn sat_sub(a: u32, b: u32) -> u32 {
    if a >= b {
        (a - b) as u32
    } else {
        0
    }
}

/// The (start, contents) of the window that a packet at `ts` counts in:
/// the current one for `key` if it started at most `window` seconds
/// earlier, else a fresh one starting at `ts`.
pub open spec fn current_window<V>(state: Map<u32, (u32, V)>, key: u32, ts: u32, window: u32, fresh: V) -> (u32, V) {
    if state.contains_key(key) && sat_sub(ts, state[key].0) <= window {
        state[key]
    } else {
        (ts, fresh)
    }
}

pub open spec fn syn_only(t: TcpHeader) -> bool {
    t.flags & 0x02 != 0 && t.flags & 0x10 == 0
}

/// The (source, destination, destination port) of an IPv4 TCP packet with
/// SYN set and ACK clear.
pub open spec fn syn_probe(pkt: DecodedPacket) -> Option<(Ipv4Address, Ipv4Address, u16)> {
    match pkt.l3 {
        Some(L3::Ipv4(ip)) => match pkt.l4 {
            L4::Tcp(t) => if syn_only(t) {
                Some((ip.src, ip.dst, t.dst_port))
            } else {
                None
            },
            _ => None,
        },
        _ => None,
    }
}

fn syn_probe_of(pkt: &DecodedPacket) -> (r: Option<(Ipv4Address, Ipv4Address, u16)>)
    ensures
        r == syn_probe(*pkt),
{
    match &pkt.l3 {
        Some(L3::Ipv4(ip)) => match &pkt.l4 {
            L4::Tcp(t) => {
                if t.is_syn() && !t.is_ack() {
                    Some((ip.src, ip.dst, t.dst_port))
                } else {
                    None
                }
            },
            _ => None,
        },
        _ => None,
    }
}

// -----------------------------------------------------------------
// Port scan: many distinct destination ports probed from one source
// within a window, with SYN-only segments.
// -----------------------------------------------------------------

pub struct PortScanRule {
    window_secs: u32,
    threshold: usize,
    state: HashMap<u32, (u32, HashSet<u16>)>,
}

/// The window of `key` after a probe of `port` at `ts`.
pub open spec fn port_scan_entry(state: Map<u32, (u32, Set<u16>)>, key: u32, port: u16, ts: u32, window: u32) -> (u32, Set<u16>) {
    let e = current_window(state, key, ts, window, Set::<u16>::empty());
    (e.0, e.1.insert(port))
}

pub open spec fn port_scan_message(src: Ipv4Address, touched: nat, dst: Ipv4Address, window: u32) -> Seq<char> {
    ipv4_text(src) + " touched "@ + decimal(touched) + " distinct ports on "@ + ipv4_text(dst)
        + " in "@ + decimal(window as nat) + "s (possible port scan)"@
}

/// A probe at `ts` seen by a port-scan rule with the given window and
/// threshold: its windows afterwards, and its alerts.
pub open spec fn port_scan_step(
    windows: Map<u32, (u32, Set<u16>)>,
    window: u32,
    threshold: usize,
    pkt: DecodedPacket,
    ts: u32,
) -> (Map<u32, (u32, Set<u16>)>, Seq<AlertView>) {
    match syn_probe(pkt) {
        None => (windows, Seq::empty()),
        Some((src, dst, port)) => {
            let e = port_scan_entry(windows, src.spec_to_u32(), port, ts, window);
            (
                windows.insert(src.spec_to_u32(), e),
                if e.1.len() == threshold {
                    seq![alert_view("port_scan"@, Severity::Medium, port_scan_message(src, e.1.len(), dst, window), ts)]
                } else {
                    Seq::empty()
                },
            )
        },
    }
}

/// The alerts a port-scan rule answers each event with, from `windows`.
pub open spec fn port_scan_run(
    windows: Map<u32, (u32, Set<u16>)>,
    window: u32,
    threshold: usize,
    events: Seq<(DecodedPacket, u32)>,
) -> Seq<Seq<AlertView>>
    decreases events.len(),
{
    if events.len() == 0 {
        Seq::empty()
    } else {
        let step = port_scan_step(windows, window, threshold, events[0].0, events[0].1);
        seq![step.1] + port_scan_run(step.0, window, threshold, events.drop_first())
    }
}

proof fn lemma_port_scan_run_cons(
    windows: Map<u32, (u32, Set<u16>)>,
    window: u32,
    threshold: usize,
    pkt: DecodedPacket,
    ts: u32,
    events: Seq<(DecodedPacket, u32)>,
)
    ensures
        port_scan_run(windows, window, threshold, seq![(pkt, ts)] + events) == seq![
            port_scan_step(windows, window, threshold, pkt, ts).1,
        ] + port_scan_run(port_scan_step(windows, window, threshold, pkt, ts).0, window, threshold, events),
{
    let all = seq![(pkt, ts)] + events;
    assert(all[0] == (pkt, ts));
    assert(all.drop_first() =~= events);
}

impl PortScanRule {
    pub closed spec fn window(&self) -> u32 {
        self.window_secs
    }

    pub closed spec fn threshold(&self) -> usize {
        self.threshold
    }

    /// For each source (as a number): when its window started and the
    /// destination ports it probed in it.
    pub closed spec fn windows(&self) -> Map<u32, (u32, Set<u16>)> {
        self.state@.map_values(|v: (u32, HashSet<u16>)| (v.0, v.1@))
    }

    pub fn new(window_secs: u32, threshold: usize) -> (r: Self)
        ensures
            r.window() == window_secs,
            r.threshold() == threshold,
            r.windows() == Map::<u32, (u32, Set<u16>)>::empty(),
    {
        let r = PortScanRule { window_secs, threshold, state: HashMap::new() };
        assert(r.windows() =~= Map::<u32, (u32, Set<u16>)>::empty());
        r
    }
}

fn port_scan_message_of(src: &Ipv4Address, touched: usize, dst: &Ipv4Address, window: u32) -> (r: String)
    ensures
        r@ == port_scan_message(*src, touched as nat, *dst, window),
{
    let mut m = String::new();
    push_ipv4(&mut m, src);
    m.append(" touched ");
    push_decimal(&mut m, touched as u64);
    m.append(" distinct ports on ");
    push_ipv4(&mut m, dst);
    m.append(" in ");
    push_decimal(&mut m, window as u64);
    m.append("s (possible port scan)");
    assert(m@ =~= port_scan_message(*src, touched as nat, *dst, window));
    m
}

impl PortScanRule {
    fn observe(&mut self, pkt: &DecodedPacket, ts_sec: u32) -> (r: Vec<Alert>)
        ensures
            final(self).window() == old(self).window(),
            final(self).threshold() == old(self).threshold(),
            (final(self).windows(), alerts_view(r@)) == port_scan_step(
                old(self).windows(),
                old(self).window(),
                old(self).threshold(),
                *pkt,
                ts_sec,
            ),
    {
        let mut alerts: Vec<Alert> = Vec::new();
        let (src, dst, dst_port) = match syn_probe_of(pkt) {
            Some(p) => p,
            None => {
                assert(alerts_view(alerts@) =~= Seq::<AlertView>::empty());
                return alerts;
            },
        };
        let key = src.to_u32();
        let ghost w0 = self.windows();
        let (start, ports) = match self.state.remove(&key) {
            Some(e) => e,
            None => (ts_sec, HashSet::new()),
        };
        let (start, mut ports) = if ts_sec.saturating_sub(start) > self.window_secs {
            (ts_sec, HashSet::new())
        } else {
            (start, ports)
        };
        ports.insert(dst_port);
        let touched = ports.len();
        let ghost e = (start, ports@);
        assert(e == port_scan_entry(w0, key, dst_port, ts_sec, self.window_secs));
        self.state.insert(key, (start, ports));
        assert(self.windows() =~= w0.insert(key, e));
        if touched == self.threshold {
            let message = port_scan_message_of(&src, touched, &dst, self.window_secs);
            alerts.push(make_alert("port_scan", Severity::Medium, message, ts_sec));
        }
        assert(alerts_view(alerts@) =~= port_scan_step(w0, self.window_secs, self.threshold, *pkt, ts_sec).1);
        alerts
    }
}

impl DetectionRule for PortScanRule {
    open spec fn obeys_rule_spec(&self) -> bool {
        true
    }

    open spec fn spec_name(&self) -> Seq<char> {
        "port_scan"@
    }

    open spec fn spec_run(&self, events: Seq<(DecodedPacket, u32)>) -> Seq<Seq<AlertView>> {
        port_scan_run(self.windows(), self.window(), self.threshold(), events)
    }

    fn name(&self) -> (r: &str) {
        "port_scan"
    }

    fn on_packet(&mut self, pkt: &DecodedPacket, ts_sec: u32) -> (r: Vec<Alert>)
        ensures
            final(self).window() == old(self).window(),
            final(self).threshold() == old(self).threshold(),
            (final(self).windows(), alerts_view(r@)) == port_scan_step(
                old(self).windows(),
                old(self).window(),
                old(self).threshold(),
                *pkt,
                ts_sec,
            ),
    {
        let ghost w0 = self.windows();
        let r = self.observe(pkt, ts_sec);
        proof {
            assert forall|events: Seq<(DecodedPacket, u32)>|
                #[trigger] old(self).spec_run(seq![(*pkt, ts_sec)] + events) == seq![alerts_view(r@)]
                    + final(self).spec_run(events) by {
                lemma_port_scan_run_cons(w0, self.window(), self.threshold(), *pkt, ts_sec, events);
            }
        }
        r
    }
}

// -----------------------------------------------------------------
// SYN flood: many SYN-only segments to one destination within a window.
// -----------------------------------------------------------------

pub struct SynFloodRule {
    window_secs: u32,
    syn_threshold: usize,
    state: HashMap<u32, (u32, usize)>,
}

/// `n + 1`, or `n` when `n` is already `usize::MAX`.
pub open spec fn sat_inc(n: usize) -> usize {
    if n < usize::MAX {
        (n + 1) as usize
    } else {
        n
    }
}

/// The window of destination `key` after a SYN at `ts`: its start and its
/// SYN count (which stops growing at `usize::MAX`).
pub open spec fn syn_flood_entry(state: Map<u32, (u32, usize)>, key: u32, ts: u32, window: u32) -> (u32, usize) {
    let e = current_window(state, key, ts, window, 0usize);
    (e.0, sat_inc(e.1))
}

pub open spec fn syn_flood_message(dst: Ipv4Address, count: nat, window: u32) -> Seq<char> {
    ipv4_text(dst) + " received "@ + decimal(count) + " SYNs in "@ + decimal(window as nat)
        + "s (possible SYN flood)"@
}

/// A SYN at `ts` seen by a SYN-flood rule with the given window and
/// threshold: its windows afterwards, and its alerts.
pub open spec fn syn_flood_step(
    windows: Map<u32, (u32, usize)>,
    window: u32,
    threshold: usize,
    pkt: DecodedPacket,
    ts: u32,
) -> (Map<u32, (u32, usize)>, Seq<AlertView>) {
    match syn_probe(pkt) {
        None => (windows, Seq::empty()),
        Some((src, dst, port)) => {
            let e = syn_flood_entry(windows, dst.spec_to_u32(), ts, window);
            (
                windows.insert(dst.spec_to_u32(), e),
                if e.1 == threshold {
                    seq![alert_view("syn_flood"@, Severity::High, syn_flood_message(dst, e.1 as nat, window), ts)]
                } else {
                    Seq::empty()
                },
            )
        },
    }
}

/// The alerts a SYN-flood rule answers each event with, from `windows`.
pub open spec fn syn_flood_run(
    windows: Map<u32, (u32, usize)>,
    window: u32,
    threshold: usize,
    events: Seq<(DecodedPacket, u32)>,
) -> Seq<Seq<AlertView>>
    decreases events.len(),
{
    if events.len() == 0 {
        Seq::empty()
    } else {
        let step = syn_flood_step(windows, window, threshold, events[0].0, events[0].1);
        seq![step.1] + syn_flood_run(step.0, window, threshold, events.drop_first())
    }
}

proof fn lemma_syn_flood_run_cons(
    windows: Map<u32, (u32, usize)>,
    window: u32,
    threshold: usize,
    pkt: DecodedPacket,
    ts: u32,
    events: Seq<(DecodedPacket, u32)>,
)
    ensures
        syn_flood_run(windows, window, threshold, seq![(pkt, ts)] + events) == seq![
            syn_flood_step(windows, window, threshold, pkt, ts).1,
        ] + syn_flood_run(syn_flood_step(windows, window, threshold, pkt, ts).0, window, threshold, events),
{
    let all = seq![(pkt, ts)] + events;
    assert(all[0] == (pkt, ts));
    assert(all.drop_first() =~= events);
}

impl SynFloodRule {
    pub closed spec fn window(&self) -> u32 {
        self.window_secs
    }

    pub closed spec fn threshold(&self) -> usize {
        self.syn_threshold
    }

    /// For each destination (as a number): when its window started and how
    /// many SYN-only segments it received in it.
    pub closed spec fn windows(&self) -> Map<u32, (u32, usize)> {
        self.state@
    }

    pub fn new(window_secs: u32, syn_threshold: usize) -> (r: Self)
        ensures
            r.window() == window_secs,
            r.threshold() == syn_threshold,
            r.windows() == Map::<u32, (u32, usize)>::empty(),
    {
        SynFloodRule { window_secs, syn_threshold, state: HashMap::new() }
    }
}

fn syn_flood_message_of(dst: &Ipv4Address, count: usize, window: u32) -> (r: String)
    ensures
        r@ == syn_flood_message(*dst, count as nat, window),
{
    let mut m = String::new();
    push_ipv4(&mut m, dst);
    m.append(" received ");
    push_decimal(&mut m, count as u64);
    m.append(" SYNs in ");
    push_decimal(&mut m, window as u64);
    m.append("s (possible SYN flood)");
    assert(m@ =~= syn_flood_message(*dst, count as nat, window));
    m
}

impl SynFloodRule {
    fn observe(&mut self, pkt: &DecodedPacket, ts_sec: u32) -> (r: Vec<Alert>)
        ensures
            final(self).window() == old(self).window(),
            final(self).threshold() == old(self).threshold(),
            (final(self).windows(), alerts_view(r@)) == syn_flood_step(
                old(self).windows(),
                old(self).window(),
                old(self).threshold(),
                *pkt,
                ts_sec,
            ),
    {
        let mut alerts: Vec<Alert> = Vec::new();
        let (_src, dst, _port) = match syn_probe_of(pkt) {
            Some(p) => p,
            None => {
                assert(alerts_view(alerts@) =~= Seq::<AlertView>::empty());
                return alerts;
            },
        };
        let key = dst.to_u32();
        let ghost w0 = self.windows();
        let (start, count) = match self.state.remove(&key) {
            Some(e) => e,
            None => (ts_sec, 0),
        };
        let (start, count) = if ts_sec.saturating_sub(start) > self.window_secs {
            (ts_sec, 0)
        } else {
            (start, count)
        };
        let syn_count = count.saturating_add(1);
        self.state.insert(key, (start, syn_count));
        assert(self.windows() =~= w0.insert(key, syn_flood_entry(w0, key, ts_sec, self.window_secs)));
        if syn_count == self.syn_threshold {
            let message = syn_flood_message_of(&dst, syn_count, self.window_secs);
            alerts.push(make_alert("syn_flood", Severity::High, message, ts_sec));
        }
        assert(alerts_view(alerts@) =~= syn_flood_step(w0, self.window_secs, self.syn_threshold, *pkt, ts_sec).1);
        alerts
    }
}

impl DetectionRule for SynFloodRule {
    open spec fn obeys_rule_spec(&self) -> bool {
        true
    }

    open spec fn spec_name(&self) -> Seq<char> {
        "syn_flood"@
    }

    open spec fn spec_run(&self, events: Seq<(DecodedPacket, u32)>) -> Seq<Seq<AlertView>> {
        syn_flood_run(self.windows(), self.window(), self.threshold(), events)
    }

    fn name(&self) -> (r: &str) {
        "syn_flood"
    }

    fn on_packet(&mut self, pkt: &DecodedPacket, ts_sec: u32) -> (r: Vec<Alert>)
        ensures
            final(self).window() == old(self).window(),
            final(self).threshold() == old(self).threshold(),
            (final(self).windows(), alerts_view(r@)) == syn_flood_step(
                old(self).windows(),
                old(self).window(),
                old(self).threshold(),
                *pkt,
                ts_sec,
            ),
    {
        let ghost w0 = self.windows();
        let r = self.observe(pkt, ts_sec);
        proof {
            assert forall|events: Seq<(DecodedPacket, u32)>|
                #[trigger] old(self).spec_run(seq![(*pkt, ts_sec)] + events) == seq![alerts_view(r@)]
                    + final(self).spec_run(events) by {
                lemma_syn_flood_run_cons(w0, self.window(), self.threshold(), *pkt, ts_sec, events);
            }
        }
        r
    }
}

// -----------------------------------------------------------------
// ARP spoofing: one IP address claimed by more than one MAC address.
// -----------------------------------------------------------------

pub struct ArpSpoofRule {
    ip_to_macs: HashMap<u32, HashSet<u64>>,
    alerted_pairs: HashMap<u32, HashSet<u64>>,
}

/// The (sender IP, sender MAC) of an ARP packet.
pub open spec fn arp_claim(pkt: DecodedPacket) -> Option<(Ipv4Address, [u8; 6])> {
    match pkt.l3 {
        Some(L3::Arp { sender_mac, sender_ip, .. }) => Some((sender_ip, sender_mac)),
        _ => None,
    }
}

/// The set that `m` holds for `key`, empty if none.
pub open spec fn set_at(m: Map<u32, Set<u64>>, key: u32) -> Set<u64> {
    if m.contains_key(key) {
        m[key]
    } else {
        Set::empty()
    }
}

/// After a claim of `ip` by `mac` (both as numbers): the MACs seen for each
/// IP, the (IP, MAC) pairs already alerted on, and whether this claim
/// raises an alert (the IP now has several MACs and this pair was not yet
/// alerted on).
pub open spec fn arp_step(claims: Map<u32, Set<u64>>, alerted: Map<u32, Set<u64>>, ip: u32, mac: u64) -> (Map<u32, Set<u64>>, Map<u32, Set<u64>>, bool) {
    let macs = set_at(claims, ip).insert(mac);
    let several = macs.len() > 1;
    (
        claims.insert(ip, macs),
        if several {
            alerted.insert(ip, set_at(alerted, ip).insert(mac))
        } else {
            alerted
        },
        several && !set_at(alerted, ip).contains(mac),
    )
}

pub open spec fn arp_spoof_message(ip: Ipv4Address, count: nat) -> Seq<char> {
    "IP "@ + ipv4_text(ip) + " claimed by "@ + decimal(count)
        + " different MAC addresses (possible ARP spoofing)"@
}

/// An ARP packet at `ts` seen by an ARP-spoof rule: the MACs seen for
/// each IP and the pairs alerted on afterwards, and its alerts.
pub open spec fn arp_spoof_step(
    claims: Map<u32, Set<u64>>,
    alerted: Map<u32, Set<u64>>,
    pkt: DecodedPacket,
    ts: u32,
) -> (Map<u32, Set<u64>>, Map<u32, Set<u64>>, Seq<AlertView>) {
    match arp_claim(pkt) {
        None => (claims, alerted, Seq::empty()),
        Some((ip, mac)) => {
            let step = arp_step(claims, alerted, ip.spec_to_u32(), mac_value(mac));
            (
                step.0,
                step.1,
                if step.2 {
                    seq![alert_view("arp_spoof"@, Severity::Critical, arp_spoof_message(ip, step.0[ip.spec_to_u32()].len()), ts)]
                } else {
                    Seq::empty()
                },
            )
        },
    }
}

/// The alerts an ARP-spoof rule answers each event with, from the given
/// claims and alerted pairs.
pub open spec fn arp_spoof_run(
    claims: Map<u32, Set<u64>>,
    alerted: Map<u32, Set<u64>>,
    events: Seq<(DecodedPacket, u32)>,
) -> Seq<Seq<AlertView>>
    decreases events.len(),
{
    if events.len() == 0 {
        Seq::empty()
    } else {
        let step = arp_spoof_step(claims, alerted, events[0].0, events[0].1);
        seq![step.2] + arp_spoof_run(step.0, step.1, events.drop_first())
    }
}

proof fn lemma_arp_spoof_run_cons(
    claims: Map<u32, Set<u64>>,
    alerted: Map<u32, Set<u64>>,
    pkt: DecodedPacket,
    ts: u32,
    events: Seq<(DecodedPacket, u32)>,
)
    ensures
        arp_spoof_run(claims, alerted, seq![(pkt, ts)] + events) == seq![
            arp_spoof_step(claims, alerted, pkt, ts).2,
        ] + arp_spoof_run(arp_spoof_step(claims, alerted, pkt, ts).0, arp_spoof_step(claims, alerted, pkt, ts).1, events),
{
    let all = seq![(pkt, ts)] + events;
    assert(all[0] == (pkt, ts));
    assert(all.drop_first() =~= events);
}

impl ArpSpoofRule {
    /// For each IP (as a number), the MACs (as numbers) that claimed it.
    pub closed spec fn claims(&self) -> Map<u32, Set<u64>> {
        self.ip_to_macs@.map_values(|s: HashSet<u64>| s@)
    }

    /// For each IP, the MACs with which it was already alerted on.
    pub closed spec fn alerted(&self) -> Map<u32, Set<u64>> {
        self.alerted_pairs@.map_values(|s: HashSet<u64>| s@)
    }

    pub fn new() -> (r: Self)
        ensures
            r.claims() == Map::<u32, Set<u64>>::empty(),
            r.alerted() == Map::<u32, Set<u64>>::empty(),
    {
        let r = ArpSpoofRule { ip_to_macs: HashMap::new(), alerted_pairs: HashMap::new() };
        assert(r.claims() =~= Map::<u32, Set<u64>>::empty());
        assert(r.alerted() =~= Map::<u32, Set<u64>>::empty());
        r
    }
}

impl Default for ArpSpoofRule {
    fn default() -> (r: Self)
        ensures
            r.claims() == Map::<u32, Set<u64>>::empty(),
            r.alerted() == Map::<u32, Set<u64>>::empty(),
    {
        Self::new()
    }
}

fn arp_spoof_message_of(ip: &Ipv4Address, count: usize) -> (r: String)
    ensures
        r@ == arp_spoof_message(*ip, count as nat),
{
    let mut m = String::from_str("IP ");
    push_ipv4(&mut m, ip);
    m.append(" claimed by ");
    push_decimal(&mut m, count as u64);
    m.append(" different MAC addresses (possible ARP spoofing)");
    assert(m@ =~= arp_spoof_message(*ip, count as nat));
    m
}

impl ArpSpoofRule {
    fn observe(&mut self, pkt: &DecodedPacket, ts_sec: u32) -> (r: Vec<Alert>)
        ensures
            (final(self).claims(), final(self).alerted(), alerts_view(r@)) == arp_spoof_step(
                old(self).claims(),
                old(self).alerted(),
                *pkt,
                ts_sec,
            ),
    {
        let mut alerts: Vec<Alert> = Vec::new();
        let (sender_ip, sender_mac) = match &pkt.l3 {
            Some(L3::Arp { sender_mac, sender_ip, .. }) => (*sender_ip, *sender_mac),
            _ => {
                assert(alerts_view(alerts@) =~= Seq::<AlertView>::empty());
                return alerts;
            },
        };
        let key = sender_ip.to_u32();
        let mac = mac_to_u64(&sender_mac);
        let ghost c0 = self.claims();
        let ghost a0 = self.alerted();
        let mut macs = match self.ip_to_macs.remove(&key) {
            Some(s) => s,
            None => HashSet::new(),
        };
        macs.insert(mac);
        let mac_count = macs.len();
        let ghost step = arp_step(c0, a0, key, mac);
        assert(macs@ == set_at(c0, key).insert(mac));
        self.ip_to_macs.insert(key, macs);
        assert(self.claims() =~= step.0);
        if mac_count > 1 {
            let mut pairs = match self.alerted_pairs.remove(&key) {
                Some(s) => s,
                None => HashSet::new(),
            };
            let newly = pairs.insert(mac);
            self.alerted_pairs.insert(key, pairs);
            assert(self.alerted() =~= step.1);
            if newly {
                let message = arp_spoof_message_of(&sender_ip, mac_count);
                alerts.push(make_alert("arp_spoof", Severity::Critical, message, ts_sec));
            }
        } else {
            assert(self.alerted() =~= step.1);
        }
        assert(alerts_view(alerts@) =~= arp_spoof_step(c0, a0, *pkt, ts_sec).2);
        alerts
    }
}

impl DetectionRule for ArpSpoofRule {
    open spec fn obeys_rule_spec(&self) -> bool {
        true
    }

    open spec fn spec_name(&self) -> Seq<char> {
        "arp_spoof"@
    }

    open spec fn spec_run(&self, events: Seq<(DecodedPacket, u32)>) -> Seq<Seq<AlertView>> {
        arp_spoof_run(self.claims(), self.alerted(), events)
    }

    fn name(&self) -> (r: &str) {
        "arp_spoof"
    }

    fn on_packet(&mut self, pkt: &DecodedPacket, ts_sec: u32) -> (r: Vec<Alert>)
        ensures
            (final(self).claims(), final(self).alerted(), alerts_view(r@)) == arp_spoof_step(
                old(self).claims(),
                old(self).alerted(),
                *pkt,
                ts_sec,
            ),
    {
        let ghost c0 = self.claims();
        let ghost a0 = self.alerted();
        let r = self.observe(pkt, ts_sec);
        proof {
            assert forall|events: Seq<(DecodedPacket, u32)>|
                #[trigger] old(self).spec_run(seq![(*pkt, ts_sec)] + events) == seq![alerts_view(r@)]
                    + final(self).spec_run(events) by {
                lemma_arp_spoof_run_cons(c0, a0, *pkt, ts_sec, events);
            }
        }
        r
    }
}

// -----------------------------------------------------------------
// Engine: runs all registered rules over every packet.
// -----------------------------------------------------------------

/// A registered rule.
struct Registered<R: ?Sized>(Box<R>);

proof fn lemma_push_len(s: Seq<Registered<dyn DetectionRule>>, x: Registered<dyn DetectionRule>)
    ensures
        s.push(x).len() == s.len() + 1,
        forall|i: int| 0 <= i < s.len() ==> s.push(x)[i] == s[i],
        s.push(x)[s.len() as int] == x,
{
}

proof fn lemma_update(s: Seq<Registered<dyn DetectionRule>>, i: int, x: Registered<dyn DetectionRule>)
    requires
        0 <= i < s.len(),
    ensures
        s.update(i, x).len() == s.len(),
        s.update(i, x)[i] == x,
        forall|j: int| 0 <= j < s.len() && j != i ==> s.update(i, x)[j] == s[j],
{
}

proof fn lemma_names(s: Seq<Registered<dyn DetectionRule>>)
    ensures
        s.map_values(|r: Registered<dyn DetectionRule>| r.0.spec_name()).len() == s.len(),
        forall|i: int|
            0 <= i < s.len() ==> s.map_values(|r: Registered<dyn DetectionRule>| r.0.spec_name())[i] == s[i].0.spec_name(),
{
}

pub struct DetectionEngine {
    rules: Vec<Registered<dyn DetectionRule>>,
}

impl DetectionEngine {
    /// How many rules are registered.
    pub closed spec fn rule_count(&self) -> nat {
        self.rules@.len()
    }

    /// The names of the registered rules, in registration order.
    pub closed spec fn rule_names(&self) -> Seq<Seq<char>> {
        self.rules@.map_values(|r: Registered<dyn DetectionRule>| r.0.spec_name())
    }

    /// Every registered rule obeys its description.
    pub closed spec fn rules_obey(&self) -> bool {
        forall|i: int| 0 <= i < self.rules@.len() ==> #[trigger] self.rules@[i].0.obeys_rule_spec()
    }

    /// What the `i`-th registered rule answers each of `events` with, from
    /// its present state.
    pub closed spec fn rule_run(&self, i: int, events: Seq<(DecodedPacket, u32)>) -> Seq<Seq<AlertView>> {
        self.rules@[i].0.spec_run(events)
    }

    /// The alerts of every rule for one packet, concatenated in
    /// registration order.
    pub open spec fn fed_alerts(&self, pkt: DecodedPacket, ts_sec: u32) -> Seq<AlertView> {
        Seq::new(self.rule_count(), |i: int| self.rule_run(i, seq![(pkt, ts_sec)])[0]).flatten()
    }

    pub fn new() -> (r: Self)
        ensures
            r.rule_count() == 0,
            r.rule_names() == Seq::<Seq<char>>::empty(),
            r.rules_obey(),
    {
        let r = DetectionEngine { rules: Vec::new() };
        assert(r.rule_names() =~= Seq::<Seq<char>>::empty());
        r
    }

    /// An engine with the built-in rules: port scan (10 s window, 15
    /// ports), SYN flood (5 s window, 100 SYNs) and ARP spoofing.
    pub fn with_default_rules() -> (r: Self)
        ensures
            r.rule_count() == 3,
            r.rules_obey(),
            r.rule_names() == seq!["port_scan"@, "syn_flood"@, "arp_spoof"@],
            forall|events: Seq<(DecodedPacket, u32)>|
                #[trigger] r.rule_run(0, events) == port_scan_run(Map::empty(), 10, 15, events),
            forall|events: Seq<(DecodedPacket, u32)>|
                #[trigger] r.rule_run(1, events) == syn_flood_run(Map::empty(), 5, 100, events),
            forall|events: Seq<(DecodedPacket, u32)>|
                #[trigger] r.rule_run(2, events) == arp_spoof_run(Map::empty(), Map::empty(), events),
    {
        let mut engine = Self::new();
        engine.register(Box::new(PortScanRule::new(10, 15)));
        engine.register(Box::new(SynFloodRule::new(5, 100)));
        engine.register(Box::new(ArpSpoofRule::new()));
        assert(engine.rule_names() =~= seq!["port_scan"@, "syn_flood"@, "arp_spoof"@]);
        engine
    }

    /// Adds a rule after those already registered.
    pub fn register(&mut self, rule: Box<dyn DetectionRule>)
        ensures
            final(self).rule_count() == old(self).rule_count() + 1,
            final(self).rule_names() == old(self).rule_names().push(rule.spec_name()),
            final(self).rules_obey() == (old(self).rules_obey() && rule.obeys_rule_spec()),
            forall|i: int, events: Seq<(DecodedPacket, u32)>|
                0 <= i < old(self).rule_count() ==> #[trigger] final(self).rule_run(i, events) == old(self).rule_run(i, events),
            forall|events: Seq<(DecodedPacket, u32)>|
                #[trigger] final(self).rule_run(old(self).rule_count() as int, events) == rule.spec_run(events),
    {
        let ghost d = rule;
        let r = Registered(rule);
        let ghost g = r;
        self.rules.push(r);
        proof {
            lemma_push_len(old(self).rules@, g);
            lemma_names(old(self).rules@);
            lemma_names(self.rules@);
            assert(self.rule_names() =~= old(self).rule_names().push(d.spec_name()));
            if old(self).rules_obey() && d.obeys_rule_spec() {
                assert forall|i: int| 0 <= i < self.rules@.len() implies #[trigger] self.rules@[i].0.obeys_rule_spec() by {
                    if i < old(self).rules@.len() {
                        assert(self.rules@[i] == old(self).rules@[i]);
                    }
                }
            }
            if self.rules_obey() {
                assert(self.rules@[old(self).rules@.len() as int].0.obeys_rule_spec());
                assert forall|i: int| 0 <= i < old(self).rules@.len() implies #[trigger] old(self).rules@[i].0.obeys_rule_spec() by {
                    assert(self.rules@[i] == old(self).rules@[i]);
                    assert(self.rules@[i].0.obeys_rule_spec());
                }
            }
        }
    }

    /// Feeds one packet to every rule, in registration order, and returns
    /// their alerts in that order; each rule is then ready for what
    /// follows the packet.
    pub fn feed(&mut self, pkt: &DecodedPacket, ts_sec: u32) -> (r: Vec<Alert>)
        ensures
            final(self).rule_count() == old(self).rule_count(),
            final(self).rule_names() == old(self).rule_names(),
            final(self).rules_obey() == old(self).rules_obey(),
            old(self).rules_obey() ==> feed_step(*old(self), *final(self), *pkt, ts_sec, alerts_view(r@)),
    {
        let ghost before = self.rules@;
        let ghost ob = self.rules_obey();
        let ghost e = (*pkt, ts_sec);
        let ghost mut parts: Seq<Seq<AlertView>> = Seq::empty();
        let mut out: Vec<Alert> = Vec::new();
        let n = self.rules.len();
        let mut i: usize = 0;
        while i < n
            invariant
                i <= n == self.rules@.len() == before.len(),
                e == (*pkt, ts_sec),
                parts.len() == i,
                alerts_view(out@) == parts.flatten(),
                forall|j: int| i <= j < n ==> self.rules@[j] == before[j],
                forall|j: int| 0 <= j < i ==> self.rules@[j].0.spec_name() == before[j].0.spec_name(),
                forall|j: int| 0 <= j < i ==> self.rules@[j].0.obeys_rule_spec() == before[j].0.obeys_rule_spec(),
                ob == (forall|j: int| 0 <= j < n ==> #[trigger] before[j].0.obeys_rule_spec()),
                ob ==> forall|j: int| 0 <= j < i ==> parts[j] == before[j].0.spec_run(seq![e])[0],
                ob ==> forall|j: int, events: Seq<(DecodedPacket, u32)>|
                    0 <= j < i ==> #[trigger] before[j].0.spec_run(seq![e] + events) == seq![parts[j]]
                        + self.rules@[j].0.spec_run(events),
            decreases n - i,
        {
            let ghost rules0 = self.rules@;
            let mut alerts = self.rules[i].0.on_packet(pkt, ts_sec);
            let ghost got = alerts_view(alerts@);
            proof {
                lemma_update(rules0, i as int, self.rules@[i as int]);
                assert(seq![e] + Seq::<(DecodedPacket, u32)>::empty() =~= seq![e]);
                if ob {
                    assert(before[i as int].0.obeys_rule_spec());
                    assert(before[i as int].0.spec_run(seq![e] + Seq::<(DecodedPacket, u32)>::empty()) == seq![got] + self.rules@[i as int].0.spec_run(Seq::<(DecodedPacket, u32)>::empty()));
                }
                parts.lemma_flatten_push(got);
            }
            let ghost out0 = out@;
            out.append(&mut alerts);
            proof {
                assert(alerts_view(out@) =~= alerts_view(out0) + got);
                parts = parts.push(got);
            }
            i = i + 1;
        }
        proof {
            lemma_names(before);
            lemma_names(self.rules@);
            assert(self.rule_names() =~= old(self).rule_names());
            if ob {
                assert(Seq::new(old(self).rule_count(), |j: int| old(self).rule_run(j, seq![(*pkt, ts_sec)])[0]) =~= parts);
            }
            assert(self.rules_obey() == old(self).rules_obey());
        }
        out
    }
}

/// `after` is `before` fed one packet, which it answered with `alerts`:
/// the same number of rules; the alerts are every rule's answer to the
/// packet, joined in registration order; and each rule answers what
/// follows as it would have after this packet.
pub open spec fn feed_step(
    before: DetectionEngine,
    after: DetectionEngine,
    pkt: DecodedPacket,
    ts_sec: u32,
    alerts: Seq<AlertView>,
) -> bool {
    &&& after.rule_count() == before.rule_count()
    &&& alerts == before.fed_alerts(pkt, ts_sec)
    &&& forall|i: int, events: Seq<(DecodedPacket, u32)>|
        0 <= i < before.rule_count() ==> #[trigger] before.rule_run(i, seq![(pkt, ts_sec)] + events)
            == seq![before.rule_run(i, seq![(pkt, ts_sec)])[0]] + after.rule_run(i, events)
}

impl Default for DetectionEngine {
    fn default() -> (r: Self)
        ensures
            r.rule_count() == 0,
            r.rule_names() == Seq::<Seq<char>>::empty(),
    {
        Self::new()
    }
}


// -----------------------------------------------------------------
// Alerts as the API reports them
// -----------------------------------------------------------------

/// An alert as the API reports it: plain text fields, with the MITRE
/// technique of its rule split into id and name.
pub struct AlertRecord {
    pub ts_sec: u32,
    pub rule: String,
    pub severity: String,
    pub message: String,
    pub mitre_id: Option<String>,
    pub mitre_name: Option<String>,
}

pub open spec fn severity_name(s: Severity) -> Seq<char> {
    match s {
        Severity::Low => "Low"@,
        Severity::Medium => "Medium"@,
        Severity::High => "High"@,
        Severity::Critical => "Critical"@,
    }
}

pub open spec fn opt_view(t: Option<String>) -> Option<Seq<char>> {
    match t {
        Some(x) => Some(x@),
        None => None,
    }
}

fn severity_text(s: Severity) -> (r: &'static str)
    ensures
        r@ == severity_name(s),
{
    match s {
        Severity::Low => "Low",
        Severity::Medium => "Medium",
        Severity::High => "High",
        Severity::Critical => "Critical",
    }
}

/// The record of alert `a`: its time, rule, severity name and message,
/// and the MITRE technique that its rule maps to.
pub fn alert_record(a: &Alert) -> (r: AlertRecord)
    ensures
        r.ts_sec == a.ts_sec,
        r.rule@ == a.rule@,
        r.severity@ == severity_name(a.severity),
        r.message@ == a.message@,
        opt_view(r.mitre_id) == (match mitre_spec(a.rule@) {
            Some(m) => Some(m.0),
            None => None::<Seq<char>>,
        }),
        opt_view(r.mitre_name) == (match mitre_spec(a.rule@) {
            Some(m) => Some(m.1),
            None => None::<Seq<char>>,
        }),
{
    let mitre = mitre_for_rule(a.rule.as_str());
    let (mitre_id, mitre_name) = match mitre {
        Some(t) => (Some(t.id), Some(t.name)),
        None => (None, None),
    };
    AlertRecord {
        ts_sec: a.ts_sec,
        rule: a.rule.clone(),
        severity: String::from_str(severity_text(a.severity)),
        message: a.message.clone(),
        mitre_id,
        mitre_name,
    }
}

/// The record that reports a failure in place of alerts: time 0, rule
/// `system`, severity `Error`, no MITRE technique.
pub fn error_record(message: String) -> (r: AlertRecord)
    ensures
        r.ts_sec == 0,
        r.rule@ == "system"@,
        r.severity@ == "Error"@,
        r.message@ == message@,
        r.mitre_id is None,
        r.mitre_name is None,
{
    AlertRecord {
        ts_sec: 0,
        rule: String::from_str("system"),
        severity: String::from_str("Error"),
        message,
        mitre_id: None,
        mitre_name: None,
    }
}

// -----------------------------------------------------------------
// The engine over a whole run
// -----------------------------------------------------------------

/// Feeding an engine packet after packet: the alerts of the `k`-th feed
/// are every rule's `k`-th answer to the whole sequence of packets, as
/// the rule stood before the first, joined in registration order.
pub proof fn law_engine_run(
    engines: Seq<DetectionEngine>,
    events: Seq<(DecodedPacket, u32)>,
    outs: Seq<Seq<AlertView>>,
    k: int,
)
    requires
        engines.len() == events.len() + 1,
        outs.len() == events.len(),
        forall|j: int|
            0 <= j < events.len() ==> #[trigger] feed_step(engines[j], engines[j + 1], events[j].0, events[j].1, outs[j]),
        0 <= k < events.len(),
    ensures
        outs[k] == Seq::new(engines[0].rule_count(), |i: int| engines[0].rule_run(i, events)[k]).flatten(),
{
    lemma_engine_run_suffix(engines, events, outs, k);
    let c = engines[0].rule_count();
    let e = events[k];
    assert(feed_step(engines[k], engines[k + 1], e.0, e.1, outs[k]));
    assert forall|i: int| 0 <= i < c implies #[trigger] engines[k].rule_run(i, seq![e])[0] == engines[0].rule_run(
        i,
        events,
    )[k] by {
        let empty = Seq::<(DecodedPacket, u32)>::empty();
        assert(seq![e] + empty =~= seq![e]);
        assert(engines[k].rule_run(i, seq![e] + empty) == seq![engines[k].rule_run(i, seq![e])[0]]
            + engines[k + 1].rule_run(i, empty));
        assert(events.skip(k) =~= seq![e] + events.skip(k + 1));
        assert(engines[k].rule_run(i, seq![e] + events.skip(k + 1)) == seq![engines[k].rule_run(i, seq![e])[0]]
            + engines[k + 1].rule_run(i, events.skip(k + 1)));
        assert(engines[0].rule_run(i, events).skip(k)[0] == engines[k].rule_run(i, seq![e])[0]);
    }
    assert(Seq::new(engines[k].rule_count(), |i: int| engines[k].rule_run(i, seq![(e.0, e.1)])[0]) =~= Seq::new(
        c,
        |i: int| engines[0].rule_run(i, events)[k],
    ));
}

/// What the engine answers from the `k`-th packet on is what it would
/// have answered from there before the first.
proof fn lemma_engine_run_suffix(
    engines: Seq<DetectionEngine>,
    events: Seq<(DecodedPacket, u32)>,
    outs: Seq<Seq<AlertView>>,
    k: int,
)
    requires
        engines.len() == events.len() + 1,
        outs.len() == events.len(),
        forall|j: int|
            0 <= j < events.len() ==> #[trigger] feed_step(engines[j], engines[j + 1], events[j].0, events[j].1, outs[j]),
        0 <= k <= events.len(),
    ensures
        engines[k].rule_count() == engines[0].rule_count(),
        forall|i: int|
            0 <= i < engines[0].rule_count() ==> k <= #[trigger] engines[0].rule_run(i, events).len()
                && engines[0].rule_run(i, events).skip(k) == engines[k].rule_run(i, events.skip(k)),
    decreases k,
{
    if k == 0 {
        assert forall|i: int| 0 <= i < engines[0].rule_count() implies 0 <= #[trigger] engines[0].rule_run(
            i,
            events,
        ).len() && engines[0].rule_run(i, events).skip(0) == engines[0].rule_run(i, events.skip(0)) by {
            assert(events.skip(0) =~= events);
            assert(engines[0].rule_run(i, events).skip(0) =~= engines[0].rule_run(i, events));
        }
    } else {
        lemma_engine_run_suffix(engines, events, outs, k - 1);
        let j = k - 1;
        let e = events[j];
        assert(feed_step(engines[j], engines[j + 1], e.0, e.1, outs[j]));
        assert(events.skip(j) =~= seq![e] + events.skip(k));
        assert forall|i: int| 0 <= i < engines[0].rule_count() implies k <= #[trigger] engines[0].rule_run(
            i,
            events,
        ).len() && engines[0].rule_run(i, events).skip(k) == engines[k].rule_run(i, events.skip(k)) by {
            let whole = engines[0].rule_run(i, events);
            assert(engines[j].rule_run(i, seq![e] + events.skip(k)) == seq![engines[j].rule_run(i, seq![e])[0]]
                + engines[k].rule_run(i, events.skip(k)));
            assert(whole.skip(j) == engines[j].rule_run(i, events.skip(j)));
            assert(whole.skip(k) =~= whole.skip(j).drop_first());
        }
    }
}

// -----------------------------------------------------------------
// Laws of the built-in rules
// -----------------------------------------------------------------

/// A port-scan window always holds the port just probed.  A probe within
/// `window` seconds of the window's start keeps the start and every port
/// seen so far; any other probe opens a fresh window at its own time
/// holding just its port.
pub proof fn law_port_scan_window(state: Map<u32, (u32, Set<u16>)>, key: u32, port: u16, ts: u32, window: u32)
    ensures
        port_scan_entry(state, key, port, ts, window).1.contains(port),
        state.contains_key(key) && sat_sub(ts, state[key].0) <= window ==> {
            &&& port_scan_entry(state, key, port, ts, window).0 == state[key].0
            &&& state[key].1.subset_of(port_scan_entry(state, key, port, ts, window).1)
        },
        !(state.contains_key(key) && sat_sub(ts, state[key].0) <= window) ==> {
            &&& port_scan_entry(state, key, port, ts, window).0 == ts
            &&& port_scan_entry(state, key, port, ts, window).1 == Set::<u16>::empty().insert(port)
        },
{
}

/// A SYN-flood alert fires at most once per destination and window: once
/// a window's count has reached the threshold, every further SYN to that
/// destination in the same window leaves the count above the threshold,
/// so no second alert fires.
pub proof fn law_syn_flood_once_per_window(state: Map<u32, (u32, usize)>, key: u32, ts: u32, window: u32, threshold: usize)
    requires
        threshold < usize::MAX,
        state.contains_key(key),
        state[key].1 >= threshold,
        sat_sub(ts, state[key].0) <= window,
    ensures
        syn_flood_entry(state, key, ts, window).1 > threshold,
        syn_flood_entry(state, key, ts, window).0 == state[key].0,
{
}

/// Each SYN within a window counts once; a SYN after the window opens a
/// fresh window with a count of one.
pub proof fn law_syn_flood_counts(state: Map<u32, (u32, usize)>, key: u32, ts: u32, window: u32)
    ensures
        state.contains_key(key) && sat_sub(ts, state[key].0) <= window && state[key].1 < usize::MAX
            ==> syn_flood_entry(state, key, ts, window).1 == state[key].1 + 1,
        !(state.contains_key(key) && sat_sub(ts, state[key].0) <= window) ==> syn_flood_entry(
            state,
            key,
            ts,
            window,
        ) == (ts, 1usize),
{
}

/// An (IP, MAC) pair is alerted on at most once: repeating a claim right
/// after it raises no alert.  And the first MAC ever seen for an IP
/// raises none.
pub proof fn law_arp_pair_alerts_once(claims: Map<u32, Set<u64>>, alerted: Map<u32, Set<u64>>, ip: u32, mac: u64)
    ensures
        !arp_step(
            arp_step(claims, alerted, ip, mac).0,
            arp_step(claims, alerted, ip, mac).1,
            ip,
            mac,
        ).2,
        !claims.contains_key(ip) ==> !arp_step(claims, alerted, ip, mac).2,
{
    let s1 = arp_step(claims, alerted, ip, mac);
    let macs = set_at(claims, ip).insert(mac);
    assert(set_at(s1.0, ip) == macs);
    assert(macs.insert(mac) =~= macs);
    if !claims.contains_key(ip) {
        assert(macs =~= Set::<u64>::empty().insert(mac));
    }
}

/// Only a TCP segment with SYN set and ACK clear is a probe: a segment
/// with the ACK bit (0x10) set, such as a server's SYN-ACK, or with the SYN
/// bit (0x02) clear leaves the port-scan and SYN-flood windows as they
/// were and raises no alert; so does any packet that is not TCP over IPv4.
pub proof fn law_only_syn_probes_count(
    ps_windows: Map<u32, (u32, Set<u16>)>,
    sf_windows: Map<u32, (u32, usize)>,
    window: u32,
    threshold: usize,
    pkt: DecodedPacket,
    ts: u32,
)
    requires
        !(pkt.l3 matches Some(L3::Ipv4(_)) && pkt.l4 matches L4::Tcp(t) && t.flags & 0x02 != 0 && t.flags & 0x10 == 0),
    ensures
        port_scan_step(ps_windows, window, threshold, pkt, ts) == (ps_windows, Seq::<AlertView>::empty()),
        syn_flood_step(sf_windows, window, threshold, pkt, ts) == (sf_windows, Seq::<AlertView>::empty()),
{
}

/// At most one SYN-flood alert per destination and window: once the
/// window's count has reached the threshold, a further SYN to that
/// destination in the same window raises nothing (unless the threshold is
/// `usize::MAX`, where the count stops growing).
pub proof fn law_syn_flood_alerts_once_per_window(
    windows: Map<u32, (u32, usize)>,
    window: u32,
    threshold: usize,
    pkt: DecodedPacket,
    ts: u32,
)
    requires
        threshold < usize::MAX,
        pkt.l3 matches Some(L3::Ipv4(ip)) && windows.contains_key(ip.dst.spec_to_u32())
            && windows[ip.dst.spec_to_u32()].1 >= threshold
            && ts >= windows[ip.dst.spec_to_u32()].0
            && ts - windows[ip.dst.spec_to_u32()].0 <= window,
    ensures
        syn_flood_step(windows, window, threshold, pkt, ts).1 == Seq::<AlertView>::empty(),
{
}

/// A SYN-flood alert fires when a destination's count in a window reaches
/// the threshold: a SYN-only IPv4 segment to a destination whose window is
/// current and holds one SYN fewer than the threshold raises one alert.
pub proof fn law_syn_flood_fires_at_threshold(
    windows: Map<u32, (u32, usize)>,
    window: u32,
    threshold: usize,
    pkt: DecodedPacket,
    ts: u32,
)
    requires
        threshold > 0,
        pkt.l3 matches Some(L3::Ipv4(ip)) && windows.contains_key(ip.dst.spec_to_u32())
            && windows[ip.dst.spec_to_u32()].1 + 1 == threshold
            && ts >= windows[ip.dst.spec_to_u32()].0
            && ts - windows[ip.dst.spec_to_u32()].0 <= window,
        pkt.l4 matches L4::Tcp(t) && t.flags & 0x02 != 0 && t.flags & 0x10 == 0,
    ensures
        syn_flood_step(windows, window, threshold, pkt, ts).1.len() == 1,
{
}

/// Every new claimant of a contested IP is reported: when an IP claimed by
/// one MAC is claimed by another MAC that was not yet alerted on for it,
/// an alert is raised, however many MACs claimed the IP before.
pub proof fn law_arp_new_claimant_alerts(claims: Map<u32, Set<u64>>, alerted: Map<u32, Set<u64>>, ip: u32, mac: u64)
    requires
        exists|other: u64| other != mac && set_at(claims, ip).contains(other),
        set_at(claims, ip).finite(),
        !set_at(alerted, ip).contains(mac),
    ensures
        arp_step(claims, alerted, ip, mac).2,
        arp_step(claims, alerted, ip, mac).0[ip].contains(mac),
{
    let other = choose|other: u64| other != mac && set_at(claims, ip).contains(other);
    let macs = set_at(claims, ip).insert(mac);
    assert(macs.contains(other) && macs.contains(mac));
    let two = Set::<u64>::empty().insert(other).insert(mac);
    assert(two.subset_of(macs));
    vstd::set_lib::lemma_len_subset(two, macs);
    assert(two.len() == 2);
}

/// The same, for an ARP packet: a new claimant of a contested IP raises
/// one alert at the packet's time.
pub proof fn law_arp_packet_new_claimant_alerts(
    claims: Map<u32, Set<u64>>,
    alerted: Map<u32, Set<u64>>,
    pkt: DecodedPacket,
    ts: u32,
)
    requires
        pkt.l3 matches Some(L3::Arp { sender_mac, sender_ip, .. }) && (exists|other: u64|
            other != mac_value(sender_mac) && #[trigger] set_at(claims, sender_ip.spec_to_u32()).contains(other))
            && set_at(claims, sender_ip.spec_to_u32()).finite()
            && !set_at(alerted, sender_ip.spec_to_u32()).contains(mac_value(sender_mac)),
    ensures
        arp_spoof_step(claims, alerted, pkt, ts).2.len() == 1,
        arp_spoof_step(claims, alerted, pkt, ts).2[0].ts_sec == ts,
{
    if let Some(L3::Arp { sender_mac, sender_ip, .. }) = pkt.l3 {
        law_arp_new_claimant_alerts(claims, alerted, sender_ip.spec_to_u32(), mac_value(sender_mac));
    }
}

}
