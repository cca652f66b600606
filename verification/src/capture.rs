//! The capture side: raw packets, capture errors, the live-capture
//! interface and the classic pcap file layout (global header magic and
//! per-record headers).
use crate::protocol::{be32, read_be32};
use vstd::prelude::*;

verus! {

#[verifier::external_type_specification]
#[verifier::external_body]
pub struct ExIoError(std::io::Error);

/// One captured frame with its timestamp (microseconds) and lengths.
#[derive(Debug, Clone)]
pub struct RawPacket {
    pub ts_sec: u32,
    pub ts_usec: u32,
    pub captured_len: u32,
    pub original_len: u32,
    pub data: Vec<u8>,
}

#[derive(Debug)]
pub enum CaptureError {
    Io(std::io::Error),
    BadMagic(u32),
    Truncated,
}

impl From<std::io::Error> for CaptureError {
    fn from(e: std::io::Error) -> (r: Self)
        ensures
            r == CaptureError::Io(e),
    {
        CaptureError::Io(e)
    }
}

impl vstd::std_specs::convert::FromSpecImpl<std::io::Error> for CaptureError {
    open spec fn obeys_from_spec() -> bool {
        true
    }

    open spec fn from_spec(e: std::io::Error) -> Self {
        CaptureError::Io(e)
    }
}

/// A source of live packets.  `next_packet` returns `None` when no packet
/// arrived in time; the caller should ask again.
pub trait LiveCapture {
    fn start(&mut self, interface: &str) -> Result<(), CaptureError>;

    fn next_packet(&mut self) -> Result<Option<RawPacket>, CaptureError>;
}

/// How a pcap file stores its numbers and sub-second timestamps: with the
/// writer's byte order reversed relative to the magic's little-endian
/// reading (`swap_endian`), and in nanoseconds rather than microseconds
/// (`nsec`).
#[derive(Debug, Clone, Copy)]
pub struct PcapFormat {
    pub swap_endian: bool,
    pub nsec: bool,
}

/// The little-endian value of `s[i..i + 4]`.
pub open spec fn le32(s: Seq<u8>, i: int) -> u32 {
    (s[i] as int + s[i + 1] as int * 256 + s[i + 2] as int * 65536 + s[i + 3] as int
        * 16777216) as u32
}

pub fn read_le32(d: &[u8], i: usize) -> (r: u32)
    requires
        i + 3 < d@.len(),
    ensures
        r == le32(d@, i as int),
{
    (d[i] as u32) + (d[i + 1] as u32) * 256 + (d[i + 2] as u32) * 65536 + (d[i + 3] as u32)
        * 16777216
}

/// The format that a global-header magic number (read little-endian)
/// announces, if it is one of the four classic pcap magics.
pub open spec fn format_of_magic(m: u32) -> Option<PcapFormat> {
    if m == 0xA1B2C3D4 {
        Some(PcapFormat { swap_endian: false, nsec: false })
    } else if m == 0xD4C3B2A1 {
        Some(PcapFormat { swap_endian: true, nsec: false })
    } else if m == 0xA1B23C4D {
        Some(PcapFormat { swap_endian: false, nsec: true })
    } else if m == 0x4D3CB2A1 {
        Some(PcapFormat { swap_endian: true, nsec: true })
    } else {
        None
    }
}

/// Reads the format from the start of a pcap global header; the other
/// header fields (version, time zone, snap length, link type) are not used.
pub fn pcap_format(hdr: &[u8]) -> (r: Result<PcapFormat, CaptureError>)
    requires
        hdr@.len() >= 4,
    ensures
        match r {
            Ok(f) => format_of_magic(le32(hdr@, 0)) == Some(f),
            Err(e) => format_of_magic(le32(hdr@, 0)) is None && e == CaptureError::BadMagic(
                le32(hdr@, 0),
            ),
        },
{
    let magic_le = read_le32(hdr, 0);
    if magic_le == 0xA1B2C3D4 {
        Ok(PcapFormat { swap_endian: false, nsec: false })
    } else if magic_le == 0xD4C3B2A1 {
        Ok(PcapFormat { swap_endian: true, nsec: false })
    } else if magic_le == 0xA1B23C4D {
        Ok(PcapFormat { swap_endian: false, nsec: true })
    } else if magic_le == 0x4D3CB2A1 {
        Ok(PcapFormat { swap_endian: true, nsec: true })
    } else {
        Err(CaptureError::BadMagic(magic_le))
    }
}

/// A 32-bit field at `s[i..i + 4]` of a file in format `f`.
pub open spec fn field32(f: PcapFormat, s: Seq<u8>, i: int) -> u32 {
    if f.swap_endian {
        be32(s, i)
    } else {
        le32(s, i)
    }
}

pub fn read_field32(f: PcapFormat, d: &[u8], i: usize) -> (r: u32)
    requires
        i + 3 < d@.len(),
    ensures
        r == field32(f, d@, i as int),
{
    if f.swap_endian {
        read_be32(d, i)
    } else {
        read_le32(d, i)
    }
}

/// The four fields of a pcap record header, with the sub-second part
/// normalized to microseconds.
#[derive(Debug, Clone, Copy)]
pub struct PcapRecordHeader {
    pub ts_sec: u32,
    pub ts_usec: u32,
    pub captured_len: u32,
    pub original_len: u32,
}

/// Reads a 16-byte record header of a file in format `f`.
pub fn record_header(f: PcapFormat, hdr: &[u8]) -> (r: PcapRecordHeader)
    requires
        hdr@.len() >= 16,
    ensures
        r.ts_sec == field32(f, hdr@, 0),
        r.ts_usec == (if f.nsec {
            field32(f, hdr@, 4) / 1000
        } else {
            field32(f, hdr@, 4)
        }),
        r.captured_len == field32(f, hdr@, 8),
        r.original_len == field32(f, hdr@, 12),
{
    let ts_sec = read_field32(f, hdr, 0);
    let mut ts_usec = read_field32(f, hdr, 4);
    if f.nsec {
        ts_usec = ts_usec / 1000;
    }
    let captured_len = read_field32(f, hdr, 8);
    let original_len = read_field32(f, hdr, 12);
    PcapRecordHeader { ts_sec, ts_usec, captured_len, original_len }
}

impl RawPacket {
    /// The packet made of a record header and its captured bytes.
    pub fn from_record(h: PcapRecordHeader, data: Vec<u8>) -> (r: Self)
        ensures
            r.ts_sec == h.ts_sec,
            r.ts_usec == h.ts_usec,
            r.captured_len == h.captured_len,
            r.original_len == h.original_len,
            r.data@ == data@,
    {
        RawPacket {
            ts_sec: h.ts_sec,
            ts_usec: h.ts_usec,
            captured_len: h.captured_len,
            original_len: h.original_len,
            data,
        }
    }
}


/// Read in the byte order that the magic selected, a pcap file's magic is
/// the writer's own: 0xA1B2C3D4 for microsecond files and 0xA1B23C4D for
/// nanosecond files.
pub proof fn law_magic_in_own_order(hdr: Seq<u8>, f: PcapFormat)
    requires
        hdr.len() >= 4,
        format_of_magic(le32(hdr, 0)) == Some(f),
    ensures
        field32(f, hdr, 0) == (if f.nsec {
            0xA1B23C4Du32
        } else {
            0xA1B2C3D4u32
        }),
{
    let b0 = hdr[0];
    let b1 = hdr[1];
    let b2 = hdr[2];
    let b3 = hdr[3];
    assert(le32(hdr, 0) == (b0 as int + b1 as int * 256 + b2 as int * 65536 + b3 as int
        * 16777216) as u32);
    if le32(hdr, 0) == 0xD4C3B2A1u32 {
        assert(b0 == 0xA1 && b1 == 0xB2 && b2 == 0xC3 && b3 == 0xD4);
    } else if le32(hdr, 0) == 0x4D3CB2A1u32 {
        assert(b0 == 0xA1 && b1 == 0xB2 && b2 == 0x3C && b3 == 0x4D);
    }
}

// ---------------------------------------------------------------------
// Reading one pcap record
// ---------------------------------------------------------------------

/// How one read of a fixed number of bytes ended.
#[derive(Debug, Clone, Copy, PartialEq, Eq, Structural)]
pub enum ReadEnd {
    /// Every byte was read.
    Full,
    /// The file ended first.
    EndOfFile,
    /// The read failed otherwise.
    Failed,
}

/// The reads that make up one record: the first four header bytes, the
/// other twelve, then the captured bytes.
#[derive(Debug, Clone, Copy, PartialEq, Eq, Structural)]
pub enum RecordStage {
    HeaderStart,
    HeaderRest,
    Data,
}

/// What the reader does after a read.
#[derive(Debug, Clone, Copy, PartialEq, Eq, Structural)]
pub enum RecordAction {
    /// Go on to the next read (or, after the data, hand out the packet).
    Continue,
    /// The file ended cleanly between records: there are no more packets.
    NoMore,
    /// Report the read's I/O error.
    IoError,
    /// The record's data is cut short.
    Truncated,
}

/// A clean end of file only counts before a record's first byte; a header
/// cut short is an I/O error, and data cut short is a truncated record.
pub open spec fn record_read_spec(stage: RecordStage, end: ReadEnd) -> RecordAction {
    match (stage, end) {
        (_, ReadEnd::Full) => RecordAction::Continue,
        (RecordStage::HeaderStart, ReadEnd::EndOfFile) => RecordAction::NoMore,
        (RecordStage::HeaderStart, ReadEnd::Failed) => RecordAction::IoError,
        (RecordStage::HeaderRest, _) => RecordAction::IoError,
        (RecordStage::Data, _) => RecordAction::Truncated,
    }
}

pub fn record_read_step(stage: RecordStage, end: ReadEnd) -> (r: RecordAction)
    ensures
        r == record_read_spec(stage, end),
{
    match end {
        ReadEnd::Full => RecordAction::Continue,
        _ => match stage {
            RecordStage::HeaderStart => match end {
                ReadEnd::EndOfFile => RecordAction::NoMore,
                _ => RecordAction::IoError,
            },
            RecordStage::HeaderRest => RecordAction::IoError,
            RecordStage::Data => RecordAction::Truncated,
        },
    }
}

// ---------------------------------------------------------------------
// The capture loop's decisions
// ---------------------------------------------------------------------

/// The packets read and the alerts fired so far in a capture session.
#[derive(Debug, Clone, Copy, PartialEq, Eq, Structural)]
pub struct RunTotals {
    pub packets: u64,
    pub alerts: u64,
}

/// What one read from the capture source gave.
#[derive(Debug, Clone, Copy, PartialEq, Eq, Structural)]
pub enum CaptureEvent {
    /// A packet, on which the detection rules fired `alerts` alerts.
    Packet { alerts: u64 },
    /// No packet within the read timeout.
    Idle,
    /// The source has no more packets.
    Ended,
    /// The source failed.
    Failed,
}

/// `a + b`, or `u64::MAX` when that does not fit.
pub open spec fn sat_add(a: u64, b: u64) -> u64 {
    if a + b <= u64::MAX {
        (a + b) as u64
    } else {
        u64::MAX
    }
}

/// The totals after `event`, and whether to read again: a packet counts
/// once with its alerts, a timeout changes nothing and reads again, and
/// the end of the source or a failure stops.
pub open spec fn capture_step_spec(t: RunTotals, event: CaptureEvent) -> (RunTotals, bool) {
    match event {
        CaptureEvent::Packet { alerts } => (
            RunTotals { packets: sat_add(t.packets, 1), alerts: sat_add(t.alerts, alerts) },
            true,
        ),
        CaptureEvent::Idle => (t, true),
        CaptureEvent::Ended => (t, false),
        CaptureEvent::Failed => (t, false),
    }
}

impl RunTotals {
    pub fn new() -> (r: Self)
        ensures
            r == (RunTotals { packets: 0, alerts: 0 }),
    {
        RunTotals { packets: 0, alerts: 0 }
    }
}

/// One turn of the capture loop: the new totals, and whether to read
/// again.
pub fn capture_step(t: RunTotals, event: CaptureEvent) -> (r: (RunTotals, bool))
    ensures
        r == capture_step_spec(t, event),
{
    match event {
        CaptureEvent::Packet { alerts } => (
            RunTotals { packets: t.packets.saturating_add(1), alerts: t.alerts.saturating_add(alerts) },
            true,
        ),
        CaptureEvent::Idle => (t, true),
        CaptureEvent::Ended => (t, false),
        CaptureEvent::Failed => (t, false),
    }
}

/// The totals after reading `events` from `t`, and whether the loop is
/// still reading: it stops at the first event that ends the run, and
/// reads nothing after it.
pub open spec fn capture_run(t: RunTotals, events: Seq<CaptureEvent>) -> (RunTotals, bool)
    decreases events.len(),
{
    if events.len() == 0 {
        (t, true)
    } else {
        let step = capture_step_spec(t, events[0]);
        if step.1 {
            capture_run(step.0, events.drop_first())
        } else {
            step
        }
    }
}

/// One packet event per entry, each with that many alerts.
pub open spec fn packet_events(alerts: Seq<u64>) -> Seq<CaptureEvent> {
    alerts.map_values(|a: u64| CaptureEvent::Packet { alerts: a })
}

pub open spec fn total(s: Seq<u64>) -> int
    decreases s.len(),
{
    if s.len() == 0 {
        0
    } else {
        s[0] + total(s.drop_first())
    }
}

/// A whole capture run: reading packets on which the rules fired
/// `alerts[0]`, `alerts[1]`, ... alerts, then the end of the source or a
/// failure, counts every packet once and every alert once, and reads
/// nothing after the end (while the counts fit in 64 bits).
pub proof fn law_capture_run_totals(t: RunTotals, alerts: Seq<u64>, stop: CaptureEvent, rest: Seq<CaptureEvent>)
    requires
        stop is Ended || stop is Failed,
        t.packets + alerts.len() <= u64::MAX,
        t.alerts + total(alerts) <= u64::MAX,
    ensures
        capture_run(t, packet_events(alerts) + seq![stop] + rest) == (
            RunTotals { packets: (t.packets + alerts.len()) as u64, alerts: (t.alerts + total(alerts)) as u64 },
            false,
        ),
    decreases alerts.len(),
{
    let events = packet_events(alerts) + seq![stop] + rest;
    if alerts.len() == 0 {
        assert(events[0] == stop);
    } else {
        assert(events[0] == CaptureEvent::Packet { alerts: alerts[0] });
        lemma_total_nonneg(alerts.drop_first());
        let t1 = RunTotals { packets: (t.packets + 1) as u64, alerts: (t.alerts + alerts[0]) as u64 };
        assert(capture_step_spec(t, events[0]) == (t1, true));
        assert(events.drop_first() =~= packet_events(alerts.drop_first()) + seq![stop] + rest);
        law_capture_run_totals(t1, alerts.drop_first(), stop, rest);
    }
}

proof fn lemma_total_nonneg(s: Seq<u64>)
    ensures
        total(s) >= 0,
    decreases s.len(),
{
    if s.len() > 0 {
        lemma_total_nonneg(s.drop_first());
    }
}

/// A read timeout changes nothing: the run goes on as if it had not
/// happened.
pub proof fn law_capture_idle_ignored(t: RunTotals, events: Seq<CaptureEvent>)
    ensures
        capture_run(t, seq![CaptureEvent::Idle] + events) == capture_run(t, events),
{
    let all = seq![CaptureEvent::Idle] + events;
    assert(all[0] == CaptureEvent::Idle);
    assert(all.drop_first() =~= events);
}

}
