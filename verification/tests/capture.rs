use ndap::capture::{
    record_read_step, ReadEnd, RecordAction, RecordStage,
    capture_step, pcap_format, record_header, CaptureError, CaptureEvent, RawPacket, RunTotals,
};

#[test]
fn pcap_magics() {
    let f = pcap_format(&[0xD4, 0xC3, 0xB2, 0xA1]).unwrap();
    assert!(!f.swap_endian && !f.nsec);
    let f = pcap_format(&[0xA1, 0xB2, 0xC3, 0xD4]).unwrap();
    assert!(f.swap_endian && !f.nsec);
    let f = pcap_format(&[0x4D, 0x3C, 0xB2, 0xA1]).unwrap();
    assert!(!f.swap_endian && f.nsec);
    let f = pcap_format(&[0xA1, 0xB2, 0x3C, 0x4D]).unwrap();
    assert!(f.swap_endian && f.nsec);
    match pcap_format(&[1, 2, 3, 4]) {
        Err(CaptureError::BadMagic(m)) => assert_eq!(m, 0x04030201),
        _ => panic!("expected BadMagic"),
    }
}

#[test]
fn record_headers_in_both_byte_orders() {
    let le = pcap_format(&[0xD4, 0xC3, 0xB2, 0xA1]).unwrap();
    let hdr = [1, 0, 0, 0, 2, 0, 0, 0, 60, 0, 0, 0, 64, 0, 0, 0];
    let h = record_header(le, &hdr);
    assert_eq!((h.ts_sec, h.ts_usec, h.captured_len, h.original_len), (1, 2, 60, 64));

    let be_nsec = pcap_format(&[0xA1, 0xB2, 0x3C, 0x4D]).unwrap();
    let hdr = [0, 0, 0, 9, 0, 0, 0x07, 0xD0, 0, 0, 0, 10, 0, 0, 1, 0];
    let h = record_header(be_nsec, &hdr);
    assert_eq!(h.ts_sec, 9);
    assert_eq!(h.ts_usec, 2); // 2000 ns
    assert_eq!(h.captured_len, 10);
    assert_eq!(h.original_len, 256);

    let p = RawPacket::from_record(h, vec![7; 10]);
    assert_eq!(p.data.len(), 10);
    assert_eq!(p.ts_usec, 2);
}

#[test]
fn capture_loop_counts_packets_and_alerts() {
    let t = RunTotals::new();
    let (t, more) = capture_step(t, CaptureEvent::Packet { alerts: 2 });
    assert!(more);
    assert_eq!(t, RunTotals { packets: 1, alerts: 2 });
    let (t, more) = capture_step(t, CaptureEvent::Idle);
    assert!(more);
    assert_eq!(t, RunTotals { packets: 1, alerts: 2 });
    let (t2, more) = capture_step(t, CaptureEvent::Failed);
    assert!(!more);
    assert_eq!(t2, t);
    let (t3, more) = capture_step(t, CaptureEvent::Ended);
    assert!(!more);
    assert_eq!(t3, t);
    let full = RunTotals { packets: u64::MAX, alerts: u64::MAX - 1 };
    let (t4, _) = capture_step(full, CaptureEvent::Packet { alerts: 5 });
    assert_eq!(t4, RunTotals { packets: u64::MAX, alerts: u64::MAX });
}

#[test]
fn record_read_decisions() {
    assert_eq!(record_read_step(RecordStage::HeaderStart, ReadEnd::Full), RecordAction::Continue);
    assert_eq!(record_read_step(RecordStage::HeaderStart, ReadEnd::EndOfFile), RecordAction::NoMore);
    assert_eq!(record_read_step(RecordStage::HeaderStart, ReadEnd::Failed), RecordAction::IoError);
    assert_eq!(record_read_step(RecordStage::HeaderRest, ReadEnd::EndOfFile), RecordAction::IoError);
    assert_eq!(record_read_step(RecordStage::HeaderRest, ReadEnd::Full), RecordAction::Continue);
    assert_eq!(record_read_step(RecordStage::Data, ReadEnd::EndOfFile), RecordAction::Truncated);
    assert_eq!(record_read_step(RecordStage::Data, ReadEnd::Failed), RecordAction::Truncated);
    assert_eq!(record_read_step(RecordStage::Data, ReadEnd::Full), RecordAction::Continue);
}
