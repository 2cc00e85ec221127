use packetmancer::compute_severity;
use packetmancer::{TcpConversationState, TcpFlags, TcpHealthDetector, TcpStreamState};

fn f_ack() -> TcpFlags {
    TcpFlags {
        syn: false,
        fin: false,
        rst: false,
        ack: true,
    }
}

#[test]
fn dup_ack_event_on_three_consecutive() {
    let mut s = TcpStreamState::default();
    TcpHealthDetector::update_stream(&mut s, 1000, 5000, 1024, 0, f_ack(), 10);
    TcpHealthDetector::update_stream(&mut s, 1001, 5000, 1024, 0, f_ack(), 20);
    TcpHealthDetector::update_stream(&mut s, 1002, 5000, 1024, 0, f_ack(), 30); // event
    assert_eq!(s.duplicate_ack_events, 1);
    // the streak resets when the ACK number changes
    TcpHealthDetector::update_stream(&mut s, 1003, 5001, 1024, 0, f_ack(), 40);
    assert_eq!(s.dup_ack_streak, 1);
}

#[test]
fn retransmission_on_same_seq_with_payload() {
    let mut s = TcpStreamState::default();
    let f = f_ack();
    TcpHealthDetector::update_stream(&mut s, 1000, 0, 1024, 100, f, 0);
    TcpHealthDetector::update_stream(&mut s, 1000, 0, 1024, 100, f, 10);
    assert_eq!(s.retransmission_count, 1);
}

#[test]
fn zero_window_when_ack_with_zero_window() {
    let mut s = TcpStreamState::default();
    TcpHealthDetector::update_stream(&mut s, 1000, 0, 0, 0, f_ack(), 0);
    assert_eq!(s.zero_window_events, 1);
}

#[test]
fn out_of_order_when_seq_before_highest_end() {
    let mut s = TcpStreamState::default();
    let f = f_ack();
    TcpHealthDetector::update_stream(&mut s, 1500, 0, 1024, 500, f, 0); // end=2000
    TcpHealthDetector::update_stream(&mut s, 1600, 0, 1024, 100, f, 1); // 1600<2000 => OOO
    assert_eq!(s.out_of_order_count, 1);
}

#[test]
fn severity_caps_when_only_dupacks() {
    // many dup-ACKs, no retransmissions, no zero-window: never ALTA
    let mut c2s = TcpStreamState::default();
    let s2c = TcpStreamState::default();
    let f = f_ack();
    // produces 2 dup-ACK events (6 duplicate ACKs in total)
    TcpHealthDetector::update_stream(&mut c2s, 1, 5000, 1024, 0, f, 0);
    TcpHealthDetector::update_stream(&mut c2s, 2, 5000, 1024, 0, f, 1);
    TcpHealthDetector::update_stream(&mut c2s, 3, 5000, 1024, 0, f, 2); // event 1
    TcpHealthDetector::update_stream(&mut c2s, 4, 5000, 1024, 0, f, 3);
    TcpHealthDetector::update_stream(&mut c2s, 5, 5000, 1024, 0, f, 4);
    TcpHealthDetector::update_stream(&mut c2s, 6, 5000, 1024, 0, f, 5); // event 2
    let (_score, level, _reasons) = compute_severity(&c2s, &s2c);
    assert_ne!(level, "ALTA");
}

#[test]
fn rtt_is_measured_on_ack_of_data() {
    // simulate DATA C->S followed by an ACK S->C
    let mut conv = TcpConversationState::default();
    let c2s = &mut conv.c2s;

    // DATA C->S: seq=1000, len=100 => end=1100, ts=1_000_000us
    TcpHealthDetector::update_stream(c2s, 1000, 0, 65535, 100, f_ack(), 1_000_000);

    // ACK S->C: ack=1100, ts=1_120_000us  => RTT ~120ms
    TcpHealthDetector::on_ack(c2s, 1100, 1_120_000);

    let (p50_us, p95_us) = c2s.rtt.percentiles_us();
    let p50 = p50_us as f64 / 1000.0;
    let p95 = p95_us as f64 / 1000.0;
    assert!(p50 >= 119.0 && p50 <= 121.0, "p50={p50}");
    assert!(p95 >= 119.0 && p95 <= 121.0, "p95={p95}");
    assert_eq!(c2s.rtt.count, 1);
    assert!(conv.s2c.rtt.count == 0);
}

#[test]
fn ooo_respects_wraparound_forward_progress() {
    // watermark near the end of the 32-bit space
    let mut s = TcpStreamState::default();
    let f = f_ack();

    // first segment: seq=0xFFFF_FF00, len=300 => end=0x0000002C (wrap)
    TcpHealthDetector::update_stream(&mut s, 0xFFFF_FF00, 0, 1024, 300, f, 0);
    let max_end = s.highest_seq_end.expect("the watermark must be set");
    // it must advance without counting OOO
    assert_eq!(s.out_of_order_count, 0);

    // second segment continues after the wrap (seq=0x0000002C, len=100)
    TcpHealthDetector::update_stream(&mut s, 0x0000_002C, 0, 1024, 100, f, 1);
    // still no OOO, and the watermark advances modularly
    assert_eq!(s.out_of_order_count, 0);
    assert!(packetmancer::seq_gt(s.highest_seq_end.unwrap(), max_end));
}

#[test]
fn ooo_counts_when_segment_is_behind_across_wrap() {
    let mut s = TcpStreamState::default();
    let f = f_ack();

    // a "recent" segment: small seq after a wrap (seq=20, len=20 => end=40)
    TcpHealthDetector::update_stream(&mut s, 20, 0, 1024, 20, f, 0);
    let max_end = s.highest_seq_end.unwrap();
    assert_eq!(max_end, 40);

    // now an "old" segment from before the wrap (seq=0xFFFF_FF00, len=50)
    TcpHealthDetector::update_stream(&mut s, 0xFFFF_FF00, 0, 1024, 50, f, 1);

    // it lies modularly behind the watermark, so it counts as OOO
    assert_eq!(s.out_of_order_count, 1);
}

#[test]
fn ooo_is_not_counted_for_retransmissions() {
    let mut s = TcpStreamState::default();
    let f = f_ack();

    // first transmission
    TcpHealthDetector::update_stream(&mut s, 10_000, 0, 1024, 500, f, 0);
    // advances the watermark
    TcpHealthDetector::update_stream(&mut s, 10_500, 0, 1024, 100, f, 1);
    // retransmission of the first: same seq
    TcpHealthDetector::update_stream(&mut s, 10_000, 0, 1024, 500, f, 2);

    assert_eq!(s.retransmission_count, 1);
    assert_eq!(s.out_of_order_count, 0, "a retransmission must not count as OOO");
}

fn f_ack_rst() -> TcpFlags {
    TcpFlags {
        syn: false,
        fin: false,
        rst: true,
        ack: true,
    }
}

#[test]
fn retransmission_ignored_when_rst() {
    let mut s = TcpStreamState::default();
    let f = f_ack_rst();
    // same seq with payload, but with RST: no retransmission counted
    TcpHealthDetector::update_stream(&mut s, 1000, 0, 1024, 100, f, 0);
    TcpHealthDetector::update_stream(&mut s, 1000, 0, 1024, 100, f, 10);
    assert_eq!(s.retransmission_count, 0);
}

#[test]
fn dupack_resets_when_window_changes() {
    let mut s = TcpStreamState::default();
    // three duplicate ACKs with the same window: one event
    TcpHealthDetector::update_stream(&mut s, 1, 5000, 4096, 0, f_ack(), 0);
    TcpHealthDetector::update_stream(&mut s, 2, 5000, 4096, 0, f_ack(), 1);
    TcpHealthDetector::update_stream(&mut s, 3, 5000, 4096, 0, f_ack(), 2);
    assert_eq!(s.duplicate_ack_events, 1);

    // a window change restarts the streak without a new event
    TcpHealthDetector::update_stream(&mut s, 4, 5000, 8192, 0, f_ack(), 3);
    assert_eq!(s.dup_ack_streak, 1);
    assert_eq!(s.duplicate_ack_events, 1);
}

#[test]
fn severity_retr_5_is_media_with_reason() {
    // retr >= 5 => MEDIA with the "retransmisiones moderadas" reason
    let mut c2s = TcpStreamState::default();
    let f = f_ack();
    // initial transmission
    TcpHealthDetector::update_stream(&mut c2s, 1_000, 0, 1024, 100, f, 0);
    // 5 retransmissions of the same seq with payload
    for i in 0..5 {
        TcpHealthDetector::update_stream(&mut c2s, 1_000, 0, 1024, 100, f, 10 + i);
    }
    let s2c = TcpStreamState::default();
    let (_score, level, reasons) = compute_severity(&c2s, &s2c);
    assert_eq!(level, "MEDIA");
    assert!(reasons
        .iter()
        .any(|r| r.contains("retransmisiones moderadas")));
}

#[test]
fn severity_zwin_1_is_media_with_reason() {
    // zwin >= 1 => MEDIA with the "ventana cero" reason
    let mut s = TcpStreamState::default();
    TcpHealthDetector::update_stream(&mut s, 1000, 0, 0, 0, f_ack(), 0);
    let (_score, level, reasons) = compute_severity(&s, &TcpStreamState::default());
    assert_eq!(level, "MEDIA");
    assert!(reasons.iter().any(|r| r.contains("ventana cero")));
}

#[test]
fn severity_ooo_exactly_2pct_is_baja_and_above_is_media() {
    // exactly 2.0% => BAJA; above 2.0% => MEDIA
    let mut a = TcpStreamState::default();
    a.packet_count = 100;
    a.out_of_order_count = 2; // 2%
    let (_s, l, _r) = compute_severity(&a, &TcpStreamState::default());
    assert_eq!(l, "BAJA");

    a.out_of_order_count = 3; // 3%
    let (_s2, l2, _r2) = compute_severity(&a, &TcpStreamState::default());
    assert_eq!(l2, "MEDIA");
}
