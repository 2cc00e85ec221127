use packetmancer::compute_severity;
use packetmancer::report::capture_duration_ms;
use packetmancer::rtt::quantile_us;
use packetmancer::{TcpFlags, TcpHealthDetector, TcpStreamState};

fn f_ack() -> TcpFlags {
    TcpFlags {
        syn: false,
        fin: false,
        rst: false,
        ack: true,
    }
}

fn counters(s: &TcpStreamState) -> [u64; 6] {
    [
        s.packet_count as u64,
        s.retransmission_count as u64,
        s.out_of_order_count as u64,
        s.zero_window_events as u64,
        s.duplicate_ack_events as u64,
        s.rtt.count,
    ]
}

#[test]
fn counters_never_decrease() {
    let mut s = TcpStreamState::default();
    let f = f_ack();
    let inputs: [(u32, u32, u16, usize); 8] = [
        (1000, 0, 1024, 100),
        (1000, 0, 1024, 100),
        (900, 0, 1024, 50),
        (2000, 5000, 0, 0),
        (2001, 5000, 0, 0),
        (2002, 5000, 0, 0),
        (0xFFFF_FF00, 0, 1024, 300),
        (44, 0, 1024, 10),
    ];
    let mut prev = counters(&s);
    for (i, (seq, ack, win, len)) in inputs.iter().enumerate() {
        TcpHealthDetector::update_stream(&mut s, *seq, *ack, *win, *len, f, i as u64);
        let now = counters(&s);
        for k in 0..6 {
            assert!(now[k] >= prev[k], "counter {k} decreased at step {i}");
        }
        prev = now;
    }
}

#[test]
fn seen_set_matches_queue_size() {
    let mut s = TcpStreamState::default();
    let f = f_ack();
    let steps: [(u32, usize); 6] = [
        (1000, 100),
        (1000, 100), // retransmission: no insertion
        (2000, 50),
        (3000, 0), // pure ACK: no insertion
        (0xFFFF_FF00, 10),
        (2000, 50), // retransmission again
    ];
    for (i, (seq, len)) in steps.iter().enumerate() {
        TcpHealthDetector::update_stream(&mut s, *seq, 0, 1024, *len, f, i as u64);
        assert_eq!(
            s.seen_seq_numbers.len(),
            s.seen_seq_queue.len(),
            "set and queue diverged at step {i}"
        );
    }
}

#[test]
fn seen_set_respects_hard_cap() {
    let mut s = TcpStreamState::default();
    let f = f_ack();
    // 200_001 distinct single-byte segments, all within the window
    for i in 0..200_001u32 {
        TcpHealthDetector::update_stream(&mut s, i, 0, 1024, 1, f, i as u64);
    }
    assert!(s.seen_seq_numbers.len() <= 200_000);
    // crossing the cap drops a quarter of the oldest entries
    assert_eq!(s.seen_seq_numbers.len(), 150_001);
    assert_eq!(s.seen_seq_queue.len(), 150_001);
}

#[test]
fn seen_window_evicts_old_entries() {
    let mut s = TcpStreamState::default();
    let f = f_ack();
    TcpHealthDetector::update_stream(&mut s, 0, 0, 1024, 100, f, 0);
    // a segment 17 MiB ahead pushes the first one out of the window
    TcpHealthDetector::update_stream(&mut s, 17 * 1024 * 1024, 0, 1024, 100, f, 1);
    assert_eq!(s.seen_seq_numbers.len(), 1);
    // seq 0 was evicted, so repeating it is a fresh segment, not a retransmission
    TcpHealthDetector::update_stream(&mut s, 0, 0, 1024, 100, f, 2);
    assert_eq!(s.retransmission_count, 0);
}

#[test]
fn rtt_samples_are_ack_minus_send_time() {
    let mut s = TcpStreamState::default();
    let f = f_ack();
    TcpHealthDetector::update_stream(&mut s, 1000, 0, 1024, 100, f, 1_000);
    TcpHealthDetector::update_stream(&mut s, 1100, 0, 1024, 200, f, 2_000);
    // one cumulative ACK confirms both outstanding segments
    TcpHealthDetector::on_ack(&mut s, 1300, 5_000);
    assert_eq!(s.rtt.samples, vec![4_000, 3_000]);
    assert_eq!(s.rtt.count, 2);
    assert_eq!(s.outstanding.len(), 0);
}

#[test]
fn rtt_sample_clamps_backward_timestamps() {
    let mut s = TcpStreamState::default();
    TcpHealthDetector::update_stream(&mut s, 1000, 0, 1024, 100, f_ack(), 10_000);
    TcpHealthDetector::on_ack(&mut s, 1100, 5_000);
    assert_eq!(s.rtt.samples, vec![0]);
}

#[test]
fn ooo_predicate_invariant_under_whole_turns() {
    // the same trace, with every sequence number lifted by k * 2^32,
    // truncates to the same 32-bit values and gives the same counts
    let trace: [(u64, usize); 4] = [(1500, 500), (1600, 100), (9000, 50), (20, 10)];
    let mut counts = Vec::new();
    for k in [0u64, 1, 7] {
        let mut s = TcpStreamState::default();
        for (i, (seq, len)) in trace.iter().enumerate() {
            let lifted = seq.wrapping_add(k << 32) as u32;
            TcpHealthDetector::update_stream(&mut s, lifted, 0, 1024, *len, f_ack(), i as u64);
        }
        counts.push((s.out_of_order_count, s.retransmission_count));
    }
    assert_eq!(counts[0], counts[1]);
    assert_eq!(counts[0], counts[2]);
    assert_eq!(counts[0].0, 2); // 1600 and 20 both start below the watermark
}

#[test]
fn severity_score_monotone_in_retransmissions() {
    let mut a = TcpStreamState::default();
    a.packet_count = 50;
    a.retransmission_count = 5;
    let b = TcpStreamState::default();
    let (score5, _, _) = compute_severity(&a, &b);
    a.retransmission_count = 6;
    let (score6, _, _) = compute_severity(&a, &b);
    assert!(score6 >= score5);
}

#[test]
fn severity_level_never_drops_to_baja_when_counters_grow() {
    let mut a = TcpStreamState::default();
    a.packet_count = 100;
    a.out_of_order_count = 3; // 3% => MEDIA
    let b = TcpStreamState::default();
    let (_, level, _) = compute_severity(&a, &b);
    assert_eq!(level, "MEDIA");
    a.duplicate_ack_events = 2;
    a.out_of_order_count = 4;
    let (_, level2, _) = compute_severity(&a, &b);
    assert_ne!(level2, "BAJA");
}

#[test]
fn severity_exact_score_and_reasons() {
    let mut a = TcpStreamState::default();
    a.packet_count = 10;
    a.retransmission_count = 6;
    a.zero_window_events = 1;
    a.duplicate_ack_events = 3;
    let b = TcpStreamState::default();
    let (score, level, reasons) = compute_severity(&a, &b);
    // 12*6 + 9*1 + 4*3 = 93, no out-of-order share
    assert_eq!(score, 93);
    assert_eq!(level, "MEDIA");
    assert_eq!(
        reasons,
        vec![
            "retransmisiones moderadas (6)".to_string(),
            "ventana cero (1)".to_string(),
            "eventos de ACK duplicado (\u{2265}3) (3)".to_string(),
        ]
    );
}

#[test]
fn severity_high_retransmissions_reason() {
    let mut a = TcpStreamState::default();
    a.packet_count = 30;
    a.retransmission_count = 20;
    let (_score, level, reasons) = compute_severity(&a, &TcpStreamState::default());
    assert_eq!(level, "ALTA");
    assert_eq!(reasons, vec!["retransmisiones altas (20)".to_string()]);
}

#[test]
fn severity_dupacks_without_retransmissions_reason() {
    let mut a = TcpStreamState::default();
    a.packet_count = 10;
    a.duplicate_ack_events = 4;
    let (_score, _level, reasons) = compute_severity(&a, &TcpStreamState::default());
    assert_eq!(
        reasons,
        vec!["muchos dupACK sin retransmisiones (4)".to_string()]
    );
}

#[test]
fn severity_ooo_percentage_reason_format() {
    let mut a = TcpStreamState::default();
    a.packet_count = 40;
    a.out_of_order_count = 1; // 2.5%
    let (score, level, reasons) = compute_severity(&a, &TcpStreamState::default());
    assert_eq!(score, 5); // round(2 * 2.5)
    assert_eq!(level, "MEDIA");
    assert_eq!(reasons, vec!["fuera de orden 2.5% (~1)".to_string()]);
}

#[test]
fn percentiles_empty_are_zero() {
    let s = TcpStreamState::default();
    assert_eq!(s.rtt.percentiles_us(), (0, 0));
}

#[test]
fn percentiles_exact_positions() {
    let mut s = TcpStreamState::default();
    let f = f_ack();
    // four samples: 40ms, 30ms, 20ms, 10ms (unsorted arrival)
    let ts_send: [u64; 4] = [0, 10_000, 20_000, 30_000];
    let lens: [u32; 4] = [100, 100, 100, 100];
    let mut seq: u32 = 0;
    for i in 0..4 {
        TcpHealthDetector::update_stream(&mut s, seq, 0, 1024, lens[i] as usize, f, ts_send[i]);
        seq += lens[i];
    }
    TcpHealthDetector::on_ack(&mut s, seq, 40_000);
    assert_eq!(s.rtt.samples, vec![40_000, 30_000, 20_000, 10_000]);
    // sorted: [10, 20, 30, 40] ms; p50 index round(1.5)=2, p95 index round(2.85)=3
    assert_eq!(s.rtt.percentiles_us(), (30_000, 40_000));
}

#[test]
fn quantile_picks_rounded_index() {
    let v: Vec<u64> = vec![1, 2, 3];
    assert_eq!(quantile_us(&v, 50), 2);
    assert_eq!(quantile_us(&v, 95), 3);
    assert_eq!(quantile_us(&v, 0), 1);
    assert_eq!(quantile_us(&Vec::new(), 50), 0);
}

#[test]
fn rtt_sample_buffer_caps_but_count_grows() {
    let mut s = TcpStreamState::default();
    let f = f_ack();
    let mut seq: u32 = 0;
    for i in 0..5000u64 {
        TcpHealthDetector::update_stream(&mut s, seq, 0, 1024, 1, f, i);
        seq = seq.wrapping_add(1);
        TcpHealthDetector::on_ack(&mut s, seq, i + 7);
    }
    assert_eq!(s.rtt.count, 5000);
    assert_eq!(s.rtt.samples.len(), 4096);
    assert_eq!(s.rtt.min_us, Some(7));
    assert_eq!(s.rtt.max_us, Some(7));
}

#[test]
fn duration_from_timestamps() {
    assert_eq!(capture_duration_ms(Some(1_000_000), Some(3_500_000)), 2_500);
    assert_eq!(capture_duration_ms(Some(3_500_000), Some(1_000_000)), 0);
    assert_eq!(capture_duration_ms(None, None), 0);
    assert_eq!(capture_duration_ms(Some(5), None), 0);
    assert_eq!(capture_duration_ms(Some(5), Some(5)), 0);
}
