use packetmancer::TcpHealthDetector;

const FLAG_SYN: u8 = 0x02;
const FLAG_ACK: u8 = 0x10;

/// A handcrafted Ethernet II / IPv4 / TCP frame.
fn tcp_frame(
    src_ip: [u8; 4],
    sport: u16,
    dst_ip: [u8; 4],
    dport: u16,
    seq: u32,
    ack: u32,
    flags: u8,
    window: u16,
    payload: &[u8],
) -> Vec<u8> {
    let mut f = Vec::new();
    f.extend_from_slice(&[0, 1, 2, 3, 4, 5]); // destination MAC
    f.extend_from_slice(&[6, 7, 8, 9, 10, 11]); // source MAC
    f.extend_from_slice(&[0x08, 0x00]); // EtherType IPv4
    let total_len = (20 + 20 + payload.len()) as u16;
    f.push(0x45); // version 4, IHL 5
    f.push(0); // DSCP/ECN
    f.extend_from_slice(&total_len.to_be_bytes());
    f.extend_from_slice(&[0, 0, 0, 0]); // id, flags, fragment offset
    f.push(64); // TTL
    f.push(6); // protocol TCP
    f.extend_from_slice(&[0, 0]); // header checksum (not validated by slicing)
    f.extend_from_slice(&src_ip);
    f.extend_from_slice(&dst_ip);
    f.extend_from_slice(&sport.to_be_bytes());
    f.extend_from_slice(&dport.to_be_bytes());
    f.extend_from_slice(&seq.to_be_bytes());
    f.extend_from_slice(&ack.to_be_bytes());
    f.push(0x50); // data offset 5
    f.push(flags);
    f.extend_from_slice(&window.to_be_bytes());
    f.extend_from_slice(&[0, 0, 0, 0]); // checksum, urgent pointer
    f.extend_from_slice(payload);
    f
}

const CLIENT: [u8; 4] = [192, 168, 1, 1];
const SERVER: [u8; 4] = [10, 0, 0, 7];

#[test]
fn parsed_frame_reaches_the_detector() {
    let mut d = TcpHealthDetector::new();
    let frame = tcp_frame(CLIENT, 40000, SERVER, 443, 1000, 0, FLAG_ACK, 1024, b"abc");
    d.on_packet(&frame, 50);
    assert_eq!(d.conversations.len(), 1);
    let conv = &d.conversations[0];
    assert_eq!(conv.flow.source_ip, u32::from_be_bytes(CLIENT));
    assert_eq!(conv.flow.source_port, 40000);
    assert_eq!(conv.flow.destination_ip, u32::from_be_bytes(SERVER));
    assert_eq!(conv.flow.destination_port, 443);
    assert_eq!(conv.c2s.packet_count, 1);
    assert_eq!(conv.c2s.highest_seq_end, Some(1003));
    assert_eq!(conv.s2c.packet_count, 0);
}

#[test]
fn non_tcp_frames_are_skipped() {
    let mut d = TcpHealthDetector::new();
    d.on_packet(&[0u8; 10], 1); // too short for any layer
    let mut udp = tcp_frame(CLIENT, 1, SERVER, 2, 0, 0, 0, 0, b"");
    udp[23] = 17; // IPv4 protocol = UDP
    d.on_packet(&udp, 2);
    assert_eq!(d.conversations.len(), 0);
}

#[test]
fn reverse_direction_maps_to_same_conversation() {
    let mut d = TcpHealthDetector::new();
    let c2s = tcp_frame(CLIENT, 40000, SERVER, 443, 1000, 0, FLAG_ACK, 1024, b"abc");
    let s2c = tcp_frame(SERVER, 443, CLIENT, 40000, 9000, 1003, FLAG_ACK, 512, b"");
    d.on_packet(&c2s, 100);
    d.on_packet(&s2c, 250);
    assert_eq!(d.conversations.len(), 1);
    let conv = &d.conversations[0];
    // the first direction seen is canonical
    assert_eq!(conv.flow.source_port, 40000);
    assert_eq!(conv.c2s.packet_count, 1);
    assert_eq!(conv.s2c.packet_count, 1);
    // the piggybacked ACK confirmed the outstanding data segment
    assert_eq!(conv.c2s.rtt.samples, vec![150]);
}

fn sample_capture() -> Vec<(Vec<u8>, u64)> {
    vec![
        (tcp_frame(CLIENT, 40000, SERVER, 443, 1, 0, FLAG_SYN, 64000, b""), 0),
        (tcp_frame(CLIENT, 40000, SERVER, 443, 1000, 0, FLAG_ACK, 1024, b"abcd"), 10),
        (tcp_frame(SERVER, 443, CLIENT, 40000, 9000, 1004, FLAG_ACK, 512, b""), 40),
        (tcp_frame(CLIENT, 40000, SERVER, 443, 1000, 0, FLAG_ACK, 1024, b"abcd"), 55),
        (tcp_frame(CLIENT, 50_000, SERVER, 80, 7, 0, FLAG_ACK, 100, b"xy"), 60),
        (tcp_frame(SERVER, 80, CLIENT, 50_000, 3, 9, FLAG_ACK, 0, b""), 70),
    ]
}

#[test]
fn deterministic_report_for_same_capture() {
    let d1 = TcpHealthDetector::run_capture(&sample_capture());
    let d2 = TcpHealthDetector::run_capture(&sample_capture());
    let r1 = d1.finalize();
    let r2 = d2.finalize();
    assert_eq!(r1, r2, "the same capture must give the same report");

    // packet-by-packet feeding gives the same state as run_capture
    let mut d3 = TcpHealthDetector::new();
    for (bytes, ts) in sample_capture() {
        d3.on_packet(&bytes, ts);
    }
    assert_eq!(d3.finalize(), r1);
}

#[test]
fn report_labels_and_orders() {
    let d = TcpHealthDetector::run_capture(&sample_capture());
    let r = d.finalize();
    assert_eq!(r.conversations_total, 2);
    assert_eq!(r.top_by_severity.len(), 2);
    assert_eq!(r.top_by_packets.len(), 2);

    // the retransmission makes the first conversation more severe
    assert_eq!(
        r.top_by_severity[0].flow,
        "192.168.1.1:40000 <-> 10.0.0.7:443/TCP"
    );
    assert!(r.top_by_severity[0].score >= r.top_by_severity[1].score);
    assert_eq!(
        r.top_by_severity[1].flow,
        "192.168.1.1:50000 <-> 10.0.0.7:80/TCP"
    );

    // by volume: 4 packets against 2
    assert_eq!(r.top_by_packets[0].total_packets, 4);
    assert_eq!(
        r.top_by_packets[0].flow,
        "192.168.1.1:40000 <-> 10.0.0.7:443/TCP"
    );
    assert_eq!(r.top_by_packets[1].total_packets, 2);

    // per-direction blocks carry the counters
    assert_eq!(r.top_by_packets[0].c2s.packets, 3);
    assert_eq!(r.top_by_packets[0].c2s.retransmissions, 1);
    assert_eq!(r.top_by_packets[0].s2c.packets, 1);
    // the pure ACK at 40 confirmed the data sent at 10
    assert_eq!(r.top_by_packets[0].c2s.rtt_samples, 1);
    assert_eq!(r.top_by_packets[0].c2s.rtt_p50_us, 30);
    // the zero-window ACK of the second conversation
    assert_eq!(r.top_by_packets[1].s2c.zero_window_events, 1);
}

#[test]
fn severity_ties_break_by_flow_label() {
    let mut d = TcpHealthDetector::new();
    // two healthy conversations with one pure ACK each: equal scores
    d.on_packet(&tcp_frame([10, 0, 0, 2], 10, SERVER, 80, 0, 0, FLAG_ACK, 9, b""), 0);
    d.on_packet(&tcp_frame([10, 0, 0, 10], 10, SERVER, 80, 0, 0, FLAG_ACK, 9, b""), 1);
    let r = d.finalize();
    assert_eq!(r.top_by_severity[0].score, r.top_by_severity[1].score);
    // "10.0.0.10:..." sorts before "10.0.0.2:..." in lexicographic order
    assert!(r.top_by_severity[0].flow.starts_with("10.0.0.10:"));
    assert!(r.top_by_severity[1].flow.starts_with("10.0.0.2:"));
}

#[test]
fn empty_detector_empty_report() {
    let d = TcpHealthDetector::new();
    let r = d.finalize();
    assert_eq!(r.conversations_total, 0);
    assert!(r.top_by_severity.is_empty());
    assert!(r.top_by_packets.is_empty());
    assert_eq!(d.name(), "tcp_health");
}
