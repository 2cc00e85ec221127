//! The TCP-health detector: parses each captured frame, tracks every
//! conversation under its canonical flow key, and updates the two
//! stream states of the conversation the frame belongs to.
//!
//! The state after each packet is pinned down exactly by
//! [`spec_on_packet`], a function of the previous state and the packet
//! bytes and timestamp alone, which makes the whole detector
//! deterministic.

use vstd::prelude::*;

use etherparse::{NetSlice, SlicedPacket, TransportSlice};

use crate::flow::Flow;
use crate::stream::{
    spec_on_ack, spec_on_data, spec_stream_empty, spec_update_stream, StreamModel, TcpFlags,
    TcpStreamState,
};

verus! {

broadcast use vstd::std_specs::hash::group_hash_axioms;

/// The fields of one parsed Ethernet/IPv4/TCP frame that the detector
/// reads.  Addresses are big-endian 32-bit integers; `payload_len` is
/// the number of application bytes in the segment.
#[derive(Debug, Clone, Copy, PartialEq, Eq, Structural)]
pub struct TcpSegment {
    pub src_ip: u32,
    pub src_port: u16,
    pub dst_ip: u32,
    pub dst_port: u16,
    pub seq: u32,
    pub ack: u32,
    pub window: u16,
    pub payload_len: usize,
    pub syn: bool,
    pub fin: bool,
    pub rst: bool,
    pub has_ack: bool,
}

/// What parsing a captured frame yields: `None` unless the frame is
/// Ethernet II carrying IPv4 carrying TCP.  The result depends on the
/// bytes alone.
pub uninterp spec fn spec_parse_segment(data: Seq<u8>) -> Option<TcpSegment>;

/// Relies on etherparse's `SlicedPacket::from_ethernet` and its slice
/// accessors: slicing an Ethernet II frame into link, IPv4 and TCP
/// layers and reading the header fields; the result is a function of
/// the frame bytes alone, and any parse failure or other layer kind
/// yields `None`.
#[verifier::external_body]
fn parse_segment(data: &[u8]) -> (r: Option<TcpSegment>)
    ensures
        r == spec_parse_segment(data@),
{
    match SlicedPacket::from_ethernet(data) {
        Ok(SlicedPacket { net: Some(NetSlice::Ipv4(ip)), transport: Some(TransportSlice::Tcp(t)), .. }) => {
            let h = ip.header();
            Some(TcpSegment {
                src_ip: u32::from_be_bytes(h.source()), src_port: t.source_port(),
                dst_ip: u32::from_be_bytes(h.destination()), dst_port: t.destination_port(),
                seq: t.sequence_number(), ack: t.acknowledgment_number(),
                window: t.window_size(), payload_len: t.payload().len(),
                syn: t.syn(), fin: t.fin(), rst: t.rst(), has_ack: t.ack(),
            })
        },
        _ => None,
    }
}

/// Mathematical state of one conversation.
#[verifier::ext_equal]
pub ghost struct ConvModel {
    pub flow: Flow,
    pub c2s: StreamModel,
    pub s2c: StreamModel,
}

/// Both directions of one TCP conversation under its canonical flow.
#[derive(Debug)]
pub struct TcpConversationState {
    /// The canonical direction: the flow of the first packet observed.
    pub flow: Flow,
    /// The direction matching the canonical flow.
    pub c2s: TcpStreamState,
    /// The reverse direction.
    pub s2c: TcpStreamState,
}

impl View for TcpConversationState {
    type V = ConvModel;

    open spec fn view(&self) -> ConvModel {
        ConvModel { flow: self.flow, c2s: self.c2s@, s2c: self.s2c@ }
    }
}

impl Default for TcpConversationState {
    /// A conversation with no packets observed, under the all-zero flow.
    fn default() -> (r: Self)
        ensures
            r@ == (ConvModel {
                flow: Flow { source_ip: 0, source_port: 0, destination_ip: 0, destination_port: 0 },
                c2s: spec_stream_empty(),
                s2c: spec_stream_empty(),
            }),
    {
        TcpConversationState {
            flow: Flow::default(),
            c2s: TcpStreamState::default(),
            s2c: TcpStreamState::default(),
        }
    }
}

/// The TCP-health detector: every conversation seen so far, in order of
/// first appearance.
pub struct TcpHealthDetector {
    pub conversations: Vec<TcpConversationState>,
}

impl View for TcpHealthDetector {
    type V = Seq<ConvModel>;

    open spec fn view(&self) -> Seq<ConvModel> {
        self.conversations@.map_values(|c: TcpConversationState| c@)
    }
}

/// Index of the first conversation whose canonical flow is exactly
/// `flow`.
pub open spec fn spec_find_idx(convs: Seq<ConvModel>, flow: Flow) -> Option<int>
    decreases convs.len(),
{
    if convs.len() == 0 {
        None
    } else if convs[0].flow == flow {
        Some(0int)
    } else {
        match spec_find_idx(convs.drop_first(), flow) {
            Some(i) => Some(i + 1),
            None => None,
        }
    }
}

/// Conversation lookup: the direct key first, then the reversed key.
pub open spec fn spec_lookup(convs: Seq<ConvModel>, flow: Flow) -> Option<int> {
    match spec_find_idx(convs, flow) {
        Some(i) => Some(i),
        None => spec_find_idx(convs, flow.spec_reverse()),
    }
}

/// `spec_find_idx` finds exactly the first index holding `flow`, and
/// `None` means no index holds it.
pub proof fn lemma_find_idx_spec(convs: Seq<ConvModel>, flow: Flow)
    ensures
        match spec_find_idx(convs, flow) {
            Some(j) => 0 <= j < convs.len() && convs[j].flow == flow && forall|i: int|
                0 <= i < j ==> convs[i].flow != flow,
            None => forall|i: int| 0 <= i < convs.len() ==> convs[i].flow != flow,
        },
    decreases convs.len(),
{
    if convs.len() == 0 {
    } else if convs[0].flow == flow {
    } else {
        let rest = convs.drop_first();
        lemma_find_idx_spec(rest, flow);
        assert(forall|i: int| 0 <= i < rest.len() ==> rest[i] == convs[i + 1]);
        match spec_find_idx(rest, flow) {
            Some(j) => {
                assert(convs[j + 1].flow == flow);
                assert forall|i: int| 0 <= i < j + 1 implies convs[i].flow != flow by {
                    if i >= 1 {
                        assert(rest[i - 1] == convs[i]);
                    }
                }
            },
            None => {
                assert forall|i: int| 0 <= i < convs.len() implies convs[i].flow != flow by {
                    if i >= 1 {
                        assert(rest[i - 1] == convs[i]);
                    }
                }
            },
        }
    }
}

/// One packet's effect on the detector: a frame that is not
/// Ethernet/IPv4/TCP changes nothing; otherwise the packet's flow is
/// looked up (directly, then reversed), a fresh conversation is created
/// under the packet's flow when neither key exists, the sending
/// direction runs the per-segment update, and a valid ACK (no
/// SYN/FIN/RST) runs cumulative-ACK matching on the opposite direction.
pub open spec fn spec_on_packet(
    convs: Seq<ConvModel>,
    data: Seq<u8>,
    ts_us: u64,
) -> Seq<ConvModel> {
    match spec_parse_segment(data) {
        None => convs,
        Some(seg) => {
            let flow = Flow {
                source_ip: seg.src_ip,
                source_port: seg.src_port,
                destination_ip: seg.dst_ip,
                destination_port: seg.dst_port,
            };
            let found = spec_lookup(convs, flow);
            let convs1 = if found is Some {
                convs
            } else {
                convs.push(ConvModel { flow, c2s: spec_stream_empty(), s2c: spec_stream_empty() })
            };
            let idx = if found is Some {
                found->0
            } else {
                convs.len() as int
            };
            let conv = convs1[idx];
            let flags = TcpFlags { syn: seg.syn, fin: seg.fin, rst: seg.rst, ack: seg.has_ack };
            let ack_valid = seg.has_ack && !seg.syn && !seg.fin && !seg.rst;
            let updated = if flow == conv.flow {
                ConvModel {
                    c2s: spec_update_stream(
                        conv.c2s,
                        seg.seq,
                        seg.ack,
                        seg.window,
                        seg.payload_len,
                        flags,
                        ts_us,
                    ),
                    s2c: if ack_valid {
                        spec_on_ack(conv.s2c, seg.ack, ts_us)
                    } else {
                        conv.s2c
                    },
                    ..conv
                }
            } else {
                ConvModel {
                    s2c: spec_update_stream(
                        conv.s2c,
                        seg.seq,
                        seg.ack,
                        seg.window,
                        seg.payload_len,
                        flags,
                        ts_us,
                    ),
                    c2s: if ack_valid {
                        spec_on_ack(conv.c2s, seg.ack, ts_us)
                    } else {
                        conv.c2s
                    },
                    ..conv
                }
            };
            convs1.update(idx, updated)
        },
    }
}

impl TcpHealthDetector {
    /// A detector that has seen no packets.
    pub fn new() -> (r: Self)
        ensures
            r@ == Seq::<ConvModel>::empty(),
    {
        let r = TcpHealthDetector { conversations: Vec::new() };
        proof {
            assert(r@ =~= Seq::<ConvModel>::empty());
        }
        r
    }

    /// The detector's name in the report.
    pub fn name(&self) -> (r: &'static str)
        ensures
            r@ == "tcp_health"@,
    {
        "tcp_health"
    }

    /// Full per-segment update of the sending direction; the exact
    /// effect is [`spec_update_stream`].
    pub fn update_stream(
        stream: &mut TcpStreamState,
        seq_num: u32,
        ack_num: u32,
        window_size: u16,
        payload_len: usize,
        flags: TcpFlags,
        ts_us: u64,
    )
        ensures
            final(stream)@ == spec_update_stream(
                old(stream)@,
                seq_num,
                ack_num,
                window_size,
                payload_len,
                flags,
                ts_us,
            ),
    {
        stream.packet_count = stream.packet_count.saturating_add(1);

        if flags.ack && !flags.syn && !flags.rst && window_size == 0 {
            stream.zero_window_events = stream.zero_window_events.saturating_add(1);
        }

        // compare against what was seen before this packet
        let same_ack = match stream.last_ack_seen {
            Some(x) => x == ack_num,
            None => false,
        };
        let same_win = match stream.last_window_seen {
            Some(w) => w == window_size,
            None => false,
        };

        if payload_len == 0 && flags.ack && !flags.syn && !flags.fin && !flags.rst {
            if same_ack && same_win {
                stream.dup_ack_streak = stream.dup_ack_streak.saturating_add(1);
                if stream.dup_ack_streak == 3 {
                    stream.duplicate_ack_events = stream.duplicate_ack_events.saturating_add(1);
                }
            } else {
                stream.last_ack_seen = Some(ack_num);
                stream.last_window_seen = Some(window_size);
                stream.dup_ack_streak = 1;
            }
        } else {
            stream.dup_ack_streak = 0;
        }

        stream.last_window_seen = Some(window_size);

        Self::on_data(stream, seq_num, payload_len, flags, ts_us);
    }

    /// Payload-side update of the sending direction; the exact effect
    /// is [`spec_on_data`].
    pub fn on_data(
        stream: &mut TcpStreamState,
        seq_num: u32,
        payload_len: usize,
        flags: TcpFlags,
        ts_us: u64,
    )
        ensures
            final(stream)@ == spec_on_data(old(stream)@, seq_num, payload_len, flags, ts_us),
    {
        let ghost s0 = stream@;
        let mut is_retx = false;

        if payload_len > 0 && stream.seen_seq_numbers.contains(&seq_num) && !flags.syn
            && !flags.fin && !flags.rst {
            stream.retransmission_count = stream.retransmission_count.saturating_add(1);
            is_retx = true;
        }

        let ghost gs1 = (if is_retx {
            StreamModel {
                retransmission_count: crate::stream::sat_inc32(s0.retransmission_count),
                ..s0
            }
        } else {
            s0
        });
        proof {
            assert(stream@ =~= gs1);
        }

        if payload_len > 0 && !is_retx {
            let newly_inserted = stream.seen_seq_numbers.insert(seq_num);
            if newly_inserted {
                stream.seen_seq_queue.push_back(seq_num);
            }
        }

        let ghost gs2 = (if payload_len > 0 && !is_retx && !gs1.seen.contains(seq_num) {
            StreamModel { seen: gs1.seen.insert(seq_num), seen_q: gs1.seen_q.push(seq_num), ..gs1 }
        } else {
            gs1
        });
        proof {
            if payload_len > 0 && !is_retx && gs1.seen.contains(seq_num) {
                assert(gs1.seen.insert(seq_num) =~= gs1.seen);
            }
            assert(stream@ =~= gs2);
        }

        if payload_len > 0 {
            let low = ((payload_len as u64) % crate::seqnum::SEQ_SPACE) as u32;
            let seg_end = seq_num.wrapping_add(low);
            proof {
                let m = crate::seqnum::SEQ_SPACE as int;
                let a = seq_num as int;
                let b = (payload_len as int) % m;
                vstd::arithmetic::div_mod::lemma_mod_bound(payload_len as int, m);
                assert(low as int == b);
                if a + b < m {
                    vstd::arithmetic::div_mod::lemma_small_mod((a + b) as nat, m as nat);
                } else {
                    vstd::arithmetic::div_mod::lemma_mod_multiples_vanish(1, a + b - m, m);
                    vstd::arithmetic::div_mod::lemma_small_mod((a + b - m) as nat, m as nat);
                }
                assert(seg_end == crate::stream::spec_seg_end(seq_num, payload_len));
            }
            let watermark = stream.highest_seq_end;
            match watermark {
                Some(max_end) => {
                    if !is_retx && crate::seqnum::seq_lt(seq_num, max_end) {
                        stream.out_of_order_count = stream.out_of_order_count.saturating_add(1);
                    }
                    if crate::seqnum::seq_gt(seg_end, max_end) {
                        stream.highest_seq_end = Some(seg_end);
                    }
                },
                None => {
                    stream.highest_seq_end = Some(seg_end);
                },
            }

            let ghost gs3 = (match gs2.highest_seq_end {
                Some(max_end) => {
                    let with_ooo = if !is_retx && crate::seqnum::spec_seq_lt(seq_num, max_end) {
                        StreamModel {
                            out_of_order_count: crate::stream::sat_inc32(gs2.out_of_order_count),
                            ..gs2
                        }
                    } else {
                        gs2
                    };
                    if crate::seqnum::spec_seq_lt(max_end, seg_end) {
                        StreamModel { highest_seq_end: Some(seg_end), ..with_ooo }
                    } else {
                        with_ooo
                    }
                },
                None => StreamModel { highest_seq_end: Some(seg_end), ..gs2 },
            });
            proof {
                assert(stream@ =~= gs3);
            }

            stream.outstanding.push_back(
                crate::stream::OutstandingSegment { seq_end: seg_end, ts_us },
            );

            let ghost gs4 = (StreamModel {
                outstanding: gs3.outstanding.push(
                    crate::stream::OutstandingSegment { seq_end: seg_end, ts_us },
                ),
                ..gs3
            });
            proof {
                assert(stream@ =~= gs4);
            }

            crate::stream::maintain_seen_window(stream);

            proof {
                assert(stream@ == crate::stream::spec_maintain_seen_window(gs4));
                assert(spec_on_data(s0, seq_num, payload_len, flags, ts_us)
                    == crate::stream::spec_maintain_seen_window(gs4));
            }
        }
    }

    /// Cumulative-ACK matching against the opposite direction's
    /// outstanding queue; the exact effect is [`spec_on_ack`].
    pub fn on_ack(sender_stream: &mut TcpStreamState, ack_num: u32, ts_us: u64)
        ensures
            final(sender_stream)@ == spec_on_ack(old(sender_stream)@, ack_num, ts_us),
    {
        while sender_stream.outstanding.len() > 0 && crate::seqnum::seq_lte(
            sender_stream.outstanding[0].seq_end,
            ack_num,
        )
            invariant
                spec_on_ack(sender_stream@, ack_num, ts_us) == spec_on_ack(
                    old(sender_stream)@,
                    ack_num,
                    ts_us,
                ),
            decreases sender_stream.outstanding.len(),
        {
            let ghost prev = sender_stream@;
            let front = sender_stream.outstanding[0];
            let rtt = ts_us.saturating_sub(front.ts_us);
            sender_stream.rtt.add_sample(rtt);
            sender_stream.outstanding.pop_front();
            proof {
                assert(sender_stream@.outstanding =~= prev.outstanding.drop_first());
                assert(sender_stream@ =~= (StreamModel {
                    outstanding: prev.outstanding.drop_first(),
                    rtt: crate::rtt::spec_add_sample(
                        prev.rtt,
                        crate::stream::sat_sub64(ts_us, prev.outstanding[0].ts_us),
                    ),
                    ..prev
                }));
            }
        }
    }

    /// Index of the conversation for `flow`, probing the direct and the
    /// reversed key and creating a fresh conversation when neither
    /// exists.
    fn find_or_create(&mut self, flow: Flow) -> (i: usize)
        ensures
            match spec_lookup(old(self)@, flow) {
                Some(j) => final(self)@ == old(self)@ && i == j,
                None => {
                    &&& final(self)@ == old(self)@.push(
                        ConvModel { flow, c2s: spec_stream_empty(), s2c: spec_stream_empty() },
                    )
                    &&& i == old(self)@.len()
                },
            },
            i < final(self).conversations.len(),
            final(self)@ == final(self).conversations@.map_values(|c: TcpConversationState| c@),
    {
        proof {
            lemma_find_idx_spec(self@, flow);
            lemma_find_idx_spec(self@, flow.spec_reverse());
        }
        let n = self.conversations.len();
        let mut k: usize = 0;
        while k < n
            invariant
                k <= n,
                n == self.conversations.len(),
                forall|t: int| 0 <= t < k ==> self@[t].flow != flow,
                self@ == old(self)@,
                self.conversations@ == old(self).conversations@,
            decreases n - k,
        {
            proof {
                assert(self@[k as int] == self.conversations@[k as int]@);
                lemma_find_idx_spec(self@, flow);
            }
            if self.conversations[k].flow == flow {
                return k;
            }
            k = k + 1;
        }
        let rev = flow.reverse();
        let mut k2: usize = 0;
        while k2 < n
            invariant
                k2 <= n,
                n == self.conversations.len(),
                rev == flow.spec_reverse(),
                forall|t: int| 0 <= t < n ==> self@[t].flow != flow,
                forall|t: int| 0 <= t < k2 ==> self@[t].flow != rev,
                self@ == old(self)@,
                self.conversations@ == old(self).conversations@,
            decreases n - k2,
        {
            proof {
                assert(self@[k2 as int] == self.conversations@[k2 as int]@);
                lemma_find_idx_spec(self@, flow);
                lemma_find_idx_spec(self@, rev);
            }
            if self.conversations[k2].flow == rev {
                return k2;
            }
            k2 = k2 + 1;
        }
        proof {
            lemma_find_idx_spec(self@, flow);
            lemma_find_idx_spec(self@, rev);
        }
        let mut fresh = TcpConversationState::default();
        fresh.flow = flow;
        self.conversations.push(fresh);
        proof {
            assert(self@ =~= old(self)@.push(
                ConvModel { flow, c2s: spec_stream_empty(), s2c: spec_stream_empty() },
            ));
        }
        n
    }

    /// Feed one captured frame to the detector; the exact effect is
    /// [`spec_on_packet`].
    pub fn on_packet(&mut self, packet_data: &[u8], ts_micros: u64)
        ensures
            final(self)@ == spec_on_packet(old(self)@, packet_data@, ts_micros),
    {
        let parsed = parse_segment(packet_data);
        match parsed {
            None => {},
            Some(seg) => {
                let flow = Flow {
                    source_ip: seg.src_ip,
                    source_port: seg.src_port,
                    destination_ip: seg.dst_ip,
                    destination_port: seg.dst_port,
                };
                let i = self.find_or_create(flow);
                let ghost convs1 = self@;
                let mut conv = self.conversations.remove(i);
                let ghost conv0 = conv@;
                let flags = TcpFlags { syn: seg.syn, fin: seg.fin, rst: seg.rst, ack: seg.has_ack };
                let ack_valid = seg.has_ack && !seg.syn && !seg.fin && !seg.rst;
                if flow == conv.flow {
                    Self::update_stream(
                        &mut conv.c2s,
                        seg.seq,
                        seg.ack,
                        seg.window,
                        seg.payload_len,
                        flags,
                        ts_micros,
                    );
                    if ack_valid {
                        Self::on_ack(&mut conv.s2c, seg.ack, ts_micros);
                    }
                } else {
                    Self::update_stream(
                        &mut conv.s2c,
                        seg.seq,
                        seg.ack,
                        seg.window,
                        seg.payload_len,
                        flags,
                        ts_micros,
                    );
                    if ack_valid {
                        Self::on_ack(&mut conv.c2s, seg.ack, ts_micros);
                    }
                }
                proof {
                    assert(conv@ == (ConvModel { c2s: conv@.c2s, s2c: conv@.s2c, ..conv0 }));
                }
                self.conversations.insert(i, conv);
                proof {
                    assert(self@ =~= convs1.update(i as int, conv@));
                    assert(self@ =~= spec_on_packet(old(self)@, packet_data@, ts_micros));
                }
            },
        }
    }
}

/// Well-formedness of the whole detector: every stream direction is
/// well-formed, and no two conversations share an endpoint pair, in
/// either orientation.
pub open spec fn flows_unrelated(a: Flow, b: Flow) -> bool {
    a != b && a != b.spec_reverse()
}

pub open spec fn detector_wf(convs: Seq<ConvModel>) -> bool {
    &&& (forall|i: int| 0 <= i < convs.len() ==> crate::stream::stream_wf(
        #[trigger] convs[i].c2s,
    ) && crate::stream::stream_wf(convs[i].s2c))
    &&& (forall|i: int, j: int|
        0 <= i < j < convs.len() ==> #[trigger] flows_unrelated(convs[i].flow, convs[j].flow))
}

/// Every packet preserves detector well-formedness: the per-direction
/// invariants (the tracked set and queue agree and respect the hard
/// cap) hold in every conversation, and conversations keep distinct
/// endpoint pairs.
pub proof fn lemma_on_packet_wf(convs: Seq<ConvModel>, data: Seq<u8>, ts_us: u64)
    requires
        detector_wf(convs),
    ensures
        detector_wf(spec_on_packet(convs, data, ts_us)),
{
    broadcast use vstd::set::group_set_axioms;

    match spec_parse_segment(data) {
        None => {},
        Some(seg) => {
            let flow = Flow {
                source_ip: seg.src_ip,
                source_port: seg.src_port,
                destination_ip: seg.dst_ip,
                destination_port: seg.dst_port,
            };
            let found = spec_lookup(convs, flow);
            let convs1 = if found is Some {
                convs
            } else {
                convs.push(ConvModel { flow, c2s: spec_stream_empty(), s2c: spec_stream_empty() })
            };
            let idx = if found is Some {
                found->0
            } else {
                convs.len() as int
            };
            lemma_find_idx_spec(convs, flow);
            lemma_find_idx_spec(convs, flow.spec_reverse());
            assert(Seq::<u32>::empty().to_set() =~= Set::<u32>::empty());
            assert(crate::stream::stream_wf(spec_stream_empty()));
            assert forall|i: int|
                0 <= i < convs1.len() implies crate::stream::stream_wf(
                #[trigger] convs1[i].c2s,
            ) && crate::stream::stream_wf(convs1[i].s2c) by {
                if i < convs.len() {
                    assert(convs1[i] == convs[i]);
                }
            }
            assert forall|i: int, j: int|
                0 <= i < j < convs1.len() implies #[trigger] flows_unrelated(
                convs1[i].flow,
                convs1[j].flow,
            ) by {
                assert(convs1[i] == convs[i]);
                if j < convs.len() {
                    assert(convs1[j] == convs[j]);
                    assert(flows_unrelated(convs[i].flow, convs[j].flow));
                } else {
                    assert(convs1[j].flow == flow);
                    assert(convs[i].flow != flow);
                    assert(convs[i].flow != flow.spec_reverse());
                }
            }
            assert(0 <= idx < convs1.len());
            let conv = convs1[idx];
            let flags = TcpFlags { syn: seg.syn, fin: seg.fin, rst: seg.rst, ack: seg.has_ack };
            let ack_valid = seg.has_ack && !seg.syn && !seg.fin && !seg.rst;
            if flow == conv.flow {
                crate::stream::lemma_update_stream_wf(
                    conv.c2s,
                    seg.seq,
                    seg.ack,
                    seg.window,
                    seg.payload_len,
                    flags,
                    ts_us,
                );
                if ack_valid {
                    crate::stream::lemma_on_ack_wf(conv.s2c, seg.ack, ts_us);
                }
            } else {
                crate::stream::lemma_update_stream_wf(
                    conv.s2c,
                    seg.seq,
                    seg.ack,
                    seg.window,
                    seg.payload_len,
                    flags,
                    ts_us,
                );
                if ack_valid {
                    crate::stream::lemma_on_ack_wf(conv.c2s, seg.ack, ts_us);
                }
            }
            let r = spec_on_packet(convs, data, ts_us);
            assert(forall|i: int| 0 <= i < r.len() && i != idx ==> r[i] == convs1[i]);
            assert(r[idx].flow == conv.flow);
            assert(crate::stream::stream_wf(r[idx].c2s));
            assert(crate::stream::stream_wf(r[idx].s2c));
            assert forall|i: int|
                0 <= i < r.len() implies crate::stream::stream_wf(#[trigger] r[i].c2s)
                && crate::stream::stream_wf(r[i].s2c) by {
                if i != idx {
                    assert(r[i] == convs1[i]);
                }
            }
            assert forall|i: int, j: int|
                0 <= i < j < r.len() implies #[trigger] flows_unrelated(r[i].flow, r[j].flow) by {
                assert(r[i].flow == convs1[i].flow);
                assert(r[j].flow == convs1[j].flow);
                assert(flows_unrelated(convs1[i].flow, convs1[j].flow));
            }
        },
    }
}


/// Every counter of every conversation that existed before a packet is
/// monotone across that packet, and conversations are never removed or
/// reordered.
pub proof fn lemma_on_packet_counters_monotone(convs: Seq<ConvModel>, data: Seq<u8>, ts_us: u64)
    ensures
        spec_on_packet(convs, data, ts_us).len() >= convs.len(),
        forall|i: int| 0 <= i < convs.len() ==> {
            &&& spec_on_packet(convs, data, ts_us)[i].flow == (#[trigger] convs[i]).flow
            &&& crate::stream::counters_leq(convs[i].c2s, spec_on_packet(convs, data, ts_us)[i].c2s)
            &&& crate::stream::counters_leq(convs[i].s2c, spec_on_packet(convs, data, ts_us)[i].s2c)
        },
{
    match spec_parse_segment(data) {
        None => {},
        Some(seg) => {
            let flow = Flow {
                source_ip: seg.src_ip,
                source_port: seg.src_port,
                destination_ip: seg.dst_ip,
                destination_port: seg.dst_port,
            };
            let found = spec_lookup(convs, flow);
            let convs1 = if found is Some {
                convs
            } else {
                convs.push(ConvModel { flow, c2s: spec_stream_empty(), s2c: spec_stream_empty() })
            };
            let idx = if found is Some {
                found->0
            } else {
                convs.len() as int
            };
            lemma_find_idx_spec(convs, flow);
            lemma_find_idx_spec(convs, flow.spec_reverse());
            assert(0 <= idx < convs1.len());
            let conv = convs1[idx];
            let flags = TcpFlags { syn: seg.syn, fin: seg.fin, rst: seg.rst, ack: seg.has_ack };
            let ack_valid = seg.has_ack && !seg.syn && !seg.fin && !seg.rst;
            crate::stream::lemma_update_stream_counters_monotone(
                if flow == conv.flow {
                    conv.c2s
                } else {
                    conv.s2c
                },
                seg.seq,
                seg.ack,
                seg.window,
                seg.payload_len,
                flags,
                ts_us,
            );
            if ack_valid {
                crate::stream::lemma_on_ack_samples(
                    if flow == conv.flow {
                        conv.s2c
                    } else {
                        conv.c2s
                    },
                    seg.ack,
                    ts_us,
                );
            }
            let r = spec_on_packet(convs, data, ts_us);
            assert(forall|i: int| 0 <= i < r.len() && i != idx ==> r[i] == convs1[i]);
        },
    }
}

/// In a well-formed detector, at every observable moment, each
/// direction's tracked set and eviction queue have the same size, and
/// that size never exceeds the hard cap.
pub proof fn lemma_detector_seen_sizes(convs: Seq<ConvModel>)
    requires
        detector_wf(convs),
    ensures
        forall|i: int| 0 <= i < convs.len() ==> {
            let c = #[trigger] convs[i];
            &&& c.c2s.seen.len() == c.c2s.seen_q.len()
            &&& c.s2c.seen.len() == c.s2c.seen_q.len()
            &&& c.c2s.seen.len() <= crate::stream::SEEN_MAX_TRACKED
            &&& c.s2c.seen.len() <= crate::stream::SEEN_MAX_TRACKED
        },
{
    assert forall|i: int| 0 <= i < convs.len() implies {
        let c = #[trigger] convs[i];
        &&& c.c2s.seen.len() == c.c2s.seen_q.len()
        &&& c.s2c.seen.len() == c.s2c.seen_q.len()
        &&& c.c2s.seen.len() <= crate::stream::SEEN_MAX_TRACKED
        &&& c.s2c.seen.len() <= crate::stream::SEEN_MAX_TRACKED
    } by {
        crate::stream::lemma_seen_matches_queue(convs[i].c2s);
        crate::stream::lemma_seen_matches_queue(convs[i].s2c);
    }
}

/// The detector state after a whole capture: the packets folded into an
/// empty detector, in capture order.
pub open spec fn spec_run(packets: Seq<(Seq<u8>, u64)>) -> Seq<ConvModel>
    decreases packets.len(),
{
    if packets.len() == 0 {
        Seq::empty()
    } else {
        spec_on_packet(spec_run(packets.drop_last()), packets.last().0, packets.last().1)
    }
}

/// A fresh detector is well-formed, and every packet keeps it so: the
/// per-direction invariants hold after any capture.
pub proof fn lemma_run_wf(packets: Seq<(Seq<u8>, u64)>)
    ensures
        detector_wf(spec_run(packets)),
    decreases packets.len(),
{
    if packets.len() == 0 {
        assert(detector_wf(Seq::<ConvModel>::empty()));
    } else {
        lemma_run_wf(packets.drop_last());
        lemma_on_packet_wf(spec_run(packets.drop_last()), packets.last().0, packets.last().1);
    }
}

impl TcpHealthDetector {
    /// Feed a whole capture to a fresh detector.  The resulting state is
    /// `spec_run` of the packet sequence alone, so two runs over the
    /// same capture end in identical states.
    pub fn run_capture(packets: &Vec<(Vec<u8>, u64)>) -> (r: TcpHealthDetector)
        ensures
            r@ == spec_run(packets@.map_values(|p: (Vec<u8>, u64)| (p.0@, p.1))),
    {
        let ghost all = packets@.map_values(|p: (Vec<u8>, u64)| (p.0@, p.1));
        let mut detector = TcpHealthDetector::new();
        let n = packets.len();
        let mut i: usize = 0;
        assert(all.take(0) =~= Seq::<(Seq<u8>, u64)>::empty());
        while i < n
            invariant
                i <= n,
                n == packets@.len(),
                all == packets@.map_values(|p: (Vec<u8>, u64)| (p.0@, p.1)),
                detector@ == spec_run(all.take(i as int)),
            decreases n - i,
        {
            let ghost before = all.take(i as int);
            detector.on_packet(packets[i].0.as_slice(), packets[i].1);
            proof {
                assert(all.take(i as int + 1).drop_last() =~= before);
                assert(all.take(i as int + 1).last() == all[i as int]);
                assert(all[i as int] == (packets@[i as int].0@, packets@[i as int].1));
            }
            i += 1;
        }
        assert(all.take(n as int) =~= all);
        detector
    }
}

} // verus!
