//! Per-direction TCP stream state and its transition model.
//!
//! Each direction of a conversation carries monotone event counters,
//! the set of payload-bearing sequence numbers seen recently (bounded by
//! a sliding window and a hard cap), the highest `seq + len` watermark,
//! duplicate-ACK tracking, the FIFO of segments not yet cumulatively
//! acknowledged, and an RTT sampler.
//!
//! Every executable update is specified exactly by a spec-level
//! transition function over [`StreamModel`], so two runs over the same
//! segments always end in the same state.

use vstd::prelude::*;

use std::collections::HashSet;
use std::collections::VecDeque;

use crate::rtt::{spec_add_sample, RttModel, RttStats};
use crate::seqnum::{spec_seq_distance_forward, spec_seq_lt, SEQ_SPACE};

verus! {

broadcast use vstd::std_specs::hash::group_hash_axioms;

/// Entries further than this modular distance behind the watermark are
/// evicted from the seen-sequence window (16 MiB).
pub const SEEN_WINDOW_BYTES: u64 = 16 * 1024 * 1024;

/// Hard cap on the number of tracked sequence numbers per direction.
pub const SEEN_MAX_TRACKED: usize = 200_000;

/// TCP header flags the analyzer reads.
#[derive(Debug, Clone, Copy)]
pub struct TcpFlags {
    pub syn: bool,
    pub fin: bool,
    pub rst: bool,
    pub ack: bool,
}

/// A payload-bearing segment waiting for a cumulative ACK.
#[derive(Debug, Clone, Copy)]
pub struct OutstandingSegment {
    /// Sequence number plus payload length, modulo 2^32.
    pub seq_end: u32,
    /// Send timestamp in microseconds.
    pub ts_us: u64,
}

/// Mathematical state of one stream direction.
#[verifier::ext_equal]
pub ghost struct StreamModel {
    pub packet_count: u32,
    pub retransmission_count: u32,
    pub out_of_order_count: u32,
    pub zero_window_events: u32,
    pub seen: Set<u32>,
    pub seen_q: Seq<u32>,
    pub highest_seq_end: Option<u32>,
    pub last_ack_seen: Option<u32>,
    pub dup_ack_streak: u32,
    pub duplicate_ack_events: u32,
    pub last_window_seen: Option<u16>,
    pub outstanding: Seq<OutstandingSegment>,
    pub rtt: RttModel,
}

/// Health-signal state of one direction of a TCP conversation.
#[derive(Debug)]
pub struct TcpStreamState {
    pub packet_count: u32,
    pub retransmission_count: u32,
    pub out_of_order_count: u32,
    pub zero_window_events: u32,
    /// Payload-bearing sequence numbers seen recently; retransmission
    /// means repeating one of these.
    pub seen_seq_numbers: HashSet<u32>,
    /// The same keys in arrival order, used for eviction.
    pub seen_seq_queue: VecDeque<u32>,
    /// Largest `seq + payload_len` observed, in modular order.
    pub highest_seq_end: Option<u32>,
    pub last_ack_seen: Option<u32>,
    pub dup_ack_streak: u32,
    /// Incremented each time a streak of identical pure ACKs reaches 3.
    pub duplicate_ack_events: u32,
    pub last_window_seen: Option<u16>,
    /// Segments sent but not yet cumulatively acknowledged.
    pub outstanding: VecDeque<OutstandingSegment>,
    pub rtt: RttStats,
}

impl View for TcpStreamState {
    type V = StreamModel;

    open spec fn view(&self) -> StreamModel {
        StreamModel {
            packet_count: self.packet_count,
            retransmission_count: self.retransmission_count,
            out_of_order_count: self.out_of_order_count,
            zero_window_events: self.zero_window_events,
            seen: self.seen_seq_numbers@,
            seen_q: self.seen_seq_queue@,
            highest_seq_end: self.highest_seq_end,
            last_ack_seen: self.last_ack_seen,
            dup_ack_streak: self.dup_ack_streak,
            duplicate_ack_events: self.duplicate_ack_events,
            last_window_seen: self.last_window_seen,
            outstanding: self.outstanding@,
            rtt: self.rtt@,
        }
    }
}

/// A 32-bit counter bumped without wrapping.
pub open spec fn sat_inc32(x: u32) -> u32 {
    if x == u32::MAX { x } else { (x + 1) as u32 }
}

/// Saturating difference of two timestamps.
pub open spec fn sat_sub64(a: u64, b: u64) -> u64 {
    if a >= b { (a - b) as u64 } else { 0 }
}

/// Addition modulo 2^32, as sequence numbers wrap.
pub open spec fn spec_wrap_add32(a: u32, b: u32) -> u32 {
    (((a + b) % (SEQ_SPACE as int))) as u32
}

/// The `seq + payload_len` watermark of a segment, modulo 2^32.
pub open spec fn spec_seg_end(seq_num: u32, payload_len: usize) -> u32 {
    spec_wrap_add32(seq_num, ((payload_len as int) % (SEQ_SPACE as int)) as u32)
}

/// A stream that has not seen any packet.
pub open spec fn spec_stream_empty() -> StreamModel {
    StreamModel {
        packet_count: 0,
        retransmission_count: 0,
        out_of_order_count: 0,
        zero_window_events: 0,
        seen: Set::empty(),
        seen_q: Seq::empty(),
        highest_seq_end: None,
        last_ack_seen: None,
        dup_ack_streak: 0,
        duplicate_ack_events: 0,
        last_window_seen: None,
        outstanding: Seq::empty(),
        rtt: crate::rtt::spec_rtt_empty(),
    }
}

/// Evict seen-sequence entries from the front of the queue while the
/// front lies further than `SEEN_WINDOW_BYTES` behind the watermark.
pub open spec fn spec_evict_window(s: StreamModel, max_end: u32) -> StreamModel
    decreases s.seen_q.len(),
{
    if s.seen_q.len() == 0 {
        s
    } else if spec_seq_distance_forward(s.seen_q[0], max_end) > SEEN_WINDOW_BYTES {
        spec_evict_window(
            StreamModel { seen: s.seen.remove(s.seen_q[0]), seen_q: s.seen_q.drop_first(), ..s },
            max_end,
        )
    } else {
        s
    }
}

/// Drop up to `n` of the oldest tracked sequence numbers.
pub open spec fn spec_drop_oldest(s: StreamModel, n: nat) -> StreamModel
    decreases n,
{
    if n == 0 || s.seen_q.len() == 0 {
        s
    } else {
        spec_drop_oldest(
            StreamModel { seen: s.seen.remove(s.seen_q[0]), seen_q: s.seen_q.drop_first(), ..s },
            (n - 1) as nat,
        )
    }
}

/// Sliding-window maintenance: evict entries behind the window, then,
/// if the tracked set still exceeds the hard cap, drop a quarter of the
/// oldest entries.
pub open spec fn spec_maintain_seen_window(s: StreamModel) -> StreamModel {
    let s1 = match s.highest_seq_end {
        Some(max_end) => spec_evict_window(s, max_end),
        None => s,
    };
    if s1.seen.len() > SEEN_MAX_TRACKED {
        spec_drop_oldest(s1, s1.seen.len() / 4)
    } else {
        s1
    }
}

/// Payload-side update of one direction for one segment: count a
/// retransmission when a payload-bearing segment repeats a tracked
/// sequence number (connection-control segments excluded); otherwise
/// start tracking the number; count out-of-order when a fresh segment
/// starts below the watermark; advance the watermark modularly; enqueue
/// the segment for RTT matching; then maintain the sliding window.
pub open spec fn spec_on_data(
    s: StreamModel,
    seq_num: u32,
    payload_len: usize,
    flags: TcpFlags,
    ts_us: u64,
) -> StreamModel {
    let is_retx = payload_len > 0 && s.seen.contains(seq_num) && !flags.syn && !flags.fin
        && !flags.rst;
    let s1 = if is_retx {
        StreamModel { retransmission_count: sat_inc32(s.retransmission_count), ..s }
    } else {
        s
    };
    let s2 = if payload_len > 0 && !is_retx && !s1.seen.contains(seq_num) {
        StreamModel { seen: s1.seen.insert(seq_num), seen_q: s1.seen_q.push(seq_num), ..s1 }
    } else {
        s1
    };
    if payload_len > 0 {
        let seg_end = spec_seg_end(seq_num, payload_len);
        let s3 = match s2.highest_seq_end {
            Some(max_end) => {
                let with_ooo = if !is_retx && spec_seq_lt(seq_num, max_end) {
                    StreamModel { out_of_order_count: sat_inc32(s2.out_of_order_count), ..s2 }
                } else {
                    s2
                };
                if spec_seq_lt(max_end, seg_end) {
                    StreamModel { highest_seq_end: Some(seg_end), ..with_ooo }
                } else {
                    with_ooo
                }
            },
            None => StreamModel { highest_seq_end: Some(seg_end), ..s2 },
        };
        let s4 = StreamModel {
            outstanding: s3.outstanding.push(OutstandingSegment { seq_end: seg_end, ts_us }),
            ..s3
        };
        spec_maintain_seen_window(s4)
    } else {
        s2
    }
}

/// Full per-segment update of the sending direction: packet count,
/// zero-window event, duplicate-ACK tracking (pure ACKs only, with the
/// event fired exactly when the streak reaches 3), the latest window
/// value, and the payload-side update.
pub open spec fn spec_update_stream(
    s: StreamModel,
    seq_num: u32,
    ack_num: u32,
    window_size: u16,
    payload_len: usize,
    flags: TcpFlags,
    ts_us: u64,
) -> StreamModel {
    let s1 = StreamModel { packet_count: sat_inc32(s.packet_count), ..s };
    let s2 = if flags.ack && !flags.syn && !flags.rst && window_size == 0 {
        StreamModel { zero_window_events: sat_inc32(s1.zero_window_events), ..s1 }
    } else {
        s1
    };
    let same_ack = s.last_ack_seen == Some(ack_num);
    let same_win = s.last_window_seen == Some(window_size);
    let s3 = if payload_len == 0 && flags.ack && !flags.syn && !flags.fin && !flags.rst {
        if same_ack && same_win {
            let streak = sat_inc32(s2.dup_ack_streak);
            StreamModel {
                dup_ack_streak: streak,
                duplicate_ack_events: if streak == 3 {
                    sat_inc32(s2.duplicate_ack_events)
                } else {
                    s2.duplicate_ack_events
                },
                ..s2
            }
        } else {
            StreamModel {
                last_ack_seen: Some(ack_num),
                last_window_seen: Some(window_size),
                dup_ack_streak: 1,
                ..s2
            }
        }
    } else {
        StreamModel { dup_ack_streak: 0, ..s2 }
    };
    let s4 = StreamModel { last_window_seen: Some(window_size), ..s3 };
    spec_on_data(s4, seq_num, payload_len, flags, ts_us)
}

/// Cumulative-ACK matching on the opposite direction: pop outstanding
/// segments whose end is modularly at most the ACK number and record
/// one RTT sample (ACK time minus send time, clamped at 0) for each.
pub open spec fn spec_on_ack(s: StreamModel, ack_num: u32, ts_us: u64) -> StreamModel
    decreases s.outstanding.len(),
{
    if s.outstanding.len() == 0 {
        s
    } else if crate::seqnum::spec_seq_lte(s.outstanding[0].seq_end, ack_num) {
        spec_on_ack(
            StreamModel {
                outstanding: s.outstanding.drop_first(),
                rtt: spec_add_sample(s.rtt, sat_sub64(ts_us, s.outstanding[0].ts_us)),
                ..s
            },
            ack_num,
            ts_us,
        )
    } else {
        s
    }
}

/// Well-formedness of a stream direction: the tracked set and the
/// eviction queue hold exactly the same keys, with no duplicates, and
/// the tracked set respects the hard cap.
pub open spec fn stream_wf(s: StreamModel) -> bool {
    &&& s.seen_q.no_duplicates()
    &&& s.seen =~= s.seen_q.to_set()
    &&& s.seen_q.len() <= SEEN_MAX_TRACKED
}

/// Every counter of `a` is at most the matching counter of `b`.
pub open spec fn counters_leq(a: StreamModel, b: StreamModel) -> bool {
    &&& a.packet_count <= b.packet_count
    &&& a.retransmission_count <= b.retransmission_count
    &&& a.out_of_order_count <= b.out_of_order_count
    &&& a.zero_window_events <= b.zero_window_events
    &&& a.duplicate_ack_events <= b.duplicate_ack_events
    &&& a.rtt.count <= b.rtt.count
}

/// Evict seen-sequence entries behind the sliding window, then enforce
/// the hard cap by dropping a quarter of the oldest entries.
pub fn maintain_seen_window(stream: &mut TcpStreamState)
    ensures
        final(stream)@ == spec_maintain_seen_window(old(stream)@),
{
    if let Some(max_end) = stream.highest_seq_end {
        while stream.seen_seq_queue.len() > 0
            && crate::seqnum::seq_distance_forward(stream.seen_seq_queue[0], max_end)
                > SEEN_WINDOW_BYTES
            invariant
                stream.highest_seq_end == Some(max_end),
                spec_evict_window(stream@, max_end) == spec_evict_window(old(stream)@, max_end),
                stream@ == (StreamModel {
                    seen: stream@.seen,
                    seen_q: stream@.seen_q,
                    ..old(stream)@
                }),
            decreases stream.seen_seq_queue.len(),
        {
            let ghost prev = stream@;
            let front = stream.seen_seq_queue.pop_front().unwrap();
            stream.seen_seq_numbers.remove(&front);
            proof {
                assert(stream@.seen_q =~= prev.seen_q.drop_first());
                assert(stream@ =~= (StreamModel {
                    seen: prev.seen.remove(front),
                    seen_q: prev.seen_q.drop_first(),
                    ..prev
                }));
            }
        }
        assert(spec_evict_window(stream@, max_end) == stream@);
    }
    let ghost mid = stream@;
    assert(mid == match old(stream)@.highest_seq_end {
        Some(me) => spec_evict_window(old(stream)@, me),
        None => old(stream)@,
    });
    if stream.seen_seq_numbers.len() > SEEN_MAX_TRACKED {
        let to_drop = stream.seen_seq_numbers.len() / 4;
        let mut k: usize = 0;
        while k < to_drop
            invariant
                k <= to_drop,
                spec_drop_oldest(stream@, (to_drop - k) as nat)
                    == spec_drop_oldest(mid, to_drop as nat),
                stream@ == (StreamModel {
                    seen: stream@.seen,
                    seen_q: stream@.seen_q,
                    ..mid
                }),
            decreases to_drop - k,
        {
            let ghost prev = stream@;
            let popped = stream.seen_seq_queue.pop_front();
            if let Some(x) = popped {
                stream.seen_seq_numbers.remove(&x);
                proof {
                    assert(stream@.seen_q =~= prev.seen_q.drop_first());
                    assert(stream@ =~= (StreamModel {
                        seen: prev.seen.remove(prev.seen_q[0]),
                        seen_q: prev.seen_q.drop_first(),
                        ..prev
                    }));
                }
            }
            k += 1;
        }
        assert(spec_drop_oldest(stream@, 0) == stream@);
    }
}

/// In a well-formed stream the tracked set and the eviction queue have
/// the same size: the set holds exactly the queue's keys, once each.
pub proof fn lemma_seen_matches_queue(s: StreamModel)
    requires
        stream_wf(s),
    ensures
        s.seen.len() == s.seen_q.len(),
{
    s.seen_q.unique_seq_to_set();
}

/// Removing the front of a duplicate-free queue from the matching set
/// leaves the set of the remaining queue.
proof fn lemma_pop_front_matches(seen: Set<u32>, q: Seq<u32>)
    requires
        q.len() > 0,
        q.no_duplicates(),
        seen =~= q.to_set(),
    ensures
        q.drop_first().no_duplicates(),
        seen.remove(q[0]) =~= q.drop_first().to_set(),
{
    broadcast use vstd::set::group_set_axioms;

    let rest = q.drop_first();
    assert(forall|i: int| 0 <= i < rest.len() ==> rest[i] == q[i + 1]);
    assert(rest.no_duplicates());
    assert forall|x: u32| seen.remove(q[0]).contains(x) implies rest.to_set().contains(x) by {
        assert(q.contains(x));
        let i = choose|i: int| 0 <= i < q.len() && q[i] == x;
        assert(i != 0);
        assert(rest[i - 1] == x);
        assert(rest.contains(x));
    }
    assert forall|x: u32| rest.to_set().contains(x) implies seen.remove(q[0]).contains(x) by {
        let j = choose|j: int| 0 <= j < rest.len() && rest[j] == x;
        assert(q[j + 1] == x);
        assert(q.contains(x));
        assert(x != q[0]);
    }
}

/// Window eviction only shrinks the queue from the front, keeps every
/// other field, preserves the set/queue correspondence, and leaves the
/// front (if any) within the sliding window of the watermark.
proof fn lemma_evict_window_props(s: StreamModel, max_end: u32)
    ensures
        spec_evict_window(s, max_end) == (StreamModel {
            seen: spec_evict_window(s, max_end).seen,
            seen_q: spec_evict_window(s, max_end).seen_q,
            ..s
        }),
        spec_evict_window(s, max_end).seen_q.len() <= s.seen_q.len(),
        s.seen_q.no_duplicates() && s.seen =~= s.seen_q.to_set() ==> {
            let r = spec_evict_window(s, max_end);
            r.seen_q.no_duplicates() && r.seen =~= r.seen_q.to_set()
        },
        spec_evict_window(s, max_end).seen_q.len() > 0 ==> spec_seq_distance_forward(
            spec_evict_window(s, max_end).seen_q[0],
            max_end,
        ) <= SEEN_WINDOW_BYTES,
    decreases s.seen_q.len(),
{
    if s.seen_q.len() == 0 {
    } else if spec_seq_distance_forward(s.seen_q[0], max_end) > SEEN_WINDOW_BYTES {
        let s2 = StreamModel {
            seen: s.seen.remove(s.seen_q[0]),
            seen_q: s.seen_q.drop_first(),
            ..s
        };
        lemma_evict_window_props(s2, max_end);
        if s.seen_q.no_duplicates() && s.seen =~= s.seen_q.to_set() {
            lemma_pop_front_matches(s.seen, s.seen_q);
        }
    }
}

/// Dropping the `n` oldest entries shrinks the queue by `n` (or empties
/// it), keeps every other field, and preserves the set/queue
/// correspondence.
proof fn lemma_drop_oldest_props(s: StreamModel, n: nat)
    ensures
        spec_drop_oldest(s, n) == (StreamModel {
            seen: spec_drop_oldest(s, n).seen,
            seen_q: spec_drop_oldest(s, n).seen_q,
            ..s
        }),
        spec_drop_oldest(s, n).seen_q.len() == if n <= s.seen_q.len() {
            s.seen_q.len() - n
        } else {
            0int
        },
        s.seen_q.no_duplicates() && s.seen =~= s.seen_q.to_set() ==> {
            let r = spec_drop_oldest(s, n);
            r.seen_q.no_duplicates() && r.seen =~= r.seen_q.to_set()
        },
    decreases n,
{
    if n == 0 || s.seen_q.len() == 0 {
    } else {
        let s2 = StreamModel {
            seen: s.seen.remove(s.seen_q[0]),
            seen_q: s.seen_q.drop_first(),
            ..s
        };
        lemma_drop_oldest_props(s2, (n - 1) as nat);
        if s.seen_q.no_duplicates() && s.seen =~= s.seen_q.to_set() {
            lemma_pop_front_matches(s.seen, s.seen_q);
        }
    }
}

/// Window maintenance restores well-formedness as long as at most one
/// entry was added beyond the cap, and keeps every field other than the
/// tracked set and queue.
proof fn lemma_maintain_wf(s: StreamModel)
    requires
        s.seen_q.no_duplicates(),
        s.seen =~= s.seen_q.to_set(),
        s.seen_q.len() <= SEEN_MAX_TRACKED + 1,
    ensures
        stream_wf(spec_maintain_seen_window(s)),
        spec_maintain_seen_window(s) == (StreamModel {
            seen: spec_maintain_seen_window(s).seen,
            seen_q: spec_maintain_seen_window(s).seen_q,
            ..s
        }),
{
    let s1 = match s.highest_seq_end {
        Some(max_end) => spec_evict_window(s, max_end),
        None => s,
    };
    if s.highest_seq_end is Some {
        lemma_evict_window_props(s, s.highest_seq_end->0);
    }
    s1.seen_q.unique_seq_to_set();
    if s1.seen.len() > SEEN_MAX_TRACKED {
        let n = s1.seen.len() / 4;
        lemma_drop_oldest_props(s1, n);
        let r = spec_drop_oldest(s1, n);
        r.seen_q.unique_seq_to_set();
    }
}

/// The fields that window maintenance never touches.
proof fn lemma_maintain_keeps_rest(s: StreamModel)
    ensures
        spec_maintain_seen_window(s) == (StreamModel {
            seen: spec_maintain_seen_window(s).seen,
            seen_q: spec_maintain_seen_window(s).seen_q,
            ..s
        }),
{
    if s.highest_seq_end is Some {
        lemma_evict_window_props(s, s.highest_seq_end->0);
    }
    let s1 = match s.highest_seq_end {
        Some(max_end) => spec_evict_window(s, max_end),
        None => s,
    };
    if s1.seen.len() > SEEN_MAX_TRACKED {
        lemma_drop_oldest_props(s1, s1.seen.len() / 4);
    }
}

/// The payload-side update preserves well-formedness: at most one key
/// is added before window maintenance runs.
pub proof fn lemma_on_data_wf(
    s: StreamModel,
    seq_num: u32,
    payload_len: usize,
    flags: TcpFlags,
    ts_us: u64,
)
    requires
        stream_wf(s),
    ensures
        stream_wf(spec_on_data(s, seq_num, payload_len, flags, ts_us)),
{
    broadcast use vstd::set::group_set_axioms;

    let is_retx = payload_len > 0 && s.seen.contains(seq_num) && !flags.syn && !flags.fin
        && !flags.rst;
    let s1 = if is_retx {
        StreamModel { retransmission_count: sat_inc32(s.retransmission_count), ..s }
    } else {
        s
    };
    if payload_len > 0 && !is_retx && !s1.seen.contains(seq_num) {
        let q2 = s1.seen_q.push(seq_num);
        assert(forall|i: int| 0 <= i < s1.seen_q.len() ==> q2[i] == s1.seen_q[i]);
        assert(!s1.seen_q.contains(seq_num));
        assert forall|i: int, j: int|
            0 <= i < q2.len() && 0 <= j < q2.len() && i != j implies q2[i] != q2[j] by {
            if i < s1.seen_q.len() && j < s1.seen_q.len() {
                assert(s1.seen_q[i] != s1.seen_q[j]);
            } else if j == s1.seen_q.len() {
                assert(s1.seen_q.contains(s1.seen_q[i]));
            } else {
                assert(s1.seen_q.contains(s1.seen_q[j]));
            }
        }
        assert(q2.no_duplicates());
        assert forall|x: u32| q2.contains(x) implies (s1.seen_q.contains(x) || x == seq_num) by {
            let i = choose|i: int| 0 <= i < q2.len() && q2[i] == x;
            if i < s1.seen_q.len() {
                assert(s1.seen_q[i] == x);
            }
        }
        assert forall|x: u32| s1.seen_q.contains(x) || x == seq_num implies q2.contains(x) by {
            if s1.seen_q.contains(x) {
                let i = choose|i: int| 0 <= i < s1.seen_q.len() && s1.seen_q[i] == x;
                assert(q2[i] == x);
            } else {
                assert(q2[s1.seen_q.len() as int] == x);
            }
        }
        assert(s1.seen.insert(seq_num) =~= q2.to_set());
    }
    let s2 = if payload_len > 0 && !is_retx && !s1.seen.contains(seq_num) {
        StreamModel { seen: s1.seen.insert(seq_num), seen_q: s1.seen_q.push(seq_num), ..s1 }
    } else {
        s1
    };
    if payload_len > 0 {
        let seg_end = spec_seg_end(seq_num, payload_len);
        let s3 = match s2.highest_seq_end {
            Some(max_end) => {
                let with_ooo = if !is_retx && spec_seq_lt(seq_num, max_end) {
                    StreamModel { out_of_order_count: sat_inc32(s2.out_of_order_count), ..s2 }
                } else {
                    s2
                };
                if spec_seq_lt(max_end, seg_end) {
                    StreamModel { highest_seq_end: Some(seg_end), ..with_ooo }
                } else {
                    with_ooo
                }
            },
            None => StreamModel { highest_seq_end: Some(seg_end), ..s2 },
        };
        let s4 = StreamModel {
            outstanding: s3.outstanding.push(OutstandingSegment { seq_end: seg_end, ts_us }),
            ..s3
        };
        lemma_maintain_wf(s4);
    }
}

/// The full per-segment update preserves well-formedness: the tracked
/// set and queue stay in lockstep and under the hard cap.
pub proof fn lemma_update_stream_wf(
    s: StreamModel,
    seq_num: u32,
    ack_num: u32,
    window_size: u16,
    payload_len: usize,
    flags: TcpFlags,
    ts_us: u64,
)
    requires
        stream_wf(s),
    ensures
        stream_wf(spec_update_stream(s, seq_num, ack_num, window_size, payload_len, flags, ts_us)),
{
    let s1 = StreamModel { packet_count: sat_inc32(s.packet_count), ..s };
    let s2 = if flags.ack && !flags.syn && !flags.rst && window_size == 0 {
        StreamModel { zero_window_events: sat_inc32(s1.zero_window_events), ..s1 }
    } else {
        s1
    };
    let same_ack = s.last_ack_seen == Some(ack_num);
    let same_win = s.last_window_seen == Some(window_size);
    let s3 = if payload_len == 0 && flags.ack && !flags.syn && !flags.fin && !flags.rst {
        if same_ack && same_win {
            let streak = sat_inc32(s2.dup_ack_streak);
            StreamModel {
                dup_ack_streak: streak,
                duplicate_ack_events: if streak == 3 {
                    sat_inc32(s2.duplicate_ack_events)
                } else {
                    s2.duplicate_ack_events
                },
                ..s2
            }
        } else {
            StreamModel {
                last_ack_seen: Some(ack_num),
                last_window_seen: Some(window_size),
                dup_ack_streak: 1,
                ..s2
            }
        }
    } else {
        StreamModel { dup_ack_streak: 0, ..s2 }
    };
    let s4 = StreamModel { last_window_seen: Some(window_size), ..s3 };
    lemma_on_data_wf(s4, seq_num, payload_len, flags, ts_us);
}

/// ACK matching never touches the tracked set or queue, so it
/// preserves well-formedness.
pub proof fn lemma_on_ack_wf(s: StreamModel, ack_num: u32, ts_us: u64)
    requires
        stream_wf(s),
    ensures
        stream_wf(spec_on_ack(s, ack_num, ts_us)),
{
    lemma_on_ack_samples(s, ack_num, ts_us);
}

/// When the hard cap did not have to intervene, window maintenance
/// leaves the oldest tracked entry (if any remains) within the sliding
/// window of the watermark.
pub proof fn lemma_maintain_front_within_window(s: StreamModel, max_end: u32)
    requires
        s.highest_seq_end == Some(max_end),
        spec_evict_window(s, max_end).seen.len() <= SEEN_MAX_TRACKED,
    ensures
        ({
            let r = spec_maintain_seen_window(s);
            r.seen_q.len() > 0 ==> spec_seq_distance_forward(r.seen_q[0], max_end)
                <= SEEN_WINDOW_BYTES
        }),
{
    lemma_evict_window_props(s, max_end);
}

/// Every counter is monotone across one per-segment update: the whole
/// update only ever bumps counters with saturating increments.
pub proof fn lemma_update_stream_counters_monotone(
    s: StreamModel,
    seq_num: u32,
    ack_num: u32,
    window_size: u16,
    payload_len: usize,
    flags: TcpFlags,
    ts_us: u64,
)
    ensures
        ({
            let r = spec_update_stream(s, seq_num, ack_num, window_size, payload_len, flags, ts_us);
            &&& r.packet_count >= s.packet_count
            &&& r.retransmission_count >= s.retransmission_count
            &&& r.out_of_order_count >= s.out_of_order_count
            &&& r.zero_window_events >= s.zero_window_events
            &&& r.duplicate_ack_events >= s.duplicate_ack_events
            &&& r.rtt.count >= s.rtt.count
        }),
{
    let s1 = StreamModel { packet_count: sat_inc32(s.packet_count), ..s };
    let s2 = if flags.ack && !flags.syn && !flags.rst && window_size == 0 {
        StreamModel { zero_window_events: sat_inc32(s1.zero_window_events), ..s1 }
    } else {
        s1
    };
    let same_ack = s.last_ack_seen == Some(ack_num);
    let same_win = s.last_window_seen == Some(window_size);
    let s3 = if payload_len == 0 && flags.ack && !flags.syn && !flags.fin && !flags.rst {
        if same_ack && same_win {
            let streak = sat_inc32(s2.dup_ack_streak);
            StreamModel {
                dup_ack_streak: streak,
                duplicate_ack_events: if streak == 3 {
                    sat_inc32(s2.duplicate_ack_events)
                } else {
                    s2.duplicate_ack_events
                },
                ..s2
            }
        } else {
            StreamModel {
                last_ack_seen: Some(ack_num),
                last_window_seen: Some(window_size),
                dup_ack_streak: 1,
                ..s2
            }
        }
    } else {
        StreamModel { dup_ack_streak: 0, ..s2 }
    };
    let s4 = StreamModel { last_window_seen: Some(window_size), ..s3 };
    lemma_on_data_counters_monotone(s4, seq_num, payload_len, flags, ts_us);
}

/// The payload-side update only bumps counters.
proof fn lemma_on_data_counters_monotone(
    s: StreamModel,
    seq_num: u32,
    payload_len: usize,
    flags: TcpFlags,
    ts_us: u64,
)
    ensures
        ({
            let r = spec_on_data(s, seq_num, payload_len, flags, ts_us);
            &&& r.packet_count >= s.packet_count
            &&& r.retransmission_count >= s.retransmission_count
            &&& r.out_of_order_count >= s.out_of_order_count
            &&& r.zero_window_events >= s.zero_window_events
            &&& r.duplicate_ack_events >= s.duplicate_ack_events
            &&& r.rtt.count >= s.rtt.count
        }),
{
    if payload_len > 0 {
        let is_retx = s.seen.contains(seq_num) && !flags.syn && !flags.fin && !flags.rst;
        let s1 = if is_retx {
            StreamModel { retransmission_count: sat_inc32(s.retransmission_count), ..s }
        } else {
            s
        };
        let s2 = if !is_retx && !s1.seen.contains(seq_num) {
            StreamModel { seen: s1.seen.insert(seq_num), seen_q: s1.seen_q.push(seq_num), ..s1 }
        } else {
            s1
        };
        let seg_end = spec_seg_end(seq_num, payload_len);
        let s3 = match s2.highest_seq_end {
            Some(max_end) => {
                let with_ooo = if !is_retx && spec_seq_lt(seq_num, max_end) {
                    StreamModel { out_of_order_count: sat_inc32(s2.out_of_order_count), ..s2 }
                } else {
                    s2
                };
                if spec_seq_lt(max_end, seg_end) {
                    StreamModel { highest_seq_end: Some(seg_end), ..with_ooo }
                } else {
                    with_ooo
                }
            },
            None => StreamModel { highest_seq_end: Some(seg_end), ..s2 },
        };
        let s4 = StreamModel {
            outstanding: s3.outstanding.push(OutstandingSegment { seq_end: seg_end, ts_us }),
            ..s3
        };
        lemma_maintain_keeps_rest(s4);
    }
}

/// The value `v` is a valid RTT sample for an ACK numbered `ack_num`
/// arriving at `ts_us`: some outstanding segment is covered by the ACK
/// and was sent `v` microseconds earlier (clamped at 0).
pub open spec fn spec_rtt_sample_from(s: StreamModel, ack_num: u32, ts_us: u64, v: u64) -> bool {
    exists|i: int|
        0 <= i < s.outstanding.len() && crate::seqnum::spec_seq_lte(
            #[trigger] s.outstanding[i].seq_end,
            ack_num,
        ) && v == sat_sub64(ts_us, s.outstanding[i].ts_us)
}

/// ACK matching preserves every counter and well-formedness, and each
/// recorded sample is the ACK timestamp minus the send timestamp of
/// some outstanding segment whose end the ACK covers.
pub proof fn lemma_on_ack_samples(s: StreamModel, ack_num: u32, ts_us: u64)
    ensures
        ({
            let r = spec_on_ack(s, ack_num, ts_us);
            &&& r == (StreamModel { outstanding: r.outstanding, rtt: r.rtt, ..s })
            &&& r.rtt.count >= s.rtt.count
            &&& r.rtt.samples.len() >= s.rtt.samples.len()
            &&& forall|i: int| 0 <= i < s.rtt.samples.len() ==> r.rtt.samples[i]
                == s.rtt.samples[i]
            &&& forall|j: int|
                s.rtt.samples.len() <= j < r.rtt.samples.len() ==> spec_rtt_sample_from(
                    s,
                    ack_num,
                    ts_us,
                    #[trigger] r.rtt.samples[j],
                )
        }),
    decreases s.outstanding.len(),
{
    if s.outstanding.len() == 0 {
    } else if crate::seqnum::spec_seq_lte(s.outstanding[0].seq_end, ack_num) {
        let s2 = StreamModel {
            outstanding: s.outstanding.drop_first(),
            rtt: spec_add_sample(s.rtt, sat_sub64(ts_us, s.outstanding[0].ts_us)),
            ..s
        };
        lemma_on_ack_samples(s2, ack_num, ts_us);
        let r = spec_on_ack(s, ack_num, ts_us);
        assert(forall|i: int| 0 <= i < s2.outstanding.len() ==> s2.outstanding[i]
            == s.outstanding[i + 1]);
        assert forall|j: int|
            s.rtt.samples.len() <= j < r.rtt.samples.len() implies spec_rtt_sample_from(
            s,
            ack_num,
            ts_us,
            r.rtt.samples[j],
        ) by {
            if j < s2.rtt.samples.len() {
                // the sample recorded in this step, for the front segment
                assert(s2.rtt.samples[j] == sat_sub64(ts_us, s.outstanding[0].ts_us));
                assert(crate::seqnum::spec_seq_lte(s.outstanding[0].seq_end, ack_num));
            } else {
                assert(spec_rtt_sample_from(s2, ack_num, ts_us, r.rtt.samples[j]));
                let i = choose|i: int|
                    0 <= i < s2.outstanding.len() && crate::seqnum::spec_seq_lte(
                        #[trigger] s2.outstanding[i].seq_end,
                        ack_num,
                    ) && r.rtt.samples[j] == sat_sub64(ts_us, s2.outstanding[i].ts_us);
                assert(s.outstanding[i + 1] == s2.outstanding[i]);
                assert(crate::seqnum::spec_seq_lte(s.outstanding[i + 1].seq_end, ack_num));
            }
        }
    }
}

impl Default for TcpStreamState {
    /// A direction with no packets observed.
    fn default() -> (r: Self)
        ensures
            r@ == spec_stream_empty(),
    {
        let r = TcpStreamState {
            packet_count: 0,
            retransmission_count: 0,
            out_of_order_count: 0,
            zero_window_events: 0,
            seen_seq_numbers: HashSet::new(),
            seen_seq_queue: VecDeque::new(),
            highest_seq_end: None,
            last_ack_seen: None,
            dup_ack_streak: 0,
            duplicate_ack_events: 0,
            last_window_seen: None,
            outstanding: VecDeque::new(),
            rtt: RttStats::default(),
        };
        proof {
            assert(r@ =~= spec_stream_empty());
        }
        r
    }
}

} // verus!
