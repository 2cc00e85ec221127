//! The report builder: pure, deterministic construction of the final
//! structured document from the detector state.
//!
//! Two top lists are emitted: by severity (score descending, flow label
//! ascending) and by packet volume (total packets descending, the
//! 4-tuple of address labels and ports ascending).  Both orders are
//! total, so the report is a function of the detector state alone.

use vstd::prelude::*;

use crate::flow::Flow;
use crate::rtt::{spec_p50_us, spec_p95_us};
use crate::severity::{
    compute_severity, spec_level_label, spec_severity, spec_severity_reasons,
};
use crate::stream::{StreamModel, TcpStreamState};
use crate::tcp_health::{spec_run, ConvModel, TcpConversationState, TcpHealthDetector};
use crate::text::{flow_label, lex_lt, spec_flow_label, spec_ipv4_label, str_lex_lt};

verus! {

/// Per-direction block of a report entry.  RTT percentiles are in
/// microseconds; dividing by 1000 gives the milliseconds of the
/// external document.
#[derive(Debug, Clone, Copy, PartialEq, Eq)]
pub struct DirStats {
    pub packets: u32,
    pub retransmissions: u32,
    pub out_of_order: u32,
    pub zero_window_events: u32,
    pub duplicate_ack_events: u32,
    pub rtt_p50_us: u64,
    pub rtt_p95_us: u64,
    pub rtt_samples: u64,
}

/// The per-direction block of one stream state.
pub open spec fn spec_dir_stats(s: StreamModel) -> DirStats {
    DirStats {
        packets: s.packet_count,
        retransmissions: s.retransmission_count,
        out_of_order: s.out_of_order_count,
        zero_window_events: s.zero_window_events,
        duplicate_ack_events: s.duplicate_ack_events,
        rtt_p50_us: spec_p50_us(s.rtt),
        rtt_p95_us: spec_p95_us(s.rtt),
        rtt_samples: s.rtt.count,
    }
}

fn dir_stats(s: &TcpStreamState) -> (r: DirStats)
    ensures
        r == spec_dir_stats(s@),
{
    let (p50, p95) = s.rtt.percentiles_us();
    DirStats {
        packets: s.packet_count,
        retransmissions: s.retransmission_count,
        out_of_order: s.out_of_order_count,
        zero_window_events: s.zero_window_events,
        duplicate_ack_events: s.duplicate_ack_events,
        rtt_p50_us: p50,
        rtt_p95_us: p95,
        rtt_samples: s.rtt.count,
    }
}

/// Mathematical content of one severity-ranked entry.
#[verifier::ext_equal]
pub ghost struct SeverityEntryModel {
    pub flow: Seq<char>,
    pub score: u32,
    pub level: Seq<char>,
    pub reasons: Seq<Seq<char>>,
    pub c2s: DirStats,
    pub s2c: DirStats,
}

/// One conversation in the severity-ranked list.
#[derive(Debug, PartialEq, Eq)]
pub struct SeverityEntry {
    pub flow: String,
    pub score: u32,
    pub level: &'static str,
    pub reasons: Vec<String>,
    pub c2s: DirStats,
    pub s2c: DirStats,
}

impl View for SeverityEntry {
    type V = SeverityEntryModel;

    open spec fn view(&self) -> SeverityEntryModel {
        SeverityEntryModel {
            flow: self.flow@,
            score: self.score,
            level: self.level@,
            reasons: self.reasons@.map_values(|s: String| s@),
            c2s: self.c2s,
            s2c: self.s2c,
        }
    }
}

/// The severity entry of one conversation.
pub open spec fn spec_severity_entry(c: ConvModel) -> SeverityEntryModel {
    SeverityEntryModel {
        flow: spec_flow_label(c.flow),
        score: spec_severity(c.c2s, c.s2c).0,
        level: spec_level_label(spec_severity(c.c2s, c.s2c).1),
        reasons: spec_severity_reasons(c.c2s, c.s2c),
        c2s: spec_dir_stats(c.c2s),
        s2c: spec_dir_stats(c.s2c),
    }
}

fn severity_entry(c: &TcpConversationState) -> (r: SeverityEntry)
    ensures
        r@ == spec_severity_entry(c@),
{
    let (score, level, reasons) = compute_severity(&c.c2s, &c.s2c);
    let r = SeverityEntry {
        flow: flow_label(&c.flow),
        score,
        level,
        reasons,
        c2s: dir_stats(&c.c2s),
        s2c: dir_stats(&c.s2c),
    };
    proof {
        assert(r@ =~= spec_severity_entry(c@));
    }
    r
}

/// `a` may stay in front of `b` in the severity list: higher score
/// first; equal scores in ascending label order.
pub open spec fn sev_leq(a: SeverityEntryModel, b: SeverityEntryModel) -> bool {
    a.score > b.score || (a.score == b.score && !lex_lt(b.flow, a.flow))
}

fn sev_leq_exec(a: &SeverityEntry, b: &SeverityEntry) -> (r: bool)
    ensures
        r == sev_leq(a@, b@),
{
    a.score > b.score || (a.score == b.score && !str_lex_lt(b.flow.as_str(), a.flow.as_str()))
}

/// Insert into a severity-ordered sequence, in front of the first entry
/// it must precede.
pub open spec fn spec_sev_insert(
    s: Seq<SeverityEntryModel>,
    x: SeverityEntryModel,
) -> Seq<SeverityEntryModel>
    decreases s.len(),
{
    if s.len() == 0 {
        seq![x]
    } else if sev_leq(s[0], x) {
        seq![s[0]] + spec_sev_insert(s.drop_first(), x)
    } else {
        seq![x] + s
    }
}

/// The severity order of a sequence of entries, by repeated insertion.
pub open spec fn spec_sev_sort(s: Seq<SeverityEntryModel>) -> Seq<SeverityEntryModel>
    decreases s.len(),
{
    if s.len() == 0 {
        Seq::empty()
    } else {
        spec_sev_insert(spec_sev_sort(s.drop_first()), s[0])
    }
}

proof fn lemma_sev_insert_at(s: Seq<SeverityEntryModel>, x: SeverityEntryModel, j: int)
    requires
        0 <= j <= s.len(),
        forall|i: int| 0 <= i < j ==> sev_leq(#[trigger] s[i], x),
        j < s.len() ==> !sev_leq(s[j], x),
    ensures
        spec_sev_insert(s, x) == s.insert(j, x),
    decreases s.len(),
{
    if s.len() == 0 {
        assert(spec_sev_insert(s, x) =~= s.insert(0, x));
    } else if j == 0 {
        assert(spec_sev_insert(s, x) =~= s.insert(0, x));
    } else {
        lemma_sev_insert_at(s.drop_first(), x, j - 1);
        assert(seq![s[0]] + s.drop_first().insert(j - 1, x) =~= s.insert(j, x));
    }
}

fn sev_insert(v: &mut Vec<SeverityEntry>, x: SeverityEntry)
    ensures
        final(v)@.map_values(|e: SeverityEntry| e@) == spec_sev_insert(
            old(v)@.map_values(|e: SeverityEntry| e@),
            x@,
        ),
{
    let ghost xm = x@;
    let mut j: usize = 0;
    while j < v.len() && sev_leq_exec(&v[j], &x)
        invariant
            j <= v@.len(),
            forall|i: int| 0 <= i < j ==> sev_leq(#[trigger] v@[i]@, xm),
            xm == x@,
        decreases v@.len() - j,
    {
        j += 1;
    }
    proof {
        let mapped = v@.map_values(|e: SeverityEntry| e@);
        assert(forall|i: int| 0 <= i < v@.len() ==> mapped[i] == #[trigger] v@[i]@);
        if j < v@.len() {
            assert(mapped[j as int] == v@[j as int]@);
        }
        lemma_sev_insert_at(mapped, xm, j as int);
    }
    v.insert(j, x);
    proof {
        assert(v@.map_values(|e: SeverityEntry| e@) =~= old(v)@.map_values(
            |e: SeverityEntry| e@,
        ).insert(j as int, xm)) by {
            assert(forall|i: int| 0 <= i < v@.len() ==> v@.map_values(|e: SeverityEntry| e@)[i]
                == #[trigger] v@[i]@);
            assert(forall|i: int| 0 <= i < old(v)@.len() ==> old(v)@.map_values(
                |e: SeverityEntry| e@,
            )[i] == #[trigger] old(v)@[i]@);
            assert(forall|i: int| 0 <= i < v@.len() ==> v@[i] == (if i < j {
                old(v)@[i]
            } else if i == j {
                x
            } else {
                old(v)@[i - 1]
            }));
        }
    }
}

/// Mathematical content of one volume-ranked entry.
#[verifier::ext_equal]
pub ghost struct PacketEntryModel {
    pub flow: Seq<char>,
    pub flow_key: Flow,
    pub total_packets: u32,
    pub c2s: DirStats,
    pub s2c: DirStats,
}

/// One conversation in the volume-ranked list.
#[derive(Debug, PartialEq, Eq)]
pub struct PacketEntry {
    pub flow: String,
    /// The canonical flow, kept for the tie-breaking order.
    pub flow_key: Flow,
    pub total_packets: u32,
    pub c2s: DirStats,
    pub s2c: DirStats,
}

impl View for PacketEntry {
    type V = PacketEntryModel;

    open spec fn view(&self) -> PacketEntryModel {
        PacketEntryModel {
            flow: self.flow@,
            flow_key: self.flow_key,
            total_packets: self.total_packets,
            c2s: self.c2s,
            s2c: self.s2c,
        }
    }
}

/// Total packets of a conversation, saturating as the counters do.
pub open spec fn spec_total_packets_u32(c: ConvModel) -> u32 {
    if c.c2s.packet_count + c.s2c.packet_count > u32::MAX {
        u32::MAX
    } else {
        (c.c2s.packet_count + c.s2c.packet_count) as u32
    }
}

/// The volume entry of one conversation.
pub open spec fn spec_packet_entry(c: ConvModel) -> PacketEntryModel {
    PacketEntryModel {
        flow: spec_flow_label(c.flow),
        flow_key: c.flow,
        total_packets: spec_total_packets_u32(c),
        c2s: spec_dir_stats(c.c2s),
        s2c: spec_dir_stats(c.s2c),
    }
}

fn packet_entry(c: &TcpConversationState) -> (r: PacketEntry)
    ensures
        r@ == spec_packet_entry(c@),
{
    let r = PacketEntry {
        flow: flow_label(&c.flow),
        flow_key: c.flow,
        total_packets: c.c2s.packet_count.saturating_add(c.s2c.packet_count),
        c2s: dir_stats(&c.c2s),
        s2c: dir_stats(&c.s2c),
    };
    proof {
        assert(r@ =~= spec_packet_entry(c@));
    }
    r
}

/// Ascending order on the 4-tuple `(source address label, source port,
/// destination address label, destination port)`.
pub open spec fn flow_tuple_lt(f: Flow, g: Flow) -> bool {
    let fs = spec_ipv4_label(f.source_ip);
    let gs = spec_ipv4_label(g.source_ip);
    let fd = spec_ipv4_label(f.destination_ip);
    let gd = spec_ipv4_label(g.destination_ip);
    if lex_lt(fs, gs) {
        true
    } else if lex_lt(gs, fs) {
        false
    } else if f.source_port < g.source_port {
        true
    } else if g.source_port < f.source_port {
        false
    } else if lex_lt(fd, gd) {
        true
    } else if lex_lt(gd, fd) {
        false
    } else {
        f.destination_port < g.destination_port
    }
}

fn flow_tuple_lt_exec(f: &Flow, g: &Flow) -> (r: bool)
    ensures
        r == flow_tuple_lt(*f, *g),
{
    let fs = crate::text::ipv4_label(f.source_ip);
    let gs = crate::text::ipv4_label(g.source_ip);
    if str_lex_lt(fs.as_str(), gs.as_str()) {
        true
    } else if str_lex_lt(gs.as_str(), fs.as_str()) {
        false
    } else if f.source_port < g.source_port {
        true
    } else if g.source_port < f.source_port {
        false
    } else {
        let fd = crate::text::ipv4_label(f.destination_ip);
        let gd = crate::text::ipv4_label(g.destination_ip);
        if str_lex_lt(fd.as_str(), gd.as_str()) {
            true
        } else if str_lex_lt(gd.as_str(), fd.as_str()) {
            false
        } else {
            f.destination_port < g.destination_port
        }
    }
}

/// `a` may stay in front of `b` in the volume list: more packets first;
/// ties in ascending 4-tuple order.
pub open spec fn pkt_leq(a: PacketEntryModel, b: PacketEntryModel) -> bool {
    a.total_packets > b.total_packets || (a.total_packets == b.total_packets && !flow_tuple_lt(
        b.flow_key,
        a.flow_key,
    ))
}

fn pkt_leq_exec(a: &PacketEntry, b: &PacketEntry) -> (r: bool)
    ensures
        r == pkt_leq(a@, b@),
{
    a.total_packets > b.total_packets || (a.total_packets == b.total_packets
        && !flow_tuple_lt_exec(&b.flow_key, &a.flow_key))
}

/// Insert into a volume-ordered sequence, in front of the first entry
/// it must precede.
pub open spec fn spec_pkt_insert(
    s: Seq<PacketEntryModel>,
    x: PacketEntryModel,
) -> Seq<PacketEntryModel>
    decreases s.len(),
{
    if s.len() == 0 {
        seq![x]
    } else if pkt_leq(s[0], x) {
        seq![s[0]] + spec_pkt_insert(s.drop_first(), x)
    } else {
        seq![x] + s
    }
}

/// The volume order of a sequence of entries, by repeated insertion.
pub open spec fn spec_pkt_sort(s: Seq<PacketEntryModel>) -> Seq<PacketEntryModel>
    decreases s.len(),
{
    if s.len() == 0 {
        Seq::empty()
    } else {
        spec_pkt_insert(spec_pkt_sort(s.drop_first()), s[0])
    }
}

proof fn lemma_pkt_insert_at(s: Seq<PacketEntryModel>, x: PacketEntryModel, j: int)
    requires
        0 <= j <= s.len(),
        forall|i: int| 0 <= i < j ==> pkt_leq(#[trigger] s[i], x),
        j < s.len() ==> !pkt_leq(s[j], x),
    ensures
        spec_pkt_insert(s, x) == s.insert(j, x),
    decreases s.len(),
{
    if s.len() == 0 {
        assert(spec_pkt_insert(s, x) =~= s.insert(0, x));
    } else if j == 0 {
        assert(spec_pkt_insert(s, x) =~= s.insert(0, x));
    } else {
        lemma_pkt_insert_at(s.drop_first(), x, j - 1);
        assert(seq![s[0]] + s.drop_first().insert(j - 1, x) =~= s.insert(j, x));
    }
}

fn pkt_insert(v: &mut Vec<PacketEntry>, x: PacketEntry)
    ensures
        final(v)@.map_values(|e: PacketEntry| e@) == spec_pkt_insert(
            old(v)@.map_values(|e: PacketEntry| e@),
            x@,
        ),
{
    let ghost xm = x@;
    let mut j: usize = 0;
    while j < v.len() && pkt_leq_exec(&v[j], &x)
        invariant
            j <= v@.len(),
            forall|i: int| 0 <= i < j ==> pkt_leq(#[trigger] v@[i]@, xm),
            xm == x@,
        decreases v@.len() - j,
    {
        j += 1;
    }
    proof {
        let mapped = v@.map_values(|e: PacketEntry| e@);
        assert(forall|i: int| 0 <= i < v@.len() ==> mapped[i] == #[trigger] v@[i]@);
        if j < v@.len() {
            assert(mapped[j as int] == v@[j as int]@);
        }
        lemma_pkt_insert_at(mapped, xm, j as int);
    }
    v.insert(j, x);
    proof {
        assert(v@.map_values(|e: PacketEntry| e@) =~= old(v)@.map_values(
            |e: PacketEntry| e@,
        ).insert(j as int, xm)) by {
            assert(forall|i: int| 0 <= i < v@.len() ==> v@.map_values(|e: PacketEntry| e@)[i]
                == #[trigger] v@[i]@);
            assert(forall|i: int| 0 <= i < old(v)@.len() ==> old(v)@.map_values(
                |e: PacketEntry| e@,
            )[i] == #[trigger] old(v)@[i]@);
            assert(forall|i: int| 0 <= i < v@.len() ==> v@[i] == (if i < j {
                old(v)@[i]
            } else if i == j {
                x
            } else {
                old(v)@[i - 1]
            }));
        }
    }
}

/// The severity order is total: any two entries compare.
pub proof fn lemma_sev_leq_total(a: SeverityEntryModel, b: SeverityEntryModel)
    ensures
        sev_leq(a, b) || sev_leq(b, a),
{
    if a.score == b.score && lex_lt(b.flow, a.flow) {
        crate::text::lemma_lex_lt_asymmetric(b.flow, a.flow);
    }
}

/// The severity order is transitive.
pub proof fn lemma_sev_leq_trans(
    a: SeverityEntryModel,
    b: SeverityEntryModel,
    c: SeverityEntryModel,
)
    requires
        sev_leq(a, b),
        sev_leq(b, c),
    ensures
        sev_leq(a, c),
{
    if a.score == c.score && lex_lt(c.flow, a.flow) {
        crate::text::lemma_lex_lt_connected(a.flow, b.flow);
        if lex_lt(a.flow, b.flow) {
            crate::text::lemma_lex_lt_trans(c.flow, a.flow, b.flow);
        }
    }
}

/// The severity order of a list of entries: by score descending, ties
/// by flow label ascending.
pub open spec fn sev_sorted(s: Seq<SeverityEntryModel>) -> bool {
    forall|i: int, j: int| 0 <= i < j < s.len() ==> sev_leq(s[i], s[j])
}

/// Inserting into a severity-ordered list keeps it ordered and adds
/// exactly the new entry.
pub proof fn lemma_sev_insert_sorted(s: Seq<SeverityEntryModel>, x: SeverityEntryModel)
    requires
        sev_sorted(s),
    ensures
        sev_sorted(spec_sev_insert(s, x)),
        spec_sev_insert(s, x).to_multiset() == s.to_multiset().insert(x),
        spec_sev_insert(s, x).len() == s.len() + 1,
    decreases s.len(),
{
    broadcast use vstd::seq_lib::group_to_multiset_ensures;

    if s.len() == 0 {
        assert(spec_sev_insert(s, x) =~= seq![x]);
        assert(seq![x] =~= Seq::<SeverityEntryModel>::empty().push(x));
        assert(Seq::<SeverityEntryModel>::empty().push(x).to_multiset()
            =~= Seq::<SeverityEntryModel>::empty().to_multiset().insert(x));
        assert(s =~= Seq::<SeverityEntryModel>::empty());
    } else if sev_leq(s[0], x) {
        assert(sev_sorted(s.drop_first()));
        lemma_sev_insert_sorted(s.drop_first(), x);
        let t = spec_sev_insert(s.drop_first(), x);
        let r = seq![s[0]] + t;
        // every element of t is x or an element of s.drop_first();
        // either way the head of s may precede it
        assert forall|i: int| 0 <= i < t.len() implies sev_leq(s[0], #[trigger] t[i]) by {
            assert(t.to_multiset().contains(t[i]));
            assert(t.to_multiset() == s.drop_first().to_multiset().insert(x));
            if t[i] != x {
                assert(s.drop_first().to_multiset().contains(t[i]));
                assert(s.drop_first().contains(t[i]));
                let k = choose|k: int|
                    0 <= k < s.drop_first().len() && s.drop_first()[k] == t[i];
                assert(s[k + 1] == t[i]);
                assert(sev_leq(s[0], s[k + 1]));
            }
        }
        assert(sev_sorted(r)) by {
            assert(forall|i: int| 1 <= i < r.len() ==> r[i] == t[i - 1]);
        }
        assert(r =~= spec_sev_insert(s, x));
        assert(r.to_multiset() == s.to_multiset().insert(x)) by {
            assert(r.drop_first() =~= t);
            assert(r[0] == s[0]);
            crate::rtt::lemma_to_multiset_drop_first(r);
            crate::rtt::lemma_to_multiset_drop_first(s);
            assert(t.to_multiset().insert(s[0]) =~= s.drop_first().to_multiset().insert(x).insert(
                s[0],
            ));
            assert(s.drop_first().to_multiset().insert(x).insert(s[0])
                =~= s.drop_first().to_multiset().insert(s[0]).insert(x));
        }
    } else {
        let r = seq![x] + s;
        lemma_sev_leq_total(s[0], x);
        assert(sev_leq(x, s[0]));
        assert(sev_sorted(r)) by {
            assert(forall|i: int| 1 <= i < r.len() ==> r[i] == s[i - 1]);
            assert forall|i: int| 1 <= i < r.len() implies sev_leq(x, #[trigger] r[i]) by {
                if i >= 2 {
                    assert(sev_leq(s[0], s[i - 1]));
                    lemma_sev_leq_trans(x, s[0], s[i - 1]);
                }
            }
        }
        assert(r.drop_first() =~= s);
        assert(r[0] == x);
        crate::rtt::lemma_to_multiset_drop_first(r);
        assert(r =~= spec_sev_insert(s, x));
    }
}

/// The severity list of the report is a permutation of the entries, in
/// descending score order with ties in ascending label order.
pub proof fn lemma_sev_sort_sorted(s: Seq<SeverityEntryModel>)
    ensures
        sev_sorted(spec_sev_sort(s)),
        spec_sev_sort(s).to_multiset() == s.to_multiset(),
        spec_sev_sort(s).len() == s.len(),
    decreases s.len(),
{
    broadcast use vstd::seq_lib::group_to_multiset_ensures;

    if s.len() == 0 {
    } else {
        lemma_sev_sort_sorted(s.drop_first());
        lemma_sev_insert_sorted(spec_sev_sort(s.drop_first()), s[0]);
        crate::rtt::lemma_to_multiset_drop_first(s);
    }
}

/// The 4-tuple order never holds both ways.
proof fn lemma_flow_tuple_lt_asymmetric(f: Flow, g: Flow)
    requires
        flow_tuple_lt(f, g),
    ensures
        !flow_tuple_lt(g, f),
{
    let fs = spec_ipv4_label(f.source_ip);
    let gs = spec_ipv4_label(g.source_ip);
    let fd = spec_ipv4_label(f.destination_ip);
    let gd = spec_ipv4_label(g.destination_ip);
    if lex_lt(fs, gs) {
        crate::text::lemma_lex_lt_asymmetric(fs, gs);
    }
    if lex_lt(fd, gd) {
        crate::text::lemma_lex_lt_asymmetric(fd, gd);
    }
}

/// The 4-tuple order is transitive.
proof fn lemma_flow_tuple_lt_trans(f: Flow, g: Flow, h: Flow)
    requires
        flow_tuple_lt(f, g),
        flow_tuple_lt(g, h),
    ensures
        flow_tuple_lt(f, h),
{
    let fs = spec_ipv4_label(f.source_ip);
    let gs = spec_ipv4_label(g.source_ip);
    let hs = spec_ipv4_label(h.source_ip);
    let fd = spec_ipv4_label(f.destination_ip);
    let gd = spec_ipv4_label(g.destination_ip);
    let hd = spec_ipv4_label(h.destination_ip);
    crate::text::lemma_lex_lt_connected(fs, gs);
    crate::text::lemma_lex_lt_connected(gs, hs);
    crate::text::lemma_lex_lt_connected(fs, hs);
    if lex_lt(fs, gs) && lex_lt(gs, hs) {
        crate::text::lemma_lex_lt_trans(fs, gs, hs);
    }
    if lex_lt(hs, fs) && lex_lt(fs, gs) {
        crate::text::lemma_lex_lt_trans(hs, fs, gs);
    }
    if lex_lt(gs, hs) && lex_lt(hs, fs) {
        crate::text::lemma_lex_lt_trans(gs, hs, fs);
    }
    if lex_lt(fs, gs) {
        crate::text::lemma_lex_lt_asymmetric(fs, gs);
    }
    if lex_lt(gs, hs) {
        crate::text::lemma_lex_lt_asymmetric(gs, hs);
    }
    if lex_lt(fs, hs) {
        crate::text::lemma_lex_lt_asymmetric(fs, hs);
    }
    crate::text::lemma_lex_lt_connected(fd, gd);
    crate::text::lemma_lex_lt_connected(gd, hd);
    crate::text::lemma_lex_lt_connected(fd, hd);
    if lex_lt(fd, gd) && lex_lt(gd, hd) {
        crate::text::lemma_lex_lt_trans(fd, gd, hd);
    }
    if lex_lt(hd, fd) && lex_lt(fd, gd) {
        crate::text::lemma_lex_lt_trans(hd, fd, gd);
    }
    if lex_lt(gd, hd) && lex_lt(hd, fd) {
        crate::text::lemma_lex_lt_trans(gd, hd, fd);
    }
    if lex_lt(fd, gd) {
        crate::text::lemma_lex_lt_asymmetric(fd, gd);
    }
    if lex_lt(gd, hd) {
        crate::text::lemma_lex_lt_asymmetric(gd, hd);
    }
    if lex_lt(fd, hd) {
        crate::text::lemma_lex_lt_asymmetric(fd, hd);
    }
}

/// The volume order is total: any two entries compare.
pub proof fn lemma_pkt_leq_total(a: PacketEntryModel, b: PacketEntryModel)
    ensures
        pkt_leq(a, b) || pkt_leq(b, a),
{
    if a.total_packets == b.total_packets && flow_tuple_lt(b.flow_key, a.flow_key) {
        lemma_flow_tuple_lt_asymmetric(b.flow_key, a.flow_key);
    }
}

/// The volume order is transitive.
pub proof fn lemma_pkt_leq_trans(a: PacketEntryModel, b: PacketEntryModel, c: PacketEntryModel)
    requires
        pkt_leq(a, b),
        pkt_leq(b, c),
    ensures
        pkt_leq(a, c),
{
    if a.total_packets == c.total_packets && flow_tuple_lt(c.flow_key, a.flow_key) {
        if flow_tuple_lt(a.flow_key, b.flow_key) {
            lemma_flow_tuple_lt_trans(c.flow_key, a.flow_key, b.flow_key);
        } else if flow_tuple_lt(b.flow_key, a.flow_key) {
        } else {
            // neither way: conclude the tuple order on (c, b) from (c, a)
            lemma_flow_tuple_neither_is_congruent(a.flow_key, b.flow_key, c.flow_key);
        }
    }
}

/// When two flows compare neither way in the 4-tuple order, any third
/// flow below the first is below the second too.
proof fn lemma_flow_tuple_neither_is_congruent(a: Flow, b: Flow, c: Flow)
    requires
        !flow_tuple_lt(a, b),
        !flow_tuple_lt(b, a),
        flow_tuple_lt(c, a),
    ensures
        flow_tuple_lt(c, b),
{
    let as_ = spec_ipv4_label(a.source_ip);
    let bs = spec_ipv4_label(b.source_ip);
    let cs = spec_ipv4_label(c.source_ip);
    let ad = spec_ipv4_label(a.destination_ip);
    let bd = spec_ipv4_label(b.destination_ip);
    let cd = spec_ipv4_label(c.destination_ip);
    crate::text::lemma_lex_lt_connected(as_, bs);
    crate::text::lemma_lex_lt_connected(ad, bd);
    assert(as_ == bs && a.source_port == b.source_port && ad == bd && a.destination_port
        == b.destination_port) by {
        if lex_lt(as_, bs) || lex_lt(bs, as_) {
            assert(flow_tuple_lt(a, b) || flow_tuple_lt(b, a));
        }
    }
}

/// The volume order of a list of entries: by total packets descending,
/// ties by the 4-tuple ascending.
pub open spec fn pkt_sorted(s: Seq<PacketEntryModel>) -> bool {
    forall|i: int, j: int| 0 <= i < j < s.len() ==> pkt_leq(s[i], s[j])
}

/// Inserting into a volume-ordered list keeps it ordered and adds
/// exactly the new entry.
pub proof fn lemma_pkt_insert_sorted(s: Seq<PacketEntryModel>, x: PacketEntryModel)
    requires
        pkt_sorted(s),
    ensures
        pkt_sorted(spec_pkt_insert(s, x)),
        spec_pkt_insert(s, x).to_multiset() == s.to_multiset().insert(x),
        spec_pkt_insert(s, x).len() == s.len() + 1,
    decreases s.len(),
{
    broadcast use vstd::seq_lib::group_to_multiset_ensures;

    if s.len() == 0 {
        assert(spec_pkt_insert(s, x) =~= seq![x]);
        assert(seq![x] =~= Seq::<PacketEntryModel>::empty().push(x));
        assert(Seq::<PacketEntryModel>::empty().push(x).to_multiset()
            =~= Seq::<PacketEntryModel>::empty().to_multiset().insert(x));
        assert(s =~= Seq::<PacketEntryModel>::empty());
    } else if pkt_leq(s[0], x) {
        assert(pkt_sorted(s.drop_first()));
        lemma_pkt_insert_sorted(s.drop_first(), x);
        let t = spec_pkt_insert(s.drop_first(), x);
        let r = seq![s[0]] + t;
        assert forall|i: int| 0 <= i < t.len() implies pkt_leq(s[0], #[trigger] t[i]) by {
            assert(t.to_multiset().contains(t[i]));
            assert(t.to_multiset() == s.drop_first().to_multiset().insert(x));
            if t[i] != x {
                assert(s.drop_first().to_multiset().contains(t[i]));
                assert(s.drop_first().contains(t[i]));
                let k = choose|k: int|
                    0 <= k < s.drop_first().len() && s.drop_first()[k] == t[i];
                assert(s[k + 1] == t[i]);
                assert(pkt_leq(s[0], s[k + 1]));
            }
        }
        assert(pkt_sorted(r)) by {
            assert(forall|i: int| 1 <= i < r.len() ==> r[i] == t[i - 1]);
        }
        assert(r =~= spec_pkt_insert(s, x));
        assert(r.to_multiset() == s.to_multiset().insert(x)) by {
            assert(r.drop_first() =~= t);
            assert(r[0] == s[0]);
            crate::rtt::lemma_to_multiset_drop_first(r);
            crate::rtt::lemma_to_multiset_drop_first(s);
            assert(t.to_multiset().insert(s[0]) =~= s.drop_first().to_multiset().insert(x).insert(
                s[0],
            ));
            assert(s.drop_first().to_multiset().insert(x).insert(s[0])
                =~= s.drop_first().to_multiset().insert(s[0]).insert(x));
        }
    } else {
        let r = seq![x] + s;
        lemma_pkt_leq_total(s[0], x);
        assert(pkt_leq(x, s[0]));
        assert(pkt_sorted(r)) by {
            assert(forall|i: int| 1 <= i < r.len() ==> r[i] == s[i - 1]);
            assert forall|i: int| 1 <= i < r.len() implies pkt_leq(x, #[trigger] r[i]) by {
                if i >= 2 {
                    assert(pkt_leq(s[0], s[i - 1]));
                    lemma_pkt_leq_trans(x, s[0], s[i - 1]);
                }
            }
        }
        assert(r.drop_first() =~= s);
        assert(r[0] == x);
        crate::rtt::lemma_to_multiset_drop_first(r);
        assert(r =~= spec_pkt_insert(s, x));
    }
}

/// The volume list of the report is a permutation of the entries, in
/// descending packet order with ties in ascending 4-tuple order.
pub proof fn lemma_pkt_sort_sorted(s: Seq<PacketEntryModel>)
    ensures
        pkt_sorted(spec_pkt_sort(s)),
        spec_pkt_sort(s).to_multiset() == s.to_multiset(),
        spec_pkt_sort(s).len() == s.len(),
    decreases s.len(),
{
    broadcast use vstd::seq_lib::group_to_multiset_ensures;

    if s.len() == 0 {
    } else {
        lemma_pkt_sort_sorted(s.drop_first());
        lemma_pkt_insert_sorted(spec_pkt_sort(s.drop_first()), s[0]);
        crate::rtt::lemma_to_multiset_drop_first(s);
    }
}

/// Mathematical content of the detector's report.
#[verifier::ext_equal]
pub ghost struct ReportModel {
    pub conversations_total: int,
    pub top_by_severity: Seq<SeverityEntryModel>,
    pub top_by_packets: Seq<PacketEntryModel>,
}

/// The detector's structured report.  `top_by_severity` doubles as the
/// legacy `top_flows` list.
#[derive(Debug, PartialEq, Eq)]
pub struct Report {
    pub conversations_total: usize,
    pub top_by_severity: Vec<SeverityEntry>,
    pub top_by_packets: Vec<PacketEntry>,
}

impl View for Report {
    type V = ReportModel;

    open spec fn view(&self) -> ReportModel {
        ReportModel {
            conversations_total: self.conversations_total as int,
            top_by_severity: self.top_by_severity@.map_values(|e: SeverityEntry| e@),
            top_by_packets: self.top_by_packets@.map_values(|e: PacketEntry| e@),
        }
    }
}

/// The report of a detector state: the conversation count and the two
/// deterministically ordered lists.
pub open spec fn spec_report(convs: Seq<ConvModel>) -> ReportModel {
    ReportModel {
        conversations_total: convs.len() as int,
        top_by_severity: spec_sev_sort(convs.map_values(|c: ConvModel| spec_severity_entry(c))),
        top_by_packets: spec_pkt_sort(convs.map_values(|c: ConvModel| spec_packet_entry(c))),
    }
}

impl TcpHealthDetector {
    /// Build the report.  The state is only read, and the result is a
    /// function of the detector state alone.
    pub fn finalize(&self) -> (r: Report)
        ensures
            r@ == spec_report(self@),
    {
        let ghost sev_models = self@.map_values(|c: ConvModel| spec_severity_entry(c));
        let ghost pkt_models = self@.map_values(|c: ConvModel| spec_packet_entry(c));
        let n = self.conversations.len();
        proof {
            assert(sev_models.len() == n);
            assert(pkt_models.len() == n);
        }

        let mut by_severity: Vec<SeverityEntry> = Vec::new();
        let mut i: usize = n;
        assert(by_severity@.map_values(|e: SeverityEntry| e@) =~= spec_sev_sort(
            sev_models.skip(n as int),
        )) by {
            assert(sev_models.skip(n as int) =~= Seq::<SeverityEntryModel>::empty());
        }
        while i > 0
            invariant
                i <= n,
                n == self.conversations.len(),
                sev_models == self@.map_values(|c: ConvModel| spec_severity_entry(c)),
                by_severity@.map_values(|e: SeverityEntry| e@) == spec_sev_sort(
                    sev_models.skip(i as int),
                ),
            decreases i,
        {
            i = i - 1;
            let e = severity_entry(&self.conversations[i]);
            proof {
                assert(self@[i as int] == self.conversations@[i as int]@);
                assert(sev_models[i as int] == spec_severity_entry(self@[i as int]));
                assert(sev_models.skip(i as int).drop_first() =~= sev_models.skip(i as int + 1));
                assert(sev_models.skip(i as int)[0] == sev_models[i as int]);
            }
            sev_insert(&mut by_severity, e);
        }
        proof {
            assert(sev_models.skip(0) =~= sev_models);
        }

        let mut by_packets: Vec<PacketEntry> = Vec::new();
        let mut k: usize = n;
        assert(by_packets@.map_values(|e: PacketEntry| e@) =~= spec_pkt_sort(
            pkt_models.skip(n as int),
        )) by {
            assert(pkt_models.skip(n as int) =~= Seq::<PacketEntryModel>::empty());
        }
        while k > 0
            invariant
                k <= n,
                n == self.conversations.len(),
                pkt_models == self@.map_values(|c: ConvModel| spec_packet_entry(c)),
                by_packets@.map_values(|e: PacketEntry| e@) == spec_pkt_sort(
                    pkt_models.skip(k as int),
                ),
            decreases k,
        {
            k = k - 1;
            let e = packet_entry(&self.conversations[k]);
            proof {
                assert(self@[k as int] == self.conversations@[k as int]@);
                assert(pkt_models[k as int] == spec_packet_entry(self@[k as int]));
                assert(pkt_models.skip(k as int).drop_first() =~= pkt_models.skip(k as int + 1));
                assert(pkt_models.skip(k as int)[0] == pkt_models[k as int]);
            }
            pkt_insert(&mut by_packets, e);
        }
        proof {
            assert(pkt_models.skip(0) =~= pkt_models);
        }

        let r = Report { conversations_total: n, top_by_severity: by_severity, top_by_packets: by_packets };
        proof {
            assert(r@ =~= spec_report(self@));
        }
        r
    }
}

/// The report's two lists are ordered permutations of the per-
/// conversation entries: by severity (score descending, label
/// ascending) and by volume (total packets descending, 4-tuple
/// ascending).
pub proof fn lemma_report_ordered(convs: Seq<ConvModel>)
    ensures
        ({
            let r = spec_report(convs);
            &&& sev_sorted(r.top_by_severity)
            &&& r.top_by_severity.to_multiset() == convs.map_values(
                |c: ConvModel| spec_severity_entry(c),
            ).to_multiset()
            &&& pkt_sorted(r.top_by_packets)
            &&& r.top_by_packets.to_multiset() == convs.map_values(
                |c: ConvModel| spec_packet_entry(c),
            ).to_multiset()
            &&& r.top_by_severity.len() == convs.len()
            &&& r.top_by_packets.len() == convs.len()
        }),
{
    lemma_sev_sort_sorted(convs.map_values(|c: ConvModel| spec_severity_entry(c)));
    lemma_pkt_sort_sorted(convs.map_values(|c: ConvModel| spec_packet_entry(c)));
}

/// The capture's duration in whole milliseconds: the distance between
/// the first and last packet timestamps, 0 when there are fewer than
/// two timestamps or they run backwards.
pub fn capture_duration_ms(first_ts_us: Option<u64>, last_ts_us: Option<u64>) -> (r: u64)
    ensures
        r == match (first_ts_us, last_ts_us) {
            (Some(f), Some(l)) => if l >= f {
                ((l - f) / 1000) as u64
            } else {
                0u64
            },
            _ => 0u64,
        },
{
    match (first_ts_us, last_ts_us) {
        (Some(f), Some(l)) => if l >= f {
            (l - f) / 1000
        } else {
            0
        },
        _ => 0,
    }
}

/// Determinism of the analyzer: the report is a function of the capture
/// alone, so two runs over the same packet sequence yield the same
/// detector state and the same report.
pub proof fn lemma_report_deterministic(
    p1: Seq<(Seq<u8>, u64)>,
    p2: Seq<(Seq<u8>, u64)>,
)
    requires
        p1 == p2,
    ensures
        spec_run(p1) == spec_run(p2),
        spec_report(spec_run(p1)) == spec_report(spec_run(p2)),
{
}

} // verus!
