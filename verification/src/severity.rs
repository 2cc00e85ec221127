//! Deterministic severity scoring: a pure function from the two stream
//! states of a conversation to a score, a coarse level and the reasons.
//!
//! The score is the exact rational
//! `12*retr/pkts_k + 9*zwin/pkts_k + 4*dup/pkts_k + 2*ooo_pct`
//! rounded half-up, where `pkts_k = max(1, total/1000)` and `ooo_pct`
//! is the out-of-order percentage; everything is computed in integers.

use vstd::prelude::*;
use vstd::string::StringExecFns;

use crate::stream::{StreamModel, TcpStreamState};
use crate::text::{dec_u64, spec_dec};

verus! {

/// Coarse severity bucket of a conversation.
#[derive(Debug, Clone, Copy, PartialEq, Eq, Structural)]
pub enum SeverityLevel {
    Alta,
    Media,
    Baja,
}

/// The level's report label.
pub open spec fn spec_level_label(l: SeverityLevel) -> Seq<char> {
    match l {
        SeverityLevel::Alta => "ALTA"@,
        SeverityLevel::Media => "MEDIA"@,
        SeverityLevel::Baja => "BAJA"@,
    }
}

/// Total packet count of the conversation, saturating as the 32-bit
/// counters do.
pub open spec fn spec_total_pkts(a: StreamModel, b: StreamModel) -> int {
    if a.packet_count + b.packet_count > u32::MAX {
        u32::MAX as int
    } else {
        a.packet_count + b.packet_count
    }
}

/// Sum of the retransmission counters of both directions.
pub open spec fn spec_sig_retr(a: StreamModel, b: StreamModel) -> int {
    a.retransmission_count + b.retransmission_count
}

/// Sum of the duplicate-ACK event counters of both directions.
pub open spec fn spec_sig_dup(a: StreamModel, b: StreamModel) -> int {
    a.duplicate_ack_events + b.duplicate_ack_events
}

/// Sum of the zero-window event counters of both directions.
pub open spec fn spec_sig_zwin(a: StreamModel, b: StreamModel) -> int {
    a.zero_window_events + b.zero_window_events
}

/// Sum of the out-of-order counters of both directions.
pub open spec fn spec_sig_ooo(a: StreamModel, b: StreamModel) -> int {
    a.out_of_order_count + b.out_of_order_count
}

/// Whether the out-of-order share exceeds 2 percent of all packets.
pub open spec fn spec_ooo_above_2pct(ooo: int, total: int) -> bool {
    total > 0 && 50 * ooo > total
}

/// Numerator of `score * total`: with at most 1000 packets the
/// normalizer `pkts_k` is 1, beyond that it is `total / 1000`.
pub open spec fn spec_score_num(base: int, ooo: int, total: int) -> int {
    if total <= 1000 {
        base * total + 200 * ooo
    } else {
        1000 * base + 200 * ooo
    }
}

/// The exact score, rounded half-up: the weighted sum of the signals,
/// normalized per 1000 packets, plus twice the out-of-order percentage.
pub open spec fn spec_score_raw(retr: int, zwin: int, dup: int, ooo: int, total: int) -> int {
    let base = 12 * retr + 9 * zwin + 4 * dup;
    if total == 0 {
        base
    } else {
        (2 * spec_score_num(base, ooo, total) + total) / (2 * total)
    }
}

/// Clamp a non-negative value into a 32-bit score.
pub open spec fn spec_clamp_u32(x: int) -> u32 {
    if x > u32::MAX {
        u32::MAX
    } else if x < 0 {
        0
    } else {
        x as u32
    }
}

/// Initial classification, before the duplicate-ACK gating cap.
pub open spec fn spec_level_raw(
    score: u32,
    retr: int,
    zwin: int,
    dup: int,
    ooo: int,
    total: int,
) -> SeverityLevel {
    if score >= 120 || retr >= 20 || zwin >= 2 {
        SeverityLevel::Alta
    } else if score >= 50 || retr >= 5 || zwin >= 1 || dup >= 5 || spec_ooo_above_2pct(ooo, total) {
        SeverityLevel::Media
    } else {
        SeverityLevel::Baja
    }
}

/// Score and level from the raw signals, with the gating cap: a high
/// level reached with under 3 retransmissions and no zero-window event
/// is demoted to medium and its score clamped to 80.
pub open spec fn spec_severity_of(
    retr: int,
    zwin: int,
    dup: int,
    ooo: int,
    total: int,
) -> (u32, SeverityLevel) {
    let score = spec_clamp_u32(spec_score_raw(retr, zwin, dup, ooo, total));
    let level = spec_level_raw(score, retr, zwin, dup, ooo, total);
    if level == SeverityLevel::Alta && retr < 3 && zwin == 0 {
        ((if score > 80 { 80u32 } else { score }), SeverityLevel::Media)
    } else {
        (score, level)
    }
}

/// Score and level of a conversation.
pub open spec fn spec_severity(a: StreamModel, b: StreamModel) -> (u32, SeverityLevel) {
    spec_severity_of(
        spec_sig_retr(a, b),
        spec_sig_zwin(a, b),
        spec_sig_dup(a, b),
        spec_sig_ooo(a, b),
        spec_total_pkts(a, b),
    )
}

/// The out-of-order percentage in tenths of a percent, rounded to the
/// nearest tenth with ties to even.
pub open spec fn spec_pct_tenths(ooo: int, total: int) -> int {
    let q = (1000 * ooo) / total;
    let r = (1000 * ooo) % total;
    if 2 * r > total {
        q + 1
    } else if 2 * r < total {
        q
    } else if q % 2 == 0 {
        q
    } else {
        q + 1
    }
}

/// The human-readable reasons, in their fixed order of emission.
pub open spec fn spec_reasons_of(
    retr: int,
    zwin: int,
    dup: int,
    ooo: int,
    total: int,
) -> Seq<Seq<char>> {
    let r1: Seq<Seq<char>> = if retr >= 20 {
        seq!["retransmisiones altas ("@ + spec_dec(retr as nat) + ")"@]
    } else if retr >= 5 {
        seq!["retransmisiones moderadas ("@ + spec_dec(retr as nat) + ")"@]
    } else {
        Seq::empty()
    };
    let r2: Seq<Seq<char>> = if zwin >= 1 {
        seq!["ventana cero ("@ + spec_dec(zwin as nat) + ")"@]
    } else {
        Seq::empty()
    };
    let r3: Seq<Seq<char>> = if dup >= 3 {
        if retr == 0 && zwin == 0 {
            seq!["muchos dupACK sin retransmisiones ("@ + spec_dec(dup as nat) + ")"@]
        } else {
            seq!["eventos de ACK duplicado (≥3) ("@ + spec_dec(dup as nat) + ")"@]
        }
    } else {
        Seq::empty()
    };
    let r4: Seq<Seq<char>> = if spec_ooo_above_2pct(ooo, total) {
        let t = spec_pct_tenths(ooo, total);
        seq![
            "fuera de orden "@ + spec_dec((t / 10) as nat) + "."@ + spec_dec((t % 10) as nat)
                + "% (~"@ + spec_dec(ooo as nat) + ")"@
        ]
    } else {
        Seq::empty()
    };
    r1 + r2 + r3 + r4
}

/// The reasons of a conversation.
pub open spec fn spec_severity_reasons(a: StreamModel, b: StreamModel) -> Seq<Seq<char>> {
    spec_reasons_of(
        spec_sig_retr(a, b),
        spec_sig_zwin(a, b),
        spec_sig_dup(a, b),
        spec_sig_ooo(a, b),
        spec_total_pkts(a, b),
    )
}

/// The raw score grows (or stays) when any event signal grows and the
/// packet total stays the same: every weight in the score is positive.
pub proof fn lemma_score_raw_monotone(
    retr1: int,
    zwin1: int,
    dup1: int,
    ooo1: int,
    retr2: int,
    zwin2: int,
    dup2: int,
    ooo2: int,
    total: int,
)
    requires
        0 <= retr1 <= retr2,
        0 <= zwin1 <= zwin2,
        0 <= dup1 <= dup2,
        0 <= ooo1 <= ooo2,
        0 <= total,
    ensures
        spec_score_raw(retr1, zwin1, dup1, ooo1, total) <= spec_score_raw(
            retr2,
            zwin2,
            dup2,
            ooo2,
            total,
        ),
{
    let base1 = 12 * retr1 + 9 * zwin1 + 4 * dup1;
    let base2 = 12 * retr2 + 9 * zwin2 + 4 * dup2;
    if total == 0 {
    } else {
        if total <= 1000 {
            vstd::arithmetic::mul::lemma_mul_inequality(base1, base2, total);
        }
        let num1 = spec_score_num(base1, ooo1, total);
        let num2 = spec_score_num(base2, ooo2, total);
        vstd::arithmetic::div_mod::lemma_div_is_ordered(
            2 * num1 + total,
            2 * num2 + total,
            2 * total,
        );
    }
}

/// More retransmissions never lower the reported score, as long as the
/// duplicate-ACK gating cap cannot intervene: with at least 3
/// retransmissions already, or with any zero-window event, no demotion
/// happens on either side.  (Crossing the cap boundary from below can
/// lower the reported score: the cap clamps a demoted score to 80.)
pub proof fn lemma_severity_score_monotone_retr(
    retr1: int,
    retr2: int,
    zwin: int,
    dup: int,
    ooo: int,
    total: int,
)
    requires
        0 <= retr1 <= retr2,
        0 <= zwin,
        0 <= dup,
        0 <= ooo,
        0 <= total,
        retr1 >= 3 || zwin >= 1,
    ensures
        spec_severity_of(retr1, zwin, dup, ooo, total).0 <= spec_severity_of(
            retr2,
            zwin,
            dup,
            ooo,
            total,
        ).0,
{
    lemma_score_raw_monotone(retr1, zwin, dup, ooo, retr2, zwin, dup, ooo, total);
}

/// A conversation already at medium (or high) severity never falls back
/// to low severity when any event signal grows and the packet total
/// stays the same.
pub proof fn lemma_level_never_drops_to_baja(
    retr1: int,
    zwin1: int,
    dup1: int,
    ooo1: int,
    retr2: int,
    zwin2: int,
    dup2: int,
    ooo2: int,
    total: int,
)
    requires
        0 <= retr1 <= retr2,
        0 <= zwin1 <= zwin2,
        0 <= dup1 <= dup2,
        0 <= ooo1 <= ooo2,
        0 <= total,
        spec_severity_of(retr1, zwin1, dup1, ooo1, total).1 != SeverityLevel::Baja,
    ensures
        spec_severity_of(retr2, zwin2, dup2, ooo2, total).1 != SeverityLevel::Baja,
{
    lemma_score_raw_monotone(retr1, zwin1, dup1, ooo1, retr2, zwin2, dup2, ooo2, total);
}

/// Severity of a conversation: the exact score, the level's label, and
/// the reason strings, all functions of the two stream states alone.
pub fn compute_severity(c2s: &TcpStreamState, s2c: &TcpStreamState) -> (r: (
    u32,
    &'static str,
    Vec<String>,
))
    ensures
        r.0 == spec_severity(c2s@, s2c@).0,
        r.1@ == spec_level_label(spec_severity(c2s@, s2c@).1),
        r.2@.map_values(|s: String| s@) == spec_severity_reasons(c2s@, s2c@),
{
    let total: u32 = c2s.packet_count.saturating_add(s2c.packet_count);
    let retr: u64 = c2s.retransmission_count as u64 + s2c.retransmission_count as u64;
    let dup: u64 = c2s.duplicate_ack_events as u64 + s2c.duplicate_ack_events as u64;
    let zwin: u64 = c2s.zero_window_events as u64 + s2c.zero_window_events as u64;
    let ooo: u64 = c2s.out_of_order_count as u64 + s2c.out_of_order_count as u64;

    let base: u64 = 12 * retr + 9 * zwin + 4 * dup;
    let raw: u64 = if total == 0 {
        base
    } else {
        let num: u64 = if total <= 1000 {
            proof {
                assert((base as int) * (total as int) <= (base as int) * 1000) by (nonlinear_arith)
                    requires 0 <= base, 0 <= total <= 1000;
            }
            base * (total as u64) + 200 * ooo
        } else {
            1000 * base + 200 * ooo
        };
        (2 * num + total as u64) / (2 * total as u64)
    };
    let score: u32 = if raw > u32::MAX as u64 {
        u32::MAX
    } else {
        raw as u32
    };
    proof {
        assert(score == spec_clamp_u32(
            spec_score_raw(retr as int, zwin as int, dup as int, ooo as int, total as int),
        ));
    }

    let mut reasons: Vec<String> = Vec::new();
    if retr >= 20 {
        let mut t = String::from_str("retransmisiones altas (");
        let d = dec_u64(retr);
        t.append(d.as_str());
        t.append(")");
        proof {
            assert(t@ =~= "retransmisiones altas ("@ + spec_dec(retr as nat) + ")"@);
        }
        reasons.push(t);
    } else if retr >= 5 {
        let mut t = String::from_str("retransmisiones moderadas (");
        let d = dec_u64(retr);
        t.append(d.as_str());
        t.append(")");
        proof {
            assert(t@ =~= "retransmisiones moderadas ("@ + spec_dec(retr as nat) + ")"@);
        }
        reasons.push(t);
    }
    if zwin >= 1 {
        let mut t = String::from_str("ventana cero (");
        let d = dec_u64(zwin);
        t.append(d.as_str());
        t.append(")");
        proof {
            assert(t@ =~= "ventana cero ("@ + spec_dec(zwin as nat) + ")"@);
        }
        reasons.push(t);
    }
    if dup >= 3 {
        let mut t = if retr == 0 && zwin == 0 {
            String::from_str("muchos dupACK sin retransmisiones (")
        } else {
            String::from_str("eventos de ACK duplicado (≥3) (")
        };
        let d = dec_u64(dup);
        t.append(d.as_str());
        t.append(")");
        proof {
            if retr == 0 && zwin == 0 {
                assert(t@ =~= "muchos dupACK sin retransmisiones ("@ + spec_dec(dup as nat)
                    + ")"@);
            } else {
                assert(t@ =~= "eventos de ACK duplicado (≥3) ("@ + spec_dec(dup as nat) + ")"@);
            }
        }
        reasons.push(t);
    }
    let ooo_gt2 = total > 0 && 50 * ooo > total as u64;
    if ooo_gt2 {
        let q: u64 = (1000 * ooo) / (total as u64);
        let rem: u64 = (1000 * ooo) % (total as u64);
        let tenths: u64 = if 2 * rem > total as u64 {
            q + 1
        } else if 2 * rem < total as u64 {
            q
        } else if q % 2 == 0 {
            q
        } else {
            q + 1
        };
        proof {
            assert(tenths == spec_pct_tenths(ooo as int, total as int));
            vstd::arithmetic::div_mod::lemma_div_nonincreasing(1000 * ooo as int, total as int);
        }
        let mut t = String::from_str("fuera de orden ");
        let d1 = dec_u64(tenths / 10);
        t.append(d1.as_str());
        t.append(".");
        let d2 = dec_u64(tenths % 10);
        t.append(d2.as_str());
        t.append("% (~");
        let d3 = dec_u64(ooo);
        t.append(d3.as_str());
        t.append(")");
        proof {
            let ti = spec_pct_tenths(ooo as int, total as int);
            assert(t@ =~= "fuera de orden "@ + spec_dec((ti / 10) as nat) + "."@ + spec_dec(
                (ti % 10) as nat,
            ) + "% (~"@ + spec_dec(ooo as nat) + ")"@);
        }
        reasons.push(t);
    }
    proof {
        assert(reasons@.map_values(|s: String| s@) =~= spec_severity_reasons(c2s@, s2c@));
    }

    let alta = score >= 120 || retr >= 20 || zwin >= 2;
    let media = score >= 50 || retr >= 5 || zwin >= 1 || dup >= 5 || ooo_gt2;
    if alta && retr < 3 && zwin == 0 {
        proof {
            reveal_strlit("MEDIA");
        }
        ((if score > 80 { 80 } else { score }), "MEDIA", reasons)
    } else if alta {
        proof {
            reveal_strlit("ALTA");
        }
        (score, "ALTA", reasons)
    } else if media {
        proof {
            reveal_strlit("MEDIA");
        }
        (score, "MEDIA", reasons)
    } else {
        proof {
            reveal_strlit("BAJA");
        }
        (score, "BAJA", reasons)
    }
}

} // verus!
