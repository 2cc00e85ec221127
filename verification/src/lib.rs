//! Offline TCP-health analysis core.
//!
//! The library tracks every TCP conversation seen in a packet capture,
//! extracts health signals (retransmissions, out-of-order delivery,
//! zero-window stalls, duplicate-ACK storms, round-trip-time samples)
//! and scores each conversation deterministically.  Feeding the same
//! capture twice yields identical reports.

pub mod flow;
pub mod report;
pub mod rtt;
pub mod seqnum;
pub mod severity;
pub mod stream;
pub mod tcp_health;
pub mod text;

pub use flow::Flow;
pub use report::Report;
pub use seqnum::{seq_distance_forward, seq_gt, seq_lt, seq_lte};
pub use severity::compute_severity;
pub use stream::{maintain_seen_window, TcpFlags, TcpStreamState};
pub use tcp_health::{TcpConversationState, TcpHealthDetector};
