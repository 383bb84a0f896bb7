//! Passive network monitor: which processes to watch, how to open a capture, what
//! belongs to the target, and when to say that nothing does.
//!
//! The capture itself runs outside; [`capture::Monitor`] is told what came and says
//! what to do.

pub mod capture;
pub mod laws;
pub mod pktap;
pub mod process;
pub mod serve;
pub mod source;

pub use capture::{Monitor, Opening, PcapSource};
pub use pktap::{map_datalink, parse_pktap};
pub use process::{collect_pids, RunningProcess};
pub use source::{
    capture_available, default_source, CaptureError, CapturedEvent, Direction, Endpoint, FlowKey,
    Host, L4Proto, LinkType, PidFilter, SourceKind,
};
