//! What a capture yields, attributed (where possible) to a target process, and which
//! kind of source to take it from.

use vstd::prelude::*;

use crate::text::concat;
use crate::vfs::Platform;

verus! {

/// Which process(es) to capture. Also the control message a privileged helper
/// receives to begin capturing.
#[derive(Debug, Clone, Copy, PartialEq, Eq, Structural)]
pub struct PidFilter {
    pub root_pid: u32,
    pub include_children: bool,
}

/// Transport protocol of a flow.
#[derive(Debug, Clone, Copy, PartialEq, Eq, Structural)]
pub enum L4Proto {
    Tcp,
    Udp,
}

/// An internet address, in network order.
#[derive(Debug, Clone, Copy, PartialEq, Eq, Structural)]
pub enum Host {
    V4(u32),
    V6 { address: u128, flow: u32, scope: u32 },
}

/// One end of a connection.
#[derive(Debug, Clone, Copy, PartialEq, Eq, Structural)]
pub struct Endpoint {
    pub host: Host,
    pub port: u16,
}

/// A connection's five-tuple.
#[derive(Debug, Clone, Copy, PartialEq, Eq, Structural)]
pub struct FlowKey {
    pub proto: L4Proto,
    pub local: Endpoint,
    pub remote: Endpoint,
}

/// Which way bytes travel.
#[derive(Debug, Clone, Copy, PartialEq, Eq, Structural)]
pub enum Direction {
    Outbound,
    Inbound,
}

/// Link-layer framing of a raw `Packet` event, so its reader knows how many
/// bytes to strip before the IP header.
#[derive(Debug, Clone, Copy, PartialEq, Eq, Structural)]
pub enum LinkType {
    Ethernet,
    RawIp,
    LinuxSll,
    /// BSD loopback (DLT_NULL / DLT_LOOP): a 4-byte address-family header
    /// precedes the IP packet. Seen on `lo0` and some `utun`/VPN interfaces.
    Null,
    /// macOS pktap: a pktap header (with PID) precedes the packet.
    Pktap,
}

/// One unit produced by a capture.
#[derive(Debug)]
pub enum CapturedEvent {
    /// A flow was attributed to a PID.
    FlowOpened { key: FlowKey, pid: Option<u32>, at: u64 },
    /// Raw link-or-IP-layer bytes. PID may be unknown and resolved later.
    Packet { data: Vec<u8>, link: LinkType, at: u64 },
    /// Pre-sliced application-stream bytes for one direction of a flow.
    StreamData { key: FlowKey, dir: Direction, bytes: Vec<u8>, pid: Option<u32>, at: u64 },
    FlowClosed { key: FlowKey, at: u64 },
    Warning(String),
}

/// Why a capture could not be made.
#[derive(Debug)]
pub enum CaptureError {
    Unavailable(String),
    Privileges(String),
    Io(String),
}

impl CaptureError {
    /// The message of an error.
    pub open spec fn text(self) -> Seq<char> {
        match self {
            CaptureError::Unavailable(m) => "capture backend unavailable: "@ + m@,
            CaptureError::Privileges(m) => "insufficient privileges for capture: "@ + m@,
            CaptureError::Io(m) => "io: "@ + m@,
        }
    }

    /// The message of the error.
    pub fn message(&self) -> (r: String)
        ensures
            r@ == self.text(),
    {
        match self {
            CaptureError::Unavailable(m) => concat("capture backend unavailable: ", m.as_str()),
            CaptureError::Privileges(m) => concat(
                "insufficient privileges for capture: ",
                m.as_str(),
            ),
            CaptureError::Io(m) => concat("io: ", m.as_str()),
        }
    }
}

/// Where a capture is taken from.
#[derive(Debug, Clone, Copy, PartialEq, Eq, Structural)]
pub enum SourceKind {
    /// The privileged helper: per-app attribution without elevating the app itself.
    Helper,
    /// Direct capture, in this process.
    Direct,
}

/// Whether a host can capture traffic at all.
pub open spec fn can_capture(host: Platform) -> bool {
    host == Platform::Macos
}

/// Whether this host can capture traffic, so that recording can be offered.
pub fn capture_available(host: Platform) -> (r: bool)
    ensures
        r == can_capture(host),
{
    match host {
        Platform::Macos => true,
        _ => false,
    }
}

/// Where packets are captured from, on a host where they can be.
pub open spec fn source_for(host: Platform, helper_reachable: bool) -> Option<SourceKind> {
    if !can_capture(host) {
        None
    } else if helper_reachable {
        Some(SourceKind::Helper)
    } else {
        Some(SourceKind::Direct)
    }
}

/// The source for a host: the privileged helper where it is actually reachable — not
/// merely installed, since a dead helper leaves its socket file behind — else direct
/// capture.
pub fn default_source(host: Platform, helper_reachable: bool) -> (r: Result<
    SourceKind,
    CaptureError,
>)
    ensures
        match r {
            Ok(k) => source_for(host, helper_reachable) == Some(k),
            Err(e) => source_for(host, helper_reachable) is None && (e matches CaptureError::Unavailable(m) && m@
                == "packet capture is not available on this platform yet"@),
        },
{
    if !capture_available(host) {
        return Err(
            CaptureError::Unavailable(
                "packet capture is not available on this platform yet".to_owned(),
            ),
        );
    }
    if helper_reachable {
        Ok(SourceKind::Helper)
    } else {
        Ok(SourceKind::Direct)
    }
}

} // verus!
