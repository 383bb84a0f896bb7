//! macOS `pktap` headers, which carry the process that a packet belongs to.
//!
//! There are **two header versions**. `pth_flags` sits at offset 36 in each, so
//! it's read first to detect v2 (recent macOS emits v2). The versions place the
//! length / DLT / pid at different offsets:
//!
//! | field   | v1 (`pktap_header`)        | v2 (`pktap_v2_hdr`)     |
//! |---------|----------------------------|-------------------------|
//! | length  | `u32` @0                   | `u8`  @0                |
//! | DLT     | `u32` @8                   | `u16` @6                |
//! | pid     | @52                        | @28                     |
//! | e_pid   | @84                        | @32                     |
//!
//! The enclosed frame starts at the header length.

use vstd::prelude::*;

use crate::bytes::{le16, le16_of, le32, le32_of};
use crate::netmon::source::LinkType;

verus! {

/// `pth_flags` bit marking a version-2 pktap header (Apple `bsd/net/pktap.h`).
pub const PTH_FLAG_V2_HDR: u32 = 0x0008_0000;

/// The framing of a datalink type; none for the exotic ones, which are skipped.
pub open spec fn framing(dlt: int) -> Option<LinkType> {
    if dlt == 1 {
        Some(LinkType::Ethernet)
    } else if dlt == 0 || dlt == 108 {
        Some(LinkType::Null)
    } else if dlt == 12 || dlt == 14 {
        Some(LinkType::RawIp)
    } else if dlt == 113 {
        Some(LinkType::LinuxSll)
    } else {
        None
    }
}

/// The framing of a datalink type.
pub fn map_datalink(dlt: i32) -> (r: Option<LinkType>)
    ensures
        r == framing(dlt as int),
{
    if dlt == 1 {
        // DLT_EN10MB
        Some(LinkType::Ethernet)
    } else if dlt == 0 || dlt == 108 {
        // DLT_NULL / DLT_LOOP (BSD loopback, utun/VPN)
        Some(LinkType::Null)
    } else if dlt == 12 || dlt == 14 {
        // DLT_RAW
        Some(LinkType::RawIp)
    } else if dlt == 113 {
        // DLT_LINUX_SLL
        Some(LinkType::LinuxSll)
    } else {
        None
    }
}

/// A 32-bit field read as a signed number.
pub open spec fn signed(n: u32) -> int {
    if n < 0x8000_0000 {
        n as int
    } else {
        n - 0x1_0000_0000
    }
}

/// What a header states: its length, the datalink type of the frame behind it, the
/// process and the process it acts for.
pub struct HeaderView {
    pub length: int,
    pub dlt: int,
    pub pid: int,
    pub effective_pid: int,
}

/// The header that opens `data`; none where `data` is too short for one.
pub open spec fn header(data: Seq<u8>) -> Option<HeaderView> {
    if data.len() < 40 {
        None
    } else if le32(data, 36) & PTH_FLAG_V2_HDR != 0 {
        Some(
            HeaderView {
                length: data[0] as int,
                dlt: le16(data, 6) as int,
                pid: signed(le32(data, 28)),
                effective_pid: signed(le32(data, 32)),
            },
        )
    } else if data.len() < 56 {
        None
    } else {
        Some(
            HeaderView {
                length: le32(data, 0) as int,
                dlt: signed(le32(data, 8)),
                pid: signed(le32(data, 52)),
                effective_pid: if data.len() >= 88 {
                    signed(le32(data, 84))
                } else {
                    0
                },
            },
        )
    }
}

/// A packet behind its header: the process, the process it acts for, the framing and the
/// frame.
pub struct TappedView {
    pub pid: u32,
    pub effective_pid: Option<u32>,
    pub link: LinkType,
    pub frame: Seq<u8>,
}

/// The packet that `data` holds; none where the header is not understood, does not fit, or
/// frames a datalink type that is skipped.
pub open spec fn tapped(data: Seq<u8>) -> Option<TappedView> {
    match header(data) {
        Some(h) => if h.length == 0 || h.length > data.len() || framing(h.dlt) is None {
            None
        } else {
            Some(
                TappedView {
                    pid: if h.pid > 0 {
                        h.pid as u32
                    } else {
                        0
                    },
                    effective_pid: if h.effective_pid > 0 {
                        Some(h.effective_pid as u32)
                    } else {
                        None
                    },
                    link: framing(h.dlt)->0,
                    frame: data.skip(h.length),
                },
            )
        },
        None => None,
    }
}

fn positive(n: u32) -> (r: Option<u32>)
    ensures
        r == if signed(n) > 0 {
            Some(signed(n) as u32)
        } else {
            None
        },
{
    if 0 < n && n < 0x8000_0000 {
        Some(n)
    } else {
        None
    }
}

fn framing_of(dlt: u32) -> (r: Option<LinkType>)
    ensures
        r == framing(signed(dlt)),
{
    if dlt < 0x8000_0000 {
        map_datalink(dlt as i32)
    } else {
        None
    }
}

/// Parse a macOS `pktap` header, returning `(pid, effective_pid, inner_link,
/// inner_frame)`.
pub fn parse_pktap(data: &[u8]) -> (r: Option<(u32, Option<u32>, LinkType, &[u8])>)
    ensures
        match r {
            Some(p) => tapped(data@) == Some(
                (TappedView { pid: p.0, effective_pid: p.1, link: p.2, frame: p.3@ }),
            ),
            None => tapped(data@) is None,
        },
{
    // pth_flags @36 exists in both versions; it picks the layout.
    if data.len() < 40 {
        return None;
    }
    let flags = le32_of(data, 36);
    let length: usize;
    let dlt: u32;
    let pid: u32;
    let effective: u32;
    if flags & PTH_FLAG_V2_HDR != 0 {
        length = data[0] as usize;
        dlt = le16_of(data, 6) as u32;
        pid = le32_of(data, 28);
        effective = le32_of(data, 32);
    } else {
        if data.len() < 56 {
            return None;
        }
        length = le32_of(data, 0) as usize;
        dlt = le32_of(data, 8);
        pid = le32_of(data, 52);
        effective = if data.len() >= 88 {
            le32_of(data, 84)
        } else {
            0
        };
    }
    if length == 0 || data.len() < length {
        return None;
    }
    let link = match framing_of(dlt) {
        Some(l) => l,
        None => {
            return None;
        },
    };
    let frame = vstd::slice::slice_subrange(data, length, data.len());
    assert(frame@ =~= data@.skip(length as int));
    let pid = match positive(pid) {
        Some(p) => p,
        None => 0,
    };
    Some((pid, positive(effective), link, frame))
}

/// The frame that is handed on is what follows the header: no byte of it is lost or added.
pub proof fn lemma_frame_is_the_rest(data: Seq<u8>)
    requires
        tapped(data) is Some,
    ensures
        0 < header(data)->0.length <= data.len(),
        data.take(header(data)->0.length) + tapped(data)->0.frame == data,
{
    let n = header(data)->0.length;
    assert(data.take(n) + data.skip(n) =~= data);
}

} // verus!
