//! What holds of a capture, whatever is captured.

use vstd::prelude::*;

use crate::bytes::{le16, le32};
use crate::netmon::capture::{
    counted, device_count, fallback_text, first_pktap, is_hit, is_pktap, privilege_text, step_after,
    tried_device, Monitor, Opening, StepView,
};
use crate::netmon::pktap::{framing, header, signed, tapped, HeaderView, TappedView};
use crate::netmon::process::{descends, takes};
use crate::netmon::serve::{step, Next, Seen};
use crate::netmon::source::{
    source_for, CaptureError, CapturedEvent, LinkType, PidFilter, SourceKind,
};
use crate::num::decimal;
use crate::text::{closes, opens, stands_at};
use crate::vfs::Platform;

verus! {

/// Capturing per application is tried first, on every interface and then on one, and only
/// what is left in the end is the host-wide default; where it is not wanted there is nothing
/// else to try.
pub proof fn lemma_devices_in_turn(want_pktap: bool, failed: nat)
    requires
        failed < device_count(want_pktap),
    ensures
        tried_device(want_pktap, failed).1 <==> failed + 1 < device_count(want_pktap),
        tried_device(want_pktap, failed).0 is None <==> failed + 1 == device_count(want_pktap),
        tried_device(true, 0).0 == Some("pktap,all"@),
        tried_device(true, 1).0 == Some("pktap"@),
        device_count(true) == 3 && device_count(false) == 1,
{
}

/// An attempt that works is used; one that does not makes room for the next, and only the
/// last failure is final. Falling back from capture per application is told of, with the
/// reason of the first failure.
pub proof fn lemma_outcomes(want_pktap: bool, last: bool, first: Option<Seq<char>>, e: Seq<char>)
    ensures
        step_after(want_pktap, false, first, None) == StepView::Use(true, None),
        step_after(true, true, first, None) == StepView::Use(false, Some(fallback_text(first))),
        step_after(false, true, first, None) == StepView::Use(false, None),
        step_after(want_pktap, last, first, Some(e)) is Next <==> !last,
        step_after(want_pktap, true, first, Some(e)) == StepView::Fail(privilege_text(e)),
        first matches Some(why) ==> crate::text::holds(fallback_text(first), why),
        crate::text::holds(privilege_text(e), e),
{
    if let Some(why) = first {
        let head = "per-app capture unavailable ("@;
        let m = fallback_text(first);
        assert(m.subrange(head.len() as int, head.len() + why.len() as int) =~= why);
        assert(stands_at(m, why, head.len() as int));
    }
    let head = "could not start capture: "@;
    let m = privilege_text(e);
    assert(m.subrange(head.len() as int, head.len() + e.len() as int) =~= e);
    assert(stands_at(m, e, head.len() as int));
}

/// Packets can be captured on macOS only, and the helper is preferred wherever it can be
/// reached.
pub proof fn lemma_sources(host: Platform, reachable: bool)
    ensures
        source_for(host, reachable) is Some <==> host == Platform::Macos,
        source_for(Platform::Macos, true) == Some(SourceKind::Helper),
        source_for(Platform::Macos, false) == Some(SourceKind::Direct),
{
}

/// An error's message ends in its reason.
pub proof fn lemma_capture_messages(e: CaptureError)
    ensures
        match e {
            CaptureError::Unavailable(m) => closes(e.text(), ": "@ + m@),
            CaptureError::Privileges(m) => closes(e.text(), ": "@ + m@),
            CaptureError::Io(m) => closes(e.text(), ": "@ + m@),
        },
{
    reveal_strlit(": ");
    reveal_strlit("capture backend unavailable: ");
    reveal_strlit("insufficient privileges for capture: ");
    reveal_strlit("io: ");
    let m = match e {
        CaptureError::Unavailable(m) => m@,
        CaptureError::Privileges(m) => m@,
        CaptureError::Io(m) => m@,
    };
    let t = e.text();
    assert(t.skip(t.len() - m.len() - 2) =~= ": "@ + m);
}

/// The datalink type that is asked for is the first pktap one on offer, in either of its two
/// numbers.
pub proof fn lemma_first_pktap(offered: Seq<i32>, i: int)
    requires
        0 <= i,
    ensures
        match first_pktap(offered, i) {
            Some(d) => (d == 149 || d == 258) && exists|k: int|
                i <= k < offered.len() && #[trigger] offered[k] == d && forall|j: int|
                    i <= j < k ==> #[trigger] offered[j] != 149 && offered[j] != 258,
            None => forall|k: int|
                i <= k < offered.len() ==> #[trigger] offered[k] != 149 && offered[k] != 258,
        },
    decreases offered.len() - i,
{
    if i < offered.len() && !is_pktap(offered[i]) {
        lemma_first_pktap(offered, i + 1);
    }
}

/// How packets are framed under each datalink type.
pub proof fn lemma_framing()
    ensures
        framing(1) == Some(LinkType::Ethernet),
        framing(0) == Some(LinkType::Null) && framing(108) == Some(LinkType::Null),
        framing(12) == Some(LinkType::RawIp) && framing(14) == Some(LinkType::RawIp),
        framing(113) == Some(LinkType::LinuxSll),
        forall|d: int|
            d != 0 && d != 1 && d != 12 && d != 14 && d != 108 && d != 113 ==> (
            #[trigger] framing(d)) is None,
{
}

/// A field of 32 bits reads as two's complement.
pub proof fn lemma_signed(n: u32)
    ensures
        n <= 0x7fff_ffff ==> signed(n) == n,
        n > 0x7fff_ffff ==> signed(n) == n - 0x1_0000_0000 && signed(n) < 0,
{
}

/// What the short form of a header tells: its length in one byte, and the process by the two
/// numbers behind it.
pub proof fn lemma_short_header(data: Seq<u8>)
    requires
        data.len() >= 40,
        le32(data, 36) & 0x0008_0000 != 0,
    ensures
        header(data) == Some(
            HeaderView {
                length: data[0] as int,
                dlt: le16(data, 6) as int,
                pid: signed(le32(data, 28)),
                effective_pid: signed(le32(data, 32)),
            },
        ),
{
}

/// What the long form tells; a short one of those names no other process.
pub proof fn lemma_long_header(data: Seq<u8>)
    requires
        data.len() >= 40,
        le32(data, 36) & 0x0008_0000 == 0,
    ensures
        header(data) is Some <==> data.len() >= 56,
        header(data) matches Some(h) ==> h.length == le32(data, 0) && h.dlt == signed(le32(data, 8))
            && h.pid == signed(le32(data, 52)) && (data.len() >= 88 ==> h.effective_pid == signed(
            le32(data, 84),
        )) && (data.len() < 88 ==> h.effective_pid == 0),
{
}

/// A packet is attributed to the process of its header, and to the one that it was sent for
/// where there is one; a header that does not fit is no header.
pub proof fn lemma_attribution(data: Seq<u8>, h: HeaderView)
    requires
        header(data) == Some(h),
    ensures
        tapped(data) is Some <==> 0 < h.length <= data.len() && framing(h.dlt) is Some,
        tapped(data) matches Some(p) ==> {
            &&& Some(p.link) == framing(h.dlt)
            &&& 0 < h.pid <= 0x7fff_ffff ==> p.pid == h.pid
            &&& h.pid <= 0 ==> p.pid == 0
            &&& 0 < h.effective_pid <= 0x7fff_ffff ==> p.effective_pid == Some(
                h.effective_pid as u32,
            )
            &&& h.effective_pid <= 0 ==> p.effective_pid is None
            &&& p.frame == data.skip(h.length)
        },
        data.len() < 40 ==> tapped(data) is None,
{
}

/// A target is hit by its own packets and by those that are sent for it; without a target
/// every packet is.
pub proof fn lemma_hits(pids: Seq<u32>, p: TappedView)
    ensures
        pids.len() == 0 ==> is_hit(pids, p),
        pids.contains(p.pid) ==> is_hit(pids, p),
        p.effective_pid matches Some(e) ==> (pids.contains(e) ==> is_hit(pids, p)),
        pids.len() > 0 && !pids.contains(p.pid) && p.effective_pid is None ==> !is_hit(pids, p),
        pids.len() > 0 && !pids.contains(p.pid) ==> (p.effective_pid matches Some(e) ==> (
        !pids.contains(e) ==> !is_hit(pids, p))),
{
}

/// What is handed on is the packet without its pktap header; without one it is the packet as
/// it came.
pub proof fn lemma_handed_on(m: Monitor, data: Seq<u8>)
    ensures
        m.pktap ==> (m.handed_on(data) matches Some((frame, link)) ==> (tapped(data) matches Some(p)
            && frame == p.frame && link == p.link && is_hit(m.pids@, p))),
        m.pktap ==> (tapped(data) matches Some(p) ==> (is_hit(m.pids@, p) ==> m.handed_on(data)
            == Some((p.frame, p.link)))),
        m.pktap && tapped(data) is None ==> m.handed_on(data) is None,
        !m.pktap ==> (m.link matches Some(l) ==> m.handed_on(data) == Some((data, l))),
{
}

/// Silence is diagnosed after three seconds, once, while nothing matched.
pub proof fn lemma_diagnosis_is_due(m: Monitor, secs: u64)
    ensures
        m.is_due(secs) ==> secs >= 3 && m.pktap && !m.warned && m.matched == 0,
        m.pktap && !m.warned && m.matched == 0 && secs >= 3 ==> m.is_due(secs),
        counted(0) == 1,
        m.raw < u64::MAX ==> counted(m.raw) == m.raw + 1,
        counted(u64::MAX) == u64::MAX,
{
}

/// Children of children belong to the target, to any depth; without children only the target
/// itself does.
pub proof fn lemma_descendants(procs: Seq<(u32, Option<u32>)>, root: u32, a: int, b: int)
    requires
        0 <= a < procs.len(),
        0 <= b < procs.len(),
        procs[a].1 == Some(root),
        procs[b].1 == Some(procs[a].0),
    ensures
        takes(PidFilter { root_pid: root, include_children: true }, procs, procs[a].0),
        takes(PidFilter { root_pid: root, include_children: true }, procs, procs[b].0),
        forall|p: u32|
            takes(PidFilter { root_pid: root, include_children: false }, procs, p) <==> p == root,
{
    assert(descends(procs, root, root, 0));
    assert(descends(procs, root, procs[a].0, 1)) by {
        assert(procs[a].0 == procs[a].0 && descends(procs, root, procs[a].1->0, 0));
    }
    assert(descends(procs, root, procs[b].0, 2)) by {
        assert(procs[b].0 == procs[b].0 && descends(procs, root, procs[b].1->0, 1));
    }
}

/// A relay ends with the capture, with the client, and with a client that cannot be reached;
/// what a client sends is read and let be.
pub proof fn lemma_relay_ends(n: usize, e: CapturedEvent)
    ensures
        step(Seen::Captured(Some(e))) == Next::Send(e),
        step(Seen::Captured(None)) is Stop,
        step(Seen::Client(None)) is Stop,
        step(Seen::Client(Some(0))) is Stop,
        n > 0 ==> step(Seen::Client(Some(n))) is Wait,
        step(Seen::Sent(true)) is Wait,
        step(Seen::Sent(false)) is Stop,
{
}

/// A diagnosis tells how far packets came: that none arrive, how many cannot be told apart,
/// or how many belong to other processes.
pub proof fn lemma_diagnosis_tells_the_stage(m: Monitor)
    ensures
        m.raw == 0 ==> opens(m.diagnosis(), "Capture is open (pktap, datalink "@),
        m.raw > 0 && m.parsed == 0 ==> opens(
            m.diagnosis(),
            "Receiving packets ("@ + decimal(m.raw as nat) + ") but"@,
        ),
        m.raw > 0 && m.parsed > 0 ==> opens(
            m.diagnosis(),
            "Capturing, but none of the "@ + decimal(m.parsed as nat) + " attributed packets"@,
        ),
        m.dlt >= 0 ==> m.dlt_text() == decimal(m.dlt as nat),
        m.dlt < 0 ==> m.dlt_text() == "-"@ + decimal((-m.dlt) as nat),
{
    if m.raw == 0 {
        let head = "Capture is open (pktap, datalink "@;
        assert(m.diagnosis().take(head.len() as int) =~= head);
    } else if m.parsed == 0 {
        reveal_strlit(") but");
        reveal_strlit(") but their pktap headers aren't recognised (datalink ");
        let head = "Receiving packets ("@ + decimal(m.raw as nat) + ") but"@;
        assert(m.diagnosis().take(head.len() as int) =~= head);
    } else {
        reveal_strlit(" attributed packets");
        reveal_strlit(" attributed packets belong to the selected process. It may route traffic through a process outside the capture set — try selecting the parent process.");
        let head = "Capturing, but none of the "@ + decimal(m.parsed as nat) + " attributed packets"@;
        assert(m.diagnosis().take(head.len() as int) =~= head);
    }
}

/// The host-wide default comes last: at once where capturing per application is not wanted,
/// else after two devices have failed.
pub proof fn lemma_default_comes_last(o: Opening)
    ensures
        o.want_pktap ==> (o.at_default() <==> o.failed == 2) && (o.is_open() <==> o.failed <= 2),
        !o.want_pktap ==> (o.at_default() <==> o.failed == 0) && (o.is_open() <==> o.failed == 0),
        o.is_open() ==> (o.at_default() <==> tried_device(o.want_pktap, o.failed as nat).0 is None),
{
}

} // verus!
