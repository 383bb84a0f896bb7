//! Decisions of a libpcap capture: which device to open, which packets belong to the
//! target, and what to report when none do.
//!
//! On macOS the `pktap` pseudo-interface carries the originating PID in its per-packet
//! header — giving passive per-app attribution with no Network Extension, at the cost of
//! needing capture privilege at runtime.

use vstd::prelude::*;

use crate::bytes::copy_of;
use crate::netmon::pktap::{parse_pktap, tapped, TappedView};
use crate::netmon::source::{CaptureError, CapturedEvent, LinkType};
use crate::num::{decimal, decimal_of};
use crate::text::{concat3, opt_text};
use crate::vfs::Platform;

verus! {

/// Direct capture through libpcap.
#[derive(Debug, Clone, Copy, PartialEq, Eq, Structural)]
pub struct PcapSource {
    /// macOS: capture via the `pktap` pseudo-interface (per-PID attribution).
    pub pktap: bool,
}

impl PcapSource {
    /// The source for a host. pktap tags each packet with its originating PID.
    pub fn new(host: Platform) -> (r: PcapSource)
        ensures
            r.pktap == (host == Platform::Macos),
    {
        match host {
            Platform::Macos => PcapSource { pktap: true },
            _ => PcapSource { pktap: false },
        }
    }

    /// Human name, for logs.
    pub fn backend_id(self) -> (r: &'static str)
        ensures
            r@ == if self.pktap {
                "macos-pktap"@
            } else {
                "pcap"@
            },
    {
        if self.pktap {
            "macos-pktap"
        } else {
            "pcap"
        }
    }
}

/// A device to try: its name, or the default one, and whether process metadata is wanted.
#[derive(Debug, Clone, Copy)]
pub struct Attempt {
    pub device: Option<&'static str>,
    pub pktap: bool,
}

/// What to do after an attempt to open a device.
#[derive(Debug)]
pub enum Step {
    /// Capture with it. `warning` tells of a fallback.
    Use { pktap: bool, warning: Option<String> },
    /// Try the next device.
    Next,
    /// Nothing could be opened.
    Fail(CaptureError),
}

/// The model of a [`Step`].
pub enum StepView {
    Use(bool, Option<Seq<char>>),
    Next,
    /// The backend is unavailable, for this reason.
    Fail(Seq<char>),
}

/// The model of a [`Step`].
pub open spec fn step_view(s: Step) -> StepView {
    match s {
        Step::Use { pktap, warning } => StepView::Use(pktap, opt_text(warning)),
        Step::Next => StepView::Next,
        Step::Fail(e) => StepView::Fail(
            match e {
                CaptureError::Unavailable(m) => m@,
                CaptureError::Privileges(m) => m@,
                CaptureError::Io(m) => m@,
            },
        ),
    }
}

/// The course of opening a capture. With pktap wanted, two spellings of the pktap device
/// are tried for per-app attribution. `pktap,all` taps **every** interface, crucially with
/// loopback and tunnels; bare `pktap` is for older libpcap that rejects the
/// multi-interface spec. If neither can be created (that needs root), the default
/// interface is, which only needs BPF access.
#[derive(Debug)]
pub struct Opening {
    pub want_pktap: bool,
    /// How many devices have failed.
    pub failed: usize,
    /// Why the first one failed.
    pub first_error: Option<String>,
}

/// How many devices there are to try.
pub open spec fn device_count(want_pktap: bool) -> nat {
    if want_pktap {
        3
    } else {
        1
    }
}

/// Guidance on privileges when capture can't start.
pub open spec fn privilege_text(error: Seq<char>) -> Seq<char> {
    "could not start capture: "@ + error
        + ". Packet capture needs elevated privileges (on macOS the per-app `pktap` interface requires root). Install the privileged capture helper and approve it in System Settings for the no-sudo path; otherwise run Achilles with sudo or grant BPF access."@
}

/// Guidance on privileges when capture can't start.
pub fn privilege_hint(error: &str) -> (r: String)
    ensures
        r@ == privilege_text(error@),
{
    concat3(
        "could not start capture: ",
        error,
        ". Packet capture needs elevated privileges (on macOS the per-app `pktap` interface requires root). Install the privileged capture helper and approve it in System Settings for the no-sudo path; otherwise run Achilles with sudo or grant BPF access.",
    )
}

/// The warning that attribution is lost.
pub open spec fn fallback_text(error: Option<Seq<char>>) -> Seq<char> {
    "per-app capture unavailable ("@ + (match error {
        Some(e) => e,
        None => "pktap unavailable"@,
    })
        + "); capturing host-wide on the default interface instead (no per-app filter). Grant capture privileges for per-application attribution."@
}

fn fallback_warning(error: &Option<String>) -> (r: String)
    ensures
        r@ == fallback_text(opt_text(*error)),
{
    let why = match error {
        Some(e) => e.as_str(),
        None => "pktap unavailable",
    };
    concat3(
        "per-app capture unavailable (",
        why,
        "); capturing host-wide on the default interface instead (no per-app filter). Grant capture privileges for per-application attribution.",
    )
}

/// The device that is tried after so many failures, and whether it is pktap's.
pub open spec fn tried_device(want_pktap: bool, failed: nat) -> (Option<Seq<char>>, bool) {
    if want_pktap && failed == 0 {
        (Some("pktap,all"@), true)
    } else if want_pktap && failed == 1 {
        (Some("pktap"@), true)
    } else {
        (None, false)
    }
}

/// What follows an attempt that was the last one or not, on one that is wanted per
/// application or not.
pub open spec fn step_after(
    want_pktap: bool,
    last: bool,
    first_error: Option<Seq<char>>,
    error: Option<Seq<char>>,
) -> StepView {
    match error {
        None => StepView::Use(
            !last,
            if last && want_pktap {
                Some(fallback_text(first_error))
            } else {
                None
            },
        ),
        Some(e) => if last {
            StepView::Fail(privilege_text(e))
        } else {
            StepView::Next
        },
    }
}

impl Opening {
    /// That a device is left to try.
    pub open spec fn is_open(self) -> bool {
        self.failed < device_count(self.want_pktap)
    }

    /// Whether the default interface is next.
    pub open spec fn at_default(self) -> bool {
        self.failed + 1 == device_count(self.want_pktap)
    }

    /// Nothing tried yet.
    pub fn new(want_pktap: bool) -> (r: Opening)
        ensures
            r.want_pktap == want_pktap,
            r.failed == 0,
            r.first_error is None,
            r.is_open(),
    {
        Opening { want_pktap, failed: 0, first_error: None }
    }

    /// The device to try next.
    pub fn attempt(&self) -> (r: Attempt)
        requires
            self.is_open(),
        ensures
            r.pktap == !self.at_default(),
            self.at_default() ==> r.device is None,
            !self.at_default() && self.failed == 0 ==> r.device is Some && r.device->0@
                == "pktap,all"@,
            !self.at_default() && self.failed == 1 ==> r.device is Some && r.device->0@
                == "pktap"@,
            tried_device(self.want_pktap, self.failed as nat) == (
                match r.device {
                    Some(d) => Some(d@),
                    None => None,
                },
                r.pktap,
            ),
    {
        if self.want_pktap && self.failed == 0 {
            Attempt { device: Some("pktap,all"), pktap: true }
        } else if self.want_pktap && self.failed == 1 {
            Attempt { device: Some("pktap"), pktap: true }
        } else {
            Attempt { device: None, pktap: false }
        }
    }

    /// Takes what came of the attempt: none where the device was opened, else the error. A
    /// total failure is an error, so that whoever asked can be told.
    pub fn outcome(&mut self, error: Option<String>) -> (r: Step)
        requires
            old(self).is_open(),
        ensures
            step_view(r) == step_after(
                old(self).want_pktap,
                old(self).at_default(),
                opt_text(old(self).first_error),
                opt_text(error),
            ),
            r matches Step::Fail(e) ==> e is Unavailable,
            r is Next ==> final(self).is_open() && final(self).failed == old(self).failed + 1
                && opt_text(final(self).first_error) == match old(self).first_error {
                Some(e) => Some(e@),
                None => opt_text(error),
            },
            final(self).want_pktap == old(self).want_pktap,
    {
        let last = !self.want_pktap || self.failed >= 2;
        match error {
            None => {
                if last && self.want_pktap {
                    Step::Use { pktap: false, warning: Some(fallback_warning(&self.first_error)) }
                } else {
                    Step::Use { pktap: !last, warning: None }
                }
            },
            Some(e) => {
                if last {
                    return Step::Fail(CaptureError::Unavailable(privilege_hint(e.as_str())));
                }
                if self.first_error.is_none() {
                    self.first_error = Some(e);
                }
                self.failed = self.failed + 1;
                Step::Next
            },
        }
    }
}

/// Whether a datalink type is pktap's: the on-the-wire value that the system libpcap
/// reports, or the portable one.
pub open spec fn is_pktap(dlt: i32) -> bool {
    dlt == 149 || dlt == 258
}

/// The first pktap datalink type among those on offer from the `i`-th on.
pub open spec fn first_pktap(offered: Seq<i32>, i: int) -> Option<i32>
    decreases offered.len() - i,
{
    if i < 0 || i >= offered.len() {
        None
    } else if is_pktap(offered[i]) {
        Some(offered[i])
    } else {
        first_pktap(offered, i + 1)
    }
}

/// The datalink type to select so that every packet is prefixed with the process header;
/// none where it isn't offered.
pub fn choose_datalink(offered: &Vec<i32>) -> (r: Option<i32>)
    ensures
        r == first_pktap(offered@, 0),
{
    let mut i: usize = 0;
    while i < offered.len()
        invariant
            i <= offered@.len(),
            first_pktap(offered@, 0) == first_pktap(offered@, i as int),
        decreases offered.len() - i,
    {
        if offered[i] == 149 || offered[i] == 258 {
            return Some(offered[i]);
        }
        i = i + 1;
    }
    None
}

/// How long to wait before reporting that nothing was attributed, in seconds.
pub const GRACE_SECS: u64 = 3;

/// What a poll of the capture gave.
#[derive(Debug)]
pub enum Poll<'a> {
    /// A packet, taken at this time.
    Packet(&'a [u8], u64),
    /// No packet available right now.
    Idle,
    /// The capture failed.
    Failed,
}

/// What to do before the capture is polled.
#[derive(Debug)]
pub enum Before {
    /// Stop.
    Stop,
    /// Report the warning, where there is one, and poll.
    Go(Option<String>),
}

/// What to do after the capture was polled.
#[derive(Debug)]
pub enum After {
    /// Hand the event on, and go round.
    Send(CapturedEvent),
    /// Go round.
    Again,
    /// Sleep briefly, then go round.
    Wait,
    /// Stop.
    Stop,
}

/// The model of an event that a monitor hands on: bytes, framing and time.
pub open spec fn packet_view(e: CapturedEvent) -> Option<(Seq<u8>, LinkType, u64)> {
    match e {
        CapturedEvent::Packet { data, link, at } => Some((data@, link, at)),
        _ => None,
    }
}

/// A running capture's bookkeeping. Three stages, so that they can be told apart: `raw` =
/// packets libpcap delivered, `parsed` = pktap headers understood, `matched` = attributed
/// to the target. The counts stay at the largest one that can be held.
#[derive(Debug)]
pub struct Monitor {
    pub pktap: bool,
    /// The datalink type of the capture.
    pub dlt: i32,
    /// The framing of its packets, where they come without a pktap header.
    pub link: Option<LinkType>,
    /// The target; empty for every process.
    pub pids: Vec<u32>,
    pub raw: u64,
    pub parsed: u64,
    pub matched: u64,
    pub warned: bool,
}

/// A count with one more.
pub open spec fn counted(n: u64) -> u64 {
    if n == u64::MAX {
        n
    } else {
        (n + 1) as u64
    }
}

fn count(n: u64) -> (r: u64)
    ensures
        r == counted(n),
{
    if n == u64::MAX {
        n
    } else {
        n + 1
    }
}

/// Whether a packet belongs to the target: by its originating PID or by the effective one,
/// which catches traffic a process does on another's behalf.
pub open spec fn is_hit(pids: Seq<u32>, p: TappedView) -> bool {
    pids.len() == 0 || pids.contains(p.pid) || (p.effective_pid matches Some(e) && pids.contains(e))
}

fn holds_pid(pids: &Vec<u32>, pid: u32) -> (r: bool)
    ensures
        r == pids@.contains(pid),
{
    let mut i: usize = 0;
    while i < pids.len()
        invariant
            i <= pids@.len(),
            forall|k: int| 0 <= k < i ==> pids@[k] != pid,
        decreases pids.len() - i,
    {
        if pids[i] == pid {
            assert(pids@[i as int] == pid);
            return true;
        }
        i = i + 1;
    }
    false
}

impl Monitor {
    /// That no stage counts more than the one before it.
    pub open spec fn staged(self) -> bool {
        self.matched <= self.parsed <= self.raw
    }

    /// A capture that starts. A link type that is skipped yields nothing.
    pub fn new(pktap: bool, dlt: i32, link: Option<LinkType>, pids: Vec<u32>) -> (r: Monitor)
        ensures
            r.pktap == pktap && r.dlt == dlt && r.link == link && r.pids@ == pids@,
            r.raw == 0 && r.parsed == 0 && r.matched == 0 && !r.warned,
            r.staged(),
    {
        Monitor { pktap, dlt, link, pids, raw: 0, parsed: 0, matched: 0, warned: false }
    }

    /// Whether a BPF prefilter is to be set. It helps on normal link types; pktap frames
    /// carry a header the filter can't parse.
    pub fn wants_prefilter(&self) -> (r: bool)
        ensures
            r == !self.pktap,
    {
        !self.pktap
    }

    /// Whether it is time to say that nothing was attributed.
    pub open spec fn is_due(self, elapsed_secs: u64) -> bool {
        self.pktap && !self.warned && self.matched == 0 && elapsed_secs >= GRACE_SECS
    }

    /// The datalink type, in decimal.
    pub open spec fn dlt_text(self) -> Seq<char> {
        if self.dlt >= 0 {
            decimal(self.dlt as nat)
        } else {
            "-"@ + decimal((-self.dlt) as nat)
        }
    }

    /// What to report when nothing was attributed: the furthest stage reached — the three
    /// cases have very different causes.
    pub open spec fn diagnosis(self) -> Seq<char> {
        if self.raw == 0 {
            "Capture is open (pktap, datalink "@ + self.dlt_text()
                + ") but no packets are arriving. Generate traffic in the target app; if still nothing, the pktap interface may not be delivering on this macOS version."@
        } else if self.parsed == 0 {
            "Receiving packets ("@ + decimal(self.raw as nat)
                + ") but their pktap headers aren't recognised (datalink "@ + self.dlt_text()
                + "). The capture header format may differ on this macOS version."@
        } else {
            "Capturing, but none of the "@ + decimal(self.parsed as nat)
                + " attributed packets belong to the selected process. It may route traffic through a process outside the capture set — try selecting the parent process."@
        }
    }

    fn dlt_text_of(&self) -> (r: String)
        ensures
            r@ == self.dlt_text(),
    {
        if self.dlt >= 0 {
            decimal_of(self.dlt as u64)
        } else {
            let wide: i64 = self.dlt as i64;
            let mut s: String = "-".to_owned();
            s.append(decimal_of((-wide) as u64).as_str());
            s
        }
    }

    fn diagnosis_of(&self) -> (r: String)
        ensures
            r@ == self.diagnosis(),
    {
        if self.raw == 0 {
            concat3(
                "Capture is open (pktap, datalink ",
                self.dlt_text_of().as_str(),
                ") but no packets are arriving. Generate traffic in the target app; if still nothing, the pktap interface may not be delivering on this macOS version.",
            )
        } else if self.parsed == 0 {
            let mut s = concat3(
                "Receiving packets (",
                decimal_of(self.raw).as_str(),
                ") but their pktap headers aren't recognised (datalink ",
            );
            s.append(self.dlt_text_of().as_str());
            s.append("). The capture header format may differ on this macOS version.");
            s
        } else {
            concat3(
                "Capturing, but none of the ",
                decimal_of(self.parsed).as_str(),
                " attributed packets belong to the selected process. It may route traffic through a process outside the capture set — try selecting the parent process.",
            )
        }
    }

    /// What to do before the capture is polled: stop where nobody listens any more, else
    /// report once, after a grace period, that nothing was attributed.
    pub fn before_poll(&mut self, stopped: bool, elapsed_secs: u64) -> (r: Before)
        ensures
            match r {
                Before::Stop => stopped,
                Before::Go(warning) => !stopped && opt_text(warning) == if old(self).is_due(
                    elapsed_secs,
                ) {
                    Some(old(self).diagnosis())
                } else {
                    None
                },
            },
            final(self).warned == (old(self).warned || (!stopped && old(self).is_due(
                elapsed_secs,
            ))),
            *final(self) == (Monitor { warned: final(self).warned, ..*old(self) }),
    {
        if stopped {
            return Before::Stop;
        }
        if self.pktap && !self.warned && self.matched == 0 && elapsed_secs >= GRACE_SECS {
            let message = self.diagnosis_of();
            self.warned = true;
            return Before::Go(Some(message));
        }
        Before::Go(None)
    }

    /// The packet that is handed on for what the capture gave; none where it belongs to
    /// another process, or cannot be read.
    pub open spec fn handed_on(self, data: Seq<u8>) -> Option<(Seq<u8>, LinkType)> {
        if self.pktap {
            match tapped(data) {
                Some(p) if is_hit(self.pids@, p) => Some((p.frame, p.link)),
                _ => None,
            }
        } else {
            match self.link {
                Some(l) => Some((data, l)),
                None => None,
            }
        }
    }

    /// What to do after the capture was polled.
    pub fn after_poll(&mut self, polled: Poll<'_>) -> (r: After)
        requires
            old(self).staged(),
        ensures
            final(self).staged(),
            final(self).pids@ == old(self).pids@,
            final(self).pktap == old(self).pktap,
            final(self).dlt == old(self).dlt,
            final(self).link == old(self).link,
            final(self).warned == old(self).warned,
            match polled {
                Poll::Packet(data, at) => {
                    &&& match r {
                        After::Send(e) => match old(self).handed_on(data@) {
                            Some((frame, link)) => packet_view(e) == Some((frame, link, at)),
                            None => false,
                        },
                        After::Again => old(self).handed_on(data@) is None,
                        _ => false,
                    }
                    &&& final(self).raw == if old(self).pktap {
                        counted(old(self).raw)
                    } else {
                        old(self).raw
                    }
                    &&& final(self).parsed == if old(self).pktap && tapped(data@) is Some {
                        counted(old(self).parsed)
                    } else {
                        old(self).parsed
                    }
                    &&& final(self).matched == if old(self).pktap && old(self).handed_on(
                        data@,
                    ) is Some {
                        counted(old(self).matched)
                    } else {
                        old(self).matched
                    }
                },
                Poll::Idle => r is Wait && *final(self) == *old(self),
                Poll::Failed => r is Stop && *final(self) == *old(self),
            },
    {
        let (data, at) = match polled {
            Poll::Packet(data, at) => (data, at),
            Poll::Idle => {
                return After::Wait;
            },
            Poll::Failed => {
                return After::Stop;
            },
        };
        if !self.pktap {
            return match self.link {
                Some(l) => After::Send(
                    CapturedEvent::Packet { data: copy_of(data), link: l, at },
                ),
                None => After::Again,
            };
        }
        self.raw = count(self.raw);
        match parse_pktap(data) {
            Some((pid, effective, link, frame)) => {
                self.parsed = count(self.parsed);
                let by_effective = match effective {
                    Some(e) => holds_pid(&self.pids, e),
                    None => false,
                };
                if self.pids.len() == 0 || holds_pid(&self.pids, pid) || by_effective {
                    self.matched = count(self.matched);
                    return After::Send(CapturedEvent::Packet { data: copy_of(frame), link, at });
                }
                After::Again
            },
            None => After::Again,
        }
    }
}

/// A session is warned at most once, and never after something was attributed.
pub proof fn lemma_warned_once(m: Monitor, elapsed_secs: u64)
    requires
        m.warned || m.matched > 0 || !m.pktap,
    ensures
        !m.is_due(elapsed_secs),
{
}

/// With a target and pktap, no packet of another process is handed on.
pub proof fn lemma_only_the_target(m: Monitor, data: Seq<u8>)
    requires
        m.pktap,
        m.pids@.len() > 0,
        m.handed_on(data) is Some,
    ensures
        tapped(data) is Some,
        m.pids@.contains(tapped(data)->0.pid) || (tapped(data)->0.effective_pid matches Some(e)
            && m.pids@.contains(e)),
{
}

} // verus!
