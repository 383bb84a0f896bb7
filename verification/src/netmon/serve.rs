//! What a privileged capture helper does for a client: it takes the client's target,
//! captures, and relays what the capture yields until either side ends it.

use vstd::prelude::*;

use crate::netmon::source::{can_capture, capture_available, CaptureError, CapturedEvent, PidFilter};
use crate::vfs::Platform;

verus! {

/// What follows a client's first frame.
#[derive(Debug)]
pub enum Opened {
    /// Hang up.
    Close,
    /// Say this, then hang up.
    Say(CapturedEvent),
    /// Start to capture this target.
    Start(PidFilter),
}

/// Whether an event is a warning that reads `text`.
pub open spec fn warns(e: CapturedEvent, text: Seq<char>) -> bool {
    e matches CapturedEvent::Warning(w) && w@ == text
}

/// Decides on a client's first frame, which is to be its target; `None` stands for a frame
/// that did not come or could not be read.
pub fn open(host: Platform, frame: Option<PidFilter>) -> (r: Opened)
    ensures
        match (frame, r) {
            (None, Opened::Close) => true,
            (Some(_), Opened::Say(e)) => !can_capture(host) && warns(
                e,
                "capture helper only implemented on macOS"@,
            ),
            (Some(f), Opened::Start(target)) => can_capture(host) && target == f,
            _ => false,
        },
{
    match frame {
        None => Opened::Close,
        Some(f) => if capture_available(host) {
            Opened::Start(f)
        } else {
            Opened::Say(
                CapturedEvent::Warning("capture helper only implemented on macOS".to_owned()),
            )
        },
    }
}

/// What to tell a client whose capture did not start, before hanging up.
pub fn refuse(error: &CaptureError) -> (r: CapturedEvent)
    ensures
        warns(r, error.text()),
{
    CapturedEvent::Warning(error.message())
}

/// What a relay waits for, whichever comes first.
#[derive(Debug)]
pub enum Seen {
    /// What the capture yielded; `None` at its end.
    Captured(Option<CapturedEvent>),
    /// How many bytes the client sent; `None` where reading failed.
    Client(Option<usize>),
    /// Whether an event reached the client.
    Sent(bool),
}

/// What a relay does next.
#[derive(Debug)]
pub enum Next {
    /// Send this to the client.
    Send(CapturedEvent),
    /// Wait for what comes.
    Wait,
    /// Stop the capture and hang up.
    Stop,
}

/// The next step of a relay. A client closing its half to stop surfaces as the end of what
/// it sends; what it sends besides is ignored.
pub open spec fn step(seen: Seen) -> Next {
    match seen {
        Seen::Captured(Some(e)) => Next::Send(e),
        Seen::Captured(None) => Next::Stop,
        Seen::Client(Some(n)) => if n == 0 {
            Next::Stop
        } else {
            Next::Wait
        },
        Seen::Client(None) => Next::Stop,
        Seen::Sent(reached) => if reached {
            Next::Wait
        } else {
            Next::Stop
        },
    }
}

/// Decides what a relay does next.
pub fn relay(seen: Seen) -> (r: Next)
    ensures
        r == step(seen),
{
    match seen {
        Seen::Captured(Some(e)) => Next::Send(e),
        Seen::Captured(None) => Next::Stop,
        Seen::Client(Some(n)) => if n == 0 {
            Next::Stop
        } else {
            Next::Wait
        },
        Seen::Client(None) => Next::Stop,
        Seen::Sent(reached) => if reached {
            Next::Wait
        } else {
            Next::Stop
        },
    }
}

/// What a relay sends over all that it sees.
pub open spec fn relayed(seen: Seq<Seen>) -> Seq<CapturedEvent>
    decreases seen.len(),
{
    if seen.len() == 0 {
        Seq::empty()
    } else {
        match step(seen[0]) {
            Next::Send(e) => seq![e] + relayed(seen.skip(1)),
            Next::Wait => relayed(seen.skip(1)),
            Next::Stop => Seq::empty(),
        }
    }
}

/// What a capture yields over all that a relay sees.
pub open spec fn yielded(seen: Seq<Seen>) -> Seq<CapturedEvent>
    decreases seen.len(),
{
    if seen.len() == 0 {
        Seq::empty()
    } else {
        match seen[0] {
            Seen::Captured(Some(e)) => seq![e] + yielded(seen.skip(1)),
            _ => yielded(seen.skip(1)),
        }
    }
}

/// A relay adds nothing and skips nothing: what it sends starts what the capture yields,
/// and is all of it where nothing told the relay to stop.
pub proof fn lemma_relayed_is_yielded(seen: Seq<Seen>)
    ensures
        relayed(seen).is_prefix_of(yielded(seen)),
        (forall|i: int| 0 <= i < seen.len() ==> step(#[trigger] seen[i]) !is Stop) ==> relayed(seen)
            == yielded(seen),
    decreases seen.len(),
{
    if seen.len() > 0 {
        let rest = seen.skip(1);
        lemma_relayed_is_yielded(rest);
        assert(forall|i: int| 0 <= i < rest.len() ==> #[trigger] rest[i] == seen[i + 1]);
        if step(seen[0]) is Send {
            assert(relayed(seen).is_prefix_of(yielded(seen)));
        }
    }
}

} // verus!
