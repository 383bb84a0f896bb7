//! Attribution of captured packets to a process, and the course of a capture.

use achilles::netmon::capture::{
    choose_datalink, privilege_hint, After, Before, Monitor, Opening, PcapSource, Poll, Step,
};
use achilles::netmon::pktap::{map_datalink, parse_pktap, PTH_FLAG_V2_HDR};
use achilles::netmon::process::{collect_pids, list_processes, RunningProcess};
use achilles::netmon::serve::{open, refuse, relay, Next, Opened, Seen};
use achilles::netmon::source::{
    capture_available, default_source, CaptureError, CapturedEvent, LinkType, PidFilter, SourceKind,
};
use achilles::vfs::Platform;

fn put_u32(buf: &mut [u8], off: usize, v: u32) {
    buf[off..off + 4].copy_from_slice(&v.to_le_bytes());
}

fn put_u16(buf: &mut [u8], off: usize, v: u16) {
    buf[off..off + 2].copy_from_slice(&v.to_le_bytes());
}

#[test]
fn parses_v1_header() {
    let mut buf = vec![0u8; 108];
    put_u32(&mut buf, 0, 108); // pth_length
    put_u32(&mut buf, 8, 1); // pth_dlt = DLT_EN10MB
    put_u32(&mut buf, 36, 0); // pth_flags: v2 bit clear
    put_u32(&mut buf, 52, 4321); // pth_pid
    put_u32(&mut buf, 84, 8765); // pth_epid
    buf.extend_from_slice(b"INNERFRAME");

    let (pid, epid, link, inner) = parse_pktap(&buf).expect("v1 parse");
    assert_eq!(pid, 4321);
    assert_eq!(epid, Some(8765));
    assert_eq!(link, LinkType::Ethernet);
    assert_eq!(inner, b"INNERFRAME");
}

#[test]
fn parses_v2_header() {
    // Recent macOS: compact v2 header with the length/DLT/pid at their own
    // offsets and the v2 flag set. This is the case the old parser dropped.
    let hdr_len = 44usize;
    let mut buf = vec![0u8; hdr_len];
    buf[0] = hdr_len as u8; // pth_length (u8)
    put_u16(&mut buf, 6, 0); // pth_dlt = DLT_NULL (loopback)
    put_u32(&mut buf, 28, 4321); // pth_pid
    put_u32(&mut buf, 32, 8765); // pth_e_pid
    put_u32(&mut buf, 36, PTH_FLAG_V2_HDR); // pth_flags with v2 bit
    buf.extend_from_slice(b"INNERFRAME");

    let (pid, epid, link, inner) = parse_pktap(&buf).expect("v2 parse");
    assert_eq!(pid, 4321);
    assert_eq!(epid, Some(8765));
    assert_eq!(link, LinkType::Null); // loopback decodes now, too
    assert_eq!(inner, b"INNERFRAME");
}

#[test]
fn v2_header_is_not_dropped_like_before() {
    // A v2 header read with the v1 u32 length @0 gives a bogus length and would
    // be dropped. Detecting v2 first must keep it.
    let hdr_len = 44usize;
    let mut buf = vec![0u8; hdr_len];
    buf[0] = hdr_len as u8;
    put_u16(&mut buf, 6, 1); // Ethernet
    put_u32(&mut buf, 28, 42);
    put_u32(&mut buf, 36, PTH_FLAG_V2_HDR);
    buf.extend_from_slice(b"x");
    assert!(parse_pktap(&buf).is_some());
}

#[test]
fn unset_effective_pid_is_none() {
    let mut buf = vec![0u8; 108];
    put_u32(&mut buf, 0, 108);
    put_u32(&mut buf, 8, 1);
    put_u32(&mut buf, 52, 100);
    // pth_epid left 0 → None
    buf.extend_from_slice(b"f");
    let (_, epid, _, _) = parse_pktap(&buf).expect("parse");
    assert_eq!(epid, None);
}

#[test]
fn a_header_past_the_end_is_refused() {
    let mut buf = vec![0u8; 60];
    put_u32(&mut buf, 0, 61);
    put_u32(&mut buf, 8, 1);
    assert!(parse_pktap(&buf).is_none());
    assert!(parse_pktap(&[]).is_none());
}

#[test]
fn datalinks_map_to_framings() {
    assert_eq!(map_datalink(1), Some(LinkType::Ethernet));
    assert_eq!(map_datalink(0), Some(LinkType::Null));
    assert_eq!(map_datalink(113), Some(LinkType::LinuxSll));
    assert_eq!(map_datalink(-5), None);
}

/// A version 1 header of this process, and a one-byte frame.
fn tapped(pid: u32) -> Vec<u8> {
    let mut buf = vec![0u8; 108];
    put_u32(&mut buf, 0, 108);
    put_u32(&mut buf, 8, 1);
    put_u32(&mut buf, 52, pid);
    buf.push(7);
    buf
}

#[test]
fn only_the_target_is_handed_on() {
    let mut m = Monitor::new(true, 149, None, vec![10, 11]);
    assert!(!m.wants_prefilter());
    let mine = tapped(11);
    match m.after_poll(Poll::Packet(&mine, 5)) {
        After::Send(CapturedEvent::Packet { data, link, at }) => {
            assert_eq!(data, vec![7]);
            assert_eq!(link, LinkType::Ethernet);
            assert_eq!(at, 5);
        }
        _ => panic!("a packet of the target"),
    }
    let other = tapped(12);
    assert!(matches!(m.after_poll(Poll::Packet(&other, 6)), After::Again));
    assert!(matches!(m.after_poll(Poll::Idle), After::Wait));
    assert!(matches!(m.after_poll(Poll::Failed), After::Stop));
    assert_eq!((m.raw, m.parsed, m.matched), (2, 2, 1));
}

#[test]
fn a_silent_capture_is_diagnosed_once() {
    let mut m = Monitor::new(true, 149, None, vec![10]);
    assert!(matches!(m.before_poll(false, 2), Before::Go(None)));
    match m.before_poll(false, 3) {
        Before::Go(Some(w)) => assert!(w.starts_with("Capture is open (pktap, datalink 149)")),
        _ => panic!("a warning is due"),
    }
    assert!(matches!(m.before_poll(false, 4), Before::Go(None)));
    assert!(matches!(m.before_poll(true, 5), Before::Stop));

    let mut m = Monitor::new(true, 149, None, vec![10]);
    let other = tapped(12);
    m.after_poll(Poll::Packet(&other, 0));
    match m.before_poll(false, 9) {
        Before::Go(Some(w)) => assert!(w.contains("none of the 1 attributed packets")),
        _ => panic!("a warning is due"),
    }
}

#[test]
fn a_plain_capture_hands_everything_on() {
    let mut m = Monitor::new(false, 1, Some(LinkType::Ethernet), vec![]);
    assert!(m.wants_prefilter());
    assert!(matches!(
        m.after_poll(Poll::Packet(&[1, 2], 3)),
        After::Send(CapturedEvent::Packet {
            link: LinkType::Ethernet,
            ..
        })
    ));
}

#[test]
fn opening_falls_back_to_the_default_interface() {
    let mut o = Opening::new(true);
    assert_eq!(o.attempt().device, Some("pktap,all"));
    assert!(matches!(o.outcome(Some("denied".into())), Step::Next));
    assert_eq!(o.attempt().device, Some("pktap"));
    assert!(matches!(o.outcome(Some("denied again".into())), Step::Next));
    assert_eq!(o.attempt().device, None);
    match o.outcome(None) {
        Step::Use { pktap, warning } => {
            assert!(!pktap);
            assert!(warning.unwrap().contains("denied"));
        }
        _ => panic!("the default interface opened"),
    }
}

#[test]
fn a_capture_that_cannot_be_opened_fails() {
    let mut o = Opening::new(false);
    match o.outcome(Some("no device".into())) {
        Step::Fail(e) => assert!(e.message().contains("no device")),
        _ => panic!("nothing else is left to try"),
    }
    assert!(privilege_hint("EPERM").contains("EPERM"));
}

#[test]
fn pktap_is_chosen_among_the_offered_datalinks() {
    assert_eq!(choose_datalink(&vec![1, 149]), Some(149));
    assert_eq!(choose_datalink(&vec![1, 113]), None);
}

#[test]
fn sources_depend_on_the_host() {
    assert!(capture_available(Platform::Macos));
    assert!(!capture_available(Platform::Linux));
    assert!(matches!(
        default_source(Platform::Macos, true),
        Ok(SourceKind::Helper)
    ));
    assert!(matches!(
        default_source(Platform::Windows, false),
        Err(CaptureError::Unavailable(_))
    ));
    assert_eq!(PcapSource::new(Platform::Macos).backend_id(), "macos-pktap");
    assert_eq!(PcapSource::new(Platform::Linux).backend_id(), "pcap");
    assert_eq!(CaptureError::Io("x".into()).message(), "io: x");
    assert_eq!(
        CaptureError::Privileges("x".into()).message(),
        "insufficient privileges for capture: x"
    );
}

#[test]
fn a_family_is_everyone_below_the_root() {
    // 1 ← 2 ← 3, and 4 on its own.
    let procs = vec![(3, Some(2)), (1, None), (2, Some(1)), (4, None)];
    let mut got = collect_pids(
        PidFilter {
            root_pid: 1,
            include_children: true,
        },
        &procs,
    );
    got.sort();
    assert_eq!(got, vec![1, 2, 3]);
    assert_eq!(
        collect_pids(
            PidFilter {
                root_pid: 1,
                include_children: false,
            },
            &procs,
        ),
        vec![1]
    );
}

#[test]
fn processes_are_listed_by_name_whatever_the_case() {
    let p = |pid: u32, name: &str| RunningProcess {
        pid,
        name: name.into(),
        exe_path: None,
    };
    let listed = list_processes(&vec![p(3, "zsh"), p(2, "Änderung"), p(1, "Bash"), p(4, "änderung")]);
    let pids: Vec<u32> = listed.iter().map(|p| p.pid).collect();
    assert_eq!(pids, vec![1, 3, 2, 4]);
}

#[test]
fn a_helper_starts_what_the_client_asks_for() {
    let filter = PidFilter {
        root_pid: 7,
        include_children: true,
    };
    assert!(matches!(open(Platform::Macos, None), Opened::Close));
    assert!(matches!(open(Platform::Macos, Some(filter)), Opened::Start(f) if f == filter));
    match open(Platform::Linux, Some(filter)) {
        Opened::Say(CapturedEvent::Warning(w)) => {
            assert_eq!(w, "capture helper only implemented on macOS")
        }
        other => panic!("{other:?}"),
    }
    match refuse(&CaptureError::Io("gone".into())) {
        CapturedEvent::Warning(w) => assert_eq!(w, "io: gone"),
        other => panic!("{other:?}"),
    }
}

#[test]
fn a_helper_relays_until_either_side_ends() {
    let event = CapturedEvent::Packet {
        data: vec![1, 2],
        link: LinkType::RawIp,
        at: 3,
    };
    match relay(Seen::Captured(Some(event))) {
        Next::Send(CapturedEvent::Packet { data, link, at }) => {
            assert_eq!((data, link, at), (vec![1, 2], LinkType::RawIp, 3))
        }
        other => panic!("{other:?}"),
    }
    assert!(matches!(relay(Seen::Sent(true)), Next::Wait));
    assert!(matches!(relay(Seen::Sent(false)), Next::Stop));
    assert!(matches!(relay(Seen::Client(Some(1))), Next::Wait));
    assert!(matches!(relay(Seen::Client(Some(0))), Next::Stop));
    assert!(matches!(relay(Seen::Client(None)), Next::Stop));
    assert!(matches!(relay(Seen::Captured(None)), Next::Stop));
}
