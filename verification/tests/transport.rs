use std::cell::RefCell;

use brxon::base64_bytes::{decode, encode};
use brxon::build_filter::sign_filter;
use brxon::delta::DeltaEngine;
use brxon::signing::{public_key_of, SignedDelta, SignedPayload};
use brxon::state::{BrxonState, SecurityGuard};
use brxon::transport::{
    is_success, latest_url, next_event, on_fetch, process_sse_buffer, update_data, updates_url,
    Backoff, FetchAction, FetchEvent, FullFilterResponse, StreamAction, StreamEvent, StreamSession,
};

const SECRET: [u8; 32] = [5; 32];

fn engine() -> DeltaEngine {
    let key = public_key_of(&SECRET);
    let mut state = BrxonState::new(key, "https://s".to_string(), 2, 3);
    state.filter.version = 1;
    DeltaEngine::new(state)
}

fn delta(bytes: &[u8], from_version: u64) -> SignedDelta {
    let to_version = from_version + 1;
    let (sha256, signature) = sign_filter(bytes, to_version, &SECRET);
    let inner =
        SignedPayload { payload_bytes: bytes.to_vec(), sha256, signature, version: to_version };
    SignedDelta { inner, from_version, to_version }
}

/// Reads `<from version>:<bytes>`, with a `!` behind a delta to be forged.
fn parse(text: String) -> Option<SignedDelta> {
    let (from, bytes) = text.split_once(':')?;
    let forged = bytes.ends_with('!');
    let mut d = delta(bytes.trim_end_matches('!').as_bytes(), from.parse().ok()?);
    if forged {
        d.inner.sha256 = String::new();
    }
    Some(d)
}

#[test]
fn events_are_taken_off_in_order() {
    let mut buffer = "a\nb\n\nc\n\n\nd".to_string();
    assert_eq!(next_event(&mut buffer), Some("a\nb".to_string()));
    assert_eq!(next_event(&mut buffer), Some("c".to_string()));
    assert_eq!(buffer, "\nd");
    assert_eq!(next_event(&mut buffer), None);
    assert_eq!(buffer, "\nd");
    let mut buffer = "\n\n".to_string();
    assert_eq!(next_event(&mut buffer), Some(String::new()));
    assert_eq!(buffer, "");
}

#[test]
fn update_events_are_recognised() {
    let data = |event| update_data(event);
    assert_eq!(data("event: filter_update\ndata: {}"), Some("{}".to_string()));
    assert_eq!(data("data:  x y \r\nevent: \tfilter_update \r"), Some("x y".to_string()));
    assert_eq!(data("event: filter_update\ndata: 1\ndata: 2"), Some("2".to_string()));
    assert_eq!(data("event: other\nevent: filter_update\ndata: 1"), Some("1".to_string()));
    assert_eq!(data("event: filter_update\nevent: other\ndata: 1"), None);
    assert_eq!(data("event: heartbeat\ndata: 1"), None);
    assert_eq!(data("event: filter_update"), None);
    assert_eq!(data("event: filter_update\ndata:   "), None);
    assert_eq!(data("event:filter_update\ndata: 1"), None);
    assert_eq!(data("event: filter_update\n data: 1"), None);
    assert_eq!(data(""), None);
}

#[test]
fn complete_events_are_processed_and_the_rest_is_kept() {
    let mut e = engine();
    let seen = RefCell::new(Vec::new());
    let recording = |text: String| {
        seen.borrow_mut().push(text.clone());
        parse(text)
    };
    let mut buffer = "event: filter_update\ndata: 1:ab\n\n\
                      event: heartbeat\ndata: 2:zz\n\n\
                      event: filter_update\ndata: nonsense\n\n\
                      event: filter_update\ndata: 2:cd\n\n\
                      event: filter_up"
        .to_string();
    process_sse_buffer(&mut e, &mut buffer, &recording);
    assert_eq!(buffer, "event: filter_up");
    assert_eq!(*seen.borrow(), ["1:ab", "nonsense", "2:cd"]);
    assert_eq!(e.state.filter.version, 3);
    assert_eq!(e.state.filter.current, [b'a' ^ b'c', b'b' ^ b'd']);
    assert_eq!(e.state.filter.previous, *b"ab");
}

#[test]
fn a_frozen_engine_stops_the_processing() {
    let mut e = engine();
    let mut buffer = "event: filter_update\ndata: 1:ab!\n\n\
                      event: heartbeat\n\n\
                      event: filter_update\ndata: 0:ab\n\n\
                      event: filter_update\ndata: 0:cd\n\n"
        .to_string();
    process_sse_buffer(&mut e, &mut buffer, &parse);
    // The forged delta freezes; the next delta meets the frozen engine and ends
    // the processing, with what follows it left over.
    assert!(!e.state.guard.is_active());
    assert_eq!((&e.state.filter.current[..], e.state.filter.version), (&[0, 0][..], 0));
    assert_eq!(buffer, "event: filter_update\ndata: 0:cd\n\n");
}

#[test]
fn a_gap_in_the_versions_freezes_the_stream() {
    let mut e = engine();
    let mut buffer = "event: filter_update\ndata: 7:ab\n\n\
                      event: filter_update\ndata: 1:ab\n\nrest"
        .to_string();
    process_sse_buffer(&mut e, &mut buffer, &parse);
    assert!(!e.state.guard.is_active());
    assert_eq!(e.state.filter.version, 0);
    assert_eq!(buffer, "rest");
}

#[test]
fn heartbeats_after_a_forged_delta_may_come_in_any_chunk() {
    let text = "event: filter_update\ndata: 1:ab!\n\nevent: heartbeat\n\nevent: heartbeat\n\nrest";
    for at in 0..=text.len() {
        let mut e = engine();
        let mut buffer = text[..at].to_string();
        process_sse_buffer(&mut e, &mut buffer, &parse);
        buffer.push_str(&text[at..]);
        process_sse_buffer(&mut e, &mut buffer, &parse);
        assert_eq!(buffer, "rest");
        assert!(!e.state.guard.is_active());
    }
}

#[test]
fn a_frozen_engine_is_not_changed_by_the_stream() {
    let mut e = engine();
    e.state.guard = SecurityGuard::Frozen { reason: "r".to_string() };
    let mut buffer = "event: filter_update\ndata: 1:ab\n\nevent: filter_update\ndata: 1:cd!\n\n".to_string();
    for _ in 0..3 {
        process_sse_buffer(&mut e, &mut buffer, &parse);
        assert_eq!((&e.state.filter.current[..], e.state.filter.version), (&[0, 0][..], 1));
        assert_eq!(e.state.guard, SecurityGuard::Frozen { reason: "r".to_string() });
    }
    assert_eq!(buffer, "");
}

#[test]
fn chunk_boundaries_do_not_matter() {
    let text = "event: filter_update\ndata: 1:ab\n\nevent: filter_update\ndata: 2:cd\n\nrest";
    for at in 0..=text.len() {
        let mut e = engine();
        let mut buffer = text[..at].to_string();
        process_sse_buffer(&mut e, &mut buffer, &parse);
        buffer.push_str(&text[at..]);
        process_sse_buffer(&mut e, &mut buffer, &parse);
        assert_eq!(buffer, "rest");
        assert_eq!(e.state.filter.version, 3);
        assert_eq!(e.state.filter.current, [b'a' ^ b'c', b'b' ^ b'd']);
    }
}

#[test]
fn a_session_follows_the_stream() {
    let mut e = engine();
    let mut s = StreamSession::new();
    let mut on = |e: &mut DeltaEngine, s: &mut StreamSession, event| s.on_event(e, event, &parse);
    assert_eq!(on(&mut e, &mut s, StreamEvent::ConnectFailed), StreamAction::ReconnectAfter(3));
    assert_eq!(on(&mut e, &mut s, StreamEvent::Refused), StreamAction::ReconnectAfter(6));
    assert_eq!(on(&mut e, &mut s, StreamEvent::Connected), StreamAction::Read);
    let chunk = |bytes: &[u8]| StreamEvent::Chunk(bytes.to_vec());
    assert_eq!(on(&mut e, &mut s, chunk(b"event: filter_upda")), StreamAction::Read);
    assert_eq!(s.buffer, "event: filter_upda");
    assert_eq!(on(&mut e, &mut s, chunk(&[b'x', 0xff])), StreamAction::Read);
    assert_eq!(s.buffer, "event: filter_upda");
    assert_eq!(
        on(&mut e, &mut s, chunk("te\ndata: 1:ab\n\nä".as_bytes())),
        StreamAction::Read
    );
    assert_eq!(s.buffer, "ä");
    assert_eq!(e.state.filter.version, 2);
    assert_eq!(on(&mut e, &mut s, StreamEvent::Ended), StreamAction::ReconnectAfter(3));
    assert_eq!(on(&mut e, &mut s, StreamEvent::Ended), StreamAction::ReconnectAfter(6));
    assert_eq!(on(&mut e, &mut s, StreamEvent::Connected), StreamAction::Read);
    assert_eq!(s.buffer, "");
    assert_eq!(e.state.filter.version, 2);
}

#[test]
fn waits_double_up_to_a_limit() {
    let mut b = Backoff::for_fetch();
    let waits: Vec<u64> = (0..9).map(|_| b.wait()).collect();
    assert_eq!(waits, [5, 10, 20, 40, 80, 160, 300, 300, 300]);
    let mut b = Backoff::for_stream();
    let waits: Vec<u64> = (0..9).map(|_| b.wait()).collect();
    assert_eq!(waits, [3, 6, 12, 24, 48, 96, 192, 300, 300]);
}

#[test]
fn a_complete_filter_is_fetched_until_one_is_good() {
    let mut e = engine();
    let mut b = Backoff::for_fetch();
    let answer = |bytes: &[u8], version: u64| {
        let (sha256, signature) = sign_filter(bytes, version, &SECRET);
        let filter_bytes = bytes.to_vec();
        FullFilterResponse { filter_bytes, sha256, signature, version, m: 16, k: 4 }
    };
    assert_eq!(on_fetch(&mut e, &mut b, FetchEvent::RequestFailed), FetchAction::RetryAfter(5));
    assert_eq!(on_fetch(&mut e, &mut b, FetchEvent::Refused), FetchAction::RetryAfter(10));
    assert_eq!(on_fetch(&mut e, &mut b, FetchEvent::BadBody), FetchAction::RetryAfter(20));
    assert_eq!(e.state.filter.version, 1);
    let mut forged = answer(b"xy", 8);
    forged.version = 9;
    assert_eq!(on_fetch(&mut e, &mut b, FetchEvent::Answer(forged)), FetchAction::RetryAfter(40));
    assert!(matches!(e.state.guard, SecurityGuard::Frozen { .. }));
    assert_eq!(
        on_fetch(&mut e, &mut b, FetchEvent::Answer(answer(b"xy", 8))),
        FetchAction::Done
    );
    assert_eq!((e.state.filter.version, e.state.filter.k), (8, 4));
    assert_eq!(e.state.filter.current, *b"xy");
    assert!(e.state.is_ready());
}

#[test]
fn addresses_and_statuses() {
    let e = engine();
    assert_eq!(latest_url(&e.state), "https://s/filter/latest");
    assert_eq!(updates_url(&e.state), "https://s/filter/updates");
    let good: Vec<u16> = (0..1000).filter(|&s| is_success(s)).collect();
    assert_eq!(good, (200..300).collect::<Vec<u16>>());
}

#[test]
fn bytes_travel_as_base64() {
    assert_eq!(encode(b""), "");
    assert_eq!(encode(b"f"), "Zg==");
    assert_eq!(encode(&[0xfb, 0xff, 0xfe]), "+//+");
    assert_eq!(decode("Zm9vYmFy").unwrap(), b"foobar");
    assert_eq!(decode("Zg").unwrap_err(), "Invalid padding");
    assert!(decode("Z!==").unwrap_err().starts_with("Invalid symbol 33"));
    let bytes: Vec<u8> = (0..=255).collect();
    assert_eq!(decode(&encode(&bytes)).unwrap(), bytes);
}
