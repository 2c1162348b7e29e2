//! The connection cycle and the lifecycle decisions, on concrete scenarios.

use echosum::codec::{decode_response, encode_request};
use echosum::handler::handle_frame;
use echosum::lifecycle::{listener_step, stop_step, worker_step, AcceptEvent, ListenerAction};
use echosum::messages::{ConnError, Request, Response};

fn response_of(frame: &[u8]) -> Response {
    decode_response(frame).expect("response parses").expect("variant present")
}

#[test]
fn echo_request_is_answered_unchanged() {
    for content in [Vec::new(), b"hello".to_vec(), vec![0u8, 0xFF, 0x80, 0x7F]] {
        let frame = encode_request(&Request::Echo { content: content.clone() });
        let reply = handle_frame(&frame).expect("one response");
        assert_eq!(response_of(&reply), Response::Echo { content });
    }
}

#[test]
fn echo_at_frame_size_limit() {
    // The server reads at most 512 bytes per frame; a content that fills
    // such a frame (512 total = 6 bytes of framing + 506 of payload) still
    // comes back byte for byte.
    let content = vec![0xA5u8; 506];
    let frame = encode_request(&Request::Echo { content: content.clone() });
    assert_eq!(frame.len(), 512);
    let reply = handle_frame(&frame).expect("one response");
    assert_eq!(response_of(&reply), Response::Echo { content });
}

#[test]
fn sum_request_is_answered_with_wrapping_sum() {
    let cases = [
        (1i32, 2i32),
        (0, 0),
        (-5, 3),
        (-1, -1),
        (i32::MAX, 1),
        (i32::MIN, -1),
        (i32::MAX, i32::MAX),
    ];
    for (a, b) in cases {
        let frame = encode_request(&Request::Add { a, b });
        let reply = handle_frame(&frame).expect("one response");
        assert_eq!(response_of(&reply), Response::Sum { result: a.wrapping_add(b) });
    }
}

#[test]
fn empty_read_reports_peer_closed() {
    assert_eq!(handle_frame(&[]), Err(ConnError::PeerClosed));
}

#[test]
fn malformed_frame_reports_protocol_error() {
    for frame in [vec![0x00u8], vec![0x0A, 0x05, 0x00], vec![0xFF], b"garbage!".to_vec()] {
        assert_eq!(handle_frame(&frame), Err(ConnError::ProtocolError));
    }
}

#[test]
fn unrecognized_variant_reports_unsupported() {
    // Field 3, length-delimited, empty: a well-formed message the server
    // does not serve.
    assert_eq!(handle_frame(&[0x1A, 0x00]), Err(ConnError::UnsupportedMessage));
}

#[test]
fn interleaved_connections_get_their_own_responses() {
    // Two connections, cycles interleaved in time: each answer depends only
    // on that connection's own frame.
    let first_echo = encode_request(&Request::Echo { content: b"first".to_vec() });
    let second_sum = encode_request(&Request::Add { a: 2, b: 3 });
    let first_sum = encode_request(&Request::Add { a: -10, b: 4 });
    let second_echo = encode_request(&Request::Echo { content: b"second".to_vec() });

    let r1 = handle_frame(&first_echo).expect("response");
    let r2 = handle_frame(&second_sum).expect("response");
    let r3 = handle_frame(&first_sum).expect("response");
    let r4 = handle_frame(&second_echo).expect("response");

    assert_eq!(response_of(&r1), Response::Echo { content: b"first".to_vec() });
    assert_eq!(response_of(&r2), Response::Sum { result: 5 });
    assert_eq!(response_of(&r3), Response::Sum { result: -6 });
    assert_eq!(response_of(&r4), Response::Echo { content: b"second".to_vec() });
}

#[test]
fn one_connection_failure_leaves_listener_accepting() {
    // A malformed frame ends its own connection ...
    assert_eq!(handle_frame(b"not a frame"), Err(ConnError::ProtocolError));
    // ... and the accept loop, still running, keeps serving every event.
    assert_eq!(listener_step(true, AcceptEvent::Incoming), ListenerAction::Spawn);
    assert_eq!(listener_step(true, AcceptEvent::WouldBlock), ListenerAction::Pause);
    assert_eq!(listener_step(true, AcceptEvent::Failed), ListenerAction::Ignore);
}

#[test]
fn stop_halts_listener_and_workers() {
    let (flag, was_running) = stop_step(true);
    assert!(!flag);
    assert!(was_running);
    // The next poll of the accept loop shuts down, whatever it reports.
    assert_eq!(listener_step(flag, AcceptEvent::Incoming), ListenerAction::Shutdown);
    assert_eq!(listener_step(flag, AcceptEvent::WouldBlock), ListenerAction::Shutdown);
    assert_eq!(listener_step(flag, AcceptEvent::Failed), ListenerAction::Shutdown);
    // Every worker stops before its next cycle, even after a clean cycle.
    assert!(!worker_step(flag, true));
    assert!(!worker_step(flag, false));
}

#[test]
fn stop_twice_is_a_noop() {
    let (flag, was_running) = stop_step(true);
    assert!(!flag);
    assert!(was_running);
    let (flag2, was_running2) = stop_step(flag);
    assert!(!flag2);
    assert!(!was_running2);
}

#[test]
fn worker_continues_only_while_running_and_clean() {
    assert!(worker_step(true, true));
    assert!(!worker_step(true, false));
    assert!(!worker_step(false, true));
    assert!(!worker_step(false, false));
}
