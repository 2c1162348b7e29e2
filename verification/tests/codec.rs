//! The wire codec, checked on concrete frames and against the reference
//! protobuf primitives.

use echosum::codec::{
    decode_request, decode_response, encode_request, encode_response, read_varint, write_varint,
};
use echosum::messages::{Request, Response};

#[test]
fn varint_small_values() {
    for n in [0u64, 1, 0x7F] {
        let mut out = Vec::new();
        write_varint(n, &mut out);
        assert_eq!(out.len(), 1);
        assert_eq!(out[0] as u64, n);
        let (v, rest) = read_varint(&out).expect("one-byte varint");
        assert_eq!(v, n);
        assert!(rest.is_empty());
    }
}

#[test]
fn varint_multi_byte() {
    let mut out = Vec::new();
    write_varint(150, &mut out);
    assert_eq!(out, vec![0x96, 0x01]);
    let (v, rest) = read_varint(&out).expect("two-byte varint");
    assert_eq!(v, 150);
    assert!(rest.is_empty());
}

#[test]
fn varint_matches_reference_encoder() {
    for n in [0u64, 1, 127, 128, 150, 300, 0xFFFF, 0xFFFF_FFFF, u64::MAX - 1, u64::MAX] {
        let mut mine = Vec::new();
        write_varint(n, &mut mine);
        let mut reference = Vec::new();
        prost::encoding::encode_varint(n, &mut reference);
        assert_eq!(mine, reference, "encoding of {n}");

        let mut buf: &[u8] = &reference;
        let theirs = prost::encoding::decode_varint(&mut buf).expect("reference decode");
        assert_eq!(theirs, n);
        let (v, rest) = read_varint(&mine).expect("decode");
        assert_eq!(v, n);
        assert!(rest.is_empty());
    }
}

#[test]
fn varint_truncated_is_rejected() {
    assert!(read_varint(&[]).is_none());
    assert!(read_varint(&[0x80]).is_none());
    assert!(read_varint(&[0xFF, 0xFF]).is_none());
}

#[test]
fn varint_overflow_is_rejected() {
    // Eleven continuation bytes carry more than 64 bits of magnitude.
    let too_wide = [0xFF, 0xFF, 0xFF, 0xFF, 0xFF, 0xFF, 0xFF, 0xFF, 0xFF, 0xFF, 0x01];
    assert!(read_varint(&too_wide).is_none());
}

#[test]
fn echo_request_bytes() {
    let frame = encode_request(&Request::Echo { content: b"ABC".to_vec() });
    assert_eq!(frame, vec![0x0A, 0x05, 0x0A, 0x03, 0x41, 0x42, 0x43]);
}

#[test]
fn empty_echo_request_bytes() {
    let frame = encode_request(&Request::Echo { content: Vec::new() });
    assert_eq!(frame, vec![0x0A, 0x00]);
}

#[test]
fn add_request_bytes() {
    let frame = encode_request(&Request::Add { a: 1, b: 2 });
    assert_eq!(frame, vec![0x12, 0x04, 0x08, 0x01, 0x10, 0x02]);
}

#[test]
fn zero_add_request_bytes() {
    let frame = encode_request(&Request::Add { a: 0, b: 0 });
    assert_eq!(frame, vec![0x12, 0x00]);
}

#[test]
fn request_roundtrip_all_variants() {
    let samples = vec![
        Request::Echo { content: Vec::new() },
        Request::Echo { content: b"hello".to_vec() },
        Request::Echo { content: vec![0x00, 0xFF, 0x80, 0x7F] },
        Request::Add { a: 0, b: 0 },
        Request::Add { a: 1, b: 2 },
        Request::Add { a: -1, b: 5 },
        Request::Add { a: i32::MIN, b: i32::MAX },
    ];
    for req in samples {
        let frame = encode_request(&req);
        let back = decode_request(&frame).expect("frame parses").expect("variant present");
        assert_eq!(back, req);
    }
}

#[test]
fn response_roundtrip_all_variants() {
    let samples = vec![
        Response::Echo { content: Vec::new() },
        Response::Echo { content: b"payload".to_vec() },
        Response::Sum { result: 0 },
        Response::Sum { result: -7 },
        Response::Sum { result: i32::MIN },
    ];
    for resp in samples {
        let frame = encode_response(&resp);
        let back = decode_response(&frame).expect("frame parses").expect("variant present");
        assert_eq!(back, resp);
    }
}

#[test]
fn decodes_reference_echo_frame() {
    let mut body = Vec::new();
    prost::encoding::string::encode(1, &"hello".to_string(), &mut body);
    let mut frame = Vec::new();
    prost::encoding::encode_key(1, prost::encoding::WireType::LengthDelimited, &mut frame);
    prost::encoding::encode_varint(body.len() as u64, &mut frame);
    frame.extend_from_slice(&body);

    let req = decode_request(&frame).expect("frame parses").expect("variant present");
    assert_eq!(req, Request::Echo { content: b"hello".to_vec() });
}

#[test]
fn decodes_reference_add_frame() {
    for (a, b) in [(1i32, 2i32), (-3, 7), (i32::MIN, -1), (0, 5)] {
        let mut body = Vec::new();
        prost::encoding::int32::encode(1, &a, &mut body);
        prost::encoding::int32::encode(2, &b, &mut body);
        let mut frame = Vec::new();
        prost::encoding::encode_key(2, prost::encoding::WireType::LengthDelimited, &mut frame);
        prost::encoding::encode_varint(body.len() as u64, &mut frame);
        frame.extend_from_slice(&body);

        let req = decode_request(&frame).expect("frame parses").expect("variant present");
        assert_eq!(req, Request::Add { a, b });
    }
}

#[test]
fn encoded_add_matches_reference_encoder() {
    for (a, b) in [(1i32, 2i32), (-3, 7), (i32::MIN, i32::MAX)] {
        let mut body = Vec::new();
        prost::encoding::int32::encode(1, &a, &mut body);
        prost::encoding::int32::encode(2, &b, &mut body);
        let mut frame = Vec::new();
        prost::encoding::encode_key(2, prost::encoding::WireType::LengthDelimited, &mut frame);
        prost::encoding::encode_varint(body.len() as u64, &mut frame);
        frame.extend_from_slice(&body);

        assert_eq!(encode_request(&Request::Add { a, b }), frame);
    }
}

#[test]
fn unknown_top_level_field_is_skipped() {
    // Field 3 (length-delimited, empty) alone: well-formed, but no variant.
    assert_eq!(decode_request(&[0x1A, 0x00]), Some(None));
    // An echo variant followed by an unknown varint field keeps the echo.
    let mut frame = encode_request(&Request::Echo { content: b"x".to_vec() });
    frame.extend_from_slice(&[0x18, 0x2A]);
    let req = decode_request(&frame).expect("frame parses").expect("variant present");
    assert_eq!(req, Request::Echo { content: b"x".to_vec() });
}

#[test]
fn later_variant_field_wins() {
    let mut frame = encode_request(&Request::Echo { content: b"first".to_vec() });
    frame.extend_from_slice(&encode_request(&Request::Add { a: 4, b: 5 }));
    let req = decode_request(&frame).expect("frame parses").expect("variant present");
    assert_eq!(req, Request::Add { a: 4, b: 5 });
}

#[test]
fn malformed_frames_are_rejected() {
    // Truncated length-delimited field.
    assert_eq!(decode_request(&[0x0A]), None);
    // Length runs past the end of the frame.
    assert_eq!(decode_request(&[0x0A, 0x05, 0x00]), None);
    // Field number zero is invalid.
    assert_eq!(decode_request(&[0x00]), None);
    // A known field with the wrong wire type.
    assert_eq!(decode_request(&[0x08, 0x01]), None);
    // A truncated varint value.
    assert_eq!(decode_request(&[0x18, 0x80]), None);
}
