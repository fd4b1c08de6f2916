use hermesmq_node::backoff::{backoff, CALL_BACKOFF_CAP_MS, SUBSCRIBE_BACKOFF_CAP_MS};
use hermesmq_node::error::IoErrorKind;
use hermesmq_node::frame::{read_frame, request_frame, write_frame, FrameStep, MAX_FRAME};
use hermesmq_node::text::{decimal_text, parse_u64};
use hermesmq_proto as proto;
use prost::Message;

#[test]
fn frame_starts_with_its_length() {
    assert_eq!(write_frame(&[7, 8, 9]), vec![0, 0, 0, 3, 7, 8, 9]);
    assert_eq!(write_frame(&[]), vec![0, 0, 0, 0]);
    let long = vec![1u8; 0x0001_0203];
    assert_eq!(write_frame(&long)[..5], [0, 1, 2, 3, 1]);
}

#[test]
fn frame_is_read_back() {
    let frame = write_frame(b"hello");
    match read_frame(&frame) {
        FrameStep::Message(m) => assert_eq!(m, b"hello"),
        other => panic!("{other:?}"),
    }
    match read_frame(&[0, 0, 0, 0]) {
        FrameStep::Message(m) => assert!(m.is_empty()),
        other => panic!("{other:?}"),
    }
}

#[test]
fn part_of_a_frame_asks_for_the_rest() {
    let frame = write_frame(b"hello");
    for (k, need) in [(0, 4), (1, 3), (3, 1), (4, 5), (6, 3), (8, 1)] {
        match read_frame(&frame[..k]) {
            FrameStep::Need(n) => assert_eq!(n, need),
            other => panic!("{other:?}"),
        }
    }
}

#[test]
fn frame_over_the_limit_is_refused() {
    assert_eq!(MAX_FRAME, 64 * 1024 * 1024);
    match read_frame(&[0x04, 0, 0, 1]) {
        FrameStep::Refused(e) => {
            assert_eq!(e.kind, IoErrorKind::InvalidData);
            assert_eq!(e.message, "frame exceeds 64 MiB limit");
        }
        other => panic!("{other:?}"),
    }
    match read_frame(&[0x04, 0, 0, 0]) {
        FrameStep::Need(n) => assert_eq!(n, MAX_FRAME),
        other => panic!("{other:?}"),
    }
}

#[test]
fn request_frame_holds_the_encoded_request() {
    let req = proto::Request {
        kind: Some(proto::request::Kind::Ack(proto::Ack {
            topic: "orders".to_string(),
            group: "workers".to_string(),
            lease_id: 300,
        })),
    };
    let frame = request_frame(&req);
    assert_eq!(
        frame,
        [
            &[0u8, 0, 0, 22, 0x1a, 20, 0x0a, 6][..],
            b"orders",
            &[0x12, 7],
            b"workers",
            &[0x18, 0xac, 0x02],
        ]
        .concat()
    );
    assert_eq!(proto::Request::decode(&frame[4..]).unwrap(), req);
}

#[test]
fn backoff_doubles_up_to_its_cap() {
    let call: Vec<u64> = (0..7).map(|k| backoff(k, CALL_BACKOFF_CAP_MS)).collect();
    assert_eq!(call, vec![50, 100, 200, 400, 500, 500, 500]);
    let sub: Vec<u64> = (0..10).map(|k| backoff(k, SUBSCRIBE_BACKOFF_CAP_MS)).collect();
    assert_eq!(sub, vec![50, 100, 200, 400, 800, 1600, 3200, 5000, 5000, 5000]);
    assert_eq!(backoff(6, u64::MAX), 3200);
    assert_eq!(backoff(7, u64::MAX), 6400);
    assert_eq!(backoff(8, u64::MAX), 6400);
    assert_eq!(backoff(u32::MAX, u64::MAX), 6400);
    assert_eq!(backoff(0, 10), 10);
    assert_eq!(backoff(3, 0), 0);
}

#[test]
fn decimal_numbers_read_back() {
    for n in [0, 1, 9, 10, 11, 99, 100, 12345, 1_000_000, u64::MAX - 1, u64::MAX] {
        assert_eq!(decimal_text(n), n.to_string());
        assert_eq!(parse_u64(&decimal_text(n)), Some(n));
    }
}

#[test]
fn parsing_agrees_with_the_standard_library() {
    for s in [
        "", "+", "-", "0", "+0", "-0", "-1", "+7", "++7", "7+", "007", " 7", "7 ", "7_0", "1.0", "0x10", "a",
        "18446744073709551615", "18446744073709551616", "+18446744073709551615", "99999999999999999999",
        "00000000000000000000000000000012", "\u{0663}", "7\u{0663}", "9e9", "184467440737095516150",
    ] {
        assert_eq!(parse_u64(s), s.parse::<u64>().ok(), "{s:?}");
    }
}
