use hermesmq_node::client::{
    clamp_to_zero, connect, opened, produce_request, Client, CreateTopicOptions, LeaseRef, Opening, PollOptions,
    ProduceOptions, RateLimit, Retention, SetupAction,
};
use hermesmq_node::cluster::NodeAddr;
use hermesmq_node::error::ClientError;
use hermesmq_node::frame::request_frame;
use hermesmq_node::replies::{
    cluster_stats, delivered_message, err_response, expect_ok, polled_messages, produce_many_results,
    produced_offset, unexpected, ItemOutcome,
};
use hermesmq_proto as proto;
use hermesmq_proto::request::Kind;
use prost::Message;

fn client() -> Client<u8, u8> {
    let nodes = vec![
        NodeAddr { id: 1, client_addr: "a:1".to_string(), peer_addr: "a:2".to_string() },
        NodeAddr { id: u32::MAX, client_addr: "b:1".to_string(), peer_addr: "b:2".to_string() },
    ];
    match connect(nodes, None) {
        Ok((client, _)) => client,
        Err(e) => panic!("{e:?}"),
    }
}

fn message(body: &[u8]) -> ProduceOptions {
    ProduceOptions {
        topic: "orders".to_string(),
        body: body.to_vec(),
        priority: None,
        producer_id: None,
        seq: None,
    }
}

fn done() -> proto::Response {
    proto::Response { kind: Some(proto::response::Kind::Ok(proto::Ok {})) }
}

fn refused(code: &str, message: &str, retry_after_ms: u64) -> proto::Response {
    proto::Response {
        kind: Some(proto::response::Kind::Error(proto::Error {
            code: code.to_string(),
            message: message.to_string(),
            leader_addr: String::new(),
            retry_after_ms,
        })),
    }
}

fn delivered(lease_id: u64) -> proto::Delivered {
    proto::Delivered { lease_id, offset: 10, priority: 3, content_type: 2, payload: b"xyz".to_vec(), ts_ms: 1700 }
}

#[test]
fn produce_without_a_producer() {
    let req = produce_request(message(b"hello")).unwrap();
    assert_eq!(
        req.kind,
        Some(Kind::Produce(proto::Produce {
            topic: "orders".to_string(),
            priority: 0,
            content_type: 0,
            payload: b"hello".to_vec(),
            producer_id: String::new(),
            seq: 0,
        }))
    );
}

#[test]
fn produce_carries_producer_and_sequence() {
    let options = ProduceOptions {
        priority: Some(7),
        producer_id: Some("billing-7f3a".to_string()),
        seq: Some(42),
        ..message(b"")
    };
    match client().produce(options).unwrap().kind {
        Some(Kind::Produce(p)) => {
            assert_eq!((p.priority, p.producer_id.as_str(), p.seq), (7, "billing-7f3a", 42));
            assert!(p.payload.is_empty());
        }
        other => panic!("{other:?}"),
    }
    let bare = ProduceOptions { producer_id: Some(String::new()), ..message(b"") };
    assert!(produce_request(bare).is_ok());
    let numbered = ProduceOptions { seq: Some(i64::MAX), ..message(b"") };
    match produce_request(numbered).unwrap().kind {
        Some(Kind::Produce(p)) => assert_eq!(p.seq, i64::MAX as u64),
        other => panic!("{other:?}"),
    }
}

#[test]
fn produce_refuses_bad_sequences() {
    let negative = ProduceOptions { seq: Some(-1), ..message(b"") };
    assert_eq!(produce_request(negative).unwrap_err().reason, "produce: seq must be >= 0");
    let unnumbered = ProduceOptions { producer_id: Some("p".to_string()), ..message(b"") };
    assert_eq!(
        produce_request(unnumbered).unwrap_err().reason,
        "produce: producerId requires seq (a per-producer monotonic counter)"
    );
}

#[test]
fn batch_is_aligned_with_its_items() {
    let items = vec![
        message(b"0"),
        ProduceOptions { seq: Some(-5), ..message(b"1") },
        message(b"2"),
    ];
    let requests = client().produce_many(items);
    assert_eq!(requests.len(), 3);
    for (k, body) in [(0, b"0"), (2, b"2")] {
        match &requests[k].as_ref().unwrap().kind {
            Some(Kind::Produce(p)) => assert_eq!(p.payload, body),
            other => panic!("{other:?}"),
        }
    }
    assert_eq!(requests[1].as_ref().unwrap_err().reason, "produce: seq must be >= 0");

    let results = produce_many_results(vec![
        ItemOutcome::Finished(Ok("17".to_string())),
        ItemOutcome::Finished(Err(ClientError::from_reason("produce: seq must be >= 0"))),
        ItemOutcome::Aborted("task panicked".to_string()),
    ]);
    let told: Vec<(Option<&str>, Option<&str>)> =
        results.iter().map(|r| (r.offset.as_deref(), r.error.as_deref())).collect();
    assert_eq!(
        told,
        vec![(Some("17"), None), (None, Some("produce: seq must be >= 0")), (None, Some("task panicked"))]
    );
}

#[test]
fn poll_has_defaults() {
    let (req, timeout) = client().poll(PollOptions {
        topic: "t".to_string(),
        group: "g".to_string(),
        max: None,
        visibility_ms: None,
        wait_ms: None,
    });
    assert_eq!(
        req.kind,
        Some(Kind::Poll(proto::Poll {
            topic: "t".to_string(),
            group: "g".to_string(),
            max: 16,
            visibility_timeout_ms: 30_000,
            ack_mode: "manual".to_string(),
            wait_ms: 0,
        }))
    );
    assert_eq!(timeout, 10_000);
}

#[test]
fn poll_waits_longer_than_the_node() {
    let (req, timeout) = client().poll(PollOptions {
        topic: "t".to_string(),
        group: "g".to_string(),
        max: Some(3),
        visibility_ms: Some(-4),
        wait_ms: Some(5_000),
    });
    match req.kind {
        Some(Kind::Poll(p)) => assert_eq!((p.max, p.visibility_timeout_ms, p.wait_ms), (3, 0, 5_000)),
        other => panic!("{other:?}"),
    }
    assert_eq!(timeout, 15_000);
    let (_, timeout) = client().poll(PollOptions {
        topic: String::new(),
        group: String::new(),
        max: None,
        visibility_ms: None,
        wait_ms: Some(i64::MAX),
    });
    assert_eq!(timeout, 10_000 + i64::MAX as u64);
    assert_eq!(clamp_to_zero(i64::MIN), 0);
    assert_eq!(clamp_to_zero(9), 9);
}

#[test]
fn bootstrap_names_the_members() {
    assert_eq!(
        client().bootstrap().kind,
        Some(Kind::Bootstrap(proto::Bootstrap {
            nodes: vec![
                proto::Node { id: 1, peer_addr: "a:2".to_string() },
                proto::Node { id: 4_294_967_295, peer_addr: "b:2".to_string() },
            ]
        }))
    );
    assert_eq!(client().stats().kind, Some(Kind::Stats(proto::Stats {})));
}

#[test]
fn new_client_sends_what_it_opens_with() {
    let c = client();
    assert_eq!(c.open(Opening::Bootstrap), c.bootstrap());
    assert_eq!(c.open(Opening::Stats).kind, Some(Kind::Stats(proto::Stats {})));
}

#[test]
fn connecting_fails_fast() {
    let stats = || proto::Response {
        kind: Some(proto::response::Kind::Stats(proto::StatsResult {
            last_applied: 1,
            current_leader: 2,
            current_term: 3,
            last_log_index: 4,
            is_leader: true,
            topics: 5,
            messages: 6,
            in_flight: 7,
        })),
    };
    assert!(opened(Opening::Bootstrap, Ok(done())).is_ok());
    assert!(opened(Opening::Stats, Ok(stats())).is_ok());
    for first in [Opening::Bootstrap, Opening::Stats] {
        let gave_up = ClientError { reason: "no reachable leader".to_string() };
        assert_eq!(opened(first, Err(gave_up)).unwrap_err().reason, "no reachable leader");
        assert_eq!(opened(first, Ok(refused("denied", "no", 0))).unwrap_err().reason, "denied: no");
    }
    let unexpected = |first, resp| opened(first, Ok(resp)).unwrap_err().reason;
    assert!(unexpected(Opening::Bootstrap, stats()).starts_with("unexpected response: Some(Stats("));
    assert!(unexpected(Opening::Stats, done()).starts_with("unexpected response: Some(Ok("));
}

#[test]
fn leases_are_numbers() {
    let lease = |id: &str| LeaseRef { topic: "t".to_string(), group: "g".to_string(), lease_id: id.to_string() };
    assert_eq!(
        client().ack(lease("300")).unwrap().kind,
        Some(Kind::Ack(proto::Ack { topic: "t".to_string(), group: "g".to_string(), lease_id: 300 }))
    );
    assert_eq!(
        client().nack(lease("300")).unwrap().kind,
        Some(Kind::Nack(proto::Nack { topic: "t".to_string(), group: "g".to_string(), lease_id: 300 }))
    );
    assert_eq!(client().ack(lease("x")).unwrap_err().reason, "ack: invalid leaseId");
    assert_eq!(client().nack(lease("")).unwrap_err().reason, "nack: invalid leaseId");
}

#[test]
fn delivered_lease_can_be_acknowledged() {
    for id in [0, 7, u64::MAX] {
        let m = delivered_message(delivered(id));
        let lease = LeaseRef { topic: "t".to_string(), group: "g".to_string(), lease_id: m.lease_id };
        match client().ack(lease).unwrap().kind {
            Some(Kind::Ack(a)) => assert_eq!(a.lease_id, id),
            other => panic!("{other:?}"),
        }
    }
}

#[test]
fn topic_is_created_before_its_limits() {
    let rate: f64 = 1000.5;
    let mut setup = client().create_topic(CreateTopicOptions {
        topic: "orders".to_string(),
        rate_limit: Some(RateLimit { rate_bits: rate.to_bits(), burst: 100 }),
        retention: Some(Retention { max_messages: 1_000_000, max_age_ms: -3 }),
    });
    match setup.proceed() {
        SetupAction::Send(req) => assert_eq!(
            req.kind,
            Some(Kind::CreateTopic(proto::CreateTopic { topic: "orders".to_string() }))
        ),
        other => panic!("{other:?}"),
    }
    match setup.next(Ok(done())) {
        SetupAction::Send(req) => {
            let limit = proto::SetRateLimit { topic: "orders".to_string(), rate_per_sec: 1000.5, burst: 100 };
            let sent = proto::Request::decode(&request_frame(&req)[4..]).unwrap();
            assert_eq!(sent.kind, Some(Kind::SetRateLimit(limit)));
        }
        other => panic!("{other:?}"),
    }
    match setup.next(Ok(done())) {
        SetupAction::Send(req) => assert_eq!(
            req.kind,
            Some(Kind::SetRetention(proto::SetRetention {
                topic: "orders".to_string(),
                max_messages: 1_000_000,
                max_age_ms: 0,
            }))
        ),
        other => panic!("{other:?}"),
    }
    assert!(matches!(setup.next(Ok(done())), SetupAction::Done));
}

#[test]
fn topic_without_limits_takes_one_request() {
    let mut setup = client().create_topic(CreateTopicOptions {
        topic: "t".to_string(),
        rate_limit: None,
        retention: None,
    });
    assert!(matches!(setup.proceed(), SetupAction::Send(_)));
    assert!(matches!(setup.next(Ok(done())), SetupAction::Done));
}

#[test]
fn topic_stops_at_the_first_error() {
    let options = || CreateTopicOptions {
        topic: "t".to_string(),
        rate_limit: None,
        retention: Some(Retention { max_messages: 1, max_age_ms: 1 }),
    };
    let mut setup = client().create_topic(options());
    setup.proceed();
    match setup.next(Ok(refused("exists", "topic exists", 0))) {
        SetupAction::Fail(e) => assert_eq!(e.reason, "exists: topic exists"),
        other => panic!("{other:?}"),
    }
    let mut setup = client().create_topic(options());
    setup.proceed();
    match setup.next(Err(ClientError::from_reason("unreachable"))) {
        SetupAction::Fail(e) => assert_eq!(e.reason, "unreachable"),
        other => panic!("{other:?}"),
    }
    assert_eq!(setup.requests.len(), 1);
}

#[test]
fn rates_keep_their_bits() {
    let rates: [f64; 5] = [0.0, -0.0, 1.25, f64::MAX, f64::INFINITY];
    for rate in rates {
        let mut setup = client().create_topic(CreateTopicOptions {
            topic: String::new(),
            rate_limit: Some(RateLimit { rate_bits: rate.to_bits(), burst: 0 }),
            retention: None,
        });
        setup.proceed();
        match setup.next(Ok(done())) {
            SetupAction::Send(proto::Request { kind: Some(Kind::SetRateLimit(m)) }) => {
                assert_eq!(m.rate_per_sec.to_bits(), rate.to_bits())
            }
            other => panic!("{other:?}"),
        }
    }
}

#[test]
fn server_errors_are_put_into_words() {
    let e = |retry_after_ms| proto::Error {
        code: "rate_limited".to_string(),
        message: "slow down".to_string(),
        leader_addr: "x".to_string(),
        retry_after_ms,
    };
    assert_eq!(err_response(e(0)).reason, "rate_limited: slow down");
    assert_eq!(err_response(e(250)).reason, "rate_limited: slow down (retry after 250ms)");
    assert_eq!(expect_ok(refused("c", "m", 1)).unwrap_err().reason, "c: m (retry after 1ms)");
    assert_eq!(produced_offset(refused("c", "m", 0)).unwrap_err().reason, "c: m");
    assert_eq!(polled_messages(refused("c", "m", 0)).unwrap_err().reason, "c: m");
    assert_eq!(cluster_stats(refused("c", "m", 0)).unwrap_err().reason, "c: m");
}

#[test]
fn unexpected_responses_are_shown() {
    assert!(expect_ok(done()).is_ok());
    let empty = proto::Response { kind: None };
    assert_eq!(expect_ok(empty).unwrap_err().reason, "unexpected response: None");
    let stray = proto::Response { kind: Some(proto::response::Kind::Produced(proto::Produced { offset: 5 })) };
    let words = format!("unexpected response: {:?}", stray.kind);
    assert_eq!(words, "unexpected response: Some(Produced(Produced { offset: 5 }))");
    assert_eq!(expect_ok(stray.clone()).unwrap_err().reason, words);
    assert_eq!(polled_messages(stray.clone()).unwrap_err().reason, words);
    assert_eq!(cluster_stats(stray).unwrap_err().reason, words);
    assert_eq!(produced_offset(done()).unwrap_err().reason, "unexpected response: Some(Ok(Ok))");
    assert_eq!(unexpected("?").reason, "unexpected response: ?");
}

#[test]
fn offsets_are_decimal() {
    for offset in [0, 17, u64::MAX] {
        let resp = proto::Response { kind: Some(proto::response::Kind::Produced(proto::Produced { offset })) };
        assert_eq!(produced_offset(resp).unwrap(), offset.to_string());
    }
}

#[test]
fn polled_messages_keep_their_order() {
    let resp = proto::Response {
        kind: Some(proto::response::Kind::Polled(proto::Polled { items: vec![delivered(9), delivered(8)] })),
    };
    let messages = polled_messages(resp).unwrap();
    let leases: Vec<&str> = messages.iter().map(|m| m.lease_id.as_str()).collect();
    assert_eq!(leases, vec!["9", "8"]);
    let m = &messages[0];
    assert_eq!((m.offset.as_str(), m.priority, m.content_type, m.ts_ms.as_str()), ("10", 3, 2, "1700"));
    assert_eq!(m.payload, b"xyz");
    let none = proto::Response { kind: Some(proto::response::Kind::Polled(proto::Polled { items: Vec::new() })) };
    assert!(polled_messages(none).unwrap().is_empty());
}

#[test]
fn stats_are_passed_on() {
    let resp = proto::Response {
        kind: Some(proto::response::Kind::Stats(proto::StatsResult {
            last_applied: 1,
            current_leader: 0x1_0000_0003,
            current_term: 2,
            last_log_index: u64::MAX,
            is_leader: true,
            topics: 4,
            messages: 5,
            in_flight: 6,
        })),
    };
    let s = cluster_stats(resp).unwrap();
    assert_eq!((s.last_applied.as_str(), s.current_leader, s.current_term.as_str()), ("1", 3, "2"));
    assert_eq!((s.last_log_index.as_str(), s.is_leader), ("18446744073709551615", true));
    assert_eq!((s.topics, s.messages, s.in_flight), (4, 5, 6));
}

#[test]
fn resent_message_makes_the_same_request() {
    let numbered = |seq| ProduceOptions { producer_id: Some("p".to_string()), seq: Some(seq), ..message(b"m") };
    let frame = |seq| request_frame(&produce_request(numbered(seq)).unwrap());
    assert_eq!(frame(42), frame(42));
    assert_ne!(frame(42), frame(43));
}
