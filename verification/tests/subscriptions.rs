use hermesmq_node::client::{connect, Client};
use hermesmq_node::cluster::NodeAddr;
use hermesmq_node::subscription::{
    invalid_ack_mode, Handled, Run, RunAction, SessionAction, SessionEvent, SubEnd, SubscribeOptions,
    SubscriptionTask,
};
use hermesmq_proto as proto;
use hermesmq_proto::request::Kind;
use prost::Message;

fn client() -> Client<u8, u8> {
    let nodes = (0..3)
        .map(|k| NodeAddr { id: k, client_addr: format!("c{k}"), peer_addr: format!("p{k}") })
        .collect();
    match connect(nodes, None) {
        Ok((client, _)) => client,
        Err(e) => panic!("{e:?}"),
    }
}

fn options(ack_mode: Option<&str>) -> SubscribeOptions {
    SubscribeOptions {
        topic: "t".to_string(),
        group: "g".to_string(),
        prefetch: None,
        visibility_ms: None,
        ack_mode: ack_mode.map(|m| m.to_string()),
    }
}

fn task(ack_mode: &str) -> SubscriptionTask {
    client().subscribe(options(Some(ack_mode))).unwrap()
}

fn delivered(lease_id: u64) -> proto::Delivered {
    proto::Delivered { lease_id, offset: 1, priority: 0, content_type: 0, payload: vec![1, 2], ts_ms: 3 }
}

fn polled(leases: &[u64]) -> proto::Response {
    let items = leases.iter().map(|id| delivered(*id)).collect();
    proto::Response { kind: Some(proto::response::Kind::Polled(proto::Polled { items })) }
}

fn error(code: &str, leader_addr: &str) -> proto::Response {
    proto::Response {
        kind: Some(proto::response::Kind::Error(proto::Error {
            code: code.to_string(),
            message: "words".to_string(),
            leader_addr: leader_addr.to_string(),
            retry_after_ms: 9,
        })),
    }
}

fn received(resp: &proto::Response) -> SessionEvent {
    SessionEvent::Received { message: resp.encode_to_vec(), stopped: false }
}

fn retried(action: RunAction) -> (Option<String>, u64) {
    match action {
        RunAction::Retry { report, sleep_ms } => (report, sleep_ms),
        RunAction::Stop => panic!(),
    }
}

#[test]
fn manual_is_the_default_mode() {
    for mode in [None, Some("manual")] {
        let task = client().subscribe(options(mode)).unwrap();
        assert!(!task.auto);
        assert_eq!((task.topic.as_str(), task.group.as_str()), ("t", "g"));
        assert_eq!(
            task.sub_req.kind,
            Some(Kind::Subscribe(proto::Subscribe {
                topic: "t".to_string(),
                group: "g".to_string(),
                prefetch: 16,
                visibility_timeout_ms: 30_000,
                ack_mode: "manual".to_string(),
            }))
        );
    }
}

#[test]
fn auto_mode_is_asked_for() {
    let asked = SubscribeOptions { prefetch: Some(2), visibility_ms: Some(-1), ..options(Some("auto")) };
    let task = client().subscribe(asked).unwrap();
    assert!(task.auto);
    match task.sub_req.kind {
        Some(Kind::Subscribe(s)) => {
            assert_eq!((s.prefetch, s.visibility_timeout_ms, s.ack_mode.as_str()), (2, 0, "auto"))
        }
        other => panic!("{other:?}"),
    }
}

#[test]
fn other_modes_are_refused() {
    let reason = |mode| client().subscribe(options(Some(mode))).unwrap_err().reason;
    assert_eq!(reason("Auto"), "subscribe: invalid ackMode \"Auto\"; expected \"auto\" or \"manual\"");
    assert_eq!(reason(""), "subscribe: invalid ackMode \"\"; expected \"auto\" or \"manual\"");
    assert_eq!(reason("a\"\n"), "subscribe: invalid ackMode \"a\\\"\\n\"; expected \"auto\" or \"manual\"");
    assert_eq!(
        invalid_ack_mode("x").reason,
        "subscribe: invalid ackMode x; expected \"auto\" or \"manual\""
    );
}

#[test]
fn only_manual_mode_settles_leases() {
    let d = task("manual").dispatch(delivered(7));
    assert_eq!((d.message.lease_id.as_str(), d.lease), ("7", Some(7)));
    assert_eq!(d.message.payload, vec![1, 2]);
    let d = task("auto").dispatch(delivered(7));
    assert_eq!((d.message.lease_id.as_str(), d.lease), ("7", None));
}

#[test]
fn handled_messages_are_acknowledged() {
    let t = task("manual");
    for handled in [Handled::Returned, Handled::Resolved] {
        assert_eq!(
            t.settle(7, handled).kind,
            Some(Kind::Ack(proto::Ack { topic: "t".to_string(), group: "g".to_string(), lease_id: 7 }))
        );
    }
    for handled in [Handled::Rejected, Handled::Threw] {
        assert_eq!(
            t.settle(7, handled).kind,
            Some(Kind::Nack(proto::Nack { topic: "t".to_string(), group: "g".to_string(), lease_id: 7 }))
        );
    }
}

#[test]
fn delivery_marks_the_leader_and_forgets_failures() {
    let mut c = client();
    let mut failures: u32 = 5;
    match task("manual").once(&mut c.inner, 2, &mut failures, received(&polled(&[4, 6]))) {
        SessionAction::Deliver(out) => {
            let leases: Vec<Option<u64>> = out.iter().map(|d| d.lease).collect();
            assert_eq!(leases, vec![Some(4), Some(6)]);
        }
        other => panic!("{other:?}"),
    }
    assert_eq!((c.inner.leader, failures), (2, 0));
    let mut run = Run { idx: 2, failures };
    assert_eq!(retried(run.ended(&c.inner, SubEnd::Failed("x".to_string()))).1, 50);
}

#[test]
fn session_ends_at_errors() {
    let mut c = client();
    let mut failures: u32 = 5;
    for (addr, hint) in [("p1", Some(1)), ("elsewhere", None), ("", None)] {
        match task("auto").once(&mut c.inner, 0, &mut failures, received(&error("not_leader", addr))) {
            SessionAction::End(SubEnd::NotLeader(j)) => assert_eq!(j, hint),
            other => panic!("{other:?}"),
        }
    }
    match task("auto").hear(&mut c.inner, 0, &mut failures, error("denied", "p1")) {
        SessionAction::End(SubEnd::Failed(reason)) => assert_eq!(reason, "denied: words"),
        other => panic!("{other:?}"),
    }
    assert_eq!((c.inner.leader, failures), (0, 5));
}

#[test]
fn session_reads_past_what_it_does_not_know() {
    let mut c = client();
    let mut failures: u32 = 5;
    let produced = proto::Response { kind: Some(proto::response::Kind::Produced(proto::Produced { offset: 1 })) };
    let events = [
        received(&produced),
        received(&proto::Response { kind: None }),
        SessionEvent::Received { message: vec![0x0a, 0x05], stopped: false },
    ];
    for event in events {
        assert!(matches!(task("auto").once(&mut c.inner, 1, &mut failures, event), SessionAction::Read));
    }
    assert_eq!((c.inner.leader, failures), (0, 5));
}

fn session(events: Vec<SessionEvent>) -> (usize, u32, Vec<Option<u64>>, Option<String>) {
    let mut c = client();
    let mut failures: u32 = 5;
    let mut leases = Vec::new();
    let mut end = None;
    for event in events {
        match task("manual").once(&mut c.inner, 2, &mut failures, event) {
            SessionAction::Read => {}
            SessionAction::Deliver(out) => leases.extend(out.iter().map(|d| d.lease)),
            SessionAction::End(e) => {
                end = Some(format!("{e:?}"));
                break;
            }
        }
    }
    (c.inner.leader, failures, leases, end)
}

#[test]
fn session_is_the_same_without_what_it_skips() {
    let noise = || SessionEvent::Received { message: vec![0xff], stopped: false };
    let other = || received(&proto::Response { kind: Some(proto::response::Kind::Produced(proto::Produced { offset: 1 })) });
    let with = session(vec![
        noise(),
        received(&polled(&[4, 6])),
        other(),
        noise(),
        received(&polled(&[8])),
        other(),
        received(&error("denied", "")),
        received(&polled(&[9])),
    ]);
    let without = session(vec![
        received(&polled(&[4, 6])),
        received(&polled(&[8])),
        received(&error("denied", "")),
        received(&polled(&[9])),
    ]);
    assert_eq!(with, without);
    assert_eq!(with, (2, 0, vec![Some(4), Some(6), Some(8)], Some("Failed(\"denied: words\")".to_string())));
    assert_eq!(session(vec![noise(), other()]), (0, 5, Vec::new(), None));
}

#[test]
fn session_ends_when_the_connection_does() {
    let mut c = client();
    let mut failures: u32 = 0;
    let t = task("manual");
    for event in [
        SessionEvent::Unreachable("refused".to_string()),
        SessionEvent::Lost { reason: "refused".to_string(), stopped: false },
    ] {
        match t.once(&mut c.inner, 1, &mut failures, event) {
            SessionAction::End(SubEnd::Failed(reason)) => assert_eq!(reason, "c1: refused"),
            other => panic!("{other:?}"),
        }
    }
    for event in [
        SessionEvent::Lost { reason: "refused".to_string(), stopped: true },
        SessionEvent::Received { message: polled(&[1]).encode_to_vec(), stopped: true },
    ] {
        assert!(matches!(
            t.once(&mut c.inner, 1, &mut failures, event),
            SessionAction::End(SubEnd::Stopped)
        ));
    }
    assert_eq!(c.inner.leader, 0);
}

#[test]
fn subscription_goes_round_the_cluster() {
    let mut c = client();
    c.inner.leader = 1;
    let mut run = Run::begin(&c.inner);
    let mut seen = Vec::new();
    for _ in 0..9 {
        let i = run.target(&c.inner);
        let (report, ms) = retried(run.ended(&c.inner, SubEnd::Failed("x".to_string())));
        assert_eq!(report.as_deref(), Some("x"));
        seen.push((i, ms));
    }
    assert_eq!(
        seen,
        vec![
            (1, 50),
            (2, 100),
            (0, 200),
            (1, 400),
            (2, 800),
            (0, 1600),
            (1, 3200),
            (2, 5000),
            (0, 5000)
        ]
    );
}

#[test]
fn subscription_follows_redirects_silently() {
    let c = client();
    let mut run = Run::begin(&c.inner);
    assert_eq!(retried(run.ended(&c.inner, SubEnd::NotLeader(Some(2)))), (None, 50));
    assert_eq!(run.target(&c.inner), 2);
    assert_eq!(retried(run.ended(&c.inner, SubEnd::NotLeader(None))), (None, 100));
    assert_eq!(run.target(&c.inner), 0);
    assert_eq!(run.failures, 2);
}

#[test]
fn no_session_begins_after_unsubscribe() {
    let c = client();
    let mut run = Run::begin(&c.inner);
    assert_eq!(run.session(&c.inner, false), Some(0));
    let step = run.session_ended(&c.inner, SubEnd::Failed("x".to_string()), false);
    assert_eq!((step.report.as_deref(), step.sleep_ms), (Some("x"), Some(50)));
    assert_eq!(run.session(&c.inner, false), Some(1));
    assert_eq!(run.session(&c.inner, true), None);
    let step = run.session_ended(&c.inner, SubEnd::Failed("y".to_string()), true);
    assert_eq!((step.report.as_deref(), step.sleep_ms), (Some("y"), None));
    assert_eq!((run.idx, run.failures), (2, 2));
    let step = run.session_ended(&c.inner, SubEnd::NotLeader(Some(1)), true);
    assert_eq!((step.report, step.sleep_ms), (None, None));
    for stopped in [false, true] {
        let step = run.session_ended(&c.inner, SubEnd::Stopped, stopped);
        assert_eq!((step.report, step.sleep_ms), (None, None));
    }
}

#[test]
fn subscription_stops_when_told() {
    let c = client();
    let mut run = Run { idx: 1, failures: u32::MAX };
    assert!(matches!(run.ended(&c.inner, SubEnd::Stopped), RunAction::Stop));
    assert_eq!((run.idx, run.failures), (1, u32::MAX));
}
