use hermesmq_node::call::{
    call, call_pipelined, redirect_of, Attempt, Call, CallAction, CallEvent, PipelinedEvent,
};
use hermesmq_node::client::{connect, Client, ConnectOptions, Opening};
use hermesmq_node::cluster::{Inner, NodeAddr, NodeRec, PipelineAction, PipelineNews, MAX_IDLE_PER_NODE};
use hermesmq_node::error::{IoError, IoErrorKind};
use hermesmq_node::exchange::{
    call_node, decode_reply, fresh, reply_of, request_on, Connecting, Exchange, NodeAction, NodeEvent,
};
use hermesmq_proto as proto;
use prost::Message;

fn node(k: u32) -> NodeAddr {
    NodeAddr { id: k, client_addr: format!("10.0.0.{k}:7600"), peer_addr: format!("10.0.0.{k}:7700") }
}

fn cluster(n: u32) -> Inner<u32, &'static str> {
    match connect((1..=n).map(node).collect(), None) {
        Ok((client, _)) => client.inner,
        Err(e) => panic!("{e:?}"),
    }
}

fn request() -> proto::Request {
    proto::Request {
        kind: Some(proto::request::Kind::Produce(proto::Produce {
            topic: "orders".to_string(),
            priority: 1,
            content_type: 0,
            payload: vec![4, 2],
            producer_id: "billing".to_string(),
            seq: 42,
        })),
    }
}

fn produced(offset: u64) -> proto::Response {
    proto::Response { kind: Some(proto::response::Kind::Produced(proto::Produced { offset })) }
}

fn error(code: &str, leader_addr: &str) -> proto::Response {
    proto::Response {
        kind: Some(proto::response::Kind::Error(proto::Error {
            code: code.to_string(),
            message: "m".to_string(),
            leader_addr: leader_addr.to_string(),
            retry_after_ms: 0,
        })),
    }
}

fn slept(action: CallAction) -> u64 {
    match action {
        CallAction::Sleep(ms) => ms,
        other => panic!("{other:?}"),
    }
}

fn gave_up(action: CallAction) -> String {
    match action {
        CallAction::GiveUp(e) => e.reason,
        other => panic!("{other:?}"),
    }
}

#[test]
fn connect_refuses_an_empty_cluster() {
    match connect::<u32, u32>(Vec::new(), Some(ConnectOptions { bootstrap: Some(true) })) {
        Err(e) => assert_eq!(e.reason, "connect: `nodes` must not be empty"),
        Ok(_) => panic!(),
    }
}

#[test]
fn connect_bootstraps_only_if_told() {
    for (options, first) in [
        (None, Opening::Stats),
        (Some(ConnectOptions { bootstrap: None }), Opening::Stats),
        (Some(ConnectOptions { bootstrap: Some(false) }), Opening::Stats),
        (Some(ConnectOptions { bootstrap: Some(true) }), Opening::Bootstrap),
    ] {
        let (client, opening): (Client<u32, u32>, Opening) = match connect(vec![node(1), node(2)], options) {
            Ok(made) => made,
            Err(e) => panic!("{e:?}"),
        };
        assert_eq!(opening, first);
        assert_eq!(client.inner.leader, 0);
        assert_eq!(client.inner.nodes[1].id, 2);
        assert_eq!(client.inner.nodes[1].client_addr, "10.0.0.2:7600");
        assert_eq!(client.inner.nodes[1].peer_addr, "10.0.0.2:7700");
        assert!(client.inner.pools.iter().all(|p| p.is_empty()));
        assert!(client.inner.pipes.iter().all(|p| p.is_none()));
    }
}

#[test]
fn peers_are_found_by_address() {
    let inner: Inner<u32, u32> = Inner::new(
        ["a", "b", "a", ""]
            .iter()
            .map(|p| NodeRec { id: 0, client_addr: String::new(), peer_addr: p.to_string() })
            .collect(),
    );
    assert_eq!(inner.peer_index("a"), Some(0));
    assert_eq!(inner.peer_index("b"), Some(1));
    assert_eq!(inner.peer_index("c"), None);
    assert_eq!(inner.peer_index(""), None);
}

#[test]
fn pools_hand_out_the_latest_and_are_bounded() {
    let mut inner = cluster(2);
    assert_eq!(inner.pooled(0), None);
    for s in 0..7 {
        inner.park(0, s);
    }
    assert_eq!(inner.pools[0].len(), MAX_IDLE_PER_NODE);
    assert_eq!(inner.pooled(0), Some(3));
    assert_eq!(inner.pooled(0), Some(2));
    assert_eq!(inner.pooled(1), None);
    inner.park(0, 9);
    assert_eq!(inner.pooled(0), Some(9));
    assert_eq!(inner.pools[0], vec![0, 1]);
}

#[test]
fn pipelines_are_kept_and_dropped() {
    let mut inner = cluster(2);
    assert!(inner.pipeline(0, false).is_none());
    assert!(inner.keep_if_none_open(0, false, "p"));
    assert_eq!(inner.pipeline(0, false), Some(&"p"));
    assert_eq!(inner.pipeline(0, true), None);
    assert_eq!(inner.pipeline(1, false), None);
    inner.drop_pipeline(0);
    assert_eq!(inner.pipeline(0, false), None);
}

#[test]
fn open_pipelines_are_not_replaced() {
    let mut inner = cluster(2);
    assert!(inner.keep_if_none_open(1, false, "p"));
    assert!(!inner.keep_if_none_open(1, false, "q"));
    assert_eq!(inner.pipes, vec![None, Some("p")]);
    assert!(inner.keep_if_none_open(1, true, "q"));
    assert_eq!(inner.pipes, vec![None, Some("q")]);
    assert!(inner.keep_if_none_open(0, true, "r"));
    assert_eq!(inner.pipes, vec![Some("r"), Some("q")]);
}

#[test]
fn racing_callers_share_one_pipeline() {
    let mut inner = cluster(2);
    for _ in 0..3 {
        assert!(matches!(inner.obtain_pipeline(0, false, PipelineNews::Asked), PipelineAction::Connect));
    }
    assert!(matches!(inner.obtain_pipeline(0, false, PipelineNews::Connected("a")), PipelineAction::Start));
    assert!(matches!(inner.obtain_pipeline(0, false, PipelineNews::Connected("b")), PipelineAction::Share));
    assert!(matches!(inner.obtain_pipeline(0, false, PipelineNews::Asked), PipelineAction::Share));
    assert_eq!(inner.pipes, vec![Some("a"), None]);
    let e = IoError::new(IoErrorKind::TimedOut, "connect timed out");
    match inner.obtain_pipeline(0, false, PipelineNews::Unreachable(e)) {
        PipelineAction::Fail(e) => assert_eq!((e.kind, e.message.as_str()), (IoErrorKind::TimedOut, "connect timed out")),
        other => panic!("{other:?}"),
    }
    assert_eq!(inner.pipes, vec![Some("a"), None]);
}

#[test]
fn pipelines_that_have_ended_are_replaced() {
    let mut inner = cluster(2);
    inner.keep_if_none_open(0, false, "a");
    inner.keep_if_none_open(1, false, "z");
    assert!(matches!(inner.obtain_pipeline(0, true, PipelineNews::Asked), PipelineAction::Connect));
    let e = IoError::new(IoErrorKind::Other, "refused");
    assert!(matches!(inner.obtain_pipeline(0, true, PipelineNews::Unreachable(e)), PipelineAction::Fail(_)));
    assert_eq!(inner.pipes, vec![Some("a"), Some("z")]);
    assert!(matches!(inner.obtain_pipeline(0, true, PipelineNews::Connected("b")), PipelineAction::Start));
    assert_eq!(inner.pipes, vec![Some("b"), Some("z")]);
}

#[test]
fn close_drops_connections_and_pipelines() {
    let mut client = Client { inner: cluster(3) };
    client.inner.park(1, 5);
    client.inner.park(2, 6);
    client.inner.keep_if_none_open(0, false, "p");
    client.inner.leader = 2;
    client.close();
    assert!(client.inner.pools.iter().all(|p| p.is_empty()));
    assert!(client.inner.pipes.iter().all(|p| p.is_none()));
    assert_eq!(client.inner.leader, 2);
    assert_eq!(client.inner.nodes.len(), 3);
}

#[test]
fn reply_ends_the_call_and_marks_the_leader() {
    let mut inner = cluster(3);
    let req = request();
    let mut state = Call::begin(&inner, &req);
    assert_eq!(slept(call(&mut inner, &mut state, CallEvent::Failed("refused"))), 50);
    assert_eq!(state.target(&inner), 1);
    assert_eq!(inner.leader, 0);
    let resp = produced(4);
    assert!(matches!(call(&mut inner, &mut state, CallEvent::Reply(&resp)), CallAction::Return));
    assert_eq!(inner.leader, 1);
    assert_eq!(Call::begin(&inner, &request()).target(&inner), 1);
}

#[test]
fn other_errors_are_returned_to_the_caller() {
    let mut inner = cluster(3);
    let req = request();
    let mut state = Call::begin(&inner, &req);
    let resp = error("rate_limited", "10.0.0.2:7700");
    assert!(matches!(call(&mut inner, &mut state, CallEvent::Reply(&resp)), CallAction::Return));
    assert!(redirect_of(&resp).is_none());
    assert_eq!(redirect_of(&error("not_leader", "x")), Some(&"x".to_string()));
}

#[test]
fn redirect_to_a_member_is_followed() {
    let mut inner = cluster(3);
    let req = request();
    let mut state = Call::begin(&inner, &req);
    let resp = error("not_leader", "10.0.0.3:7700");
    assert_eq!(slept(call(&mut inner, &mut state, CallEvent::Reply(&resp))), 50);
    assert_eq!(state.target(&inner), 2);
    assert_eq!(state.last, "not_leader from 10.0.0.1:7600");
    let unknown = error("not_leader", "elsewhere");
    assert_eq!(slept(call(&mut inner, &mut state, CallEvent::Reply(&unknown))), 100);
    assert_eq!(state.target(&inner), 0);
    let silent = error("not_leader", "");
    assert_eq!(slept(call(&mut inner, &mut state, CallEvent::Reply(&silent))), 200);
    assert_eq!(state.target(&inner), 1);
    assert_eq!(inner.leader, 0);
}

#[test]
fn failures_go_round_the_cluster_three_times() {
    let mut inner = cluster(3);
    inner.leader = 1;
    let req = request();
    let mut state = Call::begin(&inner, &req);
    let mut targets = Vec::new();
    let mut waits = Vec::new();
    let reason = loop {
        targets.push(state.target(&inner));
        match call(&mut inner, &mut state, CallEvent::Failed("refused")) {
            CallAction::Sleep(ms) => waits.push(ms),
            other => break gave_up(other),
        }
    };
    assert_eq!(targets, vec![1, 2, 0, 1, 2, 0, 1, 2, 0]);
    assert_eq!(waits, vec![50, 100, 200, 400, 500, 500, 500, 500]);
    assert_eq!(
        reason,
        "hermesmq: no reachable leader after 9 attempts; last error: 10.0.0.1:7600: refused"
    );
    assert_eq!(inner.leader, 1);
}

#[test]
fn single_node_has_three_attempts() {
    let mut inner = cluster(1);
    let req = request();
    let mut state = Call::begin(&inner, &req);
    let resp = error("not_leader", "");
    slept(call(&mut inner, &mut state, CallEvent::Reply(&resp)));
    slept(call(&mut inner, &mut state, CallEvent::Reply(&resp)));
    assert_eq!(
        gave_up(call(&mut inner, &mut state, CallEvent::Reply(&resp))),
        "hermesmq: no reachable leader after 3 attempts; last error: not_leader from 10.0.0.1:7600"
    );
}

#[test]
fn every_attempt_sends_the_same_request() {
    let mut inner = cluster(3);
    let req = request();
    let mut state = Call::begin(&inner, &req);
    let redirect = error("not_leader", "10.0.0.1:7700");
    let mut members = Vec::new();
    for k in 0..9 {
        let Attempt { member, req: sent } = state.attempt(&inner);
        assert_eq!(*sent, request());
        members.push(member);
        let event = match k % 3 {
            0 => PipelinedEvent::Unreachable("no route"),
            1 => PipelinedEvent::Failed("connection lost"),
            _ => PipelinedEvent::Reply(&redirect),
        };
        call_pipelined(&mut inner, &mut state, event);
    }
    assert_eq!(members, vec![0, 1, 2, 0, 1, 2, 0, 1, 2]);
}

#[test]
fn bad_pipelines_are_forgotten() {
    let mut inner = cluster(2);
    inner.keep_if_none_open(0, false, "a");
    inner.keep_if_none_open(1, false, "b");
    let req = request();
    let mut state = Call::begin(&inner, &req);
    assert_eq!(slept(call_pipelined(&mut inner, &mut state, PipelinedEvent::Unreachable("no route"))), 50);
    assert_eq!(inner.pipes, vec![Some("a"), Some("b")]);
    assert_eq!(state.last, "10.0.0.1:7600: no route");
    assert_eq!(slept(call_pipelined(&mut inner, &mut state, PipelinedEvent::Failed("connection lost"))), 100);
    assert_eq!(inner.pipes, vec![Some("a"), None]);
    let resp = error("not_leader", "10.0.0.2:7700");
    assert_eq!(slept(call_pipelined(&mut inner, &mut state, PipelinedEvent::Reply(&resp))), 200);
    assert_eq!(inner.pipes, vec![None, None]);
    assert_eq!(state.target(&inner), 1);
    assert!(inner.keep_if_none_open(1, false, "c"));
    let resp = produced(1);
    assert!(matches!(
        call_pipelined(&mut inner, &mut state, PipelinedEvent::Reply(&resp)),
        CallAction::Return
    ));
    assert_eq!(inner.pipes, vec![None, Some("c")]);
    assert_eq!(inner.leader, 1);
}

#[test]
fn node_is_called_over_an_idle_connection_first() {
    let mut inner = cluster(1);
    let req = request();
    inner.park(0, 11);
    let stream = match call_node(&mut inner, 0, &req, NodeEvent::Begin) {
        NodeAction::TryPooled(s, sent) => {
            assert_eq!(*sent, request());
            s
        }
        other => panic!("{other:?}"),
    };
    assert_eq!(stream, 11);
    assert!(inner.pools[0].is_empty());
    match call_node(&mut inner, 0, &req, NodeEvent::Pooled(stream, Ok(produced(3)))) {
        NodeAction::Return(resp) => assert_eq!(resp, produced(3)),
        other => panic!("{other:?}"),
    }
    assert_eq!(inner.pools[0], vec![11]);
}

#[test]
fn stale_connection_is_replaced() {
    let mut inner = cluster(1);
    let req = request();
    let bad = || IoError::new(IoErrorKind::BrokenPipe, "gone");
    assert!(matches!(call_node(&mut inner, 0, &req, NodeEvent::Begin), NodeAction::Connect));
    assert!(matches!(call_node(&mut inner, 0, &req, NodeEvent::Pooled(1, Err(bad()))), NodeAction::Connect));
    assert!(inner.pools[0].is_empty());
    assert!(matches!(call_node(&mut inner, 0, &req, NodeEvent::Connected(Ok(2))), NodeAction::TryFresh(2, sent) if *sent == req));
    match call_node(&mut inner, 0, &req, NodeEvent::Connected(Err(bad()))) {
        NodeAction::Fail(e) => assert_eq!(e.message, "gone"),
        other => panic!("{other:?}"),
    }
    match call_node(&mut inner, 0, &req, NodeEvent::Fresh(2, Err(bad()))) {
        NodeAction::Fail(e) => assert_eq!(e.message, "gone"),
        other => panic!("{other:?}"),
    }
    assert!(inner.pools[0].is_empty());
    assert!(matches!(call_node(&mut inner, 0, &req, NodeEvent::Fresh(2, Ok(produced(1)))), NodeAction::Return(_)));
    assert_eq!(inner.pools[0], vec![2]);
    assert!(matches!(call_node(&mut inner, 0, &req, NodeEvent::Begin), NodeAction::TryPooled(2, sent) if *sent == req));
}

#[test]
fn exchange_comes_to_a_reply() {
    let bytes = produced(77).encode_to_vec();
    assert_eq!(request_on(Exchange::Received(bytes)).unwrap(), produced(77));
    assert_eq!(request_on(Exchange::Received(Vec::new())).unwrap(), proto::Response { kind: None });
    let late = request_on(Exchange::Elapsed).unwrap_err();
    assert_eq!((late.kind, late.message.as_str()), (IoErrorKind::TimedOut, "response timed out"));
    let failed = request_on(Exchange::Failed(IoError::new(IoErrorKind::Other, "reset"))).unwrap_err();
    assert_eq!((failed.kind, failed.message.as_str()), (IoErrorKind::Other, "reset"));
}

#[test]
fn bytes_that_do_not_decode_are_a_failure() {
    let garbage: [u8; 2] = [0x0a, 0x05];
    let words = proto::Response::decode(&garbage[..]).unwrap_err().to_string();
    let e = decode_reply(&garbage).unwrap_err();
    assert_eq!((e.kind, e.message), (IoErrorKind::Other, words));
    let e = reply_of(Err("bad".to_string())).unwrap_err();
    assert_eq!((e.kind, e.message.as_str()), (IoErrorKind::Other, "bad"));
    assert_eq!(reply_of(Ok(produced(1))).unwrap(), produced(1));
}

#[test]
fn connecting_comes_to_a_connection() {
    assert_eq!(fresh("a:1", Connecting::Connected(5)).unwrap(), 5);
    let late = fresh::<u32>("10.0.0.1:7600", Connecting::Elapsed).unwrap_err();
    assert_eq!(late.kind, IoErrorKind::TimedOut);
    assert_eq!(late.message, "connect to 10.0.0.1:7600 timed out");
    let refused = fresh::<u32>("a:1", Connecting::Failed(IoError::new(IoErrorKind::Other, "refused"))).unwrap_err();
    assert_eq!(refused.message, "refused");
}
