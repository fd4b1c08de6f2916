use hermesmq_node::error::{IoError, IoErrorKind};
use hermesmq_node::pipeline::{
    abandon, connection_lost, pipeline_reply, Admission, Pipeline, PipelineOutcome, ReadAction, WriteAction,
    WriteEvent, PIPELINE_DEPTH,
};
use hermesmq_proto as proto;
use prost::Message;

fn produced(offset: u64) -> proto::Response {
    proto::Response { kind: Some(proto::response::Kind::Produced(proto::Produced { offset })) }
}

fn admitted(n: u32) -> Pipeline<u32> {
    let mut p = Pipeline::new();
    for k in 0..n {
        assert!(matches!(p.begin(k), Admission::Admitted));
    }
    p
}

#[test]
fn responses_go_to_requests_in_order() {
    let mut p = admitted(3);
    for k in 0..3 {
        assert!(p.expects_reply());
        let out = p.receive(Ok(produced(100 + k as u64).encode_to_vec()));
        assert_eq!(out.len(), 1);
        assert_eq!(out[0].to, k);
        assert_eq!(*out[0].reply.as_ref().unwrap(), produced(100 + k as u64));
    }
    assert!(!p.expects_reply());
    assert!(!p.lost);
}

#[test]
fn at_most_thirty_two_requests_are_under_way() {
    assert_eq!(PIPELINE_DEPTH, 32);
    let mut p = admitted(32);
    assert!(matches!(p.begin(99), Admission::Full(99)));
    let out = p.settle(Ok(produced(0)));
    assert_eq!(out[0].to, 0);
    assert!(matches!(p.begin(99), Admission::Admitted));
    assert!(matches!(p.begin(100), Admission::Full(100)));
}

#[test]
fn failure_answers_everybody() {
    let mut p = admitted(3);
    let out = p.receive(Err(IoError::new(IoErrorKind::Other, "reset by peer")));
    let told: Vec<(u32, &str)> =
        out.iter().map(|a| (a.to, a.reply.as_ref().unwrap_err().message.as_str())).collect();
    assert_eq!(told, vec![(0, "reset by peer"), (1, "connection lost"), (2, "connection lost")]);
    assert_eq!(out[2].reply.as_ref().unwrap_err().kind, IoErrorKind::BrokenPipe);
    assert!(!p.expects_reply());
    assert!(matches!(p.begin(4), Admission::Lost(4)));
}

#[test]
fn callers_get_the_responses_to_their_own_requests() {
    let mut p: Pipeline<u32> = Pipeline::new();
    let mut answered: Vec<(u32, Option<proto::Response>)> = Vec::new();
    let mut sent = 0;
    let mut read = 0;
    for round in 0..4 {
        for _ in 0..=round {
            assert!(matches!(p.begin(sent), Admission::Admitted));
            sent += 1;
        }
        for _ in 0..round {
            let out = p.receive(Ok(produced(read).encode_to_vec()));
            answered.extend(out.into_iter().map(|a| (a.to, a.reply.ok())));
            read += 1;
        }
    }
    assert_eq!((sent, read), (10, 6));
    let out = p.receive(Err(IoError::new(IoErrorKind::Other, "reset")));
    answered.extend(out.into_iter().map(|a| (a.to, a.reply.ok())));
    let expected: Vec<(u32, Option<proto::Response>)> =
        (0..10).map(|k| (k, if k < 6 { Some(produced(k as u64)) } else { None })).collect();
    assert_eq!(answered, expected);
}

#[test]
fn response_that_does_not_decode_loses_the_connection() {
    let mut p = admitted(2);
    let out = p.receive(Ok(vec![0x0a, 0x05]));
    assert_eq!(out.len(), 2);
    assert_eq!(out[0].reply.as_ref().unwrap_err().kind, IoErrorKind::Other);
    assert_eq!(out[1].reply.as_ref().unwrap_err().message, "connection lost");
    assert!(p.lost);
}

#[test]
fn reader_reads_on_after_the_last_request() {
    let mut p: Pipeline<u32> = Pipeline::new();
    assert_eq!(p.next_read(false), ReadAction::Wait);
    assert_eq!(p.next_read(true), ReadAction::End);
    for k in 0..2 {
        assert!(matches!(p.next_write(WriteEvent::Turn(k)), WriteAction::Write));
    }
    assert!(matches!(p.next_write(WriteEvent::Wrote(false)), WriteAction::End));
    for k in 0..2 {
        assert_eq!(p.next_read(true), ReadAction::Read);
        let out = p.receive(Ok(produced(k as u64).encode_to_vec()));
        assert_eq!(out.len(), 1);
        assert_eq!(out[0].to, k);
        assert_eq!(*out[0].reply.as_ref().unwrap(), produced(k as u64));
    }
    assert_eq!(p.next_read(true), ReadAction::End);
    assert_eq!(p.next_read(false), ReadAction::Wait);
}

#[test]
fn reader_ends_when_the_connection_is_lost() {
    let mut p = admitted(2);
    assert_eq!(p.next_read(false), ReadAction::Read);
    assert_eq!(p.receive(Err(IoError::new(IoErrorKind::Other, "reset"))).len(), 2);
    assert_eq!(p.next_read(false), ReadAction::End);
}

#[test]
fn writer_takes_requests_in_turn() {
    let mut p: Pipeline<u32> = Pipeline::new();
    for k in 0..32 {
        assert!(matches!(p.next_write(WriteEvent::Turn(k)), WriteAction::Write));
        assert!(matches!(p.next_write(WriteEvent::Wrote(true)), WriteAction::Take));
    }
    assert!(matches!(p.next_write(WriteEvent::Turn(32)), WriteAction::Hold(32)));
    p.settle(Ok(produced(0)));
    assert!(matches!(p.next_write(WriteEvent::Turn(32)), WriteAction::Write));
    assert!(matches!(p.next_write(WriteEvent::Drained), WriteAction::End));
    assert_eq!(p.pending.len(), 32);
    p.settle(Err(connection_lost()));
    assert!(matches!(p.next_write(WriteEvent::Turn(33)), WriteAction::End));
    assert!(p.pending.is_empty());
}

#[test]
fn nobody_is_left_waiting() {
    let mut p: Pipeline<u32> = Pipeline::new();
    let mut queue: Vec<u32> = (0..6).collect();
    let mut told = Vec::new();
    for _ in 0..3 {
        assert!(matches!(p.next_write(WriteEvent::Turn(queue.remove(0))), WriteAction::Write));
    }
    told.extend(p.receive(Ok(produced(0).encode_to_vec())));
    told.extend(p.receive(Err(IoError::new(IoErrorKind::Other, "reset"))));
    let dropped = queue.remove(0);
    assert!(matches!(p.next_write(WriteEvent::Turn(dropped)), WriteAction::End));
    assert_eq!(p.next_read(true), ReadAction::End);
    let served: Vec<u32> = told.iter().map(|a| a.to).collect();
    let left: Vec<u32> = abandon(queue).iter().map(|a| a.to).collect();
    assert_eq!((served, dropped, left), (vec![0, 1, 2], 3, vec![4, 5]));
}

#[test]
fn waiting_requests_are_told_that_the_connection_is_lost() {
    let out = abandon(vec!["x", "y"]);
    assert_eq!(out.len(), 2);
    for (a, to) in out.iter().zip(["x", "y"]) {
        assert_eq!(a.to, to);
        let e = a.reply.as_ref().unwrap_err();
        assert_eq!((e.kind, e.message.as_str()), (IoErrorKind::BrokenPipe, "connection lost"));
    }
    assert!(abandon(Vec::<u8>::new()).is_empty());
    assert_eq!(connection_lost().message, "connection lost");
}

#[test]
fn outcomes_of_a_pipeline_come_to_replies() {
    for (outcome, kind, words) in [
        (PipelineOutcome::Closed, IoErrorKind::BrokenPipe, "produce pipeline is closed"),
        (PipelineOutcome::Elapsed, IoErrorKind::TimedOut, "response timed out"),
        (PipelineOutcome::Dropped, IoErrorKind::BrokenPipe, "produce pipeline dropped the request"),
        (PipelineOutcome::Answered(Err(connection_lost())), IoErrorKind::BrokenPipe, "connection lost"),
    ] {
        let e = pipeline_reply(outcome).unwrap_err();
        assert_eq!((e.kind, e.message.as_str()), (kind, words));
    }
    assert_eq!(pipeline_reply(PipelineOutcome::Answered(Ok(produced(5)))).unwrap(), produced(5));
}
