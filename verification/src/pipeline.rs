//! Pipelines: many requests under way on one connection. The node answers them
//! in the order in which they were sent.

use crate::error::{IoError, IoErrorKind, IoErrorView};
use crate::exchange::{decode_reply, message_reply, reply_view, response_timed_out};
use crate::wire::{decoded_response, response_view, ResponseView};
use hermesmq_proto as proto;
use vstd::prelude::*;

verus! {

/// The most requests that are under way on one pipeline.
pub const PIPELINE_DEPTH: usize = 32;

/// The most requests that wait for their turn on one pipeline.
pub const PIPELINE_QUEUE: usize = 1024;

/// The requests under way on a pipeline, by those who wait for the responses
/// (each an `R`), the one that has waited longest in front; and whether the
/// connection is lost.
pub struct Pipeline<R> {
    pub pending: Vec<R>,
    pub lost: bool,
}

/// Whether a request may go out.
#[derive(Debug)]
pub enum Admission<R> {
    /// It may.
    Admitted,
    /// Not before a response comes in.
    Full(R),
    /// Never: the connection is lost.
    Lost(R),
}

/// What the reader of a pipeline does next.
#[derive(Clone, Copy, PartialEq, Eq, Structural, Debug)]
pub enum ReadAction {
    /// Read a message.
    Read,
    /// Wait until a request is under way, or no more will be.
    Wait,
    /// Read no more.
    End,
}

/// What happened to the writer of a pipeline.
pub enum WriteEvent<R> {
    /// It is the turn of a request whose response the `R` waits for.
    Turn(R),
    /// The request that was under way last was written, or could not be.
    Wrote(bool),
    /// There are no more requests, and no more can come.
    Drained,
}

/// What the writer of a pipeline does next.
#[derive(Debug)]
pub enum WriteAction<R> {
    /// Write the request.
    Write,
    /// Wait until a response has come in; then it is the same request's turn.
    Hold(R),
    /// Take the next request.
    Take,
    /// Write no more. Once the reader reads no more either, take no more
    /// requests in, and abandon those that were never written.
    End,
}

/// A response on its way to the one who waits for it.
#[derive(Debug)]
pub struct Answer<R> {
    pub to: R,
    pub reply: Result<proto::Response, IoError>,
}

/// The failure of a request whose connection was lost.
pub open spec fn lost_reply() -> IoErrorView {
    IoErrorView { kind: IoErrorKind::BrokenPipe, message: "connection lost"@ }
}

/// Whether a request is let out or why not, with `pending` under way and the
/// connection `lost` or not.
pub open spec fn admission<R>(pending: Seq<R>, lost: bool, reply: R) -> Admission<R> {
    if lost {
        Admission::Lost(reply)
    } else if pending.len() >= PIPELINE_DEPTH {
        Admission::Full(reply)
    } else {
        Admission::Admitted
    }
}

/// What the reader does next, with `pending` under way, the connection `lost`
/// or not, and the writer at its end or not: it reads as long as somebody
/// waits, also when no more requests go out.
pub open spec fn read_action<R>(pending: Seq<R>, lost: bool, ended: bool) -> ReadAction {
    if pending.len() > 0 {
        ReadAction::Read
    } else if lost || ended {
        ReadAction::End
    } else {
        ReadAction::Wait
    }
}

/// What the writer does next, with `pending` under way and the connection
/// `lost` or not.
pub open spec fn write_action<R>(
    pending: Seq<R>,
    lost: bool,
    event: WriteEvent<R>,
) -> WriteAction<R> {
    match event {
        WriteEvent::Turn(reply) => match admission(pending, lost, reply) {
            Admission::Admitted => WriteAction::Write,
            Admission::Full(reply) => WriteAction::Hold(reply),
            Admission::Lost(_) => WriteAction::End,
        },
        WriteEvent::Wrote(true) => WriteAction::Take,
        WriteEvent::Wrote(false) => WriteAction::End,
        WriteEvent::Drained => WriteAction::End,
    }
}

/// Those who wait once the writer does what [`write_action`] says.
pub open spec fn write_pending<R>(pending: Seq<R>, lost: bool, event: WriteEvent<R>) -> Seq<R> {
    match event {
        WriteEvent::Turn(reply) => if admission(pending, lost, reply) is Admitted {
            pending.push(reply)
        } else {
            pending
        },
        _ => pending,
    }
}

/// What is answered when a reply comes in for a pipeline on which `pending`
/// wait: a response goes to the one in front. So does a failure, and then the
/// connection is lost to all the others.
pub open spec fn answers<R>(pending: Seq<R>, reply: Result<ResponseView, IoErrorView>) -> Seq<
    (R, Result<ResponseView, IoErrorView>),
> {
    if reply is Ok {
        seq![(pending[0], reply)]
    } else {
        Seq::new(
            pending.len(),
            |k: int|
                (
                    pending[k],
                    if k == 0 {
                        reply
                    } else {
                        Err(lost_reply())
                    },
                ),
        )
    }
}

/// Those who still wait after a reply came in.
pub open spec fn still_pending<R>(
    pending: Seq<R>,
    reply: Result<ResponseView, IoErrorView>,
) -> Seq<R> {
    if reply is Ok {
        pending.drop_first()
    } else {
        Seq::empty()
    }
}

/// True of a reply after which the connection is lost.
pub open spec fn loses(reply: Result<ResponseView, IoErrorView>) -> bool {
    reply is Err
}

/// The reply that a message from the connection, or its failure, comes to.
pub open spec fn received_reply(message: Result<Seq<u8>, IoErrorView>) -> Result<
    ResponseView,
    IoErrorView,
> {
    match message {
        Ok(bytes) => message_reply(bytes),
        Err(e) => Err(e),
    }
}

/// A message from the connection, or its failure, as a mathematical value.
pub open spec fn received_view(message: Result<Vec<u8>, IoError>) -> Result<
    Seq<u8>,
    IoErrorView,
> {
    match message {
        Ok(bytes) => Ok(bytes@),
        Err(e) => Err(e@),
    }
}

/// Answers as mathematical values.
pub open spec fn answers_view<R>(answers: Seq<Answer<R>>) -> Seq<
    (R, Result<ResponseView, IoErrorView>),
> {
    answers.map_values(|a: Answer<R>| (a.to, reply_view(a.reply)))
}

/// The failure of a request whose connection was lost.
pub fn connection_lost() -> (e: IoError)
    ensures
        e@ == lost_reply(),
{
    IoError::new(IoErrorKind::BrokenPipe, "connection lost")
}

impl<R> Pipeline<R> {
    /// No more requests are under way than may be, and none on a connection
    /// that is lost.
    pub open spec fn wf(self) -> bool {
        &&& self.pending@.len() <= PIPELINE_DEPTH
        &&& self.lost ==> self.pending@.len() == 0
    }

    /// A pipeline with no request under way.
    pub fn new() -> (p: Self)
        ensures
            p.wf(),
            p.pending@ == Seq::<R>::empty(),
            !p.lost,
    {
        Pipeline { pending: Vec::new(), lost: false }
    }

    /// Asks whether a request may go out whose response `reply` waits for. If
    /// it may, it counts as under way from now on.
    pub fn begin(&mut self, reply: R) -> (res: Admission<R>)
        requires
            old(self).wf(),
        ensures
            final(self).wf(),
            final(self).lost == old(self).lost,
            res == admission(old(self).pending@, old(self).lost, reply),
            final(self).pending@ == (if res is Admitted {
                old(self).pending@.push(reply)
            } else {
                old(self).pending@
            }),
    {
        if self.lost {
            Admission::Lost(reply)
        } else if self.pending.len() >= PIPELINE_DEPTH {
            Admission::Full(reply)
        } else {
            self.pending.push(reply);
            Admission::Admitted
        }
    }

    /// Whether a response is waited for.
    pub fn expects_reply(&self) -> (b: bool)
        ensures
            b == (self.pending@.len() > 0),
    {
        self.pending.len() > 0
    }

    /// Decides what the reader does next; `ended` tells whether the writer is
    /// at its end.
    pub fn next_read(&self, ended: bool) -> (a: ReadAction)
        ensures
            a == read_action(self.pending@, self.lost, ended),
    {
        if self.expects_reply() {
            ReadAction::Read
        } else if self.lost || ended {
            ReadAction::End
        } else {
            ReadAction::Wait
        }
    }

    /// Decides what the writer does next. A request whose turn comes when the
    /// connection is lost is let go, unanswered.
    pub fn next_write(&mut self, event: WriteEvent<R>) -> (a: WriteAction<R>)
        requires
            old(self).wf(),
        ensures
            final(self).wf(),
            final(self).lost == old(self).lost,
            a == write_action(old(self).pending@, old(self).lost, event),
            final(self).pending@ == write_pending(old(self).pending@, old(self).lost, event),
    {
        match event {
            WriteEvent::Turn(reply) => match self.begin(reply) {
                Admission::Admitted => WriteAction::Write,
                Admission::Full(reply) => WriteAction::Hold(reply),
                Admission::Lost(_) => WriteAction::End,
            },
            WriteEvent::Wrote(written) => {
                if written {
                    WriteAction::Take
                } else {
                    WriteAction::End
                }
            },
            WriteEvent::Drained => WriteAction::End,
        }
    }

    /// Takes in a reply, and says who gets which answer.
    pub fn settle(&mut self, reply: Result<proto::Response, IoError>) -> (out: Vec<Answer<R>>)
        requires
            old(self).wf(),
            old(self).pending@.len() > 0,
        ensures
            final(self).wf(),
            answers_view(out@) == answers(old(self).pending@, reply_view(reply)),
            final(self).pending@ == still_pending(old(self).pending@, reply_view(reply)),
            final(self).lost == (reply is Err),
    {
        let ghost pending = self.pending@;
        let ghost view = reply_view(reply);
        let failed: bool = reply.is_err();
        let front = self.pending.remove(0);
        let mut out: Vec<Answer<R>> = Vec::new();
        out.push(Answer { to: front, reply });
        if failed {
            self.lost = true;
            while self.pending.len() > 0
                invariant
                    view is Err,
                    out@.len() + self.pending@.len() == pending.len(),
                    out@.len() > 0,
                    self.pending@ == pending.skip(out@.len() as int),
                    answers_view(out@) == answers(pending, view).take(out@.len() as int),
                    self.lost,
                decreases self.pending@.len(),
            {
                let ghost before = out@;
                let next = self.pending.remove(0);
                out.push(Answer { to: next, reply: Err(connection_lost()) });
                proof {
                    assert(self.pending@ =~= pending.skip(out@.len() as int));
                    assert(answers_view(out@) =~= answers_view(before).push(
                        (next, Err(lost_reply())),
                    ));
                    assert(answers_view(out@) =~= answers(pending, view).take(out@.len() as int));
                }
            }
            assert(answers_view(out@) =~= answers(pending, view));
        } else {
            assert(answers_view(out@) =~= answers(pending, view));
        }
        out
    }

    /// Takes in a message from the connection, or its failure, and says who
    /// gets which answer.
    pub fn receive(&mut self, message: Result<Vec<u8>, IoError>) -> (out: Vec<Answer<R>>)
        requires
            old(self).wf(),
            old(self).pending@.len() > 0,
        ensures
            final(self).wf(),
            ({
                let reply = received_reply(received_view(message));
                &&& answers_view(out@) == answers(old(self).pending@, reply)
                &&& final(self).pending@ == still_pending(old(self).pending@, reply)
                &&& final(self).lost == (reply is Err)
                &&& final(self).lost == loses(reply)
            }),
    {
        let reply = match message {
            Ok(bytes) => decode_reply(bytes.as_slice()),
            Err(e) => Err(e),
        };
        self.settle(reply)
    }
}

/// What those are answered whose requests never went out.
pub open spec fn abandoned<R>(waiting: Seq<R>) -> Seq<(R, Result<ResponseView, IoErrorView>)> {
    waiting.map_values(|r: R| (r, Err::<ResponseView, IoErrorView>(lost_reply())))
}

/// Answers those whose requests never went out on a pipeline that has ended.
pub fn abandon<R>(waiting: Vec<R>) -> (out: Vec<Answer<R>>)
    ensures
        answers_view(out@) == abandoned(waiting@),
{
    let ghost all = waiting@;
    let mut out: Vec<Answer<R>> = Vec::new();
    for r in it: waiting
        invariant
            it.seq() == all,
            answers_view(out@) == abandoned(all.take(it.index() as int)),
    {
        let ghost before = out@;
        out.push(Answer { to: r, reply: Err(connection_lost()) });
        proof {
            assert(answers_view(out@) =~= answers_view(before).push(
                (r, Err::<ResponseView, IoErrorView>(lost_reply())),
            ));
            assert(answers_view(out@) =~= abandoned(all.take(it.index() + 1)));
        }
    }
    assert(all.take(all.len() as int) =~= all);
    out
}

/// What came of handing a request to a pipeline.
pub enum PipelineOutcome {
    /// The pipeline takes no more requests.
    Closed,
    /// The response did not come in time.
    Elapsed,
    /// The pipeline ended without an answer.
    Dropped,
    /// The pipeline answered.
    Answered(Result<proto::Response, IoError>),
}

/// What handing a request to a pipeline comes to.
pub open spec fn outcome_reply(outcome: PipelineOutcome) -> Result<ResponseView, IoErrorView> {
    match outcome {
        PipelineOutcome::Closed => Err(
            IoErrorView { kind: IoErrorKind::BrokenPipe, message: "produce pipeline is closed"@ },
        ),
        PipelineOutcome::Elapsed => Err(response_timed_out()),
        PipelineOutcome::Dropped => Err(
            IoErrorView {
                kind: IoErrorKind::BrokenPipe,
                message: "produce pipeline dropped the request"@,
            },
        ),
        PipelineOutcome::Answered(reply) => reply_view(reply),
    }
}

/// What handing a request to a pipeline comes to.
pub fn pipeline_reply(outcome: PipelineOutcome) -> (reply: Result<proto::Response, IoError>)
    ensures
        reply_view(reply) == outcome_reply(outcome),
{
    match outcome {
        PipelineOutcome::Closed => Err(
            IoError::new(IoErrorKind::BrokenPipe, "produce pipeline is closed"),
        ),
        PipelineOutcome::Elapsed => Err(IoError::new(IoErrorKind::TimedOut, "response timed out")),
        PipelineOutcome::Dropped => Err(
            IoError::new(IoErrorKind::BrokenPipe, "produce pipeline dropped the request"),
        ),
        PipelineOutcome::Answered(reply) => reply,
    }
}

/// What happens to a pipeline.
pub enum PipelineEvent<R> {
    /// A request is handed in whose response is for the `R`.
    Queued(R),
    /// It is the turn of the request that was handed in first.
    Turn,
    /// The request that was under way last was written, or could not be.
    Wrote(bool),
    /// There are no more requests, and no more can come.
    Drained,
    /// A message comes in, or the connection fails.
    Received(Result<Seq<u8>, IoErrorView>),
    /// The writer and the reader are at their ends: no more requests are taken
    /// in, and those that were never written are abandoned.
    Closed,
}

/// Those to whom answers go.
pub open spec fn receivers<R>(answers: Seq<(R, Result<ResponseView, IoErrorView>)>) -> Seq<R> {
    answers.map_values(|a: (R, Result<ResponseView, IoErrorView>)| a.0)
}

/// The history of a pipeline.
pub struct History<R> {
    /// Whose requests were handed in.
    pub queued: Seq<R>,
    /// Whose requests have not had their turn.
    pub queue: Seq<R>,
    /// Whose requests went out.
    pub sent: Seq<R>,
    /// What was read from the connection.
    pub received: Seq<Result<Seq<u8>, IoErrorView>>,
    /// Who was answered with what came of the connection.
    pub answered: Seq<(R, Result<ResponseView, IoErrorView>)>,
    /// Who waits for what comes of the connection.
    pub pending: Seq<R>,
    /// Whose request was let go, unanswered.
    pub dropped: Seq<R>,
    /// Who was answered when the pipeline was closed.
    pub abandoned: Seq<(R, Result<ResponseView, IoErrorView>)>,
    /// Whether the connection is lost.
    pub lost: bool,
    /// Whether the writer is at its end.
    pub ended: bool,
    /// Whether the pipeline is closed.
    pub closed: bool,
}

impl<R> History<R> {
    /// Those who were answered with what came of the connection.
    pub open spec fn served(self) -> Seq<R> {
        receivers(self.answered)
    }

    /// What the reader does next.
    pub open spec fn reads(self) -> ReadAction {
        read_action(self.pending, self.lost, self.ended)
    }
}

/// The history after one more event. Nothing is read while nobody waits, no
/// request has its turn once the writer is at its end, and a pipeline that is
/// closed takes no request in.
pub open spec fn history_next<R>(h: History<R>, event: PipelineEvent<R>) -> History<R> {
    match event {
        PipelineEvent::Queued(r) => if h.closed {
            h
        } else {
            History { queued: h.queued.push(r), queue: h.queue.push(r), ..h }
        },
        PipelineEvent::Turn => if h.ended || h.queue.len() == 0 {
            h
        } else {
            let r = h.queue[0];
            let turn = WriteEvent::Turn(r);
            let pending = write_pending(h.pending, h.lost, turn);
            let queue = h.queue.drop_first();
            match write_action(h.pending, h.lost, turn) {
                WriteAction::Write => History { queue, sent: h.sent.push(r), pending, ..h },
                WriteAction::End => History { queue, dropped: h.dropped.push(r), ended: true, ..h },
                _ => h,
            }
        },
        PipelineEvent::Wrote(written) => History {
            ended: h.ended || write_action(h.pending, h.lost, WriteEvent::Wrote(written)) is End,
            ..h
        },
        PipelineEvent::Drained => History {
            ended: h.ended || write_action(h.pending, h.lost, WriteEvent::Drained) is End,
            ..h
        },
        PipelineEvent::Received(message) => if h.reads() is Read {
            let reply = received_reply(message);
            History {
                received: h.received.push(message),
                answered: h.answered + answers(h.pending, reply),
                pending: still_pending(h.pending, reply),
                lost: loses(reply),
                ..h
            }
        } else {
            h
        },
        PipelineEvent::Closed => if h.ended && h.reads() is End && !h.closed {
            History { queue: Seq::empty(), abandoned: abandoned(h.queue), closed: true, ..h }
        } else {
            h
        },
    }
}

/// The history after the given events.
pub open spec fn history<R>(events: Seq<PipelineEvent<R>>) -> History<R>
    decreases events.len(),
{
    if events.len() == 0 {
        History {
            queued: Seq::empty(),
            queue: Seq::empty(),
            sent: Seq::empty(),
            received: Seq::empty(),
            answered: Seq::empty(),
            pending: Seq::empty(),
            dropped: Seq::empty(),
            abandoned: Seq::empty(),
            lost: false,
            ended: false,
            closed: false,
        }
    } else {
        history_next(history(events.drop_last()), events.last())
    }
}

/// Nobody is forgotten and nobody is answered twice: at any time those who were
/// answered, followed by those who wait, are those whose requests went out, in
/// the order in which they went out. No more wait than may, and nobody waits
/// on a connection that is lost.
pub proof fn law_answered_once_in_order<R>(events: Seq<PipelineEvent<R>>)
    ensures
        history(events).served() + history(events).pending == history(events).sent,
        history(events).pending.len() <= PIPELINE_DEPTH,
        history(events).lost ==> history(events).pending.len() == 0,
    decreases events.len(),
{
    if events.len() > 0 {
        let h = history(events.drop_last());
        law_answered_once_in_order(events.drop_last());
        let next = history(events);
        if next.pending != h.pending {
            match events.last() {
                PipelineEvent::Turn => {
                    let r = h.queue[0];
                    assert(next.served() + next.pending =~= (h.served() + h.pending).push(r));
                },
                _ => {
                    assert(next.served() + next.pending =~= h.served() + h.pending);
                },
            }
        } else {
            assert(next.served() + next.pending =~= h.served() + h.pending);
        }
    }
}

/// Each caller gets the response to their own request: the answer of number `k`
/// goes to the one whose request went out as number `k`, and it is what the
/// message of number `k` came to. Where no such message was read, the
/// connection is lost, and the answer says so. So no caller is given a response
/// other than the one that the connection brought in their turn.
pub proof fn law_answers_match_requests<R>(events: Seq<PipelineEvent<R>>)
    ensures
        history(events).received.len() <= history(events).answered.len() <= history(
            events,
        ).sent.len(),
        !history(events).lost ==> history(events).received.len() == history(events).answered.len(),
        forall|k: int|
            #![trigger history(events).answered[k]]
            0 <= k < history(events).answered.len() ==> history(events).answered[k] == (
                history(events).sent[k],
                if k < history(events).received.len() {
                    received_reply(history(events).received[k])
                } else {
                    Err(lost_reply())
                },
            ),
        forall|k: int|
            #![trigger history(events).answered[k]]
            0 <= k < history(events).answered.len() && history(events).answered[k].1 is Ok ==> k
                < history(events).received.len() && history(events).answered[k].1
                == received_reply(history(events).received[k]),
    decreases events.len(),
{
    law_answered_once_in_order(events);
    let next = history(events);
    assert forall|k: int| 0 <= k < next.answered.len() implies (#[trigger] next.answered[k]).0
        == next.sent[k] by {
        assert(next.served()[k] == next.answered[k].0);
        assert((next.served() + next.pending)[k] == next.served()[k]);
    }
    if events.len() > 0 {
        let h = history(events.drop_last());
        law_answered_once_in_order(events.drop_last());
        law_answers_match_requests(events.drop_last());
        if let PipelineEvent::Received(message) = events.last() {
            if h.pending.len() > 0 {
                let new = answers(h.pending, received_reply(message));
                assert forall|k: int| 0 <= k < next.answered.len() implies (
                #[trigger] next.answered[k]).1 == (if k < next.received.len() {
                    received_reply(next.received[k])
                } else {
                    Err(lost_reply())
                }) by {
                    if k < h.answered.len() {
                        assert(next.answered[k] == h.answered[k]);
                    } else {
                        assert(next.answered[k] == new[k - h.answered.len()]);
                    }
                }
            }
        }
    }
}

/// Everybody whose request was handed in is accounted for, in the order in
/// which the requests were handed in: first those whose requests went out, then
/// the one whose request was let go, if any was, then those whose requests have
/// not had their turn, or who were told so when the pipeline was closed.
pub proof fn law_everybody_is_accounted_for<R>(events: Seq<PipelineEvent<R>>)
    ensures
        ({
            let h = history(events);
            &&& h.sent + h.dropped + h.queue + receivers(h.abandoned) == h.queued
            &&& h.dropped.len() <= 1
            &&& h.dropped.len() > 0 ==> h.lost && h.ended
            &&& h.closed ==> h.ended && h.pending.len() == 0 && h.queue.len() == 0
            &&& !h.closed ==> h.abandoned.len() == 0
        }),
    decreases events.len(),
{
    if events.len() > 0 {
        let h = history(events.drop_last());
        law_answered_once_in_order(events.drop_last());
        law_everybody_is_accounted_for(events.drop_last());
        let next = history(events);
        let all = h.sent + h.dropped + h.queue + receivers(h.abandoned);
        match events.last() {
            PipelineEvent::Queued(r) => {
                if !h.closed {
                    assert(next.sent + next.dropped + next.queue + receivers(next.abandoned)
                        =~= all.push(r));
                }
            },
            _ => {
                assert(next.sent + next.dropped + next.queue + receivers(next.abandoned) =~= all);
            },
        }
    }
}

/// Nobody is left waiting by a pipeline that is closed: those who were answered
/// with what came of the connection, the one whose request was let go, if any
/// was, and those who were told that the connection is lost are all those whose
/// requests were handed in, each of them once.
pub proof fn law_nobody_is_left_waiting<R>(events: Seq<PipelineEvent<R>>)
    requires
        history(events).closed,
    ensures
        history(events).served() + history(events).dropped + receivers(history(events).abandoned)
            == history(events).queued,
        history(events).dropped.len() <= 1,
        forall|k: int|
            #![trigger history(events).abandoned[k]]
            0 <= k < history(events).abandoned.len() ==> history(events).abandoned[k].1 == Err::<
                ResponseView,
                IoErrorView,
            >(lost_reply()),
    decreases events.len(),
{
    law_answered_once_in_order(events);
    law_everybody_is_accounted_for(events);
    let h = history(events);
    assert(h.served() + h.pending =~= h.served());
    assert(h.sent + h.dropped + h.queue + receivers(h.abandoned) =~= h.sent + h.dropped + receivers(
        h.abandoned,
    ));
    if history(events.drop_last()).closed {
        law_nobody_is_left_waiting(events.drop_last());
    }
}

/// The reader ends only when nobody waits: at its end, those who were answered
/// are exactly those whose requests went out. Until then it reads as long as
/// somebody waits, whether or not more requests go out.
pub proof fn law_reader_ends_when_all_are_answered<R>(events: Seq<PipelineEvent<R>>)
    ensures
        history(events).reads() is End ==> history(events).served() == history(events).sent,
        history(events).reads() is Read <==> history(events).pending.len() > 0,
{
    law_answered_once_in_order(events);
    let h = history(events);
    if h.pending.len() == 0 {
        assert(h.served() + h.pending =~= h.served());
    }
}

/// The end of the reader is final: whatever happens then, no request goes out,
/// nothing is read and nobody is answered by the connection.
pub proof fn law_reader_end_is_final<R>(h: History<R>, event: PipelineEvent<R>)
    requires
        h.reads() is End,
    ensures
        history_next(h, event).reads() is End,
        history_next(h, event).sent == h.sent,
        history_next(h, event).received == h.received,
        history_next(h, event).answered == h.answered,
{
}

/// Messages that come in one after the other.
pub open spec fn arrivals<R>(messages: Seq<Seq<u8>>) -> Seq<PipelineEvent<R>> {
    messages.map_values(|m: Seq<u8>| PipelineEvent::<R>::Received(Ok(m)))
}

/// What is under way is not cancelled when the writer comes to its end, because
/// a request could not be written or because no more come: the responses that
/// still come in go to those who wait, each to their own, and are read until
/// nobody waits.
pub proof fn law_ending_cancels_nothing<R>(
    events: Seq<PipelineEvent<R>>,
    last: PipelineEvent<R>,
    messages: Seq<Seq<u8>>,
)
    requires
        last == PipelineEvent::<R>::Wrote(false) || last is Drained,
        messages.len() <= history(events).pending.len(),
        forall|k: int| 0 <= k < messages.len() ==> message_reply(#[trigger] messages[k]) is Ok,
    ensures
        ({
            let h = history(events);
            let after = history(events.push(last) + arrivals(messages));
            &&& after.answered == h.answered + Seq::new(
                messages.len(),
                |k: int| (h.pending[k], message_reply(messages[k])),
            )
            &&& after.pending == h.pending.skip(messages.len() as int)
            &&& after.ended
            &&& after.reads() == (if messages.len() < h.pending.len() {
                ReadAction::Read
            } else {
                ReadAction::End
            })
        }),
    decreases messages.len(),
{
    let h = history(events);
    let all = events.push(last) + arrivals(messages);
    let after = history(all);
    let told = Seq::new(messages.len(), |k: int| (h.pending[k], message_reply(messages[k])));
    if messages.len() == 0 {
        assert(all =~= events.push(last));
        assert(all.drop_last() =~= events);
        assert(after.answered =~= h.answered + told);
        assert(after.pending =~= h.pending.skip(0));
    } else {
        let front = messages.drop_last();
        assert forall|k: int| 0 <= k < front.len() implies message_reply(
            #[trigger] front[k],
        ) is Ok by {
            assert(message_reply(messages[k]) is Ok);
        }
        law_ending_cancels_nothing(events, last, front);
        assert(all.drop_last() =~= events.push(last) + arrivals(front));
        assert(all.last() == PipelineEvent::<R>::Received(Ok(messages.last())));
        assert(message_reply(messages.last()) is Ok);
        assert(after.answered =~= h.answered + told);
        assert(after.pending =~= h.pending.skip(messages.len() as int));
    }
}

/// A failure of the connection leaves nobody waiting: all are answered, each
/// with a failure.
pub proof fn law_failure_answers_all<R>(pending: Seq<R>, failure: IoErrorView)
    ensures
        still_pending(pending, Err(failure)).len() == 0,
        answers(pending, Err(failure)).len() == pending.len(),
        forall|k: int|
            0 <= k < pending.len() ==> (#[trigger] answers(pending, Err(failure))[k]).0
                == pending[k] && answers(pending, Err(failure))[k].1 is Err,
{
}

/// A request goes out exactly if fewer than 32 are under way and the connection
/// is not lost. One that is held up by others may go out later, and one that is
/// held up by a lost connection never.
pub proof fn law_thirty_two_requests_are_under_way<R>(pending: Seq<R>, lost: bool, reply: R)
    ensures
        match admission(pending, lost, reply) {
            Admission::Admitted => !lost && pending.len() < 32,
            Admission::Full(r) => !lost && pending.len() >= 32 && r == reply,
            Admission::Lost(r) => lost && r == reply,
        },
{
}

/// A message from the connection is an answer to the one who has waited longest,
/// and to nobody else: if it holds a response, they get that response and the
/// others wait on. If it holds none, or the connection failed, they get that
/// failure, everybody else is told that the connection is lost, as it is from
/// then on, and nobody waits.
pub proof fn law_message_goes_to_who_waited_longest<R>(
    pending: Seq<R>,
    message: Result<Vec<u8>, IoError>,
    out: Seq<Answer<R>>,
    after: Seq<R>,
    lost: bool,
)
    requires
        pending.len() > 0,
        lost == loses(received_reply(received_view(message))),
        answers_view(out) == answers(pending, received_reply(received_view(message))),
        after == still_pending(pending, received_reply(received_view(message))),
    ensures
        out.len() > 0,
        out[0].to == pending[0],
        match message {
            Ok(bytes) => match decoded_response(bytes@) {
                Ok(said) => out[0].reply matches Ok(resp) && response_view(resp) == said
                    && out.len() == 1 && after == pending.skip(1) && !lost,
                Err(words) => out[0].reply matches Err(e) && e.kind == IoErrorKind::Other
                    && e.message@ == words && out.len() == pending.len() && after.len() == 0
                    && lost,
            },
            Err(failure) => out[0].reply matches Err(e) && e.kind == failure.kind && e.message@
                == failure.message@ && out.len() == pending.len() && after.len() == 0 && lost,
        },
        forall|k: int|
            0 < k < out.len() ==> (#[trigger] out[k]).to == pending[k] && (out[k].reply matches
                Err(e) && e.kind == IoErrorKind::BrokenPipe && e.message@ == "connection lost"@),
{
    let reply = received_reply(received_view(message));
    let views = answers_view(out);
    assert(views.len() == out.len());
    assert(views[0] == (out[0].to, reply_view(out[0].reply)));
    assert forall|k: int| 0 < k < out.len() implies (#[trigger] out[k]).to == pending[k] && (
    out[k].reply matches Err(e) && e.kind == IoErrorKind::BrokenPipe && e.message@
        == "connection lost"@) by {
        assert(views[k] == (out[k].to, reply_view(out[k].reply)));
        assert(views[k] == answers(pending, reply)[k]);
    }
    if reply is Ok {
        assert(pending.drop_first() =~= pending.skip(1));
    }
}

/// Everybody whose request never went out is told, in their order and each once,
/// that the connection is lost.
pub proof fn law_the_rest_are_told<R>(waiting: Seq<R>, out: Seq<Answer<R>>)
    requires
        answers_view(out) == abandoned(waiting),
    ensures
        out.len() == waiting.len(),
        forall|k: int|
            0 <= k < waiting.len() ==> (#[trigger] out[k]).to == waiting[k] && (
            out[k].reply matches Err(e) && e.kind == IoErrorKind::BrokenPipe && e.message@
                == "connection lost"@),
{
    let views = answers_view(out);
    assert(views.len() == out.len());
    assert forall|k: int| 0 <= k < waiting.len() implies (#[trigger] out[k]).to == waiting[k] && (
    out[k].reply matches Err(e) && e.kind == IoErrorKind::BrokenPipe && e.message@
        == "connection lost"@) by {
        assert(views[k] == (out[k].to, reply_view(out[k].reply)));
        assert(views[k] == abandoned(waiting)[k]);
    }
}

/// What a request over a pipeline comes to: to what the pipeline answers, if it
/// answers in time; else to a failure that says why there is no answer.
pub proof fn law_pipeline_answers_or_says_why_not(
    outcome: PipelineOutcome,
    reply: Result<proto::Response, IoError>,
)
    requires
        reply_view(reply) == outcome_reply(outcome),
    ensures
        match outcome {
            PipelineOutcome::Answered(Ok(answer)) => reply matches Ok(resp) && response_view(resp)
                == response_view(answer),
            PipelineOutcome::Answered(Err(failure)) => reply matches Err(e) && e.kind
                == failure.kind && e.message@ == failure.message@,
            PipelineOutcome::Closed => reply matches Err(e) && e.kind == IoErrorKind::BrokenPipe
                && e.message@ == "produce pipeline is closed"@,
            PipelineOutcome::Dropped => reply matches Err(e) && e.kind == IoErrorKind::BrokenPipe
                && e.message@ == "produce pipeline dropped the request"@,
            PipelineOutcome::Elapsed => reply matches Err(e) && e.kind == IoErrorKind::TimedOut
                && e.message@ == "response timed out"@,
        },
{
}

/// The writer writes a request when it is let out and not before, takes the next
/// one when it is written, and writes no more when one could not be written,
/// when the connection is lost, or when none is left. The reader reads exactly
/// while somebody waits, and waits for more only while more can come.
pub proof fn law_pipeline_runs_while_it_can<R>(pending: Seq<R>, lost: bool, ended: bool, r: R)
    ensures
        write_action(pending, lost, WriteEvent::Turn(r)) == (if lost {
            WriteAction::<R>::End
        } else if pending.len() < 32 {
            WriteAction::Write
        } else {
            WriteAction::Hold(r)
        }),
        write_pending(pending, lost, WriteEvent::Turn(r)) == (if !lost && pending.len() < 32 {
            pending.push(r)
        } else {
            pending
        }),
        write_action(pending, lost, WriteEvent::Wrote(true)) == WriteAction::<R>::Take,
        write_action(pending, lost, WriteEvent::Wrote(false)) == WriteAction::<R>::End,
        write_action(pending, lost, WriteEvent::Drained) == WriteAction::<R>::End,
        write_pending(pending, lost, WriteEvent::Wrote(true)) == pending,
        write_pending(pending, lost, WriteEvent::Wrote(false)) == pending,
        write_pending(pending, lost, WriteEvent::Drained) == pending,
        read_action(pending, lost, ended) is Read <==> pending.len() > 0,
        read_action(pending, lost, ended) is Wait <==> pending.len() == 0 && !lost && !ended,
        read_action(pending, lost, ended) is End <==> pending.len() == 0 && (lost || ended),
{
}

} // verus!
