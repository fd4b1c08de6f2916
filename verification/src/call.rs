//! Calls: which node a request goes to, and what a reply or a failure leads to.
//!
//! A call is a loop of attempts. Sending a request and waiting are done by
//! whoever runs the loop; [`Call::attempt`] says what to send to which node,
//! and the outcome of each attempt is handed to [`call`] or [`call_pipelined`],
//! which decide what comes next.

use crate::backoff::{
    backoff, backoff_ms, law_backoff_grows, law_backoff_is_exponential, CALL_BACKOFF_CAP_MS,
};
use crate::cluster::{law_member_is_found_by_address, peer_position, Inner, NodeRec};
use crate::error::ClientError;
use crate::text::{decimal, decimal_text};
use crate::wire::{request_view, response_view, RequestView, ResponseView};
use hermesmq_proto as proto;
use vstd::arithmetic::div_mod::{
    lemma_add_mod_noop, lemma_fundamental_div_mod, lemma_mod_add_multiples_vanish, lemma_mod_bound,
    lemma_small_mod,
};
use vstd::arithmetic::power2::lemma2_to64;
use vstd::prelude::*;
use vstd::string::*;

verus! {

/// A call under way: the request that it carries, how many attempts it has,
/// which of them is running, which node that attempt goes to (counted on past
/// the last node to the first), and what the attempt before it came to.
#[derive(Debug)]
pub struct Call<'a> {
    pub req: &'a proto::Request,
    pub attempts: usize,
    pub attempt: usize,
    pub idx: usize,
    pub last: String,
}

/// A [`Call`] as a mathematical value.
pub struct CallView {
    pub req: RequestView,
    pub attempts: nat,
    pub attempt: nat,
    pub idx: nat,
    pub last: Seq<char>,
}

impl<'a> View for Call<'a> {
    type V = CallView;

    open spec fn view(&self) -> CallView {
        CallView {
            req: request_view(*self.req),
            attempts: self.attempts as nat,
            attempt: self.attempt as nat,
            idx: self.idx as nat,
            last: self.last@,
        }
    }
}

/// An attempt to be made: which member it goes to, and the request to send.
#[derive(Debug)]
pub struct Attempt<'a> {
    pub member: usize,
    pub req: &'a proto::Request,
}

/// An [`Attempt`] as a mathematical value.
pub struct AttemptView {
    pub member: nat,
    pub req: RequestView,
}

impl<'a> View for Attempt<'a> {
    type V = AttemptView;

    open spec fn view(&self) -> AttemptView {
        AttemptView { member: self.member as nat, req: request_view(*self.req) }
    }
}

/// What came of an attempt.
pub enum CallEvent<'a> {
    /// The node answered.
    Reply(&'a proto::Response),
    /// No answer was had, for the reason given.
    Failed(&'a str),
}

/// What came of an attempt over a pipeline.
pub enum PipelinedEvent<'a> {
    /// There was no pipeline to the node and none could be had, for the reason
    /// given.
    Unreachable(&'a str),
    /// The node answered.
    Reply(&'a proto::Response),
    /// The pipeline gave no answer, for the reason given.
    Failed(&'a str),
}

/// What came of an attempt, as a mathematical value.
pub enum CallEventView {
    Reply(ResponseView),
    Failed(Seq<char>),
}

impl<'a> View for CallEvent<'a> {
    type V = CallEventView;

    open spec fn view(&self) -> CallEventView {
        match self {
            CallEvent::Reply(resp) => CallEventView::Reply(response_view(**resp)),
            CallEvent::Failed(text) => CallEventView::Failed(text@),
        }
    }
}

impl<'a> View for PipelinedEvent<'a> {
    type V = CallEventView;

    open spec fn view(&self) -> CallEventView {
        match self {
            PipelinedEvent::Unreachable(text) => CallEventView::Failed(text@),
            PipelinedEvent::Reply(resp) => CallEventView::Reply(response_view(**resp)),
            PipelinedEvent::Failed(text) => CallEventView::Failed(text@),
        }
    }
}

/// What the runner of a call does next.
#[derive(Debug)]
pub enum CallAction {
    /// Hand the reply to the caller.
    Return,
    /// Wait this many milliseconds, then make the next attempt.
    Sleep(u64),
    /// Hand this error to the caller.
    GiveUp(ClientError),
}

/// A [`CallAction`] as a mathematical value.
pub enum CallActionView {
    Return,
    Sleep(nat),
    GiveUp(Seq<char>),
}

impl View for CallAction {
    type V = CallActionView;

    open spec fn view(&self) -> CallActionView {
        match self {
            CallAction::Return => CallActionView::Return,
            CallAction::Sleep(ms) => CallActionView::Sleep(*ms as nat),
            CallAction::GiveUp(e) => CallActionView::GiveUp(e@),
        }
    }
}

/// The members of a cluster: the addresses that they serve clients on, and
/// those by which they know each other.
pub struct Members {
    pub addrs: Seq<Seq<char>>,
    pub peers: Seq<Seq<char>>,
}

/// The members that `inner` holds.
pub open spec fn members<S, H>(inner: Inner<S, H>) -> Members {
    Members { addrs: inner.nodes@.map_values(|n: NodeRec| n.client_addr@), peers: inner.peers() }
}

/// The attempts that a call has in a cluster of `n` members.
pub open spec fn attempts_for(n: nat) -> nat {
    if n == 0 {
        3
    } else {
        3 * n
    }
}

/// If `resp` says that the node which answered is not the leader: the address
/// of the node that it takes for the leader.
pub open spec fn redirect(resp: ResponseView) -> Option<Seq<char>> {
    match resp {
        ResponseView::Error(e) => if e.code == "not_leader"@ {
            Some(e.leader_addr)
        } else {
            None
        },
        _ => None,
    }
}

/// Where to go after the member `i` pointed to `leader_addr`: to the member of
/// that address if there is one, else to the next.
pub open spec fn redirected(peers: Seq<Seq<char>>, leader_addr: Seq<char>, i: nat) -> nat {
    match peer_position(peers, leader_addr) {
        Some(j) => j as nat,
        None => i + 1,
    }
}

/// The words in which a call gives up.
pub open spec fn no_leader(attempts: nat, last: Seq<char>) -> Seq<char> {
    "hermesmq: no reachable leader after "@ + decimal(attempts) + " attempts; last error: "@ + last
}

/// The number of the member that the running attempt goes to.
pub open spec fn call_target(call: CallView, n: nat) -> nat {
    call.idx % n
}

/// The running attempt.
pub open spec fn call_attempt(call: CallView, n: nat) -> AttemptView {
    AttemptView { member: call_target(call, n), req: call.req }
}

/// What follows an attempt that came to `last` and after which the member
/// `idx` is next.
pub open spec fn retried(call: CallView, last: Seq<char>, idx: nat) -> (CallView, CallActionView) {
    let next = CallView { attempt: call.attempt + 1, idx, last, ..call };
    if next.attempt < next.attempts {
        (
            next,
            CallActionView::Sleep(
                backoff_ms(call.attempt % 0x1_0000_0000, CALL_BACKOFF_CAP_MS as nat),
            ),
        )
    } else {
        (next, CallActionView::GiveUp(no_leader(next.attempts, last)))
    }
}

/// What follows an attempt: a reply ends the call, unless it points to another
/// leader; a failure leads on to the next member.
pub open spec fn call_next(m: Members, call: CallView, event: CallEventView) -> (
    CallView,
    CallActionView,
) {
    let i = call_target(call, m.addrs.len());
    match event {
        CallEventView::Failed(text) => retried(call, m.addrs[i as int] + ": "@ + text, i + 1),
        CallEventView::Reply(resp) => match redirect(resp) {
            Some(leader_addr) => retried(
                call,
                "not_leader from "@ + m.addrs[i as int],
                redirected(m.peers, leader_addr, i),
            ),
            None => (call, CallActionView::Return),
        },
    }
}

/// Which member is taken for the leader after an attempt: the one whose reply
/// ends the call, or else the one that was before.
pub open spec fn leader_after(
    m: Members,
    leader: nat,
    call: CallView,
    event: CallEventView,
) -> nat {
    if call_next(m, call, event).1 is Return {
        call_target(call, m.addrs.len())
    } else {
        leader
    }
}

/// True if the pipeline that an attempt went over is forgotten: it failed, or
/// its node is not the leader.
pub open spec fn spoils_pipeline(event: PipelinedEvent) -> bool {
    match event {
        PipelinedEvent::Unreachable(_) => false,
        PipelinedEvent::Failed(_) => true,
        PipelinedEvent::Reply(resp) => redirect(response_view(*resp)) is Some,
    }
}

/// True of a call that has an attempt running in a cluster of `n` members.
pub open spec fn call_running(call: CallView, n: nat) -> bool {
    &&& call.attempts == attempts_for(n)
    &&& call.attempt < call.attempts
    &&& call.idx <= n
}

/// A call for `req` before its first attempt, in a cluster of `n` members whose
/// member `leader` is taken for the leader.
pub open spec fn call_begun(n: nat, leader: nat, req: RequestView) -> CallView {
    CallView { req, attempts: attempts_for(n), attempt: 0, idx: leader, last: Seq::empty() }
}

impl<'a> Call<'a> {
    /// Begins a call for `req`: the first attempt goes to the member taken for
    /// the leader.
    pub fn begin<S, H>(inner: &Inner<S, H>, req: &'a proto::Request) -> (call: Call<'a>)
        requires
            inner.wf(),
        ensures
            call.req == req,
            call@ == call_begun(inner.nodes@.len(), inner.leader as nat, request_view(*req)),
            call_running(call@, inner.nodes@.len()),
    {
        Call {
            req,
            attempts: 3 * inner.nodes.len(),
            attempt: 0,
            idx: inner.leader,
            last: String::new(),
        }
    }

    /// The running attempt: it carries the request of the call, whichever
    /// member it goes to and however many attempts were made before it.
    pub fn attempt<S, H>(&self, inner: &Inner<S, H>) -> (a: Attempt<'a>)
        requires
            inner.wf(),
        ensures
            a@ == call_attempt(self@, inner.nodes@.len()),
            a.req == self.req,
            a.member < inner.nodes@.len(),
    {
        Attempt { member: self.target(inner), req: self.req }
    }

    /// The number of the member that the running attempt goes to.
    pub fn target<S, H>(&self, inner: &Inner<S, H>) -> (i: usize)
        requires
            inner.wf(),
        ensures
            i == call_target(self@, inner.nodes@.len()),
            i < inner.nodes@.len(),
    {
        self.idx % inner.nodes.len()
    }

    /// Moves on to the next attempt, or gives up after the last.
    fn retry(&mut self, last: String, idx: usize) -> (action: CallAction)
        requires
            old(self).attempt < old(self).attempts,
        ensures
            (final(self)@, action@) == retried(old(self)@, last@, idx as nat),
            final(self).req == old(self).req,
    {
        let waited: u32 = (self.attempt as u64 % 0x1_0000_0000) as u32;
        self.attempt = self.attempt + 1;
        self.idx = idx;
        self.last = last;
        if self.attempt < self.attempts {
            CallAction::Sleep(backoff(waited, CALL_BACKOFF_CAP_MS))
        } else {
            let mut reason = "hermesmq: no reachable leader after ".to_owned();
            reason.append(decimal_text(self.attempts as u64).as_str());
            reason.append(" attempts; last error: ");
            reason.append(self.last.as_str());
            CallAction::GiveUp(ClientError { reason })
        }
    }

    /// Moves on after a failure of the running attempt.
    fn failed<S, H>(&mut self, inner: &Inner<S, H>, text: &str) -> (action: CallAction)
        requires
            inner.wf(),
            call_running(old(self)@, inner.nodes@.len()),
        ensures
            (final(self)@, action@) == call_next(
                members(*inner),
                old(self)@,
                CallEventView::Failed(text@),
            ),
            final(self).req == old(self).req,
    {
        let i: usize = self.target(inner);
        let mut last = inner.nodes[i].client_addr.clone();
        last.append(": ");
        last.append(text);
        self.retry(last, i + 1)
    }

    /// Moves on after a reply to the running attempt.
    fn replied<S, H>(&mut self, inner: &Inner<S, H>, resp: &proto::Response) -> (action: CallAction)
        requires
            inner.wf(),
            call_running(old(self)@, inner.nodes@.len()),
        ensures
            (final(self)@, action@) == call_next(
                members(*inner),
                old(self)@,
                CallEventView::Reply(response_view(*resp)),
            ),
            final(self).req == old(self).req,
    {
        let i: usize = self.target(inner);
        match redirect_of(resp) {
            Some(leader_addr) => {
                let mut last = "not_leader from ".to_owned();
                last.append(inner.nodes[i].client_addr.as_str());
                let idx: usize = match inner.peer_index(leader_addr.as_str()) {
                    Some(j) => j,
                    None => i + 1,
                };
                self.retry(last, idx)
            },
            None => CallAction::Return,
        }
    }
}

/// The address of the node that a reply points to as the leader, if it does.
pub fn redirect_of(resp: &proto::Response) -> (leader_addr: Option<&String>)
    ensures
        match leader_addr {
            Some(addr) => redirect(response_view(*resp)) == Some(addr@),
            None => redirect(response_view(*resp)) is None,
        },
{
    match &resp.kind {
        Some(proto::response::Kind::Error(e)) => {
            if e.code == "not_leader".to_owned() {
                Some(&e.leader_addr)
            } else {
                None
            }
        },
        _ => None,
    }
}

/// An attempt that is not the last leads to another one that is running.
proof fn lemma_next_is_running(m: Members, call: CallView, event: CallEventView)
    requires
        0 < m.addrs.len() == m.peers.len(),
        call_running(call, m.addrs.len()),
    ensures
        call_target(call, m.addrs.len()) < m.addrs.len(),
        call_next(m, call, event).1 is Sleep ==> call_running(
            call_next(m, call, event).0,
            m.addrs.len(),
        ),
{
    let n = m.addrs.len();
    lemma_mod_bound(call.idx as int, n as int);
    if let CallEventView::Reply(resp) = event {
        if let Some(leader_addr) = redirect(resp) {
            m.peers.index_of_first_ensures(leader_addr);
        }
    }
}

/// Decides what follows the outcome of an attempt. A node whose reply ends the
/// call is taken for the leader from then on.
pub fn call<S, H>(inner: &mut Inner<S, H>, state: &mut Call, event: CallEvent) -> (action:
    CallAction)
    requires
        old(inner).wf(),
        call_running(old(state)@, old(inner).nodes@.len()),
    ensures
        (final(state)@, action@) == call_next(members(*old(inner)), old(state)@, event@),
        final(state).req == old(state).req,
        final(inner).leader == leader_after(
            members(*old(inner)),
            old(inner).leader as nat,
            old(state)@,
            event@,
        ),
        action is Sleep ==> call_running(final(state)@, final(inner).nodes@.len()),
        final(inner).wf(),
        *final(inner) == (if action is Return {
            old(inner).led_by(call_target(old(state)@, old(inner).nodes@.len()) as int)
        } else {
            *old(inner)
        }),
{
    let i: usize = state.target(inner);
    proof {
        lemma_next_is_running(members(*inner), state@, event@);
    }
    match event {
        CallEvent::Failed(text) => state.failed(inner, text),
        CallEvent::Reply(resp) => {
            let action = state.replied(inner, resp);
            if let CallAction::Return = action {
                inner.leader = i;
            }
            action
        },
    }
}

/// Decides what follows the outcome of an attempt over a pipeline. A pipeline
/// that failed, or whose node is not the leader, is forgotten. A node whose
/// reply ends the call is taken for the leader from then on.
pub fn call_pipelined<S, H>(
    inner: &mut Inner<S, H>,
    state: &mut Call,
    event: PipelinedEvent,
) -> (action: CallAction)
    requires
        old(inner).wf(),
        call_running(old(state)@, old(inner).nodes@.len()),
    ensures
        (final(state)@, action@) == call_next(members(*old(inner)), old(state)@, event@),
        final(state).req == old(state).req,
        final(inner).leader == leader_after(
            members(*old(inner)),
            old(inner).leader as nat,
            old(state)@,
            event@,
        ),
        action is Sleep ==> call_running(final(state)@, final(inner).nodes@.len()),
        final(inner).wf(),
        action is Return ==> *final(inner) == old(inner).led_by(
            call_target(old(state)@, old(inner).nodes@.len()) as int,
        ),
        event is Unreachable ==> *final(inner) == *old(inner),
        final(inner).pipes@ == (if spoils_pipeline(event) {
            old(inner).pipes@.update(
                call_target(old(state)@, old(inner).nodes@.len()) as int,
                None,
            )
        } else {
            old(inner).pipes@
        }),
        !(action is Return) && !(event is Unreachable) ==> {
            &&& final(inner).same_but_pipes(*old(inner))
            &&& final(inner).pipes@ == old(inner).pipes@.update(
                call_target(old(state)@, old(inner).nodes@.len()) as int,
                None,
            )
        },
{
    let i: usize = state.target(inner);
    proof {
        lemma_next_is_running(members(*inner), state@, event@);
    }
    match event {
        PipelinedEvent::Unreachable(text) => state.failed(inner, text),
        PipelinedEvent::Failed(text) => {
            let action = state.failed(inner, text);
            inner.drop_pipeline(i);
            action
        },
        PipelinedEvent::Reply(resp) => {
            let action = state.replied(inner, resp);
            if let CallAction::Return = action {
                inner.leader = i;
            } else {
                inner.drop_pipeline(i);
            }
            action
        },
    }
}

/// How far a call has come.
pub enum CallOutcome {
    /// Another attempt is running.
    Waiting(CallView),
    /// The caller has the reply of the member of this number.
    Returned(nat),
    /// The caller has this error.
    GaveUp(Seq<char>),
}

/// How far a call has come after attempts with the given outcomes. Outcomes
/// after the end of the call count for nothing.
pub open spec fn call_outcome(m: Members, call: CallView, events: Seq<CallEventView>) -> CallOutcome
    decreases events.len(),
{
    if events.len() == 0 {
        CallOutcome::Waiting(call)
    } else {
        match call_next(m, call, events[0]) {
            (_, CallActionView::Return) => CallOutcome::Returned(call_target(call, m.addrs.len())),
            (_, CallActionView::GiveUp(text)) => CallOutcome::GaveUp(text),
            (next, CallActionView::Sleep(_)) => call_outcome(m, next, events.drop_first()),
        }
    }
}

/// True of an outcome that does not end the call with a reply.
pub open spec fn leads_on(event: CallEventView) -> bool {
    match event {
        CallEventView::Failed(_) => true,
        CallEventView::Reply(resp) => redirect(resp) is Some,
    }
}

/// A run of `k` failed attempts.
pub open spec fn failures(k: nat, text: Seq<char>) -> Seq<CallEventView> {
    Seq::new(k, |j: int| CallEventView::Failed(text))
}

/// Every attempt of a call sends the same request: whatever came of the attempts
/// before it and whichever member it goes to, an attempt carries the request
/// that the call began with.
pub proof fn law_same_request_every_attempt(
    m: Members,
    call: CallView,
    events: Seq<CallEventView>,
)
    ensures
        call_outcome(m, call, events) matches CallOutcome::Waiting(c) ==> call_attempt(
            c,
            m.addrs.len(),
        ).req == call.req,
    decreases events.len(),
{
    if events.len() > 0 {
        let (next, action) = call_next(m, call, events[0]);
        if action is Sleep {
            law_same_request_every_attempt(m, next, events.drop_first());
        }
    }
}

/// A call is over after as many attempts as it has, whatever they come to.
pub proof fn law_call_ends(m: Members, call: CallView, events: Seq<CallEventView>)
    requires
        0 < m.addrs.len() == m.peers.len(),
        call_running(call, m.addrs.len()),
        events.len() >= call.attempts - call.attempt,
    ensures
        !(call_outcome(m, call, events) is Waiting),
    decreases events.len(),
{
    lemma_next_is_running(m, call, events[0]);
    let (next, action) = call_next(m, call, events[0]);
    if action is Sleep {
        law_call_ends(m, next, events.drop_first());
    }
}

/// A call does not give up before its last attempt: as long as attempts are
/// left, one that failed or that was pointed elsewhere is followed by another.
pub proof fn law_call_persists(m: Members, call: CallView, events: Seq<CallEventView>)
    requires
        0 < m.addrs.len() == m.peers.len(),
        call_running(call, m.addrs.len()),
        forall|k: int| 0 <= k < events.len() ==> #[trigger] leads_on(events[k]),
    ensures
        events.len() < call.attempts - call.attempt ==> (call_outcome(m, call, events) matches
            CallOutcome::Waiting(c) && c.attempt == call.attempt + events.len() && call_running(
            c,
            m.addrs.len(),
        )),
        events.len() >= call.attempts - call.attempt ==> call_outcome(m, call, events) is GaveUp,
    decreases events.len(),
{
    if events.len() > 0 {
        assert(leads_on(events[0]));
        lemma_next_is_running(m, call, events[0]);
        let (next, action) = call_next(m, call, events[0]);
        let rest = events.drop_first();
        assert forall|k: int| 0 <= k < rest.len() implies #[trigger] leads_on(rest[k]) by {
            assert(leads_on(events[k + 1]));
        }
        if action is Sleep {
            law_call_persists(m, next, rest);
        }
    }
}

/// While attempts fail, each goes to the member after the one before it, and
/// to the first member after the last.
pub proof fn law_call_rotates(m: Members, call: CallView, events: Seq<CallEventView>)
    requires
        0 < m.addrs.len() == m.peers.len(),
        call_running(call, m.addrs.len()),
        forall|k: int| 0 <= k < events.len() ==> (#[trigger] events[k]) is Failed,
        events.len() < call.attempts - call.attempt,
    ensures
        call_outcome(m, call, events) matches CallOutcome::Waiting(c) && call_target(
            c,
            m.addrs.len(),
        ) == (call.idx + events.len()) % m.addrs.len(),
    decreases events.len(),
{
    let n = m.addrs.len();
    if events.len() > 0 {
        assert(events[0] is Failed);
        lemma_next_is_running(m, call, events[0]);
        let (next, action) = call_next(m, call, events[0]);
        let rest = events.drop_first();
        assert forall|k: int| 0 <= k < rest.len() implies (#[trigger] rest[k]) is Failed by {
            assert(events[k + 1] is Failed);
        }
        law_call_rotates(m, next, rest);
        lemma_add_mod_noop(call.idx as int, events.len() as int, n as int);
        lemma_add_mod_noop(call.idx as int % n as int, events.len() as int, n as int);
        lemma_small_mod((call.idx as int % n as int) as nat, n);
    }
}

/// Every member is tried: whichever the call began with, each member has its
/// turn within as many failed attempts as there are members.
pub proof fn law_every_member_tried(
    m: Members,
    leader: nat,
    req: RequestView,
    member: nat,
    text: Seq<char>,
)
    requires
        0 < m.addrs.len() == m.peers.len(),
        leader < m.addrs.len(),
        member < m.addrs.len(),
    ensures
        exists|k: nat|
            k < m.addrs.len() && (#[trigger] call_outcome(
                m,
                call_begun(m.addrs.len(), leader, req),
                failures(k, text),
            ) matches CallOutcome::Waiting(c) && call_target(c, m.addrs.len()) == member),
{
    let n = m.addrs.len();
    let k = if member >= leader {
        (member - leader) as nat
    } else {
        (member + n - leader) as nat
    };
    let begun = call_begun(n, leader, req);
    law_call_rotates(m, begun, failures(k, text));
    lemma_small_mod(member, n);
    lemma_mod_add_multiples_vanish(member as int, n as int);
}

/// A call follows a redirect: if a node points to a member of the cluster as
/// the leader and an attempt is left, that attempt goes to that member.
pub proof fn law_redirect_followed(
    m: Members,
    call: CallView,
    resp: ResponseView,
    leader_addr: Seq<char>,
    j: int,
)
    requires
        0 < m.addrs.len() == m.peers.len(),
        call_running(call, m.addrs.len()),
        redirect(resp) == Some(leader_addr),
        peer_position(m.peers, leader_addr) == Some(j),
        call.attempt + 1 < call.attempts,
    ensures
        m.peers[j] == leader_addr,
        call_next(m, call, CallEventView::Reply(resp)).1 is Sleep,
        call_target(call_next(m, call, CallEventView::Reply(resp)).0, m.addrs.len()) == j,
{
    m.peers.index_of_first_ensures(leader_addr);
    lemma_small_mod(j as nat, m.addrs.len());
}

/// What a caller is handed as a reply never says that its sender is not the
/// leader, and every other reply is handed to the caller.
pub proof fn law_no_redirect_returned(m: Members, call: CallView, event: CallEventView)
    ensures
        call_next(m, call, event).1 is Return <==> !leads_on(event),
{
}

/// The next call begins with the member that answered.
pub proof fn law_leader_remembered<S, H>(inner: Inner<S, H>, i: nat, req: RequestView)
    requires
        inner.wf(),
        i < inner.nodes@.len(),
    ensures
        call_target(
            call_begun(inner.nodes@.len(), inner.led_by(i as int).leader as nat, req),
            inner.nodes@.len(),
        ) == i,
{
    lemma_small_mod(i, inner.nodes@.len());
}

/// Between its attempts a call waits as [`backoff_ms`] says for the attempts
/// already made, and never more than 500 ms.
pub proof fn law_call_waits(m: Members, call: CallView, event: CallEventView)
    requires
        call.attempt < 0x1_0000_0000,
        call_next(m, call, event).1 is Sleep,
    ensures
        call_next(m, call, event).1 == CallActionView::Sleep(
            backoff_ms(call.attempt, CALL_BACKOFF_CAP_MS as nat),
        ),
        backoff_ms(call.attempt, CALL_BACKOFF_CAP_MS as nat) <= 500,
{
    lemma_small_mod(call.attempt, 0x1_0000_0000);
}

/// A call has three attempts for each member, and the first goes to the member
/// taken for the leader.
pub proof fn law_call_has_three_rounds(n: nat, leader: nat, req: RequestView)
    requires
        leader < n,
    ensures
        call_begun(n, leader, req).attempts == 3 * n,
        call_begun(n, leader, req).attempt == 0,
        call_attempt(call_begun(n, leader, req), n).member == leader,
        call_attempt(call_begun(n, leader, req), n).req == req,
        call_running(call_begun(n, leader, req), n),
{
    lemma_small_mod(leader, n);
}

/// The attempt that is made is the one that is running: it goes to the member
/// that the call has come to and carries the call's request.
pub proof fn law_attempt_is_the_running_one(call: Call, n: nat, a: Attempt)
    requires
        0 < n,
        a@ == call_attempt(call@, n),
    ensures
        a.member == call.idx as nat % n,
        request_view(*a.req) == request_view(*call.req),
{
}

/// The address that the sender of a reply names as the leader's, if it says that
/// it is not the leader itself.
pub open spec fn disclaimer(resp: proto::Response) -> Option<Seq<char>> {
    match resp.kind {
        Some(proto::response::Kind::Error(e)) => if e.code@ == "not_leader"@ {
            Some(e.leader_addr@)
        } else {
            None
        },
        _ => None,
    }
}

/// What an attempt leads to. Any reply ends the call, unless its sender says
/// that it is not the leader; then the next attempt goes to the first member
/// that has the address that the sender names, and to the member behind the
/// sender if none has it. A failure leads to the member behind the one that
/// failed. The caller is told of what came last, with the address that the
/// member serves clients on.
pub proof fn law_attempt_leads_where_it_should<S, H>(
    inner: Inner<S, H>,
    before: Call,
    event: CallEvent,
    after: Call,
    action: CallAction,
    j: int,
)
    requires
        inner.wf(),
        call_running(before@, inner.nodes@.len()),
        (after@, action@) == call_next(members(inner), before@, event@),
    ensures
        ({
            let n = inner.nodes@.len();
            let i = before.idx as int % n as int;
            match event {
                CallEvent::Failed(text) => {
                    &&& !(action is Return)
                    &&& after.idx as int % n as int == (i + 1) % n as int
                    &&& after.last@ == inner.nodes@[i].client_addr@ + ": "@ + text@
                },
                CallEvent::Reply(resp) => if disclaimer(*resp) is Some {
                    let named = disclaimer(*resp)->0;
                    &&& !(action is Return)
                    &&& after.last@ == "not_leader from "@ + inner.nodes@[i].client_addr@
                    &&& (0 <= j < n && named.len() > 0 && inner.nodes@[j].peer_addr@ == named
                        && forall|k: int|
                        0 <= k < j ==> (#[trigger] inner.nodes@[k]).peer_addr@ != named)
                        ==> after.idx as int % n as int == j
                    &&& (named.len() == 0 || forall|k: int|
                        0 <= k < n ==> (#[trigger] inner.nodes@[k]).peer_addr@ != named)
                        ==> after.idx as int % n as int == (i + 1) % n as int
                } else {
                    action is Return
                },
            }
        }),
        !(action is Return) ==> after.attempt == before.attempt + 1,
        after.attempts == before.attempts,
        request_view(*after.req) == request_view(*before.req),
{
    let n = inner.nodes@.len();
    let m = members(inner);
    let i = before.idx as int % n as int;
    lemma_mod_bound(before.idx as int, n as int);
    assert(m.addrs[i] == inner.nodes@[i].client_addr@);
    assert(call_target(before@, n) == i);
    if let CallEvent::Reply(resp) = event {
        if disclaimer(*resp) is Some {
            let named = disclaimer(*resp)->0;
            law_member_is_found_by_address(inner, named);
            if let Some(p) = peer_position(inner.peers(), named) {
                lemma_small_mod(p as nat, n);
            }
        }
    }
}

/// Between two attempts a call waits for 50, 100, 200 and 400 milliseconds, then
/// for 500 each time (and so again after 2^32 attempts). It gives up only after
/// its last attempt, and says how many it made and what came of the last.
pub proof fn law_call_waits_or_gives_up<S, H>(
    inner: Inner<S, H>,
    before: Call,
    event: CallEvent,
    after: Call,
    action: CallAction,
)
    requires
        inner.wf(),
        call_running(before@, inner.nodes@.len()),
        (after@, action@) == call_next(members(inner), before@, event@),
        !(action is Return),
    ensures
        before.attempt + 1 < 3 * inner.nodes@.len() ==> (action matches CallAction::Sleep(ms) && ms
            == (match (before.attempt as nat % 0x1_0000_0000) as u32 {
            0 => 50,
            1 => 100,
            2 => 200,
            3 => 400,
            _ => 500int,
        })),
        before.attempt + 1 == 3 * inner.nodes@.len() ==> (action matches CallAction::GiveUp(e)
            && e.reason@ == "hermesmq: no reachable leader after "@ + decimal(
            3 * inner.nodes@.len(),
        ) + " attempts; last error: "@ + after.last@),
{
    lemma2_to64();
    let waited = before.attempt as nat % 0x1_0000_0000;
    law_backoff_is_exponential(waited, 500);
    if waited >= 4 {
        law_backoff_grows(4, waited, 500);
        law_backoff_is_exponential(4, 500);
    }
}

/// A node is taken for the leader exactly when its reply ends a call.
pub proof fn law_leader_is_who_answered(
    m: Members,
    leader: nat,
    call: CallView,
    event: CallEventView,
)
    ensures
        match event {
            CallEventView::Failed(_) => leader_after(m, leader, call, event) == leader,
            CallEventView::Reply(ResponseView::Error(e)) => leader_after(m, leader, call, event)
                == (if e.code == "not_leader"@ {
                leader as int
            } else {
                call.idx as int % m.addrs.len() as int
            }),
            CallEventView::Reply(_) => leader_after(m, leader, call, event) == call.idx as int
                % m.addrs.len() as int,
        },
{
}

/// A pipeline is forgotten exactly when it failed or its node says that it is
/// not the leader. One that could not be had is none to forget.
pub proof fn law_bad_pipeline_is_forgotten(event: PipelinedEvent)
    ensures
        match event {
            PipelinedEvent::Unreachable(_) => !spoils_pipeline(event),
            PipelinedEvent::Failed(_) => spoils_pipeline(event),
            PipelinedEvent::Reply(resp) => spoils_pipeline(event) == disclaimer(*resp) is Some,
        },
        match event {
            PipelinedEvent::Unreachable(text) => event@ == CallEvent::Failed(text)@,
            PipelinedEvent::Failed(text) => event@ == CallEvent::Failed(text)@,
            PipelinedEvent::Reply(resp) => event@ == CallEvent::Reply(resp)@,
        },
{
}

/// True of an outcome after which it is not known who leads: the attempt
/// failed, or its node is not the leader and names no member as the leader.
pub open spec fn names_nobody(m: Members, event: CallEventView) -> bool {
    match event {
        CallEventView::Failed(_) => true,
        CallEventView::Reply(ResponseView::Error(e)) => e.code == "not_leader"@ && (
        e.leader_addr.len() == 0 || forall|k: int|
            0 <= k < m.peers.len() ==> #[trigger] m.peers[k] != e.leader_addr),
        CallEventView::Reply(_) => false,
    }
}

/// As long as nobody says who leads, each attempt goes to the member behind the
/// one before it, and to the first member after the last.
pub proof fn law_call_goes_round(m: Members, call: CallView, events: Seq<CallEventView>)
    requires
        0 < m.addrs.len() == m.peers.len(),
        call_running(call, m.addrs.len()),
        forall|k: int| 0 <= k < events.len() ==> names_nobody(m, #[trigger] events[k]),
        events.len() < call.attempts - call.attempt,
    ensures
        call_outcome(m, call, events) matches CallOutcome::Waiting(c) && call_attempt(
            c,
            m.addrs.len(),
        ).member == (call.idx + events.len()) % m.addrs.len(),
    decreases events.len(),
{
    let n = m.addrs.len();
    if events.len() > 0 {
        assert(names_nobody(m, events[0]));
        lemma_next_is_running(m, call, events[0]);
        let (next, action) = call_next(m, call, events[0]);
        if let CallEventView::Reply(ResponseView::Error(e)) = events[0] {
            m.peers.index_of_first_ensures(e.leader_addr);
        }
        let rest = events.drop_first();
        assert forall|k: int| 0 <= k < rest.len() implies names_nobody(m, #[trigger] rest[k]) by {
            assert(names_nobody(m, events[k + 1]));
        }
        law_call_goes_round(m, next, rest);
        lemma_add_mod_noop(call.idx as int, events.len() as int, n as int);
        lemma_add_mod_noop(call.idx as int % n as int, events.len() as int, n as int);
        lemma_small_mod((call.idx as int % n as int) as nat, n);
    }
}

/// As long as nobody says who leads, as many attempts in a row as there are
/// members go to as many different members: no two of them go to the same.
pub proof fn law_round_visits_no_member_twice(
    m: Members,
    call: CallView,
    events: Seq<CallEventView>,
    j: int,
    k: int,
)
    requires
        0 < m.addrs.len() == m.peers.len(),
        call_running(call, m.addrs.len()),
        forall|l: int| 0 <= l < events.len() ==> names_nobody(m, #[trigger] events[l]),
        events.len() < call.attempts - call.attempt,
        0 <= j < k <= events.len(),
        k - j < m.addrs.len(),
    ensures
        call_outcome(m, call, events.take(j)) matches CallOutcome::Waiting(a) && call_outcome(
            m,
            call,
            events.take(k),
        ) matches CallOutcome::Waiting(b) && call_attempt(a, m.addrs.len()).member != call_attempt(
            b,
            m.addrs.len(),
        ).member,
{
    let n = m.addrs.len() as int;
    assert forall|l: int| 0 <= l < events.take(j).len() implies names_nobody(
        m,
        #[trigger] events.take(j)[l],
    ) by {
        assert(names_nobody(m, events[l]));
    }
    assert forall|l: int| 0 <= l < events.take(k).len() implies names_nobody(
        m,
        #[trigger] events.take(k)[l],
    ) by {
        assert(names_nobody(m, events[l]));
    }
    law_call_goes_round(m, call, events.take(j));
    law_call_goes_round(m, call, events.take(k));
    let x = call.idx + j;
    let y = call.idx + k;
    if x % n == y % n {
        lemma_fundamental_div_mod(x, n);
        lemma_fundamental_div_mod(y, n);
        assert(n * (y / n) - n * (x / n) == k - j);
        assert(n * (y / n - x / n) == k - j) by (nonlinear_arith)
            requires
                n * (y / n) - n * (x / n) == k - j,
        ;
        let q = y / n - x / n;
        assert(q != 0 && 0 < n * q < n ==> false) by (nonlinear_arith)
            requires
                n > 0,
        ;
    }
}

} // verus!
