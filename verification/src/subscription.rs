//! Subscriptions: messages that a node pushes to a consumer.
//!
//! A subscription is a loop of sessions, each with one node. Connecting,
//! reading and waiting are done by whoever runs the loops; what they come to is
//! handed to [`SubscriptionTask::once`] within a session and to
//! [`Run::session_ended`] and [`Run::session`] between sessions, which decide
//! what comes next.

use crate::backoff::{
    backoff, backoff_ms, law_backoff_grows, law_backoff_is_exponential, law_backoff_starts,
    SUBSCRIBE_BACKOFF_CAP_MS,
};
use crate::call::{redirect, redirect_of};
use crate::client::{
    ack_request, clamp_to_zero, nack_request, not_negative, or_default, Client, DEFAULT_BATCH,
    DEFAULT_VISIBILITY_MS,
};
use crate::cluster::{law_member_is_found_by_address, peer_position, Inner};
use crate::error::ClientError;
use crate::replies::{delivered_message, message_of, DeliveredMessage, MessageView};
use crate::text::{debug_text, debugged_text, law_decimal_reads_back, parsed_u64};
use crate::wire::{
    decode_response, decoded_response, delivered_view, request_view, response_view, DeliveredView,
    RequestView, ResponseView,
};
use hermesmq_proto as proto;
use vstd::arithmetic::div_mod::{lemma_add_mod_noop, lemma_mod_bound, lemma_small_mod};
use vstd::arithmetic::power2::lemma2_to64;
use vstd::prelude::*;
use vstd::string::*;

verus! {

/// A subscription to be made.
pub struct SubscribeOptions {
    pub topic: String,
    pub group: String,
    pub prefetch: Option<u32>,
    pub visibility_ms: Option<i64>,
    pub ack_mode: Option<String>,
}

/// What a subscription is about: whose messages it consumes, whether the node
/// acknowledges them by itself, and the request that asks for them.
#[derive(Debug)]
pub struct SubscriptionTask {
    pub topic: String,
    pub group: String,
    pub auto: bool,
    pub sub_req: proto::Request,
}

/// Whether a mode of acknowledgement lets the node acknowledge by itself, or
/// how it reads in the debug format if it is no mode.
pub open spec fn auto_acked(ack_mode: Option<String>) -> Result<bool, Seq<char>> {
    match ack_mode {
        None => Ok(false),
        Some(mode) => if mode@ == "manual"@ {
            Ok(false)
        } else if mode@ == "auto"@ {
            Ok(true)
        } else {
            Err(debugged_text(mode@))
        },
    }
}

/// The words for a mode of acknowledgement that is none, given how it reads in
/// the debug format.
pub open spec fn invalid_mode_text(debugged: Seq<char>) -> Seq<char> {
    "subscribe: invalid ackMode "@ + debugged + "; expected \"auto\" or \"manual\""@
}

/// Puts a mode of acknowledgement that is none into words.
pub fn invalid_ack_mode(debugged: &str) -> (e: ClientError)
    ensures
        e@ == invalid_mode_text(debugged@),
{
    let mut reason = "subscribe: invalid ackMode ".to_owned();
    reason.append(debugged);
    reason.append("; expected \"auto\" or \"manual\"");
    ClientError { reason }
}

/// The request that asks for the messages of a subscription.
pub open spec fn subscribe_request(options: SubscribeOptions, auto: bool) -> RequestView {
    RequestView::Subscribe {
        topic: options.topic@,
        group: options.group@,
        prefetch: or_default(options.prefetch, DEFAULT_BATCH),
        visibility_timeout_ms: not_negative(
            or_default(options.visibility_ms, DEFAULT_VISIBILITY_MS),
        ),
        ack_mode: if auto {
            "auto"@
        } else {
            "manual"@
        },
    }
}

impl<S, H> Client<S, H> {
    /// Makes a subscription. Any mode of acknowledgement but `auto` and
    /// `manual` is refused; `manual` is the default.
    pub fn subscribe(&self, options: SubscribeOptions) -> (res: Result<
        SubscriptionTask,
        ClientError,
    >)
        ensures
            match res {
                Ok(task) => {
                    &&& auto_acked(options.ack_mode) == Ok::<bool, Seq<char>>(task.auto)
                    &&& task.topic@ == options.topic@
                    &&& task.group@ == options.group@
                    &&& request_view(task.sub_req) == subscribe_request(options, task.auto)
                },
                Err(e) => auto_acked(options.ack_mode) matches Err(debugged) && e@
                    == invalid_mode_text(debugged),
            },
    {
        let auto: bool = match &options.ack_mode {
            None => false,
            Some(mode) => {
                if *mode == "manual".to_owned() {
                    false
                } else if *mode == "auto".to_owned() {
                    true
                } else {
                    return Err(invalid_ack_mode(debug_text(mode.as_str()).as_str()));
                }
            },
        };
        let prefetch: u32 = match options.prefetch {
            Some(n) => n,
            None => DEFAULT_BATCH,
        };
        let visibility_timeout_ms: u64 = clamp_to_zero(
            match options.visibility_ms {
                Some(ms) => ms,
                None => DEFAULT_VISIBILITY_MS,
            },
        );
        let ack_mode = if auto {
            "auto".to_owned()
        } else {
            "manual".to_owned()
        };
        let sub_req = proto::Request {
            kind: Some(
                proto::request::Kind::Subscribe(
                    proto::Subscribe {
                        topic: options.topic.clone(),
                        group: options.group.clone(),
                        prefetch,
                        visibility_timeout_ms,
                        ack_mode,
                    },
                ),
            ),
        };
        Ok(SubscriptionTask { topic: options.topic, group: options.group, auto, sub_req })
    }
}

/// A message on its way to the consumer, and the lease to settle when the
/// consumer has handled it, if the client is to settle it.
#[derive(Debug)]
pub struct Dispatch {
    pub message: DeliveredMessage,
    pub lease: Option<u64>,
}

/// A [`Dispatch`] as a mathematical value.
pub struct DispatchView {
    pub message: MessageView,
    pub lease: Option<u64>,
}

impl View for Dispatch {
    type V = DispatchView;

    open spec fn view(&self) -> DispatchView {
        DispatchView { message: self.message@, lease: self.lease }
    }
}

/// How a delivered message goes to the consumer.
pub open spec fn dispatch_of(auto: bool, d: DeliveredView) -> DispatchView {
    DispatchView {
        message: message_of(d),
        lease: if auto {
            None
        } else {
            Some(d.lease_id)
        },
    }
}

/// Dispatches as mathematical values.
pub open spec fn dispatches_view(dispatches: Seq<Dispatch>) -> Seq<DispatchView> {
    dispatches.map_values(|d: Dispatch| d@)
}

/// How the consumer's handling of a message ended.
#[derive(Clone, Copy, PartialEq, Eq, Structural, Debug)]
pub enum Handled {
    /// It returned no promise.
    Returned,
    /// It returned a promise, which was resolved.
    Resolved,
    /// It returned a promise, which was rejected.
    Rejected,
    /// It threw.
    Threw,
}

/// Whether a message was handled well.
pub open spec fn handled_well(handled: Handled) -> bool {
    handled == Handled::Returned || handled == Handled::Resolved
}

/// The request that settles a lease once the message was handled.
pub open spec fn settling_request(
    topic: Seq<char>,
    group: Seq<char>,
    lease_id: u64,
    handled: Handled,
) -> RequestView {
    if handled_well(handled) {
        RequestView::Ack { topic, group, lease_id }
    } else {
        RequestView::Nack { topic, group, lease_id }
    }
}

/// How a session with a node ended.
#[derive(Debug)]
pub enum SubEnd {
    /// The node is not the leader; the member that it pointed to, if it is one.
    NotLeader(Option<usize>),
    /// The session failed, for the reason given.
    Failed(String),
    /// The consumer has unsubscribed.
    Stopped,
}

/// A [`SubEnd`] as a mathematical value.
pub enum SubEndView {
    NotLeader(Option<int>),
    Failed(Seq<char>),
    Stopped,
}

impl View for SubEnd {
    type V = SubEndView;

    open spec fn view(&self) -> SubEndView {
        match self {
            SubEnd::NotLeader(Some(j)) => SubEndView::NotLeader(Some(*j as int)),
            SubEnd::NotLeader(None) => SubEndView::NotLeader(None),
            SubEnd::Failed(reason) => SubEndView::Failed(reason@),
            SubEnd::Stopped => SubEndView::Stopped,
        }
    }
}

/// What happened in a session with a node. `stopped` tells whether the consumer
/// had unsubscribed by then.
pub enum SessionEvent {
    /// The node could not be reached, or not be asked for the messages.
    Unreachable(String),
    /// The connection failed.
    Lost { reason: String, stopped: bool },
    /// The node sent this.
    Received { message: Vec<u8>, stopped: bool },
}

/// What the runner of a session does next.
#[derive(Debug)]
pub enum SessionAction {
    /// Read on.
    Read,
    /// Give these messages to the consumer, then read on.
    Deliver(Vec<Dispatch>),
    /// End the session.
    End(SubEnd),
}

/// A [`SessionAction`] as a mathematical value.
pub enum SessionActionView {
    Read,
    Deliver(Seq<DispatchView>),
    End(SubEndView),
}

impl View for SessionAction {
    type V = SessionActionView;

    open spec fn view(&self) -> SessionActionView {
        match self {
            SessionAction::Read => SessionActionView::Read,
            SessionAction::Deliver(dispatches) => SessionActionView::Deliver(
                dispatches_view(dispatches@),
            ),
            SessionAction::End(end) => SessionActionView::End(end@),
        }
    }
}

/// What a response leads to in a session.
pub open spec fn heard(auto: bool, peers: Seq<Seq<char>>, resp: ResponseView) -> SessionActionView {
    match resp {
        ResponseView::Polled { items } => SessionActionView::Deliver(
            items.map_values(|d: DeliveredView| dispatch_of(auto, d)),
        ),
        ResponseView::Error(e) => match redirect(resp) {
            Some(leader_addr) => SessionActionView::End(
                SubEndView::NotLeader(peer_position(peers, leader_addr)),
            ),
            None => SessionActionView::End(SubEndView::Failed(e.code + ": "@ + e.message)),
        },
        _ => SessionActionView::Read,
    }
}

/// What an event leads to in a session with the node at `addr`. What cannot be
/// decoded is skipped.
pub open spec fn session_next(
    auto: bool,
    peers: Seq<Seq<char>>,
    addr: Seq<char>,
    event: SessionEvent,
) -> SessionActionView {
    match event {
        SessionEvent::Unreachable(reason) => SessionActionView::End(
            SubEndView::Failed(addr + ": "@ + reason@),
        ),
        SessionEvent::Lost { reason, stopped } => SessionActionView::End(
            if stopped {
                SubEndView::Stopped
            } else {
                SubEndView::Failed(addr + ": "@ + reason@)
            },
        ),
        SessionEvent::Received { message, stopped } => if stopped {
            SessionActionView::End(SubEndView::Stopped)
        } else {
            match decoded_response(message@) {
                Ok(resp) => heard(auto, peers, resp),
                Err(_) => SessionActionView::Read,
            }
        },
    }
}

/// Puts the reason in front of which the address of its node stands into words.
fn with_addr(addr: &String, reason: &String) -> (text: String)
    ensures
        text@ == addr@ + ": "@ + reason@,
{
    let mut text = addr.clone();
    text.append(": ");
    text.append(reason.as_str());
    text
}

impl SubscriptionTask {
    /// Makes a delivered message ready for the consumer.
    pub fn dispatch(&self, d: proto::Delivered) -> (dispatch: Dispatch)
        ensures
            dispatch@ == dispatch_of(self.auto, delivered_view(d)),
    {
        let lease_id: u64 = d.lease_id;
        let message = delivered_message(d);
        if self.auto {
            Dispatch { message, lease: None }
        } else {
            Dispatch { message, lease: Some(lease_id) }
        }
    }

    /// The request that settles a lease: the message is acknowledged if it was
    /// handled well, and given back if not.
    pub fn settle(&self, lease_id: u64, handled: Handled) -> (req: proto::Request)
        ensures
            request_view(req) == (if handled_well(handled) {
                RequestView::Ack { topic: self.topic@, group: self.group@, lease_id }
            } else {
                RequestView::Nack { topic: self.topic@, group: self.group@, lease_id }
            }),
            request_view(req) == settling_request(self.topic@, self.group@, lease_id, handled),
    {
        let well: bool = match handled {
            Handled::Returned => true,
            Handled::Resolved => true,
            Handled::Rejected => false,
            Handled::Threw => false,
        };
        if well {
            ack_request(self.topic.clone(), self.group.clone(), lease_id)
        } else {
            nack_request(self.topic.clone(), self.group.clone(), lease_id)
        }
    }

    /// Makes delivered messages ready for the consumer.
    fn dispatch_all(&self, items: Vec<proto::Delivered>) -> (dispatches: Vec<Dispatch>)
        ensures
            dispatches_view(dispatches@) == items@.map_values(
                |d: proto::Delivered| delivered_view(d),
            ).map_values(|d: DeliveredView| dispatch_of(self.auto, d)),
    {
        let ghost all = items@;
        let mut dispatches: Vec<Dispatch> = Vec::new();
        for d in it: items
            invariant
                it.seq() == all,
                dispatches@.len() == it.index(),
                forall|k: int|
                    0 <= k < it.index() ==> (#[trigger] dispatches@[k])@ == dispatch_of(
                        self.auto,
                        delivered_view(all[k]),
                    ),
        {
            dispatches.push(self.dispatch(d));
        }
        assert(dispatches_view(dispatches@) =~= all.map_values(
            |d: proto::Delivered| delivered_view(d),
        ).map_values(|d: DeliveredView| dispatch_of(self.auto, d)));
        dispatches
    }

    /// Decides what a response of the member `i` leads to. A node that delivers
    /// is taken for the leader, and earlier failures are forgotten.
    pub fn hear<S, H>(
        &self,
        inner: &mut Inner<S, H>,
        i: usize,
        failures: &mut u32,
        resp: proto::Response,
    ) -> (action: SessionAction)
        requires
            old(inner).wf(),
            i < old(inner).nodes@.len(),
        ensures
            action@ == heard(self.auto, old(inner).peers(), response_view(resp)),
            final(inner).wf(),
            *final(inner) == (if action is Deliver {
                old(inner).led_by(i as int)
            } else {
                *old(inner)
            }),
            *final(failures) == (if action is Deliver {
                0
            } else {
                *old(failures)
            }),
    {
        let hint: Option<Option<usize>> = match redirect_of(&resp) {
            Some(leader_addr) => Some(inner.peer_index(leader_addr.as_str())),
            None => None,
        };
        match resp.kind {
            Some(proto::response::Kind::Polled(p)) => {
                *failures = 0;
                inner.leader = i;
                SessionAction::Deliver(self.dispatch_all(p.items))
            },
            Some(proto::response::Kind::Error(e)) => match hint {
                Some(j) => SessionAction::End(SubEnd::NotLeader(j)),
                None => SessionAction::End(SubEnd::Failed(with_addr(&e.code, &e.message))),
            },
            _ => SessionAction::Read,
        }
    }

    /// Decides what an event leads to in a session with the member `i`.
    pub fn once<S, H>(
        &self,
        inner: &mut Inner<S, H>,
        i: usize,
        failures: &mut u32,
        event: SessionEvent,
    ) -> (action: SessionAction)
        requires
            old(inner).wf(),
            i < old(inner).nodes@.len(),
        ensures
            action@ == session_next(
                self.auto,
                old(inner).peers(),
                old(inner).addr(i as int),
                event,
            ),
            final(inner).wf(),
            *final(inner) == (if action is Deliver {
                old(inner).led_by(i as int)
            } else {
                *old(inner)
            }),
            *final(failures) == (if action is Deliver {
                0
            } else {
                *old(failures)
            }),
            session_step(
                self.auto,
                old(inner).peers(),
                old(inner).addr(i as int),
                i as int,
                SessionView {
                    leader: old(inner).leader as int,
                    failures: *old(failures) as nat,
                    dispatched: Seq::empty(),
                    end: None,
                },
                event,
            ) == (SessionView {
                leader: final(inner).leader as int,
                failures: *final(failures) as nat,
                dispatched: match action {
                    SessionAction::Deliver(dispatches) => dispatches_view(dispatches@),
                    _ => Seq::empty(),
                },
                end: match action {
                    SessionAction::End(end) => Some(end@),
                    _ => None,
                },
            }),
    {
        match event {
            SessionEvent::Unreachable(reason) => SessionAction::End(
                SubEnd::Failed(with_addr(&inner.nodes[i].client_addr, &reason)),
            ),
            SessionEvent::Lost { reason, stopped } => {
                if stopped {
                    SessionAction::End(SubEnd::Stopped)
                } else {
                    SessionAction::End(
                        SubEnd::Failed(with_addr(&inner.nodes[i].client_addr, &reason)),
                    )
                }
            },
            SessionEvent::Received { message, stopped } => {
                if stopped {
                    return SessionAction::End(SubEnd::Stopped);
                }
                match decode_response(message.as_slice()) {
                    Ok(resp) => self.hear(inner, i, failures, resp),
                    Err(_) => SessionAction::Read,
                }
            },
        }
    }
}

/// A subscription between its sessions: which member the next session is with
/// (counted on past the last member to the first), and how many sessions have
/// failed since a message was delivered.
#[derive(Debug)]
pub struct Run {
    pub idx: usize,
    pub failures: u32,
}

/// A [`Run`] as a mathematical value.
pub struct RunView {
    pub idx: nat,
    pub failures: nat,
}

impl View for Run {
    type V = RunView;

    open spec fn view(&self) -> RunView {
        RunView { idx: self.idx as nat, failures: self.failures as nat }
    }
}

/// What the runner of a subscription does after a session.
#[derive(Debug)]
pub enum RunAction {
    /// The subscription is over.
    Stop,
    /// Report the failure, if there is one to report; then wait this many
    /// milliseconds and begin the next session.
    Retry { report: Option<String>, sleep_ms: u64 },
}

/// A [`RunAction`] as a mathematical value.
pub enum RunActionView {
    Stop,
    Retry { report: Option<Seq<char>>, sleep_ms: nat },
}

impl View for RunAction {
    type V = RunActionView;

    open spec fn view(&self) -> RunActionView {
        match self {
            RunAction::Stop => RunActionView::Stop,
            RunAction::Retry { report: Some(reason), sleep_ms } => RunActionView::Retry {
                report: Some(reason@),
                sleep_ms: *sleep_ms as nat,
            },
            RunAction::Retry { report: None, sleep_ms } => RunActionView::Retry {
                report: None,
                sleep_ms: *sleep_ms as nat,
            },
        }
    }
}

/// The wait after the failure of number `failures`.
pub open spec fn session_wait(failures: nat) -> nat {
    backoff_ms((failures - 1) as nat, SUBSCRIBE_BACKOFF_CAP_MS as nat)
}

/// The number of the member that the next session is with.
pub open spec fn run_target(run: RunView, n: nat) -> nat {
    run.idx % n
}

/// What the end of a session leads to: a redirect is followed, a failure is
/// reported and leads on to the next member.
pub open spec fn run_next(n: nat, run: RunView, end: SubEndView) -> (RunView, RunActionView) {
    let i = run_target(run, n);
    match end {
        SubEndView::Stopped => (run, RunActionView::Stop),
        SubEndView::NotLeader(hint) => (
            RunView {
                idx: match hint {
                    Some(j) => j as nat,
                    None => i + 1,
                },
                failures: run.failures + 1,
            },
            RunActionView::Retry { report: None, sleep_ms: session_wait(run.failures + 1) },
        ),
        SubEndView::Failed(reason) => (
            RunView { idx: i + 1, failures: run.failures + 1 },
            RunActionView::Retry {
                report: Some(reason),
                sleep_ms: session_wait(run.failures + 1),
            },
        ),
    }
}

/// What the runner of a subscription does after a session: report the failure,
/// if there is one to report; then wait this many milliseconds, if the
/// subscription is not over.
#[derive(Debug)]
pub struct RunStep {
    pub report: Option<String>,
    pub sleep_ms: Option<u64>,
}

/// A [`RunStep`] as a mathematical value.
pub struct RunStepView {
    pub report: Option<Seq<char>>,
    pub sleep_ms: Option<nat>,
}

impl View for RunStep {
    type V = RunStepView;

    open spec fn view(&self) -> RunStepView {
        RunStepView {
            report: match self.report {
                Some(reason) => Some(reason@),
                None => None,
            },
            sleep_ms: match self.sleep_ms {
                Some(ms) => Some(ms as nat),
                None => None,
            },
        }
    }
}

/// What the end of a session leads to, if the consumer has unsubscribed by then
/// and if not. A failure is reported either way; what would follow it does not
/// follow once the consumer has unsubscribed.
pub open spec fn run_step(n: nat, run: RunView, end: SubEndView, stopped: bool) -> (
    RunView,
    RunStepView,
) {
    let (next, action) = run_next(n, run, end);
    match action {
        RunActionView::Stop => (next, RunStepView { report: None, sleep_ms: None }),
        RunActionView::Retry { report, sleep_ms } => (
            next,
            RunStepView {
                report,
                sleep_ms: if stopped {
                    None
                } else {
                    Some(sleep_ms)
                },
            },
        ),
    }
}

/// The member that the next session is with; there is none once the consumer
/// has unsubscribed.
pub open spec fn next_session(n: nat, run: RunView, stopped: bool) -> Option<nat> {
    if stopped {
        None
    } else {
        Some(run_target(run, n))
    }
}

/// A subscription before its first session, if the member `leader` is taken for
/// the leader.
pub open spec fn run_begun(leader: nat) -> RunView {
    RunView { idx: leader, failures: 0 }
}

impl Run {
    /// Begins with the member taken for the leader.
    pub fn begin<S, H>(inner: &Inner<S, H>) -> (run: Run)
        ensures
            run@ == (RunView { idx: inner.leader as nat, failures: 0 }),
            run@ == run_begun(inner.leader as nat),
    {
        Run { idx: inner.leader, failures: 0 }
    }

    /// The number of the member that the next session is with.
    pub fn target<S, H>(&self, inner: &Inner<S, H>) -> (i: usize)
        requires
            inner.wf(),
        ensures
            i == run_target(self@, inner.nodes@.len()),
            i < inner.nodes@.len(),
    {
        self.idx % inner.nodes.len()
    }

    /// The number of the member that a session begins with now; `stopped` tells
    /// whether the consumer has unsubscribed.
    pub fn session<S, H>(&self, inner: &Inner<S, H>, stopped: bool) -> (i: Option<usize>)
        requires
            inner.wf(),
        ensures
            match i {
                Some(member) => {
                    &&& next_session(inner.nodes@.len(), self@, stopped) == Some(member as nat)
                    &&& member < inner.nodes@.len()
                },
                None => next_session(inner.nodes@.len(), self@, stopped) is None,
            },
    {
        if stopped {
            None
        } else {
            Some(self.target(inner))
        }
    }

    /// Decides what the end of a session leads to; `stopped` tells whether the
    /// consumer has unsubscribed by now.
    pub fn session_ended<S, H>(&mut self, inner: &Inner<S, H>, end: SubEnd, stopped: bool) -> (step:
        RunStep)
        requires
            inner.wf(),
            end is Stopped || old(self).failures < u32::MAX,
        ensures
            (final(self)@, step@) == run_step(inner.nodes@.len(), old(self)@, end@, stopped),
    {
        match self.ended(inner, end) {
            RunAction::Stop => RunStep { report: None, sleep_ms: None },
            RunAction::Retry { report, sleep_ms } => {
                if stopped {
                    RunStep { report, sleep_ms: None }
                } else {
                    RunStep { report, sleep_ms: Some(sleep_ms) }
                }
            },
        }
    }

    /// Decides what the end of a session leads to for a consumer who has not
    /// unsubscribed.
    pub fn ended<S, H>(&mut self, inner: &Inner<S, H>, end: SubEnd) -> (action: RunAction)
        requires
            inner.wf(),
            end is Stopped || old(self).failures < u32::MAX,
        ensures
            (final(self)@, action@) == run_next(inner.nodes@.len(), old(self)@, end@),
    {
        let i: usize = self.target(inner);
        match end {
            SubEnd::Stopped => RunAction::Stop,
            SubEnd::NotLeader(hint) => {
                self.idx = match hint {
                    Some(j) => j,
                    None => i + 1,
                };
                self.failures = self.failures + 1;
                RunAction::Retry {
                    report: None,
                    sleep_ms: backoff(self.failures - 1, SUBSCRIBE_BACKOFF_CAP_MS),
                }
            },
            SubEnd::Failed(reason) => {
                self.idx = i + 1;
                self.failures = self.failures + 1;
                RunAction::Retry {
                    report: Some(reason),
                    sleep_ms: backoff(self.failures - 1, SUBSCRIBE_BACKOFF_CAP_MS),
                }
            },
        }
    }
}

/// A subscription goes on until the consumer unsubscribes: no failure ends it.
/// Each failure is reported, and a redirect is not.
pub proof fn law_subscription_persists(n: nat, run: RunView, end: SubEndView)
    ensures
        run_next(n, run, end).1 is Stop <==> end is Stopped,
        end matches SubEndView::Failed(reason) ==> (run_next(n, run, end).1 matches
            RunActionView::Retry { report, .. } && report == Some(reason)),
        end is NotLeader ==> (run_next(n, run, end).1 matches RunActionView::Retry { report, .. }
            && report is None),
{
}

/// What happens to a subscription. `stopped` tells whether the consumer has
/// unsubscribed by then.
pub enum RunEvent {
    /// It is time for the next session.
    Turn { stopped: bool },
    /// A session has ended with this many failures counted.
    Ended { failures: nat, end: SubEndView, stopped: bool },
}

impl RunEvent {
    /// Whether the consumer has unsubscribed by then.
    pub open spec fn stopped(self) -> bool {
        match self {
            RunEvent::Turn { stopped } => stopped,
            RunEvent::Ended { stopped, .. } => stopped,
        }
    }
}

/// The history of a subscription: where it stands, the members that sessions
/// began with, what was reported, and whether it is over.
pub struct RunHistory {
    pub run: RunView,
    pub sessions: Seq<nat>,
    pub reports: Seq<Seq<char>>,
    pub over: bool,
}

/// The history of a subscription after one more event. Nothing happens to a
/// subscription that is over.
pub open spec fn run_history_next(n: nat, h: RunHistory, event: RunEvent) -> RunHistory {
    if h.over {
        h
    } else {
        match event {
            RunEvent::Turn { stopped } => match next_session(n, h.run, stopped) {
                Some(i) => RunHistory { sessions: h.sessions.push(i), ..h },
                None => RunHistory { over: true, ..h },
            },
            RunEvent::Ended { failures, end, stopped } => {
                let (run, step) = run_step(n, RunView { failures, ..h.run }, end, stopped);
                RunHistory {
                    run,
                    reports: match step.report {
                        Some(reason) => h.reports.push(reason),
                        None => h.reports,
                    },
                    over: step.sleep_ms is None,
                    ..h
                }
            },
        }
    }
}

/// The history of a subscription after the given events.
pub open spec fn run_history(n: nat, h: RunHistory, events: Seq<RunEvent>) -> RunHistory
    decreases events.len(),
{
    if events.len() == 0 {
        h
    } else {
        run_history_next(n, run_history(n, h, events.drop_last()), events.last())
    }
}

/// No session begins after the consumer has unsubscribed: whatever happened
/// before, and whatever happens from then on. The subscription is over with the
/// first thing that happens.
pub proof fn law_no_session_after_unsubscribe(
    n: nat,
    h: RunHistory,
    before: Seq<RunEvent>,
    after: Seq<RunEvent>,
)
    requires
        forall|k: int| 0 <= k < after.len() ==> (#[trigger] after[k]).stopped(),
    ensures
        run_history(n, h, before + after).sessions == run_history(n, h, before).sessions,
        after.len() > 0 ==> run_history(n, h, before + after).over,
    decreases after.len(),
{
    if after.len() == 0 {
        assert(before + after =~= before);
    } else {
        let front = after.drop_last();
        assert forall|k: int| 0 <= k < front.len() implies (#[trigger] front[k]).stopped() by {
            assert(after[k].stopped());
        }
        law_no_session_after_unsubscribe(n, h, before, front);
        assert((before + after).drop_last() =~= before + front);
        assert(after.last().stopped());
    }
}

/// A session that fails is reported even if the consumer has unsubscribed
/// meanwhile, unless the session itself noticed that.
pub proof fn law_last_failure_is_reported(n: nat, run: RunView, end: SubEndView, stopped: bool)
    ensures
        run_step(n, run, end, stopped).1.report == (match end {
            SubEndView::Failed(reason) => Some(reason),
            _ => None,
        }),
        run_step(n, run, end, stopped).0 == run_next(n, run, end).0,
        run_step(n, run, end, stopped).1.sleep_ms is None <==> stopped || end is Stopped,
{
}

/// Nothing but the consumer ends a subscription: until they unsubscribe, it is
/// not over, and every time for a session begins one.
pub proof fn law_subscription_goes_on(n: nat, h: RunHistory, events: Seq<RunEvent>)
    requires
        !h.over,
        forall|k: int| 0 <= k < events.len() ==> !(#[trigger] events[k]).stopped(),
        forall|k: int|
            0 <= k < events.len() ==> ((#[trigger] events[k]) matches RunEvent::Ended { end, .. }
                ==> !(end is Stopped)),
    ensures
        !run_history(n, h, events).over,
        run_history(n, h, events).sessions.len() == h.sessions.len() + events.filter(
            |event: RunEvent| event is Turn,
        ).len(),
    decreases events.len(),
{
    reveal(Seq::filter);
    if events.len() > 0 {
        let front = events.drop_last();
        assert forall|k: int| 0 <= k < front.len() implies #[trigger] front[k] == events[k] by {}
        law_subscription_goes_on(n, h, front);
        assert(!events.last().stopped());
        assert(events.last() == events[events.len() - 1]);
    }
}

/// The run after sessions that ended as `ends` says.
pub open spec fn run_after(n: nat, run: RunView, ends: Seq<SubEndView>) -> RunView
    decreases ends.len(),
{
    if ends.len() == 0 {
        run
    } else {
        run_next(n, run_after(n, run, ends.drop_last()), ends.last()).0
    }
}

/// While sessions fail, each is with the member after the one before it, and
/// with the first member after the last.
pub proof fn law_subscription_rotates(n: nat, run: RunView, ends: Seq<SubEndView>)
    requires
        0 < n,
        forall|k: int| 0 <= k < ends.len() ==> (#[trigger] ends[k]) is Failed,
    ensures
        run_target(run_after(n, run, ends), n) == (run.idx + ends.len()) % n,
    decreases ends.len(),
{
    if ends.len() > 0 {
        let front = ends.drop_last();
        assert forall|k: int| 0 <= k < front.len() implies (#[trigger] front[k]) is Failed by {
            assert(ends[k] is Failed);
        }
        law_subscription_rotates(n, run, front);
        assert(ends.last() is Failed);
        let sum = run.idx + front.len();
        lemma_mod_bound(sum as int, n as int);
        lemma_small_mod(sum % n, n);
        lemma_add_mod_noop(sum as int, 1, n as int);
        lemma_add_mod_noop((sum % n) as int, 1, n as int);
    }
}

/// The waits of a subscription grow with each session that ends before a
/// message is delivered, and never exceed five seconds.
pub proof fn law_subscription_waits(n: nat, run: RunView, ends: Seq<SubEndView>, end: SubEndView)
    requires
        !(end is Stopped),
        forall|k: int| 0 <= k < ends.len() ==> !((#[trigger] ends[k]) is Stopped),
    ensures
        run_after(n, run, ends).failures == run.failures + ends.len(),
        run_next(n, run_after(n, run, ends), end).1 matches RunActionView::Retry { sleep_ms, .. }
            && sleep_ms == session_wait(run.failures + ends.len() + 1) && sleep_ms <= 5_000,
    decreases ends.len(),
{
    let failures = run.failures + ends.len();
    law_backoff_grows(failures, failures, SUBSCRIBE_BACKOFF_CAP_MS as nat);
    if ends.len() > 0 {
        let front = ends.drop_last();
        assert forall|k: int| 0 <= k < front.len() implies !((#[trigger] front[k]) is Stopped) by {
            assert(!(ends[k] is Stopped));
        }
        law_subscription_waits(n, run, front, end);
        assert(!(ends.last() is Stopped));
    }
}

/// Once a message was delivered, the next failure is followed by the shortest
/// wait again.
pub proof fn law_delivery_resets_waits(n: nat, run: RunView, end: SubEndView)
    requires
        !(end is Stopped),
        run.failures == 0,
    ensures
        run_next(n, run, end).1 matches RunActionView::Retry { sleep_ms, .. } && sleep_ms == 50,
{
    law_backoff_starts(SUBSCRIBE_BACKOFF_CAP_MS as nat);
}

/// A subscription follows a redirect: the next session is with the member that
/// the node pointed to.
pub proof fn law_subscription_follows_redirect(
    auto: bool,
    peers: Seq<Seq<char>>,
    resp: ResponseView,
    leader_addr: Seq<char>,
    j: int,
    run: RunView,
)
    requires
        redirect(resp) == Some(leader_addr),
        peer_position(peers, leader_addr) == Some(j),
    ensures
        peers[j] == leader_addr,
        heard(auto, peers, resp) matches SessionActionView::End(end) && run_target(
            run_next(peers.len(), run, end).0,
            peers.len(),
        ) == j,
{
    peers.index_of_first_ensures(leader_addr);
    lemma_small_mod(j as nat, peers.len());
}

/// In manual mode every delivered message has its own lease to settle; in auto
/// mode none has, so that the consumer's handling of it has no effect.
pub proof fn law_leases_follow_mode(peers: Seq<Seq<char>>, items: Seq<DeliveredView>, auto: bool)
    ensures
        heard(auto, peers, ResponseView::Polled { items }) matches SessionActionView::Deliver(out)
            && out.len() == items.len() && forall|k: int|
            0 <= k < items.len() ==> (#[trigger] out[k]).message == message_of(items[k])
                && out[k].lease == (if auto {
                None::<u64>
            } else {
                Some(items[k].lease_id)
            }),
{
}

/// What a session has come to: which member is taken for the leader, how many
/// sessions have failed since a message was delivered, what the consumer was
/// given, and how the session ended, if it has.
pub struct SessionView {
    pub leader: int,
    pub failures: nat,
    pub dispatched: Seq<DispatchView>,
    pub end: Option<SubEndView>,
}

/// What a session with the member `i` has come to after one more event. After
/// its end nothing happens in it.
pub open spec fn session_step(
    auto: bool,
    peers: Seq<Seq<char>>,
    addr: Seq<char>,
    i: int,
    session: SessionView,
    event: SessionEvent,
) -> SessionView {
    if session.end is Some {
        session
    } else {
        match session_next(auto, peers, addr, event) {
            SessionActionView::Read => session,
            SessionActionView::Deliver(dispatches) => SessionView {
                leader: i,
                failures: 0,
                dispatched: session.dispatched + dispatches,
                ..session
            },
            SessionActionView::End(end) => SessionView { end: Some(end), ..session },
        }
    }
}

/// What a session with the member `i` has come to after the given events.
pub open spec fn session_after(
    auto: bool,
    peers: Seq<Seq<char>>,
    addr: Seq<char>,
    i: int,
    session: SessionView,
    events: Seq<SessionEvent>,
) -> SessionView
    decreases events.len(),
{
    if events.len() == 0 {
        session
    } else {
        session_step(
            auto,
            peers,
            addr,
            i,
            session_after(auto, peers, addr, i, session, events.drop_last()),
            events.last(),
        )
    }
}

/// The node sent something that is no concern of a session: it cannot be
/// decoded, or it is a response but brings neither messages nor an error.
pub open spec fn of_no_concern(event: SessionEvent) -> bool {
    match event {
        SessionEvent::Received { message, stopped: false } => match decoded_response(message@) {
            Ok(resp) => !(resp is Polled) && !(resp is Error),
            Err(_) => true,
        },
        _ => false,
    }
}

/// What is no concern of a session has no effect on it: without it, the session
/// ends in the same way, the consumer is given the same, the same member is
/// taken for the leader and as many failures are counted.
pub proof fn law_session_skips_the_rest(
    auto: bool,
    peers: Seq<Seq<char>>,
    addr: Seq<char>,
    i: int,
    session: SessionView,
    events: Seq<SessionEvent>,
)
    ensures
        session_after(auto, peers, addr, i, session, events) == session_after(
            auto,
            peers,
            addr,
            i,
            session,
            events.filter(|event: SessionEvent| !of_no_concern(event)),
        ),
    decreases events.len(),
{
    let concern = |event: SessionEvent| !of_no_concern(event);
    reveal(Seq::filter);
    if events.len() > 0 {
        let front = events.drop_last();
        law_session_skips_the_rest(auto, peers, addr, i, session, front);
        if concern(events.last()) {
            assert(events.filter(concern) == front.filter(concern).push(events.last()));
            assert(front.filter(concern).push(events.last()).drop_last() =~= front.filter(concern));
        }
    }
}

/// Until the node delivers messages, a session leaves the leader and the count
/// of failures as they were and gives the consumer nothing. Once the node has
/// delivered messages before the session ended, that node is taken for the
/// leader and no failure counts.
pub proof fn law_session_counts_deliveries(
    auto: bool,
    peers: Seq<Seq<char>>,
    addr: Seq<char>,
    i: int,
    session: SessionView,
    events: Seq<SessionEvent>,
)
    ensures
        (forall|k: int|
            0 <= k < events.len() ==> !((#[trigger] session_next(
                auto,
                peers,
                addr,
                events[k],
            )) is Deliver)) ==> session_after(auto, peers, addr, i, session, events) == (
        SessionView {
            end: session_after(auto, peers, addr, i, session, events).end,
            ..session
        }),
        forall|k: int|
            0 <= k < events.len() && session_after(
                auto,
                peers,
                addr,
                i,
                session,
                events.take(k),
            ).end is None && (#[trigger] session_next(auto, peers, addr, events[k])) is Deliver
                ==> ({
                let after = session_after(auto, peers, addr, i, session, events);
                after.leader == i && after.failures == 0
            }),
    decreases events.len(),
{
    if events.len() > 0 {
        let front = events.drop_last();
        law_session_counts_deliveries(auto, peers, addr, i, session, front);
        assert forall|k: int| 0 <= k < front.len() implies #[trigger] session_next(
            auto,
            peers,
            addr,
            front[k],
        ) == session_next(auto, peers, addr, events[k]) by {}
        assert(events.last() == events[events.len() - 1]);
        assert forall|k: int|
            0 <= k < events.len() && session_after(
                auto,
                peers,
                addr,
                i,
                session,
                events.take(k),
            ).end is None && (#[trigger] session_next(
                auto,
                peers,
                addr,
                events[k],
            )) is Deliver implies ({
            let after = session_after(auto, peers, addr, i, session, events);
            after.leader == i && after.failures == 0
        }) by {
            if k < front.len() {
                assert(front.take(k) =~= events.take(k));
                assert(session_next(auto, peers, addr, front[k]) is Deliver);
            } else {
                assert(events.take(k) =~= front);
            }
        }
    }
}

/// A session ends with the first event that ends it, and nothing that comes
/// later counts.
pub proof fn law_session_ends_once(
    auto: bool,
    peers: Seq<Seq<char>>,
    addr: Seq<char>,
    i: int,
    session: SessionView,
    events: Seq<SessionEvent>,
    later: Seq<SessionEvent>,
)
    requires
        session_after(auto, peers, addr, i, session, events).end is Some,
    ensures
        session_after(auto, peers, addr, i, session, events + later) == session_after(
            auto,
            peers,
            addr,
            i,
            session,
            events,
        ),
    decreases later.len(),
{
    if later.len() == 0 {
        assert(events + later =~= events);
    } else {
        law_session_ends_once(auto, peers, addr, i, session, events, later.drop_last());
        assert((events + later).drop_last() =~= events + later.drop_last());
    }
}

/// A subscription asks for the messages of its topic and group in the mode that
/// the consumer names, which is `manual` if they name none; any other word is
/// refused and shown. It asks for 16 messages at a time and leases of thirty
/// seconds where the consumer does not say.
pub proof fn law_subscription_asks_as_given(
    options: SubscribeOptions,
    res: Result<SubscriptionTask, ClientError>,
)
    requires
        match res {
            Ok(task) => {
                &&& auto_acked(options.ack_mode) == Ok::<bool, Seq<char>>(task.auto)
                &&& task.topic@ == options.topic@
                &&& task.group@ == options.group@
                &&& request_view(task.sub_req) == subscribe_request(options, task.auto)
            },
            Err(e) => auto_acked(options.ack_mode) matches Err(debugged) && e@ == invalid_mode_text(
                debugged,
            ),
        },
    ensures
        match options.ack_mode {
            None => res matches Ok(task) && !task.auto,
            Some(mode) => {
                &&& mode@ == "manual"@ ==> (res matches Ok(task) && !task.auto)
                &&& mode@ == "auto"@ ==> (res matches Ok(task) && task.auto)
                &&& mode@ != "manual"@ && mode@ != "auto"@ ==> (res matches Err(e) && e.reason@
                    == "subscribe: invalid ackMode "@ + debugged_text(mode@)
                    + "; expected \"auto\" or \"manual\""@)
            },
        },
        res matches Ok(task) ==> (task.sub_req.kind matches Some(proto::request::Kind::Subscribe(m))
            && m.topic@ == options.topic@ && m.group@ == options.group@ && (task.auto
            ==> m.ack_mode@ == "auto"@) && (!task.auto ==> m.ack_mode@ == "manual"@) && (
        options.prefetch matches Some(n) ==> m.prefetch == n) && (options.prefetch is None
            ==> m.prefetch == 16) && (options.visibility_ms matches Some(ms)
            ==> m.visibility_timeout_ms == (if ms < 0 {
            0
        } else {
            ms as int
        })) && (options.visibility_ms is None ==> m.visibility_timeout_ms == 30_000)),
{
    reveal_strlit("manual");
    reveal_strlit("auto");
}

/// A message that was handled is acknowledged if the handler returned or its
/// promise was resolved, and given back if it threw or its promise was
/// rejected; by its own lease, for the topic and group of the subscription.
pub proof fn law_handling_settles_the_lease(
    task: SubscriptionTask,
    lease_id: u64,
    handled: Handled,
    req: proto::Request,
)
    requires
        request_view(req) == settling_request(task.topic@, task.group@, lease_id, handled),
    ensures
        match handled {
            Handled::Returned | Handled::Resolved => req.kind matches Some(
                proto::request::Kind::Ack(m),
            ) && m.topic@ == task.topic@ && m.group@ == task.group@ && m.lease_id == lease_id,
            Handled::Threw | Handled::Rejected => req.kind matches Some(
                proto::request::Kind::Nack(m),
            ) && m.topic@ == task.topic@ && m.group@ == task.group@ && m.lease_id == lease_id,
        },
{
}

/// True if `d` is the message `item` on its way to the consumer, in the given
/// mode: nothing of it is changed, and its lease is to be settled in manual mode
/// only.
pub open spec fn brings(auto: bool, item: DeliveredView, d: DispatchView) -> bool {
    &&& parsed_u64(d.message.lease_id) == Some(item.lease_id)
    &&& parsed_u64(d.message.offset) == Some(item.offset)
    &&& parsed_u64(d.message.ts_ms) == Some(item.ts_ms)
    &&& d.message.priority == item.priority
    &&& d.message.content_type == item.content_type
    &&& d.message.payload == item.payload
    &&& auto ==> d.lease is None
    &&& !auto ==> d.lease == Some(item.lease_id)
}

/// Every message is brought to the consumer.
proof fn lemma_dispatch_brings(auto: bool, item: DeliveredView)
    ensures
        brings(auto, item, dispatch_of(auto, item)),
{
    law_decimal_reads_back(item.lease_id);
    law_decimal_reads_back(item.offset);
    law_decimal_reads_back(item.ts_ms);
}

/// What an event leads to in a session, in either mode. The messages of a
/// response are given to the consumer, all of them, in their order. A node that
/// is not the leader ends the session, with the first member that has the
/// address that it names, if any has. Any other error ends it with the node's
/// words, and a failed connection with the node's address and the reason. What
/// cannot be decoded and what brings neither messages nor an error is skipped.
/// Once the consumer has unsubscribed, whatever comes in ends the session.
pub proof fn law_session_event_leads_where_it_should<S, H>(
    task: SubscriptionTask,
    inner: Inner<S, H>,
    i: int,
    event: SessionEvent,
    action: SessionAction,
)
    requires
        inner.wf(),
        0 <= i < inner.nodes@.len(),
        action@ == session_next(task.auto, inner.peers(), inner.addr(i), event),
    ensures
        match event {
            SessionEvent::Unreachable(reason) => action matches SessionAction::End(
                SubEnd::Failed(text),
            ) && text@ == inner.nodes@[i].client_addr@ + ": "@ + reason@,
            SessionEvent::Lost { reason, stopped } => if stopped {
                action matches SessionAction::End(SubEnd::Stopped)
            } else {
                action matches SessionAction::End(SubEnd::Failed(text)) && text@
                    == inner.nodes@[i].client_addr@ + ": "@ + reason@
            },
            SessionEvent::Received { message, stopped } => if stopped {
                action matches SessionAction::End(SubEnd::Stopped)
            } else {
                match decoded_response(message@) {
                    Err(_) => action is Read,
                    Ok(ResponseView::Polled { items }) => action matches SessionAction::Deliver(
                        dispatches,
                    ) && dispatches@.len() == items.len() && forall|k: int|
                        0 <= k < items.len() ==> {
                            &&& parsed_u64((#[trigger] dispatches@[k]).message.lease_id@) == Some(
                                items[k].lease_id,
                            )
                            &&& parsed_u64(dispatches@[k].message.offset@) == Some(items[k].offset)
                            &&& parsed_u64(dispatches@[k].message.ts_ms@) == Some(items[k].ts_ms)
                            &&& dispatches@[k].message.priority == items[k].priority
                            &&& dispatches@[k].message.content_type == items[k].content_type
                            &&& dispatches@[k].message.payload@ == items[k].payload
                            &&& task.auto ==> dispatches@[k].lease is None
                            &&& !task.auto ==> dispatches@[k].lease == Some(items[k].lease_id)
                        },
                    Ok(ResponseView::Error(e)) => if e.code == "not_leader"@ {
                        action matches SessionAction::End(SubEnd::NotLeader(hint)) && match hint {
                            Some(j) => {
                                &&& e.leader_addr.len() > 0
                                &&& j < inner.nodes@.len()
                                &&& inner.nodes@[j as int].peer_addr@ == e.leader_addr
                                &&& forall|k: int|
                                    0 <= k < j ==> (#[trigger] inner.nodes@[k]).peer_addr@
                                        != e.leader_addr
                            },
                            None => e.leader_addr.len() == 0 || forall|k: int|
                                0 <= k < inner.nodes@.len() ==> (
                                #[trigger] inner.nodes@[k]).peer_addr@ != e.leader_addr,
                        }
                    } else {
                        action matches SessionAction::End(SubEnd::Failed(text)) && text@ == e.code
                            + ": "@ + e.message
                    },
                    Ok(_) => action is Read,
                }
            },
        },
{
    if let SessionEvent::Received { message, stopped: false } = event {
        match decoded_response(message@) {
            Ok(ResponseView::Polled { items }) => {
                if let SessionAction::Deliver(dispatches) = action {
                    let views = dispatches_view(dispatches@);
                    assert(views.len() == dispatches@.len());
                    assert forall|k: int| 0 <= k < items.len() implies brings(
                        task.auto,
                        items[k],
                        (#[trigger] dispatches@[k])@,
                    ) by {
                        assert(views[k] == dispatches@[k]@);
                        lemma_dispatch_brings(task.auto, items[k]);
                    }
                }
            },
            Ok(ResponseView::Error(e)) => {
                law_member_is_found_by_address(inner, e.leader_addr);
            },
            _ => {},
        }
    }
}

/// True of an event that does not end a session: something came in, the consumer
/// has not unsubscribed, and it is no error.
pub open spec fn no_end(event: SessionEvent) -> bool {
    event matches SessionEvent::Received { message, stopped } && !stopped && !(decoded_response(
        message@,
    ) matches Ok(resp) && resp is Error)
}

/// The messages that an event brings.
pub open spec fn brought(event: SessionEvent) -> Seq<DeliveredView> {
    match event {
        SessionEvent::Received { message, .. } => match decoded_response(message@) {
            Ok(ResponseView::Polled { items }) => items,
            _ => Seq::empty(),
        },
        _ => Seq::empty(),
    }
}

/// The messages that events bring, in their order.
pub open spec fn all_brought(events: Seq<SessionEvent>) -> Seq<DeliveredView>
    decreases events.len(),
{
    if events.len() == 0 {
        Seq::empty()
    } else {
        all_brought(events.drop_last()) + brought(events.last())
    }
}

/// True of an event that holds a response to deliver, be it without messages.
pub open spec fn delivers(event: SessionEvent) -> bool {
    event matches SessionEvent::Received { message, .. } && decoded_response(message@) matches Ok(
        resp,
    ) && resp is Polled
}

/// A session gives the consumer every message that the node sends before the
/// session ends, in either mode: each once, unchanged, and in their order, after
/// what they were given before. It does not end by itself. Once the node has
/// sent messages it is taken for the leader and failures are forgotten, and not
/// before.
pub proof fn law_session_delivers_everything(
    auto: bool,
    peers: Seq<Seq<char>>,
    addr: Seq<char>,
    i: int,
    session: SessionView,
    events: Seq<SessionEvent>,
)
    requires
        session.end is None,
        forall|k: int| 0 <= k < events.len() ==> no_end(#[trigger] events[k]),
    ensures
        ({
            let after = session_after(auto, peers, addr, i, session, events);
            let items = all_brought(events);
            let given = session.dispatched.len();
            &&& after.end is None
            &&& after.dispatched.len() == given + items.len()
            &&& after.dispatched.take(given as int) == session.dispatched
            &&& forall|k: int|
                0 <= k < items.len() ==> brings(
                    auto,
                    #[trigger] items[k],
                    after.dispatched[given + k],
                )
            &&& (exists|k: int| 0 <= k < events.len() && delivers(#[trigger] events[k]))
                ==> after.leader == i && after.failures == 0
            &&& (forall|k: int| 0 <= k < events.len() ==> !delivers(#[trigger] events[k]))
                ==> after.leader == session.leader && after.failures == session.failures
        }),
    decreases events.len(),
{
    let after = session_after(auto, peers, addr, i, session, events);
    let given = session.dispatched.len();
    if events.len() == 0 {
        assert(session.dispatched.take(given as int) =~= session.dispatched);
    } else {
        let front = events.drop_last();
        assert forall|k: int| 0 <= k < front.len() implies no_end(#[trigger] front[k]) by {
            assert(no_end(events[k]));
        }
        law_session_delivers_everything(auto, peers, addr, i, session, front);
        let before = session_after(auto, peers, addr, i, session, front);
        let last = events.last();
        assert(no_end(last));
        assert(last == events[events.len() - 1]);
        let items = all_brought(events);
        let older = all_brought(front);
        let new = brought(last);
        assert(after.dispatched.take(given as int) =~= session.dispatched) by {
            assert(before.dispatched.take(given as int) =~= session.dispatched);
            assert forall|k: int| 0 <= k < given implies after.dispatched[k]
                == session.dispatched[k] by {
                assert(before.dispatched.take(given as int)[k] == before.dispatched[k]);
                assert(after.dispatched[k] == before.dispatched[k]);
            }
        }
        assert forall|k: int| 0 <= k < items.len() implies brings(
            auto,
            #[trigger] items[k],
            after.dispatched[given + k],
        ) by {
            if k < older.len() {
                assert(items[k] == older[k]);
                assert(after.dispatched[given + k] == before.dispatched[given + k]);
            } else {
                assert(items[k] == new[k - older.len()]);
                lemma_dispatch_brings(auto, items[k]);
            }
        }
        if exists|k: int| 0 <= k < events.len() && delivers(#[trigger] events[k]) {
            if !delivers(last) {
                let k = choose|k: int| 0 <= k < events.len() && delivers(#[trigger] events[k]);
                assert(delivers(front[k]));
            }
        } else {
            assert(!delivers(last));
            assert forall|k: int| 0 <= k < front.len() implies !delivers(#[trigger] front[k]) by {
                assert(!delivers(events[k]));
            }
        }
    }
}

/// Where a subscription goes after a session: to the member that a node named,
/// to the member behind if it named none or the session failed. A failure is
/// reported in its own words, and nothing else is. Each session that ends, but
/// by the consumer, counts as one more failure, and the next one begins after
/// 50 milliseconds, doubled for each failure counted before, or five seconds if
/// that is less.
pub proof fn law_session_end_leads_where_it_should<S, H>(
    inner: Inner<S, H>,
    before: Run,
    end: SubEnd,
    after: Run,
    action: RunAction,
)
    requires
        inner.wf(),
        (after@, action@) == run_next(inner.nodes@.len(), before@, end@),
    ensures
        action is Stop <==> end is Stopped,
        end is Stopped ==> after == before,
        action matches RunAction::Retry { report, sleep_ms } ==> {
            let n = inner.nodes@.len();
            &&& after.failures == before.failures + 1
            &&& match end {
                SubEnd::NotLeader(Some(j)) => after.idx == j && report is None,
                SubEnd::NotLeader(None) => after.idx as int == before.idx as int % n as int + 1
                    && report is None,
                SubEnd::Failed(reason) => after.idx as int == before.idx as int % n as int + 1 && (
                report matches Some(text) && text@ == reason@),
                SubEnd::Stopped => false,
            }
            &&& sleep_ms == (match before.failures {
                0 => 50,
                1 => 100,
                2 => 200,
                3 => 400,
                4 => 800,
                5 => 1_600,
                6 => 3_200,
                _ => 5_000int,
            })
        },
{
    lemma2_to64();
    law_backoff_is_exponential(before.failures as nat, 5_000);
}

/// What unsubscribing changes at the end of a session: nothing but that no next
/// session follows. Before it, sessions follow each other; after it, none
/// begins.
pub proof fn law_unsubscribing_ends_it<S, H>(
    inner: Inner<S, H>,
    before: Run,
    end: SubEnd,
    action: RunAction,
    stopped: bool,
    after: Run,
    step: RunStep,
)
    requires
        (after@, action@) == run_next(inner.nodes@.len(), before@, end@),
        (after@, step@) == run_step(inner.nodes@.len(), before@, end@, stopped),
    ensures
        match action {
            RunAction::Stop => step.report is None && step.sleep_ms is None,
            RunAction::Retry { report, sleep_ms } => {
                &&& match report {
                    Some(reason) => step.report matches Some(text) && text@ == reason@,
                    None => step.report is None,
                }
                &&& stopped ==> step.sleep_ms is None
                &&& !stopped ==> step.sleep_ms == Some(sleep_ms)
            },
        },
        next_session(inner.nodes@.len(), before@, true) is None,
        next_session(inner.nodes@.len(), before@, false) == Some(
            before.idx as nat % inner.nodes@.len(),
        ),
{
}

/// While no session finds out who leads, be it that they fail or that their
/// nodes name no member, each is with the member behind the one before it, and
/// with the first member after the last.
pub proof fn law_subscription_goes_round(n: nat, run: RunView, ends: Seq<SubEndView>)
    requires
        0 < n,
        forall|k: int|
            0 <= k < ends.len() ==> (#[trigger] ends[k]) is Failed || ends[k]
                == SubEndView::NotLeader(None),
    ensures
        next_session(n, run_after(n, run, ends), false) == Some((run.idx + ends.len()) % n),
    decreases ends.len(),
{
    if ends.len() > 0 {
        let front = ends.drop_last();
        assert forall|k: int| 0 <= k < front.len() implies (#[trigger] front[k]) is Failed
            || front[k] == SubEndView::NotLeader(None) by {
            assert(ends[k] is Failed || ends[k] == SubEndView::NotLeader(None));
        }
        law_subscription_goes_round(n, run, front);
        let last = ends[ends.len() - 1];
        assert(last is Failed || last == SubEndView::NotLeader(None));
        let sum = run.idx + front.len();
        lemma_mod_bound(sum as int, n as int);
        lemma_small_mod(sum % n, n);
        lemma_add_mod_noop(sum as int, 1, n as int);
        lemma_add_mod_noop((sum % n) as int, 1, n as int);
    }
}

/// The first session is with the member taken for the leader, and the first
/// failure is followed by the shortest wait.
pub proof fn law_subscription_begins_with_the_leader(n: nat, leader: nat)
    requires
        leader < n,
    ensures
        next_session(n, run_begun(leader), false) == Some(leader),
        run_begun(leader).failures == 0,
{
    lemma_small_mod(leader, n);
}

} // verus!
