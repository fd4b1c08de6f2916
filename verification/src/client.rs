//! The operations of a client: which requests they send.
//!
//! An operation is made of a request, a call that carries it to the leader,
//! and what the response comes to. The requests are made here.

use crate::call::{
    call_attempt, call_begun, call_outcome, law_call_persists, law_same_request_every_attempt,
    leads_on, CallEventView, CallOutcome, Members,
};
use crate::cluster::{Inner, NodeAddr, NodeRec};
use crate::error::ClientError;
use crate::exchange::BASE_READ_TIMEOUT_MS;
use crate::replies::{
    cluster_stats, expect_ok, message_of, ok_result, server_error_text, stats_result,
};
use crate::text::{law_decimal_reads_back, parse_u64, parsed_u64};
use crate::wire::{
    debugged_response, node_view, request_view, response_view, set_rate_limit, DeliveredView,
    NodeView, RequestView, ResponseView, ServerErrorView,
};
use hermesmq_proto as proto;
use vstd::float::FloatBitsProperties;
use vstd::prelude::*;
use vstd::string::*;

verus! {

/// How a client is to be connected.
pub struct ConnectOptions {
    pub bootstrap: Option<bool>,
}

/// How fast the messages of a topic are delivered. The rate per second is held
/// as the bits of an IEEE 754 double.
pub struct RateLimit {
    pub rate_bits: u64,
    pub burst: u32,
}

/// How long the messages of a topic are kept.
pub struct Retention {
    pub max_messages: i64,
    pub max_age_ms: i64,
}

/// A topic to be created.
pub struct CreateTopicOptions {
    pub topic: String,
    pub rate_limit: Option<RateLimit>,
    pub retention: Option<Retention>,
}

/// A message to be produced.
pub struct ProduceOptions {
    pub topic: String,
    pub body: Vec<u8>,
    pub priority: Option<u32>,
    pub producer_id: Option<String>,
    pub seq: Option<i64>,
}

/// A request for messages.
pub struct PollOptions {
    pub topic: String,
    pub group: String,
    pub max: Option<u32>,
    pub visibility_ms: Option<i64>,
    pub wait_ms: Option<i64>,
}

/// The lease of a delivered message.
pub struct LeaseRef {
    pub topic: String,
    pub group: String,
    pub lease_id: String,
}

/// A client of a cluster. `S` is a connection and `H` a handle to a pipeline.
pub struct Client<S, H> {
    pub inner: Inner<S, H>,
}

/// The first thing that a new client does.
#[derive(Clone, Copy, PartialEq, Eq, Structural, Debug)]
pub enum Opening {
    /// Form the cluster.
    Bootstrap,
    /// See that the cluster can be reached.
    Stats,
}

/// The number of messages that a consumer is given at a time, if it does not
/// say.
pub const DEFAULT_BATCH: u32 = 16;

/// How long a lease lasts, in milliseconds, if the consumer does not say.
pub const DEFAULT_VISIBILITY_MS: i64 = 30_000;

/// `x`, or 0 if `x` is negative.
pub open spec fn not_negative(x: i64) -> u64 {
    if x < 0 {
        0
    } else {
        x as u64
    }
}

/// `x`, or 0 if `x` is negative.
pub fn clamp_to_zero(x: i64) -> (y: u64)
    ensures
        y == not_negative(x),
{
    if x < 0 {
        0
    } else {
        x as u64
    }
}

/// What an optional number is, or `default`.
pub open spec fn or_default<T>(x: Option<T>, default: T) -> T {
    match x {
        Some(value) => value,
        None => default,
    }
}

/// What an optional text is, or the empty text.
pub open spec fn or_empty(x: Option<String>) -> Seq<char> {
    match x {
        Some(text) => text@,
        None => Seq::empty(),
    }
}

/// A request or the reason why there is none, as a mathematical value.
pub open spec fn request_result(res: Result<proto::Request, ClientError>) -> Result<
    RequestView,
    Seq<char>,
> {
    match res {
        Ok(req) => Ok(request_view(req)),
        Err(e) => Err(e@),
    }
}

/// The request to produce a message, or why it cannot be produced: a sequence
/// number must not be negative, and a producer must number its messages.
pub open spec fn produce_result(options: ProduceOptions) -> Result<RequestView, Seq<char>> {
    let producer_id = or_empty(options.producer_id);
    if options.seq matches Some(s) && s < 0 {
        Err("produce: seq must be >= 0"@)
    } else if options.seq is None && producer_id.len() > 0 {
        Err("produce: producerId requires seq (a per-producer monotonic counter)"@)
    } else {
        Ok(
            RequestView::Produce {
                topic: options.topic@,
                priority: or_default(options.priority, 0),
                content_type: 0,
                payload: options.body@,
                producer_id,
                seq: or_default(options.seq, 0) as u64,
            },
        )
    }
}

/// Makes the request to produce a message.
pub fn produce_request(options: ProduceOptions) -> (res: Result<proto::Request, ClientError>)
    ensures
        request_result(res) == produce_result(options),
{
    let producer_id = match options.producer_id {
        Some(id) => id,
        None => String::new(),
    };
    let seq: u64 = match options.seq {
        Some(s) => {
            if s < 0 {
                return Err(ClientError::from_reason("produce: seq must be >= 0"));
            }
            s as u64
        },
        None => {
            if !producer_id.as_str().is_empty() {
                return Err(
                    ClientError::from_reason(
                        "produce: producerId requires seq (a per-producer monotonic counter)",
                    ),
                );
            }
            0
        },
    };
    let priority: u32 = match options.priority {
        Some(p) => p,
        None => 0,
    };
    Ok(
        proto::Request {
            kind: Some(
                proto::request::Kind::Produce(
                    proto::Produce {
                        topic: options.topic,
                        priority,
                        content_type: 0,
                        payload: options.body,
                        producer_id,
                        seq,
                    },
                ),
            ),
        },
    )
}

/// True if the requests are those for the messages of a batch.
pub open spec fn batch_requests(
    items: Seq<ProduceOptions>,
    requests: Seq<Result<proto::Request, ClientError>>,
) -> bool {
    &&& requests.len() == items.len()
    &&& forall|k: int|
        0 <= k < items.len() ==> request_result(#[trigger] requests[k]) == produce_result(items[k])
}

/// The request to poll.
pub open spec fn poll_request(options: PollOptions) -> RequestView {
    RequestView::Poll {
        topic: options.topic@,
        group: options.group@,
        max: or_default(options.max, DEFAULT_BATCH),
        visibility_timeout_ms: not_negative(
            or_default(options.visibility_ms, DEFAULT_VISIBILITY_MS),
        ),
        ack_mode: "manual"@,
        wait_ms: not_negative(or_default(options.wait_ms, 0)),
    }
}

/// How long the response to a poll may take, in milliseconds.
pub open spec fn poll_timeout_ms(options: PollOptions) -> nat {
    BASE_READ_TIMEOUT_MS as nat + not_negative(or_default(options.wait_ms, 0)) as nat
}

/// The members of the cluster as the request to bootstrap names them.
pub open spec fn bootstrap_nodes(nodes: Seq<NodeRec>) -> Seq<NodeView> {
    nodes.map_values(|n: NodeRec| NodeView { id: n.id, peer_addr: n.peer_addr@ })
}

/// The number of a lease, or why there is none; `operation` is named in the
/// reason.
pub open spec fn lease_result(operation: Seq<char>, lease_id: Seq<char>) -> Result<
    u64,
    Seq<char>,
> {
    match parsed_u64(lease_id) {
        Some(id) => Ok(id),
        None => Err(operation + ": invalid leaseId"@),
    }
}

/// The request to acknowledge a message, or why there is none.
pub open spec fn ack_result(lease: LeaseRef) -> Result<RequestView, Seq<char>> {
    match lease_result("ack"@, lease.lease_id@) {
        Ok(lease_id) => Ok(
            RequestView::Ack { topic: lease.topic@, group: lease.group@, lease_id },
        ),
        Err(reason) => Err(reason),
    }
}

/// The request to give a message back, or why there is none.
pub open spec fn nack_result(lease: LeaseRef) -> Result<RequestView, Seq<char>> {
    match lease_result("nack"@, lease.lease_id@) {
        Ok(lease_id) => Ok(
            RequestView::Nack { topic: lease.topic@, group: lease.group@, lease_id },
        ),
        Err(reason) => Err(reason),
    }
}

/// Reads the number of a lease.
fn lease_number(operation: &str, lease_id: &str) -> (res: Result<u64, ClientError>)
    ensures
        match res {
            Ok(id) => lease_result(operation@, lease_id@) == Ok::<u64, Seq<char>>(id),
            Err(e) => lease_result(operation@, lease_id@) == Err::<u64, Seq<char>>(e@),
        },
{
    match parse_u64(lease_id) {
        Some(id) => Ok(id),
        None => {
            let mut reason = operation.to_owned();
            reason.append(": invalid leaseId");
            Err(ClientError { reason })
        },
    }
}

/// The request that acknowledges a message.
pub fn ack_request(topic: String, group: String, lease_id: u64) -> (req: proto::Request)
    ensures
        request_view(req) == (RequestView::Ack { topic: topic@, group: group@, lease_id }),
{
    proto::Request { kind: Some(proto::request::Kind::Ack(proto::Ack { topic, group, lease_id })) }
}

/// The request that gives a message back.
pub fn nack_request(topic: String, group: String, lease_id: u64) -> (req: proto::Request)
    ensures
        request_view(req) == (RequestView::Nack { topic: topic@, group: group@, lease_id }),
{
    proto::Request {
        kind: Some(proto::request::Kind::Nack(proto::Nack { topic, group, lease_id })),
    }
}

/// The requests that create a topic: the topic itself, then its limits, if any
/// are asked for.
pub open spec fn topic_requests(options: CreateTopicOptions) -> Seq<RequestView> {
    let topic = options.topic@;
    let created = seq![RequestView::CreateTopic { topic }];
    let limited = match options.rate_limit {
        Some(limit) => created.push(
            RequestView::SetRateLimit { topic, rate_bits: limit.rate_bits, burst: limit.burst },
        ),
        None => created,
    };
    match options.retention {
        Some(retention) => limited.push(
            RequestView::SetRetention {
                topic,
                max_messages: not_negative(retention.max_messages),
                max_age_ms: not_negative(retention.max_age_ms),
            },
        ),
        None => limited,
    }
}

/// The requests as mathematical values.
pub open spec fn requests_view(requests: Seq<proto::Request>) -> Seq<RequestView> {
    requests.map_values(|r: proto::Request| request_view(r))
}

/// A topic being created: the requests that are still to be sent, in their
/// order.
#[derive(Debug)]
pub struct TopicSetup {
    pub requests: Vec<proto::Request>,
}

/// What the runner of a topic's creation does next.
#[derive(Debug)]
pub enum SetupAction {
    /// Send this request.
    Send(proto::Request),
    /// The topic is created.
    Done,
    /// Hand this error to the caller.
    Fail(ClientError),
}

/// A [`SetupAction`] as a mathematical value.
pub enum SetupActionView {
    Send(RequestView),
    Done,
    Fail(Seq<char>),
}

impl View for SetupAction {
    type V = SetupActionView;

    open spec fn view(&self) -> SetupActionView {
        match self {
            SetupAction::Send(req) => SetupActionView::Send(request_view(*req)),
            SetupAction::Done => SetupActionView::Done,
            SetupAction::Fail(e) => SetupActionView::Fail(e@),
        }
    }
}

/// How the call that carried a request ended, as a mathematical value.
pub open spec fn called_view(called: Result<proto::Response, ClientError>) -> Result<
    ResponseView,
    Seq<char>,
> {
    match called {
        Ok(resp) => Ok(response_view(resp)),
        Err(e) => Err(e@),
    }
}

/// What a call comes to whose response is to be a bare confirmation.
pub open spec fn confirmed(called: Result<ResponseView, Seq<char>>) -> Result<(), Seq<char>> {
    match called {
        Ok(resp) => ok_result(resp),
        Err(reason) => Err(reason),
    }
}

/// What the requests that are left lead to, once the one before them is known
/// to be carried out: the first of them, or the end.
pub open spec fn setup_proceeds(requests: Seq<RequestView>) -> (Seq<RequestView>, SetupActionView) {
    if requests.len() == 0 {
        (requests, SetupActionView::Done)
    } else {
        (requests.drop_first(), SetupActionView::Send(requests[0]))
    }
}

/// What follows when the call for a request has ended: a request that was not
/// confirmed ends the whole.
pub open spec fn setup_next(
    requests: Seq<RequestView>,
    called: Result<ResponseView, Seq<char>>,
) -> (Seq<RequestView>, SetupActionView) {
    match confirmed(called) {
        Ok(()) => setup_proceeds(requests),
        Err(reason) => (requests, SetupActionView::Fail(reason)),
    }
}

impl TopicSetup {
    /// Sends the next request, if one is left.
    pub fn proceed(&mut self) -> (action: SetupAction)
        ensures
            (requests_view(final(self).requests@), action@) == setup_proceeds(
                requests_view(old(self).requests@),
            ),
    {
        let ghost before = requests_view(self.requests@);
        if self.requests.len() == 0 {
            SetupAction::Done
        } else {
            let req = self.requests.remove(0);
            assert(requests_view(self.requests@) =~= before.drop_first());
            SetupAction::Send(req)
        }
    }

    /// Decides what follows when the call for the request sent last has ended.
    pub fn next(&mut self, called: Result<proto::Response, ClientError>) -> (action: SetupAction)
        ensures
            (requests_view(final(self).requests@), action@) == setup_next(
                requests_view(old(self).requests@),
                called_view(called),
            ),
    {
        let outcome = match called {
            Ok(resp) => expect_ok(resp),
            Err(e) => Err(e),
        };
        match outcome {
            Ok(()) => self.proceed(),
            Err(e) => SetupAction::Fail(e),
        }
    }
}

/// The members of a cluster, made from what the caller named.
pub open spec fn records(nodes: Seq<NodeAddr>, recs: Seq<NodeRec>) -> bool {
    &&& recs.len() == nodes.len()
    &&& forall|k: int|
        0 <= k < nodes.len() ==> {
            &&& (#[trigger] recs[k]).id == nodes[k].id
            &&& recs[k].client_addr@ == nodes[k].client_addr@
            &&& recs[k].peer_addr@ == nodes[k].peer_addr@
        }
}

/// What a new client does first: it forms the cluster if it is told to.
pub open spec fn opening(options: Option<ConnectOptions>) -> Opening {
    if options matches Some(o) && o.bootstrap == Some(true) {
        Opening::Bootstrap
    } else {
        Opening::Stats
    }
}

/// The request that a new client of the given members sends first.
pub open spec fn opening_request(first: Opening, nodes: Seq<NodeRec>) -> RequestView {
    match first {
        Opening::Bootstrap => RequestView::Bootstrap { nodes: bootstrap_nodes(nodes) },
        Opening::Stats => RequestView::Stats,
    }
}

/// What connecting a client comes to, when the call for its first request has
/// ended: to what that request comes to, but for the figures.
pub open spec fn opened_result(first: Opening, called: Result<ResponseView, Seq<char>>) -> Result<
    (),
    Seq<char>,
> {
    match first {
        Opening::Bootstrap => confirmed(called),
        Opening::Stats => match called {
            Ok(resp) => match stats_result(resp) {
                Ok(_) => Ok(()),
                Err(reason) => Err(reason),
            },
            Err(reason) => Err(reason),
        },
    }
}

/// What connecting a client comes to, when the call for its first request has
/// ended.
pub fn opened(first: Opening, called: Result<proto::Response, ClientError>) -> (res: Result<
    (),
    ClientError,
>)
    ensures
        match res {
            Ok(()) => opened_result(first, called_view(called)) == Ok::<(), Seq<char>>(()),
            Err(e) => opened_result(first, called_view(called)) == Err::<(), Seq<char>>(e@),
        },
{
    let resp = match called {
        Ok(resp) => resp,
        Err(e) => return Err(e),
    };
    match first {
        Opening::Bootstrap => expect_ok(resp),
        Opening::Stats => match cluster_stats(resp) {
            Ok(_) => Ok(()),
            Err(e) => Err(e),
        },
    }
}

/// What making a client of the given members comes to: a client that knows them
/// and has no connections yet, and what it is to do first. Without members
/// there is none.
pub open spec fn connected<S, H>(
    nodes: Seq<NodeAddr>,
    options: Option<ConnectOptions>,
    res: Result<(Client<S, H>, Opening), ClientError>,
) -> bool {
    match res {
        Err(e) => nodes.len() == 0 && e@ == "connect: `nodes` must not be empty"@,
        Ok((client, first)) => {
            &&& nodes.len() > 0
            &&& client.inner.wf()
            &&& records(nodes, client.inner.nodes@)
            &&& client.inner.leader == 0
            &&& forall|i: int|
                0 <= i < nodes.len() ==> #[trigger] client.inner.pool(i) == Seq::<S>::empty()
            &&& forall|i: int| 0 <= i < nodes.len() ==> #[trigger] client.inner.pipes@[i] is None
            &&& first == opening(options)
        },
    }
}

/// Makes a client of the cluster of the given members, and says what it is to
/// do first. A cluster without members is refused. The caller gets the client
/// if [`opened`] finds that what came of that is well.
pub fn connect<S, H>(nodes: Vec<NodeAddr>, options: Option<ConnectOptions>) -> (res: Result<
    (Client<S, H>, Opening),
    ClientError,
>)
    requires
        3 * nodes@.len() <= usize::MAX,
    ensures
        match res {
            Err(e) => nodes@.len() == 0 && e@ == "connect: `nodes` must not be empty"@,
            Ok((client, first)) => {
                &&& nodes@.len() > 0
                &&& client.inner.wf()
                &&& records(nodes@, client.inner.nodes@)
                &&& client.inner.leader == 0
                &&& forall|i: int|
                    0 <= i < nodes@.len() ==> #[trigger] client.inner.pool(i) == Seq::<S>::empty()
                &&& forall|i: int|
                    0 <= i < nodes@.len() ==> #[trigger] client.inner.pipes@[i] is None
                &&& first == opening(options)
            },
        },
        connected(nodes@, options, res),
{
    if nodes.len() == 0 {
        return Err(ClientError::from_reason("connect: `nodes` must not be empty"));
    }
    let ghost all = nodes@;
    let mut recs: Vec<NodeRec> = Vec::new();
    for n in it: nodes
        invariant
            it.seq() == all,
            recs@.len() == it.index(),
            forall|k: int|
                0 <= k < it.index() ==> {
                    &&& (#[trigger] recs@[k]).id == all[k].id
                    &&& recs@[k].client_addr@ == all[k].client_addr@
                    &&& recs@[k].peer_addr@ == all[k].peer_addr@
                },
    {
        recs.push(
            NodeRec { id: n.id as u64, client_addr: n.client_addr, peer_addr: n.peer_addr },
        );
    }
    let first = match options {
        Some(ConnectOptions { bootstrap: Some(true) }) => Opening::Bootstrap,
        _ => Opening::Stats,
    };
    Ok((Client { inner: Inner::new(recs) }, first))
}

impl<S, H> Client<S, H> {
    /// The request that forms a cluster of the members that the client knows.
    pub fn bootstrap(&self) -> (req: proto::Request)
        ensures
            request_view(req) == (RequestView::Bootstrap {
                nodes: bootstrap_nodes(self.inner.nodes@),
            }),
    {
        let mut nodes: Vec<proto::Node> = Vec::new();
        let mut k: usize = 0;
        while k < self.inner.nodes.len()
            invariant
                k <= self.inner.nodes@.len(),
                nodes@.len() == k,
                forall|j: int|
                    0 <= j < k ==> node_view(#[trigger] nodes@[j]) == bootstrap_nodes(
                        self.inner.nodes@,
                    )[j],
            decreases self.inner.nodes@.len() - k,
        {
            let n = &self.inner.nodes[k];
            nodes.push(proto::Node { id: n.id, peer_addr: n.peer_addr.clone() });
            k = k + 1;
        }
        assert(nodes@.map_values(|n: proto::Node| node_view(n)) =~= bootstrap_nodes(
            self.inner.nodes@,
        ));
        proto::Request { kind: Some(proto::request::Kind::Bootstrap(proto::Bootstrap { nodes })) }
    }

    /// The request for the figures of the cluster.
    pub fn stats(&self) -> (req: proto::Request)
        ensures
            request_view(req) == RequestView::Stats,
    {
        proto::Request { kind: Some(proto::request::Kind::Stats(proto::Stats {  })) }
    }

    /// The request that a new client sends first.
    pub fn open(&self, first: Opening) -> (req: proto::Request)
        ensures
            request_view(req) == opening_request(first, self.inner.nodes@),
    {
        match first {
            Opening::Bootstrap => self.bootstrap(),
            Opening::Stats => self.stats(),
        }
    }

    /// The requests that create a topic.
    pub fn create_topic(&self, options: CreateTopicOptions) -> (setup: TopicSetup)
        ensures
            requests_view(setup.requests@) == topic_requests(options),
    {
        let mut requests: Vec<proto::Request> = Vec::new();
        requests.push(
            proto::Request {
                kind: Some(
                    proto::request::Kind::CreateTopic(
                        proto::CreateTopic { topic: options.topic.clone() },
                    ),
                ),
            },
        );
        if let Some(limit) = options.rate_limit {
            let m = set_rate_limit(options.topic.clone(), limit.rate_bits, limit.burst);
            requests.push(proto::Request { kind: Some(proto::request::Kind::SetRateLimit(m)) });
        }
        if let Some(retention) = options.retention {
            requests.push(
                proto::Request {
                    kind: Some(
                        proto::request::Kind::SetRetention(
                            proto::SetRetention {
                                topic: options.topic,
                                max_messages: clamp_to_zero(retention.max_messages),
                                max_age_ms: clamp_to_zero(retention.max_age_ms),
                            },
                        ),
                    ),
                },
            );
        }
        assert(requests_view(requests@) =~= topic_requests(options));
        TopicSetup { requests }
    }

    /// The request to produce a message.
    pub fn produce(&self, options: ProduceOptions) -> (res: Result<proto::Request, ClientError>)
        ensures
            request_result(res) == produce_result(options),
    {
        produce_request(options)
    }

    /// The requests to produce the messages of a batch, in their order.
    pub fn produce_many(&self, items: Vec<ProduceOptions>) -> (requests: Vec<
        Result<proto::Request, ClientError>,
    >)
        ensures
            requests@.len() == items@.len(),
            forall|k: int|
                0 <= k < items@.len() ==> request_result(#[trigger] requests@[k])
                    == produce_result(items@[k]),
            batch_requests(items@, requests@),
    {
        let ghost all = items@;
        let mut requests: Vec<Result<proto::Request, ClientError>> = Vec::new();
        for item in it: items
            invariant
                it.seq() == all,
                requests@.len() == it.index(),
                forall|k: int|
                    0 <= k < it.index() ==> request_result(#[trigger] requests@[k])
                        == produce_result(all[k]),
        {
            requests.push(produce_request(item));
        }
        requests
    }

    /// The request to poll, and how long its response may take in milliseconds:
    /// the node may hold it back for as long as the caller is willing to wait.
    pub fn poll(&self, options: PollOptions) -> (res: (proto::Request, u64))
        ensures
            request_view(res.0) == poll_request(options),
            res.1 == BASE_READ_TIMEOUT_MS + not_negative(or_default(options.wait_ms, 0)),
            res.1 == poll_timeout_ms(options),
    {
        let wait_ms: u64 = clamp_to_zero(
            match options.wait_ms {
                Some(ms) => ms,
                None => 0,
            },
        );
        let visibility_timeout_ms: u64 = clamp_to_zero(
            match options.visibility_ms {
                Some(ms) => ms,
                None => DEFAULT_VISIBILITY_MS,
            },
        );
        let max: u32 = match options.max {
            Some(n) => n,
            None => DEFAULT_BATCH,
        };
        let req = proto::Request {
            kind: Some(
                proto::request::Kind::Poll(
                    proto::Poll {
                        topic: options.topic,
                        group: options.group,
                        max,
                        visibility_timeout_ms,
                        ack_mode: "manual".to_owned(),
                        wait_ms,
                    },
                ),
            ),
        };
        (req, BASE_READ_TIMEOUT_MS + wait_ms)
    }

    /// The request to acknowledge a message.
    pub fn ack(&self, lease: LeaseRef) -> (res: Result<proto::Request, ClientError>)
        ensures
            request_result(res) == ack_result(lease),
    {
        match lease_number("ack", lease.lease_id.as_str()) {
            Ok(lease_id) => Ok(ack_request(lease.topic, lease.group, lease_id)),
            Err(e) => Err(e),
        }
    }

    /// The request to give a message back.
    pub fn nack(&self, lease: LeaseRef) -> (res: Result<proto::Request, ClientError>)
        ensures
            request_result(res) == nack_result(lease),
    {
        match lease_number("nack", lease.lease_id.as_str()) {
            Ok(lease_id) => Ok(nack_request(lease.topic, lease.group, lease_id)),
            Err(e) => Err(e),
        }
    }

    /// Drops every idle connection and every pipeline.
    pub fn close(&mut self)
        requires
            old(self).inner.wf(),
        ensures
            final(self).inner.wf(),
            final(self).inner.nodes == old(self).inner.nodes,
            final(self).inner.leader == old(self).inner.leader,
            forall|i: int|
                0 <= i < final(self).inner.nodes@.len() ==> #[trigger] final(self).inner.pool(i)
                    == Seq::<S>::empty(),
            forall|i: int|
                0 <= i < final(self).inner.nodes@.len() ==> #[trigger] final(self).inner.pipes@[i]
                    is None,
            final(self).inner.emptied(old(self).inner),
    {
        self.inner.close();
    }
}

/// A message can be acknowledged and given back by the lease that it came
/// with.
pub proof fn law_delivered_lease_is_accepted(d: DeliveredView, lease: LeaseRef)
    requires
        lease.lease_id@ == message_of(d).lease_id,
    ensures
        ack_result(lease) == Ok::<RequestView, Seq<char>>(
            RequestView::Ack {
                topic: lease.topic@,
                group: lease.group@,
                lease_id: d.lease_id,
            },
        ),
        nack_result(lease) == Ok::<RequestView, Seq<char>>(
            RequestView::Nack {
                topic: lease.topic@,
                group: lease.group@,
                lease_id: d.lease_id,
            },
        ),
{
    law_decimal_reads_back(d.lease_id);
}

/// A message that is sent again under the same producer and number makes the
/// same request, and under another number a different one.
pub proof fn law_resent_message_is_recognised(a: ProduceOptions, b: ProduceOptions)
    requires
        a.topic@ == b.topic@,
        a.body@ == b.body@,
        or_default(a.priority, 0) == or_default(b.priority, 0),
        or_empty(a.producer_id) == or_empty(b.producer_id),
        produce_result(a) is Ok,
        produce_result(b) is Ok,
    ensures
        a.seq == b.seq ==> produce_result(a) == produce_result(b),
        a.seq is Some && b.seq is Some && a.seq != b.seq ==> produce_result(a) != produce_result(b),
{
}

/// Retrying a message is sending it again: every attempt to produce it, to
/// whichever member, carries its topic, payload, producer and number, so that
/// the cluster can tell that it is the same message.
pub proof fn law_retries_are_resends(
    options: ProduceOptions,
    req: RequestView,
    m: Members,
    leader: nat,
    events: Seq<CallEventView>,
)
    requires
        produce_result(options) == Ok::<RequestView, Seq<char>>(req),
    ensures
        call_outcome(m, call_begun(m.addrs.len(), leader, req), events) matches
            CallOutcome::Waiting(c) ==> call_attempt(c, m.addrs.len()).req == (
        RequestView::Produce {
            topic: options.topic@,
            priority: or_default(options.priority, 0),
            content_type: 0,
            payload: options.body@,
            producer_id: or_empty(options.producer_id),
            seq: or_default(options.seq, 0) as u64,
        }),
{
    law_same_request_every_attempt(m, call_begun(m.addrs.len(), leader, req), events);
}

/// Connecting fails at once if the cluster cannot be used: the error with which
/// the first call gives up, or with which a node answers it, is what the caller
/// gets in place of a client. The caller gets a client only if the response is
/// the one that fits the request.
pub proof fn law_connect_fails_fast(
    first: Opening,
    called: Result<ResponseView, Seq<char>>,
    e: ServerErrorView,
)
    ensures
        called matches Err(reason) ==> opened_result(first, called) == Err::<(), Seq<char>>(reason),
        called == Ok::<ResponseView, Seq<char>>(ResponseView::Error(e)) ==> opened_result(
            first,
            called,
        ) == Err::<(), Seq<char>>(server_error_text(e)),
        opened_result(first, called) is Ok <==> (called matches Ok(resp) && match first {
            Opening::Bootstrap => resp is Done,
            Opening::Stats => resp is Stats,
        }),
{
}

/// No client comes of a cluster in which no attempt of the first call finds a
/// leader.
pub proof fn law_connect_needs_a_leader(
    first: Opening,
    m: Members,
    req: RequestView,
    events: Seq<CallEventView>,
)
    requires
        0 < m.addrs.len() == m.peers.len(),
        events.len() >= 3 * m.addrs.len(),
        forall|k: int| 0 <= k < events.len() ==> #[trigger] leads_on(events[k]),
    ensures
        call_outcome(m, call_begun(m.addrs.len(), 0, req), events) matches CallOutcome::GaveUp(
            reason,
        ) && opened_result(first, Err(reason)) == Err::<(), Seq<char>>(reason),
{
    law_call_persists(m, call_begun(m.addrs.len(), 0, req), events);
}

/// The requests that the creation of a topic sends, and how it ends, if it
/// ends, when the calls for them end as `calls` says.
pub open spec fn setup_run(
    at: (Seq<RequestView>, SetupActionView),
    calls: Seq<Result<ResponseView, Seq<char>>>,
) -> (Seq<RequestView>, Option<Result<(), Seq<char>>>)
    decreases calls.len(),
{
    match at.1 {
        SetupActionView::Done => (Seq::empty(), Some(Ok(()))),
        SetupActionView::Fail(reason) => (Seq::empty(), Some(Err(reason))),
        SetupActionView::Send(req) => if calls.len() == 0 {
            (seq![req], None)
        } else {
            let rest = setup_run(setup_next(at.0, calls[0]), calls.drop_first());
            (seq![req] + rest.0, rest.1)
        },
    }
}

/// A topic whose requests are all confirmed is created, and each of its
/// requests was sent once, in their order.
pub proof fn law_setup_completes(
    requests: Seq<RequestView>,
    calls: Seq<Result<ResponseView, Seq<char>>>,
)
    requires
        calls.len() == requests.len(),
        forall|k: int| 0 <= k < calls.len() ==> confirmed(#[trigger] calls[k]) is Ok,
    ensures
        setup_run(setup_proceeds(requests), calls) == (requests, Some(Ok::<(), Seq<char>>(()))),
    decreases requests.len(),
{
    if requests.len() > 0 {
        assert(confirmed(calls[0]) is Ok);
        let rest = requests.drop_first();
        let later = calls.drop_first();
        assert forall|k: int| 0 <= k < later.len() implies confirmed(#[trigger] later[k]) is Ok by {
            assert(confirmed(calls[k + 1]) is Ok);
        }
        law_setup_completes(rest, later);
        assert(seq![requests[0]] + rest =~= requests);
    } else {
        assert(requests =~= Seq::empty());
    }
}

/// The first request of a topic that is not confirmed is the last one sent,
/// and the caller gets its error.
pub proof fn law_setup_stops_at_first_error(
    requests: Seq<RequestView>,
    calls: Seq<Result<ResponseView, Seq<char>>>,
    k: int,
)
    requires
        0 <= k < requests.len(),
        k < calls.len(),
        forall|j: int| 0 <= j < k ==> confirmed(#[trigger] calls[j]) is Ok,
        confirmed(calls[k]) is Err,
    ensures
        setup_run(setup_proceeds(requests), calls) == (
            requests.take(k + 1),
            Some(confirmed(calls[k])),
        ),
    decreases requests.len(),
{
    let rest = requests.drop_first();
    let later = calls.drop_first();
    if k == 0 {
        assert(setup_run(setup_next(rest, calls[0]), later).0 =~= Seq::empty());
        assert(seq![requests[0]] + Seq::empty() =~= requests.take(1));
    } else {
        assert(confirmed(calls[0]) is Ok);
        assert forall|j: int| 0 <= j < k - 1 implies confirmed(#[trigger] later[j]) is Ok by {
            assert(confirmed(calls[j + 1]) is Ok);
        }
        law_setup_stops_at_first_error(rest, later, k - 1);
        assert(seq![requests[0]] + rest.take(k) =~= requests.take(k + 1));
    }
}

/// A number that a caller gives counts as it is unless it is negative, and then
/// it counts as 0.
pub proof fn law_negative_counts_as_zero(x: i64)
    ensures
        x >= 0 ==> not_negative(x) == x,
        x <= 0 ==> not_negative(x) == 0,
{
}

/// Any message can be produced, whatever its topic, body and priority, unless
/// its number is negative or its producer does not number it; and the request
/// is to produce that message, under that producer and number. What the caller
/// does not give is 0 or empty.
pub proof fn law_message_is_produced_as_given(
    options: ProduceOptions,
    res: Result<proto::Request, ClientError>,
)
    requires
        request_result(res) == produce_result(options),
    ensures
        match options.seq {
            Some(s) => s >= 0 <==> res is Ok,
            None => (options.producer_id is None || options.producer_id->0@.len() == 0) <==> res
                is Ok,
        },
        res matches Ok(req) ==> (req.kind matches Some(proto::request::Kind::Produce(m))
            && m.topic@ == options.topic@ && m.payload@ == options.body@ && m.content_type == 0
            && m.priority == (match options.priority {
            Some(priority) => priority,
            None => 0,
        }) && (options.producer_id matches Some(id) ==> m.producer_id@ == id@) && (
        options.producer_id is None ==> m.producer_id@.len() == 0) && (options.seq matches Some(s)
            ==> m.seq == s) && (options.seq is None ==> m.seq == 0)),
        res matches Err(e) ==> e.reason@ == (if options.seq is Some {
            "produce: seq must be >= 0"@
        } else {
            "produce: producerId requires seq (a per-producer monotonic counter)"@
        }),
{
}

/// Messages that make the same request are the same message: nothing that tells
/// them apart is left out.
pub proof fn law_different_messages_make_different_requests(a: ProduceOptions, b: ProduceOptions)
    requires
        produce_result(a) is Ok,
        produce_result(a) == produce_result(b),
        a.priority is Some,
        b.priority is Some,
        a.producer_id is Some,
        b.producer_id is Some,
        a.seq is Some,
        b.seq is Some,
    ensures
        a.topic@ == b.topic@,
        a.body@ == b.body@,
        a.priority == b.priority,
        a.producer_id->0@ == b.producer_id->0@,
        a.seq == b.seq,
{
}

/// A poll asks for what the caller wants, with 16 messages, leases of thirty
/// seconds and no wait where the caller does not say; leases are settled by the
/// consumer. Its response may take ten seconds more than the node may wait.
pub proof fn law_poll_asks_as_given(options: PollOptions, req: proto::Request, timeout_ms: u64)
    requires
        request_view(req) == poll_request(options),
        timeout_ms == poll_timeout_ms(options),
    ensures
        req.kind matches Some(proto::request::Kind::Poll(m)) && m.topic@ == options.topic@
            && m.group@ == options.group@ && m.ack_mode@ == "manual"@ && (options.max matches Some(
            max,
        ) ==> m.max == max) && (options.max is None ==> m.max == 16) && (
        options.visibility_ms matches Some(ms) ==> m.visibility_timeout_ms == (if ms < 0 {
            0
        } else {
            ms as int
        })) && (options.visibility_ms is None ==> m.visibility_timeout_ms == 30_000) && (
        options.wait_ms matches Some(ms) ==> m.wait_ms == (if ms < 0 {
            0
        } else {
            ms as int
        })) && (options.wait_ms is None ==> m.wait_ms == 0) && timeout_ms == 10_000 + m.wait_ms,
{
}

/// A lease is settled by its number, for its topic and group, if its text is
/// that of a number, and is refused if not. To acknowledge and to give back are
/// different requests.
pub proof fn law_lease_is_settled_as_given(
    lease: LeaseRef,
    ack: Result<proto::Request, ClientError>,
    nack: Result<proto::Request, ClientError>,
)
    requires
        request_result(ack) == ack_result(lease),
        request_result(nack) == nack_result(lease),
    ensures
        match parsed_u64(lease.lease_id@) {
            Some(id) => {
                &&& ack matches Ok(req) && req.kind matches Some(proto::request::Kind::Ack(m))
                    && m.topic@ == lease.topic@ && m.group@ == lease.group@ && m.lease_id == id
                &&& nack matches Ok(req) && req.kind matches Some(proto::request::Kind::Nack(m))
                    && m.topic@ == lease.topic@ && m.group@ == lease.group@ && m.lease_id == id
            },
            None => {
                &&& ack matches Err(e) && e.reason@ == "ack: invalid leaseId"@
                &&& nack matches Err(e) && e.reason@ == "nack: invalid leaseId"@
            },
        },
{
    reveal_strlit("ack");
    reveal_strlit("nack");
    reveal_strlit(": invalid leaseId");
    reveal_strlit("ack: invalid leaseId");
    reveal_strlit("nack: invalid leaseId");
    assert("ack"@ + ": invalid leaseId"@ =~= "ack: invalid leaseId"@);
    assert("nack"@ + ": invalid leaseId"@ =~= "nack: invalid leaseId"@);
}

/// A cluster is formed of all members that the client knows, in their order,
/// each by its number and the address by which the others know it.
pub proof fn law_cluster_is_formed_of_all_members(nodes: Seq<NodeRec>, req: proto::Request)
    requires
        request_view(req) == opening_request(Opening::Bootstrap, nodes),
    ensures
        req.kind matches Some(proto::request::Kind::Bootstrap(m)) && m.nodes@.len() == nodes.len()
            && forall|k: int|
            0 <= k < nodes.len() ==> (#[trigger] m.nodes@[k]).id == nodes[k].id
                && m.nodes@[k].peer_addr@ == nodes[k].peer_addr@,
{
    if let Some(proto::request::Kind::Bootstrap(m)) = req.kind {
        let named = m.nodes@.map_values(|n: proto::Node| node_view(n));
        assert(named == bootstrap_nodes(nodes));
        assert(named.len() == nodes.len());
        assert forall|k: int| 0 <= k < nodes.len() implies (#[trigger] m.nodes@[k]).id
            == nodes[k].id && m.nodes@[k].peer_addr@ == nodes[k].peer_addr@ by {
            assert(named[k] == bootstrap_nodes(nodes)[k]);
        }
    }
}

/// A client forms the cluster if and only if it is told to, and else asks for
/// the figures; to bootstrap later is the same request as to do so at first.
pub proof fn law_cluster_is_formed_only_if_told(
    options: Option<ConnectOptions>,
    nodes: Seq<NodeRec>,
    req: proto::Request,
)
    requires
        request_view(req) == opening_request(opening(options), nodes),
    ensures
        match options {
            Some(ConnectOptions { bootstrap: Some(true) }) => req.kind matches Some(
                proto::request::Kind::Bootstrap(_),
            ),
            _ => req.kind matches Some(proto::request::Kind::Stats(_)),
        },
        opening_request(Opening::Bootstrap, nodes) == (RequestView::Bootstrap {
            nodes: bootstrap_nodes(nodes),
        }),
{
}

/// The members that a client knows are those that it was given: all of them, in
/// their order, each with its number and addresses.
pub proof fn law_members_are_those_given(nodes: Seq<NodeAddr>, recs: Seq<NodeRec>, k: int)
    requires
        records(nodes, recs),
    ensures
        recs.len() == nodes.len(),
        0 <= k < nodes.len() ==> recs[k].id == nodes[k].id && recs[k].client_addr@
            == nodes[k].client_addr@ && recs[k].peer_addr@ == nodes[k].peer_addr@,
{
}

/// A request of a topic's creation counts as carried out exactly if its call
/// brought a confirmation. Else the caller gets the error of the call or of the
/// node, or is shown the response.
pub proof fn law_only_a_confirmation_counts(
    called: Result<proto::Response, ClientError>,
    e: ServerErrorView,
)
    ensures
        confirmed(called_view(called)) is Ok <==> (called matches Ok(resp) && resp.kind matches
            Some(proto::response::Kind::Ok(_))),
        called matches Err(err) ==> confirmed(called_view(called)) == Err::<(), Seq<char>>(
            err.reason@,
        ),
        called_view(called) == Ok::<ResponseView, Seq<char>>(ResponseView::Error(e)) ==> confirmed(
            called_view(called),
        ) == Err::<(), Seq<char>>(server_error_text(e)),
        called matches Ok(resp) && !(response_view(resp) is Error) && !(response_view(resp) is Done)
            ==> confirmed(called_view(called)) == Err::<(), Seq<char>>(
            "unexpected response: "@ + debugged_response(response_view(called->Ok_0)),
        ),
{
}

/// A response to the first request of a client that does not fit it is shown to
/// the caller.
pub proof fn law_connect_shows_misfits(first: Opening, resp: ResponseView)
    requires
        !(resp is Error),
        first == Opening::Bootstrap ==> !(resp is Done),
        first == Opening::Stats ==> !(resp is Stats),
    ensures
        opened_result(first, Ok(resp)) == Err::<(), Seq<char>>(
            "unexpected response: "@ + debugged_response(resp),
        ),
{
}

/// A topic is created first. Then its rate is limited, if that is asked for, to
/// the very rate and burst asked for. Last its messages are retained, if that is
/// asked for, up to the number and the age asked for, each counting as 0 if it
/// is negative. All requests are for the same topic, and there are no others.
pub proof fn law_topic_is_created_as_given(options: CreateTopicOptions, setup: TopicSetup)
    requires
        requests_view(setup.requests@) == topic_requests(options),
    ensures
        setup.requests@.len() == 1 + (if options.rate_limit is Some {
            1int
        } else {
            0
        }) + (if options.retention is Some {
            1int
        } else {
            0
        }),
        setup.requests@[0].kind matches Some(proto::request::Kind::CreateTopic(m)) && m.topic@
            == options.topic@,
        options.rate_limit matches Some(limit) ==> (setup.requests@[1].kind matches Some(
            proto::request::Kind::SetRateLimit(m),
        ) && m.topic@ == options.topic@ && m.rate_per_sec.to_bits_spec() == limit.rate_bits
            && m.burst == limit.burst),
        options.retention matches Some(retention) ==> (setup.requests@.last().kind matches Some(
            proto::request::Kind::SetRetention(m),
        ) && m.topic@ == options.topic@ && (retention.max_messages >= 0 ==> m.max_messages
            == retention.max_messages) && (retention.max_messages < 0 ==> m.max_messages == 0) && (
        retention.max_age_ms >= 0 ==> m.max_age_ms == retention.max_age_ms) && (retention.max_age_ms
            < 0 ==> m.max_age_ms == 0)),
{
    let views = requests_view(setup.requests@);
    assert(views.len() == setup.requests@.len());
    assert(views[0] == request_view(setup.requests@[0]));
    if setup.requests@.len() > 1 {
        assert(views[1] == request_view(setup.requests@[1]));
    }
    assert(views.last() == request_view(setup.requests@.last()));
}

/// The creation of a topic sends its requests one by one, in their order, each
/// only once the one before it is confirmed; and is done when none is left.
pub proof fn law_setup_sends_one_by_one(before: TopicSetup, after: TopicSetup, action: SetupAction)
    requires
        (requests_view(after.requests@), action@) == setup_proceeds(
            requests_view(before.requests@),
        ),
    ensures
        before.requests@.len() == 0 ==> action is Done && after.requests@.len() == 0,
        before.requests@.len() > 0 ==> (action matches SetupAction::Send(req) && request_view(req)
            == request_view(before.requests@[0]) && after.requests@.len() == before.requests@.len()
            - 1 && forall|k: int|
            0 <= k < after.requests@.len() ==> request_view(#[trigger] after.requests@[k])
                == request_view(before.requests@[k + 1])),
{
    let was = requests_view(before.requests@);
    let is = requests_view(after.requests@);
    assert(was.len() == before.requests@.len());
    assert(is.len() == after.requests@.len());
    if was.len() > 0 {
        assert(was[0] == request_view(before.requests@[0]));
        assert forall|k: int| 0 <= k < after.requests@.len() implies request_view(
            #[trigger] after.requests@[k],
        ) == request_view(before.requests@[k + 1]) by {
            assert(is[k] == was[k + 1]);
        }
    }
}

/// A confirmation lets the creation of a topic go on as it would without it, and
/// anything else ends it with the error and sends nothing more.
pub proof fn law_setup_goes_on_only_when_confirmed(
    requests: Seq<RequestView>,
    called: Result<proto::Response, ClientError>,
    action: SetupAction,
)
    requires
        action@ == setup_next(requests, called_view(called)).1,
    ensures
        match called {
            Err(err) => action matches SetupAction::Fail(e) && e.reason@ == err.reason@,
            Ok(resp) => if resp.kind matches Some(proto::response::Kind::Ok(_)) {
                setup_next(requests, called_view(called)) == setup_proceeds(requests)
            } else {
                action is Fail
            },
        },
        action is Fail ==> setup_next(requests, called_view(called)).0 == requests,
{
}

/// A client is had exactly if members are given. It knows all of them, takes the
/// first for the leader, and has neither connections nor pipelines yet.
pub proof fn law_client_is_had_of_any_members<S, H>(
    nodes: Seq<NodeAddr>,
    options: Option<ConnectOptions>,
    res: Result<(Client<S, H>, Opening), ClientError>,
    k: int,
)
    requires
        connected(nodes, options, res),
    ensures
        nodes.len() == 0 ==> (res matches Err(e) && e.reason@
            == "connect: `nodes` must not be empty"@),
        nodes.len() > 0 ==> res is Ok,
        res matches Ok((client, first)) ==> {
            &&& client.inner.wf()
            &&& client.inner.leader == 0
            &&& client.inner.nodes@.len() == nodes.len()
            &&& first == Opening::Bootstrap <==> (options matches Some(o) && o.bootstrap == Some(
                true,
            ))
            &&& 0 <= k < nodes.len() ==> {
                &&& client.inner.nodes@[k].id == nodes[k].id
                &&& client.inner.nodes@[k].client_addr@ == nodes[k].client_addr@
                &&& client.inner.nodes@[k].peer_addr@ == nodes[k].peer_addr@
                &&& client.inner.pools@[k]@.len() == 0
                &&& client.inner.pipes@[k] is None
            }
        },
{
    if let Ok((client, first)) = res {
        if 0 <= k < nodes.len() {
            assert(client.inner.pool(k) == Seq::<S>::empty());
        }
    }
}

/// A batch makes one request for each message, in their order, each as the
/// message alone would make it: a message that cannot be produced keeps no
/// other from it.
pub proof fn law_batch_makes_each_request(
    items: Seq<ProduceOptions>,
    requests: Seq<Result<proto::Request, ClientError>>,
    alone: Result<proto::Request, ClientError>,
    k: int,
)
    requires
        batch_requests(items, requests),
        0 <= k < items.len(),
        request_result(alone) == produce_result(items[k]),
    ensures
        requests.len() == items.len(),
        requests[k] is Ok <==> alone is Ok,
        requests[k] matches Ok(req) ==> request_view(req) == request_view(alone->Ok_0),
        requests[k] matches Err(e) ==> e.reason@ == alone->Err_0.reason@,
{
    assert(request_result(requests[k]) == produce_result(items[k]));
}

} // verus!
