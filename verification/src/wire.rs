//! The messages that go over the wire: what they hold, and how they become
//! bytes and come back from bytes.
//!
//! The message types are those of `hermesmq_proto`. Their fields are public
//! and of plain types, so they are declared field by field and nothing is
//! taken on trust about them.

use hermesmq_proto as proto;
use prost::bytes::Buf;
use prost::Message;
use vstd::float::FloatBitsProperties;
use vstd::prelude::*;

verus! {

#[verifier::external_type_specification]
pub struct ExProduce(proto::Produce);

#[verifier::external_type_specification]
pub struct ExPoll(proto::Poll);

#[verifier::external_type_specification]
pub struct ExAck(proto::Ack);

#[verifier::external_type_specification]
pub struct ExNack(proto::Nack);

#[verifier::external_type_specification]
pub struct ExCommit(proto::Commit);

#[verifier::external_type_specification]
pub struct ExCreateTopic(proto::CreateTopic);

#[verifier::external_type_specification]
pub struct ExDeleteTopic(proto::DeleteTopic);

#[verifier::external_type_specification]
pub struct ExStats(proto::Stats);

#[verifier::external_type_specification]
pub struct ExNode(proto::Node);

#[verifier::external_type_specification]
pub struct ExBootstrap(proto::Bootstrap);

#[verifier::external_type_specification]
pub struct ExSetRateLimit(proto::SetRateLimit);

#[verifier::external_type_specification]
pub struct ExSetRetention(proto::SetRetention);

#[verifier::external_type_specification]
pub struct ExSubscribe(proto::Subscribe);

#[verifier::external_type_specification]
pub struct ExRequestKind(proto::request::Kind);

#[verifier::external_type_specification]
pub struct ExRequest(proto::Request);

#[verifier::external_type_specification]
pub struct ExProduced(proto::Produced);

#[verifier::external_type_specification]
pub struct ExDelivered(proto::Delivered);

#[verifier::external_type_specification]
pub struct ExPolled(proto::Polled);

#[verifier::external_type_specification]
pub struct ExDone(proto::Ok);

#[verifier::external_type_specification]
pub struct ExServerError(proto::Error);

#[verifier::external_type_specification]
pub struct ExStatsResult(proto::StatsResult);

#[verifier::external_type_specification]
pub struct ExResponseKind(proto::response::Kind);

#[verifier::external_type_specification]
pub struct ExResponse(proto::Response);

/// One member of the cluster, as a request names it.
pub struct NodeView {
    pub id: u64,
    pub peer_addr: Seq<char>,
}

/// A request as a mathematical value.
pub enum RequestView {
    Empty,
    Produce {
        topic: Seq<char>,
        priority: u32,
        content_type: u32,
        payload: Seq<u8>,
        producer_id: Seq<char>,
        seq: u64,
    },
    Poll {
        topic: Seq<char>,
        group: Seq<char>,
        max: u32,
        visibility_timeout_ms: u64,
        ack_mode: Seq<char>,
        wait_ms: u64,
    },
    Ack { topic: Seq<char>, group: Seq<char>, lease_id: u64 },
    Nack { topic: Seq<char>, group: Seq<char>, lease_id: u64 },
    Commit { topic: Seq<char>, group: Seq<char>, offset: u64 },
    CreateTopic { topic: Seq<char> },
    DeleteTopic { topic: Seq<char> },
    Stats,
    Bootstrap { nodes: Seq<NodeView> },
    /// The rate is held as the bits of an IEEE 754 double.
    SetRateLimit { topic: Seq<char>, rate_bits: u64, burst: u32 },
    SetRetention { topic: Seq<char>, max_messages: u64, max_age_ms: u64 },
    Subscribe {
        topic: Seq<char>,
        group: Seq<char>,
        prefetch: u32,
        visibility_timeout_ms: u64,
        ack_mode: Seq<char>,
    },
}

/// What a member of the cluster is, as a mathematical value.
pub open spec fn node_view(n: proto::Node) -> NodeView {
    NodeView { id: n.id, peer_addr: n.peer_addr@ }
}

/// What a request says.
pub open spec fn request_view(req: proto::Request) -> RequestView {
    match req.kind {
        None => RequestView::Empty,
        Some(proto::request::Kind::Produce(m)) => RequestView::Produce {
            topic: m.topic@,
            priority: m.priority,
            content_type: m.content_type,
            payload: m.payload@,
            producer_id: m.producer_id@,
            seq: m.seq,
        },
        Some(proto::request::Kind::Poll(m)) => RequestView::Poll {
            topic: m.topic@,
            group: m.group@,
            max: m.max,
            visibility_timeout_ms: m.visibility_timeout_ms,
            ack_mode: m.ack_mode@,
            wait_ms: m.wait_ms,
        },
        Some(proto::request::Kind::Ack(m)) => RequestView::Ack {
            topic: m.topic@,
            group: m.group@,
            lease_id: m.lease_id,
        },
        Some(proto::request::Kind::Nack(m)) => RequestView::Nack {
            topic: m.topic@,
            group: m.group@,
            lease_id: m.lease_id,
        },
        Some(proto::request::Kind::Commit(m)) => RequestView::Commit {
            topic: m.topic@,
            group: m.group@,
            offset: m.offset,
        },
        Some(proto::request::Kind::CreateTopic(m)) => RequestView::CreateTopic { topic: m.topic@ },
        Some(proto::request::Kind::DeleteTopic(m)) => RequestView::DeleteTopic { topic: m.topic@ },
        Some(proto::request::Kind::Stats(_)) => RequestView::Stats,
        Some(proto::request::Kind::Bootstrap(m)) => RequestView::Bootstrap {
            nodes: m.nodes@.map_values(|n: proto::Node| node_view(n)),
        },
        Some(proto::request::Kind::SetRateLimit(m)) => RequestView::SetRateLimit {
            topic: m.topic@,
            rate_bits: m.rate_per_sec.to_bits_spec(),
            burst: m.burst,
        },
        Some(proto::request::Kind::SetRetention(m)) => RequestView::SetRetention {
            topic: m.topic@,
            max_messages: m.max_messages,
            max_age_ms: m.max_age_ms,
        },
        Some(proto::request::Kind::Subscribe(m)) => RequestView::Subscribe {
            topic: m.topic@,
            group: m.group@,
            prefetch: m.prefetch,
            visibility_timeout_ms: m.visibility_timeout_ms,
            ack_mode: m.ack_mode@,
        },
    }
}

/// One delivered message as a mathematical value.
pub struct DeliveredView {
    pub lease_id: u64,
    pub offset: u64,
    pub priority: u32,
    pub content_type: u32,
    pub payload: Seq<u8>,
    pub ts_ms: u64,
}

/// An error that a node answered with, as a mathematical value.
pub struct ServerErrorView {
    pub code: Seq<char>,
    pub message: Seq<char>,
    pub leader_addr: Seq<char>,
    pub retry_after_ms: u64,
}

/// The figures of a node, as a mathematical value.
pub struct StatsView {
    pub last_applied: u64,
    pub current_leader: u64,
    pub current_term: u64,
    pub last_log_index: u64,
    pub is_leader: bool,
    pub topics: u64,
    pub messages: u64,
    pub in_flight: u64,
}

/// A response as a mathematical value.
pub enum ResponseView {
    Empty,
    Produced { offset: u64 },
    Polled { items: Seq<DeliveredView> },
    Done,
    Error(ServerErrorView),
    Stats(StatsView),
}

/// What a delivered message says.
pub open spec fn delivered_view(d: proto::Delivered) -> DeliveredView {
    DeliveredView {
        lease_id: d.lease_id,
        offset: d.offset,
        priority: d.priority,
        content_type: d.content_type,
        payload: d.payload@,
        ts_ms: d.ts_ms,
    }
}

/// What an error of a node says.
pub open spec fn server_error_view(e: proto::Error) -> ServerErrorView {
    ServerErrorView {
        code: e.code@,
        message: e.message@,
        leader_addr: e.leader_addr@,
        retry_after_ms: e.retry_after_ms,
    }
}

/// What the figures of a node say.
pub open spec fn stats_view(s: proto::StatsResult) -> StatsView {
    StatsView {
        last_applied: s.last_applied,
        current_leader: s.current_leader,
        current_term: s.current_term,
        last_log_index: s.last_log_index,
        is_leader: s.is_leader,
        topics: s.topics,
        messages: s.messages,
        in_flight: s.in_flight,
    }
}

/// What the content of a response says.
pub open spec fn kind_view(kind: Option<proto::response::Kind>) -> ResponseView {
    match kind {
        None => ResponseView::Empty,
        Some(proto::response::Kind::Produced(m)) => ResponseView::Produced { offset: m.offset },
        Some(proto::response::Kind::Polled(m)) => ResponseView::Polled {
            items: m.items@.map_values(|d: proto::Delivered| delivered_view(d)),
        },
        Some(proto::response::Kind::Ok(_)) => ResponseView::Done,
        Some(proto::response::Kind::Error(m)) => ResponseView::Error(server_error_view(m)),
        Some(proto::response::Kind::Stats(m)) => ResponseView::Stats(stats_view(m)),
    }
}

/// What a response says.
pub open spec fn response_view(resp: proto::Response) -> ResponseView {
    kind_view(resp.kind)
}

/// The bytes of a request in the protobuf encoding.
pub uninterp spec fn encoded_request(req: RequestView) -> Seq<u8>;

/// What bytes hold as a response in the protobuf encoding, or the words in
/// which the decoder refuses them.
pub uninterp spec fn decoded_response(bytes: Seq<u8>) -> Result<ResponseView, Seq<char>>;

/// The content of a response in the debug format of `hermesmq_proto`.
pub uninterp spec fn debugged_response(resp: ResponseView) -> Seq<char>;

/// Calls `prost::Message::encode_to_vec` on a request. Trusted: the bytes
/// depend on nothing but what the request says.
#[verifier::external_body]
pub(crate) fn encode_request(req: &proto::Request) -> (bytes: Vec<u8>)
    ensures
        bytes@ == encoded_request(request_view(*req)),
{
    req.encode_to_vec()
}

/// Calls `prost::Message::decode` for a response, and puts its error into
/// words. Trusted: the outcome depends on nothing but the bytes.
#[verifier::external_body]
pub(crate) fn decode_response(bytes: &[u8]) -> (res: Result<proto::Response, String>)
    ensures
        match res {
            Ok(resp) => decoded_response(bytes@) == Ok::<ResponseView, Seq<char>>(
                response_view(resp),
            ),
            Err(text) => decoded_response(bytes@) == Err::<ResponseView, Seq<char>>(text@),
        },
{
    match proto::Response::decode(bytes) {
        Ok(resp) => Ok(resp),
        Err(e) => Err(e.to_string()),
    }
}

/// Formats the content of a response with the `Debug` of `hermesmq_proto`.
/// Trusted: the text depends on nothing but what the response says.
#[verifier::external_body]
pub(crate) fn debug_response(kind: &Option<proto::response::Kind>) -> (text: String)
    ensures
        text@ == debugged_response(kind_view(*kind)),
{
    format!("{kind:?}")
}

/// Makes a `hermesmq_proto::SetRateLimit`, whose rate is a double, from the
/// bits of that double. The outside call is `bytes::Buf::get_f64`, which
/// reads a double from the eight bytes of its bits, the highest first.
/// Trusted: the double has those bits.
#[verifier::external_body]
pub(crate) fn set_rate_limit(topic: String, rate_bits: u64, burst: u32) -> (m: proto::SetRateLimit)
    ensures
        m.topic == topic,
        m.rate_per_sec.to_bits_spec() == rate_bits,
        m.burst == burst,
{
    proto::SetRateLimit { topic, rate_per_sec: (&rate_bits.to_be_bytes()[..]).get_f64(), burst }
}

/// Nothing of a response is lost or changed on the way from its fields to what
/// it says: each kind stays what it is, messages stay in their order, and every
/// number and text stays the same.
pub proof fn law_response_says_what_it_holds(resp: proto::Response)
    ensures
        resp.kind is None <==> response_view(resp) is Empty,
        resp.kind matches Some(proto::response::Kind::Ok(_)) ==> response_view(resp) is Done,
        resp.kind matches Some(proto::response::Kind::Produced(m)) ==> (response_view(resp) matches
            ResponseView::Produced { offset } && offset == m.offset),
        resp.kind matches Some(proto::response::Kind::Polled(m)) ==> (response_view(resp) matches
            ResponseView::Polled { items } && items.len() == m.items@.len() && forall|k: int|
            0 <= k < items.len() ==> {
                &&& (#[trigger] items[k]).lease_id == m.items@[k].lease_id
                &&& items[k].offset == m.items@[k].offset
                &&& items[k].priority == m.items@[k].priority
                &&& items[k].content_type == m.items@[k].content_type
                &&& items[k].payload == m.items@[k].payload@
                &&& items[k].ts_ms == m.items@[k].ts_ms
            }),
        resp.kind matches Some(proto::response::Kind::Error(m)) ==> (response_view(resp) matches
            ResponseView::Error(e) && e.code == m.code@ && e.message == m.message@ && e.leader_addr
            == m.leader_addr@ && e.retry_after_ms == m.retry_after_ms),
        resp.kind matches Some(proto::response::Kind::Stats(m)) ==> (response_view(resp) matches
            ResponseView::Stats(s) && s.last_applied == m.last_applied && s.current_leader
            == m.current_leader && s.current_term == m.current_term && s.last_log_index
            == m.last_log_index && s.is_leader == m.is_leader && s.topics == m.topics && s.messages
            == m.messages && s.in_flight == m.in_flight),
{
}

/// Requests that say the same hold the same: nothing that a request holds goes
/// unsaid.
pub proof fn law_request_says_what_it_holds(a: proto::Request, b: proto::Request)
    requires
        request_view(a) == request_view(b),
    ensures
        match (a.kind, b.kind) {
            (None, None) => true,
            (Some(proto::request::Kind::Produce(x)), Some(proto::request::Kind::Produce(y))) => {
                &&& x.topic@ == y.topic@
                &&& x.priority == y.priority
                &&& x.content_type == y.content_type
                &&& x.payload@ == y.payload@
                &&& x.producer_id@ == y.producer_id@
                &&& x.seq == y.seq
            },
            (Some(proto::request::Kind::Poll(x)), Some(proto::request::Kind::Poll(y))) => {
                &&& x.topic@ == y.topic@
                &&& x.group@ == y.group@
                &&& x.max == y.max
                &&& x.visibility_timeout_ms == y.visibility_timeout_ms
                &&& x.ack_mode@ == y.ack_mode@
                &&& x.wait_ms == y.wait_ms
            },
            (Some(proto::request::Kind::Ack(x)), Some(proto::request::Kind::Ack(y))) => {
                &&& x.topic@ == y.topic@
                &&& x.group@ == y.group@
                &&& x.lease_id == y.lease_id
            },
            (Some(proto::request::Kind::Nack(x)), Some(proto::request::Kind::Nack(y))) => {
                &&& x.topic@ == y.topic@
                &&& x.group@ == y.group@
                &&& x.lease_id == y.lease_id
            },
            (Some(proto::request::Kind::Commit(x)), Some(proto::request::Kind::Commit(y))) => {
                &&& x.topic@ == y.topic@
                &&& x.group@ == y.group@
                &&& x.offset == y.offset
            },
            (
                Some(proto::request::Kind::CreateTopic(x)),
                Some(proto::request::Kind::CreateTopic(y)),
            ) => x.topic@ == y.topic@,
            (
                Some(proto::request::Kind::DeleteTopic(x)),
                Some(proto::request::Kind::DeleteTopic(y)),
            ) => x.topic@ == y.topic@,
            (Some(proto::request::Kind::Stats(_)), Some(proto::request::Kind::Stats(_))) => true,
            (
                Some(proto::request::Kind::Bootstrap(x)),
                Some(proto::request::Kind::Bootstrap(y)),
            ) => {
                &&& x.nodes@.len() == y.nodes@.len()
                &&& forall|k: int|
                    0 <= k < x.nodes@.len() ==> (#[trigger] x.nodes@[k]).id == y.nodes@[k].id
                        && x.nodes@[k].peer_addr@ == y.nodes@[k].peer_addr@
            },
            (
                Some(proto::request::Kind::SetRateLimit(x)),
                Some(proto::request::Kind::SetRateLimit(y)),
            ) => {
                &&& x.topic@ == y.topic@
                &&& x.rate_per_sec.to_bits_spec() == y.rate_per_sec.to_bits_spec()
                &&& x.burst == y.burst
            },
            (
                Some(proto::request::Kind::SetRetention(x)),
                Some(proto::request::Kind::SetRetention(y)),
            ) => {
                &&& x.topic@ == y.topic@
                &&& x.max_messages == y.max_messages
                &&& x.max_age_ms == y.max_age_ms
            },
            (
                Some(proto::request::Kind::Subscribe(x)),
                Some(proto::request::Kind::Subscribe(y)),
            ) => {
                &&& x.topic@ == y.topic@
                &&& x.group@ == y.group@
                &&& x.prefetch == y.prefetch
                &&& x.visibility_timeout_ms == y.visibility_timeout_ms
                &&& x.ack_mode@ == y.ack_mode@
            },
            _ => false,
        },
{
    if let Some(proto::request::Kind::Bootstrap(x)) = a.kind {
        if let Some(proto::request::Kind::Bootstrap(y)) = b.kind {
            let xs = x.nodes@.map_values(|n: proto::Node| node_view(n));
            let ys = y.nodes@.map_values(|n: proto::Node| node_view(n));
            assert(xs.len() == ys.len());
            assert forall|k: int| 0 <= k < x.nodes@.len() implies (#[trigger] x.nodes@[k]).id
                == y.nodes@[k].id && x.nodes@[k].peer_addr@ == y.nodes@[k].peer_addr@ by {
                assert(xs[k] == ys[k]);
            }
        }
    }
}

} // verus!
