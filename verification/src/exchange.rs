//! One exchange with one node: a connection is had, a request goes out on it,
//! and a response comes back or does not.

use crate::cluster::{pool_parked, pool_taken, Inner, MAX_IDLE_PER_NODE};
use crate::error::{IoError, IoErrorKind, IoErrorView};
use crate::wire::{decode_response, decoded_response, response_view, ResponseView};
use hermesmq_proto as proto;
use vstd::prelude::*;
use vstd::string::*;

verus! {

/// How long a connection may take to be made, in milliseconds.
pub const CONNECT_TIMEOUT_MS: u64 = 5_000;

/// How long a response may take that the node does not hold back, in
/// milliseconds.
pub const BASE_READ_TIMEOUT_MS: u64 = 10_000;

/// What a node answered, or why it did not, as a mathematical value.
pub open spec fn reply_view(reply: Result<proto::Response, IoError>) -> Result<
    ResponseView,
    IoErrorView,
> {
    match reply {
        Ok(resp) => Ok(response_view(resp)),
        Err(e) => Err(e@),
    }
}

/// What a message that was received comes to.
pub open spec fn message_reply(message: Seq<u8>) -> Result<ResponseView, IoErrorView> {
    match decoded_response(message) {
        Ok(resp) => Ok(resp),
        Err(text) => Err(IoErrorView { kind: IoErrorKind::Other, message: text }),
    }
}

/// What a decoded message comes to: the response in it, or the failure that
/// the decoder's words stand for.
pub fn reply_of(decoded: Result<proto::Response, String>) -> (reply: Result<
    proto::Response,
    IoError,
>)
    ensures
        match decoded {
            Ok(resp) => reply == Ok::<proto::Response, IoError>(resp),
            Err(text) => reply_view(reply) == Err::<ResponseView, IoErrorView>(
                IoErrorView { kind: IoErrorKind::Other, message: text@ },
            ),
        },
{
    match decoded {
        Ok(resp) => Ok(resp),
        Err(text) => Err(IoError { kind: IoErrorKind::Other, message: text }),
    }
}

/// Decodes a message that was received.
pub fn decode_reply(message: &[u8]) -> (reply: Result<proto::Response, IoError>)
    ensures
        reply_view(reply) == message_reply(message@),
{
    reply_of(decode_response(message))
}

/// What came of sending a request and waiting for the response.
pub enum Exchange {
    /// The message that came back.
    Received(Vec<u8>),
    /// The connection failed.
    Failed(IoError),
    /// The response did not come in time.
    Elapsed,
}

/// The failure of a response that did not come in time.
pub open spec fn response_timed_out() -> IoErrorView {
    IoErrorView { kind: IoErrorKind::TimedOut, message: "response timed out"@ }
}

/// What an exchange comes to.
pub open spec fn exchange_reply(exchange: Exchange) -> Result<ResponseView, IoErrorView> {
    match exchange {
        Exchange::Received(message) => message_reply(message@),
        Exchange::Failed(e) => Err(e@),
        Exchange::Elapsed => Err(response_timed_out()),
    }
}

/// What sending a request and waiting for the response comes to.
pub fn request_on(exchange: Exchange) -> (reply: Result<proto::Response, IoError>)
    ensures
        reply_view(reply) == exchange_reply(exchange),
{
    match exchange {
        Exchange::Received(message) => decode_reply(message.as_slice()),
        Exchange::Failed(e) => Err(e),
        Exchange::Elapsed => Err(IoError::new(IoErrorKind::TimedOut, "response timed out")),
    }
}

/// What came of connecting to a node.
pub enum Connecting<S> {
    Connected(S),
    Failed(IoError),
    /// The connection was not made in time.
    Elapsed,
}

/// The failure of a connection to `addr` that was not made in time.
pub open spec fn connect_timed_out(addr: Seq<char>) -> IoErrorView {
    IoErrorView { kind: IoErrorKind::TimedOut, message: "connect to "@ + addr + " timed out"@ }
}

/// True if connecting to the node at `addr` comes to `stream`.
pub open spec fn connects<S>(
    addr: Seq<char>,
    connecting: Connecting<S>,
    stream: Result<S, IoError>,
) -> bool {
    match connecting {
        Connecting::Connected(s) => stream == Ok::<S, IoError>(s),
        Connecting::Failed(e) => stream == Err::<S, IoError>(e),
        Connecting::Elapsed => stream matches Err(e) && e@ == connect_timed_out(addr),
    }
}

/// What connecting to the node at `addr` comes to.
pub fn fresh<S>(addr: &str, connecting: Connecting<S>) -> (stream: Result<S, IoError>)
    ensures
        match connecting {
            Connecting::Connected(s) => stream == Ok::<S, IoError>(s),
            Connecting::Failed(e) => stream == Err::<S, IoError>(e),
            Connecting::Elapsed => stream matches Err(e) && e@ == connect_timed_out(addr@),
        },
        connects(addr@, connecting, stream),
{
    match connecting {
        Connecting::Connected(s) => Ok(s),
        Connecting::Failed(e) => Err(e),
        Connecting::Elapsed => {
            let mut message = "connect to ".to_owned();
            message.append(addr);
            message.append(" timed out");
            Err(IoError { kind: IoErrorKind::TimedOut, message })
        },
    }
}

/// What happened in a call to one node.
pub enum NodeEvent<S> {
    /// The call is to begin.
    Begin,
    /// The request went out on an idle connection.
    Pooled(S, Result<proto::Response, IoError>),
    /// A new connection was asked for.
    Connected(Result<S, IoError>),
    /// The request went out on a new connection.
    Fresh(S, Result<proto::Response, IoError>),
}

/// What the runner of a call to one node does next.
#[derive(Debug)]
pub enum NodeAction<'a, S> {
    /// Send this request on this idle connection.
    TryPooled(S, &'a proto::Request),
    /// Ask for a new connection.
    Connect,
    /// Send this request on this new connection.
    TryFresh(S, &'a proto::Request),
    /// The call is over, with this response.
    Return(proto::Response),
    /// The call is over, with this failure.
    Fail(IoError),
}

/// The action that follows an event in a call for `req`, with `pool` the idle
/// connections to the node.
pub open spec fn node_next<'a, S>(
    pool: Seq<S>,
    req: &'a proto::Request,
    event: NodeEvent<S>,
) -> NodeAction<'a, S> {
    match event {
        NodeEvent::Begin => match pool_taken(pool).0 {
            Some(stream) => NodeAction::TryPooled(stream, req),
            None => NodeAction::Connect,
        },
        NodeEvent::Pooled(_, Ok(resp)) => NodeAction::Return(resp),
        NodeEvent::Pooled(_, Err(_)) => NodeAction::Connect,
        NodeEvent::Connected(Ok(stream)) => NodeAction::TryFresh(stream, req),
        NodeEvent::Connected(Err(e)) => NodeAction::Fail(e),
        NodeEvent::Fresh(_, Ok(resp)) => NodeAction::Return(resp),
        NodeEvent::Fresh(_, Err(e)) => NodeAction::Fail(e),
    }
}

/// The idle connections to the node after an event: one is taken out to begin
/// with, and one that carried a response is parked.
pub open spec fn node_pool<S>(pool: Seq<S>, event: NodeEvent<S>) -> Seq<S> {
    match event {
        NodeEvent::Begin => pool_taken(pool).1,
        NodeEvent::Pooled(stream, Ok(_)) => pool_parked(pool, stream),
        NodeEvent::Fresh(stream, Ok(_)) => pool_parked(pool, stream),
        _ => pool,
    }
}

/// Decides the course of a call for `req` to the member `idx`: an idle
/// connection is tried first, if there is one, and a new one if that fails.
pub fn call_node<'a, S, H>(
    inner: &mut Inner<S, H>,
    idx: usize,
    req: &'a proto::Request,
    event: NodeEvent<S>,
) -> (action: NodeAction<'a, S>)
    requires
        old(inner).wf(),
        idx < old(inner).nodes@.len(),
    ensures
        action == node_next(old(inner).pool(idx as int), req, event),
        final(inner).wf(),
        final(inner).same_but_pool(*old(inner), idx as int),
        final(inner).pool(idx as int) == node_pool(old(inner).pool(idx as int), event),
{
    match event {
        NodeEvent::Begin => match inner.pooled(idx) {
            Some(stream) => NodeAction::TryPooled(stream, req),
            None => NodeAction::Connect,
        },
        NodeEvent::Pooled(stream, Ok(resp)) => {
            inner.park(idx, stream);
            NodeAction::Return(resp)
        },
        NodeEvent::Pooled(_, Err(_)) => NodeAction::Connect,
        NodeEvent::Connected(Ok(stream)) => NodeAction::TryFresh(stream, req),
        NodeEvent::Connected(Err(e)) => NodeAction::Fail(e),
        NodeEvent::Fresh(stream, Ok(resp)) => {
            inner.park(idx, stream);
            NodeAction::Return(resp)
        },
        NodeEvent::Fresh(_, Err(e)) => NodeAction::Fail(e),
    }
}

/// An idle connection that has gone bad does not fail a call: the call fails
/// only if no new connection can be had, or if the new one fails.
pub proof fn law_stale_connection_is_replaced<S>(
    pool: Seq<S>,
    req: &proto::Request,
    event: NodeEvent<S>,
)
    ensures
        node_next(pool, req, event) is Fail <==> match event {
            NodeEvent::Connected(res) => res is Err,
            NodeEvent::Fresh(_, res) => res is Err,
            _ => false,
        },
        event matches NodeEvent::Pooled(_, res) && res is Err ==> node_next(pool, req, event)
            is Connect,
{
}

/// What is sent on a connection, idle or new, is the request of the call.
pub proof fn law_same_request_on_every_connection<S>(
    pool: Seq<S>,
    req: &proto::Request,
    event: NodeEvent<S>,
)
    ensures
        match node_next(pool, req, event) {
            NodeAction::TryPooled(_, sent) => sent == req,
            NodeAction::TryFresh(_, sent) => sent == req,
            _ => true,
        },
{
}

/// A connection is parked only after it carried a response.
pub proof fn law_only_good_connections_parked<S>(
    pool: Seq<S>,
    req: &proto::Request,
    event: NodeEvent<S>,
)
    requires
        node_pool(pool, event).len() > pool.len(),
    ensures
        node_next(pool, req, event) is Return,
{
}

/// Connections are used again: after a call over `stream`, the next call to
/// the same node begins with an idle connection, and with `stream` unless
/// enough others were parked already.
pub proof fn law_connection_reused<S>(
    pool: Seq<S>,
    req: &proto::Request,
    stream: S,
    resp: proto::Response,
)
    ensures
        node_next(node_pool(pool, NodeEvent::Fresh(stream, Ok(resp))), req, NodeEvent::Begin)
            is TryPooled,
        pool.len() < MAX_IDLE_PER_NODE ==> node_next(
            node_pool(pool, NodeEvent::Fresh(stream, Ok(resp))),
            req,
            NodeEvent::Begin,
        ) == NodeAction::TryPooled(stream, req),
{
}

/// What an exchange comes to: to the response that the message holds, if it
/// holds one; else to a failure that says what went wrong, in the words of the
/// decoder or of the connection, or that the response did not come in time.
pub proof fn law_exchange_comes_to_the_response(
    exchange: Exchange,
    reply: Result<proto::Response, IoError>,
)
    requires
        reply_view(reply) == exchange_reply(exchange),
    ensures
        match exchange {
            Exchange::Received(message) => match decoded_response(message@) {
                Ok(said) => reply matches Ok(resp) && response_view(resp) == said,
                Err(words) => reply matches Err(e) && e.kind == IoErrorKind::Other && e.message@
                    == words,
            },
            Exchange::Failed(failure) => reply matches Err(e) && e.kind == failure.kind
                && e.message@ == failure.message@,
            Exchange::Elapsed => reply matches Err(e) && e.kind == IoErrorKind::TimedOut
                && e.message@ == "response timed out"@,
        },
{
}

/// Connecting comes to the connection that was made, or to the failure to make
/// it. One that is not made in time fails with words that name its address.
pub proof fn law_connecting_comes_to_the_connection<S>(
    addr: Seq<char>,
    connecting: Connecting<S>,
    stream: Result<S, IoError>,
)
    requires
        connects(addr, connecting, stream),
    ensures
        stream is Ok <==> connecting is Connected,
        match connecting {
            Connecting::Connected(made) => stream matches Ok(s) && s == made,
            Connecting::Failed(failure) => stream matches Err(e) && e.kind == failure.kind
                && e.message@ == failure.message@,
            Connecting::Elapsed => stream matches Err(e) && e.kind == IoErrorKind::TimedOut
                && e.message@ == "connect to "@ + addr + " timed out"@,
        },
{
}

/// A connection may take five seconds, and a response that the node does not
/// hold back ten.
pub proof fn law_time_limits()
    ensures
        CONNECT_TIMEOUT_MS == 5_000,
        BASE_READ_TIMEOUT_MS == 10_000,
{
}

/// The course of a call to one node: an idle connection is tried first, the one
/// parked last, and leaves the pool; without one, or if it fails, a new one is
/// made and tried. A response ends the call whichever connection brought it,
/// and that connection is parked, unless four are. A failure to connect, or of
/// the new connection, ends the call with that failure.
pub proof fn law_course_of_a_node_call<S>(
    pool: Seq<S>,
    req: &proto::Request,
    stream: S,
    resp: proto::Response,
    e: IoError,
)
    ensures
        pool.len() == 0 ==> node_next(pool, req, NodeEvent::Begin) == NodeAction::<S>::Connect
            && node_pool(pool, NodeEvent::Begin) == pool,
        pool.len() > 0 ==> node_next(pool, req, NodeEvent::Begin) == NodeAction::TryPooled(
            pool[pool.len() - 1],
            req,
        ) && node_pool(pool, NodeEvent::Begin) == pool.take(pool.len() - 1),
        node_next(pool, req, NodeEvent::Pooled(stream, Ok(resp))) == NodeAction::<S>::Return(resp),
        node_next(pool, req, NodeEvent::Pooled(stream, Err(e))) == NodeAction::<S>::Connect,
        node_next(pool, req, NodeEvent::Connected(Ok(stream))) == NodeAction::TryFresh(stream, req),
        node_next(pool, req, NodeEvent::Connected(Err(e))) == NodeAction::<S>::Fail(e),
        node_next(pool, req, NodeEvent::Fresh(stream, Ok(resp))) == NodeAction::<S>::Return(resp),
        node_next(pool, req, NodeEvent::Fresh(stream, Err(e))) == NodeAction::<S>::Fail(e),
        pool.len() < 4 ==> node_pool(pool, NodeEvent::Pooled(stream, Ok(resp))) == pool.push(
            stream,
        ),
        pool.len() < 4 ==> node_pool(pool, NodeEvent::Fresh(stream, Ok(resp))) == pool.push(stream),
        pool.len() >= 4 ==> node_pool(pool, NodeEvent::Pooled(stream, Ok(resp))) == pool,
        pool.len() >= 4 ==> node_pool(pool, NodeEvent::Fresh(stream, Ok(resp))) == pool,
        node_pool(pool, NodeEvent::Pooled(stream, Err(e))) == pool,
        node_pool(pool, NodeEvent::Connected(Ok(stream))) == pool,
        node_pool(pool, NodeEvent::Connected(Err(e))) == pool,
        node_pool(pool, NodeEvent::Fresh(stream, Err(e))) == pool,
{
    if pool.len() > 0 {
        assert(pool.drop_last() =~= pool.take(pool.len() - 1));
    }
}

} // verus!
