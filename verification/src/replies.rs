//! What the caller of an operation is handed when the response has come.

use crate::error::ClientError;
use crate::text::{decimal, decimal_text, law_decimal_reads_back, parsed_u64};
use crate::wire::{
    debug_response, debugged_response, delivered_view, kind_view, response_view, server_error_view,
    DeliveredView, ResponseView, ServerErrorView, StatsView,
};
use hermesmq_proto as proto;
use vstd::prelude::*;
use vstd::string::*;

verus! {

/// A message as a consumer gets it. Numbers of 64 bits are in decimal.
#[derive(Debug)]
pub struct DeliveredMessage {
    pub lease_id: String,
    pub offset: String,
    pub priority: u32,
    pub content_type: u32,
    pub payload: Vec<u8>,
    pub ts_ms: String,
}

/// A [`DeliveredMessage`] as a mathematical value.
pub struct MessageView {
    pub lease_id: Seq<char>,
    pub offset: Seq<char>,
    pub priority: u32,
    pub content_type: u32,
    pub payload: Seq<u8>,
    pub ts_ms: Seq<char>,
}

impl View for DeliveredMessage {
    type V = MessageView;

    open spec fn view(&self) -> MessageView {
        MessageView {
            lease_id: self.lease_id@,
            offset: self.offset@,
            priority: self.priority,
            content_type: self.content_type,
            payload: self.payload@,
            ts_ms: self.ts_ms@,
        }
    }
}

/// The figures of a cluster. Those that only grow are in decimal.
#[derive(Debug)]
pub struct ClusterStats {
    pub last_applied: String,
    pub current_leader: u32,
    pub current_term: String,
    pub last_log_index: String,
    pub is_leader: bool,
    pub topics: u64,
    pub messages: u64,
    pub in_flight: u64,
}

/// [`ClusterStats`] as a mathematical value.
pub struct ClusterStatsView {
    pub last_applied: Seq<char>,
    pub current_leader: u32,
    pub current_term: Seq<char>,
    pub last_log_index: Seq<char>,
    pub is_leader: bool,
    pub topics: u64,
    pub messages: u64,
    pub in_flight: u64,
}

impl View for ClusterStats {
    type V = ClusterStatsView;

    open spec fn view(&self) -> ClusterStatsView {
        ClusterStatsView {
            last_applied: self.last_applied@,
            current_leader: self.current_leader,
            current_term: self.current_term@,
            last_log_index: self.last_log_index@,
            is_leader: self.is_leader,
            topics: self.topics,
            messages: self.messages,
            in_flight: self.in_flight,
        }
    }
}

/// What became of one item of a batch: its offset, or why it has none.
#[derive(Debug)]
pub struct ProduceManyResult {
    pub offset: Option<String>,
    pub error: Option<String>,
}

/// How the work on one item of a batch ended.
pub enum ItemOutcome {
    /// The item was produced, or refused.
    Finished(Result<String, ClientError>),
    /// The work did not come to its end, for the reason given.
    Aborted(String),
}

/// The words for an error that a node answered with.
pub open spec fn server_error_text(e: ServerErrorView) -> Seq<char> {
    let text = e.code + ": "@ + e.message;
    if e.retry_after_ms > 0 {
        text + (" (retry after "@ + decimal(e.retry_after_ms as nat) + "ms)"@)
    } else {
        text
    }
}

/// The words for a response that does not fit the request.
pub open spec fn unexpected_text(resp: ResponseView) -> Seq<char> {
    "unexpected response: "@ + debugged_response(resp)
}

/// Why a response is refused: an error says so itself, anything else does not
/// fit the request.
pub open spec fn refusal(resp: ResponseView) -> Seq<char> {
    match resp {
        ResponseView::Error(e) => server_error_text(e),
        _ => unexpected_text(resp),
    }
}

/// What a message on the wire is to a consumer.
pub open spec fn message_of(d: DeliveredView) -> MessageView {
    MessageView {
        lease_id: decimal(d.lease_id as nat),
        offset: decimal(d.offset as nat),
        priority: d.priority,
        content_type: d.content_type,
        payload: d.payload,
        ts_ms: decimal(d.ts_ms as nat),
    }
}

/// What the figures on the wire are to a caller. The number of the leader is
/// cut to 32 bits.
pub open spec fn stats_of(s: StatsView) -> ClusterStatsView {
    ClusterStatsView {
        last_applied: decimal(s.last_applied as nat),
        current_leader: (s.current_leader as nat % 0x1_0000_0000) as u32,
        current_term: decimal(s.current_term as nat),
        last_log_index: decimal(s.last_log_index as nat),
        is_leader: s.is_leader,
        topics: s.topics,
        messages: s.messages,
        in_flight: s.in_flight,
    }
}

/// Messages as mathematical values.
pub open spec fn messages_view(messages: Seq<DeliveredMessage>) -> Seq<MessageView> {
    messages.map_values(|m: DeliveredMessage| m@)
}

/// What comes of a request that is answered with a bare confirmation.
pub open spec fn ok_result(resp: ResponseView) -> Result<(), Seq<char>> {
    match resp {
        ResponseView::Done => Ok(()),
        _ => Err(refusal(resp)),
    }
}

/// What comes of a request to produce: the offset in decimal.
pub open spec fn offset_result(resp: ResponseView) -> Result<Seq<char>, Seq<char>> {
    match resp {
        ResponseView::Produced { offset } => Ok(decimal(offset as nat)),
        _ => Err(refusal(resp)),
    }
}

/// What comes of a request to poll: the messages, in the order of the response.
pub open spec fn poll_result(resp: ResponseView) -> Result<Seq<MessageView>, Seq<char>> {
    match resp {
        ResponseView::Polled { items } => Ok(items.map_values(|d: DeliveredView| message_of(d))),
        _ => Err(refusal(resp)),
    }
}

/// What comes of a request for the figures of the cluster.
pub open spec fn stats_result(resp: ResponseView) -> Result<ClusterStatsView, Seq<char>> {
    match resp {
        ResponseView::Stats(s) => Ok(stats_of(s)),
        _ => Err(refusal(resp)),
    }
}

/// Puts an error that a node answered with into words.
pub fn err_response(e: proto::Error) -> (err: ClientError)
    ensures
        err@ == server_error_text(server_error_view(e)),
{
    let mut reason = e.code;
    reason.append(": ");
    reason.append(e.message.as_str());
    if e.retry_after_ms > 0 {
        let mut hint = " (retry after ".to_owned();
        hint.append(decimal_text(e.retry_after_ms).as_str());
        hint.append("ms)");
        reason.append(hint.as_str());
    }
    ClientError { reason }
}

/// Puts a response that does not fit the request into words, given how it
/// reads in the debug format.
pub fn unexpected(debugged: &str) -> (err: ClientError)
    ensures
        err@ == "unexpected response: "@ + debugged@,
{
    let mut reason = "unexpected response: ".to_owned();
    reason.append(debugged);
    ClientError { reason }
}

/// Refuses the content of a response.
fn refuse(kind: Option<proto::response::Kind>) -> (err: ClientError)
    ensures
        err@ == refusal(kind_view(kind)),
{
    match kind {
        Some(proto::response::Kind::Error(e)) => err_response(e),
        other => unexpected(debug_response(&other).as_str()),
    }
}

/// What comes of a request that is answered with a bare confirmation.
pub fn expect_ok(resp: proto::Response) -> (res: Result<(), ClientError>)
    ensures
        match res {
            Ok(()) => ok_result(response_view(resp)) == Ok::<(), Seq<char>>(()),
            Err(e) => ok_result(response_view(resp)) == Err::<(), Seq<char>>(e@),
        },
{
    match resp.kind {
        Some(proto::response::Kind::Ok(_)) => Ok(()),
        other => Err(refuse(other)),
    }
}

/// What comes of a request to produce: the offset in decimal.
pub fn produced_offset(resp: proto::Response) -> (res: Result<String, ClientError>)
    ensures
        match res {
            Ok(offset) => offset_result(response_view(resp)) == Ok::<Seq<char>, Seq<char>>(offset@),
            Err(e) => offset_result(response_view(resp)) == Err::<Seq<char>, Seq<char>>(e@),
        },
{
    match resp.kind {
        Some(proto::response::Kind::Produced(p)) => Ok(decimal_text(p.offset)),
        other => Err(refuse(other)),
    }
}

/// Makes a message on the wire into one for a consumer.
pub fn delivered_message(d: proto::Delivered) -> (m: DeliveredMessage)
    ensures
        m@ == message_of(delivered_view(d)),
{
    DeliveredMessage {
        lease_id: decimal_text(d.lease_id),
        offset: decimal_text(d.offset),
        priority: d.priority,
        content_type: d.content_type,
        payload: d.payload,
        ts_ms: decimal_text(d.ts_ms),
    }
}

/// Makes messages on the wire into those for a consumer.
fn delivered_messages(items: Vec<proto::Delivered>) -> (messages: Vec<DeliveredMessage>)
    ensures
        messages_view(messages@) == items@.map_values(
            |d: proto::Delivered| message_of(delivered_view(d)),
        ),
{
    let ghost all = items@;
    let mut messages: Vec<DeliveredMessage> = Vec::new();
    for d in it: items
        invariant
            it.seq() == all,
            messages@.len() == it.index(),
            forall|k: int|
                0 <= k < it.index() ==> (#[trigger] messages@[k])@ == message_of(
                    delivered_view(all[k]),
                ),
    {
        messages.push(delivered_message(d));
    }
    assert(messages_view(messages@) =~= all.map_values(
        |d: proto::Delivered| message_of(delivered_view(d)),
    ));
    messages
}

/// What comes of a request to poll: the messages, in the order of the response.
pub fn polled_messages(resp: proto::Response) -> (res: Result<Vec<DeliveredMessage>, ClientError>)
    ensures
        match res {
            Ok(messages) => poll_result(response_view(resp)) == Ok::<Seq<MessageView>, Seq<char>>(
                messages_view(messages@),
            ),
            Err(e) => poll_result(response_view(resp)) == Err::<Seq<MessageView>, Seq<char>>(e@),
        },
{
    match resp.kind {
        Some(proto::response::Kind::Polled(p)) => {
            let ghost items = p.items@;
            let messages = delivered_messages(p.items);
            assert(messages_view(messages@) =~= items.map_values(
                |d: proto::Delivered| delivered_view(d),
            ).map_values(|d: DeliveredView| message_of(d)));
            Ok(messages)
        },
        other => Err(refuse(other)),
    }
}

/// What comes of a request for the figures of the cluster.
pub fn cluster_stats(resp: proto::Response) -> (res: Result<ClusterStats, ClientError>)
    ensures
        match res {
            Ok(stats) => stats_result(response_view(resp)) == Ok::<ClusterStatsView, Seq<char>>(
                stats@,
            ),
            Err(e) => stats_result(response_view(resp)) == Err::<ClusterStatsView, Seq<char>>(e@),
        },
{
    match resp.kind {
        Some(proto::response::Kind::Stats(s)) => Ok(
            ClusterStats {
                last_applied: decimal_text(s.last_applied),
                current_leader: (s.current_leader % 0x1_0000_0000) as u32,
                current_term: decimal_text(s.current_term),
                last_log_index: decimal_text(s.last_log_index),
                is_leader: s.is_leader,
                topics: s.topics,
                messages: s.messages,
                in_flight: s.in_flight,
            },
        ),
        other => Err(refuse(other)),
    }
}

/// True if `r` tells how `outcome` ended: it has the offset of an item that was
/// produced, or else the reason, and never both.
pub open spec fn tells(r: ProduceManyResult, outcome: ItemOutcome) -> bool {
    match outcome {
        ItemOutcome::Finished(Ok(offset)) => {
            &&& r.offset matches Some(text) && text@ == offset@
            &&& r.error is None
        },
        ItemOutcome::Finished(Err(e)) => {
            &&& r.offset is None
            &&& r.error matches Some(text) && text@ == e@
        },
        ItemOutcome::Aborted(reason) => {
            &&& r.offset is None
            &&& r.error matches Some(text) && text@ == reason@
        },
    }
}

/// True if the results tell how the items of a batch ended.
pub open spec fn batch_results(
    outcomes: Seq<ItemOutcome>,
    results: Seq<ProduceManyResult>,
) -> bool {
    &&& results.len() == outcomes.len()
    &&& forall|k: int| 0 <= k < outcomes.len() ==> #[trigger] tells(results[k], outcomes[k])
}

/// Reports on a batch: one result for each item, in the order of the items.
pub fn produce_many_results(outcomes: Vec<ItemOutcome>) -> (results: Vec<ProduceManyResult>)
    ensures
        results@.len() == outcomes@.len(),
        forall|k: int|
            0 <= k < outcomes@.len() ==> #[trigger] tells(results@[k], outcomes@[k]),
        batch_results(outcomes@, results@),
{
    let ghost all = outcomes@;
    let mut results: Vec<ProduceManyResult> = Vec::new();
    for outcome in it: outcomes
        invariant
            it.seq() == all,
            results@.len() == it.index(),
            forall|k: int| 0 <= k < it.index() ==> #[trigger] tells(results@[k], all[k]),
    {
        let ghost before = results@;
        let result = match outcome {
            ItemOutcome::Finished(Ok(offset)) => ProduceManyResult {
                offset: Some(offset),
                error: None,
            },
            ItemOutcome::Finished(Err(e)) => ProduceManyResult {
                offset: None,
                error: Some(e.reason),
            },
            ItemOutcome::Aborted(reason) => ProduceManyResult {
                offset: None,
                error: Some(reason),
            },
        };
        results.push(result);
        assert forall|k: int| 0 <= k < it.index() + 1 implies #[trigger] tells(
            results@[k],
            all[k],
        ) by {
            if k < it.index() {
                assert(tells(before[k], all[k]));
            }
        }
    }
    results
}

/// An error that a node answers with is what the caller gets, whatever was
/// asked.
pub proof fn law_server_error_is_reported(e: ServerErrorView)
    ensures
        ok_result(ResponseView::Error(e)) == Err::<(), Seq<char>>(server_error_text(e)),
        offset_result(ResponseView::Error(e)) == Err::<Seq<char>, Seq<char>>(
            server_error_text(e),
        ),
        poll_result(ResponseView::Error(e)) == Err::<Seq<MessageView>, Seq<char>>(
            server_error_text(e),
        ),
        stats_result(ResponseView::Error(e)) == Err::<ClusterStatsView, Seq<char>>(
            server_error_text(e),
        ),
{
}

/// A message reaches its consumer as it was sent: the numbers that it comes
/// with, whichever of 64 bits they are, read back from their texts, and all the
/// rest is the same.
pub proof fn law_message_reaches_its_consumer(d: proto::Delivered, m: DeliveredMessage)
    requires
        m@ == message_of(delivered_view(d)),
    ensures
        parsed_u64(m.lease_id@) == Some(d.lease_id),
        parsed_u64(m.offset@) == Some(d.offset),
        parsed_u64(m.ts_ms@) == Some(d.ts_ms),
        m.lease_id@ == decimal(d.lease_id as nat),
        m.offset@ == decimal(d.offset as nat),
        m.ts_ms@ == decimal(d.ts_ms as nat),
        m.priority == d.priority,
        m.content_type == d.content_type,
        m.payload@ == d.payload@,
{
    law_decimal_reads_back(d.lease_id);
    law_decimal_reads_back(d.offset);
    law_decimal_reads_back(d.ts_ms);
}

/// Polling gives the messages of the response, all of them, each once and in
/// their order; and it gives messages only if the response brings them, be they
/// none.
pub proof fn law_poll_gives_every_message(
    resp: proto::Response,
    res: Result<Vec<DeliveredMessage>, ClientError>,
)
    requires
        match res {
            Ok(messages) => poll_result(response_view(resp)) == Ok::<Seq<MessageView>, Seq<char>>(
                messages_view(messages@),
            ),
            Err(e) => poll_result(response_view(resp)) == Err::<Seq<MessageView>, Seq<char>>(e@),
        },
    ensures
        match resp.kind {
            Some(proto::response::Kind::Polled(p)) => res matches Ok(messages) && messages@.len()
                == p.items@.len() && forall|k: int|
                0 <= k < p.items@.len() ==> {
                    &&& parsed_u64((#[trigger] messages@[k]).lease_id@) == Some(
                        p.items@[k].lease_id,
                    )
                    &&& parsed_u64(messages@[k].offset@) == Some(p.items@[k].offset)
                    &&& parsed_u64(messages@[k].ts_ms@) == Some(p.items@[k].ts_ms)
                    &&& messages@[k].priority == p.items@[k].priority
                    &&& messages@[k].content_type == p.items@[k].content_type
                    &&& messages@[k].payload@ == p.items@[k].payload@
                },
            _ => res is Err,
        },
{
    if let Some(proto::response::Kind::Polled(p)) = resp.kind {
        let views = p.items@.map_values(|d: proto::Delivered| delivered_view(d)).map_values(
            |d: DeliveredView| message_of(d),
        );
        let messages = res->Ok_0;
        assert(messages_view(messages@) == views);
        assert(messages@.len() == views.len());
        assert forall|k: int| 0 <= k < p.items@.len() implies {
            &&& parsed_u64((#[trigger] messages@[k]).lease_id@) == Some(p.items@[k].lease_id)
            &&& parsed_u64(messages@[k].offset@) == Some(p.items@[k].offset)
            &&& parsed_u64(messages@[k].ts_ms@) == Some(p.items@[k].ts_ms)
            &&& messages@[k].priority == p.items@[k].priority
            &&& messages@[k].content_type == p.items@[k].content_type
            &&& messages@[k].payload@ == p.items@[k].payload@
        } by {
            assert(messages_view(messages@)[k] == views[k]);
            law_message_reaches_its_consumer(p.items@[k], messages@[k]);
        }
    }
}

/// Producing gives the offset that the node gave the message, and nothing but a
/// response that holds an offset gives one.
pub proof fn law_offset_is_the_one_given(resp: proto::Response, res: Result<String, ClientError>)
    requires
        match res {
            Ok(offset) => offset_result(response_view(resp)) == Ok::<Seq<char>, Seq<char>>(offset@),
            Err(e) => offset_result(response_view(resp)) == Err::<Seq<char>, Seq<char>>(e@),
        },
    ensures
        match resp.kind {
            Some(proto::response::Kind::Produced(p)) => res matches Ok(offset) && parsed_u64(
                offset@,
            ) == Some(p.offset) && offset@ == decimal(p.offset as nat),
            _ => res is Err,
        },
{
    if let Some(proto::response::Kind::Produced(p)) = resp.kind {
        law_decimal_reads_back(p.offset);
    }
}

/// The figures of a cluster are those that its node gave. The leader's number
/// is the same if it fits 32 bits, and is cut to them if not.
pub proof fn law_figures_are_those_given(
    resp: proto::Response,
    res: Result<ClusterStats, ClientError>,
)
    requires
        match res {
            Ok(stats) => stats_result(response_view(resp)) == Ok::<ClusterStatsView, Seq<char>>(
                stats@,
            ),
            Err(e) => stats_result(response_view(resp)) == Err::<ClusterStatsView, Seq<char>>(e@),
        },
    ensures
        match resp.kind {
            Some(proto::response::Kind::Stats(s)) => res matches Ok(stats) && parsed_u64(
                stats.last_applied@,
            ) == Some(s.last_applied) && parsed_u64(stats.current_term@) == Some(s.current_term)
                && parsed_u64(stats.last_log_index@) == Some(s.last_log_index)
                && stats.last_applied@ == decimal(s.last_applied as nat) && stats.current_term@
                == decimal(s.current_term as nat) && stats.last_log_index@ == decimal(
                s.last_log_index as nat,
            ) && stats.is_leader == s.is_leader && stats.topics == s.topics && stats.messages
                == s.messages && stats.in_flight == s.in_flight && (s.current_leader <= u32::MAX
                ==> stats.current_leader == s.current_leader) && (s.current_leader
                - stats.current_leader) % 0x1_0000_0000 == 0,
            _ => res is Err,
        },
{
    if let Some(proto::response::Kind::Stats(s)) = resp.kind {
        law_decimal_reads_back(s.last_applied);
        law_decimal_reads_back(s.current_term);
        law_decimal_reads_back(s.last_log_index);
    }
}

/// A request that is to be confirmed succeeds exactly if it was confirmed.
pub proof fn law_success_is_a_confirmation(resp: proto::Response, res: Result<(), ClientError>)
    requires
        match res {
            Ok(()) => ok_result(response_view(resp)) == Ok::<(), Seq<char>>(()),
            Err(e) => ok_result(response_view(resp)) == Err::<(), Seq<char>>(e@),
        },
    ensures
        res is Ok <==> (resp.kind matches Some(proto::response::Kind::Ok(_))),
{
}

/// The words for an error of a node are its code and its message, and when to
/// try again if it says so.
pub proof fn law_server_error_words(e: proto::Error)
    ensures
        e.retry_after_ms == 0 ==> server_error_text(server_error_view(e)) == e.code@ + ": "@
            + e.message@,
        e.retry_after_ms > 0 ==> server_error_text(server_error_view(e)) == (e.code@ + ": "@
            + e.message@) + (" (retry after "@ + decimal(e.retry_after_ms as nat) + "ms)"@),
{
}

/// A response that fits no request is shown to whoever asked, whatever they
/// asked.
pub proof fn law_misfit_is_shown(resp: ResponseView)
    ensures
        !(resp is Error) && !(resp is Done) ==> ok_result(resp) == Err::<(), Seq<char>>(
            "unexpected response: "@ + debugged_response(resp),
        ),
        !(resp is Error) && !(resp is Produced) ==> offset_result(resp) == Err::<
            Seq<char>,
            Seq<char>,
        >("unexpected response: "@ + debugged_response(resp)),
        !(resp is Error) && !(resp is Polled) ==> poll_result(resp) == Err::<
            Seq<MessageView>,
            Seq<char>,
        >("unexpected response: "@ + debugged_response(resp)),
        !(resp is Error) && !(resp is Stats) ==> stats_result(resp) == Err::<
            ClusterStatsView,
            Seq<char>,
        >("unexpected response: "@ + debugged_response(resp)),
{
}

/// The results of a batch are aligned with its items, and each has an offset or
/// an error and never both: an offset exactly if the item was produced, which
/// is then its own, and else the reason.
pub proof fn law_item_has_offset_or_error(
    outcomes: Seq<ItemOutcome>,
    results: Seq<ProduceManyResult>,
    k: int,
    outcome: ItemOutcome,
    r: ProduceManyResult,
)
    requires
        batch_results(outcomes, results),
        0 <= k < outcomes.len(),
        outcome == outcomes[k],
        r == results[k],
    ensures
        results.len() == outcomes.len(),
        r.offset is Some <==> r.error is None,
        r.offset is Some <==> (outcome matches ItemOutcome::Finished(done) && done is Ok),
        match outcome {
            ItemOutcome::Finished(Ok(offset)) => r.offset matches Some(text) && text@ == offset@,
            ItemOutcome::Finished(Err(e)) => r.error matches Some(text) && text@ == e.reason@,
            ItemOutcome::Aborted(reason) => r.error matches Some(text) && text@ == reason@,
        },
{
    assert(tells(results[k], outcomes[k]));
}

} // verus!
