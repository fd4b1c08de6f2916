//! The members of a cluster, and what the client keeps of each of them.

use crate::error::IoError;
use vstd::prelude::*;

verus! {

/// The most idle connections that are kept to one node.
pub const MAX_IDLE_PER_NODE: usize = 4;

/// A member of the cluster, as the caller names it.
#[derive(Debug)]
pub struct NodeAddr {
    pub id: u32,
    pub client_addr: String,
    pub peer_addr: String,
}

/// A member of the cluster.
#[derive(Debug)]
pub struct NodeRec {
    pub id: u64,
    pub client_addr: String,
    pub peer_addr: String,
}

/// What the client knows of its cluster: the members, which of them answered
/// last as the leader, the idle connections to each, and the pipeline to each.
/// `S` is a connection and `H` a handle to a pipeline.
pub struct Inner<S, H> {
    pub nodes: Vec<NodeRec>,
    pub leader: usize,
    pub pools: Vec<Vec<S>>,
    pub pipes: Vec<Option<H>>,
}

/// Where `addr` stands first in `peers`. The empty address stands nowhere.
pub open spec fn peer_position(peers: Seq<Seq<char>>, addr: Seq<char>) -> Option<int> {
    if addr.len() == 0 {
        None
    } else {
        peers.index_of_first(addr)
    }
}

/// What is taken out of a pool, and what is left: the connection parked last.
pub open spec fn pool_taken<S>(pool: Seq<S>) -> (Option<S>, Seq<S>) {
    if pool.len() == 0 {
        (None, pool)
    } else {
        (Some(pool.last()), pool.drop_last())
    }
}

/// A pool after a connection was parked in it. A full pool stays as it is.
pub open spec fn pool_parked<S>(pool: Seq<S>, stream: S) -> Seq<S> {
    if pool.len() < MAX_IDLE_PER_NODE {
        pool.push(stream)
    } else {
        pool
    }
}

/// What happens while a caller is after the pipeline to a member.
pub enum PipelineNews<H> {
    /// The pipeline is asked for.
    Asked,
    /// No new connection could be had.
    Unreachable(IoError),
    /// There is a new connection; the `H` is a pipeline on it that has not been
    /// started.
    Connected(H),
}

/// What the caller who is after the pipeline to a member does next.
#[derive(Debug)]
pub enum PipelineAction {
    /// Use the pipeline that is kept.
    Share,
    /// Ask for a new connection.
    Connect,
    /// Start the new pipeline, which is kept from now on, and use it.
    Start,
    /// There is no pipeline.
    Fail(IoError),
}

/// The pipeline in `slot` that may be used, if any; `closed` tells whether the
/// one that is there has ended.
pub open spec fn open_pipeline<H>(slot: Option<H>, closed: bool) -> Option<H> {
    if closed {
        None
    } else {
        slot
    }
}

/// What is kept, and what follows, when `news` comes to a caller who is after
/// the pipeline in `slot`. One that is open is shared; a new one takes its
/// place only if none is open.
pub open spec fn slot_next<H>(slot: Option<H>, closed: bool, news: PipelineNews<H>) -> (
    Option<H>,
    PipelineAction,
) {
    match news {
        PipelineNews::Asked => if open_pipeline(slot, closed) is Some {
            (slot, PipelineAction::Share)
        } else {
            (slot, PipelineAction::Connect)
        },
        PipelineNews::Unreachable(e) => (slot, PipelineAction::Fail(e)),
        PipelineNews::Connected(handle) => if open_pipeline(slot, closed) is Some {
            (slot, PipelineAction::Share)
        } else {
            (Some(handle), PipelineAction::Start)
        },
    }
}

/// The pipelines that are kept after `news` came to a caller who is after the
/// one to the member `idx`.
pub open spec fn pipes_next<H>(
    pipes: Seq<Option<H>>,
    idx: int,
    closed: bool,
    news: PipelineNews<H>,
) -> Seq<Option<H>> {
    pipes.update(idx, slot_next(pipes[idx], closed, news).0)
}

impl<S, H> Inner<S, H> {
    /// There is a member; the member taken for the leader is one of them; each
    /// has a pool within its bound and a place for a pipeline; and three
    /// attempts for each member can be counted.
    pub open spec fn wf(self) -> bool {
        &&& 0 < self.nodes@.len()
        &&& 3 * self.nodes@.len() <= usize::MAX
        &&& self.leader < self.nodes@.len()
        &&& self.pools@.len() == self.nodes@.len()
        &&& self.pipes@.len() == self.nodes@.len()
        &&& forall|i: int|
            0 <= i < self.pools@.len() ==> (#[trigger] self.pools@[i])@.len() <= MAX_IDLE_PER_NODE
    }

    /// The addresses by which the members know each other.
    pub open spec fn peers(self) -> Seq<Seq<char>> {
        self.nodes@.map_values(|n: NodeRec| n.peer_addr@)
    }

    /// The address that the member `i` serves clients on.
    pub open spec fn addr(self, i: int) -> Seq<char> {
        self.nodes@[i].client_addr@
    }

    /// The idle connections to the member `i`, the one parked last at the end.
    pub open spec fn pool(self, i: int) -> Seq<S> {
        self.pools@[i]@
    }

    /// `self` with the member `i` taken for the leader.
    pub open spec fn led_by(self, i: int) -> Self {
        Inner { leader: i as usize, ..self }
    }

    /// Nothing but the pool of the member `i` differs from `other`.
    pub open spec fn same_but_pool(self, other: Self, i: int) -> bool {
        &&& self.nodes == other.nodes
        &&& self.leader == other.leader
        &&& self.pipes == other.pipes
        &&& self.pools@.len() == other.pools@.len()
        &&& forall|j: int|
            0 <= j < self.pools@.len() && j != i ==> #[trigger] self.pools@[j] == other.pools@[j]
    }

    /// Nothing but the pipelines differs from `other`.
    pub open spec fn same_but_pipes(self, other: Self) -> bool {
        &&& self.nodes == other.nodes
        &&& self.leader == other.leader
        &&& self.pools == other.pools
    }

    /// Neither connections nor pipelines are left of those in `other`, and all
    /// else is the same.
    pub open spec fn emptied(self, other: Self) -> bool {
        &&& self.nodes == other.nodes
        &&& self.leader == other.leader
        &&& forall|i: int|
            0 <= i < self.nodes@.len() ==> #[trigger] self.pool(i) == Seq::<S>::empty()
        &&& forall|i: int| 0 <= i < self.nodes@.len() ==> #[trigger] self.pipes@[i] is None
    }

    /// A cluster of the given members. The first is taken for the leader, and
    /// there are no connections yet.
    pub fn new(nodes: Vec<NodeRec>) -> (inner: Self)
        requires
            0 < nodes@.len(),
            3 * nodes@.len() <= usize::MAX,
        ensures
            inner.wf(),
            inner.nodes == nodes,
            inner.leader == 0,
            forall|i: int| 0 <= i < nodes@.len() ==> #[trigger] inner.pool(i) == Seq::<S>::empty(),
            forall|i: int| 0 <= i < nodes@.len() ==> #[trigger] inner.pipes@[i] is None,
    {
        let mut pools: Vec<Vec<S>> = Vec::new();
        let mut pipes: Vec<Option<H>> = Vec::new();
        let mut k: usize = 0;
        while k < nodes.len()
            invariant
                k <= nodes@.len(),
                pools@.len() == k,
                pipes@.len() == k,
                forall|i: int| 0 <= i < k ==> (#[trigger] pools@[i])@ == Seq::<S>::empty(),
                forall|i: int| 0 <= i < k ==> #[trigger] pipes@[i] is None,
            decreases nodes@.len() - k,
        {
            pools.push(Vec::new());
            pipes.push(None);
            k = k + 1;
        }
        Inner { nodes, leader: 0, pools, pipes }
    }

    /// The member that the others know by `peer_addr`, the first if there are
    /// several.
    pub fn peer_index(&self, peer_addr: &str) -> (index: Option<usize>)
        ensures
            match index {
                Some(i) => peer_position(self.peers(), peer_addr@) == Some(i as int),
                None => peer_position(self.peers(), peer_addr@) is None,
            },
            index matches Some(i) ==> i < self.nodes@.len(),
    {
        let wanted = peer_addr.to_owned();
        let ghost peers = self.peers();
        if peer_addr.is_empty() {
            return None;
        }
        let mut i: usize = 0;
        while i < self.nodes.len()
            invariant
                i <= self.nodes@.len(),
                wanted@ == peer_addr@,
                peer_addr@.len() > 0,
                peers == self.peers(),
                forall|j: int| 0 <= j < i ==> #[trigger] peers[j] != peer_addr@,
            decreases self.nodes@.len() - i,
        {
            if self.nodes[i].peer_addr == wanted {
                proof {
                    assert(peers[i as int] == peer_addr@);
                    peers.index_of_first_ensures(peer_addr@);
                }
                return Some(i);
            }
            assert(peers[i as int] != peer_addr@);
            i = i + 1;
        }
        proof {
            peers.index_of_first_ensures(peer_addr@);
        }
        None
    }

    /// Takes an idle connection to the member `idx`, the one parked last.
    pub fn pooled(&mut self, idx: usize) -> (stream: Option<S>)
        requires
            old(self).wf(),
            idx < old(self).nodes@.len(),
        ensures
            final(self).wf(),
            final(self).same_but_pool(*old(self), idx as int),
            (stream, final(self).pool(idx as int)) == pool_taken(old(self).pool(idx as int)),
    {
        self.pools[idx].pop()
    }

    /// Keeps a connection to the member `idx` for later, unless enough are
    /// kept already.
    pub fn park(&mut self, idx: usize, stream: S)
        requires
            old(self).wf(),
            idx < old(self).nodes@.len(),
        ensures
            final(self).wf(),
            final(self).same_but_pool(*old(self), idx as int),
            final(self).pool(idx as int) == pool_parked(old(self).pool(idx as int), stream),
    {
        if self.pools[idx].len() < MAX_IDLE_PER_NODE {
            self.pools[idx].push(stream);
        }
    }

    /// The pipeline to the member `idx`, if there is one and `closed` does not
    /// say that it has ended.
    pub fn pipeline(&self, idx: usize, closed: bool) -> (handle: Option<&H>)
        requires
            self.wf(),
            idx < self.nodes@.len(),
        ensures
            match handle {
                Some(h) => open_pipeline(self.pipes@[idx as int], closed) == Some(*h),
                None => open_pipeline(self.pipes@[idx as int], closed) is None,
            },
    {
        if closed {
            None
        } else {
            self.pipes[idx].as_ref()
        }
    }

    /// Makes `handle` the pipeline to the member `idx`, unless one is open;
    /// `closed` tells whether the one that is there has ended.
    pub fn keep_if_none_open(&mut self, idx: usize, closed: bool, handle: H) -> (kept: bool)
        requires
            old(self).wf(),
            idx < old(self).nodes@.len(),
        ensures
            final(self).wf(),
            final(self).same_but_pipes(*old(self)),
            kept == (closed || old(self).pipes@[idx as int] is None),
            final(self).pipes@ == (if kept {
                old(self).pipes@.update(idx as int, Some(handle))
            } else {
                old(self).pipes@
            }),
    {
        if self.pipeline(idx, closed).is_some() {
            false
        } else {
            self.pipes[idx] = Some(handle);
            true
        }
    }

    /// Decides what follows for a caller who is after the pipeline to the
    /// member `idx`; `closed` tells whether the one that is there has ended.
    pub fn obtain_pipeline(&mut self, idx: usize, closed: bool, news: PipelineNews<H>) -> (action:
        PipelineAction)
        requires
            old(self).wf(),
            idx < old(self).nodes@.len(),
        ensures
            final(self).wf(),
            final(self).same_but_pipes(*old(self)),
            action == slot_next(old(self).pipes@[idx as int], closed, news).1,
            final(self).pipes@ == pipes_next(old(self).pipes@, idx as int, closed, news),
    {
        let ghost before = self.pipes@;
        assert(before.update(idx as int, before[idx as int]) =~= before);
        match news {
            PipelineNews::Asked => {
                if self.pipeline(idx, closed).is_some() {
                    PipelineAction::Share
                } else {
                    PipelineAction::Connect
                }
            },
            PipelineNews::Unreachable(e) => PipelineAction::Fail(e),
            PipelineNews::Connected(handle) => {
                if self.keep_if_none_open(idx, closed, handle) {
                    PipelineAction::Start
                } else {
                    PipelineAction::Share
                }
            },
        }
    }

    /// Forgets the pipeline to the member `idx`.
    pub fn drop_pipeline(&mut self, idx: usize)
        requires
            old(self).wf(),
            idx < old(self).nodes@.len(),
        ensures
            final(self).wf(),
            final(self).same_but_pipes(*old(self)),
            final(self).pipes@ == old(self).pipes@.update(idx as int, None),
    {
        self.pipes[idx] = None;
    }

    /// Drops every idle connection and every pipeline.
    pub fn close(&mut self)
        requires
            old(self).wf(),
        ensures
            final(self).wf(),
            final(self).nodes == old(self).nodes,
            final(self).leader == old(self).leader,
            forall|i: int|
                0 <= i < final(self).nodes@.len() ==> #[trigger] final(self).pool(i) == Seq::<
                    S,
                >::empty(),
            forall|i: int|
                0 <= i < final(self).nodes@.len() ==> #[trigger] final(self).pipes@[i] is None,
            final(self).emptied(*old(self)),
    {
        let mut k: usize = 0;
        while k < self.nodes.len()
            invariant
                self.wf(),
                self.nodes == old(self).nodes,
                self.leader == old(self).leader,
                k <= self.nodes@.len(),
                forall|i: int| 0 <= i < k ==> #[trigger] self.pool(i) == Seq::<S>::empty(),
                forall|i: int| 0 <= i < k ==> #[trigger] self.pipes@[i] is None,
            decreases self.nodes@.len() - k,
        {
            let ghost before = *self;
            self.pools[k].clear();
            self.pipes[k] = None;
            assert forall|i: int| 0 <= i < k + 1 implies #[trigger] self.pool(i) == Seq::<
                S,
            >::empty() by {
                if i < k {
                    assert(self.pool(i) == before.pool(i));
                }
            }
            k = k + 1;
        }
    }
}

/// A connection that was parked is the next one taken, and taking it leaves
/// the pool as it was before.
pub proof fn law_parked_is_taken<S>(pool: Seq<S>, stream: S)
    requires
        pool.len() < MAX_IDLE_PER_NODE,
    ensures
        pool_taken(pool_parked(pool, stream)) == (Some(stream), pool),
{
    assert(pool.push(stream).drop_last() =~= pool);
}

/// A pool never grows beyond its bound.
pub proof fn law_pool_is_bounded<S>(pool: Seq<S>, stream: S)
    requires
        pool.len() <= MAX_IDLE_PER_NODE,
    ensures
        pool_parked(pool, stream).len() <= MAX_IDLE_PER_NODE,
        pool_taken(pool).1.len() <= MAX_IDLE_PER_NODE,
{
}

/// One piece of news for a caller who is after the pipeline to the member
/// `idx`, and whether the pipeline that is kept had ended by then.
pub struct PipesEvent<H> {
    pub idx: int,
    pub closed: bool,
    pub news: PipelineNews<H>,
}

/// Each event is about one of `n` members.
pub open spec fn about_members<H>(events: Seq<PipesEvent<H>>, n: nat) -> bool {
    forall|k: int| 0 <= k < events.len() ==> 0 <= (#[trigger] events[k]).idx < n
}

/// No event tells that a pipeline to the member `i` has ended.
pub open spec fn stays_open<H>(events: Seq<PipesEvent<H>>, i: int) -> bool {
    forall|k: int|
        0 <= k < events.len() ==> (#[trigger] events[k]).idx == i ==> !events[k].closed
}

/// The pipelines that are kept after news for any number of callers, in the
/// order in which it came.
pub open spec fn pipes_after<H>(pipes: Seq<Option<H>>, events: Seq<PipesEvent<H>>) -> Seq<Option<H>>
    decreases events.len(),
{
    if events.len() == 0 {
        pipes
    } else {
        let last = events.last();
        pipes_next(pipes_after(pipes, events.drop_last()), last.idx, last.closed, last.news)
    }
}

/// What the event of number `k` leads to.
pub open spec fn pipes_action<H>(
    pipes: Seq<Option<H>>,
    events: Seq<PipesEvent<H>>,
    k: int,
) -> PipelineAction {
    slot_next(
        pipes_after(pipes, events.take(k))[events[k].idx],
        events[k].closed,
        events[k].news,
    ).1
}

/// What is kept changes by one event: for the member that it is about alone,
/// only to a new pipeline, and only if none was there or the one that was there
/// had ended. A connection that could not be had changes nothing, and its
/// failure is what the caller gets.
pub proof fn law_pipeline_is_replaced_only_when_ended<H>(
    pipes: Seq<Option<H>>,
    idx: int,
    closed: bool,
    news: PipelineNews<H>,
)
    requires
        0 <= idx < pipes.len(),
    ensures
        slot_next(pipes[idx], closed, news).1 is Start <==> news is Connected && (pipes[idx] is None
            || closed),
        pipes_next(pipes, idx, closed, news) == (match slot_next(pipes[idx], closed, news).1 {
            PipelineAction::Start => pipes.update(idx, Some(news->Connected_0)),
            _ => pipes,
        }),
        news matches PipelineNews::Unreachable(e) ==> slot_next(pipes[idx], closed, news).1
            == PipelineAction::Fail(e),
{
    assert(pipes.update(idx, pipes[idx]) =~= pipes);
}

/// All callers share one pipeline: as long as the one that is kept for the
/// member `i` is open, nothing takes its place, whatever happens to the other
/// members; and every caller who asks for it, or who has made a new connection
/// meanwhile, is given that same one.
pub proof fn law_open_pipeline_is_shared<H>(
    pipes: Seq<Option<H>>,
    events: Seq<PipesEvent<H>>,
    i: int,
    handle: H,
)
    requires
        about_members(events, pipes.len()),
        stays_open(events, i),
        0 <= i < pipes.len(),
        pipes[i] == Some(handle),
    ensures
        pipes_after(pipes, events).len() == pipes.len(),
        pipes_after(pipes, events)[i] == Some(handle),
        forall|k: int|
            0 <= k < events.len() && events[k].idx == i ==> #[trigger] pipes_action(
                pipes,
                events,
                k,
            ) == (match events[k].news {
                PipelineNews::Unreachable(e) => PipelineAction::Fail(e),
                _ => PipelineAction::Share,
            }),
    decreases events.len(),
{
    if events.len() > 0 {
        let front = events.drop_last();
        assert forall|k: int| 0 <= k < front.len() implies (#[trigger] front[k]) == events[k] by {}
        law_open_pipeline_is_shared(pipes, front, i, handle);
        assert(0 <= events.last().idx < pipes.len());
        assert forall|k: int| 0 <= k < events.len() && events[k].idx == i implies #[trigger]
        pipes_action(pipes, events, k) == (match events[k].news {
            PipelineNews::Unreachable(e) => PipelineAction::Fail(e),
            _ => PipelineAction::Share,
        }) by {
            if k < front.len() {
                assert(front.take(k) =~= events.take(k));
                assert(pipes_action(pipes, front, k) == pipes_action(pipes, events, k));
            } else {
                assert(events.take(k) =~= front);
            }
        }
    }
}

/// Callers who race for the pipeline to the member `i` open one between them:
/// if none that is kept for it ends meanwhile, at most one of them starts a
/// pipeline, only if there was none, and from then on that one is kept.
pub proof fn law_one_pipeline_is_started<H>(
    pipes: Seq<Option<H>>,
    events: Seq<PipesEvent<H>>,
    i: int,
    j: int,
    k: int,
)
    requires
        about_members(events, pipes.len()),
        stays_open(events, i),
        0 <= i < pipes.len(),
        0 <= j < events.len(),
        0 <= k < events.len(),
        events[j].idx == i,
        events[k].idx == i,
        pipes_action(pipes, events, j) is Start,
        pipes_action(pipes, events, k) is Start,
    ensures
        j == k,
        pipes[i] is None,
        events[j].news matches PipelineNews::Connected(handle) && pipes_after(pipes, events)[i]
            == Some(handle),
{
    lemma_kept_from_start(pipes, events, i, j, k);
    lemma_kept_from_start(pipes, events, i, k, j);
    lemma_kept_from_start(pipes, events, i, j, events.len() as int);
    assert(events.take(events.len() as int) =~= events);
    if pipes[i] is Some {
        law_open_pipeline_is_shared(pipes, events, i, pipes[i]->0);
    }
}

/// A pipeline that was started is kept as long as it is open.
proof fn lemma_kept_from_start<H>(
    pipes: Seq<Option<H>>,
    events: Seq<PipesEvent<H>>,
    i: int,
    j: int,
    k: int,
)
    requires
        about_members(events, pipes.len()),
        stays_open(events, i),
        0 <= i < pipes.len(),
        0 <= j < events.len(),
        0 <= k <= events.len(),
        events[j].idx == i,
        pipes_action(pipes, events, j) is Start,
    ensures
        pipes_after(pipes, events.take(k)).len() == pipes.len(),
        j < k ==> (events[j].news matches PipelineNews::Connected(handle) && pipes_after(
            pipes,
            events.take(k),
        )[i] == Some(handle)),
    decreases k,
{
    if k > 0 {
        assert(events.take(k).drop_last() =~= events.take(k - 1));
        assert(events.take(k).last() == events[k - 1]);
        assert(0 <= events[k - 1].idx < pipes.len());
        lemma_kept_from_start(pipes, events, i, j, k - 1);
    }
}

/// A member is found by the address by which the others know it: the first one
/// that has it, if any has. The empty address is nobody's.
pub proof fn law_member_is_found_by_address<S, H>(inner: Inner<S, H>, addr: Seq<char>)
    ensures
        match peer_position(inner.peers(), addr) {
            Some(i) => {
                &&& addr.len() > 0
                &&& 0 <= i < inner.nodes@.len()
                &&& inner.nodes@[i].peer_addr@ == addr
                &&& forall|j: int|
                    0 <= j < i ==> (#[trigger] inner.nodes@[j]).peer_addr@ != addr
            },
            None => addr.len() == 0 || forall|j: int|
                0 <= j < inner.nodes@.len() ==> (#[trigger] inner.nodes@[j]).peer_addr@ != addr,
        },
{
    let peers = inner.peers();
    peers.index_of_first_ensures(addr);
    assert(peers.len() == inner.nodes@.len());
    assert forall|j: int| 0 <= j < peers.len() implies #[trigger] peers[j]
        == inner.nodes@[j].peer_addr@ by {}
    match peer_position(peers, addr) {
        Some(i) => {
            assert forall|j: int| 0 <= j < i implies (#[trigger] inner.nodes@[j]).peer_addr@
                != addr by {
                assert(peers[j] != addr);
            }
        },
        None => {
            if addr.len() > 0 {
                assert forall|j: int| 0 <= j < inner.nodes@.len() implies (
                #[trigger] inner.nodes@[j]).peer_addr@ != addr by {
                    assert(!peers.contains(addr));
                    assert(peers[j] == inner.nodes@[j].peer_addr@);
                }
            }
        },
    }
}

/// Up to four idle connections to a node are kept, and the one parked last is
/// taken first. A connection is had from a pool exactly if one is in it, and no
/// other leaves it; one that is parked is lost exactly if four are there.
pub proof fn law_pool_keeps_four<S>(pool: Seq<S>, stream: S)
    ensures
        pool.len() == 0 ==> pool_taken(pool) == (None::<S>, pool),
        pool.len() > 0 ==> (pool_taken(pool).0 matches Some(taken) && pool_taken(pool).1.push(taken)
            == pool),
        pool.len() < 4 ==> pool_parked(pool, stream) == pool.push(stream),
        pool.len() >= 4 ==> pool_parked(pool, stream) == pool,
{
    if pool.len() > 0 {
        assert(pool.drop_last().push(pool.last()) =~= pool);
    }
}

/// What a client holds of a member is what is kept for it: its pool is the list
/// of that member, its address the one that it serves clients on. To take a
/// member for the leader changes nothing else.
pub proof fn law_members_are_kept_apart<S, H>(
    inner: Inner<S, H>,
    other: Inner<S, H>,
    i: int,
    j: int,
)
    requires
        0 <= i < inner.nodes@.len() <= usize::MAX,
        0 <= j < inner.nodes@.len(),
        inner.wf(),
        other.wf(),
    ensures
        inner.pool(i) == inner.pools@[i]@,
        inner.addr(i) == inner.nodes@[i].client_addr@,
        inner.led_by(i).leader == i,
        inner.led_by(i).nodes == inner.nodes,
        inner.led_by(i).pools == inner.pools,
        inner.led_by(i).pipes == inner.pipes,
        other.same_but_pool(inner, i) ==> other.nodes == inner.nodes && other.leader == inner.leader
            && other.pipes == inner.pipes && (i != j ==> other.pool(j) == inner.pool(j)),
        other.same_but_pipes(inner) ==> other.nodes == inner.nodes && other.leader == inner.leader
            && other.pools == inner.pools,
{
    if other.same_but_pool(inner, i) && i != j {
        assert(other.pools@[j] == inner.pools@[j]);
    }
}

/// Whoever asks for a pipeline is given the one that is kept exactly if there is
/// one and it has not ended; else a connection is made. One who has made a
/// connection starts a pipeline on it exactly if there is still none to share.
/// To ask changes nothing.
pub proof fn law_pipeline_is_shared_or_started<H>(slot: Option<H>, closed: bool, handle: H)
    ensures
        slot_next(slot, closed, PipelineNews::Asked) == (
            slot,
            if slot is Some && !closed {
                PipelineAction::Share
            } else {
                PipelineAction::Connect
            },
        ),
        slot_next(slot, closed, PipelineNews::Connected(handle)) == (if slot is Some && !closed {
            (slot, PipelineAction::Share)
        } else {
            (Some(handle), PipelineAction::Start)
        }),
        open_pipeline(slot, closed) is Some <==> slot is Some && !closed,
        open_pipeline(slot, closed) is Some ==> open_pipeline(slot, closed) == slot,
{
}

/// Closing leaves no connection and no pipeline to any member, and nothing else
/// changes.
pub proof fn law_closing_leaves_nothing_open<S, H>(
    before: Inner<S, H>,
    after: Inner<S, H>,
    i: int,
)
    requires
        after.wf(),
        after.emptied(before),
    ensures
        after.nodes == before.nodes,
        after.leader == before.leader,
        0 <= i < before.nodes@.len() ==> after.pools@[i]@.len() == 0 && after.pipes@[i] is None,
{
    if 0 <= i < before.nodes@.len() {
        assert(after.pool(i) == Seq::<S>::empty());
    }
}

} // verus!
