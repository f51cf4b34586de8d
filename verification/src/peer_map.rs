//! The map of currently connected peers: identifier to communication
//! record, with fan-out propagation and per-peer failure isolation.
//!
//! Every operation takes the map exclusively (a caller shares it behind
//! one lock, held briefly: only non-blocking sends happen inside).
//! Consumer tokens are kept fresh map-wide by a monotone epoch counter,
//! so a removed or replaced record's streams end cleanly and can never be
//! confused with those of a later record under the same identifier.

use vstd::prelude::*;
use crate::blockcfg::{Header, HeaderHash, Message};
use crate::comm::{
    channel_fresh, comms_idle, spec_close, spec_poll, spec_poll_event, spec_send, spec_send_item,
    BlockEvent, BlockEventSubscription, ChannelModel, ErrorKind, Gossip, PeerComms,
    PeerCommsModel, PropagateItem, StreamPoll, Subscription,
};
use crate::topology::{Node, NodeId};

verus! {

/// The records as contracts see them: identifier and channel states, in
/// insertion order.
pub open spec fn entries_of(peers: Seq<(NodeId, PeerComms)>) -> Seq<(NodeId, PeerCommsModel)> {
    peers.map_values(|p: (NodeId, PeerComms)| (p.0, p.1@))
}

/// The first index holding `id`, or the length when no record does.
pub open spec fn find_peer(entries: Seq<(NodeId, PeerCommsModel)>, id: NodeId) -> int
    decreases entries.len(),
{
    if entries.len() == 0 {
        0
    } else if entries[0].0 == id {
        0
    } else {
        1 + find_peer(entries.drop_first(), id)
    }
}

/// Whether some record holds `id`.
pub open spec fn has_peer(entries: Seq<(NodeId, PeerCommsModel)>, id: NodeId) -> bool {
    exists|i: int| 0 <= i < entries.len() && entries[i].0 == id
}

/// All four channel epochs of a record lie below `bound`.
pub open spec fn comms_epochs_lt(pc: PeerCommsModel, bound: u64) -> bool {
    &&& pc.block_announcements.epoch < bound
    &&& pc.block_solicitations.epoch < bound
    &&& pc.messages.epoch < bound
    &&& pc.gossip.epoch < bound
}

/// Map well-formedness: at most one record per identifier, and every
/// channel epoch below the mint bound, so freshly minted tokens can
/// never alias an existing stream.
pub open spec fn entries_wf(entries: Seq<(NodeId, PeerCommsModel)>, bound: u64) -> bool {
    &&& forall|i: int, j: int| 0 <= i < j < entries.len()
        ==> (#[trigger] entries[i]).0 != (#[trigger] entries[j]).0
    &&& forall|i: int| 0 <= i < entries.len() ==> comms_epochs_lt(#[trigger] entries[i].1, bound)
}

pub proof fn lemma_find_peer_first(entries: Seq<(NodeId, PeerCommsModel)>, id: NodeId, i: int)
    requires
        0 <= i < entries.len(),
        entries[i].0 == id,
        forall|k: int| 0 <= k < i ==> entries[k].0 != id,
    ensures
        find_peer(entries, id) == i,
    decreases i,
{
    if i > 0 {
        lemma_find_peer_first(entries.drop_first(), id, i - 1);
    }
}

pub proof fn lemma_find_peer_absent(entries: Seq<(NodeId, PeerCommsModel)>, id: NodeId)
    requires
        forall|k: int| 0 <= k < entries.len() ==> (#[trigger] entries[k]).0 != id,
    ensures
        find_peer(entries, id) == entries.len(),
        !has_peer(entries, id),
    decreases entries.len(),
{
    if entries.len() > 0 {
        assert(forall|k: int| 0 <= k < entries.drop_first().len()
            ==> (#[trigger] entries.drop_first()[k]).0 != id);
        lemma_find_peer_absent(entries.drop_first(), id);
    }
}

pub proof fn lemma_find_peer_range(entries: Seq<(NodeId, PeerCommsModel)>, id: NodeId)
    ensures
        0 <= find_peer(entries, id) <= entries.len(),
    decreases entries.len(),
{
    if entries.len() > 0 && entries[0].0 != id {
        lemma_find_peer_range(entries.drop_first(), id);
    }
}

pub proof fn lemma_wf_update(
    entries: Seq<(NodeId, PeerCommsModel)>,
    k: int,
    pc: PeerCommsModel,
    bound: u64,
)
    requires
        entries_wf(entries, bound),
        0 <= k < entries.len(),
        comms_epochs_lt(pc, bound),
    ensures
        entries_wf(entries.update(k, (entries[k].0, pc)), bound),
{
}

pub proof fn lemma_wf_remove(entries: Seq<(NodeId, PeerCommsModel)>, k: int, bound: u64)
    requires
        entries_wf(entries, bound),
        0 <= k < entries.len(),
    ensures
        entries_wf(entries.remove(k), bound),
{
    let t = entries.remove(k);
    assert forall|i: int, j: int| 0 <= i < j < t.len() implies t[i].0 != t[j].0 by {
        let i0 = if i < k { i } else { i + 1 };
        let j0 = if j < k { j } else { j + 1 };
        assert(t[i] == entries[i0]);
        assert(t[j] == entries[j0]);
    }
    assert forall|i: int| 0 <= i < t.len() implies comms_epochs_lt(t[i].1, bound) by {
        let i0 = if i < k { i } else { i + 1 };
        assert(t[i] == entries[i0]);
    }
}

pub proof fn lemma_wf_push(
    entries: Seq<(NodeId, PeerCommsModel)>,
    id: NodeId,
    pc: PeerCommsModel,
    bound: u64,
)
    requires
        entries_wf(entries, bound),
        !has_peer(entries, id),
        comms_epochs_lt(pc, bound),
    ensures
        entries_wf(entries.push((id, pc)), bound),
{
    let t = entries.push((id, pc));
    assert forall|i: int, j: int| 0 <= i < j < t.len() implies t[i].0 != t[j].0 by {
        if j < entries.len() {
            assert(t[i] == entries[i]);
            assert(t[j] == entries[j]);
        } else {
            assert(t[i] == entries[i]);
            assert(t[j] == (id, pc));
        }
    }
}

pub proof fn lemma_wf_bound_mono(entries: Seq<(NodeId, PeerCommsModel)>, b1: u64, b2: u64)
    requires
        entries_wf(entries, b1),
        b1 <= b2,
    ensures
        entries_wf(entries, b2),
{
    assert forall|i: int| 0 <= i < entries.len() implies comms_epochs_lt(
        #[trigger] entries[i].1,
        b2,
    ) by {
        assert(comms_epochs_lt(entries[i].1, b1));
    }
}

/// Outcome of a fan-out propagation: the records as they stand afterwards
/// and the targets that were not reached, in target-list order.
pub ghost struct PropagateState {
    pub entries: Seq<(NodeId, PeerCommsModel)>,
    pub unreached: Seq<Node>,
}

/// What best-effort delivery to one target does. An unknown peer is
/// unreached. A send refused with `NotSubscribed` leaves the record in
/// place: the peer merely has not registered the topic. Any other send
/// failure (closed, overflow, unexpected) removes the whole record —
/// all four channels — atomically; the target counts as unreached.
pub open spec fn spec_propagate_step(
    entries: Seq<(NodeId, PeerCommsModel)>,
    node: Node,
    item: PropagateItem,
) -> PropagateState {
    let k = find_peer(entries, node.id);
    if k >= entries.len() {
        PropagateState { entries, unreached: seq![node] }
    } else {
        let (pc, outcome) = spec_send_item(entries[k].1, item);
        match outcome {
            Option::None => PropagateState {
                entries: entries.update(k, (entries[k].0, pc)),
                unreached: Seq::empty(),
            },
            Option::Some(ErrorKind::NotSubscribed) => PropagateState {
                entries,
                unreached: seq![node],
            },
            Option::Some(_) => PropagateState {
                entries: entries.remove(k),
                unreached: seq![node],
            },
        }
    }
}

/// Best-effort delivery to each listed target in turn, with per-peer
/// failure isolation: a failed target affects no other record.
pub open spec fn spec_propagate(
    entries: Seq<(NodeId, PeerCommsModel)>,
    nodes: Seq<Node>,
    item: PropagateItem,
) -> PropagateState
    decreases nodes.len(),
{
    if nodes.len() == 0 {
        PropagateState { entries, unreached: Seq::empty() }
    } else {
        let st = spec_propagate_step(entries, nodes[0], item);
        let rest = spec_propagate(st.entries, nodes.drop_first(), item);
        PropagateState { entries: rest.entries, unreached: st.unreached + rest.unreached }
    }
}

/// One propagation step keeps the map well formed.
pub proof fn lemma_step_wf(
    entries: Seq<(NodeId, PeerCommsModel)>,
    node: Node,
    item: PropagateItem,
    bound: u64,
)
    requires
        entries_wf(entries, bound),
    ensures
        entries_wf(spec_propagate_step(entries, node, item).entries, bound),
{
    let k = find_peer(entries, node.id);
    lemma_find_peer_range(entries, node.id);
    if k >= entries.len() {
    } else {
        let (pc, outcome) = spec_send_item(entries[k].1, item);
        match outcome {
            Option::None => {
                assert(comms_epochs_lt(pc, bound)) by {
                    assert(comms_epochs_lt(entries[k].1, bound));
                }
                lemma_wf_update(entries, k, pc, bound);
            }
            Option::Some(ErrorKind::NotSubscribed) => {}
            Option::Some(_) => {
                lemma_wf_remove(entries, k, bound);
            }
        }
    }
}

/// Peer removal atomicity: however many targets a propagation visits,
/// no record is ever left partial — each is kept whole, updated whole,
/// or removed whole — and the map stays well formed.
pub proof fn lemma_propagate_wf(
    entries: Seq<(NodeId, PeerCommsModel)>,
    nodes: Seq<Node>,
    item: PropagateItem,
    bound: u64,
)
    requires
        entries_wf(entries, bound),
    ensures
        entries_wf(spec_propagate(entries, nodes, item).entries, bound),
    decreases nodes.len(),
{
    if nodes.len() > 0 {
        lemma_step_wf(entries, nodes[0], item, bound);
        lemma_propagate_wf(
            spec_propagate_step(entries, nodes[0], item).entries,
            nodes.drop_first(),
            item,
            bound,
        );
    }
}

/// Closed detection on the propagation path: when a peer's announcement
/// consumer was dropped, the next block propagation to that peer finds
/// the channel closed, removes the whole record, and reports the peer
/// unreached.
pub proof fn lemma_closed_peer_removed(
    entries: Seq<(NodeId, PeerCommsModel)>,
    node: Node,
    header: Header,
)
    requires
        0 <= find_peer(entries, node.id) < entries.len(),
        entries[find_peer(entries, node.id)].1.block_announcements.subscribed,
        entries[find_peer(entries, node.id)].1.block_announcements.closed,
    ensures
        spec_propagate(entries, seq![node], PropagateItem::BlockAnnouncement(header)).entries
            == entries.remove(find_peer(entries, node.id)),
        spec_propagate(entries, seq![node], PropagateItem::BlockAnnouncement(header)).unreached
            == seq![node],
{
    let item = PropagateItem::BlockAnnouncement(header);
    let nodes = seq![node];
    let k = find_peer(entries, node.id);
    assert(spec_send(entries[k].1.block_announcements, header).1
        == Some(ErrorKind::SubscriptionClosed));
    let st = spec_propagate_step(entries, node, item);
    assert(st.entries == entries.remove(k));
    assert(nodes.drop_first() =~= Seq::<Node>::empty());
    assert(spec_propagate(st.entries, nodes.drop_first(), item).entries == st.entries);
    assert(spec_propagate(entries, nodes, item).unreached =~= seq![node]);
}

/// The map of currently connected peers.
pub struct PeerMap {
    peers: Vec<(NodeId, PeerComms)>,
    next_epoch: u64,
}

impl PeerMap {
    /// The records, in insertion order.
    pub closed spec fn entries(&self) -> Seq<(NodeId, PeerCommsModel)> {
        entries_of(self.peers@)
    }

    /// The next consumer epoch to be minted; every channel epoch in the
    /// map lies below it.
    pub closed spec fn epoch_bound(&self) -> u64 {
        self.next_epoch
    }

    pub open spec fn wf(&self) -> bool {
        &&& self.epoch_bound() >= 1
        &&& entries_wf(self.entries(), self.epoch_bound())
    }

    pub fn new() -> (m: PeerMap)
        ensures
            m.wf(),
            m.entries() == Seq::<(NodeId, PeerCommsModel)>::empty(),
    {
        let m = PeerMap { peers: Vec::new(), next_epoch: 1 };
        proof {
            assert(m.entries() =~= Seq::<(NodeId, PeerCommsModel)>::empty());
        }
        m
    }

    /// Number of connected peers.
    pub fn peer_count(&self) -> (n: usize)
        ensures
            n == self.entries().len(),
    {
        self.peers.len()
    }

    /// Whether a record exists under `id`.
    pub fn contains_peer(&self, id: NodeId) -> (b: bool)
        ensures
            b == has_peer(self.entries(), id),
    {
        let k = self.find_index(id);
        k < self.peers.len()
    }

    /// The first index holding `id`, or the record count when absent.
    fn find_index(&self, id: NodeId) -> (k: usize)
        ensures
            k == find_peer(self.entries(), id),
            k <= self.entries().len(),
            k < self.entries().len() ==> self.entries()[k as int].0 == id && has_peer(
                self.entries(),
                id,
            ),
            k == self.entries().len() ==> !has_peer(self.entries(), id),
    {
        let n = self.peers.len();
        let mut i: usize = 0;
        while i < n
            invariant
                i <= n,
                n == self.peers@.len(),
                self.entries() == entries_of(self.peers@),
                forall|k: int| 0 <= k < i ==> (#[trigger] self.entries()[k]).0 != id,
            decreases n - i,
        {
            if self.peers[i].0 == id {
                proof {
                    assert(self.entries()[i as int].0 == id);
                    lemma_find_peer_first(self.entries(), id, i as int);
                }
                return i;
            }
            assert(self.entries()[i as int].0 != id);
            i = i + 1;
        }
        proof {
            lemma_find_peer_absent(self.entries(), id);
        }
        n
    }

    /// Unconditionally installs a record under `id`, replacing any
    /// earlier one; the replaced record's channels all end. The four
    /// channels of the installed record get fresh epochs, so streams
    /// taken from the handles before installation end as well: subscribe
    /// through the map once the peer is installed.
    pub fn insert_peer(&mut self, id: NodeId, handles: PeerComms)
        requires
            old(self).wf(),
            old(self).epoch_bound() <= u64::MAX - 4,
        ensures
            final(self).wf(),
            final(self).epoch_bound() == old(self).epoch_bound() + 4,
            ({
                let b = old(self).epoch_bound();
                let stamped = PeerCommsModel {
                    block_announcements: ChannelModel { epoch: b, ..handles@.block_announcements },
                    block_solicitations: ChannelModel {
                        epoch: (b + 1) as u64,
                        ..handles@.block_solicitations
                    },
                    messages: ChannelModel { epoch: (b + 2) as u64, ..handles@.messages },
                    gossip: ChannelModel { epoch: (b + 3) as u64, ..handles@.gossip },
                };
                let es = old(self).entries();
                let k = find_peer(es, id);
                if k < es.len() {
                    final(self).entries() == es.update(k, (id, stamped))
                } else {
                    final(self).entries() == es.push((id, stamped))
                }
            }),
    {
        let mut handles = handles;
        proof {
            crate::comm::lemma_peer_comms_view(&handles);
        }
        let b = self.next_epoch;
        handles.block_announcements.set_epoch(b);
        handles.block_solicitations.set_epoch(b + 1);
        handles.messages.set_epoch(b + 2);
        handles.gossip.set_epoch(b + 3);
        self.next_epoch = b + 4;
        let ghost stamped = handles@;
        proof {
            crate::comm::lemma_peer_comms_view(&handles);
            assert(stamped.block_announcements.epoch == b);
            assert(stamped.block_solicitations.epoch == b + 1);
            assert(stamped.messages.epoch == b + 2);
            assert(stamped.gossip.epoch == b + 3);
            assert(comms_epochs_lt(stamped, (b + 4) as u64));
        }
        let k = self.find_index(id);
        proof {
            lemma_wf_bound_mono(self.entries(), b, (b + 4) as u64);
        }
        if k < self.peers.len() {
            let _old_entry = self.peers.remove(k);
            self.peers.insert(k, (id, handles));
            proof {
                assert(self.peers@ =~= old(self).peers@.update(k as int, (id, handles)));
                assert(self.entries() =~= old(self).entries().update(k as int, (id, stamped)));
                lemma_wf_update(old(self).entries(), k as int, stamped, (b + 4) as u64);
            }
        } else {
            self.peers.push((id, handles));
            proof {
                assert(self.entries() =~= old(self).entries().push((id, stamped)));
                lemma_wf_push(old(self).entries(), id, stamped, (b + 4) as u64);
            }
        }
    }

    /// Looks up the record under `id`, creating an idle one when absent:
    /// the map tolerates subscription before a connection is registered.
    fn ensure_peer_comms(&mut self, id: NodeId) -> (k: usize)
        requires
            old(self).wf(),
        ensures
            final(self).wf(),
            final(self).epoch_bound() == old(self).epoch_bound(),
            k as int == find_peer(old(self).entries(), id),
            k <= old(self).entries().len(),
            k < final(self).entries().len(),
            final(self).entries()[k as int].0 == id,
            k < old(self).entries().len() ==> final(self).entries() == old(self).entries(),
            k == old(self).entries().len() ==> final(self).entries() == old(self).entries().push(
                (id, comms_idle()),
            ),
    {
        let k = self.find_index(id);
        if k == self.peers.len() {
            self.peers.push((id, PeerComms::new()));
            proof {
                assert(self.entries() =~= old(self).entries().push((id, comms_idle())));
                lemma_wf_push(old(self).entries(), id, comms_idle(), self.epoch_bound());
            }
        }
        k
    }

    /// The record at `k` with its messages channel freshly subscribed.
    pub open spec fn with_fresh_messages(
        es: Seq<(NodeId, PeerCommsModel)>,
        k: int,
        epoch: u64,
    ) -> Seq<(NodeId, PeerCommsModel)> {
        es.update(k, (es[k].0, PeerCommsModel { messages: channel_fresh(epoch), ..es[k].1 }))
    }

    /// The record at `k` with its gossip channel freshly subscribed.
    pub open spec fn with_fresh_gossip(
        es: Seq<(NodeId, PeerCommsModel)>,
        k: int,
        epoch: u64,
    ) -> Seq<(NodeId, PeerCommsModel)> {
        es.update(k, (es[k].0, PeerCommsModel { gossip: channel_fresh(epoch), ..es[k].1 }))
    }

    /// The record at `k` with both block channels freshly subscribed.
    pub open spec fn with_fresh_block_events(
        es: Seq<(NodeId, PeerCommsModel)>,
        k: int,
        ann_epoch: u64,
        sol_epoch: u64,
    ) -> Seq<(NodeId, PeerCommsModel)> {
        es.update(
            k,
            (
                es[k].0,
                PeerCommsModel {
                    block_announcements: channel_fresh(ann_epoch),
                    block_solicitations: channel_fresh(sol_epoch),
                    ..es[k].1
                },
            ),
        )
    }

    /// The record base the subscription operations work on: the existing
    /// records, extended with an idle record for `id` when none exists.
    pub open spec fn ensured(
        es: Seq<(NodeId, PeerCommsModel)>,
        id: NodeId,
    ) -> Seq<(NodeId, PeerCommsModel)> {
        if find_peer(es, id) < es.len() {
            es
        } else {
            es.push((id, comms_idle()))
        }
    }

    /// Opens a fresh fragment-message stream from the peer, creating the
    /// record when absent; any earlier message stream of the peer is
    /// superseded.
    pub fn subscribe_to_messages(&mut self, id: NodeId) -> (s: Subscription)
        requires
            old(self).wf(),
            old(self).epoch_bound() < u64::MAX,
        ensures
            final(self).wf(),
            s@ == old(self).epoch_bound(),
            final(self).epoch_bound() == old(self).epoch_bound() + 1,
            final(self).entries() == PeerMap::with_fresh_messages(
                PeerMap::ensured(old(self).entries(), id),
                find_peer(old(self).entries(), id),
                old(self).epoch_bound(),
            ),
    {
        let e = self.next_epoch;
        let k = self.ensure_peer_comms(id);
        self.next_epoch = e + 1;
        let ghost base = self.entries();
        let mut entry = self.peers.remove(k);
        proof {
            crate::comm::lemma_peer_comms_view(&entry.1);
        }
        let s = entry.1.messages.subscribe_with(e);
        proof {
            crate::comm::lemma_peer_comms_view(&entry.1);
        }
        self.peers.insert(k, entry);
        proof {
            assert(self.entries() =~= base.update(
                k as int,
                (base[k as int].0, PeerCommsModel {
                    messages: channel_fresh(e),
                    ..base[k as int].1
                }),
            ));
            lemma_wf_bound_mono(base, e, (e + 1) as u64);
            lemma_wf_update(base, k as int, PeerCommsModel {
                messages: channel_fresh(e),
                ..base[k as int].1
            }, (e + 1) as u64);
        }
        s
    }

    /// Opens a fresh gossip stream from the peer, creating the record
    /// when absent; any earlier gossip stream of the peer is superseded.
    pub fn subscribe_to_gossip(&mut self, id: NodeId) -> (s: Subscription)
        requires
            old(self).wf(),
            old(self).epoch_bound() < u64::MAX,
        ensures
            final(self).wf(),
            s@ == old(self).epoch_bound(),
            final(self).epoch_bound() == old(self).epoch_bound() + 1,
            final(self).entries() == PeerMap::with_fresh_gossip(
                PeerMap::ensured(old(self).entries(), id),
                find_peer(old(self).entries(), id),
                old(self).epoch_bound(),
            ),
    {
        let e = self.next_epoch;
        let k = self.ensure_peer_comms(id);
        self.next_epoch = e + 1;
        let ghost base = self.entries();
        let mut entry = self.peers.remove(k);
        proof {
            crate::comm::lemma_peer_comms_view(&entry.1);
        }
        let s = entry.1.gossip.subscribe_with(e);
        proof {
            crate::comm::lemma_peer_comms_view(&entry.1);
        }
        self.peers.insert(k, entry);
        proof {
            assert(self.entries() =~= base.update(
                k as int,
                (base[k as int].0, PeerCommsModel {
                    gossip: channel_fresh(e),
                    ..base[k as int].1
                }),
            ));
            lemma_wf_bound_mono(base, e, (e + 1) as u64);
            lemma_wf_update(base, k as int, PeerCommsModel {
                gossip: channel_fresh(e),
                ..base[k as int].1
            }, (e + 1) as u64);
        }
        s
    }

    /// Opens the merged block-event stream of the peer: announcements and
    /// solicitations, polled fairly. Creates the record when absent and
    /// supersedes any earlier streams on either topic.
    pub fn subscribe_to_block_events(&mut self, id: NodeId) -> (s: BlockEventSubscription)
        requires
            old(self).wf(),
            old(self).epoch_bound() < u64::MAX - 1,
        ensures
            final(self).wf(),
            s.node_spec() == id,
            s.announces_spec() == old(self).epoch_bound(),
            s.solicits_spec() == old(self).epoch_bound() + 1,
            s.prefer_solicit_spec() == false,
            final(self).epoch_bound() == old(self).epoch_bound() + 2,
            final(self).entries() == PeerMap::with_fresh_block_events(
                PeerMap::ensured(old(self).entries(), id),
                find_peer(old(self).entries(), id),
                old(self).epoch_bound(),
                (old(self).epoch_bound() + 1) as u64,
            ),
    {
        let e = self.next_epoch;
        let k = self.ensure_peer_comms(id);
        self.next_epoch = e + 2;
        let ghost base = self.entries();
        let mut entry = self.peers.remove(k);
        proof {
            crate::comm::lemma_peer_comms_view(&entry.1);
        }
        let announces = entry.1.block_announcements.subscribe_with(e);
        let solicits = entry.1.block_solicitations.subscribe_with(e + 1);
        proof {
            crate::comm::lemma_peer_comms_view(&entry.1);
        }
        self.peers.insert(k, entry);
        proof {
            assert(self.entries() =~= base.update(
                k as int,
                (base[k as int].0, PeerCommsModel {
                    block_announcements: channel_fresh(e),
                    block_solicitations: channel_fresh((e + 1) as u64),
                    ..base[k as int].1
                }),
            ));
            lemma_wf_bound_mono(base, e, (e + 2) as u64);
            lemma_wf_update(base, k as int, PeerCommsModel {
                block_announcements: channel_fresh(e),
                block_solicitations: channel_fresh((e + 1) as u64),
                ..base[k as int].1
            }, (e + 2) as u64);
        }
        BlockEventSubscription::assemble(id, announces, solicits)
    }

    /// Fan-out of one payload to each listed target, under one exclusive
    /// hold of the map. Reports the targets that were not reached; a
    /// target whose record broke is removed (see `spec_propagate_step`).
    fn propagate_with(&mut self, nodes: Vec<Node>, item: PropagateItem) -> (r: Result<
        (),
        Vec<Node>,
    >)
        requires
            old(self).wf(),
        ensures
            final(self).wf(),
            final(self).epoch_bound() == old(self).epoch_bound(),
            final(self).entries() == spec_propagate(old(self).entries(), nodes@, item).entries,
            r is Ok <==> spec_propagate(old(self).entries(), nodes@, item).unreached.len() == 0,
            r matches Err(v) ==> v@ == spec_propagate(old(self).entries(), nodes@, item).unreached,
    {
        let ghost entries0 = self.entries();
        let ghost total = spec_propagate(entries0, nodes@, item);
        let mut unreached: Vec<Node> = Vec::new();
        let n = nodes.len();
        let mut i: usize = 0;
        proof {
            assert(nodes@.skip(0) =~= nodes@);
            assert(unreached@ + total.unreached =~= total.unreached);
        }
        while i < n
            invariant
                self.wf(),
                i <= n,
                n == nodes@.len(),
                self.epoch_bound() == old(self).epoch_bound(),
                total == spec_propagate(entries0, nodes@, item),
                total.entries == spec_propagate(self.entries(), nodes@.skip(i as int), item).entries,
                total.unreached == unreached@ + spec_propagate(
                    self.entries(),
                    nodes@.skip(i as int),
                    item,
                ).unreached,
            decreases n - i,
        {
            let node = nodes[i];
            let ghost pre_entries = self.entries();
            let ghost rest = spec_propagate(pre_entries, nodes@.skip(i as int), item);
            let ghost step = spec_propagate_step(pre_entries, node, item);
            proof {
                assert(nodes@.skip(i as int).len() > 0);
                assert(nodes@.skip(i as int)[0] == nodes@[i as int]);
                assert(nodes@.skip(i as int).drop_first() =~= nodes@.skip(i as int + 1));
                lemma_step_wf(pre_entries, node, item, self.epoch_bound());
            }
            let ghost rest2 = spec_propagate(step.entries, nodes@.skip(i as int + 1), item);
            let k = self.find_index(node.id());
            if k == self.peers.len() {
                let ghost un0 = unreached@;
                unreached.push(node);
                proof {
                    assert(step.entries == pre_entries);
                    assert(step.unreached =~= seq![node]);
                    assert(unreached@ + rest2.unreached
                        =~= un0 + (step.unreached + rest2.unreached));
                }
            } else {
                let mut entry = self.peers.remove(k);
                proof {
                    assert(entry.1@ == pre_entries[k as int].1);
                }
                let send_result = entry.1.try_send_item(item);
                match send_result {
                    Ok(()) => {
                        self.peers.insert(k, entry);
                        proof {
                            let pc = spec_send_item(pre_entries[k as int].1, item).0;
                            assert(self.entries() =~= pre_entries.update(
                                k as int,
                                (pre_entries[k as int].0, pc),
                            ));
                            assert(step.entries == self.entries());
                            assert(step.unreached =~= Seq::<Node>::empty());
                            assert(unreached@ + rest2.unreached
                                =~= unreached@ + (step.unreached + rest2.unreached));
                            lemma_wf_update(pre_entries, k as int, pc, self.epoch_bound());
                        }
                    }
                    Err(kind) => match kind {
                        ErrorKind::NotSubscribed => {
                            self.peers.insert(k, entry);
                            let ghost un0 = unreached@;
                            unreached.push(node);
                            proof {
                                assert(self.entries() =~= pre_entries);
                                assert(step.entries == pre_entries);
                                assert(step.unreached =~= seq![node]);
                                assert(unreached@ + rest2.unreached
                                    =~= un0 + (step.unreached + rest2.unreached));
                            }
                        }
                        _ => {
                            let ghost un0 = unreached@;
                            unreached.push(node);
                            proof {
                                assert(self.entries() =~= pre_entries.remove(k as int));
                                assert(step.entries == self.entries());
                                assert(step.unreached =~= seq![node]);
                                assert(unreached@ + rest2.unreached
                                    =~= un0 + (step.unreached + rest2.unreached));
                                lemma_wf_remove(pre_entries, k as int, self.epoch_bound());
                            }
                        }
                    },
                }
            }
            i = i + 1;
        }
        proof {
            assert(nodes@.skip(n as int) =~= Seq::<Node>::empty());
            assert(total.unreached =~= unreached@);
        }
        if unreached.len() == 0 {
            Ok(())
        } else {
            Err(unreached)
        }
    }

    /// Announces a block header to each listed peer, best effort; the
    /// result lists the peers that were not reached, if any.
    pub fn propagate_block(&mut self, nodes: Vec<Node>, header: Header) -> (r: Result<
        (),
        Vec<Node>,
    >)
        requires
            old(self).wf(),
        ensures
            final(self).wf(),
            final(self).epoch_bound() == old(self).epoch_bound(),
            final(self).entries() == spec_propagate(
                old(self).entries(),
                nodes@,
                PropagateItem::BlockAnnouncement(header),
            ).entries,
            r is Ok <==> spec_propagate(
                old(self).entries(),
                nodes@,
                PropagateItem::BlockAnnouncement(header),
            ).unreached.len() == 0,
            r matches Err(v) ==> v@ == spec_propagate(
                old(self).entries(),
                nodes@,
                PropagateItem::BlockAnnouncement(header),
            ).unreached,
    {
        self.propagate_with(nodes, PropagateItem::BlockAnnouncement(header))
    }

    /// Hands a mempool-bound message to each listed peer, best effort;
    /// the result lists the peers that were not reached, if any.
    pub fn propagate_message(&mut self, nodes: Vec<Node>, message: Message) -> (r: Result<
        (),
        Vec<Node>,
    >)
        requires
            old(self).wf(),
        ensures
            final(self).wf(),
            final(self).epoch_bound() == old(self).epoch_bound(),
            final(self).entries() == spec_propagate(
                old(self).entries(),
                nodes@,
                PropagateItem::Message(message),
            ).entries,
            r is Ok <==> spec_propagate(
                old(self).entries(),
                nodes@,
                PropagateItem::Message(message),
            ).unreached.len() == 0,
            r matches Err(v) ==> v@ == spec_propagate(
                old(self).entries(),
                nodes@,
                PropagateItem::Message(message),
            ).unreached,
    {
        self.propagate_with(nodes, PropagateItem::Message(message))
    }

    /// Hands a gossip payload to one peer, best effort. The payload is
    /// surrendered back when the peer is unknown or its channel refused
    /// it; a broken channel (closed, overflow, unexpected) removes the
    /// whole record, while a merely unsubscribed topic leaves it in place.
    pub fn propagate_gossip_to(&mut self, target: NodeId, gossip: Gossip) -> (r: Result<
        (),
        Gossip,
    >)
        requires
            old(self).wf(),
        ensures
            final(self).wf(),
            final(self).epoch_bound() == old(self).epoch_bound(),
            r matches Err(g) ==> g == gossip,
            ({
                let es = old(self).entries();
                let k = find_peer(es, target);
                if k >= es.len() {
                    final(self).entries() == es && r is Err
                } else {
                    let outcome = spec_send(es[k].1.gossip, gossip).1;
                    match outcome {
                        Option::None => r is Ok && final(self).entries() == es.update(
                            k,
                            (es[k].0, PeerCommsModel { gossip: spec_send(es[k].1.gossip, gossip).0, ..es[k].1 }),
                        ),
                        Option::Some(ErrorKind::NotSubscribed) => r is Err && final(self).entries()
                            == es,
                        Option::Some(_) => r is Err && final(self).entries() == es.remove(k),
                    }
                }
            }),
    {
        let k = self.find_index(target);
        if k == self.peers.len() {
            return Err(gossip);
        }
        let ghost es = self.entries();
        let mut entry = self.peers.remove(k);
        proof {
            assert(entry.1@ == es[k as int].1);
        }
        match entry.1.try_send_gossip(gossip) {
            Ok(()) => {
                let ghost pc = entry.1@;
                self.peers.insert(k, entry);
                proof {
                    assert(self.entries() =~= es.update(k as int, (es[k as int].0, pc)));
                    assert(pc.gossip.epoch == es[k as int].1.gossip.epoch);
                    lemma_wf_update(es, k as int, pc, self.epoch_bound());
                }
                Ok(())
            }
            Err(e) => {
                let keep = match e.kind() {
                    ErrorKind::NotSubscribed => true,
                    _ => false,
                };
                if keep {
                    self.peers.insert(k, entry);
                    proof {
                        assert(self.entries() =~= es);
                    }
                } else {
                    proof {
                        assert(self.entries() =~= es.remove(k as int));
                        lemma_wf_remove(es, k as int, self.epoch_bound());
                    }
                }
                Err(e.into_item())
            }
        }
    }

    /// Asks one peer for the blocks with the given hashes, best effort
    /// and low priority: on any failure — unknown peer, unsubscribed
    /// topic, full buffer, closed stream — the request is dropped and
    /// the record is left in place.
    pub fn solicit_blocks(&mut self, node_id: NodeId, hashes: Vec<HeaderHash>)
        requires
            old(self).wf(),
        ensures
            final(self).wf(),
            final(self).epoch_bound() == old(self).epoch_bound(),
            ({
                let es = old(self).entries();
                let k = find_peer(es, node_id);
                if k >= es.len() {
                    final(self).entries() == es
                } else {
                    final(self).entries() == es.update(
                        k,
                        (
                            es[k].0,
                            PeerCommsModel {
                                block_solicitations: spec_send(
                                    es[k].1.block_solicitations,
                                    hashes,
                                ).0,
                                ..es[k].1
                            },
                        ),
                    )
                }
            }),
    {
        let k = self.find_index(node_id);
        if k == self.peers.len() {
            return;
        }
        let ghost es = self.entries();
        let mut entry = self.peers.remove(k);
        proof {
            assert(entry.1@ == es[k as int].1);
        }
        let _ = entry.1.try_send_block_solicitation(hashes);
        let ghost pc = entry.1@;
        self.peers.insert(k, entry);
        proof {
            assert(self.entries() =~= es.update(k as int, (es[k as int].0, pc)));
            assert(pc.block_solicitations.epoch == es[k as int].1.block_solicitations.epoch);
            lemma_wf_update(es, k as int, pc, self.epoch_bound());
        }
    }

    /// Polls the fragment-message stream opened from `id`; the stream has
    /// ended when the peer's record is gone or the token was superseded.
    pub fn poll_messages(&mut self, id: NodeId, sub: &Subscription) -> (r: StreamPoll<Message>)
        requires
            old(self).wf(),
        ensures
            final(self).wf(),
            final(self).epoch_bound() == old(self).epoch_bound(),
            ({
                let es = old(self).entries();
                let k = find_peer(es, id);
                if k >= es.len() {
                    final(self).entries() == es && r == StreamPoll::<Message>::Ended
                } else {
                    r == spec_poll(es[k].1.messages, sub@).1 && final(self).entries() == es.update(
                        k,
                        (
                            es[k].0,
                            PeerCommsModel { messages: spec_poll(es[k].1.messages, sub@).0, ..es[k].1 },
                        ),
                    )
                }
            }),
    {
        let k = self.find_index(id);
        if k == self.peers.len() {
            return StreamPoll::Ended;
        }
        let ghost es = self.entries();
        let mut entry = self.peers.remove(k);
        proof {
            assert(entry.1@ == es[k as int].1);
            crate::comm::lemma_peer_comms_view(&entry.1);
        }
        let r = entry.1.messages.poll(sub);
        proof {
            crate::comm::lemma_peer_comms_view(&entry.1);
        }
        let ghost pc = entry.1@;
        self.peers.insert(k, entry);
        proof {
            assert(self.entries() =~= es.update(k as int, (es[k as int].0, pc)));
            assert(pc.messages.epoch == es[k as int].1.messages.epoch);
            lemma_wf_update(es, k as int, pc, self.epoch_bound());
        }
        r
    }

    /// Polls the gossip stream opened from `id`.
    pub fn poll_gossip(&mut self, id: NodeId, sub: &Subscription) -> (r: StreamPoll<Gossip>)
        requires
            old(self).wf(),
        ensures
            final(self).wf(),
            final(self).epoch_bound() == old(self).epoch_bound(),
            ({
                let es = old(self).entries();
                let k = find_peer(es, id);
                if k >= es.len() {
                    final(self).entries() == es && r == StreamPoll::<Gossip>::Ended
                } else {
                    r == spec_poll(es[k].1.gossip, sub@).1 && final(self).entries() == es.update(
                        k,
                        (
                            es[k].0,
                            PeerCommsModel { gossip: spec_poll(es[k].1.gossip, sub@).0, ..es[k].1 },
                        ),
                    )
                }
            }),
    {
        let k = self.find_index(id);
        if k == self.peers.len() {
            return StreamPoll::Ended;
        }
        let ghost es = self.entries();
        let mut entry = self.peers.remove(k);
        proof {
            assert(entry.1@ == es[k as int].1);
            crate::comm::lemma_peer_comms_view(&entry.1);
        }
        let r = entry.1.gossip.poll(sub);
        proof {
            crate::comm::lemma_peer_comms_view(&entry.1);
        }
        let ghost pc = entry.1@;
        self.peers.insert(k, entry);
        proof {
            assert(self.entries() =~= es.update(k as int, (es[k as int].0, pc)));
            assert(pc.gossip.epoch == es[k as int].1.gossip.epoch);
            lemma_wf_update(es, k as int, pc, self.epoch_bound());
        }
        r
    }

    /// Polls the merged block-event stream of the peer it was opened from.
    pub fn poll_block_event(&mut self, sub: &mut BlockEventSubscription) -> (r: StreamPoll<
        BlockEvent,
    >)
        requires
            old(self).wf(),
        ensures
            final(self).wf(),
            final(self).epoch_bound() == old(self).epoch_bound(),
            final(sub).node_spec() == old(sub).node_spec(),
            final(sub).announces_spec() == old(sub).announces_spec(),
            final(sub).solicits_spec() == old(sub).solicits_spec(),
            ({
                let es = old(self).entries();
                let k = find_peer(es, old(sub).node_spec());
                if k >= es.len() {
                    final(self).entries() == es && r == StreamPoll::<BlockEvent>::Ended
                        && final(sub).prefer_solicit_spec() == old(sub).prefer_solicit_spec()
                } else {
                    let polled = spec_poll_event(
                        es[k].1,
                        old(sub).announces_spec(),
                        old(sub).solicits_spec(),
                        old(sub).prefer_solicit_spec(),
                    );
                    r == polled.2 && final(sub).prefer_solicit_spec() == polled.1
                        && final(self).entries() == es.update(k, (es[k].0, polled.0))
                }
            }),
    {
        let k = self.find_index(sub.node_id());
        if k == self.peers.len() {
            return StreamPoll::Ended;
        }
        let ghost es = self.entries();
        let mut entry = self.peers.remove(k);
        proof {
            assert(entry.1@ == es[k as int].1);
        }
        let r = entry.1.poll_block_event(sub);
        let ghost pc = entry.1@;
        self.peers.insert(k, entry);
        proof {
            assert(self.entries() =~= es.update(k as int, (es[k as int].0, pc)));
            assert(pc.block_announcements.epoch == es[k as int].1.block_announcements.epoch);
            assert(pc.block_solicitations.epoch == es[k as int].1.block_solicitations.epoch);
            lemma_wf_update(es, k as int, pc, self.epoch_bound());
        }
        r
    }

    /// Drops the consumer end of the message stream opened from `id`:
    /// the producer observes `SubscriptionClosed` on its next send.
    pub fn close_messages(&mut self, id: NodeId, sub: &Subscription)
        requires
            old(self).wf(),
        ensures
            final(self).wf(),
            final(self).epoch_bound() == old(self).epoch_bound(),
            ({
                let es = old(self).entries();
                let k = find_peer(es, id);
                if k >= es.len() {
                    final(self).entries() == es
                } else {
                    final(self).entries() == es.update(
                        k,
                        (
                            es[k].0,
                            PeerCommsModel { messages: spec_close(es[k].1.messages, sub@), ..es[k].1 },
                        ),
                    )
                }
            }),
    {
        let k = self.find_index(id);
        if k == self.peers.len() {
            return;
        }
        let ghost es = self.entries();
        let mut entry = self.peers.remove(k);
        proof {
            assert(entry.1@ == es[k as int].1);
            crate::comm::lemma_peer_comms_view(&entry.1);
        }
        entry.1.messages.close(sub);
        proof {
            crate::comm::lemma_peer_comms_view(&entry.1);
        }
        let ghost pc = entry.1@;
        self.peers.insert(k, entry);
        proof {
            assert(self.entries() =~= es.update(k as int, (es[k as int].0, pc)));
            assert(pc.messages.epoch == es[k as int].1.messages.epoch);
            lemma_wf_update(es, k as int, pc, self.epoch_bound());
        }
    }

    /// Drops the consumer end of a merged block-event stream: both the
    /// announcement and the solicitation producer observe the closure.
    pub fn close_block_events(&mut self, sub: &BlockEventSubscription)
        requires
            old(self).wf(),
        ensures
            final(self).wf(),
            final(self).epoch_bound() == old(self).epoch_bound(),
            ({
                let es = old(self).entries();
                let k = find_peer(es, sub.node_spec());
                if k >= es.len() {
                    final(self).entries() == es
                } else {
                    final(self).entries() == es.update(
                        k,
                        (
                            es[k].0,
                            PeerCommsModel {
                                block_announcements: spec_close(
                                    es[k].1.block_announcements,
                                    sub.announces_spec(),
                                ),
                                block_solicitations: spec_close(
                                    es[k].1.block_solicitations,
                                    sub.solicits_spec(),
                                ),
                                ..es[k].1
                            },
                        ),
                    )
                }
            }),
    {
        let k = self.find_index(sub.node_id());
        if k == self.peers.len() {
            return;
        }
        let ghost es = self.entries();
        let mut entry = self.peers.remove(k);
        proof {
            assert(entry.1@ == es[k as int].1);
            crate::comm::lemma_peer_comms_view(&entry.1);
        }
        entry.1.block_announcements.close(sub.announces_token());
        entry.1.block_solicitations.close(sub.solicits_token());
        proof {
            crate::comm::lemma_peer_comms_view(&entry.1);
        }
        let ghost pc = entry.1@;
        self.peers.insert(k, entry);
        proof {
            assert(self.entries() =~= es.update(k as int, (es[k as int].0, pc)));
            assert(pc.block_announcements.epoch == es[k as int].1.block_announcements.epoch);
            assert(pc.block_solicitations.epoch == es[k as int].1.block_solicitations.epoch);
            lemma_wf_update(es, k as int, pc, self.epoch_bound());
        }
    }
}

} // verus!
