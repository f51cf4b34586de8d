//! Per-peer communication handles: one bounded subscription channel per
//! topic, with best-effort non-blocking sends, consumer-drop detection at
//! the producer, and supersession of a stream when the same topic is
//! subscribed again.
//!
//! A channel buffers at most [`crate::BUFFER_LEN`] items. The producer
//! side lives in a [`CommHandle`]; the consumer side is a [`Subscription`]
//! token that polls the handle. A token is current while its epoch equals
//! the handle's: subscribing again bumps the epoch, so the earlier
//! stream ends on its next poll and the new stream sees only items sent
//! after the re-subscription.

use vstd::prelude::*;
use crate::BUFFER_LEN;
use crate::blockcfg::{Header, HeaderHash, Message};
use crate::topology::Node;

verus! {

/// Why a best-effort send did not deliver its item.
#[derive(Copy, Clone, Debug, PartialEq, Eq)]
pub enum ErrorKind {
    /// No consumer has registered for the topic; the peer record is kept.
    NotSubscribed,
    /// The consumer end was dropped; the peer record is removed on
    /// propagation paths.
    SubscriptionClosed,
    /// The consumer is too slow to keep up; treated as fatal on
    /// propagation paths, merely dropped for low-priority requests.
    StreamOverflow,
    /// Defensive catch-all; never produced by the channels here.
    Unexpected,
}

/// A failed best-effort send: the kind of failure together with the
/// undelivered item, surrendered back to the caller.
pub struct PropagateError<T> {
    kind: ErrorKind,
    item: T,
}

impl<T> PropagateError<T> {
    pub closed spec fn kind_spec(&self) -> ErrorKind {
        self.kind
    }

    pub closed spec fn item_spec(&self) -> T {
        self.item
    }

    pub fn kind(&self) -> (k: ErrorKind)
        ensures
            k == self.kind_spec(),
    {
        self.kind
    }

    pub fn into_item(self) -> (t: T)
        ensures
            t == self.item_spec(),
    {
        self.item
    }
}

/// The state of one subscription channel, as contracts see it.
pub ghost struct ChannelModel<T> {
    /// Epoch of the current subscription; bumped on every subscribe.
    pub epoch: u64,
    /// Whether a consumer has ever registered (and was not superseded).
    pub subscribed: bool,
    /// Whether the consumer end was dropped.
    pub closed: bool,
    /// The buffered items, oldest first.
    pub queue: Seq<T>,
}

/// A channel that has never been subscribed, with the given epoch.
pub open spec fn channel_idle<T>(epoch: u64) -> ChannelModel<T> {
    ChannelModel { epoch, subscribed: false, closed: false, queue: Seq::empty() }
}

/// A freshly subscribed channel with the given epoch.
pub open spec fn channel_fresh<T>(epoch: u64) -> ChannelModel<T> {
    ChannelModel { epoch, subscribed: true, closed: false, queue: Seq::empty() }
}

/// What a best-effort send does: refused without a subscriber, after the
/// consumer dropped, or on a full buffer; otherwise the item is appended.
pub open spec fn spec_send<T>(c: ChannelModel<T>, item: T) -> (ChannelModel<T>, Option<ErrorKind>) {
    if !c.subscribed {
        (c, Some(ErrorKind::NotSubscribed))
    } else if c.closed {
        (c, Some(ErrorKind::SubscriptionClosed))
    } else if c.queue.len() >= BUFFER_LEN {
        (c, Some(ErrorKind::StreamOverflow))
    } else {
        (ChannelModel { queue: c.queue.push(item), ..c }, None)
    }
}

/// Whether a consumer token is current for the channel and the stream is
/// still open on both ends.
pub open spec fn spec_live<T>(c: ChannelModel<T>, token: u64) -> bool {
    c.subscribed && !c.closed && c.epoch == token
}

/// What one consumer poll does: a stale or closed stream has ended; an
/// empty buffer is pending; otherwise the oldest item is taken.
pub open spec fn spec_poll<T>(c: ChannelModel<T>, token: u64) -> (ChannelModel<T>, StreamPoll<T>) {
    if !spec_live(c, token) {
        (c, StreamPoll::Ended)
    } else if c.queue.len() == 0 {
        (c, StreamPoll::Pending)
    } else {
        (ChannelModel { queue: c.queue.drop_first(), ..c }, StreamPoll::Ready(c.queue[0]))
    }
}

/// What dropping the consumer end does: a current token closes the
/// channel at the producer; a stale one changes nothing.
pub open spec fn spec_close<T>(c: ChannelModel<T>, token: u64) -> ChannelModel<T> {
    if c.subscribed && c.epoch == token {
        ChannelModel { closed: true, ..c }
    } else {
        c
    }
}

/// Consumer end of a subscription channel: a token that polls the handle
/// it was subscribed from. It stays current until the topic is subscribed
/// again or the record holding the handle is removed.
#[derive(Copy, Clone, Debug)]
pub struct Subscription {
    epoch: u64,
}

impl View for Subscription {
    type V = u64;

    closed spec fn view(&self) -> u64 {
        self.epoch
    }
}

/// Outcome of polling a subscription stream.
#[derive(Copy, Clone, Debug, PartialEq, Eq)]
pub enum StreamPoll<T> {
    /// The oldest buffered item.
    Ready(T),
    /// Nothing buffered yet; the stream is still open.
    Pending,
    /// The stream has ended: the producer is gone or the subscription was
    /// superseded; no further items will arrive.
    Ended,
}

/// Producer side of one topic's subscription channel.
pub struct CommHandle<T> {
    epoch: u64,
    state: SubscriptionState<T>,
}

enum SubscriptionState<T> {
    NotSubscribed,
    Subscribed { queue: Vec<T>, closed: bool },
}

impl<T> View for CommHandle<T> {
    type V = ChannelModel<T>;

    closed spec fn view(&self) -> ChannelModel<T> {
        match self.state {
            SubscriptionState::NotSubscribed => ChannelModel {
                epoch: self.epoch,
                subscribed: false,
                closed: false,
                queue: Seq::empty(),
            },
            SubscriptionState::Subscribed { queue, closed } => ChannelModel {
                epoch: self.epoch,
                subscribed: true,
                closed,
                queue: queue@,
            },
        }
    }
}

impl<T> Default for CommHandle<T> {
    /// A handle nobody has subscribed to yet.
    fn default() -> (h: CommHandle<T>)
        ensures
            h@ == channel_idle::<T>(0),
    {
        CommHandle { epoch: 0, state: SubscriptionState::NotSubscribed }
    }
}

impl<T> CommHandle<T> {
    pub fn new() -> (h: CommHandle<T>)
        ensures
            h@ == channel_idle::<T>(0),
    {
        CommHandle { epoch: 0, state: SubscriptionState::NotSubscribed }
    }

    /// Registers a consumer and returns its token. Any earlier
    /// subscription on this handle is superseded: its stream terminates
    /// on its next poll, and the new stream starts empty.
    pub fn subscribe(&mut self) -> (s: Subscription)
        requires
            old(self)@.epoch < u64::MAX,
        ensures
            final(self)@ == channel_fresh::<T>((old(self)@.epoch + 1) as u64),
            s@ == old(self)@.epoch + 1,
    {
        let e = self.epoch + 1;
        self.subscribe_with(e)
    }

    /// Registers a consumer under a caller-chosen epoch; the peer map
    /// uses this to keep epochs fresh across all records.
    pub(crate) fn subscribe_with(&mut self, epoch: u64) -> (s: Subscription)
        ensures
            final(self)@ == channel_fresh::<T>(epoch),
            s@ == epoch,
    {
        self.epoch = epoch;
        self.state = SubscriptionState::Subscribed { queue: Vec::new(), closed: false };
        Subscription { epoch }
    }

    /// Gives the channel a fresh epoch without touching its buffer or
    /// subscription state; earlier consumer tokens become stale.
    pub(crate) fn set_epoch(&mut self, epoch: u64)
        ensures
            final(self)@ == (ChannelModel { epoch, ..old(self)@ }),
    {
        self.epoch = epoch;
    }

    /// Best-effort send: never blocks. On failure the item is surrendered
    /// back inside the error; the buffer holds at most `BUFFER_LEN` items.
    pub fn try_send(&mut self, item: T) -> (r: Result<(), PropagateError<T>>)
        ensures
            final(self)@ == spec_send(old(self)@, item).0,
            r is Ok <==> spec_send(old(self)@, item).1 is None,
            r matches Err(e) ==> Some(e.kind_spec()) == spec_send(old(self)@, item).1
                && e.item_spec() == item,
    {
        match &mut self.state {
            SubscriptionState::NotSubscribed => Err(PropagateError {
                kind: ErrorKind::NotSubscribed,
                item,
            }),
            SubscriptionState::Subscribed { queue, closed } => {
                if *closed {
                    Err(PropagateError { kind: ErrorKind::SubscriptionClosed, item })
                } else if queue.len() >= BUFFER_LEN {
                    Err(PropagateError { kind: ErrorKind::StreamOverflow, item })
                } else {
                    queue.push(item);
                    Ok(())
                }
            }
        }
    }

    /// Consumer poll: takes the oldest buffered item, in send order.
    /// A stale token (superseded subscription) observes a clean end.
    pub fn poll(&mut self, sub: &Subscription) -> (r: StreamPoll<T>)
        ensures
            final(self)@ == spec_poll(old(self)@, sub@).0,
            r == spec_poll(old(self)@, sub@).1,
    {
        let token = sub.epoch;
        if self.epoch != token {
            return StreamPoll::Ended;
        }
        match &mut self.state {
            SubscriptionState::NotSubscribed => StreamPoll::Ended,
            SubscriptionState::Subscribed { queue, closed } => {
                if *closed {
                    StreamPoll::Ended
                } else if queue.len() == 0 {
                    StreamPoll::Pending
                } else {
                    let item = queue.remove(0);
                    assert(queue@ =~= old(self)@.queue.drop_first());
                    StreamPoll::Ready(item)
                }
            }
        }
    }

    /// Drops the consumer end: a later send observes `SubscriptionClosed`.
    pub fn close(&mut self, sub: &Subscription)
        ensures
            final(self)@ == spec_close(old(self)@, sub@),
    {
        if self.epoch == sub.epoch {
            match &mut self.state {
                SubscriptionState::NotSubscribed => {}
                SubscriptionState::Subscribed { queue: _, closed } => {
                    *closed = true;
                }
            }
        }
    }
}

/// The four topic channels of one peer, as contracts see them.
pub ghost struct PeerCommsModel {
    pub block_announcements: ChannelModel<Header>,
    pub block_solicitations: ChannelModel<Vec<HeaderHash>>,
    pub messages: ChannelModel<Message>,
    pub gossip: ChannelModel<Gossip>,
}

/// A record created before anything subscribed, all epochs zero.
pub open spec fn comms_idle() -> PeerCommsModel {
    PeerCommsModel {
        block_announcements: channel_idle(0),
        block_solicitations: channel_idle(0),
        messages: channel_idle(0),
        gossip: channel_idle(0),
    }
}

/// A payload a fan-out propagation can carry.
#[derive(Copy, Clone, Debug)]
pub enum PropagateItem {
    BlockAnnouncement(Header),
    Message(Message),
}

/// What a best-effort send of a fan-out payload does to a peer record.
pub open spec fn spec_send_item(
    pc: PeerCommsModel,
    item: PropagateItem,
) -> (PeerCommsModel, Option<ErrorKind>) {
    match item {
        PropagateItem::BlockAnnouncement(h) => {
            let (c, outcome) = spec_send(pc.block_announcements, h);
            (PeerCommsModel { block_announcements: c, ..pc }, outcome)
        }
        PropagateItem::Message(m) => {
            let (c, outcome) = spec_send(pc.messages, m);
            (PeerCommsModel { messages: c, ..pc }, outcome)
        }
    }
}

/// Opaque payload of peer-set exchange messages used for topology
/// maintenance.
#[derive(Clone, Debug, PartialEq, Eq)]
pub struct Gossip {
    pub nodes: Vec<Node>,
}

/// One event on a peer's merged block stream.
#[derive(Clone, Debug, PartialEq, Eq)]
pub enum BlockEvent {
    /// A block announcement: the new block's header.
    Announce(Header),
    /// A solicitation: the hashes of the blocks the peer is asked for.
    Solicit(Vec<HeaderHash>),
}

/// Consumer end of the merged block-event stream of one peer: the
/// announcement and solicitation streams, polled fairly; ordering between
/// the two is unspecified, within each it is first-in first-out.
pub struct BlockEventSubscription {
    pub(crate) node: crate::topology::NodeId,
    pub(crate) announces: Subscription,
    pub(crate) solicits: Subscription,
    pub(crate) prefer_solicit: bool,
}

impl BlockEventSubscription {
    pub closed spec fn node_spec(&self) -> crate::topology::NodeId {
        self.node
    }

    pub closed spec fn announces_spec(&self) -> u64 {
        self.announces@
    }

    pub closed spec fn solicits_spec(&self) -> u64 {
        self.solicits@
    }

    pub closed spec fn prefer_solicit_spec(&self) -> bool {
        self.prefer_solicit
    }

    /// The peer this merged stream was opened from.
    pub fn node_id(&self) -> (id: crate::topology::NodeId)
        ensures
            id == self.node_spec(),
    {
        self.node
    }

    pub(crate) fn announces_token(&self) -> (s: &Subscription)
        ensures
            s@ == self.announces_spec(),
    {
        &self.announces
    }

    pub(crate) fn solicits_token(&self) -> (s: &Subscription)
        ensures
            s@ == self.solicits_spec(),
    {
        &self.solicits
    }

    pub(crate) fn assemble(
        node: crate::topology::NodeId,
        announces: Subscription,
        solicits: Subscription,
    ) -> (s: BlockEventSubscription)
        ensures
            s.node_spec() == node,
            s.announces_spec() == announces@,
            s.solicits_spec() == solicits@,
            s.prefer_solicit_spec() == false,
    {
        BlockEventSubscription { node, announces, solicits, prefer_solicit: false }
    }
}

/// What one poll of the merged block-event stream does: the preferred
/// side is tried first and preference alternates after every item, so
/// neither stream starves; the merged stream ends when both have ended.
pub open spec fn spec_poll_event(
    pc: PeerCommsModel,
    ann_token: u64,
    sol_token: u64,
    prefer_solicit: bool,
) -> (PeerCommsModel, bool, StreamPoll<BlockEvent>) {
    let (a2, ra) = spec_poll(pc.block_announcements, ann_token);
    let (s2, rs) = spec_poll(pc.block_solicitations, sol_token);
    if !prefer_solicit {
        match ra {
            StreamPoll::Ready(h) => (
                PeerCommsModel { block_announcements: a2, ..pc },
                true,
                StreamPoll::Ready(BlockEvent::Announce(h)),
            ),
            _ => match rs {
                StreamPoll::Ready(v) => (
                    PeerCommsModel { block_solicitations: s2, ..pc },
                    false,
                    StreamPoll::Ready(BlockEvent::Solicit(v)),
                ),
                _ => if ra is Ended && rs is Ended {
                    (pc, prefer_solicit, StreamPoll::Ended)
                } else {
                    (pc, prefer_solicit, StreamPoll::Pending)
                },
            },
        }
    } else {
        match rs {
            StreamPoll::Ready(v) => (
                PeerCommsModel { block_solicitations: s2, ..pc },
                false,
                StreamPoll::Ready(BlockEvent::Solicit(v)),
            ),
            _ => match ra {
                StreamPoll::Ready(h) => (
                    PeerCommsModel { block_announcements: a2, ..pc },
                    true,
                    StreamPoll::Ready(BlockEvent::Announce(h)),
                ),
                _ => if ra is Ended && rs is Ended {
                    (pc, prefer_solicit, StreamPoll::Ended)
                } else {
                    (pc, prefer_solicit, StreamPoll::Pending)
                },
            },
        }
    }
}

/// The communication record of one connected peer: its four topic
/// channels. Removing the record ends all four consumer streams; a
/// record starts with no topic subscribed.
pub struct PeerComms {
    pub(crate) block_announcements: CommHandle<Header>,
    pub(crate) block_solicitations: CommHandle<Vec<HeaderHash>>,
    pub(crate) messages: CommHandle<Message>,
    pub(crate) gossip: CommHandle<Gossip>,
}

impl View for PeerComms {
    type V = PeerCommsModel;

    closed spec fn view(&self) -> PeerCommsModel {
        PeerCommsModel {
            block_announcements: self.block_announcements@,
            block_solicitations: self.block_solicitations@,
            messages: self.messages@,
            gossip: self.gossip@,
        }
    }
}

/// A sequence of best-effort sends, in order.
pub open spec fn spec_send_all<T>(c: ChannelModel<T>, items: Seq<T>) -> ChannelModel<T>
    decreases items.len(),
{
    if items.len() == 0 {
        c
    } else {
        spec_send_all(spec_send(c, items[0]).0, items.drop_first())
    }
}

/// While there is room, every send succeeds and the buffer is exactly
/// the old buffer followed by the items, in send order: nothing is
/// reordered, duplicated or lost.
pub proof fn lemma_sends_fill<T>(c: ChannelModel<T>, items: Seq<T>)
    requires
        c.subscribed,
        !c.closed,
        c.queue.len() + items.len() <= BUFFER_LEN,
    ensures
        spec_send_all(c, items) == (ChannelModel { queue: c.queue + items, ..c }),
        forall|i: int| 0 <= i < items.len()
            ==> spec_send(spec_send_all(c, items.take(i)), #[trigger] items[i]).1 is None,
    decreases items.len(),
{
    if items.len() == 0 {
        assert(c.queue + items =~= c.queue);
        assert(spec_send_all(c, items) == (ChannelModel { queue: c.queue + items, ..c }));
    } else {
        let c1 = spec_send(c, items[0]).0;
        lemma_sends_fill(c1, items.drop_first());
        assert(c1.queue + items.drop_first() =~= c.queue + items);
        assert forall|i: int| 0 <= i < items.len() implies spec_send(
            spec_send_all(c, items.take(i)),
            #[trigger] items[i],
        ).1 is None by {
            if i == 0 {
                assert(items.take(0) =~= Seq::<T>::empty());
            } else {
                assert(items.take(i).drop_first() =~= items.drop_first().take(i - 1));
                assert(items.take(i).len() > 0);
                assert(spec_send_all(c, items.take(i))
                    == spec_send_all(c1, items.drop_first().take(i - 1)));
                assert(items[i] == items.drop_first()[i - 1]);
            }
        }
    }
}

/// Bounded buffering: from an empty buffer, `BUFFER_LEN` sends succeed,
/// and the next send overflows and changes nothing.
pub proof fn lemma_bounded_buffering<T>(c: ChannelModel<T>, items: Seq<T>, extra: T)
    requires
        c.subscribed,
        !c.closed,
        c.queue.len() == 0,
        items.len() == BUFFER_LEN,
    ensures
        spec_send_all(c, items).queue == items,
        forall|i: int| 0 <= i < items.len()
            ==> spec_send(spec_send_all(c, items.take(i)), #[trigger] items[i]).1 is None,
        spec_send(spec_send_all(c, items), extra).1 == Some(ErrorKind::StreamOverflow),
        spec_send(spec_send_all(c, items), extra).0 == spec_send_all(c, items),
{
    lemma_sends_fill(c, items);
    assert(c.queue + items =~= items);
}

/// Up to `n` consumer polls in a row, collecting the items they yield;
/// draining stops early at the first poll that yields no item.
pub open spec fn spec_drain<T>(c: ChannelModel<T>, token: u64, n: int) -> (ChannelModel<T>, Seq<T>)
    decreases n,
{
    if n <= 0 {
        (c, Seq::empty())
    } else {
        match spec_poll(c, token).1 {
            StreamPoll::Ready(x) => {
                let rest = spec_drain(spec_poll(c, token).0, token, n - 1);
                (rest.0, seq![x] + rest.1)
            }
            _ => (c, Seq::empty()),
        }
    }
}

/// First-in first-out per topic per peer, consumer side: draining a live
/// channel observes exactly the buffered items, in the order they were
/// sent, with no duplicates, and leaves the buffer empty.
pub proof fn lemma_consumer_observes_in_order<T>(c: ChannelModel<T>, token: u64)
    requires
        spec_live(c, token),
    ensures
        spec_drain(c, token, c.queue.len() as int).1 == c.queue,
        spec_drain(c, token, c.queue.len() as int).0 == (ChannelModel {
            queue: Seq::empty(),
            ..c
        }),
    decreases c.queue.len(),
{
    let n = c.queue.len() as int;
    if n == 0 {
        assert(spec_drain(c, token, 0).1 =~= c.queue);
        assert(spec_drain(c, token, 0).0 == (ChannelModel { queue: Seq::empty(), ..c }));
    } else {
        let c1 = spec_poll(c, token).0;
        lemma_consumer_observes_in_order(c1, token);
        assert(seq![c.queue[0]] + c1.queue =~= c.queue);
        assert(spec_drain(c, token, n).1 =~= c.queue);
    }
}

/// First-in first-out per topic per peer: sending `a` then `b` on a
/// live, empty channel and then polling twice yields `a` then `b` —
/// no reordering and no duplicates — and leaves the buffer empty.
pub proof fn lemma_fifo_order<T>(c: ChannelModel<T>, token: u64, a: T, b: T)
    requires
        spec_live(c, token),
        c.queue.len() == 0,
        2 <= BUFFER_LEN,
    ensures
        ({
            let c1 = spec_send(c, a).0;
            let c2 = spec_send(c1, b).0;
            let (c3, r1) = spec_poll(c2, token);
            let (c4, r2) = spec_poll(c3, token);
            &&& spec_send(c, a).1 is None
            &&& spec_send(c1, b).1 is None
            &&& r1 == StreamPoll::Ready(a)
            &&& r2 == StreamPoll::Ready(b)
            &&& c4.queue.len() == 0
        }),
{
    let c1 = spec_send(c, a).0;
    let c2 = spec_send(c1, b).0;
    assert(c2.queue =~= seq![a, b]);
    let c3 = spec_poll(c2, token).0;
    assert(c3.queue =~= seq![b]);
    assert(spec_poll(c3, token).0.queue =~= Seq::<T>::empty());
}

/// Re-subscribe supersession: once a topic is subscribed again under a
/// fresh epoch, the earlier consumer token observes the end of its
/// stream on its very next poll, and the new stream starts empty, so it
/// receives only items sent after the re-subscription.
pub proof fn lemma_resubscribe_supersedes<T>(old_token: u64, new_epoch: u64)
    requires
        old_token != new_epoch,
    ensures
        spec_poll(channel_fresh::<T>(new_epoch), old_token).1 == StreamPoll::<T>::Ended,
        spec_poll(channel_fresh::<T>(new_epoch), old_token).0 == channel_fresh::<T>(new_epoch),
        channel_fresh::<T>(new_epoch).queue.len() == 0,
{
}

/// The record's state is exactly the state of its four channels.
pub(crate) proof fn lemma_peer_comms_view(pc: &PeerComms)
    ensures
        pc@ == (PeerCommsModel {
            block_announcements: pc.block_announcements@,
            block_solicitations: pc.block_solicitations@,
            messages: pc.messages@,
            gossip: pc.gossip@,
        }),
{
}

impl PeerComms {
    pub fn new() -> (pc: PeerComms)
        ensures
            pc@ == comms_idle(),
    {
        PeerComms {
            block_announcements: CommHandle::new(),
            block_solicitations: CommHandle::new(),
            messages: CommHandle::new(),
            gossip: CommHandle::new(),
        }
    }

    pub fn try_send_block_announcement(&mut self, header: Header) -> (r: Result<
        (),
        PropagateError<Header>,
    >)
        ensures
            final(self)@ == (PeerCommsModel {
                block_announcements: spec_send(old(self)@.block_announcements, header).0,
                ..old(self)@
            }),
            r is Ok <==> spec_send(old(self)@.block_announcements, header).1 is None,
            r matches Err(e) ==> Some(e.kind_spec())
                == spec_send(old(self)@.block_announcements, header).1 && e.item_spec() == header,
    {
        self.block_announcements.try_send(header)
    }

    pub fn try_send_message(&mut self, message: Message) -> (r: Result<(), PropagateError<Message>>)
        ensures
            final(self)@ == (PeerCommsModel {
                messages: spec_send(old(self)@.messages, message).0,
                ..old(self)@
            }),
            r is Ok <==> spec_send(old(self)@.messages, message).1 is None,
            r matches Err(e) ==> Some(e.kind_spec()) == spec_send(old(self)@.messages, message).1
                && e.item_spec() == message,
    {
        self.messages.try_send(message)
    }

    pub fn try_send_gossip(&mut self, gossip: Gossip) -> (r: Result<(), PropagateError<Gossip>>)
        ensures
            final(self)@ == (PeerCommsModel {
                gossip: spec_send(old(self)@.gossip, gossip).0,
                ..old(self)@
            }),
            r is Ok <==> spec_send(old(self)@.gossip, gossip).1 is None,
            r matches Err(e) ==> Some(e.kind_spec()) == spec_send(old(self)@.gossip, gossip).1
                && e.item_spec() == gossip,
    {
        self.gossip.try_send(gossip)
    }

    pub fn try_send_block_solicitation(&mut self, hashes: Vec<HeaderHash>) -> (r: Result<
        (),
        PropagateError<Vec<HeaderHash>>,
    >)
        ensures
            final(self)@ == (PeerCommsModel {
                block_solicitations: spec_send(old(self)@.block_solicitations, hashes).0,
                ..old(self)@
            }),
            r is Ok <==> spec_send(old(self)@.block_solicitations, hashes).1 is None,
            r matches Err(e) ==> Some(e.kind_spec())
                == spec_send(old(self)@.block_solicitations, hashes).1 && e.item_spec() == hashes,
    {
        self.block_solicitations.try_send(hashes)
    }

    /// Sends a fan-out payload into the matching topic channel, reporting
    /// only the kind of failure; propagation does not resend the item.
    pub(crate) fn try_send_item(&mut self, item: PropagateItem) -> (r: Result<(), ErrorKind>)
        ensures
            final(self)@ == spec_send_item(old(self)@, item).0,
            r is Ok <==> spec_send_item(old(self)@, item).1 is None,
            r matches Err(k) ==> Some(k) == spec_send_item(old(self)@, item).1,
    {
        match item {
            PropagateItem::BlockAnnouncement(h) => match self.block_announcements.try_send(h) {
                Ok(()) => Ok(()),
                Err(e) => Err(e.kind()),
            },
            PropagateItem::Message(m) => match self.messages.try_send(m) {
                Ok(()) => Ok(()),
                Err(e) => Err(e.kind()),
            },
        }
    }

    pub fn subscribe_to_block_announcements(&mut self) -> (s: Subscription)
        requires
            old(self)@.block_announcements.epoch < u64::MAX,
        ensures
            final(self)@ == (PeerCommsModel {
                block_announcements: channel_fresh(
                    (old(self)@.block_announcements.epoch + 1) as u64,
                ),
                ..old(self)@
            }),
            s@ == old(self)@.block_announcements.epoch + 1,
    {
        self.block_announcements.subscribe()
    }

    pub fn subscribe_to_block_solicitations(&mut self) -> (s: Subscription)
        requires
            old(self)@.block_solicitations.epoch < u64::MAX,
        ensures
            final(self)@ == (PeerCommsModel {
                block_solicitations: channel_fresh(
                    (old(self)@.block_solicitations.epoch + 1) as u64,
                ),
                ..old(self)@
            }),
            s@ == old(self)@.block_solicitations.epoch + 1,
    {
        self.block_solicitations.subscribe()
    }

    pub fn subscribe_to_messages(&mut self) -> (s: Subscription)
        requires
            old(self)@.messages.epoch < u64::MAX,
        ensures
            final(self)@ == (PeerCommsModel {
                messages: channel_fresh((old(self)@.messages.epoch + 1) as u64),
                ..old(self)@
            }),
            s@ == old(self)@.messages.epoch + 1,
    {
        self.messages.subscribe()
    }

    pub fn subscribe_to_gossip(&mut self) -> (s: Subscription)
        requires
            old(self)@.gossip.epoch < u64::MAX,
        ensures
            final(self)@ == (PeerCommsModel {
                gossip: channel_fresh((old(self)@.gossip.epoch + 1) as u64),
                ..old(self)@
            }),
            s@ == old(self)@.gossip.epoch + 1,
    {
        self.gossip.subscribe()
    }

    /// Polls the merged block-event stream of this record.
    pub fn poll_block_event(&mut self, sub: &mut BlockEventSubscription) -> (r: StreamPoll<
        BlockEvent,
    >)
        ensures
            ({
                let (pc2, prefer2, res) = spec_poll_event(
                    old(self)@,
                    old(sub).announces_spec(),
                    old(sub).solicits_spec(),
                    old(sub).prefer_solicit_spec(),
                );
                &&& final(self)@ == pc2
                &&& r == res
                &&& final(sub).node_spec() == old(sub).node_spec()
                &&& final(sub).announces_spec() == old(sub).announces_spec()
                &&& final(sub).solicits_spec() == old(sub).solicits_spec()
                &&& final(sub).prefer_solicit_spec() == prefer2
            }),
    {
        if !sub.prefer_solicit {
            match self.block_announcements.poll(&sub.announces) {
                StreamPoll::Ready(h) => {
                    sub.prefer_solicit = true;
                    StreamPoll::Ready(BlockEvent::Announce(h))
                }
                first => match self.block_solicitations.poll(&sub.solicits) {
                    StreamPoll::Ready(v) => {
                        sub.prefer_solicit = false;
                        StreamPoll::Ready(BlockEvent::Solicit(v))
                    }
                    second => match (first, second) {
                        (StreamPoll::Ended, StreamPoll::Ended) => StreamPoll::Ended,
                        _ => StreamPoll::Pending,
                    },
                },
            }
        } else {
            match self.block_solicitations.poll(&sub.solicits) {
                StreamPoll::Ready(v) => {
                    sub.prefer_solicit = false;
                    StreamPoll::Ready(BlockEvent::Solicit(v))
                }
                first => match self.block_announcements.poll(&sub.announces) {
                    StreamPoll::Ready(h) => {
                        sub.prefer_solicit = true;
                        StreamPoll::Ready(BlockEvent::Announce(h))
                    }
                    second => match (first, second) {
                        (StreamPoll::Ended, StreamPoll::Ended) => StreamPoll::Ended,
                        _ => StreamPoll::Pending,
                    },
                },
            }
        }
    }
}

} // verus!
