//! Bounded broadcast channels.
//!
//! A channel fans every published event out to the subscribers that exist
//! at that moment. Each subscriber reads at its own pace from a mailbox that
//! holds at most `capacity` events: when one more arrives at a full mailbox,
//! the oldest event in it is dropped and the subscriber is told, on its next
//! read, that it has lagged.
//!
//! [`ChannelModel`] states this behaviour mailbox by mailbox. [`Channel`]
//! implements it with one shared ring of the newest events and one cursor
//! per subscriber, and every operation is proved to act on the model as the
//! model's own operation does.

use std::collections::VecDeque;
use vstd::prelude::*;

verus! {

/// An event that can be handed to several subscribers.
pub trait Event: Sized {
    /// Another value equal to this one.
    fn duplicate(&self) -> (copy: Self)
        ensures
            copy == *self,
    ;
}

impl Event for String {
    fn duplicate(&self) -> (copy: String) {
        self.clone()
    }
}

/// What one read of a subscription yields.
#[derive(Debug, PartialEq, Eq)]
pub enum Delivery<T> {
    /// The oldest event that was waiting.
    Item(T),
    /// Events were dropped since the last read; the next reads resume with
    /// the oldest event that is still there.
    Lagged,
    /// Nothing is waiting.
    Empty,
    /// The subscription is not open on this channel.
    Closed,
}

/// What waits for one subscriber.
pub struct Mailbox<T> {
    /// The events not yet read, oldest first.
    pub pending: Seq<T>,
    /// Whether events were dropped since the subscriber last read.
    pub lagged: bool,
}

impl<T> Mailbox<T> {
    /// The mailbox of a subscriber that has just subscribed.
    pub open spec fn empty() -> Self {
        Mailbox { pending: Seq::empty(), lagged: false }
    }

    /// The mailbox after `item` arrives, under the bound `capacity`.
    pub open spec fn deliver(self, item: T, capacity: nat) -> Self {
        if self.pending.len() < capacity {
            Mailbox { pending: self.pending.push(item), lagged: self.lagged }
        } else {
            Mailbox { pending: self.pending.drop_first().push(item), lagged: true }
        }
    }

    /// The mailbox after `items` arrive one by one.
    pub open spec fn deliver_all(self, items: Seq<T>, capacity: nat) -> Self
        decreases items.len(),
    {
        if items.len() == 0 {
            self
        } else {
            self.deliver_all(items.drop_last(), capacity).deliver(items.last(), capacity)
        }
    }

    /// The mailbox after one read, and what that read yields.
    pub open spec fn read(self) -> (Self, Delivery<T>) {
        if self.lagged {
            (Mailbox { pending: self.pending, lagged: false }, Delivery::Lagged)
        } else if self.pending.len() == 0 {
            (self, Delivery::Empty)
        } else {
            (
                Mailbox { pending: self.pending.drop_first(), lagged: false },
                Delivery::Item(self.pending.first()),
            )
        }
    }
}

/// A channel as its subscribers see it: one mailbox for each of them.
pub struct ChannelModel<T> {
    /// The most events that a mailbox holds.
    pub capacity: nat,
    /// The mailbox of each open subscription, by the subscription's id.
    pub mailboxes: Map<nat, Mailbox<T>>,
}

impl<T> ChannelModel<T> {
    /// What holds of every channel: a positive capacity, finitely many
    /// subscribers, and no mailbox over capacity.
    pub open spec fn wf(self) -> bool {
        &&& self.capacity > 0
        &&& self.mailboxes.dom().finite()
        &&& forall|id: nat| #[trigger]
            self.mailboxes.contains_key(id) ==> self.mailboxes[id].pending.len() <= self.capacity
    }

    /// A channel without subscribers.
    pub open spec fn new(capacity: nat) -> Self {
        ChannelModel { capacity, mailboxes: Map::empty() }
    }

    /// Whether the subscription `id` is open.
    pub open spec fn is_open(self, id: nat) -> bool {
        self.mailboxes.contains_key(id)
    }

    /// How many subscriptions are open.
    pub open spec fn subscribers(self) -> nat {
        self.mailboxes.dom().len()
    }

    /// The channel after a subscription opens under the id `id`.
    pub open spec fn subscribe(self, id: nat) -> Self {
        ChannelModel {
            capacity: self.capacity,
            mailboxes: self.mailboxes.insert(id, Mailbox::empty()),
        }
    }

    /// The channel after the subscription `id` closes.
    pub open spec fn unsubscribe(self, id: nat) -> Self {
        ChannelModel { capacity: self.capacity, mailboxes: self.mailboxes.remove(id) }
    }

    /// The channel after `item` is published: it arrives at every mailbox.
    pub open spec fn publish(self, item: T) -> Self {
        ChannelModel {
            capacity: self.capacity,
            mailboxes: Map::new(
                |id: nat| self.mailboxes.contains_key(id),
                |id: nat| self.mailboxes[id].deliver(item, self.capacity),
            ),
        }
    }

    /// The channel after `items` are published one by one.
    pub open spec fn publish_all(self, items: Seq<T>) -> Self
        decreases items.len(),
    {
        if items.len() == 0 {
            self
        } else {
            self.publish_all(items.drop_last()).publish(items.last())
        }
    }

    /// The channel after the subscription `id` reads once, and what the
    /// read yields.
    pub open spec fn poll(self, id: nat) -> (Self, Delivery<T>) {
        if self.mailboxes.contains_key(id) {
            let (mailbox, delivery) = self.mailboxes[id].read();
            (
                ChannelModel {
                    capacity: self.capacity,
                    mailboxes: self.mailboxes.insert(id, mailbox),
                },
                delivery,
            )
        } else {
            (self, Delivery::Closed)
        }
    }
}

impl<T> Mailbox<T> {
    /// The mailbox after `n` reads.
    pub open spec fn read_n(self, n: nat) -> Self
        decreases n,
    {
        if n == 0 {
            self
        } else {
            self.read_n((n - 1) as nat).read().0
        }
    }

    /// What the read after `n` earlier reads yields.
    pub open spec fn nth_read(self, n: nat) -> Delivery<T> {
        self.read_n(n).read().1
    }
}

/// The newest `capacity` elements of `s`.
pub open spec fn newest<T>(s: Seq<T>, capacity: nat) -> Seq<T> {
    if s.len() > capacity {
        s.skip(s.len() - capacity)
    } else {
        s
    }
}

/// Where one subscriber stands in the shared ring.
#[derive(Clone, Copy)]
struct Cursor {
    /// How many of the newest events in the ring it has yet to read.
    backlog: usize,
    /// Whether events it had not read were dropped since its last read.
    lagged: bool,
}

/// The handle of one subscription to a channel.
pub struct Subscription {
    slot: usize,
}

impl Subscription {
    /// The id under which the channel's model knows this subscription.
    pub closed spec fn id(&self) -> nat {
        self.slot as nat
    }
}

/// A bounded broadcast channel.
pub struct Channel<T> {
    capacity: usize,
    /// The newest events, oldest first, at most `capacity` of them.
    ring: VecDeque<T>,
    /// One slot per subscription; a closed subscription leaves its slot free.
    cursors: Vec<Option<Cursor>>,
}

/// The mailbox that a cursor stands for.
spec fn mailbox_at<T>(ring: Seq<T>, cursor: Cursor) -> Mailbox<T> {
    Mailbox {
        pending: ring.subrange(ring.len() - cursor.backlog, ring.len() as int),
        lagged: cursor.lagged,
    }
}

/// The ids of the slots that hold a cursor.
spec fn open_slots(cursors: Seq<Option<Cursor>>) -> Set<nat> {
    Set::new(|id: nat| id < cursors.len() && cursors[id as int] is Some)
}

/// The open slots of a sequence of cursors are finite, and one more slot
/// adds at most its own id.
proof fn lemma_open_slots_push(cursors: Seq<Option<Cursor>>, slot: Option<Cursor>)
    ensures
        open_slots(cursors.push(slot)) == if slot is Some {
            open_slots(cursors).insert(cursors.len())
        } else {
            open_slots(cursors)
        },
        !open_slots(cursors).contains(cursors.len()),
{
    let longer = cursors.push(slot);
    assert forall|id: nat| #[trigger] open_slots(longer).contains(id) <==> (if slot is Some {
        open_slots(cursors).insert(cursors.len()).contains(id)
    } else {
        open_slots(cursors).contains(id)
    }) by {
        if id < cursors.len() {
            assert(longer[id as int] == cursors[id as int]);
        }
    }
    if slot is Some {
        assert(open_slots(longer) =~= open_slots(cursors).insert(cursors.len()));
    } else {
        assert(open_slots(longer) =~= open_slots(cursors));
    }
}

/// The open slots of a sequence of cursors are finitely many.
proof fn lemma_open_slots_finite(cursors: Seq<Option<Cursor>>)
    ensures
        open_slots(cursors).finite(),
    decreases cursors.len(),
{
    if cursors.len() == 0 {
        assert(open_slots(cursors) =~= Set::empty());
    } else {
        lemma_open_slots_finite(cursors.drop_last());
        lemma_open_slots_push(cursors.drop_last(), cursors.last());
        assert(cursors.drop_last().push(cursors.last()) =~= cursors);
    }
}

/// The channel that a ring and its cursors stand for.
spec fn model_of<T>(capacity: usize, ring: Seq<T>, cursors: Seq<Option<Cursor>>) -> ChannelModel<T> {
    ChannelModel {
        capacity: capacity as nat,
        mailboxes: Map::new(
            |id: nat| open_slots(cursors).contains(id),
            |id: nat| mailbox_at(ring, cursors[id as int]->0),
        ),
    }
}

/// What the fields of a channel keep to: the ring within capacity, and no
/// cursor further back than the ring reaches.
spec fn consistent<T>(capacity: usize, ring: Seq<T>, cursors: Seq<Option<Cursor>>) -> bool {
    &&& capacity > 0
    &&& ring.len() <= capacity
    &&& forall|i: int|
        0 <= i < cursors.len() ==> (#[trigger] cursors[i] matches Some(cursor) ==> cursor.backlog
            <= ring.len())
}

/// Consistent fields stand for a well-formed channel.
proof fn lemma_model_wf<T>(capacity: usize, ring: Seq<T>, cursors: Seq<Option<Cursor>>)
    requires
        consistent(capacity, ring, cursors),
    ensures
        model_of(capacity, ring, cursors).wf(),
{
    let model = model_of(capacity, ring, cursors);
    lemma_open_slots_finite(cursors);
    assert(model.mailboxes.dom() =~= open_slots(cursors));
    assert forall|id: nat| #[trigger] model.mailboxes.contains_key(id) implies model.mailboxes[id].pending.len()
        <= model.capacity by {
        assert(cursors[id as int] is Some);
    }
}

impl<T> View for Channel<T> {
    type V = ChannelModel<T>;

    closed spec fn view(&self) -> ChannelModel<T> {
        model_of(self.capacity, self.ring@, self.cursors@)
    }
}

impl<T> Channel<T> {
    /// What every channel keeps to. `new` establishes it and every
    /// operation preserves it.
    pub closed spec fn wf(&self) -> bool {
        consistent(self.capacity, self.ring@, self.cursors@)
    }

    /// A well-formed channel stands for a well-formed model.
    pub proof fn lemma_view_wf(&self)
        requires
            self.wf(),
        ensures
            self@.wf(),
    {
        lemma_model_wf(self.capacity, self.ring@, self.cursors@);
    }
}

impl<T: Event> Channel<T> {
    /// A channel whose mailboxes hold up to `capacity` events, without
    /// subscribers.
    pub fn new(capacity: usize) -> (channel: Self)
        requires
            capacity > 0,
        ensures
            channel@ == ChannelModel::<T>::new(capacity as nat),
            channel.wf(),
    {
        let channel = Channel { capacity, ring: VecDeque::new(), cursors: Vec::new() };
        proof {
            assert(channel@.mailboxes =~= Map::empty());
        }
        channel
    }

    /// The most events that a mailbox of this channel holds.
    pub fn capacity(&self) -> (capacity: usize)
        requires
            self.wf(),
        ensures
            capacity == self@.capacity,
            capacity > 0,
    {
        self.capacity
    }

    /// Whether `subscription` is open on this channel.
    pub fn is_open(&self, subscription: &Subscription) -> (open: bool)
        requires
            self.wf(),
        ensures
            open == self@.is_open(subscription.id()),
    {
        subscription.slot < self.cursors.len() && self.cursors[subscription.slot].is_some()
    }

    /// How many subscriptions are open.
    pub fn subscribers(&self) -> (count: usize)
        requires
            self.wf(),
        ensures
            count == self@.subscribers(),
    {
        let mut count: usize = 0;
        let mut i: usize = 0;
        proof {
            assert(open_slots(self.cursors@.take(0)) =~= Set::empty());
        }
        while i < self.cursors.len()
            invariant
                i <= self.cursors@.len(),
                count <= i,
                count == open_slots(self.cursors@.take(i as int)).len(),
            decreases self.cursors@.len() - i,
        {
            proof {
                let shorter = self.cursors@.take(i as int);
                lemma_open_slots_finite(shorter);
                lemma_open_slots_push(shorter, self.cursors@[i as int]);
                assert(shorter.push(self.cursors@[i as int]) =~= self.cursors@.take(i + 1));
            }
            if self.cursors[i].is_some() {
                count = count + 1;
            }
            i = i + 1;
        }
        proof {
            assert(self.cursors@.take(i as int) =~= self.cursors@);
            assert(self@.mailboxes.dom() =~= open_slots(self.cursors@));
        }
        count
    }

    /// How many events wait for `subscription`: none if it is not open.
    pub fn backlog(&self, subscription: &Subscription) -> (waiting: usize)
        requires
            self.wf(),
        ensures
            self@.is_open(subscription.id()) ==> waiting == self@.mailboxes[subscription.id()].pending.len(),
            !self@.is_open(subscription.id()) ==> waiting == 0,
    {
        if subscription.slot < self.cursors.len() {
            match self.cursors[subscription.slot] {
                Some(cursor) => cursor.backlog,
                None => 0,
            }
        } else {
            0
        }
    }

    /// Opens a subscription. It sees the events published from now on, and
    /// none of those published before.
    pub fn subscribe(&mut self) -> (subscription: Subscription)
        requires
            old(self).wf(),
        ensures
            !old(self)@.is_open(subscription.id()),
            final(self)@ == old(self)@.subscribe(subscription.id()),
            final(self).wf(),
    {
        let fresh = Cursor { backlog: 0, lagged: false };
        let mut slot: usize = 0;
        while slot < self.cursors.len() && self.cursors[slot].is_some()
            invariant
                slot <= self.cursors@.len(),
            decreases self.cursors@.len() - slot,
        {
            slot = slot + 1;
        }
        if slot < self.cursors.len() {
            self.cursors.set(slot, Some(fresh));
        } else {
            self.cursors.push(Some(fresh));
        }
        proof {
            assert(mailbox_at(self.ring@, fresh).pending =~= Seq::<T>::empty());
            assert(final(self)@.mailboxes =~= old(self)@.mailboxes.insert(
                slot as nat,
                Mailbox::empty(),
            ));
        }
        Subscription { slot }
    }

    /// Closes `subscription` and frees its mailbox. Closing one that is not
    /// open changes nothing.
    pub fn unsubscribe(&mut self, subscription: Subscription)
        requires
            old(self).wf(),
        ensures
            final(self)@ == old(self)@.unsubscribe(subscription.id()),
            final(self).wf(),
    {
        if subscription.slot < self.cursors.len() {
            self.cursors.set(subscription.slot, None);
        }
        proof {
            assert(final(self)@.mailboxes =~= old(self)@.mailboxes.remove(subscription.id()));
        }
    }

    /// Publishes `item` to every open subscription and returns how many
    /// there are. Without subscribers the event is dropped. A full mailbox
    /// loses its oldest event to make room, and is marked as lagged.
    pub fn publish(&mut self, item: T) -> (receivers: usize)
        requires
            old(self).wf(),
        ensures
            final(self)@ == old(self)@.publish(item),
            final(self).wf(),
            receivers == old(self)@.subscribers(),
    {
        let receivers = self.subscribers();
        if receivers == 0 {
            proof {
                lemma_open_slots_finite(self.cursors@);
                assert(self@.mailboxes.dom() =~= open_slots(self.cursors@));
                assert(open_slots(self.cursors@) =~= Set::empty());
                assert(old(self)@.publish(item).mailboxes =~= old(self)@.mailboxes);
            }
            return 0;
        }
        let ghost old_ring = self.ring@;
        let ghost old_cursors = self.cursors@;
        let capacity = self.capacity;
        push_bounded(&mut self.ring, capacity, item);
        let mut i: usize = 0;
        while i < self.cursors.len()
            invariant
                capacity == self.capacity,
                capacity > 0,
                old_ring.len() <= capacity,
                self.ring@ == newest(old_ring.push(item), capacity as nat),
                self.cursors@.len() == old_cursors.len(),
                i <= self.cursors@.len(),
                forall|j: int|
                    0 <= j < old_cursors.len() ==> (#[trigger] old_cursors[j] matches Some(cursor)
                        ==> cursor.backlog <= old_ring.len()),
                forall|j: int|
                    i <= j < self.cursors@.len() ==> #[trigger] self.cursors@[j] == old_cursors[j],
                forall|j: int|
                    0 <= j < i ==> (#[trigger] self.cursors@[j] is Some) == (old_cursors[j] is Some),
                forall|j: int|
                    0 <= j < i && old_cursors[j] is Some ==> mailbox_at(
                        self.ring@,
                        (#[trigger] self.cursors@[j])->0,
                    ) == mailbox_at(old_ring, old_cursors[j]->0).deliver(item, capacity as nat)
                        && (self.cursors@[j])->0.backlog <= self.ring@.len(),
            decreases self.cursors@.len() - i,
        {
            match self.cursors[i] {
                Some(cursor) => {
                    let moved = if cursor.backlog < capacity {
                        Cursor { backlog: cursor.backlog + 1, lagged: cursor.lagged }
                    } else {
                        Cursor { backlog: cursor.backlog, lagged: true }
                    };
                    proof {
                        assert(old_cursors[i as int] == Some(cursor));
                        assert(mailbox_at(self.ring@, moved).pending =~= mailbox_at(
                            old_ring,
                            cursor,
                        ).deliver(item, capacity as nat).pending);
                    }
                    self.cursors.set(i, Some(moved));
                },
                None => {},
            }
            i = i + 1;
        }
        proof {
            assert(final(self)@.mailboxes =~= old(self)@.publish(item).mailboxes);
        }
        receivers
    }

    /// Reads once for `subscription`: a lag signal if events were dropped
    /// since its last read, else the oldest event that waits for it.
    pub fn poll(&mut self, subscription: &Subscription) -> (delivery: Delivery<T>)
        requires
            old(self).wf(),
        ensures
            (final(self)@, delivery) == old(self)@.poll(subscription.id()),
            final(self).wf(),
    {
        let slot = subscription.slot;
        if slot >= self.cursors.len() {
            return Delivery::Closed;
        }
        match self.cursors[slot] {
            None => Delivery::Closed,
            Some(cursor) => {
                if cursor.lagged {
                    self.cursors.set(slot, Some(Cursor { backlog: cursor.backlog, lagged: false }));
                    proof {
                        assert(final(self)@.mailboxes =~= old(self)@.poll(
                            subscription.id(),
                        ).0.mailboxes);
                    }
                    Delivery::Lagged
                } else if cursor.backlog == 0 {
                    proof {
                        assert(mailbox_at(self.ring@, cursor).pending =~= Seq::<T>::empty());
                        assert(final(self)@.mailboxes =~= old(self)@.poll(
                            subscription.id(),
                        ).0.mailboxes);
                    }
                    Delivery::Empty
                } else {
                    let item = self.ring[self.ring.len() - cursor.backlog].duplicate();
                    let moved = Cursor { backlog: cursor.backlog - 1, lagged: false };
                    self.cursors.set(slot, Some(moved));
                    proof {
                        assert(mailbox_at(self.ring@, moved).pending =~= mailbox_at(
                            self.ring@,
                            cursor,
                        ).pending.drop_first());
                        assert(final(self)@.mailboxes =~= old(self)@.poll(
                            subscription.id(),
                        ).0.mailboxes);
                    }
                    Delivery::Item(item)
                }
            },
        }
    }
}

/// Appends `item` to `ring` and, if that takes it over `capacity`, drops
/// its oldest element.
fn push_bounded<T>(ring: &mut VecDeque<T>, capacity: usize, item: T)
    requires
        capacity > 0,
        old(ring)@.len() <= capacity,
    ensures
        final(ring)@ == newest(old(ring)@.push(item), capacity as nat),
{
    if ring.len() >= capacity {
        let _ = ring.pop_front();
    }
    ring.push_back(item);
    assert(final(ring)@ =~= newest(old(ring)@.push(item), capacity as nat));
}

/// Events that arrive at a mailbox queue up behind what was pending, in the
/// order of their arrival. The mailbox keeps the newest `capacity` of them,
/// and is marked as lagged as soon as one had to go.
pub proof fn lemma_deliver_all<T>(mailbox: Mailbox<T>, items: Seq<T>, capacity: nat)
    requires
        capacity > 0,
        mailbox.pending.len() <= capacity,
    ensures
        mailbox.deliver_all(items, capacity).pending == newest(mailbox.pending + items, capacity),
        mailbox.deliver_all(items, capacity).lagged == (mailbox.lagged || mailbox.pending.len()
            + items.len() > capacity),
    decreases items.len(),
{
    if items.len() == 0 {
        assert(mailbox.pending + items =~= mailbox.pending);
    } else {
        let earlier = items.drop_last();
        lemma_deliver_all(mailbox, earlier, capacity);
        let before = mailbox.deliver_all(earlier, capacity);
        assert((mailbox.pending + earlier).push(items.last()) =~= mailbox.pending + items);
        assert(before.deliver(items.last(), capacity).pending =~= newest(
            mailbox.pending + items,
            capacity,
        ));
    }
}

/// A subscriber that has not lagged reads what is pending, oldest first:
/// its read number `n` yields the pending event number `n`, and leaves the
/// later ones.
pub proof fn lemma_reads_in_order<T>(mailbox: Mailbox<T>, n: nat)
    requires
        !mailbox.lagged,
        n < mailbox.pending.len(),
    ensures
        mailbox.nth_read(n) == Delivery::Item(mailbox.pending[n as int]),
        mailbox.read_n((n + 1) as nat) == (Mailbox { pending: mailbox.pending.skip(n as int + 1), lagged: false }),
    decreases n,
{
    if n == 0 {
        assert(mailbox.read_n(0) == mailbox);
        assert(mailbox.read_n(1) == mailbox.read_n(0).read().0);
        assert(mailbox.pending.drop_first() =~= mailbox.pending.skip(1));
    } else {
        lemma_reads_in_order(mailbox, (n - 1) as nat);
        let before = mailbox.read_n(n);
        assert(before.pending == mailbox.pending.skip(n as int));
        assert(before.pending.first() == mailbox.pending[n as int]);
        assert(before.pending.drop_first() =~= mailbox.pending.skip(n as int + 1));
        assert(mailbox.read_n((n + 1) as nat) == before.read().0);
    }
}

/// A lagged subscriber learns of it on its next read, which takes nothing
/// from what is pending. After that it has not lagged, so its reads yield
/// the events that are left, oldest first.
pub proof fn lemma_lag_signal_then_resume<T>(mailbox: Mailbox<T>)
    requires
        mailbox.lagged,
    ensures
        mailbox.read().1 == Delivery::<T>::Lagged,
        mailbox.read().0 == (Mailbox { pending: mailbox.pending, lagged: false }),
{
}

/// Publishing leaves the set of subscriptions as it is and treats every
/// mailbox by itself: what a subscriber finds after a run of publications
/// depends on its own mailbox alone, not on how far any other subscriber
/// has read or lagged.
pub proof fn lemma_publish_all<T>(channel: ChannelModel<T>, items: Seq<T>)
    ensures
        channel.publish_all(items).capacity == channel.capacity,
        channel.publish_all(items).mailboxes.dom() == channel.mailboxes.dom(),
        forall|id: nat| #[trigger]
            channel.is_open(id) ==> channel.publish_all(items).mailboxes[id]
                == channel.mailboxes[id].deliver_all(items, channel.capacity),
    decreases items.len(),
{
    if items.len() == 0 {
    } else {
        lemma_publish_all(channel, items.drop_last());
        let before = channel.publish_all(items.drop_last());
        assert(before.publish(items.last()).mailboxes.dom() =~= before.mailboxes.dom());
    }
}

/// A published event reaches every subscriber, the publisher's own
/// subscriptions among them: it is the newest event in each mailbox.
pub proof fn lemma_publish_reaches_all<T>(channel: ChannelModel<T>, item: T, id: nat)
    requires
        channel.wf(),
        channel.is_open(id),
    ensures
        channel.publish(item).is_open(id),
        channel.publish(item).mailboxes[id].pending.len() > 0,
        channel.publish(item).mailboxes[id].pending.last() == item,
        channel.publish(item).wf(),
{
    let after = channel.publish(item);
    assert(after.mailboxes.dom() =~= channel.mailboxes.dom());
    assert forall|other: nat| #[trigger] after.mailboxes.contains_key(other) implies after.mailboxes[other].pending.len()
        <= after.capacity by {
        assert(channel.mailboxes.contains_key(other));
    }
}

/// An event that is published while nobody subscribes is dropped: it
/// leaves the channel as it was, and nothing of it for later subscribers.
pub proof fn lemma_publish_without_subscribers<T>(channel: ChannelModel<T>, item: T)
    requires
        channel.wf(),
        channel.subscribers() == 0,
    ensures
        channel.publish(item) == channel,
{
    channel.mailboxes.dom().lemma_len0_is_empty();
    assert(channel.publish(item).mailboxes =~= channel.mailboxes);
}

/// Subscribers that do not lag see the same events in the same order: for
/// each of two that have room for a run of publications, the run is added
/// to what was pending, as it was published.
pub proof fn lemma_same_order<T>(channel: ChannelModel<T>, items: Seq<T>, a: nat, b: nat)
    requires
        channel.wf(),
        channel.is_open(a),
        channel.is_open(b),
        channel.mailboxes[a].pending.len() + items.len() <= channel.capacity,
        channel.mailboxes[b].pending.len() + items.len() <= channel.capacity,
    ensures
        channel.publish_all(items).mailboxes[a].pending == channel.mailboxes[a].pending + items,
        channel.publish_all(items).mailboxes[b].pending == channel.mailboxes[b].pending + items,
        channel.publish_all(items).mailboxes[a].lagged == channel.mailboxes[a].lagged,
        channel.publish_all(items).mailboxes[b].lagged == channel.mailboxes[b].lagged,
{
    lemma_publish_all(channel, items);
    lemma_deliver_all(channel.mailboxes[a], items, channel.capacity);
    lemma_deliver_all(channel.mailboxes[b], items, channel.capacity);
}

/// A subscription sees nothing of what was published before it opened: of
/// `earlier`, published before, and `later`, published after, it finds the
/// newest of `later` alone, and all of `later` where that fits.
pub proof fn lemma_no_replay<T>(channel: ChannelModel<T>, earlier: Seq<T>, id: nat, later: Seq<T>)
    requires
        channel.wf(),
    ensures
        ({
            let after = channel.publish_all(earlier).subscribe(id).publish_all(later);
            &&& after.is_open(id)
            &&& after.mailboxes[id].pending == newest(later, channel.capacity)
            &&& later.len() <= channel.capacity ==> after.mailboxes[id].pending == later
                && !after.mailboxes[id].lagged
        }),
{
    lemma_publish_all(channel, earlier);
    let opened = channel.publish_all(earlier).subscribe(id);
    lemma_publish_all(opened, later);
    assert(opened.is_open(id));
    lemma_deliver_all(Mailbox::<T>::empty(), later, channel.capacity);
    assert(Mailbox::<T>::empty().pending + later =~= later);
}

/// A subscriber that lets more events pass than its mailbox holds is told
/// so on its next read, and then reads the newest `capacity` events in the
/// order of their publication.
pub proof fn lemma_overflow<T>(channel: ChannelModel<T>, items: Seq<T>, id: nat, n: nat)
    requires
        channel.wf(),
        channel.is_open(id),
        channel.mailboxes[id].pending.len() + items.len() > channel.capacity,
        n < channel.capacity,
    ensures
        ({
            let after = channel.publish_all(items);
            let kept = newest(channel.mailboxes[id].pending + items, channel.capacity);
            let (resumed, signal) = after.poll(id);
            &&& after.mailboxes[id].lagged
            &&& after.mailboxes[id].pending == kept
            &&& kept.len() == channel.capacity
            &&& signal == Delivery::<T>::Lagged
            &&& resumed.mailboxes[id].nth_read(n) == Delivery::Item(kept[n as int])
        }),
{
    lemma_publish_all(channel, items);
    lemma_deliver_all(channel.mailboxes[id], items, channel.capacity);
    let after = channel.publish_all(items);
    let (resumed, signal) = after.poll(id);
    lemma_reads_in_order(resumed.mailboxes[id], n);
}

/// A read changes the mailbox of the subscription that reads, and nothing
/// else: every other subscription stays open with its mailbox as it was.
pub proof fn lemma_poll_leaves_others<T>(channel: ChannelModel<T>, id: nat, other: nat)
    requires
        other != id,
    ensures
        channel.poll(id).0.capacity == channel.capacity,
        channel.poll(id).0.is_open(other) == channel.is_open(other),
        channel.is_open(other) ==> channel.poll(id).0.mailboxes[other] == channel.mailboxes[other],
{
}

} // verus!
