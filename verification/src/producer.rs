//! The chat service of one session: what a connected user can ask of the
//! hub, each operation bound to that user's identity.

use crate::channel::{
    lemma_deliver_all, lemma_publish_all, newest, Channel, ChannelModel, Delivery, Mailbox,
    Subscription,
};
use crate::registry::{lemma_names_except, name_for, texts, user_name};
use crate::state::State;
use vstd::prelude::*;

verus! {

/// What one read of a stream of names that hides the name `own` makes of a
/// mailbox. A mailbox that has lagged yields the lag signal, and keeps what
/// is pending. Otherwise the read yields the first pending name other than
/// `own`, if there is one, and leaves what is behind it; names equal to
/// `own` are passed over.
pub open spec fn next_other(mailbox: Mailbox<String>, own: Seq<char>) -> (
    Mailbox<String>,
    Delivery<String>,
)
    decreases mailbox.pending.len(),
{
    if mailbox.lagged {
        (Mailbox { pending: mailbox.pending, lagged: false }, Delivery::Lagged)
    } else if mailbox.pending.len() == 0 {
        (mailbox, Delivery::Empty)
    } else if mailbox.pending.first()@ == own {
        next_other(Mailbox { pending: mailbox.pending.drop_first(), lagged: false }, own)
    } else {
        (
            Mailbox { pending: mailbox.pending.drop_first(), lagged: false },
            Delivery::Item(mailbox.pending.first()),
        )
    }
}

/// The names of `names` other than `own`, in their order.
pub open spec fn others_in(names: Seq<String>, own: Seq<char>) -> Seq<String>
    decreases names.len(),
{
    if names.len() == 0 {
        names
    } else if names.first()@ == own {
        others_in(names.drop_first(), own)
    } else {
        seq![names.first()] + others_in(names.drop_first(), own)
    }
}

/// The channel after the subscription `id` has read through `step`, and
/// what it has read: for a subscription that is not open, nothing changes
/// and the stream is closed.
pub open spec fn advance<T>(
    channel: ChannelModel<T>,
    id: nat,
    step: (Mailbox<T>, Delivery<T>),
) -> (ChannelModel<T>, Delivery<T>) {
    if channel.is_open(id) {
        (
            ChannelModel {
                capacity: channel.capacity,
                mailboxes: channel.mailboxes.insert(id, step.0),
            },
            step.1,
        )
    } else {
        (channel, Delivery::Closed)
    }
}

/// A stream of names shows a lag and hides the user's own name, and
/// nothing else. A mailbox that has lagged yields the lag signal and keeps
/// all that is pending. One that has not yields the first pending name
/// other than `own`: every name before it is `own`, and the names behind
/// it are left for the next reads. It is empty only where every pending
/// name is `own`. Either way the mailbox is no longer marked as lagged.
pub proof fn lemma_next_other(mailbox: Mailbox<String>, own: Seq<char>)
    ensures
        match next_other(mailbox, own).1 {
            Delivery::Lagged => {
                &&& mailbox.lagged
                &&& next_other(mailbox, own).0.pending == mailbox.pending
            },
            Delivery::Item(name) => {
                &&& !mailbox.lagged
                &&& exists|k: int|
                    {
                        &&& 0 <= k < mailbox.pending.len()
                        &&& #[trigger] mailbox.pending[k] == name
                        &&& name@ != own
                        &&& forall|j: int| 0 <= j < k ==> (#[trigger] mailbox.pending[j])@ == own
                        &&& next_other(mailbox, own).0.pending == mailbox.pending.skip(k + 1)
                    }
            },
            Delivery::Empty => {
                &&& !mailbox.lagged
                &&& forall|j: int|
                    0 <= j < mailbox.pending.len() ==> (#[trigger] mailbox.pending[j])@ == own
                &&& next_other(mailbox, own).0.pending.len() == 0
            },
            Delivery::Closed => false,
        },
        mailbox.lagged ==> next_other(mailbox, own).1 == Delivery::<String>::Lagged,
        !next_other(mailbox, own).0.lagged,
    decreases mailbox.pending.len(),
{
    if mailbox.lagged {
    } else if mailbox.pending.len() == 0 {
    } else if mailbox.pending.first()@ == own {
        let rest = Mailbox { pending: mailbox.pending.drop_first(), lagged: false };
        lemma_next_other(rest, own);
        match next_other(rest, own).1 {
            Delivery::Item(name) => {
                let k = choose|k: int|
                    {
                        &&& 0 <= k < rest.pending.len()
                        &&& #[trigger] rest.pending[k] == name
                        &&& name@ != own
                        &&& forall|j: int| 0 <= j < k ==> (#[trigger] rest.pending[j])@ == own
                        &&& next_other(rest, own).0.pending == rest.pending.skip(k + 1)
                    };
                assert(mailbox.pending[k + 1] == name);
                assert forall|j: int| 0 <= j < k + 1 implies (#[trigger] mailbox.pending[j])@
                    == own by {
                    if j > 0 {
                        assert(rest.pending[j - 1] == mailbox.pending[j]);
                    }
                }
                assert(rest.pending.skip(k + 1) =~= mailbox.pending.skip(k + 2));
            },
            Delivery::Empty => {
                assert forall|j: int| 0 <= j < mailbox.pending.len() implies (
                #[trigger] mailbox.pending[j])@ == own by {
                    if j > 0 {
                        assert(rest.pending[j - 1] == mailbox.pending[j]);
                    }
                }
            },
            _ => {},
        }
    } else {
        assert(mailbox.pending[0] == mailbox.pending.first());
        assert(mailbox.pending.drop_first() =~= mailbox.pending.skip(1));
    }
}

/// Read by read, a stream of names that has not lagged yields the pending
/// names other than `own`, in their order, and nothing else: each read
/// yields the first of them and leaves the rest, and the stream is empty
/// once none is left.
pub proof fn lemma_stream_of_others(mailbox: Mailbox<String>, own: Seq<char>)
    requires
        !mailbox.lagged,
    ensures
        next_other(mailbox, own).1 == if others_in(mailbox.pending, own).len() > 0 {
            Delivery::Item(others_in(mailbox.pending, own).first())
        } else {
            Delivery::Empty
        },
        others_in(next_other(mailbox, own).0.pending, own) == if others_in(
            mailbox.pending,
            own,
        ).len() > 0 {
            others_in(mailbox.pending, own).drop_first()
        } else {
            Seq::<String>::empty()
        },
    decreases mailbox.pending.len(),
{
    if mailbox.pending.len() == 0 {
    } else if mailbox.pending.first()@ == own {
        lemma_stream_of_others(
            Mailbox { pending: mailbox.pending.drop_first(), lagged: false },
            own,
        );
    } else {
        let rest = others_in(mailbox.pending.drop_first(), own);
        assert((seq![mailbox.pending.first()] + rest).drop_first() =~= rest);
    }
}

/// A stream of names that lets more events pass than its mailbox holds is
/// told so: its next read yields the lag signal, whatever the names are,
/// and leaves the newest `capacity` names for the reads after it.
pub proof fn lemma_stream_lag_is_signalled(
    channel: ChannelModel<String>,
    names: Seq<String>,
    stream: nat,
    own: Seq<char>,
)
    requires
        channel.wf(),
        channel.is_open(stream),
        channel.mailboxes[stream].pending.len() + names.len() > channel.capacity,
    ensures
        ({
            let after = channel.publish_all(names);
            let (left, delivery) = advance(after, stream, next_other(after.mailboxes[stream], own));
            &&& delivery == Delivery::<String>::Lagged
            &&& left.mailboxes[stream].pending == newest(
                channel.mailboxes[stream].pending + names,
                channel.capacity,
            )
            &&& !left.mailboxes[stream].lagged
        }),
{
    lemma_publish_all(channel, names);
    lemma_deliver_all(channel.mailboxes[stream], names, channel.capacity);
}

/// The stream of chat messages hides nothing, the sender's own messages
/// neither: a message that is published to a stream whose reader has
/// caught up is what that stream yields next, whoever sent it.
pub proof fn lemma_message_echoed<T>(channel: ChannelModel<T>, item: T, stream: nat)
    requires
        channel.wf(),
        channel.is_open(stream),
        channel.mailboxes[stream].pending.len() == 0,
        !channel.mailboxes[stream].lagged,
    ensures
        channel.publish(item).poll(stream).1 == Delivery::Item(item),
        channel.publish(item).poll(stream).0.mailboxes[stream] == Mailbox::<T>::empty(),
{
    let after = channel.publish(item).mailboxes[stream];
    assert(after.pending =~= seq![item]);
    assert(after.pending.drop_first() =~= Seq::<T>::empty());
}

/// Two maps that agree everywhere but at `key` differ by what the second
/// holds there.
proof fn lemma_changed_at<K, V>(before: Map<K, V>, after: Map<K, V>, key: K)
    requires
        after.contains_key(key),
        after.remove(key) == before.remove(key),
    ensures
        after == before.insert(key, after[key]),
{
    assert(after =~= after.remove(key).insert(key, after[key]));
    assert(before.insert(key, after[key]) =~= before.remove(key).insert(key, after[key]));
}

/// Reads once from a stream of names that hides the name `own`.
fn read_other(channel: &mut Channel<String>, stream: &Subscription, own: &String) -> (delivery:
    Delivery<String>)
    requires
        old(channel).wf(),
    ensures
        final(channel).wf(),
        (final(channel)@, delivery) == advance(
            old(channel)@,
            stream.id(),
            next_other(old(channel)@.mailboxes[stream.id()], own@),
        ),
{
    loop
        invariant
            channel.wf(),
            channel@.capacity == old(channel)@.capacity,
            channel@.is_open(stream.id()) == old(channel)@.is_open(stream.id()),
            channel@.is_open(stream.id()) ==> {
                &&& next_other(channel@.mailboxes[stream.id()], own@) == next_other(
                    old(channel)@.mailboxes[stream.id()],
                    own@,
                )
                &&& channel@.mailboxes.remove(stream.id()) == old(channel)@.mailboxes.remove(
                    stream.id(),
                )
            },
            !channel@.is_open(stream.id()) ==> channel@ == old(channel)@,
        decreases channel@.mailboxes[stream.id()].pending.len(),
    {
        let ghost before = channel@;
        let delivery = channel.poll(stream);
        proof {
            if before.is_open(stream.id()) {
                assert(channel@.mailboxes.remove(stream.id()) =~= before.mailboxes.remove(
                    stream.id(),
                ));
                lemma_changed_at(old(channel)@.mailboxes, channel@.mailboxes, stream.id());
            }
        }
        match delivery {
            Delivery::Item(name) => {
                if name != *own {
                    return Delivery::Item(name);
                }
            },
            Delivery::Lagged => {
                return Delivery::Lagged;
            },
            Delivery::Empty => {
                return Delivery::Empty;
            },
            Delivery::Closed => {
                return Delivery::Closed;
            },
        }
    }
}

/// A stream of chat messages, as `Producer::messages` opens it.
pub struct MessageStream {
    subscription: Subscription,
}

/// A stream of the names of users that connect, as `Producer::connected`
/// opens it.
pub struct ConnectedStream {
    subscription: Subscription,
}

/// A stream of the names of users that disconnect, as
/// `Producer::disconnected` opens it.
pub struct DisconnectedStream {
    subscription: Subscription,
}

impl MessageStream {
    /// The id of the stream's subscription to the channel of messages.
    pub closed spec fn id(&self) -> nat {
        self.subscription.id()
    }

    /// The stream's subscription to the channel of messages.
    pub fn subscription(&self) -> (subscription: &Subscription)
        ensures
            subscription.id() == self.id(),
    {
        &self.subscription
    }
}

impl ConnectedStream {
    /// The id of the stream's subscription to the channel of arrivals.
    pub closed spec fn id(&self) -> nat {
        self.subscription.id()
    }

    /// The stream's subscription to the channel of arrivals.
    pub fn subscription(&self) -> (subscription: &Subscription)
        ensures
            subscription.id() == self.id(),
    {
        &self.subscription
    }
}

impl DisconnectedStream {
    /// The id of the stream's subscription to the channel of departures.
    pub closed spec fn id(&self) -> nat {
        self.subscription.id()
    }

    /// The stream's subscription to the channel of departures.
    pub fn subscription(&self) -> (subscription: &Subscription)
        ensures
            subscription.id() == self.id(),
    {
        &self.subscription
    }
}

/// The chat service of one connected user. The user's name is the one that
/// goes with its id.
pub struct Producer {
    id: usize,
    user_name: String,
}

impl Producer {
    #[verifier::type_invariant]
    spec fn named_after_id(&self) -> bool {
        self.user_name@ == user_name(self.id as nat)
    }

    /// The id of the user that this service belongs to.
    pub closed spec fn id(&self) -> nat {
        self.id as nat
    }

    /// The name of the user that this service belongs to.
    pub closed spec fn name(&self) -> String {
        self.user_name
    }

    /// The service of the user with the id `id`.
    pub fn new(id: usize) -> (producer: Self)
        ensures
            producer.id() == id,
            producer.name()@ == user_name(id as nat),
    {
        Producer { id, user_name: name_for(id) }
    }

    /// The service of the user with the id `id`, whose name is held in
    /// `user_name`.
    pub(crate) fn named(id: usize, user_name: String) -> (producer: Self)
        requires
            user_name@ == crate::registry::user_name(id as nat),
        ensures
            producer.id() == id,
            producer.name() == user_name,
    {
        Producer { id, user_name }
    }

    /// The id of the user.
    pub fn user_id(&self) -> (id: usize)
        ensures
            id == self.id(),
    {
        self.id
    }

    /// The name of the user: the name that goes with its id.
    pub fn user_name(&self) -> (name: String)
        ensures
            name == self.name(),
            name@ == user_name(self.id()),
    {
        proof {
            use_type_invariant(self);
        }
        self.user_name.clone()
    }

    /// The names of the other connected users, in the order of their
    /// arrival. The user's own name is never among them.
    pub fn user_names(&self, state: &State) -> (others: Vec<String>)
        requires
            state.wf(),
        ensures
            texts(others@) == state.users@.names_except(self.id()),
            !texts(others@).contains(self.name()@),
            forall|i: int| 0 <= i < others@.len() ==> (#[trigger] others@[i])@ != self.name()@,
    {
        proof {
            use_type_invariant(self);
            lemma_names_except(state.users@, self.id());
        }
        let others = state.users.names_except(self.id);
        proof {
            assert forall|i: int| 0 <= i < others@.len() implies (#[trigger] others@[i])@
                != self.name()@ by {
                assert(texts(others@)[i] == others@[i]@);
            }
        }
        others
    }

    /// Sends a chat message: publishes the user's name and `message` to all
    /// who listen for messages, the user's own streams among them. Returns
    /// how many streams it went to.
    pub fn message(&self, state: &mut State, message: String) -> (receivers: usize)
        requires
            old(state).wf(),
        ensures
            final(state).wf(),
            final(state).message_sender@ == old(state).message_sender@.publish(
                (self.name(), message),
            ),
            receivers == old(state).message_sender@.subscribers(),
            final(state).users == old(state).users,
            final(state).connected_sender == old(state).connected_sender,
            final(state).disconnected_sender == old(state).disconnected_sender,
    {
        state.message_sender.publish((self.user_name.clone(), message))
    }

    /// Opens a stream of the chat messages sent from now on, the user's own
    /// among them.
    pub fn messages(&self, state: &mut State) -> (stream: MessageStream)
        requires
            old(state).wf(),
        ensures
            final(state).wf(),
            !old(state).message_sender@.is_open(stream.id()),
            final(state).message_sender@ == old(state).message_sender@.subscribe(stream.id()),
            final(state).users == old(state).users,
            final(state).connected_sender == old(state).connected_sender,
            final(state).disconnected_sender == old(state).disconnected_sender,
    {
        MessageStream { subscription: state.message_sender.subscribe() }
    }

    /// Opens a stream of the names of the users that connect from now on.
    pub fn connected(&self, state: &mut State) -> (stream: ConnectedStream)
        requires
            old(state).wf(),
        ensures
            final(state).wf(),
            !old(state).connected_sender@.is_open(stream.id()),
            final(state).connected_sender@ == old(state).connected_sender@.subscribe(stream.id()),
            final(state).users == old(state).users,
            final(state).message_sender == old(state).message_sender,
            final(state).disconnected_sender == old(state).disconnected_sender,
    {
        ConnectedStream { subscription: state.connected_sender.subscribe() }
    }

    /// Opens a stream of the names of the users that disconnect from now
    /// on.
    pub fn disconnected(&self, state: &mut State) -> (stream: DisconnectedStream)
        requires
            old(state).wf(),
        ensures
            final(state).wf(),
            !old(state).disconnected_sender@.is_open(stream.id()),
            final(state).disconnected_sender@ == old(state).disconnected_sender@.subscribe(
                stream.id(),
            ),
            final(state).users == old(state).users,
            final(state).message_sender == old(state).message_sender,
            final(state).connected_sender == old(state).connected_sender,
    {
        DisconnectedStream { subscription: state.disconnected_sender.subscribe() }
    }

    /// Reads once from `stream`: the lag signal if messages were dropped
    /// since its last read, and else the oldest message that waits,
    /// whoever sent it. The signal takes nothing from what waits.
    pub fn next_message(&self, state: &mut State, stream: &MessageStream) -> (delivery: Delivery<
        (String, String),
    >)
        requires
            old(state).wf(),
        ensures
            final(state).wf(),
            (final(state).message_sender@, delivery) == old(state).message_sender@.poll(
                stream.id(),
            ),
            final(state).users == old(state).users,
            final(state).connected_sender == old(state).connected_sender,
            final(state).disconnected_sender == old(state).disconnected_sender,
    {
        state.message_sender.poll(&stream.subscription)
    }

    /// Reads once from `stream`: the lag signal if names were dropped since
    /// its last read, and else the oldest name that waits and is not the
    /// user's own. The signal takes nothing from what waits.
    pub fn next_connected(&self, state: &mut State, stream: &ConnectedStream) -> (delivery:
        Delivery<String>)
        requires
            old(state).wf(),
        ensures
            final(state).wf(),
            (final(state).connected_sender@, delivery) == advance(
                old(state).connected_sender@,
                stream.id(),
                next_other(old(state).connected_sender@.mailboxes[stream.id()], self.name()@),
            ),
            delivery matches Delivery::Item(name) ==> name@ != self.name()@,
            delivery is Lagged <==> old(state).connected_sender@.is_open(stream.id()) && old(
                state,
            ).connected_sender@.mailboxes[stream.id()].lagged,
            final(state).users == old(state).users,
            final(state).message_sender == old(state).message_sender,
            final(state).disconnected_sender == old(state).disconnected_sender,
    {
        proof {
            lemma_next_other(old(state).connected_sender@.mailboxes[stream.id()], self.name()@);
        }
        read_other(&mut state.connected_sender, &stream.subscription, &self.user_name)
    }

    /// Reads once from `stream`: the lag signal if names were dropped since
    /// its last read, and else the oldest name that waits and is not the
    /// user's own. The signal takes nothing from what waits.
    pub fn next_disconnected(&self, state: &mut State, stream: &DisconnectedStream) -> (delivery:
        Delivery<String>)
        requires
            old(state).wf(),
        ensures
            final(state).wf(),
            (final(state).disconnected_sender@, delivery) == advance(
                old(state).disconnected_sender@,
                stream.id(),
                next_other(old(state).disconnected_sender@.mailboxes[stream.id()], self.name()@),
            ),
            delivery matches Delivery::Item(name) ==> name@ != self.name()@,
            delivery is Lagged <==> old(state).disconnected_sender@.is_open(stream.id()) && old(
                state,
            ).disconnected_sender@.mailboxes[stream.id()].lagged,
            final(state).users == old(state).users,
            final(state).message_sender == old(state).message_sender,
            final(state).connected_sender == old(state).connected_sender,
    {
        proof {
            lemma_next_other(
                old(state).disconnected_sender@.mailboxes[stream.id()],
                self.name()@,
            );
        }
        read_other(&mut state.disconnected_sender, &stream.subscription, &self.user_name)
    }

    /// Closes `stream` and frees its mailbox.
    pub fn close_messages(&self, state: &mut State, stream: MessageStream)
        requires
            old(state).wf(),
        ensures
            final(state).wf(),
            final(state).message_sender@ == old(state).message_sender@.unsubscribe(stream.id()),
            final(state).users == old(state).users,
            final(state).connected_sender == old(state).connected_sender,
            final(state).disconnected_sender == old(state).disconnected_sender,
    {
        state.message_sender.unsubscribe(stream.subscription)
    }

    /// Closes `stream` and frees its mailbox.
    pub fn close_connected(&self, state: &mut State, stream: ConnectedStream)
        requires
            old(state).wf(),
        ensures
            final(state).wf(),
            final(state).connected_sender@ == old(state).connected_sender@.unsubscribe(
                stream.id(),
            ),
            final(state).users == old(state).users,
            final(state).message_sender == old(state).message_sender,
            final(state).disconnected_sender == old(state).disconnected_sender,
    {
        state.connected_sender.unsubscribe(stream.subscription)
    }

    /// Closes `stream` and frees its mailbox.
    pub fn close_disconnected(&self, state: &mut State, stream: DisconnectedStream)
        requires
            old(state).wf(),
        ensures
            final(state).wf(),
            final(state).disconnected_sender@ == old(state).disconnected_sender@.unsubscribe(
                stream.id(),
            ),
            final(state).users == old(state).users,
            final(state).message_sender == old(state).message_sender,
            final(state).connected_sender == old(state).connected_sender,
    {
        state.disconnected_sender.unsubscribe(stream.subscription)
    }
}

} // verus!
