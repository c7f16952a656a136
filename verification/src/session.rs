//! The life of one session: from the transport that is accepted, through
//! the time in which the user is served, to the cleanup when the transport
//! goes away.

use crate::channel::{lemma_publish_reaches_all, ChannelModel};
use crate::producer::Producer;
use crate::registry::{lemma_add_wf, lemma_names_except, lemma_removed_name_is_gone, user_name, RegistryModel};
use crate::state::State;
use vstd::prelude::*;

verus! {

/// Registers the user of a transport that was just accepted and announces
/// its name on the channel of arrivals. Returns the chat service of that
/// user.
pub fn user_connected(state: &mut State) -> (producer: Producer)
    requires
        old(state).wf(),
        !old(state).users.is_full(),
    ensures
        final(state).wf(),
        final(state).users@ == old(state).users@.add(),
        final(state).users@.contains(producer.id()),
        producer.id() == old(state).users@.next_id,
        producer.id() >= 1,
        producer.name()@ == user_name(producer.id()),
        final(state).connected_sender@ == old(state).connected_sender@.publish(producer.name()),
        final(state).message_sender == old(state).message_sender,
        final(state).disconnected_sender == old(state).disconnected_sender,
{
    proof {
        lemma_add_wf(old(state).users@);
    }
    let user = state.add_user();
    let id = user.id;
    let name = user.name.clone();
    let _ = state.connected_sender.publish(name.clone());
    Producer::named(id, name)
}

/// Takes the user with the id `id` out of the registry and announces
/// `name` on the channel of departures.
pub fn user_disconnected(id: usize, name: String, state: &mut State)
    requires
        old(state).wf(),
    ensures
        final(state).wf(),
        final(state).users@ == old(state).users@.remove(id as nat),
        final(state).disconnected_sender@ == old(state).disconnected_sender@.publish(name),
        final(state).message_sender == old(state).message_sender,
        final(state).connected_sender == old(state).connected_sender,
{
    let _ = state.users.remove(id);
    let _ = state.disconnected_sender.publish(name);
}

/// What the others learn when a user arrives. The newcomer finds the
/// names of all who were there before it, and every stream of arrivals that
/// is open gets the newcomer's name as its newest event: one more event
/// where the stream has room for it, and else the event in place of the
/// oldest.
pub proof fn lemma_arrival_announced(
    users: RegistryModel,
    arrivals: ChannelModel<String>,
    name: String,
    stream: nat,
)
    requires
        users.wf(),
        arrivals.wf(),
        arrivals.is_open(stream),
        name@ == user_name(users.next_id),
    ensures
        users.add().wf(),
        users.add().names_except(users.next_id) == users.names_except(users.next_id),
        forall|i: int|
            0 <= i < users.users.len() ==> users.add().names_except(users.next_id).contains(
                (#[trigger] users.users[i]).name,
            ),
        arrivals.publish(name).is_open(stream),
        arrivals.publish(name).mailboxes[stream].pending.last() == name,
        arrivals.mailboxes[stream].pending.len() < arrivals.capacity ==> arrivals.publish(
            name,
        ).mailboxes[stream].pending == arrivals.mailboxes[stream].pending.push(name),
{
    lemma_add_wf(users);
    lemma_publish_reaches_all(arrivals, name, stream);
    lemma_names_except(users, users.next_id);
    let added = users.add();
    assert(added.users.drop_last() =~= users.users);
    assert forall|i: int| 0 <= i < users.users.len() implies users.names_except(
        users.next_id,
    ).contains((#[trigger] users.users[i]).name) by {
        assert(users.users[i].id < users.next_id);
    }
}

/// What the others learn when a user leaves. From then on nobody finds its
/// name among the others, and every stream of departures that was open
/// before gets the name as its newest event: exactly one more event where
/// the stream has room for it, and else the event in place of the oldest.
pub proof fn lemma_departure_announced(
    users: RegistryModel,
    departures: ChannelModel<String>,
    id: nat,
    name: String,
    asking: nat,
    stream: nat,
)
    requires
        users.wf(),
        departures.wf(),
        departures.is_open(stream),
        name@ == user_name(id),
    ensures
        !users.remove(id).names_except(asking).contains(name@),
        departures.publish(name).is_open(stream),
        departures.publish(name).mailboxes[stream].pending.last() == name,
        departures.mailboxes[stream].pending.len() < departures.capacity ==> departures.publish(
            name,
        ).mailboxes[stream].pending == departures.mailboxes[stream].pending.push(name),
{
    lemma_removed_name_is_gone(users, id, asking);
    lemma_publish_reaches_all(departures, name, stream);
}

/// Where a session stands in its life.
#[derive(Clone, Copy, Debug, PartialEq, Eq, Structural)]
pub enum Phase {
    /// The transport is there, the user is not registered yet.
    Accepting,
    /// The user is registered and is being served.
    Active,
    /// The transport is gone; the user is still registered.
    Terminating,
    /// The session is over and has left nothing behind.
    Closed,
}

/// What can happen to a session.
pub enum Transition {
    /// The transport was accepted.
    Accept,
    /// The transport was closed or has failed, in either direction.
    Terminate,
    /// The session is cleaned up.
    Close,
}

impl Phase {
    /// The phase that follows this one on `transition`. A transition that
    /// does not fit the phase leaves it as it is.
    pub open spec fn next(self, transition: Transition) -> Phase {
        match (self, transition) {
            (Phase::Accepting, Transition::Accept) => Phase::Active,
            (Phase::Accepting, Transition::Terminate) => Phase::Closed,
            (Phase::Active, Transition::Terminate) => Phase::Terminating,
            (Phase::Terminating, Transition::Close) => Phase::Closed,
            _ => self,
        }
    }

    /// The phase after `transitions`, taken in order.
    pub open spec fn run(self, transitions: Seq<Transition>) -> Phase
        decreases transitions.len(),
    {
        if transitions.len() == 0 {
            self
        } else {
            self.run(transitions.drop_last()).next(transitions.last())
        }
    }

    /// Whether `transition`, taken in this phase, registers the user.
    pub open spec fn registers(self, transition: Transition) -> bool {
        self is Accepting && transition is Accept
    }

    /// Whether `transition`, taken in this phase, cleans the session up:
    /// takes the user out of the registry and announces its departure.
    pub open spec fn cleans_up(self, transition: Transition) -> bool {
        self is Terminating && transition is Close
    }

    /// How often the session is cleaned up in the course of `transitions`.
    pub open spec fn cleanups(self, transitions: Seq<Transition>) -> nat
        decreases transitions.len(),
    {
        if transitions.len() == 0 {
            0
        } else {
            let earlier = transitions.drop_last();
            self.cleanups(earlier) + if self.run(earlier).cleans_up(transitions.last()) {
                1nat
            } else {
                0nat
            }
        }
    }

    /// How far along its life a session in this phase is.
    pub open spec fn rank(self) -> nat {
        match self {
            Phase::Accepting => 0,
            Phase::Active => 1,
            Phase::Terminating => 2,
            Phase::Closed => 3,
        }
    }
}

/// A session only moves forward in its life: whatever happens to it, it
/// never returns to an earlier phase. A session that has left the phase
/// `Active` is therefore never active again.
pub proof fn lemma_never_back(phase: Phase, transitions: Seq<Transition>)
    ensures
        phase.rank() <= phase.run(transitions).rank(),
        phase.rank() >= 2 ==> !(phase.run(transitions) is Active),
    decreases transitions.len(),
{
    if transitions.len() > 0 {
        lemma_never_back(phase, transitions.drop_last());
    }
}

/// A session is cleaned up at most once, whatever happens to it and however
/// often its cleanup is asked for. A session whose user was registered and
/// that has come to its end was cleaned up exactly once, and one that ended
/// before its user was registered was never cleaned up.
pub proof fn lemma_cleanup_once(phase: Phase, transitions: Seq<Transition>)
    ensures
        phase.cleanups(transitions) <= 1,
        phase.cleanups(transitions) == 1 ==> phase.run(transitions) is Closed,
        (phase is Active || phase is Terminating) && phase.run(transitions) is Closed
            ==> phase.cleanups(transitions) == 1,
        phase is Closed ==> phase.cleanups(transitions) == 0,
    decreases transitions.len(),
{
    if transitions.len() > 0 {
        let earlier = transitions.drop_last();
        lemma_cleanup_once(phase, earlier);
        lemma_never_back(phase, earlier);
        if phase is Closed {
            lemma_closed_stays(phase, earlier);
        }
    }
}

/// A closed session stays closed.
pub proof fn lemma_closed_stays(phase: Phase, transitions: Seq<Transition>)
    requires
        phase is Closed,
    ensures
        phase.run(transitions) is Closed,
    decreases transitions.len(),
{
    if transitions.len() > 0 {
        lemma_closed_stays(phase, transitions.drop_last());
    }
}

/// One session of the hub.
pub struct Session {
    phase: Phase,
    /// The chat service of the session's user, once it is registered.
    producer: Option<Producer>,
}

impl Session {
    /// The phase that the session is in.
    pub closed spec fn phase(&self) -> Phase {
        self.phase
    }

    /// The chat service of the session's user, from its registration on.
    pub closed spec fn service(&self) -> Option<Producer> {
        self.producer
    }

    /// What every session keeps to: its user has a chat service from the
    /// moment it is registered, and not before.
    pub open spec fn wf(&self) -> bool {
        &&& self.phase() is Accepting ==> self.service() is None
        &&& (self.phase() is Active || self.phase() is Terminating) ==> self.service() is Some
    }

    /// The session of a transport that is about to be accepted.
    pub fn new() -> (session: Self)
        ensures
            session.wf(),
            session.phase() is Accepting,
            session.service() is None,
    {
        Session { phase: Phase::Accepting, producer: None }
    }

    /// The phase that the session is in.
    pub fn current_phase(&self) -> (phase: Phase)
        ensures
            phase == self.phase(),
    {
        self.phase
    }

    /// The chat service to serve the user with, while the session is
    /// active.
    pub fn producer(&self) -> (producer: Option<&Producer>)
        requires
            self.wf(),
        ensures
            producer is Some == self.phase() is Active,
            producer matches Some(service) ==> Some(*service) == self.service(),
    {
        match self.phase {
            Phase::Active => self.producer.as_ref(),
            _ => None,
        }
    }

    /// The transport was accepted. A session that was waiting for this
    /// becomes active: its user is registered and announced, as by
    /// `user_connected`. On any other session this changes nothing.
    pub fn accept(&mut self, state: &mut State)
        requires
            old(self).wf(),
            old(state).wf(),
            !old(state).users.is_full(),
        ensures
            final(self).wf(),
            final(state).wf(),
            final(self).phase() == old(self).phase().next(Transition::Accept),
            old(self).phase().registers(Transition::Accept) ==> {
                &&& final(self).service() matches Some(producer)
                &&& producer.id() == old(state).users@.next_id
                &&& producer.name()@ == user_name(producer.id())
                &&& final(state).users@ == old(state).users@.add()
                &&& final(state).users@.contains(producer.id())
                &&& final(state).connected_sender@ == old(state).connected_sender@.publish(
                    producer.name(),
                )
                &&& final(state).message_sender == old(state).message_sender
                &&& final(state).disconnected_sender == old(state).disconnected_sender
            },
            !old(self).phase().registers(Transition::Accept) ==> *final(self) == *old(self)
                && *final(state) == *old(state),
    {
        match self.phase {
            Phase::Accepting => {
                let producer = user_connected(state);
                self.producer = Some(producer);
                self.phase = Phase::Active;
            },
            _ => {},
        }
    }

    /// The transport was closed or has failed. An active session stops
    /// being served and waits for its cleanup; a session whose user was
    /// never registered is over. On any other session this changes
    /// nothing.
    pub fn terminate(&mut self)
        requires
            old(self).wf(),
        ensures
            final(self).wf(),
            final(self).phase() == old(self).phase().next(Transition::Terminate),
            final(self).service() == old(self).service(),
    {
        match self.phase {
            Phase::Accepting => {
                self.phase = Phase::Closed;
            },
            Phase::Active => {
                self.phase = Phase::Terminating;
            },
            _ => {},
        }
    }

    /// Cleans the session up. A session that waits for its cleanup is
    /// closed: its user is taken out of the registry and its departure is
    /// announced, as by `user_disconnected`. On any other session this
    /// changes nothing, so that asking twice cleans up once.
    pub fn close(&mut self, state: &mut State)
        requires
            old(self).wf(),
            old(state).wf(),
        ensures
            final(self).wf(),
            final(state).wf(),
            final(self).phase() == old(self).phase().next(Transition::Close),
            final(self).service() == old(self).service(),
            old(self).phase().cleans_up(Transition::Close) ==> {
                &&& old(self).service() matches Some(producer)
                &&& final(state).users@ == old(state).users@.remove(producer.id())
                &&& final(state).disconnected_sender@ == old(state).disconnected_sender@.publish(
                    producer.name(),
                )
                &&& final(state).message_sender == old(state).message_sender
                &&& final(state).connected_sender == old(state).connected_sender
            },
            !old(self).phase().cleans_up(Transition::Close) ==> *final(state) == *old(state),
    {
        match self.phase {
            Phase::Terminating => {
                match &self.producer {
                    Some(producer) => {
                        user_disconnected(producer.user_id(), producer.user_name(), state);
                    },
                    None => {},
                }
                self.phase = Phase::Closed;
            },
            _ => {},
        }
    }
}

} // verus!
