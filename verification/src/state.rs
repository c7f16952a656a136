//! The hub's shared state: the registry of connected users and the three
//! channels on which chat messages, arrivals and departures are announced.

use crate::channel::{Channel, ChannelModel, Event};
use crate::registry::{user_name, Registry, RegistryModel, User};
use vstd::prelude::*;

verus! {

/// How many events a subscriber of one of the hub's channels may leave
/// unread before it starts to lose the oldest of them.
pub const CHANNEL_CAPACITY: usize = 10;

impl Event for (String, String) {
    fn duplicate(&self) -> (copy: (String, String)) {
        (self.0.clone(), self.1.clone())
    }
}

/// The state that all sessions of the hub share.
pub struct State {
    /// The users that are connected.
    pub users: Registry,
    /// Chat messages, each with the name of its sender before its text.
    pub message_sender: Channel<(String, String)>,
    /// The names of users as they connect.
    pub connected_sender: Channel<String>,
    /// The names of users as they disconnect.
    pub disconnected_sender: Channel<String>,
}

impl State {
    /// What the state keeps to: each of its parts is well formed.
    pub open spec fn wf(&self) -> bool {
        &&& self.users.wf()
        &&& self.message_sender.wf()
        &&& self.connected_sender.wf()
        &&& self.disconnected_sender.wf()
    }

    /// The state of a hub that nobody has connected to yet: no users, no
    /// subscribers, and channels of capacity `CHANNEL_CAPACITY`.
    pub fn new() -> (state: Self)
        ensures
            state.wf(),
            state.users@ == RegistryModel::new(),
            state.message_sender@ == ChannelModel::<(String, String)>::new(CHANNEL_CAPACITY as nat),
            state.connected_sender@ == ChannelModel::<String>::new(CHANNEL_CAPACITY as nat),
            state.disconnected_sender@ == ChannelModel::<String>::new(CHANNEL_CAPACITY as nat),
    {
        State {
            users: Registry::new(),
            message_sender: Channel::new(CHANNEL_CAPACITY),
            connected_sender: Channel::new(CHANNEL_CAPACITY),
            disconnected_sender: Channel::new(CHANNEL_CAPACITY),
        }
    }

    /// Adds a new user and returns a reference to it. The user gets an id
    /// that no user had before and the name that goes with that id. The
    /// channels are left alone.
    pub fn add_user(&mut self) -> (user: &User)
        requires
            old(self).wf(),
            !old(self).users.is_full(),
        ensures
            final(self).wf(),
            final(self).users@ == old(self).users@.add(),
            user@ == final(self).users@.users.last(),
            user.id == old(self).users@.next_id,
            user.id >= 1,
            user.name@ == user_name(user.id as nat),
            !old(self).users@.contains(user.id as nat),
            final(self).message_sender == old(self).message_sender,
            final(self).connected_sender == old(self).connected_sender,
            final(self).disconnected_sender == old(self).disconnected_sender,
    {
        self.users.add()
    }
}

} // verus!
