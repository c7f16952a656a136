//! The session registry: who is connected, under which id and name.

use crate::allocator::IdAllocator;
use crate::decimal::{decimal, lemma_decimal_injective, push_decimal};
use vstd::prelude::*;
use vstd::string::*;

verus! {

/// The name that the user with the id `id` gets: `User `, then the id in
/// decimal notation.
pub open spec fn user_name(id: nat) -> Seq<char> {
    seq!['U', 's', 'e', 'r', ' '] + decimal(id)
}

/// Users with different ids have different names.
pub proof fn lemma_user_name_injective(a: nat, b: nat)
    requires
        user_name(a) == user_name(b),
    ensures
        a == b,
{
    let prefix = seq!['U', 's', 'e', 'r', ' '];
    assert(decimal(a) =~= user_name(a).skip(prefix.len() as int));
    assert(decimal(b) =~= user_name(b).skip(prefix.len() as int));
    lemma_decimal_injective(a, b);
}

/// A connected user as the registry's model knows it.
pub struct UserModel {
    pub id: nat,
    pub name: Seq<char>,
}

/// A connected user.
#[derive(Debug)]
pub struct User {
    pub id: usize,
    pub name: String,
}

impl View for User {
    type V = UserModel;

    open spec fn view(&self) -> UserModel {
        UserModel { id: self.id as nat, name: self.name@ }
    }
}

/// The name that the user with the id `id` gets.
pub fn name_for(id: usize) -> (name: String)
    ensures
        name@ == user_name(id as nat),
{
    let mut name = String::from_str("User ");
    proof {
        reveal_strlit("User ");
        assert(name@ =~= seq!['U', 's', 'e', 'r', ' ']);
    }
    push_decimal(&mut name, id);
    name
}

impl User {
    /// A user under the next id of `ids`, named after that id.
    pub fn new(ids: &mut IdAllocator) -> (user: Self)
        requires
            !old(ids).is_exhausted(),
        ensures
            user.id == old(ids).next_id(),
            user.id >= 1,
            user.name@ == user_name(user.id as nat),
            final(ids).next_id() == old(ids).next_id() + 1,
    {
        let id = ids.next();
        User { id, name: name_for(id) }
    }
}

/// The users of `users` but the one with the id `id`, in their order.
pub open spec fn without(users: Seq<UserModel>, id: nat) -> Seq<UserModel>
    decreases users.len(),
{
    if users.len() == 0 {
        users
    } else if users.last().id == id {
        without(users.drop_last(), id)
    } else {
        without(users.drop_last(), id).push(users.last())
    }
}

/// The names of `users`, in their order.
pub open spec fn names(users: Seq<UserModel>) -> Seq<Seq<char>> {
    users.map_values(|user: UserModel| user.name)
}

/// What the strings of `names` hold, in their order.
pub open spec fn texts(names: Seq<String>) -> Seq<Seq<char>> {
    names.map_values(|name: String| name@)
}

/// The registry as a list of users in the order of their arrival, with the
/// id that the next arrival gets.
pub struct RegistryModel {
    pub next_id: nat,
    pub users: Seq<UserModel>,
}

impl RegistryModel {
    /// What holds of every registry: ids are positive, were handed out
    /// before `next_id`, and grow along the list, so that none occurs
    /// twice; and every user bears the name that goes with its id.
    pub open spec fn wf(self) -> bool {
        &&& self.next_id >= 1
        &&& forall|i: int|
            0 <= i < self.users.len() ==> 1 <= (#[trigger] self.users[i]).id < self.next_id
        &&& forall|i: int, j: int|
            0 <= i < j < self.users.len() ==> (#[trigger] self.users[i]).id < (
            #[trigger] self.users[j]).id
        &&& forall|i: int|
            0 <= i < self.users.len() ==> (#[trigger] self.users[i]).name == user_name(
                self.users[i].id,
            )
    }

    /// The registry before anyone has connected.
    pub open spec fn new() -> Self {
        RegistryModel { next_id: 1, users: Seq::empty() }
    }

    /// Whether a user with the id `id` is registered.
    pub open spec fn contains(self, id: nat) -> bool {
        exists|i: int| 0 <= i < self.users.len() && (#[trigger] self.users[i]).id == id
    }

    /// The registry after one more user has connected: it gets the id
    /// `next_id` and the name that goes with it.
    pub open spec fn add(self) -> Self {
        RegistryModel {
            next_id: self.next_id + 1,
            users: self.users.push(UserModel { id: self.next_id, name: user_name(self.next_id) }),
        }
    }

    /// The registry after the user with the id `id` has left. Without such
    /// a user it is the registry itself.
    pub open spec fn remove(self, id: nat) -> Self {
        RegistryModel { next_id: self.next_id, users: without(self.users, id) }
    }

    /// The names of all users but the one with the id `id`, in the order of
    /// their arrival.
    pub open spec fn names_except(self, id: nat) -> Seq<Seq<char>> {
        names(without(self.users, id))
    }
}

/// `without` keeps exactly the users with another id, in their order.
pub proof fn lemma_without(users: Seq<UserModel>, id: nat)
    ensures
        without(users, id).len() <= users.len(),
        forall|k: int|
            0 <= k < without(users, id).len() ==> (#[trigger] without(users, id)[k]).id != id
                && users.contains(without(users, id)[k]),
        forall|i: int|
            0 <= i < users.len() && (#[trigger] users[i]).id != id ==> without(users, id).contains(
                users[i],
            ),
    decreases users.len(),
{
    if users.len() > 0 {
        let shorter = users.drop_last();
        lemma_without(shorter, id);
        let kept = without(shorter, id);
        assert forall|k: int| 0 <= k < without(users, id).len() implies (#[trigger] without(
            users,
            id,
        )[k]).id != id && users.contains(without(users, id)[k]) by {
            if k < kept.len() {
                let i = choose|i: int| 0 <= i < shorter.len() && shorter[i] == kept[k];
                assert(users[i] == kept[k]);
            } else {
                assert(users[users.len() - 1] == without(users, id)[k]);
            }
        }
        assert forall|i: int| 0 <= i < users.len() && (#[trigger] users[i]).id != id implies without(
            users,
            id,
        ).contains(users[i]) by {
            if i < shorter.len() {
                assert(shorter[i] == users[i]);
                let k = choose|k: int| 0 <= k < kept.len() && kept[k] == shorter[i];
                assert(without(users, id)[k] == users[i]);
            } else {
                assert(without(users, id)[kept.len() as int] == users[i]);
            }
        }
    }
}

/// Where no user has the id `id`, `without` keeps them all.
pub proof fn lemma_without_absent(users: Seq<UserModel>, id: nat)
    requires
        forall|i: int| 0 <= i < users.len() ==> (#[trigger] users[i]).id != id,
    ensures
        without(users, id) == users,
    decreases users.len(),
{
    if users.len() > 0 {
        let shorter = users.drop_last();
        assert forall|i: int| 0 <= i < shorter.len() implies (#[trigger] shorter[i]).id != id by {
            assert(shorter[i] == users[i]);
        }
        lemma_without_absent(shorter, id);
        assert(users.last() == users[users.len() - 1]);
        assert(shorter.push(users.last()) =~= users);
    }
}

/// Where exactly the user at the place `at` has the id `id`, `without`
/// takes that one out.
pub proof fn lemma_without_at(users: Seq<UserModel>, id: nat, at: int)
    requires
        0 <= at < users.len(),
        users[at].id == id,
        forall|i: int| 0 <= i < users.len() && i != at ==> (#[trigger] users[i]).id != id,
    ensures
        without(users, id) == users.remove(at),
    decreases users.len(),
{
    let shorter = users.drop_last();
    if at == users.len() - 1 {
        assert forall|i: int| 0 <= i < shorter.len() implies (#[trigger] shorter[i]).id != id by {
            assert(shorter[i] == users[i]);
        }
        lemma_without_absent(shorter, id);
        assert(shorter =~= users.remove(at));
    } else {
        assert(users.last() == users[users.len() - 1]);
        assert forall|i: int| 0 <= i < shorter.len() && i != at implies (#[trigger] shorter[i]).id
            != id by {
            assert(shorter[i] == users[i]);
        }
        assert(shorter[at] == users[at]);
        lemma_without_at(shorter, id, at);
        assert(shorter.remove(at).push(users.last()) =~= users.remove(at));
    }
}

/// One change of the registry.
pub enum Step {
    /// A user connects and is registered.
    Add,
    /// The user with this id, if there is one, leaves.
    Remove(nat),
}

impl RegistryModel {
    /// The registry after `step`.
    pub open spec fn apply(self, step: Step) -> Self {
        match step {
            Step::Add => self.add(),
            Step::Remove(id) => self.remove(id),
        }
    }

    /// The registry after `steps`, taken in order.
    pub open spec fn run(self, steps: Seq<Step>) -> Self
        decreases steps.len(),
    {
        if steps.len() == 0 {
            self
        } else {
            self.run(steps.drop_last()).apply(steps.last())
        }
    }

    /// The ids that the users registered in the course of `steps` get, in
    /// the order of their registration.
    pub open spec fn ids_added(self, steps: Seq<Step>) -> Seq<nat>
        decreases steps.len(),
    {
        if steps.len() == 0 {
            Seq::empty()
        } else {
            let earlier = self.ids_added(steps.drop_last());
            match steps.last() {
                Step::Add => earlier.push(self.run(steps.drop_last()).next_id),
                Step::Remove(_) => earlier,
            }
        }
    }
}

/// Registering a user keeps the registry well formed, and the new user
/// was not registered before.
pub proof fn lemma_add_wf(registry: RegistryModel)
    requires
        registry.wf(),
    ensures
        registry.add().wf(),
        !registry.contains(registry.next_id),
        registry.add().contains(registry.next_id),
{
    let after = registry.add();
    assert forall|i: int| 0 <= i < after.users.len() implies 1 <= (#[trigger] after.users[i]).id
        < after.next_id && after.users[i].name == user_name(after.users[i].id) by {
        if i < registry.users.len() {
            assert(after.users[i] == registry.users[i]);
        }
    }
    assert forall|i: int, j: int| 0 <= i < j < after.users.len() implies (
    #[trigger] after.users[i]).id < (#[trigger] after.users[j]).id by {
        assert(after.users[i] == registry.users[i]);
        if j < registry.users.len() {
            assert(after.users[j] == registry.users[j]);
        }
    }
    assert(after.users[registry.users.len() as int].id == registry.next_id);
}

/// In a well-formed registry, removing a user takes out the one entry with
/// its id, if there is one, and leaves the registry well formed. After it
/// no user has that id, and every other user is still there.
pub proof fn lemma_remove_wf(registry: RegistryModel, id: nat)
    requires
        registry.wf(),
    ensures
        registry.remove(id).wf(),
        !registry.remove(id).contains(id),
        !registry.contains(id) ==> registry.remove(id) == registry,
        forall|other: nat|
            other != id ==> registry.remove(id).contains(other) == #[trigger] registry.contains(
                other,
            ),
{
    let users = registry.users;
    let after = registry.remove(id);
    lemma_without(users, id);
    if registry.contains(id) {
        let at = choose|i: int| 0 <= i < users.len() && (#[trigger] users[i]).id == id;
        assert forall|i: int| 0 <= i < users.len() && i != at implies (#[trigger] users[i]).id
            != id by {
            if i < at {
                assert(users[i].id < users[at].id);
            } else {
                assert(users[at].id < users[i].id);
            }
        }
        lemma_without_at(users, id, at);
        assert forall|i: int| 0 <= i < after.users.len() implies 1 <= (
        #[trigger] after.users[i]).id < after.next_id && after.users[i].name == user_name(
            after.users[i].id,
        ) by {
            if i < at {
                assert(after.users[i] == users[i]);
            } else {
                assert(after.users[i] == users[i + 1]);
            }
        }
        assert forall|i: int, j: int| 0 <= i < j < after.users.len() implies (
        #[trigger] after.users[i]).id < (#[trigger] after.users[j]).id by {
            let from_i = if i < at { i } else { i + 1 };
            let from_j = if j < at { j } else { j + 1 };
            assert(after.users[i] == users[from_i]);
            assert(after.users[j] == users[from_j]);
            assert(users[from_i].id < users[from_j].id);
        }
    } else {
        lemma_without_absent(users, id);
    }
    assert forall|other: nat| other != id implies after.contains(other) == #[trigger] registry.contains(
        other,
    ) by {
        if registry.contains(other) {
            let i = choose|i: int| 0 <= i < users.len() && (#[trigger] users[i]).id == other;
            assert(after.users.contains(users[i]));
            let k = choose|k: int| 0 <= k < after.users.len() && after.users[k] == users[i];
            assert(after.users[k].id == other);
        }
        if after.contains(other) {
            let k = choose|k: int| 0 <= k < after.users.len() && (#[trigger] after.users[k]).id
                == other;
            assert(users.contains(after.users[k]));
            let i = choose|i: int| 0 <= i < users.len() && users[i] == after.users[k];
            assert(users[i].id == other);
        }
    }
    if after.contains(id) {
        let k = choose|k: int| 0 <= k < after.users.len() && (#[trigger] after.users[k]).id == id;
        assert(false);
    }
}

/// Removing a user twice is removing it once.
pub proof fn lemma_remove_idempotent(registry: RegistryModel, id: nat)
    requires
        registry.wf(),
    ensures
        registry.remove(id).remove(id) == registry.remove(id),
{
    lemma_remove_wf(registry, id);
    lemma_remove_wf(registry.remove(id), id);
}

/// Ids are never used twice. However registrations and removals follow one
/// another, the users registered get the ids from `next_id` upwards, one
/// after the other: each id is larger than those given before it, so no two
/// registrations get the same id, and none gets an id that a user of the
/// registry had to begin with.
pub proof fn lemma_ids_never_reused(registry: RegistryModel, steps: Seq<Step>)
    requires
        registry.wf(),
    ensures
        registry.run(steps).wf(),
        registry.run(steps).next_id == registry.next_id + registry.ids_added(steps).len(),
        forall|k: int|
            0 <= k < registry.ids_added(steps).len() ==> #[trigger] registry.ids_added(steps)[k]
                == registry.next_id + k,
        forall|i: int, j: int|
            0 <= i < registry.ids_added(steps).len() && 0 <= j < registry.ids_added(steps).len()
                && i != j ==> registry.ids_added(steps)[i] != registry.ids_added(steps)[j],
        forall|k: int|
            0 <= k < registry.ids_added(steps).len() ==> !registry.contains(
                #[trigger] registry.ids_added(steps)[k],
            ),
    decreases steps.len(),
{
    if steps.len() > 0 {
        let earlier = steps.drop_last();
        lemma_ids_never_reused(registry, earlier);
        let before = registry.run(earlier);
        match steps.last() {
            Step::Add => {
                lemma_add_wf(before);
            },
            Step::Remove(id) => {
                lemma_remove_wf(before, id);
            },
        }
    }
    let ids = registry.ids_added(steps);
    assert forall|k: int| 0 <= k < ids.len() implies !registry.contains(#[trigger] ids[k]) by {
        if registry.contains(ids[k]) {
            let i = choose|i: int|
                0 <= i < registry.users.len() && (#[trigger] registry.users[i]).id == ids[k];
            assert(registry.users[i].id < registry.next_id);
        }
    }
}

/// The names of the others never include one's own: whoever asks, and
/// whatever the registry holds, the answer lacks the name that goes with
/// the id of the one who asks, and has the name of every other user.
pub proof fn lemma_names_except(registry: RegistryModel, id: nat)
    requires
        registry.wf(),
    ensures
        !registry.names_except(id).contains(user_name(id)),
        forall|i: int|
            0 <= i < registry.users.len() && (#[trigger] registry.users[i]).id != id
                ==> registry.names_except(id).contains(registry.users[i].name),
        forall|k: int|
            0 <= k < registry.names_except(id).len() ==> exists|i: int|
                0 <= i < registry.users.len() && registry.users[i].id != id && (
                #[trigger] registry.users[i]).name == #[trigger] registry.names_except(id)[k],
{
    let others = without(registry.users, id);
    let listed = registry.names_except(id);
    lemma_without(registry.users, id);
    assert forall|k: int| 0 <= k < listed.len() implies exists|i: int|
        0 <= i < registry.users.len() && registry.users[i].id != id && (
        #[trigger] registry.users[i]).name == #[trigger] listed[k] by {
        assert(registry.users.contains(others[k]));
        let i = choose|i: int| 0 <= i < registry.users.len() && registry.users[i] == others[k];
        assert(registry.users[i].name == listed[k]);
    }
    if listed.contains(user_name(id)) {
        let k = choose|k: int| 0 <= k < listed.len() && listed[k] == user_name(id);
        let i = choose|i: int|
            0 <= i < registry.users.len() && registry.users[i].id != id && (
            #[trigger] registry.users[i]).name == listed[k];
        lemma_user_name_injective(registry.users[i].id, id);
    }
    assert forall|i: int|
        0 <= i < registry.users.len() && (#[trigger] registry.users[i]).id != id implies listed.contains(
        registry.users[i].name,
    ) by {
        assert(others.contains(registry.users[i]));
        let k = choose|k: int| 0 <= k < others.len() && others[k] == registry.users[i];
        assert(listed[k] == registry.users[i].name);
    }
}

/// Once a user is removed, nobody finds its name among the others any
/// more.
pub proof fn lemma_removed_name_is_gone(registry: RegistryModel, id: nat, asking: nat)
    requires
        registry.wf(),
    ensures
        !registry.remove(id).names_except(asking).contains(user_name(id)),
{
    let after = registry.remove(id);
    lemma_remove_wf(registry, id);
    lemma_names_except(after, asking);
    let listed = after.names_except(asking);
    if listed.contains(user_name(id)) {
        let k = choose|k: int| 0 <= k < listed.len() && listed[k] == user_name(id);
        let i = choose|i: int|
            0 <= i < after.users.len() && after.users[i].id != asking && (
            #[trigger] after.users[i]).name == listed[k];
        lemma_user_name_injective(after.users[i].id, id);
        assert(after.contains(id));
    }
}

/// The registry of connected users, in the order of their arrival, which is
/// also the order of their ids.
pub struct Registry {
    ids: IdAllocator,
    users: Vec<User>,
}

impl View for Registry {
    type V = RegistryModel;

    closed spec fn view(&self) -> RegistryModel {
        RegistryModel {
            next_id: self.ids.next_id(),
            users: self.users@.map_values(|user: User| user@),
        }
    }
}

impl Registry {
    /// What every registry keeps to. `new` establishes it and every
    /// operation preserves it.
    pub open spec fn wf(&self) -> bool {
        self@.wf()
    }

    /// Whether the registry has run out of ids, so that no user can be
    /// added any more.
    pub open spec fn is_full(&self) -> bool {
        self@.next_id > usize::MAX
    }

    /// A registry without users, whose first user gets the id 1.
    pub fn new() -> (registry: Self)
        ensures
            registry@ == RegistryModel::new(),
            registry.wf(),
    {
        let registry = Registry { ids: IdAllocator::new(), users: Vec::new() };
        assert(registry@.users =~= Seq::empty());
        registry
    }

    /// Whether the registry has run out of ids.
    pub fn full(&self) -> (full: bool)
        ensures
            full == self.is_full(),
    {
        self.ids.exhausted()
    }

    /// How many users are registered.
    pub fn len(&self) -> (len: usize)
        ensures
            len == self@.users.len(),
    {
        self.users.len()
    }

    /// Registers a new user under an id that no user had before, named
    /// after that id, and returns it.
    pub fn add(&mut self) -> (user: &User)
        requires
            old(self).wf(),
            !old(self).is_full(),
        ensures
            final(self)@ == old(self)@.add(),
            final(self).wf(),
            user@ == final(self)@.users.last(),
            user.id == old(self)@.next_id,
            user.id >= 1,
            user.name@ == user_name(user.id as nat),
            !old(self)@.contains(user.id as nat),
    {
        let user = User::new(&mut self.ids);
        self.users.push(user);
        proof {
            assert(final(self)@.users =~= old(self)@.add().users);
        }
        &self.users[self.users.len() - 1]
    }

    /// The place of the user with the id `id` in the list, if there is one,
    /// found by bisection: the list is in the order of the ids.
    fn position(&self, id: usize) -> (position: Option<usize>)
        requires
            self.wf(),
        ensures
            match position {
                Some(at) => at < self.users@.len() && self.users@[at as int].id == id,
                None => !self@.contains(id as nat),
            },
    {
        let mut low: usize = 0;
        let mut high: usize = self.users.len();
        while low < high
            invariant
                self.wf(),
                low <= high <= self.users@.len(),
                forall|j: int| 0 <= j < low ==> (#[trigger] self.users@[j]).id < id,
                forall|j: int| high <= j < self.users@.len() ==> (#[trigger] self.users@[j]).id > id,
            decreases high - low,
        {
            let middle = low + (high - low) / 2;
            let found = self.users[middle].id;
            if found == id {
                return Some(middle);
            }
            proof {
                assert forall|j: int| 0 <= j < self.users@.len() implies self@.users[j].id == (
                #[trigger] self.users@[j]).id by {}
                if found < id {
                    assert forall|j: int| 0 <= j < middle + 1 implies (#[trigger] self.users@[j]).id
                        < id by {
                        if j < middle {
                            assert(self@.users[j].id < self@.users[middle as int].id);
                        }
                    }
                } else {
                    assert forall|j: int| middle <= j < self.users@.len() implies (
                    #[trigger] self.users@[j]).id > id by {
                        if j > middle {
                            assert(self@.users[middle as int].id < self@.users[j].id);
                        }
                    }
                }
            }
            if found < id {
                low = middle + 1;
            } else {
                high = middle;
            }
        }
        proof {
            assert forall|j: int| 0 <= j < self@.users.len() implies (#[trigger] self@.users[j]).id
                != id as nat by {
                assert(self.users@[j].id != id);
            }
        }
        None
    }

    /// Whether a user with the id `id` is registered.
    pub fn contains(&self, id: usize) -> (found: bool)
        requires
            self.wf(),
        ensures
            found == self@.contains(id as nat),
    {
        match self.position(id) {
            Some(at) => {
                assert(self@.users[at as int].id == id as nat);
                true
            },
            None => false,
        }
    }

    /// The name of the user with the id `id`, if one is registered.
    pub fn name_of(&self, id: usize) -> (name: Option<String>)
        requires
            self.wf(),
        ensures
            name is Some == self@.contains(id as nat),
            name matches Some(text) ==> text@ == user_name(id as nat),
    {
        match self.position(id) {
            Some(at) => {
                assert(self@.users[at as int].id == id as nat);
                Some(self.users[at].name.clone())
            },
            None => None,
        }
    }

    /// Takes the user with the id `id` out of the registry and returns it.
    /// Without such a user nothing changes.
    pub fn remove(&mut self, id: usize) -> (removed: Option<User>)
        requires
            old(self).wf(),
        ensures
            final(self)@ == old(self)@.remove(id as nat),
            final(self).wf(),
            removed is Some == old(self)@.contains(id as nat),
            removed matches Some(user) ==> user.id == id && user.name@ == user_name(id as nat),
    {
        match self.position(id) {
            Some(at) => {
                let user = self.users.remove(at);
                proof {
                    let before = old(self)@.users;
                    assert(before[at as int].id == id as nat);
                    assert(before[at as int] == user@);
                    assert forall|i: int| 0 <= i < before.len() && i != at implies (
                    #[trigger] before[i]).id != id as nat by {
                        if i < at {
                            assert(before[i].id < before[at as int].id);
                        } else {
                            assert(before[at as int].id < before[i].id);
                        }
                    }
                    lemma_without_at(before, id as nat, at as int);
                    assert(final(self)@.users =~= before.remove(at as int));
                }
                Some(user)
            },
            None => {
                proof {
                    let before = old(self)@.users;
                    assert forall|i: int| 0 <= i < before.len() implies (#[trigger] before[i]).id
                        != id as nat by {
                        if before[i].id == id as nat {
                            assert(old(self)@.contains(id as nat));
                        }
                    }
                    lemma_without_absent(before, id as nat);
                }
                None
            },
        }
    }

    /// The names of all users but the one with the id `excluded`, in the
    /// order of their arrival.
    pub fn names_except(&self, excluded: usize) -> (others: Vec<String>)
        requires
            self.wf(),
        ensures
            texts(others@) == self@.names_except(excluded as nat),
    {
        let mut others: Vec<String> = Vec::new();
        let mut i: usize = 0;
        proof {
            assert(self@.users.take(0) =~= Seq::empty());
            assert(texts(others@) =~= names(
                without(self@.users.take(0), excluded as nat),
            ));
        }
        while i < self.users.len()
            invariant
                i <= self.users@.len(),
                self@.users.len() == self.users@.len(),
                forall|j: int| 0 <= j < self.users@.len() ==> self@.users[j] == self.users@[j]@,
                texts(others@) == names(
                    without(self@.users.take(i as int), excluded as nat),
                ),
            decreases self.users@.len() - i,
        {
            let ghost seen = self@.users.take(i as int);
            let ghost longer = self@.users.take(i + 1);
            proof {
                assert(longer.drop_last() =~= seen);
                assert(longer.last() == self.users@[i as int]@);
            }
            if self.users[i].id != excluded {
                let ghost before = others@;
                let name = self.users[i].name.clone();
                others.push(name);
                proof {
                    assert(texts(others@) =~= texts(before).push(name@));
                    assert(names(without(longer, excluded as nat)) =~= names(
                        without(seen, excluded as nat),
                    ).push(longer.last().name));
                }
            }
            i = i + 1;
        }
        proof {
            assert(self@.users.take(i as int) =~= self@.users);
        }
        others
    }
}

} // verus!
