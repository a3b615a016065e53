//! Document groups and their registry.

use crate::message::{CollabOrigin, CollabType};
use std::collections::HashMap;
use vstd::hash_map::StringHashMap;
use vstd::prelude::*;

verus! {

broadcast use vstd::std_specs::hash::group_hash_axioms;

/// The mathematical state of one document group.
pub struct GroupView {
    pub object_id: Seq<char>,
    pub workspace_id: Seq<char>,
    pub creator: i64,
    pub collab_type: CollabType,
    /// Each subscriber with the origin it subscribed under.
    pub subscribers: Map<u64, CollabOrigin>,
}

impl GroupView {
    /// Whether the group has no subscriber.
    pub open spec fn is_empty(self) -> bool {
        forall|u: u64| !self.subscribers.contains_key(u)
    }

    /// The group without `user`.
    pub open spec fn without(self, user: u64) -> GroupView {
        GroupView { subscribers: self.subscribers.remove(user), ..self }
    }

    /// The group with `user` registered under `origin`, unless `user` is
    /// registered already.
    pub open spec fn with(self, user: u64, origin: CollabOrigin) -> GroupView {
        if self.subscribers.contains_key(user) {
            self
        } else {
            GroupView { subscribers: self.subscribers.insert(user, origin), ..self }
        }
    }
}

/// The broadcast hub of one document: who is subscribed, and the data the
/// group was opened with.
pub struct DocumentGroup {
    object_id: String,
    workspace_id: String,
    creator: i64,
    collab_type: CollabType,
    subscribers: HashMap<u64, CollabOrigin>,
}

impl View for DocumentGroup {
    type V = GroupView;

    closed spec fn view(&self) -> GroupView {
        GroupView {
            object_id: self.object_id@,
            workspace_id: self.workspace_id@,
            creator: self.creator,
            collab_type: self.collab_type,
            subscribers: self.subscribers@,
        }
    }
}

impl DocumentGroup {
    /// A group without subscribers.
    pub fn new(creator: i64, workspace_id: String, object_id: String, collab_type: CollabType) -> (r:
        Self)
        ensures
            r@ == (GroupView {
                object_id: object_id@,
                workspace_id: workspace_id@,
                creator,
                collab_type,
                subscribers: Map::empty(),
            }),
    {
        DocumentGroup { object_id, workspace_id, creator, collab_type, subscribers: HashMap::new() }
    }

    /// The id of the group's document.
    pub fn object_id(&self) -> (r: &String)
        ensures
            r@ == self@.object_id,
    {
        &self.object_id
    }

    /// The workspace the document belongs to.
    pub fn workspace_id(&self) -> (r: &String)
        ensures
            r@ == self@.workspace_id,
    {
        &self.workspace_id
    }

    /// The user whose initial sync opened the group.
    pub fn creator(&self) -> (r: i64)
        ensures
            r == self@.creator,
    {
        self.creator
    }

    /// The kind of the group's document.
    pub fn collab_type(&self) -> (r: CollabType)
        ensures
            r == self@.collab_type,
    {
        self.collab_type
    }

    /// A second group in the same state.
    pub fn duplicate(&self) -> (r: Self)
        ensures
            r@ == self@,
    {
        DocumentGroup {
            object_id: self.object_id.clone(),
            workspace_id: self.workspace_id.clone(),
            creator: self.creator,
            collab_type: self.collab_type,
            subscribers: self.subscribers.clone(),
        }
    }

    /// Whether `user` is subscribed.
    pub fn contains(&self, user: u64) -> (r: bool)
        ensures
            r == self@.subscribers.contains_key(user),
    {
        self.subscribers.contains_key(&user)
    }

    /// Whether nobody is subscribed.
    pub fn is_empty(&self) -> (r: bool)
        ensures
            r == self@.is_empty(),
    {
        let r = self.subscribers.is_empty();
        proof {
            if r {
                assert(self.subscribers@.dom() =~= Set::empty());
            } else {
                if self@.is_empty() {
                    assert forall|u: u64| !self.subscribers@.dom().contains(u) by {
                        assert(!self@.subscribers.contains_key(u));
                    }
                    assert(self.subscribers@.dom() =~= Set::empty());
                }
            }
        }
        r
    }

    /// Registers `user` under `origin`; changes nothing if `user` is
    /// registered already. Returns whether `user` was added.
    pub fn subscribe(&mut self, user: u64, origin: CollabOrigin) -> (added: bool)
        ensures
            final(self)@ == old(self)@.with(user, origin),
            added == !old(self)@.subscribers.contains_key(user),
    {
        if self.subscribers.contains_key(&user) {
            false
        } else {
            self.subscribers.insert(user, origin);
            true
        }
    }

    /// Removes `user`; returns whether the group is now empty.
    pub fn unsubscribe(&mut self, user: u64) -> (now_empty: bool)
        ensures
            final(self)@ == old(self)@.without(user),
            now_empty == old(self)@.without(user).is_empty(),
    {
        self.subscribers.remove(&user);
        self.is_empty()
    }
}

/// The view of the groups held under each document id.
pub open spec fn groups_view(m: Map<Seq<char>, DocumentGroup>) -> Map<Seq<char>, GroupView> {
    m.map_values(|g: DocumentGroup| g@)
}

/// The registry of the active document groups, by document id.
pub struct CollabGroupCache {
    groups: StringHashMap<DocumentGroup>,
}

impl View for CollabGroupCache {
    type V = Map<Seq<char>, GroupView>;

    closed spec fn view(&self) -> Map<Seq<char>, GroupView> {
        groups_view(self.groups@)
    }
}

impl CollabGroupCache {
    /// A registry without groups.
    pub fn new() -> (r: Self)
        ensures
            r@ == Map::<Seq<char>, GroupView>::empty(),
    {
        let r = CollabGroupCache { groups: StringHashMap::new() };
        proof {
            assert(r@ =~= Map::<Seq<char>, GroupView>::empty());
        }
        r
    }

    /// Whether a group is registered under `object_id`.
    pub fn contains_key(&self, object_id: &String) -> (r: bool)
        ensures
            r == self@.contains_key(object_id@),
    {
        self.groups.contains_key(object_id.as_str())
    }

    /// The group registered under `object_id`.
    pub fn get(&self, object_id: &String) -> (r: Option<&DocumentGroup>)
        ensures
            match r {
                Some(g) => self@.contains_key(object_id@) && g@ == self@[object_id@],
                None => !self@.contains_key(object_id@),
            },
    {
        self.groups.get(object_id.as_str())
    }

    /// Registers a fresh group without subscribers under `object_id`. Makes
    /// no check: a group that is registered there already is replaced.
    pub fn create_group(&mut self, uid: i64, workspace_id: &String, object_id: &String, collab_type: CollabType)
        ensures
            final(self)@ == old(self)@.insert(
                object_id@,
                GroupView {
                    object_id: object_id@,
                    workspace_id: workspace_id@,
                    creator: uid,
                    collab_type,
                    subscribers: Map::empty(),
                },
            ),
    {
        let group = DocumentGroup::new(uid, workspace_id.clone(), object_id.clone(), collab_type);
        self.insert_group(object_id, group);
    }

    /// Registers `group` under `object_id`, in place of the group that is
    /// registered there, if one is.
    pub fn insert_group(&mut self, object_id: &String, group: DocumentGroup)
        ensures
            final(self)@ == old(self)@.insert(object_id@, group@),
    {
        self.groups.insert(object_id.clone(), group);
        proof {
            assert(self@ =~= old(self)@.insert(object_id@, group@));
        }
    }

    /// Drops the group registered under `object_id`, if one is.
    pub fn remove_group(&mut self, object_id: &String)
        ensures
            final(self)@ == old(self)@.remove(object_id@),
    {
        self.groups.remove(object_id.as_str());
        proof {
            assert(self@ =~= old(self)@.remove(object_id@));
        }
    }
}

} // verus!
