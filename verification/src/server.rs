//! The hub's registries and the transitions on them.
//!
//! The server keeps three registries: the document groups by document id,
//! the documents each user edits, and the connection of each user. Every
//! transition is specified as a function on [`ServerView`], the mathematical
//! state of the three registries, and the executable operations are proved to
//! compute exactly that function. What the transport and the storage have to
//! do afterwards is handed back as plain values.

use crate::group::{CollabGroupCache, DocumentGroup, GroupView};
use crate::message::{CollabMessage, CollabOrigin, CollabType, Editing, EditingView, RealtimeError};
use std::collections::HashMap;
use vstd::prelude::*;

verus! {

broadcast use vstd::std_specs::hash::group_hash_axioms;

/// Capacity of the bus that carries everything one user sends.
pub const INBOUND_BUS_CAPACITY: usize = 1000;

/// Capacity of the queue that carries one user's edits to one group.
pub const INBOUND_ROUTE_CAPACITY: usize = 100;

/// The two routes between one user and one document group. Both carry only
/// messages about the route's own document.
#[derive(Debug, PartialEq, Eq)]
pub struct RoutePair {
    /// The transport sink the outbound route writes to.
    pub sink: u64,
    /// The document the routes belong to.
    pub object_id: String,
    /// Bound of the inbound queue.
    pub inbound_capacity: usize,
}

/// The mathematical value of a route pair.
pub struct RouteView {
    pub sink: u64,
    pub object_id: Seq<char>,
    pub inbound_capacity: usize,
}

impl View for RoutePair {
    type V = RouteView;

    open spec fn view(&self) -> RouteView {
        RouteView {
            sink: self.sink,
            object_id: self.object_id@,
            inbound_capacity: self.inbound_capacity,
        }
    }
}

/// The route pair of `object_id` for the connection that writes to `sink`.
pub open spec fn route_of(sink: u64, object_id: Seq<char>) -> RouteView {
    RouteView { sink, object_id, inbound_capacity: INBOUND_ROUTE_CAPACITY }
}

impl RoutePair {
    /// Whether a message about `object_id` passes the filter of both routes.
    pub fn carries(&self, object_id: &String) -> (r: bool)
        ensures
            r == (self.object_id@ == object_id@),
    {
        self.object_id == *object_id
    }
}

/// Routing state of one connected user: the transport sink of the
/// connection, from which the routes of each document are derived.
#[derive(Clone, Copy, Debug)]
pub struct CollabClientStream {
    sink: u64,
}

impl CollabClientStream {
    /// The routing state of a fresh connection that writes to `sink`.
    pub fn new(sink: u64) -> (r: Self)
        ensures
            r.sink() == sink,
    {
        CollabClientStream { sink }
    }

    /// The transport sink of the connection.
    pub closed spec fn sink(self) -> u64 {
        self.sink
    }

    /// The transport sink of the connection.
    pub fn ws_sink(&self) -> (r: u64)
        ensures
            r == self.sink(),
    {
        self.sink
    }

    /// Derives the route pair of `object_id` for this connection.
    pub fn client_channel(&mut self, object_id: &String) -> (r: Option<RoutePair>)
        ensures
            *final(self) == *old(self),
            r matches Some(p) && p@ == route_of(old(self).sink(), object_id@),
    {
        Some(
            RoutePair {
                sink: self.sink,
                object_id: object_id.clone(),
                inbound_capacity: INBOUND_ROUTE_CAPACITY,
            },
        )
    }
}

/// The groups that remain, and their state, once `user` has left every
/// group whose id is in `docs`: a group that `user` leaves empty is gone.
pub open spec fn evicted(groups: Map<Seq<char>, GroupView>, user: u64, docs: Set<Seq<char>>) -> Map<
    Seq<char>,
    GroupView,
> {
    Map::new(
        |d: Seq<char>| groups.contains_key(d) && !(docs.contains(d) && groups[d].without(user).is_empty()),
        |d: Seq<char>|
            if docs.contains(d) {
                groups[d].without(user)
            } else {
                groups[d]
            },
    )
}

/// The groups that are flushed and dropped when `user` leaves every group
/// whose id is in `docs`.
pub open spec fn flushed_docs(groups: Map<Seq<char>, GroupView>, user: u64, docs: Set<Seq<char>>) -> Set<
    Seq<char>,
> {
    Set::new(
        |d: Seq<char>| groups.contains_key(d) && docs.contains(d) && groups[d].without(user).is_empty(),
    )
}

/// The ids of the documents that a list of subscription records names.
pub open spec fn edited_docs(list: Seq<Editing>) -> Set<Seq<char>> {
    Set::new(|d: Seq<char>| exists|i: int| 0 <= i < list.len() && (#[trigger] list[i]).object_id@ == d)
}

/// The records that a list of subscription records holds.
pub open spec fn records(list: Seq<Editing>) -> Set<EditingView> {
    Set::new(|e: EditingView| exists|i: int| 0 <= i < list.len() && (#[trigger] list[i])@ == e)
}

/// The ids of the documents that a set of subscription records names.
pub open spec fn docs(records: Set<EditingView>) -> Set<Seq<char>> {
    Set::new(
        |d: Seq<char>|
            exists|o: CollabOrigin| #[trigger] records.contains(EditingView { object_id: d, origin: o }),
    )
}

/// A list names the documents that its records name.
pub proof fn lemma_docs_of_list(list: Seq<Editing>)
    ensures
        docs(records(list)) == edited_docs(list),
{
    assert forall|d: Seq<char>| docs(records(list)).contains(d) implies edited_docs(list).contains(d) by {
        let o = choose|o: CollabOrigin| #[trigger]
            records(list).contains(EditingView { object_id: d, origin: o });
        let e = EditingView { object_id: d, origin: o };
        let i = choose|i: int| 0 <= i < list.len() && (#[trigger] list[i])@ == e;
        assert(list[i].object_id@ == d);
    }
    assert forall|d: Seq<char>| edited_docs(list).contains(d) implies docs(records(list)).contains(d) by {
        let i = choose|i: int| 0 <= i < list.len() && (#[trigger] list[i]).object_id@ == d;
        assert(list[i]@ == EditingView { object_id: d, origin: list[i].origin });
        assert(records(list).contains(EditingView { object_id: d, origin: list[i].origin }));
    }
    assert(docs(records(list)) =~= edited_docs(list));
}

/// One more record names one more document.
pub proof fn lemma_docs_insert(records: Set<EditingView>, e: EditingView)
    ensures
        docs(records.insert(e)) == docs(records).insert(e.object_id),
{
    assert forall|d: Seq<char>| docs(records.insert(e)).contains(d) implies docs(records).insert(
        e.object_id,
    ).contains(d) by {
        let o = choose|o: CollabOrigin| #[trigger]
            records.insert(e).contains(EditingView { object_id: d, origin: o });
        if d != e.object_id {
            assert(records.contains(EditingView { object_id: d, origin: o }));
        }
    }
    assert forall|d: Seq<char>| docs(records).insert(e.object_id).contains(d) implies docs(
        records.insert(e),
    ).contains(d) by {
        if d == e.object_id {
            assert(records.insert(e).contains(EditingView { object_id: d, origin: e.origin }));
        } else {
            let o = choose|o: CollabOrigin| #[trigger]
                records.contains(EditingView { object_id: d, origin: o });
            assert(records.insert(e).contains(EditingView { object_id: d, origin: o }));
        }
    }
    assert(docs(records.insert(e)) =~= docs(records).insert(e.object_id));
}

/// The group that an initial sync opens. Other messages open no group; for
/// them the value is of no consequence.
pub open spec fn opened_group(msg: CollabMessage) -> GroupView {
    match msg {
        CollabMessage::ClientInit { origin, object_id, collab_type, workspace_id, .. } => GroupView {
            object_id: object_id@,
            workspace_id: workspace_id@,
            creator: match origin.spec_client_user_id() {
                Some(uid) => uid,
                None => 0,
            },
            collab_type,
            subscribers: Map::empty(),
        },
        CollabMessage::Other { object_id, .. } => GroupView {
            object_id: object_id@,
            workspace_id: Seq::empty(),
            creator: 0,
            collab_type: CollabType::Document,
            subscribers: Map::empty(),
        },
    }
}

/// What the transport has to do after a message was accepted.
#[derive(Debug, PartialEq, Eq)]
pub struct MessageOutcome {
    /// The message opened the group of its document.
    pub created_group: bool,
    /// The route pair that was derived for the sender, which this message
    /// subscribed to the group; `None` where it subscribed nobody.
    pub route: Option<RoutePair>,
    /// The sink of the connection whose inbound bus takes the message; `None`
    /// where the sender has no connection and the message is dropped.
    pub forward_to: Option<u64>,
}

/// The mathematical value of a [`MessageOutcome`].
pub struct OutcomeView {
    pub created_group: bool,
    pub route: Option<RouteView>,
    pub forward_to: Option<u64>,
}

impl View for MessageOutcome {
    type V = OutcomeView;

    open spec fn view(&self) -> OutcomeView {
        OutcomeView {
            created_group: self.created_group,
            route: match self.route {
                Some(pair) => Some(pair@),
                None => None,
            },
            forward_to: self.forward_to,
        }
    }
}

impl MessageOutcome {
    /// Whether the message subscribed its sender.
    pub fn subscribed(&self) -> (r: bool)
        ensures
            r == (self@.route is Some),
    {
        self.route.is_some()
    }
}

/// The mathematical state of the server.
pub struct ServerView {
    /// The active group of each document id.
    pub groups: Map<Seq<char>, GroupView>,
    /// The subscription records of each user.
    pub editing: Map<u64, Set<EditingView>>,
    /// The transport sink of each connected user.
    pub clients: Map<u64, u64>,
}

impl ServerView {
    /// The subscription records of `user`.
    pub open spec fn records_of(self, user: u64) -> Set<EditingView> {
        if self.editing.contains_key(user) {
            self.editing[user]
        } else {
            Set::empty()
        }
    }

    /// The documents `user` is recorded as editing.
    pub open spec fn docs_of(self, user: u64) -> Set<Seq<char>> {
        docs(self.records_of(user))
    }

    /// Whether `user` is a subscriber of the group of `doc`, and so receives
    /// what the group broadcasts.
    pub open spec fn observes(self, user: u64, doc: Seq<char>) -> bool {
        self.groups.contains_key(doc) && self.groups[doc].subscribers.contains_key(user)
    }

    /// The state after `user` was removed: its connection and its record are
    /// gone, it has left every group it was recorded as editing, and the
    /// groups it left empty are gone.
    pub open spec fn remove_user(self, user: u64) -> ServerView {
        ServerView {
            groups: evicted(self.groups, user, self.docs_of(user)),
            editing: self.editing.remove(user),
            clients: self.clients.remove(user),
        }
    }

    /// The groups that removing `user` flushes.
    pub open spec fn flushed_by_removing(self, user: u64) -> Set<Seq<char>> {
        flushed_docs(self.groups, user, self.docs_of(user))
    }

    /// The state after `user` connected through `sink`.
    pub open spec fn connect(self, user: u64, sink: u64) -> ServerView {
        let s = self.remove_user(user);
        ServerView { clients: s.clients.insert(user, sink), ..s }
    }

    /// The error with which a message is refused, if it is refused.
    pub open spec fn refusal(self, msg: CollabMessage) -> Option<RealtimeError> {
        if self.groups.contains_key(msg.spec_object_id()) {
            None
        } else if !msg.spec_is_init() {
            Some(RealtimeError::FirstMessageNotInit)
        } else if msg.effective_origin().spec_client_user_id() is None {
            Some(RealtimeError::EmptyClientUserId)
        } else {
            None
        }
    }

    /// The state once the group of the message's document exists.
    pub open spec fn opened(self, msg: CollabMessage) -> ServerView {
        if self.groups.contains_key(msg.spec_object_id()) {
            self
        } else {
            ServerView { groups: self.groups.insert(msg.spec_object_id(), opened_group(msg)), ..self }
        }
    }

    /// Whether an accepted message subscribes its sender: the sender is
    /// connected and not yet a subscriber of the group.
    pub open spec fn subscribes(self, user: u64, msg: CollabMessage) -> bool {
        self.clients.contains_key(user) && !self.opened(msg).observes(user, msg.spec_object_id())
    }

    /// The state after an accepted message of `user`.
    pub open spec fn message(self, user: u64, msg: CollabMessage) -> ServerView {
        let s = self.opened(msg);
        let d = msg.spec_object_id();
        if self.subscribes(user, msg) {
            ServerView {
                groups: s.groups.insert(d, s.groups[d].with(user, msg.effective_origin())),
                editing: s.editing.insert(
                    user,
                    s.records_of(user).insert(
                        EditingView { object_id: d, origin: msg.effective_origin() },
                    ),
                ),
                clients: s.clients,
            }
        } else {
            s
        }
    }

    /// What the transport has to do after an accepted message of `user`.
    pub open spec fn outcome(self, user: u64, msg: CollabMessage) -> OutcomeView {
        OutcomeView {
            created_group: !self.groups.contains_key(msg.spec_object_id()),
            route: if self.subscribes(user, msg) {
                Some(route_of(self.clients[user], msg.spec_object_id()))
            } else {
                None
            },
            forward_to: if self.clients.contains_key(user) {
                Some(self.clients[user])
            } else {
                None
            },
        }
    }
}

impl ServerView {
    /// The registries agree: a user is recorded as editing a document
    /// exactly if it is a subscriber of that document's group, and every
    /// subscriber has a connection.
    pub open spec fn consistent(self) -> bool {
        &&& forall|u: u64, d: Seq<char>| self.docs_of(u).contains(d) <==> #[trigger] self.observes(u, d)
        &&& forall|u: u64, d: Seq<char>| #[trigger] self.observes(u, d) ==> self.clients.contains_key(u)
    }

    /// The state without groups, records or connections.
    pub open spec fn empty() -> ServerView {
        ServerView { groups: Map::empty(), editing: Map::empty(), clients: Map::empty() }
    }
}

/// The empty state is consistent.
pub proof fn law_empty_is_consistent()
    ensures
        ServerView::empty().consistent(),
{
}

/// Removing a user keeps the registries consistent.
pub proof fn law_remove_user_keeps_consistency(s: ServerView, user: u64)
    requires
        s.consistent(),
    ensures
        s.remove_user(user).consistent(),
{
    let t = s.remove_user(user);
    assert forall|u: u64, d: Seq<char>| t.docs_of(u).contains(d) <==> #[trigger] t.observes(u, d) by {
        if u == user {
            assert(!s.docs_of(user).contains(d) ==> !s.observes(user, d));
        } else {
            if s.observes(u, d) {
                assert(s.groups[d].without(user).subscribers.contains_key(u));
            }
            assert(t.docs_of(u) == s.docs_of(u));
        }
    }
    assert forall|u: u64, d: Seq<char>| #[trigger] t.observes(u, d) implies t.clients.contains_key(u) by {
        assert(s.observes(u, d));
        if u == user {
            assert(!s.docs_of(user).contains(d) ==> !s.observes(user, d));
        }
    }
}

/// A connection keeps the registries consistent.
pub proof fn law_connect_keeps_consistency(s: ServerView, user: u64, sink: u64)
    requires
        s.consistent(),
    ensures
        s.connect(user, sink).consistent(),
{
    law_remove_user_keeps_consistency(s, user);
    let m = s.remove_user(user);
    let t = s.connect(user, sink);
    assert forall|u: u64, d: Seq<char>| t.docs_of(u).contains(d) <==> #[trigger] t.observes(u, d) by {
        assert(t.docs_of(u) == m.docs_of(u));
        assert(t.observes(u, d) == m.observes(u, d));
    }
    assert forall|u: u64, d: Seq<char>| #[trigger] t.observes(u, d) implies t.clients.contains_key(u) by {
        assert(m.observes(u, d));
    }
}

/// An accepted message keeps the registries consistent.
pub proof fn law_message_keeps_consistency(s: ServerView, user: u64, msg: CollabMessage)
    requires
        s.consistent(),
        s.refusal(msg) is None,
    ensures
        s.message(user, msg).consistent(),
{
    let o = s.opened(msg);
    let t = s.message(user, msg);
    let doc = msg.spec_object_id();
    assert forall|u: u64, d: Seq<char>| o.observes(u, d) == s.observes(u, d) by {}
    lemma_docs_insert(o.records_of(user), EditingView { object_id: doc, origin: msg.effective_origin() });
    assert forall|u: u64, d: Seq<char>| t.docs_of(u).contains(d) <==> #[trigger] t.observes(u, d) by {
        assert(s.docs_of(u).contains(d) <==> s.observes(u, d));
        assert(o.docs_of(u) == s.docs_of(u));
    }
    assert forall|u: u64, d: Seq<char>| #[trigger] t.observes(u, d) implies t.clients.contains_key(u) by {
        if !(u == user && d == doc) {
            assert(s.observes(u, d));
        }
    }
}

/// Single connection per user: after two connections of one user in a row
/// the user has exactly the second one, and every message of that user that
/// is accepted afterwards is handed to the second one.
pub proof fn law_single_connection_per_user(
    s: ServerView,
    user: u64,
    first: u64,
    second: u64,
    msg: CollabMessage,
)
    ensures
        s.connect(user, first).connect(user, second).clients == s.clients.insert(user, second),
        s.connect(user, first).connect(user, second).outcome(user, msg).forward_to == Some(second),
        s.connect(user, first).connect(user, second).message(user, msg).clients == s.clients.insert(
            user,
            second,
        ),
{
    let t = s.connect(user, first).connect(user, second);
    assert(t.clients =~= s.clients.insert(user, second));
}

/// Lazy group creation: for a document without a group, a message that is no
/// initial sync is refused, and an accepted message adds exactly the group
/// of that document, opened with the data of the message.
pub proof fn law_lazy_group_creation(s: ServerView, user: u64, msg: CollabMessage)
    requires
        !s.groups.contains_key(msg.spec_object_id()),
    ensures
        !msg.spec_is_init() ==> s.refusal(msg) == Some(RealtimeError::FirstMessageNotInit),
        s.refusal(msg) is None ==> {
            &&& msg.spec_is_init()
            &&& s.message(user, msg).groups.dom() == s.groups.dom().insert(msg.spec_object_id())
            &&& s.message(user, msg).groups[msg.spec_object_id()] == (if s.clients.contains_key(user) {
                opened_group(msg).with(user, msg.effective_origin())
            } else {
                opened_group(msg)
            })
            &&& forall|d: Seq<char>| #[trigger]
                s.groups.contains_key(d) ==> s.message(user, msg).groups[d] == s.groups[d]
        },
{
    if s.refusal(msg) is None {
        assert(s.message(user, msg).groups.dom() =~= s.groups.dom().insert(msg.spec_object_id()));
    }
}

/// Idempotent subscription: a message of a user for a document it is
/// subscribed to is accepted, subscribes nobody and changes nothing.
pub proof fn law_subscribed_sender_changes_nothing(s: ServerView, user: u64, msg: CollabMessage)
    requires
        s.observes(user, msg.spec_object_id()),
    ensures
        s.refusal(msg) is None,
        s.message(user, msg) == s,
        s.outcome(user, msg).route is None,
        !s.outcome(user, msg).created_group,
{
}

/// Idempotent subscription: of two accepted messages in a row, of one user
/// and for one document, the second subscribes nobody and changes nothing.
pub proof fn law_idempotent_subscription(s: ServerView, user: u64, first: CollabMessage, second: CollabMessage)
    requires
        s.refusal(first) is None,
        first.spec_object_id() == second.spec_object_id(),
    ensures
        s.message(user, first).refusal(second) is None,
        s.message(user, first).message(user, second) == s.message(user, first),
        s.message(user, first).outcome(user, second).route is None,
        !s.message(user, first).outcome(user, second).created_group,
{
}

/// Fan-out: where two users are subscribers of one document and a third is
/// not, a message of the first for that document is accepted and handed to
/// the sender's connection, and afterwards the group still reaches the
/// second and not the third.
pub proof fn law_fan_out(s: ServerView, a: u64, b: u64, c: u64, msg: CollabMessage)
    requires
        s.consistent(),
        s.observes(a, msg.spec_object_id()),
        s.observes(b, msg.spec_object_id()),
        !s.observes(c, msg.spec_object_id()),
    ensures
        s.refusal(msg) is None,
        s.outcome(a, msg).forward_to == Some(s.clients[a]),
        s.message(a, msg).observes(b, msg.spec_object_id()),
        !s.message(a, msg).observes(c, msg.spec_object_id()),
{
}

/// Cleanup on disconnect: once a user is removed it has no connection, no
/// record and is a subscriber of no group; the groups that are flushed are
/// exactly those that were there and are gone, and those are the groups
/// whose only subscriber the user was.
pub proof fn law_cleanup_on_disconnect(s: ServerView, user: u64)
    requires
        s.consistent(),
    ensures
        !s.remove_user(user).clients.contains_key(user),
        !s.remove_user(user).editing.contains_key(user),
        forall|d: Seq<char>| !#[trigger] s.remove_user(user).observes(user, d),
        forall|d: Seq<char>|
            s.flushed_by_removing(user).contains(d) <==> s.groups.contains_key(d) && !#[trigger] s.remove_user(
                user,
            ).groups.contains_key(d),
        forall|d: Seq<char>|
            #[trigger] s.flushed_by_removing(user).contains(d) <==> s.observes(user, d)
                && s.groups[d].without(user).is_empty(),
        forall|d: Seq<char>| #[trigger]
            s.remove_user(user).groups.contains_key(d) ==> s.groups.contains_key(d) && s.remove_user(
                user,
            ).groups[d] == s.groups[d].without(user),
{
    let t = s.remove_user(user);
    assert forall|d: Seq<char>| !#[trigger] t.observes(user, d) by {
        assert(!s.docs_of(user).contains(d) ==> !s.observes(user, d));
    }
    assert forall|d: Seq<char>| #[trigger]
        t.groups.contains_key(d) implies s.groups.contains_key(d) && t.groups[d] == s.groups[d].without(
        user,
    ) by {
        if !s.docs_of(user).contains(d) {
            assert(!s.observes(user, d));
            assert(s.groups[d].subscribers.remove(user) =~= s.groups[d].subscribers);
        }
    }
    assert forall|d: Seq<char>| #[trigger]
        s.flushed_by_removing(user).contains(d) <==> s.observes(user, d) && s.groups[d].without(
            user,
        ).is_empty() by {
        assert(s.docs_of(user).contains(d) <==> s.observes(user, d));
    }
}

/// Removing a user twice is removing it once: the second removal flushes
/// nothing and changes nothing.
pub proof fn law_remove_user_is_idempotent(s: ServerView, user: u64)
    ensures
        s.remove_user(user).remove_user(user) == s.remove_user(user),
        s.remove_user(user).flushed_by_removing(user) == Set::<Seq<char>>::empty(),
{
    let t = s.remove_user(user);
    assert(t.docs_of(user) =~= Set::empty());
    assert(t.remove_user(user).groups =~= t.groups);
    assert(t.remove_user(user).editing =~= t.editing);
    assert(t.remove_user(user).clients =~= t.clients);
    assert(t.flushed_by_removing(user) =~= Set::empty());
}

/// Reconnect eviction: a user connects, is subscribed to a document by an
/// accepted message, and connects again. Then it is no subscriber of that
/// document's group any more, and if it was the only one the group is gone.
pub proof fn law_reconnect_eviction(s: ServerView, user: u64, first: u64, second: u64, msg: CollabMessage)
    requires
        s.consistent(),
        s.connect(user, first).refusal(msg) is None,
    ensures
        s.connect(user, first).message(user, msg).observes(user, msg.spec_object_id()),
        !s.connect(user, first).message(user, msg).connect(user, second).observes(
            user,
            msg.spec_object_id(),
        ),
        s.connect(user, first).message(user, msg).groups[msg.spec_object_id()].without(user).is_empty()
            ==> !s.connect(user, first).message(user, msg).connect(user, second).groups.contains_key(
            msg.spec_object_id(),
        ),
        s.connect(user, first).message(user, msg).connect(user, second).clients[user] == second,
{
    let c = s.connect(user, first);
    law_connect_keeps_consistency(s, user, first);
    law_message_keeps_consistency(c, user, msg);
    let m = c.message(user, msg);
    law_cleanup_on_disconnect(s, user);
    assert(!c.observes(user, msg.spec_object_id())) by {
        assert(c.observes(user, msg.spec_object_id()) == s.remove_user(user).observes(
            user,
            msg.spec_object_id(),
        ));
    }
    assert(m.observes(user, msg.spec_object_id()));
    law_cleanup_on_disconnect(m, user);
    let t = m.connect(user, second);
    assert(t.observes(user, msg.spec_object_id()) == m.remove_user(user).observes(
        user,
        msg.spec_object_id(),
    ));
    lemma_docs_insert(
        c.opened(msg).records_of(user),
        EditingView { object_id: msg.spec_object_id(), origin: msg.effective_origin() },
    );
    assert(m.docs_of(user).contains(msg.spec_object_id()));
}

/// The view of a subscription index.
pub open spec fn editing_view(m: Map<u64, Vec<Editing>>) -> Map<u64, Set<EditingView>> {
    m.map_values(|l: Vec<Editing>| records(l@))
}

/// The view of a connection registry.
pub open spec fn clients_view(m: Map<u64, CollabClientStream>) -> Map<u64, u64> {
    m.map_values(|c: CollabClientStream| c.sink())
}

/// The ids that a list of flushed groups names are pairwise different, and
/// they are exactly the ids in `docs`.
pub open spec fn lists_exactly(list: Seq<String>, docs: Set<Seq<char>>) -> bool {
    &&& forall|i: int, j: int| 0 <= i < j < list.len() ==> (#[trigger] list[i])@ != (#[trigger] list[j])@
    &&& forall|i: int| 0 <= i < list.len() ==> docs.contains((#[trigger] list[i])@)
    &&& forall|d: Seq<char>|
        docs.contains(d) ==> exists|i: int| 0 <= i < list.len() && (#[trigger] list[i])@ == d
}

/// Removes `user` from the group of `object_id`, and the group from the
/// registry if that leaves it empty. Returns whether the group was dropped
/// and so has to be flushed.
fn remove_user_from_group(user: u64, groups: &mut CollabGroupCache, object_id: &String) -> (dropped:
    bool)
    ensures
        final(groups)@ == evicted(old(groups)@, user, set![object_id@]),
        dropped == flushed_docs(old(groups)@, user, set![object_id@]).contains(
            object_id@,
        ),
{
    let ghost before = groups@;
    let left = match groups.get(object_id) {
        None => None,
        Some(group) => {
            let mut g = group.duplicate();
            let now_empty = g.unsubscribe(user);
            Some((g, now_empty))
        },
    };
    let dropped = match left {
        None => false,
        Some((g, now_empty)) => {
            if now_empty {
                groups.remove_group(object_id);
            } else {
                groups.insert_group(object_id, g);
            }
            now_empty
        },
    };
    proof {
        assert(groups@ =~= evicted(before, user, set![object_id@]));
    }
    dropped
}

/// The routing core: the three registries, kept consistent as users
/// connect, subscribe and disconnect.
pub struct CollabServer {
    groups: CollabGroupCache,
    editing_collab_by_user: HashMap<u64, Vec<Editing>>,
    client_stream_by_user: HashMap<u64, CollabClientStream>,
}

impl View for CollabServer {
    type V = ServerView;

    closed spec fn view(&self) -> ServerView {
        ServerView {
            groups: self.groups@,
            editing: editing_view(self.editing_collab_by_user@),
            clients: clients_view(self.client_stream_by_user@),
        }
    }
}

impl CollabServer {
    /// A server without groups, records or connections.
    pub fn new() -> (r: Self)
        ensures
            r@ == ServerView::empty(),
            r@.consistent(),
    {
        let r = CollabServer {
            groups: CollabGroupCache::new(),
            editing_collab_by_user: HashMap::new(),
            client_stream_by_user: HashMap::new(),
        };
        proof {
            assert(r@.groups =~= Map::<Seq<char>, GroupView>::empty());
            assert(r@.editing =~= Map::<u64, Set<EditingView>>::empty());
            assert(r@.clients =~= Map::<u64, u64>::empty());
        }
        r
    }

    /// Removes the connection of `user`, its record, and `user` from every
    /// group it is recorded as editing. Returns the ids of the groups that
    /// were left empty and dropped: each has to be flushed, once.
    pub fn remove_user(&mut self, user: u64) -> (flushed: Vec<String>)
        ensures
            final(self)@ == old(self)@.remove_user(user),
            lists_exactly(flushed@, old(self)@.flushed_by_removing(user)),
            old(self)@.consistent() ==> final(self)@.consistent(),
    {
        let ghost before = self@;
        proof {
            if before.consistent() {
                law_remove_user_keeps_consistency(before, user);
            }
        }
        let mut flushed: Vec<String> = Vec::new();
        self.client_stream_by_user.remove(&user);
        let record = self.editing_collab_by_user.remove(&user);
        proof {
            assert(clients_view(self.client_stream_by_user@) =~= before.clients.remove(user));
            assert(editing_view(self.editing_collab_by_user@) =~= before.editing.remove(user));
        }
        match record {
            None => {
                proof {
                    assert(before.docs_of(user) =~= Set::empty());
                    assert(self@.groups =~= evicted(before.groups, user, Set::empty()));
                    assert(flushed_docs(before.groups, user, before.docs_of(user)) =~= Set::empty());
                }
            },
            Some(list) => {
                let mut i: usize = 0;
                proof {
                    assert(edited_docs(list@.take(0)) =~= Set::empty());
                    assert(self@.groups =~= evicted(before.groups, user, Set::empty()));
                    assert(flushed_docs(before.groups, user, Set::empty()) =~= Set::empty());
                }
                while i < list.len()
                    invariant
                        i <= list.len(),
                        editing_view(self.editing_collab_by_user@) == before.editing.remove(user),
                        clients_view(self.client_stream_by_user@) == before.clients.remove(user),
                        self.groups@ == evicted(
                            before.groups,
                            user,
                            edited_docs(list@.take(i as int)),
                        ),
                        lists_exactly(
                            flushed@,
                            flushed_docs(before.groups, user, edited_docs(list@.take(i as int))),
                        ),
                    decreases list.len() - i,
                {
                    let ghost seen = edited_docs(list@.take(i as int));
                    let ghost now = self.groups@;
                    let ghost d = list[i as int].object_id@;
                    let dropped = remove_user_from_group(user, &mut self.groups, &list[i].object_id);
                    proof {
                        assert(list@.take(i + 1)[i as int] == list@[i as int]);
                        assert(edited_docs(list@.take(i + 1)) =~= seen.insert(d)) by {
                            assert forall|e: Seq<char>| seen.insert(d).contains(e) implies edited_docs(
                                list@.take(i + 1),
                            ).contains(e) by {
                                if e == d {
                                    assert(list@.take(i + 1)[i as int].object_id@ == e);
                                } else {
                                    let j = choose|j: int|
                                        0 <= j < list@.take(i as int).len() && (#[trigger] list@.take(
                                            i as int,
                                        )[j]).object_id@ == e;
                                    assert(list@.take(i + 1)[j].object_id@ == e);
                                }
                            }
                            assert forall|e: Seq<char>|
                                edited_docs(list@.take(i + 1)).contains(e) implies seen.insert(d).contains(
                                e,
                            ) by {
                                let j = choose|j: int|
                                    0 <= j < list@.take(i + 1).len() && (#[trigger] list@.take(
                                        i + 1,
                                    )[j]).object_id@ == e;
                                if j < i {
                                    assert(list@.take(i as int)[j].object_id@ == e);
                                }
                            }
                        }
                        assert forall|e: Seq<char>| #[trigger]
                            before.groups.contains_key(e) implies before.groups[e].without(user).without(
                            user,
                        ) == before.groups[e].without(user) by {
                            assert(before.groups[e].subscribers.remove(user).remove(user)
                                =~= before.groups[e].subscribers.remove(user));
                        }
                        assert(self.groups@ =~= evicted(before.groups, user, seen.insert(d)));
                        assert(flushed_docs(before.groups, user, seen.insert(d)) =~= if dropped {
                            flushed_docs(before.groups, user, seen).insert(d)
                        } else {
                            flushed_docs(before.groups, user, seen)
                        });
                    }
                    let ghost earlier = flushed@;
                    if dropped {
                        flushed.push(list[i].object_id.clone());
                    }
                    proof {
                        let docs = flushed_docs(before.groups, user, seen);
                        let more = flushed_docs(before.groups, user, seen.insert(d));
                        if dropped {
                            assert(now.contains_key(d));
                            assert(!docs.contains(d));
                            assert(flushed@.last()@ == d);
                            assert forall|k: int| 0 <= k < earlier.len() implies (#[trigger] flushed@[k])
                                == earlier[k] by {}
                            assert forall|e: Seq<char>| more.contains(e) implies exists|k: int|
                                0 <= k < flushed@.len() && (#[trigger] flushed@[k])@ == e by {
                                if e == d {
                                    assert(flushed@[earlier.len() as int]@ == e);
                                } else {
                                    assert(docs.contains(e));
                                    let k = choose|k: int|
                                        0 <= k < earlier.len() && (#[trigger] earlier[k])@ == e;
                                    assert(flushed@[k]@ == e);
                                }
                            }
                            assert forall|a: int, b: int| 0 <= a < b < flushed@.len() implies (
                            #[trigger] flushed@[a])@ != (#[trigger] flushed@[b])@ by {
                                if b == earlier.len() {
                                    assert(docs.contains(earlier[a]@));
                                } else {
                                    assert(earlier[a]@ != earlier[b]@);
                                }
                            }
                            assert forall|k: int| 0 <= k < flushed@.len() implies more.contains(
                                (#[trigger] flushed@[k])@,
                            ) by {
                                if k < earlier.len() {
                                    assert(docs.contains(earlier[k]@));
                                }
                            }
                        }
                        assert(lists_exactly(flushed@, more));
                    }
                    i += 1;
                }
                proof {
                    assert(list@.take(list.len() as int) =~= list@);
                    lemma_docs_of_list(list@);
                }
            },
        }
        flushed
    }

    /// Handles a new connection of `user` that writes to `sink`: whatever
    /// `user` had before is removed first, then the fresh connection is
    /// installed. Returns the ids of the groups to flush, each once.
    pub fn connect(&mut self, user: u64, sink: u64) -> (flushed: Vec<String>)
        ensures
            final(self)@ == old(self)@.connect(user, sink),
            lists_exactly(flushed@, old(self)@.flushed_by_removing(user)),
            old(self)@.consistent() ==> final(self)@.consistent(),
    {
        proof {
            if self@.consistent() {
                law_connect_keeps_consistency(self@, user, sink);
            }
        }
        let flushed = self.remove_user(user);
        let ghost mid = self@;
        self.client_stream_by_user.insert(user, CollabClientStream::new(sink));
        proof {
            assert(clients_view(self.client_stream_by_user@) =~= mid.clients.insert(user, sink));
        }
        flushed
    }

    /// Handles the end of the connection of `user`: the user is removed.
    /// Returns the ids of the groups to flush, each once.
    pub fn disconnect(&mut self, user: u64) -> (flushed: Vec<String>)
        ensures
            final(self)@ == old(self)@.remove_user(user),
            lists_exactly(flushed@, old(self)@.flushed_by_removing(user)),
            old(self)@.consistent() ==> final(self)@.consistent(),
    {
        self.remove_user(user)
    }

    /// Handles a message of `user`. A message for a document without a group
    /// must be an initial sync of a client, which opens the group; any other
    /// is refused and nothing changes. An accepted message subscribes its
    /// sender to the group unless it is subscribed already or has no
    /// connection, and is then handed to the sender's connection.
    pub fn message(&mut self, user: u64, msg: &CollabMessage) -> (r: Result<
        MessageOutcome,
        RealtimeError,
    >)
        ensures
            match old(self)@.refusal(*msg) {
                Some(e) => r == Err::<MessageOutcome, RealtimeError>(e) && final(self)@ == old(self)@,
                None => r matches Ok(out) && out@ == old(self)@.outcome(user, *msg) && final(self)@ == old(self)@.message(user, *msg),
            },
            old(self)@.consistent() ==> final(self)@.consistent(),
    {
        let ghost before = self@;
        proof {
            if before.consistent() && before.refusal(*msg) is None {
                law_message_keeps_consistency(before, user, *msg);
            }
        }
        let object_id = msg.object_id();
        let created_group = !self.groups.contains_key(object_id);
        if created_group {
            match msg {
                CollabMessage::ClientInit { origin, workspace_id, collab_type, .. } => {
                    match origin.client_user_id() {
                        None => {
                            return Err(RealtimeError::EmptyClientUserId);
                        },
                        Some(uid) => {
                            self.groups.create_group(uid, workspace_id, object_id, *collab_type);
                        },
                    }
                },
                CollabMessage::Other { .. } => {
                    return Err(RealtimeError::FirstMessageNotInit);
                },
            }
        }
        proof {
            assert(self.groups@ =~= before.opened(*msg).groups);
        }
        let stream = match self.client_stream_by_user.get(&user) {
            Some(stream) => Some(*stream),
            None => None,
        };
        let forward_to = match &stream {
            Some(stream) => Some(stream.ws_sink()),
            None => None,
        };
        let joined = match (self.groups.get(object_id), stream) {
            (Some(group), Some(stream)) => {
                if !group.contains(user) {
                    let mut g = group.duplicate();
                    g.subscribe(user, msg.origin_or_empty());
                    let mut stream = stream;
                    match stream.client_channel(object_id) {
                        Some(pair) => Some((g, pair)),
                        None => None,
                    }
                } else {
                    None
                }
            },
            _ => None,
        };
        let route = match joined {
            Some((g, pair)) => {
                let ghost mid = self@;
                self.groups.insert_group(object_id, g);
                let mut list = match self.editing_collab_by_user.remove(&user) {
                    Some(list) => list,
                    None => Vec::new(),
                };
                let ghost shorter = list@;
                let ghost origin = msg.effective_origin();
                list.push(Editing { object_id: object_id.clone(), origin: msg.origin_or_empty() });
                proof {
                    let e = EditingView { object_id: object_id@, origin };
                    assert(records(shorter) =~= mid.records_of(user));
                    assert(records(list@) =~= records(shorter).insert(e)) by {
                        assert(list@[shorter.len() as int]@ == e);
                        assert forall|x: EditingView| records(shorter).contains(x) implies records(
                            list@,
                        ).contains(x) by {
                            let j = choose|j: int| 0 <= j < shorter.len() && (#[trigger] shorter[j])@ == x;
                            assert(list@[j]@ == x);
                        }
                        assert forall|x: EditingView| records(list@).contains(x) implies records(
                            shorter,
                        ).insert(e).contains(x) by {
                            let j = choose|j: int| 0 <= j < list@.len() && (#[trigger] list@[j])@ == x;
                            if j < shorter.len() {
                                assert(shorter[j]@ == x);
                            }
                        }
                    }
                }
                self.editing_collab_by_user.insert(user, list);
                proof {
                    assert(self.groups@ =~= before.message(user, *msg).groups);
                    assert(editing_view(self.editing_collab_by_user@) =~= before.message(
                        user,
                        *msg,
                    ).editing);
                }
                Some(pair)
            },
            None => None,
        };
        Ok(MessageOutcome { created_group, route, forward_to })
    }

    /// Whether `user` has a connection.
    pub fn is_connected(&self, user: u64) -> (r: bool)
        ensures
            r == self@.clients.contains_key(user),
    {
        self.client_stream_by_user.contains_key(&user)
    }

    /// The transport sink of the connection of `user`, if it has one.
    pub fn sink_of(&self, user: u64) -> (r: Option<u64>)
        ensures
            r == (if self@.clients.contains_key(user) {
                Some(self@.clients[user])
            } else {
                None
            }),
    {
        match self.client_stream_by_user.get(&user) {
            Some(stream) => Some(stream.ws_sink()),
            None => None,
        }
    }

    /// Whether `user` is recorded as editing `object_id`.
    pub fn is_editing(&self, user: u64, object_id: &String) -> (r: bool)
        ensures
            r == self@.docs_of(user).contains(object_id@),
    {
        match self.editing_collab_by_user.get(&user) {
            None => false,
            Some(list) => {
                let mut i: usize = 0;
                proof {
                    lemma_docs_of_list(list@);
                }
                while i < list.len()
                    invariant
                        i <= list.len(),
                        self@.docs_of(user) == edited_docs(list@),
                        forall|j: int| 0 <= j < i ==> (#[trigger] list@[j]).object_id@ != object_id@,
                    decreases list.len() - i,
                {
                    if list[i].object_id == *object_id {
                        proof {
                            assert(list@[i as int].object_id@ == object_id@);
                        }
                        return true;
                    }
                    i += 1;
                }
                false
            },
        }
    }

    /// Whether a group for `object_id` is in the registry.
    pub fn has_group(&self, object_id: &String) -> (r: bool)
        ensures
            r == self@.groups.contains_key(object_id@),
    {
        self.groups.contains_key(object_id)
    }

    /// The group of `object_id`, if the registry holds one.
    pub fn group(&self, object_id: &String) -> (r: Option<&DocumentGroup>)
        ensures
            match r {
                Some(g) => self@.groups.contains_key(object_id@) && g@ == self@.groups[object_id@],
                None => !self@.groups.contains_key(object_id@),
            },
    {
        self.groups.get(object_id)
    }

    /// Whether `user` is a subscriber of the group of `object_id`, and so
    /// receives what that group broadcasts.
    pub fn observes(&self, user: u64, object_id: &String) -> (r: bool)
        ensures
            r == self@.observes(user, object_id@),
    {
        match self.groups.get(object_id) {
            Some(group) => group.contains(user),
            None => false,
        }
    }
}

} // verus!
