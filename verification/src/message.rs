//! Identity and message types shared by the routing core.

use vstd::prelude::*;

verus! {

/// Provenance tag carried by a protocol message.
#[derive(Clone, Debug)]
pub enum CollabOrigin {
    /// A message written by a client device on behalf of a user.
    Client { uid: i64, device_id: String },
    /// A message produced by the server itself.
    Server,
    /// No provenance; stands in for a missing origin.
    Empty,
}

impl CollabOrigin {
    /// The user id of the client that wrote the message, if a client wrote it.
    pub open spec fn spec_client_user_id(self) -> Option<i64> {
        match self {
            CollabOrigin::Client { uid, .. } => Some(uid),
            _ => None,
        }
    }

    /// The user id of the client that wrote the message, if a client wrote it.
    pub fn client_user_id(&self) -> (r: Option<i64>)
        ensures
            r == self.spec_client_user_id(),
    {
        match self {
            CollabOrigin::Client { uid, .. } => Some(*uid),
            _ => None,
        }
    }

    /// An owned copy of this origin.
    pub fn duplicate(&self) -> (r: CollabOrigin)
        ensures
            r == *self,
    {
        match self {
            CollabOrigin::Client { uid, device_id } => CollabOrigin::Client {
                uid: *uid,
                device_id: device_id.clone(),
            },
            CollabOrigin::Server => CollabOrigin::Server,
            CollabOrigin::Empty => CollabOrigin::Empty,
        }
    }
}

/// The kind of shared object a document group coordinates.
#[derive(Clone, Copy, Debug, PartialEq, Eq, Structural)]
pub enum CollabType {
    Document,
    Database,
    WorkspaceDatabase,
    Folder,
    DatabaseRow,
    UserAwareness,
}

/// The kinds of protocol message that travel through an existing group.
#[derive(Clone, Copy, Debug, PartialEq, Eq, Structural)]
pub enum MessageKind {
    ClientUpdate,
    ServerSync,
    ServerAck,
    AwarenessUpdate,
    ServerBroadcast,
}

/// An application-level edit or sync message. The payload is opaque to the
/// hub: messages are routed by object id alone.
#[derive(Debug)]
#[allow(inconsistent_fields)]
pub enum CollabMessage {
    /// The initial sync of a client; the only message that may open a group.
    ClientInit {
        origin: CollabOrigin,
        object_id: String,
        collab_type: CollabType,
        workspace_id: String,
        msg_id: u64,
        payload: Vec<u8>,
    },
    /// Any other message; requires that the group already exists.
    Other { kind: MessageKind, object_id: String, origin: Option<CollabOrigin>, payload: Vec<u8> },
}

impl CollabMessage {
    /// The id of the document the message is about.
    pub open spec fn spec_object_id(self) -> Seq<char> {
        match self {
            CollabMessage::ClientInit { object_id, .. } => object_id@,
            CollabMessage::Other { object_id, .. } => object_id@,
        }
    }

    /// The origin the message carries, if any.
    pub open spec fn spec_origin(self) -> Option<CollabOrigin> {
        match self {
            CollabMessage::ClientInit { origin, .. } => Some(origin),
            CollabMessage::Other { origin, .. } => origin,
        }
    }

    /// The origin under which the sender is registered: the carried origin,
    /// or the empty origin where the message carries none.
    pub open spec fn effective_origin(self) -> CollabOrigin {
        match self.spec_origin() {
            Some(o) => o,
            None => CollabOrigin::Empty,
        }
    }

    /// Whether the message is an initial sync.
    pub open spec fn spec_is_init(self) -> bool {
        self is ClientInit
    }

    /// The id of the document the message is about.
    pub fn object_id(&self) -> (r: &String)
        ensures
            r@ == self.spec_object_id(),
    {
        match self {
            CollabMessage::ClientInit { object_id, .. } => object_id,
            CollabMessage::Other { object_id, .. } => object_id,
        }
    }

    /// An owned copy of the effective origin of the message.
    pub fn origin_or_empty(&self) -> (r: CollabOrigin)
        ensures
            r == self.effective_origin(),
    {
        match self {
            CollabMessage::ClientInit { origin, .. } => origin.duplicate(),
            CollabMessage::Other { origin, .. } => match origin {
                Some(o) => o.duplicate(),
                None => CollabOrigin::Empty,
            },
        }
    }

    /// Whether the message is an initial sync.
    pub fn is_init(&self) -> (r: bool)
        ensures
            r == self.spec_is_init(),
    {
        match self {
            CollabMessage::ClientInit { .. } => true,
            CollabMessage::Other { .. } => false,
        }
    }
}

/// One document a user is subscribed to, with the origin it subscribed under.
#[derive(Debug)]
pub struct Editing {
    pub object_id: String,
    pub origin: CollabOrigin,
}

/// The mathematical value of a subscription record.
pub struct EditingView {
    pub object_id: Seq<char>,
    pub origin: CollabOrigin,
}

impl View for Editing {
    type V = EditingView;

    open spec fn view(&self) -> EditingView {
        EditingView { object_id: self.object_id@, origin: self.origin }
    }
}

/// Why a message was refused.
#[derive(Clone, Copy, Debug, PartialEq, Eq, Structural)]
pub enum RealtimeError {
    /// Unexpected data: a message other than an initial sync arrived for a
    /// document that has no group.
    FirstMessageNotInit,
    /// Unexpected data: the initial sync that should open a group names no
    /// client user.
    EmptyClientUserId,
}

} // verus!
