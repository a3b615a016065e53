//! Routing core of a real-time collaboration hub: the registries that track
//! which user is connected, which documents each user edits and who is
//! subscribed to each document group, together with the byte-level decoders
//! for streamed responses.

pub mod group;
pub mod message;
pub mod response_stream;
pub mod server;
