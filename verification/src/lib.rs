//! A multi-room chat broker as a set of actors: one hub, one actor for each
//! channel, and a reader and a writer for each connection. Each actor is a
//! state machine whose step takes one item of its mailbox and says what is
//! to be sent where; a runtime owns the mailboxes and the streams, lets the
//! actors take their steps and carries out what they say.
//!
//! - `protocol`: what the mailboxes carry, and the settings.
//! - `channel`: the channel actor; `membership`: what holds of its members.
//! - `irc`: the hub actor.
//! - `client`: the reader and the writer of a connection.
//! - `world`: all actors together, and what holds of every run.
//! - `channels`: rooms without an actor, which keep their members' writers.
//! - `directory`: the map from names to mailbox handles that all of them use.
//! - `text`, `json`, `clock`: lines, the JSON of a snapshot, and the time.

pub mod channel;
pub mod channels;
pub mod client;
pub mod clock;
pub mod directory;
pub mod irc;
pub mod json;
pub mod membership;
pub mod protocol;
pub mod text;
pub mod world;
