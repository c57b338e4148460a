//! A bridge between the keyboard and a client of hotkeys: it turns samples
//! of the keys that are held into normalized key combinations, and keeps
//! named profiles of keybindings for clients that ask for them in a small
//! text protocol.
//!
//! - `keys`: the names of keys and their canonical tokens;
//! - `render`: the order of tokens and the text of a combination;
//! - `aggregator`: the detector that emits one combination per press episode;
//! - `sessions`: the sessions that are told of each combination;
//! - `json`: JSON documents, read and written by `serde_json`;
//! - `error`: the kinds of failure;
//! - `members`: the map of named documents, a `serde_json::Map`;
//! - `store`: the profiles, the current one and the one selected last;
//! - `persist`: the document that is written for a store;
//! - `protocol`: the commands of a client and the replies to them;
//! - `text`: helpers on strings.

pub mod aggregator;
pub mod error;
pub mod json;
pub mod keys;
pub mod members;
pub mod persist;
pub mod protocol;
pub mod render;
pub mod sessions;
pub mod store;
pub mod text;
