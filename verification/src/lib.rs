//! A small durable-record and activity-logging library.
//!
//! Two independent components: a keyed record store that keeps one encoded
//! value per `(namespace, key)` identity, and an append-only activity logger
//! that mirrors timestamped lines to a console and to per-session and
//! per-error files.  Both are specified against explicit models of their
//! surroundings, so every lifecycle rule is stated and proved here.

pub mod anchor;
pub mod codec;
pub mod command;
pub mod custom_id;
pub mod digits;
pub mod event;
pub mod kvseq;
pub mod logger;
pub mod store;
pub mod text;
