//! Core of an IMAP4rev1 mail backend: response parsing, line framing with
//! literal segments, mailbox selection state, UID bookkeeping and the
//! synchronization and watcher state machines.
//!
//! All network and file handling lives outside this crate; the library works
//! on plain bytes and values and states what it computes in its contracts.

use vstd::prelude::*;

pub mod accounts;
pub mod auth;
pub mod bytes;
pub mod capabilities;
pub mod collection;
pub mod components;
pub mod conf;
pub mod connection;
pub mod envelope;
pub mod fetch;
pub mod framer;
pub mod logging;
pub mod mailbox;
pub mod operations;
pub mod parser;
pub mod response;
pub mod select;
pub mod sync;
pub mod types;
pub mod uid_store;
pub mod watch;

verus! {

/// Opaque 64-bit identifier of a mailbox, stable for a process lifetime.
pub type MailboxHash = u64;

/// Opaque 64-bit identifier of an envelope.
pub type EnvelopeHash = u64;

/// Opaque 64-bit identifier of an interned message keyword (tag).
pub type TagHash = u64;

/// Opaque 64-bit identifier of an account.
pub type AccountHash = u64;

/// Server-assigned per-mailbox permanent identifier of a message.
pub type Uid = usize;

} // verus!
