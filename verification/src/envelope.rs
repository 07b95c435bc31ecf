//! Envelopes and the refresh events delivered to the consumer above.

use vstd::prelude::*;

use crate::logging::LoggingLevel;
use crate::types::{Flag, ImapError};
use crate::{AccountHash, EnvelopeHash, MailboxHash, TagHash, Uid};

verus! {

/// Parsed summary of one message; the body is fetched lazily.
#[derive(Debug, Clone)]
pub struct Envelope {
    pub hash: EnvelopeHash,
    pub uid: Uid,
    pub subject: Vec<u8>,
    pub from_addr: Vec<u8>,
    pub date: Vec<u8>,
    pub flags: Flag,
    pub tags: Vec<TagHash>,
    pub references: Vec<Vec<u8>>,
    pub has_attachments: bool,
}

impl Envelope {
    pub fn is_seen(&self) -> (r: bool)
        ensures
            r == self.flags.spec_has(crate::types::FLAG_SEEN),
    {
        self.flags.has(crate::types::FLAG_SEEN)
    }
}

/// What changed in a mailbox, toward the UI.
#[derive(Debug)]
pub enum RefreshEventKind {
    Create(Envelope),
    Remove(EnvelopeHash),
    Rescan,
    Update(EnvelopeHash, Envelope),
    NewFlags(EnvelopeHash, Flag),
    Failure(ImapError),
}

/// A refresh event, tagged with its account and mailbox.
#[derive(Debug)]
pub struct RefreshEvent {
    pub account_hash: AccountHash,
    pub mailbox_hash: MailboxHash,
    pub kind: RefreshEventKind,
}

/// Everything the backend hands the consumer: refresh events, account
/// state changes, and notices.
#[derive(Debug)]
pub enum BackendEvent {
    Refresh(RefreshEvent),
    /// A progress message ("Establishing connection", "Attempting
    /// authentication", ...).
    AccountStateChange(String),
    /// A diagnostic toward the UI, with its severity.
    Notice(String, LoggingLevel),
}

} // verus!
