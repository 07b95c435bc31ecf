//! Per-account mailbox slots: a mailbox is available, still being loaded,
//! or failed.

use vstd::prelude::*;

use crate::mailbox::ImapMailbox;
use crate::types::ImapError;

verus! {

/// One mailbox slot of an account.
#[derive(Debug)]
pub enum MailboxEntry {
    Available(ImapMailbox),
    Failed(ImapError),
    /// Still loading: the mailbox, work done, work total.
    Parsing(ImapMailbox, usize, usize),
}

impl MailboxEntry {
    pub fn is_available(&self) -> (r: bool)
        ensures
            r == (self is Available),
    {
        match self {
            MailboxEntry::Available(_) => true,
            _ => false,
        }
    }

    pub fn is_parsing(&self) -> (r: bool)
        ensures
            r == (self is Parsing),
    {
        match self {
            MailboxEntry::Parsing(_, _, _) => true,
            _ => false,
        }
    }

    /// The mailbox, if it is or will be usable; the failure otherwise.
    pub fn as_result(&self) -> (r: Result<&ImapMailbox, ImapError>)
        ensures
            match r {
                Ok(m) => (self is Available && m == &self->Available_0) || (self is Parsing && m
                    == &self->Parsing_0),
                Err(e) => self is Failed && e == self->Failed_0,
            },
    {
        match self {
            MailboxEntry::Available(m) => Ok(m),
            MailboxEntry::Parsing(m, _, _) => Ok(m),
            MailboxEntry::Failed(e) => Err(*e),
        }
    }

    /// Like `as_result`, reporting only whether the slot is usable; the
    /// caller then takes the mailbox with `unwrap`.
    pub fn as_mut_result(&mut self) -> (r: Result<(), ImapError>)
        ensures
            *final(self) == *old(self),
            match r {
                Ok(_) => !(*old(self) is Failed),
                Err(e) => *old(self) is Failed && e == (*old(self))->Failed_0,
            },
    {
        match self {
            MailboxEntry::Available(_) => Ok(()),
            MailboxEntry::Parsing(_, _, _) => Ok(()),
            MailboxEntry::Failed(e) => Err(*e),
        }
    }

    /// The mailbox of a slot known not to have failed.
    pub fn unwrap(&self) -> (r: &ImapMailbox)
        requires
            !(self is Failed),
        ensures
            (self is Available && r == &self->Available_0) || (self is Parsing && r
                == &self->Parsing_0),
    {
        match self {
            MailboxEntry::Available(m) => m,
            MailboxEntry::Parsing(m, _, _) => m,
            MailboxEntry::Failed(_) => unreached(),
        }
    }

    /// Replace the mailbox of a slot known not to have failed.
    pub fn unwrap_mut(&mut self, m: ImapMailbox)
        requires
            !(*old(self) is Failed),
        ensures
            *old(self) is Available ==> *final(self) == MailboxEntry::Available(m),
            *old(self) is Parsing ==> *final(self) is Parsing && (*final(self))->Parsing_0 == m
                && (*final(self))->Parsing_1 == (*old(self))->Parsing_1
                && (*final(self))->Parsing_2 == (*old(self))->Parsing_2,
    {
        match self {
            MailboxEntry::Available(slot) => {
                *slot = m;
            },
            MailboxEntry::Parsing(slot, _, _) => {
                *slot = m;
            },
            MailboxEntry::Failed(_) => {},
        }
    }
}

} // verus!
