//! Core data model: message flags, error kinds, mailbox roles and the
//! deterministic envelope hash.

use vstd::prelude::*;

use crate::{EnvelopeHash, Uid};

verus! {

/// `\Seen` system flag bit.
pub const FLAG_SEEN: u8 = 1;

/// `\Answered` system flag bit.
pub const FLAG_ANSWERED: u8 = 2;

/// `\Flagged` system flag bit.
pub const FLAG_FLAGGED: u8 = 4;

/// `\Deleted` system flag bit.
pub const FLAG_DELETED: u8 = 8;

/// `\Draft` system flag bit.
pub const FLAG_DRAFT: u8 = 16;

/// `\Recent` system flag bit.
pub const FLAG_RECENT: u8 = 32;

/// System flags of a message, as a bit set.
#[derive(Clone, Copy, Debug, PartialEq, Eq, Structural)]
pub struct Flag {
    pub bits: u8,
}

impl Flag {
    pub open spec fn spec_has(self, mask: u8) -> bool {
        self.bits & mask != 0
    }

    pub fn empty() -> (r: Flag)
        ensures
            r.bits == 0,
    {
        Flag { bits: 0 }
    }

    pub fn has(self, mask: u8) -> (r: bool)
        ensures
            r == self.spec_has(mask),
    {
        self.bits & mask != 0
    }

    pub open spec fn spec_set(self, mask: u8) -> Flag {
        Flag { bits: self.bits | mask }
    }

    pub open spec fn spec_unset(self, mask: u8) -> Flag {
        Flag { bits: self.bits & !mask }
    }

    /// Flags after a `+FLAGS` store of `mask`.
    #[verifier::when_used_as_spec(spec_set)]
    pub fn set(self, mask: u8) -> (r: Flag)
        ensures
            r == self.spec_set(mask),
    {
        Flag { bits: self.bits | mask }
    }

    /// Flags after a `-FLAGS` store of `mask`.
    #[verifier::when_used_as_spec(spec_unset)]
    pub fn unset(self, mask: u8) -> (r: Flag)
        ensures
            r == self.spec_unset(mask),
    {
        Flag { bits: self.bits & !mask }
    }
}

/// Adding a flag and then removing it restores the original word, provided
/// the flag was not set to begin with.  (When it already was set, the pair of
/// stores clears it: the information that it was set is lost on the server.)
pub proof fn lemma_flag_set_unset(f: Flag, mask: u8)
    requires
        f.bits & mask == 0,
    ensures
        f.set(mask).unset(mask) == f,
{
    let b = f.bits;
    assert((b | mask) & !mask == b) by (bit_vector)
        requires
            b & mask == 0,
    ;
}

/// Removing an absent flag is a no-op.
pub proof fn lemma_flag_unset_absent(f: Flag, mask: u8)
    requires
        f.bits & mask == 0,
    ensures
        f.unset(mask) == f,
{
    let b = f.bits;
    assert(b & !mask == b) by (bit_vector)
        requires
            b & mask == 0,
    ;
}

/// Network-class failures; these mark the stream errored.
#[derive(Clone, Copy, Debug, PartialEq, Eq, Structural)]
pub enum NetworkError {
    Timeout,
    Io,
    TlsHandshake,
    TlsValidation,
    Disconnected,
}

/// Protocol-level failures.
#[derive(Clone, Copy, Debug, PartialEq, Eq, Structural)]
pub enum ProtocolError {
    Parse,
    UnexpectedResponse,
    NotImap4rev1,
}

/// Authentication failures; terminal until the configuration changes.
#[derive(Clone, Copy, Debug, PartialEq, Eq, Structural)]
pub enum AuthError {
    LoginDisabled,
    Rejected,
    OauthMissing,
}

/// Permission failures.
#[derive(Clone, Copy, Debug, PartialEq, Eq, Structural)]
pub enum PermissionError {
    ReadOnly,
    NoSelect,
}

/// Lookup failures.
#[derive(Clone, Copy, Debug, PartialEq, Eq, Structural)]
pub enum NotFoundError {
    Mailbox,
    Envelope,
}

/// Every failure kind the backend reports.
#[derive(Clone, Copy, Debug, PartialEq, Eq, Structural)]
pub enum ImapError {
    Network(NetworkError),
    Protocol(ProtocolError),
    Authentication(AuthError),
    Permission(PermissionError),
    NotFound(NotFoundError),
    Unsupported,
    Configuration,
    Cache,
    Bug,
}

impl ImapError {
    /// Network errors trigger one reconnect attempt at the next operation.
    pub fn is_network(self) -> (r: bool)
        ensures
            r == (self is Network),
    {
        match self {
            ImapError::Network(_) => true,
            _ => false,
        }
    }
}

/// Special use of a mailbox.
#[derive(Clone, Copy, Debug, PartialEq, Eq, Structural)]
pub enum SpecialUsageMailbox {
    Normal,
    Inbox,
    Archive,
    Drafts,
    Junk,
    Sent,
    Trash,
}

impl Default for SpecialUsageMailbox {
    fn default() -> (r: Self)
        ensures
            r == SpecialUsageMailbox::Normal,
    {
        SpecialUsageMailbox::Normal
    }
}

/// 64-bit FNV offset basis.
pub const FNV_BASIS: u64 = 0xcbf2_9ce4_8422_2325;

/// 64-bit FNV prime.
pub const FNV_PRIME: u64 = 0x0000_0100_0000_01b3;

/// One FNV-1a step.
pub open spec fn fnv_step(h: u64, b: u8) -> u64 {
    ((((h ^ b as u64) as int) * (FNV_PRIME as int)) % 0x1_0000_0000_0000_0000) as u64
}

/// FNV-1a digest of the first `n` bytes of `s`, seeded with `h`.
pub open spec fn fnv_fold(h: u64, s: Seq<u8>) -> u64
    decreases s.len(),
{
    if s.len() == 0 {
        h
    } else {
        fnv_step(fnv_fold(h, s.drop_last()), s.last())
    }
}

/// Little-endian bytes of a 64-bit value.
pub open spec fn le_bytes(v: u64) -> Seq<u8> {
    seq![
        (v & 0xff) as u8,
        ((v >> 8) & 0xff) as u8,
        ((v >> 16) & 0xff) as u8,
        ((v >> 24) & 0xff) as u8,
        ((v >> 32) & 0xff) as u8,
        ((v >> 40) & 0xff) as u8,
        ((v >> 48) & 0xff) as u8,
        ((v >> 56) & 0xff) as u8,
    ]
}

/// The envelope hash of a message: a function of the mailbox path and the
/// UID alone, so the same message reached twice collides meaningfully.
pub open spec fn spec_envelope_hash(path: Seq<u8>, uid: Uid) -> u64 {
    fnv_fold(fnv_fold(FNV_BASIS, path), le_bytes(uid as u64))
}

fn fnv_extend(h: u64, s: &[u8]) -> (r: u64)
    ensures
        r == fnv_fold(h, s@),
{
    let mut acc = h;
    let mut i: usize = 0;
    proof {
        assert(s@.subrange(0, 0) =~= Seq::<u8>::empty());
    }
    while i < s.len()
        invariant
            0 <= i <= s@.len(),
            acc == fnv_fold(h, s@.subrange(0, i as int)),
        decreases s.len() - i,
    {
        proof {
            assert(s@.subrange(0, i + 1).drop_last() =~= s@.subrange(0, i as int));
            assert(s@.subrange(0, i + 1).last() == s@[i as int]);
        }
        acc = (acc ^ s[i] as u64).wrapping_mul(FNV_PRIME);
        i += 1;
    }
    proof {
        assert(s@.subrange(0, s@.len() as int) =~= s@);
    }
    acc
}

/// Derive the envelope hash of `(mailbox path, uid)`.
pub fn generate_envelope_hash(path: &[u8], uid: Uid) -> (r: EnvelopeHash)
    ensures
        r == spec_envelope_hash(path@, uid),
{
    let h = fnv_extend(FNV_BASIS, path);
    let v = uid as u64;
    let tail: [u8; 8] = [
        (v & 0xff) as u8,
        ((v >> 8) & 0xff) as u8,
        ((v >> 16) & 0xff) as u8,
        ((v >> 24) & 0xff) as u8,
        ((v >> 32) & 0xff) as u8,
        ((v >> 40) & 0xff) as u8,
        ((v >> 48) & 0xff) as u8,
        ((v >> 56) & 0xff) as u8,
    ];
    let r = fnv_extend(h, tail.as_slice());
    proof {
        assert(tail@ =~= le_bytes(v));
    }
    r
}

} // verus!
