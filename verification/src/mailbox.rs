//! Mailboxes: the parsed `* LIST` entry, the mailbox record with its
//! hash-keyed parent and children links, and the map that owns them all.

use vstd::prelude::*;

use std::collections::HashMap;

use crate::bytes::{eq_ignore_case, idx_of, lemma_idx_of, split_by, split_tokens, upper_seq, views, SP};
use crate::parser::{ascii, find_byte, sub_bytes, trim_crlf, trimmed};
use crate::types::{spec_envelope_hash, SpecialUsageMailbox};
use crate::MailboxHash;

verus! {

broadcast use vstd::std_specs::hash::group_hash_axioms;

/// Leading spaces removed.
pub open spec fn drop_sp(s: Seq<u8>) -> Seq<u8>
    decreases s.len(),
{
    if s.len() == 0 {
        s
    } else if s[0] == SP {
        drop_sp(s.subrange(1, s.len() as int))
    } else {
        s
    }
}

/// Surrounding double quotes removed, when both are present.
pub open spec fn unquoted(s: Seq<u8>) -> Seq<u8> {
    if s.len() >= 2 && s[0] == 34 && s[s.len() - 1] == 34 {
        s.subrange(1, s.len() - 1)
    } else {
        s
    }
}

/// The parts of a `* LIST (<flags>) "<sep>" <path>` line: the flag tokens,
/// the hierarchy separator, and the (unquoted) path.
pub open spec fn list_parts(l: Seq<u8>) -> Option<(Seq<Seq<u8>>, u8, Seq<u8>)> {
    let t = trimmed(l);
    let toks = split_tokens(t, SP);
    if !(toks.len() >= 2 && toks[0] == seq![42u8] && upper_seq(toks[1]) == ascii("LIST"@)) {
        None
    } else {
        let a = idx_of(t, 40);
        if a == t.len() {
            None
        } else {
            let after_open = t.subrange(a + 1, t.len() as int);
            let b = idx_of(after_open, 41);
            if b == after_open.len() {
                None
            } else {
                let flags = after_open.subrange(0, b);
                let rest0 = t.subrange(a + 1 + b + 1, t.len() as int);
                let q = idx_of(rest0, 34);
                if q + 2 >= rest0.len() || rest0[q + 2] != 34 {
                    None
                } else {
                    let sep = rest0[q + 1];
                    let path = unquoted(drop_sp(rest0.subrange(q + 3, rest0.len() as int)));
                    if path.len() == 0 {
                        None
                    } else {
                        Some((split_tokens(flags, SP), sep, path))
                    }
                }
            }
        }
    }
}

/// Leading spaces removed, in place.
fn drop_sp_exec(s: &[u8]) -> (r: Vec<u8>)
    ensures
        r@ == drop_sp(s@),
    decreases s@.len(),
{
    if s.len() > 0 && s[0] == SP {
        let rest = sub_bytes(s, 1, s.len());
        let r = drop_sp_exec(rest.as_slice());
        r
    } else {
        sub_bytes(s, 0, s.len())
    }
}

/// Parse one `* LIST` line into flags, separator and path.
pub fn list_entry(l: &[u8]) -> (r: Option<(Vec<Vec<u8>>, u8, Vec<u8>)>)
    ensures
        match r {
            Some(parts) => list_parts(l@) == Some(
                (views(parts.0@), parts.1, parts.2@),
            ),
            None => list_parts(l@) is None,
        },
{
    proof {
        reveal_strlit("LIST");
    }
    let t = trim_crlf(l);
    let toks = split_by(t.as_slice(), SP);
    let list_kw: [u8; 4] = [76, 73, 83, 84];
    proof {
        assert(list_kw@ =~= ascii("LIST"@));
        assert(upper_seq(ascii("LIST"@)) =~= ascii("LIST"@));
    }
    if toks.len() < 2 {
        return None;
    }
    let is_star = toks[0].len() == 1 && toks[0].as_slice()[0] == 42;
    proof {
        if views(toks@)[0] == seq![42u8] {
            assert(views(toks@)[0].len() == 1 && views(toks@)[0][0] == 42u8);
        }
        if toks@[0]@.len() == 1 && toks@[0]@[0] == 42u8 {
            assert(toks@[0]@ =~= seq![42u8]);
        }
    }
    if !is_star || !eq_ignore_case(toks[1].as_slice(), list_kw.as_slice()) {
        proof {
            crate::parser::lemma_upper_eq_means_eq_upper(views(toks@)[1], ascii("LIST"@));
        }
        return None;
    }
    proof {
        lemma_idx_of(t@, 40);
    }
    let a = match find_byte(t.as_slice(), 40) {
        Some(a) => a,
        None => {
            proof {
                if idx_of(t@, 40) < t@.len() {
                    assert(t@[idx_of(t@, 40)] == 40u8);
                }
            }
            return None;
        },
    };
    proof {
        let ia = idx_of(t@, 40);
        if ia < a {
            assert(t@[ia] == 40u8);
        }
        assert(a == ia);
    }
    let tlen = t.len();
    let after_open = sub_bytes(t.as_slice(), a + 1, tlen);
    proof {
        lemma_idx_of(after_open@, 41);
    }
    let b = match find_byte(after_open.as_slice(), 41) {
        Some(b) => b,
        None => {
            proof {
                if idx_of(after_open@, 41) < after_open@.len() {
                    assert(after_open@[idx_of(after_open@, 41)] == 41u8);
                }
            }
            return None;
        },
    };
    proof {
        let ib = idx_of(after_open@, 41);
        if ib < b {
            assert(after_open@[ib] == 41u8);
        }
        assert(b == ib);
    }
    let flags_bytes = sub_bytes(after_open.as_slice(), 0, b);
    let flags = split_by(flags_bytes.as_slice(), SP);
    let rest0 = sub_bytes(t.as_slice(), a + 1 + b + 1, tlen);
    proof {
        assert(rest0@ =~= t@.subrange(a + 1 + b + 1, t@.len() as int));
        lemma_idx_of(rest0@, 34);
    }
    let q = match find_byte(rest0.as_slice(), 34) {
        Some(q) => q,
        None => {
            proof {
                if idx_of(rest0@, 34) < rest0@.len() {
                    assert(rest0@[idx_of(rest0@, 34)] == 34u8);
                }
                assert(idx_of(rest0@, 34) + 2 >= rest0@.len());
            }
            return None;
        },
    };
    proof {
        let iq = idx_of(rest0@, 34);
        if iq < q {
            assert(rest0@[iq] == 34u8);
        }
        assert(q == iq);
    }
    if q + 2 >= rest0.len() {
        return None;
    }
    let sep = rest0[q + 1];
    if rest0[q + 2] != 34 {
        return None;
    }
    let tail = sub_bytes(rest0.as_slice(), q + 3, rest0.len());
    let stripped = drop_sp_exec(tail.as_slice());
    proof {
        assert(tail@ =~= rest0@.subrange(q + 3, rest0@.len() as int));
    }
    let path = if stripped.len() >= 2 && stripped[0] == 34 && stripped[stripped.len() - 1] == 34 {
        sub_bytes(stripped.as_slice(), 1, stripped.len() - 1)
    } else {
        sub_bytes(stripped.as_slice(), 0, stripped.len())
    };
    proof {
        assert(path@ =~= unquoted(drop_sp(rest0@.subrange(q + 3, rest0@.len() as int))));
    }
    if path.len() == 0 {
        return None;
    }
    Some((flags, sep, path))
}

/// Index of the last occurrence of `b`, or -1.
pub open spec fn last_idx_of(s: Seq<u8>, b: u8) -> int
    decreases s.len(),
{
    if s.len() == 0 {
        -1
    } else if s.last() == b {
        s.len() - 1
    } else {
        last_idx_of(s.drop_last(), b)
    }
}

/// What the client may do in a mailbox; refreshed from every SELECT.
#[derive(Debug, Clone, Copy, PartialEq, Eq, Structural)]
pub struct MailboxPermissions {
    pub create_messages: bool,
    pub remove_messages: bool,
    pub set_flags: bool,
    pub rename_messages: bool,
    pub delete_messages: bool,
}

impl Default for MailboxPermissions {
    /// Until a SELECT answers, nothing is permitted.
    fn default() -> (r: Self)
        ensures
            !r.create_messages,
            !r.remove_messages,
            !r.set_flags,
            !r.rename_messages,
            !r.delete_messages,
    {
        MailboxPermissions {
            create_messages: false,
            remove_messages: false,
            set_flags: false,
            rename_messages: false,
            delete_messages: false,
        }
    }
}

/// One mailbox, with hash-keyed parent and children links.
#[derive(Debug)]
pub struct ImapMailbox {
    pub hash: MailboxHash,
    pub imap_path: Vec<u8>,
    pub name: Vec<u8>,
    pub separator: u8,
    pub no_select: bool,
    pub is_subscribed: bool,
    pub special_usage: SpecialUsageMailbox,
    pub parent: Option<MailboxHash>,
    pub children: Vec<MailboxHash>,
    pub permissions: MailboxPermissions,
}

impl ImapMailbox {
    /// Refresh the permissions from a SELECT response: everything the
    /// protocol grants follows from whether the mailbox is read-only.
    pub fn update_permissions(&mut self, read_only: bool)
        ensures
            final(self).permissions.create_messages == !read_only,
            final(self).permissions.remove_messages == !read_only,
            final(self).permissions.set_flags == !read_only,
            final(self).permissions.rename_messages == !read_only,
            final(self).permissions.delete_messages == !read_only,
            final(self).hash == old(self).hash,
            final(self).imap_path == old(self).imap_path,
            final(self).name == old(self).name,
            final(self).separator == old(self).separator,
            final(self).no_select == old(self).no_select,
            final(self).is_subscribed == old(self).is_subscribed,
            final(self).special_usage == old(self).special_usage,
            final(self).parent == old(self).parent,
            final(self).children == old(self).children,
    {
        self.permissions = MailboxPermissions {
            create_messages: !read_only,
            remove_messages: !read_only,
            set_flags: !read_only,
            rename_messages: !read_only,
            delete_messages: !read_only,
        };
    }
}

/// A mailbox's hash: a deterministic function of its path alone.
pub open spec fn mailbox_hash_of(path: Seq<u8>) -> MailboxHash {
    spec_envelope_hash(path, 0)
}

/// Derive the mailbox hash of a path.
pub fn mailbox_hash_bytes(path: &[u8]) -> (r: MailboxHash)
    ensures
        r == mailbox_hash_of(path@),
{
    crate::types::generate_envelope_hash(path, 0)
}

/// Build a mailbox record from a parsed LIST entry.  The name is the last
/// path segment, the parent the hash of the path before the separator,
/// `no_select` follows the `\Noselect` flag.
pub fn mailbox_from_list(flags: &Vec<Vec<u8>>, sep: u8, path: &[u8]) -> (r: ImapMailbox)
    requires
        path@.len() > 0,
    ensures
        r.hash == mailbox_hash_of(path@),
        r.imap_path@ == path@,
        r.separator == sep,
        r.children@.len() == 0,
        ({
            let k = last_idx_of(path@, sep);
            if k >= 0 {
                r.parent == Some(mailbox_hash_of(path@.subrange(0, k))) && r.name@
                    == path@.subrange(k + 1, path@.len() as int)
            } else {
                r.parent is None && r.name@ == path@
            }
        }),
        r.no_select == (exists|i: int|
            0 <= i < views(flags@).len() && upper_seq(#[trigger] views(flags@)[i]) == ascii(
                "\\NOSELECT"@,
            )),
{
    proof {
        reveal_strlit("\\NOSELECT");
    }
    let noselect_kw: [u8; 9] = [92, 78, 79, 83, 69, 76, 69, 67, 84];
    proof {
        assert(noselect_kw@ =~= ascii("\\NOSELECT"@));
        assert(upper_seq(ascii("\\NOSELECT"@)) =~= ascii("\\NOSELECT"@));
    }
    let mut no_select = false;
    let mut i: usize = 0;
    while i < flags.len()
        invariant
            0 <= i <= flags@.len(),
            noselect_kw@ == ascii("\\NOSELECT"@),
            no_select == (exists|j: int|
                0 <= j < i && upper_seq(#[trigger] views(flags@)[j]) == ascii("\\NOSELECT"@)),
        decreases flags.len() - i,
    {
        let e = eq_ignore_case(flags[i].as_slice(), noselect_kw.as_slice());
        proof {
            reveal_strlit("\\NOSELECT");
            assert(upper_seq(ascii("\\NOSELECT"@)) =~= ascii("\\NOSELECT"@));
            assert(views(flags@)[i as int] == flags@[i as int]@);
        }
        if e {
            no_select = true;
            proof {
                assert(upper_seq(views(flags@)[i as int]) == ascii("\\NOSELECT"@));
            }
        }
        i += 1;
    }
    // find the last separator to split parent path and name
    let mut j = path.len();
    let mut k: usize = 0;
    let mut found = false;
    while j > 0 && !found
        invariant
            0 <= j <= path@.len(),
            !found ==> forall|m: int| j <= m < path@.len() ==> path@[m] != sep,
            found ==> k < path@.len() && path@[k as int] == sep && (forall|m: int|
                k < m < path@.len() ==> path@[m] != sep),
        decreases j,
    {
        if path[j - 1] == sep {
            found = true;
            k = j - 1;
        }
        j -= 1;
    }
    proof {
        lemma_last_idx_of(path@, sep);
        if found {
            lemma_last_idx_suffix(path@, sep, k as int);
        } else {
            if last_idx_of(path@, sep) >= 0 {
                assert(path@[last_idx_of(path@, sep)] == sep);
            }
        }
    }
    let hash = crate::types::generate_envelope_hash(path, 0);
    let (parent, name) = if found {
        let parent_path = sub_bytes(path, 0, k);
        let ph = crate::types::generate_envelope_hash(parent_path.as_slice(), 0);
        (Some(ph), sub_bytes(path, k + 1, path.len()))
    } else {
        (None, sub_bytes(path, 0, path.len()))
    };
    ImapMailbox {
        hash,
        imap_path: sub_bytes(path, 0, path.len()),
        name,
        separator: sep,
        no_select,
        is_subscribed: true,
        special_usage: SpecialUsageMailbox::Normal,
        parent,
        children: Vec::new(),
        permissions: MailboxPermissions::default(),
    }
}

/// Pick the IDLE target: the first parent-less mailbox whose special use
/// is the inbox; without one, the IDLE watcher cannot start.
pub fn idle_target(mailboxes: &Vec<ImapMailbox>) -> (r: Option<usize>)
    ensures
        match r {
            Some(i) => {
                &&& i < mailboxes@.len()
                &&& mailboxes@[i as int].parent is None
                &&& mailboxes@[i as int].special_usage == SpecialUsageMailbox::Inbox
                &&& forall|j: int|
                    0 <= j < i ==> !((#[trigger] mailboxes@[j]).parent is None && mailboxes@[j].special_usage
                        == SpecialUsageMailbox::Inbox)
            },
            None => forall|j: int|
                0 <= j < mailboxes@.len() ==> !((#[trigger] mailboxes@[j]).parent is None
                    && mailboxes@[j].special_usage == SpecialUsageMailbox::Inbox),
        },
{
    let mut i: usize = 0;
    while i < mailboxes.len()
        invariant
            0 <= i <= mailboxes@.len(),
            forall|j: int|
                0 <= j < i ==> !((#[trigger] mailboxes@[j]).parent is None && mailboxes@[j].special_usage
                    == SpecialUsageMailbox::Inbox),
        decreases mailboxes.len() - i,
    {
        let is_root = match mailboxes[i].parent {
            None => true,
            Some(_) => false,
        };
        let is_inbox = match mailboxes[i].special_usage {
            SpecialUsageMailbox::Inbox => true,
            _ => false,
        };
        if is_root && is_inbox {
            return Some(i);
        }
        i += 1;
    }
    None
}

pub proof fn lemma_last_idx_of(s: Seq<u8>, b: u8)
    ensures
        -1 <= last_idx_of(s, b) < s.len(),
        last_idx_of(s, b) >= 0 ==> s[last_idx_of(s, b)] == b,
        forall|j: int| last_idx_of(s, b) < j < s.len() ==> s[j] != b,
    decreases s.len(),
{
    if s.len() > 0 && s.last() != b {
        lemma_last_idx_of(s.drop_last(), b);
        assert forall|j: int| last_idx_of(s, b) < j < s.len() implies s[j] != b by {
            if j < s.len() - 1 {
                assert(s[j] == s.drop_last()[j]);
            }
        }
    }
}

/// If `s[p] == b` and nothing after `p` is `b`, then `p` is the last index.
proof fn lemma_last_idx_suffix(s: Seq<u8>, b: u8, p: int)
    requires
        0 <= p < s.len(),
        s[p] == b,
        forall|j: int| p < j < s.len() ==> s[j] != b,
    ensures
        last_idx_of(s, b) == p,
    decreases s.len(),
{
    if p == s.len() - 1 {
    } else {
        assert(s.last() != b);
        assert forall|j: int| p < j < s.drop_last().len() implies s.drop_last()[j] != b by {
            assert(s.drop_last()[j] == s[j]);
        }
        assert(s.drop_last()[p] == s[p]);
        lemma_last_idx_suffix(s.drop_last(), b, p);
    }
}

/// The mailbox map of one account; children links live in the records.
pub struct MailboxIndex {
    pub mailboxes: HashMap<u64, ImapMailbox>,
}

impl MailboxIndex {
    pub fn new() -> (r: MailboxIndex)
        ensures
            r.mailboxes@ == Map::<u64, ImapMailbox>::empty(),
    {
        MailboxIndex { mailboxes: HashMap::new() }
    }

    /// Insert a freshly parsed mailbox.  An existing record under the same
    /// hash (a placeholder parent carrying early children) passes its
    /// children on; everything else comes from the new record.
    pub fn insert_mailbox(&mut self, mb: ImapMailbox)
        ensures
            ({
                let stored = final(self).mailboxes@[mb.hash];
                &&& final(self).mailboxes@ == old(self).mailboxes@.insert(mb.hash, stored)
                &&& stored.hash == mb.hash
                &&& stored.imap_path == mb.imap_path
                &&& stored.name == mb.name
                &&& stored.separator == mb.separator
                &&& stored.no_select == mb.no_select
                &&& stored.is_subscribed == mb.is_subscribed
                &&& stored.special_usage == mb.special_usage
                &&& stored.parent == mb.parent
                &&& stored.permissions == mb.permissions
                &&& stored.children@ == (if old(self).mailboxes@.contains_key(mb.hash) {
                    old(self).mailboxes@[mb.hash].children@
                } else {
                    mb.children@
                })
            }),
    {
        let mut mb = mb;
        match self.mailboxes.remove(&mb.hash) {
            Some(mut existing) => {
                core::mem::swap(&mut existing.children, &mut mb.children);
                let ghost stored = mb;
                self.mailboxes.insert(mb.hash, mb);
                proof {
                    assert(final(self).mailboxes@ =~= old(self).mailboxes@.insert(
                        stored.hash,
                        stored,
                    ));
                }
            },
            None => {
                let ghost stored = mb;
                self.mailboxes.insert(mb.hash, mb);
                proof {
                    assert(final(self).mailboxes@ =~= old(self).mailboxes@.insert(
                        stored.hash,
                        stored,
                    ));
                }
            },
        }
    }

    /// Link a child into its parent's record, creating a placeholder parent
    /// when the parent has not been listed yet.
    pub fn link_child(&mut self, parent: MailboxHash, child: MailboxHash)
        ensures
            ({
                let stored = final(self).mailboxes@[parent];
                &&& final(self).mailboxes@ == old(self).mailboxes@.insert(parent, stored)
                &&& stored.children@ == (if old(self).mailboxes@.contains_key(parent) {
                    old(self).mailboxes@[parent].children@.push(child)
                } else {
                    seq![child]
                })
                &&& (old(self).mailboxes@.contains_key(parent) ==> stored.imap_path == old(
                    self,
                ).mailboxes@[parent].imap_path && stored.hash == old(self).mailboxes@[parent].hash)
                &&& (!old(self).mailboxes@.contains_key(parent) ==> stored.hash == parent)
            }),
    {
        match self.mailboxes.remove(&parent) {
            Some(mut p) => {
                p.children.push(child);
                self.mailboxes.insert(parent, p);
            },
            None => {
                let mut children: Vec<MailboxHash> = Vec::new();
                children.push(child);
                let placeholder = ImapMailbox {
                    hash: parent,
                    imap_path: Vec::new(),
                    name: Vec::new(),
                    separator: 46,
                    no_select: true,
                    is_subscribed: false,
                    special_usage: SpecialUsageMailbox::Normal,
                    parent: None,
                    children,
                    permissions: MailboxPermissions::default(),
                };
                self.mailboxes.insert(parent, placeholder);
            },
        }
    }
}

} // verus!
