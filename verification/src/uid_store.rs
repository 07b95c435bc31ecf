//! Per-mailbox UID bookkeeping: the mutually inverse UID and envelope-hash
//! maps, the MSN index, the UIDVALIDITY guard and the tag intern table.

use vstd::prelude::*;

use std::collections::HashMap;

use crate::{EnvelopeHash, TagHash};

verus! {

broadcast use vstd::std_specs::hash::group_hash_axioms;

/// Everything the store tracks for one mailbox.
pub struct MailboxState {
    /// `uid -> envelope hash` for every known message.
    pub uid_to_hash: HashMap<u64, EnvelopeHash>,
    /// `envelope hash -> uid`, the inverse of `uid_to_hash`.
    pub hash_to_uid: HashMap<EnvelopeHash, u64>,
    /// `msn[k]` is the UID of the message whose sequence number is `k + 1`;
    /// empty while unpopulated.
    pub msn: Vec<u64>,
    /// The EXISTS count the client currently believes.
    pub exists_count: usize,
    /// The unseen count the client currently believes.
    pub unseen_count: usize,
    /// UIDVALIDITY recorded for this mailbox, if any.
    pub uidvalidity: Option<u64>,
    /// HIGHESTMODSEQ recorded for this mailbox, if any.
    pub highestmodseq: Option<u64>,
    /// Whether the mailbox has been warmed (counters initialized) once.
    pub warm: bool,
}

impl MailboxState {
    /// Well-formedness: the two maps are mutually inverse, and the MSN index
    /// is unpopulated or exactly as long as the believed EXISTS count.
    pub open spec fn wf(self) -> bool {
        &&& forall|u: u64|
            #[trigger] self.uid_to_hash@.contains_key(u) ==> self.hash_to_uid@.contains_key(
                self.uid_to_hash@[u],
            ) && self.hash_to_uid@[self.uid_to_hash@[u]] == u
        &&& forall|h: u64|
            #[trigger] self.hash_to_uid@.contains_key(h) ==> self.uid_to_hash@.contains_key(
                self.hash_to_uid@[h],
            ) && self.uid_to_hash@[self.hash_to_uid@[h]] == h
        &&& (self.msn@.len() == 0 || self.msn@.len() == self.exists_count)
    }

    pub fn new() -> (r: MailboxState)
        ensures
            r.wf(),
            r.uid_to_hash@ == Map::<u64, u64>::empty(),
            r.hash_to_uid@ == Map::<u64, u64>::empty(),
            r.msn@ == Seq::<u64>::empty(),
            r.exists_count == 0,
            r.unseen_count == 0,
            r.uidvalidity is None,
            r.highestmodseq is None,
            !r.warm,
    {
        let r = MailboxState {
            uid_to_hash: HashMap::new(),
            hash_to_uid: HashMap::new(),
            msn: Vec::new(),
            exists_count: 0,
            unseen_count: 0,
            uidvalidity: None,
            highestmodseq: None,
            warm: false,
        };
        proof {
            assert(r.msn@ =~= Seq::<u64>::empty());
        }
        r
    }

    /// Record a new envelope.  The entry is refused — and nothing changes —
    /// when the UID or the hash is already known, so a `Create` is emitted at
    /// most once per `(mailbox, uid)`.
    pub fn register(&mut self, uid: u64, hash: EnvelopeHash) -> (accepted: bool)
        requires
            old(self).wf(),
        ensures
            final(self).wf(),
            accepted == (!old(self).uid_to_hash@.contains_key(uid)
                && !old(self).hash_to_uid@.contains_key(hash)),
            accepted ==> final(self).uid_to_hash@ == old(self).uid_to_hash@.insert(uid, hash)
                && final(self).hash_to_uid@ == old(self).hash_to_uid@.insert(hash, uid),
            !accepted ==> final(self).uid_to_hash@ == old(self).uid_to_hash@ && final(self).hash_to_uid@ == old(self).hash_to_uid@ && final(self).msn@ == old(self).msn@ && final(self).exists_count == old(self).exists_count,
            final(self).uid_to_hash@.contains_key(uid) || final(self).hash_to_uid@.contains_key(hash),
            accepted && old(self).msn@.len() == old(self).exists_count && old(self).exists_count
                < usize::MAX ==> final(self).msn@ == old(self).msn@.push(uid) && final(self).exists_count == old(self).exists_count + 1,
            accepted && (old(self).msn@.len() != old(self).exists_count || old(self).exists_count
                == usize::MAX) ==> final(self).msn@ == old(self).msn@ && final(self).exists_count == old(self).exists_count,
            final(self).uidvalidity == old(self).uidvalidity,
            final(self).warm == old(self).warm,
            final(self).unseen_count == old(self).unseen_count,
            final(self).highestmodseq == old(self).highestmodseq,
    {
        if self.uid_to_hash.contains_key(&uid) || self.hash_to_uid.contains_key(&hash) {
            return false;
        }
        self.uid_to_hash.insert(uid, hash);
        self.hash_to_uid.insert(hash, uid);
        // keep the MSN index exact where it is populated: the new message
        // takes the next sequence number
        if self.msn.len() == self.exists_count && self.exists_count < usize::MAX {
            self.msn.push(uid);
            self.exists_count = self.exists_count + 1;
        }
        true
    }

    /// `* n EXISTS`: growth clears the MSN index until a follow-up fetch
    /// resolves the unknown UIDs; a count not above the current one is a
    /// silent no-op (the EXPUNGEs that explain a decrease came separately).
    pub fn handle_exists(&mut self, n: usize)
        requires
            old(self).wf(),
        ensures
            final(self).wf(),
            n <= old(self).exists_count ==> final(self).exists_count == old(self).exists_count
                && final(self).msn@ == old(self).msn@,
            n > old(self).exists_count ==> final(self).exists_count == n && final(self).msn@ == Seq::<
                u64,
            >::empty(),
            final(self).uid_to_hash@ == old(self).uid_to_hash@,
            final(self).hash_to_uid@ == old(self).hash_to_uid@,
            final(self).uidvalidity == old(self).uidvalidity,
            final(self).warm == old(self).warm,
            final(self).unseen_count == old(self).unseen_count,
            final(self).highestmodseq == old(self).highestmodseq,
    {
        if n > self.exists_count {
            self.exists_count = n;
            self.msn.clear();
            proof {
                assert(self.msn@ =~= Seq::<u64>::empty());
            }
        }
    }

    /// `* n EXPUNGE`: drop entry `n` of the MSN index, shift the suffix
    /// left, and forget the expunged message.  Returns the envelope hash of
    /// the removed message when the index resolves it.
    pub fn handle_expunge(&mut self, n: usize) -> (removed: Option<EnvelopeHash>)
        requires
            old(self).wf(),
        ensures
            final(self).wf(),
            1 <= n <= old(self).msn@.len() ==> {
                let uid = old(self).msn@[n - 1];
                &&& final(self).msn@ == old(self).msn@.remove(n - 1)
                &&& final(self).exists_count == old(self).exists_count - 1
                &&& final(self).uid_to_hash@ == old(self).uid_to_hash@.remove(uid)
                &&& final(self).hash_to_uid@ == (if old(self).uid_to_hash@.contains_key(uid) {
                    old(self).hash_to_uid@.remove(old(self).uid_to_hash@[uid])
                } else {
                    old(self).hash_to_uid@
                })
                &&& removed == (if old(self).uid_to_hash@.contains_key(uid) {
                    Some(old(self).uid_to_hash@[uid])
                } else {
                    Option::<u64>::None
                })
            },
            !(1 <= n <= old(self).msn@.len()) ==> final(self).msn@ == old(self).msn@
                && final(self).uid_to_hash@ == old(self).uid_to_hash@ && final(self).hash_to_uid@ == old(self).hash_to_uid@ && removed is None && (old(self).msn@.len() == 0 && n >= 1 && old(self).exists_count > 0 ==> final(self).exists_count == old(self).exists_count - 1) && (!(old(self).msn@.len() == 0 && n >= 1 && old(self).exists_count > 0) ==> final(self).exists_count == old(self).exists_count),
            final(self).uidvalidity == old(self).uidvalidity,
            final(self).warm == old(self).warm,
            final(self).unseen_count == old(self).unseen_count,
            final(self).highestmodseq == old(self).highestmodseq,
    {
        if 1 <= n && n <= self.msn.len() {
            let uid = self.msn[n - 1];
            self.msn.remove(n - 1);
            self.exists_count = self.exists_count - 1;
            let removed = self.uid_to_hash.remove(&uid);
            match removed {
                Some(h) => {
                    self.hash_to_uid.remove(&h);
                    proof {
                        lemma_remove_pair_keeps_inverse(
                            old(self).uid_to_hash@,
                            old(self).hash_to_uid@,
                            uid,
                            h,
                        );
                    }
                    Some(h)
                },
                None => None,
            }
        } else {
            if self.msn.len() == 0 && n >= 1 && self.exists_count > 0 {
                // the index is unpopulated: track the count, resolve nothing
                self.exists_count = self.exists_count - 1;
            }
            None
        }
    }

    /// Rebuild the MSN index from a full `UID SEARCH 1:*` result.  A result
    /// that contradicts the believed EXISTS count leaves it unpopulated.
    pub fn rebuild_msn(&mut self, uids: &Vec<u64>)
        requires
            old(self).wf(),
        ensures
            final(self).wf(),
            uids@.len() == old(self).exists_count ==> final(self).msn@ == uids@,
            uids@.len() != old(self).exists_count ==> final(self).msn@ == Seq::<u64>::empty(),
            final(self).exists_count == old(self).exists_count,
            final(self).uid_to_hash@ == old(self).uid_to_hash@,
            final(self).hash_to_uid@ == old(self).hash_to_uid@,
            final(self).uidvalidity == old(self).uidvalidity,
            final(self).warm == old(self).warm,
            final(self).unseen_count == old(self).unseen_count,
            final(self).highestmodseq == old(self).highestmodseq,
    {
        self.msn.clear();
        proof {
            assert(self.msn@ =~= Seq::<u64>::empty());
        }
        if uids.len() == self.exists_count {
            let mut i: usize = 0;
            while i < uids.len()
                invariant
                    0 <= i <= uids@.len(),
                    self.msn@ == uids@.subrange(0, i as int),
                    self.uid_to_hash == old(self).uid_to_hash,
                    self.hash_to_uid == old(self).hash_to_uid,
                    self.exists_count == old(self).exists_count,
                    self.unseen_count == old(self).unseen_count,
                    self.uidvalidity == old(self).uidvalidity,
                    self.highestmodseq == old(self).highestmodseq,
                    self.warm == old(self).warm,
                    uids@.len() == old(self).exists_count,
                decreases uids.len() - i,
            {
                self.msn.push(uids[i]);
                proof {
                    assert(self.msn@ =~= uids@.subrange(0, i + 1));
                }
                i += 1;
            }
            proof {
                assert(uids@.subrange(0, uids@.len() as int) =~= uids@);
            }
        }
    }

    /// Compare a freshly received UIDVALIDITY with the recorded one.  On a
    /// mismatch the whole local state of the mailbox is purged — no envelope
    /// hash computed against the old numbering survives — and the caller
    /// must emit a `Rescan`.
    pub fn check_uidvalidity(&mut self, v: u64) -> (rescan: bool)
        requires
            old(self).wf(),
        ensures
            final(self).wf(),
            rescan == (old(self).uidvalidity is Some && old(self).uidvalidity != Some(v)),
            final(self).uidvalidity == Some(v),
            rescan ==> final(self).uid_to_hash@ == Map::<u64, u64>::empty() && final(self).hash_to_uid@ == Map::<
                u64,
                u64,
            >::empty() && final(self).msn@ == Seq::<u64>::empty() && !final(self).warm && final(self).exists_count == 0
                && final(self).unseen_count == 0 && final(self).highestmodseq is None,
            !rescan ==> final(self).uid_to_hash@ == old(self).uid_to_hash@ && final(self).hash_to_uid@ == old(self).hash_to_uid@ && final(self).msn@ == old(self).msn@ && final(self).exists_count == old(self).exists_count && final(self).unseen_count == old(self).unseen_count && final(self).warm == old(self).warm && final(self).highestmodseq == old(self).highestmodseq,
    {
        match self.uidvalidity {
            Some(u) => {
                if u != v {
                    self.uid_to_hash.clear();
                    self.hash_to_uid.clear();
                    self.msn.clear();
                    self.exists_count = 0;
                    self.unseen_count = 0;
                    self.highestmodseq = None;
                    self.warm = false;
                    self.uidvalidity = Some(v);
                    proof {
                        assert(self.msn@ =~= Seq::<u64>::empty());
                    }
                    true
                } else {
                    false
                }
            },
            None => {
                self.uidvalidity = Some(v);
                false
            },
        }
    }

    /// Forget a message by UID — the QRESYNC `VANISHED` path.  The pair
    /// leaves both maps; the MSN index, whose positions shifted, is left
    /// unpopulated for a rebuild; the believed EXISTS count drops by one.
    pub fn remove_uid(&mut self, uid: u64) -> (removed: Option<EnvelopeHash>)
        requires
            old(self).wf(),
        ensures
            final(self).wf(),
            old(self).uid_to_hash@.contains_key(uid) ==> {
                &&& removed == Some(old(self).uid_to_hash@[uid])
                &&& final(self).uid_to_hash@ == old(self).uid_to_hash@.remove(uid)
                &&& final(self).hash_to_uid@ == old(self).hash_to_uid@.remove(
                    old(self).uid_to_hash@[uid],
                )
                &&& final(self).msn@ == Seq::<u64>::empty()
                &&& final(self).exists_count == (if old(self).exists_count > 0 {
                    old(self).exists_count - 1
                } else {
                    0int
                })
            },
            !old(self).uid_to_hash@.contains_key(uid) ==> {
                &&& removed is None
                &&& final(self).uid_to_hash@ == old(self).uid_to_hash@
                &&& final(self).hash_to_uid@ == old(self).hash_to_uid@
                &&& final(self).msn@ == old(self).msn@
                &&& final(self).exists_count == old(self).exists_count
            },
            final(self).uidvalidity == old(self).uidvalidity,
            final(self).warm == old(self).warm,
            final(self).unseen_count == old(self).unseen_count,
            final(self).highestmodseq == old(self).highestmodseq,
    {
        match self.uid_to_hash.remove(&uid) {
            Some(h) => {
                self.hash_to_uid.remove(&h);
                self.msn.clear();
                if self.exists_count > 0 {
                    self.exists_count = self.exists_count - 1;
                }
                proof {
                    lemma_remove_pair_keeps_inverse(
                        old(self).uid_to_hash@,
                        old(self).hash_to_uid@,
                        uid,
                        h,
                    );
                    assert(self.msn@ =~= Seq::<u64>::empty());
                }
                Some(h)
            },
            None => {
                proof {
                    assert(old(self).uid_to_hash@.remove(uid) =~= old(self).uid_to_hash@);
                }
                None
            },
        }
    }

    /// Look the UID of an envelope hash up.
    pub fn uid_of(&self, hash: EnvelopeHash) -> (r: Option<u64>)
        ensures
            r == (if self.hash_to_uid@.contains_key(hash) {
                Some(self.hash_to_uid@[hash])
            } else {
                Option::<u64>::None
            }),
    {
        match self.hash_to_uid.get(&hash) {
            Some(u) => Some(*u),
            None => None,
        }
    }

    /// Look the envelope hash of a UID up.
    pub fn hash_of(&self, uid: u64) -> (r: Option<EnvelopeHash>)
        ensures
            r == (if self.uid_to_hash@.contains_key(uid) {
                Some(self.uid_to_hash@[uid])
            } else {
                Option::<u64>::None
            }),
    {
        match self.uid_to_hash.get(&uid) {
            Some(h) => Some(*h),
            None => None,
        }
    }
}

/// Removing a matched pair from two mutually inverse maps keeps them
/// mutually inverse.
proof fn lemma_remove_pair_keeps_inverse(
    a: Map<u64, u64>,
    b: Map<u64, u64>,
    u: u64,
    h: u64,
)
    requires
        forall|x: u64| #[trigger] a.contains_key(x) ==> b.contains_key(a[x]) && b[a[x]] == x,
        forall|y: u64| #[trigger] b.contains_key(y) ==> a.contains_key(b[y]) && a[b[y]] == y,
        a.contains_key(u),
        a[u] == h,
    ensures
        forall|x: u64|
            #[trigger] a.remove(u).contains_key(x) ==> b.remove(h).contains_key(a.remove(u)[x])
                && b.remove(h)[a.remove(u)[x]] == x,
        forall|y: u64|
            #[trigger] b.remove(h).contains_key(y) ==> a.remove(u).contains_key(b.remove(h)[y])
                && a.remove(u)[b.remove(h)[y]] == y,
{
    assert forall|x: u64| #[trigger] a.remove(u).contains_key(x) implies b.remove(h).contains_key(
        a.remove(u)[x],
    ) && b.remove(h)[a.remove(u)[x]] == x by {
        assert(a.contains_key(x) && x != u);
        if a[x] == h {
            assert(b[a[x]] == x && b[h] == u);
        }
    }
    assert forall|y: u64| #[trigger] b.remove(h).contains_key(y) implies a.remove(u).contains_key(
        b.remove(h)[y],
    ) && a.remove(u)[b.remove(h)[y]] == y by {
        assert(b.contains_key(y) && y != h);
        if b[y] == u {
            assert(a[b[y]] == y && a[u] == h);
        }
    }
}

/// The store-wide count invariant: because the two maps of a well-formed
/// mailbox state are mutually inverse, the number of known UIDs equals the
/// number of envelope hashes that point into this mailbox.
pub proof fn lemma_uid_maps_cardinality(st: &MailboxState)
    requires
        st.wf(),
    ensures
        st.uid_to_hash@.dom().len() == st.hash_to_uid@.dom().len(),
{
    let a = st.uid_to_hash@;
    let b = st.hash_to_uid@;
    let f = |u: u64| a[u];
    assert(a.dom().map(f) =~= b.dom()) by {
        assert forall|h: u64| b.dom().contains(h) implies a.dom().map(f).contains(h) by {
            assert(a.dom().contains(b[h]) && h == f(b[h]));
        }
    }
    assert(vstd::relations::injective_on(f, a.dom())) by {
        assert forall|x1: u64, x2: u64|
            #![trigger f(x1), f(x2)]
            a.dom().contains(x1) && a.dom().contains(x2) && f(x1) == f(x2) implies x1 == x2 by {
            assert(b[a[x1]] == x1 && b[a[x2]] == x2);
        }
    }
    vstd::set_lib::lemma_map_size(a.dom(), b.dom(), f);
}

/// The MSN index of a well-formed mailbox is unpopulated or exact.
pub proof fn lemma_msn_unpopulated_or_exact(st: &MailboxState)
    requires
        st.wf(),
    ensures
        st.msn@.len() == 0 || st.msn@.len() == st.exists_count,
{
}

/// The tag intern table: unknown keywords are interned under their hash.
pub struct TagIndex {
    pub names: HashMap<TagHash, Vec<u8>>,
}

impl TagIndex {
    pub fn new() -> (r: TagIndex)
        ensures
            r.names@ == Map::<u64, Vec<u8>>::empty(),
    {
        TagIndex { names: HashMap::new() }
    }

    /// Intern a keyword: hash it, record the name if it is new, and return
    /// the hash.  An already known hash leaves the table unchanged.
    pub fn intern(&mut self, name: &[u8]) -> (r: TagHash)
        ensures
            r == crate::types::spec_envelope_hash(name@, 0),
            final(self).names@.contains_key(r),
            old(self).names@.contains_key(r) ==> final(self).names@ == old(self).names@,
            !old(self).names@.contains_key(r) ==> final(self).names@ == old(self).names@.insert(
                r,
                final(self).names@[r],
            ) && final(self).names@[r]@ == name@,
    {
        let h = crate::types::generate_envelope_hash(name, 0);
        if !self.names.contains_key(&h) {
            let owned = crate::parser::sub_bytes(name, 0, name.len());
            proof {
                assert(owned@ =~= name@);
            }
            self.names.insert(h, owned);
        }
        h
    }
}

} // verus!
