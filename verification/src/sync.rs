//! Per-mailbox resynchronization: choose the cold or warm path, register
//! freshly fetched envelopes exactly once each, and route untagged
//! responses into the store.

use vstd::prelude::*;

use crate::parser::{ascii, is_untagged_fetch, is_untagged_num, untagged_response, UntaggedResponse};
use crate::uid_store::MailboxState;
use crate::EnvelopeHash;

verus! {

/// What the resynchronizer must do next for one mailbox.
#[derive(Debug, Clone, Copy, PartialEq, Eq, Structural)]
pub enum SyncStep {
    /// Cold mailbox, `LIST-STATUS` advertised: initialize counters with
    /// `LIST ... RETURN (STATUS (MESSAGES UNSEEN))`.
    ColdListStatus,
    /// Cold mailbox, no `LIST-STATUS`: count unseen with `SEARCH UNSEEN`
    /// and trust EXISTS from the select response.
    ColdSearchUnseen,
    /// RECENT is positive: `UID SEARCH RECENT` then fetch those UIDs.
    SearchRecent,
    /// EXISTS grew past the local count: fetch sequence numbers from here.
    FetchNew(usize),
    /// Nothing to do.
    UpToDate,
}

/// Decide the resynchronization path from the select response and the
/// local state, as the warm/cold algorithm prescribes.
pub fn sync_plan(st: &MailboxState, exists: usize, recent: usize, has_list_status: bool) -> (r:
    SyncStep)
    ensures
        !st.warm && has_list_status ==> r == SyncStep::ColdListStatus,
        !st.warm && !has_list_status ==> r == SyncStep::ColdSearchUnseen,
        st.warm && recent > 0 ==> r == SyncStep::SearchRecent,
        st.warm && recent == 0 && exists > st.exists_count ==> r == SyncStep::FetchNew(
            if st.exists_count > 1 {
                st.exists_count
            } else {
                1
            },
        ),
        st.warm && recent == 0 && exists <= st.exists_count ==> r == SyncStep::UpToDate,
{
    if !st.warm {
        if has_list_status {
            SyncStep::ColdListStatus
        } else {
            SyncStep::ColdSearchUnseen
        }
    } else if recent > 0 {
        SyncStep::SearchRecent
    } else if exists > st.exists_count {
        SyncStep::FetchNew(
            if st.exists_count > 1 {
                st.exists_count
            } else {
                1
            },
        )
    } else {
        SyncStep::UpToDate
    }
}

/// Initialize a cold mailbox's counters and mark it warm.
pub fn apply_cold_counters(st: &mut MailboxState, total: usize, unseen: usize)
    requires
        old(st).wf(),
    ensures
        final(st).wf(),
        final(st).warm,
        final(st).exists_count == total,
        final(st).unseen_count == unseen,
        old(st).msn@.len() == total ==> final(st).msn@ == old(st).msn@,
        old(st).msn@.len() != total ==> final(st).msn@ == Seq::<u64>::empty(),
        final(st).uid_to_hash@ == old(st).uid_to_hash@,
        final(st).hash_to_uid@ == old(st).hash_to_uid@,
        final(st).uidvalidity == old(st).uidvalidity,
        final(st).highestmodseq == old(st).highestmodseq,
{
    if st.msn.len() != total {
        st.msn.clear();
        proof {
            assert(st.msn@ =~= Seq::<u64>::empty());
        }
    }
    st.exists_count = total;
    st.unseen_count = unseen;
    st.warm = true;
}

/// The mathematical image of the fields `register` touches.
pub ghost struct StoreModel {
    pub uid_to_hash: Map<u64, u64>,
    pub hash_to_uid: Map<u64, u64>,
    pub msn: Seq<u64>,
    pub exists: int,
}

/// Equal observable store state: same maps, MSN index, counters and marks.
pub open spec fn same_state(a: MailboxState, b: MailboxState) -> bool {
    &&& a.uid_to_hash@ == b.uid_to_hash@
    &&& a.hash_to_uid@ == b.hash_to_uid@
    &&& a.msn@ == b.msn@
    &&& a.exists_count == b.exists_count
    &&& a.unseen_count == b.unseen_count
    &&& a.uidvalidity == b.uidvalidity
    &&& a.highestmodseq == b.highestmodseq
    &&& a.warm == b.warm
}

impl MailboxState {
    /// The registration-relevant state.
    pub open spec fn store_model(&self) -> StoreModel {
        StoreModel {
            uid_to_hash: self.uid_to_hash@,
            hash_to_uid: self.hash_to_uid@,
            msn: self.msn@,
            exists: self.exists_count as int,
        }
    }
}

/// One registration: refused — with no change — when the UID or hash is
/// already known; otherwise both maps gain the pair and a populated MSN
/// index grows with the believed EXISTS count.
pub open spec fn register_step(m: StoreModel, uid: u64, hash: u64) -> (StoreModel, Option<u64>) {
    if m.uid_to_hash.contains_key(uid) || m.hash_to_uid.contains_key(hash) {
        (m, None)
    } else {
        let grows = m.msn.len() == m.exists && m.exists < usize::MAX;
        (
            StoreModel {
                uid_to_hash: m.uid_to_hash.insert(uid, hash),
                hash_to_uid: m.hash_to_uid.insert(hash, uid),
                msn: if grows {
                    m.msn.push(uid)
                } else {
                    m.msn
                },
                exists: if grows {
                    m.exists + 1
                } else {
                    m.exists
                },
            },
            Some(hash),
        )
    }
}

/// All rows registered in order, collecting the accepted envelope hashes:
/// each accepted row yields exactly one `Create`.
pub open spec fn register_fold(m: StoreModel, rows: Seq<(u64, u64)>) -> (StoreModel, Seq<u64>)
    decreases rows.len(),
{
    if rows.len() == 0 {
        (m, Seq::empty())
    } else {
        let prefix = register_fold(m, rows.drop_last());
        let last = register_step(prefix.0, rows.last().0, rows.last().1);
        (
            last.0,
            match last.1 {
                Some(h) => prefix.1.push(h),
                None => prefix.1,
            },
        )
    }
}

/// Register a batch of `(uid, envelope hash)` rows; the result lists the
/// envelope hashes to emit `Create` events for — duplicates are skipped, so
/// no hash is created twice.
pub fn register_envelopes(st: &mut MailboxState, rows: &Vec<(u64, u64)>) -> (created: Vec<
    EnvelopeHash,
>)
    requires
        old(st).wf(),
    ensures
        final(st).wf(),
        ({
            let f = register_fold(old(st).store_model(), rows@);
            final(st).store_model() == f.0 && created@ == f.1
        }),
        final(st).uidvalidity == old(st).uidvalidity,
        final(st).warm == old(st).warm,
        final(st).unseen_count == old(st).unseen_count,
        final(st).highestmodseq == old(st).highestmodseq,
{
    let mut created: Vec<EnvelopeHash> = Vec::new();
    let mut i: usize = 0;
    proof {
        assert(rows@.subrange(0, 0) =~= Seq::<(u64, u64)>::empty());
        assert(created@ =~= register_fold(old(st).store_model(), rows@.subrange(0, 0)).1);
    }
    while i < rows.len()
        invariant
            0 <= i <= rows@.len(),
            st.wf(),
            st.store_model() == register_fold(old(st).store_model(), rows@.subrange(0, i as int)).0,
            created@ == register_fold(old(st).store_model(), rows@.subrange(0, i as int)).1,
            st.uidvalidity == old(st).uidvalidity,
            st.warm == old(st).warm,
            st.unseen_count == old(st).unseen_count,
            st.highestmodseq == old(st).highestmodseq,
        decreases rows.len() - i,
    {
        let (uid, hash) = rows[i];
        let accepted = st.register(uid, hash);
        if accepted {
            created.push(hash);
        }
        proof {
            let p1 = rows@.subrange(0, i + 1);
            assert(p1.drop_last() =~= rows@.subrange(0, i as int));
            assert(p1.last() == rows@[i as int]);
        }
        i += 1;
    }
    proof {
        assert(rows@.subrange(0, rows@.len() as int) =~= rows@);
    }
    created
}

/// One fetched row folded into the store: rows without a usable UID do
/// nothing; a fresh `(uid, hash)` pair is registered and, when its flags
/// lack `\Seen`, counted unseen.
pub open spec fn row_step(m: StoreModel, unseen: int, path: Seq<u8>, row: crate::fetch::FetchRow)
    -> (StoreModel, int, Option<u64>) {
    match row.uid {
        Some(uid64) => {
            if uid64 > usize::MAX as u64 {
                (m, unseen, None)
            } else {
                let hash = crate::types::spec_envelope_hash(path, uid64 as usize);
                let stepped = register_step(m, uid64, hash);
                match stepped.1 {
                    Some(h) => {
                        let unseen2 = if !row.flags.spec_has(crate::types::FLAG_SEEN) && unseen
                            < usize::MAX {
                            unseen + 1
                        } else {
                            unseen
                        };
                        (stepped.0, unseen2, Some(h))
                    },
                    None => (stepped.0, unseen, None),
                }
            }
        },
        None => (m, unseen, None),
    }
}

/// A whole fetch response folded into the store, collecting the hashes to
/// emit `Create` events for.
pub open spec fn rows_fold(
    m: StoreModel,
    unseen: int,
    path: Seq<u8>,
    rows: Seq<crate::fetch::FetchRow>,
) -> (StoreModel, int, Seq<u64>)
    decreases rows.len(),
{
    if rows.len() == 0 {
        (m, unseen, Seq::empty())
    } else {
        let prefix = rows_fold(m, unseen, path, rows.drop_last());
        let last = row_step(prefix.0, prefix.1, path, rows.last());
        (
            last.0,
            last.1,
            match last.2 {
                Some(h) => prefix.2.push(h),
                None => prefix.2,
            },
        )
    }
}

/// Apply a batch of parsed FETCH rows to one mailbox: assemble each
/// envelope under its deterministic hash, register it exactly once, count
/// the unseen ones, and return the envelopes to emit `Create` events for.
pub fn apply_fetch_rows(
    st: &mut MailboxState,
    path: &[u8],
    rows: &Vec<crate::fetch::FetchRow>,
) -> (created: Vec<crate::envelope::Envelope>)
    requires
        old(st).wf(),
    ensures
        final(st).wf(),
        ({
            let f = rows_fold(old(st).store_model(), old(st).unseen_count as int, path@, rows@);
            &&& final(st).store_model() == f.0
            &&& final(st).unseen_count == f.1
            &&& created@.len() == f.2.len()
            &&& forall|k: int| 0 <= k < created@.len() ==> (#[trigger] created@[k]).hash == f.2[k]
        }),
        forall|k: int|
            0 <= k < created@.len() ==> (#[trigger] created@[k]).hash
                == crate::types::spec_envelope_hash(path@, created@[k].uid),
        final(st).uidvalidity == old(st).uidvalidity,
        final(st).warm == old(st).warm,
        final(st).highestmodseq == old(st).highestmodseq,
{
    let mut created: Vec<crate::envelope::Envelope> = Vec::new();
    let mut i: usize = 0;
    proof {
        assert(rows@.subrange(0, 0) =~= Seq::<crate::fetch::FetchRow>::empty());
        assert(rows_fold(
            old(st).store_model(),
            old(st).unseen_count as int,
            path@,
            rows@.subrange(0, 0),
        ).2.len() == 0);
    }
    while i < rows.len()
        invariant
            0 <= i <= rows@.len(),
            st.wf(),
            ({
                let f = rows_fold(
                    old(st).store_model(),
                    old(st).unseen_count as int,
                    path@,
                    rows@.subrange(0, i as int),
                );
                &&& st.store_model() == f.0
                &&& st.unseen_count == f.1
                &&& created@.len() == f.2.len()
                &&& forall|k: int|
                    0 <= k < created@.len() ==> (#[trigger] created@[k]).hash == f.2[k]
            }),
            forall|k: int|
                0 <= k < created@.len() ==> (#[trigger] created@[k]).hash
                    == crate::types::spec_envelope_hash(path@, created@[k].uid),
            st.uidvalidity == old(st).uidvalidity,
            st.warm == old(st).warm,
            st.highestmodseq == old(st).highestmodseq,
        decreases rows.len() - i,
    {
        let row = rows[i];
        match crate::fetch::build_envelope(path, &row) {
            Some(env) => {
                let accepted = st.register(env.uid as u64, env.hash);
                if accepted {
                    if !env.is_seen() && st.unseen_count < usize::MAX {
                        st.unseen_count = st.unseen_count + 1;
                    }
                    created.push(env);
                }
            },
            None => {},
        }
        proof {
            let p1 = rows@.subrange(0, i + 1);
            assert(p1.drop_last() =~= rows@.subrange(0, i as int));
            assert(p1.last() == rows@[i as int]);
        }
        i += 1;
    }
    proof {
        assert(rows@.subrange(0, rows@.len() as int) =~= rows@);
    }
    created
}

/// Registering the same row twice creates it at most once: the second
/// registration is refused.
pub proof fn lemma_register_idempotent(m: StoreModel, uid: u64, hash: u64)
    ensures
        ({
            let first = register_step(m, uid, hash);
            let second = register_step(first.0, uid, hash);
            second.1 is None && second.0 == first.0
        }),
{
}

/// One flag-change row resolved against the UID map: a row whose UID is
/// known yields its `NewFlags` event, everything else nothing.
pub open spec fn flag_event_step(m: Map<u64, u64>, row: crate::fetch::FetchRow) -> Option<
    crate::envelope::RefreshEventKind,
> {
    match row.uid {
        Some(u) => if m.contains_key(u) {
            Some(crate::envelope::RefreshEventKind::NewFlags(m[u], row.flags))
        } else {
            None
        },
        None => None,
    }
}

/// All flag-change events of a CHANGEDSINCE scan, in order.
pub open spec fn flag_events_fold(m: Map<u64, u64>, rows: Seq<crate::fetch::FetchRow>) -> Seq<
    crate::envelope::RefreshEventKind,
>
    decreases rows.len(),
{
    if rows.len() == 0 {
        Seq::empty()
    } else {
        let prefix = flag_events_fold(m, rows.drop_last());
        match flag_event_step(m, rows.last()) {
            Some(p) => prefix.push(p),
            None => prefix,
        }
    }
}

/// Resolve the rows of a `FETCH 1:* (FLAGS) (CHANGEDSINCE n)` scan into
/// `NewFlags` events: one per row whose UID the store knows, in order.
/// The store itself is read, not changed.
pub fn flag_change_events(st: &MailboxState, rows: &Vec<crate::fetch::FetchRow>) -> (events: Vec<
    crate::envelope::RefreshEventKind,
>)
    ensures
        events@ == flag_events_fold(st.uid_to_hash@, rows@),
{
    let mut events: Vec<crate::envelope::RefreshEventKind> = Vec::new();
    let mut i: usize = 0;
    proof {
        assert(rows@.subrange(0, 0) =~= Seq::<crate::fetch::FetchRow>::empty());
        assert(events@ =~= flag_events_fold(st.uid_to_hash@, rows@.subrange(0, 0)));
    }
    while i < rows.len()
        invariant
            0 <= i <= rows@.len(),
            events@ == flag_events_fold(st.uid_to_hash@, rows@.subrange(0, i as int)),
        decreases rows.len() - i,
    {
        let row = rows[i];
        match row.uid {
            Some(u) => {
                match st.hash_of(u) {
                    Some(h) => {
                        events.push(crate::envelope::RefreshEventKind::NewFlags(h, row.flags));
                    },
                    None => {},
                }
            },
            None => {},
        }
        proof {
            let p1 = rows@.subrange(0, i + 1);
            assert(p1.drop_last() =~= rows@.subrange(0, i as int));
            assert(p1.last() == rows@[i as int]);
        }
        i += 1;
    }
    proof {
        assert(rows@.subrange(0, rows@.len() as int) =~= rows@);
    }
    events
}

/// One vanished UID folded into the store: a known UID leaves both maps,
/// unsettles the MSN index and lowers the believed EXISTS count.
pub open spec fn vanish_step(m: StoreModel, uid: u64) -> (StoreModel, Option<u64>) {
    if m.uid_to_hash.contains_key(uid) {
        (
            StoreModel {
                uid_to_hash: m.uid_to_hash.remove(uid),
                hash_to_uid: m.hash_to_uid.remove(m.uid_to_hash[uid]),
                msn: Seq::empty(),
                exists: if m.exists > 0 {
                    m.exists - 1
                } else {
                    0
                },
            },
            Some(m.uid_to_hash[uid]),
        )
    } else {
        (m, None)
    }
}

/// A whole `VANISHED` set folded into the store, collecting the `Remove`
/// events to emit.
pub open spec fn vanish_fold(m: StoreModel, uids: Seq<u64>) -> (
    StoreModel,
    Seq<crate::envelope::RefreshEventKind>,
)
    decreases uids.len(),
{
    if uids.len() == 0 {
        (m, Seq::empty())
    } else {
        let prefix = vanish_fold(m, uids.drop_last());
        let last = vanish_step(prefix.0, uids.last());
        (
            last.0,
            match last.1 {
                Some(h) => prefix.1.push(crate::envelope::RefreshEventKind::Remove(h)),
                None => prefix.1,
            },
        )
    }
}

/// Apply a QRESYNC `VANISHED` set: forget every known UID in it and return
/// the `Remove` events to emit, in order.
pub fn apply_vanished(st: &mut MailboxState, uids: &Vec<u64>) -> (removed: Vec<
    crate::envelope::RefreshEventKind,
>)
    requires
        old(st).wf(),
    ensures
        final(st).wf(),
        ({
            let f = vanish_fold(old(st).store_model(), uids@);
            final(st).store_model() == f.0 && removed@ == f.1
        }),
        final(st).uidvalidity == old(st).uidvalidity,
        final(st).warm == old(st).warm,
        final(st).unseen_count == old(st).unseen_count,
        final(st).highestmodseq == old(st).highestmodseq,
{
    let mut removed: Vec<crate::envelope::RefreshEventKind> = Vec::new();
    let mut i: usize = 0;
    proof {
        assert(uids@.subrange(0, 0) =~= Seq::<u64>::empty());
        assert(removed@ =~= vanish_fold(old(st).store_model(), uids@.subrange(0, 0)).1);
    }
    while i < uids.len()
        invariant
            0 <= i <= uids@.len(),
            st.wf(),
            st.store_model() == vanish_fold(old(st).store_model(), uids@.subrange(0, i as int)).0,
            removed@ == vanish_fold(old(st).store_model(), uids@.subrange(0, i as int)).1,
            st.uidvalidity == old(st).uidvalidity,
            st.warm == old(st).warm,
            st.unseen_count == old(st).unseen_count,
            st.highestmodseq == old(st).highestmodseq,
        decreases uids.len() - i,
    {
        match st.remove_uid(uids[i]) {
            Some(h) => {
                removed.push(crate::envelope::RefreshEventKind::Remove(h));
            },
            None => {},
        }
        proof {
            let p1 = uids@.subrange(0, i + 1);
            assert(p1.drop_last() =~= uids@.subrange(0, i as int));
            assert(p1.last() == uids@[i as int]);
        }
        i += 1;
    }
    proof {
        assert(uids@.subrange(0, uids@.len() as int) =~= uids@);
    }
    removed
}

/// What an untagged line did to the store.
#[derive(Debug, Clone, Copy, PartialEq, Eq, Structural)]
pub enum UntaggedAction {
    /// `* n EXISTS` was applied (growth clears the MSN index; a decrease is
    /// a silent no-op — the matching EXPUNGEs came separately).
    AppliedExists(usize),
    /// `* n EXPUNGE` resolved to this envelope: emit `Remove`.
    Removed(EnvelopeHash),
    /// `* n EXPUNGE` could not be resolved: nothing to emit.
    ExpungeUnresolved(usize),
    /// `* n FETCH ...`: the caller must parse the fetch payload.
    NeedsFetch(usize),
    /// `* n RECENT` or anything else: no store effect.
    Ignored,
}

/// A numeric status line carries exactly one keyword: a line that parses
/// under one keyword parses under no different one.
proof fn lemma_num_kw_unique(l: Seq<u8>, kw1: Seq<u8>, kw2: Seq<u8>)
    requires
        exists|m: int| is_untagged_num(l, kw1, m),
        kw1 != kw2,
    ensures
        forall|n: int| !is_untagged_num(l, kw2, n),
{
    let m = choose|m: int| is_untagged_num(l, kw1, m);
    assert(is_untagged_num(l, kw1, m));
    assert forall|n: int| !is_untagged_num(l, kw2, n) by {
        if is_untagged_num(l, kw2, n) {
            let t = crate::bytes::split_tokens(crate::parser::trimmed(l), crate::bytes::SP);
            assert(crate::bytes::upper_seq(t[2]) == kw1);
            assert(crate::bytes::upper_seq(t[2]) == kw2);
        }
    }
}

/// Route one untagged response line into the store.  Every arm fixes both
/// what the line was and what happened to the state; in particular, a line
/// that parses as EXISTS, EXPUNGE or FETCH is never ignored.
pub fn process_untagged(st: &mut MailboxState, line: &[u8]) -> (r: UntaggedAction)
    requires
        old(st).wf(),
    ensures
        final(st).wf(),
        final(st).uidvalidity == old(st).uidvalidity,
        final(st).warm == old(st).warm,
        final(st).unseen_count == old(st).unseen_count,
        final(st).highestmodseq == old(st).highestmodseq,
        match r {
            UntaggedAction::AppliedExists(n) => {
                &&& is_untagged_num(line@, ascii("EXISTS"@), n as int)
                &&& final(st).uid_to_hash@ == old(st).uid_to_hash@
                &&& final(st).hash_to_uid@ == old(st).hash_to_uid@
                &&& (n <= old(st).exists_count ==> final(st).exists_count == old(st).exists_count
                    && final(st).msn@ == old(st).msn@)
                &&& (n > old(st).exists_count ==> final(st).exists_count == n && final(st).msn@
                    == Seq::<u64>::empty())
            },
            UntaggedAction::Removed(h) => exists|n: int|
                {
                    &&& #[trigger] is_untagged_num(line@, ascii("EXPUNGE"@), n)
                    &&& 1 <= n <= old(st).msn@.len()
                    &&& old(st).uid_to_hash@.contains_key(old(st).msn@[n - 1])
                    &&& h == old(st).uid_to_hash@[old(st).msn@[n - 1]]
                    &&& final(st).msn@ == old(st).msn@.remove(n - 1)
                    &&& final(st).exists_count == old(st).exists_count - 1
                    &&& final(st).uid_to_hash@ == old(st).uid_to_hash@.remove(old(st).msn@[n - 1])
                    &&& final(st).hash_to_uid@ == old(st).hash_to_uid@.remove(h)
                },
            UntaggedAction::ExpungeUnresolved(n) => {
                &&& is_untagged_num(line@, ascii("EXPUNGE"@), n as int)
                &&& final(st).hash_to_uid@ == old(st).hash_to_uid@
                &&& final(st).uid_to_hash@ == old(st).uid_to_hash@
                &&& (1 <= n <= old(st).msn@.len() ==> !old(st).uid_to_hash@.contains_key(
                    old(st).msn@[n - 1],
                ) && final(st).msn@ == old(st).msn@.remove(n - 1) && final(st).exists_count == old(
                    st,
                ).exists_count - 1)
                &&& (!(1 <= n <= old(st).msn@.len()) ==> final(st).msn@ == old(st).msn@ && (old(
                    st,
                ).msn@.len() == 0 && n >= 1 && old(st).exists_count > 0
                    ==> final(st).exists_count == old(st).exists_count - 1) && (!(old(
                    st,
                ).msn@.len() == 0 && n >= 1 && old(st).exists_count > 0)
                    ==> final(st).exists_count == old(st).exists_count))
            },
            UntaggedAction::NeedsFetch(n) => is_untagged_fetch(line@, n as int) && same_state(
                *final(st),
                *old(st),
            ),
            UntaggedAction::Ignored => {
                &&& same_state(*final(st), *old(st))
                &&& forall|n: int| !(#[trigger] is_untagged_num(line@, ascii("EXISTS"@), n))
                &&& forall|n: int| !(#[trigger] is_untagged_num(line@, ascii("EXPUNGE"@), n))
                &&& forall|n: int| !(#[trigger] is_untagged_fetch(line@, n))
            },
        },
{
    proof {
        reveal_strlit("EXISTS");
        reveal_strlit("RECENT");
        reveal_strlit("EXPUNGE");
        reveal_strlit("FETCH");
    }
    match untagged_response(line) {
        Some(UntaggedResponse::Exists(n)) => {
            st.handle_exists(n);
            UntaggedAction::AppliedExists(n)
        },
        Some(UntaggedResponse::Expunge(n)) => {
            match st.handle_expunge(n) {
                Some(h) => UntaggedAction::Removed(h),
                None => {
                    proof {
                        if 1 <= n <= old(st).msn@.len() {
                            let uid = old(st).msn@[n - 1];
                            assert(!old(st).uid_to_hash@.contains_key(uid));
                            assert(old(st).uid_to_hash@.remove(uid) =~= old(st).uid_to_hash@);
                        }
                    }
                    UntaggedAction::ExpungeUnresolved(n)
                },
            }
        },
        Some(UntaggedResponse::Fetch(n)) => UntaggedAction::NeedsFetch(n),
        Some(UntaggedResponse::Recent(_)) => {
            proof {
                assert(ascii("RECENT"@)[0] == 82u8);
                assert(ascii("EXISTS"@)[0] == 69u8);
                assert(ascii("EXPUNGE"@).len() == 7);
                lemma_num_kw_unique(line@, ascii("RECENT"@), ascii("EXISTS"@));
                lemma_num_kw_unique(line@, ascii("RECENT"@), ascii("EXPUNGE"@));
                crate::fetch::lemma_numeric_line_is_not_fetch(line@, ascii("RECENT"@));
            }
            UntaggedAction::Ignored
        },
        None => {
            proof {
                assert forall|n: int| !(#[trigger] is_untagged_fetch(line@, n)) by {
                    assert(!is_untagged_fetch(line@, n));
                }
                assert forall|n: int|
                    !(#[trigger] is_untagged_num(line@, ascii("EXISTS"@), n)) by {
                    assert(!is_untagged_fetch(line@, n));
                    assert(!is_untagged_num(line@, ascii("EXISTS"@), n));
                }
                assert forall|n: int|
                    !(#[trigger] is_untagged_num(line@, ascii("EXPUNGE"@), n)) by {
                    assert(!is_untagged_fetch(line@, n));
                    assert(!is_untagged_num(line@, ascii("EXPUNGE"@), n));
                }
            }
            UntaggedAction::Ignored
        },
    }
}

} // verus!
