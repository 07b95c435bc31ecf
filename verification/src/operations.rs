//! Command builders for the backend facade: every byte the client sends is
//! stated exactly, and the fetch batching rule is proved to partition the
//! mailbox.

use vstd::prelude::*;

use crate::bytes::SP;
use crate::connection::{dec_digits, u64_to_dec, usize_to_dec};
use crate::parser::ascii;
use crate::types::{Flag, FLAG_ANSWERED, FLAG_DELETED, FLAG_DRAFT, FLAG_FLAGGED, FLAG_SEEN};

verus! {

/// Append `s` to `out`.
pub fn append_bytes(out: &mut Vec<u8>, s: &[u8])
    ensures
        final(out)@ == old(out)@ + s@,
{
    let mut i: usize = 0;
    proof {
        assert(out@ =~= old(out)@ + s@.subrange(0, 0));
    }
    while i < s.len()
        invariant
            0 <= i <= s@.len(),
            out@ == old(out)@ + s@.subrange(0, i as int),
        decreases s.len() - i,
    {
        out.push(s[i]);
        proof {
            assert(out@ =~= old(out)@ + s@.subrange(0, i + 1));
        }
        i += 1;
    }
    proof {
        assert(s@.subrange(0, s@.len() as int) =~= s@);
    }
}

/// `SELECT "<path>"` (or `EXAMINE "<path>"`).
pub open spec fn select_command_bytes(path: Seq<u8>, examine: bool) -> Seq<u8> {
    (if examine {
        ascii("EXAMINE \""@)
    } else {
        ascii("SELECT \""@)
    }) + path + seq![34u8]
}

pub fn select_command(path: &[u8], examine: bool) -> (r: Vec<u8>)
    ensures
        r@ == select_command_bytes(path@, examine),
{
    proof {
        reveal_strlit("SELECT \"");
        reveal_strlit("EXAMINE \"");
    }
    let mut out: Vec<u8> = Vec::new();
    if examine {
        let head: [u8; 9] = [69, 88, 65, 77, 73, 78, 69, 32, 34];
        proof {
            assert(head@ =~= ascii("EXAMINE \""@));
        }
        append_bytes(&mut out, head.as_slice());
    } else {
        let head: [u8; 8] = [83, 69, 76, 69, 67, 84, 32, 34];
        proof {
            assert(head@ =~= ascii("SELECT \""@));
        }
        append_bytes(&mut out, head.as_slice());
    }
    append_bytes(&mut out, path);
    out.push(34);
    proof {
        assert(out@ =~= select_command_bytes(path@, examine));
    }
    out
}

/// The UID set `n1,n2,...` of a non-empty UID list.
pub open spec fn uid_set_bytes(uids: Seq<u64>) -> Seq<u8>
    decreases uids.len(),
{
    if uids.len() == 0 {
        Seq::empty()
    } else if uids.len() == 1 {
        dec_digits(uids[0] as int)
    } else {
        uid_set_bytes(uids.drop_last()) + seq![44u8] + dec_digits(uids.last() as int)
    }
}

pub fn uid_set(uids: &Vec<u64>) -> (r: Vec<u8>)
    ensures
        r@ == uid_set_bytes(uids@),
{
    let mut out: Vec<u8> = Vec::new();
    let mut i: usize = 0;
    proof {
        assert(uids@.subrange(0, 0) =~= Seq::<u64>::empty());
        assert(out@ =~= uid_set_bytes(uids@.subrange(0, 0)));
    }
    while i < uids.len()
        invariant
            0 <= i <= uids@.len(),
            out@ == uid_set_bytes(uids@.subrange(0, i as int)),
        decreases uids.len() - i,
    {
        if i > 0 {
            out.push(44);
        }
        let digits = u64_to_dec(uids[i]);
        append_bytes(&mut out, digits.as_slice());
        proof {
            let p1 = uids@.subrange(0, i + 1);
            assert(p1.drop_last() =~= uids@.subrange(0, i as int));
            assert(p1.last() == uids@[i as int]);
            if i == 0 {
                assert(out@ =~= uid_set_bytes(p1));
            } else {
                assert(out@ =~= uid_set_bytes(p1));
            }
        }
        i += 1;
    }
    proof {
        assert(uids@.subrange(0, uids@.len() as int) =~= uids@);
    }
    out
}

/// The attribute list every envelope fetch asks for.
pub open spec fn fetch_items_bytes() -> Seq<u8> {
    ascii(" (UID FLAGS ENVELOPE BODY.PEEK[HEADER.FIELDS (REFERENCES)] BODYSTRUCTURE)"@)
}

fn fetch_items() -> (r: Vec<u8>)
    ensures
        r@ == fetch_items_bytes(),
{
    proof {
        reveal_strlit(" (UID FLAGS ENVELOPE BODY.PEEK[HEADER.FIELDS (REFERENCES)] BODYSTRUCTURE)");
    }
    let head: [u8; 73] = [
        32, 40, 85, 73, 68, 32, 70, 76, 65, 71, 83, 32, 69, 78, 86, 69, 76, 79, 80, 69, 32, 66, 79, 68, 89, 46, 80, 69, 69, 75, 91, 72, 69, 65, 68, 69, 82, 46, 70, 73, 69, 76, 68, 83, 32, 40, 82, 69, 70, 69, 82, 69, 78, 67, 69, 83, 41, 93, 32, 66, 79, 68, 89, 83, 84, 82, 85, 67, 84, 85, 82, 69, 41,
    ];
    let mut out: Vec<u8> = Vec::new();
    append_bytes(&mut out, head.as_slice());
    proof {
        assert(out@ =~= fetch_items_bytes());
    }
    out
}

/// `UID FETCH n1,n2,... (UID FLAGS ENVELOPE ...)`.
pub open spec fn uid_fetch_command_bytes(uids: Seq<u64>) -> Seq<u8> {
    ascii("UID FETCH "@) + uid_set_bytes(uids) + fetch_items_bytes()
}

pub fn uid_fetch_command(uids: &Vec<u64>) -> (r: Vec<u8>)
    ensures
        r@ == uid_fetch_command_bytes(uids@),
{
    proof {
        reveal_strlit("UID FETCH ");
    }
    let head: [u8; 10] = [85, 73, 68, 32, 70, 69, 84, 67, 72, 32];
    proof {
        assert(head@ =~= ascii("UID FETCH "@));
    }
    let mut out: Vec<u8> = Vec::new();
    append_bytes(&mut out, head.as_slice());
    let set = uid_set(uids);
    append_bytes(&mut out, set.as_slice());
    let items = fetch_items();
    append_bytes(&mut out, items.as_slice());
    proof {
        assert(out@ =~= uid_fetch_command_bytes(uids@));
    }
    out
}

/// `FETCH <from>:* (...)`: the warm-path fetch of new sequence numbers.
pub open spec fn fetch_from_command_bytes(from: int) -> Seq<u8> {
    ascii("FETCH "@) + dec_digits(from) + ascii(":*"@) + fetch_items_bytes()
}

pub fn fetch_from_command(from: usize) -> (r: Vec<u8>)
    ensures
        r@ == fetch_from_command_bytes(from as int),
{
    proof {
        reveal_strlit("FETCH ");
        reveal_strlit(":*");
    }
    let head: [u8; 6] = [70, 69, 84, 67, 72, 32];
    let colon_star: [u8; 2] = [58, 42];
    proof {
        assert(head@ =~= ascii("FETCH "@));
        assert(colon_star@ =~= ascii(":*"@));
    }
    let mut out: Vec<u8> = Vec::new();
    append_bytes(&mut out, head.as_slice());
    let digits = usize_to_dec(from);
    append_bytes(&mut out, digits.as_slice());
    append_bytes(&mut out, colon_star.as_slice());
    let items = fetch_items();
    append_bytes(&mut out, items.as_slice());
    proof {
        assert(out@ =~= fetch_from_command_bytes(from as int));
    }
    out
}

/// The wire names of the system flags that are set in `f`, space-joined,
/// in the fixed order Seen, Answered, Flagged, Deleted, Draft.
pub open spec fn flags_list_bytes(f: Flag) -> Seq<u8> {
    let s1: Seq<u8> = if f.spec_has(FLAG_SEEN) {
        ascii("\\Seen"@)
    } else {
        Seq::empty()
    };
    let s2: Seq<u8> = if f.spec_has(FLAG_ANSWERED) {
        sp_sep(s1, ascii("\\Answered"@))
    } else {
        s1
    };
    let s3: Seq<u8> = if f.spec_has(FLAG_FLAGGED) {
        sp_sep(s2, ascii("\\Flagged"@))
    } else {
        s2
    };
    let s4: Seq<u8> = if f.spec_has(FLAG_DELETED) {
        sp_sep(s3, ascii("\\Deleted"@))
    } else {
        s3
    };
    if f.spec_has(FLAG_DRAFT) {
        sp_sep(s4, ascii("\\Draft"@))
    } else {
        s4
    }
}

/// Join with a space unless the left side is still empty.
pub open spec fn sp_sep(a: Seq<u8>, b: Seq<u8>) -> Seq<u8> {
    if a.len() == 0 {
        b
    } else {
        a + seq![SP] + b
    }
}

pub fn flags_list(f: Flag) -> (r: Vec<u8>)
    ensures
        r@ == flags_list_bytes(f),
{
    proof {
        reveal_strlit("\\Seen");
        reveal_strlit("\\Answered");
        reveal_strlit("\\Flagged");
        reveal_strlit("\\Deleted");
        reveal_strlit("\\Draft");
    }
    let seen: [u8; 5] = [92, 83, 101, 101, 110];
    let answered: [u8; 9] = [92, 65, 110, 115, 119, 101, 114, 101, 100];
    let flagged: [u8; 8] = [92, 70, 108, 97, 103, 103, 101, 100];
    let deleted: [u8; 8] = [92, 68, 101, 108, 101, 116, 101, 100];
    let draft: [u8; 6] = [92, 68, 114, 97, 102, 116];
    proof {
        assert(seen@ =~= ascii("\\Seen"@));
        assert(answered@ =~= ascii("\\Answered"@));
        assert(flagged@ =~= ascii("\\Flagged"@));
        assert(deleted@ =~= ascii("\\Deleted"@));
        assert(draft@ =~= ascii("\\Draft"@));
    }
    let mut out: Vec<u8> = Vec::new();
    if f.has(FLAG_SEEN) {
        append_bytes(&mut out, seen.as_slice());
    }
    if f.has(FLAG_ANSWERED) {
        if out.len() > 0 {
            out.push(SP);
        }
        append_bytes(&mut out, answered.as_slice());
    }
    if f.has(FLAG_FLAGGED) {
        if out.len() > 0 {
            out.push(SP);
        }
        append_bytes(&mut out, flagged.as_slice());
    }
    if f.has(FLAG_DELETED) {
        if out.len() > 0 {
            out.push(SP);
        }
        append_bytes(&mut out, deleted.as_slice());
    }
    if f.has(FLAG_DRAFT) {
        if out.len() > 0 {
            out.push(SP);
        }
        append_bytes(&mut out, draft.as_slice());
    }
    proof {
        assert(out@ =~= flags_list_bytes(f));
    }
    out
}

/// `APPEND "<path>" (<flags>) {<len>}`: save a message; the bytes follow as
/// a literal after the continuation.
pub open spec fn append_command_bytes(path: Seq<u8>, f: Flag, len: int) -> Seq<u8> {
    ascii("APPEND \""@) + path + ascii("\" ("@) + flags_list_bytes(f) + ascii(") {"@) + dec_digits(
        len,
    ) + seq![125u8]
}

pub fn append_command(path: &[u8], f: Flag, len: usize) -> (r: Vec<u8>)
    ensures
        r@ == append_command_bytes(path@, f, len as int),
{
    proof {
        reveal_strlit("APPEND \"");
        reveal_strlit("\" (");
        reveal_strlit(") {");
    }
    let head: [u8; 8] = [65, 80, 80, 69, 78, 68, 32, 34];
    let mid1: [u8; 3] = [34, 32, 40];
    let mid2: [u8; 3] = [41, 32, 123];
    proof {
        assert(head@ =~= ascii("APPEND \""@));
        assert(mid1@ =~= ascii("\" ("@));
        assert(mid2@ =~= ascii(") {"@));
    }
    let mut out: Vec<u8> = Vec::new();
    append_bytes(&mut out, head.as_slice());
    append_bytes(&mut out, path);
    append_bytes(&mut out, mid1.as_slice());
    let fl = flags_list(f);
    append_bytes(&mut out, fl.as_slice());
    append_bytes(&mut out, mid2.as_slice());
    let digits = usize_to_dec(len);
    append_bytes(&mut out, digits.as_slice());
    out.push(125);
    proof {
        assert(out@ =~= append_command_bytes(path@, f, len as int));
    }
    out
}

/// `UID STORE <set> +FLAGS (<flags>)` or `-FLAGS`: the flag change of
/// `set_flags`.
pub open spec fn store_command_bytes(uids: Seq<u64>, add: bool, f: Flag) -> Seq<u8> {
    ascii("UID STORE "@) + uid_set_bytes(uids) + (if add {
        ascii(" +FLAGS ("@)
    } else {
        ascii(" -FLAGS ("@)
    }) + flags_list_bytes(f) + seq![41u8]
}

pub fn store_command(uids: &Vec<u64>, add: bool, f: Flag) -> (r: Vec<u8>)
    ensures
        r@ == store_command_bytes(uids@, add, f),
{
    proof {
        reveal_strlit("UID STORE ");
        reveal_strlit(" +FLAGS (");
        reveal_strlit(" -FLAGS (");
    }
    let head: [u8; 10] = [85, 73, 68, 32, 83, 84, 79, 82, 69, 32];
    let plus: [u8; 9] = [32, 43, 70, 76, 65, 71, 83, 32, 40];
    let minus: [u8; 9] = [32, 45, 70, 76, 65, 71, 83, 32, 40];
    proof {
        assert(head@ =~= ascii("UID STORE "@));
        assert(plus@ =~= ascii(" +FLAGS ("@));
        assert(minus@ =~= ascii(" -FLAGS ("@));
    }
    let mut out: Vec<u8> = Vec::new();
    append_bytes(&mut out, head.as_slice());
    let set = uid_set(uids);
    append_bytes(&mut out, set.as_slice());
    if add {
        append_bytes(&mut out, plus.as_slice());
    } else {
        append_bytes(&mut out, minus.as_slice());
    }
    let fl = flags_list(f);
    append_bytes(&mut out, fl.as_slice());
    out.push(41);
    proof {
        assert(out@ =~= store_command_bytes(uids@, add, f));
    }
    out
}

/// `UID COPY <set> "<path>"`.
pub open spec fn copy_command_bytes(uids: Seq<u64>, path: Seq<u8>) -> Seq<u8> {
    ascii("UID COPY "@) + uid_set_bytes(uids) + ascii(" \""@) + path + seq![34u8]
}

pub fn copy_command(uids: &Vec<u64>, path: &[u8]) -> (r: Vec<u8>)
    ensures
        r@ == copy_command_bytes(uids@, path@),
{
    proof {
        reveal_strlit("UID COPY ");
        reveal_strlit(" \"");
    }
    let head: [u8; 9] = [85, 73, 68, 32, 67, 79, 80, 89, 32];
    let mid: [u8; 2] = [32, 34];
    proof {
        assert(head@ =~= ascii("UID COPY "@));
        assert(mid@ =~= ascii(" \""@));
    }
    let mut out: Vec<u8> = Vec::new();
    append_bytes(&mut out, head.as_slice());
    let set = uid_set(uids);
    append_bytes(&mut out, set.as_slice());
    append_bytes(&mut out, mid.as_slice());
    append_bytes(&mut out, path);
    out.push(34);
    proof {
        assert(out@ =~= copy_command_bytes(uids@, path@));
    }
    out
}

/// `CREATE "<path>"`, `DELETE "<path>"`, `SUBSCRIBE "<path>"` or
/// `UNSUBSCRIBE "<path>"`: one quoted-path mailbox command.
pub open spec fn mailbox_command_bytes(verb: Seq<u8>, path: Seq<u8>) -> Seq<u8> {
    verb + ascii(" \""@) + path + seq![34u8]
}

fn quoted_path_command(verb: &[u8], path: &[u8]) -> (r: Vec<u8>)
    ensures
        r@ == mailbox_command_bytes(verb@, path@),
{
    proof {
        reveal_strlit(" \"");
    }
    let mid: [u8; 2] = [32, 34];
    proof {
        assert(mid@ =~= ascii(" \""@));
    }
    let mut out: Vec<u8> = Vec::new();
    append_bytes(&mut out, verb);
    append_bytes(&mut out, mid.as_slice());
    append_bytes(&mut out, path);
    out.push(34);
    proof {
        assert(out@ =~= mailbox_command_bytes(verb@, path@));
    }
    out
}

/// `CREATE "<path>"`.
pub fn create_command(path: &[u8]) -> (r: Vec<u8>)
    ensures
        r@ == mailbox_command_bytes(ascii("CREATE"@), path@),
{
    proof {
        reveal_strlit("CREATE");
    }
    let verb: [u8; 6] = [67, 82, 69, 65, 84, 69];
    proof {
        assert(verb@ =~= ascii("CREATE"@));
    }
    quoted_path_command(verb.as_slice(), path)
}

/// `DELETE "<path>"`.
pub fn delete_command(path: &[u8]) -> (r: Vec<u8>)
    ensures
        r@ == mailbox_command_bytes(ascii("DELETE"@), path@),
{
    proof {
        reveal_strlit("DELETE");
    }
    let verb: [u8; 6] = [68, 69, 76, 69, 84, 69];
    proof {
        assert(verb@ =~= ascii("DELETE"@));
    }
    quoted_path_command(verb.as_slice(), path)
}

/// `SUBSCRIBE "<path>"` or `UNSUBSCRIBE "<path>"`.
pub fn subscribe_command(path: &[u8], subscribe: bool) -> (r: Vec<u8>)
    ensures
        subscribe ==> r@ == mailbox_command_bytes(ascii("SUBSCRIBE"@), path@),
        !subscribe ==> r@ == mailbox_command_bytes(ascii("UNSUBSCRIBE"@), path@),
{
    proof {
        reveal_strlit("SUBSCRIBE");
        reveal_strlit("UNSUBSCRIBE");
    }
    if subscribe {
        let verb: [u8; 9] = [83, 85, 66, 83, 67, 82, 73, 66, 69];
        proof {
            assert(verb@ =~= ascii("SUBSCRIBE"@));
        }
        quoted_path_command(verb.as_slice(), path)
    } else {
        let verb: [u8; 11] = [85, 78, 83, 85, 66, 83, 67, 82, 73, 66, 69];
        proof {
            assert(verb@ =~= ascii("UNSUBSCRIBE"@));
        }
        quoted_path_command(verb.as_slice(), path)
    }
}

/// `RENAME "<from>" "<to>"`.
pub open spec fn rename_command_bytes(from: Seq<u8>, to: Seq<u8>) -> Seq<u8> {
    ascii("RENAME \""@) + from + ascii("\" \""@) + to + seq![34u8]
}

pub fn rename_command(from: &[u8], to: &[u8]) -> (r: Vec<u8>)
    ensures
        r@ == rename_command_bytes(from@, to@),
{
    proof {
        reveal_strlit("RENAME \"");
        reveal_strlit("\" \"");
    }
    let head: [u8; 8] = [82, 69, 78, 65, 77, 69, 32, 34];
    let mid: [u8; 3] = [34, 32, 34];
    proof {
        assert(head@ =~= ascii("RENAME \""@));
        assert(mid@ =~= ascii("\" \""@));
    }
    let mut out: Vec<u8> = Vec::new();
    append_bytes(&mut out, head.as_slice());
    append_bytes(&mut out, from);
    append_bytes(&mut out, mid.as_slice());
    append_bytes(&mut out, to);
    out.push(34);
    proof {
        assert(out@ =~= rename_command_bytes(from@, to@));
    }
    out
}

/// `FETCH 1:* (FLAGS) (CHANGEDSINCE <modseq>)`: the CONDSTORE flag-change
/// scan since a known HIGHESTMODSEQ.
pub open spec fn changedsince_command_bytes(modseq: int) -> Seq<u8> {
    ascii("FETCH 1:* (FLAGS) (CHANGEDSINCE "@) + dec_digits(modseq) + seq![41u8]
}

pub fn changedsince_command(modseq: u64) -> (r: Vec<u8>)
    ensures
        r@ == changedsince_command_bytes(modseq as int),
{
    proof {
        reveal_strlit("FETCH 1:* (FLAGS) (CHANGEDSINCE ");
    }
    let head: [u8; 32] = [
        70, 69, 84, 67, 72, 32, 49, 58, 42, 32, 40, 70, 76, 65, 71, 83, 41, 32, 40, 67, 72, 65,
        78, 71, 69, 68, 83, 73, 78, 67, 69, 32,
    ];
    proof {
        assert(head@ =~= ascii("FETCH 1:* (FLAGS) (CHANGEDSINCE "@));
    }
    let mut out: Vec<u8> = Vec::new();
    append_bytes(&mut out, head.as_slice());
    let digits = u64_to_dec(modseq);
    append_bytes(&mut out, digits.as_slice());
    out.push(41);
    proof {
        assert(out@ =~= changedsince_command_bytes(modseq as int));
    }
    out
}

/// One batch of the lazy fetch: the inclusive MSN range `[low, high]`.
#[derive(Debug, Clone, Copy, PartialEq, Eq, Structural)]
pub struct FetchBatch {
    pub low: usize,
    pub high: usize,
}

/// The batches of a lazy fetch, newest first: consecutive descending
/// ranges of at most `size` messages that together cover `1..=exists`.
pub fn fetch_batches(exists: usize, size: usize) -> (r: Vec<FetchBatch>)
    requires
        size >= 1,
    ensures
        exists == 0 ==> r@.len() == 0,
        exists > 0 ==> r@.len() >= 1 && r@[0].high == exists && r@[r@.len() - 1].low == 1,
        forall|i: int| 0 <= i < r@.len() ==> 1 <= (#[trigger] r@[i]).low <= r@[i].high <= exists,
        forall|i: int| 0 <= i < r@.len() ==> (#[trigger] r@[i]).high - r@[i].low < size,
        forall|i: int|
            0 <= i < r@.len() - 1 ==> (#[trigger] r@[i]).low == r@[i + 1].high + 1,
{
    let mut out: Vec<FetchBatch> = Vec::new();
    if exists == 0 {
        return out;
    }
    let mut high = exists;
    loop
        invariant_except_break
            1 <= high <= exists,
            high == exists ==> out@.len() == 0,
            high < exists ==> out@.len() >= 1 && out@[0].high == exists && out@[out@.len()
                - 1].low == high + 1,
        invariant
            size >= 1,
            exists >= 1,
            forall|i: int|
                0 <= i < out@.len() ==> 1 <= (#[trigger] out@[i]).low <= out@[i].high <= exists,
            forall|i: int| 0 <= i < out@.len() ==> (#[trigger] out@[i]).high - out@[i].low < size,
            forall|i: int|
                0 <= i < out@.len() - 1 ==> (#[trigger] out@[i]).low == out@[i + 1].high + 1,
        ensures
            out@.len() >= 1 && out@[0].high == exists && out@[out@.len() - 1].low == 1,
        decreases high,
    {
        let low = if high > size {
            high - size + 1
        } else {
            1
        };
        out.push(FetchBatch { low, high });
        if low == 1 {
            break;
        }
        high = low - 1;
    }
    out
}

/// An abstract search query, rendered to the server's SEARCH syntax.
#[derive(Debug)]
pub enum SearchQuery {
    All,
    Unseen,
    Flagged,
    From(Vec<u8>),
    Subject(Vec<u8>),
    Body(Vec<u8>),
    And(Box<SearchQuery>, Box<SearchQuery>),
    Or(Box<SearchQuery>, Box<SearchQuery>),
    Not(Box<SearchQuery>),
}

/// The SEARCH syntax of a query.
pub open spec fn query_bytes(q: SearchQuery) -> Seq<u8>
    decreases q,
{
    match q {
        SearchQuery::All => ascii("ALL"@),
        SearchQuery::Unseen => ascii("UNSEEN"@),
        SearchQuery::Flagged => ascii("FLAGGED"@),
        SearchQuery::From(s) => ascii("FROM \""@) + s@ + seq![34u8],
        SearchQuery::Subject(s) => ascii("SUBJECT \""@) + s@ + seq![34u8],
        SearchQuery::Body(s) => ascii("BODY \""@) + s@ + seq![34u8],
        SearchQuery::And(a, b) => query_bytes(*a) + seq![SP] + query_bytes(*b),
        SearchQuery::Or(a, b) => ascii("OR ("@) + query_bytes(*a) + ascii(") ("@) + query_bytes(
            *b,
        ) + seq![41u8],
        SearchQuery::Not(a) => ascii("NOT ("@) + query_bytes(*a) + seq![41u8],
    }
}

/// Render a query for `UID SEARCH`.
pub fn query_to_imap(q: &SearchQuery) -> (r: Vec<u8>)
    ensures
        r@ == query_bytes(*q),
    decreases *q,
{
    proof {
        reveal_strlit("ALL");
        reveal_strlit("UNSEEN");
        reveal_strlit("FLAGGED");
        reveal_strlit("FROM \"");
        reveal_strlit("SUBJECT \"");
        reveal_strlit("BODY \"");
        reveal_strlit("OR (");
        reveal_strlit(") (");
        reveal_strlit("NOT (");
    }
    let mut out: Vec<u8> = Vec::new();
    match q {
        SearchQuery::All => {
            let w: [u8; 3] = [65, 76, 76];
            proof {
                assert(w@ =~= ascii("ALL"@));
            }
            append_bytes(&mut out, w.as_slice());
        },
        SearchQuery::Unseen => {
            let w: [u8; 6] = [85, 78, 83, 69, 69, 78];
            proof {
                assert(w@ =~= ascii("UNSEEN"@));
            }
            append_bytes(&mut out, w.as_slice());
        },
        SearchQuery::Flagged => {
            let w: [u8; 7] = [70, 76, 65, 71, 71, 69, 68];
            proof {
                assert(w@ =~= ascii("FLAGGED"@));
            }
            append_bytes(&mut out, w.as_slice());
        },
        SearchQuery::From(s) => {
            let w: [u8; 6] = [70, 82, 79, 77, 32, 34];
            proof {
                assert(w@ =~= ascii("FROM \""@));
            }
            append_bytes(&mut out, w.as_slice());
            append_bytes(&mut out, s.as_slice());
            out.push(34);
        },
        SearchQuery::Subject(s) => {
            let w: [u8; 9] = [83, 85, 66, 74, 69, 67, 84, 32, 34];
            proof {
                assert(w@ =~= ascii("SUBJECT \""@));
            }
            append_bytes(&mut out, w.as_slice());
            append_bytes(&mut out, s.as_slice());
            out.push(34);
        },
        SearchQuery::Body(s) => {
            let w: [u8; 6] = [66, 79, 68, 89, 32, 34];
            proof {
                assert(w@ =~= ascii("BODY \""@));
            }
            append_bytes(&mut out, w.as_slice());
            append_bytes(&mut out, s.as_slice());
            out.push(34);
        },
        SearchQuery::And(a, b) => {
            let ra = query_to_imap(a);
            append_bytes(&mut out, ra.as_slice());
            out.push(SP);
            let rb = query_to_imap(b);
            append_bytes(&mut out, rb.as_slice());
        },
        SearchQuery::Or(a, b) => {
            let w: [u8; 4] = [79, 82, 32, 40];
            let mid: [u8; 3] = [41, 32, 40];
            proof {
                assert(w@ =~= ascii("OR ("@));
                assert(mid@ =~= ascii(") ("@));
            }
            append_bytes(&mut out, w.as_slice());
            let ra = query_to_imap(a);
            append_bytes(&mut out, ra.as_slice());
            append_bytes(&mut out, mid.as_slice());
            let rb = query_to_imap(b);
            append_bytes(&mut out, rb.as_slice());
            out.push(41);
        },
        SearchQuery::Not(a) => {
            let w: [u8; 5] = [78, 79, 84, 32, 40];
            proof {
                assert(w@ =~= ascii("NOT ("@));
            }
            append_bytes(&mut out, w.as_slice());
            let ra = query_to_imap(a);
            append_bytes(&mut out, ra.as_slice());
            out.push(41);
        },
    }
    proof {
        assert(out@ =~= query_bytes(*q));
    }
    out
}

} // verus!
