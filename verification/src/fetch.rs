//! FETCH rows: the message sequence number, UID, system flags and modseq
//! of one `* <n> FETCH (...)` line, and the envelope assembled from them.

use vstd::prelude::*;

use crate::bytes::{eq_ignore_case, split_by, split_tokens, upper_seq, views, SP};
use crate::envelope::Envelope;
use crate::parser::{ascii, is_untagged_fetch, sub_bytes, trim_crlf, trimmed, untagged_response,
    UntaggedResponse};
use crate::response::kv_val;
use crate::types::{
    spec_envelope_hash, Flag, FLAG_ANSWERED, FLAG_DELETED, FLAG_DRAFT, FLAG_FLAGGED, FLAG_SEEN,
};

verus! {

/// The token with grouping parentheses shed: leading `(` and trailing `)`
/// bytes removed.
pub open spec fn strip_parens(t: Seq<u8>) -> Seq<u8>
    decreases t.len(),
{
    if t.len() > 0 && t[0] == 40 {
        strip_parens(t.subrange(1, t.len() as int))
    } else if t.len() > 0 && t[t.len() - 1] == 41 {
        strip_parens(t.subrange(0, t.len() - 1))
    } else {
        t
    }
}

fn strip_parens_exec(t: &[u8]) -> (r: Vec<u8>)
    ensures
        r@ == strip_parens(t@),
    decreases t@.len(),
{
    if t.len() > 0 && t[0] == 40 {
        let rest = sub_bytes(t, 1, t.len());
        strip_parens_exec(rest.as_slice())
    } else if t.len() > 0 && t[t.len() - 1] == 41 {
        let rest = sub_bytes(t, 0, t.len() - 1);
        strip_parens_exec(rest.as_slice())
    } else {
        sub_bytes(t, 0, t.len())
    }
}

/// All tokens of the line, parentheses shed.
pub open spec fn stripped_tokens(l: Seq<u8>) -> Seq<Seq<u8>> {
    split_tokens(trimmed(l), SP).map_values(|t: Seq<u8>| strip_parens(t))
}

/// The system flag bit a flag word names, or zero.
pub open spec fn flag_bit(t: Seq<u8>) -> u8 {
    let w = upper_seq(t);
    if w == ascii("\\SEEN"@) {
        FLAG_SEEN
    } else if w == ascii("\\ANSWERED"@) {
        FLAG_ANSWERED
    } else if w == ascii("\\FLAGGED"@) {
        FLAG_FLAGGED
    } else if w == ascii("\\DELETED"@) {
        FLAG_DELETED
    } else if w == ascii("\\DRAFT"@) {
        FLAG_DRAFT
    } else {
        0
    }
}

/// The system flags named anywhere in a token list, as one bit set.
pub open spec fn flags_acc(toks: Seq<Seq<u8>>) -> u8
    decreases toks.len(),
{
    if toks.len() == 0 {
        0
    } else {
        flags_acc(toks.drop_last()) | flag_bit(toks.last())
    }
}

fn flag_bit_exec(t: &[u8]) -> (r: u8)
    ensures
        r == flag_bit(t@),
{
    proof {
        reveal_strlit("\\SEEN");
        reveal_strlit("\\ANSWERED");
        reveal_strlit("\\FLAGGED");
        reveal_strlit("\\DELETED");
        reveal_strlit("\\DRAFT");
    }
    let seen: [u8; 5] = [92, 83, 69, 69, 78];
    let answered: [u8; 9] = [92, 65, 78, 83, 87, 69, 82, 69, 68];
    let flagged: [u8; 8] = [92, 70, 76, 65, 71, 71, 69, 68];
    let deleted: [u8; 8] = [92, 68, 69, 76, 69, 84, 69, 68];
    let draft: [u8; 6] = [92, 68, 82, 65, 70, 84];
    proof {
        assert(seen@ =~= ascii("\\SEEN"@));
        assert(answered@ =~= ascii("\\ANSWERED"@));
        assert(flagged@ =~= ascii("\\FLAGGED"@));
        assert(deleted@ =~= ascii("\\DELETED"@));
        assert(draft@ =~= ascii("\\DRAFT"@));
        assert(upper_seq(ascii("\\SEEN"@)) =~= ascii("\\SEEN"@));
        assert(upper_seq(ascii("\\ANSWERED"@)) =~= ascii("\\ANSWERED"@));
        assert(upper_seq(ascii("\\FLAGGED"@)) =~= ascii("\\FLAGGED"@));
        assert(upper_seq(ascii("\\DELETED"@)) =~= ascii("\\DELETED"@));
        assert(upper_seq(ascii("\\DRAFT"@)) =~= ascii("\\DRAFT"@));
    }
    if eq_ignore_case(t, seen.as_slice()) {
        return FLAG_SEEN;
    }
    if eq_ignore_case(t, answered.as_slice()) {
        return FLAG_ANSWERED;
    }
    if eq_ignore_case(t, flagged.as_slice()) {
        return FLAG_FLAGGED;
    }
    if eq_ignore_case(t, deleted.as_slice()) {
        return FLAG_DELETED;
    }
    if eq_ignore_case(t, draft.as_slice()) {
        return FLAG_DRAFT;
    }
    proof {
        crate::parser::lemma_upper_eq_means_eq_upper(t@, ascii("\\SEEN"@));
        crate::parser::lemma_upper_eq_means_eq_upper(t@, ascii("\\ANSWERED"@));
        crate::parser::lemma_upper_eq_means_eq_upper(t@, ascii("\\FLAGGED"@));
        crate::parser::lemma_upper_eq_means_eq_upper(t@, ascii("\\DELETED"@));
        crate::parser::lemma_upper_eq_means_eq_upper(t@, ascii("\\DRAFT"@));
    }
    0
}

/// A line whose keyword is a six-or-more-letter status word is not a
/// FETCH line: the keywords differ.
pub proof fn lemma_numeric_line_is_not_fetch(l: Seq<u8>, kw: Seq<u8>)
    requires
        kw.len() != ascii("FETCH"@).len() || kw != ascii("FETCH"@),
        exists|m: int| crate::parser::is_untagged_num(l, kw, m),
    ensures
        forall|n: int| !is_untagged_fetch(l, n),
{
    reveal_strlit("FETCH");
    let m = choose|m: int| crate::parser::is_untagged_num(l, kw, m);
    assert(crate::parser::is_untagged_num(l, kw, m));
    assert forall|n: int| !is_untagged_fetch(l, n) by {
        if is_untagged_fetch(l, n) {
            let t = split_tokens(trimmed(l), SP);
            assert(upper_seq(t[2]) == kw);
            assert(upper_seq(t[2]) == ascii("FETCH"@));
        }
    }
}

/// What one FETCH row carries.
#[derive(Debug, Clone, Copy, PartialEq, Eq, Structural)]
pub struct FetchRow {
    /// The message sequence number the row is about.
    pub msn: usize,
    /// The `UID` item, when present.
    pub uid: Option<u64>,
    /// The system flags named in the row.
    pub flags: Flag,
    /// The `MODSEQ` item, when present.
    pub modseq: Option<u64>,
}

/// Parse one `* <n> FETCH (...)` line: the sequence number, the UID and
/// MODSEQ values keyed inside the row, and every system flag word it
/// names.
pub fn fetch_row(l: &[u8]) -> (r: Option<FetchRow>)
    ensures
        match r {
            Some(row) => {
                &&& is_untagged_fetch(l@, row.msn as int)
                &&& row.uid == (match kv_val(stripped_tokens(l@), ascii("UID"@)) {
                    Some(v) => if 0 <= v <= u64::MAX {
                        Some(v as u64)
                    } else {
                        None
                    },
                    None => None,
                })
                &&& row.modseq == (match kv_val(stripped_tokens(l@), ascii("MODSEQ"@)) {
                    Some(v) => if 0 <= v <= u64::MAX {
                        Some(v as u64)
                    } else {
                        None
                    },
                    None => None,
                })
                &&& row.flags.bits == flags_acc(stripped_tokens(l@))
            },
            None => forall|n: int| !is_untagged_fetch(l@, n),
        },
{
    proof {
        reveal_strlit("UID");
        reveal_strlit("MODSEQ");
    }
    let msn = match untagged_response(l) {
        Some(UntaggedResponse::Fetch(n)) => n,
        Some(UntaggedResponse::Exists(_)) => {
            proof {
                reveal_strlit("EXISTS");
                reveal_strlit("FETCH");
                lemma_numeric_line_is_not_fetch(l@, ascii("EXISTS"@));
            }
            return None;
        },
        Some(UntaggedResponse::Recent(_)) => {
            proof {
                reveal_strlit("RECENT");
                reveal_strlit("FETCH");
                lemma_numeric_line_is_not_fetch(l@, ascii("RECENT"@));
            }
            return None;
        },
        Some(UntaggedResponse::Expunge(_)) => {
            proof {
                reveal_strlit("EXPUNGE");
                reveal_strlit("FETCH");
                lemma_numeric_line_is_not_fetch(l@, ascii("EXPUNGE"@));
            }
            return None;
        },
        None => {
            return None;
        },
    };
    let t = trim_crlf(l);
    let toks = split_by(t.as_slice(), SP);
    let mut stripped: Vec<Vec<u8>> = Vec::new();
    let mut i: usize = 0;
    proof {
        assert(views(stripped@) =~= views(toks@).map_values(|x: Seq<u8>| strip_parens(x)).subrange(
            0,
            0,
        ));
    }
    while i < toks.len()
        invariant
            0 <= i <= toks@.len(),
            views(stripped@) == views(toks@).map_values(|x: Seq<u8>| strip_parens(x)).subrange(
                0,
                i as int,
            ),
        decreases toks.len() - i,
    {
        let s = strip_parens_exec(toks[i].as_slice());
        let ghost pre = stripped@;
        stripped.push(s);
        proof {
            crate::bytes::lemma_views_push(pre, s);
            assert(views(stripped@) =~= views(toks@).map_values(
                |x: Seq<u8>| strip_parens(x),
            ).subrange(0, i + 1));
        }
        i += 1;
    }
    proof {
        let m = views(toks@).map_values(|x: Seq<u8>| strip_parens(x));
        assert(m.subrange(0, m.len() as int) =~= m);
        assert(stripped_tokens(l@) =~= m);
    }
    let uid_kw: [u8; 3] = [85, 73, 68];
    let modseq_kw: [u8; 6] = [77, 79, 68, 83, 69, 81];
    proof {
        assert(uid_kw@ =~= ascii("UID"@));
        assert(modseq_kw@ =~= ascii("MODSEQ"@));
        assert(upper_seq(ascii("UID"@)) =~= ascii("UID"@));
        assert(upper_seq(ascii("MODSEQ"@)) =~= ascii("MODSEQ"@));
    }
    let uid = match crate::response::kv_lookup(&stripped, uid_kw.as_slice()) {
        Some(v) => Some(v as u64),
        None => None,
    };
    let modseq = match crate::response::kv_lookup(&stripped, modseq_kw.as_slice()) {
        Some(v) => Some(v as u64),
        None => None,
    };
    let mut bits: u8 = 0;
    let mut k: usize = 0;
    proof {
        assert(bits == flags_acc(views(stripped@).subrange(0, 0)));
    }
    while k < stripped.len()
        invariant
            0 <= k <= stripped@.len(),
            bits == flags_acc(views(stripped@).subrange(0, k as int)),
        decreases stripped.len() - k,
    {
        let b = flag_bit_exec(stripped[k].as_slice());
        bits = bits | b;
        proof {
            let p1 = views(stripped@).subrange(0, k + 1);
            assert(p1.drop_last() =~= views(stripped@).subrange(0, k as int));
            assert(p1.last() == views(stripped@)[k as int]);
            assert(views(stripped@)[k as int] == stripped@[k as int]@);
        }
        k += 1;
    }
    proof {
        assert(views(stripped@).subrange(0, stripped@.len() as int) =~= views(stripped@));
    }
    Some(FetchRow { msn, uid, flags: Flag { bits }, modseq })
}

/// Assemble an envelope from one FETCH row.  The hash is the deterministic
/// function of the mailbox path and the UID; a row without a UID yields
/// nothing.  Only the UID and the system flags are populated: the header
/// fields (subject, sender, date, references) stay empty, since the nested
/// ENVELOPE structure of the response is not parsed here.
pub fn build_envelope(path: &[u8], row: &FetchRow) -> (r: Option<Envelope>)
    ensures
        match r {
            Some(env) => {
                &&& row.uid is Some
                &&& row.uid->Some_0 <= usize::MAX
                &&& env.uid == row.uid->Some_0 as usize
                &&& env.hash == spec_envelope_hash(path@, env.uid)
                &&& env.flags == row.flags
            },
            None => row.uid is None || row.uid->Some_0 > usize::MAX,
        },
{
    match row.uid {
        Some(uid64) => {
            if uid64 > usize::MAX as u64 {
                return None;
            }
            let uid = uid64 as usize;
            let hash = crate::types::generate_envelope_hash(path, uid);
            Some(
                Envelope {
                    hash,
                    uid,
                    subject: Vec::new(),
                    from_addr: Vec::new(),
                    date: Vec::new(),
                    flags: row.flags,
                    tags: Vec::new(),
                    references: Vec::new(),
                    has_attachments: false,
                },
            )
        },
        None => None,
    }
}

} // verus!
