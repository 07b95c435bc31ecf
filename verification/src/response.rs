//! Response classification and routing: tagged response kinds, the
//! required-responses filter of `read_response`, SEARCH results and STATUS
//! counters.

use vstd::prelude::*;

use crate::bytes::{
    all_digits, all_digits_exec, digits_val, eq_ignore_case, parse_usize, split_by, split_tokens,
    upper_seq, views, SP,
};
use crate::parser::{ascii, is_untagged_fetch, trim_crlf, trimmed};
use crate::select::{is_flags_line, num_line_val};
use crate::Uid;

verus! {

/// The status of a tagged (or untagged `* OK`-family) response line.
#[derive(Debug, Clone, Copy, PartialEq, Eq, Structural)]
pub enum ResponseKind {
    StatusOk,
    StatusNo,
    StatusBad,
    StatusPreauth,
    StatusBye,
}

/// The kind announced by the line's second token, if it is a response
/// status word.
pub open spec fn kind_of_line(l: Seq<u8>) -> Option<ResponseKind> {
    let t = split_tokens(trimmed(l), SP);
    if t.len() < 2 {
        None
    } else {
        let w = upper_seq(t[1]);
        if w == ascii("OK"@) {
            Some(ResponseKind::StatusOk)
        } else if w == ascii("NO"@) {
            Some(ResponseKind::StatusNo)
        } else if w == ascii("BAD"@) {
            Some(ResponseKind::StatusBad)
        } else if w == ascii("PREAUTH"@) {
            Some(ResponseKind::StatusPreauth)
        } else if w == ascii("BYE"@) {
            Some(ResponseKind::StatusBye)
        } else {
            None
        }
    }
}

/// Classify a response line by its status word.
pub fn response_kind(l: &[u8]) -> (r: Option<ResponseKind>)
    ensures
        r == kind_of_line(l@),
{
    proof {
        reveal_strlit("OK");
        reveal_strlit("NO");
        reveal_strlit("BAD");
        reveal_strlit("PREAUTH");
        reveal_strlit("BYE");
    }
    let t = trim_crlf(l);
    let toks = split_by(t.as_slice(), SP);
    if toks.len() < 2 {
        return None;
    }
    let ok_kw: [u8; 2] = [79, 75];
    let no_kw: [u8; 2] = [78, 79];
    let bad_kw: [u8; 3] = [66, 65, 68];
    let preauth_kw: [u8; 7] = [80, 82, 69, 65, 85, 84, 72];
    let bye_kw: [u8; 3] = [66, 89, 69];
    proof {
        assert(ok_kw@ =~= ascii("OK"@));
        assert(no_kw@ =~= ascii("NO"@));
        assert(bad_kw@ =~= ascii("BAD"@));
        assert(preauth_kw@ =~= ascii("PREAUTH"@));
        assert(bye_kw@ =~= ascii("BYE"@));
        assert(upper_seq(ascii("OK"@)) =~= ascii("OK"@));
        assert(upper_seq(ascii("NO"@)) =~= ascii("NO"@));
        assert(upper_seq(ascii("BAD"@)) =~= ascii("BAD"@));
        assert(upper_seq(ascii("PREAUTH"@)) =~= ascii("PREAUTH"@));
        assert(upper_seq(ascii("BYE"@)) =~= ascii("BYE"@));
    }
    let w = &toks[1];
    if eq_ignore_case(w.as_slice(), ok_kw.as_slice()) {
        return Some(ResponseKind::StatusOk);
    }
    if eq_ignore_case(w.as_slice(), no_kw.as_slice()) {
        return Some(ResponseKind::StatusNo);
    }
    if eq_ignore_case(w.as_slice(), bad_kw.as_slice()) {
        return Some(ResponseKind::StatusBad);
    }
    if eq_ignore_case(w.as_slice(), preauth_kw.as_slice()) {
        return Some(ResponseKind::StatusPreauth);
    }
    if eq_ignore_case(w.as_slice(), bye_kw.as_slice()) {
        return Some(ResponseKind::StatusBye);
    }
    proof {
        crate::parser::lemma_upper_eq_means_eq_upper(views(toks@)[1], ascii("OK"@));
        crate::parser::lemma_upper_eq_means_eq_upper(views(toks@)[1], ascii("NO"@));
        crate::parser::lemma_upper_eq_means_eq_upper(views(toks@)[1], ascii("BAD"@));
        crate::parser::lemma_upper_eq_means_eq_upper(views(toks@)[1], ascii("PREAUTH"@));
        crate::parser::lemma_upper_eq_means_eq_upper(views(toks@)[1], ascii("BYE"@));
    }
    None
}

/// `* SEARCH`-shaped: the line announces search results.
pub open spec fn is_search_shaped(l: Seq<u8>) -> bool {
    let t = split_tokens(trimmed(l), SP);
    t.len() >= 2 && t[0] == seq![42u8] && upper_seq(t[1]) == ascii("SEARCH"@)
}

/// The UIDs of a well-formed `* SEARCH n n n` line.
pub open spec fn search_line_vals(l: Seq<u8>) -> Option<Seq<int>> {
    let t = split_tokens(trimmed(l), SP);
    if is_search_shaped(l) && (forall|i: int|
        2 <= i < t.len() ==> (#[trigger] t[i]).len() > 0 && all_digits(t[i]) && digits_val(t[i])
            <= usize::MAX) {
        Some(Seq::new((t.len() - 2) as nat, |i: int| digits_val(t[i + 2])))
    } else {
        None
    }
}

/// Parse one `* SEARCH ...` line into its UIDs.
pub fn search_line(l: &[u8]) -> (r: Option<Vec<Uid>>)
    ensures
        match r {
            Some(v) => search_line_vals(l@) == Some(
                Seq::new(v@.len(), |i: int| v@[i] as int),
            ),
            None => search_line_vals(l@) is None,
        },
{
    proof {
        reveal_strlit("SEARCH");
    }
    let t = trim_crlf(l);
    let toks = split_by(t.as_slice(), SP);
    let search_kw: [u8; 6] = [83, 69, 65, 82, 67, 72];
    proof {
        assert(search_kw@ =~= ascii("SEARCH"@));
        assert(upper_seq(ascii("SEARCH"@)) =~= ascii("SEARCH"@));
    }
    if toks.len() < 2 {
        return None;
    }
    let is_star = toks[0].len() == 1 && toks[0].as_slice()[0] == 42;
    proof {
        if views(toks@)[0] == seq![42u8] {
            assert(views(toks@)[0].len() == 1 && views(toks@)[0][0] == 42u8);
        }
        if toks@[0]@.len() == 1 && toks@[0]@[0] == 42u8 {
            assert(toks@[0]@ =~= seq![42u8]);
        }
    }
    if !is_star || !eq_ignore_case(toks[1].as_slice(), search_kw.as_slice()) {
        proof {
            crate::parser::lemma_upper_eq_means_eq_upper(views(toks@)[1], ascii("SEARCH"@));
        }
        return None;
    }
    let mut out: Vec<Uid> = Vec::new();
    let mut i: usize = 2;
    while i < toks.len()
        invariant
            2 <= i <= toks@.len(),
            views(toks@) == split_tokens(trimmed(l@), SP),
            out@.len() == i - 2,
            forall|j: int|
                2 <= j < i ==> (#[trigger] views(toks@)[j]).len() > 0 && all_digits(
                    views(toks@)[j],
                ) && digits_val(views(toks@)[j]) <= usize::MAX,
            forall|j: int| 0 <= j < out@.len() ==> out@[j] == digits_val(views(toks@)[j + 2]),
        decreases toks.len() - i,
    {
        match parse_usize(toks[i].as_slice()) {
            Some(v) => {
                out.push(v);
            },
            None => {
                proof {
                    let t2 = split_tokens(trimmed(l@), SP);
                    assert(t2[i as int] == views(toks@)[i as int]);
                    assert(!(t2[i as int].len() > 0 && all_digits(t2[i as int]) && digits_val(
                        t2[i as int],
                    ) <= usize::MAX));
                }
                return None;
            },
        }
        i += 1;
    }
    proof {
        assert(search_line_vals(l@) == Some(Seq::new(out@.len(), |k: int| out@[k] as int))) by {
            let t2 = split_tokens(trimmed(l@), SP);
            assert(Seq::new((t2.len() - 2) as nat, |k: int| digits_val(t2[k + 2])) =~= Seq::new(
                out@.len(),
                |k: int| out@[k] as int,
            ));
        }
    }
    Some(out)
}

/// Scan a response buffer for its first `* SEARCH` line.
pub fn search_results(buf: &[u8]) -> (r: Option<Vec<Uid>>)
    ensures
        match r {
            Some(v) => exists|k: int|
                0 <= k < crate::parser::split_lines(buf@).len() && search_line_vals(
                    #[trigger] crate::parser::split_lines(buf@)[k],
                ) == Some(Seq::new(v@.len(), |i: int| v@[i] as int)),
            None => forall|k: int|
                0 <= k < crate::parser::split_lines(buf@).len() ==> search_line_vals(
                    #[trigger] crate::parser::split_lines(buf@)[k],
                ) is None,
        },
{
    let lines = crate::parser::lines_of(buf);
    let mut k: usize = 0;
    while k < lines.len()
        invariant
            0 <= k <= lines@.len(),
            views(lines@) == crate::parser::split_lines(buf@),
            forall|j: int|
                0 <= j < k ==> search_line_vals(#[trigger] views(lines@)[j]) is None,
        decreases lines.len() - k,
    {
        match search_line(lines[k].as_slice()) {
            Some(v) => {
                proof {
                    assert(views(lines@)[k as int] == lines@[k as int]@);
                }
                return Some(v);
            },
            None => {
                proof {
                    assert(views(lines@)[k as int] == lines@[k as int]@);
                }
            },
        }
        k += 1;
    }
    None
}

/// First numeric value following `key` in a token list, scanning pairs.
pub open spec fn kv_val(toks: Seq<Seq<u8>>, key: Seq<u8>) -> Option<int>
    decreases toks.len(),
{
    if toks.len() < 2 {
        None
    } else if upper_seq(toks[0]) == key && toks[1].len() > 0 && all_digits(toks[1]) && digits_val(
        toks[1],
    ) <= usize::MAX {
        Some(digits_val(toks[1]))
    } else {
        kv_val(toks.subrange(1, toks.len() as int), key)
    }
}

/// Find the numeric value keyed by `key` (e.g. `MESSAGES 12`) in a STATUS
/// attribute list.
pub fn kv_lookup(toks: &Vec<Vec<u8>>, key: &[u8]) -> (r: Option<usize>)
    requires
        upper_seq(key@) == key@,
    ensures
        match r {
            Some(v) => kv_val(views(toks@), key@) == Some(v as int),
            None => kv_val(views(toks@), key@) is None,
        },
{
    let mut i: usize = 0;
    proof {
        assert(views(toks@).subrange(0, views(toks@).len() as int) =~= views(toks@));
    }
    while toks.len() >= 2 && i < toks.len() - 1
        invariant
            0 <= i <= toks@.len(),
            upper_seq(key@) == key@,
            kv_val(views(toks@), key@) == kv_val(
                views(toks@).subrange(i as int, views(toks@).len() as int),
                key@,
            ),
        decreases toks.len() - i,
    {
        let ghost suffix = views(toks@).subrange(i as int, views(toks@).len() as int);
        let matches_key = eq_ignore_case(toks[i].as_slice(), key);
        let numeric = toks[i + 1].len() > 0 && all_digits_exec(toks[i + 1].as_slice());
        proof {
            assert(suffix[0] == views(toks@)[i as int]);
            assert(suffix[1] == views(toks@)[i + 1]);
        }
        if matches_key && numeric {
            match parse_usize(toks[i + 1].as_slice()) {
                Some(v) => {
                    return Some(v);
                },
                None => {
                    // the value does not fit: this pair is skipped
                },
            }
        }
        proof {
            crate::parser::lemma_upper_eq_means_eq_upper(views(toks@)[i as int], key@);
            assert(suffix.subrange(1, suffix.len() as int) =~= views(toks@).subrange(
                i + 1,
                views(toks@).len() as int,
            ));
        }
        i += 1;
    }
    proof {
        let rest = views(toks@).subrange(i as int, views(toks@).len() as int);
        assert(rest.len() < 2);
    }
    None
}

/// Which untagged responses a caller expects to keep in its buffer; all
/// other untagged lines are routed to the store's side-effect path.
#[derive(Debug, Clone, Copy, PartialEq, Eq, Structural)]
pub struct RequiredResponses {
    pub bits: u32,
}

/// `* n EXISTS` lines are kept.
pub const REQ_EXISTS: u32 = 1;

/// `* n RECENT` lines are kept.
pub const REQ_RECENT: u32 = 2;

/// `* FLAGS (...)` lines are kept.
pub const REQ_FLAGS: u32 = 4;

/// `* OK [...]` code lines are kept.
pub const REQ_OK_CODE: u32 = 8;

/// `* SEARCH ...` lines are kept.
pub const REQ_SEARCH: u32 = 16;

/// `* n FETCH ...` lines are kept.
pub const REQ_FETCH: u32 = 32;

/// `* STATUS ...` lines are kept.
pub const REQ_STATUS: u32 = 64;

/// `* LIST ...` lines are kept.
pub const REQ_LIST: u32 = 128;

/// A tagged `NO` is expected and not an error (the UNSELECT fallback).
pub const REQ_NO: u32 = 256;

/// Everything a SELECT / EXAMINE response may carry.
pub const SELECT_REQUIRED: u32 = 1 | 2 | 4 | 8;

/// The line's second token, uppercased, equals `kw`.
pub open spec fn second_token_is(l: Seq<u8>, kw: Seq<u8>) -> bool {
    let t = split_tokens(trimmed(l), SP);
    t.len() >= 2 && t[0] == seq![42u8] && upper_seq(t[1]) == kw
}

/// Whether a line matches the expectation bits.
pub open spec fn line_required(bits: u32, l: Seq<u8>) -> bool {
    ||| (bits & REQ_EXISTS != 0 && num_line_val(l, ascii("EXISTS"@)) is Some)
    ||| (bits & REQ_RECENT != 0 && num_line_val(l, ascii("RECENT"@)) is Some)
    ||| (bits & REQ_FLAGS != 0 && is_flags_line(l))
    ||| (bits & REQ_OK_CODE != 0 && second_token_is(l, ascii("OK"@)))
    ||| (bits & REQ_SEARCH != 0 && is_search_shaped(l))
    ||| (bits & REQ_FETCH != 0 && exists|n: int| is_untagged_fetch(l, n))
    ||| (bits & REQ_STATUS != 0 && second_token_is(l, ascii("STATUS"@)))
    ||| (bits & REQ_LIST != 0 && second_token_is(l, ascii("LIST"@)))
}

/// Does this line match the caller's expectations?
pub fn check_required(bits: u32, l: &[u8]) -> (r: bool)
    ensures
        r == line_required(bits, l@),
{
    proof {
        reveal_strlit("EXISTS");
        reveal_strlit("RECENT");
        reveal_strlit("OK");
        reveal_strlit("SEARCH");
        reveal_strlit("STATUS");
        reveal_strlit("LIST");
        reveal_strlit("FLAGS");
        reveal_strlit("FETCH");
    }
    let t = trim_crlf(l);
    let toks = split_by(t.as_slice(), SP);
    if toks.len() < 2 {
        return false;
    }
    let is_star = toks[0].len() == 1 && toks[0].as_slice()[0] == 42;
    proof {
        if views(toks@)[0] == seq![42u8] {
            assert(views(toks@)[0].len() == 1 && views(toks@)[0][0] == 42u8);
        }
        if toks@[0]@.len() == 1 && toks@[0]@[0] == 42u8 {
            assert(toks@[0]@ =~= seq![42u8]);
        }
    }
    let exists_kw: [u8; 6] = [69, 88, 73, 83, 84, 83];
    let recent_kw: [u8; 6] = [82, 69, 67, 69, 78, 84];
    let ok_kw: [u8; 2] = [79, 75];
    let search_kw: [u8; 6] = [83, 69, 65, 82, 67, 72];
    let status_kw: [u8; 6] = [83, 84, 65, 84, 85, 83];
    let list_kw: [u8; 4] = [76, 73, 83, 84];
    let flags_kw: [u8; 5] = [70, 76, 65, 71, 83];
    let fetch_kw: [u8; 5] = [70, 69, 84, 67, 72];
    proof {
        assert(exists_kw@ =~= ascii("EXISTS"@));
        assert(recent_kw@ =~= ascii("RECENT"@));
        assert(ok_kw@ =~= ascii("OK"@));
        assert(search_kw@ =~= ascii("SEARCH"@));
        assert(status_kw@ =~= ascii("STATUS"@));
        assert(list_kw@ =~= ascii("LIST"@));
        assert(flags_kw@ =~= ascii("FLAGS"@));
        assert(fetch_kw@ =~= ascii("FETCH"@));
        assert(upper_seq(ascii("EXISTS"@)) =~= ascii("EXISTS"@));
        assert(upper_seq(ascii("RECENT"@)) =~= ascii("RECENT"@));
        assert(upper_seq(ascii("OK"@)) =~= ascii("OK"@));
        assert(upper_seq(ascii("SEARCH"@)) =~= ascii("SEARCH"@));
        assert(upper_seq(ascii("STATUS"@)) =~= ascii("STATUS"@));
        assert(upper_seq(ascii("LIST"@)) =~= ascii("LIST"@));
        assert(upper_seq(ascii("FLAGS"@)) =~= ascii("FLAGS"@));
        assert(upper_seq(ascii("FETCH"@)) =~= ascii("FETCH"@));
    }
    let numeric3 = toks.len() == 3 && is_star && toks[1].len() > 0 && all_digits_exec(
        toks[1].as_slice(),
    );
    if bits & REQ_EXISTS != 0 && numeric3 && eq_ignore_case(toks[2].as_slice(), exists_kw.as_slice()) {
        return true;
    }
    if bits & REQ_RECENT != 0 && numeric3 && eq_ignore_case(toks[2].as_slice(), recent_kw.as_slice()) {
        return true;
    }
    if bits & REQ_FLAGS != 0 && is_star && eq_ignore_case(toks[1].as_slice(), flags_kw.as_slice()) {
        return true;
    }
    if bits & REQ_OK_CODE != 0 && is_star && eq_ignore_case(toks[1].as_slice(), ok_kw.as_slice()) {
        return true;
    }
    if bits & REQ_SEARCH != 0 && is_star && eq_ignore_case(toks[1].as_slice(), search_kw.as_slice()) {
        return true;
    }
    if bits & REQ_FETCH != 0 && toks.len() >= 3 && is_star && toks[1].len() > 0 && all_digits_exec(
        toks[1].as_slice(),
    ) && eq_ignore_case(toks[2].as_slice(), fetch_kw.as_slice()) {
        match parse_usize(toks[1].as_slice()) {
            Some(n) => {
                proof {
                    assert(is_untagged_fetch(l@, n as int));
                }
                return true;
            },
            None => {},
        }
    }
    if bits & REQ_STATUS != 0 && is_star && eq_ignore_case(toks[1].as_slice(), status_kw.as_slice()) {
        return true;
    }
    if bits & REQ_LIST != 0 && is_star && eq_ignore_case(toks[1].as_slice(), list_kw.as_slice()) {
        return true;
    }
    proof {
        let kws = seq![
            ascii("EXISTS"@),
            ascii("RECENT"@),
            ascii("OK"@),
            ascii("SEARCH"@),
            ascii("STATUS"@),
            ascii("LIST"@),
            ascii("FLAGS"@),
        ];
        crate::parser::lemma_upper_eq_means_eq_upper(views(toks@)[1], ascii("OK"@));
        crate::parser::lemma_upper_eq_means_eq_upper(views(toks@)[1], ascii("SEARCH"@));
        crate::parser::lemma_upper_eq_means_eq_upper(views(toks@)[1], ascii("STATUS"@));
        crate::parser::lemma_upper_eq_means_eq_upper(views(toks@)[1], ascii("LIST"@));
        crate::parser::lemma_upper_eq_means_eq_upper(views(toks@)[1], ascii("FLAGS"@));
        if toks@.len() >= 3 {
            crate::parser::lemma_upper_eq_means_eq_upper(views(toks@)[2], ascii("EXISTS"@));
            crate::parser::lemma_upper_eq_means_eq_upper(views(toks@)[2], ascii("RECENT"@));
            crate::parser::lemma_upper_eq_means_eq_upper(views(toks@)[2], ascii("FETCH"@));
        }
        if line_required(bits, l@) {
            if bits & REQ_FETCH != 0 && exists|n: int| is_untagged_fetch(l@, n) {
                let n = choose|n: int| is_untagged_fetch(l@, n);
                assert(is_untagged_fetch(l@, n));
            }
        }
    }
    false
}

} // verus!

verus! {

/// The lines a reader keeps, in order: exactly those the expectation bits
/// match.
pub open spec fn kept_lines(bits: u32, lines: Seq<Seq<u8>>) -> Seq<Seq<u8>> {
    lines.filter(|l: Seq<u8>| line_required(bits, l))
}

/// The lines routed to the store's side-effect path, in order: those the
/// expectation bits do not match.
pub open spec fn routed_lines(bits: u32, lines: Seq<Seq<u8>>) -> Seq<Seq<u8>> {
    lines.filter(|l: Seq<u8>| !line_required(bits, l))
}

/// Partition a response's lines: expected lines stay in the caller's
/// buffer, everything else goes to the untagged side-effect path.
pub fn partition_response(bits: u32, buf: &[u8]) -> (r: (Vec<Vec<u8>>, Vec<Vec<u8>>))
    ensures
        views(r.0@) == kept_lines(bits, crate::parser::split_lines(buf@)),
        views(r.1@) == routed_lines(bits, crate::parser::split_lines(buf@)),
{
    let lines = crate::parser::lines_of(buf);
    let ghost all = views(lines@);
    let mut kept: Vec<Vec<u8>> = Vec::new();
    let mut routed: Vec<Vec<u8>> = Vec::new();
    let mut i: usize = 0;
    proof {
        reveal(Seq::filter);
        assert(all.subrange(0, 0) =~= Seq::<Seq<u8>>::empty());
        assert(views(kept@) =~= kept_lines(bits, all.subrange(0, 0)));
        assert(views(routed@) =~= routed_lines(bits, all.subrange(0, 0)));
    }
    while i < lines.len()
        invariant
            0 <= i <= lines@.len(),
            all == views(lines@),
            views(kept@) == kept_lines(bits, all.subrange(0, i as int)),
            views(routed@) == routed_lines(bits, all.subrange(0, i as int)),
        decreases lines.len() - i,
    {
        let line = crate::parser::sub_bytes(lines[i].as_slice(), 0, lines[i].len());
        proof {
            assert(line@ =~= all[i as int]);
        }
        let wanted = check_required(bits, line.as_slice());
        if wanted {
            let ghost pre = kept@;
            kept.push(line);
            proof {
                crate::bytes::lemma_views_push(pre, line);
            }
        } else {
            let ghost pre = routed@;
            routed.push(line);
            proof {
                crate::bytes::lemma_views_push(pre, line);
            }
        }
        proof {
            reveal(Seq::filter);
            let p1 = all.subrange(0, i + 1);
            assert(p1.drop_last() =~= all.subrange(0, i as int));
            assert(p1.last() == all[i as int]);
            assert(views(kept@) =~= kept_lines(bits, p1));
            assert(views(routed@) =~= routed_lines(bits, p1));
        }
        i += 1;
    }
    proof {
        assert(all.subrange(0, all.len() as int) =~= all);
    }
    (kept, routed)
}

} // verus!

verus! {

/// The UIDs of a `* VANISHED [(EARLIER)] n,n,...` line, as QRESYNC
/// reports expunged messages.  Ranges (`a:b`) are not folded out here: a
/// set containing one is rejected and the caller falls back to a rescan.
pub open spec fn vanished_uids(l: Seq<u8>) -> Option<Seq<int>> {
    let t = split_tokens(trimmed(l), SP);
    if !(t.len() == 3 || t.len() == 4) {
        None
    } else if !(t[0] == seq![42u8] && upper_seq(t[1]) == ascii("VANISHED"@)) {
        None
    } else if t.len() == 4 && upper_seq(t[2]) != ascii("(EARLIER)"@) {
        None
    } else {
        let pieces = split_tokens(t[t.len() - 1], 44);
        if pieces.len() > 0 && (forall|i: int|
            0 <= i < pieces.len() ==> (#[trigger] pieces[i]).len() > 0 && all_digits(pieces[i])
                && digits_val(pieces[i]) <= u64::MAX) {
            Some(Seq::new(pieces.len(), |i: int| digits_val(pieces[i])))
        } else {
            None
        }
    }
}

/// Parse a `* VANISHED` line into the vanished UIDs.
pub fn vanished_line(l: &[u8]) -> (r: Option<Vec<u64>>)
    ensures
        match r {
            Some(v) => vanished_uids(l@) == Some(Seq::new(v@.len(), |i: int| v@[i] as int)),
            None => vanished_uids(l@) is None,
        },
{
    proof {
        reveal_strlit("VANISHED");
        reveal_strlit("(EARLIER)");
    }
    let t = trim_crlf(l);
    let toks = split_by(t.as_slice(), SP);
    if !(toks.len() == 3 || toks.len() == 4) {
        return None;
    }
    let is_star = toks[0].len() == 1 && toks[0].as_slice()[0] == 42;
    proof {
        if views(toks@)[0] == seq![42u8] {
            assert(views(toks@)[0].len() == 1 && views(toks@)[0][0] == 42u8);
        }
        if toks@[0]@.len() == 1 && toks@[0]@[0] == 42u8 {
            assert(toks@[0]@ =~= seq![42u8]);
        }
    }
    let vanished_kw: [u8; 8] = [86, 65, 78, 73, 83, 72, 69, 68];
    let earlier_kw: [u8; 9] = [40, 69, 65, 82, 76, 73, 69, 82, 41];
    proof {
        assert(vanished_kw@ =~= ascii("VANISHED"@));
        assert(earlier_kw@ =~= ascii("(EARLIER)"@));
        assert(upper_seq(ascii("VANISHED"@)) =~= ascii("VANISHED"@));
        assert(upper_seq(ascii("(EARLIER)"@)) =~= ascii("(EARLIER)"@));
    }
    if !is_star || !eq_ignore_case(toks[1].as_slice(), vanished_kw.as_slice()) {
        proof {
            crate::parser::lemma_upper_eq_means_eq_upper(views(toks@)[1], ascii("VANISHED"@));
        }
        return None;
    }
    if toks.len() == 4 && !eq_ignore_case(toks[2].as_slice(), earlier_kw.as_slice()) {
        proof {
            crate::parser::lemma_upper_eq_means_eq_upper(views(toks@)[2], ascii("(EARLIER)"@));
        }
        return None;
    }
    let set_idx = toks.len() - 1;
    let pieces = split_by(toks[set_idx].as_slice(), 44);
    if pieces.len() == 0 {
        return None;
    }
    let mut out: Vec<u64> = Vec::new();
    let mut i: usize = 0;
    while i < pieces.len()
        invariant
            0 <= i <= pieces@.len(),
            views(pieces@) == split_tokens(
                split_tokens(trimmed(l@), SP)[split_tokens(trimmed(l@), SP).len() - 1],
                44,
            ),
            out@.len() == i,
            forall|j: int|
                0 <= j < i ==> (#[trigger] views(pieces@)[j]).len() > 0 && all_digits(
                    views(pieces@)[j],
                ) && digits_val(views(pieces@)[j]) <= u64::MAX,
            forall|j: int| 0 <= j < out@.len() ==> out@[j] == digits_val(views(pieces@)[j]),
        decreases pieces.len() - i,
    {
        match crate::bytes::parse_u64(pieces[i].as_slice()) {
            Some(v) => {
                out.push(v);
            },
            None => {
                proof {
                    let p = views(pieces@);
                    assert(!(p[i as int].len() > 0 && all_digits(p[i as int]) && digits_val(
                        p[i as int],
                    ) <= u64::MAX));
                }
                return None;
            },
        }
        i += 1;
    }
    proof {
        let p = views(pieces@);
        assert(vanished_uids(l@) == Some(Seq::new(out@.len(), |k: int| out@[k] as int))) by {
            assert(Seq::new(p.len(), |k: int| digits_val(p[k])) =~= Seq::new(
                out@.len(),
                |k: int| out@[k] as int,
            ));
        }
    }
    Some(out)
}

/// The NO/BAD propagation rule: those statuses are non-fatal for the
/// connection and go to the UI as a `Notice` at ERROR level; every other
/// status yields no notice.
pub fn status_notice(kind: ResponseKind, description: &str) -> (r: Option<
    crate::envelope::BackendEvent,
>)
    ensures
        kind == ResponseKind::StatusNo || kind == ResponseKind::StatusBad ==> {
            &&& r is Some
            &&& r->Some_0 is Notice
            &&& r->Some_0->Notice_0@ == description@
            &&& r->Some_0->Notice_1 == crate::logging::LoggingLevel::ERROR
        },
        !(kind == ResponseKind::StatusNo || kind == ResponseKind::StatusBad) ==> r is None,
{
    match kind {
        ResponseKind::StatusNo | ResponseKind::StatusBad => Some(
            crate::envelope::BackendEvent::Notice(
                description.to_owned(),
                crate::logging::LoggingLevel::ERROR,
            ),
        ),
        _ => None,
    }
}

} // verus!
