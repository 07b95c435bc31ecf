//! The response parser: pure functions from framed byte records to typed
//! responses, with the grammar stated as specification functions.

use vstd::prelude::*;

use crate::bytes::{
    all_digits, digits_val, eq_ignore_case, parse_usize, split_by, split_tokens, upper_seq,
    views, CR, LF, SP,
};
use crate::Uid;

verus! {

/// Length of the first line of `s`, up to but not including a CRLF pair.
pub open spec fn line_len(s: Seq<u8>) -> nat
    decreases s.len(),
{
    if s.len() == 0 {
        0
    } else if s.len() >= 2 && s[0] == CR && s[1] == LF {
        0
    } else {
        1 + line_len(s.subrange(1, s.len() as int))
    }
}

pub proof fn lemma_line_len(s: Seq<u8>)
    ensures
        line_len(s) <= s.len(),
        line_len(s) + 2 <= s.len() ==> s[line_len(s) as int] == CR && s[line_len(s) as int + 1] == LF,
        line_len(s) < s.len() ==> line_len(s) + 2 <= s.len(),
    decreases s.len(),
{
    if s.len() == 0 || (s.len() >= 2 && s[0] == CR && s[1] == LF) {
    } else {
        let t = s.subrange(1, s.len() as int);
        lemma_line_len(t);
        if line_len(s) + 2 <= s.len() {
            assert(s[line_len(s) as int] == t[line_len(t) as int]);
            assert(s[line_len(s) as int + 1] == t[line_len(t) as int + 1]);
        }
    }
}

/// The CRLF-delimited lines of a record buffer, without their terminators.
/// A final line without a terminator is kept.
pub open spec fn split_lines(s: Seq<u8>) -> Seq<Seq<u8>>
    decreases s.len(),
    via split_lines_decreases
{
    if s.len() == 0 {
        Seq::empty()
    } else {
        let n = line_len(s) as int;
        if n == s.len() {
            seq![s]
        } else {
            seq![s.subrange(0, n)] + split_lines(s.subrange(n + 2, s.len() as int))
        }
    }
}

#[via_fn]
proof fn split_lines_decreases(s: Seq<u8>) {
    lemma_line_len(s);
}

/// Peeling the first line off a suffix.
pub proof fn lemma_split_lines_peel(s: Seq<u8>, i: int, n: int)
    requires
        0 <= i < s.len(),
        n == line_len(s.subrange(i, s.len() as int)),
    ensures
        i + n == s.len() ==> split_lines(s.subrange(i, s.len() as int)) == seq![
            s.subrange(i, i + n),
        ],
        i + n < s.len() ==> split_lines(s.subrange(i, s.len() as int)) == seq![
            s.subrange(i, i + n),
        ] + split_lines(s.subrange(i + n + 2, s.len() as int)),
{
    let t = s.subrange(i, s.len() as int);
    lemma_line_len(t);
    assert(t.subrange(0, n) =~= s.subrange(i, i + n));
    if i + n < s.len() {
        assert(t.subrange(n + 2, t.len() as int) =~= s.subrange(i + n + 2, s.len() as int));
    }
}

/// Split a record buffer into its CRLF-delimited lines.
pub fn lines_of(s: &[u8]) -> (r: Vec<Vec<u8>>)
    ensures
        views(r@) == split_lines(s@),
{
    let mut out: Vec<Vec<u8>> = Vec::new();
    let mut i: usize = 0;
    proof {
        assert(s@.subrange(0, s@.len() as int) =~= s@);
    }
    while i < s.len()
        invariant
            0 <= i <= s@.len(),
            split_lines(s@) == views(out@) + split_lines(s@.subrange(i as int, s@.len() as int)),
        decreases s.len() - i,
    {
        let ghost suffix = s@.subrange(i as int, s@.len() as int);
        let start = i;
        let mut line: Vec<u8> = Vec::new();
        proof {
            assert(line@ =~= s@.subrange(start as int, start as int));
        }
        loop
            invariant
                start <= i <= s@.len(),
                start < s@.len(),
                suffix == s@.subrange(start as int, s@.len() as int),
                line@ == s@.subrange(start as int, i as int),
                i - start <= line_len(suffix),
            ensures
                start <= i <= s@.len(),
                suffix == s@.subrange(start as int, s@.len() as int),
                line@ == s@.subrange(start as int, i as int),
                i - start == line_len(suffix),
            decreases s.len() - i,
        {
            proof {
                lemma_line_len(suffix);
            }
            if i >= s.len() {
                proof {
                    let k = i - start;
                    if k < line_len(suffix) {
                        assert(line_len(suffix) <= suffix.len());
                        assert(false);
                    }
                }
                break;
            }
            if i + 1 < s.len() && s[i] == CR && s[i + 1] == LF {
                proof {
                    let k = i - start;
                    // a CRLF pair at offset k means the line ends here
                    if k < line_len(suffix) {
                        assert(suffix[k] == s@[i as int]);
                        assert(suffix[k + 1] == s@[i + 1]);
                        lemma_line_len_stops(suffix, k);
                    }
                }
                break;
            }
            proof {
                let k = i - start;
                if k == line_len(suffix) {
                    // the spec says a CRLF pair (or the end) sits at offset k
                    if line_len(suffix) < suffix.len() {
                        assert(suffix[k] == CR && suffix[k + 1] == LF);
                        assert(suffix[k] == s@[i as int]);
                        assert(suffix[k + 1] == s@[i + 1]);
                        assert(false);
                    } else {
                        assert(false);
                    }
                }
            }
            line.push(s[i]);
            proof {
                assert(line@ =~= s@.subrange(start as int, i + 1));
            }
            i += 1;
        }
        let ghost lv = line@;
        proof {
            lemma_split_lines_peel(s@, start as int, (i - start) as int);
        }
        out.push(line);
        if i < s.len() {
            proof {
                lemma_line_len(suffix);
            }
            i += 2;
        }
        proof {
            assert(views(out@) =~= views(out@.drop_last()) + seq![lv]);
            assert(s@.subrange(s@.len() as int, s@.len() as int) =~= Seq::<u8>::empty());
            assert(split_lines(s@.subrange(start as int, s@.len() as int)) == seq![lv]
                + split_lines(s@.subrange(i as int, s@.len() as int)));
            assert(views(out@.drop_last()) + (seq![lv] + split_lines(
                s@.subrange(i as int, s@.len() as int),
            )) =~= (views(out@.drop_last()) + seq![lv]) + split_lines(
                s@.subrange(i as int, s@.len() as int),
            ));
        }
    }
    proof {
        assert(s@.subrange(i as int, s@.len() as int) =~= Seq::<u8>::empty());
        assert(split_lines(s@) =~= views(out@));
    }
    out
}

/// No CRLF pair sits strictly inside the leading line of `s`.
pub proof fn lemma_line_len_stops(s: Seq<u8>, k: int)
    requires
        0 <= k,
        k + 2 <= s.len(),
        s[k] == CR,
        s[k + 1] == LF,
    ensures
        line_len(s) <= k,
    decreases k,
{
    lemma_line_len(s);
    if k == 0 {
    } else if line_len(s) > 0 {
        let t = s.subrange(1, s.len() as int);
        assert(t[k - 1] == CR && t[k] == LF);
        lemma_line_len_stops(t, k - 1);
    }
}

/// First occurrence of `b` in `s`.
pub fn find_byte(s: &[u8], b: u8) -> (r: Option<usize>)
    ensures
        match r {
            Some(i) => 0 <= i < s@.len() && s@[i as int] == b && forall|j: int|
                0 <= j < i ==> s@[j] != b,
            None => forall|j: int| 0 <= j < s@.len() ==> s@[j] != b,
        },
{
    let mut i: usize = 0;
    while i < s.len()
        invariant
            0 <= i <= s@.len(),
            forall|j: int| 0 <= j < i ==> s@[j] != b,
        decreases s.len() - i,
    {
        if s[i] == b {
            return Some(i);
        }
        i += 1;
    }
    None
}

/// Copy of the byte range `[a, b)` of `s`.
pub fn sub_bytes(s: &[u8], a: usize, b: usize) -> (r: Vec<u8>)
    requires
        0 <= a <= b <= s@.len(),
    ensures
        r@ == s@.subrange(a as int, b as int),
{
    let mut out: Vec<u8> = Vec::new();
    let mut i = a;
    proof {
        assert(out@ =~= s@.subrange(a as int, a as int));
    }
    while i < b
        invariant
            a <= i <= b <= s@.len(),
            out@ == s@.subrange(a as int, i as int),
        decreases b - i,
    {
        out.push(s[i]);
        proof {
            assert(out@ =~= s@.subrange(a as int, i + 1));
        }
        i += 1;
    }
    out
}

/// The line with one trailing CRLF removed, if present.
pub open spec fn trimmed(s: Seq<u8>) -> Seq<u8> {
    if s.len() >= 2 && s[s.len() - 2] == CR && s[s.len() - 1] == LF {
        s.subrange(0, s.len() - 2)
    } else {
        s
    }
}

pub fn trim_crlf(s: &[u8]) -> (r: Vec<u8>)
    ensures
        r@ == trimmed(s@),
{
    if s.len() >= 2 && s[s.len() - 2] == CR && s[s.len() - 1] == LF {
        sub_bytes(s, 0, s.len() - 2)
    } else {
        sub_bytes(s, 0, s.len())
    }
}

/// An untagged numeric status line `* <n> <keyword>`, after case folding.
pub open spec fn is_untagged_num(l: Seq<u8>, kw: Seq<u8>, n: int) -> bool {
    let toks = split_tokens(trimmed(l), SP);
    &&& toks.len() == 3
    &&& toks[0] == seq![42u8]
    &&& all_digits(toks[1])
    &&& toks[1].len() > 0
    &&& digits_val(toks[1]) == n
    &&& upper_seq(toks[2]) == kw
    &&& 0 <= n <= usize::MAX
}

/// An untagged `* <n> FETCH ...` line.
pub open spec fn is_untagged_fetch(l: Seq<u8>, n: int) -> bool {
    let toks = split_tokens(trimmed(l), SP);
    &&& toks.len() >= 3
    &&& toks[0] == seq![42u8]
    &&& all_digits(toks[1])
    &&& toks[1].len() > 0
    &&& digits_val(toks[1]) == n
    &&& upper_seq(toks[2]) == "FETCH"@.map_values(|c: char| c as u8)
    &&& 0 <= n <= usize::MAX
}

/// Untagged responses the core recognizes on a single line.
#[derive(Debug)]
pub enum UntaggedResponse {
    /// `* <n> EXISTS`
    Exists(Uid),
    /// `* <n> RECENT`
    Recent(usize),
    /// `* <n> EXPUNGE`
    Expunge(usize),
    /// `* <n> FETCH ...`, carrying the message sequence number.
    Fetch(usize),
}

/// Byte image of an ASCII string literal.
pub open spec fn ascii(s: Seq<char>) -> Seq<u8> {
    s.map_values(|c: char| c as u8)
}

/// Parse `* <n> EXISTS|RECENT|EXPUNGE|FETCH ...`; anything else is `None`.
pub fn untagged_response(l: &[u8]) -> (r: Option<UntaggedResponse>)
    ensures
        match r {
            Some(UntaggedResponse::Exists(n)) => is_untagged_num(l@, ascii("EXISTS"@), n as int),
            Some(UntaggedResponse::Recent(n)) => is_untagged_num(l@, ascii("RECENT"@), n as int),
            Some(UntaggedResponse::Expunge(n)) => is_untagged_num(l@, ascii("EXPUNGE"@), n as int),
            Some(UntaggedResponse::Fetch(n)) => is_untagged_fetch(l@, n as int),
            None => (forall|n: int|
                !is_untagged_num(l@, ascii("EXISTS"@), n) && !is_untagged_num(
                    l@,
                    ascii("RECENT"@),
                    n,
                ) && !is_untagged_num(l@, ascii("EXPUNGE"@), n) && !is_untagged_fetch(l@, n)),
        },
{
    proof {
        reveal_strlit("EXISTS");
        reveal_strlit("RECENT");
        reveal_strlit("EXPUNGE");
        reveal_strlit("FETCH");
    }
    let t = trim_crlf(l);
    let toks = split_by(t.as_slice(), SP);
    if toks.len() < 3 {
        return None;
    }
    if !(toks[0].len() == 1 && toks[0].as_slice()[0] == 42) {
        proof {
            assert(views(toks@)[0] == toks@[0]@);
            if toks@[0]@ == seq![42u8] {
                assert(toks@[0]@.len() == 1 && toks@[0]@[0] == 42u8);
            }
        }
        return None;
    }
    proof {
        assert(toks@[0]@ =~= seq![42u8]);
    }
    let n = match parse_usize(toks[1].as_slice()) {
        Some(n) => n,
        None => {
            return None;
        },
    };
    let kw = &toks[2];
    let exists: [u8; 6] = [69, 88, 73, 83, 84, 83];
    let recent: [u8; 6] = [82, 69, 67, 69, 78, 84];
    let expunge: [u8; 7] = [69, 88, 80, 85, 78, 71, 69];
    let fetch: [u8; 5] = [70, 69, 84, 67, 72];
    proof {
        assert(exists@ =~= ascii("EXISTS"@));
        assert(recent@ =~= ascii("RECENT"@));
        assert(expunge@ =~= ascii("EXPUNGE"@));
        assert(fetch@ =~= ascii("FETCH"@));
        assert(upper_seq(ascii("EXISTS"@)) =~= ascii("EXISTS"@));
        assert(upper_seq(ascii("RECENT"@)) =~= ascii("RECENT"@));
        assert(upper_seq(ascii("EXPUNGE"@)) =~= ascii("EXPUNGE"@));
        assert(upper_seq(ascii("FETCH"@)) =~= ascii("FETCH"@));
    }
    if toks.len() == 3 && eq_ignore_case(kw.as_slice(), exists.as_slice()) {
        return Some(UntaggedResponse::Exists(n));
    }
    if toks.len() == 3 && eq_ignore_case(kw.as_slice(), recent.as_slice()) {
        return Some(UntaggedResponse::Recent(n));
    }
    if toks.len() == 3 && eq_ignore_case(kw.as_slice(), expunge.as_slice()) {
        return Some(UntaggedResponse::Expunge(n));
    }
    if eq_ignore_case(kw.as_slice(), fetch.as_slice()) {
        return Some(UntaggedResponse::Fetch(n));
    }
    proof {
        lemma_upper_eq_means_eq_upper(toks@[2]@, ascii("EXISTS"@));
        lemma_upper_eq_means_eq_upper(toks@[2]@, ascii("RECENT"@));
        lemma_upper_eq_means_eq_upper(toks@[2]@, ascii("EXPUNGE"@));
        lemma_upper_eq_means_eq_upper(toks@[2]@, ascii("FETCH"@));
    }
    None
}

/// If the uppercase image of `a` equals an already-uppercase `b`, then the
/// two uppercase images agree; used to close the negative parsing cases.
pub proof fn lemma_upper_eq_means_eq_upper(a: Seq<u8>, b: Seq<u8>)
    requires
        upper_seq(b) == b,
    ensures
        (upper_seq(a) == b) == (upper_seq(a) == upper_seq(b)),
{
}

/// A capability line `* CAPABILITY tok tok ...`; the tokens keep their case.
pub open spec fn is_capability_line(l: Seq<u8>, caps: Seq<Seq<u8>>) -> bool {
    let toks = split_tokens(trimmed(l), SP);
    &&& toks.len() >= 2
    &&& toks[0] == seq![42u8]
    &&& upper_seq(toks[1]) == ascii("CAPABILITY"@)
    &&& caps == toks.subrange(2, toks.len() as int)
}

/// Parse `* CAPABILITY ...` into the advertised tokens.
pub fn capabilities_line(l: &[u8]) -> (r: Option<Vec<Vec<u8>>>)
    ensures
        match r {
            Some(caps) => is_capability_line(l@, views(caps@)),
            None => forall|caps: Seq<Seq<u8>>| !is_capability_line(l@, caps),
        },
{
    proof {
        reveal_strlit("CAPABILITY");
    }
    let t = trim_crlf(l);
    let toks = split_by(t.as_slice(), SP);
    if toks.len() < 2 {
        return None;
    }
    if !(toks[0].len() == 1 && toks[0].as_slice()[0] == 42) {
        proof {
            if toks@[0]@ == seq![42u8] {
                assert(toks@[0]@.len() == 1 && toks@[0]@[0] == 42u8);
            }
        }
        return None;
    }
    proof {
        assert(toks@[0]@ =~= seq![42u8]);
    }
    let capkw: [u8; 10] = [67, 65, 80, 65, 66, 73, 76, 73, 84, 89];
    proof {
        assert(capkw@ =~= ascii("CAPABILITY"@));
        assert(upper_seq(ascii("CAPABILITY"@)) =~= ascii("CAPABILITY"@));
    }
    if !eq_ignore_case(toks[1].as_slice(), capkw.as_slice()) {
        proof {
            lemma_upper_eq_means_eq_upper(toks@[1]@, ascii("CAPABILITY"@));
        }
        return None;
    }
    let ghost all = views(toks@);
    let mut caps: Vec<Vec<u8>> = Vec::new();
    let mut i: usize = 2;
    proof {
        assert(views(caps@) =~= all.subrange(2, 2));
    }
    while i < toks.len()
        invariant
            2 <= i <= toks@.len(),
            all == views(toks@),
            views(caps@) == all.subrange(2, i as int),
        decreases toks.len() - i,
    {
        let tok = sub_bytes(toks[i].as_slice(), 0, toks[i].len());
        proof {
            assert(tok@ =~= all[i as int]);
        }
        let ghost tv = tok@;
        let ghost pre = caps@;
        caps.push(tok);
        proof {
            assert(caps@ == pre.push(tok));
            assert(views(pre).len() == pre.len());
            assert(views(pre).len() == i - 2);
            assert(caps@.len() == i - 1);
            assert(views(caps@).len() == caps@.len());
            assert forall|k: int| 0 <= k < i + 1 - 2 implies views(caps@)[k] == all.subrange(
                2,
                i + 1,
            )[k] by {
                assert(views(caps@)[k] == caps@[k]@);
                if k < i - 2 {
                    assert(caps@[k] == pre[k]);
                    assert(views(pre)[k] == pre[k]@);
                } else {
                    assert(caps@[k]@ == tv);
                }
            }
            assert(views(caps@) =~= all.subrange(2, i + 1));
        }
        i += 1;
    }
    proof {
        assert(views(caps@) =~= all.subrange(2, all.len() as int));
    }
    Some(caps)
}

} // verus!
