//! The SELECT / EXAMINE response: a fold over the response's lines that
//! collects EXISTS, RECENT, the bracketed response codes, and the flag
//! lists, exactly as the grammar states them.

use vstd::prelude::*;

use crate::bytes::{
    all_digits, digits_val, eq_ignore_case, idx_of, lemma_idx_of, parse_u64, parse_usize,
    split_by, split_tokens, upper_seq, views, SP,
};
use crate::parser::{
    ascii, find_byte, lines_of, split_lines, sub_bytes, trim_crlf, trimmed,
};
use crate::types::{ImapError, ProtocolError};

verus! {

/// The value of an untagged numeric line `* <n> <kw>`, if `l` is one.
pub open spec fn num_line_val(l: Seq<u8>, kw: Seq<u8>) -> Option<int> {
    let t = split_tokens(trimmed(l), SP);
    if t.len() == 3 && t[0] == seq![42u8] && t[1].len() > 0 && all_digits(t[1]) && upper_seq(t[2])
        == kw {
        Some(digits_val(t[1]))
    } else {
        None
    }
}

/// The bytes between the first `open` and the next `close` after it.
pub open spec fn delim_content(l: Seq<u8>, open: u8, close: u8) -> Option<Seq<u8>> {
    let a = idx_of(l, open);
    if a == l.len() {
        None
    } else {
        let rest = l.subrange(a + 1, l.len() as int);
        let b = idx_of(rest, close);
        if b == rest.len() {
            None
        } else {
            Some(rest.subrange(0, b))
        }
    }
}

/// Whether the line's second token is `OK` (tagged or untagged).
pub open spec fn is_ok_line(l: Seq<u8>) -> bool {
    let t = split_tokens(trimmed(l), SP);
    t.len() >= 2 && upper_seq(t[1]) == ascii("OK"@)
}

/// Whether the line is `* FLAGS (...)`.
pub open spec fn is_flags_line(l: Seq<u8>) -> bool {
    let t = split_tokens(trimmed(l), SP);
    t.len() >= 2 && t[0] == seq![42u8] && upper_seq(t[1]) == ascii("FLAGS"@)
}

/// The mathematical image of a parsed SELECT response.
#[verifier::ext_equal]
pub ghost struct SelectModel {
    pub exists: int,
    pub recent: int,
    pub uidvalidity: Option<int>,
    pub uidnext: Option<int>,
    pub highestmodseq: Option<int>,
    pub flags: Seq<Seq<u8>>,
    pub permanent_flags: Seq<Seq<u8>>,
    pub read_only: bool,
}

/// What a SELECT response means before any line is read.
pub open spec fn default_model() -> SelectModel {
    SelectModel {
        exists: 0,
        recent: 0,
        uidvalidity: None,
        uidnext: None,
        highestmodseq: None,
        flags: Seq::empty(),
        permanent_flags: Seq::empty(),
        read_only: false,
    }
}

/// Apply one bracketed response code; `None` is a parse error.
pub open spec fn apply_code(m: SelectModel, c: Seq<u8>) -> Option<SelectModel> {
    let ct = split_tokens(c, SP);
    if ct.len() == 0 {
        Some(m)
    } else {
        let name = upper_seq(ct[0]);
        if name == ascii("UIDVALIDITY"@) {
            if ct.len() >= 2 && ct[1].len() > 0 && all_digits(ct[1]) && digits_val(ct[1])
                <= u64::MAX {
                Some(SelectModel { uidvalidity: Some(digits_val(ct[1])), ..m })
            } else {
                None
            }
        } else if name == ascii("UIDNEXT"@) {
            if ct.len() >= 2 && ct[1].len() > 0 && all_digits(ct[1]) && digits_val(ct[1])
                <= u64::MAX {
                Some(SelectModel { uidnext: Some(digits_val(ct[1])), ..m })
            } else {
                None
            }
        } else if name == ascii("HIGHESTMODSEQ"@) {
            if ct.len() >= 2 && ct[1].len() > 0 && all_digits(ct[1]) && digits_val(ct[1])
                <= u64::MAX {
                Some(SelectModel { highestmodseq: Some(digits_val(ct[1])), ..m })
            } else {
                None
            }
        } else if name == ascii("PERMANENTFLAGS"@) {
            match delim_content(c, 40, 41) {
                Some(p) => Some(SelectModel { permanent_flags: split_tokens(p, SP), ..m }),
                None => None,
            }
        } else if name == ascii("READ-ONLY"@) {
            Some(SelectModel { read_only: true, ..m })
        } else if name == ascii("READ-WRITE"@) {
            Some(SelectModel { read_only: false, ..m })
        } else {
            Some(m)
        }
    }
}

/// Apply one response line to the model; `None` is a parse error.
pub open spec fn select_step(m: SelectModel, l: Seq<u8>) -> Option<SelectModel> {
    if num_line_val(l, ascii("EXISTS"@)) is Some {
        let v = num_line_val(l, ascii("EXISTS"@))->Some_0;
        if v <= usize::MAX {
            Some(SelectModel { exists: v, ..m })
        } else {
            None
        }
    } else if num_line_val(l, ascii("RECENT"@)) is Some {
        let v = num_line_val(l, ascii("RECENT"@))->Some_0;
        if v <= usize::MAX {
            Some(SelectModel { recent: v, ..m })
        } else {
            None
        }
    } else if is_flags_line(l) {
        match delim_content(trimmed(l), 40, 41) {
            Some(p) => Some(SelectModel { flags: split_tokens(p, SP), ..m }),
            None => None,
        }
    } else if is_ok_line(l) {
        match delim_content(trimmed(l), 91, 93) {
            Some(c) => apply_code(m, c),
            None => Some(m),
        }
    } else {
        Some(m)
    }
}

/// The whole response, folded line by line.
pub open spec fn select_model_of(lines: Seq<Seq<u8>>) -> Option<SelectModel>
    decreases lines.len(),
{
    if lines.len() == 0 {
        Some(default_model())
    } else {
        match select_model_of(lines.drop_last()) {
            Some(m) => select_step(m, lines.last()),
            None => None,
        }
    }
}

/// A parsed `SELECT` / `EXAMINE` response.
#[derive(Debug)]
pub struct SelectResponse {
    pub exists: usize,
    pub recent: usize,
    pub uidvalidity: Option<u64>,
    pub uidnext: Option<u64>,
    pub highestmodseq: Option<u64>,
    pub flags: Vec<Vec<u8>>,
    pub permanent_flags: Vec<Vec<u8>>,
    pub read_only: bool,
}

impl View for SelectResponse {
    type V = SelectModel;

    open spec fn view(&self) -> SelectModel {
        SelectModel {
            exists: self.exists as int,
            recent: self.recent as int,
            uidvalidity: match self.uidvalidity {
                Some(v) => Some(v as int),
                None => None,
            },
            uidnext: match self.uidnext {
                Some(v) => Some(v as int),
                None => None,
            },
            highestmodseq: match self.highestmodseq {
                Some(v) => Some(v as int),
                None => None,
            },
            flags: views(self.flags@),
            permanent_flags: views(self.permanent_flags@),
            read_only: self.read_only,
        }
    }
}

/// Bytes strictly between the first `open` and the following `close`.
pub fn content_between(l: &[u8], open: u8, close: u8) -> (r: Option<Vec<u8>>)
    ensures
        match r {
            Some(c) => delim_content(l@, open, close) == Some(c@),
            None => delim_content(l@, open, close) is None,
        },
{
    proof {
        lemma_idx_of(l@, open);
    }
    let a = match find_byte(l, open) {
        Some(a) => a,
        None => {
            proof {
                if idx_of(l@, open) < l@.len() {
                    assert(l@[idx_of(l@, open)] == open);
                }
            }
            return None;
        },
    };
    proof {
        let ia = idx_of(l@, open);
        if ia < a {
            assert(l@[ia] == open);
        }
        if a < ia {
        }
        assert(a == ia);
    }
    let llen = l.len();
    proof {
        assert(a < llen);
    }
    let ghost rest = l@.subrange(a + 1, l@.len() as int);
    proof {
        lemma_idx_of(rest, close);
    }
    let mut i = a + 1;
    while i < l.len() && l[i] != close
        invariant
            a + 1 <= i <= l@.len(),
            rest == l@.subrange(a + 1, l@.len() as int),
            forall|j: int| a + 1 <= j < i ==> l@[j] != close,
        decreases l.len() - i,
    {
        i += 1;
    }
    if i >= l.len() {
        proof {
            if idx_of(rest, close) < rest.len() {
                assert(rest[idx_of(rest, close)] == close);
                assert(rest[idx_of(rest, close)] == l@[a + 1 + idx_of(rest, close)]);
            }
        }
        return None;
    }
    proof {
        let ib = idx_of(rest, close);
        let k = i - (a + 1);
        if ib < k {
            assert(rest[ib] == close);
            assert(rest[ib] == l@[a + 1 + ib]);
        }
        if k < ib {
            assert(rest[k] != close);
            assert(rest[k] == l@[i as int]);
        }
        assert(k == ib);
    }
    let c = sub_bytes(l, a + 1, i);
    proof {
        assert(c@ =~= rest.subrange(0, i - (a + 1)));
    }
    Some(c)
}

/// Apply one bracketed response code to the partial result.
fn apply_code_exec(resp: &mut SelectResponse, c: &[u8]) -> (ok: bool)
    ensures
        match apply_code(old(resp)@, c@) {
            Some(m) => ok && final(resp)@ == m,
            None => !ok,
        },
{
    proof {
        reveal_strlit("UIDVALIDITY");
        reveal_strlit("UIDNEXT");
        reveal_strlit("HIGHESTMODSEQ");
        reveal_strlit("PERMANENTFLAGS");
        reveal_strlit("READ-ONLY");
        reveal_strlit("READ-WRITE");
    }
    let toks = split_by(c, SP);
    if toks.len() == 0 {
        proof {
            assert(resp@ =~= old(resp)@);
        }
        return true;
    }
    let name = &toks[0];
    let uidvalidity_kw: [u8; 11] = [85, 73, 68, 86, 65, 76, 73, 68, 73, 84, 89];
    let uidnext_kw: [u8; 7] = [85, 73, 68, 78, 69, 88, 84];
    let modseq_kw: [u8; 13] = [72, 73, 71, 72, 69, 83, 84, 77, 79, 68, 83, 69, 81];
    let permflags_kw: [u8; 14] = [80, 69, 82, 77, 65, 78, 69, 78, 84, 70, 76, 65, 71, 83];
    let read_only_kw: [u8; 9] = [82, 69, 65, 68, 45, 79, 78, 76, 89];
    let read_write_kw: [u8; 10] = [82, 69, 65, 68, 45, 87, 82, 73, 84, 69];
    proof {
        assert(uidvalidity_kw@ =~= ascii("UIDVALIDITY"@));
        assert(uidnext_kw@ =~= ascii("UIDNEXT"@));
        assert(modseq_kw@ =~= ascii("HIGHESTMODSEQ"@));
        assert(permflags_kw@ =~= ascii("PERMANENTFLAGS"@));
        assert(read_only_kw@ =~= ascii("READ-ONLY"@));
        assert(read_write_kw@ =~= ascii("READ-WRITE"@));
        assert(upper_seq(ascii("UIDVALIDITY"@)) =~= ascii("UIDVALIDITY"@));
        assert(upper_seq(ascii("UIDNEXT"@)) =~= ascii("UIDNEXT"@));
        assert(upper_seq(ascii("HIGHESTMODSEQ"@)) =~= ascii("HIGHESTMODSEQ"@));
        assert(upper_seq(ascii("PERMANENTFLAGS"@)) =~= ascii("PERMANENTFLAGS"@));
        assert(upper_seq(ascii("READ-ONLY"@)) =~= ascii("READ-ONLY"@));
        assert(upper_seq(ascii("READ-WRITE"@)) =~= ascii("READ-WRITE"@));
    }
    if eq_ignore_case(name.as_slice(), uidvalidity_kw.as_slice()) {
        if toks.len() >= 2 {
            match parse_u64(toks[1].as_slice()) {
                Some(v) => {
                    resp.uidvalidity = Some(v);
                    proof {
                        assert(resp@ =~= apply_code(old(resp)@, c@)->Some_0);
                    }
                    return true;
                },
                None => {
                    return false;
                },
            }
        }
        return false;
    }
    if eq_ignore_case(name.as_slice(), uidnext_kw.as_slice()) {
        if toks.len() >= 2 {
            match parse_u64(toks[1].as_slice()) {
                Some(v) => {
                    resp.uidnext = Some(v);
                    proof {
                        assert(resp@ =~= apply_code(old(resp)@, c@)->Some_0);
                    }
                    return true;
                },
                None => {
                    return false;
                },
            }
        }
        return false;
    }
    if eq_ignore_case(name.as_slice(), modseq_kw.as_slice()) {
        if toks.len() >= 2 {
            match parse_u64(toks[1].as_slice()) {
                Some(v) => {
                    resp.highestmodseq = Some(v);
                    proof {
                        assert(resp@ =~= apply_code(old(resp)@, c@)->Some_0);
                    }
                    return true;
                },
                None => {
                    return false;
                },
            }
        }
        return false;
    }
    if eq_ignore_case(name.as_slice(), permflags_kw.as_slice()) {
        match content_between(c, 40, 41) {
            Some(p) => {
                resp.permanent_flags = split_by(p.as_slice(), SP);
                proof {
                    assert(resp@ =~= apply_code(old(resp)@, c@)->Some_0);
                }
                return true;
            },
            None => {
                return false;
            },
        }
    }
    if eq_ignore_case(name.as_slice(), read_only_kw.as_slice()) {
        resp.read_only = true;
        proof {
            assert(resp@ =~= apply_code(old(resp)@, c@)->Some_0);
        }
        return true;
    }
    if eq_ignore_case(name.as_slice(), read_write_kw.as_slice()) {
        resp.read_only = false;
        proof {
            assert(resp@ =~= apply_code(old(resp)@, c@)->Some_0);
        }
        return true;
    }
    proof {
        crate::parser::lemma_upper_eq_means_eq_upper(views(toks@)[0], ascii("UIDVALIDITY"@));
        crate::parser::lemma_upper_eq_means_eq_upper(views(toks@)[0], ascii("UIDNEXT"@));
        crate::parser::lemma_upper_eq_means_eq_upper(views(toks@)[0], ascii("HIGHESTMODSEQ"@));
        crate::parser::lemma_upper_eq_means_eq_upper(views(toks@)[0], ascii("PERMANENTFLAGS"@));
        crate::parser::lemma_upper_eq_means_eq_upper(views(toks@)[0], ascii("READ-ONLY"@));
        crate::parser::lemma_upper_eq_means_eq_upper(views(toks@)[0], ascii("READ-WRITE"@));
        assert(resp@ =~= old(resp)@);
    }
    true
}

/// Apply one line of a SELECT response to the partial result.
fn select_line(resp: &mut SelectResponse, l: &[u8]) -> (ok: bool)
    ensures
        match select_step(old(resp)@, l@) {
            Some(m) => ok && final(resp)@ == m,
            None => !ok,
        },
{
    proof {
        reveal_strlit("EXISTS");
        reveal_strlit("RECENT");
        reveal_strlit("FLAGS");
        reveal_strlit("OK");
    }
    let t = trim_crlf(l);
    let toks = split_by(t.as_slice(), SP);
    let exists_kw: [u8; 6] = [69, 88, 73, 83, 84, 83];
    let recent_kw: [u8; 6] = [82, 69, 67, 69, 78, 84];
    let flags_kw: [u8; 5] = [70, 76, 65, 71, 83];
    let ok_kw: [u8; 2] = [79, 75];
    proof {
        assert(exists_kw@ =~= ascii("EXISTS"@));
        assert(recent_kw@ =~= ascii("RECENT"@));
        assert(flags_kw@ =~= ascii("FLAGS"@));
        assert(ok_kw@ =~= ascii("OK"@));
        assert(upper_seq(ascii("EXISTS"@)) =~= ascii("EXISTS"@));
        assert(upper_seq(ascii("RECENT"@)) =~= ascii("RECENT"@));
        assert(upper_seq(ascii("FLAGS"@)) =~= ascii("FLAGS"@));
        assert(upper_seq(ascii("OK"@)) =~= ascii("OK"@));
    }
    let is_star = toks.len() >= 1 && toks[0].len() == 1 && toks[0].as_slice()[0] == 42;
    proof {
        if toks@.len() >= 1 {
            if views(toks@)[0] == seq![42u8] {
                assert(views(toks@)[0].len() == 1 && views(toks@)[0][0] == 42u8);
            }
            if toks@[0]@.len() == 1 && toks@[0]@[0] == 42u8 {
                assert(toks@[0]@ =~= seq![42u8]);
            }
        }
    }
    if toks.len() == 3 && is_star && toks[1].len() > 0 && crate::bytes::all_digits_exec(
        toks[1].as_slice(),
    ) {
        if eq_ignore_case(toks[2].as_slice(), exists_kw.as_slice()) {
            match parse_usize(toks[1].as_slice()) {
                Some(v) => {
                    resp.exists = v;
                    proof {
                        assert(resp@ =~= select_step(old(resp)@, l@)->Some_0);
                    }
                    return true;
                },
                None => {
                    return false;
                },
            }
        }
        if eq_ignore_case(toks[2].as_slice(), recent_kw.as_slice()) {
            proof {
                crate::parser::lemma_upper_eq_means_eq_upper(views(toks@)[2], ascii("EXISTS"@));
            }
            match parse_usize(toks[1].as_slice()) {
                Some(v) => {
                    resp.recent = v;
                    proof {
                        assert(resp@ =~= select_step(old(resp)@, l@)->Some_0);
                    }
                    return true;
                },
                None => {
                    return false;
                },
            }
        }
        proof {
            crate::parser::lemma_upper_eq_means_eq_upper(views(toks@)[2], ascii("EXISTS"@));
            crate::parser::lemma_upper_eq_means_eq_upper(views(toks@)[2], ascii("RECENT"@));
        }
    }
    proof {
        assert(num_line_val(l@, ascii("EXISTS"@)) is None);
        assert(num_line_val(l@, ascii("RECENT"@)) is None);
    }
    if toks.len() >= 2 && is_star && eq_ignore_case(toks[1].as_slice(), flags_kw.as_slice()) {
        match content_between(t.as_slice(), 40, 41) {
            Some(p) => {
                resp.flags = split_by(p.as_slice(), SP);
                proof {
                    assert(resp@ =~= select_step(old(resp)@, l@)->Some_0);
                }
                return true;
            },
            None => {
                return false;
            },
        }
    }
    proof {
        if toks@.len() >= 2 {
            crate::parser::lemma_upper_eq_means_eq_upper(views(toks@)[1], ascii("FLAGS"@));
        }
        assert(!is_flags_line(l@));
    }
    if toks.len() >= 2 && eq_ignore_case(toks[1].as_slice(), ok_kw.as_slice()) {
        match content_between(t.as_slice(), 91, 93) {
            Some(c) => {
                let r = apply_code_exec(resp, c.as_slice());
                return r;
            },
            None => {
                proof {
                    assert(resp@ =~= old(resp)@);
                }
                return true;
            },
        }
    }
    proof {
        if toks@.len() >= 2 {
            crate::parser::lemma_upper_eq_means_eq_upper(views(toks@)[1], ascii("OK"@));
        }
        assert(!is_ok_line(l@));
        assert(resp@ =~= old(resp)@);
    }
    true
}

/// Parse a full SELECT / EXAMINE response buffer.
pub fn select_response(buf: &[u8]) -> (r: Result<SelectResponse, ImapError>)
    ensures
        match r {
            Ok(sr) => select_model_of(split_lines(buf@)) == Some(sr@),
            Err(e) => select_model_of(split_lines(buf@)) is None && e == ImapError::Protocol(
                ProtocolError::Parse,
            ),
        },
{
    let lines = lines_of(buf);
    let mut resp = SelectResponse {
        exists: 0,
        recent: 0,
        uidvalidity: None,
        uidnext: None,
        highestmodseq: None,
        flags: Vec::new(),
        permanent_flags: Vec::new(),
        read_only: false,
    };
    proof {
        assert(views(resp.flags@) =~= Seq::<Seq<u8>>::empty());
        assert(views(resp.permanent_flags@) =~= Seq::<Seq<u8>>::empty());
        assert(resp@ =~= default_model());
        assert(views(lines@).subrange(0, 0) =~= Seq::<Seq<u8>>::empty());
    }
    let mut i: usize = 0;
    while i < lines.len()
        invariant
            0 <= i <= lines@.len(),
            views(lines@) == split_lines(buf@),
            select_model_of(views(lines@).subrange(0, i as int)) == Some(resp@),
        decreases lines.len() - i,
    {
        let ghost pre = resp@;
        let ok = select_line(&mut resp, lines[i].as_slice());
        proof {
            let p1 = views(lines@).subrange(0, i + 1);
            assert(p1.drop_last() =~= views(lines@).subrange(0, i as int));
            assert(p1.last() == views(lines@)[i as int]);
            assert(views(lines@)[i as int] == lines@[i as int]@);
        }
        if !ok {
            proof {
                lemma_select_model_prefix_none(views(lines@), i + 1);
            }
            return Err(ImapError::Protocol(ProtocolError::Parse));
        }
        i += 1;
    }
    proof {
        assert(views(lines@).subrange(0, lines@.len() as int) =~= views(lines@));
    }
    Ok(resp)
}

/// Once a prefix of the lines fails to parse, the whole response fails.
proof fn lemma_select_model_prefix_none(lines: Seq<Seq<u8>>, i: int)
    requires
        0 <= i <= lines.len(),
        select_model_of(lines.subrange(0, i)) is None,
    ensures
        select_model_of(lines) is None,
    decreases lines.len() - i,
{
    if i == lines.len() {
        assert(lines.subrange(0, i) =~= lines);
    } else {
        let p1 = lines.subrange(0, i + 1);
        assert(p1.drop_last() =~= lines.subrange(0, i));
        lemma_select_model_prefix_none(lines, i + 1);
    }
}

} // verus!
