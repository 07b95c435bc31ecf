//! The line framer: CRLF-delimited response records, where a line ending in
//! a literal marker `{N}` pulls in exactly N raw bytes — which may contain
//! CRLFs — before the record can end.

use vstd::prelude::*;

use crate::bytes::{all_digits, digits_val, is_digit, parse_usize, CR, LF};
use crate::parser::{line_len, sub_bytes};

verus! {

/// A literal marker `\{[0-9]+\}\r\n` ends the line, with its `{` at `i`.
pub open spec fn marker_at(s: Seq<u8>, i: int) -> bool {
    &&& 0 <= i
    &&& i + 5 <= s.len()
    &&& s[i] == 123
    &&& s[s.len() - 3] == 125
    &&& s[s.len() - 2] == CR
    &&& s[s.len() - 1] == LF
    &&& i + 1 < s.len() - 3
    &&& forall|k: int| i + 1 <= k < s.len() - 3 ==> is_digit(#[trigger] s[k])
}

/// The octet count a marker announces.
pub open spec fn marker_val(s: Seq<u8>, i: int) -> int {
    digits_val(s.subrange(i + 1, s.len() - 3))
}

/// At most one position can start a literal marker: the digits run to the
/// closing brace, and a second `{` inside it would not be a digit.
pub proof fn lemma_marker_unique(s: Seq<u8>, i: int, j: int)
    requires
        marker_at(s, i),
        marker_at(s, j),
    ensures
        i == j,
{
    if i < j {
        assert(is_digit(s[j]));
    } else if j < i {
        assert(is_digit(s[i]));
    }
}

/// What the end of a line announces.
#[derive(Debug, Clone, Copy, PartialEq, Eq, Structural)]
pub enum LiteralMarker {
    /// No literal marker ends this line.
    Absent,
    /// A marker is present but its count does not fit in memory.
    TooLarge,
    /// A marker announcing exactly this many raw octets.
    Count(usize),
}

/// Recognize a literal marker at the end of a CRLF-terminated line.
pub fn literal_marker(line: &[u8]) -> (r: LiteralMarker)
    ensures
        match r {
            LiteralMarker::Absent => forall|i: int| !marker_at(line@, i),
            LiteralMarker::TooLarge => exists|i: int|
                #[trigger] marker_at(line@, i) && marker_val(line@, i) > usize::MAX,
            LiteralMarker::Count(n) => exists|i: int|
                #[trigger] marker_at(line@, i) && marker_val(line@, i) == n,
        },
{
    let len = line.len();
    if len < 5 {
        return LiteralMarker::Absent;
    }
    if !(line[len - 1] == LF && line[len - 2] == CR && line[len - 3] == 125) {
        return LiteralMarker::Absent;
    }
    // scan the digit run backwards from the closing brace
    let mut j = len - 3;
    while j > 0 && line[j - 1] >= 48 && line[j - 1] <= 57
        invariant
            0 <= j <= len - 3,
            len == line@.len(),
            len >= 5,
            forall|k: int| j <= k < len - 3 ==> is_digit(#[trigger] line@[k]),
        decreases j,
    {
        j -= 1;
    }
    if j == 0 {
        // every byte before the brace is a digit; no `{` can open a marker
        assert forall|i: int| !marker_at(line@, i) by {
            if marker_at(line@, i) {
                assert(is_digit(line@[i]));
            }
        }
        return LiteralMarker::Absent;
    }
    if line[j - 1] != 123 {
        assert forall|i: int| !marker_at(line@, i) by {
            if marker_at(line@, i) {
                if i < j - 1 {
                    assert(is_digit(line@[j - 1]));
                } else if i > j - 1 {
                    assert(is_digit(line@[i]));
                }
            }
        }
        return LiteralMarker::Absent;
    }
    if j == len - 3 {
        // an empty digit run: `{}` is not a marker
        assert forall|i: int| !marker_at(line@, i) by {
            if marker_at(line@, i) {
                assert(is_digit(line@[len - 4]));
            }
        }
        return LiteralMarker::Absent;
    }
    let digits = sub_bytes(line, j, len - 3);
    proof {
        assert(marker_at(line@, j - 1));
        assert(digits@.len() > 0);
        assert(all_digits(digits@));
    }
    match parse_usize(digits.as_slice()) {
        Some(n) => LiteralMarker::Count(n),
        None => {
            proof {
                assert(digits_val(digits@) > usize::MAX);
            }
            LiteralMarker::TooLarge
        },
    }
}

/// The octet count of the marker that ends `l`, if one does.
pub open spec fn line_marker(l: Seq<u8>) -> Option<int> {
    if exists|i: int| marker_at(l, i) {
        Some(marker_val(l, choose|i: int| marker_at(l, i)))
    } else {
        None
    }
}

/// Length of the first complete record of `s`: lines joined by literal
/// continuations, ending at the first line terminator not owed to a
/// literal.  `None` while the record is still incomplete.
pub open spec fn record_len(s: Seq<u8>) -> Option<int>
    decreases s.len(),
    via record_len_decreases
{
    if s.len() == 0 {
        None
    } else {
        let l = line_len(s) as int;
        if l + 2 > s.len() {
            None
        } else {
            let line = s.subrange(0, l + 2);
            match line_marker(line) {
                Some(n) => {
                    if l + 2 + n > s.len() {
                        None
                    } else {
                        match record_len(s.subrange(l + 2 + n, s.len() as int)) {
                            Some(m) => Some(l + 2 + n + m),
                            None => None,
                        }
                    }
                },
                None => Some(l + 2),
            }
        }
    }
}

#[via_fn]
proof fn record_len_decreases(s: Seq<u8>) {
    crate::parser::lemma_line_len(s);
    if s.len() != 0 {
        let l = line_len(s) as int;
        if l + 2 <= s.len() {
            let line = s.subrange(0, l + 2);
            if line_marker(line) is Some {
                let i = choose|i: int| marker_at(line, i);
                crate::bytes::lemma_digits_val_pos(line.subrange(i + 1, line.len() - 3));
            }
        }
    }
}

/// A record never ends mid-way: its length covers whole lines.
pub proof fn lemma_record_len_bounds(s: Seq<u8>)
    ensures
        record_len(s) is Some ==> 2 <= record_len(s)->Some_0 <= s.len(),
    decreases s.len(),
{
    crate::parser::lemma_line_len(s);
    if s.len() != 0 {
        let l = line_len(s) as int;
        if l + 2 <= s.len() {
            let line = s.subrange(0, l + 2);
            if line_marker(line) is Some {
                let n = line_marker(line)->Some_0;
                let i = choose|i: int| marker_at(line, i);
                crate::bytes::lemma_digits_val_pos(line.subrange(i + 1, line.len() - 3));
                if l + 2 + n <= s.len() {
                    lemma_record_len_bounds(s.subrange(l + 2 + n, s.len() as int));
                }
            }
        }
    }
}

/// A complete line keeps its length when more bytes follow it.
pub proof fn lemma_line_len_concat(s1: Seq<u8>, s2: Seq<u8>)
    requires
        line_len(s1) + 2 <= s1.len(),
    ensures
        line_len(s1 + s2) == line_len(s1),
    decreases s1.len(),
{
    let s = s1 + s2;
    crate::parser::lemma_line_len(s1);
    if s1.len() >= 2 && s1[0] == CR && s1[1] == LF {
        assert(s[0] == CR && s[1] == LF);
    } else {
        let t1 = s1.subrange(1, s1.len() as int);
        crate::parser::lemma_line_len(t1);
        assert(s[0] == s1[0]);
        if s.len() >= 2 {
            assert(s[1] == s1[1]);
        }
        lemma_line_len_concat(t1, s2);
        assert(s.subrange(1, s.len() as int) =~= t1 + s2);
    }
}

/// An empty literal contributes exactly no payload: a record whose first
/// line ends in a `{0}` marker continues immediately with the next line,
/// and whatever follows — a tagged OK, say — frames unchanged.
pub proof fn lemma_empty_literal_extends_record(l: Seq<u8>, rest: Seq<u8>)
    requires
        line_len(l) == l.len() - 2,
        exists|i: int| #[trigger] marker_at(l, i) && marker_val(l, i) == 0,
    ensures
        record_len(l + rest) == (match record_len(rest) {
            Some(m) => Some(l.len() + m),
            None => None::<int>,
        }),
{
    let s = l + rest;
    let i = choose|i: int| #[trigger] marker_at(l, i) && marker_val(l, i) == 0;
    assert(marker_at(l, i));
    lemma_line_len_concat(l, rest);
    assert(line_len(s) == l.len() - 2);
    assert(s.subrange(0, l.len() as int) =~= l);
    let j = choose|j: int| marker_at(l, j);
    lemma_marker_unique(l, i, j);
    assert(line_marker(l) == Some(0int));
    assert(s.subrange(l.len() as int, s.len() as int) =~= rest);
}

/// Find the end of the first complete record in `buf`, if one is there.
pub fn next_record_end(buf: &[u8]) -> (r: Option<usize>)
    ensures
        match r {
            Some(e) => record_len(buf@) == Some(e as int),
            None => record_len(buf@) is None,
        },
{
    let blen = buf.len();
    let mut pos: usize = 0;
    proof {
        assert(buf@.subrange(0, buf@.len() as int) =~= buf@);
    }
    loop
        invariant
            0 <= pos <= buf@.len(),
            blen == buf@.len(),
            record_len(buf@) == (match record_len(buf@.subrange(pos as int, buf@.len() as int)) {
                Some(m) => Some(pos + m),
                None => None::<int>,
            }),
        decreases buf@.len() - pos,
    {
        let ghost suffix = buf@.subrange(pos as int, buf@.len() as int);
        proof {
            crate::parser::lemma_line_len(suffix);
        }
        let e = match line_end_from(buf, pos) {
            Some(e) => e,
            None => {
                return None;
            },
        };
        let line = sub_bytes(buf, pos, e + 2);
        proof {
            assert(line@ =~= suffix.subrange(0, line_len(suffix) as int + 2));
        }
        match literal_marker(line.as_slice()) {
            LiteralMarker::Absent => {
                proof {
                    assert(line_marker(line@) is None);
                }
                return Some(e + 2);
            },
            LiteralMarker::TooLarge => {
                proof {
                    let i = choose|i: int| marker_at(line@, i);
                    assert(marker_at(line@, i));
                    let j = choose|j: int|
                        #[trigger] marker_at(line@, j) && marker_val(line@, j) > usize::MAX;
                    lemma_marker_unique(line@, i, j);
                    assert(line_marker(line@) == Some(marker_val(line@, i)));
                    assert(marker_val(line@, i) > usize::MAX);
                    assert(suffix.len() <= blen);
                    assert(line_len(suffix) + 2 + marker_val(line@, i) > suffix.len());
                }
                return None;
            },
            LiteralMarker::Count(n) => {
                proof {
                    let i = choose|i: int| marker_at(line@, i);
                    let j = choose|j: int|
                        #[trigger] marker_at(line@, j) && marker_val(line@, j) == n;
                    lemma_marker_unique(line@, i, j);
                    assert(line_marker(line@) == Some(n as int));
                }
                // the literal bytes must be present in full
                if n > buf.len() - (e + 2) {
                    proof {
                        assert(line_len(suffix) + 2 + n > suffix.len());
                    }
                    return None;
                }
                let newpos = e + 2 + n;
                proof {
                    let l = line_len(suffix) as int;
                    assert(suffix.subrange(l + 2 + n, suffix.len() as int) =~= buf@.subrange(
                        newpos as int,
                        buf@.len() as int,
                    ));
                    assert(record_len(suffix) == (match record_len(
                        suffix.subrange(l + 2 + n, suffix.len() as int),
                    ) {
                        Some(m) => Some(l + 2 + n + m),
                        None => None::<int>,
                    }));
                }
                pos = newpos;
            },
        }
    }
}

/// Index just before the CRLF that terminates the line starting at `from`.
fn line_end_from(buf: &[u8], from: usize) -> (r: Option<usize>)
    requires
        0 <= from <= buf@.len(),
    ensures
        ({
            let suffix = buf@.subrange(from as int, buf@.len() as int);
            match r {
                Some(e) => from <= e && e + 2 <= buf@.len() && e - from == line_len(suffix),
                None => line_len(suffix) == suffix.len(),
            }
        }),
{
    let ghost suffix = buf@.subrange(from as int, buf@.len() as int);
    let mut i = from;
    loop
        invariant
            from <= i <= buf@.len(),
            suffix == buf@.subrange(from as int, buf@.len() as int),
            i - from <= line_len(suffix),
        decreases buf@.len() - i,
    {
        proof {
            crate::parser::lemma_line_len(suffix);
        }
        if i >= buf.len() {
            proof {
                if i - from < line_len(suffix) {
                    assert(line_len(suffix) <= suffix.len());
                    assert(false);
                }
            }
            return None;
        }
        if i + 1 < buf.len() && buf[i] == CR && buf[i + 1] == LF {
            proof {
                let k = i - from;
                if k < line_len(suffix) {
                    assert(suffix[k] == buf@[i as int]);
                    assert(suffix[k + 1] == buf@[i + 1]);
                    crate::parser::lemma_line_len_stops(suffix, k);
                }
            }
            return Some(i);
        }
        proof {
            let k = i - from;
            if k == line_len(suffix) {
                if line_len(suffix) < suffix.len() {
                    assert(suffix[k] == CR && suffix[k + 1] == LF);
                    assert(suffix[k] == buf@[i as int]);
                    assert(suffix[k + 1] == buf@[i + 1]);
                    assert(false);
                } else {
                    assert(false);
                }
            }
        }
        i += 1;
    }
}

/// The framer: a growing buffer from which complete records are taken.
pub struct Framer {
    pub buf: Vec<u8>,
}

impl Framer {
    pub fn new() -> (r: Framer)
        ensures
            r.buf@ == Seq::<u8>::empty(),
    {
        let r = Framer { buf: Vec::new() };
        proof {
            assert(r.buf@ =~= Seq::<u8>::empty());
        }
        r
    }

    /// Feed freshly read bytes in.
    pub fn push_bytes(&mut self, chunk: &[u8])
        ensures
            final(self).buf@ == old(self).buf@ + chunk@,
    {
        let mut i: usize = 0;
        proof {
            assert(self.buf@ =~= old(self).buf@ + chunk@.subrange(0, 0));
        }
        while i < chunk.len()
            invariant
                0 <= i <= chunk@.len(),
                self.buf@ == old(self).buf@ + chunk@.subrange(0, i as int),
            decreases chunk.len() - i,
        {
            self.buf.push(chunk[i]);
            proof {
                assert(self.buf@ =~= old(self).buf@ + chunk@.subrange(0, i + 1));
            }
            i += 1;
        }
        proof {
            assert(chunk@.subrange(0, chunk@.len() as int) =~= chunk@);
        }
    }

    /// Take the first complete record out, if one has been assembled.
    pub fn pop_record(&mut self) -> (r: Option<Vec<u8>>)
        ensures
            match r {
                Some(rec) => {
                    &&& record_len(old(self).buf@) == Some(rec@.len() as int)
                    &&& rec@ == old(self).buf@.subrange(0, rec@.len() as int)
                    &&& final(self).buf@ == old(self).buf@.subrange(
                        rec@.len() as int,
                        old(self).buf@.len() as int,
                    )
                },
                None => record_len(old(self).buf@) is None && final(self).buf@ == old(self).buf@,
            },
    {
        match next_record_end(self.buf.as_slice()) {
            Some(e) => {
                proof {
                    lemma_record_len_bounds(self.buf@);
                }
                let rec = sub_bytes(self.buf.as_slice(), 0, e);
                let rest = sub_bytes(self.buf.as_slice(), e, self.buf.len());
                self.buf = rest;
                Some(rec)
            },
            None => None,
        }
    }
}

} // verus!
