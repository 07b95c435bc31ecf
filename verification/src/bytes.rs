//! Byte-string helpers for the line-oriented IMAP protocol: prefix tests,
//! ASCII case folding, decimal number parsing and separator splitting.

use vstd::prelude::*;

verus! {

/// ASCII space.
pub const SP: u8 = 32;

/// ASCII carriage return.
pub const CR: u8 = 13;

/// ASCII line feed.
pub const LF: u8 = 10;

pub open spec fn is_digit(b: u8) -> bool {
    48 <= b <= 57
}

/// Value of a big-endian decimal digit string (empty string has value 0).
pub open spec fn digits_val(s: Seq<u8>) -> int
    decreases s.len(),
{
    if s.len() == 0 {
        0
    } else {
        digits_val(s.drop_last()) * 10 + (s.last() - 48)
    }
}

pub open spec fn all_digits(s: Seq<u8>) -> bool {
    forall|i: int| 0 <= i < s.len() ==> is_digit(s[i])
}

/// ASCII uppercase of one byte.
pub open spec fn upper(b: u8) -> u8 {
    if 97 <= b <= 122 {
        (b - 32) as u8
    } else {
        b
    }
}

/// ASCII-case-insensitive image of a byte string.
pub open spec fn upper_seq(s: Seq<u8>) -> Seq<u8> {
    s.map_values(|b: u8| upper(b))
}

/// `p` is a prefix of `s`.
pub open spec fn is_prefix(s: Seq<u8>, p: Seq<u8>) -> bool {
    p.len() <= s.len() && s.subrange(0, p.len() as int) == p
}

pub fn starts_with(s: &[u8], p: &[u8]) -> (r: bool)
    ensures
        r == is_prefix(s@, p@),
{
    if p.len() > s.len() {
        assert(!is_prefix(s@, p@));
        return false;
    }
    let mut i: usize = 0;
    while i < p.len()
        invariant
            0 <= i <= p.len() <= s.len(),
            forall|j: int| 0 <= j < i ==> s@[j] == p@[j],
        decreases p.len() - i,
    {
        if s[i] != p[i] {
            assert(s@.subrange(0, p@.len() as int)[i as int] != p@[i as int]);
            return false;
        }
        i += 1;
    }
    assert(s@.subrange(0, p@.len() as int) =~= p@);
    true
}

pub fn eq_bytes(a: &[u8], b: &[u8]) -> (r: bool)
    ensures
        r == (a@ == b@),
{
    if a.len() != b.len() {
        assert(a@ != b@);
        return false;
    }
    let mut i: usize = 0;
    while i < a.len()
        invariant
            0 <= i <= a.len() == b.len(),
            forall|j: int| 0 <= j < i ==> a@[j] == b@[j],
        decreases a.len() - i,
    {
        if a[i] != b[i] {
            return false;
        }
        i += 1;
    }
    assert(a@ =~= b@);
    true
}

pub fn upper_byte(b: u8) -> (r: u8)
    ensures
        r == upper(b),
{
    if 97 <= b && b <= 122 {
        b - 32
    } else {
        b
    }
}

/// ASCII-case-insensitive equality, as servers compare capability names.
pub fn eq_ignore_case(a: &[u8], b: &[u8]) -> (r: bool)
    ensures
        r == (upper_seq(a@) == upper_seq(b@)),
{
    if a.len() != b.len() {
        assert(upper_seq(a@).len() != upper_seq(b@).len());
        return false;
    }
    let mut i: usize = 0;
    while i < a.len()
        invariant
            0 <= i <= a.len() == b.len(),
            forall|j: int| 0 <= j < i ==> upper(a@[j]) == upper(b@[j]),
        decreases a.len() - i,
    {
        if upper_byte(a[i]) != upper_byte(b[i]) {
            assert(upper_seq(a@)[i as int] != upper_seq(b@)[i as int]);
            return false;
        }
        i += 1;
    }
    assert(upper_seq(a@) =~= upper_seq(b@));
    true
}

proof fn lemma_digits_val_extend(s: Seq<u8>, i: int)
    requires
        0 <= i < s.len(),
    ensures
        digits_val(s.subrange(0, i + 1)) == digits_val(s.subrange(0, i)) * 10 + (s[i] - 48),
{
    let t = s.subrange(0, i + 1);
    assert(t.drop_last() =~= s.subrange(0, i));
    assert(t.last() == s[i]);
}

proof fn lemma_digits_val_nonneg(s: Seq<u8>)
    requires
        all_digits(s),
    ensures
        digits_val(s) >= 0,
    decreases s.len(),
{
    if s.len() > 0 {
        assert(all_digits(s.drop_last()));
        lemma_digits_val_nonneg(s.drop_last());
    }
}

/// The value of a digit string is never negative.
pub proof fn lemma_digits_val_pos(s: Seq<u8>)
    requires
        all_digits(s),
    ensures
        digits_val(s) >= 0,
{
    lemma_digits_val_nonneg(s);
}

/// Parse a non-empty all-digit byte string as a `usize`.
///
/// Returns `Some(v)` exactly when the input is a non-empty digit string whose
/// value fits; leading zeros are accepted, as the grammar allows them.
pub fn parse_usize(s: &[u8]) -> (r: Option<usize>)
    ensures
        match r {
            Some(v) => s@.len() > 0 && all_digits(s@) && v == digits_val(s@),
            None => s@.len() == 0 || !all_digits(s@) || digits_val(s@) > usize::MAX,
        },
{
    if s.len() == 0 {
        return None;
    }
    let mut acc: usize = 0;
    let mut overflow: bool = false;
    let mut i: usize = 0;
    while i < s.len()
        invariant
            0 <= i <= s@.len(),
            forall|j: int| 0 <= j < i ==> is_digit(s@[j]),
            !overflow ==> acc == digits_val(s@.subrange(0, i as int)),
            overflow ==> digits_val(s@.subrange(0, i as int)) > usize::MAX,
        decreases s.len() - i,
    {
        let b = s[i];
        if b < 48 || b > 57 {
            return None;
        }
        let d = (b - 48) as usize;
        proof {
            lemma_digits_val_extend(s@, i as int);
        }
        if overflow {
            assert(digits_val(s@.subrange(0, i + 1)) > usize::MAX) by {
                assert(forall|j: int| 0 <= j < i + 1 ==> is_digit(#[trigger] s@.subrange(0, i + 1)[j]));
                lemma_digits_val_nonneg(s@.subrange(0, i + 1));
                assert(digits_val(s@.subrange(0, i as int)) * 10 >= digits_val(
                    s@.subrange(0, i as int),
                )) by {
                    lemma_digits_val_nonneg(s@.subrange(0, i as int));
                    assert(all_digits(s@.subrange(0, i as int)));
                }
            }
        } else {
            if acc > (usize::MAX - d) / 10 {
                assert(acc * 10 + d > usize::MAX) by (nonlinear_arith)
                    requires
                        acc > (usize::MAX - d) / 10,
                        d <= 9,
                ;
                overflow = true;
            } else {
                assert(acc * 10 + d <= usize::MAX) by (nonlinear_arith)
                    requires
                        acc <= (usize::MAX - d) / 10,
                        d <= 9,
                ;
                acc = acc * 10 + d;
            }
        }
        i += 1;
    }
    assert(s@.subrange(0, s@.len() as int) =~= s@);
    if overflow {
        None
    } else {
        Some(acc)
    }
}

/// Whether every byte is an ASCII digit.
pub fn all_digits_exec(s: &[u8]) -> (r: bool)
    ensures
        r == all_digits(s@),
{
    let mut i: usize = 0;
    while i < s.len()
        invariant
            0 <= i <= s@.len(),
            forall|j: int| 0 <= j < i ==> is_digit(s@[j]),
        decreases s.len() - i,
    {
        if s[i] < 48 || s[i] > 57 {
            return false;
        }
        i += 1;
    }
    true
}

/// Parse a non-empty all-digit byte string as a `u64`.
pub fn parse_u64(s: &[u8]) -> (r: Option<u64>)
    ensures
        match r {
            Some(v) => s@.len() > 0 && all_digits(s@) && v == digits_val(s@),
            None => s@.len() == 0 || !all_digits(s@) || digits_val(s@) > u64::MAX,
        },
{
    if s.len() == 0 {
        return None;
    }
    let mut acc: u64 = 0;
    let mut overflow: bool = false;
    let mut i: usize = 0;
    while i < s.len()
        invariant
            0 <= i <= s@.len(),
            forall|j: int| 0 <= j < i ==> is_digit(s@[j]),
            !overflow ==> acc == digits_val(s@.subrange(0, i as int)),
            overflow ==> digits_val(s@.subrange(0, i as int)) > u64::MAX,
        decreases s.len() - i,
    {
        let b = s[i];
        if b < 48 || b > 57 {
            return None;
        }
        let d = (b - 48) as u64;
        proof {
            lemma_digits_val_extend(s@, i as int);
        }
        if overflow {
            assert(digits_val(s@.subrange(0, i + 1)) > u64::MAX) by {
                assert(forall|j: int| 0 <= j < i + 1 ==> is_digit(#[trigger] s@.subrange(0, i + 1)[j]));
                lemma_digits_val_nonneg(s@.subrange(0, i + 1));
                assert(digits_val(s@.subrange(0, i as int)) * 10 >= digits_val(
                    s@.subrange(0, i as int),
                )) by {
                    lemma_digits_val_nonneg(s@.subrange(0, i as int));
                    assert(all_digits(s@.subrange(0, i as int)));
                }
            }
        } else {
            if acc > (u64::MAX - d) / 10 {
                assert(acc * 10 + d > u64::MAX) by (nonlinear_arith)
                    requires
                        acc > (u64::MAX - d) / 10,
                        d <= 9,
                ;
                overflow = true;
            } else {
                assert(acc * 10 + d <= u64::MAX) by (nonlinear_arith)
                    requires
                        acc <= (u64::MAX - d) / 10,
                        d <= 9,
                ;
                acc = acc * 10 + d;
            }
        }
        i += 1;
    }
    assert(s@.subrange(0, s@.len() as int) =~= s@);
    if overflow {
        None
    } else {
        Some(acc)
    }
}

/// Index of the first occurrence of `b` in `s`, or the length if absent.
pub open spec fn idx_of(s: Seq<u8>, b: u8) -> int
    decreases s.len(),
{
    if s.len() == 0 {
        0
    } else if s[0] == b {
        0
    } else {
        1 + idx_of(s.subrange(1, s.len() as int), b)
    }
}

pub proof fn lemma_idx_of(s: Seq<u8>, b: u8)
    ensures
        0 <= idx_of(s, b) <= s.len(),
        idx_of(s, b) < s.len() ==> s[idx_of(s, b)] == b,
        forall|j: int| 0 <= j < idx_of(s, b) ==> s[j] != b,
    decreases s.len(),
{
    if s.len() == 0 || s[0] == b {
    } else {
        let t = s.subrange(1, s.len() as int);
        lemma_idx_of(t, b);
        assert forall|j: int| 0 <= j < idx_of(s, b) implies s[j] != b by {
            if j > 0 {
                assert(s[j] == t[j - 1]);
            }
        }
        if idx_of(s, b) < s.len() {
            assert(s[idx_of(s, b)] == t[idx_of(t, b)]);
        }
    }
}

/// Length of the leading run of bytes different from `sep`.
pub open spec fn run_len(s: Seq<u8>, sep: u8) -> nat
    decreases s.len(),
{
    if s.len() == 0 || s[0] == sep {
        0
    } else {
        1 + run_len(s.subrange(1, s.len() as int), sep)
    }
}

pub proof fn lemma_run_len(s: Seq<u8>, sep: u8)
    ensures
        0 <= run_len(s, sep) <= s.len(),
        forall|j: int| 0 <= j < run_len(s, sep) ==> s[j] != sep,
        run_len(s, sep) < s.len() ==> s[run_len(s, sep) as int] == sep,
    decreases s.len(),
{
    if s.len() == 0 || s[0] == sep {
    } else {
        let t = s.subrange(1, s.len() as int);
        lemma_run_len(t, sep);
        assert forall|j: int| 0 <= j < run_len(s, sep) implies s[j] != sep by {
            if j > 0 {
                assert(s[j] == t[j - 1]);
            }
        }
        if run_len(s, sep) < s.len() {
            assert(s[run_len(s, sep) as int] == t[run_len(t, sep) as int]);
        }
    }
}

/// Maximal `sep`-free runs of `s`, in order; empty runs are dropped, so
/// repeated or leading separators do not yield empty tokens.
pub open spec fn split_tokens(s: Seq<u8>, sep: u8) -> Seq<Seq<u8>>
    decreases s.len(),
    via split_tokens_decreases
{
    if s.len() == 0 {
        Seq::empty()
    } else if s[0] == sep {
        split_tokens(s.subrange(1, s.len() as int), sep)
    } else {
        let n = run_len(s, sep) as int;
        seq![s.subrange(0, n)] + split_tokens(s.subrange(n, s.len() as int), sep)
    }
}

#[via_fn]
proof fn split_tokens_decreases(s: Seq<u8>, sep: u8) {
    if s.len() > 0 && s[0] != sep {
        lemma_run_len_pos(s, sep);
    }
}

pub proof fn lemma_run_len_pos(s: Seq<u8>, sep: u8)
    requires
        s.len() > 0,
        s[0] != sep,
    ensures
        1 <= run_len(s, sep) <= s.len(),
{
    lemma_run_len(s, sep);
}

/// Splitting a suffix that starts with a separator skips it.
pub proof fn lemma_split_skip(s: Seq<u8>, sep: u8, i: int)
    requires
        0 <= i < s.len(),
        s[i] == sep,
    ensures
        split_tokens(s.subrange(i, s.len() as int), sep) == split_tokens(
            s.subrange(i + 1, s.len() as int),
            sep,
        ),
{
    let t = s.subrange(i, s.len() as int);
    assert(t[0] == sep);
    assert(t.subrange(1, t.len() as int) =~= s.subrange(i + 1, s.len() as int));
}

/// Splitting a suffix that starts with a token peels exactly that token.
pub proof fn lemma_split_peel(s: Seq<u8>, sep: u8, i: int, n: int)
    requires
        0 <= i < s.len(),
        s[i] != sep,
        n == run_len(s.subrange(i, s.len() as int), sep),
    ensures
        split_tokens(s.subrange(i, s.len() as int), sep) == seq![s.subrange(i, i + n)]
            + split_tokens(s.subrange(i + n, s.len() as int), sep),
{
    let t = s.subrange(i, s.len() as int);
    lemma_run_len_pos(t, sep);
    assert(t.subrange(0, n) =~= s.subrange(i, i + n));
    assert(t.subrange(n, t.len() as int) =~= s.subrange(i + n, s.len() as int));
}

/// The views of a vector-of-vectors of bytes.
pub open spec fn views(v: Seq<Vec<u8>>) -> Seq<Seq<u8>> {
    v.map_values(|t: Vec<u8>| t@)
}

/// Pushing onto a vector-of-vectors pushes its view.
pub proof fn lemma_views_push(v: Seq<Vec<u8>>, x: Vec<u8>)
    ensures
        views(v.push(x)) == views(v).push(x@),
{
    assert forall|k: int| 0 <= k < v.push(x).len() implies views(v.push(x))[k] == views(v).push(
        x@,
    )[k] by {
        assert(views(v.push(x))[k] == v.push(x)[k]@);
        if k < v.len() {
            assert(v.push(x)[k] == v[k]);
            assert(views(v)[k] == v[k]@);
        } else {
            assert(v.push(x)[k] == x);
        }
    }
    assert(views(v.push(x)) =~= views(v).push(x@));
}

/// Split `s` into its maximal `sep`-free runs.
pub fn split_by(s: &[u8], sep: u8) -> (r: Vec<Vec<u8>>)
    ensures
        views(r@) == split_tokens(s@, sep),
{
    let mut out: Vec<Vec<u8>> = Vec::new();
    let mut i: usize = 0;
    proof {
        assert(s@.subrange(0, s@.len() as int) =~= s@);
    }
    while i < s.len()
        invariant
            0 <= i <= s@.len(),
            split_tokens(s@, sep) == views(out@) + split_tokens(s@.subrange(i as int, s@.len() as int), sep),
        decreases s.len() - i,
    {
        if s[i] == sep {
            proof {
                lemma_split_skip(s@, sep, i as int);
            }
            i += 1;
        } else {
            let ghost suffix = s@.subrange(i as int, s@.len() as int);
            let start = i;
            let mut tok: Vec<u8> = Vec::new();
            proof {
                assert(tok@ =~= s@.subrange(start as int, start as int));
            }
            while i < s.len() && s[i] != sep
                invariant
                    start <= i <= s@.len(),
                    start < s@.len(),
                    suffix == s@.subrange(start as int, s@.len() as int),
                    tok@ == s@.subrange(start as int, i as int),
                    i - start <= run_len(suffix, sep),
                    forall|j: int| start <= j < i ==> s@[j] != sep,
                decreases s.len() - i,
            {
                proof {
                    lemma_run_len(suffix, sep);
                    let k = i - start;
                    if k == run_len(suffix, sep) {
                        assert(suffix[k] == sep);
                        assert(suffix[k] == s@[i as int]);
                        assert(false);
                    }
                }
                tok.push(s[i]);
                proof {
                    assert(tok@ =~= s@.subrange(start as int, i + 1));
                }
                i += 1;
            }
            proof {
                lemma_run_len(suffix, sep);
                let k = i - start;
                if k < run_len(suffix, sep) {
                    assert(suffix[k] != sep);
                    assert(suffix[k] == s@[i as int]);
                    assert(i < s@.len() && s@[i as int] != sep);
                    assert(false);
                }
                assert(k == run_len(suffix, sep));
                lemma_split_peel(s@, sep, start as int, k);
                assert(tok@ =~= s@.subrange(start as int, start + k));
            }
            out.push(tok);
            proof {
                assert(views(out@) =~= views(out@.drop_last()) + seq![tok@]);
                assert(views(out@.drop_last()) + seq![tok@] + split_tokens(
                    s@.subrange(i as int, s@.len() as int),
                    sep,
                ) =~= views(out@.drop_last()) + (seq![tok@] + split_tokens(
                    s@.subrange(i as int, s@.len() as int),
                    sep,
                )));
            }
        }
    }
    proof {
        assert(s@.subrange(i as int, s@.len() as int) =~= Seq::<u8>::empty());
        assert(split_tokens(s@, sep) =~= views(out@));
    }
    out
}

} // verus!
