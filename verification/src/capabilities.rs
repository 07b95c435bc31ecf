//! The capability set a server advertises: case-insensitive tokens, parsed
//! from and serialized to a `* CAPABILITY ...` line.  Capabilities are a
//! set: parsing then serializing is insensitive to token order.

use vstd::prelude::*;

use crate::bytes::{
    eq_ignore_case, lemma_split_peel, lemma_split_skip, run_len, split_tokens, upper_seq, views,
    CR, LF, SP,
};
use crate::parser::{ascii, is_capability_line, sub_bytes, trimmed};

verus! {

/// A token that may stand in a capability line: non-empty, free of spaces
/// and line terminators.
pub open spec fn cap_token(t: Seq<u8>) -> bool {
    t.len() > 0 && forall|i: int| 0 <= i < t.len() ==> t[i] != SP && t[i] != CR && t[i] != LF
}

/// The set a token list denotes, after ASCII case folding.
pub open spec fn cap_set(toks: Seq<Seq<u8>>) -> Set<Seq<u8>> {
    Set::new(|c: Seq<u8>| exists|i: int| 0 <= i < toks.len() && upper_seq(#[trigger] toks[i]) == c)
}

/// Token lists with the same members denote the same set, whatever their
/// order or repetition: capabilities are a set.
pub proof fn lemma_cap_set_order_insensitive(a: Seq<Seq<u8>>, b: Seq<Seq<u8>>)
    requires
        forall|i: int|
            0 <= i < a.len() ==> exists|j: int| 0 <= j < b.len() && #[trigger] a[i] == b[j],
        forall|j: int|
            0 <= j < b.len() ==> exists|i: int| 0 <= i < a.len() && #[trigger] b[j] == a[i],
    ensures
        cap_set(a) == cap_set(b),
{
    assert forall|c: Seq<u8>| cap_set(a).contains(c) implies cap_set(b).contains(c) by {
        let i = choose|i: int| 0 <= i < a.len() && upper_seq(#[trigger] a[i]) == c;
        let j = choose|j: int| 0 <= j < b.len() && a[i] == #[trigger] b[j];
        assert(upper_seq(b[j]) == c);
    }
    assert forall|c: Seq<u8>| cap_set(b).contains(c) implies cap_set(a).contains(c) by {
        let j = choose|j: int| 0 <= j < b.len() && upper_seq(#[trigger] b[j]) == c;
        let i = choose|i: int| 0 <= i < a.len() && b[j] == #[trigger] a[i];
        assert(upper_seq(a[i]) == c);
    }
    assert(cap_set(a) =~= cap_set(b));
}

/// `" tok tok ..."`: each token preceded by one space.
pub open spec fn sp_joined(toks: Seq<Seq<u8>>) -> Seq<u8>
    decreases toks.len(),
{
    if toks.len() == 0 {
        Seq::empty()
    } else {
        seq![SP] + toks[0] + sp_joined(toks.subrange(1, toks.len() as int))
    }
}

/// The well-formed capability tokens of a parsed list, in order.
pub open spec fn filter_cap_tokens(s: Seq<Seq<u8>>) -> Seq<Seq<u8>> {
    s.filter(|t: Seq<u8>| cap_token(t))
}

proof fn lemma_filter_cap_tokens_wf(s: Seq<Seq<u8>>)
    ensures
        forall|i: int|
            0 <= i < filter_cap_tokens(s).len() ==> cap_token(#[trigger] filter_cap_tokens(s)[i]),
{
    assert forall|i: int|
        0 <= i < filter_cap_tokens(s).len() implies cap_token(
        #[trigger] filter_cap_tokens(s)[i],
    ) by {
        s.lemma_filter_pred(|t: Seq<u8>| cap_token(t), i);
    }
}

/// The serialized form of a capability list.
pub open spec fn cap_line(toks: Seq<Seq<u8>>) -> Seq<u8> {
    ascii("* CAPABILITY"@) + sp_joined(toks) + seq![CR, LF]
}

/// The leading run of a separator-free token followed by a separator (or
/// nothing) is the whole token.
proof fn lemma_run_len_concat(t: Seq<u8>, tail: Seq<u8>)
    requires
        t.len() > 0,
        forall|i: int| 0 <= i < t.len() ==> t[i] != SP,
        tail.len() == 0 || tail[0] == SP,
    ensures
        run_len(t + tail, SP) == t.len(),
    decreases t.len(),
{
    let s = t + tail;
    assert(s[0] == t[0]);
    assert(s[0] != SP);
    if t.len() == 1 {
        assert(s.subrange(1, s.len() as int) =~= tail);
        if tail.len() > 0 {
            assert(run_len(tail, SP) == 0);
        }
        assert(run_len(s, SP) == 1 + run_len(tail, SP));
    } else {
        let t2 = t.subrange(1, t.len() as int);
        assert forall|i: int| 0 <= i < t2.len() implies t2[i] != SP by {
            assert(t2[i] == t[i + 1]);
        }
        lemma_run_len_concat(t2, tail);
        assert(s.subrange(1, s.len() as int) =~= t2 + tail);
        assert(run_len(s, SP) == 1 + run_len(t2 + tail, SP));
    }
}

/// Splitting a token followed by a separator-led (or empty) tail peels the
/// token.
proof fn lemma_split_concat(t: Seq<u8>, tail: Seq<u8>)
    requires
        t.len() > 0,
        forall|i: int| 0 <= i < t.len() ==> t[i] != SP,
        tail.len() == 0 || tail[0] == SP,
    ensures
        split_tokens(t + tail, SP) == seq![t] + split_tokens(tail, SP),
{
    let s = t + tail;
    lemma_run_len_concat(t, tail);
    assert(s.subrange(0, s.len() as int) =~= s);
    lemma_split_peel(s, SP, 0, t.len() as int);
    assert(s.subrange(0, t.len() as int) =~= t);
    assert(s.subrange(t.len() as int, s.len() as int) =~= tail);
}

/// Splitting the space-joined form recovers exactly the tokens.
proof fn lemma_split_sp_joined(toks: Seq<Seq<u8>>)
    requires
        forall|i: int| 0 <= i < toks.len() ==> cap_token(#[trigger] toks[i]),
    ensures
        split_tokens(sp_joined(toks), SP) == toks,
    decreases toks.len(),
{
    if toks.len() == 0 {
        assert(split_tokens(sp_joined(toks), SP) =~= toks);
    } else {
        let rest = toks.subrange(1, toks.len() as int);
        let s = sp_joined(toks);
        assert(s == seq![SP] + toks[0] + sp_joined(rest));
        assert(s.len() > 0 && s[0] == SP);
        assert(s.subrange(0, s.len() as int) =~= s);
        lemma_split_skip(s, SP, 0);
        assert(s.subrange(1, s.len() as int) =~= toks[0] + sp_joined(rest));
        assert(sp_joined(rest).len() == 0 || sp_joined(rest)[0] == SP) by {
            if rest.len() > 0 {
                assert(sp_joined(rest) == seq![SP] + rest[0] + sp_joined(
                    rest.subrange(1, rest.len() as int),
                ));
            }
        }
        lemma_split_concat(toks[0], sp_joined(rest));
        lemma_split_sp_joined(rest);
        assert(split_tokens(s, SP) =~= toks);
    }
}

/// No byte of the space-joined form of capability tokens is CR or LF.
proof fn lemma_sp_joined_no_crlf(toks: Seq<Seq<u8>>)
    requires
        forall|i: int| 0 <= i < toks.len() ==> cap_token(#[trigger] toks[i]),
    ensures
        forall|k: int| 0 <= k < sp_joined(toks).len() ==> sp_joined(toks)[k] != CR,
    decreases toks.len(),
{
    if toks.len() > 0 {
        let rest = toks.subrange(1, toks.len() as int);
        lemma_sp_joined_no_crlf(rest);
        assert forall|k: int| 0 <= k < sp_joined(toks).len() implies sp_joined(toks)[k] != CR by {
            let s = sp_joined(toks);
            assert(s == seq![SP] + toks[0] + sp_joined(rest));
            if k == 0 {
            } else if k < 1 + toks[0].len() {
                assert(s[k] == toks[0][k - 1]);
            } else {
                assert(s[k] == sp_joined(rest)[k - 1 - toks[0].len()]);
            }
        }
    }
}

/// Parsing the serialized form of a capability list yields exactly its
/// tokens; with `lemma_cap_set_order_insensitive`, the round trip is
/// order-insensitive.
pub proof fn lemma_capability_round_trip(toks: Seq<Seq<u8>>)
    requires
        forall|i: int| 0 <= i < toks.len() ==> cap_token(#[trigger] toks[i]),
    ensures
        is_capability_line(cap_line(toks), toks),
{
    reveal_strlit("* CAPABILITY");
    reveal_strlit("CAPABILITY");
    let line = cap_line(toks);
    let body = ascii("* CAPABILITY"@) + sp_joined(toks);
    // the line ends in CRLF, and nothing inside is a CR, so trimming
    // removes exactly the terminator
    assert(line.len() == body.len() + 2);
    assert(line[line.len() - 2] == CR && line[line.len() - 1] == LF);
    assert(trimmed(line) =~= body);
    // the body splits into "*", "CAPABILITY", and the tokens
    let star = seq![42u8];
    let capkw = ascii("CAPABILITY"@);
    assert(capkw.len() == 10);
    assert(body =~= star + (seq![SP] + (capkw + sp_joined(toks))));
    assert(sp_joined(toks).len() == 0 || sp_joined(toks)[0] == SP) by {
        if toks.len() > 0 {
            assert(sp_joined(toks) == seq![SP] + toks[0] + sp_joined(
                toks.subrange(1, toks.len() as int),
            ));
        }
    }
    assert(forall|i: int| 0 <= i < capkw.len() ==> capkw[i] != SP);
    lemma_split_concat(capkw, sp_joined(toks));
    let tail1 = seq![SP] + (capkw + sp_joined(toks));
    assert(tail1[0] == SP);
    assert(tail1.subrange(0, tail1.len() as int) =~= tail1);
    lemma_split_skip(tail1, SP, 0);
    assert(tail1.subrange(1, tail1.len() as int) =~= capkw + sp_joined(toks));
    lemma_split_concat(star, tail1);
    lemma_split_sp_joined(toks);
    let all = split_tokens(trimmed(line), SP);
    assert(all =~= seq![star, capkw] + toks);
    assert(upper_seq(capkw) =~= capkw);
    assert(all.subrange(2, all.len() as int) =~= toks);
}

/// The capability set of one server, as last replaced wholesale.
pub struct Capabilities {
    pub toks: Vec<Vec<u8>>,
}

impl Capabilities {
    /// Every stored token is a well-formed capability token.
    pub open spec fn wf(self) -> bool {
        forall|i: int| 0 <= i < self.toks@.len() ==> cap_token(#[trigger] views(self.toks@)[i])
    }

    /// The set these capabilities denote.
    pub open spec fn set_view(self) -> Set<Seq<u8>> {
        cap_set(views(self.toks@))
    }

    pub fn new() -> (r: Capabilities)
        ensures
            r.wf(),
            r.toks@.len() == 0,
    {
        Capabilities { toks: Vec::new() }
    }

    /// Keep the well-formed tokens of a parsed capability list.
    pub fn from_tokens(input: Vec<Vec<u8>>) -> (r: Capabilities)
        ensures
            r.wf(),
            views(r.toks@) == filter_cap_tokens(views(input@)),
    {
        let mut kept: Vec<Vec<u8>> = Vec::new();
        let mut i: usize = 0;
        proof {
            reveal(Seq::filter);
            assert(views(input@).subrange(0, 0) =~= Seq::<Seq<u8>>::empty());
            assert(views(kept@) =~= filter_cap_tokens(views(input@).subrange(0, 0)));
        }
        while i < input.len()
            invariant
                0 <= i <= input@.len(),
                views(kept@) == filter_cap_tokens(views(input@).subrange(0, i as int)),
            decreases input.len() - i,
        {
            let tok = &input[i];
            let mut ok = tok.len() > 0;
            let mut j: usize = 0;
            while j < tok.len()
                invariant
                    0 <= j <= tok@.len(),
                    tok@ == views(input@)[i as int],
                    i < input@.len(),
                    ok == (tok@.len() > 0 && forall|k: int|
                        0 <= k < j ==> tok@[k] != SP && tok@[k] != CR && tok@[k] != LF),
                decreases tok.len() - j,
            {
                if tok[j] == SP || tok[j] == CR || tok[j] == LF {
                    ok = false;
                }
                j += 1;
            }
            let ghost pre = views(kept@);
            if ok {
                let copy = sub_bytes(tok.as_slice(), 0, tok.len());
                proof {
                    assert(copy@ =~= tok@);
                }
                let ghost prek = kept@;
                kept.push(copy);
                proof {
                    crate::bytes::lemma_views_push(prek, copy);
                }
            }
            proof {
                let prefix = views(input@).subrange(0, i as int);
                let prefix2 = views(input@).subrange(0, i + 1);
                assert(prefix2.drop_last() =~= prefix);
                assert(prefix2.last() == views(input@)[i as int]);
                reveal(Seq::filter);
                assert(ok == cap_token(views(input@)[i as int]));
                if ok {
                    assert(views(kept@) =~= pre.push(views(input@)[i as int]));
                }
                assert(views(kept@) =~= filter_cap_tokens(prefix2));
            }
            i += 1;
        }
        proof {
            assert(views(input@).subrange(0, input@.len() as int) =~= views(input@));
            reveal(Seq::filter);
            lemma_filter_cap_tokens_wf(views(input@));
        }
        Capabilities { toks: kept }
    }

    /// Membership test, as servers compare: ASCII-case-insensitively.
    pub fn has(&self, name: &[u8]) -> (r: bool)
        ensures
            r == self.set_view().contains(upper_seq(name@)),
    {
        let mut i: usize = 0;
        while i < self.toks.len()
            invariant
                0 <= i <= self.toks@.len(),
                forall|j: int| 0 <= j < i ==> upper_seq(views(self.toks@)[j]) != upper_seq(name@),
            decreases self.toks.len() - i,
        {
            if eq_ignore_case(self.toks[i].as_slice(), name) {
                proof {
                    assert(upper_seq(views(self.toks@)[i as int]) == upper_seq(name@));
                }
                return true;
            }
            i += 1;
        }
        proof {
            if self.set_view().contains(upper_seq(name@)) {
                let j = choose|j: int|
                    0 <= j < views(self.toks@).len() && upper_seq(
                        #[trigger] views(self.toks@)[j],
                    ) == upper_seq(name@);
                assert(upper_seq(views(self.toks@)[j]) != upper_seq(name@));
            }
        }
        false
    }

    /// Serialize to the wire form `* CAPABILITY tok tok ...\r\n`.
    pub fn serialize(&self) -> (r: Vec<u8>)
        requires
            self.wf(),
        ensures
            r@ == cap_line(views(self.toks@)),
            is_capability_line(r@, views(self.toks@)),
    {
        proof {
            reveal_strlit("* CAPABILITY");
        }
        let mut out: Vec<u8> = Vec::new();
        let head: [u8; 12] = [42, 32, 67, 65, 80, 65, 66, 73, 76, 73, 84, 89];
        proof {
            assert(head@ =~= ascii("* CAPABILITY"@));
        }
        let mut i: usize = 0;
        while i < 12
            invariant
                0 <= i <= 12,
                head@ == ascii("* CAPABILITY"@),
                out@ == head@.subrange(0, i as int),
            decreases 12 - i,
        {
            out.push(head[i]);
            proof {
                assert(out@ =~= head@.subrange(0, i + 1));
            }
            i += 1;
        }
        proof {
            assert(out@ =~= ascii("* CAPABILITY"@));
        }
        let mut t: usize = 0;
        while t < self.toks.len()
            invariant
                0 <= t <= self.toks@.len(),
                self.wf(),
                out@ == ascii("* CAPABILITY"@) + sp_joined(views(self.toks@).subrange(0, t as int)),
            decreases self.toks.len() - t,
        {
            out.push(SP);
            let tok = &self.toks[t];
            let mut j: usize = 0;
            let ghost mid = out@;
            while j < tok.len()
                invariant
                    0 <= j <= tok@.len(),
                    tok@ == views(self.toks@)[t as int],
                    t < self.toks@.len(),
                    out@ == mid + tok@.subrange(0, j as int),
                decreases tok.len() - j,
            {
                out.push(tok[j]);
                proof {
                    assert(out@ =~= mid + tok@.subrange(0, j + 1));
                }
                j += 1;
            }
            proof {
                lemma_sp_joined_snoc(views(self.toks@), t as int);
                assert(tok@.subrange(0, tok@.len() as int) =~= tok@);
                assert(out@ =~= ascii("* CAPABILITY"@) + sp_joined(
                    views(self.toks@).subrange(0, t + 1),
                ));
            }
            t += 1;
        }
        out.push(CR);
        out.push(LF);
        proof {
            assert(views(self.toks@).subrange(0, self.toks@.len() as int) =~= views(self.toks@));
            assert(out@ =~= cap_line(views(self.toks@)));
            lemma_capability_round_trip(views(self.toks@));
        }
        out
    }
}

/// Appending one token to a prefix extends its space-joined form.
proof fn lemma_sp_joined_snoc(toks: Seq<Seq<u8>>, t: int)
    requires
        0 <= t < toks.len(),
    ensures
        sp_joined(toks.subrange(0, t + 1)) == sp_joined(toks.subrange(0, t)) + (seq![SP] + toks[t]),
    decreases t,
{
    if t == 0 {
        assert(toks.subrange(0, 1) =~= seq![toks[0]]);
        assert(sp_joined(seq![toks[0]]) == seq![SP] + toks[0] + sp_joined(
            seq![toks[0]].subrange(1, 1),
        ));
        assert(seq![toks[0]].subrange(1, 1) =~= Seq::<Seq<u8>>::empty());
        assert(sp_joined(toks.subrange(0, 1)) =~= sp_joined(toks.subrange(0, 0)) + (seq![SP]
            + toks[0]));
    } else {
        let rest = toks.subrange(1, toks.len() as int);
        lemma_sp_joined_snoc(rest, t - 1);
        let p1 = toks.subrange(0, t + 1);
        let p0 = toks.subrange(0, t);
        assert(p1 =~= seq![toks[0]] + rest.subrange(0, t));
        assert(sp_joined(p1) == seq![SP] + p1[0] + sp_joined(p1.subrange(1, p1.len() as int)));
        assert(p1.subrange(1, p1.len() as int) =~= rest.subrange(0, t));
        assert(sp_joined(p0) == seq![SP] + p0[0] + sp_joined(p0.subrange(1, p0.len() as int)));
        assert(p0.subrange(1, p0.len() as int) =~= rest.subrange(0, t - 1));
        assert(rest[t - 1] == toks[t]);
        assert(sp_joined(p1) =~= sp_joined(p0) + (seq![SP] + toks[t]));
    }
}

} // verus!
