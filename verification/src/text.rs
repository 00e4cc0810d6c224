//! Splitting byte lines into whitespace-separated tokens and
//! comma-separated fields.

use vstd::prelude::*;
use crate::wire::{find_byte, lemma_find_byte, lemma_find_byte_at, lemma_find_byte_none, NL};

verus! {

/// Space.
pub const SPACE: u8 = 32;

/// Horizontal tab.
pub const TAB: u8 = 9;

/// Carriage return.
pub const CR: u8 = 13;

/// Vertical tab.
pub const VT: u8 = 11;

/// Form feed.
pub const FF: u8 = 12;

/// Field separator `,`.
pub const COMMA: u8 = 44;

/// `b` separates tokens: the ASCII whitespace the protocol can meet.
pub open spec fn is_ws(b: u8) -> bool {
    b == SPACE || b == TAB || b == CR || b == NL || b == VT || b == FF
}

/// Index of the first whitespace byte of `s`, if any.
pub open spec fn find_ws(s: Seq<u8>) -> Option<int>
    decreases s.len(),
{
    if s.len() == 0 {
        None
    } else if is_ws(s[0]) {
        Some(0int)
    } else {
        match find_ws(s.skip(1)) {
            Some(i) => Some(i + 1),
            None => None,
        }
    }
}

/// What [`find_ws`] returns: the first whitespace index, or `None` when no
/// byte is whitespace.
pub proof fn lemma_find_ws(s: Seq<u8>)
    ensures
        match find_ws(s) {
            Some(i) => 0 <= i < s.len() && is_ws(s[i]) && forall|j: int| 0 <= j < i ==> !is_ws(
                s[j],
            ),
            None => forall|j: int| 0 <= j < s.len() ==> !is_ws(s[j]),
        },
    decreases s.len(),
{
    if s.len() > 0 && !is_ws(s[0]) {
        let t = s.skip(1);
        lemma_find_ws(t);
        assert(forall|j: int| 0 <= j < t.len() ==> t[j] == s[j + 1]);
        match find_ws(t) {
            Some(i) => {
                assert(s[i + 1] == t[i]);
                assert forall|j: int| 0 <= j < i + 1 implies !is_ws(s[j]) by {
                    if j > 0 {
                        assert(s[j] == t[j - 1]);
                    }
                }
            },
            None => {
                assert forall|j: int| 0 <= j < s.len() implies !is_ws(s[j]) by {
                    if j > 0 {
                        assert(s[j] == t[j - 1]);
                    }
                }
            },
        }
    }
}

/// Whitespace first occurs in `s` at `i` exactly when [`find_ws`] says so.
pub proof fn lemma_find_ws_at(s: Seq<u8>, i: int)
    requires
        0 <= i < s.len(),
        is_ws(s[i]),
        forall|j: int| 0 <= j < i ==> !is_ws(s[j]),
    ensures
        find_ws(s) == Some(i),
{
    lemma_find_ws(s);
    match find_ws(s) {
        Some(k) => {
            if k < i {
                assert(!is_ws(s[k]));
            } else if k > i {
                assert(!is_ws(s[i]));
            }
        },
        None => {
            assert(!is_ws(s[i]));
        },
    }
}

/// When no byte of `s` is whitespace, [`find_ws`] reports nothing.
pub proof fn lemma_find_ws_none(s: Seq<u8>)
    requires
        forall|j: int| 0 <= j < s.len() ==> !is_ws(s[j]),
    ensures
        find_ws(s) is None,
{
    lemma_find_ws(s);
    match find_ws(s) {
        Some(k) => {
            assert(!is_ws(s[k]));
        },
        None => {},
    }
}

/// Where the token starting at the head of `s` ends: the first whitespace
/// index, or the end of `s`.
pub open spec fn token_end(s: Seq<u8>) -> int {
    match find_ws(s) {
        Some(i) => i,
        None => s.len() as int,
    }
}

/// The whitespace-separated tokens of `s`, in order, with no empty tokens.
pub open spec fn spec_tokens(s: Seq<u8>) -> Seq<Seq<u8>>
    decreases s.len(),
    via spec_tokens_decreases
{
    if s.len() == 0 {
        Seq::<Seq<u8>>::empty()
    } else if is_ws(s[0]) {
        spec_tokens(s.skip(1))
    } else {
        seq![s.take(token_end(s))] + spec_tokens(s.skip(token_end(s)))
    }
}

#[via_fn]
proof fn spec_tokens_decreases(s: Seq<u8>) {
    if s.len() > 0 && !is_ws(s[0]) {
        lemma_find_ws(s);
    }
}

/// The views of a list of byte vectors.
pub open spec fn byte_views(l: Seq<Vec<u8>>) -> Seq<Seq<u8>> {
    l.map_values(|v: Vec<u8>| v@)
}

/// `b` is whitespace.
pub fn is_ws_byte(b: u8) -> (r: bool)
    ensures
        r == is_ws(b),
{
    b == SPACE || b == TAB || b == CR || b == NL || b == VT || b == FF
}

/// Splits a line into its whitespace-separated tokens, exactly as
/// [`spec_tokens`] describes them.
pub fn tokenize(s: &Vec<u8>) -> (r: Vec<Vec<u8>>)
    ensures
        byte_views(r@) == spec_tokens(s@),
{
    let n = s.len();
    let mut r: Vec<Vec<u8>> = Vec::new();
    let mut i: usize = 0;
    proof {
        assert(s@.skip(0) =~= s@);
        assert(byte_views(r@) + spec_tokens(s@) =~= spec_tokens(s@));
    }
    while i < n
        invariant
            i <= n,
            n == s@.len(),
            spec_tokens(s@) == byte_views(r@) + spec_tokens(s@.skip(i as int)),
        decreases n - i,
    {
        if is_ws_byte(s[i]) {
            proof {
                assert(s@.skip(i as int).skip(1) =~= s@.skip(i as int + 1));
            }
            i += 1;
        } else {
            let start = i;
            let mut tok: Vec<u8> = Vec::new();
            while i < n && !is_ws_byte(s[i])
                invariant
                    start <= i <= n,
                    n == s@.len(),
                    tok@ =~= s@.subrange(start as int, i as int),
                    forall|j: int| start <= j < i ==> !is_ws(s@[j]),
                decreases n - i,
            {
                tok.push(s[i]);
                proof {
                    assert(tok@ =~= s@.subrange(start as int, i as int + 1));
                }
                i += 1;
            }
            proof {
                let body = s@.skip(start as int);
                assert(forall|j: int| 0 <= j < body.len() ==> body[j] == s@[j + start]);
                if i < n {
                    assert(is_ws(body[i - start as int]));
                    lemma_find_ws_at(body, i - start as int);
                } else {
                    lemma_find_ws_none(body);
                }
                assert(token_end(body) == i - start as int);
                assert(body.take(i - start as int) =~= s@.subrange(start as int, i as int));
                assert(body.skip(i - start as int) =~= s@.skip(i as int));
                assert(spec_tokens(body) == seq![tok@] + spec_tokens(s@.skip(i as int)));
                assert(byte_views(r@.push(tok)) =~= byte_views(r@) + seq![tok@]);
                assert(byte_views(r@.push(tok)) + spec_tokens(s@.skip(i as int)) =~= byte_views(
                    r@,
                ) + spec_tokens(body));
            }
            r.push(tok);
        }
    }
    proof {
        assert(s@.skip(n as int) =~= Seq::<u8>::empty());
        assert(spec_tokens(s@) =~= byte_views(r@));
    }
    r
}

/// The comma-separated fields of `s`, in order, empties kept: one more
/// field than there are commas.
pub open spec fn split_commas(s: Seq<u8>) -> Seq<Seq<u8>>
    decreases s.len(),
    via split_commas_decreases
{
    match find_byte(s, COMMA) {
        Some(i) => seq![s.take(i)] + split_commas(s.skip(i + 1)),
        None => seq![s],
    }
}

#[via_fn]
proof fn split_commas_decreases(s: Seq<u8>) {
    lemma_find_byte(s, COMMA);
}

/// A split never yields an empty field list.
pub proof fn lemma_split_commas_len(s: Seq<u8>)
    ensures
        split_commas(s).len() >= 1,
    decreases s.len(),
{
    lemma_find_byte(s, COMMA);
}

/// Prefixing comma-free bytes extends the first field and nothing else.
proof fn lemma_split_commas_prepend(p: Seq<u8>, s: Seq<u8>)
    requires
        forall|j: int| 0 <= j < p.len() ==> p[j] != COMMA,
    ensures
        split_commas(p + s).len() == split_commas(s).len(),
        split_commas(p + s) == seq![p + split_commas(s)[0]] + split_commas(s).skip(1),
{
    let w = p + s;
    assert(forall|j: int| 0 <= j < p.len() ==> w[j] == p[j]);
    assert(forall|j: int| 0 <= j < s.len() ==> w[j + p.len()] == s[j]);
    lemma_find_byte(s, COMMA);
    lemma_split_commas_len(s);
    match find_byte(s, COMMA) {
        Some(i) => {
            assert(w[p.len() + i] == COMMA);
            assert forall|j: int| 0 <= j < p.len() + i implies w[j] != COMMA by {
                if j >= p.len() {
                    assert(w[j] == s[j - p.len()]);
                }
            }
            lemma_find_byte_at(w, COMMA, p.len() + i);
            assert(w.take(p.len() + i) =~= p + s.take(i));
            assert(w.skip(p.len() + i + 1) =~= s.skip(i + 1));
            assert(split_commas(w) == seq![p + s.take(i)] + split_commas(s.skip(i + 1)));
            assert(split_commas(s)[0] == s.take(i));
            assert(split_commas(s).skip(1) =~= split_commas(s.skip(i + 1)));
        },
        None => {
            assert forall|j: int| 0 <= j < w.len() implies w[j] != COMMA by {
                if j >= p.len() {
                    assert(w[j] == s[j - p.len()]);
                }
            }
            lemma_find_byte_none(w, COMMA);
            assert(split_commas(w) == seq![w]);
            assert(split_commas(s) == seq![s]);
            assert(split_commas(s)[0] == s);
            assert(split_commas(s).skip(1) =~= Seq::<Seq<u8>>::empty());
            assert(seq![p + s] =~= seq![p + s] + Seq::<Seq<u8>>::empty());
        },
    }
}

/// Splits a field list on commas, exactly as [`split_commas`] describes it.
pub fn split_commas_bytes(s: &Vec<u8>) -> (r: Vec<Vec<u8>>)
    ensures
        byte_views(r@) == split_commas(s@),
{
    let n = s.len();
    let mut r: Vec<Vec<u8>> = Vec::new();
    let mut seg: Vec<u8> = Vec::new();
    let mut i: usize = 0;
    proof {
        assert(s@.skip(0) =~= s@);
        lemma_split_commas_len(s@);
        assert(seg@ + split_commas(s@)[0] =~= split_commas(s@)[0]);
        assert(byte_views(r@) + seq![split_commas(s@)[0]] + split_commas(s@).skip(1) =~= seq![
            split_commas(s@)[0],
        ] + split_commas(s@).skip(1));
        assert(seq![split_commas(s@)[0]] + split_commas(s@).skip(1) =~= split_commas(s@));
    }
    while i < n
        invariant
            i <= n,
            n == s@.len(),
            split_commas(s@) =~= byte_views(r@) + seq![seg@ + split_commas(s@.skip(i as int))[0]]
                + split_commas(s@.skip(i as int)).skip(1),
        decreases n - i,
    {
        let ghost tail = split_commas(s@.skip(i as int));
        let ghost tail1 = split_commas(s@.skip(i as int + 1));
        proof {
            lemma_split_commas_len(s@.skip(i as int + 1));
        }
        if s[i] == COMMA {
            proof {
                lemma_find_byte_at(s@.skip(i as int), COMMA, 0);
                assert(s@.skip(i as int).take(0) =~= Seq::<u8>::empty());
                assert(s@.skip(i as int).skip(1) =~= s@.skip(i as int + 1));
                assert(tail == seq![Seq::<u8>::empty()] + tail1);
                assert(seg@ + tail[0] =~= seg@);
                assert(tail.skip(1) =~= tail1);
                assert(byte_views(r@.push(seg)) =~= byte_views(r@) + seq![seg@]);
            }
            r.push(seg);
            seg = Vec::new();
            proof {
                assert(seg@ + tail1[0] =~= tail1[0]);
                assert(split_commas(s@) =~= byte_views(r@) + seq![seg@ + tail1[0]] + tail1.skip(
                    1,
                ));
            }
        } else {
            let b = s[i];
            proof {
                let p = seq![b];
                assert(forall|j: int| 0 <= j < p.len() ==> p[j] != COMMA);
                assert(p + s@.skip(i as int + 1) =~= s@.skip(i as int));
                lemma_split_commas_prepend(p, s@.skip(i as int + 1));
                assert(tail[0] == p + tail1[0]);
                assert(tail.skip(1) =~= tail1.skip(1));
                assert(seg@.push(b) + tail1[0] =~= seg@ + tail[0]);
            }
            seg.push(b);
        }
        i += 1;
    }
    proof {
        assert(s@.skip(n as int) =~= Seq::<u8>::empty());
        lemma_find_byte_none(Seq::<u8>::empty(), COMMA);
        assert(split_commas(Seq::<u8>::empty()) == seq![Seq::<u8>::empty()]);
        assert(seg@ + Seq::<u8>::empty() =~= seg@);
        assert(byte_views(r@.push(seg)) =~= byte_views(r@) + seq![seg@]);
        assert(byte_views(r@.push(seg)) =~= split_commas(s@));
    }
    r.push(seg);
    r
}

} // verus!
