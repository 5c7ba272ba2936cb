//! Text handling for prefix search: ASCII case folding, trimming of
//! surrounding whitespace, and case-insensitive prefix matching.

use vstd::prelude::*;

verus! {

/// Case folding of a single character: ASCII capital letters map to their
/// lowercase form, everything else is left alone.
pub open spec fn folded_char(c: char) -> char {
    if 'A' <= c && c <= 'Z' {
        (c as u32 + 32) as char
    } else {
        c
    }
}

/// Case folding of a whole text.
pub open spec fn folded(s: Seq<char>) -> Seq<char> {
    s.map_values(|c: char| folded_char(c))
}

/// The characters counted as surrounding whitespace.
pub open spec fn is_space(c: char) -> bool {
    c == ' ' || c == '\t' || c == '\n' || c == '\r'
}

pub open spec fn drop_leading_spaces(s: Seq<char>) -> Seq<char>
    decreases s.len(),
{
    if s.len() > 0 && is_space(s[0]) {
        drop_leading_spaces(s.drop_first())
    } else {
        s
    }
}

pub open spec fn drop_trailing_spaces(s: Seq<char>) -> Seq<char>
    decreases s.len(),
{
    if s.len() > 0 && is_space(s.last()) {
        drop_trailing_spaces(s.drop_last())
    } else {
        s
    }
}

/// A text with its surrounding whitespace removed.
pub open spec fn trimmed(s: Seq<char>) -> Seq<char> {
    drop_trailing_spaces(drop_leading_spaces(s))
}

/// A query matches a word value when, after case folding both, the query is a
/// prefix of the value.
pub open spec fn prefix_matches(query: Seq<char>, value: Seq<char>) -> bool {
    folded(query).is_prefix_of(folded(value))
}

/// Case folding of one character.
pub fn fold_char(c: char) -> (r: char)
    ensures
        r == folded_char(c),
{
    if 'A' <= c && c <= 'Z' {
        ((c as u8) + 32) as char
    } else {
        c
    }
}

fn is_space_char(c: char) -> (r: bool)
    ensures
        r == is_space(c),
{
    c == ' ' || c == '\t' || c == '\n' || c == '\r'
}

proof fn lemma_drop_leading_at(s: Seq<char>, k: int)
    requires
        0 <= k <= s.len(),
        forall|j: int| 0 <= j < k ==> is_space(s[j]),
        k == s.len() || !is_space(s[k]),
    ensures
        drop_leading_spaces(s) == s.subrange(k, s.len() as int),
    decreases k,
{
    if k == 0 {
        assert(s.subrange(0, s.len() as int) =~= s);
    } else {
        assert(is_space(s[0]));
        lemma_drop_leading_at(s.drop_first(), k - 1);
        assert(s.drop_first().subrange(k - 1, s.drop_first().len() as int) =~= s.subrange(
            k,
            s.len() as int,
        ));
    }
}

proof fn lemma_drop_trailing_at(s: Seq<char>, k: int)
    requires
        0 <= k <= s.len(),
        forall|j: int| k <= j < s.len() ==> is_space(s[j]),
        k == 0 || !is_space(s[k - 1]),
    ensures
        drop_trailing_spaces(s) == s.subrange(0, k),
    decreases s.len() - k,
{
    if k == s.len() {
        assert(s.subrange(0, k) =~= s);
    } else {
        assert(is_space(s.last()));
        lemma_drop_trailing_at(s.drop_last(), k);
        assert(s.drop_last().subrange(0, k) =~= s.subrange(0, k));
    }
}

/// Removes surrounding whitespace, as the search path does to its query
/// before matching.
pub fn trim_spaces(s: &str) -> (r: &str)
    ensures
        r@ == trimmed(s@),
{
    let n = s.unicode_len();
    let mut b: usize = 0;
    while b < n && is_space_char(s.get_char(b))
        invariant
            0 <= b <= n,
            n == s@.len(),
            forall|j: int| 0 <= j < b ==> is_space(s@[j]),
        decreases n - b,
    {
        b = b + 1;
    }
    let mut e: usize = n;
    while e > b && is_space_char(s.get_char(e - 1))
        invariant
            b <= e <= n,
            n == s@.len(),
            forall|j: int| e <= j < n ==> is_space(s@[j]),
        decreases e,
    {
        e = e - 1;
    }
    proof {
        lemma_drop_leading_at(s@, b as int);
        let t = s@.subrange(b as int, n as int);
        lemma_drop_trailing_at(t, e - b);
        assert(t.subrange(0, e - b) =~= s@.subrange(b as int, e as int));
    }
    s.substring_char(b, e)
}

/// Case-insensitive prefix test: whether `query` is a prefix of `value` once
/// both are case folded. The query is expected to be trimmed already.
pub fn matches_prefix(query: &str, value: &str) -> (r: bool)
    ensures
        r == prefix_matches(query@, value@),
{
    let nq = query.unicode_len();
    let nv = value.unicode_len();
    if nq > nv {
        return false;
    }
    let mut i: usize = 0;
    while i < nq
        invariant
            0 <= i <= nq <= nv,
            nq == query@.len(),
            nv == value@.len(),
            forall|j: int| 0 <= j < i ==> folded_char(query@[j]) == folded_char(value@[j]),
        decreases nq - i,
    {
        if fold_char(query.get_char(i)) != fold_char(value.get_char(i)) {
            proof {
                assert(folded(query@)[i as int] != folded(value@).subrange(
                    0,
                    query@.len() as int,
                )[i as int]);
            }
            return false;
        }
        i = i + 1;
    }
    proof {
        assert(folded(query@) =~= folded(value@).subrange(0, query@.len() as int));
    }
    true
}

} // verus!
