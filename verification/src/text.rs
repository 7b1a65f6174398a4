//! Text primitives for path matching and result ordering: case folding,
//! whitespace trimming, substring containment, and a lexicographic order on
//! character sequences.

use vstd::prelude::*;

verus! {

/// The case-folded (lowercase) form of a character sequence, as
/// `str::to_lowercase` computes it.
pub uninterp spec fn lower_of(s: Seq<char>) -> Seq<char>;

/// The text with leading and trailing whitespace removed, as `str::trim`
/// computes it.
pub uninterp spec fn trim_of(s: Seq<char>) -> Seq<char>;

/// Relies on `str::to_lowercase`: returns the lowercase equivalent of the
/// text, a function of the characters alone.
#[verifier::external_body]
pub fn fold_case(s: &str) -> (r: String)
    ensures
        r@ == lower_of(s@),
{
    s.to_lowercase()
}

/// Relies on `str::trim`: returns the text with leading and trailing
/// whitespace removed, a function of the characters alone.
#[verifier::external_body]
pub fn trim_text(s: &str) -> (r: &str)
    ensures
        r@ == trim_of(s@),
{
    s.trim()
}

/// The needle occurs in the haystack starting at position `i`.
pub open spec fn contains_at(hay: Seq<char>, needle: Seq<char>, i: int) -> bool {
    &&& 0 <= i
    &&& i + needle.len() <= hay.len()
    &&& hay.subrange(i, i + needle.len() as int) == needle
}

/// The needle occurs somewhere in the haystack.
pub open spec fn seq_contains(hay: Seq<char>, needle: Seq<char>) -> bool {
    exists|i: int| contains_at(hay, needle, i)
}

/// A path matches a (already case-folded) query when the case-folded path
/// text contains the query as a substring.
pub open spec fn spec_path_matches(path: Seq<char>, folded_query: Seq<char>) -> bool {
    seq_contains(lower_of(path), folded_query)
}

/// Strict lexicographic order on character sequences by code point, the
/// order in which match lists are sorted.
pub open spec fn lex_lt(a: Seq<char>, b: Seq<char>) -> bool
    decreases a.len(),
{
    if b.len() == 0 {
        false
    } else if a.len() == 0 {
        true
    } else if (a[0] as int) < (b[0] as int) {
        true
    } else if a[0] == b[0] {
        lex_lt(a.drop_first(), b.drop_first())
    } else {
        false
    }
}

/// The order is asymmetric: `a` before `b` excludes `b` before `a`.
pub proof fn lemma_lex_lt_asymmetric(a: Seq<char>, b: Seq<char>)
    requires
        lex_lt(a, b),
    ensures
        !lex_lt(b, a),
        a != b,
    decreases a.len(),
{
    if a.len() > 0 && b.len() > 0 && a[0] == b[0] {
        lemma_lex_lt_asymmetric(a.drop_first(), b.drop_first());
        assert(a != b) by {
            if a == b {
                assert(a.drop_first() == b.drop_first());
            }
        }
    } else {
        assert(a != b) by {
            if a == b {
                assert(a.len() == b.len());
            }
        }
    }
}

/// The order is transitive.
pub proof fn lemma_lex_lt_transitive(a: Seq<char>, b: Seq<char>, c: Seq<char>)
    requires
        lex_lt(a, b),
        lex_lt(b, c),
    ensures
        lex_lt(a, c),
    decreases a.len(),
{
    if a.len() > 0 && b.len() > 0 && c.len() > 0 {
        if a[0] == b[0] && b[0] == c[0] {
            lemma_lex_lt_transitive(a.drop_first(), b.drop_first(), c.drop_first());
        }
    }
}

/// Comparing two sequences that agree on their first `i` characters is
/// comparing what remains after those characters.
proof fn lemma_lex_lt_skip(a: Seq<char>, b: Seq<char>, i: int)
    requires
        0 <= i <= a.len(),
        i <= b.len(),
        forall|j: int| 0 <= j < i ==> a[j] == b[j],
    ensures
        lex_lt(a, b) == lex_lt(a.skip(i), b.skip(i)),
    decreases i,
{
    if i > 0 {
        assert(a[0] == b[0]);
        lemma_lex_lt_skip(a.drop_first(), b.drop_first(), i - 1);
        assert(a.drop_first().skip(i - 1) =~= a.skip(i));
        assert(b.drop_first().skip(i - 1) =~= b.skip(i));
    } else {
        assert(a.skip(0) =~= a);
        assert(b.skip(0) =~= b);
    }
}

/// The result of a three-way comparison.
pub enum Cmp {
    Lt,
    Eq,
    Gt,
}

/// Three-way lexicographic comparison of two strings by code point.
pub fn str_compare(a: &str, b: &str) -> (c: Cmp)
    ensures
        c is Lt <==> lex_lt(a@, b@),
        c is Eq <==> a@ == b@,
        c is Gt <==> lex_lt(b@, a@),
{
    let a_len = a.unicode_len();
    let b_len = b.unicode_len();
    let min_len: usize = if a_len < b_len { a_len } else { b_len };
    let mut i: usize = 0;
    while i < min_len
        invariant
            a_len == a@.len(),
            b_len == b@.len(),
            min_len <= a_len,
            min_len <= b_len,
            0 <= i <= min_len,
            forall|j: int| 0 <= j < i ==> a@[j] == b@[j],
        decreases min_len - i,
    {
        let ca = a.get_char(i);
        let cb = b.get_char(i);
        if (ca as u32) < (cb as u32) {
            proof {
                lemma_lex_lt_skip(a@, b@, i as int);
                lemma_lex_lt_asymmetric(a@, b@);
            }
            return Cmp::Lt;
        }
        if (cb as u32) < (ca as u32) {
            proof {
                lemma_lex_lt_skip(b@, a@, i as int);
                lemma_lex_lt_asymmetric(b@, a@);
            }
            return Cmp::Gt;
        }
        i = i + 1;
    }
    if a_len < b_len {
        proof {
            lemma_lex_lt_skip(a@, b@, a_len as int);
            lemma_lex_lt_asymmetric(a@, b@);
        }
        Cmp::Lt
    } else if b_len < a_len {
        proof {
            lemma_lex_lt_skip(b@, a@, b_len as int);
            lemma_lex_lt_asymmetric(b@, a@);
        }
        Cmp::Gt
    } else {
        proof {
            assert(a@ =~= b@);
            lemma_lex_lt_skip(a@, b@, a_len as int);
        }
        Cmp::Eq
    }
}

/// Whether the needle occurs in the haystack starting at position `i`.
fn occurs_at(hay: &str, needle: &str, hay_len: usize, needle_len: usize, i: usize) -> (r: bool)
    requires
        hay_len == hay@.len(),
        needle_len == needle@.len(),
        i + needle_len <= hay_len,
    ensures
        r == contains_at(hay@, needle@, i as int),
{
    let mut j: usize = 0;
    while j < needle_len
        invariant
            hay_len == hay@.len(),
            needle_len == needle@.len(),
            i + needle_len <= hay_len,
            0 <= j <= needle_len,
            forall|k: int| 0 <= k < j ==> hay@[i + k] == needle@[k],
        decreases needle_len - j,
    {
        let ch = hay.get_char(i + j);
        let cn = needle.get_char(j);
        if ch as u32 != cn as u32 {
            proof {
                assert(hay@[i + j] != needle@[j as int]);
                assert(hay@.subrange(i as int, i + needle@.len() as int)[j as int] == hay@[i + j]);
            }
            return false;
        }
        j = j + 1;
    }
    proof {
        assert(hay@.subrange(i as int, i + needle@.len() as int) =~= needle@);
    }
    true
}

/// Whether the needle occurs anywhere in the haystack.
pub fn substring_in(hay: &str, needle: &str) -> (r: bool)
    ensures
        r == seq_contains(hay@, needle@),
{
    let hay_len = hay.unicode_len();
    let needle_len = needle.unicode_len();
    if needle_len > hay_len {
        proof {
            assert(forall|i: int| !contains_at(hay@, needle@, i));
        }
        return false;
    }
    let last: usize = hay_len - needle_len;
    let mut i: usize = 0;
    loop
        invariant
            hay_len == hay@.len(),
            needle_len == needle@.len(),
            needle_len <= hay_len,
            last == hay_len - needle_len,
            0 <= i <= last,
            forall|k: int| 0 <= k < i ==> !contains_at(hay@, needle@, k),
        decreases last - i,
    {
        if occurs_at(hay, needle, hay_len, needle_len, i) {
            return true;
        }
        if i == last {
            proof {
                assert(forall|k: int| k > last ==> !contains_at(hay@, needle@, k));
            }
            return false;
        }
        i = i + 1;
    }
}

/// A path matches when its case-folded full text contains the (already
/// case-folded) query as a substring.
pub fn path_matches(path: &str, folded_query: &str) -> (r: bool)
    ensures
        r == spec_path_matches(path@, folded_query@),
{
    let lowered = fold_case(path);
    substring_in(lowered.as_str(), folded_query)
}

} // verus!
