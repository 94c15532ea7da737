//! The two scoring primitives for a (term, document) pair.
//!
//! Term frequency counts the tokens of the lowercased text, split on the space
//! character and trimmed, that are exactly equal to the term. Containment asks
//! whether the term occurs as a contiguous substring anywhere in the lowercased
//! text. The two matching rules are deliberately different: containment governs
//! document frequency, token equality governs term frequency, and a term can be
//! contained in many documents while being an exact token of none.

use vstd::prelude::*;
use vstd::string::StrSliceExecFns;
use crate::text::lower_of;
use crate::text::lowercase;
use crate::text::split_on_spaces;
use crate::text::split_terms;
use crate::text::str_eq;
use crate::text::trim;
use crate::text::trim_str;
use crate::text::lemma_split_tokens_are_subranges;
use crate::text::lemma_trim_is_subrange;

verus! {

/// `p` occurs as a contiguous substring of `t`.
pub open spec fn contains_sub(t: Seq<char>, p: Seq<char>) -> bool {
    exists|i: int| 0 <= i && i + p.len() <= t.len() && #[trigger] t.subrange(i, i + p.len() as int)
        == p
}

/// Whether `needle` matches `hay` exactly at position `i`.
fn matches_at(hay: &str, needle: &str, i: usize) -> (r: bool)
    requires
        i + needle@.len() <= hay@.len(),
        hay@.len() <= usize::MAX,
    ensures
        r == (hay@.subrange(i as int, i as int + needle@.len() as int) == needle@),
{
    let nn = needle.unicode_len();
    let mut j: usize = 0;
    while j < nn
        invariant
            0 <= j <= nn,
            nn == needle@.len(),
            i + nn <= hay@.len(),
            hay@.len() <= usize::MAX,
            forall|k: int| 0 <= k < j ==> hay@[i + k] == needle@[k],
        decreases nn - j,
    {
        if hay.get_char(i + j) != needle.get_char(j) {
            proof {
                assert(hay@.subrange(i as int, i as int + nn as int)[j as int] == hay@[i + j]);
            }
            return false;
        }
        j = j + 1;
    }
    proof {
        assert(hay@.subrange(i as int, i as int + nn as int) =~= needle@);
    }
    true
}

/// Decides substring containment, as [`contains_sub`] describes.
pub fn contains_substring(hay: &str, needle: &str) -> (r: bool)
    ensures
        r == contains_sub(hay@, needle@),
{
    let nh = hay.unicode_len();
    let nn = needle.unicode_len();
    if nn > nh {
        return false;
    }
    let end = nh - nn;
    let mut i: usize = 0;
    loop
        invariant
            0 <= i <= end,
            nn <= nh,
            nh == hay@.len(),
            nn == needle@.len(),
            end == nh - nn,
            forall|k: int| 0 <= k < i ==> #[trigger] hay@.subrange(k, k + nn as int) != needle@,
        decreases end - i,
    {
        if matches_at(hay, needle, i) {
            return true;
        }
        if i == end {
            return false;
        }
        i = i + 1;
    }
}

/// The count of tokens whose trimmed form equals the term.
pub open spec fn count_matches(tokens: Seq<Seq<char>>, term: Seq<char>) -> nat
    decreases tokens.len(),
{
    if tokens.len() == 0 {
        0
    } else {
        count_matches(tokens.drop_last(), term) + if trim(tokens.last()) == term {
            1nat
        } else {
            0nat
        }
    }
}

/// The term frequency of `term` in an already-lowercased text: the number of
/// tokens, split on the space character and trimmed, exactly equal to the term.
pub open spec fn tf_in_lowered(term: Seq<char>, lowered: Seq<char>) -> nat {
    count_matches(split_on_spaces(lowered), term)
}

/// The term frequency of `term` in a document's raw text.
pub open spec fn tf_of(term: Seq<char>, text: Seq<char>) -> nat {
    tf_in_lowered(term, lower_of(text))
}

/// Whether a document's raw text contains `term` once lowercased.
pub open spec fn text_contains(term: Seq<char>, text: Seq<char>) -> bool {
    contains_sub(lower_of(text), term)
}

/// Counts the tokens of an already-lowercased text that equal the term after
/// trimming.
pub fn count_matching_tokens(term: &str, lowered: &str) -> (r: usize)
    ensures
        r == tf_in_lowered(term@, lowered@),
{
    let tokens = split_terms(lowered);
    let ghost dv = tokens.deep_view();
    let mut count: usize = 0;
    let mut i: usize = 0;
    while i < tokens.len()
        invariant
            0 <= i <= tokens@.len(),
            count <= i,
            dv == split_on_spaces(lowered@),
            dv == tokens.deep_view(),
            dv.len() == tokens@.len(),
            count == count_matches(dv.take(i as int), term@),
        decreases tokens@.len() - i,
    {
        proof {
            assert(dv[i as int] == tokens@[i as int]@);
            assert(dv.take(i + 1).drop_last() =~= dv.take(i as int));
            assert(dv.take(i + 1).last() == dv[i as int]);
        }
        let tr = trim_str(tokens[i].as_str());
        if str_eq(tr, term) {
            count = count + 1;
        }
        i = i + 1;
    }
    proof {
        assert(dv.take(tokens@.len() as int) =~= dv);
    }
    count
}

/// The term frequency of `term` in `text`: `text` is lowercased, split on the
/// space character, each token trimmed, and the tokens exactly equal to the
/// term are counted. The count is raw, not normalized by document length.
pub fn calculate_tf(term: &str, text: &str) -> (r: usize)
    ensures
        r == tf_of(term@, text@),
{
    let lowered = lowercase(text);
    count_matching_tokens(term, lowered.as_str())
}

/// Whether `term` occurs as a contiguous substring of the lowercased `text`.
/// A term inside a longer word counts, unlike for term frequency.
pub fn contains_term(term: &str, text: &str) -> (r: bool)
    ensures
        r == text_contains(term@, text@),
{
    let lowered = lowercase(text);
    contains_substring(lowered.as_str(), term)
}

/// A positive match count names a matching token.
proof fn lemma_count_matches_witness(tokens: Seq<Seq<char>>, term: Seq<char>)
    requires
        count_matches(tokens, term) > 0,
    ensures
        exists|k: int| 0 <= k < tokens.len() && trim(#[trigger] tokens[k]) == term,
    decreases tokens.len(),
{
    if trim(tokens.last()) == term {
        assert(trim(tokens[tokens.len() - 1]) == term);
    } else {
        lemma_count_matches_witness(tokens.drop_last(), term);
        let k = choose|k: int|
            0 <= k < tokens.drop_last().len() && trim(#[trigger] tokens.drop_last()[k]) == term;
        assert(trim(tokens[k]) == term);
    }
}

/// A slice of a slice is a slice of the original.
proof fn lemma_subrange_of_subrange(s: Seq<char>, a: int, b: int, c: int, d: int)
    requires
        0 <= a <= b <= s.len(),
        0 <= c <= d <= b - a,
    ensures
        s.subrange(a, b).subrange(c, d) == s.subrange(a + c, a + d),
{
    assert(s.subrange(a, b).subrange(c, d) =~= s.subrange(a + c, a + d));
}

/// If a term is an exact token of a text, it is also contained in that text as
/// a substring: the token is a slice of the text and the trimmed token a slice
/// of the token. Containment therefore bounds term frequency from above, and a
/// term contained nowhere has term frequency zero in every document.
#[verifier::rlimit(50)]
pub(crate) proof fn lemma_match_implies_containment(term: Seq<char>, lowered: Seq<char>)
    ensures
        count_matches(split_on_spaces(lowered), term) > 0 ==> contains_sub(lowered, term),
{
    if count_matches(split_on_spaces(lowered), term) > 0 {
        let tokens = split_on_spaces(lowered);
        lemma_count_matches_witness(tokens, term);
        let k = choose|k: int| 0 <= k < tokens.len() && trim(#[trigger] tokens[k]) == term;
        lemma_split_tokens_are_subranges(lowered);
        let (a, b): (int, int) = choose|a: int, b: int|
            0 <= a <= b <= lowered.len() && #[trigger] tokens[k] == lowered.subrange(a, b);
        lemma_trim_is_subrange(tokens[k]);
        let (c, d): (int, int) = choose|c: int, d: int|
            0 <= c <= d <= tokens[k].len() && trim(tokens[k]) == #[trigger] tokens[k].subrange(
                c,
                d,
            );
        lemma_subrange_of_subrange(lowered, a, b, c, d);
        assert(term == lowered.subrange(a + c, a + d));
        assert(term.len() == d - c);
        assert(a + d == a + c + term.len() as int);
        assert(lowered.subrange(a + c, a + c + term.len() as int) == term);
    }
}

} // verus!
