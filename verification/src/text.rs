//! Character-level text primitives: whitespace trimming, splitting a string on
//! the space character, string equality, and lowercasing.
//!
//! Queries and document contents are compared character by character, so all
//! contracts here are stated over `Seq<char>` views.

use vstd::prelude::*;
use vstd::string::StrSliceExecFns;

verus! {

/// The characters treated as whitespace when a token is trimmed: the Unicode
/// `White_Space` set, the same set `str::trim` removes.
pub open spec fn is_ws(c: char) -> bool {
    ||| c == ' '
    ||| c == '\t'
    ||| c == '\n'
    ||| c == '\u{0b}'
    ||| c == '\u{0c}'
    ||| c == '\r'
    ||| c == '\u{85}'
    ||| c == '\u{a0}'
    ||| c == '\u{1680}'
    ||| c == '\u{2000}'
    ||| c == '\u{2001}'
    ||| c == '\u{2002}'
    ||| c == '\u{2003}'
    ||| c == '\u{2004}'
    ||| c == '\u{2005}'
    ||| c == '\u{2006}'
    ||| c == '\u{2007}'
    ||| c == '\u{2008}'
    ||| c == '\u{2009}'
    ||| c == '\u{200a}'
    ||| c == '\u{2028}'
    ||| c == '\u{2029}'
    ||| c == '\u{202f}'
    ||| c == '\u{205f}'
    ||| c == '\u{3000}'
}

/// Decides whether a character is whitespace in the sense of [`is_ws`].
pub fn is_space_char(c: char) -> (r: bool)
    ensures
        r == is_ws(c),
{
    c == ' ' || c == '\t' || c == '\n' || c == '\u{0b}' || c == '\u{0c}' || c == '\r'
        || c == '\u{85}' || c == '\u{a0}' || c == '\u{1680}' || c == '\u{2000}' || c == '\u{2001}'
        || c == '\u{2002}' || c == '\u{2003}' || c == '\u{2004}' || c == '\u{2005}'
        || c == '\u{2006}' || c == '\u{2007}' || c == '\u{2008}' || c == '\u{2009}'
        || c == '\u{200a}' || c == '\u{2028}' || c == '\u{2029}' || c == '\u{202f}'
        || c == '\u{205f}' || c == '\u{3000}'
}

/// The string with leading and trailing whitespace removed.
pub open spec fn trim(s: Seq<char>) -> Seq<char>
    decreases s.len(),
{
    if s.len() == 0 {
        s
    } else if is_ws(s[0]) {
        trim(s.drop_first())
    } else if is_ws(s.last()) {
        trim(s.drop_last())
    } else {
        s
    }
}

/// A string of whitespace alone trims to the empty string.
proof fn lemma_trim_all_ws(s: Seq<char>)
    requires
        forall|j: int| 0 <= j < s.len() ==> is_ws(s[j]),
    ensures
        trim(s).len() == 0,
    decreases s.len(),
{
    if s.len() > 0 {
        lemma_trim_all_ws(s.drop_first());
    }
}

/// When `a` is the first non-whitespace position and `b` is one past the last,
/// trimming yields exactly the slice between them.
proof fn lemma_trim_bounds(s: Seq<char>, a: int, b: int)
    requires
        0 <= a < b <= s.len(),
        forall|j: int| 0 <= j < a ==> is_ws(s[j]),
        forall|j: int| b <= j < s.len() ==> is_ws(s[j]),
        !is_ws(s[a]),
        !is_ws(s[b - 1]),
    ensures
        trim(s) == s.subrange(a, b),
    decreases s.len(),
{
    if a > 0 {
        lemma_trim_bounds(s.drop_first(), a - 1, b - 1);
        assert(s.drop_first().subrange(a - 1, b - 1) =~= s.subrange(a, b));
    } else if b < s.len() {
        assert(is_ws(s.last()));
        lemma_trim_bounds(s.drop_last(), a, b);
        assert(s.drop_last().subrange(a, b) =~= s.subrange(a, b));
    } else {
        assert(!is_ws(s[0]));
        assert(!is_ws(s.last()));
        assert(s.subrange(0, s.len() as int) =~= s);
    }
}

/// The trimmed string is a contiguous slice of the original.
pub(crate) proof fn lemma_trim_is_subrange(s: Seq<char>)
    ensures
        exists|a: int, b: int|
            0 <= a <= b <= s.len() && trim(s) == #[trigger] s.subrange(a, b),
    decreases s.len(),
{
    if s.len() == 0 {
        assert(trim(s) == s.subrange(0, 0));
    } else if is_ws(s[0]) {
        lemma_trim_is_subrange(s.drop_first());
        let (a, b): (int, int) = choose|a: int, b: int|
            0 <= a <= b <= s.drop_first().len() && trim(s.drop_first()) == #[trigger] s.drop_first().subrange(a, b);
        assert(s.drop_first().subrange(a, b) =~= s.subrange(a + 1, b + 1));
    } else if is_ws(s.last()) {
        lemma_trim_is_subrange(s.drop_last());
        let (a, b): (int, int) = choose|a: int, b: int|
            0 <= a <= b <= s.drop_last().len() && trim(s.drop_last()) == #[trigger] s.drop_last().subrange(a, b);
        assert(s.drop_last().subrange(a, b) =~= s.subrange(a, b));
    } else {
        assert(trim(s) == s.subrange(0, s.len() as int)) by {
            assert(s.subrange(0, s.len() as int) =~= s);
        }
    }
}

/// Removes leading and trailing whitespace, as [`trim`] describes.
pub fn trim_str(s: &str) -> (r: &str)
    ensures
        r@ == trim(s@),
{
    let n = s.unicode_len();
    let mut a: usize = 0;
    while a < n && is_space_char(s.get_char(a))
        invariant
            0 <= a <= n,
            n == s@.len(),
            forall|j: int| 0 <= j < a ==> is_ws(s@[j]),
        decreases n - a,
    {
        a = a + 1;
    }
    if a == n {
        proof {
            lemma_trim_all_ws(s@);
            assert(s@.subrange(n as int, n as int) =~= trim(s@));
        }
        return s.substring_char(n, n);
    }
    let mut b: usize = n;
    while b > a && is_space_char(s.get_char(b - 1))
        invariant
            a <= b <= n,
            n == s@.len(),
            a < n,
            !is_ws(s@[a as int]),
            forall|j: int| b <= j < n ==> is_ws(s@[j]),
        decreases b,
    {
        b = b - 1;
    }
    proof {
        assert(b > a);
        lemma_trim_bounds(s@, a as int, b as int);
    }
    s.substring_char(a, b)
}

/// Splitting on the space character: greedy, left to right, keeping empty
/// tokens, exactly as `str::split(' ')` behaves. The empty string splits into
/// one empty token.
pub open spec fn split_on_spaces(s: Seq<char>) -> Seq<Seq<char>>
    decreases s.len(),
{
    if s.len() == 0 {
        seq![s]
    } else if s[0] == ' ' {
        seq![Seq::<char>::empty()] + split_on_spaces(s.drop_first())
    } else {
        let rest = split_on_spaces(s.drop_first());
        seq![seq![s[0]] + rest[0]] + rest.drop_first()
    }
}

/// A split always yields at least one token.
proof fn lemma_split_nonempty(s: Seq<char>)
    ensures
        split_on_spaces(s).len() >= 1,
    decreases s.len(),
{
    if s.len() > 0 {
        lemma_split_nonempty(s.drop_first());
    }
}

/// A string without spaces splits into a single token: itself.
proof fn lemma_split_no_space(s: Seq<char>)
    requires
        forall|j: int| 0 <= j < s.len() ==> s[j] != ' ',
    ensures
        split_on_spaces(s) == seq![s],
    decreases s.len(),
{
    if s.len() == 0 {
    } else {
        lemma_split_no_space(s.drop_first());
        assert(seq![s[0]] + s.drop_first() =~= s);
        assert(split_on_spaces(s) =~= seq![s]);
    }
}

/// With the first space at position `i`, the split is the prefix before it
/// followed by the split of the remainder after it.
proof fn lemma_split_first_space(s: Seq<char>, i: int)
    requires
        0 <= i < s.len(),
        s[i] == ' ',
        forall|j: int| 0 <= j < i ==> s[j] != ' ',
    ensures
        split_on_spaces(s) == seq![s.take(i)] + split_on_spaces(s.skip(i + 1)),
    decreases i,
{
    if i == 0 {
        assert(s.take(0) =~= Seq::<char>::empty());
        assert(s.skip(1) =~= s.drop_first());
        assert(split_on_spaces(s) =~= seq![s.take(0)] + split_on_spaces(s.skip(1)));
    } else {
        let d = s.drop_first();
        lemma_split_first_space(d, i - 1);
        lemma_split_nonempty(d.skip(i));
        assert(d.take(i - 1) == (seq![d.take(i - 1)] + split_on_spaces(d.skip(i)))[0]);
        assert(seq![s[0]] + d.take(i - 1) =~= s.take(i));
        assert(d.skip(i) =~= s.skip(i + 1));
        assert((seq![d.take(i - 1)] + split_on_spaces(d.skip(i))).drop_first() =~= split_on_spaces(
            s.skip(i + 1),
        ));
        assert(split_on_spaces(s) =~= seq![s.take(i)] + split_on_spaces(s.skip(i + 1)));
    }
}

/// Every token of a split is a contiguous slice of the original string.
pub(crate) proof fn lemma_split_tokens_are_subranges(s: Seq<char>)
    ensures
        forall|k: int|
            0 <= k < split_on_spaces(s).len() ==> exists|a: int, b: int|
                0 <= a <= b <= s.len() && #[trigger] split_on_spaces(s)[k] == s.subrange(a, b),
    decreases s.len(),
{
    if s.len() == 0 {
        assert(split_on_spaces(s)[0] == s.subrange(0, 0));
    } else if s[0] == ' ' {
        let d = s.drop_first();
        lemma_split_tokens_are_subranges(d);
        assert forall|k: int| 0 <= k < split_on_spaces(s).len() implies exists|a: int, b: int|
            0 <= a <= b <= s.len() && #[trigger] split_on_spaces(s)[k] == s.subrange(a, b) by {
            if k == 0 {
                assert(split_on_spaces(s)[0] == s.subrange(0, 0));
            } else {
                assert(split_on_spaces(s)[k] == split_on_spaces(d)[k - 1]);
                let (a, b): (int, int) = choose|a: int, b: int|
                    0 <= a <= b <= d.len() && #[trigger] split_on_spaces(d)[k - 1] == d.subrange(
                        a,
                        b,
                    );
                assert(d.subrange(a, b) =~= s.subrange(a + 1, b + 1));
            }
        }
    } else {
        let d = s.drop_first();
        lemma_split_tokens_are_subranges(d);
        lemma_split_nonempty(d);
        assert forall|k: int| 0 <= k < split_on_spaces(s).len() implies exists|a: int, b: int|
            0 <= a <= b <= s.len() && #[trigger] split_on_spaces(s)[k] == s.subrange(a, b) by {
            if k == 0 {
                let (a, b): (int, int) = choose|a: int, b: int|
                    0 <= a <= b <= d.len() && #[trigger] split_on_spaces(d)[0] == d.subrange(a, b);
                if a == 0 {
                    assert(seq![s[0]] + d.subrange(0, b) =~= s.subrange(0, b + 1));
                    assert(split_on_spaces(s)[0] == s.subrange(0, b + 1));
                } else {
                    // The first token of the tail split starts at the tail's
                    // start only when a == 0; otherwise it is still some slice,
                    // because the first token is a prefix of the tail. Either
                    // way the witness shifts by one.
                    assert(seq![s[0]] + d.subrange(a, b) =~= seq![s[0]] + d.subrange(a, b));
                    assert(split_on_spaces(s)[0] == seq![s[0]] + d.subrange(a, b));
                    assert(seq![s[0]] + d.subrange(a, b) == s.subrange(0, 1) + s.subrange(
                        a + 1,
                        b + 1,
                    )) by {
                        assert(seq![s[0]] =~= s.subrange(0, 1));
                        assert(d.subrange(a, b) =~= s.subrange(a + 1, b + 1));
                    }
                    // A concatenation of two slices need not be a slice; fall
                    // back to the prefix shape of the first token.
                    lemma_split_first_token_prefix(d);
                    let p = choose|p: int| 0 <= p <= d.len() && split_on_spaces(d)[0] == d.take(p);
                    assert(seq![s[0]] + d.take(p) =~= s.subrange(0, p + 1));
                    assert(split_on_spaces(s)[0] == s.subrange(0, p + 1));
                }
            } else {
                assert(split_on_spaces(s)[k] == split_on_spaces(d)[k]);
                let (a, b): (int, int) = choose|a: int, b: int|
                    0 <= a <= b <= d.len() && #[trigger] split_on_spaces(d)[k] == d.subrange(a, b);
                assert(d.subrange(a, b) =~= s.subrange(a + 1, b + 1));
            }
        }
    }
}

/// The first token of a split is a prefix of the string.
proof fn lemma_split_first_token_prefix(s: Seq<char>)
    ensures
        exists|p: int| 0 <= p <= s.len() && split_on_spaces(s)[0] == s.take(p),
    decreases s.len(),
{
    if s.len() == 0 {
        assert(s.take(0) =~= s);
        assert(split_on_spaces(s)[0] == s.take(0));
    } else if s[0] == ' ' {
        assert(s.take(0) =~= Seq::<char>::empty());
        assert(split_on_spaces(s)[0] == s.take(0));
    } else {
        let d = s.drop_first();
        lemma_split_first_token_prefix(d);
        let p = choose|p: int| 0 <= p <= d.len() && split_on_spaces(d)[0] == d.take(p);
        assert(seq![s[0]] + d.take(p) =~= s.take(p + 1));
        assert(split_on_spaces(s)[0] == s.take(p + 1));
    }
}

/// Splits a string on the space character into its tokens.
pub fn split_terms(s: &str) -> (r: Vec<String>)
    ensures
        r.deep_view() == split_on_spaces(s@),
{
    let n = s.unicode_len();
    let mut r: Vec<String> = Vec::new();
    proof {
        assert(r.deep_view() =~= Seq::<Seq<char>>::empty());
        assert(s@.skip(0) =~= s@);
        assert(r.deep_view() + split_on_spaces(s@) =~= split_on_spaces(s@));
    }
    let mut start: usize = 0;
    let mut i: usize = 0;
    while i < n
        invariant
            start <= i <= n,
            n == s@.len(),
            split_on_spaces(s@) == r.deep_view() + split_on_spaces(s@.skip(start as int)),
            forall|j: int| start <= j < i ==> s@[j] != ' ',
        decreases n - i,
    {
        if s.get_char(i) == ' ' {
            let tok = s.substring_char(start, i).to_owned();
            proof {
                let tail = s@.skip(start as int);
                lemma_split_first_space(tail, i - start);
                assert(tail.take(i - start) =~= s@.subrange(start as int, i as int));
                assert(tail.skip(i - start + 1) =~= s@.skip(i + 1));
            }
            let ghost old_dv = r.deep_view();
            r.push(tok);
            proof {
                assert(r.deep_view() =~= old_dv.push(tok@));
                assert(r.deep_view() + split_on_spaces(s@.skip(i + 1)) =~= old_dv + (seq![
                    s@.subrange(start as int, i as int),
                ] + split_on_spaces(s@.skip(i + 1))));
            }
            start = i + 1;
        }
        i = i + 1;
    }
    let tok = s.substring_char(start, n).to_owned();
    proof {
        let tail = s@.skip(start as int);
        lemma_split_no_space(tail);
        assert(tail =~= s@.subrange(start as int, n as int));
    }
    let ghost old_dv = r.deep_view();
    r.push(tok);
    proof {
        assert(r.deep_view() =~= old_dv.push(tok@));
        assert(r.deep_view() =~= old_dv + seq![s@.subrange(start as int, n as int)]);
    }
    r
}

/// Compares two strings character by character.
pub fn str_eq(a: &str, b: &str) -> (r: bool)
    ensures
        r == (a@ == b@),
{
    let na = a.unicode_len();
    let nb = b.unicode_len();
    if na != nb {
        return false;
    }
    let mut i: usize = 0;
    while i < na
        invariant
            0 <= i <= na,
            na == a@.len(),
            nb == b@.len(),
            na == nb,
            forall|j: int| 0 <= j < i ==> a@[j] == b@[j],
        decreases na - i,
    {
        if a.get_char(i) != b.get_char(i) {
            return false;
        }
        i = i + 1;
    }
    proof {
        assert(a@ =~= b@);
    }
    true
}

/// What `str::to_lowercase` returns for a given sequence of characters: a
/// function of the characters alone, left unspecified here.
pub uninterp spec fn lower_of(s: Seq<char>) -> Seq<char>;

/// Relies on `str::to_lowercase`: its result depends only on the characters of
/// the input, so it is named by [`lower_of`].
#[verifier::external_body]
pub(crate) fn lowercase(s: &str) -> (r: String)
    ensures
        r@ == lower_of(s@),
{
    s.to_lowercase()
}

/// A query term as the scorer sees it: trimmed, then lowercased.
pub open spec fn norm_term(t: Seq<char>) -> Seq<char> {
    lower_of(trim(t))
}

/// Normalizes a raw query term: trims whitespace, then lowercases.
pub fn normalize_term(t: &str) -> (r: String)
    ensures
        r@ == norm_term(t@),
{
    let trimmed = trim_str(t);
    lowercase(trimmed)
}

} // verus!
