//! The ranking engine.
//!
//! For a query split into terms and a corpus of `N` documents, each document's
//! relevance is `Σ tf(term, doc) · log2(N / df(term))` over the query's terms.
//! The factors the sum is built from are exact integer counts, and this module
//! computes them and proves them correct: `tf` by exact token equality and
//! `df` by substring containment. The logarithms and the sum itself are
//! floating-point work done by the caller; a score is handed back for sorting
//! as an order-preserving integer key, so the descending sort is verified
//! here as well.
//!
//! One numeric edge case shapes the whole result: a term contained in no
//! document has `df = 0`, its inverse document frequency is infinite, and its
//! token count is zero everywhere, so every document's total accumulates an
//! undefined zero-times-infinity product and is dropped. A query with such a
//! term therefore returns no results at all, which [`rank_documents`] decides
//! exactly.

use vstd::prelude::*;
use vstd::multiset::Multiset;
use crate::corpus::Document;
use crate::scorer::calculate_tf;
use crate::scorer::contains_term;
use crate::scorer::lemma_match_implies_containment;
use crate::scorer::text_contains;
use crate::scorer::tf_of;
use crate::text::norm_term;
use crate::text::normalize_term;
use crate::text::split_on_spaces;
use crate::text::split_terms;

verus! {

broadcast use vstd::seq_lib::group_to_multiset_ensures;

/// The document frequency of a (normalized) term: how many documents of the
/// corpus contain it as a substring of their lowercased text.
pub open spec fn df_of(term: Seq<char>, docs: Seq<Document>) -> nat
    decreases docs.len(),
{
    if docs.len() == 0 {
        0
    } else {
        df_of(term, docs.drop_last()) + if text_contains(term, docs.last().text@) {
            1nat
        } else {
            0nat
        }
    }
}

/// Counts the documents whose lowercased text contains `term` as a substring.
pub fn document_frequency(term: &str, docs: &Vec<Document>) -> (r: usize)
    ensures
        r == df_of(term@, docs@),
{
    let mut count: usize = 0;
    let mut i: usize = 0;
    while i < docs.len()
        invariant
            0 <= i <= docs@.len(),
            count <= i,
            count == df_of(term@, docs@.take(i as int)),
        decreases docs@.len() - i,
    {
        proof {
            assert(docs@.take(i + 1).drop_last() =~= docs@.take(i as int));
            assert(docs@.take(i + 1).last() == docs@[i as int]);
        }
        if contains_term(term, docs[i].text.as_str()) {
            count = count + 1;
        }
        i = i + 1;
    }
    proof {
        assert(docs@.take(docs@.len() as int) =~= docs@);
    }
    count
}

/// One term's exact statistics against one document: the token count of the
/// term in the document (`tf`) and the number of corpus documents containing
/// the term (`df`).
#[derive(PartialEq, Eq, Structural, Clone, Copy, Debug)]
pub struct TermEntry {
    pub tf: usize,
    pub df: usize,
}

/// One document's row of the score table: its path and one entry per query
/// term, in query order.
pub struct DocScore {
    pub path: String,
    pub entries: Vec<TermEntry>,
}

/// `m` is the exact score table for `terms` against `docs`: one row per
/// document in corpus order, one entry per term in query order, each entry
/// carrying the true token count and the true document frequency of the
/// normalized term.
pub open spec fn models(m: Seq<DocScore>, terms: Seq<Seq<char>>, docs: Seq<Document>) -> bool {
    &&& m.len() == docs.len()
    &&& forall|i: int| 0 <= i < docs.len() ==> (#[trigger] m[i]).path@ == docs[i].path@
    &&& forall|i: int| 0 <= i < docs.len() ==> (#[trigger] m[i]).entries@.len() == terms.len()
    &&& forall|i: int, j: int|
        0 <= i < docs.len() && 0 <= j < terms.len() ==> (#[trigger] m[i].entries@[j]).tf == tf_of(
            norm_term(terms[j]),
            docs[i].text@,
        ) && m[i].entries@[j].df == df_of(norm_term(terms[j]), docs)
}

/// A normalized term paired with its document frequency, computed once per
/// query term.
struct TermStat {
    term: String,
    df: usize,
}

/// Builds the score table for the raw `terms` against `docs`: each term is
/// trimmed and lowercased, then every document receives the term's exact
/// token count and the term's document frequency over the whole corpus. The
/// document frequency is computed once per term; recomputing it per document,
/// as a naive nested scan would, could not change any entry because the
/// corpus does not change mid-query.
pub fn score_documents(terms: &Vec<String>, docs: &Vec<Document>) -> (r: Vec<DocScore>)
    ensures
        models(r@, terms.deep_view(), docs@),
{
    let ghost tdv = terms.deep_view();
    let mut stats: Vec<TermStat> = Vec::new();
    let mut j: usize = 0;
    while j < terms.len()
        invariant
            0 <= j <= terms@.len(),
            tdv == terms.deep_view(),
            tdv.len() == terms@.len(),
            stats@.len() == j,
            forall|k: int|
                0 <= k < j ==> (#[trigger] stats@[k]).term@ == norm_term(tdv[k]) && stats@[k].df
                    == df_of(norm_term(tdv[k]), docs@),
        decreases terms@.len() - j,
    {
        proof {
            assert(tdv[j as int] == terms@[j as int]@);
        }
        let nt = normalize_term(terms[j].as_str());
        let dfj = document_frequency(nt.as_str(), docs);
        stats.push(TermStat { term: nt, df: dfj });
        j = j + 1;
    }
    let mut out: Vec<DocScore> = Vec::new();
    let mut i: usize = 0;
    while i < docs.len()
        invariant
            0 <= i <= docs@.len(),
            tdv == terms.deep_view(),
            tdv.len() == terms@.len(),
            stats@.len() == tdv.len(),
            forall|k: int|
                0 <= k < stats@.len() ==> (#[trigger] stats@[k]).term@ == norm_term(tdv[k])
                    && stats@[k].df == df_of(norm_term(tdv[k]), docs@),
            out@.len() == i,
            forall|a: int| 0 <= a < i ==> (#[trigger] out@[a]).path@ == docs@[a].path@,
            forall|a: int| 0 <= a < i ==> (#[trigger] out@[a]).entries@.len() == tdv.len(),
            forall|a: int, b: int|
                0 <= a < i && 0 <= b < tdv.len() ==> (#[trigger] out@[a].entries@[b]).tf == tf_of(
                    norm_term(tdv[b]),
                    docs@[a].text@,
                ) && out@[a].entries@[b].df == df_of(norm_term(tdv[b]), docs@),
        decreases docs@.len() - i,
    {
        let mut entries: Vec<TermEntry> = Vec::new();
        let mut b: usize = 0;
        while b < stats.len()
            invariant
                0 <= b <= stats@.len(),
                0 <= i < docs@.len(),
                tdv.len() == stats@.len(),
                forall|k: int|
                    0 <= k < stats@.len() ==> (#[trigger] stats@[k]).term@ == norm_term(tdv[k])
                        && stats@[k].df == df_of(norm_term(tdv[k]), docs@),
                entries@.len() == b,
                forall|k: int|
                    0 <= k < b ==> (#[trigger] entries@[k]).tf == tf_of(
                        norm_term(tdv[k]),
                        docs@[i as int].text@,
                    ) && entries@[k].df == df_of(norm_term(tdv[k]), docs@),
            decreases stats@.len() - b,
        {
            let tf = calculate_tf(stats[b].term.as_str(), docs[i].text.as_str());
            entries.push(TermEntry { tf, df: stats[b].df });
            b = b + 1;
        }
        out.push(DocScore { path: docs[i].path.clone(), entries });
        i = i + 1;
    }
    out
}

/// Some query term, once normalized, is contained in no document at all.
pub open spec fn some_term_absent(terms: Seq<Seq<char>>, docs: Seq<Document>) -> bool {
    exists|j: int| 0 <= j < terms.len() && df_of(norm_term(#[trigger] terms[j]), docs) == 0
}

/// Decides whether any of the raw terms is, once normalized, contained in no
/// document of the corpus.
pub fn has_absent_term(terms: &Vec<String>, docs: &Vec<Document>) -> (r: bool)
    ensures
        r == some_term_absent(terms.deep_view(), docs@),
{
    let ghost tdv = terms.deep_view();
    let mut j: usize = 0;
    while j < terms.len()
        invariant
            0 <= j <= terms@.len(),
            tdv == terms.deep_view(),
            tdv.len() == terms@.len(),
            forall|k: int| 0 <= k < j ==> df_of(norm_term(#[trigger] tdv[k]), docs@) != 0,
        decreases terms@.len() - j,
    {
        proof {
            assert(tdv[j as int] == terms@[j as int]@);
        }
        let nt = normalize_term(terms[j].as_str());
        let dfj = document_frequency(nt.as_str(), docs);
        if dfj == 0 {
            return true;
        }
        j = j + 1;
    }
    false
}

/// The outcome of scoring a query: either every document's total is undefined
/// because some term is absent from the whole corpus — the result list is
/// empty — or the exact score table from which every total is computed.
pub enum RankOutcome {
    Empty,
    Scored(Vec<DocScore>),
}

/// Scores a raw query string against the corpus. The query splits on the
/// space character into terms, each term is trimmed and lowercased, and the
/// outcome is [`RankOutcome::Empty`] exactly when some term has document
/// frequency zero — the case in which every document's total degenerates and
/// the served result list is empty — and otherwise the exact score table.
pub fn rank_documents(query: &str, docs: &Vec<Document>) -> (r: RankOutcome)
    ensures
        match r {
            RankOutcome::Empty => some_term_absent(split_on_spaces(query@), docs@),
            RankOutcome::Scored(m) => !some_term_absent(split_on_spaces(query@), docs@) && models(
                m@,
                split_on_spaces(query@),
                docs@,
            ),
        },
{
    let terms = split_terms(query);
    if has_absent_term(&terms, docs) {
        RankOutcome::Empty
    } else {
        RankOutcome::Scored(score_documents(&terms, docs))
    }
}

/// A term with document frequency zero is contained in no document.
proof fn lemma_df_zero_no_containment(term: Seq<char>, docs: Seq<Document>)
    requires
        df_of(term, docs) == 0,
    ensures
        forall|i: int| 0 <= i < docs.len() ==> !text_contains(term, (#[trigger] docs[i]).text@),
    decreases docs.len(),
{
    if docs.len() > 0 {
        lemma_df_zero_no_containment(term, docs.drop_last());
        assert forall|i: int|
            0 <= i < docs.len() implies !text_contains(term, (#[trigger] docs[i]).text@) by {
            if i < docs.len() - 1 {
                assert(docs.drop_last()[i] == docs[i]);
            } else {
                assert(docs[i] == docs.last());
            }
        }
    }
}

/// A term absent from the whole corpus scores nothing anywhere: with document
/// frequency zero it is contained in no document, and an exact token match
/// would be a containment, so its token count is zero in every document. Its
/// infinite inverse document frequency therefore always multiplies a zero
/// count, every document's total is undefined, and the result list is empty.
pub proof fn lemma_absent_term_scores_nothing(term: Seq<char>, docs: Seq<Document>)
    requires
        df_of(term, docs) == 0,
    ensures
        forall|i: int| 0 <= i < docs.len() ==> tf_of(term, (#[trigger] docs[i]).text@) == 0,
{
    lemma_df_zero_no_containment(term, docs);
    assert forall|i: int|
        0 <= i < docs.len() implies tf_of(term, (#[trigger] docs[i]).text@) == 0 by {
        lemma_match_implies_containment(term, crate::text::lower_of(docs[i].text@));
    }
}

/// Two score tables for the same query and the same corpus are identical:
/// the table is a function of query and corpus alone, so an unchanged corpus
/// answers a repeated query with the same paths and the same counts. (Only
/// the relative order of exactly tied scores may differ downstream, where
/// ties are broken arbitrarily.)
pub proof fn lemma_scoring_deterministic(
    m1: Seq<DocScore>,
    m2: Seq<DocScore>,
    terms: Seq<Seq<char>>,
    docs: Seq<Document>,
)
    requires
        models(m1, terms, docs),
        models(m2, terms, docs),
    ensures
        m1.len() == m2.len(),
        forall|i: int| 0 <= i < m1.len() ==> (#[trigger] m1[i]).path@ == m2[i].path@,
        forall|i: int| 0 <= i < m1.len() ==> (#[trigger] m1[i]).entries@ == m2[i].entries@,
{
    assert forall|i: int| 0 <= i < m1.len() implies (#[trigger] m1[i]).entries@ == m2[i].entries@
        by {
        assert(m1[i].entries@ =~= m2[i].entries@);
    }
}

/// A term contained in every document cannot tell documents apart: its
/// inverse document frequency is `log2(N / N) = 0`, and when its token count
/// is one in each document its table entry is the same `(1, N)` for every
/// document. Extending a query with such a term appends one identical entry
/// to every row and leaves all other entries unchanged, so every total moves
/// by the same amount — zero — and the relative ranking is untouched.
pub proof fn lemma_uniform_term_uniform_entry(
    m1: Seq<DocScore>,
    m2: Seq<DocScore>,
    terms: Seq<Seq<char>>,
    t: Seq<char>,
    docs: Seq<Document>,
)
    requires
        models(m1, terms, docs),
        models(m2, terms.push(t), docs),
        df_of(norm_term(t), docs) == docs.len(),
        forall|i: int| 0 <= i < docs.len() ==> tf_of(norm_term(t), (#[trigger] docs[i]).text@) == 1,
    ensures
        forall|i: int| 0 <= i < docs.len() ==> (#[trigger] m2[i]).entries@.drop_last()
            == m1[i].entries@,
        forall|i: int| 0 <= i < docs.len() ==> (#[trigger] m2[i]).entries@.last().tf == 1,
        forall|i: int| 0 <= i < docs.len() ==> (#[trigger] m2[i]).entries@.last().df == docs.len(),
        forall|i1: int, i2: int|
            0 <= i1 < docs.len() && 0 <= i2 < docs.len() ==> (#[trigger] m2[i1]).entries@.last()
                == (#[trigger] m2[i2]).entries@.last(),
{
    assert forall|i: int|
        0 <= i < docs.len() implies (#[trigger] m2[i]).entries@.drop_last() == m1[i].entries@ by {
        assert forall|j: int|
            0 <= j < terms.len() implies m2[i].entries@.drop_last()[j] == m1[i].entries@[j] by {
            assert(terms.push(t)[j] == terms[j]);
        }
        assert(m2[i].entries@.drop_last() =~= m1[i].entries@);
    }
    assert forall|i: int| 0 <= i < docs.len() implies (#[trigger] m2[i]).entries@.last().tf == 1
        && m2[i].entries@.last().df == docs.len() by {
        let n = terms.len() as int;
        assert(terms.push(t)[n] == t);
        assert(m2[i].entries@.last() == m2[i].entries@[n]);
    }
}

/// A result-list entry ready for sorting: the document's path and its score
/// encoded as an order-preserving integer key (a greater key means a greater
/// score).
pub struct ScoredDoc {
    pub path: String,
    pub key: u64,
}

/// Sorted by score descending.
pub open spec fn sorted_desc(s: Seq<ScoredDoc>) -> bool {
    forall|i: int, j: int| 0 <= i <= j < s.len() ==> (#[trigger] s[i]).key >= (#[trigger] s[j]).key
}

/// Sorts a result list by score descending: the returned list holds exactly
/// the given entries, every adjacent pair in non-increasing key order. The
/// relative order of entries with equal keys is left unspecified.
pub fn sort_scored_desc(input: Vec<ScoredDoc>) -> (r: Vec<ScoredDoc>)
    ensures
        sorted_desc(r@),
        r@.to_multiset() == input@.to_multiset(),
{
    let ghost input_ms = input@.to_multiset();
    let mut rem = input;
    let mut out: Vec<ScoredDoc> = Vec::new();
    proof {
        assert(out@.to_multiset() =~= Multiset::<ScoredDoc>::empty());
        assert(out@.to_multiset().add(rem@.to_multiset()) =~= input_ms);
    }
    while rem.len() > 0
        invariant
            sorted_desc(out@),
            forall|a: int, b: int|
                0 <= a < out@.len() && 0 <= b < rem@.len() ==> (#[trigger] out@[a]).key
                    >= (#[trigger] rem@[b]).key,
            out@.to_multiset().add(rem@.to_multiset()) == input_ms,
        decreases rem@.len(),
    {
        let mut m: usize = 0;
        let mut k: usize = 1;
        while k < rem.len()
            invariant
                0 <= m < rem@.len(),
                m < k,
                1 <= k <= rem@.len(),
                forall|b: int| 0 <= b < k ==> (#[trigger] rem@[b]).key <= rem@[m as int].key,
            decreases rem@.len() - k,
        {
            if rem[k].key > rem[m].key {
                m = k;
            }
            k = k + 1;
        }
        let ghost old_rem = rem@;
        let ghost old_out = out@;
        let item = rem.remove(m);
        proof {
            assert(old_rem.contains(item));
            assert(old_rem.to_multiset().count(item) > 0);
            assert(out@.to_multiset().insert(item).add(rem@.to_multiset()) =~= old_out.to_multiset(
            ).add(old_rem.to_multiset()));
        }
        out.push(item);
        proof {
            assert(out@.to_multiset() =~= old_out.to_multiset().insert(item));
        }
    }
    proof {
        assert(rem@.to_multiset() =~= Multiset::<ScoredDoc>::empty());
        assert(out@.to_multiset().add(Multiset::<ScoredDoc>::empty()) =~= out@.to_multiset());
    }
    out
}

} // verus!
