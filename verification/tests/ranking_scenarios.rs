use docsearch::corpus::Document;
use docsearch::corpus::FsEntry;
use docsearch::corpus::get_all_files;
use docsearch::ranking::DocScore;
use docsearch::ranking::RankOutcome;
use docsearch::ranking::ScoredDoc;
use docsearch::ranking::document_frequency;
use docsearch::ranking::has_absent_term;
use docsearch::ranking::rank_documents;
use docsearch::ranking::sort_scored_desc;

fn doc(path: &str, text: &str) -> Document {
    Document { path: path.to_string(), text: text.to_string() }
}

fn corpus() -> Vec<Document> {
    vec![
        doc("doc1", "lake lake river"),
        doc("doc2", "river river river"),
        doc("doc3", "forest"),
    ]
}

/// Evaluates the score table the way the server does: each document's total is
/// the sum over terms of tf * log2(N / df), every total here finite and
/// non-negative, then sorts descending through the library with the score's
/// bit pattern as the order-preserving key.
fn evaluate(table: &[DocScore]) -> Vec<(String, f64)> {
    let n = table.len() as f64;
    let mut scored: Vec<ScoredDoc> = Vec::new();
    for row in table {
        let mut total: f64 = 0.0;
        for e in &row.entries {
            total += e.tf as f64 * (n / e.df as f64).log2();
        }
        scored.push(ScoredDoc { path: row.path.clone(), key: total.to_bits() });
    }
    let sorted = sort_scored_desc(scored);
    sorted.into_iter().map(|s| (s.path, f64::from_bits(s.key))).collect()
}

fn run(query: &str, docs: &Vec<Document>) -> Vec<(String, f64)> {
    match rank_documents(query, docs) {
        RankOutcome::Empty => Vec::new(),
        RankOutcome::Scored(table) => evaluate(&table),
    }
}

fn close(a: f64, b: f64) -> bool {
    (a - b).abs() < 1e-6
}

#[test]
fn scenario_single_term_one_match() {
    let docs = corpus();
    let results = run("lake", &docs);
    // df(lake) = 1, N = 3, idf = log2(3); doc1 scores 2 * log2(3), the other
    // two are included with score zero.
    assert_eq!(results.len(), 3);
    assert_eq!(results[0].0, "doc1");
    assert!(close(results[0].1, 2.0 * 3.0f64.log2()));
    assert!(close(results[0].1, 3.169925));
    assert_eq!(results[1].1, 0.0);
    assert_eq!(results[2].1, 0.0);
    let mut zeros = vec![results[1].0.clone(), results[2].0.clone()];
    zeros.sort();
    assert_eq!(zeros, vec!["doc2", "doc3"]);
}

#[test]
fn scenario_absent_term_empties_everything() {
    let docs = corpus();
    let results = run("ocean", &docs);
    assert!(results.is_empty());
}

#[test]
fn scenario_two_documents_share_a_term() {
    let docs = corpus();
    let results = run("river", &docs);
    // df(river) = 2, idf = log2(1.5); doc2 has tf = 3, doc1 tf = 1, doc3 zero.
    assert_eq!(results.len(), 3);
    assert_eq!(results[0].0, "doc2");
    assert!(close(results[0].1, 3.0 * 1.5f64.log2()));
    assert!(close(results[0].1, 1.754888));
    assert_eq!(results[1].0, "doc1");
    assert!(close(results[1].1, 1.5f64.log2()));
    assert_eq!(results[2].0, "doc3");
    assert_eq!(results[2].1, 0.0);
}

#[test]
fn scenario_hidden_directory_never_scores() {
    let entries = vec![
        FsEntry::Dir {
            name: ".drafts".to_string(),
            entries: vec![FsEntry::File {
                name: "secret.txt".to_string(),
                content: "ocean ocean ocean".to_string(),
            }],
        },
        FsEntry::File { name: "doc1".to_string(), content: "lake lake river".to_string() },
        FsEntry::File { name: "doc2".to_string(), content: "river river river".to_string() },
    ];
    let docs = get_all_files(&entries, "");
    assert_eq!(docs.len(), 2);
    // The hidden file is the only one containing "ocean": the query still
    // returns nothing, and the hidden file appears in no result.
    assert!(run("ocean", &docs).is_empty());
    // And it does not alter df for any term: df(river) counts only the two
    // visible documents.
    assert_eq!(document_frequency("river", &docs), 2);
}

#[test]
fn absent_term_poisons_mixed_queries() {
    let docs = corpus();
    // "lake" is relevant, but "ocean" occurs nowhere: the whole result is
    // empty regardless of the other term.
    assert!(run("lake ocean", &docs).is_empty());
    assert!(matches!(rank_documents("lake ocean", &docs), RankOutcome::Empty));
    let terms = vec!["lake".to_string(), "ocean".to_string()];
    assert!(has_absent_term(&terms, &docs));
    let terms = vec!["lake".to_string(), "river".to_string()];
    assert!(!has_absent_term(&terms, &docs));
}

#[test]
fn uniform_term_cannot_reorder() {
    let docs = vec![
        doc("doc1", "water lake lake"),
        doc("doc2", "water lake lake lake"),
        doc("doc3", "water nothing"),
    ];
    // "water" occurs in every document with tf = 1: idf is log2(3/3) = 0 and
    // the ranking is exactly the one "lake" alone produces.
    let with_uniform = run("lake water", &docs);
    let without = run("lake", &docs);
    assert_eq!(with_uniform, without);
    assert_eq!(with_uniform[0].0, "doc2");
    assert_eq!(with_uniform[1].0, "doc1");
    assert_eq!(with_uniform[2].0, "doc3");
}

#[test]
fn repeated_query_is_idempotent() {
    let docs = corpus();
    let first = run("lake river", &docs);
    let second = run("lake river", &docs);
    assert_eq!(first, second);
}

#[test]
fn results_are_sorted_descending() {
    let docs = corpus();
    let results = run("lake river forest", &docs);
    assert_eq!(results.len(), 3);
    for pair in results.windows(2) {
        assert!(pair[0].1 >= pair[1].1);
    }
}

#[test]
fn query_terms_are_normalized() {
    let docs = corpus();
    // The raw query arrives untrimmed and uppercased; terms are trimmed and
    // lowercased before matching.
    let results = run("LAKE", &docs);
    assert_eq!(results[0].0, "doc1");
    assert!(close(results[0].1, 2.0 * 3.0f64.log2()));
}

#[test]
fn substring_only_term_scores_zero_everywhere() {
    let docs = corpus();
    // "riv" is contained in doc1 and doc2 but is an exact token of nothing:
    // df = 2 keeps every total finite, yet every tf is zero.
    let results = run("riv", &docs);
    assert_eq!(results.len(), 3);
    for r in &results {
        assert_eq!(r.1, 0.0);
    }
}

#[test]
fn empty_corpus_returns_nothing() {
    let docs: Vec<Document> = Vec::new();
    assert!(run("lake", &docs).is_empty());
    assert!(matches!(rank_documents("lake", &docs), RankOutcome::Empty));
}

#[test]
fn empty_query_scores_every_document_zero() {
    let docs = corpus();
    // The empty query has one empty term; every text contains the empty
    // string, so df = N and idf = 0, and no text here has an empty token, so
    // every total is exactly zero and every document is kept.
    let results = run("", &docs);
    assert_eq!(results.len(), 3);
    for r in &results {
        assert_eq!(r.1, 0.0);
    }
}

#[test]
fn document_frequency_counts_containing_documents() {
    let docs = corpus();
    assert_eq!(document_frequency("lake", &docs), 1);
    assert_eq!(document_frequency("river", &docs), 2);
    assert_eq!(document_frequency("riv", &docs), 2);
    assert_eq!(document_frequency("ocean", &docs), 0);
    assert_eq!(document_frequency("", &docs), 3);
}

#[test]
fn sort_orders_keys_descending_and_keeps_entries() {
    let input = vec![
        ScoredDoc { path: "a".to_string(), key: 5 },
        ScoredDoc { path: "b".to_string(), key: 9 },
        ScoredDoc { path: "c".to_string(), key: 1 },
        ScoredDoc { path: "d".to_string(), key: 9 },
    ];
    let sorted = sort_scored_desc(input);
    let keys: Vec<u64> = sorted.iter().map(|s| s.key).collect();
    assert_eq!(keys, vec![9, 9, 5, 1]);
    let mut names: Vec<String> = sorted.iter().map(|s| s.path.clone()).collect();
    names.sort();
    assert_eq!(names, vec!["a", "b", "c", "d"]);
    let nine: Vec<String> =
        sorted.iter().filter(|s| s.key == 9).map(|s| s.path.clone()).collect();
    assert!(nine.contains(&"b".to_string()) && nine.contains(&"d".to_string()));
}

#[test]
fn sort_of_empty_list_is_empty() {
    let sorted = sort_scored_desc(Vec::new());
    assert!(sorted.is_empty());
}
