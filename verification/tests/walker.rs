use docsearch::corpus::Document;
use docsearch::corpus::FsEntry;
use docsearch::corpus::get_all_files;
use docsearch::corpus::is_hidden_name;

fn file(name: &str, content: &str) -> FsEntry {
    FsEntry::File { name: name.to_string(), content: content.to_string() }
}

fn dir(name: &str, entries: Vec<FsEntry>) -> FsEntry {
    FsEntry::Dir { name: name.to_string(), entries }
}

fn paths(docs: &[Document]) -> Vec<String> {
    docs.iter().map(|d| d.path.clone()).collect()
}

#[test]
fn walks_nested_directories() {
    let entries = vec![
        file("a.txt", "alpha"),
        dir("sub", vec![file("b.txt", "beta"), dir("deeper", vec![file("c.txt", "gamma")])]),
    ];
    let docs = get_all_files(&entries, "notes/");
    assert_eq!(
        paths(&docs),
        vec!["notes/a.txt", "notes/sub/b.txt", "notes/sub/deeper/c.txt"]
    );
    assert_eq!(docs[2].text, "gamma");
}

#[test]
fn skips_hidden_files() {
    let entries = vec![file(".secret", "x"), file("open.txt", "y")];
    let docs = get_all_files(&entries, "");
    assert_eq!(paths(&docs), vec!["open.txt"]);
}

#[test]
fn prunes_hidden_directories_entirely() {
    let entries = vec![
        dir(".drafts", vec![file("secret.txt", "river river")]),
        file("a.txt", "river"),
    ];
    let docs = get_all_files(&entries, "notes/");
    assert_eq!(paths(&docs), vec!["notes/a.txt"]);
}

#[test]
fn empty_root_yields_no_documents() {
    let entries: Vec<FsEntry> = vec![];
    let docs = get_all_files(&entries, "notes/");
    assert!(docs.is_empty());
}

#[test]
fn hidden_name_needs_leading_dot() {
    assert!(is_hidden_name(".git"));
    assert!(is_hidden_name("."));
    assert!(!is_hidden_name("notes"));
    assert!(!is_hidden_name("no.hidden"));
    assert!(!is_hidden_name(""));
}
