//! The corpus walker: enumerating the eligible documents under a root
//! directory.
//!
//! The filesystem is modelled as a tree of [`FsEntry`] values, built by the
//! caller from the real directory tree. A regular file is eligible unless its
//! name starts with `.`; a directory whose name starts with `.` is pruned
//! entirely, so nothing beneath it is ever visited. Traversal order follows
//! the order of the entries handed in, which callers must not rely on.

use vstd::prelude::*;
use vstd::string::StrSliceExecFns;
use vstd::string::StringExecFns;

verus! {

/// A document eligible for scoring: its path rendered as text, and its full
/// text content.
pub struct Document {
    pub path: String,
    pub text: String,
}

/// A filesystem entry as the walker sees it: a regular file with its text
/// content, or a directory with its entries.
pub enum FsEntry {
    File { name: String, content: String },
    Dir { name: String, entries: Vec<FsEntry> },
}

/// A name beginning with `.` is hidden: such files are skipped and such
/// directories are pruned with everything beneath them.
pub open spec fn hidden_name(name: Seq<char>) -> bool {
    name.len() > 0 && name[0] == '.'
}

/// The name of an entry, file or directory.
pub open spec fn entry_name(e: FsEntry) -> Seq<char> {
    match e {
        FsEntry::File { name, content } => name@,
        FsEntry::Dir { name, entries } => name@,
    }
}

/// The eligible files a single entry contributes, as (path, content) pairs;
/// `prefix` is the path of the containing directory, separator included.
pub open spec fn visible_files_of(e: FsEntry, prefix: Seq<char>) -> Seq<(Seq<char>, Seq<char>)>
    decreases e,
{
    match e {
        FsEntry::File { name, content } => if hidden_name(name@) {
            Seq::empty()
        } else {
            seq![(prefix + name@, content@)]
        },
        FsEntry::Dir { name, entries } => if hidden_name(name@) {
            Seq::empty()
        } else {
            visible_files_list(entries@, prefix + name@ + "/"@)
        },
    }
}

/// The eligible files of a list of entries, in order.
pub open spec fn visible_files_list(
    entries: Seq<FsEntry>,
    prefix: Seq<char>,
) -> Seq<(Seq<char>, Seq<char>)>
    decreases entries,
{
    if entries.len() == 0 {
        Seq::empty()
    } else {
        visible_files_list(entries.drop_last(), prefix) + visible_files_of(entries.last(), prefix)
    }
}

/// The documents `docs` render the model `model`: same length, same paths,
/// same contents.
pub open spec fn docs_match(docs: Seq<Document>, model: Seq<(Seq<char>, Seq<char>)>) -> bool {
    &&& docs.len() == model.len()
    &&& forall|i: int|
        0 <= i < docs.len() ==> (#[trigger] docs[i]).path@ == model[i].0 && docs[i].text@
            == model[i].1
}

/// One step of walking a list: the files of the first `i + 1` entries are the
/// files of the first `i` followed by those of entry `i`.
proof fn lemma_visible_list_take_step(entries: Seq<FsEntry>, prefix: Seq<char>, i: int)
    requires
        0 <= i < entries.len(),
    ensures
        visible_files_list(entries.take(i + 1), prefix) == visible_files_list(
            entries.take(i),
            prefix,
        ) + visible_files_of(entries[i], prefix),
{
    assert(entries.take(i + 1).drop_last() =~= entries.take(i));
    assert(entries.take(i + 1).last() == entries[i]);
}

/// Decides whether a name is hidden, as [`hidden_name`] describes.
pub fn is_hidden_name(name: &str) -> (r: bool)
    ensures
        r == hidden_name(name@),
{
    if name.unicode_len() == 0 {
        false
    } else {
        name.get_char(0) == '.'
    }
}

/// The eligible files a single entry contributes, as documents.
fn files_of_entry(e: &FsEntry, prefix: &str) -> (r: Vec<Document>)
    ensures
        docs_match(r@, visible_files_of(*e, prefix@)),
    decreases *e,
{
    match e {
        FsEntry::File { name, content } => {
            let mut out: Vec<Document> = Vec::new();
            if !is_hidden_name(name.as_str()) {
                let mut p = prefix.to_owned();
                p.append(name.as_str());
                out.push(Document { path: p, text: content.clone() });
            }
            out
        },
        FsEntry::Dir { name, entries } => {
            let mut out: Vec<Document> = Vec::new();
            if !is_hidden_name(name.as_str()) {
                let mut p = prefix.to_owned();
                p.append(name.as_str());
                p.append("/");
                let ghost sub_prefix = prefix@ + name@ + "/"@;
                assert(p@ == sub_prefix);
                let mut i: usize = 0;
                while i < entries.len()
                    invariant
                        0 <= i <= entries@.len(),
                        p@ == sub_prefix,
                        docs_match(
                            out@,
                            visible_files_list(entries@.take(i as int), sub_prefix),
                        ),
                        decreases_to!(*e => entries@),
                    decreases entries@.len() - i,
                {
                    proof {
                        lemma_visible_list_take_step(entries@, sub_prefix, i as int);
                        assert(decreases_to!(entries@ => entries@[i as int]));
                    }
                    let mut sub = files_of_entry(&entries[i], p.as_str());
                    let ghost old_out = out@;
                    let ghost sub_snap = sub@;
                    out.append(&mut sub);
                    proof {
                        assert(out@ == old_out + sub_snap);
                    }
                    i = i + 1;
                }
                proof {
                    assert(entries@.take(entries@.len() as int) =~= entries@);
                }
            }
            out
        },
    }
}

/// The eligible documents under a root: every regular file reachable by
/// descending into non-hidden directories, skipping every entry whose name
/// starts with `.`. The `entries` are the root directory's entries and
/// `prefix` is the root's path rendering, separator included; each document's
/// path is the prefix followed by the path components on the way to it.
pub fn get_all_files(entries: &Vec<FsEntry>, prefix: &str) -> (r: Vec<Document>)
    ensures
        docs_match(r@, visible_files_list(entries@, prefix@)),
{
    let mut out: Vec<Document> = Vec::new();
    let mut i: usize = 0;
    while i < entries.len()
        invariant
            0 <= i <= entries@.len(),
            docs_match(out@, visible_files_list(entries@.take(i as int), prefix@)),
        decreases entries@.len() - i,
    {
        proof {
            lemma_visible_list_take_step(entries@, prefix@, i as int);
        }
        let mut sub = files_of_entry(&entries[i], prefix);
        let ghost old_out = out@;
        let ghost sub_snap = sub@;
        out.append(&mut sub);
        proof {
            assert(out@ == old_out + sub_snap);
        }
        i = i + 1;
    }
    proof {
        assert(entries@.take(entries@.len() as int) =~= entries@);
    }
    out
}

/// Hidden entries never matter: inserting a file or directory whose name
/// starts with `.` anywhere in a directory listing leaves the walked corpus
/// unchanged — so such entries appear in no result and, since document
/// frequencies are computed over the walked corpus alone, they influence no
/// term's score either.
pub proof fn lemma_hidden_entry_ignored(
    entries: Seq<FsEntry>,
    h: FsEntry,
    i: int,
    prefix: Seq<char>,
)
    requires
        0 <= i <= entries.len(),
        hidden_name(entry_name(h)),
    ensures
        visible_files_list(entries.insert(i, h), prefix) == visible_files_list(entries, prefix),
    decreases entries.len() - i,
{
    if i == entries.len() {
        assert(entries.insert(i, h) =~= entries.push(h));
        assert(entries.push(h).drop_last() =~= entries);
        assert(entries.push(h).last() == h);
        assert(visible_files_of(h, prefix) =~= Seq::<(Seq<char>, Seq<char>)>::empty());
        assert(visible_files_list(entries.insert(i, h), prefix) =~= visible_files_list(
            entries,
            prefix,
        ));
    } else {
        lemma_hidden_entry_ignored(entries.drop_last(), h, i, prefix);
        assert(entries.insert(i, h).drop_last() =~= entries.drop_last().insert(i, h));
        assert(entries.insert(i, h).last() == entries.last());
        assert(visible_files_list(entries.insert(i, h), prefix) =~= visible_files_list(
            entries,
            prefix,
        ));
    }
}

} // verus!
