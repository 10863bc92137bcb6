//! Answers of the commands on the files of a skill.

use vstd::prelude::*;
use crate::text::str_starts_with;
use crate::text_order::{is_text_ranking, key_texts, rank_texts};

verus! {

/// A file or a directory of a skill, with what the directory holds.
#[derive(Debug)]
pub struct FileTreeNode {
    pub name: String,
    pub path: String,
    pub node_type: String,
    pub children: Option<Vec<FileTreeNode>>,
}

impl FileTreeNode {
    /// A node for a file.
    pub fn file(name: String, path: String) -> (r: FileTreeNode)
        ensures
            r.name == name,
            r.path == path,
            r.node_type@ == "file"@,
            r.children is None,
    {
        FileTreeNode { name, path, node_type: "file".to_string(), children: None }
    }

    /// A node for a directory that holds `children`.
    pub fn directory(name: String, path: String, children: Vec<FileTreeNode>) -> (r: FileTreeNode)
        ensures
            r.name == name,
            r.path == path,
            r.node_type@ == "directory"@,
            r.children == Some(children),
    {
        FileTreeNode { name, path, node_type: "directory".to_string(), children: Some(children) }
    }
}

/// What a directory holds at one place: a file, or a directory with what
/// it holds in turn.
#[derive(Debug)]
pub struct FoundEntry {
    pub name: String,
    pub path: String,
    pub is_dir: bool,
}

impl Clone for FoundEntry {
    fn clone(&self) -> (r: Self)
        ensures
            r == *self,
    {
        FoundEntry { name: self.name.clone(), path: self.path.clone(), is_dir: self.is_dir }
    }
}

/// The key by which an entry is listed: directories before files, and by
/// name within each.
pub open spec fn listing_key(e: FoundEntry) -> (Seq<char>, Seq<char>) {
    (
        if e.is_dir {
            "0"@
        } else {
            "1"@
        },
        e.name@,
    )
}

/// The keys of the entries, in the same order.
pub open spec fn listing_keys(entries: Seq<FoundEntry>) -> Seq<(Seq<char>, Seq<char>)> {
    entries.map_values(|e: FoundEntry| listing_key(e))
}

/// Whether an entry is shown: its name does not begin with a dot.
pub open spec fn is_shown() -> spec_fn(FoundEntry) -> bool {
    |e: FoundEntry| !"."@.is_prefix_of(e.name@)
}

/// Whether `result` lists the entries that are shown, directories first
/// and by name within each, in the given order of the entries.
pub open spec fn is_file_listing(
    result: Seq<FoundEntry>,
    entries: Seq<FoundEntry>,
    order: Seq<usize>,
) -> bool {
    &&& is_text_ranking(listing_keys(entries), order)
    &&& result == Seq::new(entries.len(), |i: int| entries[order[i] as int]).filter(is_shown())
}

/// The entries of a directory as they are listed: without those whose
/// name begins with a dot, directories first, and by name within each.
pub fn list_skill_files(entries: &Vec<FoundEntry>) -> (r: Vec<FoundEntry>)
    ensures
        exists|order: Seq<usize>| #[trigger] is_file_listing(r@, entries@, order),
{
    let mut keys: Vec<(String, String)> = Vec::new();
    let mut i: usize = 0;
    while i < entries.len()
        invariant
            i <= entries.len(),
            keys@.len() == i,
            forall|k: int|
                0 <= k < i ==> ((#[trigger] keys@[k]).0@, keys@[k].1@) == listing_key(entries@[k]),
        decreases entries.len() - i,
    {
        let kind = if entries[i].is_dir {
            "0"
        } else {
            "1"
        };
        keys.push((kind.to_string(), entries[i].name.clone()));
        i = i + 1;
    }
    assert(key_texts(keys@) =~= listing_keys(entries@));
    let order = rank_texts(&keys);
    let ghost sorted = Seq::new(entries@.len(), |i: int| entries@[order@[i] as int]);
    let mut out: Vec<FoundEntry> = Vec::new();
    let mut k: usize = 0;
    proof {
        reveal(Seq::filter);
        assert(out@ =~= sorted.take(0).filter(is_shown()));
    }
    while k < entries.len()
        invariant
            k <= entries.len(),
            is_text_ranking(listing_keys(entries@), order@),
            sorted == Seq::new(entries@.len(), |i: int| entries@[order@[i] as int]),
            out@ == sorted.take(k as int).filter(is_shown()),
        decreases entries.len() - k,
    {
        proof {
            sorted.lemma_take_succ_push(k as int);
            sorted.take(k as int).lemma_filter_push(sorted[k as int], is_shown());
        }
        let e = &entries[order[k]];
        if !str_starts_with(e.name.as_str(), ".") {
            out.push(e.clone());
        }
        k = k + 1;
    }
    proof {
        sorted.lemma_take_len();
        assert(is_file_listing(out@, entries@, order@));
    }
    out
}

/// The nodes of the entries of a directory, given for each directory
/// among them what it holds.
pub fn build_tree(entries: &Vec<FoundEntry>, children: Vec<Vec<FileTreeNode>>) -> (r: Vec<
    FileTreeNode,
>)
    requires
        children@.len() == entries@.len(),
    ensures
        r@.len() == entries@.len(),
        forall|i: int|
            0 <= i < r@.len() ==> {
                &&& (#[trigger] r@[i]).name == entries@[i].name
                &&& r@[i].path == entries@[i].path
                &&& if entries@[i].is_dir {
                    r@[i].node_type@ == "directory"@ && r@[i].children is Some
                } else {
                    r@[i].node_type@ == "file"@ && r@[i].children is None
                }
            },
{
    let mut children = children;
    let mut out: Vec<FileTreeNode> = Vec::new();
    let mut i: usize = 0;
    while i < entries.len()
        invariant
            i <= entries.len(),
            children@.len() == entries@.len() - i,
            out@.len() == i,
            forall|k: int|
                0 <= k < i ==> {
                    &&& (#[trigger] out@[k]).name == entries@[k].name
                    &&& out@[k].path == entries@[k].path
                    &&& if entries@[k].is_dir {
                        out@[k].node_type@ == "directory"@ && out@[k].children is Some
                    } else {
                        out@[k].node_type@ == "file"@ && out@[k].children is None
                    }
                },
        decreases entries.len() - i,
    {
        let below = children.remove(0);
        let e = &entries[i];
        if e.is_dir {
            out.push(FileTreeNode::directory(e.name.clone(), e.path.clone(), below));
        } else {
            out.push(FileTreeNode::file(e.name.clone(), e.path.clone()));
        }
        i = i + 1;
    }
    out
}

} // verus!
