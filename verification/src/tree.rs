//! The content tree: the set of files and directories that is served.
//!
//! A tree is modelled as a map from a relative, slash-delimited path to the
//! node stored there. Writing an entry replaces whatever the path held before.
//! Only what was written is recorded: a directory that exists on disk for no
//! other reason than to hold a file is implied by the file's path and has no
//! node of its own.
//!
//! The paths of a tree are in their plain form: an entry written at
//! `./a//b` is kept, found and listed at `a/b`, as a directory on disk would
//! have it. An entry whose path names the root of the tree itself is not
//! kept: the root is always there and holds no bytes of its own.

use crate::path::{canonical, canonicalize, is_plain, lemma_canonical_is_plain};
use crate::text::same_text;
use vstd::prelude::*;

verus! {

/// Whether an entry of the tree is a regular file or a directory.
#[derive(Clone, Copy, Debug, PartialEq, Eq, Structural)]
pub enum EntryKind {
    File,
    Directory,
}

/// What a path of the tree holds, as a mathematical value.
pub enum Node {
    /// A regular file with its bytes.
    File(Seq<u8>),
    /// A directory.
    Directory,
}

/// The mathematical model of a [`ContentTree`].
pub type TreeView = Map<Seq<char>, Node>;

/// One file or directory together with the relative path it lives at.
#[derive(Debug)]
pub struct TreeEntry {
    pub path: String,
    pub kind: EntryKind,
    pub data: Vec<u8>,
}

/// The mathematical model of a [`TreeEntry`].
pub struct EntryView {
    pub path: Seq<char>,
    pub kind: EntryKind,
    pub data: Seq<u8>,
}

impl EntryView {
    /// The node that writing this entry leaves at its path. The bytes of a
    /// directory entry are ignored.
    pub open spec fn node(self) -> Node {
        match self.kind {
            EntryKind::File => Node::File(self.data),
            EntryKind::Directory => Node::Directory,
        }
    }

    /// The path under which a tree keeps this entry: the plain form of its
    /// path. It is empty where the entry names the root of the tree.
    pub open spec fn key(self) -> Seq<char> {
        canonical(self.path)
    }
}

impl View for TreeEntry {
    type V = EntryView;

    open spec fn view(&self) -> EntryView {
        EntryView { path: self.path@, kind: self.kind, data: self.data@ }
    }
}

impl Clone for TreeEntry {
    fn clone(&self) -> (copy: Self)
        ensures
            copy@ == self@,
    {
        TreeEntry { path: self.path.clone(), kind: self.kind, data: self.data.clone() }
    }
}

impl TreeEntry {
    /// A regular file at `path` holding `data`.
    pub fn file(path: String, data: Vec<u8>) -> (entry: TreeEntry)
        ensures
            entry@ == (EntryView { path: path@, kind: EntryKind::File, data: data@ }),
    {
        TreeEntry { path, kind: EntryKind::File, data }
    }

    /// A directory at `path`.
    pub fn directory(path: String) -> (entry: TreeEntry)
        ensures
            entry@ == (EntryView { path: path@, kind: EntryKind::Directory, data: Seq::empty() }),
    {
        TreeEntry { path, kind: EntryKind::Directory, data: Vec::new() }
    }
}

/// The models of a sequence of entries, in the same order.
pub open spec fn views(entries: Seq<TreeEntry>) -> Seq<EntryView> {
    Seq::new(entries.len(), |i: int| entries[i]@)
}

/// No two entries of the sequence are kept under the same path.
pub open spec fn distinct_paths(entries: Seq<EntryView>) -> bool {
    forall|i: int, j: int| 0 <= i < j < entries.len() ==> entries[i].key() != entries[j].key()
}

/// Every entry of the sequence has a path in its plain form that names
/// something below the root.
pub open spec fn plain_paths(entries: Seq<EntryView>) -> bool {
    forall|i: int| 0 <= i < entries.len() ==> is_plain((#[trigger] entries[i]).path)
}

/// Some entry of the sequence is kept under `path`.
pub open spec fn has_path(entries: Seq<EntryView>, path: Seq<char>) -> bool {
    path.len() > 0 && exists|i: int| 0 <= i < entries.len() && (#[trigger] entries[i]).key() == path
}

/// The tree after writing `entry`: the entry's node stands under the plain
/// form of its path, in place of what stood there. Writing at the root
/// itself changes nothing.
pub open spec fn written(tree: TreeView, entry: EntryView) -> TreeView {
    if entry.key().len() == 0 {
        tree
    } else {
        tree.insert(entry.key(), entry.node())
    }
}

/// The tree that results from writing `entries` onto `base` in order: each
/// entry replaces what its path held before.
pub open spec fn overlay(base: TreeView, entries: Seq<EntryView>) -> TreeView
    decreases entries.len(),
{
    if entries.len() == 0 {
        base
    } else {
        written(overlay(base, entries.drop_last()), entries.last())
    }
}

/// The tree that holds exactly `entries`.
pub open spec fn tree_of(entries: Seq<EntryView>) -> TreeView {
    overlay(Map::empty(), entries)
}

/// Writing one more entry is one more write onto what the others gave.
pub proof fn lemma_overlay_push(base: TreeView, entries: Seq<EntryView>, entry: EntryView)
    ensures
        overlay(base, entries.push(entry)) == written(overlay(base, entries), entry),
{
    assert(entries.push(entry).drop_last() =~= entries);
}

/// What writing entries onto a base leaves: the paths are those of the base
/// and those the entries are kept under, a path that no entry is kept under
/// keeps what the base held, and with distinct paths each entry's path holds
/// the node of that entry.
pub proof fn lemma_overlay_lookup(base: TreeView, entries: Seq<EntryView>)
    ensures
        forall|path: Seq<char>| #[trigger]
            overlay(base, entries).dom().contains(path) <==> base.dom().contains(path)
                || has_path(entries, path),
        forall|path: Seq<char>|
            !has_path(entries, path) ==> (#[trigger] overlay(base, entries)[path]) == base[path],
        distinct_paths(entries) ==> forall|i: int|
            0 <= i < entries.len() && (#[trigger] entries[i]).key().len() > 0 ==> overlay(
                base,
                entries,
            )[entries[i].key()] == entries[i].node(),
    decreases entries.len(),
{
    if entries.len() > 0 {
        let rest = entries.drop_last();
        let last = entries.last();
        lemma_overlay_lookup(base, rest);
        assert forall|path: Seq<char>| #[trigger]
            overlay(base, entries).dom().contains(path) <==> base.dom().contains(path)
                || has_path(entries, path) by {
            if has_path(rest, path) {
                let i = choose|i: int| 0 <= i < rest.len() && (#[trigger] rest[i]).key() == path;
                assert(entries[i].key() == path);
            }
            if has_path(entries, path) && path != last.key() {
                let i = choose|i: int|
                    0 <= i < entries.len() && (#[trigger] entries[i]).key() == path;
                assert(rest[i].key() == path);
            }
            if path == last.key() {
                assert(entries[entries.len() - 1].key() == path);
            }
        }
        assert forall|path: Seq<char>| !has_path(entries, path) implies (#[trigger] overlay(
            base,
            entries,
        )[path]) == base[path] by {
            assert(path.len() > 0 ==> entries[entries.len() - 1].key() != path);
            if has_path(rest, path) {
                let i = choose|i: int| 0 <= i < rest.len() && (#[trigger] rest[i]).key() == path;
                assert(entries[i].key() == path);
            }
        }
        if distinct_paths(entries) {
            assert(distinct_paths(rest)) by {
                assert forall|i: int, j: int| 0 <= i < j < rest.len() implies rest[i].key()
                    != rest[j].key() by {
                    assert(entries[i].key() != entries[j].key());
                }
            }
            assert forall|i: int|
                0 <= i < entries.len() && (#[trigger] entries[i]).key().len() > 0 implies overlay(
                base,
                entries,
            )[entries[i].key()] == entries[i].node() by {
                if i < entries.len() - 1 {
                    assert(rest[i] == entries[i]);
                    assert(entries[i].key() != entries[entries.len() - 1].key());
                }
            }
        }
    }
}

/// The paths of a tree built from entries are those the entries are kept
/// under, and with distinct paths each path holds the node of its entry.
pub proof fn lemma_tree_of_lookup(entries: Seq<EntryView>)
    ensures
        forall|path: Seq<char>| #[trigger]
            tree_of(entries).dom().contains(path) <==> has_path(entries, path),
        distinct_paths(entries) ==> forall|i: int|
            0 <= i < entries.len() && (#[trigger] entries[i]).key().len() > 0 ==> tree_of(
                entries,
            )[entries[i].key()] == entries[i].node(),
{
    lemma_overlay_lookup(Map::empty(), entries);
}

/// Writing the same entries a second time changes nothing, provided no two
/// of them are kept under the same path.
pub proof fn lemma_overlay_idempotent(base: TreeView, entries: Seq<EntryView>)
    requires
        distinct_paths(entries),
    ensures
        overlay(overlay(base, entries), entries) == overlay(base, entries),
{
    let once = overlay(base, entries);
    let twice = overlay(once, entries);
    lemma_overlay_lookup(base, entries);
    lemma_overlay_lookup(once, entries);
    assert forall|path: Seq<char>| twice.dom().contains(path) implies twice[path]
        == once[path] by {
        if has_path(entries, path) {
            let i = choose|i: int| 0 <= i < entries.len() && (#[trigger] entries[i]).key() == path;
            assert(twice[entries[i].key()] == entries[i].node());
            assert(once[entries[i].key()] == entries[i].node());
        }
    }
    assert(twice =~= once);
}

/// A content tree held in memory.
pub struct ContentTree {
    entries: Vec<TreeEntry>,
}

impl View for ContentTree {
    type V = TreeView;

    closed spec fn view(&self) -> TreeView {
        tree_of(self.listing())
    }
}

impl ContentTree {
    #[verifier::type_invariant]
    spec fn well_formed(self) -> bool {
        distinct_paths(views(self.entries@)) && plain_paths(views(self.entries@))
    }

    /// The entries of the tree in the order in which they are listed. Every
    /// path of the tree occurs once, in its plain form.
    pub closed spec fn listing(&self) -> Seq<EntryView> {
        views(self.entries@)
    }

    /// The tree without any entry.
    pub fn new() -> (tree: ContentTree)
        ensures
            tree@ == Map::<Seq<char>, Node>::empty(),
    {
        ContentTree { entries: Vec::new() }
    }

    /// The number of paths the tree holds.
    pub fn len(&self) -> (n: usize)
        ensures
            self@.dom().finite(),
            n == self@.dom().len(),
    {
        proof {
            use_type_invariant(&*self);
            lemma_distinct_count(views(self.entries@));
        }
        self.entries.len()
    }

    /// Position of the entry kept under exactly `path`, if there is one.
    fn position(&self, path: &str) -> (found: Option<usize>)
        ensures
            match found {
                Some(i) => i < self.entries.len() && self.entries[i as int].path@ == path@,
                None => forall|k: int| 0 <= k < self.entries.len() ==> self.entries[k].path@ != path@,
            },
    {
        let mut i: usize = 0;
        while i < self.entries.len()
            invariant
                i <= self.entries.len(),
                forall|k: int| 0 <= k < i ==> self.entries[k].path@ != path@,
            decreases self.entries.len() - i,
        {
            if same_text(self.entries[i].path.as_str(), path) {
                return Some(i);
            }
            i += 1;
        }
        None
    }

    /// The entry kept under the plain form of `path`, if any.
    pub fn get(&self, path: &str) -> (found: Option<&TreeEntry>)
        ensures
            match found {
                Some(entry) => self@.dom().contains(canonical(path@)) && entry.path@ == canonical(
                    path@,
                ) && self@[canonical(path@)] == entry@.node(),
                None => !self@.dom().contains(canonical(path@)),
            },
    {
        proof {
            use_type_invariant(&*self);
            lemma_tree_of_lookup(views(self.entries@));
        }
        let plain = canonicalize(path);
        match self.position(plain.as_str()) {
            Some(i) => {
                assert(views(self.entries@)[i as int] == self.entries[i as int]@);
                assert(views(self.entries@)[i as int].key() == plain@);
                Some(&self.entries[i])
            },
            None => {
                proof {
                    let s = views(self.entries@);
                    assert forall|k: int| 0 <= k < s.len() implies (#[trigger] s[k]).key()
                        != plain@ by {
                        assert(self.entries[k].path@ != plain@);
                    }
                }
                None
            },
        }
    }

    /// The bytes of the regular file at `path`; `None` where the path is
    /// absent or a directory.
    pub fn read(&self, path: &str) -> (bytes: Option<&Vec<u8>>)
        ensures
            match bytes {
                Some(data) => self@.dom().contains(canonical(path@)) && self@[canonical(path@)]
                    == Node::File(data@),
                None => !self@.dom().contains(canonical(path@)) || self@[canonical(path@)]
                    == Node::Directory,
            },
    {
        match self.get(path) {
            Some(entry) => match entry.kind {
                EntryKind::File => Some(&entry.data),
                EntryKind::Directory => None,
            },
            None => None,
        }
    }

    /// Writes `entry` under the plain form of its path, replacing what the
    /// path held. An entry whose path names the root of the tree is not
    /// kept, whatever its kind.
    pub fn put(&mut self, entry: TreeEntry)
        ensures
            final(self)@ == written(old(self)@, entry@),
    {
        proof {
            use_type_invariant(&*self);
            lemma_canonical_is_plain(entry.path@);
        }
        let ghost given = entry@;
        let key = canonicalize(entry.path.as_str());
        if key.as_str().is_empty() {
            return;
        }
        let found = self.position(key.as_str());
        let stored = TreeEntry { path: key, kind: entry.kind, data: entry.data };
        let mut entries: Vec<TreeEntry> = Vec::new();
        std::mem::swap(&mut entries, &mut self.entries);
        let ghost before = views(entries@);
        let ghost added = stored@;
        assert(added.key() == given.key() && added.node() == given.node());
        match found {
            Some(i) => {
                assert(before[i as int].key() == added.key());
                entries.set(i, stored);
                proof {
                    let after = views(entries@);
                    assert(after =~= before.update(i as int, added));
                    lemma_replace(before, i as int, added);
                }
            },
            None => {
                entries.push(stored);
                proof {
                    let after = views(entries@);
                    assert(after =~= before.push(added));
                    lemma_overlay_push(Map::empty(), before, added);
                    assert forall|a: int, b: int| 0 <= a < b < after.len() implies after[a].key()
                        != after[b].key() by {
                        if b == after.len() - 1 {
                            assert(before[a].path != added.path);
                        } else {
                            assert(before[a].key() != before[b].key());
                        }
                    }
                    assert forall|a: int| 0 <= a < after.len() implies is_plain(
                        (#[trigger] after[a]).path,
                    ) by {
                        if a < before.len() {
                            assert(is_plain(before[a].path));
                        }
                    }
                }
            },
        }
        self.entries = entries;
    }

    /// Removes every entry, leaving the tree present and empty.
    pub fn clear(&mut self)
        ensures
            final(self)@ == Map::<Seq<char>, Node>::empty(),
    {
        self.entries = Vec::new();
    }

    /// Writes `entries` in order, each replacing what its path held.
    pub fn extract(&mut self, entries: Vec<TreeEntry>)
        ensures
            final(self)@ == overlay(old(self)@, views(entries@)),
    {
        let ghost all = views(entries@);
        let mut i: usize = 0;
        while i < entries.len()
            invariant
                i <= entries.len(),
                all == views(entries@),
                self@ == overlay(old(self)@, all.take(i as int)),
            decreases entries.len() - i,
        {
            proof {
                assert(all.take(i as int + 1) =~= all.take(i as int).push(all[i as int]));
                lemma_overlay_push(old(self)@, all.take(i as int), all[i as int]);
            }
            self.put(entries[i].clone());
            i += 1;
        }
        assert(all.take(i as int) =~= all);
    }

    /// The entries of the tree, each path once and in its plain form.
    pub fn entries(&self) -> (listing: Vec<TreeEntry>)
        ensures
            views(listing@) == self.listing(),
            distinct_paths(views(listing@)),
            plain_paths(views(listing@)),
            tree_of(views(listing@)) == self@,
            listing.len() == self@.dom().len(),
    {
        proof {
            use_type_invariant(&*self);
            lemma_distinct_count(views(self.entries@));
        }
        let mut listing: Vec<TreeEntry> = Vec::new();
        let mut i: usize = 0;
        while i < self.entries.len()
            invariant
                i <= self.entries.len(),
                listing.len() == i,
                views(listing@) == views(self.entries@).take(i as int),
            decreases self.entries.len() - i,
        {
            let ghost old_listing = listing@;
            let ghost copied = views(listing@);
            let copy = self.entries[i].clone();
            listing.push(copy);
            proof {
                let target = views(self.entries@).take(i as int + 1);
                assert forall|k: int| 0 <= k < target.len() implies views(listing@)[k]
                    == target[k] by {
                    if k < i {
                        assert(listing@[k] == old_listing[k]);
                        assert(copied[k] == old_listing[k]@);
                    }
                }
                assert(views(listing@) =~= target);
            }
            i += 1;
        }
        proof {
            assert(views(self.entries@).take(i as int) =~= views(self.entries@));
        }
        listing
    }
}

/// Replacing an entry by another that is kept under the same path is a write
/// at that path.
proof fn lemma_replace(entries: Seq<EntryView>, i: int, entry: EntryView)
    requires
        distinct_paths(entries),
        plain_paths(entries),
        0 <= i < entries.len(),
        is_plain(entry.path),
        entries[i].key() == entry.key(),
    ensures
        distinct_paths(entries.update(i, entry)),
        plain_paths(entries.update(i, entry)),
        tree_of(entries.update(i, entry)) == written(tree_of(entries), entry),
{
    let after = entries.update(i, entry);
    assert forall|a: int, b: int| 0 <= a < b < after.len() implies after[a].key()
        != after[b].key() by {
        assert(entries[a].key() != entries[b].key());
    }
    assert forall|a: int| 0 <= a < after.len() implies is_plain((#[trigger] after[a]).path) by {
        if a != i {
            assert(is_plain(entries[a].path));
        }
    }
    lemma_tree_of_lookup(entries);
    lemma_tree_of_lookup(after);
    let left = tree_of(after);
    let right = written(tree_of(entries), entry);
    assert forall|path: Seq<char>| left.dom().contains(path) <==> right.dom().contains(path) by {
        if has_path(after, path) {
            let k = choose|k: int| 0 <= k < after.len() && (#[trigger] after[k]).key() == path;
            assert(entries[k].key() == path);
        }
        if has_path(entries, path) {
            let k = choose|k: int| 0 <= k < entries.len() && (#[trigger] entries[k]).key() == path;
            assert(after[k].key() == path);
        }
        if path == entry.key() {
            assert(after[i].key() == path);
        }
    }
    assert forall|path: Seq<char>| left.dom().contains(path) implies left[path] == right[path] by {
        let k = choose|k: int| 0 <= k < after.len() && (#[trigger] after[k]).key() == path;
        assert(left[after[k].key()] == after[k].node());
        if k != i {
            assert(entries[k].key() == path);
            assert(tree_of(entries)[entries[k].key()] == entries[k].node());
        }
    }
    assert(left =~= right);
}

/// A tree built from entries that are kept under distinct paths, none of
/// them the root, has one path per entry.
pub proof fn lemma_distinct_count(entries: Seq<EntryView>)
    requires
        distinct_paths(entries),
        forall|i: int| 0 <= i < entries.len() ==> (#[trigger] entries[i]).key().len() > 0,
    ensures
        tree_of(entries).dom().finite(),
        tree_of(entries).dom().len() == entries.len(),
    decreases entries.len(),
{
    if entries.len() > 0 {
        let rest = entries.drop_last();
        assert forall|i: int, j: int| 0 <= i < j < rest.len() implies rest[i].key()
            != rest[j].key() by {
            assert(entries[i].key() != entries[j].key());
        }
        assert forall|i: int| 0 <= i < rest.len() implies (#[trigger] rest[i]).key().len() > 0 by {
            assert(entries[i].key().len() > 0);
        }
        lemma_distinct_count(rest);
        lemma_tree_of_lookup(rest);
        assert(entries[entries.len() - 1].key().len() > 0);
        if has_path(rest, entries.last().key()) {
            let k = choose|k: int|
                0 <= k < rest.len() && (#[trigger] rest[k]).key() == entries.last().key();
            assert(entries[k].key() != entries[entries.len() - 1].key());
        }
    }
}

} // verus!
