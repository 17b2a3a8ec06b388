use doki::tree::{ContentTree, EntryKind, TreeEntry};

fn file(path: &str, data: &[u8]) -> TreeEntry {
    TreeEntry::file(path.to_string(), data.to_vec())
}

#[test]
fn new_tree_is_empty() {
    let tree = ContentTree::new();
    assert_eq!(tree.len(), 0);
    assert!(tree.get("a").is_none());
    assert!(tree.entries().is_empty());
}

#[test]
fn put_adds_and_replaces() {
    let mut tree = ContentTree::new();
    tree.put(file("a/b.html", b"one"));
    tree.put(file("c.css", b"two"));
    assert_eq!(tree.len(), 2);
    assert_eq!(tree.read("a/b.html"), Some(&b"one".to_vec()));
    tree.put(file("a/b.html", b"three"));
    assert_eq!(tree.len(), 2);
    assert_eq!(tree.read("a/b.html"), Some(&b"three".to_vec()));
    assert_eq!(tree.read("c.css"), Some(&b"two".to_vec()));
}

#[test]
fn directories_have_no_bytes() {
    let mut tree = ContentTree::new();
    tree.put(TreeEntry::directory("docs".to_string()));
    let entry = tree.get("docs").expect("present");
    assert_eq!(entry.kind, EntryKind::Directory);
    assert!(entry.data.is_empty());
    assert_eq!(tree.read("docs"), None);
    assert_eq!(tree.read("absent"), None);
}

#[test]
fn a_file_can_replace_a_directory() {
    let mut tree = ContentTree::new();
    tree.put(TreeEntry::directory("x".to_string()));
    tree.put(file("x", b"now a file"));
    assert_eq!(tree.len(), 1);
    assert_eq!(tree.read("x"), Some(&b"now a file".to_vec()));
}

#[test]
fn clear_leaves_an_empty_tree() {
    let mut tree = ContentTree::new();
    tree.put(file("a", b"1"));
    tree.put(TreeEntry::directory("d".to_string()));
    tree.clear();
    assert_eq!(tree.len(), 0);
    assert!(tree.get("a").is_none());
    tree.clear();
    assert_eq!(tree.len(), 0);
}

#[test]
fn extract_writes_in_order() {
    let mut tree = ContentTree::new();
    tree.put(file("keep", b"kept"));
    tree.extract(vec![file("a", b"first"), file("b", b"b"), file("a", b"second")]);
    assert_eq!(tree.len(), 3);
    assert_eq!(tree.read("a"), Some(&b"second".to_vec()));
    assert_eq!(tree.read("b"), Some(&b"b".to_vec()));
    assert_eq!(tree.read("keep"), Some(&b"kept".to_vec()));
}

#[test]
fn entries_list_every_path_once() {
    let mut tree = ContentTree::new();
    tree.put(file("a", b"1"));
    tree.put(file("b", b"2"));
    tree.put(file("a", b"3"));
    let mut listing: Vec<(String, Vec<u8>)> =
        tree.entries().into_iter().map(|e| (e.path, e.data)).collect();
    listing.sort();
    assert_eq!(
        listing,
        vec![("a".to_string(), b"3".to_vec()), ("b".to_string(), b"2".to_vec())]
    );
}

#[test]
fn entry_clone_keeps_everything() {
    let entry = file("p", b"q");
    let copy = entry.clone();
    assert_eq!(copy.path, "p");
    assert_eq!(copy.kind, EntryKind::File);
    assert_eq!(copy.data, b"q".to_vec());
}

#[test]
fn paths_are_kept_in_their_plain_form() {
    let mut tree = ContentTree::new();
    tree.put(file("./a//b.html", b"one"));
    assert_eq!(tree.len(), 1);
    assert_eq!(tree.read("a/b.html"), Some(&b"one".to_vec()));
    assert_eq!(tree.read("./a/b.html"), Some(&b"one".to_vec()));
    assert_eq!(tree.read("a/./b.html/"), Some(&b"one".to_vec()));
    assert_eq!(tree.get("a//b.html").map(|e| e.path.as_str()), Some("a/b.html"));
    let listed: Vec<String> = tree.entries().into_iter().map(|e| e.path).collect();
    assert_eq!(listed, vec!["a/b.html".to_string()]);
}

#[test]
fn two_spellings_of_one_path_are_one_entry() {
    let mut tree = ContentTree::new();
    tree.put(file("docs/index.html", b"old"));
    tree.put(file("./docs//index.html", b"new"));
    tree.put(TreeEntry::directory("img/".to_string()));
    tree.put(TreeEntry::directory("img".to_string()));
    assert_eq!(tree.len(), 2);
    assert_eq!(tree.read("docs/index.html"), Some(&b"new".to_vec()));
    assert_eq!(tree.get("img").map(|e| e.kind), Some(EntryKind::Directory));
}

#[test]
fn the_root_itself_is_not_kept() {
    let mut tree = ContentTree::new();
    tree.put(TreeEntry::directory("./".to_string()));
    tree.put(TreeEntry::directory("".to_string()));
    tree.put(file(".", b"x"));
    tree.put(file("/", b"y"));
    assert_eq!(tree.len(), 0);
    assert!(tree.get("").is_none());
    assert!(tree.get(".").is_none());
    tree.extract(vec![TreeEntry::directory("./".to_string()), file("./kept", b"k")]);
    assert_eq!(tree.len(), 1);
    assert_eq!(tree.read("kept"), Some(&b"k".to_vec()));
}
