use doki::path::{canonicalize, is_confined, is_file_name};

#[test]
fn plain_relative_paths_are_confined() {
    for path in ["a", "a/b", "a/b/c.html", "a/b/", "a//b", "docs/v1.2/index.html"] {
        assert!(is_confined(path), "{}", path);
    }
}

#[test]
fn the_empty_path_is_confined() {
    assert!(is_confined(""));
}

#[test]
fn dots_that_are_not_a_step_up_are_confined() {
    for path in
        [".", "./a", "a/./b", "...", "a/...", "..a", "a..", "a/..b", "a/b../c", ".a/..b.", "a/."]
    {
        assert!(is_confined(path), "{}", path);
    }
}

#[test]
fn a_step_up_is_not_confined() {
    for path in ["..", "../a", "a/..", "a/../b", "a/b/../../..", "./..", "..//", "a//..", "a/../"] {
        assert!(!is_confined(path), "{}", path);
    }
}

#[test]
fn a_leading_slash_is_not_confined() {
    for path in ["/", "/a", "//a", "/a/b", "/.."] {
        assert!(!is_confined(path), "{}", path);
    }
}

#[test]
fn other_scripts_are_read_by_characters() {
    assert!(is_confined("документы/файл.txt"));
    assert!(!is_confined("документы/../файл.txt"));
    assert!(is_confined("文档/。。/x"));
}

#[test]
fn plain_paths_are_their_own_plain_form() {
    for path in ["a", "a/b", "a/b/c.html", "docs/v1.2/index.html", "...", "a/..b", ".a", "a."] {
        assert_eq!(canonicalize(path), path);
    }
}

#[test]
fn the_plain_form_drops_dots_and_spare_slashes() {
    assert_eq!(canonicalize("./index.html"), "index.html");
    assert_eq!(canonicalize("./a//b/"), "a/b");
    assert_eq!(canonicalize("a/./b"), "a/b");
    assert_eq!(canonicalize("/a/b"), "a/b");
    assert_eq!(canonicalize("//a///b//"), "a/b");
    assert_eq!(canonicalize("a/b/."), "a/b");
    assert_eq!(canonicalize("img/"), "img");
    assert_eq!(canonicalize("././x/./."), "x");
}

#[test]
fn the_plain_form_of_the_directory_itself_is_empty() {
    for path in ["", ".", "./", "/", "//", "./.", "/./", "././/"] {
        assert_eq!(canonicalize(path), "", "{:?}", path);
    }
}

#[test]
fn the_plain_form_keeps_steps_up() {
    assert_eq!(canonicalize(".."), "..");
    assert_eq!(canonicalize("a/../b"), "a/../b");
    assert_eq!(canonicalize("./../x/"), "../x");
}

#[test]
fn the_plain_form_is_its_own_plain_form() {
    for path in ["./a//b/", "/", "a/./../b//", "документы//файл.txt", "./文档/./x/"] {
        let once = canonicalize(path);
        assert_eq!(canonicalize(&once), once);
    }
    assert_eq!(canonicalize("документы//файл.txt"), "документы/файл.txt");
}

#[test]
fn a_file_name_stays_below_names_something_and_ends_without_a_slash() {
    for path in ["a", "a/b.html", "./a", "a//b", "a/./b", "..a", "a/..b"] {
        assert!(is_file_name(path), "{:?}", path);
    }
    for path in ["", ".", "./", "/", "a/", "a/b/", "/a", "../a", "a/..", "a/../b", "./."] {
        assert!(!is_file_name(path), "{:?}", path);
    }
}
