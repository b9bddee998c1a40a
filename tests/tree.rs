use print::file_tree::{path_to_tree, DirScan, FileEntry};

fn file(name: &str) -> DirScan {
    DirScan { name: name.to_string(), is_dir: false, readable: true, children: Vec::new() }
}

fn dir(name: &str, children: Vec<DirScan>) -> DirScan {
    DirScan { name: name.to_string(), is_dir: true, readable: true, children }
}

fn unreadable(name: &str) -> DirScan {
    DirScan { name: name.to_string(), is_dir: true, readable: false, children: Vec::new() }
}

fn names(e: &FileEntry) -> Vec<String> {
    e.children.iter().map(|c| c.name.clone()).collect()
}

#[test]
fn hidden_dirs_are_skipped_and_rest_sorted() {
    let root = dir(
        "root",
        vec![
            file("zeta.txt"),
            dir(".git", vec![file("HEAD"), dir("objects", vec![])]),
            dir("src", vec![file("main.rs"), dir("util", vec![file("a.rs")])]),
            file("Cargo.toml"),
            file("alpha"),
        ],
    );
    let t = path_to_tree("demo".to_string(), &root);
    assert_eq!(t.name, "demo");
    assert!(t.is_dir);
    assert_eq!(names(&t), vec!["Cargo.toml", "alpha", "src", "zeta.txt"]);
    let src = &t.children[2];
    assert!(src.is_dir);
    assert_eq!(names(src), vec!["main.rs", "src/util"]);
    let util = &src.children[1];
    assert!(util.is_dir);
    assert_eq!(names(util), vec!["a.rs"]);
    assert!(!util.children[0].is_dir);
    assert!(util.children[0].children.is_empty());
}

#[test]
fn dot_files_are_kept() {
    let root = dir("root", vec![file(".env"), file("b"), dir(".cache", vec![file("x")])]);
    let t = path_to_tree("t".to_string(), &root);
    assert_eq!(names(&t), vec![".env", "b"]);
    assert!(!t.children[0].is_dir);
}

#[test]
fn unreadable_dir_keeps_siblings() {
    let root = dir(
        "root",
        vec![file("c"), unreadable("locked"), dir("b", vec![file("inner")]), file("a")],
    );
    let t = path_to_tree("t".to_string(), &root);
    assert_eq!(names(&t), vec!["a", "b", "c"]);
    assert_eq!(names(&t.children[1]), vec!["inner"]);
}

#[test]
fn unreadable_root_gives_empty_tree() {
    let t = path_to_tree("t".to_string(), &unreadable("root"));
    assert_eq!(t.name, "t");
    assert!(t.is_dir);
    assert!(t.children.is_empty());
    let t = path_to_tree("f".to_string(), &file("plain"));
    assert!(t.children.is_empty());
}

#[test]
fn empty_directory() {
    let t = path_to_tree("".to_string(), &dir("root", vec![]));
    assert_eq!(t.name, "");
    assert!(t.children.is_empty());
}

#[test]
fn sort_is_by_code_point() {
    let root = dir("r", vec![file("b"), file("B"), file("ab"), file("a"), file("é"), dir("_d", vec![])]);
    let t = path_to_tree("t".to_string(), &root);
    assert_eq!(names(&t), vec!["B", "_d", "a", "ab", "b", "é"]);
}

#[test]
fn new_and_default_entries() {
    let e = FileEntry::new("x".to_string());
    assert_eq!(e.name, "x");
    assert!(!e.is_dir);
    assert!(e.children.is_empty());
    let d = FileEntry::default();
    assert_eq!(d.name, "");
    assert!(!d.is_dir);
}
