use clasangd::resolver::{file_name, is_ignore_dir, make_uri, DirEntry, EntryKind, Probe};

/// A file tree held in memory: directories with their entries, and the
/// paths that resolve.
struct Tree {
    dirs: Vec<(String, Vec<DirEntry>)>,
    existing: Vec<String>,
    reads: Vec<String>,
}

fn file(path: &str) -> DirEntry {
    DirEntry { path: path.to_string(), kind: EntryKind::File }
}

fn dir(path: &str) -> DirEntry {
    DirEntry { path: path.to_string(), kind: EntryKind::Directory }
}

fn resolve_in(tree: &mut Tree, raw: &str, fallback: &str, root: &str) -> String {
    let (mut resolver, mut probe) = make_uri(raw, fallback, root);
    for _ in 0..1000 {
        probe = match probe {
            Probe::Done(uri) => return uri,
            Probe::Canonicalize(path) => {
                let found = tree.existing.iter().find(|p| **p == path).cloned();
                resolver.on_canonical(found)
            }
            Probe::IsDirectory(path) => {
                let is_dir = tree.dirs.iter().any(|(p, _)| *p == path);
                resolver.on_directory(is_dir)
            }
            Probe::ReadDirectory(path) => {
                tree.reads.push(path.clone());
                let entries = tree
                    .dirs
                    .iter()
                    .find(|(p, _)| *p == path)
                    .map(|(_, e)| e.clone())
                    .unwrap_or_default();
                resolver.on_listing(entries)
            }
        };
    }
    panic!("the search did not end");
}

#[test]
fn final_component_of_paths() {
    assert_eq!(file_name("/a/b/c.txt"), Some("c.txt".to_string()));
    assert_eq!(file_name("c.txt"), Some("c.txt".to_string()));
    assert_eq!(file_name("/a/b/"), Some("b".to_string()));
    assert_eq!(file_name("/a/b/."), Some("b".to_string()));
    assert_eq!(file_name("./a"), Some("a".to_string()));
    assert_eq!(file_name("/a/.."), None);
    assert_eq!(file_name(".."), None);
    assert_eq!(file_name("."), None);
    assert_eq!(file_name("/"), None);
    assert_eq!(file_name(""), None);
    assert_eq!(file_name("a//b"), Some("b".to_string()));
    assert_eq!(file_name("/a/.hidden"), Some(".hidden".to_string()));
    assert_eq!(file_name("/a/..."), Some("...".to_string()));
}

#[test]
fn ignored_directories() {
    assert!(is_ignore_dir("/w/.git"));
    assert!(is_ignore_dir("/w/target"));
    assert!(is_ignore_dir("/w/node_modules"));
    assert!(is_ignore_dir("/w/build"));
    assert!(is_ignore_dir("dist"));
    assert!(is_ignore_dir("/w/build/"));
    assert!(!is_ignore_dir("/w/src"));
    assert!(!is_ignore_dir("/w/targets"));
    assert!(!is_ignore_dir("/w/Build"));
    assert!(!is_ignore_dir("/target/src"));
    assert!(!is_ignore_dir("/"));
    assert!(!is_ignore_dir(""));
    assert!(!is_ignore_dir("/w/.."));
}

#[test]
fn path_that_resolves_is_taken_as_it_is() {
    let mut tree = Tree { dirs: vec![], existing: vec!["/abs/a.c".to_string()], reads: vec![] };
    assert_eq!(resolve_in(&mut tree, "/abs/a.c", "file:///fallback", "/w"), "file:///abs/a.c");
    assert!(tree.reads.is_empty());
}

#[test]
fn path_below_the_root_is_tried_second() {
    let mut tree = Tree { dirs: vec![], existing: vec!["/w/src/a.c".to_string()], reads: vec![] };
    assert_eq!(resolve_in(&mut tree, "src/a.c", "file:///fallback", "/w"), "file:///w/src/a.c");
    assert!(tree.reads.is_empty());
}

#[test]
fn file_three_directories_deep_is_found() {
    let mut tree = Tree {
        dirs: vec![
            ("/w".to_string(), vec![file("/w/README"), dir("/w/one"), dir("/w/.git"), dir("/w/target")]),
            ("/w/one".to_string(), vec![dir("/w/one/two")]),
            ("/w/one/two".to_string(), vec![dir("/w/one/two/three"), file("/w/one/two/other.c")]),
            ("/w/one/two/three".to_string(), vec![file("/w/one/two/three/deep.c")]),
            ("/w/.git".to_string(), vec![file("/w/.git/deep.c")]),
            ("/w/target".to_string(), vec![file("/w/target/deep.c")]),
        ],
        existing: vec![],
        reads: vec![],
    };
    assert_eq!(
        resolve_in(&mut tree, "build/deep.c", "file:///fallback", "/w"),
        "file:///w/one/two/three/deep.c"
    );
    assert_eq!(tree.reads, vec!["/w", "/w/one", "/w/one/two", "/w/one/two/three"]);
}

#[test]
fn root_without_entries_gives_the_fallback() {
    let mut tree = Tree { dirs: vec![("/w".to_string(), vec![])], existing: vec![], reads: vec![] };
    assert_eq!(resolve_in(&mut tree, "a.c", "file:///fallback", "/w"), "file:///fallback");
    assert_eq!(tree.reads, vec!["/w"]);
}

#[test]
fn root_that_is_no_directory_gives_the_fallback() {
    let mut tree = Tree { dirs: vec![], existing: vec![], reads: vec![] };
    assert_eq!(resolve_in(&mut tree, "a.c", "file:///fallback", "/w"), "file:///fallback");
    assert!(tree.reads.is_empty());
}

#[test]
fn path_without_a_name_gives_the_fallback() {
    let mut tree = Tree {
        dirs: vec![("/w".to_string(), vec![file("/w/a.c")])],
        existing: vec![],
        reads: vec![],
    };
    assert_eq!(resolve_in(&mut tree, "..", "file:///fallback", "/w"), "file:///fallback");
    assert!(tree.reads.is_empty());
}

#[test]
fn search_is_breadth_first_and_takes_the_first_match() {
    let mut tree = Tree {
        dirs: vec![
            ("/w".to_string(), vec![dir("/w/a"), dir("/w/b")]),
            ("/w/a".to_string(), vec![dir("/w/a/deep")]),
            ("/w/a/deep".to_string(), vec![file("/w/a/deep/x.c")]),
            ("/w/b".to_string(), vec![file("/w/b/y.c"), file("/w/b/x.c"), file("/w/b/x.c.bak")]),
        ],
        existing: vec![],
        reads: vec![],
    };
    assert_eq!(resolve_in(&mut tree, "x.c", "file:///fallback", "/w"), "file:///w/b/x.c");
    assert_eq!(tree.reads, vec!["/w", "/w/a", "/w/b"]);
}

#[test]
fn directory_is_listed_once_though_found_twice() {
    let mut tree = Tree {
        dirs: vec![
            ("/w".to_string(), vec![dir("/w/a"), dir("/w/a"), dir("/w")]),
            ("/w/a".to_string(), vec![dir("/w"), dir("/w/a")]),
        ],
        existing: vec![],
        reads: vec![],
    };
    assert_eq!(resolve_in(&mut tree, "x.c", "file:///fallback", "/w"), "file:///fallback");
    assert_eq!(tree.reads, vec!["/w", "/w/a"]);
}

#[test]
fn answers_out_of_turn_end_with_the_fallback() {
    let (mut resolver, probe) = make_uri("a.c", "file:///fallback", "/w");
    assert_eq!(probe, Probe::Canonicalize("a.c".to_string()));
    assert_eq!(resolver.on_directory(true), Probe::Done("file:///fallback".to_string()));
    let (mut resolver, _) = make_uri("a.c", "file:///fallback", "/w");
    assert_eq!(resolver.on_listing(vec![file("/w/a.c")]), Probe::Done("file:///fallback".to_string()));
    let (mut resolver, _) = make_uri("a.c", "file:///fallback", "/w");
    assert_eq!(resolver.on_canonical(None), Probe::Canonicalize("/w/a.c".to_string()));
    assert_eq!(resolver.on_canonical(None), Probe::IsDirectory("/w".to_string()));
    assert_eq!(resolver.on_canonical(None), Probe::Done("file:///fallback".to_string()));
}
