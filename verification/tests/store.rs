use clasangd::diagnostic::{holds, push_unseen, Diagnostic, Position, Range, Severity};
use clasangd::lsp_diagnosis::{group_by_uri, update_logs_store, Located};
use clasangd::store::{DiagStore, Table};

fn diag(line: u64, severity: Severity, source: &str, message: &str) -> Diagnostic {
    Diagnostic {
        range: Range::at(line, 0),
        severity,
        source: source.to_string(),
        message: message.to_string(),
    }
}

fn a() -> Diagnostic {
    diag(1, Severity::Error, "clang", "a")
}

fn b() -> Diagnostic {
    diag(2, Severity::Warning, "clang", "b")
}

fn c() -> Diagnostic {
    diag(3, Severity::Information, "runtime", "c")
}

fn table_of(uri: &str, list: Vec<Diagnostic>) -> Table {
    let mut t = Table::new();
    t.set(uri, list);
    t
}

#[test]
fn severity_codes() {
    assert_eq!(Severity::Error.code(), 1);
    assert_eq!(Severity::Warning.code(), 2);
    assert_eq!(Severity::Information.code(), 3);
    assert_eq!(Severity::from_code(1), Severity::Error);
    assert_eq!(Severity::from_code(2), Severity::Warning);
    assert_eq!(Severity::from_code(3), Severity::Information);
    assert_eq!(Severity::from_code(0), Severity::Information);
    assert_eq!(Severity::from_code(4), Severity::Information);
}

#[test]
fn range_at_is_one_character_wide() {
    let r = Range::at(9, 4);
    assert_eq!(r.start, Position { line: 9, character: 4 });
    assert_eq!(r.end, Position { line: 9, character: 5 });
    let edge = Range::at(0, u64::MAX);
    assert_eq!(edge.end, Position { line: 0, character: u64::MAX });
}

#[test]
fn same_compares_all_four_parts() {
    assert!(a().same(&a()));
    assert!(!a().same(&b()));
    let mut other = a();
    other.message = "x".to_string();
    assert!(!a().same(&other));
    let mut other = a();
    other.source = "x".to_string();
    assert!(!a().same(&other));
    let mut other = a();
    other.severity = Severity::Warning;
    assert!(!a().same(&other));
    let mut other = a();
    other.range.end.character = 9;
    assert!(!a().same(&other));
    assert_eq!(a().duplicate(), a());
}

#[test]
fn merge_drops_later_duplicates_and_keeps_order() {
    let mut store = DiagStore::new();
    store.set_native("file:///x.c", vec![a(), a(), b()]);
    store.set_logs(table_of("file:///x.c", vec![b(), c()]));
    assert_eq!(store.merged_for("file:///x.c"), vec![a(), b(), c()]);
}

#[test]
fn merge_twice_gives_the_same_list() {
    let mut store = DiagStore::new();
    store.set_native("file:///x.c", vec![b(), a(), b()]);
    store.set_logs(table_of("file:///x.c", vec![c(), a(), c()]));
    let first = store.merged_for("file:///x.c");
    let second = store.merged_for("file:///x.c");
    assert_eq!(first, second);
    assert_eq!(first, vec![b(), a(), c()]);
}

#[test]
fn merge_of_unknown_file_is_empty() {
    let store = DiagStore::new();
    assert_eq!(store.merged_for("file:///nowhere"), Vec::<Diagnostic>::new());
}

#[test]
fn native_diagnostics_are_replaced_per_file() {
    let mut store = DiagStore::new();
    store.set_native("file:///y.c", vec![c()]);
    store.set_native("file:///x.c", vec![a()]);
    store.set_native("file:///x.c", vec![b()]);
    assert_eq!(store.merged_for("file:///x.c"), vec![b()]);
    assert_eq!(store.merged_for("file:///y.c"), vec![c()]);
}

#[test]
fn logs_are_replaced_as_a_whole() {
    let mut store = DiagStore::new();
    store.set_native("file:///x.c", vec![a()]);
    store.set_logs(table_of("file:///x.c", vec![b()]));
    assert_eq!(store.merged_for("file:///x.c"), vec![a(), b()]);
    store.set_logs(table_of("file:///y.c", vec![c()]));
    assert_eq!(store.merged_for("file:///x.c"), vec![a()]);
    assert_eq!(store.merged_for("file:///y.c"), vec![c()]);
}

#[test]
fn default_store_is_empty() {
    let store = DiagStore::default();
    assert_eq!(store.current_uri(), "");
    assert_eq!(store.workspace_root(), None);
    assert_eq!(store.merged_for(""), Vec::<Diagnostic>::new());
}

#[test]
fn current_uri_and_root() {
    let mut store = DiagStore::new();
    assert_eq!(store.current_uri(), "");
    assert_eq!(store.workspace_root(), None);
    store.set_current_uri("file:///a.c");
    store.set_current_uri("file:///b.c");
    assert_eq!(store.current_uri(), "file:///b.c");
    store.set_workspace_root("/w");
    store.set_workspace_root("/other");
    assert_eq!(store.workspace_root(), Some("/w".to_string()));
}

#[test]
fn table_set_get_append_and_uris() {
    let mut t = Table::new();
    assert!(t.get("u").is_none());
    t.append("u", a());
    t.append("v", b());
    t.append("u", c());
    assert_eq!(t.get("u"), Some(&vec![a(), c()]));
    assert_eq!(t.get("v"), Some(&vec![b()]));
    t.set("u", vec![b()]);
    assert_eq!(t.get("u"), Some(&vec![b()]));
    t.set("a", vec![]);
    assert_eq!(t.get("a"), Some(&vec![]));
    assert_eq!(t.uris(), vec!["a", "u", "v"]);
}

#[test]
fn push_unseen_and_holds() {
    let mut out = vec![a()];
    assert!(holds(&out, &a()));
    assert!(!holds(&out, &b()));
    push_unseen(&mut out, &vec![b(), a(), b(), c()]);
    assert_eq!(out, vec![a(), b(), c()]);
}

#[test]
fn grouping_keeps_the_order_within_each_file() {
    let mined = vec![
        Located { uri: "file:///b".to_string(), diagnostic: a() },
        Located { uri: "file:///a".to_string(), diagnostic: b() },
        Located { uri: "file:///b".to_string(), diagnostic: c() },
        Located { uri: "file:///b".to_string(), diagnostic: a() },
    ];
    let table = group_by_uri(&mined);
    assert_eq!(table.get("file:///b"), Some(&vec![a(), c(), a()]));
    assert_eq!(table.get("file:///a"), Some(&vec![b()]));
    assert_eq!(table.uris(), vec!["file:///a", "file:///b"]);
}

#[test]
fn update_names_old_and_new_files_in_order() {
    let mut store = DiagStore::new();
    let first = vec![
        Located { uri: "file:///z".to_string(), diagnostic: a() },
        Located { uri: "file:///m".to_string(), diagnostic: b() },
    ];
    assert_eq!(update_logs_store(&mut store, &first), vec!["file:///m", "file:///z"]);
    let second = vec![
        Located { uri: "file:///a".to_string(), diagnostic: c() },
        Located { uri: "file:///m".to_string(), diagnostic: c() },
    ];
    assert_eq!(
        update_logs_store(&mut store, &second),
        vec!["file:///a", "file:///m", "file:///z"]
    );
    assert_eq!(store.merged_for("file:///z"), Vec::<Diagnostic>::new());
    assert_eq!(store.merged_for("file:///m"), vec![c()]);
    assert_eq!(update_logs_store(&mut store, &vec![]), vec!["file:///a", "file:///m"]);
    assert_eq!(update_logs_store(&mut store, &vec![]), Vec::<String>::new());
}
