use clasangd::diagnostic::{Diagnostic, Position, Range, Severity};
use clasangd::lsp_diagnosis::{
    create_publish_message, diagnostic_text, publish_all, publish_message, refresh, Located,
};
use clasangd::lsp_mainloop::{
    backend_event, client_event, client_to_server_step, on_backend_event, on_client_event,
    read_diagnostic, read_diagnostics, server_to_client_step, uri_path, Action, BackendEvent,
    ClientEvent,
};
use clasangd::store::DiagStore;
use serde_json::Value;

fn json(text: &str) -> Value {
    serde_json::from_str(text).unwrap()
}

fn point(line: u64, character: u64, severity: Severity, source: &str, message: &str) -> Diagnostic {
    Diagnostic {
        range: Range::at(line, character),
        severity,
        source: source.to_string(),
        message: message.to_string(),
    }
}

#[test]
fn diagnostic_is_written_in_the_wire_shape() {
    let d = point(9, 4, Severity::Error, "ubsan/asan", "say \"hi\"\n");
    let text: String = diagnostic_text(&d).unwrap().iter().collect();
    assert_eq!(
        text,
        "{\"range\":{\"start\":{\"line\":9,\"character\":4},\"end\":{\"line\":9,\"character\":5}},\"severity\":1,\"source\":\"ubsan/asan\",\"message\":\"say \\\"hi\\\"\\n\"}"
    );
    let back = json(&text);
    assert_eq!(read_diagnostic(&back), d);
}

#[test]
fn publish_message_holds_uri_version_and_list() {
    let list = vec![
        point(0, 0, Severity::Warning, "a", "x"),
        point(1, 2, Severity::Information, "b", "y"),
    ];
    let text = publish_message("file:///a b.c", "7", &list).unwrap();
    let value = json(&text);
    assert_eq!(value["jsonrpc"], Value::from("2.0"));
    assert_eq!(value["method"], Value::from("textDocument/publishDiagnostics"));
    assert_eq!(value["params"]["uri"], Value::from("file:///a b.c"));
    assert_eq!(value["params"]["version"], Value::from(7));
    assert_eq!(read_diagnostics(value["params"].get("diagnostics")), list);
    assert_eq!(value["params"]["diagnostics"][1]["severity"], Value::from(3));
    let empty = publish_message("u", "null", &vec![]).unwrap();
    assert_eq!(
        empty,
        "{\"jsonrpc\":\"2.0\",\"method\":\"textDocument/publishDiagnostics\",\"params\":{\"uri\":\"u\",\"version\":null,\"diagnostics\":[]}}"
    );
}

#[test]
fn created_message_holds_the_merged_list() {
    let mut store = DiagStore::new();
    let a = point(1, 0, Severity::Error, "clang", "a");
    let b = point(2, 0, Severity::Error, "runtime", "b");
    store.set_native("file:///x.c", vec![a.clone()]);
    let mined = vec![
        Located { uri: "file:///x.c".to_string(), diagnostic: a.clone() },
        Located { uri: "file:///x.c".to_string(), diagnostic: b.clone() },
    ];
    let messages = refresh(&mut store, &mined);
    assert_eq!(messages.len(), 1);
    let value = json(&messages[0]);
    assert_eq!(value["params"]["uri"], Value::from("file:///x.c"));
    assert_eq!(value["params"]["version"], Value::Null);
    assert_eq!(read_diagnostics(value["params"].get("diagnostics")), vec![a.clone(), b]);
    assert_eq!(create_publish_message(&store, "file:///x.c").unwrap(), messages[0]);
    // A file that lost its diagnostics from the logs is published again.
    let again = refresh(&mut store, &vec![]);
    assert_eq!(again.len(), 1);
    assert_eq!(read_diagnostics(json(&again[0])["params"].get("diagnostics")), vec![a]);
    assert_eq!(refresh(&mut store, &vec![]), Vec::<String>::new());
}

#[test]
fn publish_all_goes_by_the_list_of_uris() {
    let mut store = DiagStore::new();
    store.set_native("b", vec![point(1, 0, Severity::Error, "s", "m")]);
    let messages = publish_all(&store, &vec!["b".to_string(), "a".to_string()]);
    assert_eq!(messages.len(), 2);
    assert_eq!(json(&messages[0])["params"]["uri"], Value::from("b"));
    assert_eq!(json(&messages[1])["params"]["uri"], Value::from("a"));
    assert_eq!(json(&messages[1])["params"]["diagnostics"], Value::Array(vec![]));
}

#[test]
fn diagnostic_is_read_with_defaults() {
    let d = read_diagnostic(&json(
        "{\"range\":{\"start\":{\"line\":3,\"character\":1},\"end\":{\"line\":4,\"character\":2}},\"severity\":2,\"source\":\"clangd\",\"message\":\"m\",\"code\":\"x\"}",
    ));
    assert_eq!(d.range.start, Position { line: 3, character: 1 });
    assert_eq!(d.range.end, Position { line: 4, character: 2 });
    assert_eq!(d.severity, Severity::Warning);
    assert_eq!(d.source, "clangd");
    assert_eq!(d.message, "m");
    let bare = read_diagnostic(&json("{}"));
    assert_eq!(bare.range.start, Position { line: 0, character: 0 });
    assert_eq!(bare.range.end, Position { line: 0, character: 0 });
    assert_eq!(bare.severity, Severity::Information);
    assert_eq!(bare.source, "");
    assert_eq!(bare.message, "");
    let odd = read_diagnostic(&json("{\"range\":7,\"severity\":\"1\",\"source\":3,\"message\":null}"));
    assert_eq!(odd, bare);
    assert_eq!(read_diagnostics(Some(&json("{}"))), Vec::<Diagnostic>::new());
    assert_eq!(read_diagnostics(None), Vec::<Diagnostic>::new());
}

#[test]
fn client_messages_are_told_apart_by_method() {
    assert_eq!(
        client_event(&json("{\"id\":1,\"method\":\"initialize\",\"params\":{\"rootPath\":\"/w\",\"rootUri\":\"file:///other\"}}")),
        ClientEvent::Initialize { id: "1".to_string(), root: "/w".to_string() }
    );
    assert_eq!(
        client_event(&json("{\"id\":\"x\",\"method\":\"initialize\",\"params\":{\"rootPath\":null,\"rootUri\":\"file:///w/s\"}}")),
        ClientEvent::Initialize { id: "\"x\"".to_string(), root: "/w/s".to_string() }
    );
    assert_eq!(
        client_event(&json("{\"method\":\"initialize\"}")),
        ClientEvent::Initialize { id: "null".to_string(), root: "".to_string() }
    );
    for method in ["textDocument/didOpen", "textDocument/didChange", "textDocument/didSave"] {
        let text = format!(
            "{{\"method\":\"{}\",\"params\":{{\"textDocument\":{{\"uri\":\"file:///a.c\"}}}}}}",
            method
        );
        assert_eq!(
            client_event(&json(&text)),
            ClientEvent::Document { uri: "file:///a.c".to_string() }
        );
    }
    assert_eq!(
        client_event(&json("{\"method\":\"textDocument/didOpen\"}")),
        ClientEvent::Document { uri: "".to_string() }
    );
    assert_eq!(
        client_event(&json("{\"id\":9,\"method\":\"shutdown\"}")),
        ClientEvent::Shutdown { id: "9".to_string() }
    );
    assert_eq!(client_event(&json("{\"method\":\"exit\"}")), ClientEvent::Exit);
    assert_eq!(client_event(&json("{\"method\":\"textDocument/hover\"}")), ClientEvent::Other);
    assert_eq!(client_event(&json("{\"method\":7}")), ClientEvent::Other);
    assert_eq!(client_event(&json("{\"id\":1,\"result\":null}")), ClientEvent::Other);
    assert_eq!(client_event(&json("[]")), ClientEvent::Other);
}

#[test]
fn path_of_a_file_uri() {
    assert_eq!(uri_path("file:///home/u/w"), "/home/u/w");
    assert_eq!(uri_path("/home/u/w"), "/home/u/w");
    assert_eq!(uri_path("file://"), "");
    assert_eq!(uri_path(""), "");
    assert_eq!(uri_path("http://x"), "http://x");
}

#[test]
fn initialize_without_backend_is_answered() {
    let mut store = DiagStore::new();
    let actions = client_to_server_step(
        &mut store,
        &json("{\"jsonrpc\":\"2.0\",\"id\":3,\"method\":\"initialize\",\"params\":{\"rootPath\":\"/w\"}}"),
        false,
    );
    assert_eq!(
        actions,
        vec![Action::SendToClient(
            "{\"jsonrpc\":\"2.0\",\"id\":3,\"result\":{\"capabilities\":{\"textDocumentSync\":1}}}"
                .to_string()
        )]
    );
    assert_eq!(store.workspace_root(), Some("/w".to_string()));
    let reply = match &actions[0] {
        Action::SendToClient(text) => json(text),
        _ => unreachable!(),
    };
    assert_eq!(reply["result"]["capabilities"]["textDocumentSync"], Value::from(1));
    // A second initialize does not move the root.
    client_to_server_step(
        &mut store,
        &json("{\"id\":4,\"method\":\"initialize\",\"params\":{\"rootPath\":\"/other\"}}"),
        false,
    );
    assert_eq!(store.workspace_root(), Some("/w".to_string()));
}

#[test]
fn initialize_with_backend_is_passed_on() {
    let mut store = DiagStore::new();
    let event = ClientEvent::Initialize { id: "1".to_string(), root: "/w".to_string() };
    assert_eq!(on_client_event(&mut store, &event, true), vec![Action::ForwardToBackend]);
    assert_eq!(store.workspace_root(), Some("/w".to_string()));
}

#[test]
fn document_notifications_set_the_current_document() {
    let mut store = DiagStore::new();
    let open = ClientEvent::Document { uri: "file:///a.c".to_string() };
    assert_eq!(on_client_event(&mut store, &open, false), Vec::<Action>::new());
    assert_eq!(store.current_uri(), "file:///a.c");
    let nameless = ClientEvent::Document { uri: "".to_string() };
    assert_eq!(on_client_event(&mut store, &nameless, true), vec![Action::ForwardToBackend]);
    assert_eq!(store.current_uri(), "file:///a.c");
}

#[test]
fn shutdown_exit_and_the_rest() {
    let mut store = DiagStore::new();
    let shutdown = ClientEvent::Shutdown { id: "\"s\"".to_string() };
    let reply = Action::SendToClient("{\"jsonrpc\":\"2.0\",\"id\":\"s\",\"result\":null}".to_string());
    assert_eq!(on_client_event(&mut store, &shutdown, false), vec![reply.clone()]);
    assert_eq!(on_client_event(&mut store, &shutdown, true), vec![reply, Action::ForwardToBackend]);
    assert_eq!(on_client_event(&mut store, &ClientEvent::Exit, false), vec![Action::Exit]);
    assert_eq!(
        on_client_event(&mut store, &ClientEvent::Exit, true),
        vec![Action::ForwardToBackend, Action::Exit]
    );
    assert_eq!(on_client_event(&mut store, &ClientEvent::Other, false), Vec::<Action>::new());
    assert_eq!(on_client_event(&mut store, &ClientEvent::Other, true), vec![Action::ForwardToBackend]);
}

#[test]
fn backend_publication_is_merged_before_it_goes_on() {
    let mut store = DiagStore::new();
    let mined = point(4, 0, Severity::Error, "runtime", "boom");
    refresh(&mut store, &vec![Located { uri: "file:///a.c".to_string(), diagnostic: mined.clone() }]);
    let message = json(
        "{\"jsonrpc\":\"2.0\",\"method\":\"textDocument/publishDiagnostics\",\"params\":{\"uri\":\"file:///a.c\",\"version\":12,\"diagnostics\":[{\"range\":{\"start\":{\"line\":1,\"character\":2},\"end\":{\"line\":1,\"character\":9}},\"severity\":2,\"source\":\"clangd\",\"message\":\"unused\"}]}}",
    );
    let native = Diagnostic {
        range: Range {
            start: Position { line: 1, character: 2 },
            end: Position { line: 1, character: 9 },
        },
        severity: Severity::Warning,
        source: "clangd".to_string(),
        message: "unused".to_string(),
    };
    assert_eq!(
        backend_event(&message),
        BackendEvent::Publish {
            uri: "file:///a.c".to_string(),
            version: "12".to_string(),
            diagnostics: vec![native.clone()],
        }
    );
    let actions = server_to_client_step(&mut store, &message);
    assert_eq!(actions.len(), 1);
    let sent = match &actions[0] {
        Action::SendToClient(text) => json(text),
        _ => unreachable!(),
    };
    assert_eq!(sent["method"], Value::from("textDocument/publishDiagnostics"));
    assert_eq!(sent["params"]["uri"], Value::from("file:///a.c"));
    assert_eq!(sent["params"]["version"], Value::from(12));
    assert_eq!(read_diagnostics(sent["params"].get("diagnostics")), vec![native.clone(), mined.clone()]);
    assert_eq!(store.merged_for("file:///a.c"), vec![native, mined.clone()]);
    // The next publication replaces the first.
    let cleared = BackendEvent::Publish {
        uri: "file:///a.c".to_string(),
        version: "null".to_string(),
        diagnostics: vec![],
    };
    on_backend_event(&mut store, cleared);
    assert_eq!(store.merged_for("file:///a.c"), vec![mined]);
}

#[test]
fn other_backend_messages_pass_through() {
    let mut store = DiagStore::new();
    let message = json("{\"jsonrpc\":\"2.0\",\"id\":1,\"result\":{}}");
    assert_eq!(backend_event(&message), BackendEvent::Other);
    assert_eq!(server_to_client_step(&mut store, &message), vec![Action::ForwardToClient]);
    assert_eq!(on_backend_event(&mut store, BackendEvent::Other), vec![Action::ForwardToClient]);
}
