//! The relay between client and backend. Most messages pass through
//! untouched; a few are read on the way: they set the workspace root and
//! the current document, are answered in place of the backend, or have
//! their diagnostics merged with those from the logs. What to do with a
//! message is decided here; the caller does it.

use crate::diagnostic::{views, Diagnostic, DiagnosticView, Position, Range, Severity};
use crate::json::{
    items, json_items, json_member, json_number, json_text, json_written, member, number, text,
    written,
};
use crate::lsp_diagnosis::{publish_json, publish_message};
use crate::store::{DiagStore, StoreView};
use crate::text::{chars_of, copy_range, same_text, starts_with, string_of};
use serde_json::Value;
use vstd::prelude::*;

verus! {

// ------------------------------------------------------ reading documents

/// The value behind an optional reference.
pub open spec fn held(value: Option<&Value>) -> Option<Value> {
    match value {
        Some(v) => Some(*v),
        None => None,
    }
}

/// The member `key` of a value, if there is a value and it has one.
pub open spec fn member_of(value: Option<Value>, key: Seq<char>) -> Option<Value> {
    match value {
        Some(v) => json_member(v, key),
        None => None,
    }
}

/// The text of a value that is a string; empty where there is no value or
/// it is no string.
pub open spec fn text_or_empty(value: Option<Value>) -> Seq<char> {
    match value {
        Some(v) => match json_text(v) {
            Some(t) => t,
            None => Seq::empty(),
        },
        None => Seq::empty(),
    }
}

/// The number of a value that is a number; zero where there is no value
/// or it is no such number.
pub open spec fn number_or_zero(value: Option<Value>) -> u64 {
    match value {
        Some(v) => match json_number(v) {
            Some(n) => n,
            None => 0,
        },
        None => 0,
    }
}

/// A value as JSON text; `null` where there is no value or it cannot be
/// written.
pub open spec fn written_or_null(value: Option<Value>) -> Seq<char> {
    match value {
        Some(v) => match json_written(v) {
            Some(t) => t,
            None => "null"@,
        },
        None => "null"@,
    }
}

/// The member `key` of a value.
pub fn child<'a>(value: Option<&'a Value>, key: &str) -> (r: Option<&'a Value>)
    ensures
        held(r) == member_of(held(value), key@),
{
    match value {
        Some(v) => member(v, key),
        None => None,
    }
}

/// The text of a value that is a string, or the empty text.
pub fn text_of(value: Option<&Value>) -> (r: String)
    ensures
        r@ == text_or_empty(held(value)),
{
    match value {
        Some(v) => match text(v) {
            Some(t) => t.to_owned(),
            None => String::new(),
        },
        None => String::new(),
    }
}

/// The number of a value that is a number, or zero.
pub fn number_of(value: Option<&Value>) -> (r: u64)
    ensures
        r == number_or_zero(held(value)),
{
    match value {
        Some(v) => match number(v) {
            Some(n) => n,
            None => 0,
        },
        None => 0,
    }
}

/// A value as JSON text, or `null`.
pub fn written_of(value: Option<&Value>) -> (r: String)
    ensures
        r@ == written_or_null(held(value)),
{
    match value {
        Some(v) => match written(v) {
            Some(t) => t,
            None => String::from_str("null"),
        },
        None => String::from_str("null"),
    }
}

/// The position that a value describes; what is missing counts as zero.
pub open spec fn position_of(value: Option<Value>) -> Position {
    Position {
        line: number_or_zero(member_of(value, "line"@)),
        character: number_or_zero(member_of(value, "character"@)),
    }
}

/// The diagnostic that a value describes: its range, severity, source and
/// message. A number that is missing counts as zero, a text that is
/// missing as empty; whatever else the value holds is left out.
pub open spec fn diagnostic_of(value: Value) -> DiagnosticView {
    let range = member_of(Some(value), "range"@);
    DiagnosticView {
        range: Range {
            start: position_of(member_of(range, "start"@)),
            end: position_of(member_of(range, "end"@)),
        },
        severity: Severity::spec_from_code(
            number_or_zero(member_of(Some(value), "severity"@)) as nat,
        ),
        source: text_or_empty(member_of(Some(value), "source"@)),
        message: text_or_empty(member_of(Some(value), "message"@)),
    }
}

/// The diagnostics that the elements of an array describe.
pub open spec fn diagnostics_of(elements: Seq<Value>) -> Seq<DiagnosticView> {
    Seq::new(elements.len(), |i: int| diagnostic_of(elements[i]))
}

/// The diagnostics that a value describes: those of its elements where
/// it is an array, none otherwise.
pub open spec fn diagnostics_in(value: Option<Value>) -> Seq<DiagnosticView> {
    match value {
        Some(v) => match json_items(v) {
            Some(elements) => diagnostics_of(elements),
            None => Seq::empty(),
        },
        None => Seq::empty(),
    }
}

/// The position that a value describes.
pub fn read_position(value: Option<&Value>) -> (p: Position)
    ensures
        p == position_of(held(value)),
{
    Position {
        line: number_of(child(value, "line")),
        character: number_of(child(value, "character")),
    }
}

/// The diagnostic that a value describes.
pub fn read_diagnostic(value: &Value) -> (d: Diagnostic)
    ensures
        d@ == diagnostic_of(*value),
{
    let range = child(Some(value), "range");
    Diagnostic {
        range: Range {
            start: read_position(child(range, "start")),
            end: read_position(child(range, "end")),
        },
        severity: Severity::from_code(number_of(child(Some(value), "severity"))),
        source: text_of(child(Some(value), "source")),
        message: text_of(child(Some(value), "message")),
    }
}

/// The diagnostics that a value describes.
pub fn read_diagnostics(value: Option<&Value>) -> (list: Vec<Diagnostic>)
    ensures
        views(list@) == diagnostics_in(held(value)),
{
    let mut list: Vec<Diagnostic> = Vec::new();
    let elements: &Vec<Value> = match value {
        Some(v) => match items(v) {
            Some(elements) => elements,
            None => {
                proof {
                    assert(views(list@) =~= Seq::<DiagnosticView>::empty());
                }
                return list;
            },
        },
        None => {
            proof {
                assert(views(list@) =~= Seq::<DiagnosticView>::empty());
            }
            return list;
        },
    };
    let mut i: usize = 0;
    while i < elements.len()
        invariant
            i <= elements@.len(),
            list@.len() == i,
            forall|k: int| 0 <= k < i ==> list@[k]@ == diagnostic_of(elements@[k]),
        decreases elements.len() - i,
    {
        list.push(read_diagnostic(&elements[i]));
        i += 1;
    }
    proof {
        assert(views(list@) =~= diagnostics_of(elements@));
    }
    list
}

// --------------------------------------------------- what a message means

/// What a message from the client means to the relay.
#[derive(Clone, Debug, PartialEq, Eq)]
pub enum ClientEvent {
    /// The client opens the session. `id` is the JSON text of the request
    /// id, `root` the workspace root that it names.
    Initialize { id: String, root: String },
    /// A document was opened, changed or saved.
    Document { uri: String },
    /// The client asks to shut down. `id` is the JSON text of the request
    /// id.
    Shutdown { id: String },
    /// The client tells the server to exit.
    Exit,
    /// Anything else.
    Other,
}

/// What a client event holds.
pub enum ClientEventView {
    Initialize { id: Seq<char>, root: Seq<char> },
    Document { uri: Seq<char> },
    Shutdown { id: Seq<char> },
    Exit,
    Other,
}

impl View for ClientEvent {
    type V = ClientEventView;

    open spec fn view(&self) -> ClientEventView {
        match self {
            ClientEvent::Initialize { id, root } => ClientEventView::Initialize {
                id: id@,
                root: root@,
            },
            ClientEvent::Document { uri } => ClientEventView::Document { uri: uri@ },
            ClientEvent::Shutdown { id } => ClientEventView::Shutdown { id: id@ },
            ClientEvent::Exit => ClientEventView::Exit,
            ClientEvent::Other => ClientEventView::Other,
        }
    }
}

/// The path that a `file:` URI names: the URI without `file://` at its
/// start. Any other text is taken as a path already.
pub open spec fn path_of_uri(uri: Seq<char>) -> Seq<char> {
    if "file://"@.is_prefix_of(uri) {
        uri.subrange("file://"@.len() as int, uri.len() as int)
    } else {
        uri
    }
}

/// The workspace root that an `initialize` request names: `rootPath`
/// where it is a string, else the path of `rootUri`, else nothing.
pub open spec fn root_named(message: Value) -> Seq<char> {
    let params = member_of(Some(message), "params"@);
    match member_of(params, "rootPath"@) {
        Some(path) => match json_text(path) {
            Some(t) => t,
            None => path_of_uri(text_or_empty(member_of(params, "rootUri"@))),
        },
        None => path_of_uri(text_or_empty(member_of(params, "rootUri"@))),
    }
}

/// The document that a notification about a document names.
pub open spec fn document_named(message: Value) -> Seq<char> {
    text_or_empty(
        member_of(member_of(member_of(Some(message), "params"@), "textDocument"@), "uri"@),
    )
}

/// Whether `method` is one of the notifications that say that a document
/// was opened, changed or saved.
pub open spec fn touches_document(method: Seq<char>) -> bool {
    ||| method == "textDocument/didOpen"@
    ||| method == "textDocument/didChange"@
    ||| method == "textDocument/didSave"@
}

/// What a message from the client means to the relay. Only the method
/// decides; a message without a method that is a string is `Other`.
pub open spec fn client_event_of(message: Value) -> ClientEventView {
    let method = text_or_empty(member_of(Some(message), "method"@));
    let id = written_or_null(member_of(Some(message), "id"@));
    if touches_document(method) {
        ClientEventView::Document { uri: document_named(message) }
    } else if method == "initialize"@ {
        ClientEventView::Initialize { id, root: root_named(message) }
    } else if method == "shutdown"@ {
        ClientEventView::Shutdown { id }
    } else if method == "exit"@ {
        ClientEventView::Exit
    } else {
        ClientEventView::Other
    }
}

/// The path that a `file:` URI names.
pub fn uri_path(uri: &str) -> (path: String)
    ensures
        path@ == path_of_uri(uri@),
{
    let chars = chars_of(uri);
    let scheme = chars_of("file://");
    if starts_with(chars.as_slice(), scheme.as_slice()) {
        let rest = copy_range(chars.as_slice(), scheme.len(), chars.len());
        string_of(rest.as_slice())
    } else {
        uri.to_owned()
    }
}

/// What a message from the client means to the relay.
pub fn client_event(message: &Value) -> (event: ClientEvent)
    ensures
        event@ == client_event_of(*message),
{
    let method = text_of(child(Some(message), "method"));
    let m = method.as_str();
    if same_text(m, "textDocument/didOpen") || same_text(m, "textDocument/didChange") || same_text(
        m,
        "textDocument/didSave",
    ) {
        let params = child(Some(message), "params");
        ClientEvent::Document { uri: text_of(child(child(params, "textDocument"), "uri")) }
    } else if same_text(m, "initialize") {
        let params = child(Some(message), "params");
        let by_path: Option<String> = match child(params, "rootPath") {
            Some(path) => match text(path) {
                Some(t) => Some(t.to_owned()),
                None => None,
            },
            None => None,
        };
        let root = match by_path {
            Some(path) => path,
            None => uri_path(text_of(child(params, "rootUri")).as_str()),
        };
        ClientEvent::Initialize { id: written_of(child(Some(message), "id")), root }
    } else if same_text(m, "shutdown") {
        ClientEvent::Shutdown { id: written_of(child(Some(message), "id")) }
    } else if same_text(m, "exit") {
        ClientEvent::Exit
    } else {
        ClientEvent::Other
    }
}

/// What a message from the backend means to the relay.
#[derive(Clone, Debug, PartialEq, Eq)]
pub enum BackendEvent {
    /// The backend publishes the diagnostics of a file. `version` is the
    /// JSON text of the document version.
    Publish { uri: String, version: String, diagnostics: Vec<Diagnostic> },
    /// Anything else.
    Other,
}

/// What a backend event holds.
pub enum BackendEventView {
    Publish { uri: Seq<char>, version: Seq<char>, diagnostics: Seq<DiagnosticView> },
    Other,
}

impl View for BackendEvent {
    type V = BackendEventView;

    open spec fn view(&self) -> BackendEventView {
        match self {
            BackendEvent::Publish { uri, version, diagnostics } => BackendEventView::Publish {
                uri: uri@,
                version: version@,
                diagnostics: views(diagnostics@),
            },
            BackendEvent::Other => BackendEventView::Other,
        }
    }
}

/// What a message from the backend means to the relay.
pub open spec fn backend_event_of(message: Value) -> BackendEventView {
    let method = text_or_empty(member_of(Some(message), "method"@));
    let params = member_of(Some(message), "params"@);
    if method == "textDocument/publishDiagnostics"@ {
        BackendEventView::Publish {
            uri: text_or_empty(member_of(params, "uri"@)),
            version: written_or_null(member_of(params, "version"@)),
            diagnostics: diagnostics_in(member_of(params, "diagnostics"@)),
        }
    } else {
        BackendEventView::Other
    }
}

/// What a message from the backend means to the relay.
pub fn backend_event(message: &Value) -> (event: BackendEvent)
    ensures
        event@ == backend_event_of(*message),
{
    let method = text_of(child(Some(message), "method"));
    if same_text(method.as_str(), "textDocument/publishDiagnostics") {
        let params = child(Some(message), "params");
        BackendEvent::Publish {
            uri: text_of(child(params, "uri")),
            version: written_of(child(params, "version")),
            diagnostics: read_diagnostics(child(params, "diagnostics")),
        }
    } else {
        BackendEvent::Other
    }
}

// ------------------------------------------------------------ what to do

/// One thing for the caller to do with the message at hand.
#[derive(Clone, Debug, PartialEq, Eq)]
pub enum Action {
    /// Pass the message on to the backend as it is.
    ForwardToBackend,
    /// Pass the message on to the client as it is.
    ForwardToClient,
    /// Send this JSON text to the client as a message.
    SendToClient(String),
    /// End the whole process.
    Exit,
}

/// What an action holds.
pub enum ActionView {
    ForwardToBackend,
    ForwardToClient,
    SendToClient(Seq<char>),
    Exit,
}

impl View for Action {
    type V = ActionView;

    open spec fn view(&self) -> ActionView {
        match self {
            Action::ForwardToBackend => ActionView::ForwardToBackend,
            Action::ForwardToClient => ActionView::ForwardToClient,
            Action::SendToClient(text) => ActionView::SendToClient(text@),
            Action::Exit => ActionView::Exit,
        }
    }
}

/// What the actions of a list hold, one by one.
pub open spec fn action_views(list: Seq<Action>) -> Seq<ActionView> {
    Seq::new(list.len(), |i: int| list[i]@)
}

/// The reply to `initialize` that the relay gives where no backend is
/// attached: the least that a client needs to go on.
pub open spec fn initialize_reply(id: Seq<char>) -> Seq<char> {
    "{\"jsonrpc\":\"2.0\",\"id\":"@ + id
        + ",\"result\":{\"capabilities\":{\"textDocumentSync\":1}}}"@
}

/// The reply to `shutdown`: a result of null.
pub open spec fn shutdown_reply(id: Seq<char>) -> Seq<char> {
    "{\"jsonrpc\":\"2.0\",\"id\":"@ + id + ",\"result\":null}"@
}

/// The actions that pass a message from the client on: to the backend
/// where one is attached, nowhere otherwise.
pub open spec fn passed_on(backend: bool) -> Seq<ActionView> {
    if backend {
        seq![ActionView::ForwardToBackend]
    } else {
        Seq::empty()
    }
}

/// What follows from a message of the client: the store afterwards and
/// the actions, in order.
///
/// `initialize` sets the workspace root, once; without a backend the
/// relay answers it itself. A notification about a document makes that
/// document the current one, unless it names none. `shutdown` is answered
/// with a result of null. `exit` ends the process. With a backend
/// attached every message is passed on to it as well.
pub open spec fn client_step(store: StoreView, event: ClientEventView, backend: bool) -> (
    StoreView,
    Seq<ActionView>,
) {
    match event {
        ClientEventView::Initialize { id, root } => (
            store.with_workspace_root(root),
            if backend {
                passed_on(backend)
            } else {
                seq![ActionView::SendToClient(initialize_reply(id))]
            },
        ),
        ClientEventView::Document { uri } => (
            if uri.len() > 0 {
                store.with_current_uri(uri)
            } else {
                store
            },
            passed_on(backend),
        ),
        ClientEventView::Shutdown { id } => (
            store,
            seq![ActionView::SendToClient(shutdown_reply(id))] + passed_on(backend),
        ),
        ClientEventView::Exit => (store, passed_on(backend) + seq![ActionView::Exit]),
        ClientEventView::Other => (store, passed_on(backend)),
    }
}

/// What follows from a message of the backend. Published diagnostics
/// take the place of those that the backend reported for the file
/// before; the client gets the merged list of the file with the version
/// that the backend gave. Every other message is passed on as it is, and
/// so is a publication that cannot be written anew.
pub open spec fn backend_step(store: StoreView, event: BackendEventView) -> (
    StoreView,
    Seq<ActionView>,
) {
    match event {
        BackendEventView::Publish { uri, version, diagnostics } => {
            let after = store.with_native(uri, diagnostics);
            (
                after,
                match publish_json(uri, version, after.merged(uri)) {
                    Some(text) => seq![ActionView::SendToClient(text)],
                    None => seq![ActionView::ForwardToClient],
                },
            )
        },
        BackendEventView::Other => (store, seq![ActionView::ForwardToClient]),
    }
}

/// Appends the action that passes a message on, where a backend is
/// attached.
fn pass_on(actions: &mut Vec<Action>, backend: bool)
    ensures
        action_views(final(actions)@) == action_views(old(actions)@) + passed_on(backend),
{
    if backend {
        let ghost before = action_views(actions@);
        actions.push(Action::ForwardToBackend);
        proof {
            assert(action_views(actions@) =~= before + passed_on(backend));
        }
    } else {
        proof {
            assert(action_views(actions@) =~= action_views(actions@) + passed_on(backend));
        }
    }
}

/// Takes a message of the client: changes the store as the message asks
/// and says what the caller has to do.
pub fn on_client_event(store: &mut DiagStore, event: &ClientEvent, backend: bool) -> (actions: Vec<
    Action,
>)
    ensures
        (final(store)@, action_views(actions@)) == client_step(old(store)@, event@, backend),
{
    let mut actions: Vec<Action> = Vec::new();
    proof {
        assert(action_views(actions@) =~= Seq::<ActionView>::empty());
    }
    match event {
        ClientEvent::Initialize { id, root } => {
            store.set_workspace_root(root.as_str());
            if backend {
                pass_on(&mut actions, backend);
                proof {
                    assert(action_views(actions@) =~= passed_on(backend));
                }
            } else {
                let mut reply = String::from_str("{\"jsonrpc\":\"2.0\",\"id\":");
                reply.append(id.as_str());
                reply.append(",\"result\":{\"capabilities\":{\"textDocumentSync\":1}}}");
                actions.push(Action::SendToClient(reply));
                proof {
                    assert(action_views(actions@) =~= seq![
                        ActionView::SendToClient(initialize_reply(id@)),
                    ]);
                }
            }
        },
        ClientEvent::Document { uri } => {
            if uri.as_str().unicode_len() > 0 {
                store.set_current_uri(uri.as_str());
            }
            pass_on(&mut actions, backend);
            proof {
                assert(action_views(actions@) =~= passed_on(backend));
            }
        },
        ClientEvent::Shutdown { id } => {
            let mut reply = String::from_str("{\"jsonrpc\":\"2.0\",\"id\":");
            reply.append(id.as_str());
            reply.append(",\"result\":null}");
            actions.push(Action::SendToClient(reply));
            proof {
                assert(action_views(actions@) =~= seq![
                    ActionView::SendToClient(shutdown_reply(id@)),
                ]);
            }
            pass_on(&mut actions, backend);
        },
        ClientEvent::Exit => {
            pass_on(&mut actions, backend);
            let ghost before = action_views(actions@);
            actions.push(Action::Exit);
            proof {
                assert(before =~= passed_on(backend));
                assert(action_views(actions@) =~= before + seq![ActionView::Exit]);
            }
        },
        ClientEvent::Other => {
            pass_on(&mut actions, backend);
            proof {
                assert(action_views(actions@) =~= passed_on(backend));
            }
        },
    }
    actions
}

/// Takes a message of the backend: changes the store as the message asks
/// and says what the caller has to do.
pub fn on_backend_event(store: &mut DiagStore, event: BackendEvent) -> (actions: Vec<Action>)
    ensures
        (final(store)@, action_views(actions@)) == backend_step(old(store)@, event@),
{
    let mut actions: Vec<Action> = Vec::new();
    match event {
        BackendEvent::Publish { uri, version, diagnostics } => {
            store.set_native(uri.as_str(), diagnostics);
            let merged = store.merged_for(uri.as_str());
            match publish_message(uri.as_str(), version.as_str(), &merged) {
                Some(text) => {
                    actions.push(Action::SendToClient(text));
                    proof {
                        assert(action_views(actions@) =~= seq![ActionView::SendToClient(text@)]);
                    }
                },
                None => {
                    actions.push(Action::ForwardToClient);
                    proof {
                        assert(action_views(actions@) =~= seq![ActionView::ForwardToClient]);
                    }
                },
            }
        },
        BackendEvent::Other => {
            actions.push(Action::ForwardToClient);
            proof {
                assert(action_views(actions@) =~= seq![ActionView::ForwardToClient]);
            }
        },
    }
    actions
}

/// Takes a message of the client as it was read.
pub fn client_to_server_step(store: &mut DiagStore, message: &Value, backend: bool) -> (actions: Vec<
    Action,
>)
    ensures
        (final(store)@, action_views(actions@)) == client_step(
            old(store)@,
            client_event_of(*message),
            backend,
        ),
{
    let event = client_event(message);
    on_client_event(store, &event, backend)
}

/// Takes a message of the backend as it was read.
pub fn server_to_client_step(store: &mut DiagStore, message: &Value) -> (actions: Vec<Action>)
    ensures
        (final(store)@, action_views(actions@)) == backend_step(
            old(store)@,
            backend_event_of(*message),
        ),
{
    let event = backend_event(message);
    on_backend_event(store, event)
}

} // verus!
