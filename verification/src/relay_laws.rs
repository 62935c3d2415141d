//! What holds of the relay, whatever the message.

use crate::lsp_mainloop::{
    backend_step, client_step, ActionView, BackendEventView, ClientEventView,
};
use crate::store::StoreView;
use vstd::prelude::*;

verus! {

/// How often `action` occurs among `actions`.
pub open spec fn count(actions: Seq<ActionView>, action: ActionView) -> nat
    decreases actions.len(),
{
    if actions.len() == 0 {
        0
    } else {
        count(actions.drop_last(), action) + if actions.last() == action {
            1nat
        } else {
            0nat
        }
    }
}

/// Whether an action sends something to the client.
pub open spec fn reaches_client(action: ActionView) -> bool {
    action is SendToClient || action is ForwardToClient
}

/// With a backend attached every message of the client is passed on to
/// it, exactly once, the messages that the relay reads on the way too;
/// without one nothing is passed on.
pub proof fn lemma_backend_gets_every_message(
    store: StoreView,
    event: ClientEventView,
    backend: bool,
)
    ensures
        count(client_step(store, event, backend).1, ActionView::ForwardToBackend) == if backend {
            1nat
        } else {
            0nat
        },
{
    let actions = client_step(store, event, backend).1;
    let e = Seq::<ActionView>::empty();
    assert(count(e, ActionView::ForwardToBackend) == 0);
    if actions.len() == 1 {
        assert(actions.drop_last() =~= e);
    } else if actions.len() == 2 {
        let one = actions.drop_last();
        assert(one.drop_last() =~= e);
        assert(count(one, ActionView::ForwardToBackend) == if one.last()
            == ActionView::ForwardToBackend {
            1nat
        } else {
            0nat
        });
    }
}

/// The process ends on `exit` and on nothing else, and ending is the
/// last thing that is done.
pub proof fn lemma_exit_only_on_exit(store: StoreView, event: ClientEventView, backend: bool)
    ensures
        ({
            let actions = client_step(store, event, backend).1;
            &&& actions.contains(ActionView::Exit) <==> event is Exit
            &&& event is Exit ==> actions.last() == ActionView::Exit
        }),
{
    let actions = client_step(store, event, backend).1;
    if event is Exit {
        assert(actions[actions.len() - 1] == ActionView::Exit);
    } else if actions.contains(ActionView::Exit) {
        let i = choose|i: int| 0 <= i < actions.len() && actions[i] == ActionView::Exit;
        assert(actions[i] != ActionView::Exit);
    }
}

/// The store changes only by what the messages say: a message of the
/// client can set the root and the current document and nothing else,
/// and a message that names neither leaves the store as it is.
pub proof fn lemma_client_changes(store: StoreView, event: ClientEventView, backend: bool)
    ensures
        ({
            let after = client_step(store, event, backend).0;
            &&& after.native == store.native
            &&& after.logs == store.logs
            &&& !(event is Initialize) ==> after.workspace_root == store.workspace_root
            &&& !(event is Document) ==> after.current_uri == store.current_uri
            &&& store.workspace_root is Some ==> after.workspace_root == store.workspace_root
        }),
{
}

/// Every message of the backend reaches the client as exactly one
/// message, and nothing else is done with it; a publication changes what
/// the backend reported for its file and nothing else.
pub proof fn lemma_client_gets_every_message(store: StoreView, event: BackendEventView)
    ensures
        ({
            let (after, actions) = backend_step(store, event);
            &&& actions.len() == 1
            &&& reaches_client(actions[0])
            &&& after.logs == store.logs
            &&& after.current_uri == store.current_uri
            &&& after.workspace_root == store.workspace_root
            &&& event is Other ==> after == store && actions[0] == ActionView::ForwardToClient
            &&& event matches BackendEventView::Publish { uri, version, diagnostics }
                ==> after.native == store.native.insert(uri, diagnostics)
        }),
{
}

} // verus!
