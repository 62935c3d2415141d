//! Publishing: the message that tells the client the merged diagnostics
//! of a file, and the step that puts freshly mined diagnostics into the
//! store.

use crate::decimal::{decimal_of, push_decimal};
use crate::diagnostic::{views, Diagnostic, DiagnosticView, Position, Range};
use crate::json::{json_quoted, quoted};
use crate::order::increasing;
use crate::store::{list_at, DiagStore, StoreView, Table};
use crate::text::{chars_of, push_str, string_of, texts};
use vstd::prelude::*;

verus! {

// ------------------------------------------------------- mined diagnostics

/// A diagnostic together with the URI of its file.
#[derive(Clone, Debug, PartialEq, Eq)]
pub struct Located {
    pub uri: String,
    pub diagnostic: Diagnostic,
}

/// What a located diagnostic holds.
pub struct LocatedView {
    pub uri: Seq<char>,
    pub diagnostic: DiagnosticView,
}

impl View for Located {
    type V = LocatedView;

    open spec fn view(&self) -> LocatedView {
        LocatedView { uri: self.uri@, diagnostic: self.diagnostic@ }
    }
}

/// What the located diagnostics of a list hold, one by one.
pub open spec fn located_views(list: Seq<Located>) -> Seq<LocatedView> {
    Seq::new(list.len(), |i: int| list[i]@)
}

/// The table that a list of located diagnostics makes: for each URI the
/// diagnostics of that URI, in the order of the list.
pub open spec fn grouped(list: Seq<LocatedView>) -> Map<Seq<char>, Seq<DiagnosticView>>
    decreases list.len(),
{
    if list.len() == 0 {
        Map::empty()
    } else {
        let before = grouped(list.drop_last());
        let last = list.last();
        before.insert(last.uri, list_at(before, last.uri).push(last.diagnostic))
    }
}

/// Sorts located diagnostics into a table by URI.
pub fn group_by_uri(list: &Vec<Located>) -> (table: Table)
    ensures
        table@ == grouped(located_views(list@)),
{
    let ghost all = located_views(list@);
    let mut table = Table::new();
    let mut i: usize = 0;
    proof {
        assert(all.take(0) =~= Seq::<LocatedView>::empty());
    }
    while i < list.len()
        invariant
            i <= list@.len(),
            all == located_views(list@),
            table@ == grouped(all.take(i as int)),
        decreases list.len() - i,
    {
        proof {
            let next = all.take(i as int + 1);
            assert(next.drop_last() =~= all.take(i as int));
            assert(next.last() == list@[i as int]@);
        }
        table.append(list[i].uri.as_str(), list[i].diagnostic.duplicate());
        i += 1;
    }
    proof {
        assert(all.take(all.len() as int) =~= all);
    }
    table
}

/// Puts freshly mined diagnostics in place of all that the store held
/// from the logs before, and says which files have to be published
/// again: those that had diagnostics from the logs before and those that
/// have some now, each once, in increasing order.
pub fn update_logs_store(store: &mut DiagStore, mined: &Vec<Located>) -> (touched: Vec<String>)
    ensures
        final(store)@ == old(store)@.with_logs(grouped(located_views(mined@))),
        increasing(texts(touched@)),
        texts(touched@).to_set() == old(store)@.logs.dom().union(
            grouped(located_views(mined@)).dom(),
        ),
{
    let table = group_by_uri(mined);
    store.replace_logs(table)
}

// ------------------------------------------------------------ the message

/// A position as JSON text.
pub open spec fn position_json(p: Position) -> Seq<char> {
    "{\"line\":"@ + decimal_of(p.line as nat) + ",\"character\":"@ + decimal_of(
        p.character as nat,
    ) + "}"@
}

/// A range as JSON text.
pub open spec fn range_json(r: Range) -> Seq<char> {
    "{\"start\":"@ + position_json(r.start) + ",\"end\":"@ + position_json(r.end) + "}"@
}

/// A diagnostic as JSON text: range, severity as a number, source and
/// message, and nothing else. `None` where a text cannot be written.
pub open spec fn diagnostic_json(d: DiagnosticView) -> Option<Seq<char>> {
    match (json_quoted(d.source), json_quoted(d.message)) {
        (Some(source), Some(message)) => Some(
            "{\"range\":"@ + range_json(d.range) + ",\"severity\":"@ + decimal_of(
                d.severity.spec_code(),
            ) + ",\"source\":"@ + source + ",\"message\":"@ + message + "}"@,
        ),
        _ => None,
    }
}

/// The diagnostics of a list as JSON text, with commas between them.
pub open spec fn list_json(list: Seq<DiagnosticView>) -> Option<Seq<char>>
    decreases list.len(),
{
    if list.len() == 0 {
        Some(Seq::empty())
    } else {
        match (list_json(list.drop_last()), diagnostic_json(list.last())) {
            (Some(before), Some(last)) => Some(
                if list.len() == 1 {
                    last
                } else {
                    before + ","@ + last
                },
            ),
            _ => None,
        }
    }
}

/// The message that publishes `list` as the diagnostics of `uri`.
/// `version` is the JSON text of the document version.
pub open spec fn publish_json(uri: Seq<char>, version: Seq<char>, list: Seq<DiagnosticView>) -> Option<
    Seq<char>,
> {
    match (json_quoted(uri), list_json(list)) {
        (Some(quoted_uri), Some(items)) => Some(
            "{\"jsonrpc\":\"2.0\",\"method\":\"textDocument/publishDiagnostics\",\"params\":{\"uri\":"@
                + quoted_uri + ",\"version\":"@ + version + ",\"diagnostics\":["@ + items + "]}}"@,
        ),
        _ => None,
    }
}

/// Appends a position as JSON text.
pub fn push_position(buf: &mut Vec<char>, p: Position)
    ensures
        final(buf)@ == old(buf)@ + position_json(p),
{
    push_str(buf, "{\"line\":");
    push_decimal(buf, p.line);
    push_str(buf, ",\"character\":");
    push_decimal(buf, p.character);
    push_str(buf, "}");
    proof {
        assert(final(buf)@ =~= old(buf)@ + position_json(p));
    }
}

/// Appends a range as JSON text.
pub fn push_range(buf: &mut Vec<char>, r: Range)
    ensures
        final(buf)@ == old(buf)@ + range_json(r),
{
    push_str(buf, "{\"start\":");
    push_position(buf, r.start);
    push_str(buf, ",\"end\":");
    push_position(buf, r.end);
    push_str(buf, "}");
    proof {
        assert(final(buf)@ =~= old(buf)@ + range_json(r));
    }
}

/// A diagnostic as JSON text.
pub fn diagnostic_text(d: &Diagnostic) -> (r: Option<Vec<char>>)
    ensures
        match r {
            Some(text) => diagnostic_json(d@) == Some(text@),
            None => diagnostic_json(d@) is None,
        },
{
    let source = match quoted(d.source.as_str()) {
        Some(s) => s,
        None => {
            return None;
        },
    };
    let message = match quoted(d.message.as_str()) {
        Some(m) => m,
        None => {
            return None;
        },
    };
    let mut buf: Vec<char> = chars_of("{\"range\":");
    push_range(&mut buf, d.range);
    push_str(&mut buf, ",\"severity\":");
    push_decimal(&mut buf, d.severity.code());
    push_str(&mut buf, ",\"source\":");
    push_str(&mut buf, source.as_str());
    push_str(&mut buf, ",\"message\":");
    push_str(&mut buf, message.as_str());
    push_str(&mut buf, "}");
    Some(buf)
}

/// The message that publishes `list` as the diagnostics of `uri`.
pub fn publish_message(uri: &str, version: &str, list: &Vec<Diagnostic>) -> (r: Option<String>)
    ensures
        match r {
            Some(text) => publish_json(uri@, version@, views(list@)) == Some(text@),
            None => publish_json(uri@, version@, views(list@)) is None,
        },
{
    let quoted_uri = match quoted(uri) {
        Some(u) => u,
        None => {
            return None;
        },
    };
    let ghost all = views(list@);
    let mut items: Vec<char> = Vec::new();
    let mut i: usize = 0;
    proof {
        assert(all.take(0) =~= Seq::<DiagnosticView>::empty());
    }
    while i < list.len()
        invariant
            i <= list@.len(),
            all == views(list@),
            list_json(all.take(i as int)) == Some(items@),
        decreases list.len() - i,
    {
        proof {
            let next = all.take(i as int + 1);
            assert(next.drop_last() =~= all.take(i as int));
            assert(next.last() == list@[i as int]@);
        }
        match diagnostic_text(&list[i]) {
            Some(text) => {
                if i > 0 {
                    push_str(&mut items, ",");
                }
                let mut text = text;
                let ghost before = items@;
                items.append(&mut text);
                proof {
                    if i == 0 {
                        assert(before =~= Seq::<char>::empty());
                        assert(items@ =~= diagnostic_json(list@[i as int]@)->0);
                    }
                }
            },
            None => {
                proof {
                    lemma_list_json_fails(all, i as int);
                }
                return None;
            },
        }
        i += 1;
    }
    proof {
        assert(all.take(all.len() as int) =~= all);
    }
    let mut buf: Vec<char> = chars_of(
        "{\"jsonrpc\":\"2.0\",\"method\":\"textDocument/publishDiagnostics\",\"params\":{\"uri\":",
    );
    push_str(&mut buf, quoted_uri.as_str());
    push_str(&mut buf, ",\"version\":");
    push_str(&mut buf, version);
    push_str(&mut buf, ",\"diagnostics\":[");
    buf.append(&mut items);
    push_str(&mut buf, "]}}");
    Some(string_of(buf.as_slice()))
}

/// A list with a diagnostic that cannot be written cannot be written.
proof fn lemma_list_json_fails(list: Seq<DiagnosticView>, i: int)
    requires
        0 <= i < list.len(),
        diagnostic_json(list[i]) is None,
    ensures
        list_json(list) is None,
    decreases list.len(),
{
    if i < list.len() - 1 {
        assert(list.drop_last()[i] == list[i]);
        lemma_list_json_fails(list.drop_last(), i);
    }
}

/// The message that publishes the merged diagnostics of `uri` as the
/// store holds them, with no document version.
pub fn create_publish_message(store: &DiagStore, uri: &str) -> (r: Option<String>)
    ensures
        match r {
            Some(text) => publish_json(uri@, "null"@, store@.merged(uri@)) == Some(text@),
            None => publish_json(uri@, "null"@, store@.merged(uri@)) is None,
        },
{
    let merged = store.merged_for(uri);
    publish_message(uri, "null", &merged)
}

/// The messages that publish the merged diagnostics of each of `uris`,
/// in order. A file whose message cannot be written is left out.
pub open spec fn publications(store: StoreView, uris: Seq<Seq<char>>) -> Seq<Seq<char>>
    decreases uris.len(),
{
    if uris.len() == 0 {
        Seq::empty()
    } else {
        let before = publications(store, uris.drop_last());
        match publish_json(uris.last(), "null"@, store.merged(uris.last())) {
            Some(text) => before.push(text),
            None => before,
        }
    }
}

/// The messages that publish the merged diagnostics of each of `uris`.
pub fn publish_all(store: &DiagStore, uris: &Vec<String>) -> (messages: Vec<String>)
    ensures
        texts(messages@) == publications(store@, texts(uris@)),
{
    let ghost all = texts(uris@);
    let mut messages: Vec<String> = Vec::new();
    let mut i: usize = 0;
    proof {
        assert(all.take(0) =~= Seq::<Seq<char>>::empty());
        assert(texts(messages@) =~= Seq::<Seq<char>>::empty());
    }
    while i < uris.len()
        invariant
            i <= uris@.len(),
            all == texts(uris@),
            texts(messages@) == publications(store@, all.take(i as int)),
        decreases uris.len() - i,
    {
        proof {
            let next = all.take(i as int + 1);
            assert(next.drop_last() =~= all.take(i as int));
            assert(next.last() == uris@[i as int]@);
        }
        match create_publish_message(store, uris[i].as_str()) {
            Some(text) => {
                let ghost before = texts(messages@);
                messages.push(text);
                proof {
                    assert(texts(messages@) =~= before.push(text@));
                }
            },
            None => {},
        }
        i += 1;
    }
    proof {
        assert(all.take(all.len() as int) =~= all);
    }
    messages
}

/// One reading of the logs: puts the mined diagnostics into the store and
/// gives the messages that publish again every file that had
/// diagnostics from the logs before or has some now, in the increasing
/// order of their URIs.
pub fn refresh(store: &mut DiagStore, mined: &Vec<Located>) -> (messages: Vec<String>)
    ensures
        final(store)@ == old(store)@.with_logs(grouped(located_views(mined@))),
        exists|touched: Seq<Seq<char>>|
            #![auto]
            increasing(touched) && touched.to_set() == old(store)@.logs.dom().union(
                grouped(located_views(mined@)).dom(),
            ) && texts(messages@) == publications(final(store)@, touched),
{
    let touched = update_logs_store(store, mined);
    let messages = publish_all(store, &touched);
    proof {
        let witness = texts(touched@);
        assert(increasing(witness) && witness.to_set() == old(store)@.logs.dom().union(
            grouped(located_views(mined@)).dom(),
        ) && texts(messages@) == publications(store@, witness));
    }
    messages
}

} // verus!
