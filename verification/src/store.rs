//! The diagnostic store: what the backend reported for each file, what the
//! logs gave for each file, and the merged list for a file.

use crate::diagnostic::{merge_onto, push_unseen, views, without_repeats, Diagnostic, DiagnosticView};
use crate::order::{increasing, insert_in_order};
use crate::text::texts;
use vstd::prelude::*;

verus! {

/// The diagnostics of one file in a table.
pub struct Entry {
    uri: String,
    diagnostics: Vec<Diagnostic>,
}

/// Diagnostics by file: a map from URI to a list of diagnostics.
pub struct Table {
    entries: Vec<Entry>,
}

/// The map that a sequence of entries stands for; of two entries for one
/// URI the later one counts.
pub closed spec fn entries_map(entries: Seq<Entry>) -> Map<Seq<char>, Seq<DiagnosticView>>
    decreases entries.len(),
{
    if entries.len() == 0 {
        Map::empty()
    } else {
        entries_map(entries.drop_last()).insert(
            entries.last().uri@,
            views(entries.last().diagnostics@),
        )
    }
}

/// A URI that no entry names is no key of the map.
proof fn lemma_absent(entries: Seq<Entry>, uri: Seq<char>)
    requires
        forall|j: int| 0 <= j < entries.len() ==> entries[j].uri@ != uri,
    ensures
        !entries_map(entries).contains_key(uri),
    decreases entries.len(),
{
    if entries.len() > 0 {
        let head = entries.drop_last();
        assert forall|j: int| 0 <= j < head.len() implies head[j].uri@ != uri by {
            assert(head[j] == entries[j]);
        }
        lemma_absent(head, uri);
    }
}

/// The last entry that names a URI gives the list for it.
proof fn lemma_present(entries: Seq<Entry>, i: int)
    requires
        0 <= i < entries.len(),
        forall|j: int| i < j < entries.len() ==> entries[j].uri@ != entries[i].uri@,
    ensures
        entries_map(entries).contains_key(entries[i].uri@),
        entries_map(entries)[entries[i].uri@] == views(entries[i].diagnostics@),
    decreases entries.len(),
{
    if i < entries.len() - 1 {
        let head = entries.drop_last();
        assert(head[i] == entries[i]);
        assert forall|j: int| i < j < head.len() implies head[j].uri@ != head[i].uri@ by {
            assert(head[j] == entries[j]);
        }
        lemma_present(head, i);
    }
}

/// Putting a new list into the last entry that names a URI puts the list
/// into the map.
proof fn lemma_replaced(entries: Seq<Entry>, i: int, entry: Entry)
    requires
        0 <= i < entries.len(),
        entry.uri@ == entries[i].uri@,
        forall|j: int| i < j < entries.len() ==> entries[j].uri@ != entries[i].uri@,
    ensures
        entries_map(entries.update(i, entry)) == entries_map(entries).insert(
            entry.uri@,
            views(entry.diagnostics@),
        ),
    decreases entries.len(),
{
    let after = entries.update(i, entry);
    let head = entries.drop_last();
    if i == entries.len() - 1 {
        assert(after.drop_last() =~= head);
        assert(entries_map(after) =~= entries_map(entries).insert(
            entry.uri@,
            views(entry.diagnostics@),
        ));
    } else {
        assert(head[i] == entries[i]);
        assert forall|j: int| i < j < head.len() implies head[j].uri@ != head[i].uri@ by {
            assert(head[j] == entries[j]);
        }
        lemma_replaced(head, i, entry);
        assert(after.drop_last() =~= head.update(i, entry));
        assert(after.last() == entries.last());
        assert(entries.last().uri@ != entry.uri@);
        assert(entries_map(after) =~= entries_map(entries).insert(
            entry.uri@,
            views(entry.diagnostics@),
        ));
    }
}

/// The list that a table holds for a URI; empty where it holds none.
pub open spec fn list_at(table: Map<Seq<char>, Seq<DiagnosticView>>, uri: Seq<char>) -> Seq<
    DiagnosticView,
> {
    if table.contains_key(uri) {
        table[uri]
    } else {
        Seq::empty()
    }
}

impl View for Table {
    type V = Map<Seq<char>, Seq<DiagnosticView>>;

    closed spec fn view(&self) -> Map<Seq<char>, Seq<DiagnosticView>> {
        entries_map(self.entries@)
    }
}

impl Table {
    /// A table without entries.
    pub fn new() -> (t: Table)
        ensures
            t@ == Map::<Seq<char>, Seq<DiagnosticView>>::empty(),
    {
        Table { entries: Vec::new() }
    }

    /// The index of the last entry for `uri`.
    fn find(&self, uri: &String) -> (r: Option<usize>)
        ensures
            match r {
                Some(i) => i < self.entries@.len() && self.entries@[i as int].uri@ == uri@
                    && forall|j: int|
                    i < j < self.entries@.len() ==> self.entries@[j].uri@ != uri@,
                None => forall|j: int| 0 <= j < self.entries@.len() ==> self.entries@[j].uri@ != uri@,
            },
    {
        let mut i: usize = self.entries.len();
        while i > 0
            invariant
                i <= self.entries@.len(),
                forall|j: int| i <= j < self.entries@.len() ==> self.entries@[j].uri@ != uri@,
            decreases i,
        {
            i -= 1;
            if self.entries[i].uri == *uri {
                return Some(i);
            }
        }
        None
    }

    /// The list for `uri`, if the table holds one.
    pub fn get(&self, uri: &str) -> (r: Option<&Vec<Diagnostic>>)
        ensures
            match r {
                Some(list) => self@.contains_key(uri@) && views(list@) == self@[uri@],
                None => !self@.contains_key(uri@),
            },
    {
        let key = uri.to_owned();
        match self.find(&key) {
            Some(i) => {
                proof {
                    lemma_present(self.entries@, i as int);
                }
                Some(&self.entries[i].diagnostics)
            },
            None => {
                proof {
                    lemma_absent(self.entries@, uri@);
                }
                None
            },
        }
    }

    /// Puts `diagnostics` in place of whatever list the table holds for
    /// `uri`.
    pub fn set(&mut self, uri: &str, diagnostics: Vec<Diagnostic>)
        ensures
            final(self)@ == old(self)@.insert(uri@, views(diagnostics@)),
    {
        let key = uri.to_owned();
        match self.find(&key) {
            Some(i) => {
                let entry = Entry { uri: key, diagnostics };
                proof {
                    lemma_replaced(self.entries@, i as int, entry);
                }
                self.entries.set(i, entry);
            },
            None => {
                let ghost before = self.entries@;
                self.entries.push(Entry { uri: key, diagnostics });
                proof {
                    assert(self.entries@.drop_last() =~= before);
                }
            },
        }
    }

    /// Puts the URIs of the table into an increasing list.
    pub(crate) fn add_uris(&self, list: &mut Vec<String>)
        requires
            increasing(texts(old(list)@)),
        ensures
            increasing(texts(final(list)@)),
            texts(final(list)@).to_set() == texts(old(list)@).to_set().union(self@.dom()),
    {
        let ghost start = texts(list@).to_set();
        let mut i: usize = 0;
        proof {
            assert(self.entries@.take(0) =~= Seq::<Entry>::empty());
            assert(start.union(entries_map(self.entries@.take(0)).dom()) =~= start);
        }
        while i < self.entries.len()
            invariant
                i <= self.entries@.len(),
                increasing(texts(list@)),
                texts(list@).to_set() == start.union(
                    entries_map(self.entries@.take(i as int)).dom(),
                ),
            decreases self.entries.len() - i,
        {
            proof {
                let next = self.entries@.take(i as int + 1);
                assert(next.drop_last() =~= self.entries@.take(i as int));
                assert(next.last() == self.entries@[i as int]);
            }
            let ghost before = texts(list@).to_set();
            insert_in_order(list, self.entries[i].uri.as_str());
            proof {
                assert(before.insert(self.entries@[i as int].uri@) =~= start.union(
                    entries_map(self.entries@.take(i as int + 1)).dom(),
                ));
            }
            i += 1;
        }
        proof {
            assert(self.entries@.take(self.entries@.len() as int) =~= self.entries@);
        }
    }

    /// The URIs for which the table holds a list, each once, in
    /// increasing order.
    pub fn uris(&self) -> (list: Vec<String>)
        ensures
            increasing(texts(list@)),
            texts(list@).to_set() == self@.dom(),
    {
        let mut list: Vec<String> = Vec::new();
        proof {
            assert(texts(list@).to_set() =~= Set::<Seq<char>>::empty());
        }
        self.add_uris(&mut list);
        proof {
            assert(Set::<Seq<char>>::empty().union(self@.dom()) =~= self@.dom());
        }
        list
    }

    /// Appends `diagnostic` to the list for `uri`, which is empty where the
    /// table holds none yet.
    pub fn append(&mut self, uri: &str, diagnostic: Diagnostic)
        ensures
            final(self)@ == old(self)@.insert(
                uri@,
                list_at(old(self)@, uri@).push(diagnostic@),
            ),
    {
        let key = uri.to_owned();
        let ghost before = self.entries@;
        match self.find(&key) {
            Some(i) => {
                proof {
                    lemma_present(before, i as int);
                }
                self.entries[i].diagnostics.push(diagnostic);
                proof {
                    let entry = self.entries@[i as int];
                    assert(self.entries@ =~= before.update(i as int, entry));
                    lemma_replaced(before, i as int, entry);
                    assert(views(entry.diagnostics@) =~= views(before[i as int].diagnostics@).push(
                        diagnostic@,
                    ));
                }
            },
            None => {
                proof {
                    lemma_absent(before, uri@);
                }
                let mut list: Vec<Diagnostic> = Vec::new();
                list.push(diagnostic);
                proof {
                    assert(views(list@) =~= Seq::<DiagnosticView>::empty().push(diagnostic@));
                }
                self.entries.push(Entry { uri: key, diagnostics: list });
                proof {
                    assert(self.entries@.drop_last() =~= before);
                }
            },
        }
    }
}

/// What the store holds.
pub struct StoreView {
    /// For each file, the list that the backend reported last.
    pub native: Map<Seq<char>, Seq<DiagnosticView>>,
    /// For each file, the list that the last reading of the logs gave.
    pub logs: Map<Seq<char>, Seq<DiagnosticView>>,
    /// The document that was opened, changed or saved last.
    pub current_uri: Seq<char>,
    /// The root of the workspace, once it is known.
    pub workspace_root: Option<Seq<char>>,
}

impl StoreView {
    /// The store at the start: no diagnostics, no document, no root.
    pub open spec fn empty() -> StoreView {
        StoreView {
            native: Map::empty(),
            logs: Map::empty(),
            current_uri: Seq::empty(),
            workspace_root: None,
        }
    }

    /// The merged list for `uri`: what the backend reported, then what the
    /// logs gave, and of equal diagnostics only the first.
    pub open spec fn merged(self, uri: Seq<char>) -> Seq<DiagnosticView> {
        without_repeats(list_at(self.native, uri) + list_at(self.logs, uri))
    }

    /// The store after the backend reported `list` for `uri`.
    pub open spec fn with_native(self, uri: Seq<char>, list: Seq<DiagnosticView>) -> StoreView {
        StoreView { native: self.native.insert(uri, list), ..self }
    }

    /// The store after a reading of the logs gave `logs`.
    pub open spec fn with_logs(self, logs: Map<Seq<char>, Seq<DiagnosticView>>) -> StoreView {
        StoreView { logs, ..self }
    }

    /// The store after `uri` was opened, changed or saved.
    pub open spec fn with_current_uri(self, uri: Seq<char>) -> StoreView {
        StoreView { current_uri: uri, ..self }
    }

    /// The store after the root was announced as `root`: the first
    /// announcement decides, later ones change nothing.
    pub open spec fn with_workspace_root(self, root: Seq<char>) -> StoreView {
        if self.workspace_root is Some {
            self
        } else {
            StoreView { workspace_root: Some(root), ..self }
        }
    }
}

/// The diagnostic store.
pub struct DiagStore {
    native: Table,
    logs: Table,
    current_uri: String,
    workspace_root: Option<String>,
}

impl View for DiagStore {
    type V = StoreView;

    closed spec fn view(&self) -> StoreView {
        StoreView {
            native: self.native@,
            logs: self.logs@,
            current_uri: self.current_uri@,
            workspace_root: match self.workspace_root {
                Some(root) => Some(root@),
                None => None,
            },
        }
    }
}

impl Default for DiagStore {
    /// The store at the start.
    fn default() -> (s: DiagStore)
        ensures
            s@ == StoreView::empty(),
    {
        DiagStore::new()
    }
}

/// Merging onto a list in two steps is merging the two lists in one.
pub proof fn lemma_merge_onto_concat(
    seen: Seq<DiagnosticView>,
    a: Seq<DiagnosticView>,
    b: Seq<DiagnosticView>,
)
    ensures
        merge_onto(merge_onto(seen, a), b) == merge_onto(seen, a + b),
    decreases b.len(),
{
    if b.len() == 0 {
        assert(a + b =~= a);
    } else {
        lemma_merge_onto_concat(seen, a, b.drop_last());
        assert((a + b).drop_last() =~= a + b.drop_last());
        assert((a + b).last() == b.last());
    }
}

impl DiagStore {
    /// The store at the start.
    pub fn new() -> (s: DiagStore)
        ensures
            s@ == StoreView::empty(),
    {
        DiagStore {
            native: Table::new(),
            logs: Table::new(),
            current_uri: String::new(),
            workspace_root: None,
        }
    }

    /// Puts `diagnostics` in place of what the backend reported for `uri`
    /// before. Other files keep their lists.
    pub fn set_native(&mut self, uri: &str, diagnostics: Vec<Diagnostic>)
        ensures
            final(self)@ == old(self)@.with_native(uri@, views(diagnostics@)),
    {
        self.native.set(uri, diagnostics);
    }

    /// Puts `logs` in place of the whole table of diagnostics from the
    /// logs. Files that `logs` does not name lose theirs.
    pub fn set_logs(&mut self, logs: Table)
        ensures
            final(self)@ == old(self)@.with_logs(logs@),
    {
        self.logs = logs;
    }

    /// Puts `logs` in place of the whole table of diagnostics from the
    /// logs, and says which files that touches: the URIs that the table
    /// named before or names now, each once, in increasing order. A file
    /// that lost its diagnostics from the logs is among them.
    pub fn replace_logs(&mut self, logs: Table) -> (touched: Vec<String>)
        ensures
            final(self)@ == old(self)@.with_logs(logs@),
            increasing(texts(touched@)),
            texts(touched@).to_set() == old(self)@.logs.dom().union(logs@.dom()),
    {
        let mut touched = self.logs.uris();
        logs.add_uris(&mut touched);
        self.logs = logs;
        touched
    }

    /// The merged list for `uri`.
    pub fn merged_for(&self, uri: &str) -> (out: Vec<Diagnostic>)
        ensures
            views(out@) == self@.merged(uri@),
    {
        let mut out: Vec<Diagnostic> = Vec::new();
        let ghost native = list_at(self@.native, uri@);
        let ghost logs = list_at(self@.logs, uri@);
        proof {
            assert(views(out@) =~= Seq::<DiagnosticView>::empty());
        }
        match self.native.get(uri) {
            Some(list) => {
                push_unseen(&mut out, list);
            },
            None => {},
        }
        assert(views(out@) == without_repeats(native));
        match self.logs.get(uri) {
            Some(list) => {
                push_unseen(&mut out, list);
            },
            None => {},
        }
        proof {
            lemma_merge_onto_concat(Seq::empty(), native, logs);
        }
        out
    }

    /// The document that was opened, changed or saved last.
    pub fn current_uri(&self) -> (uri: String)
        ensures
            uri@ == self@.current_uri,
    {
        self.current_uri.clone()
    }

    /// Notes that `uri` was opened, changed or saved.
    pub fn set_current_uri(&mut self, uri: &str)
        ensures
            final(self)@ == old(self)@.with_current_uri(uri@),
    {
        self.current_uri = uri.to_owned();
    }

    /// The root of the workspace, once it is known.
    pub fn workspace_root(&self) -> (root: Option<String>)
        ensures
            match root {
                Some(r) => self@.workspace_root == Some(r@),
                None => self@.workspace_root is None,
            },
    {
        match &self.workspace_root {
            Some(r) => Some(r.clone()),
            None => None,
        }
    }

    /// Notes the root of the workspace. The first call decides; later ones
    /// change nothing.
    pub fn set_workspace_root(&mut self, root: &str)
        ensures
            final(self)@ == old(self)@.with_workspace_root(root@),
    {
        if self.workspace_root.is_none() {
            self.workspace_root = Some(root.to_owned());
        }
    }
}

} // verus!
