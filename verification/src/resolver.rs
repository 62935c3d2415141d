//! From a path found in a log to the URI of a file: the path itself, the
//! path below the workspace root, a file of that name somewhere below the
//! root, or else the document that was touched last. The caller asks the
//! file system; what to ask next, and what follows from each answer, is
//! decided here.

use crate::text::{chars_of, same_text, split, split_on, string_of, texts};
use std::collections::VecDeque;
use vstd::hash_set::StringHashSet;
use vstd::prelude::*;

verus! {

// ------------------------------------------------------- the name of a file

/// Whether a piece of a path names nothing: it is empty or a single dot.
pub open spec fn is_skipped(segment: Seq<char>) -> bool {
    segment.len() == 0 || segment == seq!['.']
}

/// The last of `segments` that names something.
pub open spec fn last_kept(segments: Seq<Seq<char>>) -> Option<Seq<char>>
    decreases segments.len(),
{
    if segments.len() == 0 {
        None
    } else if is_skipped(segments.last()) {
        last_kept(segments.drop_last())
    } else {
        Some(segments.last())
    }
}

/// The final component of a path: the last piece between slashes that is
/// neither empty nor a single dot. A path that has no such piece, or whose
/// last such piece is two dots, has no final component.
pub open spec fn final_component(path: Seq<char>) -> Option<Seq<char>> {
    match last_kept(split_on(path, '/')) {
        Some(segment) => if segment == seq!['.', '.'] {
            None
        } else {
            Some(segment)
        },
        None => None,
    }
}

/// The final component of `path`.
pub fn file_name(path: &str) -> (name: Option<String>)
    ensures
        match name {
            Some(n) => final_component(path@) == Some(n@),
            None => final_component(path@) is None,
        },
{
    let chars = chars_of(path);
    let segments = split(chars.as_slice(), '/');
    let ghost all = split_on(path@, '/');
    let mut k: usize = segments.len();
    proof {
        assert(all.take(k as int) =~= all);
    }
    while k > 0
        invariant
            k <= segments@.len(),
            segments@.len() == all.len(),
            all == split_on(path@, '/'),
            forall|j: int| 0 <= j < segments@.len() ==> #[trigger] segments@[j]@ == all[j],
            last_kept(all) == last_kept(all.take(k as int)),
        decreases k,
    {
        k -= 1;
        let segment = &segments[k];
        proof {
            let upto = all.take(k as int + 1);
            assert(upto.last() == all[k as int]);
            assert(upto.drop_last() =~= all.take(k as int));
            assert(segment@ == all[k as int]);
        }
        let n: usize = segment.len();
        if n == 0 {
            continue ;
        }
        if n == 1 && segment[0] == '.' {
            proof {
                assert(segment@ =~= seq!['.']);
            }
            continue ;
        }
        proof {
            if n == 1 {
                assert(segment@[0] != '.');
                assert(seq!['.'][0] == '.');
            }
            assert(seq!['.'].len() == 1);
            assert(!is_skipped(segment@));
            assert(last_kept(all) == Some(segment@));
        }
        if n == 2 && segment[0] == '.' && segment[1] == '.' {
            proof {
                assert(segment@ =~= seq!['.', '.']);
            }
            return None;
        }
        proof {
            if n == 2 {
                assert(seq!['.', '.'][0] == '.');
                assert(seq!['.', '.'][1] == '.');
            }
        }
        return Some(string_of(segment.as_slice()));
    }
    None
}

/// Whether a directory of this name is left out of the search: its name
/// starts with a dot, or it is one of `target`, `node_modules`, `build`
/// and `dist`.
pub open spec fn ignored_name(name: Seq<char>) -> bool {
    ||| (name.len() > 0 && name[0] == '.')
    ||| name == "target"@
    ||| name == "node_modules"@
    ||| name == "build"@
    ||| name == "dist"@
}

/// Whether the directory at `path` is left out of the search. A path
/// without a final component is not.
pub open spec fn ignored_dir(path: Seq<char>) -> bool {
    match final_component(path) {
        Some(name) => ignored_name(name),
        None => false,
    }
}

/// Whether the directory at `path` is left out of the search.
pub fn is_ignore_dir(path: &str) -> (b: bool)
    ensures
        b == ignored_dir(path@),
{
    match file_name(path) {
        Some(name) => {
            let chars = chars_of(name.as_str());
            (chars.len() > 0 && chars[0] == '.') || same_text(name.as_str(), "target") || same_text(
                name.as_str(),
                "node_modules",
            ) || same_text(name.as_str(), "build") || same_text(name.as_str(), "dist")
        },
        None => false,
    }
}

// ------------------------------------------------------------ the search

/// The URI of the file at `path`.
pub open spec fn file_uri(path: Seq<char>) -> Seq<char> {
    "file://"@ + path
}

/// The path `name` below the directory `root`.
pub open spec fn below(root: Seq<char>, name: Seq<char>) -> Seq<char> {
    root + "/"@ + name
}

/// What a directory entry is.
#[derive(Clone, Copy, Debug, PartialEq, Eq, Structural)]
pub enum EntryKind {
    File,
    Directory,
    Other,
}

/// One entry of a directory, as the file system lists it.
#[derive(Clone, Debug, PartialEq, Eq)]
pub struct DirEntry {
    /// The path of the entry. For a directory it is also the identity by
    /// which the search knows the directory again.
    pub path: String,
    pub kind: EntryKind,
}

/// What a directory entry holds.
pub struct DirEntryView {
    pub path: Seq<char>,
    pub kind: EntryKind,
}

impl View for DirEntry {
    type V = DirEntryView;

    open spec fn view(&self) -> DirEntryView {
        DirEntryView { path: self.path@, kind: self.kind }
    }
}

/// What the entries of a listing hold, one by one.
pub open spec fn entry_views(entries: Seq<DirEntry>) -> Seq<DirEntryView> {
    Seq::new(entries.len(), |i: int| entries[i]@)
}

/// What to ask the file system next, or the URI that was found.
#[derive(Clone, Debug, PartialEq, Eq)]
pub enum Probe {
    /// Resolve this path to its canonical form, if it exists.
    Canonicalize(String),
    /// Say whether this path is a directory.
    IsDirectory(String),
    /// List the entries of this directory.
    ReadDirectory(String),
    /// The search is over; this is the URI.
    Done(String),
}

/// What a probe holds.
pub enum ProbeView {
    Canonicalize(Seq<char>),
    IsDirectory(Seq<char>),
    ReadDirectory(Seq<char>),
    Done(Seq<char>),
}

impl View for Probe {
    type V = ProbeView;

    open spec fn view(&self) -> ProbeView {
        match self {
            Probe::Canonicalize(path) => ProbeView::Canonicalize(path@),
            Probe::IsDirectory(path) => ProbeView::IsDirectory(path@),
            Probe::ReadDirectory(path) => ProbeView::ReadDirectory(path@),
            Probe::Done(uri) => ProbeView::Done(uri@),
        }
    }
}

/// How far a search has come.
#[derive(Clone, Copy, Debug, PartialEq, Eq, Structural)]
pub enum Stage {
    /// The path itself is being resolved.
    Direct,
    /// The path below the root is being resolved.
    RootRelative,
    /// The root is being asked whether it is a directory.
    RootCheck,
    /// Directories below the root are being listed.
    Search,
    /// The URI has been handed out.
    Finished,
}

/// The state of a search.
pub struct SearchView {
    pub stage: Stage,
    /// The path as the log has it.
    pub raw: Seq<char>,
    /// The URI to fall back on.
    pub fallback: Seq<char>,
    /// The workspace root.
    pub root: Seq<char>,
    /// The directories still to be listed, in the order in which they were
    /// found.
    pub queue: Seq<Seq<char>>,
    /// The directories that were listed, or are being listed.
    pub visited: Set<Seq<char>>,
}

impl SearchView {
    /// A search begins by resolving the path itself.
    pub open spec fn start(raw: Seq<char>, fallback: Seq<char>, root: Seq<char>) -> (
        SearchView,
        ProbeView,
    ) {
        (
            SearchView {
                stage: Stage::Direct,
                raw,
                fallback,
                root,
                queue: Seq::empty(),
                visited: Set::empty(),
            },
            ProbeView::Canonicalize(raw),
        )
    }

    /// The search ends with `uri`.
    pub open spec fn finish(self, uri: Seq<char>) -> (SearchView, ProbeView) {
        (SearchView { stage: Stage::Finished, ..self }, ProbeView::Done(uri))
    }

    /// The search ends with the fallback.
    pub open spec fn give_up(self) -> (SearchView, ProbeView) {
        self.finish(self.fallback)
    }

    /// What follows when the file system has resolved a path, or has not.
    /// A path that resolves ends the search. Where the path itself does
    /// not, the path below the root is tried; where that does not either,
    /// the root is searched for the final component of the path, if it
    /// has one.
    pub open spec fn after_canonical(self, path: Option<Seq<char>>) -> (SearchView, ProbeView) {
        match self.stage {
            Stage::Direct => match path {
                Some(p) => self.finish(file_uri(p)),
                None => (
                    SearchView { stage: Stage::RootRelative, ..self },
                    ProbeView::Canonicalize(below(self.root, self.raw)),
                ),
            },
            Stage::RootRelative => match path {
                Some(p) => self.finish(file_uri(p)),
                None => if final_component(self.raw) is Some {
                    (
                        SearchView { stage: Stage::RootCheck, ..self },
                        ProbeView::IsDirectory(self.root),
                    )
                } else {
                    self.give_up()
                },
            },
            _ => self.give_up(),
        }
    }

    /// What follows when the file system has said whether the root is a
    /// directory: the search of the root, or the fallback.
    pub open spec fn after_directory(self, is_directory: bool) -> (SearchView, ProbeView) {
        if self.stage == Stage::RootCheck && is_directory {
            (SearchView { stage: Stage::Search, queue: seq![self.root], ..self }).next_directory()
        } else {
            self.give_up()
        }
    }

    /// The next directory to list: the first in the queue that was not
    /// listed before. With the queue used up the search ends with the
    /// fallback.
    pub open spec fn next_directory(self) -> (SearchView, ProbeView)
        decreases self.queue.len(),
    {
        if self.queue.len() == 0 {
            self.give_up()
        } else {
            let first = self.queue[0];
            let rest = SearchView { queue: self.queue.drop_first(), ..self };
            if self.visited.contains(first) {
                rest.next_directory()
            } else {
                (
                    SearchView { visited: self.visited.insert(first), ..rest },
                    ProbeView::ReadDirectory(first),
                )
            }
        }
    }

    /// What follows from the entries of a listing, from index `from` on.
    /// They are taken in order: the first file whose name is the final
    /// component of the path ends the search; a directory that is not left
    /// out joins the queue. After the last entry the next directory is
    /// listed.
    pub open spec fn scan(self, entries: Seq<DirEntryView>, from: int) -> (SearchView, ProbeView)
        decreases entries.len() - from,
    {
        if from < 0 || from >= entries.len() {
            self.next_directory()
        } else {
            let entry = entries[from];
            if entry.kind == EntryKind::File {
                if final_component(entry.path) == final_component(self.raw) {
                    self.finish(file_uri(entry.path))
                } else {
                    self.scan(entries, from + 1)
                }
            } else if entry.kind == EntryKind::Directory && !ignored_dir(entry.path) {
                (SearchView { queue: self.queue.push(entry.path), ..self }).scan(entries, from + 1)
            } else {
                self.scan(entries, from + 1)
            }
        }
    }

    /// What follows when the file system has listed a directory. A
    /// directory that cannot be read is handed in as an empty listing.
    pub open spec fn after_listing(self, entries: Seq<DirEntryView>) -> (SearchView, ProbeView) {
        if self.stage == Stage::Search && final_component(self.raw) is Some {
            self.scan(entries, 0)
        } else {
            self.give_up()
        }
    }
}

/// A search under way.
pub struct Resolver {
    stage: Stage,
    raw: String,
    fallback: String,
    root: String,
    queue: VecDeque<String>,
    visited: StringHashSet,
}

impl View for Resolver {
    type V = SearchView;

    closed spec fn view(&self) -> SearchView {
        SearchView {
            stage: self.stage,
            raw: self.raw@,
            fallback: self.fallback@,
            root: self.root@,
            queue: texts(self.queue@),
            visited: self.visited@,
        }
    }
}

/// Begins the search for the URI of the file that a log calls `p`. `uri`
/// is the URI to give where nothing is found, `root` the workspace root.
/// The search goes on with the answer to each probe, until a probe is
/// `Done`.
pub fn make_uri(p: &str, uri: &str, root: &str) -> (r: (Resolver, Probe))
    ensures
        (r.0@, r.1@) == SearchView::start(p@, uri@, root@),
{
    let resolver = Resolver {
        stage: Stage::Direct,
        raw: p.to_owned(),
        fallback: uri.to_owned(),
        root: root.to_owned(),
        queue: VecDeque::new(),
        visited: StringHashSet::new(),
    };
    proof {
        assert(texts(resolver.queue@) =~= Seq::<Seq<char>>::empty());
    }
    (resolver, Probe::Canonicalize(p.to_owned()))
}

impl Resolver {
    fn finish(&mut self, uri: String) -> (probe: Probe)
        ensures
            (final(self)@, probe@) == old(self)@.finish(uri@),
    {
        self.stage = Stage::Finished;
        Probe::Done(uri)
    }

    fn give_up(&mut self) -> (probe: Probe)
        ensures
            (final(self)@, probe@) == old(self)@.give_up(),
    {
        let uri = self.fallback.clone();
        self.finish(uri)
    }

    /// Takes the answer to `Canonicalize`: the canonical path, or `None`
    /// where the path does not resolve.
    pub fn on_canonical(&mut self, path: Option<String>) -> (probe: Probe)
        ensures
            (final(self)@, probe@) == old(self)@.after_canonical(
                match path {
                    Some(p) => Some(p@),
                    None => None,
                },
            ),
    {
        match self.stage {
            Stage::Direct => match path {
                Some(p) => {
                    let mut uri = String::from_str("file://");
                    uri.append(p.as_str());
                    self.finish(uri)
                },
                None => {
                    self.stage = Stage::RootRelative;
                    let mut next = self.root.clone();
                    next.append("/");
                    next.append(self.raw.as_str());
                    Probe::Canonicalize(next)
                },
            },
            Stage::RootRelative => match path {
                Some(p) => {
                    let mut uri = String::from_str("file://");
                    uri.append(p.as_str());
                    self.finish(uri)
                },
                None => {
                    if file_name(self.raw.as_str()).is_some() {
                        self.stage = Stage::RootCheck;
                        Probe::IsDirectory(self.root.clone())
                    } else {
                        self.give_up()
                    }
                },
            },
            _ => self.give_up(),
        }
    }

    /// Takes the answer to `IsDirectory`.
    pub fn on_directory(&mut self, is_directory: bool) -> (probe: Probe)
        ensures
            (final(self)@, probe@) == old(self)@.after_directory(is_directory),
    {
        if self.stage == Stage::RootCheck && is_directory {
            self.stage = Stage::Search;
            let mut queue: VecDeque<String> = VecDeque::new();
            queue.push_back(self.root.clone());
            self.queue = queue;
            proof {
                assert(texts(self.queue@) =~= seq![self.root@]);
            }
            self.next_directory()
        } else {
            self.give_up()
        }
    }

    fn next_directory(&mut self) -> (probe: Probe)
        ensures
            (final(self)@, probe@) == old(self)@.next_directory(),
    {
        loop
            invariant
                self@.next_directory() == old(self)@.next_directory(),
            decreases self.queue.len(),
        {
            let ghost before = self@;
            match self.queue.pop_front() {
                Some(first) => {
                    proof {
                        assert(texts(self.queue@) =~= before.queue.drop_first());
                        assert(first@ == before.queue[0]);
                    }
                    let listed = first.clone();
                    if self.visited.insert(first) {
                        return Probe::ReadDirectory(listed);
                    }
                    proof {
                        assert(self.visited@ =~= before.visited);
                    }
                },
                None => {
                    return self.give_up();
                },
            }
        }
    }

    /// Takes the answer to `ReadDirectory`: the entries of the directory,
    /// in the order in which the file system lists them. A directory that
    /// cannot be read is handed in as an empty listing.
    pub fn on_listing(&mut self, entries: Vec<DirEntry>) -> (probe: Probe)
        ensures
            (final(self)@, probe@) == old(self)@.after_listing(entry_views(entries@)),
    {
        if self.stage != Stage::Search {
            return self.give_up();
        }
        let wanted: String = match file_name(self.raw.as_str()) {
            Some(name) => name,
            None => {
                return self.give_up();
            },
        };
        let ghost all = entry_views(entries@);
        let mut i: usize = 0;
        while i < entries.len()
            invariant
                i <= entries.len(),
                all == entry_views(entries@),
                old(self)@.stage == Stage::Search,
                final_component(old(self)@.raw) is Some,
                final_component(self@.raw) == Some(wanted@),
                self@.scan(all, i as int) == old(self)@.scan(all, 0),
            decreases entries.len() - i,
        {
            let entry = &entries[i];
            proof {
                assert(all[i as int] == entry@);
            }
            match entry.kind {
                EntryKind::File => {
                    let found: bool = match file_name(entry.path.as_str()) {
                        Some(name) => name == wanted,
                        None => false,
                    };
                    if found {
                        let mut uri = String::from_str("file://");
                        uri.append(entry.path.as_str());
                        return self.finish(uri);
                    }
                },
                EntryKind::Directory => {
                    if !is_ignore_dir(entry.path.as_str()) {
                        let ghost waiting = self.queue@;
                        self.queue.push_back(entry.path.clone());
                        proof {
                            assert(texts(self.queue@) =~= texts(waiting).push(entry.path@));
                        }
                    }
                },
                EntryKind::Other => {},
            }
            i += 1;
        }
        self.next_directory()
    }
}

// ---------------------------------------------------------------- laws

/// Whether a probe ends the search with the fallback.
pub open spec fn falls_back(s: SearchView, p: ProbeView) -> bool {
    p == ProbeView::Done(s.fallback)
}

/// Taking the next directory lists a directory that was not listed
/// before, and notes it as listed; or it ends the search with the
/// fallback and lists nothing.
pub proof fn lemma_next_directory(s: SearchView)
    ensures
        ({
            let (t, p) = s.next_directory();
            match p {
                ProbeView::ReadDirectory(d) => !s.visited.contains(d) && s.queue.contains(d)
                    && t.visited == s.visited.insert(d) && t.stage == s.stage,
                _ => falls_back(s, p) && t.visited == s.visited && t.stage == Stage::Finished,
            }
        }),
    decreases s.queue.len(),
{
    if s.queue.len() > 0 {
        let first = s.queue[0];
        let rest = SearchView { queue: s.queue.drop_first(), ..s };
        if s.visited.contains(first) {
            lemma_next_directory(rest);
            let (t, p) = rest.next_directory();
            if let ProbeView::ReadDirectory(d) = p {
                let k = choose|k: int| 0 <= k < rest.queue.len() && rest.queue[k] == d;
                assert(s.queue[k + 1] == d);
            }
        } else {
            assert(s.queue[0] == first);
        }
    }
}

/// Whether a probe ends the search with the URI of a file of `entries`
/// whose name is the final component of the path that is searched for.
pub open spec fn finds_in(s: SearchView, entries: Seq<DirEntryView>, p: ProbeView) -> bool {
    exists|i: int|
        #![auto]
        0 <= i < entries.len() && entries[i].kind == EntryKind::File && final_component(
            entries[i].path,
        ) == final_component(s.raw) && p == ProbeView::Done(file_uri(entries[i].path))
}

/// Going through a listing ends the search with a file of the listing
/// that has the name, or goes on as `lemma_next_directory` says.
pub proof fn lemma_scan(s: SearchView, entries: Seq<DirEntryView>, from: int)
    requires
        0 <= from,
    ensures
        ({
            let (t, p) = s.scan(entries, from);
            match p {
                ProbeView::ReadDirectory(d) => !s.visited.contains(d) && t.visited
                    == s.visited.insert(d) && t.stage == s.stage,
                _ => (falls_back(s, p) || finds_in(s, entries, p)) && t.visited == s.visited
                    && t.stage == Stage::Finished,
            }
        }),
    decreases entries.len() - from,
{
    if from >= entries.len() {
        lemma_next_directory(s);
    } else {
        let entry = entries[from];
        if entry.kind == EntryKind::File {
            if final_component(entry.path) == final_component(s.raw) {
                assert(finds_in(s, entries, ProbeView::Done(file_uri(entry.path))));
            } else {
                lemma_scan(s, entries, from + 1);
            }
        } else if entry.kind == EntryKind::Directory && !ignored_dir(entry.path) {
            let more = SearchView { queue: s.queue.push(entry.path), ..s };
            lemma_scan(more, entries, from + 1);
            let (t, p) = more.scan(entries, from + 1);
            assert(finds_in(more, entries, p) == finds_in(s, entries, p));
        } else {
            lemma_scan(s, entries, from + 1);
        }
    }
}

/// Each directory is listed at most once: whatever a listing holds, the
/// probe that follows it lists a directory that was not listed before,
/// or ends the search; and the search ends with the URI of a file that
/// has the name, or with the fallback.
pub proof fn lemma_listed_once(s: SearchView, entries: Seq<DirEntryView>)
    ensures
        ({
            let (t, p) = s.after_listing(entries);
            match p {
                ProbeView::ReadDirectory(d) => !s.visited.contains(d) && t.visited
                    == s.visited.insert(d) && t.stage == Stage::Search,
                _ => (falls_back(s, p) || finds_in(s, entries, p)) && t.visited == s.visited
                    && t.stage == Stage::Finished,
            }
        }),
{
    if s.stage == Stage::Search && final_component(s.raw) is Some {
        lemma_scan(s, entries, 0);
    }
}

/// Whether every directory that waits to be listed is the root or a
/// directory that the search does not leave out.
pub open spec fn queue_is_clean(s: SearchView) -> bool {
    forall|i: int|
        0 <= i < s.queue.len() ==> #[trigger] s.queue[i] == s.root || !ignored_dir(s.queue[i])
}

proof fn lemma_clean_next(s: SearchView)
    requires
        queue_is_clean(s),
    ensures
        ({
            let (t, p) = s.next_directory();
            &&& queue_is_clean(t)
            &&& t.root == s.root
            &&& p matches ProbeView::ReadDirectory(d) ==> d == s.root || !ignored_dir(d)
        }),
    decreases s.queue.len(),
{
    if s.queue.len() > 0 {
        let rest = SearchView { queue: s.queue.drop_first(), ..s };
        assert forall|i: int| 0 <= i < rest.queue.len() implies #[trigger] rest.queue[i] == rest.root
            || !ignored_dir(rest.queue[i]) by {
            assert(rest.queue[i] == s.queue[i + 1]);
        }
        assert(s.queue[0] == s.root || !ignored_dir(s.queue[0]));
        if s.visited.contains(s.queue[0]) {
            lemma_clean_next(rest);
        } else {
            let t = SearchView { visited: s.visited.insert(s.queue[0]), ..rest };
            assert(queue_is_clean(t));
        }
    }
}

proof fn lemma_clean_scan(s: SearchView, entries: Seq<DirEntryView>, from: int)
    requires
        queue_is_clean(s),
        0 <= from,
    ensures
        ({
            let (t, p) = s.scan(entries, from);
            &&& queue_is_clean(t)
            &&& t.root == s.root
            &&& p matches ProbeView::ReadDirectory(d) ==> d == s.root || !ignored_dir(d)
        }),
    decreases entries.len() - from,
{
    if from >= entries.len() {
        lemma_clean_next(s);
    } else {
        let entry = entries[from];
        if entry.kind == EntryKind::File {
            if final_component(entry.path) != final_component(s.raw) {
                lemma_clean_scan(s, entries, from + 1);
            }
        } else if entry.kind == EntryKind::Directory && !ignored_dir(entry.path) {
            let more = SearchView { queue: s.queue.push(entry.path), ..s };
            assert forall|i: int| 0 <= i < more.queue.len() implies #[trigger] more.queue[i]
                == more.root || !ignored_dir(more.queue[i]) by {
                if i < s.queue.len() {
                    assert(more.queue[i] == s.queue[i]);
                }
            }
            lemma_clean_scan(more, entries, from + 1);
        } else {
            lemma_clean_scan(s, entries, from + 1);
        }
    }
}

/// Directories that are left out are never listed: apart from the root
/// itself, no directory with an ignored name is ever asked for, whatever
/// the listings hold.
pub proof fn lemma_ignored_never_listed(s: SearchView, entries: Seq<DirEntryView>)
    requires
        queue_is_clean(s),
    ensures
        ({
            let (t, p) = s.after_listing(entries);
            &&& queue_is_clean(t)
            &&& p matches ProbeView::ReadDirectory(d) ==> d == s.root || !ignored_dir(d)
        }),
        ({
            let (t, p) = s.after_directory(true);
            queue_is_clean(t)
        }),
{
    if s.stage == Stage::Search && final_component(s.raw) is Some {
        lemma_clean_scan(s, entries, 0);
    }
    if s.stage == Stage::RootCheck {
        let begun = SearchView { stage: Stage::Search, queue: seq![s.root], ..s };
        assert(begun.queue[0] == s.root);
        assert(queue_is_clean(begun));
        lemma_clean_next(begun);
    }
}

/// The order of the attempts: a path that resolves decides at once,
/// whatever lies below the root; the path below the root is tried only
/// after the path itself has failed, and the root is searched only after
/// that has failed too.
pub proof fn lemma_order_of_attempts(
    raw: Seq<char>,
    fallback: Seq<char>,
    root: Seq<char>,
    found: Seq<char>,
)
    ensures
        ({
            let (s0, p0) = SearchView::start(raw, fallback, root);
            let (s1, p1) = s0.after_canonical(None);
            let (s2, p2) = s1.after_canonical(None);
            &&& p0 == ProbeView::Canonicalize(raw)
            &&& s0.after_canonical(Some(found)).1 == ProbeView::Done(file_uri(found))
            &&& p1 == ProbeView::Canonicalize(below(root, raw))
            &&& s1.after_canonical(Some(found)).1 == ProbeView::Done(file_uri(found))
            &&& p2 == if final_component(raw) is Some {
                ProbeView::IsDirectory(root)
            } else {
                ProbeView::Done(fallback)
            }
            &&& s2.after_directory(false).1 == ProbeView::Done(fallback)
            &&& final_component(raw) is Some ==> s2.after_directory(true).1
                == ProbeView::ReadDirectory(root)
        }),
{
    let (s0, p0) = SearchView::start(raw, fallback, root);
    let (s1, p1) = s0.after_canonical(None);
    let (s2, p2) = s1.after_canonical(None);
    if final_component(raw) is Some {
        let begun = SearchView { stage: Stage::Search, queue: seq![root], ..s2 };
        assert(begun.queue[0] == root);
        assert(!begun.visited.contains(root));
    }
}

} // verus!
