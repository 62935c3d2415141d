//! What holds of a whole search, from the first probe to the URI, over a
//! file tree that answers the probes.

use crate::resolver::{
    below, file_uri, final_component, ignored_dir, lemma_next_directory, DirEntryView, EntryKind,
    ProbeView, SearchView, Stage,
};
use vstd::prelude::*;

verus! {

/// A file tree, as far as a search can see it.
pub struct FileTree {
    /// The canonical form of each path that resolves.
    pub canonical: Map<Seq<char>, Seq<char>>,
    /// The entries of each directory, in the order in which it lists
    /// them.
    pub listings: Map<Seq<char>, Seq<DirEntryView>>,
}

impl FileTree {
    /// The answer to `Canonicalize`.
    pub open spec fn resolve(self, path: Seq<char>) -> Option<Seq<char>> {
        if self.canonical.contains_key(path) {
            Some(self.canonical[path])
        } else {
            None
        }
    }

    /// The answer to `IsDirectory`.
    pub open spec fn is_directory(self, path: Seq<char>) -> bool {
        self.listings.contains_key(path)
    }

    /// The answer to `ReadDirectory`; what is no directory lists nothing.
    pub open spec fn listing(self, path: Seq<char>) -> Seq<DirEntryView> {
        if self.listings.contains_key(path) {
            self.listings[path]
        } else {
            Seq::empty()
        }
    }

    /// One step of a search: the probe is answered and the answer taken.
    /// A search that is done stays done.
    pub open spec fn step(self, s: SearchView, p: ProbeView) -> (SearchView, ProbeView) {
        match p {
            ProbeView::Canonicalize(path) => s.after_canonical(self.resolve(path)),
            ProbeView::IsDirectory(path) => s.after_directory(self.is_directory(path)),
            ProbeView::ReadDirectory(path) => s.after_listing(self.listing(path)),
            ProbeView::Done(uri) => (s, p),
        }
    }

    /// Where a search stands after `steps` steps.
    pub open spec fn run(self, s: SearchView, p: ProbeView, steps: nat) -> (SearchView, ProbeView)
        decreases steps,
    {
        if steps == 0 {
            (s, p)
        } else {
            let (t, q) = self.step(s, p);
            self.run(t, q, (steps - 1) as nat)
        }
    }

    /// The probe that a search for `raw` has come to after `steps` steps.
    pub open spec fn search(
        self,
        raw: Seq<char>,
        fallback: Seq<char>,
        root: Seq<char>,
        steps: nat,
    ) -> ProbeView {
        let (s, p) = SearchView::start(raw, fallback, root);
        self.run(s, p, steps).1
    }

    /// Whether `directory` lists `path` as an entry of kind `kind`.
    pub open spec fn lists(self, directory: Seq<char>, path: Seq<char>, kind: EntryKind) -> bool {
        exists|i: int|
            0 <= i < self.listing(directory).len() && (#[trigger] self.listing(directory)[i])
                == (DirEntryView { path, kind })
    }

    /// Whether each directory of `chain` but the first is listed by the
    /// one before it, and none of them is left out of the search.
    pub open spec fn is_chain(self, chain: Seq<Seq<char>>) -> bool {
        &&& chain.len() >= 1
        &&& forall|j: int|
            0 <= j < chain.len() - 1 ==> self.lists(
                #[trigger] chain[j],
                chain[j + 1],
                EntryKind::Directory,
            ) && !ignored_dir(chain[j + 1])
    }

    /// Whether every file of the tree that has the name of `raw` is
    /// `file`.
    pub open spec fn only_file(self, raw: Seq<char>, file: Seq<char>) -> bool {
        forall|d: Seq<char>, i: int|
            0 <= i < self.listing(d).len() && (#[trigger] self.listing(d)[i]).kind
                == EntryKind::File && final_component(self.listing(d)[i].path) == final_component(
                raw,
            ) ==> self.listing(d)[i].path == file
    }

    /// Whether every directory that the tree lists is one of `all`.
    pub open spec fn directories_among(self, all: Set<Seq<char>>) -> bool {
        forall|d: Seq<char>, i: int|
            0 <= i < self.listing(d).len() && (#[trigger] self.listing(d)[i]).kind
                == EntryKind::Directory ==> all.contains(self.listing(d)[i].path)
    }
}

/// Whether an entry is a file with the name of `raw`.
pub open spec fn has_name(entry: DirEntryView, raw: Seq<char>) -> bool {
    entry.kind == EntryKind::File && final_component(entry.path) == final_component(raw)
}

/// The queue after the entries of a listing from index `from` on were
/// gone through without a find: each directory that is not left out has
/// joined it.
pub open spec fn queued(queue: Seq<Seq<char>>, entries: Seq<DirEntryView>, from: int) -> Seq<
    Seq<char>,
>
    decreases entries.len() - from,
{
    if from < 0 || from >= entries.len() {
        queue
    } else if entries[from].kind == EntryKind::Directory && !ignored_dir(entries[from].path) {
        queued(queue.push(entries[from].path), entries, from + 1)
    } else {
        queued(queue, entries, from + 1)
    }
}

/// Whether `entries` holds a directory with the path `x`.
pub open spec fn holds_directory(entries: Seq<DirEntryView>, x: Seq<char>) -> bool {
    exists|i: int|
        0 <= i < entries.len() && (#[trigger] entries[i]).kind == EntryKind::Directory
            && entries[i].path == x
}

/// The longer queue holds what the queue held and every directory of
/// the entries that is not left out, and nothing but what the queue held
/// and directories of the entries.
proof fn lemma_queued(queue: Seq<Seq<char>>, entries: Seq<DirEntryView>, from: int)
    requires
        0 <= from,
    ensures
        ({
            let longer = queued(queue, entries, from);
            &&& forall|x: Seq<char>| #[trigger] queue.contains(x) ==> longer.contains(x)
            &&& forall|i: int|
                from <= i < entries.len() && (#[trigger] entries[i]).kind == EntryKind::Directory
                    && !ignored_dir(entries[i].path) ==> longer.contains(entries[i].path)
            &&& forall|x: Seq<char>| #[trigger]
                longer.contains(x) ==> queue.contains(x) || holds_directory(entries, x)
        }),
    decreases entries.len() - from,
{
    let longer = queued(queue, entries, from);
    if from < entries.len() {
        if entries[from].kind == EntryKind::Directory && !ignored_dir(entries[from].path) {
            let more = queue.push(entries[from].path);
            lemma_queued(more, entries, from + 1);
            assert(longer == queued(more, entries, from + 1));
            assert(more[more.len() - 1] == entries[from].path);
            assert(more.contains(entries[from].path));
            assert forall|x: Seq<char>| #[trigger] queue.contains(x) implies longer.contains(x) by {
                let k = choose|k: int| 0 <= k < queue.len() && queue[k] == x;
                assert(more[k] == x);
                assert(more.contains(x));
            }
            assert forall|i: int|
                from <= i < entries.len() && (#[trigger] entries[i]).kind == EntryKind::Directory
                    && !ignored_dir(entries[i].path) implies longer.contains(entries[i].path) by {
                if i == from {
                    assert(more.contains(entries[i].path));
                }
            }
            assert forall|x: Seq<char>| #[trigger] longer.contains(x) implies queue.contains(x)
                || holds_directory(entries, x) by {
                if more.contains(x) {
                    let k = choose|k: int| 0 <= k < more.len() && more[k] == x;
                    if k < queue.len() {
                        assert(queue[k] == x);
                    } else {
                        assert(entries[from].kind == EntryKind::Directory && entries[from].path
                            == x);
                    }
                }
            }
        } else {
            lemma_queued(queue, entries, from + 1);
            assert(longer == queued(queue, entries, from + 1));
            assert forall|i: int|
                from <= i < entries.len() && (#[trigger] entries[i]).kind == EntryKind::Directory
                    && !ignored_dir(entries[i].path) implies longer.contains(entries[i].path) by {
                assert(i != from);
            }
        }
    } else {
        assert(longer == queue);
    }
}

/// Going through entries of which none is a file with the name leaves
/// the search as it was, with a longer queue, and takes the next
/// directory.
proof fn lemma_scan_without_find(s: SearchView, entries: Seq<DirEntryView>, from: int)
    requires
        0 <= from,
        forall|i: int| from <= i < entries.len() ==> !has_name(#[trigger] entries[i], s.raw),
    ensures
        s.scan(entries, from) == (SearchView {
            queue: queued(s.queue, entries, from),
            ..s
        }).next_directory(),
    decreases entries.len() - from,
{
    if from < entries.len() {
        assert(!has_name(entries[from], s.raw));
        if entries[from].kind == EntryKind::Directory && !ignored_dir(entries[from].path) {
            let more = SearchView { queue: s.queue.push(entries[from].path), ..s };
            lemma_scan_without_find(more, entries, from + 1);
        } else {
            lemma_scan_without_find(s, entries, from + 1);
        }
    }
}

/// Going through entries of which one is a file with the name ends the
/// search with the first such file.
proof fn lemma_scan_with_find(s: SearchView, entries: Seq<DirEntryView>, from: int, file: Seq<char>)
    requires
        0 <= from,
        exists|i: int| from <= i < entries.len() && has_name(#[trigger] entries[i], s.raw),
        forall|i: int|
            0 <= i < entries.len() && has_name(#[trigger] entries[i], s.raw) ==> entries[i].path
                == file,
    ensures
        s.scan(entries, from).1 == ProbeView::Done(file_uri(file)),
    decreases entries.len() - from,
{
    let w = choose|i: int| from <= i < entries.len() && has_name(#[trigger] entries[i], s.raw);
    if has_name(entries[from], s.raw) {
    } else {
        assert(w > from);
        assert(from + 1 <= w < entries.len() && has_name(entries[w], s.raw));
        if entries[from].kind == EntryKind::Directory && !ignored_dir(entries[from].path) {
            let more = SearchView { queue: s.queue.push(entries[from].path), ..s };
            lemma_scan_with_find(more, entries, from + 1, file);
        } else {
            lemma_scan_with_find(s, entries, from + 1, file);
        }
    }
}

/// Taking the next directory changes the queue and what is listed and
/// nothing else; what leaves the queue is listed; and where the queue
/// holds a directory that is not listed yet, one is listed next.
proof fn lemma_next_directory_keeps(s: SearchView)
    ensures
        ({
            let (t, p) = s.next_directory();
            &&& t.raw == s.raw && t.root == s.root && t.fallback == s.fallback
            &&& forall|x: Seq<char>| #[trigger] t.queue.contains(x) ==> s.queue.contains(x)
            &&& forall|x: Seq<char>|
                s.queue.contains(x) ==> #[trigger] t.queue.contains(x) || t.visited.contains(x)
            &&& forall|x: Seq<char>| s.visited.contains(x) ==> t.visited.contains(x)
            &&& (exists|x: Seq<char>| #[trigger] s.queue.contains(x) && !s.visited.contains(x))
                ==> p is ReadDirectory
        }),
    decreases s.queue.len(),
{
    if s.queue.len() > 0 {
        let first = s.queue[0];
        let rest = SearchView { queue: s.queue.drop_first(), ..s };
        assert forall|x: Seq<char>| #[trigger] rest.queue.contains(x) implies s.queue.contains(
            x,
        ) by {
            let k = choose|k: int| 0 <= k < rest.queue.len() && rest.queue[k] == x;
            assert(s.queue[k + 1] == x);
        }
        assert forall|x: Seq<char>| s.queue.contains(x) implies x == first || rest.queue.contains(
            x,
        ) by {
            let k = choose|k: int| 0 <= k < s.queue.len() && s.queue[k] == x;
            if k > 0 {
                assert(rest.queue[k - 1] == x);
            }
        }
        if s.visited.contains(first) {
            lemma_next_directory_keeps(rest);
            let (t, p) = rest.next_directory();
            if exists|x: Seq<char>| #[trigger] s.queue.contains(x) && !s.visited.contains(x) {
                let x = choose|x: Seq<char>| #[trigger]
                    s.queue.contains(x) && !s.visited.contains(x);
                assert(rest.queue.contains(x) && !rest.visited.contains(x));
            }
        }
    } else {
        assert forall|x: Seq<char>| !s.queue.contains(x) by {}
    }
}

/// Whether a search that is listing `current` will still come to the
/// file at the end of `chain`: what was listed is known, what waits is
/// known, and of the directories of the chain the next one that is not
/// listed yet waits in the queue.
pub open spec fn on_track(
    chain: Seq<Seq<char>>,
    file: Seq<char>,
    all: Set<Seq<char>>,
    s: SearchView,
    current: Seq<char>,
) -> bool {
    &&& s.stage == Stage::Search
    &&& final_component(s.raw) is Some
    &&& s.visited.contains(current)
    &&& s.visited.subset_of(all)
    &&& forall|x: Seq<char>| #[trigger] s.queue.contains(x) ==> all.contains(x)
    &&& chain.len() >= 1
    &&& !(s.visited.contains(chain.last()) && chain.last() != current)
    &&& s.visited.contains(chain[0]) || s.queue.contains(chain[0])
    &&& forall|j: int|
        0 <= j < chain.len() - 1 && s.visited.contains(#[trigger] chain[j]) && chain[j] != current
            ==> s.visited.contains(chain[j + 1]) || s.queue.contains(chain[j + 1])
}

/// Of a chain whose first directory is listed or waits, whose every
/// listed directory is followed by one that is listed or waits, and
/// whose last is not listed, one directory waits and is not listed.
proof fn lemma_frontier(
    chain: Seq<Seq<char>>,
    visited: Set<Seq<char>>,
    queue: Seq<Seq<char>>,
    j: int,
)
    requires
        0 <= j < chain.len(),
        visited.contains(chain[j]) || queue.contains(chain[j]),
        !visited.contains(chain.last()),
        forall|k: int|
            0 <= k < chain.len() - 1 && visited.contains(#[trigger] chain[k]) ==> visited.contains(
                chain[k + 1],
            ) || queue.contains(chain[k + 1]),
    ensures
        exists|x: Seq<char>| #[trigger] queue.contains(x) && !visited.contains(x),
    decreases chain.len() - j,
{
    if visited.contains(chain[j]) {
        assert(j < chain.len() - 1);
        lemma_frontier(chain, visited, queue, j + 1);
    } else {
        assert(queue.contains(chain[j]) && !visited.contains(chain[j]));
    }
}

/// A search that is on track comes to the file.
proof fn lemma_on_track(
    tree: FileTree,
    chain: Seq<Seq<char>>,
    file: Seq<char>,
    all: Set<Seq<char>>,
    s: SearchView,
    current: Seq<char>,
    left: nat,
)
    requires
        tree.is_chain(chain),
        tree.lists(chain.last(), file, EntryKind::File),
        final_component(file) == final_component(s.raw),
        tree.only_file(s.raw, file),
        tree.directories_among(all),
        all.finite(),
        on_track(chain, file, all, s, current),
        left == all.difference(s.visited).len(),
    ensures
        exists|steps: nat|
            (#[trigger] tree.run(s, ProbeView::ReadDirectory(current), steps)).1
                == ProbeView::Done(file_uri(file)),
    decreases left,
{
    let entries = tree.listing(current);
    let (t, p) = s.after_listing(entries);
    assert(tree.step(s, ProbeView::ReadDirectory(current)) == (t, p));
    assert((t, p) == s.scan(entries, 0));
    assert forall|i: int| 0 <= i < entries.len() && has_name(#[trigger] entries[i], s.raw) implies
        entries[i].path == file by {
        assert(tree.listing(current)[i].kind == EntryKind::File);
    }
    if exists|i: int| 0 <= i < entries.len() && has_name(#[trigger] entries[i], s.raw) {
        lemma_scan_with_find(s, entries, 0, file);
        assert(tree.run(t, p, 0) == (t, p));
        assert(tree.run(s, ProbeView::ReadDirectory(current), 1) == tree.run(t, p, 0));
    } else {
        if current == chain.last() {
            let i = choose|i: int|
                0 <= i < tree.listing(chain.last()).len() && (#[trigger] tree.listing(
                    chain.last(),
                )[i]) == (DirEntryView { path: file, kind: EntryKind::File });
            assert(has_name(entries[i], s.raw));
        }
        lemma_scan_without_find(s, entries, 0);
        let waiting = queued(s.queue, entries, 0);
        let grown = SearchView { queue: waiting, ..s };
        lemma_queued(s.queue, entries, 0);
        lemma_next_directory(grown);
        lemma_next_directory_keeps(grown);
        assert forall|k: int|
            0 <= k < chain.len() - 1 && s.visited.contains(#[trigger] chain[k]) implies
            s.visited.contains(chain[k + 1]) || waiting.contains(chain[k + 1]) by {
            if chain[k] == current {
                assert(tree.lists(chain[k], chain[k + 1], EntryKind::Directory));
                let i = choose|i: int|
                    0 <= i < tree.listing(chain[k]).len() && (#[trigger] tree.listing(chain[k])[i])
                        == (DirEntryView { path: chain[k + 1], kind: EntryKind::Directory });
                assert(entries[i].kind == EntryKind::Directory && !ignored_dir(entries[i].path));
                assert(waiting.contains(entries[i].path));
            } else {
                if s.queue.contains(chain[k + 1]) {
                    assert(waiting.contains(chain[k + 1]));
                }
            }
        }
        if s.queue.contains(chain[0]) {
            assert(waiting.contains(chain[0]));
        }
        lemma_frontier(chain, s.visited, waiting, 0);
        assert(p is ReadDirectory);
        let next = p->ReadDirectory_0;
        assert(waiting.contains(next));
        assert(all.contains(next)) by {
            if !s.queue.contains(next) {
                assert(holds_directory(entries, next));
                let i = choose|i: int|
                    0 <= i < entries.len() && (#[trigger] entries[i]).kind == EntryKind::Directory
                        && entries[i].path == next;
                assert(tree.listing(current)[i].kind == EntryKind::Directory);
            }
        }
        assert(t.visited == s.visited.insert(next));
        assert(all.difference(t.visited) =~= all.difference(s.visited).remove(next));
        assert(all.difference(s.visited).contains(next));
        assert(all.difference(s.visited).finite());
        assert(on_track(chain, file, all, t, next)) by {
            assert forall|x: Seq<char>| #[trigger] t.queue.contains(x) implies all.contains(x) by {
                assert(waiting.contains(x));
                if !s.queue.contains(x) {
                    assert(holds_directory(entries, x));
                    let i = choose|i: int|
                        0 <= i < entries.len() && (#[trigger] entries[i]).kind
                            == EntryKind::Directory && entries[i].path == x;
                    assert(tree.listing(current)[i].kind == EntryKind::Directory);
                }
            }
            assert forall|j: int|
                0 <= j < chain.len() - 1 && t.visited.contains(#[trigger] chain[j]) && chain[j]
                    != next implies t.visited.contains(chain[j + 1]) || t.queue.contains(
                chain[j + 1],
            ) by {
                assert(s.visited.contains(chain[j]));
                if !s.visited.contains(chain[j + 1]) {
                    assert(waiting.contains(chain[j + 1]));
                }
            }
            if !s.visited.contains(chain[0]) {
                assert(waiting.contains(chain[0]));
            }
        }
        lemma_on_track(tree, chain, file, all, t, next, (left - 1) as nat);
        let steps = choose|steps: nat|
            (#[trigger] tree.run(t, ProbeView::ReadDirectory(next), steps)).1 == ProbeView::Done(
                file_uri(file),
            );
        assert(tree.run(s, ProbeView::ReadDirectory(current), steps + 1) == tree.run(
            t,
            p,
            steps,
        ));
    }
}

/// A file that can be reached is found. Where neither the path nor the
/// path below the root resolves, the root is a directory, a chain of
/// directories that are not left out leads from the root to a directory
/// that lists a file with the name that is searched for, and no other
/// file of the tree has that name, the search ends with the URI of that
/// file, whatever else the tree holds and however deep the file lies.
/// The tree lists finitely many directories.
pub proof fn lemma_reachable_file_is_found(
    tree: FileTree,
    raw: Seq<char>,
    fallback: Seq<char>,
    root: Seq<char>,
    chain: Seq<Seq<char>>,
    file: Seq<char>,
    all: Set<Seq<char>>,
)
    requires
        tree.resolve(raw) is None,
        tree.resolve(below(root, raw)) is None,
        tree.is_directory(root),
        tree.is_chain(chain),
        chain[0] == root,
        tree.lists(chain.last(), file, EntryKind::File),
        final_component(raw) is Some,
        final_component(file) == final_component(raw),
        tree.only_file(raw, file),
        tree.directories_among(all),
        all.contains(root),
        all.finite(),
    ensures
        exists|steps: nat|
            #[trigger] tree.search(raw, fallback, root, steps) == ProbeView::Done(file_uri(file)),
{
    let (s0, p0) = SearchView::start(raw, fallback, root);
    let (s1, p1) = tree.step(s0, p0);
    let (s2, p2) = tree.step(s1, p1);
    let (s3, p3) = tree.step(s2, p2);
    let begun = SearchView { stage: Stage::Search, queue: seq![root], ..s2 };
    assert(begun.queue[0] == root);
    assert(begun.queue.drop_first() =~= Seq::<Seq<char>>::empty());
    assert(p3 == ProbeView::ReadDirectory(root));
    assert(s3.visited =~= Set::<Seq<char>>::empty().insert(root));
    assert(on_track(chain, file, all, s3, root)) by {
        assert forall|x: Seq<char>| !(#[trigger] s3.queue.contains(x)) by {}
    }
    lemma_on_track(tree, chain, file, all, s3, root, all.difference(s3.visited).len());
    let steps = choose|steps: nat|
        (#[trigger] tree.run(s3, ProbeView::ReadDirectory(root), steps)).1 == ProbeView::Done(
            file_uri(file),
        );
    assert(tree.run(s2, p2, steps + 1) == tree.run(s3, p3, steps));
    assert(tree.run(s1, p1, steps + 2) == tree.run(s2, p2, steps + 1));
    assert(tree.run(s0, p0, steps + 3) == tree.run(s1, p1, steps + 2));
    assert(tree.search(raw, fallback, root, steps + 3) == ProbeView::Done(file_uri(file)));
}

/// A file three directories deep is found: the case of
/// `lemma_reachable_file_is_found` with the chain `root`, `d1`, `d2`,
/// `d3`.
pub proof fn lemma_file_three_deep_is_found(
    tree: FileTree,
    raw: Seq<char>,
    fallback: Seq<char>,
    root: Seq<char>,
    d1: Seq<char>,
    d2: Seq<char>,
    d3: Seq<char>,
    file: Seq<char>,
    all: Set<Seq<char>>,
)
    requires
        tree.resolve(raw) is None,
        tree.resolve(below(root, raw)) is None,
        tree.is_directory(root),
        tree.lists(root, d1, EntryKind::Directory) && !ignored_dir(d1),
        tree.lists(d1, d2, EntryKind::Directory) && !ignored_dir(d2),
        tree.lists(d2, d3, EntryKind::Directory) && !ignored_dir(d3),
        tree.lists(d3, file, EntryKind::File),
        final_component(raw) is Some,
        final_component(file) == final_component(raw),
        tree.only_file(raw, file),
        tree.directories_among(all),
        all.contains(root),
        all.finite(),
    ensures
        exists|steps: nat|
            #[trigger] tree.search(raw, fallback, root, steps) == ProbeView::Done(file_uri(file)),
{
    let chain = seq![root, d1, d2, d3];
    assert(chain[0] == root && chain[1] == d1 && chain[2] == d2 && chain[3] == d3);
    assert(tree.is_chain(chain));
    lemma_reachable_file_is_found(tree, raw, fallback, root, chain, file, all);
}

/// A root without entries gives the fallback. Where neither the path nor
/// the path below the root resolves and the root lists nothing, be it a
/// directory or not, the search ends with the fallback after at most
/// four steps.
pub proof fn lemma_empty_root_falls_back(
    tree: FileTree,
    raw: Seq<char>,
    fallback: Seq<char>,
    root: Seq<char>,
)
    requires
        tree.resolve(raw) is None,
        tree.resolve(below(root, raw)) is None,
        tree.listing(root).len() == 0,
    ensures
        tree.search(raw, fallback, root, 4) == ProbeView::Done(fallback),
{
    let (s0, p0) = SearchView::start(raw, fallback, root);
    let (s1, p1) = tree.step(s0, p0);
    let (s2, p2) = tree.step(s1, p1);
    let (s3, p3) = tree.step(s2, p2);
    let (s4, p4) = tree.step(s3, p3);
    if final_component(raw) is Some && tree.is_directory(root) {
        let begun = SearchView { stage: Stage::Search, queue: seq![root], ..s2 };
        assert(begun.queue[0] == root);
        assert(begun.queue.drop_first() =~= Seq::<Seq<char>>::empty());
        assert(p3 == ProbeView::ReadDirectory(root));
        assert(s3.queue.len() == 0);
    }
    assert(p4 == ProbeView::Done(fallback));
    assert(tree.run(s4, p4, 0) == (s4, p4));
    assert(tree.run(s3, p3, 1) == tree.run(s4, p4, 0));
    assert(tree.run(s2, p2, 2) == tree.run(s3, p3, 1));
    assert(tree.run(s1, p1, 3) == tree.run(s2, p2, 2));
    assert(tree.run(s0, p0, 4) == tree.run(s1, p1, 3));
}

} // verus!
