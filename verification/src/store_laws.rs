//! What holds of merging and of the store, whatever it holds.

use crate::diagnostic::{merge_onto, without_repeats, DiagnosticView};
use crate::lsp_diagnosis::{grouped, LocatedView};
use crate::store::{lemma_merge_onto_concat, list_at, StoreView};
use vstd::prelude::*;

verus! {

/// Whether no diagnostic occurs twice in `list`.
pub open spec fn no_repeats(list: Seq<DiagnosticView>) -> bool {
    forall|i: int, j: int| 0 <= i < j < list.len() ==> list[i] != list[j]
}

/// Merging onto a list keeps the list at the front, adds only diagnostics
/// of the second list, leaves none of them out, and adds none twice.
pub proof fn lemma_merge_onto(seen: Seq<DiagnosticView>, list: Seq<DiagnosticView>)
    ensures
        seen.is_prefix_of(merge_onto(seen, list)),
        forall|d: DiagnosticView|
            merge_onto(seen, list).contains(d) <==> seen.contains(d) || list.contains(d),
        no_repeats(seen) ==> no_repeats(merge_onto(seen, list)),
    decreases list.len(),
{
    let out = merge_onto(seen, list);
    if list.len() == 0 {
        assert forall|d: DiagnosticView| !list.contains(d) by {}
    } else {
        let head = list.drop_last();
        let last = list.last();
        let before = merge_onto(seen, head);
        lemma_merge_onto(seen, head);
        assert forall|d: DiagnosticView| out.contains(d) <==> seen.contains(d) || list.contains(
            d,
        ) by {
            if list.contains(d) {
                let k = choose|k: int| 0 <= k < list.len() && list[k] == d;
                if k < head.len() {
                    assert(head[k] == d);
                    assert(head.contains(d));
                }
            }
            if head.contains(d) {
                let k = choose|k: int| 0 <= k < head.len() && head[k] == d;
                assert(list[k] == d);
            }
            assert(list[list.len() - 1] == last);
            if before.contains(last) {
            } else {
                if before.contains(d) {
                    let k = choose|k: int| 0 <= k < before.len() && before[k] == d;
                    assert(out[k] == d);
                }
                assert(out[out.len() - 1] == last);
                if out.contains(d) {
                    let k = choose|k: int| 0 <= k < out.len() && out[k] == d;
                    if k < before.len() {
                        assert(before[k] == d);
                    }
                }
            }
        }
        if no_repeats(seen) && !before.contains(last) {
            assert forall|i: int, j: int| 0 <= i < j < out.len() implies out[i] != out[j] by {
                if j == out.len() - 1 {
                    assert(before[i] == out[i]);
                    assert(before.contains(out[i]));
                } else {
                    assert(before[i] == out[i]);
                    assert(before[j] == out[j]);
                }
            }
        }
    }
}

/// A merged list holds nothing twice, holds every diagnostic of either
/// side and no other, and begins with those of the backend: where both
/// sides hold the same diagnostic, it stands where the backend's stands.
pub proof fn lemma_merged(store: StoreView, uri: Seq<char>)
    ensures
        no_repeats(store.merged(uri)),
        forall|d: DiagnosticView|
            store.merged(uri).contains(d) <==> list_at(store.native, uri).contains(d) || list_at(
                store.logs,
                uri,
            ).contains(d),
        without_repeats(list_at(store.native, uri)).is_prefix_of(store.merged(uri)),
{
    let native = list_at(store.native, uri);
    let logs = list_at(store.logs, uri);
    let e = Seq::<DiagnosticView>::empty();
    lemma_merge_onto(e, native + logs);
    assert forall|d: DiagnosticView| (native + logs).contains(d) <==> native.contains(d)
        || logs.contains(d) by {
        if native.contains(d) {
            let k = choose|k: int| 0 <= k < native.len() && native[k] == d;
            assert((native + logs)[k] == d);
        }
        if logs.contains(d) {
            let k = choose|k: int| 0 <= k < logs.len() && logs[k] == d;
            assert((native + logs)[native.len() + k] == d);
        }
        if (native + logs).contains(d) {
            let k = choose|k: int| 0 <= k < (native + logs).len() && (native + logs)[k] == d;
            if k < native.len() {
                assert(native[k] == d);
            } else {
                assert(logs[k - native.len()] == d);
            }
        }
    }
    assert forall|d: DiagnosticView| !e.contains(d) by {}
    lemma_merge_onto_concat(e, native, logs);
    lemma_merge_onto(without_repeats(native), logs);
}

/// The first occurrences of `list`, in order: each diagnostic that does
/// not occur earlier in the list.
pub open spec fn first_occurrences(list: Seq<DiagnosticView>) -> Seq<DiagnosticView>
    decreases list.len(),
{
    if list.len() == 0 {
        Seq::empty()
    } else if list.drop_last().contains(list.last()) {
        first_occurrences(list.drop_last())
    } else {
        first_occurrences(list.drop_last()).push(list.last())
    }
}

/// Merging keeps exactly the first occurrence of each diagnostic, and
/// keeps them in the order in which they stand in the list.
pub proof fn lemma_first_occurrences(list: Seq<DiagnosticView>)
    ensures
        without_repeats(list) == first_occurrences(list),
    decreases list.len(),
{
    if list.len() > 0 {
        lemma_first_occurrences(list.drop_last());
        lemma_merge_onto(Seq::empty(), list.drop_last());
        assert(!Seq::<DiagnosticView>::empty().contains(list.last()));
    }
}

/// Merging is idempotent: a list without repetitions stays as it is, so
/// merging what was merged changes nothing.
pub proof fn lemma_merge_idempotent(list: Seq<DiagnosticView>)
    ensures
        no_repeats(list) ==> without_repeats(list) == list,
        without_repeats(without_repeats(list)) == without_repeats(list),
{
    lemma_merge_onto(Seq::empty(), list);
    if no_repeats(list) {
        lemma_no_repeats_kept(list);
    }
    lemma_no_repeats_kept(without_repeats(list));
}

/// A list without repetitions is its own merged list.
proof fn lemma_no_repeats_kept(list: Seq<DiagnosticView>)
    requires
        no_repeats(list),
    ensures
        without_repeats(list) == list,
    decreases list.len(),
{
    if list.len() > 0 {
        let head = list.drop_last();
        assert forall|i: int, j: int| 0 <= i < j < head.len() implies head[i] != head[j] by {
            assert(head[i] == list[i]);
            assert(head[j] == list[j]);
        }
        lemma_no_repeats_kept(head);
        if head.contains(list.last()) {
            let k = choose|k: int| 0 <= k < head.len() && head[k] == list.last();
            assert(list[k] == list[list.len() - 1]);
        }
        assert(head.push(list.last()) =~= list);
    }
}

/// Replacing per file: after the backend reported `first` and then
/// `second` for `uri`, the merged list for `uri` is made of `second` and
/// the logs alone, as if `first` had never been reported, and the merged
/// list for every other file is what it was.
pub proof fn lemma_native_replaced(
    store: StoreView,
    uri: Seq<char>,
    first: Seq<DiagnosticView>,
    second: Seq<DiagnosticView>,
    other: Seq<char>,
)
    ensures
        store.with_native(uri, first).with_native(uri, second) == store.with_native(uri, second),
        store.with_native(uri, first).with_native(uri, second).merged(uri) == without_repeats(
            second + list_at(store.logs, uri),
        ),
        other != uri ==> store.with_native(uri, first).with_native(uri, second).merged(other)
            == store.merged(other),
{
    let twice = store.with_native(uri, first).with_native(uri, second);
    assert(twice.native =~= store.native.insert(uri, second));
}

/// Replacing the logs: after a reading of the logs, the merged list for a
/// file is made of what the backend reported and of the new logs alone; a
/// file that the new logs do not name keeps what the backend reported.
pub proof fn lemma_logs_replaced(
    store: StoreView,
    logs: Map<Seq<char>, Seq<DiagnosticView>>,
    uri: Seq<char>,
)
    ensures
        store.with_logs(logs).merged(uri) == without_repeats(
            list_at(store.native, uri) + list_at(logs, uri),
        ),
        !logs.contains_key(uri) ==> store.with_logs(logs).merged(uri) == without_repeats(
            list_at(store.native, uri),
        ),
{
    if !logs.contains_key(uri) {
        assert(list_at(store.native, uri) + list_at(logs, uri) =~= list_at(store.native, uri));
    }
}

/// The root of the workspace is set once: whatever is announced after the
/// first announcement, the root stays what the first one said.
pub proof fn lemma_root_set_once(store: StoreView, first: Seq<char>, later: Seq<char>)
    requires
        store.workspace_root is None,
    ensures
        store.with_workspace_root(first).workspace_root == Some(first),
        store.with_workspace_root(first).with_workspace_root(later) == store.with_workspace_root(
            first,
        ),
{
}

/// Of three different diagnostics `a`, `b` and `c`: where the backend
/// reported `a`, `a`, `b` and the logs gave `b`, `c`, the merged list is
/// `a`, `b`, `c`.
pub proof fn lemma_merge_example(a: DiagnosticView, b: DiagnosticView, c: DiagnosticView)
    requires
        a != b,
        a != c,
        b != c,
    ensures
        without_repeats(seq![a, a, b] + seq![b, c]) == seq![a, b, c],
{
    let e = Seq::<DiagnosticView>::empty();
    let s5 = seq![a, a, b] + seq![b, c];
    let s4 = s5.drop_last();
    let s3 = s4.drop_last();
    let s2 = s3.drop_last();
    let s1 = s2.drop_last();
    assert(s1.drop_last() =~= e);
    assert(merge_onto(e, s1.drop_last()) == e);
    assert(s1.last() == a);
    assert(merge_onto(e, s1) =~= seq![a]);
    assert(s2.last() == a);
    assert(seq![a][0] == a);
    assert(merge_onto(e, s2) =~= seq![a]);
    assert(s3.last() == b);
    assert(merge_onto(e, s3) =~= seq![a, b]);
    assert(s4.last() == b);
    assert(seq![a, b][1] == b);
    assert(merge_onto(e, s4) =~= seq![a, b]);
    assert(s5.last() == c);
    assert(merge_onto(e, s5) =~= seq![a, b, c]);
}

/// The diagnostics of `list` that belong to `uri`, in the order of the
/// list.
pub open spec fn of_uri(list: Seq<LocatedView>, uri: Seq<char>) -> Seq<DiagnosticView>
    decreases list.len(),
{
    if list.len() == 0 {
        Seq::empty()
    } else if list.last().uri == uri {
        of_uri(list.drop_last(), uri).push(list.last().diagnostic)
    } else {
        of_uri(list.drop_last(), uri)
    }
}

/// Grouping loses nothing and mixes nothing: the table holds for each URI
/// the diagnostics that the list has for it, in the order of the list,
/// and holds a list for exactly the URIs that the list names.
pub proof fn lemma_grouped(list: Seq<LocatedView>, uri: Seq<char>)
    ensures
        list_at(grouped(list), uri) == of_uri(list, uri),
        grouped(list).contains_key(uri) <==> exists|i: int|
            0 <= i < list.len() && (#[trigger] list[i]).uri == uri,
    decreases list.len(),
{
    if list.len() > 0 {
        let head = list.drop_last();
        lemma_grouped(head, uri);
        lemma_grouped(head, list.last().uri);
        if exists|i: int| 0 <= i < head.len() && (#[trigger] head[i]).uri == uri {
            let i = choose|i: int| 0 <= i < head.len() && (#[trigger] head[i]).uri == uri;
            assert(list[i].uri == uri);
        }
        if exists|i: int| 0 <= i < list.len() && (#[trigger] list[i]).uri == uri {
            let i = choose|i: int| 0 <= i < list.len() && (#[trigger] list[i]).uri == uri;
            if i < head.len() {
                assert(head[i].uri == uri);
            }
        }
        if list.last().uri == uri {
            assert(list[list.len() - 1].uri == uri);
        }
    }
}

} // verus!
