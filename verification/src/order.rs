//! The order of texts: character by character, by the code of each
//! character, a text before every longer text that begins with it. Lists
//! of texts in that order, with no text twice.

use crate::text::{chars_of, texts};
use vstd::prelude::*;

verus! {

/// Whether `a` comes before `b`.
pub open spec fn precedes(a: Seq<char>, b: Seq<char>) -> bool
    decreases a.len(),
{
    if b.len() == 0 {
        false
    } else if a.len() == 0 {
        true
    } else if a[0] != b[0] {
        (a[0] as u32) < (b[0] as u32)
    } else {
        precedes(a.drop_first(), b.drop_first())
    }
}

/// No text comes before itself.
pub proof fn lemma_precedes_irreflexive(a: Seq<char>)
    ensures
        !precedes(a, a),
    decreases a.len(),
{
    if a.len() > 0 {
        lemma_precedes_irreflexive(a.drop_first());
    }
}

/// Of two different texts one comes before the other.
pub proof fn lemma_precedes_total(a: Seq<char>, b: Seq<char>)
    requires
        a != b,
    ensures
        precedes(a, b) || precedes(b, a),
    decreases a.len(),
{
    if a.len() > 0 && b.len() > 0 {
        if a[0] == b[0] {
            if a.drop_first() == b.drop_first() {
                assert(a =~= seq![a[0]] + a.drop_first());
                assert(b =~= seq![b[0]] + b.drop_first());
            }
            lemma_precedes_total(a.drop_first(), b.drop_first());
        } else {
            let x: u32 = a[0] as u32;
            let y: u32 = b[0] as u32;
            vstd::utf8::char_u32_cast(a[0], x);
            vstd::utf8::char_u32_cast(b[0], y);
        }
    } else if a.len() == 0 && b.len() == 0 {
        assert(a =~= b);
    }
}

/// What comes before a text comes before everything that the text comes
/// before.
pub proof fn lemma_precedes_transitive(a: Seq<char>, b: Seq<char>, c: Seq<char>)
    requires
        precedes(a, b),
        precedes(b, c),
    ensures
        precedes(a, c),
    decreases a.len(),
{
    if a.len() > 0 {
        if a[0] == b[0] && b[0] == c[0] {
            lemma_precedes_transitive(a.drop_first(), b.drop_first(), c.drop_first());
        }
    }
}

/// Whether `a` comes before `b`.
pub fn text_precedes(a: &[char], b: &[char]) -> (r: bool)
    ensures
        r == precedes(a@, b@),
{
    let mut i: usize = 0;
    proof {
        assert(a@.subrange(0, a@.len() as int) =~= a@);
        assert(b@.subrange(0, b@.len() as int) =~= b@);
    }
    loop
        invariant
            i <= a.len(),
            i <= b.len(),
            precedes(a@, b@) == precedes(
                a@.subrange(i as int, a@.len() as int),
                b@.subrange(i as int, b@.len() as int),
            ),
        decreases a.len() - i,
    {
        let ghost x = a@.subrange(i as int, a@.len() as int);
        let ghost y = b@.subrange(i as int, b@.len() as int);
        if i == b.len() {
            return false;
        }
        if i == a.len() {
            return true;
        }
        proof {
            assert(x[0] == a@[i as int]);
            assert(y[0] == b@[i as int]);
            assert(x.drop_first() =~= a@.subrange(i as int + 1, a@.len() as int));
            assert(y.drop_first() =~= b@.subrange(i as int + 1, b@.len() as int));
        }
        if a[i] != b[i] {
            return (a[i] as u32) < (b[i] as u32);
        }
        i += 1;
    }
}

/// Whether each text of `list` comes before all that follow it.
pub open spec fn increasing(list: Seq<Seq<char>>) -> bool {
    forall|i: int, j: int| 0 <= i < j < list.len() ==> precedes(#[trigger] list[i], #[trigger] list[j])
}

/// Two increasing lists of the same texts are the same list.
pub proof fn lemma_increasing_unique(a: Seq<Seq<char>>, b: Seq<Seq<char>>)
    requires
        increasing(a),
        increasing(b),
        a.to_set() == b.to_set(),
    ensures
        a == b,
    decreases a.len(),
{
    if a.len() == 0 {
        if b.len() > 0 {
            assert(b.to_set().contains(b[0]));
            assert(a.to_set().contains(b[0]));
        }
        assert(a =~= b);
    } else if b.len() == 0 {
        assert(a.to_set().contains(a[0]));
        assert(b.to_set().contains(a[0]));
    } else {
        let x = a.last();
        let y = b.last();
        assert(a.to_set().contains(x));
        assert(b.to_set().contains(x));
        let j = choose|j: int| 0 <= j < b.len() && b[j] == x;
        assert(b.to_set().contains(y));
        assert(a.to_set().contains(y));
        let i = choose|i: int| 0 <= i < a.len() && a[i] == y;
        if x != y {
            assert(j < b.len() - 1);
            assert(i < a.len() - 1);
            assert(precedes(b[j], b[b.len() - 1]));
            assert(precedes(a[i], a[a.len() - 1]));
            lemma_precedes_transitive(x, y, x);
            lemma_precedes_irreflexive(x);
        }
        let a0 = a.drop_last();
        let b0 = b.drop_last();
        assert forall|t: Seq<char>| a0.to_set().contains(t) <==> b0.to_set().contains(t) by {
            if a0.to_set().contains(t) {
                let k = choose|k: int| 0 <= k < a0.len() && a0[k] == t;
                assert(a[k] == t);
                assert(precedes(a[k], a[a.len() - 1]));
                lemma_precedes_irreflexive(x);
                assert(t != x);
                assert(a.to_set().contains(t));
                assert(b.to_set().contains(t));
                let m = choose|m: int| 0 <= m < b.len() && b[m] == t;
                assert(b0[m] == t);
            }
            if b0.to_set().contains(t) {
                let k = choose|k: int| 0 <= k < b0.len() && b0[k] == t;
                assert(b[k] == t);
                assert(precedes(b[k], b[b.len() - 1]));
                lemma_precedes_irreflexive(y);
                assert(t != y);
                assert(b.to_set().contains(t));
                assert(a.to_set().contains(t));
                let m = choose|m: int| 0 <= m < a.len() && a[m] == t;
                assert(a0[m] == t);
            }
        }
        assert(a0.to_set() =~= b0.to_set());
        assert forall|p: int, q: int| 0 <= p < q < a0.len() implies precedes(
            #[trigger] a0[p],
            #[trigger] a0[q],
        ) by {
            assert(a0[p] == a[p] && a0[q] == a[q]);
        }
        assert forall|p: int, q: int| 0 <= p < q < b0.len() implies precedes(
            #[trigger] b0[p],
            #[trigger] b0[q],
        ) by {
            assert(b0[p] == b[p] && b0[q] == b[q]);
        }
        lemma_increasing_unique(a0, b0);
        assert(a =~= a0.push(x));
        assert(b =~= b0.push(y));
    }
}

/// Puts `text` into an increasing list, at its place; a text that the
/// list holds already is not put in again.
pub(crate) fn insert_in_order(list: &mut Vec<String>, text: &str)
    requires
        increasing(texts(old(list)@)),
    ensures
        increasing(texts(final(list)@)),
        texts(final(list)@).to_set() == texts(old(list)@).to_set().insert(text@),
{
    let wanted = chars_of(text);
    let ghost before = texts(list@);
    let mut i: usize = 0;
    let mut stop: bool = false;
    while i < list.len() && !stop
        invariant
            i <= list@.len(),
            texts(list@) == before,
            wanted@ == text@,
            increasing(before),
            forall|k: int| 0 <= k < i ==> precedes(#[trigger] before[k], text@),
            stop ==> i < list@.len() && !precedes(before[i as int], text@),
        decreases list.len() - i + if stop { 0int } else { 1int },
    {
        let here = chars_of(list[i].as_str());
        proof {
            assert(before[i as int] == here@);
        }
        if text_precedes(here.as_slice(), wanted.as_slice()) {
            i += 1;
        } else {
            stop = true;
        }
    }
    if i < list.len() {
        let here = chars_of(list[i].as_str());
        proof {
            assert(before[i as int] == here@);
        }
        if !text_precedes(wanted.as_slice(), here.as_slice()) {
            proof {
                if before[i as int] != text@ {
                    lemma_precedes_total(before[i as int], text@);
                }
                assert(before.to_set().contains(before[i as int]));
                assert(before.to_set().insert(text@) =~= before.to_set());
            }
            return ;
        }
    }
    list.insert(i, text.to_owned());
    proof {
        let after = texts(list@);
        assert(after =~= before.insert(i as int, text@));
        assert forall|p: int, q: int| 0 <= p < q < after.len() implies precedes(
            #[trigger] after[p],
            #[trigger] after[q],
        ) by {
            if q < i {
                assert(after[p] == before[p] && after[q] == before[q]);
            } else if q == i {
                assert(after[p] == before[p]);
            } else if p == i {
                assert(after[q] == before[q - 1]);
                if q - 1 > i {
                    assert(precedes(before[i as int], before[q - 1]));
                    lemma_precedes_transitive(text@, before[i as int], before[q - 1]);
                }
            } else if p < i {
                assert(after[p] == before[p] && after[q] == before[q - 1]);
                if p == q - 1 {
                } else {
                    assert(precedes(before[p], before[q - 1]));
                }
            } else {
                assert(after[p] == before[p - 1] && after[q] == before[q - 1]);
            }
        }
        assert forall|t: Seq<char>| after.to_set().contains(t) <==> before.to_set().insert(
            text@,
        ).contains(t) by {
            if after.to_set().contains(t) {
                let k = choose|k: int| 0 <= k < after.len() && after[k] == t;
                if k < i {
                    assert(before[k] == t);
                    assert(before.to_set().contains(t));
                } else if k > i {
                    assert(before[k - 1] == t);
                    assert(before.to_set().contains(t));
                }
            }
            if before.to_set().contains(t) {
                let k = choose|k: int| 0 <= k < before.len() && before[k] == t;
                if k < i {
                    assert(after[k] == t);
                } else {
                    assert(after[k + 1] == t);
                }
                assert(after.to_set().contains(t));
            }
            if t == text@ {
                assert(after[i as int] == t);
                assert(after.to_set().contains(t));
            }
        }
        assert(after.to_set() =~= before.to_set().insert(text@));
    }
}

} // verus!
