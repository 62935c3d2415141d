//! Diagnostics: a place in a file, a severity, where the finding comes
//! from, and what it says.

use vstd::prelude::*;

verus! {

/// How serious a diagnostic is; the wire protocol writes it as a number.
#[derive(Clone, Copy, Debug, PartialEq, Eq, Structural)]
pub enum Severity {
    Error,
    Warning,
    Information,
}

impl Severity {
    /// The number that stands for this severity on the wire.
    pub open spec fn spec_code(self) -> nat {
        match self {
            Severity::Error => 1,
            Severity::Warning => 2,
            Severity::Information => 3,
        }
    }

    /// The severity that a number on the wire stands for: 1 is an error,
    /// 2 a warning, and everything else information.
    pub open spec fn spec_from_code(code: nat) -> Severity {
        if code == 1 {
            Severity::Error
        } else if code == 2 {
            Severity::Warning
        } else {
            Severity::Information
        }
    }

    /// The number that stands for this severity on the wire.
    pub fn code(self) -> (n: u64)
        ensures
            n == self.spec_code(),
    {
        match self {
            Severity::Error => 1,
            Severity::Warning => 2,
            Severity::Information => 3,
        }
    }

    /// The severity that a number on the wire stands for.
    pub fn from_code(code: u64) -> (s: Severity)
        ensures
            s == Severity::spec_from_code(code as nat),
    {
        if code == 1 {
            Severity::Error
        } else if code == 2 {
            Severity::Warning
        } else {
            Severity::Information
        }
    }

    /// Reading the number of a severity gives the severity back.
    pub proof fn lemma_code_round_trip(self)
        ensures
            Severity::spec_from_code(self.spec_code()) == self,
    {
    }
}

/// A place in a text: line and character, both counted from zero.
#[derive(Clone, Copy, Debug, PartialEq, Eq, Structural)]
pub struct Position {
    pub line: u64,
    pub character: u64,
}

/// A stretch of text, from `start` up to `end`.
#[derive(Clone, Copy, Debug, PartialEq, Eq, Structural)]
pub struct Range {
    pub start: Position,
    pub end: Position,
}

impl Range {
    /// The range that covers the one character at `line` and `character`.
    /// Its end is one character after its start, or at its start where
    /// the character number is the largest there is.
    pub open spec fn spec_at(line: u64, character: u64) -> Range {
        Range {
            start: Position { line, character },
            end: Position {
                line,
                character: if character < u64::MAX {
                    (character + 1) as u64
                } else {
                    character
                },
            },
        }
    }

    /// The range that covers the one character at `line` and `character`.
    pub fn at(line: u64, character: u64) -> (r: Range)
        ensures
            r == Range::spec_at(line, character),
    {
        let end: u64 = if character < u64::MAX {
            character + 1
        } else {
            character
        };
        Range { start: Position { line, character }, end: Position { line, character: end } }
    }
}

/// One finding about a file.
#[derive(Clone, Debug, PartialEq, Eq)]
pub struct Diagnostic {
    pub range: Range,
    pub severity: Severity,
    pub source: String,
    pub message: String,
}

/// What a diagnostic holds, with its texts as sequences of characters.
pub struct DiagnosticView {
    pub range: Range,
    pub severity: Severity,
    pub source: Seq<char>,
    pub message: Seq<char>,
}

impl View for Diagnostic {
    type V = DiagnosticView;

    open spec fn view(&self) -> DiagnosticView {
        DiagnosticView {
            range: self.range,
            severity: self.severity,
            source: self.source@,
            message: self.message@,
        }
    }
}

/// What the diagnostics of a list hold, one by one.
pub open spec fn views(list: Seq<Diagnostic>) -> Seq<DiagnosticView> {
    Seq::new(list.len(), |i: int| list[i]@)
}

impl Diagnostic {
    /// Whether two diagnostics hold the same range, severity, source and
    /// message.
    pub fn same(&self, other: &Diagnostic) -> (b: bool)
        ensures
            b == (self@ == other@),
    {
        self.range.start.line == other.range.start.line && self.range.start.character
            == other.range.start.character && self.range.end.line == other.range.end.line
            && self.range.end.character == other.range.end.character && self.severity.code()
            == other.severity.code() && self.source == other.source && self.message
            == other.message
    }

    /// A copy that holds what this diagnostic holds.
    pub fn duplicate(&self) -> (d: Diagnostic)
        ensures
            d@ == self@,
    {
        Diagnostic {
            range: self.range,
            severity: self.severity,
            source: self.source.clone(),
            message: self.message.clone(),
        }
    }
}

/// Copies of the diagnostics of `list`, in order.
pub fn duplicate_all(list: &Vec<Diagnostic>) -> (out: Vec<Diagnostic>)
    ensures
        views(out@) == views(list@),
{
    let mut out: Vec<Diagnostic> = Vec::new();
    let mut i: usize = 0;
    while i < list.len()
        invariant
            i <= list.len(),
            out@.len() == i,
            forall|j: int| 0 <= j < i ==> out@[j]@ == list@[j]@,
        decreases list.len() - i,
    {
        out.push(list[i].duplicate());
        i += 1;
    }
    proof {
        assert(views(out@) =~= views(list@));
    }
    out
}

/// `list` without the diagnostics that occur earlier in `seen` or in
/// `list` itself, put after `seen`: of equal diagnostics only the first
/// stays, and the order of those that stay is kept.
pub open spec fn merge_onto(seen: Seq<DiagnosticView>, list: Seq<DiagnosticView>) -> Seq<
    DiagnosticView,
>
    decreases list.len(),
{
    if list.len() == 0 {
        seen
    } else {
        let before = merge_onto(seen, list.drop_last());
        if before.contains(list.last()) {
            before
        } else {
            before.push(list.last())
        }
    }
}

/// `list` without repetitions: of equal diagnostics only the first stays.
pub open spec fn without_repeats(list: Seq<DiagnosticView>) -> Seq<DiagnosticView> {
    merge_onto(Seq::empty(), list)
}

/// Whether `d` holds the same as one of `list`.
pub fn holds(list: &Vec<Diagnostic>, d: &Diagnostic) -> (b: bool)
    ensures
        b == views(list@).contains(d@),
{
    let mut i: usize = 0;
    while i < list.len()
        invariant
            i <= list.len(),
            forall|j: int| 0 <= j < i ==> list@[j]@ != d@,
        decreases list.len() - i,
    {
        if list[i].same(d) {
            proof {
                assert(views(list@)[i as int] == d@);
            }
            return true;
        }
        i += 1;
    }
    proof {
        assert forall|j: int| 0 <= j < views(list@).len() implies views(list@)[j] != d@ by {
            assert(views(list@)[j] == list@[j]@);
        }
    }
    false
}

/// Appends to `out` a copy of each diagnostic of `list` that `out` does not
/// hold yet.
pub fn push_unseen(out: &mut Vec<Diagnostic>, list: &Vec<Diagnostic>)
    ensures
        views(final(out)@) == merge_onto(views(old(out)@), views(list@)),
{
    let mut i: usize = 0;
    proof {
        assert(views(list@).take(0) =~= Seq::<DiagnosticView>::empty());
    }
    while i < list.len()
        invariant
            i <= list.len(),
            views(out@) == merge_onto(views(old(out)@), views(list@).take(i as int)),
        decreases list.len() - i,
    {
        proof {
            let next = views(list@).take(i as int + 1);
            assert(next.drop_last() =~= views(list@).take(i as int));
            assert(next.last() == list@[i as int]@);
        }
        if !holds(out, &list[i]) {
            let ghost before = views(out@);
            out.push(list[i].duplicate());
            proof {
                assert(views(out@) =~= before.push(list@[i as int]@));
            }
        }
        i += 1;
    }
    proof {
        assert(views(list@).take(list@.len() as int) =~= views(list@));
    }
}

} // verus!
