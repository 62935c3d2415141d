//! Waiting for the logs to settle. A burst of writes to a log sets one
//! flag; the timer that runs while the flag is set clears it and starts
//! one reading of the logs.

use notify::event::{EventKind, ModifyKind};
use notify::Event;
use vstd::prelude::*;

verus! {

/// `notify::Event`, an event of the file system watcher. Nothing of its
/// inside is known here.
#[verifier::external_type_specification]
#[verifier::external_body]
pub struct ExEvent(Event);

/// What happened to a watched file, as the file system watcher sorts it.
#[derive(Clone, Copy, Debug, PartialEq, Eq, Structural)]
pub enum WatchKind {
    Any,
    Access,
    Create,
    ModifyAny,
    /// The content of the file changed.
    ModifyData,
    ModifyMetadata,
    ModifyName,
    ModifyOther,
    Remove,
    Other,
}

/// The kind that an event holds in its field `kind`, a `notify::EventKind`:
/// its variant, and under `Modify` the variant of its
/// `notify::event::ModifyKind`.
pub uninterp spec fn kind_of(event: Event) -> WatchKind;

/// Reads the field `kind` of a `notify::Event` and tells the variants of
/// `notify::EventKind`, and under `Modify` those of
/// `notify::event::ModifyKind`, apart. Claimed: the kind depends on the
/// event alone. Which kind an event has is for the watcher to say.
#[verifier::external_body]
pub(crate) fn watch_kind(event: &Event) -> (kind: WatchKind)
    ensures
        kind == kind_of(*event),
{
    match event.kind {
        EventKind::Any => WatchKind::Any,
        EventKind::Access(_) => WatchKind::Access,
        EventKind::Create(_) => WatchKind::Create,
        EventKind::Modify(ModifyKind::Any) => WatchKind::ModifyAny,
        EventKind::Modify(ModifyKind::Data(_)) => WatchKind::ModifyData,
        EventKind::Modify(ModifyKind::Metadata(_)) => WatchKind::ModifyMetadata,
        EventKind::Modify(ModifyKind::Name(_)) => WatchKind::ModifyName,
        EventKind::Modify(ModifyKind::Other) => WatchKind::ModifyOther,
        EventKind::Remove(_) => WatchKind::Remove,
        EventKind::Other => WatchKind::Other,
    }
}

/// What can happen to the debouncer: a watched file changed, or the timer
/// fired.
pub enum Input {
    Change(WatchKind),
    Timer,
}

/// What follows from one input: whether a reading is pending afterwards,
/// and whether the logs are to be read now. Only a change of content
/// makes a reading pending; the timer starts a reading if one is pending
/// and leaves none pending.
pub open spec fn after(pending: bool, input: Input) -> (bool, bool) {
    match input {
        Input::Change(kind) => (pending || kind == WatchKind::ModifyData, false),
        Input::Timer => (false, pending),
    }
}

/// How often the logs are read over a sequence of inputs.
pub open spec fn readings(pending: bool, inputs: Seq<Input>) -> nat
    decreases inputs.len(),
{
    if inputs.len() == 0 {
        0
    } else {
        let (next, read) = after(pending, inputs[0]);
        (if read {
            1nat
        } else {
            0nat
        }) + readings(next, inputs.drop_first())
    }
}

/// The changes that a sequence of kinds stands for.
pub open spec fn changes(kinds: Seq<WatchKind>) -> Seq<Input> {
    Seq::new(kinds.len(), |i: int| Input::Change(kinds[i]))
}

/// A burst of changes and then the timer: the logs are read once if a
/// reading was pending or one of the changes was a change of content,
/// and not at all otherwise.
pub proof fn lemma_burst(pending: bool, kinds: Seq<WatchKind>)
    ensures
        readings(pending, changes(kinds).push(Input::Timer)) == if pending || kinds.contains(
            WatchKind::ModifyData,
        ) {
            1nat
        } else {
            0nat
        },
    decreases kinds.len(),
{
    let inputs = changes(kinds).push(Input::Timer);
    if kinds.len() == 0 {
        assert(inputs.drop_first() =~= Seq::<Input>::empty());
        assert(inputs[0] == Input::Timer);
        assert(readings(false, inputs.drop_first()) == 0);
    } else {
        let rest = kinds.drop_first();
        let next = pending || kinds[0] == WatchKind::ModifyData;
        assert(inputs[0] == Input::Change(kinds[0]));
        assert(inputs.drop_first() =~= changes(rest).push(Input::Timer));
        lemma_burst(next, rest);
        if kinds.contains(WatchKind::ModifyData) {
            let i = choose|i: int| 0 <= i < kinds.len() && kinds[i] == WatchKind::ModifyData;
            if i > 0 {
                assert(rest[i - 1] == WatchKind::ModifyData);
            }
        }
        if rest.contains(WatchKind::ModifyData) {
            let i = choose|i: int| 0 <= i < rest.len() && rest[i] == WatchKind::ModifyData;
            assert(kinds[i + 1] == WatchKind::ModifyData);
        }
    }
}

/// Coalescing: however many changes of content come before the timer
/// fires, the logs are read exactly once, and the timer that fires again
/// with no change in between reads nothing.
pub proof fn lemma_coalescing(kinds: Seq<WatchKind>)
    requires
        kinds.len() >= 1,
        forall|i: int| 0 <= i < kinds.len() ==> kinds[i] == WatchKind::ModifyData,
    ensures
        readings(false, changes(kinds).push(Input::Timer)) == 1,
        readings(false, changes(kinds).push(Input::Timer).push(Input::Timer)) == 1,
{
    assert(kinds[0] == WatchKind::ModifyData);
    lemma_burst(false, kinds);
    lemma_readings_then_timer(false, changes(kinds).push(Input::Timer));
}

/// Whether a reading is pending after a sequence of inputs.
pub open spec fn pending_after(pending: bool, inputs: Seq<Input>) -> bool
    decreases inputs.len(),
{
    if inputs.len() == 0 {
        pending
    } else {
        pending_after(after(pending, inputs[0]).0, inputs.drop_first())
    }
}

/// After inputs that end with the timer nothing is pending, and the
/// timer that fires next reads nothing.
proof fn lemma_readings_then_timer(pending: bool, inputs: Seq<Input>)
    requires
        inputs.len() >= 1,
        inputs.last() == Input::Timer,
    ensures
        !pending_after(pending, inputs),
        readings(pending, inputs.push(Input::Timer)) == readings(pending, inputs),
    decreases inputs.len(),
{
    let longer = inputs.push(Input::Timer);
    assert(longer[0] == inputs[0]);
    assert(longer.drop_first() =~= inputs.drop_first().push(Input::Timer));
    let next = after(pending, inputs[0]).0;
    if inputs.len() == 1 {
        let none = Seq::<Input>::empty();
        assert(inputs.drop_first() =~= none);
        assert(inputs[0] == Input::Timer);
        assert(next == false);
        assert(pending_after(false, none) == false);
        assert(pending_after(pending, inputs) == pending_after(next, inputs.drop_first()));
        let one = inputs.drop_first().push(Input::Timer);
        assert(one[0] == Input::Timer);
        assert(one.drop_first() =~= none);
        assert(readings(false, none) == 0);
        assert(readings(false, one) == 0);
        assert(readings(next, inputs.drop_first()) == 0);
    } else {
        assert(inputs.drop_first().last() == inputs.last());
        lemma_readings_then_timer(next, inputs.drop_first());
    }
}

/// The debouncer.
pub struct Debouncer {
    pending: bool,
}

impl Debouncer {
    /// Whether a reading of the logs is pending. The timer runs exactly
    /// while one is.
    pub closed spec fn pending(&self) -> bool {
        self.pending
    }

    /// A debouncer with nothing pending.
    pub fn new() -> (d: Debouncer)
        ensures
            !d.pending(),
    {
        Debouncer { pending: false }
    }

    /// Whether a reading of the logs is pending.
    pub fn is_pending(&self) -> (b: bool)
        ensures
            b == self.pending(),
    {
        self.pending
    }

    /// Takes a change of a watched file.
    pub fn on_change(&mut self, kind: WatchKind)
        ensures
            (final(self).pending(), false) == after(old(self).pending(), Input::Change(kind)),
    {
        match kind {
            WatchKind::ModifyData => {
                self.pending = true;
            },
            _ => {},
        }
    }

    /// Takes an event of the file system watcher: a change of the kind
    /// that the event holds. An event that changes the content of a file
    /// makes a reading pending; every other event leaves things as they
    /// are.
    pub fn on_event(&mut self, event: &Event)
        ensures
            (final(self).pending(), false) == after(
                old(self).pending(),
                Input::Change(kind_of(*event)),
            ),
    {
        let kind = watch_kind(event);
        self.on_change(kind);
    }

    /// Takes the firing of the timer and says whether the logs are to be
    /// read now.
    pub fn on_timer(&mut self) -> (read: bool)
        ensures
            (final(self).pending(), read) == after(old(self).pending(), Input::Timer),
    {
        let read = self.pending;
        self.pending = false;
        read
    }
}

} // verus!
