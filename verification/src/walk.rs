//! The decisions of the directory walk. The walk itself, the reading and the
//! writing are done by the caller; what is to be done next is decided here,
//! one entry at a time and in one order: read, strip, place, write, compare.

use vstd::prelude::*;
use vstd::string::StringExecFns;

verus! {

/// What kind of thing a directory entry is.
#[derive(Clone, Copy, Debug, PartialEq, Eq, Structural)]
pub enum EntryKind {
    File,
    Directory,
    Other,
}

/// What the walk reads of a directory entry.
#[derive(Clone, Debug, PartialEq, Eq)]
pub struct Entry {
    pub kind: EntryKind,
    /// The extension of the entry's name, without the dot.
    pub extension: Option<String>,
}

/// Whether an entry of this kind and with this extension is to be stripped:
/// a regular file whose extension is exactly `lua`.
pub open spec fn accepts(kind: EntryKind, extension: Option<Seq<char>>) -> bool {
    kind == EntryKind::File && extension == Some("lua"@)
}

impl Entry {
    /// The extension as a sequence of characters.
    pub open spec fn extension_view(&self) -> Option<Seq<char>> {
        match self.extension {
            Some(e) => Some(e@),
            None => None,
        }
    }

    /// Whether the entry is to be stripped.
    pub open spec fn accepted(&self) -> bool {
        accepts(self.kind, self.extension_view())
    }
}

/// Whether `entry` is to be stripped. Everything else is passed over in
/// silence.
pub fn should_strip(entry: &Entry) -> (strip: bool)
    ensures
        strip == entry.accepted(),
{
    match entry.kind {
        EntryKind::File => match &entry.extension {
            Some(extension) => {
                let lua = String::from_str("lua");
                *extension == lua
            },
            None => false,
        },
        _ => false,
    }
}

/// What the walk is waiting for.
#[derive(Clone, Copy, Debug, PartialEq, Eq, Structural)]
pub enum Stage {
    /// The next entry.
    Idle,
    /// The bytes of the entry that was accepted.
    Reading,
    /// The stripped copy of the bytes that were read.
    Stripping,
    /// The place of the entry under the output root.
    Placing,
    /// The outcome of writing the stripped copy.
    Writing,
    /// The report of the comparison.
    Comparing,
    /// Nothing: the walk was aborted.
    Aborted,
}

/// What happened outside.
#[derive(Clone, Debug, PartialEq, Eq)]
pub enum Event {
    /// The walk came upon an entry.
    Found(Entry),
    /// The file was read, or could not be read.
    Read { ok: bool },
    /// The bytes were stripped.
    Stripped,
    /// The bytes could not be stripped; the diagnostic says why.
    StripFailed(String),
    /// The entry's path was expressed relative to the input root, or could
    /// not be.
    Placed { ok: bool },
    /// The stripped copy was written, or could not be written.
    Written { ok: bool },
    /// The comparison was made: its report, if it has one.
    Compared(Option<String>),
    /// The comparison failed; the diagnostic says why.
    CompareFailed(String),
}

/// What is to be done outside.
#[derive(Clone, Debug, PartialEq, Eq)]
pub enum Action {
    /// Nothing more for this entry: go on to the next one.
    Next,
    /// Read the file.
    Read,
    /// Strip the bytes that were read.
    Strip,
    /// Express the entry's path relative to the input root.
    Place,
    /// Make the directories above the destination and write the stripped
    /// copy there.
    WriteOutput,
    /// Compare the original with the stripped copy.
    Compare,
    /// Make the directories above the diff file and write the report there.
    WriteDiff(String),
    /// Delete the diff file, if there is one.
    RemoveDiff,
    /// Print the diagnostic and end the run with a failure.
    Abort(String),
}

/// The mathematical value of an [`Event`].
pub enum EventView {
    Found { kind: EntryKind, extension: Option<Seq<char>> },
    Read { ok: bool },
    Stripped,
    StripFailed(Seq<char>),
    Placed { ok: bool },
    Written { ok: bool },
    Compared(Option<Seq<char>>),
    CompareFailed(Seq<char>),
}

/// The mathematical value of an [`Action`].
pub enum ActionView {
    Next,
    Read,
    Strip,
    Place,
    WriteOutput,
    Compare,
    WriteDiff(Seq<char>),
    RemoveDiff,
    Abort(Seq<char>),
}

impl View for Event {
    type V = EventView;

    open spec fn view(&self) -> EventView {
        match self {
            Event::Found(entry) => EventView::Found {
                kind: entry.kind,
                extension: entry.extension_view(),
            },
            Event::Read { ok } => EventView::Read { ok: *ok },
            Event::Stripped => EventView::Stripped,
            Event::StripFailed(text) => EventView::StripFailed(text@),
            Event::Placed { ok } => EventView::Placed { ok: *ok },
            Event::Written { ok } => EventView::Written { ok: *ok },
            Event::Compared(Some(text)) => EventView::Compared(Some(text@)),
            Event::Compared(None) => EventView::Compared(None),
            Event::CompareFailed(text) => EventView::CompareFailed(text@),
        }
    }
}

impl View for Action {
    type V = ActionView;

    open spec fn view(&self) -> ActionView {
        match self {
            Action::Next => ActionView::Next,
            Action::Read => ActionView::Read,
            Action::Strip => ActionView::Strip,
            Action::Place => ActionView::Place,
            Action::WriteOutput => ActionView::WriteOutput,
            Action::Compare => ActionView::Compare,
            Action::WriteDiff(text) => ActionView::WriteDiff(text@),
            Action::RemoveDiff => ActionView::RemoveDiff,
            Action::Abort(text) => ActionView::Abort(text@),
        }
    }
}

/// What follows on `event` at `stage`: the next stage and the action.
/// `diff` says whether a diff root is configured. An event that the stage
/// does not wait for ends the work on the entry; after an abort nothing is
/// done any more.
pub open spec fn next_step(stage: Stage, event: EventView, diff: bool) -> (Stage, ActionView) {
    match (stage, event) {
        (Stage::Aborted, _) => (Stage::Aborted, ActionView::Next),
        (Stage::Idle, EventView::Found { kind, extension }) => if accepts(kind, extension) {
            (Stage::Reading, ActionView::Read)
        } else {
            (Stage::Idle, ActionView::Next)
        },
        (Stage::Reading, EventView::Read { ok: true }) => (Stage::Stripping, ActionView::Strip),
        (Stage::Stripping, EventView::Stripped) => (Stage::Placing, ActionView::Place),
        (Stage::Stripping, EventView::StripFailed(text)) => (
            Stage::Aborted,
            ActionView::Abort(text),
        ),
        (Stage::Placing, EventView::Placed { ok: true }) => (
            Stage::Writing,
            ActionView::WriteOutput,
        ),
        (Stage::Writing, EventView::Written { ok: true }) => if diff {
            (Stage::Comparing, ActionView::Compare)
        } else {
            (Stage::Idle, ActionView::Next)
        },
        (Stage::Comparing, EventView::Compared(Some(text))) => (
            Stage::Idle,
            ActionView::WriteDiff(text),
        ),
        (Stage::Comparing, EventView::Compared(None)) => (Stage::Idle, ActionView::RemoveDiff),
        (Stage::Comparing, EventView::CompareFailed(text)) => (
            Stage::Aborted,
            ActionView::Abort(text),
        ),
        _ => (Stage::Idle, ActionView::Next),
    }
}

/// Decides what is to be done after `event` came in at `stage`.
pub fn step(stage: Stage, event: Event, diff: bool) -> (res: (Stage, Action))
    ensures
        (res.0, res.1@) == next_step(stage, event@, diff),
{
    match (stage, event) {
        (Stage::Aborted, _) => (Stage::Aborted, Action::Next),
        (Stage::Idle, Event::Found(entry)) => {
            if should_strip(&entry) {
                (Stage::Reading, Action::Read)
            } else {
                (Stage::Idle, Action::Next)
            }
        },
        (Stage::Reading, Event::Read { ok: true }) => (Stage::Stripping, Action::Strip),
        (Stage::Stripping, Event::Stripped) => (Stage::Placing, Action::Place),
        (Stage::Stripping, Event::StripFailed(text)) => (Stage::Aborted, Action::Abort(text)),
        (Stage::Placing, Event::Placed { ok: true }) => (Stage::Writing, Action::WriteOutput),
        (Stage::Writing, Event::Written { ok: true }) => {
            if diff {
                (Stage::Comparing, Action::Compare)
            } else {
                (Stage::Idle, Action::Next)
            }
        },
        (Stage::Comparing, Event::Compared(Some(text))) => (Stage::Idle, Action::WriteDiff(text)),
        (Stage::Comparing, Event::Compared(None)) => (Stage::Idle, Action::RemoveDiff),
        (Stage::Comparing, Event::CompareFailed(text)) => (Stage::Aborted, Action::Abort(text)),
        _ => (Stage::Idle, Action::Next),
    }
}

/// The stage that the walk is at after `events`, having started at `stage`.
pub open spec fn stage_after(stage: Stage, events: Seq<EventView>, diff: bool) -> Stage
    decreases events.len(),
{
    if events.len() == 0 {
        stage
    } else {
        next_step(stage_after(stage, events.drop_last(), diff), events.last(), diff).0
    }
}

/// The action that answers the event at index `i` of `events`.
pub open spec fn action_at(stage: Stage, events: Seq<EventView>, diff: bool, i: int) -> ActionView {
    next_step(stage_after(stage, events.take(i), diff), events[i], diff).1
}

/// The event reports an entry that is to be stripped.
pub open spec fn finds_lua_file(event: EventView) -> bool {
    match event {
        EventView::Found { kind, extension } => accepts(kind, extension),
        _ => false,
    }
}

/// Extension gating: as long as no regular file with the extension `lua`
/// is found, nothing is read, stripped, written, compared or deleted,
/// whatever else is reported to the walk.
pub proof fn law_only_lua_files_are_touched(events: Seq<EventView>, diff: bool)
    requires
        forall|i: int| 0 <= i < events.len() ==> !finds_lua_file(#[trigger] events[i]),
    ensures
        stage_after(Stage::Idle, events, diff) == Stage::Idle,
        forall|i: int|
            0 <= i < events.len() ==> #[trigger] action_at(Stage::Idle, events, diff, i)
                == ActionView::Next,
    decreases events.len(),
{
    if events.len() > 0 {
        let before = events.drop_last();
        law_only_lua_files_are_touched(before, diff);
        assert(!finds_lua_file(events.last()));
        assert forall|i: int| 0 <= i < events.len() implies #[trigger] action_at(
            Stage::Idle,
            events,
            diff,
            i,
        ) == ActionView::Next by {
            assert(!finds_lua_file(events[i]));
            if i < events.len() - 1 {
                assert(events.take(i) == before.take(i));
                assert(action_at(Stage::Idle, before, diff, i) == ActionView::Next);
            } else {
                assert(events.take(i) == before);
            }
        }
    }
}

/// An entry that is not a regular file with the extension `lua` is passed
/// over at every stage.
pub proof fn law_other_entries_are_skipped(
    stage: Stage,
    kind: EntryKind,
    extension: Option<Seq<char>>,
    diff: bool,
)
    requires
        !accepts(kind, extension),
    ensures
        next_step(stage, EventView::Found { kind, extension }, diff).1 == ActionView::Next,
{
}

/// Stale diffs: a comparison without a report has the diff file deleted, and
/// one with a report has the report written.
pub proof fn law_diff_file_follows_report(report: Option<Seq<char>>, diff: bool)
    ensures
        next_step(Stage::Comparing, EventView::Compared(report), diff).1 == match report {
            Some(text) => ActionView::WriteDiff(text),
            None => ActionView::RemoveDiff,
        },
{
}

/// A comparison is asked for only after the stripped copy was written, and
/// only where a diff root is configured.
pub proof fn law_compare_follows_write(stage: Stage, event: EventView, diff: bool)
    ensures
        next_step(stage, event, diff).1 == ActionView::Compare <==> stage == Stage::Writing
            && event == (EventView::Written { ok: true }) && diff,
{
}

} // verus!
