use lua_comment_stripper::walk::{should_strip, step, Action, Entry, EntryKind, Event, Stage};

fn entry(kind: EntryKind, extension: Option<&str>) -> Entry {
    Entry { kind, extension: extension.map(|e| e.to_string()) }
}

#[test]
fn should_strip_accepts_lua_files_only() {
    assert!(should_strip(&entry(EntryKind::File, Some("lua"))));
    assert!(!should_strip(&entry(EntryKind::File, Some("Lua"))));
    assert!(!should_strip(&entry(EntryKind::File, Some("luac"))));
    assert!(!should_strip(&entry(EntryKind::File, Some("lu"))));
    assert!(!should_strip(&entry(EntryKind::File, Some("txt"))));
    assert!(!should_strip(&entry(EntryKind::File, Some(""))));
    assert!(!should_strip(&entry(EntryKind::File, None)));
    assert!(!should_strip(&entry(EntryKind::Directory, Some("lua"))));
    assert!(!should_strip(&entry(EntryKind::Other, Some("lua"))));
}

#[test]
fn a_lua_file_goes_through_all_stages() {
    let found = Event::Found(entry(EntryKind::File, Some("lua")));
    assert_eq!(step(Stage::Idle, found, true), (Stage::Reading, Action::Read));
    assert_eq!(step(Stage::Reading, Event::Read { ok: true }, true), (Stage::Stripping, Action::Strip));
    assert_eq!(step(Stage::Stripping, Event::Stripped, true), (Stage::Placing, Action::Place));
    assert_eq!(
        step(Stage::Placing, Event::Placed { ok: true }, true),
        (Stage::Writing, Action::WriteOutput)
    );
    assert_eq!(
        step(Stage::Writing, Event::Written { ok: true }, true),
        (Stage::Comparing, Action::Compare)
    );
    assert_eq!(
        step(Stage::Comparing, Event::Compared(Some("d".to_string())), true),
        (Stage::Idle, Action::WriteDiff("d".to_string()))
    );
}

#[test]
fn other_entries_are_passed_over() {
    for e in [
        entry(EntryKind::File, Some("txt")),
        entry(EntryKind::File, None),
        entry(EntryKind::Directory, Some("lua")),
        entry(EntryKind::Directory, None),
    ] {
        assert_eq!(step(Stage::Idle, Event::Found(e), true), (Stage::Idle, Action::Next));
    }
}

#[test]
fn a_failure_of_the_file_system_ends_the_work_on_the_entry() {
    assert_eq!(step(Stage::Reading, Event::Read { ok: false }, true), (Stage::Idle, Action::Next));
    assert_eq!(step(Stage::Placing, Event::Placed { ok: false }, true), (Stage::Idle, Action::Next));
    assert_eq!(step(Stage::Writing, Event::Written { ok: false }, true), (Stage::Idle, Action::Next));
}

#[test]
fn without_a_diff_root_nothing_is_compared() {
    assert_eq!(step(Stage::Writing, Event::Written { ok: true }, false), (Stage::Idle, Action::Next));
}

#[test]
fn a_comparison_without_report_deletes_the_stale_diff() {
    assert_eq!(step(Stage::Comparing, Event::Compared(None), true), (Stage::Idle, Action::RemoveDiff));
}

#[test]
fn a_fatal_error_aborts_the_walk() {
    assert_eq!(
        step(Stage::Stripping, Event::StripFailed("bad".to_string()), true),
        (Stage::Aborted, Action::Abort("bad".to_string()))
    );
    assert_eq!(
        step(Stage::Comparing, Event::CompareFailed("worse".to_string()), false),
        (Stage::Aborted, Action::Abort("worse".to_string()))
    );
    let found = Event::Found(entry(EntryKind::File, Some("lua")));
    assert_eq!(step(Stage::Aborted, found, true), (Stage::Aborted, Action::Next));
}

#[test]
fn an_event_that_is_not_awaited_ends_the_work_on_the_entry() {
    assert_eq!(step(Stage::Idle, Event::Stripped, true), (Stage::Idle, Action::Next));
    assert_eq!(step(Stage::Reading, Event::Written { ok: true }, true), (Stage::Idle, Action::Next));
    assert_eq!(step(Stage::Idle, Event::Compared(None), true), (Stage::Idle, Action::Next));
    let found = Event::Found(entry(EntryKind::File, Some("lua")));
    assert_eq!(step(Stage::Writing, found, true), (Stage::Idle, Action::Next));
}
