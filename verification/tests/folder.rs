use mysyncfiles::digest::hash;
use mysyncfiles::journal::{complete_lines, intact};
use mysyncfiles::local_fs::{
    actionable, components, conflict_entry, conflict_place, ItemKind, Visit, Walk, WatchEvent,
    WatchKind,
};
use mysyncfiles::model::Entry;
use mysyncfiles::reconcile::{
    decide, plan, Action, LocalFile, LocalState, Seen, SeenRow, Step, SyncPass, SyncReport,
};
use mysyncfiles::replace::{ReplaceAction, ReplaceEvent, Replacement, Stamp};
use mysyncfiles::server::ServerState;

fn file(path: &str, digest: &str) -> LocalFile {
    LocalFile { path: path.to_owned(), sha256: digest.to_owned() }
}

fn live(path: &str, revision: i64, digest: &str) -> Entry {
    Entry {
        path: path.to_owned(),
        revision,
        sha256: Some(digest.to_owned()),
        size: Some(1),
        deleted: false,
    }
}

fn gone(path: &str, revision: i64) -> Entry {
    Entry { path: path.to_owned(), revision, sha256: None, size: None, deleted: true }
}

fn seen(revision: i64, digest: Option<&str>) -> Seen {
    Seen { revision, sha256: digest.map(str::to_owned) }
}

fn state(rows: Vec<(&str, i64, Option<&str>)>) -> LocalState {
    let mut state = LocalState::new();
    for (path, revision, digest) in rows {
        state.insert(path, seen(revision, digest));
    }
    state
}

#[test]
fn new_files_go_up_and_new_entries_come_down() {
    assert!(matches!(decide(None, Some(&file("a", "x")), None, false), Step::Upload { base: 0 }));
    let entry = live("a", 3, "y");
    assert!(matches!(decide(Some(&entry), None, None, false), Step::Apply { preserve: false }));
}

#[test]
fn both_sides_changed_means_the_server_wins_and_the_local_file_is_kept() {
    let entry = live("a", 3, "y");
    let prior = seen(2, Some("old"));
    let step = decide(Some(&entry), Some(&file("a", "mine")), Some(&prior), false);
    assert!(matches!(step, Step::Apply { preserve: true }));
    let step = decide(Some(&entry), Some(&file("a", "old")), Some(&prior), false);
    assert!(matches!(step, Step::Apply { preserve: false }));
    let step = decide(Some(&gone("a", 3)), Some(&file("a", "mine")), Some(&prior), false);
    assert!(matches!(step, Step::Apply { preserve: true }));
}

#[test]
fn local_edits_and_deletions_name_the_revision_they_rest_on() {
    let entry = live("a", 2, "old");
    let prior = seen(2, Some("old"));
    let step = decide(Some(&entry), Some(&file("a", "new")), Some(&prior), false);
    assert!(matches!(step, Step::Upload { base: 2 }));
    let step = decide(Some(&entry), None, Some(&prior), false);
    assert!(matches!(step, Step::Delete { base: 2 }));
    let step = decide(Some(&gone("a", 2)), None, Some(&seen(2, Some("old"))), false);
    assert!(matches!(step, Step::Record { revision: 2, sha256: None }));
}

#[test]
fn an_upload_is_taken_unless_the_server_moved() {
    let mut server = ServerState::load(0, vec![], vec![], vec![]).unwrap();
    let first = server.commit_upload("a", 0, "b1".to_owned(), hash(b"one"), 3).ok().unwrap().entry;
    let prior = seen(first.revision, first.sha256.as_deref());
    let step = decide(Some(&first), Some(&file("a", &hash(b"mine"))), Some(&prior), false);
    let base = match step {
        Step::Upload { base } => base,
        _ => panic!("a local edit goes up"),
    };
    assert_eq!(base, 1);
    let taken = server.commit_upload("a", base, "b2".to_owned(), hash(b"mine"), 4);
    assert_eq!(taken.ok().unwrap().entry.revision, 2);
    let late = server.commit_upload("a", base, "b3".to_owned(), hash(b"late"), 4).err().unwrap();
    assert_eq!(late.0, 409);
    assert_eq!(server.current_revision("a"), 2);
}

#[test]
fn agreement_is_only_written_down() {
    let entry = live("a", 2, "x");
    let step = decide(Some(&entry), Some(&file("a", "x")), None, false);
    assert!(matches!(step, Step::Record { revision: 2, .. }));
    assert!(matches!(decide(None, None, Some(&seen(2, None)), false), Step::Lost));
    assert!(matches!(decide(None, Some(&file("a/b", "x")), None, true), Step::Skip));
}

#[test]
fn deletions_come_before_creations_and_deep_paths_before_shallow_ones() {
    let remote = vec![live("a", 5, "x"), gone("a/b/c", 4), gone("a/b", 3), live("z", 1, "z")];
    let local = vec![file("a/b/c", "c"), file("new", "n"), file("z", "z")];
    let state = state(vec![("a/b/c", 1, Some("c")), ("a/b", 2, None), ("z", 1, Some("z"))]);
    let order = plan(&remote, &local, &state);
    assert_eq!(order, vec!["a/b/c", "a/b", "a", "new", "z"]);
}

#[test]
fn a_file_becomes_a_directory_after_it_is_gone() {
    let remote = vec![gone("a", 3), live("a/b", 4, "x")];
    let local = vec![file("a", "old")];
    let state = state(vec![("a", 1, Some("old"))]);
    assert_eq!(plan(&remote, &local, &state), vec!["a", "a/b"]);
}

#[test]
fn a_pass_without_differences_does_nothing() {
    let remote = vec![live("a", 1, "x"), gone("b", 2)];
    let local = vec![file("a", "x")];
    let state = state(vec![("a", 1, Some("x")), ("b", 2, None)]);
    let mut pass = SyncPass::new(remote, local, state);
    assert!(matches!(pass.next(), Ok(Action::Finished { again: false })));
    assert!(matches!(pass.next(), Ok(Action::Finished { again: false })));
}

#[test]
fn a_pass_asks_for_one_thing_after_the_other() {
    let remote = vec![live("come", 4, "c"), live("same", 2, "s"), live("drop", 3, "d")];
    let local = vec![file("mine", "m"), file("same", "s")];
    let state = state(vec![("drop", 3, Some("d"))]);
    let mut report = SyncReport::new();
    let mut pass = SyncPass::new(remote, local, state);
    match pass.next() {
        Ok(Action::Delete { path, base }) => assert_eq!((path.as_str(), base), ("drop", 3)),
        _ => panic!("deletion first"),
    }
    let row = pass.acknowledged(Some(gone("drop", 5)), &mut report).unwrap();
    assert_eq!((row.path.as_str(), row.seen.revision, row.seen.sha256), ("drop", 5, None));
    assert_eq!(report.deleted_remote, 1);
    match pass.next() {
        Ok(Action::Apply { entry, observed, preserve }) => {
            assert_eq!((entry.path.as_str(), observed, preserve), ("come", None, false))
        }
        _ => panic!("then what comes in"),
    }
    let row = pass.applied(true).unwrap();
    assert_eq!((row.path.as_str(), row.seen.revision), ("come", 4));
    match pass.next() {
        Ok(Action::Save { row }) => assert_eq!(row.path, "same"),
        _ => panic!("then what only has to be noted"),
    }
    match pass.next() {
        Ok(Action::Upload { path, base, sha256 }) => {
            assert_eq!((path.as_str(), base, sha256.as_str()), ("mine", 0, "m"))
        }
        _ => panic!("then what goes up"),
    }
    pass.acknowledged(Some(live("mine", 6, "m")), &mut report).unwrap();
    assert_eq!(report.uploaded, 1);
    assert!(matches!(pass.next(), Ok(Action::Finished { again: false })));
    assert_eq!(pass.state.find("mine").unwrap().revision, 6);
}

#[test]
fn a_refusal_ends_the_pass_and_asks_for_another() {
    let mut report = SyncReport::new();
    let mut pass = SyncPass::new(vec![], vec![file("a", "x"), file("b", "y")], LocalState::new());
    assert!(matches!(pass.next(), Ok(Action::Upload { .. })));
    assert!(pass.acknowledged(None, &mut report).is_none());
    assert!(matches!(pass.next(), Ok(Action::Finished { again: true })));
    assert_eq!(report.uploaded, 0);
    let mut pass = SyncPass::new(vec![live("a", 1, "x")], vec![], LocalState::new());
    assert!(matches!(pass.next(), Ok(Action::Apply { .. })));
    assert!(pass.applied(false).is_none());
    assert!(matches!(pass.next(), Ok(Action::Finished { again: true })));
}

#[test]
fn a_displaced_directory_asks_for_another_pass() {
    let local = vec![file("a/new", "n")];
    let mut pass = SyncPass::new(vec![live("a", 1, "x")], local, LocalState::new());
    assert!(matches!(pass.next(), Ok(Action::Apply { .. })));
    assert!(pass.applied(true).is_some());
    assert!(matches!(pass.next(), Ok(Action::Finished { again: true })));
}

#[test]
fn lost_metadata_stops_the_pass() {
    let mut pass = SyncPass::new(vec![], vec![], state(vec![("a", 1, Some("x"))]));
    let lost = pass.next().err().unwrap();
    assert_eq!(
        lost.message(),
        "server lost metadata for a; refusing to guess how to reconcile it"
    );
}

#[test]
fn the_last_entry_of_a_path_counts() {
    let remote = vec![live("a", 1, "x"), live("a", 2, "y")];
    let mut pass = SyncPass::new(remote, vec![], LocalState::new());
    match pass.next() {
        Ok(Action::Apply { entry, .. }) => assert_eq!(entry.revision, 2),
        _ => panic!("the entry comes in"),
    }
}

#[test]
fn a_torn_record_ends_the_journal() {
    let lines = |text: &[u8]| complete_lines(text);
    assert_eq!(lines(b"one\ntwo\nthr"), vec![b"one".to_vec(), b"two".to_vec()]);
    assert_eq!(lines(b"one\ntwo\n"), vec![b"one".to_vec(), b"two".to_vec()]);
    assert_eq!(lines(b"\n"), vec![Vec::<u8>::new()]);
    assert!(lines(b"on").is_empty());
    assert!(lines(b"").is_empty());
    let row = |path: &str| Some(SeenRow { path: path.to_owned(), seen: seen(1, None) });
    let rows = intact(vec![row("a"), row("b"), None, row("c")]);
    assert_eq!(rows.iter().map(|r| r.path.as_str()).collect::<Vec<_>>(), vec!["a", "b"]);
    assert_eq!(intact(vec![row("a")]).len(), 1);
    assert!(intact(vec![]).is_empty());
}

#[test]
fn a_journal_is_taken_over_once_or_twice_alike() {
    let journal = || {
        vec![
            SeenRow { path: "a".to_owned(), seen: seen(2, Some("x")) },
            SeenRow { path: "b".to_owned(), seen: seen(3, None) },
            SeenRow { path: "a".to_owned(), seen: seen(4, Some("y")) },
        ]
    };
    let mut known = state(vec![("a", 1, None), ("c", 1, Some("c"))]);
    known.replay(&journal());
    known.replay(&journal());
    assert_eq!(known.entries.len(), 3);
    assert_eq!(known.find("a").unwrap().revision, 4);
    assert_eq!(known.find("a").unwrap().sha256, Some("y".to_owned()));
    assert_eq!(known.find("b").unwrap().revision, 3);
    assert_eq!(known.find("c").unwrap().revision, 1);
    let mut torn = state(vec![]);
    let mut kept = journal();
    kept.pop();
    torn.replay(&kept);
    assert_eq!(torn.find("a").unwrap().revision, 2);
    assert_eq!(torn.find("b").unwrap().revision, 3);
}

fn stamp(size: u64) -> Stamp {
    Stamp {
        device: 1,
        inode: 2,
        links: 1,
        size,
        modified: 10,
        modified_nanos: 5,
        changed: 11,
        changed_nanos: 6,
    }
}

fn examined(digest: &str, before: u64, after: u64) -> ReplaceEvent {
    ReplaceEvent::ExaminedFile {
        sha256: digest.to_owned(),
        before: stamp(before),
        after: stamp(after),
    }
}

fn captured(preserve: bool) -> (Replacement, SyncReport) {
    let mut report = SyncReport::new();
    let (mut r, action) = Replacement::new(false, Some("old".to_owned()), preserve);
    assert!(action == ReplaceAction::Fetch);
    let action = r.advance(ReplaceEvent::Fetched { current: true }, &mut report);
    assert!(action == ReplaceAction::Resolve { create: true });
    let action = r.advance(ReplaceEvent::Resolved { found: true }, &mut report);
    assert!(action == ReplaceAction::Inspect);
    let seen = ReplaceEvent::Inspected { directory: false, present: true };
    assert!(r.advance(seen, &mut report) == ReplaceAction::Capture);
    let action = r.advance(ReplaceEvent::Captured { moved: true }, &mut report);
    assert!(action == ReplaceAction::Publish);
    (r, report)
}

#[test]
fn an_unchanged_copy_is_removed_after_publication() {
    let (mut r, mut report) = captured(false);
    let action = r.advance(ReplaceEvent::Published { placed: true }, &mut report);
    assert!(action == ReplaceAction::Examine);
    let action = r.advance(examined("old", 3, 3), &mut report);
    assert!(action == ReplaceAction::Remove);
    let action = r.advance(ReplaceEvent::Removed, &mut report);
    assert!(action == ReplaceAction::Finish { applied: true });
    assert_eq!((report.downloaded, report.conflicts), (1, 0));
}

#[test]
fn an_edited_unstable_or_preserved_copy_is_kept() {
    for (preserve, digest, after) in [(false, "new", 3), (false, "old", 4), (true, "old", 3)] {
        let (mut r, mut report) = captured(preserve);
        r.advance(ReplaceEvent::Published { placed: true }, &mut report);
        let action = r.advance(examined(digest, 3, after), &mut report);
        assert!(action == ReplaceAction::Finish { applied: true });
        assert_eq!((report.downloaded, report.conflicts), (1, 1));
    }
    assert!(stamp(3).same(&stamp(3)));
    let mut other = stamp(3);
    other.changed_nanos += 1;
    assert!(!stamp(3).same(&other));
}

#[test]
fn a_file_created_after_the_capture_is_left_alone() {
    let (mut r, mut report) = captured(false);
    let action = r.advance(ReplaceEvent::Published { placed: false }, &mut report);
    assert!(action == ReplaceAction::Finish { applied: false });
    assert_eq!((report.downloaded, report.conflicts), (0, 1));
}

#[test]
fn a_deletion_spares_a_directory_and_a_missing_parent() {
    let mut report = SyncReport::new();
    let (mut r, action) = Replacement::new(true, None, false);
    assert!(action == ReplaceAction::Resolve { create: false });
    let action = r.advance(ReplaceEvent::Resolved { found: true }, &mut report);
    assert!(action == ReplaceAction::Inspect);
    let seen = ReplaceEvent::Inspected { directory: true, present: true };
    assert!(r.advance(seen, &mut report) == ReplaceAction::Finish { applied: true });
    let (mut r, _) = Replacement::new(true, None, false);
    let action = r.advance(ReplaceEvent::Resolved { found: false }, &mut report);
    assert!(action == ReplaceAction::Finish { applied: true });
    assert_eq!((report.deleted_local, report.conflicts), (0, 0));
}

#[test]
fn a_concurrent_deletion_or_newer_revision_asks_for_a_fresh_look() {
    let mut report = SyncReport::new();
    let (mut r, _) = Replacement::new(false, Some("old".to_owned()), false);
    let action = r.advance(ReplaceEvent::Fetched { current: false }, &mut report);
    assert!(action == ReplaceAction::Finish { applied: false });
    let (mut r, _) = Replacement::new(true, Some("old".to_owned()), false);
    r.advance(ReplaceEvent::Resolved { found: true }, &mut report);
    let seen = ReplaceEvent::Inspected { directory: false, present: false };
    assert!(r.advance(seen, &mut report) == ReplaceAction::Finish { applied: false });
    let (mut r, _) = Replacement::new(true, Some("old".to_owned()), false);
    r.advance(ReplaceEvent::Resolved { found: true }, &mut report);
    r.advance(ReplaceEvent::Inspected { directory: false, present: true }, &mut report);
    let action = r.advance(ReplaceEvent::Captured { moved: false }, &mut report);
    assert!(action == ReplaceAction::Finish { applied: false });
}

#[test]
fn a_displaced_directory_is_counted_unless_it_was_empty() {
    for (emptied, conflicts) in [(true, 0), (false, 1)] {
        let mut report = SyncReport::new();
        let (mut r, _) = Replacement::new(false, None, false);
        r.advance(ReplaceEvent::Fetched { current: true }, &mut report);
        r.advance(ReplaceEvent::Resolved { found: true }, &mut report);
        r.advance(ReplaceEvent::Inspected { directory: true, present: true }, &mut report);
        r.advance(ReplaceEvent::Captured { moved: true }, &mut report);
        r.advance(ReplaceEvent::Published { placed: true }, &mut report);
        let action = r.advance(ReplaceEvent::ExaminedDirectory { emptied }, &mut report);
        assert!(action == ReplaceAction::Finish { applied: true });
        assert_eq!(report.conflicts, conflicts);
    }
}

#[test]
fn a_local_deletion_is_counted_when_the_file_is_moved_aside() {
    let mut report = SyncReport::new();
    let (mut r, _) = Replacement::new(true, Some("old".to_owned()), false);
    r.advance(ReplaceEvent::Resolved { found: true }, &mut report);
    r.advance(ReplaceEvent::Inspected { directory: false, present: true }, &mut report);
    let action = r.advance(ReplaceEvent::Captured { moved: true }, &mut report);
    assert!(action == ReplaceAction::Examine);
    assert_eq!(report.deleted_local, 1);
}

#[test]
fn a_path_is_walked_name_by_name() {
    assert_eq!(components("a/b/c").ok().unwrap(), vec!["a", "b", "c"]);
    assert_eq!(components("a").ok().unwrap(), vec!["a"]);
    let error = components("../a").err().unwrap();
    assert_eq!(error.message(), "invalid mirror path: ../a");
}

#[test]
fn a_scan_takes_files_and_keeps_directories_for_later() {
    let mut walk = Walk::new(false);
    assert_eq!(walk.next(), Some(String::new()));
    assert_eq!(walk.next(), None);
    assert!(matches!(walk.offer("", ".", ItemKind::Directory), Ok(Visit::Skip)));
    assert!(matches!(walk.offer("", "..", ItemKind::Directory), Ok(Visit::Skip)));
    assert!(matches!(walk.offer("", ".mysync-conflicts", ItemKind::Directory), Ok(Visit::Skip)));
    assert!(matches!(walk.offer("", ".mysync-staging", ItemKind::Directory), Ok(Visit::Skip)));
    assert!(matches!(walk.offer("", "socket", ItemKind::Other), Ok(Visit::Skip)));
    assert!(matches!(walk.offer("", "sub", ItemKind::Directory), Ok(Visit::Descend)));
    match walk.offer("sub", "f", ItemKind::File) {
        Ok(Visit::Read { path }) => assert_eq!(path, "sub/f"),
        _ => panic!("a file is read"),
    }
    let error = walk.offer("", "back\\slash", ItemKind::File).err().unwrap();
    assert_eq!(error.message(), "invalid filename in sync folder: back\\slash");
    assert_eq!(walk.next(), Some("sub".to_owned()));
    assert_eq!(walk.next(), None);
}

#[test]
fn a_scan_of_recovery_copies_takes_what_a_mirror_may_not_hold() {
    let mut walk = Walk::new(true);
    assert_eq!(walk.next(), Some(".mysync-conflicts".to_owned()));
    match walk.offer(".mysync-conflicts", "back\\slash", ItemKind::File) {
        Ok(Visit::Read { path }) => assert_eq!(path, ".mysync-conflicts/back\\slash"),
        _ => panic!("a copy is read"),
    }
    let long = "x".repeat(8192);
    assert!(walk.offer("d", &long, ItemKind::File).is_err());
}

#[test]
fn a_recovery_copy_keeps_the_name_as_far_as_it_fits() {
    let unique = "0123456789abcdef0123456789abcdef";
    let place = conflict_place("a/b/note.txt", unique).ok().unwrap();
    assert_eq!(place.parents, vec!["a", "b"]);
    assert_eq!(place.name, format!("note.txt.conflict-{unique}"));
    assert_eq!(place.display, format!(".mysync-conflicts/a/b/note.txt.conflict-{unique}"));
    let place = conflict_place("top", unique).ok().unwrap();
    assert!(place.parents.is_empty());
    assert_eq!(place.display, format!(".mysync-conflicts/top.conflict-{unique}"));
    let place = conflict_place(&"\u{e9}".repeat(127), unique).ok().unwrap();
    assert_eq!(place.name, format!("{}.conflict-{unique}", "\u{e9}".repeat(106)));
    assert!(place.name.len() <= 255);
    let error = conflict_place("/abs", unique).err().unwrap();
    assert_eq!(error.message(), "invalid conflict path: /abs");
}

#[test]
fn two_recovery_copies_do_not_share_a_name() {
    let first = conflict_entry("a").ok().unwrap().name;
    let second = conflict_entry("a").ok().unwrap().name;
    assert_eq!(first.len(), "a.conflict-".len() + 32);
    assert_ne!(first, second);
}

fn event(rescan: bool, kind: WatchKind, places: Vec<Option<&str>>) -> WatchEvent {
    let places = places.into_iter().map(|p| p.map(str::to_owned)).collect();
    WatchEvent { rescan, kind, places }
}

#[test]
fn only_changes_of_the_user_wake_the_client() {
    let own = Some(".mysync-staging");
    let kept = Some(".mysync-conflicts");
    assert!(!actionable(&event(false, WatchKind::Access, vec![Some("a")])));
    assert!(actionable(&event(false, WatchKind::WriteClose, vec![Some("a")])));
    assert!(actionable(&event(false, WatchKind::Change, vec![Some("a")])));
    assert!(!actionable(&event(false, WatchKind::Change, vec![own])));
    assert!(!actionable(&event(false, WatchKind::Change, vec![own, kept])));
    assert!(actionable(&event(false, WatchKind::Change, vec![kept, Some("a")])));
    assert!(actionable(&event(false, WatchKind::Change, vec![None])));
    assert!(actionable(&event(true, WatchKind::Access, vec![own])));
    assert!(actionable(&event(false, WatchKind::Change, vec![])));
}
