//! How a path of the folder is brought to what the server has: which step follows which,
//! and what becomes of the local file that stood there.
use vstd::prelude::*;

use crate::reconcile::SyncReport;
use crate::text::{opt_text, same_text};

verus! {

/// What identifies the contents of an open file without reading them.
#[derive(Clone, Copy)]
pub struct Stamp {
    pub device: u64,
    pub inode: u64,
    pub links: u64,
    pub size: u64,
    pub modified: i64,
    pub modified_nanos: i64,
    pub changed: i64,
    pub changed_nanos: i64,
}

impl Stamp {
    /// Whether nothing of the file has moved between the two looks at it.
    pub fn same(&self, other: &Stamp) -> (yes: bool)
        ensures
            yes == (*self == *other),
    {
        self.device == other.device && self.inode == other.inode && self.links == other.links
            && self.size == other.size && self.modified == other.modified && self.modified_nanos
            == other.modified_nanos && self.changed == other.changed && self.changed_nanos
            == other.changed_nanos
    }
}

/// Where a replacement stands: what it waits for.
pub enum Phase {
    /// The server's file is on its way into staging.
    Fetching,
    /// The path is being resolved in the folder.
    Resolving,
    /// What stands at the path is being looked at.
    Inspecting,
    /// What stands at the path is being moved to the recovery copies.
    Capturing,
    /// The staged file is being moved to the path.
    Publishing { saved: bool },
    /// The recovery copy is being read.
    Examining,
    /// The recovery copy is being removed.
    Removing,
    Done,
}

/// What has happened.
pub enum ReplaceEvent {
    /// The file was fetched; not so where the server has moved on.
    Fetched { current: bool },
    /// The directory of the path exists.
    Resolved { found: bool },
    Inspected { directory: bool, present: bool },
    /// The move was made; not so where nothing was left to move.
    Captured { moved: bool },
    /// The move was made; not so where something new stands at the path.
    Published { placed: bool },
    /// The recovery copy is a directory; an empty one was removed.
    ExaminedDirectory { emptied: bool },
    /// The recovery copy is a file, read from one look at it to the other.
    ExaminedFile { sha256: String, before: Stamp, after: Stamp },
    Removed,
}

/// What is to be done next.
#[derive(Clone, Copy, PartialEq, Eq, Structural)]
pub enum ReplaceAction {
    Fetch,
    Resolve { create: bool },
    Inspect,
    Capture,
    Publish,
    Examine,
    Remove,
    /// Nothing more; the path was or was not brought to what the server has.
    Finish { applied: bool },
}

/// One path being brought to what the server has.
pub struct Replacement {
    /// The server has a deletion, not a file.
    pub deleted: bool,
    /// The digest of the local file that the decision rests on.
    pub observed: Option<String>,
    /// That file is to be kept whatever happens.
    pub preserve: bool,
    pub phase: Phase,
}

/// The events that a phase waits for.
pub open spec fn fits(phase: Phase, event: ReplaceEvent) -> bool {
    match phase {
        Phase::Fetching => event is Fetched,
        Phase::Resolving => event is Resolved,
        Phase::Inspecting => event is Inspected,
        Phase::Capturing => event is Captured,
        Phase::Publishing { .. } => event is Published,
        Phase::Examining => event is ExaminedDirectory || event is ExaminedFile,
        Phase::Removing => event is Removed,
        Phase::Done => false,
    }
}

/// The captured file is still what the decision rests on, and nobody wants it.
pub open spec fn expendable(
    observed: Option<Seq<char>>,
    preserve: bool,
    sha256: Seq<char>,
    before: Stamp,
    after: Stamp,
) -> bool {
    !preserve && observed == Some(sha256) && before == after
}

/// The phase and the action that follow.
pub open spec fn follows(
    deleted: bool,
    observed: Option<Seq<char>>,
    preserve: bool,
    phase: Phase,
    event: ReplaceEvent,
) -> (Phase, ReplaceAction) {
    let done = (Phase::Done, ReplaceAction::Finish { applied: true });
    let again = (Phase::Done, ReplaceAction::Finish { applied: false });
    match event {
        ReplaceEvent::Fetched { current } => if current {
            (Phase::Resolving, ReplaceAction::Resolve { create: true })
        } else {
            again
        },
        ReplaceEvent::Resolved { found } => if found {
            (Phase::Inspecting, ReplaceAction::Inspect)
        } else {
            done
        },
        ReplaceEvent::Inspected { directory, present } => if directory && deleted {
            done
        } else if !directory && !present && observed is Some {
            again
        } else if directory || present {
            (Phase::Capturing, ReplaceAction::Capture)
        } else if deleted {
            done
        } else {
            (Phase::Publishing { saved: false }, ReplaceAction::Publish)
        },
        ReplaceEvent::Captured { moved } => if !moved {
            again
        } else if deleted {
            (Phase::Examining, ReplaceAction::Examine)
        } else {
            (Phase::Publishing { saved: true }, ReplaceAction::Publish)
        },
        ReplaceEvent::Published { placed } => if !placed {
            again
        } else if phase == (Phase::Publishing { saved: true }) {
            (Phase::Examining, ReplaceAction::Examine)
        } else {
            done
        },
        ReplaceEvent::ExaminedDirectory { .. } => done,
        ReplaceEvent::ExaminedFile { sha256, before, after } => if expendable(
            observed,
            preserve,
            sha256@,
            before,
            after,
        ) {
            (Phase::Removing, ReplaceAction::Remove)
        } else {
            done
        },
        ReplaceEvent::Removed => done,
    }
}

/// A recovery copy stays behind for good with this event.
pub open spec fn leaves_copy(
    observed: Option<Seq<char>>,
    preserve: bool,
    phase: Phase,
    event: ReplaceEvent,
) -> bool {
    match event {
        ReplaceEvent::Published { placed } => !placed && phase == (Phase::Publishing {
            saved: true,
        }),
        ReplaceEvent::ExaminedDirectory { emptied } => !emptied,
        ReplaceEvent::ExaminedFile { sha256, before, after } => !expendable(
            observed,
            preserve,
            sha256@,
            before,
            after,
        ),
        _ => false,
    }
}

/// What the event adds to the report.
pub open spec fn counted(
    report: SyncReport,
    deleted: bool,
    observed: Option<Seq<char>>,
    preserve: bool,
    phase: Phase,
    event: ReplaceEvent,
) -> SyncReport {
    let downloaded = event matches ReplaceEvent::Published { placed } && placed;
    let removed = deleted && (event matches ReplaceEvent::Captured { moved } && moved);
    let conflict = leaves_copy(observed, preserve, phase, event);
    SyncReport {
        downloaded: (report.downloaded + if downloaded { 1int } else { 0 }) as usize,
        deleted_local: (report.deleted_local + if removed { 1int } else { 0 }) as usize,
        conflicts: (report.conflicts + if conflict { 1int } else { 0 }) as usize,
        ..report
    }
}

impl Replacement {
    /// Begins to bring a path to what the server has.
    pub fn new(deleted: bool, observed: Option<String>, preserve: bool) -> (begun: (
        Self,
        ReplaceAction,
    ))
        ensures
            begun.0.deleted == deleted,
            begun.0.observed == observed,
            begun.0.preserve == preserve,
            deleted ==> begun.0.phase is Resolving && begun.1 == (ReplaceAction::Resolve {
                create: false,
            }),
            !deleted ==> begun.0.phase is Fetching && begun.1 == ReplaceAction::Fetch,
            (begun.0.phase, begun.1) == run(deleted, opt_text(observed), preserve, Seq::empty()),
    {
        if deleted {
            (
                Replacement { deleted, observed, preserve, phase: Phase::Resolving },
                ReplaceAction::Resolve { create: false },
            )
        } else {
            (
                Replacement { deleted, observed, preserve, phase: Phase::Fetching },
                ReplaceAction::Fetch,
            )
        }
    }

    /// Takes in what has happened and says what is next.
    pub fn advance(&mut self, event: ReplaceEvent, report: &mut SyncReport) -> (action:
        ReplaceAction)
        requires
            fits(old(self).phase, event),
            old(report).has_room(),
        ensures
            final(self).deleted == old(self).deleted,
            final(self).observed == old(self).observed,
            final(self).preserve == old(self).preserve,
            (final(self).phase, action) == follows(
                old(self).deleted,
                opt_text(old(self).observed),
                old(self).preserve,
                old(self).phase,
                event,
            ),
            *final(report) == counted(
                *old(report),
                old(self).deleted,
                opt_text(old(self).observed),
                old(self).preserve,
                old(self).phase,
                event,
            ),
    {
        let saved = match &self.phase {
            Phase::Publishing { saved } => *saved,
            _ => false,
        };
        let (phase, action) = match event {
            ReplaceEvent::Fetched { current } => if current {
                (Phase::Resolving, ReplaceAction::Resolve { create: true })
            } else {
                (Phase::Done, ReplaceAction::Finish { applied: false })
            },
            ReplaceEvent::Resolved { found } => if found {
                (Phase::Inspecting, ReplaceAction::Inspect)
            } else {
                // The directory of a deleted file is absent: there is nothing to delete.
                (Phase::Done, ReplaceAction::Finish { applied: true })
            },
            ReplaceEvent::Inspected { directory, present } => if directory && self.deleted {
                // A deletion names a file, never the files below a directory of that name.
                (Phase::Done, ReplaceAction::Finish { applied: true })
            } else if !directory && !present && self.observed.is_some() {
                (Phase::Done, ReplaceAction::Finish { applied: false })
            } else if directory || present {
                (Phase::Capturing, ReplaceAction::Capture)
            } else if self.deleted {
                (Phase::Done, ReplaceAction::Finish { applied: true })
            } else {
                (Phase::Publishing { saved: false }, ReplaceAction::Publish)
            },
            ReplaceEvent::Captured { moved } => if !moved {
                (Phase::Done, ReplaceAction::Finish { applied: false })
            } else if self.deleted {
                report.deleted_local = report.deleted_local + 1;
                (Phase::Examining, ReplaceAction::Examine)
            } else {
                (Phase::Publishing { saved: true }, ReplaceAction::Publish)
            },
            ReplaceEvent::Published { placed } => if !placed {
                if saved {
                    report.conflicts = report.conflicts + 1;
                }
                (Phase::Done, ReplaceAction::Finish { applied: false })
            } else {
                report.downloaded = report.downloaded + 1;
                if saved {
                    (Phase::Examining, ReplaceAction::Examine)
                } else {
                    (Phase::Done, ReplaceAction::Finish { applied: true })
                }
            },
            ReplaceEvent::ExaminedDirectory { emptied } => {
                if !emptied {
                    report.conflicts = report.conflicts + 1;
                }
                (Phase::Done, ReplaceAction::Finish { applied: true })
            },
            ReplaceEvent::ExaminedFile { sha256, before, after } => {
                let unchanged = match &self.observed {
                    Some(digest) => same_text(digest.as_str(), sha256.as_str()),
                    None => false,
                };
                if !self.preserve && unchanged && before.same(&after) {
                    (Phase::Removing, ReplaceAction::Remove)
                } else {
                    report.conflicts = report.conflicts + 1;
                    (Phase::Done, ReplaceAction::Finish { applied: true })
                }
            },
            ReplaceEvent::Removed => (Phase::Done, ReplaceAction::Finish { applied: true }),
        };
        self.phase = phase;
        action
    }
}

/// How far a phase is along.
pub open spec fn stage(phase: Phase) -> int {
    match phase {
        Phase::Fetching => 0,
        Phase::Resolving => 1,
        Phase::Inspecting => 2,
        Phase::Capturing => 3,
        Phase::Publishing { .. } => 4,
        Phase::Examining => 5,
        Phase::Removing => 6,
        Phase::Done => 7,
    }
}

/// Every event moves a replacement forward, so it ends.
pub proof fn law_replacement_moves_forward(
    deleted: bool,
    observed: Option<Seq<char>>,
    preserve: bool,
    phase: Phase,
    event: ReplaceEvent,
)
    requires
        fits(phase, event),
    ensures
        stage(phase) < stage(follows(deleted, observed, preserve, phase, event).0),
{
}

/// A local file is removed only after it was moved aside, read whole while nothing about
/// it moved, and found to be what the decision rests on and not to be preserved.
pub proof fn law_only_an_expendable_copy_is_removed(
    deleted: bool,
    observed: Option<Seq<char>>,
    preserve: bool,
    phase: Phase,
    event: ReplaceEvent,
)
    requires
        fits(phase, event),
        follows(deleted, observed, preserve, phase, event).1 == ReplaceAction::Remove,
    ensures
        phase is Examining,
        !preserve,
        event matches ReplaceEvent::ExaminedFile { sha256, before, after } && observed == Some(
            sha256@,
        ) && before == after,
{
}

/// The staged file is moved to the path only after what stood there was moved aside, or
/// where nothing stood there and nothing was expected to.
pub proof fn law_path_is_cleared_before_publication(
    deleted: bool,
    observed: Option<Seq<char>>,
    preserve: bool,
    phase: Phase,
    event: ReplaceEvent,
)
    requires
        fits(phase, event),
        follows(deleted, observed, preserve, phase, event).1 == ReplaceAction::Publish,
    ensures
        !deleted,
        (event matches ReplaceEvent::Captured { moved } && moved) || (
        event matches ReplaceEvent::Inspected { directory, present } && !directory && !present
            && observed is None),
{
}

/// A deletion on the server never touches a directory of the folder.
pub proof fn law_deletion_spares_directories(
    observed: Option<Seq<char>>,
    preserve: bool,
    present: bool,
)
    ensures
        follows(
            true,
            observed,
            preserve,
            Phase::Inspecting,
            ReplaceEvent::Inspected { directory: true, present },
        ) == (Phase::Done, ReplaceAction::Finish { applied: true }),
{
}

/// A phase in which a recovery copy exists.
pub open spec fn holds_copy(phase: Phase) -> bool {
    phase is Examining || phase is Removing || phase == (Phase::Publishing { saved: true })
}

/// Whoever has a recovery copy either goes on with it, or counts it as a conflict, or has
/// removed it: none is left behind unmentioned.
pub proof fn law_every_copy_left_is_counted(
    report: SyncReport,
    deleted: bool,
    observed: Option<Seq<char>>,
    preserve: bool,
    phase: Phase,
    event: ReplaceEvent,
)
    requires
        fits(phase, event),
        holds_copy(phase),
        report.has_room(),
        follows(deleted, observed, preserve, phase, event).0 is Done,
    ensures
        counted(report, deleted, observed, preserve, phase, event).conflicts == report.conflicts + 1
            || event is Removed || (event matches ReplaceEvent::ExaminedDirectory { emptied }
            && emptied),
{
}

/// What a replacement has come to after some events: where it stands, and what it asks for.
pub open spec fn run(
    deleted: bool,
    observed: Option<Seq<char>>,
    preserve: bool,
    events: Seq<ReplaceEvent>,
) -> (Phase, ReplaceAction)
    decreases events.len(),
{
    if events.len() == 0 {
        if deleted {
            (Phase::Resolving, ReplaceAction::Resolve { create: false })
        } else {
            (Phase::Fetching, ReplaceAction::Fetch)
        }
    } else {
        follows(
            deleted,
            observed,
            preserve,
            run(deleted, observed, preserve, events.drop_last()).0,
            events.last(),
        )
    }
}

/// Each event is one that the replacement waits for.
pub open spec fn runs(
    deleted: bool,
    observed: Option<Seq<char>>,
    preserve: bool,
    events: Seq<ReplaceEvent>,
) -> bool
    decreases events.len(),
{
    events.len() == 0 || (runs(deleted, observed, preserve, events.drop_last()) && fits(
        run(deleted, observed, preserve, events.drop_last()).0,
        events.last(),
    ))
}

/// The file was fetched as the server has it.
pub open spec fn was_fetched(events: Seq<ReplaceEvent>) -> bool {
    events.contains(ReplaceEvent::Fetched { current: true })
}

/// The staged file was moved to its path.
pub open spec fn was_published(events: Seq<ReplaceEvent>) -> bool {
    events.contains(ReplaceEvent::Published { placed: true })
}

/// What stood at the path was moved to the recovery copies.
pub open spec fn was_captured(events: Seq<ReplaceEvent>) -> bool {
    events.contains(ReplaceEvent::Captured { moved: true })
}

/// There is no directory that the path could stand in.
pub open spec fn has_no_place(events: Seq<ReplaceEvent>) -> bool {
    events.contains(ReplaceEvent::Resolved { found: false })
}

proof fn lemma_contains_grows(events: Seq<ReplaceEvent>, event: ReplaceEvent)
    requires
        events.len() > 0,
        events.drop_last().contains(event) || events.last() == event,
    ensures
        events.contains(event),
{
    if events.drop_last().contains(event) {
        let i = choose|i: int|
            0 <= i < events.drop_last().len() && events.drop_last()[i] == event;
        assert(events[i] == event);
    } else {
        assert(events[events.len() - 1] == event);
    }
}

/// What has happened by the time a replacement stands at a phase.
proof fn lemma_run_history(
    deleted: bool,
    observed: Option<Seq<char>>,
    preserve: bool,
    events: Seq<ReplaceEvent>,
)
    requires
        runs(deleted, observed, preserve, events),
    ensures
        ({
            let (phase, action) = run(deleted, observed, preserve, events);
            &&& phase is Fetching ==> !deleted
            &&& !deleted && !(phase is Fetching) ==> was_fetched(events) || action == (
            ReplaceAction::Finish { applied: false })
            &&& phase is Publishing ==> !deleted
            &&& (phase is Examining || phase is Removing) && !deleted ==> was_published(events)
            &&& (phase is Examining || phase is Removing) ==> was_captured(events)
            &&& phase == (Phase::Publishing { saved: true }) ==> was_captured(events)
            &&& action == (ReplaceAction::Finish { applied: true }) && !deleted ==> was_published(
                events,
            ) || has_no_place(events)
            &&& action is Finish <==> phase is Done
        }),
    decreases events.len(),
{
    if events.len() > 0 {
        let front = events.drop_last();
        lemma_run_history(deleted, observed, preserve, front);
        let published = ReplaceEvent::Published { placed: true };
        let captured = ReplaceEvent::Captured { moved: true };
        let fetched = ReplaceEvent::Fetched { current: true };
        if front.contains(fetched) || events.last() == fetched {
            lemma_contains_grows(events, fetched);
        }
        let nowhere = ReplaceEvent::Resolved { found: false };
        if front.contains(published) || events.last() == published {
            lemma_contains_grows(events, published);
        }
        if front.contains(captured) || events.last() == captured {
            lemma_contains_grows(events, captured);
        }
        if front.contains(nowhere) || events.last() == nowhere {
            lemma_contains_grows(events, nowhere);
        }
    }
}

/// A file of the server counts as applied only where it was in fact moved to its path. (A
/// directory that was to be made is always found.)
pub proof fn law_applied_file_was_published(
    observed: Option<Seq<char>>,
    preserve: bool,
    events: Seq<ReplaceEvent>,
)
    requires
        runs(false, observed, preserve, events),
        run(false, observed, preserve, events).1 == (ReplaceAction::Finish { applied: true }),
        !has_no_place(events),
    ensures
        was_published(events),
        was_fetched(events),
{
    lemma_run_history(false, observed, preserve, events);
}

/// What stands at the path is a directory.
pub open spec fn met_a_directory(events: Seq<ReplaceEvent>) -> bool {
    exists|i: int|
        0 <= i < events.len() && ((#[trigger] events[i]) matches ReplaceEvent::Inspected {
            directory,
            ..
        } && directory)
}

/// Nothing stands at the path.
pub open spec fn met_nothing(events: Seq<ReplaceEvent>) -> bool {
    events.contains(ReplaceEvent::Inspected { directory: false, present: false })
}

/// A deletion of the server counts as applied only where what stood at the path is gone from
/// it: it was moved away, or nothing but a directory stood there, or nothing at all.
pub proof fn law_applied_deletion_has_cleared_the_path(
    observed: Option<Seq<char>>,
    preserve: bool,
    events: Seq<ReplaceEvent>,
)
    requires
        runs(true, observed, preserve, events),
        run(true, observed, preserve, events).1 == (ReplaceAction::Finish { applied: true }),
    ensures
        was_captured(events) || has_no_place(events) || met_a_directory(events) || (observed
            is None && met_nothing(events)),
{
    lemma_run_history(true, observed, preserve, events);
    let front = events.drop_last();
    lemma_run_history(true, observed, preserve, front);
    let last = events.last();
    assert(events[events.len() - 1] == last);
    if front.contains(ReplaceEvent::Captured { moved: true }) {
        lemma_contains_grows(events, ReplaceEvent::Captured { moved: true });
    }
}

/// A replacement gives up exactly where something came in its way: the server has moved on,
/// the local file that the decision rests on has vanished, or something else was faster at
/// the path.
pub proof fn law_replacement_gives_up_only_on_an_obstacle(
    deleted: bool,
    observed: Option<Seq<char>>,
    preserve: bool,
    phase: Phase,
    event: ReplaceEvent,
)
    requires
        fits(phase, event),
    ensures
        follows(deleted, observed, preserve, phase, event).1 == (ReplaceAction::Finish {
            applied: false,
        }) <==> (event == (ReplaceEvent::Fetched { current: false }) || event == (
        ReplaceEvent::Captured { moved: false }) || event == (ReplaceEvent::Published {
            placed: false,
        }) || (event == (ReplaceEvent::Inspected { directory: false, present: false })
            && observed is Some)),
{
}

/// A replacement asks for one thing after the other: to look at the path once the file is
/// fetched and its directory is there, to move away a file that stands there, or a directory
/// that a file is to replace, to put the file there once the path is free, and to look at what
/// was moved away. For a directory that stands in the place of a deleted file nothing is
/// asked.
pub proof fn law_replacement_takes_every_step(
    deleted: bool,
    observed: Option<Seq<char>>,
    preserve: bool,
    directory: bool,
    present: bool,
)
    ensures
        follows(
            deleted,
            observed,
            preserve,
            Phase::Fetching,
            ReplaceEvent::Fetched { current: true },
        ) == (Phase::Resolving, ReplaceAction::Resolve { create: true }),
        follows(
            deleted,
            observed,
            preserve,
            Phase::Resolving,
            ReplaceEvent::Resolved { found: true },
        ) == (Phase::Inspecting, ReplaceAction::Inspect),
        (present && !directory) || (directory && !deleted) ==> follows(
            deleted,
            observed,
            preserve,
            Phase::Inspecting,
            ReplaceEvent::Inspected { directory, present },
        ) == (Phase::Capturing, ReplaceAction::Capture),
        observed is None && !deleted ==> follows(
            deleted,
            observed,
            preserve,
            Phase::Inspecting,
            ReplaceEvent::Inspected { directory: false, present: false },
        ) == (Phase::Publishing { saved: false }, ReplaceAction::Publish),
        follows(
            deleted,
            observed,
            preserve,
            Phase::Capturing,
            ReplaceEvent::Captured { moved: true },
        ) == if deleted {
            (Phase::Examining, ReplaceAction::Examine)
        } else {
            (Phase::Publishing { saved: true }, ReplaceAction::Publish)
        },
        follows(
            deleted,
            observed,
            preserve,
            Phase::Publishing { saved: true },
            ReplaceEvent::Published { placed: true },
        ) == (Phase::Examining, ReplaceAction::Examine),
        follows(
            deleted,
            observed,
            preserve,
            Phase::Publishing { saved: false },
            ReplaceEvent::Published { placed: true },
        ) == (Phase::Done, ReplaceAction::Finish { applied: true }),
{
}

/// A copy that is still what the decision rested on, that nobody wants, and that did not change
/// under the reading, is removed; every other copy stays.
pub proof fn law_unwanted_copy_is_removed(
    deleted: bool,
    observed: Option<Seq<char>>,
    preserve: bool,
    event: ReplaceEvent,
)
    requires
        event is ExaminedFile,
    ensures
        follows(deleted, observed, preserve, Phase::Examining, event) == if !preserve && (
        event matches ReplaceEvent::ExaminedFile { sha256, before, after } && observed == Some(
            sha256@,
        ) && before == after) {
            (Phase::Removing, ReplaceAction::Remove)
        } else {
            (Phase::Done, ReplaceAction::Finish { applied: true })
        },
{
}

/// The report counts what has happened, once each: a file that was moved to its path, a file
/// that a deletion moved away, and a copy that is left for the user.
pub proof fn law_report_counts_what_happened(
    report: SyncReport,
    deleted: bool,
    observed: Option<Seq<char>>,
    preserve: bool,
    phase: Phase,
    event: ReplaceEvent,
)
    requires
        fits(phase, event),
        report.uploaded < usize::MAX,
        report.downloaded < usize::MAX,
        report.deleted_local < usize::MAX,
        report.deleted_remote < usize::MAX,
        report.conflicts < usize::MAX,
    ensures
        ({
            let next = counted(report, deleted, observed, preserve, phase, event);
            let left = (event == (ReplaceEvent::ExaminedDirectory { emptied: false })) || (phase
                == (Phase::Publishing { saved: true }) && event == (ReplaceEvent::Published {
                placed: false,
            })) || (event matches ReplaceEvent::ExaminedFile { sha256, before, after } && (preserve
                || observed != Some(sha256@) || before != after));
            &&& report.has_room()
            &&& next.uploaded == report.uploaded
            &&& next.deleted_remote == report.deleted_remote
            &&& next.downloaded == report.downloaded + if event == (ReplaceEvent::Published {
                placed: true,
            }) {
                1int
            } else {
                0
            }
            &&& next.deleted_local == report.deleted_local + if deleted && event == (
            ReplaceEvent::Captured { moved: true }) {
                1int
            } else {
                0
            }
            &&& next.conflicts == report.conflicts + if left {
                1int
            } else {
                0
            }
        }),
{
}

/// Every phase waits for what it asked for, and for nothing else.
pub proof fn law_phases_wait_for_their_events(phase: Phase, event: ReplaceEvent)
    ensures
        phase is Fetching ==> (fits(phase, event) <==> event is Fetched),
        phase is Resolving ==> (fits(phase, event) <==> event is Resolved),
        phase is Inspecting ==> (fits(phase, event) <==> event is Inspected),
        phase is Capturing ==> (fits(phase, event) <==> event is Captured),
        phase is Publishing ==> (fits(phase, event) <==> event is Published),
        phase is Examining ==> (fits(phase, event) <==> event is ExaminedFile || event
            is ExaminedDirectory),
        phase is Removing ==> (fits(phase, event) <==> event is Removed),
        phase is Done ==> !fits(phase, event),
{
}

/// Where the path has no directory that it could stand in, nothing is at the path, and nothing
/// more is done.
pub proof fn law_absent_directory_ends_it(
    deleted: bool,
    observed: Option<Seq<char>>,
    preserve: bool,
)
    ensures
        follows(
            deleted,
            observed,
            preserve,
            Phase::Resolving,
            ReplaceEvent::Resolved { found: false },
        ) == (Phase::Done, ReplaceAction::Finish { applied: true }),
{
}

} // verus!
