//! One pass of reconciliation on the client: what to do with each path, given what the
//! server says, what the folder holds and what was seen last, and in which order.
use vstd::prelude::*;

use crate::catalog::{commit_refusal, exhausted, namespace_refusal, revision_at, Tree};
use crate::keyed::{distinct, keyed, lemma_keyed_contains};
use crate::model::{below, is_below, path_ok, Entry};
use crate::order::{lemma_precedes_total, lemma_precedes_transitive, precedes, text_precedes};
use crate::server::{copy_entry, opt_int};
use crate::text::{chars_of, copy_opt_text, joined, opt_text, same_opt_text, same_text, texts};

verus! {

/// What the client knows of a path since the last time it was in order.
pub struct Seen {
    pub revision: i64,
    pub sha256: Option<String>,
}

/// One path of the state that the client keeps.
pub struct SeenRow {
    pub path: String,
    pub seen: Seen,
}

/// What the client keeps between passes.
pub struct LocalState {
    pub entries: Vec<SeenRow>,
}

/// One file in the folder.
pub struct LocalFile {
    pub path: String,
    pub sha256: String,
}

/// `Seen` as plain values.
pub struct Known {
    pub revision: int,
    pub sha256: Option<Seq<char>>,
}

/// What the server says of a path.
pub struct Remote {
    pub revision: int,
    pub sha256: Option<Seq<char>>,
    pub size: Option<int>,
    pub deleted: bool,
}

impl View for Seen {
    type V = Known;

    open spec fn view(&self) -> Known {
        Known { revision: self.revision as int, sha256: opt_text(self.sha256) }
    }
}

pub open spec fn remote_of(entry: Entry) -> Remote {
    Remote {
        revision: entry.revision as int,
        sha256: opt_text(entry.sha256),
        size: opt_int(entry.size),
        deleted: entry.deleted,
    }
}

pub open spec fn state_rows(rows: Seq<SeenRow>) -> Seq<(Seq<char>, Known)> {
    rows.map_values(|r: SeenRow| (r.path@, r.seen@))
}

pub open spec fn remote_rows(rows: Seq<Entry>) -> Seq<(Seq<char>, Remote)> {
    rows.map_values(|e: Entry| (e.path@, remote_of(e)))
}

pub open spec fn local_rows(rows: Seq<LocalFile>) -> Seq<(Seq<char>, Seq<char>)> {
    rows.map_values(|f: LocalFile| (f.path@, f.sha256@))
}

impl View for LocalState {
    type V = Map<Seq<char>, Known>;

    open spec fn view(&self) -> Map<Seq<char>, Known> {
        keyed(state_rows(self.entries@))
    }
}

/// What is under a key, if anything.
pub open spec fn at<K, V>(m: Map<K, V>, key: K) -> Option<V> {
    if m.contains_key(key) {
        Some(m[key])
    } else {
        None
    }
}

proof fn lemma_keyed_last<K, V>(rows: Seq<(K, V)>, i: int)
    requires
        0 <= i < rows.len(),
        forall|j: int| i < j < rows.len() ==> (#[trigger] rows[j]).0 != rows[i].0,
    ensures
        keyed(rows).contains_key(rows[i].0),
        keyed(rows)[rows[i].0] == rows[i].1,
    decreases rows.len(),
{
    if i < rows.len() - 1 {
        let front = rows.drop_last();
        assert(front[i] == rows[i]);
        assert forall|j: int| i < j < front.len() implies (#[trigger] front[j]).0 != front[i].0 by {
            assert(front[j] == rows[j]);
        }
        lemma_keyed_last(front, i);
        assert(rows[rows.len() - 1].0 != rows[i].0);
    }
}

proof fn lemma_keyed_absent<K, V>(rows: Seq<(K, V)>, key: K)
    requires
        forall|j: int| 0 <= j < rows.len() ==> (#[trigger] rows[j]).0 != key,
    ensures
        !keyed(rows).contains_key(key),
{
    lemma_keyed_contains(rows, key);
}

/// The last word of the server on a path.
pub fn find_remote<'a>(remote: &'a Vec<Entry>, path: &str) -> (found: Option<&'a Entry>)
    ensures
        match found {
            Some(e) => e.path@ == path@ && at(keyed(remote_rows(remote@)), path@) == Some(
                remote_of(*e),
            ),
            None => at(keyed(remote_rows(remote@)), path@) is None,
        },
{
    let ghost rows = remote_rows(remote@);
    let mut i: usize = remote.len();
    while i > 0
        invariant
            i <= remote.len(),
            rows == remote_rows(remote@),
            forall|j: int| i <= j < rows.len() ==> (#[trigger] rows[j]).0 != path@,
        decreases i,
    {
        i -= 1;
        assert(rows[i as int] == (remote@[i as int].path@, remote_of(remote@[i as int])));
        if same_text(remote[i].path.as_str(), path) {
            proof {
                lemma_keyed_last(rows, i as int);
            }
            return Some(&remote[i]);
        }
    }
    proof {
        lemma_keyed_absent(rows, path@);
    }
    None
}

/// The digest of a file in the folder.
pub fn find_local<'a>(local: &'a Vec<LocalFile>, path: &str) -> (found: Option<&'a LocalFile>)
    ensures
        match found {
            Some(f) => f.path@ == path@ && at(keyed(local_rows(local@)), path@) == Some(f.sha256@),
            None => at(keyed(local_rows(local@)), path@) is None,
        },
{
    let ghost rows = local_rows(local@);
    let mut i: usize = local.len();
    while i > 0
        invariant
            i <= local.len(),
            rows == local_rows(local@),
            forall|j: int| i <= j < rows.len() ==> (#[trigger] rows[j]).0 != path@,
        decreases i,
    {
        i -= 1;
        assert(rows[i as int] == (local@[i as int].path@, local@[i as int].sha256@));
        if same_text(local[i].path.as_str(), path) {
            proof {
                lemma_keyed_last(rows, i as int);
            }
            return Some(&local[i]);
        }
    }
    proof {
        lemma_keyed_absent(rows, path@);
    }
    None
}

impl LocalState {
    /// No path is held twice.
    pub open spec fn wf(self) -> bool {
        distinct(state_rows(self.entries@))
    }

    /// A state that knows nothing.
    pub fn new() -> (state: Self)
        ensures
            state.wf(),
            state@ == Map::<Seq<char>, Known>::empty(),
    {
        LocalState { entries: Vec::new() }
    }

    /// What was seen last of a path.
    pub fn find(&self, path: &str) -> (found: Option<&Seen>)
        ensures
            match found {
                Some(s) => at(self@, path@) == Some(s@),
                None => at(self@, path@) is None,
            },
    {
        let ghost rows = state_rows(self.entries@);
        let mut i: usize = self.entries.len();
        while i > 0
            invariant
                i <= self.entries.len(),
                rows == state_rows(self.entries@),
                forall|j: int| i <= j < rows.len() ==> (#[trigger] rows[j]).0 != path@,
            decreases i,
        {
            i -= 1;
            assert(rows[i as int] == (self.entries@[i as int].path@, self.entries@[i as int].seen@));
            if same_text(self.entries[i].path.as_str(), path) {
                proof {
                    lemma_keyed_last(rows, i as int);
                }
                return Some(&self.entries[i].seen);
            }
        }
        proof {
            lemma_keyed_absent(rows, path@);
        }
        None
    }

    /// Records what was seen of a path, in place of what was seen before.
    pub fn insert(&mut self, path: &str, seen: Seen)
        ensures
            final(self)@ == old(self)@.insert(path@, seen@),
            old(self).wf() ==> final(self).wf(),
    {
        let mut i: usize = self.entries.len();
        let ghost rows = state_rows(self.entries@);
        while i > 0
            invariant
                i <= self.entries.len(),
                *self == *old(self),
                rows == state_rows(self.entries@),
                forall|j: int| i <= j < rows.len() ==> (#[trigger] rows[j]).0 != path@,
            decreases i,
        {
            i -= 1;
            assert(rows[i as int] == (self.entries@[i as int].path@, self.entries@[i as int].seen@));
            if same_text(self.entries[i].path.as_str(), path) {
                let row = SeenRow { path: path.to_owned(), seen };
                proof {
                    lemma_keyed_replace(rows, i as int, seen@);
                    assert(state_rows(self.entries@.update(i as int, row)) =~= rows.update(
                        i as int,
                        (path@, seen@),
                    ));
                    if distinct(rows) {
                        crate::keyed::lemma_keyed_update(rows, i as int, seen@);
                    }
                }
                self.entries.set(i, row);
                return ;
            }
        }
        let row = SeenRow { path: path.to_owned(), seen };
        proof {
            lemma_keyed_absent(rows, path@);
            crate::keyed::lemma_keyed_push(rows, path@, seen@);
            assert(state_rows(self.entries@.push(row)) =~= rows.push((path@, seen@)));
        }
        self.entries.push(row);
    }
}

/// The notes after what was journaled since has been taken over.
pub open spec fn replayed(
    state: Map<Seq<char>, Known>,
    journal: Seq<(Seq<char>, Known)>,
) -> Map<Seq<char>, Known> {
    state.union_prefer_right(keyed(journal))
}

impl LocalState {
    /// Takes over what was journaled since the state was written, oldest first.
    pub fn replay(&mut self, journal: &Vec<SeenRow>)
        ensures
            final(self)@ == replayed(old(self)@, state_rows(journal@)),
            old(self).wf() ==> final(self).wf(),
    {
        let ghost rows = state_rows(journal@);
        let ghost before = self@;
        let mut i: usize = 0;
        assert(self@ =~= replayed(before, rows.take(0)));
        while i < journal.len()
            invariant
                i <= journal.len(),
                rows == state_rows(journal@),
                old(self).wf() ==> self.wf(),
                self@ == replayed(before, rows.take(i as int)),
            decreases journal.len() - i,
        {
            let row = &journal[i];
            let seen = Seen {
                revision: row.seen.revision,
                sha256: copy_opt_text(&row.seen.sha256),
            };
            assert(seen@ == row.seen@);
            self.insert(row.path.as_str(), seen);
            proof {
                assert(rows[i as int] == (row.path@, row.seen@));
                assert(rows.take(i + 1).drop_last() =~= rows.take(i as int));
                assert(self@ =~= replayed(before, rows.take(i + 1)));
            }
            i += 1;
        }
        assert(rows.take(i as int) =~= rows);
    }
}

/// Replaying a journal whose records are already in the state changes nothing, so a
/// journal may outlive the state that was written from it.
pub proof fn law_replaying_twice_changes_nothing(
    state: Map<Seq<char>, Known>,
    journal: Seq<(Seq<char>, Known)>,
)
    ensures
        replayed(replayed(state, journal), journal) == replayed(state, journal),
{
    assert(replayed(replayed(state, journal), journal) =~= replayed(state, journal));
}

/// A journal that lost its last records gives back every path that they do not name as the
/// whole journal would.
pub proof fn law_lost_records_concern_their_own_paths(
    state: Map<Seq<char>, Known>,
    journal: Seq<(Seq<char>, Known)>,
    kept: int,
    path: Seq<char>,
)
    requires
        0 <= kept <= journal.len(),
        forall|i: int| kept <= i < journal.len() ==> (#[trigger] journal[i]).0 != path,
    ensures
        at(replayed(state, journal.take(kept)), path) == at(replayed(state, journal), path),
    decreases journal.len() - kept,
{
    if kept < journal.len() {
        law_lost_records_concern_their_own_paths(state, journal, kept + 1, path);
        assert(journal.take(kept + 1).drop_last() =~= journal.take(kept));
        assert(journal.take(kept + 1).last() == journal[kept]);
    } else {
        assert(journal.take(kept) =~= journal);
    }
}

proof fn lemma_keyed_replace<K, V>(rows: Seq<(K, V)>, i: int, value: V)
    requires
        0 <= i < rows.len(),
        forall|j: int| i < j < rows.len() ==> (#[trigger] rows[j]).0 != rows[i].0,
    ensures
        keyed(rows.update(i, (rows[i].0, value))) == keyed(rows).insert(rows[i].0, value),
    decreases rows.len(),
{
    let key = rows[i].0;
    let next = rows.update(i, (key, value));
    let front = rows.drop_last();
    if i == rows.len() - 1 {
        assert(next.drop_last() =~= front);
        assert(keyed(next) =~= keyed(rows).insert(key, value));
    } else {
        assert(front[i] == rows[i]);
        assert forall|j: int| i < j < front.len() implies (#[trigger] front[j]).0 != front[i].0 by {
            assert(front[j] == rows[j]);
        }
        lemma_keyed_replace(front, i, value);
        assert(next.drop_last() =~= front.update(i, (key, value)));
        assert(rows[rows.len() - 1].0 != key);
        assert(keyed(next) =~= keyed(rows).insert(key, value));
    }
}

/// The three views that a pass compares.
pub struct Picture {
    pub remote: Map<Seq<char>, Remote>,
    pub local: Map<Seq<char>, Seq<char>>,
    pub state: Map<Seq<char>, Known>,
}

/// The server has a live file at `path` that the client has not seen in this revision.
pub open spec fn incoming(p: Picture, path: Seq<char>) -> bool {
    &&& p.remote.contains_key(path)
    &&& !p.remote[path].deleted
    &&& !(p.state.contains_key(path) && p.state[path].revision == p.remote[path].revision)
}

/// Some incoming file takes the place of a directory that `path` lies in.
pub open spec fn replaced(p: Picture, path: Seq<char>) -> bool {
    exists|a: Seq<char>| #[trigger] incoming(p, a) && is_below(path, a)
}

/// Something at `path` has to go, on one side or the other.
pub open spec fn deletion(p: Picture, path: Seq<char>) -> bool {
    ||| {
        &&& p.remote.contains_key(path)
        &&& p.remote[path].deleted
        &&& !p.local.contains_key(path) || replaced(p, path) || !(p.state.contains_key(path)
            && p.state[path].revision == p.remote[path].revision)
    }
    ||| {
        &&& !p.local.contains_key(path)
        &&& p.state.contains_key(path)
        &&& p.state[path].sha256 is Some
    }
}

/// Deletions come first, then what comes in from the server, then the rest.
pub open spec fn class_of(p: Picture, path: Seq<char>) -> int {
    if deletion(p, path) {
        0
    } else if incoming(p, path) {
        1
    } else {
        2
    }
}

/// How many directories a path lies in.
pub open spec fn depth(path: Seq<char>) -> nat
    decreases path.len(),
{
    if path.len() == 0 {
        0
    } else {
        depth(path.drop_last()) + if path.last() == '/' {
            1nat
        } else {
            0nat
        }
    }
}

/// The order of (class, depth, path): by class, then deepest first, then by name.
pub open spec fn sooner(
    class_a: int,
    depth_a: nat,
    a: Seq<char>,
    class_b: int,
    depth_b: nat,
    b: Seq<char>,
) -> bool {
    if class_a != class_b {
        class_a < class_b
    } else if depth_a != depth_b {
        depth_a > depth_b
    } else {
        precedes(a, b)
    }
}

/// Whether `a` is handled before `b`.
pub open spec fn earlier(p: Picture, a: Seq<char>, b: Seq<char>) -> bool {
    sooner(class_of(p, a), depth(a), a, class_of(p, b), depth(b), b)
}

/// Some side speaks of the path.
pub open spec fn known(p: Picture, path: Seq<char>) -> bool {
    p.remote.contains_key(path) || p.local.contains_key(path) || p.state.contains_key(path)
}

/// Each path that some side speaks of, once, in the order in which it is handled.
pub open spec fn is_plan(p: Picture, plan: Seq<Seq<char>>) -> bool {
    &&& forall|i: int, j: int|
        0 <= i < j < plan.len() ==> earlier(p, #[trigger] plan[i], #[trigger] plan[j])
    &&& forall|path: Seq<char>| plan.contains(path) <==> #[trigger] known(p, path)
}

/// What to do with one path.
pub enum Step {
    /// The server forgot a path that the client knows: stop.
    Lost,
    /// Both sides agree; remember so.
    Record { revision: i64, sha256: Option<String> },
    /// Nothing to do.
    Skip,
    /// The server wins; `preserve` says that the local file is different work.
    Apply { preserve: bool },
    /// The local file goes to the server.
    Upload { base: i64 },
    /// The local deletion goes to the server.
    Delete { base: i64 },
}

/// A step as plain values.
pub enum Move {
    Lost,
    Record { known: Known },
    Skip,
    Apply { preserve: bool },
    Upload { base: int },
    Delete { base: int },
}

impl View for Step {
    type V = Move;

    open spec fn view(&self) -> Move {
        match *self {
            Step::Lost => Move::Lost,
            Step::Record { revision, sha256 } => Move::Record {
                known: Known { revision: revision as int, sha256: opt_text(sha256) },
            },
            Step::Skip => Move::Skip,
            Step::Apply { preserve } => Move::Apply { preserve },
            Step::Upload { base } => Move::Upload { base: base as int },
            Step::Delete { base } => Move::Delete { base: base as int },
        }
    }
}

pub open spec fn remote_revision(server: Option<Remote>) -> int {
    match server {
        Some(r) => r.revision,
        None => 0,
    }
}

pub open spec fn remote_sha(server: Option<Remote>) -> Option<Seq<char>> {
    match server {
        Some(r) => r.sha256,
        None => None,
    }
}

pub open spec fn remote_changed(
    server: Option<Remote>,
    prior: Option<Known>,
    replaced: bool,
) -> bool {
    replaced || match prior {
        Some(known) => known.revision != remote_revision(server),
        None => remote_revision(server) != 0,
    }
}

pub open spec fn local_changed(observed: Option<Seq<char>>, prior: Option<Known>) -> bool {
    match prior {
        Some(known) => known.sha256 != observed,
        None => observed is Some,
    }
}

pub open spec fn base_of(prior: Option<Known>) -> int {
    match prior {
        Some(known) => known.revision,
        None => 0,
    }
}

/// What to do with a path, by what the server says, what the folder holds and what was
/// seen last.
pub open spec fn decision(
    server: Option<Remote>,
    observed: Option<Seq<char>>,
    prior: Option<Known>,
    replaced: bool,
) -> Move {
    if server is None && prior is Some {
        Move::Lost
    } else if remote_revision(server) > 0 && observed == remote_sha(server) {
        Move::Record {
            known: Known { revision: remote_revision(server), sha256: remote_sha(server) },
        }
    } else if replaced && server is None {
        Move::Skip
    } else if remote_changed(server, prior, replaced) {
        Move::Apply { preserve: local_changed(observed, prior) && observed is Some }
    } else if local_changed(observed, prior) {
        if observed is Some {
            Move::Upload { base: base_of(prior) }
        } else if server is Some && !server->0.deleted {
            Move::Delete { base: base_of(prior) }
        } else {
            Move::Skip
        }
    } else {
        Move::Skip
    }
}

pub open spec fn opt_remote(e: Option<&Entry>) -> Option<Remote> {
    match e {
        Some(entry) => Some(remote_of(*entry)),
        None => None,
    }
}

pub open spec fn opt_local(f: Option<&LocalFile>) -> Option<Seq<char>> {
    match f {
        Some(file) => Some(file.sha256@),
        None => None,
    }
}

pub open spec fn opt_known(s: Option<&Seen>) -> Option<Known> {
    match s {
        Some(seen) => Some(seen@),
        None => None,
    }
}

fn text_is(text: &Option<String>, other: Option<&LocalFile>) -> (same: bool)
    ensures
        same == (opt_text(*text) == opt_local(other)),
{
    match (text, other) {
        (Some(a), Some(f)) => same_text(a.as_str(), f.sha256.as_str()),
        (None, None) => true,
        _ => false,
    }
}

/// What to do with a path.
pub fn decide(
    server: Option<&Entry>,
    observed: Option<&LocalFile>,
    prior: Option<&Seen>,
    replaced: bool,
) -> (step: Step)
    ensures
        step@ == decision(opt_remote(server), opt_local(observed), opt_known(prior), replaced),
{
    let revision: i64 = match server {
        Some(e) => e.revision,
        None => {
            if prior.is_some() {
                return Step::Lost;
            }
            0
        },
    };
    if revision > 0 {
        match server {
            Some(e) => {
                if text_is(&e.sha256, observed) {
                    return Step::Record { revision, sha256: copy_opt_text(&e.sha256) };
                }
            },
            None => {},
        }
    }
    if replaced && server.is_none() {
        return Step::Skip;
    }
    let remote_moved = match prior {
        Some(seen) => seen.revision != revision,
        None => revision != 0,
    };
    let local_moved = match prior {
        Some(seen) => !text_is(&seen.sha256, observed),
        None => observed.is_some(),
    };
    if replaced || remote_moved {
        return Step::Apply { preserve: local_moved && observed.is_some() };
    }
    if !local_moved {
        return Step::Skip;
    }
    let base: i64 = match prior {
        Some(seen) => seen.revision,
        None => 0,
    };
    if observed.is_some() {
        return Step::Upload { base };
    }
    match server {
        Some(e) => if !e.deleted {
            Step::Delete { base }
        } else {
            Step::Skip
        },
        None => Step::Skip,
    }
}


struct Ranked {
    class: u8,
    depth: usize,
    path: String,
}

spec fn in_rank(list: Seq<Ranked>) -> bool {
    forall|i: int, j: int|
        0 <= i < j < list.len() ==> sooner(
            (#[trigger] list[i]).class as int,
            list[i].depth as nat,
            list[i].path@,
            (#[trigger] list[j]).class as int,
            list[j].depth as nat,
            list[j].path@,
        )
}

spec fn ranked_by(p: Picture, item: Ranked) -> bool {
    item.class == class_of(p, item.path@) && item.depth == depth(item.path@)
}

spec fn listed(list: Seq<Ranked>, path: Seq<char>) -> bool {
    exists|i: int| 0 <= i < list.len() && (#[trigger] list[i]).path@ == path
}

fn rank_precedes(a: &Ranked, b: &Ranked) -> (yes: bool)
    ensures
        yes == sooner(
            a.class as int,
            a.depth as nat,
            a.path@,
            b.class as int,
            b.depth as nat,
            b.path@,
        ),
{
    if a.class != b.class {
        a.class < b.class
    } else if a.depth != b.depth {
        a.depth > b.depth
    } else {
        text_precedes(a.path.as_str(), b.path.as_str())
    }
}

proof fn lemma_sooner_transitive(
    ca: int,
    da: nat,
    a: Seq<char>,
    cb: int,
    db: nat,
    b: Seq<char>,
    cc: int,
    dc: nat,
    c: Seq<char>,
)
    requires
        sooner(ca, da, a, cb, db, b),
        sooner(cb, db, b, cc, dc, c),
    ensures
        sooner(ca, da, a, cc, dc, c),
{
    if ca == cb && cb == cc && da == db && db == dc {
        lemma_precedes_transitive(a, b, c);
    }
}

spec fn ranks_before(a: Ranked, b: Ranked) -> bool {
    sooner(a.class as int, a.depth as nat, a.path@, b.class as int, b.depth as nat, b.path@)
}

/// The first position that does not stand before the item.
fn position_for(list: &Vec<Ranked>, item: &Ranked) -> (k: usize)
    requires
        in_rank(list@),
    ensures
        k <= list@.len(),
        forall|a: int| 0 <= a < k ==> ranks_before(#[trigger] list@[a], *item),
        k < list@.len() ==> !ranks_before(list@[k as int], *item),
{
    let mut low: usize = 0;
    let mut high: usize = list.len();
    while low < high
        invariant
            low <= high <= list@.len(),
            in_rank(list@),
            forall|a: int| 0 <= a < low ==> ranks_before(#[trigger] list@[a], *item),
            high < list@.len() ==> !ranks_before(list@[high as int], *item),
        decreases high - low,
    {
        let middle: usize = low + (high - low) / 2;
        if rank_precedes(&list[middle], item) {
            proof {
                let m = list@[middle as int];
                assert forall|a: int| 0 <= a < middle + 1 implies ranks_before(
                    #[trigger] list@[a],
                    *item,
                ) by {
                    if a < middle {
                        let x = list@[a];
                        lemma_sooner_transitive(
                            x.class as int,
                            x.depth as nat,
                            x.path@,
                            m.class as int,
                            m.depth as nat,
                            m.path@,
                            item.class as int,
                            item.depth as nat,
                            item.path@,
                        );
                    }
                }
            }
            low = middle + 1;
        } else {
            high = middle;
        }
    }
    low
}

fn place(list: &mut Vec<Ranked>, item: Ranked, Ghost(p): Ghost<Picture>)
    requires
        in_rank(old(list)@),
        forall|i: int| 0 <= i < old(list)@.len() ==> ranked_by(p, #[trigger] old(list)@[i]),
        ranked_by(p, item),
    ensures
        in_rank(final(list)@),
        forall|i: int| 0 <= i < final(list)@.len() ==> ranked_by(p, #[trigger] final(list)@[i]),
        forall|path: Seq<char>| #[trigger]
            listed(final(list)@, path) <==> listed(old(list)@, path) || path == item.path@,
{
    let ghost before = list@;
    let k = position_for(list, &item);
    if k < list.len() && same_text(list[k].path.as_str(), item.path.as_str()) {
        assert(before[k as int].path@ == item.path@);
        assert(listed(before, item.path@));
        return ;
    }
    proof {
        let after = before.insert(k as int, item);
        if k < before.len() {
            lemma_precedes_total(before[k as int].path@, item.path@);
        }
        assert forall|a: int, b: int| 0 <= a < b < after.len() implies sooner(
            (#[trigger] after[a]).class as int,
            after[a].depth as nat,
            after[a].path@,
            (#[trigger] after[b]).class as int,
            after[b].depth as nat,
            after[b].path@,
        ) by {
            if b < k {
                assert(after[a] == before[a] && after[b] == before[b]);
            } else if b == k {
                assert(after[a] == before[a]);
                assert(ranks_before(before[a], item));
            } else if a < k {
                assert(after[a] == before[a] && after[b] == before[b - 1]);
            } else if a == k {
                assert(after[b] == before[b - 1]);
                if b - 1 > k {
                    let m = before[k as int];
                    lemma_sooner_transitive(
                        item.class as int,
                        item.depth as nat,
                        item.path@,
                        m.class as int,
                        m.depth as nat,
                        m.path@,
                        after[b].class as int,
                        after[b].depth as nat,
                        after[b].path@,
                    );
                }
            } else {
                assert(after[a] == before[a - 1] && after[b] == before[b - 1]);
            }
        }
        assert forall|i: int| 0 <= i < after.len() implies ranked_by(p, #[trigger] after[i]) by {
            if i < k {
                assert(after[i] == before[i]);
            } else if i > k {
                assert(after[i] == before[i - 1]);
            }
        }
        assert forall|path: Seq<char>| #[trigger]
            listed(after, path) <==> listed(before, path) || path == item.path@ by {
            if listed(after, path) {
                let i = choose|i: int| 0 <= i < after.len() && (#[trigger] after[i]).path@ == path;
                if i < k {
                    assert(before[i].path@ == path);
                } else if i > k {
                    assert(before[i - 1].path@ == path);
                }
            }
            if listed(before, path) {
                let i = choose|i: int|
                    0 <= i < before.len() && (#[trigger] before[i]).path@ == path;
                if i < k {
                    assert(after[i].path@ == path);
                } else {
                    assert(after[i + 1].path@ == path);
                }
            }
            assert(after[k as int] == item);
        }
    }
    list.insert(k, item);
}

pub open spec fn picture(
    remote: Seq<Entry>,
    local: Seq<LocalFile>,
    state: Map<Seq<char>, Known>,
) -> Picture {
    Picture { remote: keyed(remote_rows(remote)), local: keyed(local_rows(local)), state }
}

fn is_incoming(remote: &Vec<Entry>, state: &LocalState, path: &str, Ghost(p): Ghost<Picture>) -> (yes:
    bool)
    requires
        p.remote == keyed(remote_rows(remote@)),
        p.state == state@,
    ensures
        yes == incoming(p, path@),
{
    match find_remote(remote, path) {
        Some(e) => {
            if e.deleted {
                return false;
            }
            match state.find(path) {
                Some(seen) => seen.revision != e.revision,
                None => true,
            }
        },
        None => false,
    }
}

fn is_replaced(remote: &Vec<Entry>, state: &LocalState, path: &str, Ghost(p): Ghost<Picture>) -> (yes:
    bool)
    requires
        p.remote == keyed(remote_rows(remote@)),
        p.state == state@,
    ensures
        yes == replaced(p, path@),
{
    let chars = chars_of(path);
    let mut i: usize = 0;
    while i < chars.len()
        invariant
            i <= chars.len(),
            chars@ == path@,
            p.remote == keyed(remote_rows(remote@)),
            p.state == state@,
            forall|a: Seq<char>| #[trigger]
                incoming(p, a) && is_below(path@, a) ==> a.len() >= i,
        decreases chars.len() - i,
    {
        if chars[i] == '/' {
            let ancestor = path.substring_char(0, i);
            assert(ancestor@ =~= path@.take(i as int));
            if is_incoming(remote, state, ancestor, Ghost(p)) {
                assert(is_below(path@, ancestor@));
                return true;
            }
        }
        assert forall|a: Seq<char>| #[trigger] incoming(p, a) && is_below(path@, a) implies a.len()
            >= i + 1 by {
            if a.len() == i {
                assert(a == path@.take(i as int));
            }
        }
        i += 1;
    }
    false
}

fn depth_of(path: &str) -> (n: usize)
    ensures
        n == depth(path@),
{
    let chars = chars_of(path);
    let mut n: usize = 0;
    let mut i: usize = 0;
    assert(path@.take(0) =~= Seq::empty());
    while i < chars.len()
        invariant
            i <= chars.len(),
            chars@ == path@,
            n <= i,
            n == depth(path@.take(i as int)),
        decreases chars.len() - i,
    {
        proof {
            assert(path@.take(i + 1).drop_last() =~= path@.take(i as int));
        }
        if chars[i] == '/' {
            n += 1;
        }
        i += 1;
    }
    assert(path@.take(i as int) =~= path@);
    n
}

fn rank(
    remote: &Vec<Entry>,
    local: &Vec<LocalFile>,
    state: &LocalState,
    path: &str,
    Ghost(p): Ghost<Picture>,
) -> (item: Ranked)
    requires
        p == picture(remote@, local@, state@),
    ensures
        ranked_by(p, item),
        item.path@ == path@,
{
    let coming = is_incoming(remote, state, path, Ghost(p));
    let absent = find_local(local, path).is_none();
    let seen = state.find(path);
    let buried = match find_remote(remote, path) {
        Some(e) => e.deleted && (absent || is_replaced(remote, state, path, Ghost(p)) || match seen {
            Some(s) => s.revision != e.revision,
            None => true,
        }),
        None => false,
    };
    let gone = absent && match seen {
        Some(s) => s.sha256.is_some(),
        None => false,
    };
    let class: u8 = if buried || gone {
        0
    } else if coming {
        1
    } else {
        2
    };
    Ranked { class, depth: depth_of(path), path: path.to_owned() }
}


proof fn lemma_listed_step<T>(rows: Seq<(Seq<char>, T)>, k: int, path: Seq<char>)
    requires
        0 <= k < rows.len(),
    ensures
        keyed(rows.take(k + 1)).contains_key(path) <==> keyed(rows.take(k)).contains_key(path)
            || path == rows[k].0,
{
    assert(rows.take(k + 1).drop_last() =~= rows.take(k));
    assert(rows.take(k + 1).last() == rows[k]);
}

fn place_remote(
    list: &mut Vec<Ranked>,
    remote: &Vec<Entry>,
    local: &Vec<LocalFile>,
    state: &LocalState,
    Ghost(p): Ghost<Picture>,
)
    requires
        p == picture(remote@, local@, state@),
        in_rank(old(list)@),
        forall|i: int| 0 <= i < old(list)@.len() ==> ranked_by(p, #[trigger] old(list)@[i]),
    ensures
        in_rank(final(list)@),
        forall|i: int| 0 <= i < final(list)@.len() ==> ranked_by(p, #[trigger] final(list)@[i]),
        forall|path: Seq<char>| #[trigger]
            listed(final(list)@, path) <==> listed(old(list)@, path) || p.remote.contains_key(path),
{
    let ghost rows = remote_rows(remote@);
    let ghost before = list@;
    let mut k: usize = 0;
    while k < remote.len()
        invariant
            k <= remote.len(),
            rows == remote_rows(remote@),
            p == picture(remote@, local@, state@),
            in_rank(list@),
            forall|i: int| 0 <= i < list@.len() ==> ranked_by(p, #[trigger] list@[i]),
            forall|path: Seq<char>| #[trigger]
                listed(list@, path) <==> listed(before, path) || keyed(
                    rows.take(k as int),
                ).contains_key(path),
        decreases remote.len() - k,
    {
        let item = rank(remote, local, state, remote[k].path.as_str(), Ghost(p));
        place(list, item, Ghost(p));
        proof {
            assert forall|path: Seq<char>| #[trigger]
                listed(list@, path) <==> listed(before, path) || keyed(
                    rows.take(k + 1),
                ).contains_key(path) by {
                lemma_listed_step(rows, k as int, path);
            }
        }
        k += 1;
    }
    assert(rows.take(k as int) =~= rows);
}

fn place_local(
    list: &mut Vec<Ranked>,
    remote: &Vec<Entry>,
    local: &Vec<LocalFile>,
    state: &LocalState,
    Ghost(p): Ghost<Picture>,
)
    requires
        p == picture(remote@, local@, state@),
        in_rank(old(list)@),
        forall|i: int| 0 <= i < old(list)@.len() ==> ranked_by(p, #[trigger] old(list)@[i]),
    ensures
        in_rank(final(list)@),
        forall|i: int| 0 <= i < final(list)@.len() ==> ranked_by(p, #[trigger] final(list)@[i]),
        forall|path: Seq<char>| #[trigger]
            listed(final(list)@, path) <==> listed(old(list)@, path) || p.local.contains_key(path),
{
    let ghost rows = local_rows(local@);
    let ghost before = list@;
    let mut k: usize = 0;
    while k < local.len()
        invariant
            k <= local.len(),
            rows == local_rows(local@),
            p == picture(remote@, local@, state@),
            in_rank(list@),
            forall|i: int| 0 <= i < list@.len() ==> ranked_by(p, #[trigger] list@[i]),
            forall|path: Seq<char>| #[trigger]
                listed(list@, path) <==> listed(before, path) || keyed(
                    rows.take(k as int),
                ).contains_key(path),
        decreases local.len() - k,
    {
        let item = rank(remote, local, state, local[k].path.as_str(), Ghost(p));
        place(list, item, Ghost(p));
        proof {
            assert forall|path: Seq<char>| #[trigger]
                listed(list@, path) <==> listed(before, path) || keyed(
                    rows.take(k + 1),
                ).contains_key(path) by {
                lemma_listed_step(rows, k as int, path);
            }
        }
        k += 1;
    }
    assert(rows.take(k as int) =~= rows);
}

fn place_state(
    list: &mut Vec<Ranked>,
    remote: &Vec<Entry>,
    local: &Vec<LocalFile>,
    state: &LocalState,
    Ghost(p): Ghost<Picture>,
)
    requires
        p == picture(remote@, local@, state@),
        in_rank(old(list)@),
        forall|i: int| 0 <= i < old(list)@.len() ==> ranked_by(p, #[trigger] old(list)@[i]),
    ensures
        in_rank(final(list)@),
        forall|i: int| 0 <= i < final(list)@.len() ==> ranked_by(p, #[trigger] final(list)@[i]),
        forall|path: Seq<char>| #[trigger]
            listed(final(list)@, path) <==> listed(old(list)@, path) || p.state.contains_key(path),
{
    let ghost rows = state_rows(state.entries@);
    let ghost before = list@;
    let mut k: usize = 0;
    while k < state.entries.len()
        invariant
            k <= state.entries.len(),
            rows == state_rows(state.entries@),
            p == picture(remote@, local@, state@),
            in_rank(list@),
            forall|i: int| 0 <= i < list@.len() ==> ranked_by(p, #[trigger] list@[i]),
            forall|path: Seq<char>| #[trigger]
                listed(list@, path) <==> listed(before, path) || keyed(
                    rows.take(k as int),
                ).contains_key(path),
        decreases state.entries.len() - k,
    {
        let item = rank(remote, local, state, state.entries[k].path.as_str(), Ghost(p));
        place(list, item, Ghost(p));
        proof {
            assert forall|path: Seq<char>| #[trigger]
                listed(list@, path) <==> listed(before, path) || keyed(
                    rows.take(k + 1),
                ).contains_key(path) by {
                lemma_listed_step(rows, k as int, path);
            }
        }
        k += 1;
    }
    assert(rows.take(k as int) =~= rows);
}

/// The paths of a pass, in the order in which it handles them. Deletions come before
/// creations, and deeper paths before shallower ones, so that a directory can become a
/// file and a file a directory.
pub fn plan(remote: &Vec<Entry>, local: &Vec<LocalFile>, state: &LocalState) -> (paths: Vec<String>)
    ensures
        is_plan(picture(remote@, local@, state@), texts(paths@)),
{
    let ghost p = picture(remote@, local@, state@);
    let mut list: Vec<Ranked> = Vec::new();
    place_remote(&mut list, remote, local, state, Ghost(p));
    place_local(&mut list, remote, local, state, Ghost(p));
    place_state(&mut list, remote, local, state, Ghost(p));
    let mut paths: Vec<String> = Vec::new();
    let mut i: usize = 0;
    while i < list.len()
        invariant
            i <= list.len(),
            paths@.len() == i,
            forall|j: int| 0 <= j < i ==> (#[trigger] paths@[j])@ == list@[j].path@,
        decreases list.len() - i,
    {
        paths.push(list[i].path.as_str().to_owned());
        i += 1;
    }
    proof {
        let out = texts(paths@);
        assert forall|a: int, b: int| 0 <= a < b < out.len() implies earlier(
            p,
            #[trigger] out[a],
            #[trigger] out[b],
        ) by {
            assert(paths@[a]@ == list@[a].path@ && paths@[b]@ == list@[b].path@);
            assert(ranked_by(p, list@[a]) && ranked_by(p, list@[b]));
        }
        assert forall|path: Seq<char>| out.contains(path) <==> #[trigger] known(p, path) by {
            assert(listed(list@, path) <==> known(p, path));
            if out.contains(path) {
                let i = choose|i: int| 0 <= i < out.len() && out[i] == path;
                assert(paths@[i]@ == list@[i].path@);
                assert(list@[i].path@ == path);
                assert(listed(list@, path));
            }
            if listed(list@, path) {
                let i = choose|i: int| 0 <= i < list@.len() && (#[trigger] list@[i]).path@ == path;
                assert(paths@[i]@ == list@[i].path@);
                assert(out[i] == path);
            }
        }
    }
    paths
}

/// What a run has done so far.
pub struct SyncReport {
    pub uploaded: usize,
    pub downloaded: usize,
    pub deleted_local: usize,
    pub deleted_remote: usize,
    pub conflicts: usize,
}

impl SyncReport {
    /// A report of nothing.
    pub fn new() -> (report: Self)
        ensures
            report == (SyncReport {
                uploaded: 0,
                downloaded: 0,
                deleted_local: 0,
                deleted_remote: 0,
                conflicts: 0,
            }),
    {
        SyncReport { uploaded: 0, downloaded: 0, deleted_local: 0, deleted_remote: 0, conflicts: 0 }
    }

    /// No counter is at its limit.
    pub open spec fn has_room(self) -> bool {
        &&& self.uploaded < usize::MAX
        &&& self.downloaded < usize::MAX
        &&& self.deleted_local < usize::MAX
        &&& self.deleted_remote < usize::MAX
        &&& self.conflicts < usize::MAX
    }

    /// Whether every counter can still grow.
    pub fn room(&self) -> (yes: bool)
        ensures
            yes == self.has_room(),
    {
        self.uploaded < usize::MAX && self.downloaded < usize::MAX && self.deleted_local
            < usize::MAX && self.deleted_remote < usize::MAX && self.conflicts < usize::MAX
    }
}

/// The server has no record of a path that the client knows.
pub struct LostMetadata {
    pub path: String,
}

impl LostMetadata {
    /// What the user is told.
    pub fn message(&self) -> (text: String)
        ensures
            text@ == "server lost metadata for "@ + self.path@
                + "; refusing to guess how to reconcile it"@,
    {
        let head = joined("server lost metadata for ", self.path.as_str());
        joined(head.as_str(), "; refusing to guess how to reconcile it")
    }
}

/// What the caller has to do next.
pub enum Action {
    /// Write down what is now known of a path.
    Save { row: SeenRow },
    /// Bring the folder to what the server has, then call `applied`.
    Apply { entry: Entry, observed: Option<String>, preserve: bool },
    /// Send the file, then call `acknowledged`.
    Upload { path: String, base: i64, sha256: String },
    /// Delete the file on the server, then call `acknowledged`.
    Delete { path: String, base: i64 },
    /// The pass is over; `again` asks for another one.
    Finished { again: bool },
}

/// A pass under way.
pub struct SyncPass {
    pub remote: Vec<Entry>,
    pub local: Vec<LocalFile>,
    pub state: LocalState,
    pub paths: Vec<String>,
    pub replaced: Vec<bool>,
    pub position: usize,
    pub rescan: bool,
}

impl SyncPass {
    pub open spec fn wf(self) -> bool {
        &&& self.replaced@.len() == self.paths@.len()
        &&& self.position <= self.paths@.len()
    }

    /// Everything but the state, the position and the wish for another pass.
    pub open spec fn same_inputs(self, other: Self) -> bool {
        &&& self.remote == other.remote
        &&& self.local == other.local
        &&& self.paths == other.paths
        &&& self.replaced == other.replaced
    }

    /// What to do with the path at a position.
    pub open spec fn turn(self, k: int) -> Move {
        let path = self.paths@[k]@;
        decision(
            at(keyed(remote_rows(self.remote@)), path),
            at(keyed(local_rows(self.local@)), path),
            at(self.state@, path),
            self.replaced@[k],
        )
    }

    /// The path at a position needs nothing, not even a note.
    pub open spec fn quiet(self, k: int) -> bool {
        match self.turn(k) {
            Move::Skip => true,
            Move::Record { known } => at(self.state@, self.paths@[k]@) == Some(known),
            _ => false,
        }
    }

    /// Begins a pass over what the server says, what the folder holds and what was seen.
    pub fn new(remote: Vec<Entry>, local: Vec<LocalFile>, state: LocalState) -> (pass: Self)
        ensures
            pass.wf(),
            pass.remote == remote,
            pass.local == local,
            pass.state == state,
            pass.position == 0,
            !pass.rescan,
            is_plan(picture(remote@, local@, state@), texts(pass.paths@)),
            forall|i: int|
                0 <= i < pass.paths@.len() ==> #[trigger] pass.replaced@[i] == replaced(
                    picture(remote@, local@, state@),
                    pass.paths@[i]@,
                ),
    {
        let ghost p = picture(remote@, local@, state@);
        let paths = plan(&remote, &local, &state);
        let mut flags: Vec<bool> = Vec::new();
        let mut i: usize = 0;
        while i < paths.len()
            invariant
                i <= paths.len(),
                p == picture(remote@, local@, state@),
                flags@.len() == i,
                forall|j: int|
                    0 <= j < i ==> #[trigger] flags@[j] == replaced(p, paths@[j]@),
            decreases paths.len() - i,
        {
            let flag = is_replaced(&remote, &state, paths[i].as_str(), Ghost(p));
            flags.push(flag);
            i += 1;
        }
        SyncPass { remote, local, state, paths, replaced: flags, position: 0, rescan: false }
    }

    fn step(&self, k: usize) -> (step: Step)
        requires
            self.wf(),
            k < self.paths@.len(),
        ensures
            step@ == self.turn(k as int),
    {
        let path = self.paths[k].as_str();
        let server = find_remote(&self.remote, path);
        let observed = find_local(&self.local, path);
        let prior = self.state.find(path);
        decide(server, observed, prior, self.replaced[k])
    }
}

pub open spec fn row_is(row: SeenRow, path: Seq<char>, known: Known) -> bool {
    row.path@ == path && row.seen@ == known
}

/// The notes once a path is as the server has it.
pub open spec fn noted(
    state: Map<Seq<char>, Known>,
    path: Seq<char>,
    entry: Remote,
) -> Map<Seq<char>, Known> {
    state.insert(path, known_of(entry))
}

/// A file of the server has come to stand where the folder had a directory with files.
pub open spec fn displaces(entry: Remote, path: Seq<char>, local: Seq<LocalFile>) -> bool {
    !entry.deleted && exists|i: int|
        0 <= i < local.len() && is_below((#[trigger] local[i]).path@, path)
}

/// The report once the server has taken a file or a deletion.
pub open spec fn counting(report: SyncReport, deletion: bool) -> SyncReport {
    if deletion {
        SyncReport { deleted_remote: (report.deleted_remote + 1) as usize, ..report }
    } else {
        SyncReport { uploaded: (report.uploaded + 1) as usize, ..report }
    }
}

/// What an entry of the server is remembered as.
pub open spec fn known_of(r: Remote) -> Known {
    Known { revision: r.revision, sha256: r.sha256 }
}

/// The action that belongs to a move at a path, where it needs one.
pub open spec fn action_is(
    action: Action,
    path: Seq<char>,
    turn: Move,
    server: Option<Remote>,
    observed: Option<Seq<char>>,
) -> bool {
    match turn {
        Move::Record { known } => action matches Action::Save { row } && row_is(row, path, known),
        Move::Apply { preserve } => {
            &&& action matches Action::Apply { entry, observed: seen, preserve: keep }
            &&& entry.path@ == path
            &&& server == Some(remote_of(entry))
            &&& opt_text(seen) == observed
            &&& keep == preserve
        },
        Move::Upload { base } => {
            &&& action matches Action::Upload { path: named, base: from, sha256 }
            &&& named@ == path
            &&& from == base
            &&& observed == Some(sha256@)
        },
        Move::Delete { base } => {
            &&& action matches Action::Delete { path: named, base: from }
            &&& named@ == path
            &&& from == base
        },
        Move::Lost => false,
        Move::Skip => false,
    }
}

fn any_below(local: &Vec<LocalFile>, path: &str) -> (yes: bool)
    ensures
        yes == exists|i: int|
            0 <= i < local@.len() && is_below((#[trigger] local@[i]).path@, path@),
{
    let mut i: usize = 0;
    while i < local.len()
        invariant
            i <= local.len(),
            forall|j: int| 0 <= j < i ==> !is_below((#[trigger] local@[j]).path@, path@),
        decreases local.len() - i,
    {
        if below(local[i].path.as_str(), path) {
            return true;
        }
        i += 1;
    }
    false
}

fn new_row(path: &str, revision: i64, sha256: &Option<String>) -> (row: SeenRow)
    ensures
        row_is(row, path@, Known { revision: revision as int, sha256: opt_text(*sha256) }),
{
    SeenRow { path: path.to_owned(), seen: Seen { revision, sha256: copy_opt_text(sha256) } }
}

fn action_for(pass: &SyncPass, k: usize, step: Step) -> (action: Action)
    requires
        pass.wf(),
        k < pass.paths@.len(),
        step@ == pass.turn(k as int),
        step@ is Apply || step@ is Upload || step@ is Delete,
    ensures
        action_is(
            action,
            pass.paths@[k as int]@,
            step@,
            at(keyed(remote_rows(pass.remote@)), pass.paths@[k as int]@),
            at(keyed(local_rows(pass.local@)), pass.paths@[k as int]@),
        ),
{
    let path = pass.paths[k].as_str();
    match step {
        Step::Apply { preserve } => {
            let observed = match find_local(&pass.local, path) {
                Some(f) => Some(f.sha256.as_str().to_owned()),
                None => None,
            };
            let entry = copy_entry(find_remote(&pass.remote, path).unwrap());
            Action::Apply { entry, observed, preserve }
        },
        Step::Upload { base } => {
            let file = find_local(&pass.local, path).unwrap();
            Action::Upload { path: path.to_owned(), base, sha256: file.sha256.as_str().to_owned() }
        },
        Step::Delete { base } => Action::Delete { path: path.to_owned(), base },
        _ => Action::Finished { again: false },
    }
}

impl SyncPass {
    /// Goes on to the next path that needs something. A path that both sides agree on is
    /// noted here; what asks for work stays the current path until the caller reports on it.
    pub fn next(&mut self) -> (result: Result<Action, LostMetadata>)
        requires
            old(self).wf(),
        ensures
            final(self).wf(),
            final(self).same_inputs(*old(self)),
            final(self).rescan == old(self).rescan,
            match result {
                Ok(Action::Finished { again }) => {
                    &&& final(self).position == final(self).paths@.len()
                    &&& final(self).state == old(self).state
                    &&& again == old(self).rescan
                    &&& forall|k: int|
                        old(self).position <= k < old(self).paths@.len() ==> #[trigger] old(
                            self,
                        ).quiet(k)
                },
                Ok(Action::Save { row }) => {
                    let k = final(self).position - 1;
                    &&& old(self).position <= k
                    &&& forall|j: int| old(self).position <= j < k ==> #[trigger] old(self).quiet(j)
                    &&& !old(self).quiet(k)
                    &&& old(self).turn(k) matches Move::Record { known } && row_is(
                        row,
                        old(self).paths@[k]@,
                        known,
                    ) && final(self).state@ == old(self).state@.insert(old(self).paths@[k]@, known)
                },
                Ok(action) => {
                    let k = final(self).position as int;
                    &&& old(self).position <= k < old(self).paths@.len()
                    &&& forall|j: int| old(self).position <= j < k ==> #[trigger] old(self).quiet(j)
                    &&& final(self).state == old(self).state
                    &&& action_is(
                        action,
                        old(self).paths@[k]@,
                        old(self).turn(k),
                        at(keyed(remote_rows(old(self).remote@)), old(self).paths@[k]@),
                        at(keyed(local_rows(old(self).local@)), old(self).paths@[k]@),
                    )
                },
                Err(lost) => {
                    let k = final(self).position as int;
                    &&& old(self).position <= k < old(self).paths@.len()
                    &&& forall|j: int| old(self).position <= j < k ==> #[trigger] old(self).quiet(j)
                    &&& final(self).state == old(self).state
                    &&& old(self).turn(k) is Lost
                    &&& lost.path@ == old(self).paths@[k]@
                },
            },
    {
        let ghost start = *self;
        while self.position < self.paths.len()
            invariant
                self.wf(),
                start.position <= self.position,
                self.same_inputs(start),
                self.rescan == start.rescan,
                self.state == start.state,
                *old(self) == start,
                forall|j: int| start.position <= j < self.position ==> #[trigger] start.quiet(j),
            decreases self.paths.len() - self.position,
        {
            let k = self.position;
            let step = self.step(k);
            assert(self.turn(k as int) == start.turn(k as int));
            match step {
                Step::Lost => {
                    return Err(LostMetadata { path: self.paths[k].as_str().to_owned() });
                },
                Step::Skip => {
                    assert(start.quiet(k as int));
                    self.position = k + 1;
                },
                Step::Record { revision, sha256 } => {
                    let settled = match self.state.find(self.paths[k].as_str()) {
                        Some(seen) => seen.revision == revision && same_opt_text(
                            &seen.sha256,
                            &sha256,
                        ),
                        None => false,
                    };
                    if settled {
                        assert(start.quiet(k as int));
                        self.position = k + 1;
                    } else {
                        assert(!start.quiet(k as int));
                        let path = self.paths[k].as_str().to_owned();
                        let row = new_row(path.as_str(), revision, &sha256);
                        self.state.insert(path.as_str(), Seen { revision, sha256 });
                        self.position = k + 1;
                        return Ok(Action::Save { row });
                    }
                },
                other => {
                    return Ok(action_for(self, k, other));
                },
            }
        }
        Ok(Action::Finished { again: self.rescan })
    }

    /// Reports on the current path, which was to be brought to what the server has. Where
    /// that was not done, because something moved meanwhile, the pass ends and asks for
    /// another. Where it was, gives back what is to be written down.
    pub fn applied(&mut self, done: bool) -> (saved: Option<SeenRow>)
        requires
            old(self).wf(),
            old(self).position < old(self).paths@.len(),
            old(self).turn(old(self).position as int) is Apply,
        ensures
            final(self).wf(),
            final(self).same_inputs(*old(self)),
            ({
                let path = old(self).paths@[old(self).position as int]@;
                let entry = keyed(remote_rows(old(self).remote@))[path];
                if done {
                    &&& final(self).position == old(self).position + 1
                    &&& final(self).state@ == noted(old(self).state@, path, entry)
                    &&& final(self).rescan == (old(self).rescan || displaces(
                        entry,
                        path,
                        old(self).local@,
                    ))
                    &&& saved matches Some(row) && row_is(row, path, known_of(entry))
                } else {
                    &&& final(self).position == old(self).paths@.len()
                    &&& final(self).state == old(self).state
                    &&& final(self).rescan
                    &&& saved is None
                }
            }),
    {
        if !done {
            self.position = self.paths.len();
            self.rescan = true;
            return None;
        }
        let k = self.position;
        assert(k < self.paths.len());
        let path = self.paths[k].as_str().to_owned();
        let entry = copy_entry(find_remote(&self.remote, path.as_str()).unwrap());
        let row = new_row(path.as_str(), entry.revision, &entry.sha256);
        if !entry.deleted && any_below(&self.local, path.as_str()) {
            self.rescan = true;
        }
        self.state.insert(path.as_str(), Seen { revision: entry.revision, sha256: entry.sha256 });
        self.position = k + 1;
        Some(row)
    }

    /// Reports what the server answered to the current path, which was sent or deleted.
    /// No entry means that it refused, or that the file was gone: the pass ends and asks
    /// for another.
    pub fn acknowledged(&mut self, answer: Option<Entry>, report: &mut SyncReport) -> (saved: Option<
        SeenRow,
    >)
        requires
            old(self).wf(),
            old(self).position < old(self).paths@.len(),
            old(report).has_room(),
        ensures
            final(self).wf(),
            final(self).same_inputs(*old(self)),
            match answer {
                Some(entry) => {
                    let path = old(self).paths@[old(self).position as int]@;
                    &&& final(self).position == old(self).position + 1
                    &&& final(self).rescan == old(self).rescan
                    &&& final(self).state@ == noted(old(self).state@, path, remote_of(entry))
                    &&& saved matches Some(row) && row_is(row, path, known_of(remote_of(entry)))
                    &&& *final(report) == counting(*old(report), entry.deleted)
                },
                None => {
                    &&& final(self).position == old(self).paths@.len()
                    &&& final(self).state == old(self).state
                    &&& final(self).rescan
                    &&& saved is None
                    &&& *final(report) == *old(report)
                },
            },
    {
        match answer {
            None => {
                self.position = self.paths.len();
                self.rescan = true;
                None
            },
            Some(entry) => {
                if entry.deleted {
                    report.deleted_remote = report.deleted_remote + 1;
                } else {
                    report.uploaded = report.uploaded + 1;
                }
                let k = self.position;
                assert(k < self.paths.len());
                let path = self.paths[k].as_str().to_owned();
                let row = new_row(path.as_str(), entry.revision, &entry.sha256);
                self.state.insert(
                    path.as_str(),
                    Seen { revision: entry.revision, sha256: entry.sha256 },
                );
                self.position = k + 1;
                Some(row)
            },
        }
    }
}

/// A local file that is new work, equal neither to what was seen last nor to what the
/// server has, is never deleted and never replaced without being kept: it is sent, or it
/// is preserved when the server wins, or it moves along with the directory it lies in, or
/// the pass stops.
pub proof fn law_local_work_is_preserved(
    server: Option<Remote>,
    digest: Seq<char>,
    prior: Option<Known>,
    replaced: bool,
)
    requires
        remote_sha(server) != Some(digest),
        prior matches Some(known) ==> known.sha256 != Some(digest),
    ensures
        match decision(server, Some(digest), prior, replaced) {
            Move::Apply { preserve } => preserve,
            Move::Upload { .. } => !replaced,
            Move::Skip => replaced && server is None,
            Move::Lost => server is None && prior is Some,
            Move::Record { .. } => false,
            Move::Delete { .. } => false,
        },
{
}

/// Whatever is sent to the server, a file or a deletion, names as its base the revision
/// that the server reported in this pass, which is the one seen last: a change of the
/// server that the client has not taken over is never overwritten.
pub proof fn law_only_a_seen_revision_is_overwritten(
    server: Option<Remote>,
    observed: Option<Seq<char>>,
    prior: Option<Known>,
    replaced: bool,
)
    ensures
        match decision(server, observed, prior, replaced) {
            Move::Upload { base } => base == remote_revision(server) && base == base_of(prior),
            Move::Delete { base } => {
                &&& base == remote_revision(server)
                &&& base == base_of(prior)
                &&& observed is None
                &&& server is Some
                &&& !server->0.deleted
            },
            _ => true,
        },
{
}

/// What the client sends meets a server that has not moved: a file that may stand at its
/// path is taken exactly where the server still has the revision that it reported, and is
/// refused where another device was faster.
pub proof fn law_upload_is_taken_unless_the_server_moved(
    tree: Tree,
    path: Seq<char>,
    server: Option<Remote>,
    observed: Option<Seq<char>>,
    prior: Option<Known>,
    replaced: bool,
)
    requires
        decision(server, observed, prior, replaced) is Upload,
        path_ok(path),
        namespace_refusal(tree, path) is None,
        !exhausted(tree),
    ensures
        ({
            let base = decision(server, observed, prior, replaced)->Upload_base;
            commit_refusal(tree, path, base) is None <==> revision_at(tree, path)
                == remote_revision(server)
        }),
{
}

/// The pass stops exactly where the server has forgotten a path that the client knows.
pub proof fn law_forgotten_path_stops_the_pass(
    server: Option<Remote>,
    observed: Option<Seq<char>>,
    prior: Option<Known>,
    replaced: bool,
)
    ensures
        decision(server, observed, prior, replaced) is Lost <==> server is None && prior is Some,
{
}

/// Once the folder holds what the server has and this was written down, the path needs
/// nothing more.
pub proof fn law_reconciled_path_is_settled(entry: Remote)
    ensures
        match decision(Some(entry), entry.sha256, Some(known_of(entry)), false) {
            Move::Record { known } => known == known_of(entry),
            Move::Skip => true,
            _ => false,
        },
{
}

/// Where the server, the folder and the notes agree on every path, a pass has nothing to
/// do and nothing to write down.
pub proof fn law_agreement_needs_nothing(pass: SyncPass, k: int)
    requires
        pass.wf(),
        0 <= k < pass.paths@.len(),
        forall|path: Seq<char>| #[trigger]
            known(picture(pass.remote@, pass.local@, pass.state@), path) ==> {
                let r = at(keyed(remote_rows(pass.remote@)), path);
                &&& r is Some
                &&& r->0.revision > 0
                &&& at(keyed(local_rows(pass.local@)), path) == r->0.sha256
                &&& at(pass.state@, path) == Some(known_of(r->0))
            },
        is_plan(picture(pass.remote@, pass.local@, pass.state@), texts(pass.paths@)),
    ensures
        pass.quiet(k),
{
    let p = picture(pass.remote@, pass.local@, pass.state@);
    let path = pass.paths@[k]@;
    assert(texts(pass.paths@)[k] == path);
    assert(texts(pass.paths@).contains(path));
    assert(known(p, path));
}

proof fn lemma_depth_below(path: Seq<char>, directory: Seq<char>)
    requires
        is_below(path, directory),
    ensures
        depth(path) > depth(directory),
    decreases path.len(),
{
    let n = directory.len() as int;
    if path.len() == n + 1 {
        assert(path.drop_last() =~= path.take(n));
        assert(path.last() == path[n]);
    } else {
        let front = path.drop_last();
        assert(front.take(n) =~= path.take(n));
        assert(front[n] == path[n]);
        lemma_depth_below(front, directory);
    }
}

/// Of two paths of one class, what lies in a directory is handled before what stands at
/// the directory's own name.
pub proof fn law_contents_come_before_the_directory(
    p: Picture,
    path: Seq<char>,
    directory: Seq<char>,
)
    requires
        is_below(path, directory),
        class_of(p, path) == class_of(p, directory),
    ensures
        earlier(p, path, directory),
        !earlier(p, directory, path),
{
    lemma_depth_below(path, directory);
}

/// Everything that has to go goes before anything comes in or is sent.
pub proof fn law_deletions_come_first(p: Picture, gone: Seq<char>, other: Seq<char>)
    requires
        deletion(p, gone),
        !deletion(p, other),
    ensures
        earlier(p, gone, other),
        !earlier(p, other, gone),
{
}

/// A plan names no path twice.
pub proof fn law_plan_handles_each_path_once(p: Picture, plan: Seq<Seq<char>>, i: int, j: int)
    requires
        is_plan(p, plan),
        0 <= i < j < plan.len(),
    ensures
        plan[i] != plan[j],
{
    assert(earlier(p, plan[i], plan[j]));
    lemma_precedes_total(plan[i], plan[j]);
}

/// A change on the server is taken over, be it a file or a deletion: wherever the server names
/// a path, the folder does not hold the very same, and the server's revision is not the one
/// that was seen last. The local file is kept exactly where it is there and is not what was
/// seen last.
pub proof fn law_server_change_is_taken_over(
    entry: Remote,
    observed: Option<Seq<char>>,
    prior: Option<Known>,
    replaced: bool,
)
    requires
        !(entry.revision > 0 && observed == entry.sha256),
        match prior {
            Some(known) => known.revision != entry.revision,
            None => entry.revision != 0,
        },
    ensures
        decision(Some(entry), observed, prior, replaced) == (Move::Apply {
            preserve: observed is Some && !(prior matches Some(known) && known.sha256 == observed),
        }),
{
}

/// Where a file of the server takes the place of a directory, whatever the server has below it
/// is taken over too, seen before or not.
pub proof fn law_replaced_path_is_taken_over(
    entry: Remote,
    observed: Option<Seq<char>>,
    prior: Option<Known>,
)
    requires
        !(entry.revision > 0 && observed == entry.sha256),
    ensures
        decision(Some(entry), observed, prior, true) == (Move::Apply {
            preserve: observed is Some && !(prior matches Some(known) && known.sha256 == observed),
        }),
{
}

/// Where both sides hold the same, this is noted, with the server's revision, and nothing is
/// moved.
pub proof fn law_agreement_is_noted(entry: Remote, prior: Option<Known>, replaced: bool)
    requires
        entry.revision > 0,
    ensures
        decision(Some(entry), entry.sha256, prior, replaced) == (Move::Record {
            known: Known { revision: entry.revision, sha256: entry.sha256 },
        }),
{
}

/// A change in the folder goes to the server where the server has not changed since: an edited
/// file is sent on the revision that was seen, the deletion of a live file is sent on it, and
/// where the folder has not changed either, nothing is done.
pub proof fn law_local_change_is_sent(entry: Remote, observed: Option<Seq<char>>, seen: Known)
    requires
        entry.revision == seen.revision,
        !(entry.revision > 0 && observed == entry.sha256),
    ensures
        observed is Some && observed != seen.sha256 ==> decision(
            Some(entry),
            observed,
            Some(seen),
            false,
        ) == (Move::Upload { base: entry.revision }),
        observed is None && seen.sha256 is Some && !entry.deleted ==> decision(
            Some(entry),
            observed,
            Some(seen),
            false,
        ) == (Move::Delete { base: entry.revision }),
        observed == seen.sha256 || (observed is None && entry.deleted) ==> decision(
            Some(entry),
            observed,
            Some(seen),
            false,
        ) == Move::Skip,
{
}

/// A file that neither the server nor the client has seen before is sent as a new one, unless
/// a file of the server takes the place of its directory. Where there is nothing, nothing is
/// done.
pub proof fn law_new_file_is_sent(observed: Option<Seq<char>>, replaced: bool)
    ensures
        observed is Some && !replaced ==> decision(None, observed, None, replaced) == (
        Move::Upload { base: 0 }),
        observed is None || replaced ==> decision(None, observed, None, replaced) == Move::Skip,
{
}

/// What is noted of a path after it was brought to what the server has.
pub proof fn law_what_is_noted(entry: Remote)
    ensures
        known_of(entry).revision == entry.revision,
        known_of(entry).sha256 == entry.sha256,
{
}

/// A path is passed over exactly where nothing is to be done with it, or where what is to be
/// noted is noted already.
pub proof fn law_only_settled_paths_are_passed_over(pass: SyncPass, k: int)
    requires
        pass.wf(),
        0 <= k < pass.paths@.len(),
    ensures
        ({
            let path = pass.paths@[k]@;
            let turn = decision(
                at(keyed(remote_rows(pass.remote@)), path),
                at(keyed(local_rows(pass.local@)), path),
                at(pass.state@, path),
                pass.replaced@[k],
            );
            pass.quiet(k) <==> turn is Skip || (turn matches Move::Record { known } && at(
                pass.state@,
                path,
            ) == Some(known))
        }),
{
}

/// What the caller is asked to do is what was decided: on that path, with the entry that the
/// server has, the digest that the folder has, and the revision that the decision rests on.
pub proof fn law_action_carries_the_decision(
    action: Action,
    path: Seq<char>,
    turn: Move,
    server: Option<Remote>,
    observed: Option<Seq<char>>,
)
    requires
        action_is(action, path, turn, server, observed),
    ensures
        match action {
            Action::Apply { entry, observed: seen, preserve } => {
                &&& entry.path@ == path
                &&& server == Some(
                    Remote {
                        revision: entry.revision as int,
                        sha256: opt_text(entry.sha256),
                        size: match entry.size {
                            Some(n) => Some(n as int),
                            None => None,
                        },
                        deleted: entry.deleted,
                    },
                )
                &&& opt_text(seen) == observed
                &&& turn == (Move::Apply { preserve })
            },
            Action::Upload { path: named, base, sha256 } => named@ == path && turn == (
            Move::Upload { base: base as int }) && observed == Some(sha256@),
            Action::Delete { path: named, base } => named@ == path && turn == (Move::Delete {
                base: base as int,
            }),
            Action::Save { row } => turn == (Move::Record { known: row.seen@ }) && row.path@ == path,
            Action::Finished { .. } => false,
        },
{
}

/// Every decision that asks for work leads to an action.
pub proof fn law_every_decision_can_be_carried_out(
    action: Action,
    path: Seq<char>,
    turn: Move,
    server: Option<Remote>,
    observed: Option<Seq<char>>,
)
    ensures
        (match (turn, action) {
            (
                Move::Apply { preserve },
                Action::Apply { entry, observed: seen, preserve: keep },
            ) => entry.path@ == path && server == Some(remote_of(entry)) && opt_text(seen) == observed
                && keep == preserve,
            (Move::Upload { base }, Action::Upload { path: named, base: from, sha256 }) => named@
                == path && from == base && observed == Some(sha256@),
            (Move::Delete { base }, Action::Delete { path: named, base: from }) => named@ == path
                && from == base,
            (Move::Record { known }, Action::Save { row }) => row.path@ == path && row.seen@ == known,
            _ => false,
        }) ==> action_is(action, path, turn, server, observed),
{
}

/// How deep a path lies: as many directories as it has slashes.
pub proof fn law_depth_counts_slashes(path: Seq<char>)
    ensures
        depth(path) == path.filter(|c: char| c == '/').len(),
    decreases path.len(),
{
    reveal(Seq::filter);
    if path.len() > 0 {
        law_depth_counts_slashes(path.drop_last());
    }
}

/// What was deleted on the server, and not taken over yet or gone here too, is handled before
/// every file that stands in the folder and is not deleted on the server.
pub proof fn law_server_deletions_are_handled_first(p: Picture, gone: Seq<char>, other: Seq<char>)
    requires
        p.remote.contains_key(gone),
        p.remote[gone].deleted,
        !p.local.contains_key(gone) || !(p.state.contains_key(gone) && p.state[gone].revision
            == p.remote[gone].revision),
        p.local.contains_key(other),
        p.remote.contains_key(other) ==> !p.remote[other].deleted,
    ensures
        earlier(p, gone, other),
        !earlier(p, other, gone),
{
}

/// What was deleted in the folder is handled before every file that stands in the folder and is
/// not deleted on the server.
pub proof fn law_local_deletions_are_handled_first(p: Picture, gone: Seq<char>, other: Seq<char>)
    requires
        !p.local.contains_key(gone),
        p.state.contains_key(gone),
        p.state[gone].sha256 is Some,
        p.local.contains_key(other),
        p.remote.contains_key(other) ==> !p.remote[other].deleted,
    ensures
        earlier(p, gone, other),
        !earlier(p, other, gone),
{
}

/// What was deleted on either side is handled before a new file of the server comes in.
pub proof fn law_new_files_wait_for_deletions(p: Picture, gone: Seq<char>, fresh: Seq<char>)
    requires
        (p.remote.contains_key(gone) && p.remote[gone].deleted && !(p.state.contains_key(gone)
            && p.state[gone].revision == p.remote[gone].revision)) || (!p.local.contains_key(gone)
            && p.state.contains_key(gone) && p.state[gone].sha256 is Some),
        p.remote.contains_key(fresh),
        !p.remote[fresh].deleted,
        !p.state.contains_key(fresh),
    ensures
        earlier(p, gone, fresh),
        !earlier(p, fresh, gone),
{
}

/// What is new on the server is handled before what stands in the folder alone or is known in
/// the server's revision.
pub proof fn law_incoming_files_come_before_the_rest(
    p: Picture,
    fresh: Seq<char>,
    other: Seq<char>,
)
    requires
        p.remote.contains_key(fresh),
        !p.remote[fresh].deleted,
        !(p.state.contains_key(fresh) && p.state[fresh].revision == p.remote[fresh].revision),
        p.local.contains_key(fresh) || !p.state.contains_key(fresh),
        p.local.contains_key(other),
        p.remote.contains_key(other) ==> !p.remote[other].deleted && p.state.contains_key(other)
            && p.state[other].revision == p.remote[other].revision,
    ensures
        earlier(p, fresh, other),
        !earlier(p, other, fresh),
{
}

/// A path counts as replaced exactly where a live file of the server that was not seen in this
/// revision stands where one of its directories would be.
pub proof fn law_replaced_means_a_file_is_in_the_way(p: Picture, path: Seq<char>)
    ensures
        replaced(p, path) <==> exists|a: Seq<char>|
            p.remote.contains_key(a) && !(#[trigger] p.remote[a]).deleted && !(
            p.state.contains_key(a) && p.state[a].revision == p.remote[a].revision) && is_below(
                path,
                a,
            ),
{
    if replaced(p, path) {
        let a = choose|a: Seq<char>| #[trigger] incoming(p, a) && is_below(path, a);
        assert(!p.remote[a].deleted);
    }
    if exists|a: Seq<char>|
        p.remote.contains_key(a) && !(#[trigger] p.remote[a]).deleted && !(p.state.contains_key(a)
            && p.state[a].revision == p.remote[a].revision) && is_below(path, a) {
        let a = choose|a: Seq<char>|
            p.remote.contains_key(a) && !(#[trigger] p.remote[a]).deleted && !(
            p.state.contains_key(a) && p.state[a].revision == p.remote[a].revision) && is_below(
                path,
                a,
            );
        assert(incoming(p, a));
    }
}

/// A plan names every path that the server, the folder or the notes speak of, and no other.
pub proof fn law_plan_leaves_nothing_out(p: Picture, plan: Seq<Seq<char>>, path: Seq<char>)
    requires
        is_plan(p, plan),
    ensures
        plan.contains(path) <==> p.remote.contains_key(path) || p.local.contains_key(path)
            || p.state.contains_key(path),
{
    assert(plan.contains(path) <==> known(p, path));
}

/// Of two paths in a plan the one that has to be handled sooner stands before the other.
pub proof fn law_plan_is_in_order(p: Picture, plan: Seq<Seq<char>>, i: int, j: int)
    requires
        is_plan(p, plan),
        0 <= i < plan.len(),
        0 <= j < plan.len(),
        earlier(p, plan[i], plan[j]),
        !earlier(p, plan[j], plan[i]),
    ensures
        i < j,
{
    if j < i {
        assert(earlier(p, plan[j], plan[i]));
    }
}

/// A journal that is replayed gives each path that it names what its last record says, and
/// leaves every other path as it was.
pub proof fn law_replay_takes_the_last_record(
    state: Map<Seq<char>, Known>,
    journal: Seq<(Seq<char>, Known)>,
    path: Seq<char>,
    i: int,
)
    ensures
        0 <= i < journal.len() && journal[i].0 == path && (forall|j: int|
            i < j < journal.len() ==> (#[trigger] journal[j]).0 != path) ==> at(
            replayed(state, journal),
            path,
        ) == Some(journal[i].1),
        (forall|j: int| 0 <= j < journal.len() ==> (#[trigger] journal[j]).0 != path) ==> at(
            replayed(state, journal),
            path,
        ) == if state.contains_key(path) {
            Some(state[path])
        } else {
            None
        },
    decreases journal.len(),
{
    if journal.len() > 0 {
        let front = journal.drop_last();
        law_replay_takes_the_last_record(state, front, path, i);
        assert forall|j: int| 0 <= j < front.len() implies front[j] == journal[j] by {}
        assert(journal.last() == journal[journal.len() - 1]);
        if forall|j: int| 0 <= j < journal.len() ==> (#[trigger] journal[j]).0 != path {
            assert forall|j: int| 0 <= j < front.len() implies (#[trigger] front[j]).0 != path by {
                assert(front[j] == journal[j]);
            }
        }
        if 0 <= i < front.len() && (forall|j: int|
            i < j < journal.len() ==> (#[trigger] journal[j]).0 != path) {
            assert forall|j: int| i < j < front.len() implies (#[trigger] front[j]).0 != path by {
                assert(front[j] == journal[j]);
            }
        }
    }
}

/// What was brought to the server's state is noted with the server's revision and digest, and
/// the notes on every other path stay; with the same folder, the next pass then has nothing
/// to do there.
pub proof fn law_noted_path_is_settled(
    state: Map<Seq<char>, Known>,
    path: Seq<char>,
    entry: Remote,
    other: Seq<char>,
)
    requires
        entry.revision > 0,
    ensures
        at(noted(state, path, entry), path) == Some(
            Known { revision: entry.revision, sha256: entry.sha256 },
        ),
        other != path ==> at(noted(state, path, entry), other) == at(state, other),
        decision(Some(entry), entry.sha256, at(noted(state, path, entry), path), false)
            matches Move::Record { known } && at(noted(state, path, entry), path) == Some(known),
{
}

/// Another pass is asked for where a live file has come to stand above files of the folder, and
/// not after a deletion.
pub proof fn law_displaced_files_ask_for_another_pass(
    entry: Remote,
    path: Seq<char>,
    local: Seq<LocalFile>,
    i: int,
)
    ensures
        entry.deleted ==> !displaces(entry, path, local),
        !entry.deleted && 0 <= i < local.len() && is_below(local[i].path@, path) ==> displaces(
            entry,
            path,
            local,
        ),
        (forall|j: int| 0 <= j < local.len() ==> !is_below((#[trigger] local[j]).path@, path))
            ==> !displaces(entry, path, local),
{
}

/// What the server has taken is counted once, as an upload or as a deletion.
pub proof fn law_answers_are_counted(report: SyncReport, deletion: bool)
    requires
        report.uploaded < usize::MAX,
        report.deleted_remote < usize::MAX,
    ensures
        counting(report, deletion).uploaded + counting(report, deletion).deleted_remote
            == report.uploaded + report.deleted_remote + 1,
        counting(report, true).uploaded == report.uploaded,
        counting(report, false).deleted_remote == report.deleted_remote,
        counting(report, deletion).downloaded == report.downloaded,
        counting(report, deletion).deleted_local == report.deleted_local,
        counting(report, deletion).conflicts == report.conflicts,
{
}

/// Of two paths the one of the lower class comes first, among equals the deeper one, and among
/// these the one whose name comes first; so no two paths change places.
pub proof fn law_order_is_by_class_depth_and_name(
    class_a: int,
    depth_a: nat,
    a: Seq<char>,
    class_b: int,
    depth_b: nat,
    b: Seq<char>,
)
    ensures
        class_a < class_b ==> sooner(class_a, depth_a, a, class_b, depth_b, b),
        class_a == class_b && depth_a > depth_b ==> sooner(
            class_a,
            depth_a,
            a,
            class_b,
            depth_b,
            b,
        ),
        class_a == class_b && depth_a == depth_b ==> (sooner(
            class_a,
            depth_a,
            a,
            class_b,
            depth_b,
            b,
        ) <==> precedes(a, b)),
        !(sooner(class_a, depth_a, a, class_b, depth_b, b) && sooner(
            class_b,
            depth_b,
            b,
            class_a,
            depth_a,
            a,
        )),
{
    lemma_precedes_total(a, b);
}

} // verus!
