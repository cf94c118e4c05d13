//! Names in the mirrored folder: how a path is walked, what a scan takes in, and where
//! recovery copies go.
use vstd::prelude::*;
use vstd::utf8::*;

use crate::digest::{is_hex_of, lemma_hex_of, random_uuid};
use crate::model::{path_ok, valid_path};
use crate::text::{byte_len, joined, pieces, same_text, split_text, texts};

verus! {

/// The directory of recovery copies.
pub const CONFLICTS: &'static str = ".mysync-conflicts";

/// The directory of files that are coming down.
pub const STAGING: &'static str = ".mysync-staging";

/// Why a name is not used.
pub enum FsError {
    InvalidPath { path: String },
    InvalidConflictPath { path: String },
    InvalidName { path: String },
}

impl View for FsError {
    type V = Seq<char>;

    /// What the user reads.
    open spec fn view(&self) -> Seq<char> {
        match *self {
            FsError::InvalidPath { path } => "invalid mirror path: "@ + path@,
            FsError::InvalidConflictPath { path } => "invalid conflict path: "@ + path@,
            FsError::InvalidName { path } => "invalid filename in sync folder: "@ + path@,
        }
    }
}

impl FsError {
    /// What the user reads.
    pub fn message(&self) -> (text: String)
        ensures
            text@ == self@,
    {
        match self {
            FsError::InvalidPath { path } => joined("invalid mirror path: ", path.as_str()),
            FsError::InvalidConflictPath { path } => joined(
                "invalid conflict path: ",
                path.as_str(),
            ),
            FsError::InvalidName { path } => joined(
                "invalid filename in sync folder: ",
                path.as_str(),
            ),
        }
    }
}

pub open spec fn fs_ends<T>(result: Result<T, FsError>, error: Option<Seq<char>>) -> bool {
    match result {
        Ok(_) => error is None,
        Err(e) => error == Some(e@),
    }
}

/// The names to open one after the other, each relative to the one before; the last is the
/// file itself.
pub fn components(path: &str) -> (result: Result<Vec<String>, FsError>)
    ensures
        fs_ends(
            result,
            if path_ok(path@) {
                None
            } else {
                Some("invalid mirror path: "@ + path@)
            },
        ),
        result matches Ok(names) ==> texts(names@) == pieces(path@, '/') && names@.len() > 0,
{
    if !valid_path(path) {
        return Err(FsError::InvalidPath { path: path.to_owned() });
    }
    Ok(split_text(path, '/'))
}

/// What a directory entry is.
#[derive(Clone, Copy, Debug, PartialEq, Eq, Structural)]
pub enum ItemKind {
    Directory,
    File,
    Other,
}

/// What a scan does with a directory entry.
pub enum Visit {
    /// Pass over it.
    Skip,
    /// Look into it later.
    Descend,
    /// Take the file in, under this path.
    Read { path: String },
}

/// A scan of the folder, or of its recovery copies.
pub struct Walk {
    conflicts: bool,
    pending: Vec<String>,
}

/// The path of a name in a directory, where the folder itself is the empty path.
pub open spec fn inside(directory: Seq<char>, name: Seq<char>) -> Seq<char> {
    if directory.len() == 0 {
        name
    } else {
        directory + "/"@ + name
    }
}

/// A name that a scan does not even look at.
pub open spec fn passed_over(conflicts: bool, name: Seq<char>) -> bool {
    name == "."@ || name == ".."@ || (!conflicts && (name == ".mysync-conflicts"@ || name
        == ".mysync-staging"@))
}

/// A scan fails at this path.
pub open spec fn unusable(conflicts: bool, path: Seq<char>) -> bool {
    (!conflicts && !path_ok(path)) || encode_utf8(path).len() > 8192
}

impl Walk {
    pub closed spec fn of_conflicts(self) -> bool {
        self.conflicts
    }

    /// The directories still to be looked into, the next one last.
    pub closed spec fn waiting(self) -> Seq<Seq<char>> {
        texts(self.pending@)
    }

    /// Begins at the folder, or at the directory of recovery copies.
    pub fn new(conflicts: bool) -> (walk: Self)
        ensures
            walk.of_conflicts() == conflicts,
            walk.waiting() == seq![
                if conflicts {
                    ".mysync-conflicts"@
                } else {
                    Seq::<char>::empty()
                },
            ],
    {
        proof {
            reveal_strlit("");
        }
        let start = if conflicts {
            CONFLICTS.to_owned()
        } else {
            "".to_owned()
        };
        let mut pending: Vec<String> = Vec::new();
        pending.push(start);
        let walk = Walk { conflicts, pending };
        assert(start@ =~= if conflicts {
            ".mysync-conflicts"@
        } else {
            Seq::<char>::empty()
        });
        assert(walk.waiting() =~= seq![start@]);
        walk
    }

    /// The next directory to look into.
    pub fn next(&mut self) -> (directory: Option<String>)
        ensures
            final(self).of_conflicts() == old(self).of_conflicts(),
            match directory {
                Some(path) => old(self).waiting().len() > 0 && path@ == old(self).waiting().last()
                    && final(self).waiting() == old(self).waiting().drop_last(),
                None => old(self).waiting().len() == 0 && final(self).waiting() == old(self).waiting(),
            },
    {
        let ghost before = self.pending@;
        let directory = self.pending.pop();
        proof {
            if before.len() > 0 {
                assert(texts(self.pending@) =~= texts(before).drop_last());
            }
        }
        directory
    }

    /// Says what to do with an entry of a directory, and keeps its directories for later.
    pub fn offer(&mut self, directory: &str, name: &str, kind: ItemKind) -> (result: Result<
        Visit,
        FsError,
    >)
        ensures
            final(self).of_conflicts() == old(self).of_conflicts(),
            ({
                let path = inside(directory@, name@);
                let skipped = passed_over(old(self).of_conflicts(), name@) || kind
                    == ItemKind::Other;
                let failed = !skipped && unusable(old(self).of_conflicts(), path);
                &&& fs_ends(
                    result,
                    if failed {
                        Some("invalid filename in sync folder: "@ + path)
                    } else {
                        None
                    },
                )
                &&& match result {
                    Ok(Visit::Skip) => skipped && final(self).waiting() == old(self).waiting(),
                    Ok(Visit::Descend) => !skipped && kind == ItemKind::Directory && final(self).waiting() == old(self).waiting().push(path),
                    Ok(Visit::Read { path: named }) => !skipped && kind == ItemKind::File && named@
                        == path && final(self).waiting() == old(self).waiting(),
                    Err(_) => final(self).waiting() == old(self).waiting(),
                }
            }),
    {
        if same_text(name, ".") || same_text(name, "..") || (!self.conflicts && (same_text(
            name,
            CONFLICTS,
        ) || same_text(name, STAGING))) {
            return Ok(Visit::Skip);
        }
        if kind == ItemKind::Other {
            return Ok(Visit::Skip);
        }
        let path = if directory.is_empty() {
            name.to_owned()
        } else {
            joined(joined(directory, "/").as_str(), name)
        };
        assert(path@ == inside(directory@, name@));
        if (!self.conflicts && !valid_path(path.as_str())) || byte_len(path.as_str()) > 8192 {
            return Err(FsError::InvalidName { path });
        }
        if kind == ItemKind::Directory {
            let ghost before = self.pending@;
            let ghost named = path@;
            self.pending.push(path);
            assert(texts(self.pending@) =~= texts(before).push(named));
            Ok(Visit::Descend)
        } else {
            Ok(Visit::Read { path })
        }
    }
}

/// Where a recovery copy goes.
pub struct ConflictPlace {
    /// The directories below that of the recovery copies.
    pub parents: Vec<String>,
    pub name: String,
    /// The path that the user is shown.
    pub display: String,
}

/// The longest beginning of `name` that takes at most `most` bytes.
pub open spec fn cut(name: Seq<char>, most: nat) -> Seq<char>
    decreases name.len(),
{
    if name.len() == 0 || encode_utf8(name).len() <= most {
        name
    } else {
        cut(name.drop_last(), most)
    }
}

/// The end of the name of a recovery copy.
pub open spec fn conflict_suffix(unique: Seq<char>) -> Seq<char> {
    ".conflict-"@ + unique
}

/// The name of a recovery copy: that of the file, cut so that a unique end fits.
pub open spec fn conflict_name(path: Seq<char>, unique: Seq<char>) -> Seq<char> {
    cut(pieces(path, '/').last(), (245 - unique.len()) as nat) + conflict_suffix(unique)
}

pub open spec fn conflict_display(path: Seq<char>, unique: Seq<char>) -> Seq<char> {
    ".mysync-conflicts/"@ + path.take(path.len() - pieces(path, '/').last().len())
        + conflict_name(path, unique)
}

pub open spec fn place_is(place: ConflictPlace, path: Seq<char>, unique: Seq<char>) -> bool {
    &&& texts(place.parents@) == pieces(path, '/').drop_last()
    &&& place.name@ == conflict_name(path, unique)
    &&& place.display@ == conflict_display(path, unique)
}

proof fn lemma_last_piece(s: Seq<char>, separator: char)
    ensures
        pieces(s, separator).len() > 0,
        pieces(s, separator).last().len() <= s.len(),
        s.skip(s.len() - pieces(s, separator).last().len()) == pieces(s, separator).last(),
    decreases s.len(),
{
    let last = pieces(s, separator).last();
    if s.len() == 0 {
        assert(s.skip(0) =~= last);
    } else {
        let front = s.drop_last();
        lemma_last_piece(front, separator);
        let before = pieces(front, separator).last();
        if s.last() != separator {
            assert(last == before.push(s.last()));
            let k = s.len() - last.len();
            assert(front.len() - before.len() == k);
            assert(s.skip(k) =~= front.skip(k).push(s.last()));
        } else {
            assert(s.skip(s.len() as int) =~= last);
        }
    }
}

fn cut_name(name: &str, most: usize) -> (short: String)
    ensures
        short@ == cut(name@, most as nat),
{
    let mut n: usize = name.unicode_len();
    assert(name@.take(n as int) =~= name@);
    while n > 0 && byte_len(name.substring_char(0, n)) > most
        invariant
            n <= name@.len(),
            cut(name@.take(n as int), most as nat) == cut(name@, most as nat),
        decreases n,
    {
        proof {
            assert(name@.take(n as int) =~= name@.subrange(0, n as int));
            assert(name@.take(n as int).drop_last() =~= name@.take(n - 1));
        }
        n -= 1;
    }
    assert(name@.take(n as int) =~= name@.subrange(0, n as int));
    name.substring_char(0, n).to_owned()
}

/// Where the recovery copy of a path goes, with a text that makes its name unique.
pub fn conflict_place(path: &str, unique: &str) -> (result: Result<ConflictPlace, FsError>)
    requires
        unique@.len() <= 245,
    ensures
        fs_ends(
            result,
            if path_ok(path@) {
                None
            } else {
                Some("invalid conflict path: "@ + path@)
            },
        ),
        result matches Ok(place) ==> place_is(place, path@, unique@),
{
    if !valid_path(path) {
        return Err(FsError::InvalidConflictPath { path: path.to_owned() });
    }
    let mut parents = split_text(path, '/');
    let ghost all = parents@;
    let length = parents.len();
    let filename = parents.pop().unwrap();
    proof {
        lemma_last_piece(path@, '/');
        assert(texts(parents@) =~= pieces(path@, '/').drop_last());
        assert(texts(all).last() == all.last()@);
    }
    let short = cut_name(filename.as_str(), 245 - unique.unicode_len());
    let suffix = joined(".conflict-", unique);
    let name = joined(short.as_str(), suffix.as_str());
    let head: usize = path.unicode_len() - filename.as_str().unicode_len();
    let folder = path.substring_char(0, head);
    assert(folder@ =~= path@.take(head as int));
    let shown = joined(joined(".mysync-conflicts/", folder).as_str(), name.as_str());
    Ok(ConflictPlace { parents, name, display: shown })
}

/// Where the next recovery copy of a path goes: its name ends in 32 random
/// lower-case hexadecimal digits, and fits in the bytes that a name may take.
pub fn conflict_entry(path: &str) -> (result: Result<ConflictPlace, FsError>)
    ensures
        fs_ends(
            result,
            if path_ok(path@) {
                None
            } else {
                Some("invalid conflict path: "@ + path@)
            },
        ),
        result matches Ok(place) ==> exists|unique: Seq<char>|
            is_hex_of(unique, 16) && #[trigger] place_is(place, path@, unique),
        result matches Ok(place) ==> encode_utf8(place.name@).len() <= 255,
{
    let unique = random_uuid();
    proof {
        lemma_hex_of(unique@, 16);
        law_conflict_name_fits(path@, unique@);
    }
    let result = conflict_place(path, unique.as_str());
    assert(result matches Ok(place) ==> place_is(place, path@, unique@));
    result
}

proof fn lemma_utf8_concat(a: Seq<char>, b: Seq<char>)
    ensures
        encode_utf8(a + b) == encode_utf8(a) + encode_utf8(b),
    decreases a.len(),
{
    if a.len() == 0 {
        assert(a + b =~= b);
        assert(encode_utf8(a) + encode_utf8(b) =~= encode_utf8(b));
    } else {
        assert((a + b).drop_first() =~= a.drop_first() + b);
        assert((a + b).first() == a.first());
        lemma_utf8_concat(a.drop_first(), b);
        assert(encode_utf8(a + b) =~= encode_utf8(a) + encode_utf8(b));
    }
}

proof fn lemma_cut_fits(name: Seq<char>, most: nat)
    ensures
        encode_utf8(cut(name, most)).len() <= most,
        cut(name, most).len() <= name.len(),
        cut(name, most) == name.take(cut(name, most).len() as int),
    decreases name.len(),
{
    if name.len() == 0 {
        assert(encode_utf8(name).len() == 0);
        assert(name.take(0) =~= name);
    } else if encode_utf8(name).len() <= most {
        assert(name.take(name.len() as int) =~= name);
    } else {
        lemma_cut_fits(name.drop_last(), most);
        let short = cut(name, most);
        assert(name.drop_last().take(short.len() as int) =~= name.take(short.len() as int));
    }
}

/// However long the name of a file is, that of its recovery copy fits in the 255 bytes
/// that a name may take.
pub proof fn law_conflict_name_fits(path: Seq<char>, unique: Seq<char>)
    requires
        unique.len() <= 245,
        is_ascii_chars(unique),
    ensures
        encode_utf8(conflict_name(path, unique)).len() <= 255,
{
    let short = cut(pieces(path, '/').last(), (245 - unique.len()) as nat);
    lemma_cut_fits(pieces(path, '/').last(), (245 - unique.len()) as nat);
    lemma_utf8_concat(short, conflict_suffix(unique));
    lemma_utf8_concat(".conflict-"@, unique);
    reveal_strlit(".conflict-");
    is_ascii_chars_encode_utf8(unique);
    is_ascii_chars_encode_utf8(".conflict-"@);
}

/// Two recovery copies of one path never share a name.
pub proof fn law_conflict_names_differ(path: Seq<char>, first: Seq<char>, second: Seq<char>)
    requires
        first != second,
        first.len() == second.len(),
    ensures
        conflict_name(path, first) != conflict_name(path, second),
{
    let short = cut(pieces(path, '/').last(), (245 - first.len()) as nat);
    let a = conflict_name(path, first);
    let b = conflict_name(path, second);
    let n = short.len() + ".conflict-"@.len();
    assert(a.skip(n as int) =~= first);
    assert(b.skip(n as int) =~= second);
}

/// What the watcher saw.
#[derive(Clone, Copy, Debug, PartialEq, Eq, Structural)]
pub enum WatchKind {
    /// Something was opened, read or closed after reading.
    Access,
    /// A file that was open for writing was closed.
    WriteClose,
    /// Anything else.
    Change,
}

/// One report of the watcher.
pub struct WatchEvent {
    /// Reports were lost.
    pub rescan: bool,
    pub kind: WatchKind,
    /// For each path, the first name below the folder, where there is one.
    pub places: Vec<Option<String>>,
}

/// A place that only the client itself writes to.
pub open spec fn reserved(place: Option<Seq<char>>) -> bool {
    place == Some(".mysync-conflicts"@) || place == Some(".mysync-staging"@)
}

pub open spec fn place_at(event: WatchEvent, i: int) -> Option<Seq<char>> {
    crate::text::opt_text(event.places@[i])
}

/// A report that calls for a pass: something may have been lost, or something that is not
/// the client's own was changed.
pub open spec fn calls_for_pass(event: WatchEvent) -> bool {
    event.rescan || (event.kind != WatchKind::Access && (event.places@.len() == 0 || exists|i: int|
        0 <= i < event.places@.len() && !reserved(#[trigger] place_at(event, i))))
}

/// Whether a report of the watcher calls for a pass.
pub fn actionable(event: &WatchEvent) -> (yes: bool)
    ensures
        yes == calls_for_pass(*event),
{
    if event.rescan {
        return true;
    }
    if event.kind == WatchKind::Access {
        return false;
    }
    if event.places.len() == 0 {
        return true;
    }
    let mut i: usize = 0;
    while i < event.places.len()
        invariant
            i <= event.places.len(),
            event.kind != WatchKind::Access,
            !event.rescan,
            event.places@.len() > 0,
            forall|j: int| 0 <= j < i ==> reserved(#[trigger] place_at(*event, j)),
        decreases event.places.len() - i,
    {
        let own = match &event.places[i] {
            Some(name) => same_text(name.as_str(), CONFLICTS) || same_text(name.as_str(), STAGING),
            None => false,
        };
        assert(own == reserved(place_at(*event, i as int)));
        if !own {
            return true;
        }
        i += 1;
    }
    false
}

/// The path of an item is its directory, a slash and its name; at the top it is the name.
pub proof fn law_item_has_its_path(directory: Seq<char>, name: Seq<char>)
    ensures
        directory.len() == 0 ==> inside(directory, name) == name,
        directory.len() > 0 ==> inside(directory, name) == directory + "/"@ + name,
{
}

/// A walk passes over the two names of every directory and, in the mirror, over the folders that
/// the client keeps there for itself; over nothing else.
pub proof fn law_walk_passes_over_its_own_folders(conflicts: bool, name: Seq<char>)
    ensures
        passed_over(conflicts, "."@) && passed_over(conflicts, ".."@),
        passed_over(false, ".mysync-conflicts"@) && passed_over(false, ".mysync-staging"@),
        passed_over(false, name) ==> name == "."@ || name == ".."@ || name == ".mysync-conflicts"@
            || name == ".mysync-staging"@,
        passed_over(true, name) ==> name == "."@ || name == ".."@,
{
}

/// A path of the mirror is usable exactly where it is acceptable and takes 8192 bytes at most;
/// one among the conflicts where it is short enough.
pub proof fn law_acceptable_path_is_usable(path: Seq<char>)
    ensures
        !unusable(false, path) <==> path_ok(path) && encode_utf8(path).len() <= 8192,
        !unusable(true, path) <==> encode_utf8(path).len() <= 8192,
{
}

/// A name is cut to what fits: to a beginning of it, and to the longest that fits.
pub proof fn law_name_is_cut_to_what_fits(name: Seq<char>, most: nat, longer: int)
    ensures
        cut(name, most).is_prefix_of(name),
        encode_utf8(name).len() <= most ==> cut(name, most) == name,
        cut(name, most).len() < longer <= name.len() ==> encode_utf8(name.take(longer)).len() > most,
    decreases name.len(),
{
    if name.len() == 0 || encode_utf8(name).len() <= most {
        assert(name.is_prefix_of(name));
    } else {
        let shorter = name.drop_last();
        law_name_is_cut_to_what_fits(shorter, most, longer);
        let kept = cut(shorter, most);
        assert(shorter.subrange(0, kept.len() as int) =~= name.subrange(0, kept.len() as int));
        if longer == name.len() {
            assert(name.take(longer) =~= name);
        } else if 0 <= longer < name.len() {
            assert(name.take(longer) =~= shorter.take(longer));
        }
    }
}

/// The copy of a file is named after the file, or after the beginning of its name where that is
/// too long, and stands below the folder of the copies where the file stood in the mirror.
pub proof fn law_copy_is_named_after_its_file(path: Seq<char>, unique: Seq<char>)
    ensures
        ({
            let file = pieces(path, '/').last();
            let kept = conflict_name(path, unique).take(
                conflict_name(path, unique).len() - (".conflict-"@ + unique).len(),
            );
            &&& conflict_name(path, unique) == kept + ".conflict-"@ + unique
            &&& kept.is_prefix_of(file)
            &&& encode_utf8(file).len() + unique.len() <= 245 ==> conflict_name(path, unique)
                == file + ".conflict-"@ + unique
            &&& conflict_display(path, unique) == ".mysync-conflicts/"@ + path.take(
                path.len() - file.len(),
            ) + conflict_name(path, unique)
        }),
{
    let file = pieces(path, '/').last();
    let most = (245 - unique.len()) as nat;
    let name = conflict_name(path, unique);
    law_name_is_cut_to_what_fits(file, most, 0);
    let kept = name.take(name.len() - (".conflict-"@ + unique).len());
    assert(kept =~= cut(file, most));
    assert(name =~= kept + ".conflict-"@ + unique);
    if encode_utf8(file).len() + unique.len() <= 245 {
        assert(name =~= file + ".conflict-"@ + unique);
    }
}

/// A change calls for a pass where it asks for a new look at everything, or where it is more
/// than a read and one of its places, if any is named, is the user's own.
pub proof fn law_changes_of_the_user_call_for_a_pass(event: WatchEvent)
    ensures
        event.rescan ==> calls_for_pass(event),
        !event.rescan && event.kind == WatchKind::Access ==> !calls_for_pass(event),
        event.kind != WatchKind::Access && event.places@.len() == 0 ==> calls_for_pass(event),
        !event.rescan && event.kind != WatchKind::Access && event.places@.len() > 0 ==> (
        calls_for_pass(event) <==> exists|i: int|
            0 <= i < event.places@.len() && #[trigger] place_at(event, i) != Some(
                ".mysync-conflicts"@,
            ) && place_at(event, i) != Some(".mysync-staging"@)),
{
    if !event.rescan && event.kind != WatchKind::Access && event.places@.len() > 0 {
        if calls_for_pass(event) {
            let i = choose|i: int|
                0 <= i < event.places@.len() && !reserved(#[trigger] place_at(event, i));
            assert(place_at(event, i) != Some(".mysync-conflicts"@));
        } else if exists|i: int|
            0 <= i < event.places@.len() && #[trigger] place_at(event, i) != Some(
                ".mysync-conflicts"@,
            ) && place_at(event, i) != Some(".mysync-staging"@) {
            let i = choose|i: int|
                0 <= i < event.places@.len() && #[trigger] place_at(event, i) != Some(
                    ".mysync-conflicts"@,
                ) && place_at(event, i) != Some(".mysync-staging"@);
            assert(!reserved(place_at(event, i)));
        }
    }
}

} // verus!
