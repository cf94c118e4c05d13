//! The server's tree of files as a mathematical object: what each request does
//! to it, when a request is refused, and what always holds.
use vstd::prelude::*;

use crate::model::{is_below, path_ok, UPLOAD_CHUNK_BYTES};
use crate::text::is_hex_digit;

verus! {

/// Deleted files can be restored for this long.
pub const RETENTION_SECONDS: i64 = 2592000;

/// An upload session that nobody touches lasts this long.
pub const UPLOAD_SESSION_SECONDS: i64 = 86400;

/// Upload sessions that one device may hold open.
pub const MAX_UPLOAD_SESSIONS_PER_DEVICE: usize = 16;

/// Why a request is turned down: an HTTP status and a message.
pub struct Refusal {
    pub status: int,
    pub message: Seq<char>,
}

/// What the server keeps under a path. A deleted path keeps only its revision.
pub struct Record {
    pub revision: int,
    pub blob: Option<Seq<char>>,
    pub sha256: Option<Seq<char>>,
    pub size: Option<int>,
    pub deleted: bool,
}

/// A deleted file that can still be restored.
pub struct Trashed {
    pub id: int,
    pub path: Seq<char>,
    pub blob: Seq<char>,
    pub sha256: Seq<char>,
    pub size: int,
    pub deleted_at: int,
    pub expires_at: int,
}

/// An upload in several requests.
pub struct Upload {
    pub id: Seq<char>,
    pub device: int,
    pub path: Seq<char>,
    pub base_revision: int,
    pub size: int,
    pub sha256: Seq<char>,
    pub offset: int,
    pub temp_name: Seq<char>,
    pub touched_at: int,
}

/// The whole tree. `generation` is the last revision that was handed out.
pub struct Tree {
    pub generation: int,
    pub entries: Map<Seq<char>, Record>,
    pub trash: Seq<Trashed>,
    pub uploads: Seq<Upload>,
}

pub open spec fn refusal(status: int, message: Seq<char>) -> Refusal {
    Refusal { status, message }
}

pub open spec fn bad(message: Seq<char>) -> Refusal {
    refusal(400, message)
}

pub open spec fn conflict(message: Seq<char>) -> Refusal {
    refusal(409, message)
}

pub open spec fn internal() -> Refusal {
    refusal(500, "internal server error"@)
}

/// A file that is there and not deleted.
pub open spec fn live(tree: Tree, path: Seq<char>) -> bool {
    tree.entries.contains_key(path) && !tree.entries[path].deleted
}

/// Some live file stands where `path` needs a directory.
pub open spec fn under_live_file(tree: Tree, path: Seq<char>) -> bool {
    exists|other: Seq<char>| #[trigger] live(tree, other) && is_below(path, other)
}

/// Some live file stands inside what `path` would replace.
pub open spec fn over_live_file(tree: Tree, path: Seq<char>) -> bool {
    exists|other: Seq<char>| #[trigger] live(tree, other) && is_below(other, path)
}

/// The revision under `path`; zero where the path was never used.
pub open spec fn revision_at(tree: Tree, path: Seq<char>) -> int {
    if tree.entries.contains_key(path) {
        tree.entries[path].revision
    } else {
        0
    }
}

/// Why a file may not stand at `path`, as far as other live files decide.
pub open spec fn namespace_refusal(tree: Tree, path: Seq<char>) -> Option<Refusal> {
    if under_live_file(tree, path) {
        Some(conflict("an ancestor of this path is a live file"@))
    } else if over_live_file(tree, path) {
        Some(conflict("this path contains live files"@))
    } else {
        None
    }
}

/// Why no further revision can be handed out.
pub open spec fn exhausted(tree: Tree) -> bool {
    tree.generation >= i64::MAX
}

/// Why a new version of `path`, made from revision `base`, is turned down.
pub open spec fn commit_refusal(tree: Tree, path: Seq<char>, base: int) -> Option<Refusal> {
    if !path_ok(path) {
        Some(bad("invalid path"@))
    } else if namespace_refusal(tree, path) is Some {
        namespace_refusal(tree, path)
    } else if revision_at(tree, path) != base {
        Some(conflict("server version wins; refresh manifest"@))
    } else if exhausted(tree) {
        Some(internal())
    } else {
        None
    }
}

/// The record of a live file at the next revision.
pub open spec fn live_record(
    tree: Tree,
    blob: Seq<char>,
    sha256: Seq<char>,
    size: int,
) -> Record {
    Record {
        revision: tree.generation + 1,
        blob: Some(blob),
        sha256: Some(sha256),
        size: Some(size),
        deleted: false,
    }
}

/// The tree after a new version of `path`.
pub open spec fn committed(
    tree: Tree,
    path: Seq<char>,
    blob: Seq<char>,
    sha256: Seq<char>,
    size: int,
) -> Tree {
    Tree {
        generation: tree.generation + 1,
        entries: tree.entries.insert(path, live_record(tree, blob, sha256, size)),
        ..tree
    }
}

/// A live record that carries everything a trash item needs.
pub open spec fn complete(record: Record) -> bool {
    record.blob is Some && record.sha256 is Some && record.size is Some
}

/// The largest identifier in the trash; zero where it is empty.
pub open spec fn last_trash_id(trash: Seq<Trashed>) -> int
    decreases trash.len(),
{
    if trash.len() == 0 {
        0
    } else if trash.len() == 1 {
        trash[0].id
    } else {
        let rest = last_trash_id(trash.drop_last());
        if trash.last().id > rest {
            trash.last().id
        } else {
            rest
        }
    }
}

/// Why the deletion of `path`, seen at revision `base`, is turned down.
pub open spec fn delete_refusal(tree: Tree, path: Seq<char>, base: Option<i64>) -> Option<Refusal> {
    if !path_ok(path) {
        Some(bad("invalid path"@))
    } else if base is None {
        Some(bad("base_revision required"@))
    } else if !tree.entries.contains_key(path) {
        Some(conflict("file is absent on server"@))
    } else if tree.entries[path].revision != base->0 {
        Some(conflict("server version wins; refresh manifest"@))
    } else if tree.entries[path].deleted {
        None
    } else if !complete(tree.entries[path]) || exhausted(tree) || last_trash_id(tree.trash)
        >= i64::MAX {
        Some(internal())
    } else {
        None
    }
}

/// The trash item that the deletion of a live `path` leaves behind.
pub open spec fn trashed(tree: Tree, path: Seq<char>, now: int) -> Trashed {
    let record = tree.entries[path];
    Trashed {
        id: last_trash_id(tree.trash) + 1,
        path,
        blob: record.blob->0,
        sha256: record.sha256->0,
        size: record.size->0,
        deleted_at: now,
        expires_at: now + RETENTION_SECONDS,
    }
}

/// The record of a deleted file at the next revision.
pub open spec fn tombstone(tree: Tree) -> Record {
    Record {
        revision: tree.generation + 1,
        blob: None,
        sha256: None,
        size: None,
        deleted: true,
    }
}

/// The tree after the deletion of `path`. Deleting a deleted file changes nothing.
pub open spec fn deleted(tree: Tree, path: Seq<char>, now: int) -> Tree {
    if tree.entries[path].deleted {
        tree
    } else {
        Tree {
            generation: tree.generation + 1,
            entries: tree.entries.insert(path, tombstone(tree)),
            trash: tree.trash.push(trashed(tree, path, now)),
            ..tree
        }
    }
}

/// The position of the trash item `id`, if it is there and has not expired.
pub open spec fn restorable(trash: Seq<Trashed>, id: int, now: int) -> Option<int>
    decreases trash.len(),
{
    if trash.len() == 0 {
        None
    } else {
        match restorable(trash.drop_last(), id, now) {
            Some(i) => Some(i),
            None => if trash.last().id == id && trash.last().expires_at > now {
                Some(trash.len() - 1)
            } else {
                None
            },
        }
    }
}

/// Why the trash item `id` cannot be restored.
pub open spec fn restore_refusal(tree: Tree, id: int, now: int) -> Option<Refusal> {
    match restorable(tree.trash, id, now) {
        None => Some(refusal(404, "trash item not found"@)),
        Some(i) => {
            let path = tree.trash[i].path;
            if !path_ok(path) {
                Some(bad("invalid path"@))
            } else if namespace_refusal(tree, path) is Some {
                namespace_refusal(tree, path)
            } else if live(tree, path) {
                Some(conflict("a live file already exists at this path"@))
            } else if exhausted(tree) {
                Some(internal())
            } else {
                None
            }
        },
    }
}

/// The trash without the item `id`.
pub open spec fn without_item(trash: Seq<Trashed>, id: int) -> Seq<Trashed> {
    trash.filter(|item: Trashed| item.id != id)
}

/// The tree after the restoration of the trash item `id`.
pub open spec fn restored(tree: Tree, id: int, now: int) -> Tree {
    let item = tree.trash[restorable(tree.trash, id, now)->0];
    Tree {
        generation: tree.generation + 1,
        entries: tree.entries.insert(
            item.path,
            live_record(tree, item.blob, item.sha256, item.size),
        ),
        trash: without_item(tree.trash, id),
        ..tree
    }
}

/// The trash items that have not expired.
pub open spec fn unexpired(trash: Seq<Trashed>, now: int) -> Seq<Trashed> {
    trash.filter(|item: Trashed| item.expires_at > now)
}

/// The trash items that have expired.
pub open spec fn expired(trash: Seq<Trashed>, now: int) -> Seq<Trashed> {
    trash.filter(|item: Trashed| item.expires_at <= now)
}

/// The upload session `id` of a device.
pub open spec fn session_of(uploads: Seq<Upload>, id: Seq<char>, device: int) -> Option<Upload>
    decreases uploads.len(),
{
    if uploads.len() == 0 {
        None
    } else {
        match session_of(uploads.drop_last(), id, device) {
            Some(upload) => Some(upload),
            None => if uploads.last().id == id && uploads.last().device == device {
                Some(uploads.last())
            } else {
                None
            },
        }
    }
}

/// How many sessions a device holds open.
pub open spec fn pending_uploads(uploads: Seq<Upload>, device: int) -> nat
    decreases uploads.len(),
{
    if uploads.len() == 0 {
        0
    } else {
        pending_uploads(uploads.drop_last(), device) + if uploads.last().device == device {
            1nat
        } else {
            0nat
        }
    }
}

/// The sessions but the one named `id`.
pub open spec fn without_session(uploads: Seq<Upload>, id: Seq<char>) -> Seq<Upload> {
    uploads.filter(|upload: Upload| upload.id != id)
}

/// The sessions, with the one named `id` touched at `now`.
pub open spec fn touched(uploads: Seq<Upload>, id: Seq<char>, now: int) -> Seq<Upload> {
    uploads.map_values(
        |upload: Upload|
            if upload.id == id {
                Upload { touched_at: now, ..upload }
            } else {
                upload
            },
    )
}

/// The sessions, with the one named `id` of a device moved from one offset to another.
pub open spec fn advanced(
    uploads: Seq<Upload>,
    id: Seq<char>,
    device: int,
    from: int,
    to: int,
    now: int,
) -> Seq<Upload> {
    uploads.map_values(
        |upload: Upload|
            if upload.id == id && upload.device == device && upload.offset == from {
                Upload { offset: to, touched_at: now, ..upload }
            } else {
                upload
            },
    )
}

/// How many sessions named `id` of a device stand at an offset.
pub open spec fn standing_at(uploads: Seq<Upload>, id: Seq<char>, device: int, offset: int) -> nat
    decreases uploads.len(),
{
    if uploads.len() == 0 {
        0
    } else {
        let last = uploads.last();
        standing_at(uploads.drop_last(), id, device, offset) + if last.id == id && last.device
            == device && last.offset == offset {
            1nat
        } else {
            0nat
        }
    }
}

/// What a client declares when it opens an upload session.
pub struct Declared {
    pub path: Seq<char>,
    pub base_revision: int,
    pub size: int,
    pub sha256: Seq<char>,
}

/// A digest in hexadecimal.
pub open spec fn digest_ok(text: Seq<char>) -> bool {
    text.len() == 64 && forall|i: int| 0 <= i < 64 ==> is_hex_digit(#[trigger] text[i])
}

/// A session of the device for the very file that is declared.
pub open spec fn resumes(upload: Upload, device: int, declared: Declared) -> bool {
    &&& upload.device == device
    &&& upload.path == declared.path
    &&& upload.base_revision == declared.base_revision
    &&& upload.size == declared.size
    &&& upload.sha256 == declared.sha256
}

/// Why an upload session cannot be opened.
pub open spec fn begin_refusal(tree: Tree, declared: Declared) -> Option<Refusal> {
    if !path_ok(declared.path) {
        Some(bad("invalid path"@))
    } else if declared.base_revision < 0 || declared.size < 0 || !digest_ok(declared.sha256) {
        Some(bad("invalid upload metadata"@))
    } else if namespace_refusal(tree, declared.path) is Some {
        namespace_refusal(tree, declared.path)
    } else if revision_at(tree, declared.path) != declared.base_revision {
        Some(conflict("server version wins; refresh manifest"@))
    } else {
        None
    }
}

/// The sessions left once a session that cannot be resumed was given up.
pub open spec fn given_up(uploads: Seq<Upload>, candidate: Option<Upload>) -> Seq<Upload> {
    match candidate {
        Some(upload) => without_session(uploads, upload.id),
        None => uploads,
    }
}

/// Why no further session can be opened under `id`.
pub open spec fn open_refusal(uploads: Seq<Upload>, device: int, id: Seq<char>) -> Option<Refusal> {
    if pending_uploads(uploads, device) >= MAX_UPLOAD_SESSIONS_PER_DEVICE {
        Some(refusal(429, "too many pending uploads for this device"@))
    } else if exists|i: int| 0 <= i < uploads.len() && (#[trigger] uploads[i]).id == id {
        Some(internal())
    } else {
        None
    }
}

/// A fresh session.
pub open spec fn opened(device: int, declared: Declared, id: Seq<char>, now: int) -> Upload {
    Upload {
        id,
        device,
        path: declared.path,
        base_revision: declared.base_revision,
        size: declared.size,
        sha256: declared.sha256,
        offset: 0,
        temp_name: id,
        touched_at: now,
    }
}

/// The session to resume: of those of this device for the very file that is declared, one
/// that was touched last; `None` where there is none.
pub open spec fn is_candidate(
    uploads: Seq<Upload>,
    device: int,
    declared: Declared,
    candidate: Option<Upload>,
) -> bool {
    match candidate {
        Some(upload) => {
            &&& uploads.contains(upload)
            &&& resumes(upload, device, declared)
            &&& forall|i: int|
                0 <= i < uploads.len() && resumes(#[trigger] uploads[i], device, declared)
                    ==> uploads[i].touched_at <= upload.touched_at
        },
        None => forall|i: int|
            0 <= i < uploads.len() ==> !resumes(#[trigger] uploads[i], device, declared),
    }
}

/// How the opening of a session ends: the sessions then, and the session that the client
/// goes on with, or why there is none.
pub struct Begun {
    pub uploads: Seq<Upload>,
    pub refused: Option<Refusal>,
    pub id: Seq<char>,
    pub offset: int,
}

/// What comes of a request for a session: a candidate whose temporary file is there is
/// resumed; else it is given up, and a new session is opened where the device may hold one.
pub open spec fn begun(
    uploads: Seq<Upload>,
    device: int,
    declared: Declared,
    candidate: Option<Upload>,
    temp_exists: bool,
    id: Seq<char>,
    now: int,
) -> Begun {
    let rest = given_up(uploads, candidate);
    if candidate is Some && temp_exists && candidate->0.offset <= declared.size {
        Begun {
            uploads: touched(uploads, candidate->0.id, now),
            refused: None,
            id: candidate->0.id,
            offset: candidate->0.offset,
        }
    } else if open_refusal(rest, device, id) is Some {
        Begun { uploads: rest, refused: open_refusal(rest, device, id), id, offset: 0 }
    } else {
        Begun {
            uploads: rest.push(opened(device, declared, id, now)),
            refused: None,
            id,
            offset: 0,
        }
    }
}

/// Why a chunk at `offset` is not taken.
pub open spec fn chunk_refusal(
    uploads: Seq<Upload>,
    id: Seq<char>,
    device: int,
    offset: int,
) -> Option<Refusal> {
    match session_of(uploads, id, device) {
        None => Some(refusal(404, "upload not found"@)),
        Some(upload) => if upload.offset != offset {
            Some(conflict("upload offset changed; retry synchronization"@))
        } else if upload.size <= upload.offset {
            Some(bad("upload already complete"@))
        } else {
            None
        },
    }
}

/// How many bytes the next chunk may hold.
pub open spec fn chunk_room(upload: Upload) -> int {
    if upload.size - upload.offset < UPLOAD_CHUNK_BYTES {
        upload.size - upload.offset
    } else {
        UPLOAD_CHUNK_BYTES as int
    }
}

/// Why a session cannot be committed yet.
pub open spec fn finish_refusal(uploads: Seq<Upload>, id: Seq<char>, device: int) -> Option<
    Refusal,
> {
    match session_of(uploads, id, device) {
        None => Some(refusal(404, "upload not found"@)),
        Some(upload) => if upload.offset != upload.size {
            Some(bad("upload is incomplete"@))
        } else {
            None
        },
    }
}

/// Why a complete upload is turned down, given what was received in fact.
pub open spec fn received_refusal(
    tree: Tree,
    upload: Upload,
    digest: Seq<char>,
    size: int,
) -> Option<Refusal> {
    if digest != upload.sha256 || size != upload.size {
        Some(bad("upload integrity check failed"@))
    } else {
        commit_refusal(tree, upload.path, upload.base_revision)
    }
}

/// Whether the session ends with this answer. It stays open only where the server
/// itself failed, or where its path is not acceptable.
pub open spec fn session_ends(
    tree: Tree,
    upload: Upload,
    digest: Seq<char>,
    size: int,
) -> bool {
    match received_refusal(tree, upload, digest, size) {
        None => true,
        Some(r) => digest != upload.sha256 || size != upload.size || r.status == 409,
    }
}

/// An upload session that has not been touched for its whole lifetime.
pub open spec fn stale(upload: Upload, now: int) -> bool {
    upload.touched_at < now - UPLOAD_SESSION_SECONDS
}

/// No live file stands inside another.
pub open spec fn separated(tree: Tree) -> bool {
    forall|p: Seq<char>, q: Seq<char>|
        #[trigger] live(tree, p) && #[trigger] live(tree, q) ==> !is_below(p, q)
}

/// Revisions are positive, were all handed out, and no two paths share one.
pub open spec fn revisions_sound(tree: Tree) -> bool {
    &&& tree.generation >= 0
    &&& forall|p: Seq<char>| #[trigger]
        tree.entries.contains_key(p) ==> 0 < tree.entries[p].revision <= tree.generation
    &&& forall|p: Seq<char>, q: Seq<char>| #[trigger]
        tree.entries.contains_key(p) && #[trigger] tree.entries.contains_key(q) && p != q
            ==> tree.entries[p].revision != tree.entries[q].revision
}

/// A live file has its content, a deleted one has none.
pub open spec fn contents_sound(tree: Tree) -> bool {
    forall|p: Seq<char>| #[trigger]
        tree.entries.contains_key(p) ==> if tree.entries[p].deleted {
            tree.entries[p].blob is None && tree.entries[p].sha256 is None
                && tree.entries[p].size is None
        } else {
            complete(tree.entries[p])
        }
}

/// Sessions have different names, and every session's offset lies within its file.
pub open spec fn uploads_sound(tree: Tree) -> bool {
    &&& forall|i: int|
        0 <= i < tree.uploads.len() ==> 0 <= (#[trigger] tree.uploads[i]).offset
            <= tree.uploads[i].size
    &&& forall|i: int, j: int|
        0 <= i < j < tree.uploads.len() ==> (#[trigger] tree.uploads[i]).id != (
        #[trigger] tree.uploads[j]).id
}

/// What holds of the tree between any two requests.
pub open spec fn sound(tree: Tree) -> bool {
    &&& separated(tree)
    &&& revisions_sound(tree)
    &&& contents_sound(tree)
    &&& uploads_sound(tree)
}

proof fn lemma_insert_live_separated(tree: Tree, path: Seq<char>, record: Record, next: Tree)
    requires
        separated(tree),
        namespace_refusal(tree, path) is None,
        next.entries == tree.entries.insert(path, record),
    ensures
        separated(next),
{
    assert forall|p: Seq<char>, q: Seq<char>| #[trigger]
        live(next, p) && #[trigger] live(next, q) implies !is_below(p, q) by {
        if p == path && q == path {
        } else if p == path {
            assert(live(tree, q));
        } else if q == path {
            assert(live(tree, p));
        } else {
            assert(live(tree, p));
            assert(live(tree, q));
        }
    }
}

/// An accepted new version keeps the tree sound.
pub proof fn law_commit_keeps_sound(
    tree: Tree,
    path: Seq<char>,
    base: int,
    blob: Seq<char>,
    sha256: Seq<char>,
    size: int,
)
    requires
        sound(tree),
        commit_refusal(tree, path, base) is None,
    ensures
        sound(committed(tree, path, blob, sha256, size)),
{
    let next = committed(tree, path, blob, sha256, size);
    lemma_insert_live_separated(tree, path, live_record(tree, blob, sha256, size), next);
}

/// An accepted deletion keeps the tree sound.
pub proof fn law_delete_keeps_sound(tree: Tree, path: Seq<char>, base: Option<i64>, now: int)
    requires
        sound(tree),
        delete_refusal(tree, path, base) is None,
    ensures
        sound(deleted(tree, path, now)),
{
    let next = deleted(tree, path, now);
    assert forall|p: Seq<char>, q: Seq<char>| #[trigger]
        live(next, p) && #[trigger] live(next, q) implies !is_below(p, q) by {
        assert(live(tree, p));
        assert(live(tree, q));
    }
}

/// An accepted restoration keeps the tree sound.
pub proof fn law_restore_keeps_sound(tree: Tree, id: int, now: int)
    requires
        sound(tree),
        restore_refusal(tree, id, now) is None,
    ensures
        sound(restored(tree, id, now)),
{
    let item = tree.trash[restorable(tree.trash, id, now)->0];
    lemma_insert_live_separated(
        tree,
        item.path,
        live_record(tree, item.blob, item.sha256, item.size),
        restored(tree, id, now),
    );
}

/// An accepted version gets a revision above all revisions handed out so far,
/// and no other path is touched.
pub proof fn law_commit_revision_is_newest(
    tree: Tree,
    path: Seq<char>,
    base: int,
    blob: Seq<char>,
    sha256: Seq<char>,
    size: int,
    other: Seq<char>,
)
    requires
        sound(tree),
        commit_refusal(tree, path, base) is None,
    ensures
        revision_at(committed(tree, path, blob, sha256, size), path) > revision_at(tree, other),
        other != path ==> revision_at(committed(tree, path, blob, sha256, size), other)
            == revision_at(tree, other),
        other != path ==> live(committed(tree, path, blob, sha256, size), other) == live(
            tree,
            other,
        ),
{
}

/// A request that starts from any revision but the current one is refused, so
/// it never replaces or deletes the current version.
pub proof fn law_stale_base_is_refused(tree: Tree, path: Seq<char>, base: i64)
    requires
        revision_at(tree, path) != base,
    ensures
        commit_refusal(tree, path, base as int) is Some,
        delete_refusal(tree, path, Some(base)) is Some,
{
}

/// Of two requests that start from one revision at most one is accepted.
pub proof fn law_base_is_spent(
    tree: Tree,
    path: Seq<char>,
    base: i64,
    blob: Seq<char>,
    sha256: Seq<char>,
    size: int,
)
    requires
        sound(tree),
        commit_refusal(tree, path, base as int) is None,
    ensures
        commit_refusal(committed(tree, path, blob, sha256, size), path, base as int) is Some,
        delete_refusal(committed(tree, path, blob, sha256, size), path, Some(base)) is Some,
{
}

/// After a file was published, nothing above or below it can be: whichever of
/// the two came first, the other is refused as a conflict.
pub proof fn law_file_and_directory_exclude_each_other(
    tree: Tree,
    path: Seq<char>,
    base: int,
    blob: Seq<char>,
    sha256: Seq<char>,
    size: int,
    other: Seq<char>,
    other_base: int,
)
    requires
        commit_refusal(tree, path, base) is None,
        path_ok(other),
        is_below(other, path) || is_below(path, other),
    ensures
        ({
            let next = committed(tree, path, blob, sha256, size);
            &&& commit_refusal(next, other, other_base) is Some
            &&& commit_refusal(next, other, other_base)->0.status == 409
        }),
{
    let next = committed(tree, path, blob, sha256, size);
    assert(live(next, path));
}

proof fn lemma_restorable_pushed(trash: Seq<Trashed>, item: Trashed, now: int)
    requires
        item.id == last_trash_id(trash) + 1,
        item.expires_at > now,
    ensures
        restorable(trash.push(item), item.id, now) == Some(trash.len() as int),
        forall|i: int| 0 <= i < trash.len() ==> (#[trigger] trash[i]).id < item.id,
{
    assert(trash.push(item).drop_last() =~= trash);
    lemma_ids_bounded(trash);
    lemma_restorable_absent(trash, item.id, now);
}

pub proof fn lemma_ids_bounded(trash: Seq<Trashed>)
    ensures
        forall|i: int| 0 <= i < trash.len() ==> (#[trigger] trash[i]).id <= last_trash_id(trash),
    decreases trash.len(),
{
    if trash.len() > 0 {
        let front = trash.drop_last();
        lemma_ids_bounded(front);
        assert forall|i: int| 0 <= i < trash.len() implies (#[trigger] trash[i]).id
            <= last_trash_id(trash) by {
            if i < front.len() {
                assert(front[i] == trash[i]);
            }
        }
    }
}

proof fn lemma_restorable_absent(trash: Seq<Trashed>, id: int, now: int)
    requires
        forall|i: int| 0 <= i < trash.len() ==> (#[trigger] trash[i]).id < id,
    ensures
        restorable(trash, id, now) is None,
    decreases trash.len(),
{
    if trash.len() > 0 {
        let front = trash.drop_last();
        assert forall|i: int| 0 <= i < front.len() implies (#[trigger] front[i]).id < id by {
            assert(front[i] == trash[i]);
        }
        lemma_restorable_absent(front, id, now);
        assert(trash[trash.len() - 1].id < id);
    }
}

proof fn lemma_without_pushed(trash: Seq<Trashed>, item: Trashed)
    requires
        forall|i: int| 0 <= i < trash.len() ==> (#[trigger] trash[i]).id < item.id,
    ensures
        without_item(trash.push(item), item.id) == trash,
{
    reveal(Seq::filter);
    let keep = |t: Trashed| t.id != item.id;
    assert(trash.push(item).drop_last() =~= trash);
    lemma_filter_all(trash, keep);
}

pub proof fn lemma_filter_all<T>(s: Seq<T>, keep: spec_fn(T) -> bool)
    requires
        forall|i: int| 0 <= i < s.len() ==> keep(#[trigger] s[i]),
    ensures
        s.filter(keep) == s,
    decreases s.len(),
{
    reveal(Seq::filter);
    if s.len() > 0 {
        let front = s.drop_last();
        assert forall|i: int| 0 <= i < front.len() implies keep(#[trigger] front[i]) by {
            assert(front[i] == s[i]);
        }
        lemma_filter_all(front, keep);
        assert(keep(s[s.len() - 1]));
        assert(front.push(s.last()) =~= s);
    } else {
        assert(s.filter(keep) =~= s);
    }
}

pub proof fn lemma_filter_step<T>(s: Seq<T>, n: int, keep: spec_fn(T) -> bool)
    requires
        0 <= n < s.len(),
    ensures
        s.take(n + 1).filter(keep) == (if keep(s[n]) {
            s.take(n).filter(keep).push(s[n])
        } else {
            s.take(n).filter(keep)
        }),
{
    reveal(Seq::filter);
    assert(s.take(n + 1).drop_last() =~= s.take(n));
}

/// A live file that was deleted comes back under its path with the content it
/// had, at a newer revision, as long as its time in the trash has not run out;
/// the trash is then as before the deletion.
pub proof fn law_restore_undoes_delete(tree: Tree, path: Seq<char>, base: i64, now: int, later: int)
    requires
        sound(tree),
        live(tree, path),
        delete_refusal(tree, path, Some(base)) is None,
        later < now + RETENTION_SECONDS,
        tree.generation + 1 < i64::MAX,
    ensures
        ({
            let gone = deleted(tree, path, now);
            let id = trashed(tree, path, now).id;
            let back = restored(gone, id, later);
            &&& !live(gone, path)
            &&& restore_refusal(gone, id, later) is None
            &&& live(back, path)
            &&& back.entries[path].blob == tree.entries[path].blob
            &&& back.entries[path].sha256 == tree.entries[path].sha256
            &&& back.entries[path].size == tree.entries[path].size
            &&& back.entries[path].revision > tree.entries[path].revision
            &&& back.trash == tree.trash
        }),
{
    let gone = deleted(tree, path, now);
    let item = trashed(tree, path, now);
    lemma_restorable_pushed(tree.trash, item, later);
    lemma_without_pushed(tree.trash, item);
    assert(gone.trash[tree.trash.len() as int] == item);
    assert(!under_live_file(gone, path)) by {
        if under_live_file(gone, path) {
            let other = choose|other: Seq<char>| #[trigger]
                live(gone, other) && is_below(path, other);
            assert(live(tree, other));
        }
    }
    assert(!over_live_file(gone, path)) by {
        if over_live_file(gone, path) {
            let other = choose|other: Seq<char>| #[trigger]
                live(gone, other) && is_below(other, path);
            assert(live(tree, other));
        }
    }
}

/// From the moment it expires a trash item can no longer be restored.
pub proof fn law_expired_item_is_not_restored(tree: Tree, id: int, now: int)
    requires
        forall|i: int|
            0 <= i < tree.trash.len() && (#[trigger] tree.trash[i]).id == id
                ==> tree.trash[i].expires_at <= now,
    ensures
        restore_refusal(tree, id, now) == Some(refusal(404, "trash item not found"@)),
{
    lemma_restorable_expired(tree.trash, id, now);
}

proof fn lemma_restorable_expired(trash: Seq<Trashed>, id: int, now: int)
    requires
        forall|i: int|
            0 <= i < trash.len() && (#[trigger] trash[i]).id == id ==> trash[i].expires_at <= now,
    ensures
        restorable(trash, id, now) is None,
    decreases trash.len(),
{
    if trash.len() > 0 {
        let front = trash.drop_last();
        assert forall|i: int| 0 <= i < front.len() && (#[trigger] front[i]).id == id implies front[i].expires_at
            <= now by {
            assert(front[i] == trash[i]);
        }
        lemma_restorable_expired(front, id, now);
        assert(trash[trash.len() - 1] == trash.last());
    }
}

proof fn lemma_filtered_from<T>(s: Seq<T>, keep: spec_fn(T) -> bool) -> (from: Seq<int>)
    ensures
        from.len() == s.filter(keep).len(),
        forall|i: int|
            0 <= i < from.len() ==> 0 <= #[trigger] from[i] < s.len() && s.filter(keep)[i]
                == s[from[i]],
        forall|i: int, j: int|
            0 <= i < j < from.len() ==> #[trigger] from[i] < #[trigger] from[j],
    decreases s.len(),
{
    reveal(Seq::filter);
    if s.len() == 0 {
        Seq::empty()
    } else {
        let front = s.drop_last();
        let before = lemma_filtered_from(front, keep);
        assert forall|i: int| 0 <= i < front.len() implies front[i] == s[i] by {}
        if keep(s.last()) {
            before.push(s.len() - 1)
        } else {
            before
        }
    }
}

proof fn lemma_filter_keeps_sessions(tree: Tree, keep: spec_fn(Upload) -> bool)
    requires
        uploads_sound(tree),
    ensures
        uploads_sound(Tree { uploads: tree.uploads.filter(keep), ..tree }),
{
    let from = lemma_filtered_from(tree.uploads, keep);
    let next = tree.uploads.filter(keep);
    assert forall|i: int| 0 <= i < next.len() implies 0 <= (#[trigger] next[i]).offset
        <= next[i].size by {
        assert(next[i] == tree.uploads[from[i]]);
    }
    assert forall|i: int, j: int| 0 <= i < j < next.len() implies (#[trigger] next[i]).id != (
    #[trigger] next[j]).id by {
        assert(next[i] == tree.uploads[from[i]]);
        assert(next[j] == tree.uploads[from[j]]);
        assert(from[i] < from[j]);
    }
}

proof fn lemma_same_files(tree: Tree, next: Tree)
    requires
        sound(tree),
        next.entries == tree.entries,
        next.generation == tree.generation,
        uploads_sound(next),
    ensures
        sound(next),
{
    assert forall|p: Seq<char>, q: Seq<char>| #[trigger]
        live(next, p) && #[trigger] live(next, q) implies !is_below(p, q) by {
        assert(live(tree, p));
        assert(live(tree, q));
    }
}

/// Opening, resuming or giving up a session keeps the tree sound.
pub proof fn law_begin_keeps_sound(
    tree: Tree,
    declared: Declared,
    device: int,
    candidate: Option<Upload>,
    id: Seq<char>,
    now: int,
)
    requires
        sound(tree),
        begin_refusal(tree, declared) is None,
    ensures
        ({
            let rest = given_up(tree.uploads, candidate);
            &&& sound(Tree { uploads: rest, ..tree })
            &&& open_refusal(rest, device, id) is None ==> sound(
                Tree { uploads: rest.push(opened(device, declared, id, now)), ..tree },
            )
            &&& sound(Tree { uploads: touched(tree.uploads, id, now), ..tree })
        }),
{
    let rest = given_up(tree.uploads, candidate);
    if candidate is Some {
        lemma_filter_keeps_sessions(tree, |upload: Upload| upload.id != candidate->0.id);
    }
    let without = Tree { uploads: rest, ..tree };
    lemma_same_files(tree, without);
    let more = rest.push(opened(device, declared, id, now));
    if open_refusal(rest, device, id) is None {
        assert forall|i: int, j: int| 0 <= i < j < more.len() implies (#[trigger] more[i]).id != (
        #[trigger] more[j]).id by {
            assert(more[i] == without.uploads[i]);
            if j < rest.len() {
                assert(more[j] == without.uploads[j]);
            } else {
                assert(rest[i].id != id);
            }
        }
        assert forall|i: int| 0 <= i < more.len() implies 0 <= (#[trigger] more[i]).offset
            <= more[i].size by {
            if i < rest.len() {
                assert(more[i] == without.uploads[i]);
            }
        }
        lemma_same_files(tree, Tree { uploads: more, ..tree });
    }
    let after = touched(tree.uploads, id, now);
    assert forall|i: int| 0 <= i < after.len() implies 0 <= (#[trigger] after[i]).offset
        <= after[i].size by {
        assert(0 <= tree.uploads[i].offset <= tree.uploads[i].size);
    }
    assert forall|i: int, j: int| 0 <= i < j < after.len() implies (#[trigger] after[i]).id != (
    #[trigger] after[j]).id by {
        assert(tree.uploads[i].id != tree.uploads[j].id);
    }
    lemma_same_files(tree, Tree { uploads: after, ..tree });
}

proof fn lemma_session_found(uploads: Seq<Upload>, id: Seq<char>, device: int) -> (i: int)
    requires
        session_of(uploads, id, device) is Some,
    ensures
        0 <= i < uploads.len(),
        uploads[i] == session_of(uploads, id, device)->0,
        uploads[i].id == id,
        uploads[i].device == device,
    decreases uploads.len(),
{
    let front = uploads.drop_last();
    if session_of(front, id, device) is Some {
        let i = lemma_session_found(front, id, device);
        assert(front[i] == uploads[i]);
        i
    } else {
        uploads.len() - 1
    }
}

/// A chunk that was taken moves its session forward, never past the declared size,
/// and keeps the tree sound.
pub proof fn law_chunks_move_forward(
    tree: Tree,
    id: Seq<char>,
    device: int,
    offset: int,
    count: int,
    now: int,
)
    requires
        sound(tree),
        chunk_refusal(tree.uploads, id, device, offset) is None,
        0 < count <= chunk_room(session_of(tree.uploads, id, device)->0),
    ensures
        ({
            let upload = session_of(tree.uploads, id, device)->0;
            &&& upload.offset < offset + count <= upload.size
            &&& sound(
                Tree {
                    uploads: advanced(tree.uploads, id, device, offset, offset + count, now),
                    ..tree
                },
            )
        }),
{
    let k = lemma_session_found(tree.uploads, id, device);
    let after = advanced(tree.uploads, id, device, offset, offset + count, now);
    assert forall|i: int| 0 <= i < after.len() implies 0 <= (#[trigger] after[i]).offset
        <= after[i].size by {
        assert(0 <= tree.uploads[i].offset <= tree.uploads[i].size);
        if tree.uploads[i].id == id {
            if i < k {
                assert(tree.uploads[i].id != tree.uploads[k].id);
            }
            if k < i {
                assert(tree.uploads[k].id != tree.uploads[i].id);
            }
        }
    }
    assert forall|i: int, j: int| 0 <= i < j < after.len() implies (#[trigger] after[i]).id != (
    #[trigger] after[j]).id by {
        assert(tree.uploads[i].id != tree.uploads[j].id);
    }
    lemma_same_files(tree, Tree { uploads: after, ..tree });
}

/// A committed upload holds exactly what was declared when it began, and ending a
/// session keeps the tree sound.
pub proof fn law_finish_commits_what_was_declared(
    tree: Tree,
    upload: Upload,
    digest: Seq<char>,
    size: int,
    blob: Seq<char>,
)
    requires
        sound(tree),
        received_refusal(tree, upload, digest, size) is None,
    ensures
        ({
            let next = Tree {
                uploads: without_session(tree.uploads, upload.id),
                ..committed(tree, upload.path, blob, digest, size)
            };
            &&& next.entries[upload.path].sha256 == Some(upload.sha256)
            &&& next.entries[upload.path].size == Some(upload.size)
            &&& revision_at(tree, upload.path) == upload.base_revision
            &&& sound(next)
        }),
{
    law_commit_keeps_sound(tree, upload.path, upload.base_revision, blob, digest, size);
    lemma_filter_keeps_sessions(
        committed(tree, upload.path, blob, digest, size),
        |u: Upload| u.id != upload.id,
    );
    lemma_same_files(
        committed(tree, upload.path, blob, digest, size),
        Tree {
            uploads: without_session(tree.uploads, upload.id),
            ..committed(tree, upload.path, blob, digest, size)
        },
    );
}

/// Cleaning up sessions or the trash keeps the tree sound, and touches no file.
pub proof fn law_cleanup_keeps_sound(
    tree: Tree,
    keep: spec_fn(Upload) -> bool,
    trash: Seq<Trashed>,
)
    requires
        sound(tree),
    ensures
        sound(Tree { uploads: tree.uploads.filter(keep), ..tree }),
        sound(Tree { trash, ..tree }),
{
    lemma_filter_keeps_sessions(tree, keep);
    lemma_same_files(tree, Tree { uploads: tree.uploads.filter(keep), ..tree });
    lemma_same_files(tree, Tree { trash, ..tree });
}

proof fn lemma_pending_push(uploads: Seq<Upload>, upload: Upload, device: int)
    ensures
        pending_uploads(uploads.push(upload), device) == pending_uploads(uploads, device) + (
        if upload.device == device {
            1nat
        } else {
            0nat
        }),
{
    assert(uploads.push(upload).drop_last() =~= uploads);
}

proof fn lemma_pending_filter(uploads: Seq<Upload>, keep: spec_fn(Upload) -> bool, device: int)
    ensures
        pending_uploads(uploads.filter(keep), device) <= pending_uploads(uploads, device),
    decreases uploads.len(),
{
    reveal(Seq::filter);
    if uploads.len() > 0 {
        let front = uploads.drop_last();
        lemma_pending_filter(front, keep, device);
        if keep(uploads.last()) {
            lemma_pending_push(front.filter(keep), uploads.last(), device);
        }
    }
}

/// No device ever holds more sessions open than it may.
pub proof fn law_sessions_stay_bounded(
    uploads: Seq<Upload>,
    candidate: Option<Upload>,
    opening: int,
    declared: Declared,
    id: Seq<char>,
    now: int,
    device: int,
)
    requires
        pending_uploads(uploads, device) <= MAX_UPLOAD_SESSIONS_PER_DEVICE,
        open_refusal(given_up(uploads, candidate), opening, id) is None,
    ensures
        pending_uploads(
            given_up(uploads, candidate).push(opened(opening, declared, id, now)),
            device,
        ) <= MAX_UPLOAD_SESSIONS_PER_DEVICE,
{
    let rest = given_up(uploads, candidate);
    if candidate is Some {
        lemma_pending_filter(uploads, |upload: Upload| upload.id != candidate->0.id, device);
    }
    lemma_pending_push(rest, opened(opening, declared, id, now), device);
}

/// `p` is `path`, one of its ancestors, or lies below it.
pub open spec fn near(p: Seq<char>, path: Seq<char>) -> bool {
    p == path || is_below(p, path) || is_below(path, p)
}

/// Whether a request on `path` succeeds depends only on the records of `path`
/// itself, of its ancestors and of what lies below it.
pub proof fn law_requests_are_local(tree: Tree, other: Tree, path: Seq<char>, base: int)
    requires
        tree.generation == other.generation,
        forall|p: Seq<char>|
            #[trigger] near(p, path) ==> (tree.entries.contains_key(p)
                == other.entries.contains_key(p) && (tree.entries.contains_key(p)
                ==> tree.entries[p] == other.entries[p])),
    ensures
        namespace_refusal(tree, path) == namespace_refusal(other, path),
        commit_refusal(tree, path, base) == commit_refusal(other, path, base),
{
    lemma_local_half(tree, other, path);
    lemma_local_half(other, tree, path);
    assert(near(path, path));
}

proof fn lemma_local_half(tree: Tree, other: Tree, path: Seq<char>)
    requires
        forall|p: Seq<char>|
            #[trigger] near(p, path) ==> (tree.entries.contains_key(p)
                == other.entries.contains_key(p) && (tree.entries.contains_key(p)
                ==> tree.entries[p] == other.entries[p])),
    ensures
        under_live_file(tree, path) ==> under_live_file(other, path),
        over_live_file(tree, path) ==> over_live_file(other, path),
{
    if under_live_file(tree, path) {
        let p = choose|p: Seq<char>| #[trigger] live(tree, p) && is_below(path, p);
        assert(near(p, path));
        assert(live(other, p));
    }
    if over_live_file(tree, path) {
        let p = choose|p: Seq<char>| #[trigger] live(tree, p) && is_below(p, path);
        assert(near(p, path));
        assert(live(other, p));
    }
}

proof fn lemma_given_up_frees_a_place(uploads: Seq<Upload>, upload: Upload, k: int)
    requires
        0 <= k < uploads.len(),
        uploads[k] == upload,
    ensures
        pending_uploads(without_session(uploads, upload.id), upload.device) < pending_uploads(
            uploads,
            upload.device,
        ),
    decreases uploads.len(),
{
    reveal(Seq::filter);
    let keep = |u: Upload| u.id != upload.id;
    let front = uploads.drop_last();
    if k < front.len() {
        lemma_given_up_frees_a_place(front, upload, k);
        assert(front.filter(keep) == without_session(front, upload.id));
        if keep(uploads.last()) {
            lemma_pending_push(front.filter(keep), uploads.last(), upload.device);
        }
    } else {
        lemma_pending_filter(front, keep, upload.device);
    }
}

/// A request for an upload session that is in order goes on with the session that this
/// device holds for the very file, at the bytes accepted so far, and adds none, where the
/// temporary file is there. Else, where the device holds as many sessions as it may, it is
/// refused for that and none is added. Else a new session begins at the first byte.
pub proof fn law_session_is_resumed_refused_or_opened(
    tree: Tree,
    device: int,
    declared: Declared,
    candidate: Option<Upload>,
    temp_exists: bool,
    id: Seq<char>,
    now: int,
)
    requires
        sound(tree),
        begin_refusal(tree, declared) is None,
        is_candidate(tree.uploads, device, declared, candidate),
        pending_uploads(tree.uploads, device) <= MAX_UPLOAD_SESSIONS_PER_DEVICE,
        forall|i: int| 0 <= i < tree.uploads.len() ==> (#[trigger] tree.uploads[i]).id != id,
    ensures
        ({
            let done = begun(tree.uploads, device, declared, candidate, temp_exists, id, now);
            if candidate is Some && temp_exists {
                &&& done.refused is None
                &&& done.id == candidate->0.id
                &&& done.offset == candidate->0.offset
                &&& done.uploads.len() == tree.uploads.len()
                &&& forall|i: int|
                    0 <= i < tree.uploads.len() ==> (#[trigger] done.uploads[i]).id
                        == tree.uploads[i].id && done.uploads[i].offset == tree.uploads[i].offset
            } else if candidate is None && pending_uploads(tree.uploads, device)
                >= MAX_UPLOAD_SESSIONS_PER_DEVICE {
                &&& done.refused == Some(
                    refusal(429, "too many pending uploads for this device"@),
                )
                &&& done.uploads == tree.uploads
            } else {
                &&& done.refused is None
                &&& done.id == id
                &&& done.offset == 0
                &&& done.uploads == given_up(tree.uploads, candidate).push(
                    opened(device, declared, id, now),
                )
                &&& pending_uploads(done.uploads, device) <= MAX_UPLOAD_SESSIONS_PER_DEVICE
            }
        }),
{
    let rest = given_up(tree.uploads, candidate);
    if candidate is Some {
        let k = choose|k: int| 0 <= k < tree.uploads.len() && tree.uploads[k] == candidate->0;
        assert(tree.uploads[k].offset <= tree.uploads[k].size);
        lemma_given_up_frees_a_place(tree.uploads, candidate->0, k);
        let from = lemma_filtered_from(tree.uploads, |u: Upload| u.id != candidate->0.id);
        assert forall|i: int| 0 <= i < rest.len() implies (#[trigger] rest[i]).id != id by {
            assert(rest[i] == tree.uploads[from[i]]);
        }
    }
    lemma_pending_push(rest, opened(device, declared, id, now), device);
}

/// No two trash items share an identifier.
pub open spec fn trash_sound(trash: Seq<Trashed>) -> bool {
    forall|i: int, j: int|
        0 <= i < j < trash.len() ==> (#[trigger] trash[i]).id != (#[trigger] trash[j]).id
}

/// Trash items keep identifiers of their own, whatever is deleted, restored or purged.
pub proof fn law_trash_stays_sound(
    tree: Tree,
    path: Seq<char>,
    id: int,
    now: int,
    keep: spec_fn(Trashed) -> bool,
)
    requires
        trash_sound(tree.trash),
    ensures
        trash_sound(deleted(tree, path, now).trash),
        trash_sound(restored(tree, id, now).trash),
        trash_sound(tree.trash.filter(keep)),
{
    lemma_ids_bounded(tree.trash);
    let more = deleted(tree, path, now).trash;
    assert forall|i: int, j: int| 0 <= i < j < more.len() implies (#[trigger] more[i]).id != (
    #[trigger] more[j]).id by {
        assert(more[i] == tree.trash[i]);
        if j < tree.trash.len() {
            assert(more[j] == tree.trash[j]);
        }
    }
    lemma_trash_filter(tree.trash, |item: Trashed| item.id != id);
    lemma_trash_filter(tree.trash, keep);
}

proof fn lemma_trash_filter(trash: Seq<Trashed>, keep: spec_fn(Trashed) -> bool)
    requires
        trash_sound(trash),
    ensures
        trash_sound(trash.filter(keep)),
        forall|i: int|
            0 <= i < trash.filter(keep).len() ==> keep(#[trigger] trash.filter(keep)[i]),
{
    let next = trash.filter(keep);
    let from = lemma_filtered_from(trash, keep);
    assert forall|i: int, j: int| 0 <= i < j < next.len() implies (#[trigger] next[i]).id != (
    #[trigger] next[j]).id by {
        assert(next[i] == trash[from[i]]);
        assert(next[j] == trash[from[j]]);
        assert(from[i] < from[j]);
    }
    assert forall|i: int| 0 <= i < next.len() implies keep(#[trigger] next[i]) by {
        trash.lemma_filter_pred(keep, i);
    }
}

proof fn lemma_restorable_at(trash: Seq<Trashed>, i: int, now: int)
    requires
        trash_sound(trash),
        0 <= i < trash.len(),
        trash[i].expires_at > now,
    ensures
        restorable(trash, trash[i].id, now) == Some(i),
    decreases trash.len(),
{
    let front = trash.drop_last();
    assert(trash_sound(front)) by {
        assert forall|a: int, b: int| 0 <= a < b < front.len() implies (#[trigger] front[a]).id != (
        #[trigger] front[b]).id by {
            assert(front[a] == trash[a] && front[b] == trash[b]);
        }
    }
    if i < front.len() {
        assert(front[i] == trash[i]);
        lemma_restorable_at(front, i, now);
    } else {
        assert forall|j: int| 0 <= j < front.len() && (#[trigger] front[j]).id == trash[i].id
            implies front[j].expires_at <= now by {
            assert(front[j] == trash[j]);
            assert(trash[j].id != trash[i].id);
        }
        lemma_restorable_expired(front, trash[i].id, now);
    }
}

/// As long as a trash item has not expired and was not purged, it can be restored, whatever
/// else has happened since: where its path, an ancestor or a descendant of it is live, the
/// restoration is refused as a conflict; else the file is back with the content that it had,
/// at a revision above all others, the item is gone from the trash, and a second restoration
/// finds nothing. Deleted ancestors and descendants are not in the way.
pub proof fn law_item_is_restored_once(tree: Tree, i: int, now: int, later: int)
    requires
        sound(tree),
        trash_sound(tree.trash),
        0 <= i < tree.trash.len(),
        path_ok(tree.trash[i].path),
        tree.trash[i].expires_at > now,
        !exhausted(tree),
    ensures
        ({
            let item = tree.trash[i];
            let back = restored(tree, item.id, now);
            if live(tree, item.path) || under_live_file(tree, item.path) || over_live_file(
                tree,
                item.path,
            ) {
                restore_refusal(tree, item.id, now) matches Some(r) && r.status == 409
            } else {
                &&& restore_refusal(tree, item.id, now) is None
                &&& back.entries == tree.entries.insert(
                    item.path,
                    live_record(tree, item.blob, item.sha256, item.size),
                )
                &&& forall|p: Seq<char>| #[trigger]
                    tree.entries.contains_key(p) ==> tree.entries[p].revision
                        < back.entries[item.path].revision
                &&& back.trash == without_item(tree.trash, item.id)
                &&& forall|j: int| 0 <= j < back.trash.len() ==> (#[trigger] back.trash[j]).id != item.id
                &&& restore_refusal(back, item.id, later) == Some(
                    refusal(404, "trash item not found"@),
                )
            }
        }),
{
    let item = tree.trash[i];
    let back = restored(tree, item.id, now);
    lemma_restorable_at(tree.trash, i, now);
    lemma_trash_filter(tree.trash, |t: Trashed| t.id != item.id);
    law_expired_item_is_not_restored(back, item.id, later);
}

/// No live file stands where a path needs a directory, or inside what the path would replace.
pub open spec fn nothing_in_the_way(tree: Tree, path: Seq<char>) -> bool {
    forall|p: Seq<char>| #[trigger]
        tree.entries.contains_key(p) && !tree.entries[p].deleted ==> !is_below(path, p)
            && !is_below(p, path)
}

/// The client has seen the current revision of a path, or the path was never used.
pub open spec fn up_to_date(tree: Tree, path: Seq<char>, base: int) -> bool {
    if tree.entries.contains_key(path) {
        tree.entries[path].revision == base
    } else {
        base == 0
    }
}

proof fn lemma_way(tree: Tree, path: Seq<char>)
    ensures
        namespace_refusal(tree, path) is None <==> nothing_in_the_way(tree, path),
        namespace_refusal(tree, path) matches Some(r) ==> r.status == 409,
{
    if nothing_in_the_way(tree, path) {
        if under_live_file(tree, path) {
            let other = choose|other: Seq<char>| #[trigger]
                live(tree, other) && is_below(path, other);
            assert(tree.entries.contains_key(other));
        }
        if over_live_file(tree, path) {
            let other = choose|other: Seq<char>| #[trigger]
                live(tree, other) && is_below(other, path);
            assert(tree.entries.contains_key(other));
        }
    } else {
        let p = choose|p: Seq<char>| #[trigger]
            tree.entries.contains_key(p) && !tree.entries[p].deleted && (is_below(path, p)
                || is_below(p, path));
        assert(live(tree, p));
    }
}

/// A new version is taken exactly where its path is acceptable, nothing is in the way, the client
/// saw the current revision, and there is a revision left. Else the answer tells which of them
/// failed: 400 for the path, 409 for what is in the way or for the revision.
pub proof fn law_current_base_is_committed(tree: Tree, path: Seq<char>, base: int)
    ensures
        commit_refusal(tree, path, base) is None <==> path_ok(path) && nothing_in_the_way(
            tree,
            path,
        ) && up_to_date(tree, path, base) && tree.generation < i64::MAX,
        !path_ok(path) ==> (commit_refusal(tree, path, base) matches Some(r) && r.status == 400),
        path_ok(path) && !(nothing_in_the_way(tree, path) && up_to_date(tree, path, base)) ==> (
        commit_refusal(tree, path, base) matches Some(r) && r.status == 409),
{
    lemma_way(tree, path);
}

/// A new version puts its content under its path, live, at the next revision; every other path,
/// the trash and the sessions stay as they are.
pub proof fn law_commit_writes_one_path(
    tree: Tree,
    path: Seq<char>,
    blob: Seq<char>,
    sha256: Seq<char>,
    size: int,
    other: Seq<char>,
)
    ensures
        ({
            let next = committed(tree, path, blob, sha256, size);
            &&& next.generation == tree.generation + 1
            &&& next.entries.contains_key(path)
            &&& next.entries[path].revision == tree.generation + 1
            &&& next.entries[path].blob == Some(blob)
            &&& next.entries[path].sha256 == Some(sha256)
            &&& next.entries[path].size == Some(size)
            &&& !next.entries[path].deleted
            &&& other != path ==> next.entries.contains_key(other) == tree.entries.contains_key(
                other,
            ) && next.entries[other] == tree.entries[other]
            &&& next.trash == tree.trash
            &&& next.uploads == tree.uploads
        }),
{
}

/// A file is deleted exactly where its path is acceptable and known, the client names the current
/// revision, and, where the file is live, it is whole and numbers are left for it. 400 stands
/// for the request itself, 409 for a path that is absent or has changed.
pub proof fn law_current_file_is_deleted(tree: Tree, path: Seq<char>, base: Option<i64>)
    ensures
        delete_refusal(tree, path, base) is None <==> path_ok(path) && base is Some
            && tree.entries.contains_key(path) && tree.entries[path].revision == base->0 && (
        tree.entries[path].deleted || (tree.entries[path].blob is Some
            && tree.entries[path].sha256 is Some && tree.entries[path].size is Some
            && tree.generation < i64::MAX && last_trash_id(tree.trash) < i64::MAX)),
        !path_ok(path) || base is None ==> (delete_refusal(tree, path, base) matches Some(r)
            && r.status == 400),
        path_ok(path) && base is Some && !(tree.entries.contains_key(path)
            && tree.entries[path].revision == base->0) ==> (delete_refusal(
            tree,
            path,
            base,
        ) matches Some(r) && r.status == 409),
{
}

/// The deletion of a live file leaves a tombstone at the next revision and puts the content into
/// the trash, for the retention time; every other path and every other item stays. The deletion
/// of a deleted file changes nothing.
pub proof fn law_deletion_moves_one_file_to_the_trash(
    tree: Tree,
    path: Seq<char>,
    now: int,
    other: Seq<char>,
    i: int,
)
    requires
        tree.entries.contains_key(path),
    ensures
        tree.entries[path].deleted ==> deleted(tree, path, now) == tree,
        !tree.entries[path].deleted ==> {
            let next = deleted(tree, path, now);
            let item = next.trash[tree.trash.len() as int];
            &&& next.generation == tree.generation + 1
            &&& next.entries.contains_key(path)
            &&& next.entries[path].deleted
            &&& next.entries[path].revision == tree.generation + 1
            &&& next.entries[path].blob is None
            &&& next.entries[path].sha256 is None
            &&& next.entries[path].size is None
            &&& other != path ==> next.entries.contains_key(other) == tree.entries.contains_key(
                other,
            ) && next.entries[other] == tree.entries[other]
            &&& next.trash.len() == tree.trash.len() + 1
            &&& 0 <= i < tree.trash.len() ==> next.trash[i] == tree.trash[i] && next.trash[i].id
                < item.id
            &&& item.path == path
            &&& tree.entries[path].blob is Some ==> tree.entries[path].blob == Some(item.blob)
            &&& tree.entries[path].sha256 is Some ==> tree.entries[path].sha256 == Some(item.sha256)
            &&& tree.entries[path].size is Some ==> tree.entries[path].size == Some(item.size)
            &&& item.deleted_at == now
            &&& item.expires_at == now + 30 * 24 * 60 * 60
            &&& next.uploads == tree.uploads
        },
{
    lemma_ids_bounded(tree.trash);
}

/// The number that the next trash item gets is above all that are in use, and no higher than it
/// has to be.
pub proof fn law_next_trash_number_is_free(trash: Seq<Trashed>, i: int)
    ensures
        0 <= i < trash.len() ==> trash[i].id <= last_trash_id(trash),
        trash.len() > 0 ==> exists|j: int|
            0 <= j < trash.len() && (#[trigger] trash[j]).id == last_trash_id(trash),
        trash.len() == 0 ==> last_trash_id(trash) == 0,
    decreases trash.len(),
{
    lemma_ids_bounded(trash);
    if trash.len() == 1 {
        assert(trash[0].id == last_trash_id(trash));
    } else if trash.len() > 1 {
        let front = trash.drop_last();
        law_next_trash_number_is_free(front, 0);
        let j = choose|j: int| 0 <= j < front.len() && (#[trigger] front[j]).id == last_trash_id(
            front,
        );
        assert(trash[j] == front[j]);
        assert(trash[trash.len() - 1] == trash.last());
        if trash.last().id > last_trash_id(front) {
            assert(trash[trash.len() - 1].id == last_trash_id(trash));
        } else {
            assert(trash[j].id == last_trash_id(trash));
        }
    }
}

/// A restoration is accepted only for an item that is in the trash and has not expired; else it
/// is answered that there is none.
pub proof fn law_only_items_in_the_trash_are_restored(tree: Tree, id: int, now: int)
    ensures
        (forall|i: int|
            0 <= i < tree.trash.len() ==> !((#[trigger] tree.trash[i]).id == id
                && tree.trash[i].expires_at > now)) <==> restore_refusal(tree, id, now) == Some(
            refusal(404, "trash item not found"@),
        ),
        restorable(tree.trash, id, now) matches Some(i) ==> 0 <= i < tree.trash.len()
            && tree.trash[i].id == id && tree.trash[i].expires_at > now,
{
    lemma_restorable_sound(tree.trash, id, now);
    if restorable(tree.trash, id, now) is None {
        lemma_restorable_none(tree.trash, id, now);
    } else {
        let i = restorable(tree.trash, id, now)->0;
        lemma_way(tree, tree.trash[i].path);
        assert(tree.trash[i].id == id && tree.trash[i].expires_at > now);
    }
}

proof fn lemma_restorable_sound(trash: Seq<Trashed>, id: int, now: int)
    ensures
        restorable(trash, id, now) matches Some(i) ==> 0 <= i < trash.len() && trash[i].id == id
            && trash[i].expires_at > now,
    decreases trash.len(),
{
    if trash.len() > 0 {
        lemma_restorable_sound(trash.drop_last(), id, now);
        assert(trash[trash.len() - 1] == trash.last());
    }
}

proof fn lemma_restorable_none(trash: Seq<Trashed>, id: int, now: int)
    requires
        restorable(trash, id, now) is None,
    ensures
        forall|i: int|
            0 <= i < trash.len() ==> !((#[trigger] trash[i]).id == id && trash[i].expires_at > now),
    decreases trash.len(),
{
    if trash.len() > 0 {
        let front = trash.drop_last();
        lemma_restorable_none(front, id, now);
        assert forall|i: int| 0 <= i < trash.len() implies !((#[trigger] trash[i]).id == id
            && trash[i].expires_at > now) by {
            if i < front.len() {
                assert(front[i] == trash[i]);
            }
        }
    }
}

/// A restoration writes the content of the item under its path, live, at the next revision, takes
/// the items of that number out of the trash, and touches nothing else.
pub proof fn law_restoration_writes_one_path(
    tree: Tree,
    id: int,
    now: int,
    other: Seq<char>,
    kept: Trashed,
)
    requires
        restorable(tree.trash, id, now) is Some,
    ensures
        ({
            let item = tree.trash[restorable(tree.trash, id, now)->0];
            let next = restored(tree, id, now);
            &&& next.generation == tree.generation + 1
            &&& next.entries.contains_key(item.path)
            &&& next.entries[item.path].revision == tree.generation + 1
            &&& next.entries[item.path].blob == Some(item.blob)
            &&& next.entries[item.path].sha256 == Some(item.sha256)
            &&& next.entries[item.path].size == Some(item.size)
            &&& !next.entries[item.path].deleted
            &&& other != item.path ==> next.entries.contains_key(other)
                == tree.entries.contains_key(other) && next.entries[other] == tree.entries[other]
            &&& next.trash.contains(kept) <==> tree.trash.contains(kept) && kept.id != id
            &&& next.uploads == tree.uploads
        }),
{
    lemma_filter_members(tree.trash, |item: Trashed| item.id != id, kept);
}

pub proof fn lemma_filter_members<T>(s: Seq<T>, keep: spec_fn(T) -> bool, x: T)
    ensures
        s.filter(keep).contains(x) <==> s.contains(x) && keep(x),
    decreases s.len(),
{
    reveal(Seq::filter);
    if s.len() == 0 {
        assert(!s.filter(keep).contains(x));
    } else {
        let front = s.drop_last();
        lemma_filter_members(front, keep, x);
        if s.contains(x) {
            let i = choose|i: int| 0 <= i < s.len() && s[i] == x;
            if i < front.len() {
                assert(front[i] == x);
            }
        }
        if front.contains(x) {
            let i = choose|i: int| 0 <= i < front.len() && front[i] == x;
            assert(s[i] == x);
        }
        assert(s[s.len() - 1] == s.last());
        let kept = front.filter(keep);
        if keep(s.last()) {
            assert(s.filter(keep) == kept.push(s.last()));
            if kept.contains(x) {
                let i = choose|i: int| 0 <= i < kept.len() && kept[i] == x;
                assert(kept.push(s.last())[i] == x);
            }
            if s.last() == x {
                assert(kept.push(s.last())[kept.len() as int] == x);
            }
            if kept.push(s.last()).contains(x) {
                let i = choose|i: int|
                    0 <= i < kept.push(s.last()).len() && kept.push(s.last())[i] == x;
                if i < kept.len() {
                    assert(kept[i] == x);
                }
            }
        }
    }
}

/// Every trash item is either kept or purged, by its expiry alone.
pub proof fn law_trash_expires_by_its_time(trash: Seq<Trashed>, item: Trashed, now: int)
    ensures
        unexpired(trash, now).contains(item) <==> trash.contains(item) && item.expires_at > now,
        expired(trash, now).contains(item) <==> trash.contains(item) && item.expires_at <= now,
{
    lemma_filter_members(trash, |t: Trashed| t.expires_at > now, item);
    lemma_filter_members(trash, |t: Trashed| t.expires_at <= now, item);
}

/// A session is opened for a file exactly where its path is acceptable, nothing is in the way, the
/// size and the digest can be right, and the client saw the current revision. 400 stands for the
/// request itself, 409 for the state of the server.
pub proof fn law_current_base_may_be_uploaded(tree: Tree, declared: Declared)
    ensures
        begin_refusal(tree, declared) is None <==> path_ok(declared.path) && declared.base_revision
            >= 0 && declared.size >= 0 && digest_ok(declared.sha256) && nothing_in_the_way(
            tree,
            declared.path,
        ) && up_to_date(tree, declared.path, declared.base_revision),
        !(path_ok(declared.path) && declared.base_revision >= 0 && declared.size >= 0 && digest_ok(
            declared.sha256,
        )) ==> (begin_refusal(tree, declared) matches Some(r) && r.status == 400),
        path_ok(declared.path) && declared.base_revision >= 0 && declared.size >= 0 && digest_ok(
            declared.sha256,
        ) && !(nothing_in_the_way(tree, declared.path) && up_to_date(
            tree,
            declared.path,
            declared.base_revision,
        )) ==> (begin_refusal(tree, declared) matches Some(r) && r.status == 409),
{
    lemma_way(tree, declared.path);
}

/// A session that is opened for a file can be committed as long as nothing changes under its
/// path meanwhile, if revisions are left.
pub proof fn law_opened_upload_can_be_committed(
    tree: Tree,
    declared: Declared,
    device: int,
    id: Seq<char>,
    now: int,
)
    requires
        begin_refusal(tree, declared) is None,
        tree.generation < i64::MAX,
    ensures
        received_refusal(
            tree,
            opened(device, declared, id, now),
            declared.sha256,
            declared.size,
        ) is None,
{
}

/// A digest is 64 hexadecimal digits of either case.
pub proof fn law_digest_is_64_digits(text: Seq<char>)
    ensures
        digest_ok(text) <==> text.len() == 64 && forall|i: int|
            0 <= i < text.len() ==> ('0' <= (#[trigger] text[i]) <= '9' || 'a' <= text[i] <= 'f'
                || 'A' <= text[i] <= 'F'),
{
    if digest_ok(text) {
        assert forall|i: int| 0 <= i < text.len() implies ('0' <= (#[trigger] text[i]) <= '9' || 'a'
            <= text[i] <= 'f' || 'A' <= text[i] <= 'F') by {
            assert(is_hex_digit(text[i]));
        }
    }
    if text.len() == 64 && forall|i: int|
        0 <= i < text.len() ==> ('0' <= (#[trigger] text[i]) <= '9' || 'a' <= text[i] <= 'f' || 'A'
            <= text[i] <= 'F') {
        assert forall|i: int| 0 <= i < 64 implies is_hex_digit(#[trigger] text[i]) by {
            assert('0' <= text[i] <= '9' || 'a' <= text[i] <= 'f' || 'A' <= text[i] <= 'F');
        }
    }
}

/// A session is resumed for the same device and the very same file, and for no other.
pub proof fn law_session_serves_the_very_file(upload: Upload, device: int, declared: Declared)
    ensures
        resumes(upload, device, declared) <==> upload.device == device && (Declared {
            path: upload.path,
            base_revision: upload.base_revision,
            size: upload.size,
            sha256: upload.sha256,
        }) == declared,
{
}

/// A fresh session holds what was declared, belongs to its device, and has received nothing.
pub proof fn law_fresh_session_is_what_was_declared(
    device: int,
    declared: Declared,
    id: Seq<char>,
    now: int,
)
    ensures
        opened(device, declared, id, now).id == id,
        opened(device, declared, id, now).device == device,
        opened(device, declared, id, now).path == declared.path,
        opened(device, declared, id, now).base_revision == declared.base_revision,
        opened(device, declared, id, now).size == declared.size,
        opened(device, declared, id, now).sha256 == declared.sha256,
        opened(device, declared, id, now).offset == 0,
        opened(device, declared, id, now).touched_at == now,
        opened(device, declared, id, now).temp_name == id,
{
}

/// The sessions of a device are counted one by one.
pub proof fn law_sessions_are_counted(uploads: Seq<Upload>, device: int)
    ensures
        pending_uploads(uploads, device) == uploads.filter(
            |upload: Upload| upload.device == device,
        ).len(),
    decreases uploads.len(),
{
    reveal(Seq::filter);
    if uploads.len() > 0 {
        law_sessions_are_counted(uploads.drop_last(), device);
    }
}

/// A device may open a session exactly where it holds fewer than it may and the name is free.
pub proof fn law_device_may_open_a_session(uploads: Seq<Upload>, device: int, id: Seq<char>)
    ensures
        open_refusal(uploads, device, id) is None <==> pending_uploads(uploads, device)
            < 16 && forall|i: int|
            0 <= i < uploads.len() ==> (#[trigger] uploads[i]).id != id,
        pending_uploads(uploads, device) >= 16 ==> (open_refusal(
            uploads,
            device,
            id,
        ) matches Some(r) && r.status == 429),
{
}

proof fn lemma_session_at(tree: Tree, i: int)
    requires
        uploads_sound(tree),
        0 <= i < tree.uploads.len(),
    ensures
        session_of(tree.uploads, tree.uploads[i].id, tree.uploads[i].device) == Some(
            tree.uploads[i],
        ),
{
    let upload = tree.uploads[i];
    lemma_session_exists(tree.uploads, i);
    let k = lemma_session_found(tree.uploads, upload.id, upload.device);
    if k != i {
        if k < i {
            assert(tree.uploads[k].id != tree.uploads[i].id);
        } else {
            assert(tree.uploads[i].id != tree.uploads[k].id);
        }
    }
}

proof fn lemma_session_exists(uploads: Seq<Upload>, i: int)
    requires
        0 <= i < uploads.len(),
    ensures
        session_of(uploads, uploads[i].id, uploads[i].device) is Some,
    decreases uploads.len(),
{
    if i < uploads.len() - 1 {
        assert(uploads.drop_last()[i] == uploads[i]);
        lemma_session_exists(uploads.drop_last(), i);
    }
}

/// A chunk is taken for a session of the device exactly where it continues what was received and
/// something is missing; it may hold what is missing, up to the largest chunk. A chunk that does
/// not continue it is a conflict. The session can be finished exactly where nothing is missing.
pub proof fn law_session_takes_the_next_chunk(tree: Tree, i: int, offset: int)
    requires
        uploads_sound(tree),
        0 <= i < tree.uploads.len(),
    ensures
        ({
            let upload = tree.uploads[i];
            let refused = chunk_refusal(tree.uploads, upload.id, upload.device, offset);
            &&& refused is None <==> offset == upload.offset && upload.offset < upload.size
            &&& offset != upload.offset ==> (refused matches Some(r) && r.status == 409)
            &&& offset == upload.offset && upload.offset == upload.size ==> (refused matches Some(
                r,
            ) && r.status == 400)
            &&& finish_refusal(tree.uploads, upload.id, upload.device) is None <==> upload.offset
                == upload.size
            &&& upload.offset != upload.size ==> (finish_refusal(
                tree.uploads,
                upload.id,
                upload.device,
            ) matches Some(r) && r.status == 400)
            &&& upload.size - upload.offset <= 8 * 1024 * 1024 ==> chunk_room(upload)
                == upload.size - upload.offset
            &&& upload.size - upload.offset > 8 * 1024 * 1024 ==> chunk_room(upload)
                == 8 * 1024 * 1024
        }),
{
    lemma_session_at(tree, i);
}

/// A session that the device does not hold is not found, whoever holds it.
pub proof fn law_foreign_session_is_not_found(
    uploads: Seq<Upload>,
    id: Seq<char>,
    device: int,
    offset: int,
)
    requires
        forall|i: int|
            0 <= i < uploads.len() ==> !((#[trigger] uploads[i]).id == id && uploads[i].device
                == device),
    ensures
        chunk_refusal(uploads, id, device, offset) matches Some(r) && r.status == 404,
        finish_refusal(uploads, id, device) matches Some(r) && r.status == 404,
{
    if session_of(uploads, id, device) is Some {
        let k = lemma_session_found(uploads, id, device);
        assert(uploads[k].id == id);
    }
}

/// What was received moves one session of one device to its new end, and no other.
pub proof fn law_chunk_moves_one_session(
    uploads: Seq<Upload>,
    id: Seq<char>,
    device: int,
    from: int,
    to: int,
    now: int,
    i: int,
)
    requires
        0 <= i < uploads.len(),
    ensures
        advanced(uploads, id, device, from, to, now).len() == uploads.len(),
        advanced(uploads, id, device, from, to, now)[i] == if uploads[i].id == id
            && uploads[i].device == device && uploads[i].offset == from {
            Upload { offset: to, touched_at: now, ..uploads[i] }
        } else {
            uploads[i]
        },
        touched(uploads, id, now).len() == uploads.len(),
        touched(uploads, id, now)[i] == if uploads[i].id == id {
            Upload { touched_at: now, ..uploads[i] }
        } else {
            uploads[i]
        },
{
}

/// A chunk is recorded exactly where one session of the device still stands at its beginning.
pub proof fn law_sessions_at_an_offset_are_counted(
    uploads: Seq<Upload>,
    id: Seq<char>,
    device: int,
    offset: int,
)
    ensures
        standing_at(uploads, id, device, offset) == uploads.filter(
            |u: Upload| u.id == id && u.device == device && u.offset == offset,
        ).len(),
    decreases uploads.len(),
{
    reveal(Seq::filter);
    if uploads.len() > 0 {
        law_sessions_at_an_offset_are_counted(uploads.drop_last(), id, device, offset);
    }
}

/// A whole upload is taken exactly where what was received is what was declared and the new
/// version is taken; where it is something else, the answer is 400.
pub proof fn law_upload_is_taken_as_declared(
    tree: Tree,
    upload: Upload,
    digest: Seq<char>,
    size: int,
)
    ensures
        received_refusal(tree, upload, digest, size) is None <==> digest == upload.sha256 && size
            == upload.size && path_ok(upload.path) && nothing_in_the_way(tree, upload.path)
            && up_to_date(tree, upload.path, upload.base_revision) && tree.generation < i64::MAX,
        digest != upload.sha256 || size != upload.size ==> (received_refusal(
            tree,
            upload,
            digest,
            size,
        ) matches Some(r) && r.status == 400),
{
    lemma_way(tree, upload.path);
}

/// The session is over once its upload is taken, is not what was declared, or came too late; it
/// stays where only the server failed.
pub proof fn law_session_ends_with_its_upload(
    tree: Tree,
    upload: Upload,
    digest: Seq<char>,
    size: int,
)
    requires
        path_ok(upload.path),
    ensures
        session_ends(tree, upload, digest, size) <==> digest != upload.sha256 || size != upload.size
            || !nothing_in_the_way(tree, upload.path) || !up_to_date(
            tree,
            upload.path,
            upload.base_revision,
        ) || tree.generation < i64::MAX,
{
    lemma_way(tree, upload.path);
}

/// A session that is dropped takes no other with it.
pub proof fn law_dropping_a_session_spares_the_others(
    uploads: Seq<Upload>,
    id: Seq<char>,
    kept: Upload,
)
    ensures
        without_session(uploads, id).contains(kept) <==> uploads.contains(kept) && kept.id != id,
{
    lemma_filter_members(uploads, |upload: Upload| upload.id != id, kept);
}

/// A session is given up to the cleanup after a day without a touch, and not before.
pub proof fn law_idle_session_becomes_stale(upload: Upload, now: int)
    ensures
        stale(upload, now) <==> now - upload.touched_at > 24 * 60 * 60,
{
}

/// An item that can be restored is restored exactly where its path is acceptable, no live file is
/// at the path, above it or below it, and there is a revision left.
pub proof fn law_item_is_restored_to_a_free_path(tree: Tree, i: int, now: int)
    requires
        trash_sound(tree.trash),
        0 <= i < tree.trash.len(),
        tree.trash[i].expires_at > now,
    ensures
        restorable(tree.trash, tree.trash[i].id, now) == Some(i),
        ({
            let path = tree.trash[i].path;
            let refused = restore_refusal(tree, tree.trash[i].id, now);
            let free = nothing_in_the_way(tree, path) && !(tree.entries.contains_key(path)
                && !tree.entries[path].deleted);
            &&& refused is None <==> path_ok(path) && free && tree.generation < i64::MAX
            &&& !path_ok(path) ==> (refused matches Some(r) && r.status == 400)
            &&& path_ok(path) && !free ==> (refused matches Some(r) && r.status == 409)
        }),
{
    let id = tree.trash[i].id;
    lemma_way(tree, tree.trash[i].path);
    lemma_restorable_sound(tree.trash, id, now);
    if restorable(tree.trash, id, now) is None {
        lemma_restorable_none(tree.trash, id, now);
        assert(tree.trash[i].id != id);
    } else {
        let k = restorable(tree.trash, id, now)->0;
        if k < i {
            assert(tree.trash[k].id < tree.trash[i].id);
        } else if i < k {
            assert(tree.trash[i].id < tree.trash[k].id);
        }
    }
}

/// The session that may be resumed is one of the very file and of the same device, and no other
/// such session was touched later; there is none only where no session is of that file.
pub proof fn law_latest_session_may_be_resumed(
    uploads: Seq<Upload>,
    device: int,
    declared: Declared,
    candidate: Option<Upload>,
    i: int,
)
    requires
        is_candidate(uploads, device, declared, candidate),
        0 <= i < uploads.len(),
        uploads[i].device == device,
        uploads[i].path == declared.path,
        uploads[i].base_revision == declared.base_revision,
        uploads[i].size == declared.size,
        uploads[i].sha256 == declared.sha256,
    ensures
        candidate matches Some(upload) && uploads.contains(upload) && upload.device == device
            && upload.path == declared.path && upload.touched_at >= uploads[i].touched_at,
{
    assert(resumes(uploads[i], device, declared));
}

/// What a client is answered to the announcement of a file is the state of a session that stands
/// from then on: a session of its device and of the file, with the offset that was answered. An
/// offset above zero is only answered where the content so far is still there.
pub proof fn law_begun_session_stands(
    uploads: Seq<Upload>,
    device: int,
    declared: Declared,
    candidate: Option<Upload>,
    temp_exists: bool,
    id: Seq<char>,
    now: int,
)
    requires
        is_candidate(uploads, device, declared, candidate),
        begun(uploads, device, declared, candidate, temp_exists, id, now).refused is None,
    ensures
        ({
            let done = begun(uploads, device, declared, candidate, temp_exists, id, now);
            &&& exists|i: int|
                0 <= i < done.uploads.len() && (#[trigger] done.uploads[i]).id == done.id
                    && done.uploads[i].device == device && done.uploads[i].path == declared.path
                    && done.uploads[i].base_revision == declared.base_revision
                    && done.uploads[i].size == declared.size && done.uploads[i].sha256
                    == declared.sha256 && done.uploads[i].offset == done.offset
                    && done.uploads[i].touched_at == now
            &&& done.offset > 0 ==> temp_exists && done.offset <= declared.size
        }),
{
    let done = begun(uploads, device, declared, candidate, temp_exists, id, now);
    if candidate is Some && temp_exists && candidate->0.offset <= declared.size {
        let i = choose|i: int| 0 <= i < uploads.len() && uploads[i] == candidate->0;
        assert(done.uploads[i] == Upload { touched_at: now, ..uploads[i] });
    } else {
        let i = done.uploads.len() - 1;
        assert(done.uploads[i] == opened(device, declared, id, now));
    }
}

/// A session whose content is still there is resumed where it stands, whatever the number of
/// sessions; one whose content is gone is given up for a new one.
pub proof fn law_session_resumes_where_it_stands(
    uploads: Seq<Upload>,
    device: int,
    declared: Declared,
    upload: Upload,
    temp_exists: bool,
    id: Seq<char>,
    now: int,
)
    requires
        upload.offset <= declared.size,
    ensures
        ({
            let done = begun(uploads, device, declared, Some(upload), temp_exists, id, now);
            &&& temp_exists ==> done.refused is None && done.id == upload.id && done.offset
                == upload.offset && done.uploads.len() == uploads.len()
            &&& !temp_exists ==> done.offset == 0 && done.id == id && (upload.id != id
                ==> forall|i: int|
                0 <= i < done.uploads.len() ==> (#[trigger] done.uploads[i]).id != upload.id)
        }),
{
    let rest = without_session(uploads, upload.id);
    assert forall|i: int| 0 <= i < rest.len() implies (#[trigger] rest[i]).id != upload.id by {
        lemma_filter_members(uploads, |u: Upload| u.id != upload.id, rest[i]);
        assert(rest.contains(rest[i]));
    }
}

/// A new session is refused only to a device that has as many as it may, or for a name that is
/// in use.
pub proof fn law_new_session_is_refused_only_for_room(
    uploads: Seq<Upload>,
    device: int,
    declared: Declared,
    temp_exists: bool,
    id: Seq<char>,
    now: int,
)
    ensures
        begun(uploads, device, declared, None, temp_exists, id, now).refused is None
            <==> pending_uploads(uploads, device) < 16 && forall|i: int|
            0 <= i < uploads.len() ==> (#[trigger] uploads[i]).id != id,
        begun(uploads, device, declared, None, temp_exists, id, now).refused is None ==> begun(
            uploads,
            device,
            declared,
            None,
            temp_exists,
            id,
            now,
        ).uploads == uploads.push(opened(device, declared, id, now)),
{
}

} // verus!
