//! The server's side of synchronization: which requests on the tree are
//! accepted, what they change and what they answer.
use vstd::prelude::*;

use crate::catalog::{
    Record, Refusal, Tree, Trashed, Upload, RETENTION_SECONDS,
};
use crate::catalog;
use crate::keyed::{distinct, keyed};
use crate::keyed;
use crate::model::{below, is_below, path_ok, valid_path, Entry, Manifest, TrashItem};
use crate::order::{lemma_precedes_total, lemma_precedes_transitive, precedes, text_precedes};
use crate::text::{copy_opt_text, opt_text, same_text, texts};

verus! {

/// A refused request: an HTTP status and a message for the client.
pub struct ApiError(pub u16, pub String);

impl View for ApiError {
    type V = Refusal;

    open spec fn view(&self) -> Refusal {
        Refusal { status: self.0 as int, message: self.1@ }
    }
}

impl ApiError {
    pub fn bad(message: &str) -> (e: Self)
        ensures
            e@ == catalog::bad(message@),
    {
        ApiError(400, message.to_owned())
    }

    pub fn conflict(message: &str) -> (e: Self)
        ensures
            e@ == catalog::conflict(message@),
    {
        ApiError(409, message.to_owned())
    }

    /// The client learns nothing of an internal failure.
    pub fn internal() -> (e: Self)
        ensures
            e@ == catalog::internal(),
    {
        ApiError(500, "internal server error".to_owned())
    }
}

/// One row of the tree, with the name of the blob that holds the content.
pub struct StoredEntry {
    pub public: Entry,
    pub blob: Option<String>,
}

/// One row of the trash.
pub struct TrashRow {
    pub id: i64,
    pub path: String,
    pub blob: String,
    pub sha256: String,
    pub size: i64,
    pub deleted_at: i64,
    pub expires_at: i64,
}

/// One open upload session.
pub struct UploadRow {
    pub id: String,
    pub device_id: i64,
    pub path: String,
    pub base_revision: i64,
    pub size: i64,
    pub sha256: String,
    pub offset: i64,
    pub temp_name: String,
    pub touched_at: i64,
}

/// The rows that requests on files work on.
pub struct ServerState {
    pub generation: i64,
    pub entries: Vec<StoredEntry>,
    pub trash: Vec<TrashRow>,
    pub uploads: Vec<UploadRow>,
}

pub open spec fn opt_int(n: Option<i64>) -> Option<int> {
    match n {
        Some(v) => Some(v as int),
        None => None,
    }
}

impl StoredEntry {
    pub open spec fn row(self) -> (Seq<char>, Record) {
        (
            self.public.path@,
            Record {
                revision: self.public.revision as int,
                blob: opt_text(self.blob),
                sha256: opt_text(self.public.sha256),
                size: opt_int(self.public.size),
                deleted: self.public.deleted,
            },
        )
    }
}

/// `entry` tells a client of `record` under `path`.
pub open spec fn tells(entry: Entry, path: Seq<char>, record: Record) -> bool {
    &&& entry.path@ == path
    &&& entry.revision == record.revision
    &&& opt_text(entry.sha256) == record.sha256
    &&& opt_int(entry.size) == record.size
    &&& entry.deleted == record.deleted
}

impl View for TrashRow {
    type V = Trashed;

    open spec fn view(&self) -> Trashed {
        Trashed {
            id: self.id as int,
            path: self.path@,
            blob: self.blob@,
            sha256: self.sha256@,
            size: self.size as int,
            deleted_at: self.deleted_at as int,
            expires_at: self.expires_at as int,
        }
    }
}

impl View for UploadRow {
    type V = Upload;

    open spec fn view(&self) -> Upload {
        Upload {
            id: self.id@,
            device: self.device_id as int,
            path: self.path@,
            base_revision: self.base_revision as int,
            size: self.size as int,
            sha256: self.sha256@,
            offset: self.offset as int,
            temp_name: self.temp_name@,
            touched_at: self.touched_at as int,
        }
    }
}

pub open spec fn entry_rows(entries: Seq<StoredEntry>) -> Seq<(Seq<char>, Record)> {
    entries.map_values(|e: StoredEntry| e.row())
}

pub open spec fn trash_rows(trash: Seq<TrashRow>) -> Seq<Trashed> {
    trash.map_values(|t: TrashRow| t@)
}

pub open spec fn upload_rows(uploads: Seq<UploadRow>) -> Seq<Upload> {
    uploads.map_values(|u: UploadRow| u@)
}

impl View for ServerState {
    type V = Tree;

    open spec fn view(&self) -> Tree {
        Tree {
            generation: self.generation as int,
            entries: keyed(entry_rows(self.entries@)),
            trash: trash_rows(self.trash@),
            uploads: upload_rows(self.uploads@),
        }
    }
}

/// A request answered as `refused` says.
pub open spec fn answers<T>(result: Result<T, ApiError>, refused: Option<Refusal>) -> bool {
    match result {
        Ok(_) => refused is None,
        Err(e) => refused == Some(e@),
    }
}

impl ServerState {
    /// No path has two rows.
    pub open spec fn wf(self) -> bool {
        distinct(entry_rows(self.entries@))
    }

    /// A state made of rows that were read from storage. `None` where two rows
    /// claim one path.
    pub fn load(
        generation: i64,
        entries: Vec<StoredEntry>,
        trash: Vec<TrashRow>,
        uploads: Vec<UploadRow>,
    ) -> (state: Option<ServerState>)
        ensures
            state is Some <==> distinct(entry_rows(entries@)),
            state matches Some(s) ==> s.wf() && s.generation == generation && s.entries == entries
                && s.trash == trash && s.uploads == uploads,
    {
        let mut i: usize = 0;
        while i < entries.len()
            invariant
                i <= entries.len(),
                forall|a: int, b: int|
                    0 <= a < b < i ==> entry_rows(entries@)[a].0 != entry_rows(entries@)[b].0,
            decreases entries.len() - i,
        {
            let mut j: usize = 0;
            while j < i
                invariant
                    j <= i < entries.len(),
                    forall|a: int|
                        0 <= a < j ==> entry_rows(entries@)[a].0 != entry_rows(entries@)[i as int].0,
                decreases i - j,
            {
                assert(entry_rows(entries@)[j as int].0 == entries@[j as int].public.path@);
                assert(entry_rows(entries@)[i as int].0 == entries@[i as int].public.path@);
                if same_text(entries[j].public.path.as_str(), entries[i].public.path.as_str()) {
                    return None;
                }
                j += 1;
            }
            i += 1;
        }
        Some(ServerState { generation, entries, trash, uploads })
    }

    fn find_entry(&self, path: &str) -> (found: Option<usize>)
        requires
            self.wf(),
        ensures
            match found {
                Some(i) => {
                    &&& i < self.entries@.len()
                    &&& self.entries@[i as int].public.path@ == path@
                    &&& self@.entries.contains_key(path@)
                    &&& self@.entries[path@] == self.entries@[i as int].row().1
                },
                None => !self@.entries.contains_key(path@),
            },
    {
        let mut i: usize = 0;
        while i < self.entries.len()
            invariant
                self.wf(),
                i <= self.entries.len(),
                forall|j: int| 0 <= j < i ==> (#[trigger] self.entries@[j]).public.path@ != path@,
            decreases self.entries.len() - i,
        {
            if same_text(self.entries[i].public.path.as_str(), path) {
                proof {
                    keyed::lemma_keyed_at(entry_rows(self.entries@), i as int);
                }
                return Some(i);
            }
            i += 1;
        }
        proof {
            let rows = entry_rows(self.entries@);
            keyed::lemma_keyed_contains(rows, path@);
            if exists|j: int| 0 <= j < rows.len() && (#[trigger] rows[j]).0 == path@ {
                let j = choose|j: int| 0 <= j < rows.len() && (#[trigger] rows[j]).0 == path@;
                assert(self.entries@[j].public.path@ == path@);
            }
        }
        None
    }

    /// No live file may stand above or below another: wildcards and letter case
    /// mean nothing, only whole path components count.
    pub fn check_path_namespace(&self, path: &str) -> (result: Result<(), ApiError>)
        requires
            self.wf(),
        ensures
            answers(result, catalog::namespace_refusal(self@, path@)),
    {
        let ghost rows = entry_rows(self.entries@);
        let mut under = false;
        let mut over = false;
        let mut i: usize = 0;
        while i < self.entries.len()
            invariant
                self.wf(),
                rows == entry_rows(self.entries@),
                i <= self.entries.len(),
                under == exists|j: int|
                    0 <= j < i && !(#[trigger] rows[j]).1.deleted && is_below(path@, rows[j].0),
                over == exists|j: int|
                    0 <= j < i && !(#[trigger] rows[j]).1.deleted && is_below(rows[j].0, path@),
            decreases self.entries.len() - i,
        {
            assert(rows[i as int] == self.entries@[i as int].row());
            if !self.entries[i].public.deleted {
                if below(path, self.entries[i].public.path.as_str()) {
                    under = true;
                }
                if below(self.entries[i].public.path.as_str(), path) {
                    over = true;
                }
            }
            i += 1;
        }
        proof {
            if under {
                let j = choose|j: int|
                    0 <= j < rows.len() && !(#[trigger] rows[j]).1.deleted && is_below(
                        path@,
                        rows[j].0,
                    );
                keyed::lemma_keyed_at(rows, j);
                assert(catalog::live(self@, rows[j].0));
            }
            if over {
                let j = choose|j: int|
                    0 <= j < rows.len() && !(#[trigger] rows[j]).1.deleted && is_below(
                        rows[j].0,
                        path@,
                    );
                keyed::lemma_keyed_at(rows, j);
                assert(catalog::live(self@, rows[j].0));
            }
            if catalog::under_live_file(self@, path@) {
                let other = choose|other: Seq<char>| #[trigger]
                    catalog::live(self@, other) && is_below(path@, other);
                keyed::lemma_keyed_contains(rows, other);
                let j = choose|j: int| 0 <= j < rows.len() && (#[trigger] rows[j]).0 == other;
                keyed::lemma_keyed_at(rows, j);
            }
            if catalog::over_live_file(self@, path@) {
                let other = choose|other: Seq<char>| #[trigger]
                    catalog::live(self@, other) && is_below(other, path@);
                keyed::lemma_keyed_contains(rows, other);
                let j = choose|j: int| 0 <= j < rows.len() && (#[trigger] rows[j]).0 == other;
                keyed::lemma_keyed_at(rows, j);
            }
        }
        if under {
            return Err(ApiError::conflict("an ancestor of this path is a live file"));
        }
        if over {
            return Err(ApiError::conflict("this path contains live files"));
        }
        Ok(())
    }

    /// Puts a row in place of the one under the same path, or adds it. Returns the
    /// row that was there.
    fn put_entry(&mut self, entry: StoredEntry) -> (previous: Option<StoredEntry>)
        requires
            old(self).wf(),
        ensures
            final(self).wf(),
            final(self)@ == (Tree {
                entries: old(self)@.entries.insert(entry.row().0, entry.row().1),
                ..old(self)@
            }),
            match previous {
                Some(p) => old(self)@.entries.contains_key(entry.row().0) && p.row() == (
                    entry.row().0,
                    old(self)@.entries[entry.row().0],
                ),
                None => !old(self)@.entries.contains_key(entry.row().0),
            },
    {
        let ghost rows = entry_rows(self.entries@);
        let found = self.find_entry(entry.public.path.as_str());
        match found {
            Some(i) => {
                let mut slot = entry;
                proof {
                    keyed::lemma_keyed_update(rows, i as int, slot.row().1);
                    assert(entry_rows(self.entries@.update(i as int, slot)) =~= rows.update(
                        i as int,
                        (rows[i as int].0, slot.row().1),
                    ));
                }
                std::mem::swap(&mut self.entries[i], &mut slot);
                Some(slot)
            },
            None => {
                proof {
                    keyed::lemma_keyed_push(rows, entry.row().0, entry.row().1);
                    assert(entry_rows(self.entries@.push(entry)) =~= rows.push(entry.row()));
                }
                self.entries.push(entry);
                None
            },
        }
    }
}

/// What an accepted new version leaves to do: the entry to answer with, the blob
/// that now holds the content, and the blob that is no longer referenced.
pub struct Committed {
    pub entry: Entry,
    pub blob: String,
    pub replaced_blob: Option<String>,
}

/// What an accepted deletion leaves to do: the entry to answer with, and the row
/// that went to the trash, if the file was not deleted already.
pub struct Deletion {
    pub entry: Entry,
    pub trashed: Option<TrashRow>,
}

pub fn copy_entry(entry: &Entry) -> (copy: Entry)
    ensures
        forall|path: Seq<char>, record: Record| #[trigger]
            tells(*entry, path, record) ==> tells(copy, path, record),
        copy.path@ == entry.path@,
        copy.revision == entry.revision,
        opt_text(copy.sha256) == opt_text(entry.sha256),
        copy.size == entry.size,
        copy.deleted == entry.deleted,
{
    Entry {
        path: entry.path.clone(),
        revision: entry.revision,
        sha256: copy_opt_text(&entry.sha256),
        size: entry.size,
        deleted: entry.deleted,
    }
}

pub fn validate_path(path: &str) -> (result: Result<(), ApiError>)
    ensures
        answers(
            result,
            if path_ok(path@) {
                None
            } else {
                Some(catalog::bad("invalid path"@))
            },
        ),
{
    if valid_path(path) {
        Ok(())
    } else {
        Err(ApiError::bad("invalid path"))
    }
}

impl ServerState {
    /// The revision under `path`; zero where the path was never used.
    pub fn current_revision(&self, path: &str) -> (revision: i64)
        requires
            self.wf(),
        ensures
            revision == catalog::revision_at(self@, path@),
    {
        match self.find_entry(path) {
            Some(i) => self.entries[i].public.revision,
            None => 0,
        }
    }

    /// Makes `blob` the content of `path`, provided that the client started from
    /// the current revision.
    pub fn commit_upload(
        &mut self,
        path: &str,
        base: i64,
        blob: String,
        digest: String,
        size: i64,
    ) -> (result: Result<Committed, ApiError>)
        requires
            old(self).wf(),
        ensures
            final(self).wf(),
            answers(result, catalog::commit_refusal(old(self)@, path@, base as int)),
            match result {
                Ok(done) => {
                    let next = catalog::committed(
                        old(self)@,
                        path@,
                        blob@,
                        digest@,
                        size as int,
                    );
                    &&& final(self)@ == next
                    &&& tells(done.entry, path@, next.entries[path@])
                    &&& done.blob@ == blob@
                    &&& opt_text(done.replaced_blob) == (if old(self)@.entries.contains_key(path@) {
                        old(self)@.entries[path@].blob
                    } else {
                        None
                    })
                },
                Err(_) => *final(self) == *old(self),
            },
    {
        validate_path(path)?;
        self.check_path_namespace(path)?;
        let current = self.current_revision(path);
        if current != base {
            return Err(ApiError::conflict("server version wins; refresh manifest"));
        }
        if self.generation == i64::MAX {
            return Err(ApiError::internal());
        }
        let revision: i64 = self.generation + 1;
        let row = StoredEntry {
            public: Entry {
                path: path.to_owned(),
                revision,
                sha256: Some(digest.clone()),
                size: Some(size),
                deleted: false,
            },
            blob: Some(blob.clone()),
        };
        let previous = self.put_entry(row);
        self.generation = revision;
        let replaced_blob = match previous {
            Some(row) => row.blob,
            None => None,
        };
        Ok(
            Committed {
                entry: Entry {
                    path: path.to_owned(),
                    revision,
                    sha256: Some(digest),
                    size: Some(size),
                    deleted: false,
                },
                blob,
                replaced_blob,
            },
        )
    }

    fn last_trash_id(&self) -> (id: i64)
        ensures
            id == catalog::last_trash_id(self@.trash),
    {
        let ghost rows = self@.trash;
        if self.trash.len() == 0 {
            return 0;
        }
        let mut id: i64 = self.trash[0].id;
        let mut i: usize = 1;
        assert(rows.take(1).len() == 1);
        while i < self.trash.len()
            invariant
                1 <= i <= self.trash.len(),
                rows == self@.trash,
                id == catalog::last_trash_id(rows.take(i as int)),
            decreases self.trash.len() - i,
        {
            assert(rows.take(i as int + 1).drop_last() =~= rows.take(i as int));
            assert(rows[i as int] == self.trash@[i as int]@);
            if self.trash[i].id > id {
                id = self.trash[i].id;
            }
            i += 1;
        }
        assert(rows.take(rows.len() as int) =~= rows);
        id
    }

    /// Deletes `path`, provided that the client saw the current revision. The
    /// content stays in the trash for the retention time.
    pub fn delete(&mut self, path: &str, base: Option<i64>, now: i64) -> (result: Result<
        Deletion,
        ApiError,
    >)
        requires
            old(self).wf(),
            now <= i64::MAX - RETENTION_SECONDS,
        ensures
            final(self).wf(),
            answers(result, catalog::delete_refusal(old(self)@, path@, base)),
            match result {
                Ok(done) => {
                    let next = catalog::deleted(old(self)@, path@, now as int);
                    &&& final(self)@ == next
                    &&& tells(done.entry, path@, next.entries[path@])
                    &&& match done.trashed {
                        Some(row) => !old(self)@.entries[path@].deleted && row@
                            == catalog::trashed(old(self)@, path@, now as int),
                        None => old(self)@.entries[path@].deleted,
                    }
                },
                Err(_) => *final(self) == *old(self),
            },
    {
        validate_path(path)?;
        let base: i64 = match base {
            Some(base) => base,
            None => return Err(ApiError::bad("base_revision required")),
        };
        let index: usize = match self.find_entry(path) {
            Some(i) => i,
            None => return Err(ApiError::conflict("file is absent on server")),
        };
        if self.entries[index].public.revision != base {
            return Err(ApiError::conflict("server version wins; refresh manifest"));
        }
        if self.entries[index].public.deleted {
            return Ok(
                Deletion { entry: copy_entry(&self.entries[index].public), trashed: None },
            );
        }
        let last = self.last_trash_id();
        let blob = copy_opt_text(&self.entries[index].blob);
        let sha256 = copy_opt_text(&self.entries[index].public.sha256);
        let size = self.entries[index].public.size;
        match (blob, sha256, size) {
            (Some(blob), Some(sha256), Some(size)) => {
                if last == i64::MAX || self.generation == i64::MAX {
                    return Err(ApiError::internal());
                }
                let revision: i64 = self.generation + 1;
                let row = TrashRow {
                    id: last + 1,
                    path: path.to_owned(),
                    blob: blob.clone(),
                    sha256: sha256.clone(),
                    size,
                    deleted_at: now,
                    expires_at: now + RETENTION_SECONDS,
                };
                let kept = TrashRow {
                    id: last + 1,
                    path: path.to_owned(),
                    blob,
                    sha256,
                    size,
                    deleted_at: now,
                    expires_at: now + RETENTION_SECONDS,
                };
                let previous = self.put_entry(
                    StoredEntry {
                        public: Entry {
                            path: path.to_owned(),
                            revision,
                            sha256: None,
                            size: None,
                            deleted: true,
                        },
                        blob: None,
                    },
                );
                self.generation = revision;
                let ghost rows = trash_rows(self.trash@);
                self.trash.push(kept);
                assert(trash_rows(self.trash@) =~= rows.push(kept@));
                Ok(
                    Deletion {
                        entry: Entry {
                            path: path.to_owned(),
                            revision,
                            sha256: None,
                            size: None,
                            deleted: true,
                        },
                        trashed: Some(row),
                    },
                )
            },
            _ => Err(ApiError::internal()),
        }
    }
}

impl ServerState {
    fn drop_item(&mut self, id: i64)
        ensures
            final(self)@.trash == catalog::without_item(old(self)@.trash, id as int),
            final(self).generation == old(self).generation,
            final(self).entries == old(self).entries,
            final(self).uploads == old(self).uploads,
    {
        let ghost start = self@.trash;
        let ghost keep = |item: Trashed| item.id != id as int;
        let ghost mut seen: int = 0;
        let mut i: usize = 0;
        assert(start.take(0).filter(keep) =~= Seq::<Trashed>::empty()) by {
            reveal(Seq::filter);
        }
        while i < self.trash.len()
            invariant
                i <= self.trash.len(),
                0 <= seen <= start.len(),
                start.len() - seen == self.trash.len() - i,
                start == old(self)@.trash,
                keep == (|item: Trashed| item.id != id as int),
                trash_rows(self.trash@).take(i as int) == start.take(seen).filter(keep),
                trash_rows(self.trash@).skip(i as int) == start.skip(seen),
                self.generation == old(self).generation,
                self.entries == old(self).entries,
                self.uploads == old(self).uploads,
            decreases self.trash.len() - i,
        {
            let ghost rows = trash_rows(self.trash@);
            proof {
                assert(rows.skip(i as int)[0] == start.skip(seen)[0]);
                assert(rows[i as int] == start[seen]);
                assert(rows.skip(i as int).skip(1) =~= start.skip(seen).skip(1));
                assert(start.skip(seen).skip(1) =~= start.skip(seen + 1));
                catalog::lemma_filter_step(start, seen, keep);
                seen = seen + 1;
            }
            if self.trash[i].id == id {
                self.trash.remove(i);
                assert(trash_rows(self.trash@) =~= rows.remove(i as int));
                assert(trash_rows(self.trash@).take(i as int) =~= rows.take(i as int));
                assert(trash_rows(self.trash@).skip(i as int) =~= rows.skip(i as int).skip(1));
            } else {
                assert(rows.take(i as int + 1) =~= rows.take(i as int).push(rows[i as int]));
                assert(rows.skip(i as int + 1) =~= rows.skip(i as int).skip(1));
                i += 1;
            }
        }
        assert(trash_rows(self.trash@).take(i as int) =~= trash_rows(self.trash@));
        assert(start.take(seen) =~= start);
    }

    fn find_item(&self, id: i64, now: i64) -> (found: Option<usize>)
        ensures
            match found {
                Some(i) => i < self.trash@.len() && catalog::restorable(
                    self@.trash,
                    id as int,
                    now as int,
                ) == Some(i as int),
                None => catalog::restorable(self@.trash, id as int, now as int) is None,
            },
    {
        let ghost rows = self@.trash;
        let mut found: Option<usize> = None;
        let mut i: usize = 0;
        while i < self.trash.len()
            invariant
                i <= self.trash.len(),
                rows == self@.trash,
                match found {
                    Some(k) => k < i && catalog::restorable(
                        rows.take(i as int),
                        id as int,
                        now as int,
                    ) == Some(k as int),
                    None => catalog::restorable(rows.take(i as int), id as int, now as int) is None,
                },
            decreases self.trash.len() - i,
        {
            assert(rows.take(i as int + 1).drop_last() =~= rows.take(i as int));
            assert(rows[i as int] == self.trash@[i as int]@);
            if found.is_none() && self.trash[i].id == id && self.trash[i].expires_at > now {
                found = Some(i);
            }
            i += 1;
        }
        assert(rows.take(rows.len() as int) =~= rows);
        found
    }

    /// Brings a trash item back under its path, unless a live file is in the way.
    pub fn restore(&mut self, id: i64, now: i64) -> (result: Result<Entry, ApiError>)
        requires
            old(self).wf(),
        ensures
            final(self).wf(),
            answers(result, catalog::restore_refusal(old(self)@, id as int, now as int)),
            match result {
                Ok(entry) => {
                    let path = old(self)@.trash[catalog::restorable(
                        old(self)@.trash,
                        id as int,
                        now as int,
                    )->0].path;
                    let next = catalog::restored(old(self)@, id as int, now as int);
                    &&& final(self)@ == next
                    &&& tells(entry, path, next.entries[path])
                },
                Err(_) => *final(self) == *old(self),
            },
    {
        let index: usize = match self.find_item(id, now) {
            Some(i) => i,
            None => return Err(ApiError(404, "trash item not found".to_owned())),
        };
        let path = self.trash[index].path.clone();
        let blob = self.trash[index].blob.clone();
        let sha256 = self.trash[index].sha256.clone();
        let size: i64 = self.trash[index].size;
        validate_path(path.as_str())?;
        self.check_path_namespace(path.as_str())?;
        match self.find_entry(path.as_str()) {
            Some(i) => {
                if !self.entries[i].public.deleted {
                    return Err(ApiError::conflict("a live file already exists at this path"));
                }
            },
            None => {},
        }
        if self.generation == i64::MAX {
            return Err(ApiError::internal());
        }
        let revision: i64 = self.generation + 1;
        let previous = self.put_entry(
            StoredEntry {
                public: Entry {
                    path: path.clone(),
                    revision,
                    sha256: Some(sha256.clone()),
                    size: Some(size),
                    deleted: false,
                },
                blob: Some(blob),
            },
        );
        self.generation = revision;
        self.drop_item(id);
        Ok(Entry { path, revision, sha256: Some(sha256), size: Some(size), deleted: false })
    }

    /// The trash items that can be restored, the latest deletion first.
    pub fn list_trash(&self, now: i64) -> (items: Vec<TrashItem>)
        ensures
            forall|i: int, j: int|
                0 <= i < j < items@.len() ==> items@[i].deleted_at >= items@[j].deleted_at,
            listing(items@).to_multiset() == catalog::unexpired(
                self@.trash,
                now as int,
            ).map_values(|t: Trashed| listed(t)).to_multiset(),
    {
        let ghost rows = self@.trash;
        let ghost keep = |item: Trashed| item.expires_at > now as int;
        let ghost show = |t: Trashed| listed(t);
        let mut items: Vec<TrashItem> = Vec::new();
        let mut i: usize = 0;
        proof {
            reveal(Seq::filter);
            assert(rows.take(0).filter(keep) =~= Seq::<Trashed>::empty());
            assert(listing(items@) =~= rows.take(0).filter(keep).map_values(show));
        }
        while i < self.trash.len()
            invariant
                i <= self.trash.len(),
                rows == self@.trash,
                keep == (|item: Trashed| item.expires_at > now as int),
                show == (|t: Trashed| listed(t)),
                forall|a: int, b: int|
                    0 <= a < b < items@.len() ==> items@[a].deleted_at >= items@[b].deleted_at,
                listing(items@).to_multiset() == rows.take(i as int).filter(keep).map_values(
                    show,
                ).to_multiset(),
            decreases self.trash.len() - i,
        {
            let row = &self.trash[i];
            let ghost before = rows.take(i as int).filter(keep);
            proof {
                assert(rows[i as int] == row@);
                catalog::lemma_filter_step(rows, i as int, keep);
            }
            if row.expires_at > now {
                let mut k: usize = 0;
                while k < items.len() && items[k].deleted_at >= row.deleted_at
                    invariant
                        k <= items.len(),
                        forall|a: int|
                            0 <= a < k ==> (#[trigger] items@[a]).deleted_at >= row.deleted_at,
                    decreases items.len() - k,
                {
                    k += 1;
                }
                let ghost shown = listing(items@);
                let item = TrashItem {
                    id: row.id,
                    path: row.path.clone(),
                    size: row.size,
                    deleted_at: row.deleted_at,
                    expires_at: row.expires_at,
                };
                proof {
                    let more = items@.insert(k as int, item);
                    assert(listing(more) =~= shown.insert(k as int, listed(row@)));
                    vstd::seq_lib::to_multiset_insert(shown, k as int, listed(row@));
                    assert(before.push(row@).map_values(show) =~= before.map_values(show).push(
                        listed(row@),
                    ));
                    before.map_values(show).to_multiset_ensures();
                    assert forall|a: int, b: int| 0 <= a < b < more.len() implies more[a].deleted_at
                        >= more[b].deleted_at by {
                        if k < items@.len() {
                            assert(items@[k as int].deleted_at < row.deleted_at);
                        }
                        let x = if a < k {
                            a
                        } else {
                            a - 1
                        };
                        let y = if b < k {
                            b
                        } else {
                            b - 1
                        };
                        if a < k && b < k {
                        } else if a < k && b == k {
                            assert(items@[a].deleted_at >= row.deleted_at);
                        } else if a < k {
                            assert(more[b] == items@[y]);
                        } else if a == k {
                            assert(more[b] == items@[y]);
                            assert(items@[k as int].deleted_at >= items@[y].deleted_at || y == k);
                        } else {
                            assert(more[a] == items@[x]);
                            assert(more[b] == items@[y]);
                        }
                    }
                }
                items.insert(k, item);
            }
            i += 1;
        }
        assert(rows.take(rows.len() as int) =~= rows);
        items
    }
}

/// What a client learns of a trash item.
pub struct Listed {
    pub id: int,
    pub path: Seq<char>,
    pub size: int,
    pub deleted_at: int,
    pub expires_at: int,
}

pub open spec fn listed(row: Trashed) -> Listed {
    Listed {
        id: row.id,
        path: row.path,
        size: row.size,
        deleted_at: row.deleted_at,
        expires_at: row.expires_at,
    }
}

impl View for TrashItem {
    type V = Listed;

    open spec fn view(&self) -> Listed {
        Listed {
            id: self.id as int,
            path: self.path@,
            size: self.size as int,
            deleted_at: self.deleted_at as int,
            expires_at: self.expires_at as int,
        }
    }
}

pub open spec fn listing(items: Seq<TrashItem>) -> Seq<Listed> {
    items.map_values(|item: TrashItem| item@)
}

/// Removes the trash items whose time has run out, and returns the blobs that
/// held their contents.
pub fn purge_expired(state: &mut ServerState, now: i64) -> (blobs: Vec<String>)
    ensures
        final(state)@ == (Tree {
            trash: catalog::unexpired(old(state)@.trash, now as int),
            ..old(state)@
        }),
        final(state).entries == old(state).entries,
        texts(blobs@) == catalog::expired(old(state)@.trash, now as int).map_values(
            |t: Trashed| t.blob,
        ),
{
    let ghost start = state@.trash;
    let ghost keep = |item: Trashed| item.expires_at > now as int;
    let ghost gone = |item: Trashed| item.expires_at <= now as int;
    let ghost blob_of = |t: Trashed| t.blob;
    let ghost mut seen: int = 0;
    let mut blobs: Vec<String> = Vec::new();
    let mut i: usize = 0;
    proof {
        reveal(Seq::filter);
        assert(start.take(0).filter(keep) =~= Seq::<Trashed>::empty());
        assert(start.take(0).filter(gone) =~= Seq::<Trashed>::empty());
        assert(texts(blobs@) =~= start.take(0).filter(gone).map_values(blob_of));
    }
    while i < state.trash.len()
        invariant
            i <= state.trash.len(),
            0 <= seen <= start.len(),
            start.len() - seen == state.trash.len() - i,
            start == old(state)@.trash,
            keep == (|item: Trashed| item.expires_at > now as int),
            gone == (|item: Trashed| item.expires_at <= now as int),
            blob_of == (|t: Trashed| t.blob),
            trash_rows(state.trash@).take(i as int) == start.take(seen).filter(keep),
            trash_rows(state.trash@).skip(i as int) == start.skip(seen),
            texts(blobs@) == start.take(seen).filter(gone).map_values(blob_of),
            state.generation == old(state).generation,
            state.entries == old(state).entries,
            state.uploads == old(state).uploads,
        decreases state.trash.len() - i,
    {
        let ghost rows = trash_rows(state.trash@);
        let ghost expired_before = start.take(seen).filter(gone);
        proof {
            assert(rows.skip(i as int)[0] == start.skip(seen)[0]);
            assert(rows[i as int] == start[seen]);
            assert(rows.skip(i as int).skip(1) =~= start.skip(seen).skip(1));
            assert(start.skip(seen).skip(1) =~= start.skip(seen + 1));
            catalog::lemma_filter_step(start, seen, keep);
            catalog::lemma_filter_step(start, seen, gone);
            seen = seen + 1;
        }
        if state.trash[i].expires_at <= now {
            let row = state.trash.remove(i);
            let ghost taken = row.blob@;
            let ghost already = blobs@;
            blobs.push(row.blob);
            assert(trash_rows(state.trash@) =~= rows.remove(i as int));
            assert(trash_rows(state.trash@).take(i as int) =~= rows.take(i as int));
            assert(trash_rows(state.trash@).skip(i as int) =~= rows.skip(i as int).skip(1));
            assert(texts(blobs@) =~= texts(already).push(taken));
            assert(expired_before.push(start[seen - 1]).map_values(blob_of)
                =~= expired_before.map_values(blob_of).push(taken));
        } else {
            assert(rows.take(i as int + 1) =~= rows.take(i as int).push(rows[i as int]));
            assert(rows.skip(i as int + 1) =~= rows.skip(i as int).skip(1));
            i += 1;
        }
    }
    assert(trash_rows(state.trash@).take(i as int) =~= trash_rows(state.trash@));
    assert(start.take(seen) =~= start);
    blobs
}

/// Removes one trash item for good, expired or not, and returns the blob that held
/// its content. `None` where there is no such item.
pub fn purge_trash_item(state: &mut ServerState, id: i64) -> (blob: Option<String>)
    ensures
        final(state)@ == (Tree {
            trash: catalog::without_item(old(state)@.trash, id as int),
            ..old(state)@
        }),
        final(state).entries == old(state).entries,
        match blob {
            Some(b) => exists|i: int|
                0 <= i < old(state)@.trash.len() && (#[trigger] old(state)@.trash[i]).id == id
                    && old(state)@.trash[i].blob == b@,
            None => forall|i: int|
                0 <= i < old(state)@.trash.len() ==> (#[trigger] old(state)@.trash[i]).id != id,
        },
{
    let mut i: usize = 0;
    while i < state.trash.len()
        invariant
            i <= state.trash.len(),
            *state == *old(state),
            forall|j: int| 0 <= j < i ==> (#[trigger] state@.trash[j]).id != id,
        decreases state.trash.len() - i,
    {
        assert(state@.trash[i as int] == state.trash@[i as int]@);
        if state.trash[i].id == id {
            let blob = state.trash[i].blob.clone();
            state.drop_item(id);
            return Some(blob);
        }
        i += 1;
    }
    proof {
        let keep = |item: Trashed| item.id != id as int;
        assert forall|j: int| 0 <= j < state@.trash.len() implies keep(
            #[trigger] state@.trash[j],
        ) by {}
        catalog::lemma_filter_all(state@.trash, keep);
    }
    None
}

/// Every path comes before those after it.
pub open spec fn ordered(entries: Seq<Entry>) -> bool {
    forall|i: int, j: int|
        0 <= i < j < entries.len() ==> precedes(
            (#[trigger] entries[i]).path@,
            (#[trigger] entries[j]).path@,
        )
}

/// The first position whose path does not come before the given one.
fn position_of(entries: &Vec<Entry>, path: &str) -> (k: usize)
    requires
        ordered(entries@),
    ensures
        k <= entries@.len(),
        forall|a: int| 0 <= a < k ==> precedes((#[trigger] entries@[a]).path@, path@),
        k < entries@.len() ==> !precedes(entries@[k as int].path@, path@),
{
    let mut low: usize = 0;
    let mut high: usize = entries.len();
    while low < high
        invariant
            low <= high <= entries@.len(),
            ordered(entries@),
            forall|a: int| 0 <= a < low ==> precedes((#[trigger] entries@[a]).path@, path@),
            high < entries@.len() ==> !precedes(entries@[high as int].path@, path@),
        decreases high - low,
    {
        let middle: usize = low + (high - low) / 2;
        if text_precedes(entries[middle].path.as_str(), path) {
            proof {
                assert forall|a: int| 0 <= a < middle + 1 implies precedes(
                    (#[trigger] entries@[a]).path@,
                    path@,
                ) by {
                    if a < middle {
                        lemma_precedes_transitive(
                            entries@[a].path@,
                            entries@[middle as int].path@,
                            path@,
                        );
                    }
                }
            }
            low = middle + 1;
        } else {
            high = middle;
        }
    }
    low
}

fn insert_by_path(entries: &mut Vec<Entry>, entry: Entry) -> (k: usize)
    requires
        ordered(old(entries)@),
        forall|a: int|
            0 <= a < old(entries)@.len() ==> (#[trigger] old(entries)@[a]).path@ != entry.path@,
    ensures
        k <= old(entries)@.len(),
        final(entries)@ == old(entries)@.insert(k as int, entry),
        ordered(final(entries)@),
{
    let ghost before = entries@;
    let k = position_of(entries, entry.path.as_str());
    proof {
        let after = before.insert(k as int, entry);
        if k < before.len() {
            lemma_precedes_total(before[k as int].path@, entry.path@);
        }
        assert forall|a: int, b: int| 0 <= a < b < after.len() implies precedes(
            (#[trigger] after[a]).path@,
            (#[trigger] after[b]).path@,
        ) by {
            if b < k {
                assert(after[a] == before[a] && after[b] == before[b]);
            } else if b == k {
                assert(after[a] == before[a]);
            } else if a < k {
                assert(after[a] == before[a] && after[b] == before[b - 1]);
            } else if a == k {
                assert(after[b] == before[b - 1]);
                if b - 1 > k {
                    lemma_precedes_transitive(
                        entry.path@,
                        before[k as int].path@,
                        before[b - 1].path@,
                    );
                }
            } else {
                assert(after[a] == before[a - 1] && after[b] == before[b - 1]);
            }
        }
    }
    entries.insert(k, entry);
    k
}

impl ServerState {
    /// Everything a client needs to reconcile with, in the order of paths.
    pub fn manifest(&self) -> (manifest: Manifest)
        requires
            self.wf(),
        ensures
            manifest.generation == self.generation,
            ordered(manifest.entries@),
            forall|i: int|
                0 <= i < manifest.entries@.len() ==> {
                    let entry = #[trigger] manifest.entries@[i];
                    &&& self@.entries.contains_key(entry.path@)
                    &&& tells(entry, entry.path@, self@.entries[entry.path@])
                },
            forall|path: Seq<char>| #[trigger]
                self@.entries.contains_key(path) ==> exists|i: int|
                    0 <= i < manifest.entries@.len() && (#[trigger] manifest.entries@[i]).path@
                        == path,
    {
        let ghost rows = entry_rows(self.entries@);
        let ghost mut sources: Seq<int> = Seq::empty();
        let mut sorted: Vec<Entry> = Vec::new();
        let mut i: usize = 0;
        while i < self.entries.len()
            invariant
                self.wf(),
                rows == entry_rows(self.entries@),
                i <= self.entries.len(),
                ordered(sorted@),
                sources.len() == sorted@.len(),
                forall|a: int| #![trigger sources[a]]
                    0 <= a < sources.len() ==> 0 <= sources[a] < i && tells(
                        sorted@[a],
                        rows[sources[a]].0,
                        rows[sources[a]].1,
                    ),
                forall|j: int| 0 <= j < i ==> #[trigger] sources.contains(j),
            decreases self.entries.len() - i,
        {
            let entry = copy_entry(&self.entries[i].public);
            let ghost new = entry;
            let ghost old_sources = sources;
            let ghost before = sorted@;
            proof {
                assert(rows[i as int] == self.entries@[i as int].row());
                assert(tells(self.entries@[i as int].public, rows[i as int].0, rows[i as int].1));
                assert forall|a: int| 0 <= a < before.len() implies (#[trigger] before[a]).path@
                    != new.path@ by {
                    let j = sources[a];
                    assert(rows[j].0 != rows[i as int].0);
                }
            }
            let k = insert_by_path(&mut sorted, entry);
            proof {
                sources = sources.insert(k as int, i as int);
                assert forall|a: int| #![trigger sources[a]] 0 <= a < sources.len() implies 0
                    <= sources[a] < i + 1 && tells(
                    sorted@[a],
                    rows[sources[a]].0,
                    rows[sources[a]].1,
                ) by {
                    if a < k {
                        assert(sources[a] == old_sources[a]);
                    } else if a > k {
                        assert(sources[a] == old_sources[a - 1]);
                    }
                }
                assert forall|j: int| 0 <= j < i + 1 implies #[trigger] sources.contains(j) by {
                    if j == i {
                        assert(sources[k as int] == j);
                    } else {
                        assert(old_sources.contains(j));
                        let a = choose|a: int| 0 <= a < old_sources.len() && old_sources[a] == j;
                        let y = if a < k {
                            a
                        } else {
                            a + 1
                        };
                        assert(sources[y] == j);
                    }
                }
            }
            i += 1;
        }
        proof {
            assert forall|a: int| 0 <= a < sorted@.len() implies {
                let entry = #[trigger] sorted@[a];
                &&& self@.entries.contains_key(entry.path@)
                &&& tells(entry, entry.path@, self@.entries[entry.path@])
            } by {
                keyed::lemma_keyed_at(rows, sources[a]);
            }
            assert forall|path: Seq<char>| #[trigger]
                self@.entries.contains_key(path) implies exists|a: int|
                0 <= a < sorted@.len() && (#[trigger] sorted@[a]).path@ == path by {
                keyed::lemma_keyed_contains(rows, path);
                let j = choose|j: int| 0 <= j < rows.len() && (#[trigger] rows[j]).0 == path;
                assert(sources.contains(j));
                let a = choose|a: int| 0 <= a < sources.len() && sources[a] == j;
                assert(sorted@[a].path@ == path);
            }
        }
        Manifest { generation: self.generation, entries: sorted }
    }

    /// The blob that holds one revision of a file, and its size.
    pub fn download(&self, path: &str, revision: Option<i64>) -> (result: Result<
        (String, i64),
        ApiError,
    >)
        requires
            self.wf(),
        ensures
            answers(result, download_refusal(self@, path@, revision)),
            result matches Ok((blob, size)) ==> Some(blob@) == self@.entries[path@].blob && size
                == (match self@.entries[path@].size {
                Some(n) => n,
                None => 0,
            }),
    {
        validate_path(path)?;
        let requested: i64 = match revision {
            Some(revision) => revision,
            None => return Err(ApiError::bad("revision required")),
        };
        let index: usize = match self.find_entry(path) {
            Some(i) => i,
            None => return Err(ApiError(404, "file not found".to_owned())),
        };
        if self.entries[index].public.revision != requested || self.entries[index].public.deleted {
            return Err(ApiError::conflict("revision changed"));
        }
        let size: i64 = match self.entries[index].public.size {
            Some(size) => size,
            None => 0,
        };
        match copy_opt_text(&self.entries[index].blob) {
            Some(blob) => Ok((blob, size)),
            None => Err(ApiError::internal()),
        }
    }
}

/// Why one revision of a file is not served.
pub open spec fn download_refusal(tree: Tree, path: Seq<char>, revision: Option<i64>) -> Option<
    Refusal,
> {
    if !path_ok(path) {
        Some(catalog::bad("invalid path"@))
    } else if revision is None {
        Some(catalog::bad("revision required"@))
    } else if !tree.entries.contains_key(path) {
        Some(catalog::refusal(404, "file not found"@))
    } else if tree.entries[path].revision != revision->0 || tree.entries[path].deleted {
        Some(catalog::conflict("revision changed"@))
    } else if tree.entries[path].blob is None {
        Some(catalog::internal())
    } else {
        None
    }
}

/// A file is served exactly where its path is acceptable and known, the file is live and stored,
/// and the client asks for its current revision. 400 stands for the request itself, 404 for a
/// path that was never used, 409 for a file that changed or is gone.
pub proof fn law_current_revision_is_served(tree: Tree, path: Seq<char>, revision: Option<i64>)
    ensures
        download_refusal(tree, path, revision) is None <==> path_ok(path) && revision is Some
            && tree.entries.contains_key(path) && !tree.entries[path].deleted
            && tree.entries[path].revision == revision->0 && tree.entries[path].blob is Some,
        !path_ok(path) || revision is None ==> (download_refusal(tree, path, revision) matches Some(
            r,
        ) && r.status == 400),
        path_ok(path) && revision is Some && !tree.entries.contains_key(path) ==> (
        download_refusal(tree, path, revision) matches Some(r) && r.status == 404),
        path_ok(path) && revision is Some && tree.entries.contains_key(path) && (
        tree.entries[path].deleted || tree.entries[path].revision != revision->0) ==> (
        download_refusal(tree, path, revision) matches Some(r) && r.status == 409),
{
}

/// In a sound tree every live file of an acceptable path is served at its own revision, whatever
/// the generation is and whatever the other paths are.
pub proof fn law_every_live_file_is_served(tree: Tree, path: Seq<char>, revision: i64)
    requires
        catalog::sound(tree),
        path_ok(path),
        tree.entries.contains_key(path),
        !tree.entries[path].deleted,
        tree.entries[path].revision == revision,
    ensures
        download_refusal(tree, path, Some(revision)) is None,
{
    assert(catalog::live(tree, path));
}

/// What a path is answered rests on its own record alone.
pub proof fn law_download_depends_on_one_path(
    tree: Tree,
    other: Tree,
    path: Seq<char>,
    revision: Option<i64>,
)
    requires
        tree.entries.contains_key(path) == other.entries.contains_key(path),
        tree.entries[path] == other.entries[path],
    ensures
        download_refusal(tree, path, revision) == download_refusal(other, path, revision),
{
}

/// A file that was just committed is served at its new revision, and no longer at another one.
pub proof fn law_committed_file_is_served(
    tree: Tree,
    path: Seq<char>,
    blob: Seq<char>,
    sha256: Seq<char>,
    size: int,
    revision: i64,
)
    requires
        path_ok(path),
    ensures
        download_refusal(
            catalog::committed(tree, path, blob, sha256, size),
            path,
            Some(revision),
        ) is None <==> revision == tree.generation + 1,
{
}

/// An entry of the manifest tells all of a record but where the content is kept.
pub proof fn law_entry_tells_the_record(entry: Entry, path: Seq<char>, a: Record, b: Record)
    requires
        tells(entry, path, a),
    ensures
        tells(entry, path, b) <==> a.revision == b.revision && a.sha256 == b.sha256 && a.size
            == b.size && a.deleted == b.deleted,
        entry.path@ == path,
        entry.revision == a.revision,
        entry.deleted == a.deleted,
{
}

/// A line of the trash list is what the trash holds, without the content.
pub proof fn law_trash_line_tells_the_item(row: Trashed)
    ensures
        listed(row).id == row.id,
        listed(row).path == row.path,
        listed(row).size == row.size,
        listed(row).deleted_at == row.deleted_at,
        listed(row).expires_at == row.expires_at,
{
}

} // verus!
