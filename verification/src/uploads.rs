//! Uploads: bodies that arrive in one request, and sessions that take a large
//! file in several.
use vstd::prelude::*;

use crate::catalog;
use crate::catalog::{Declared, Refusal, Tree, Upload, MAX_UPLOAD_SESSIONS_PER_DEVICE, UPLOAD_SESSION_SECONDS};
use crate::digest::{absorbed, hash_text, StreamHash};
use crate::model::{path_ok, BeginUpload, UploadProgress, UPLOAD_CHUNK_BYTES};
use crate::server::{answers, tells, upload_rows, validate_path, ApiError, Committed, ServerState, UploadRow};
use crate::text::{chars_of, is_hex_digit, opt_text, same_text, texts};

verus! {

impl View for BeginUpload {
    type V = Declared;

    open spec fn view(&self) -> Declared {
        Declared {
            path: self.path@,
            base_revision: self.base_revision as int,
            size: self.size as int,
            sha256: self.sha256@,
        }
    }
}

pub fn copy_upload(row: &UploadRow) -> (copy: UploadRow)
    ensures
        copy@ == row@,
{
    UploadRow {
        id: row.id.clone(),
        device_id: row.device_id,
        path: row.path.clone(),
        base_revision: row.base_revision,
        size: row.size,
        sha256: row.sha256.clone(),
        offset: row.offset,
        temp_name: row.temp_name.clone(),
        touched_at: row.touched_at,
    }
}

/// Whether `text` is a digest in hexadecimal.
pub fn valid_digest(text: &str) -> (ok: bool)
    ensures
        ok == catalog::digest_ok(text@),
{
    let v = chars_of(text);
    if v.len() != 64 {
        return false;
    }
    let mut i: usize = 0;
    while i < v.len()
        invariant
            i <= v.len(),
            v@.len() == 64,
            v@ == text@,
            forall|j: int| 0 <= j < i ==> is_hex_digit(#[trigger] v@[j]),
        decreases v.len() - i,
    {
        let c = v[i];
        if !(('0' <= c && c <= '9') || ('a' <= c && c <= 'f') || ('A' <= c && c <= 'F')) {
            assert(!is_hex_digit(text@[i as int]));
            return false;
        }
        i += 1;
    }
    true
}

/// A body that arrives in one request, for a file of at most one chunk.
pub struct Receiver {
    hash: StreamHash,
    size: i64,
}

impl Receiver {
    /// What has arrived so far.
    pub closed spec fn received(self) -> Seq<u8> {
        absorbed(self.hash)
    }

    /// The count agrees with what has arrived, and is within the limit.
    pub closed spec fn wf(self) -> bool {
        &&& self.size == absorbed(self.hash).len()
        &&& self.size <= UPLOAD_CHUNK_BYTES
    }

    /// Checks what a client asks before its body is read.
    pub fn open(path: &str, base: Option<i64>) -> (result: Result<(Receiver, i64), ApiError>)
        ensures
            answers(result, upload_refusal(path@, base)),
            result matches Ok((receiver, revision)) ==> receiver.wf() && receiver.received()
                == Seq::<u8>::empty() && base == Some(revision),
    {
        validate_path(path)?;
        match base {
            None => Err(ApiError::bad("base_revision required")),
            Some(base) => if base < 0 {
                Err(ApiError::bad("invalid base_revision"))
            } else {
                Ok((Receiver { hash: StreamHash::new(), size: 0 }, base))
            },
        }
    }

    /// Takes in a piece of the body, unless it goes over the limit.
    pub fn accept(&mut self, chunk: &[u8]) -> (result: Result<(), ApiError>)
        requires
            old(self).wf(),
        ensures
            final(self).wf(),
            answers(result, receive_refusal(old(self).received().len() + chunk@.len())),
            match result {
                Ok(_) => final(self).received() == old(self).received() + chunk@,
                Err(_) => *final(self) == *old(self),
            },
    {
        let length: usize = chunk.len();
        if length as u128 + self.size as u128 > i64::MAX as u128 {
            return Err(ApiError::bad("file is too large"));
        }
        let size: i64 = self.size + length as i64;
        if size > UPLOAD_CHUNK_BYTES {
            return Err(
                ApiError(413, "use chunked upload for files larger than 8 MiB".to_owned()),
            );
        }
        self.hash.update(chunk);
        self.size = size;
        Ok(())
    }

    /// The digest and the size of the whole body.
    pub fn finish(self) -> (done: (String, i64))
        requires
            self.wf(),
        ensures
            done.0@ == hash_text(self.received()),
            done.1 == self.received().len(),
    {
        let size: i64 = self.size;
        (self.hash.finish(), size)
    }
}

/// Why a body is not even read.
pub open spec fn upload_refusal(path: Seq<char>, base: Option<i64>) -> Option<Refusal> {
    if !path_ok(path) {
        Some(catalog::bad("invalid path"@))
    } else if base is None {
        Some(catalog::bad("base_revision required"@))
    } else if base->0 < 0 {
        Some(catalog::bad("invalid base_revision"@))
    } else {
        None
    }
}

/// Why a body that has grown to `size` bytes is cut off.
pub open spec fn receive_refusal(size: nat) -> Option<Refusal> {
    if size > i64::MAX {
        Some(catalog::bad("file is too large"@))
    } else if size > UPLOAD_CHUNK_BYTES {
        Some(catalog::refusal(413, "use chunked upload for files larger than 8 MiB"@))
    } else {
        None
    }
}

/// One chunk of an upload session, while its body arrives.
pub struct ChunkWriter {
    offset: i64,
    room: i64,
    written: i64,
}

impl ChunkWriter {
    /// Where in the file the chunk starts.
    pub closed spec fn start(self) -> int {
        self.offset as int
    }

    /// How many bytes it may hold.
    pub closed spec fn limit(self) -> int {
        self.room as int
    }

    /// How many bytes have arrived.
    pub closed spec fn count(self) -> int {
        self.written as int
    }

    pub closed spec fn wf(self) -> bool {
        &&& 0 <= self.written <= self.room
        &&& self.room <= UPLOAD_CHUNK_BYTES
        &&& self.offset + self.room <= i64::MAX
    }

    /// Counts a piece of the chunk, unless it goes over the limit.
    pub fn accept(&mut self, length: usize) -> (result: Result<(), ApiError>)
        requires
            old(self).wf(),
        ensures
            final(self).wf(),
            final(self).start() == old(self).start(),
            final(self).limit() == old(self).limit(),
            answers(result, chunk_size_refusal(old(self).count() + length, old(self).limit())),
            final(self).count() == old(self).count() + (if result is Ok {
                length as int
            } else {
                0
            }),
    {
        if length as u128 + self.written as u128 > i64::MAX as u128 {
            return Err(ApiError::bad("chunk is too large"));
        }
        let written: i64 = self.written + length as i64;
        if written > self.room {
            return Err(ApiError(413, "chunk is too large".to_owned()));
        }
        self.written = written;
        Ok(())
    }

    /// The offset that the session reaches with this chunk.
    pub fn finish(&self) -> (result: Result<i64, ApiError>)
        requires
            self.wf(),
        ensures
            answers(
                result,
                if self.count() == 0 {
                    Some(catalog::bad("empty upload chunk"@))
                } else {
                    None
                },
            ),
            result matches Ok(offset) ==> offset == self.start() + self.count(),
    {
        if self.written == 0 {
            return Err(ApiError::bad("empty upload chunk"));
        }
        Ok(self.offset + self.written)
    }
}

/// Why a chunk that has grown to `size` bytes is cut off.
pub open spec fn chunk_size_refusal(size: int, room: int) -> Option<Refusal> {
    if size > i64::MAX {
        Some(catalog::bad("chunk is too large"@))
    } else if size > room {
        Some(catalog::refusal(413, "chunk is too large"@))
    } else {
        None
    }
}

pub open spec fn opt_upload(row: Option<UploadRow>) -> Option<Upload> {
    match row {
        Some(r) => Some(r@),
        None => None,
    }
}

impl ServerState {
    /// Checks what a client declares, and looks for a session of the same device
    /// for the same file: the one touched last, where there are several.
    pub fn admit_upload(&self, device_id: i64, request: &BeginUpload) -> (result: Result<
        Option<UploadRow>,
        ApiError,
    >)
        requires
            self.wf(),
        ensures
            answers(result, catalog::begin_refusal(self@, request@)),
            result matches Ok(candidate) ==> catalog::is_candidate(
                self@.uploads,
                device_id as int,
                request@,
                opt_upload(candidate),
            ),
    {
        validate_path(request.path.as_str())?;
        if request.base_revision < 0 || request.size < 0 || !valid_digest(request.sha256.as_str()) {
            return Err(ApiError::bad("invalid upload metadata"));
        }
        self.check_path_namespace(request.path.as_str())?;
        let current = self.current_revision(request.path.as_str());
        if current != request.base_revision {
            return Err(ApiError::conflict("server version wins; refresh manifest"));
        }
        let mut found: Option<usize> = None;
        let mut i: usize = 0;
        while i < self.uploads.len()
            invariant
                i <= self.uploads.len(),
                match found {
                    Some(k) => {
                        &&& k < i
                        &&& catalog::resumes(self@.uploads[k as int], device_id as int, request@)
                        &&& forall|j: int|
                            0 <= j < i && catalog::resumes(
                                #[trigger] self@.uploads[j],
                                device_id as int,
                                request@,
                            ) ==> self@.uploads[j].touched_at <= self@.uploads[k as int].touched_at
                    },
                    None => forall|j: int|
                        0 <= j < i ==> !catalog::resumes(
                            #[trigger] self@.uploads[j],
                            device_id as int,
                            request@,
                        ),
                },
            decreases self.uploads.len() - i,
        {
            let row = &self.uploads[i];
            assert(self@.uploads[i as int] == row@);
            if row.device_id == device_id && same_text(row.path.as_str(), request.path.as_str())
                && row.base_revision == request.base_revision && row.size == request.size
                && same_text(row.sha256.as_str(), request.sha256.as_str()) {
                let better = match found {
                    Some(k) => row.touched_at > self.uploads[k].touched_at,
                    None => true,
                };
                if better {
                    found = Some(i);
                }
            }
            i += 1;
        }
        match found {
            Some(k) => {
                let row = copy_upload(&self.uploads[k]);
                assert(self@.uploads[k as int] == row@);
                Ok(Some(row))
            },
            None => Ok(None),
        }
    }

    fn count_pending(&self, device_id: i64) -> (count: usize)
        ensures
            count == catalog::pending_uploads(self@.uploads, device_id as int),
    {
        let ghost rows = self@.uploads;
        let mut count: usize = 0;
        let mut i: usize = 0;
        while i < self.uploads.len()
            invariant
                count <= i <= self.uploads.len(),
                rows == self@.uploads,
                count == catalog::pending_uploads(rows.take(i as int), device_id as int),
            decreases self.uploads.len() - i,
        {
            assert(rows.take(i as int + 1).drop_last() =~= rows.take(i as int));
            assert(rows[i as int] == self.uploads@[i as int]@);
            if self.uploads[i].device_id == device_id {
                count += 1;
            }
            i += 1;
        }
        assert(rows.take(rows.len() as int) =~= rows);
        count
    }

    fn drop_session(&mut self, id: &str)
        ensures
            final(self)@.uploads == catalog::without_session(old(self)@.uploads, id@),
            final(self).generation == old(self).generation,
            final(self).entries == old(self).entries,
            final(self).trash == old(self).trash,
    {
        let ghost start = self@.uploads;
        let ghost keep = |upload: Upload| upload.id != id@;
        let ghost mut seen: int = 0;
        let mut i: usize = 0;
        assert(start.take(0).filter(keep) =~= Seq::<Upload>::empty()) by {
            reveal(Seq::filter);
        }
        while i < self.uploads.len()
            invariant
                i <= self.uploads.len(),
                0 <= seen <= start.len(),
                start.len() - seen == self.uploads.len() - i,
                start == old(self)@.uploads,
                keep == (|upload: Upload| upload.id != id@),
                upload_rows(self.uploads@).take(i as int) == start.take(seen).filter(keep),
                upload_rows(self.uploads@).skip(i as int) == start.skip(seen),
                self.generation == old(self).generation,
                self.entries == old(self).entries,
                self.trash == old(self).trash,
            decreases self.uploads.len() - i,
        {
            let ghost rows = upload_rows(self.uploads@);
            proof {
                assert(rows.skip(i as int)[0] == start.skip(seen)[0]);
                assert(rows[i as int] == start[seen]);
                assert(rows.skip(i as int).skip(1) =~= start.skip(seen).skip(1));
                assert(start.skip(seen).skip(1) =~= start.skip(seen + 1));
                catalog::lemma_filter_step(start, seen, keep);
                seen = seen + 1;
            }
            if same_text(self.uploads[i].id.as_str(), id) {
                self.uploads.remove(i);
                assert(upload_rows(self.uploads@) =~= rows.remove(i as int));
                assert(upload_rows(self.uploads@).take(i as int) =~= rows.take(i as int));
                assert(upload_rows(self.uploads@).skip(i as int) =~= rows.skip(i as int).skip(1));
            } else {
                assert(rows.take(i as int + 1) =~= rows.take(i as int).push(rows[i as int]));
                assert(rows.skip(i as int + 1) =~= rows.skip(i as int).skip(1));
                i += 1;
            }
        }
        assert(upload_rows(self.uploads@).take(i as int) =~= upload_rows(self.uploads@));
        assert(start.take(seen) =~= start);
    }

    fn touch_session(&mut self, id: &str, now: i64)
        ensures
            final(self)@.uploads == catalog::touched(old(self)@.uploads, id@, now as int),
            final(self).generation == old(self).generation,
            final(self).entries == old(self).entries,
            final(self).trash == old(self).trash,
    {
        let mut i: usize = 0;
        while i < self.uploads.len()
            invariant
                i <= self.uploads.len() == old(self).uploads.len(),
                forall|j: int|
                    0 <= j < i ==> (#[trigger] self.uploads@[j])@ == catalog::touched(
                        old(self)@.uploads,
                        id@,
                        now as int,
                    )[j],
                forall|j: int|
                    i <= j < self.uploads@.len() ==> #[trigger] self.uploads@[j] == old(
                        self,
                    ).uploads@[j],
                self.generation == old(self).generation,
                self.entries == old(self).entries,
                self.trash == old(self).trash,
            decreases self.uploads.len() - i,
        {
            if same_text(self.uploads[i].id.as_str(), id) {
                let mut row = copy_upload(&self.uploads[i]);
                row.touched_at = now;
                self.uploads.set(i, row);
            }
            i += 1;
        }
        assert(self@.uploads =~= catalog::touched(old(self)@.uploads, id@, now as int));
    }

    fn has_session(&self, id: &str) -> (yes: bool)
        ensures
            yes == exists|i: int|
                0 <= i < self@.uploads.len() && (#[trigger] self@.uploads[i]).id == id@,
    {
        let mut i: usize = 0;
        while i < self.uploads.len()
            invariant
                i <= self.uploads.len(),
                forall|j: int| 0 <= j < i ==> (#[trigger] self@.uploads[j]).id != id@,
            decreases self.uploads.len() - i,
        {
            assert(self@.uploads[i as int] == self.uploads@[i as int]@);
            if same_text(self.uploads[i].id.as_str(), id) {
                return true;
            }
            i += 1;
        }
        false
    }

    /// Resumes the session that was found, if its temporary file is still there, or
    /// opens a new one named `id`. A session that cannot be resumed is given up.
    pub fn begin_upload(
        &mut self,
        device_id: i64,
        request: &BeginUpload,
        candidate: Option<UploadRow>,
        temp_exists: bool,
        id: String,
        now: i64,
    ) -> (result: Result<UploadProgress, ApiError>)
        ensures
            final(self)@.generation == old(self)@.generation,
            final(self)@.entries == old(self)@.entries,
            final(self)@.trash == old(self)@.trash,
            final(self).entries == old(self).entries,
            ({
                let begun = catalog::begun(
                    old(self)@.uploads,
                    device_id as int,
                    request@,
                    opt_upload(candidate),
                    temp_exists,
                    id@,
                    now as int,
                );
                &&& final(self)@.uploads == begun.uploads
                &&& answers(result, begun.refused)
                &&& result matches Ok(progress) ==> progress.id@ == begun.id && progress.offset
                    == begun.offset
            }),
    {
        match candidate {
            Some(row) => {
                if temp_exists && row.offset <= request.size {
                    self.touch_session(row.id.as_str(), now);
                    return Ok(UploadProgress { id: row.id, offset: row.offset });
                }
                self.drop_session(row.id.as_str());
            },
            None => {},
        }
        let ghost rest = self@.uploads;
        if self.count_pending(device_id) >= MAX_UPLOAD_SESSIONS_PER_DEVICE {
            return Err(ApiError(429, "too many pending uploads for this device".to_owned()));
        }
        if self.has_session(id.as_str()) {
            return Err(ApiError::internal());
        }
        let row = UploadRow {
            id: id.clone(),
            device_id,
            path: request.path.clone(),
            base_revision: request.base_revision,
            size: request.size,
            sha256: request.sha256.clone(),
            offset: 0,
            temp_name: id.clone(),
            touched_at: now,
        };
        self.uploads.push(row);
        assert(self@.uploads =~= rest.push(row@));
        Ok(UploadProgress { id, offset: 0 })
    }

    fn find_session(&self, id: &str, device_id: i64) -> (found: Option<usize>)
        ensures
            match found {
                Some(i) => i < self.uploads@.len() && catalog::session_of(
                    self@.uploads,
                    id@,
                    device_id as int,
                ) == Some(self.uploads@[i as int]@),
                None => catalog::session_of(self@.uploads, id@, device_id as int) is None,
            },
    {
        let ghost rows = self@.uploads;
        let mut found: Option<usize> = None;
        let mut i: usize = 0;
        while i < self.uploads.len()
            invariant
                i <= self.uploads.len(),
                rows == self@.uploads,
                match found {
                    Some(k) => k < i && catalog::session_of(
                        rows.take(i as int),
                        id@,
                        device_id as int,
                    ) == Some(self.uploads@[k as int]@),
                    None => catalog::session_of(
                        rows.take(i as int),
                        id@,
                        device_id as int,
                    ) is None,
                },
            decreases self.uploads.len() - i,
        {
            assert(rows.take(i as int + 1).drop_last() =~= rows.take(i as int));
            assert(rows[i as int] == self.uploads@[i as int]@);
            if found.is_none() && self.uploads[i].device_id == device_id && same_text(
                self.uploads[i].id.as_str(),
                id,
            ) {
                found = Some(i);
            }
            i += 1;
        }
        assert(rows.take(rows.len() as int) =~= rows);
        found
    }

    /// The session row of a device.
    pub fn upload_row(&self, id: &str, device_id: i64) -> (row: Option<UploadRow>)
        ensures
            match row {
                Some(r) => catalog::session_of(self@.uploads, id@, device_id as int) == Some(r@),
                None => catalog::session_of(self@.uploads, id@, device_id as int) is None,
            },
    {
        match self.find_session(id, device_id) {
            Some(i) => Some(copy_upload(&self.uploads[i])),
            None => None,
        }
    }

    /// Starts a chunk at the offset that the session has reached.
    pub fn open_chunk(&self, id: &str, device_id: i64, offset: i64) -> (result: Result<
        ChunkWriter,
        ApiError,
    >)
        ensures
            answers(
                result,
                catalog::chunk_refusal(self@.uploads, id@, device_id as int, offset as int),
            ),
            result matches Ok(writer) ==> {
                &&& writer.wf()
                &&& writer.start() == offset
                &&& writer.count() == 0
                &&& writer.limit() == catalog::chunk_room(
                    catalog::session_of(self@.uploads, id@, device_id as int)->0,
                )
            },
    {
        let index: usize = match self.find_session(id, device_id) {
            Some(i) => i,
            None => return Err(ApiError(404, "upload not found".to_owned())),
        };
        let size: i64 = self.uploads[index].size;
        if self.uploads[index].offset != offset {
            return Err(ApiError::conflict("upload offset changed; retry synchronization"));
        }
        let remaining: i128 = size as i128 - offset as i128;
        if remaining <= 0 {
            return Err(ApiError::bad("upload already complete"));
        }
        let room: i64 = if remaining < UPLOAD_CHUNK_BYTES as i128 {
            remaining as i64
        } else {
            UPLOAD_CHUNK_BYTES
        };
        Ok(ChunkWriter { offset, room, written: 0 })
    }

    fn advance(&mut self, id: &str, device_id: i64, from: i64, to: i64, now: i64) -> (updated:
        usize)
        ensures
            updated == catalog::standing_at(
                old(self)@.uploads,
                id@,
                device_id as int,
                from as int,
            ),
            final(self)@.uploads == catalog::advanced(
                old(self)@.uploads,
                id@,
                device_id as int,
                from as int,
                to as int,
                now as int,
            ),
            final(self).generation == old(self).generation,
            final(self).entries == old(self).entries,
            final(self).trash == old(self).trash,
    {
        let ghost rows = self@.uploads;
        let mut updated: usize = 0;
        let mut i: usize = 0;
        while i < self.uploads.len()
            invariant
                updated <= i <= self.uploads.len() == old(self).uploads.len(),
                rows == old(self)@.uploads,
                updated == catalog::standing_at(
                    rows.take(i as int),
                    id@,
                    device_id as int,
                    from as int,
                ),
                forall|j: int|
                    0 <= j < i ==> (#[trigger] self.uploads@[j])@ == catalog::advanced(
                        rows,
                        id@,
                        device_id as int,
                        from as int,
                        to as int,
                        now as int,
                    )[j],
                forall|j: int|
                    i <= j < self.uploads@.len() ==> #[trigger] self.uploads@[j] == old(
                        self,
                    ).uploads@[j],
                self.generation == old(self).generation,
                self.entries == old(self).entries,
                self.trash == old(self).trash,
            decreases self.uploads.len() - i,
        {
            assert(rows.take(i as int + 1).drop_last() =~= rows.take(i as int));
            assert(rows[i as int] == self.uploads@[i as int]@);
            if self.uploads[i].device_id == device_id && self.uploads[i].offset == from
                && same_text(self.uploads[i].id.as_str(), id) {
                let mut row = copy_upload(&self.uploads[i]);
                row.offset = to;
                row.touched_at = now;
                self.uploads.set(i, row);
                updated += 1;
            }
            i += 1;
        }
        assert(rows.take(rows.len() as int) =~= rows);
        assert(self@.uploads =~= catalog::advanced(
            rows,
            id@,
            device_id as int,
            from as int,
            to as int,
            now as int,
        ));
        updated
    }

    /// Records that a session moved from one offset to another, unless it moved
    /// meanwhile.
    pub fn record_chunk(
        &mut self,
        id: String,
        device_id: i64,
        from: i64,
        to: i64,
        now: i64,
    ) -> (result: Result<UploadProgress, ApiError>)
        ensures
            final(self)@ == (Tree {
                uploads: catalog::advanced(
                    old(self)@.uploads,
                    id@,
                    device_id as int,
                    from as int,
                    to as int,
                    now as int,
                ),
                ..old(self)@
            }),
            final(self).entries == old(self).entries,
            answers(
                result,
                if catalog::standing_at(
                    old(self)@.uploads,
                    id@,
                    device_id as int,
                    from as int,
                ) == 1 {
                    None
                } else {
                    Some(catalog::conflict("upload offset changed; retry synchronization"@))
                },
            ),
            result matches Ok(progress) ==> progress.id@ == id@ && progress.offset == to,
    {
        let updated = self.advance(id.as_str(), device_id, from, to, now);
        if updated != 1 {
            return Err(ApiError::conflict("upload offset changed; retry synchronization"));
        }
        Ok(UploadProgress { id, offset: to })
    }

    /// The session to commit, once all of it has arrived.
    pub fn open_finish(&self, id: &str, device_id: i64) -> (result: Result<UploadRow, ApiError>)
        ensures
            answers(result, catalog::finish_refusal(self@.uploads, id@, device_id as int)),
            result matches Ok(row) ==> catalog::session_of(self@.uploads, id@, device_id as int)
                == Some(row@),
    {
        let index: usize = match self.find_session(id, device_id) {
            Some(i) => i,
            None => return Err(ApiError(404, "upload not found".to_owned())),
        };
        if self.uploads[index].offset != self.uploads[index].size {
            return Err(ApiError::bad("upload is incomplete"));
        }
        Ok(copy_upload(&self.uploads[index]))
    }

    /// Commits a complete session, provided that what was received is what was
    /// declared. The session ends unless the server itself failed.
    pub fn finish_upload(
        &mut self,
        session: &UploadRow,
        digest: String,
        size: i64,
        blob: String,
    ) -> (result: Result<Committed, ApiError>)
        requires
            old(self).wf(),
        ensures
            final(self).wf(),
            answers(
                result,
                catalog::received_refusal(old(self)@, session@, digest@, size as int),
            ),
            ({
                let tree = match result {
                    Ok(_) => catalog::committed(
                        old(self)@,
                        session@.path,
                        blob@,
                        digest@,
                        size as int,
                    ),
                    Err(_) => old(self)@,
                };
                &&& final(self)@ == (Tree {
                    uploads: if catalog::session_ends(old(self)@, session@, digest@, size as int) {
                        catalog::without_session(old(self)@.uploads, session@.id)
                    } else {
                        old(self)@.uploads
                    },
                    ..tree
                })
                &&& result matches Ok(done) ==> {
                    &&& tells(done.entry, session@.path, tree.entries[session@.path])
                    &&& done.blob@ == blob@
                    &&& opt_text(done.replaced_blob) == (if old(self)@.entries.contains_key(
                        session@.path,
                    ) {
                        old(self)@.entries[session@.path].blob
                    } else {
                        None
                    })
                }
            }),
    {
        if !same_text(digest.as_str(), session.sha256.as_str()) || size != session.size {
            self.drop_session(session.id.as_str());
            return Err(ApiError::bad("upload integrity check failed"));
        }
        let result = self.commit_upload(
            session.path.as_str(),
            session.base_revision,
            blob,
            digest,
            size,
        );
        let ends = match &result {
            Ok(_) => true,
            Err(e) => e.0 == 409,
        };
        if ends {
            self.drop_session(session.id.as_str());
        }
        result
    }
}

/// The upload sessions that some request works on right now.
pub struct ActiveUploads {
    pub ids: Vec<String>,
}

impl ActiveUploads {
    fn position(&self, id: &str) -> (found: Option<usize>)
        ensures
            match found {
                Some(i) => i < self.ids@.len() && self.ids@[i as int]@ == id@,
                None => !texts(self.ids@).contains(id@),
            },
    {
        let mut i: usize = 0;
        while i < self.ids.len()
            invariant
                i <= self.ids.len(),
                forall|j: int| 0 <= j < i ==> (#[trigger] self.ids@[j])@ != id@,
            decreases self.ids.len() - i,
        {
            if same_text(self.ids[i].as_str(), id) {
                return Some(i);
            }
            i += 1;
        }
        assert(forall|j: int|
            0 <= j < self.ids@.len() ==> texts(self.ids@)[j] == (#[trigger] self.ids@[j])@);
        None
    }

    /// Claims a session for one request; a second request on it is refused until
    /// the first lets go.
    pub fn lock_upload(&mut self, id: &str) -> (result: Result<(), ApiError>)
        ensures
            answers(
                result,
                if texts(old(self).ids@).contains(id@) {
                    Some(catalog::conflict("upload is already in progress"@))
                } else {
                    None
                },
            ),
            texts(final(self).ids@) == (if result is Ok {
                texts(old(self).ids@).push(id@)
            } else {
                texts(old(self).ids@)
            }),
    {
        match self.position(id) {
            Some(i) => {
                assert(texts(self.ids@)[i as int] == id@);
                Err(ApiError::conflict("upload is already in progress"))
            },
            None => {
                let copy = id.to_owned();
                self.ids.push(copy);
                assert(texts(self.ids@) =~= texts(old(self).ids@).push(id@));
                Ok(())
            },
        }
    }

    /// Lets go of a session.
    pub fn release(&mut self, id: &str)
        requires
            texts(old(self).ids@).no_duplicates(),
        ensures
            texts(final(self).ids@).no_duplicates(),
            forall|other: Seq<char>| #[trigger]
                texts(final(self).ids@).contains(other) <==> texts(old(self).ids@).contains(other)
                    && other != id@,
    {
        let ghost before = texts(self.ids@);
        match self.position(id) {
            Some(i) => {
                assert(before[i as int] == id@);
                self.ids.remove(i);
                let ghost after = texts(self.ids@);
                assert(after =~= before.remove(i as int));
                proof {
                    assert forall|other: Seq<char>| #[trigger]
                        after.contains(other) <==> before.contains(other) && other != id@ by {
                        if after.contains(other) {
                            let k = choose|k: int| 0 <= k < after.len() && after[k] == other;
                            let m = if k < i {
                                k
                            } else {
                                k + 1
                            };
                            assert(before[m] == other);
                        }
                        if before.contains(other) && other != id@ {
                            let k = choose|k: int| 0 <= k < before.len() && before[k] == other;
                            let m = if k < i {
                                k
                            } else {
                                k - 1
                            };
                            assert(after[m] == other);
                        }
                    }
                }
            },
            None => {},
        }
    }
}

/// Removes the upload sessions that nobody has touched for their whole lifetime,
/// but for those that a request works on, and returns their temporary files.
pub fn purge_upload_sessions(
    state: &mut ServerState,
    active: &ActiveUploads,
    now: i64,
) -> (temp_names: Vec<String>)
    requires
        now >= i64::MIN + UPLOAD_SESSION_SECONDS,
    ensures
        final(state)@ == (Tree {
            uploads: old(state)@.uploads.filter(
                |upload: Upload|
                    !catalog::stale(upload, now as int) || texts(active.ids@).contains(upload.id),
            ),
            ..old(state)@
        }),
        final(state).entries == old(state).entries,
        texts(temp_names@) == old(state)@.uploads.filter(
            |upload: Upload|
                !(!catalog::stale(upload, now as int) || texts(active.ids@).contains(upload.id)),
        ).map_values(|upload: Upload| upload.temp_name),
{
    let cutoff: i64 = now - UPLOAD_SESSION_SECONDS;
    let ghost start = state@.uploads;
    let ghost held = texts(active.ids@);
    let ghost keep = |upload: Upload|
        !catalog::stale(upload, now as int) || held.contains(upload.id);
    let ghost gone = |upload: Upload|
        !(!catalog::stale(upload, now as int) || held.contains(upload.id));
    let ghost name_of = |upload: Upload| upload.temp_name;
    let ghost mut seen: int = 0;
    let mut temp_names: Vec<String> = Vec::new();
    let mut i: usize = 0;
    proof {
        reveal(Seq::filter);
        assert(start.take(0).filter(keep) =~= Seq::<Upload>::empty());
        assert(start.take(0).filter(gone) =~= Seq::<Upload>::empty());
        assert(texts(temp_names@) =~= start.take(0).filter(gone).map_values(name_of));
    }
    while i < state.uploads.len()
        invariant
            i <= state.uploads.len(),
            cutoff == now - UPLOAD_SESSION_SECONDS,
            0 <= seen <= start.len(),
            start.len() - seen == state.uploads.len() - i,
            start == old(state)@.uploads,
            held == texts(active.ids@),
            keep == (|upload: Upload|
                !catalog::stale(upload, now as int) || held.contains(upload.id)),
            gone == (|upload: Upload|
                !(!catalog::stale(upload, now as int) || held.contains(upload.id))),
            name_of == (|upload: Upload| upload.temp_name),
            upload_rows(state.uploads@).take(i as int) == start.take(seen).filter(keep),
            upload_rows(state.uploads@).skip(i as int) == start.skip(seen),
            texts(temp_names@) == start.take(seen).filter(gone).map_values(name_of),
            state.generation == old(state).generation,
            state.entries == old(state).entries,
            state.trash == old(state).trash,
        decreases state.uploads.len() - i,
    {
        let ghost rows = upload_rows(state.uploads@);
        let ghost gone_before = start.take(seen).filter(gone);
        proof {
            assert(rows.skip(i as int)[0] == start.skip(seen)[0]);
            assert(rows[i as int] == start[seen]);
            assert(rows.skip(i as int).skip(1) =~= start.skip(seen).skip(1));
            assert(start.skip(seen).skip(1) =~= start.skip(seen + 1));
            catalog::lemma_filter_step(start, seen, keep);
            catalog::lemma_filter_step(start, seen, gone);
            seen = seen + 1;
        }
        let in_use = match active.position(state.uploads[i].id.as_str()) {
            Some(k) => {
                assert(held[k as int] == state.uploads@[i as int].id@);
                true
            },
            None => false,
        };
        if state.uploads[i].touched_at < cutoff && !in_use {
            let row = state.uploads.remove(i);
            let ghost taken = row.temp_name@;
            let ghost already = temp_names@;
            temp_names.push(row.temp_name);
            assert(upload_rows(state.uploads@) =~= rows.remove(i as int));
            assert(upload_rows(state.uploads@).take(i as int) =~= rows.take(i as int));
            assert(upload_rows(state.uploads@).skip(i as int) =~= rows.skip(i as int).skip(1));
            assert(texts(temp_names@) =~= texts(already).push(taken));
            assert(gone_before.push(start[seen - 1]).map_values(name_of) =~= gone_before.map_values(
                name_of,
            ).push(taken));
        } else {
            assert(rows.take(i as int + 1) =~= rows.take(i as int).push(rows[i as int]));
            assert(rows.skip(i as int + 1) =~= rows.skip(i as int).skip(1));
            i += 1;
        }
    }
    assert(upload_rows(state.uploads@).take(i as int) =~= upload_rows(state.uploads@));
    assert(start.take(seen) =~= start);
    temp_names
}

/// An upload in one piece may start exactly where its path is acceptable and it names a base
/// revision that can exist; the answer is 400 else.
pub proof fn law_upload_may_start(path: Seq<char>, base: Option<i64>)
    ensures
        upload_refusal(path, base) is None <==> path_ok(path) && base is Some && base->0 >= 0,
        upload_refusal(path, base) matches Some(r) ==> r.status == 400,
{
}

/// An upload in one piece takes whatever fits into 8 MiB.
pub proof fn law_single_upload_takes_8_mib(size: nat)
    ensures
        receive_refusal(size) is None <==> size <= 8 * 1024 * 1024,
        8 * 1024 * 1024 < size <= i64::MAX ==> (receive_refusal(size) matches Some(r) && r.status
            == 413),
        size > i64::MAX ==> (receive_refusal(size) matches Some(r) && r.status == 400),
{
}

/// A chunk takes what there is room for.
pub proof fn law_chunk_takes_what_fits(size: int, room: int)
    requires
        room <= i64::MAX,
    ensures
        chunk_size_refusal(size, room) is None <==> size <= room,
        room < size <= i64::MAX ==> (chunk_size_refusal(size, room) matches Some(r) && r.status
            == 413),
        size > i64::MAX ==> (chunk_size_refusal(size, room) matches Some(r) && r.status == 400),
{
}

/// A whole chunk at a time, an upload of any size comes to its end: after each chunk that fills
/// its room, either nothing is missing or the next chunk may hold 8 MiB again or all that is left.
pub proof fn law_full_chunks_reach_the_end(upload: Upload)
    requires
        0 <= upload.offset < upload.size,
    ensures
        ({
            let next = Upload { offset: upload.offset + catalog::chunk_room(upload), ..upload };
            &&& upload.offset < next.offset <= upload.size
            &&& upload.size - upload.offset > 8 * 1024 * 1024 ==> next.offset == upload.offset + 8
                * 1024 * 1024
            &&& upload.size - upload.offset <= 8 * 1024 * 1024 ==> next.offset == next.size
        }),
{
}

} // verus!
