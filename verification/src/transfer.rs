//! What the client makes of the server's answers while files go up and down.
use vstd::prelude::*;

use crate::auth_protocol::Session;
use crate::digest::{absorbed, hash_text, StreamHash};
use crate::model::{Entry, UploadProgress, UPLOAD_CHUNK_BYTES};
use crate::text::{decimal, decimal_u64, joined, opt_text, same_text};

verus! {

/// The largest answer to a request about one thing.
pub const CONTROL_JSON_LIMIT: usize = 65536;

/// The largest answer that lists everything.
pub const LIST_JSON_LIMIT: usize = 33554432;

/// Why a transfer ends.
pub enum TransferError {
    JsonTooLarge { limit: usize },
    AwaitsApproval,
    FileTooLarge,
    LocalGrew,
    LocalChanged,
    InvalidOffset,
    SizeMissing,
    NegativeSize,
    LengthMismatch,
    SizeOverflow,
    TooLong { path: String },
    Corrupt { path: String },
}

impl View for TransferError {
    type V = Seq<char>;

    /// What the user reads.
    open spec fn view(&self) -> Seq<char> {
        match *self {
            TransferError::JsonTooLarge { limit } => too_large_text(limit as int),
            TransferError::AwaitsApproval =>
                "device awaits administrator approval or was revoked"@,
            TransferError::FileTooLarge => "local file is too large"@,
            TransferError::LocalGrew => "local file grew during upload; retry sync"@,
            TransferError::LocalChanged => "local file changed during upload"@,
            TransferError::InvalidOffset => "server returned an invalid upload offset"@,
            TransferError::SizeMissing => "download size missing"@,
            TransferError::NegativeSize => "negative download size"@,
            TransferError::LengthMismatch => "download length does not match manifest"@,
            TransferError::SizeOverflow => "download size overflow"@,
            TransferError::TooLong { path } => "download exceeds manifest size for "@ + path@,
            TransferError::Corrupt { path } => "download integrity check failed for "@ + path@,
        }
    }
}

pub open spec fn too_large_text(limit: int) -> Seq<char> {
    "API JSON response exceeds "@ + decimal(limit) + " bytes"@
}

impl TransferError {
    /// What the user reads.
    pub fn message(&self) -> (text: String)
        ensures
            text@ == self@,
    {
        match self {
            TransferError::JsonTooLarge { limit } => {
                let head = joined(
                    "API JSON response exceeds ",
                    decimal_u64(*limit as u64).as_str(),
                );
                joined(head.as_str(), " bytes")
            },
            TransferError::AwaitsApproval =>
                "device awaits administrator approval or was revoked".to_owned(),
            TransferError::FileTooLarge => "local file is too large".to_owned(),
            TransferError::LocalGrew => "local file grew during upload; retry sync".to_owned(),
            TransferError::LocalChanged => "local file changed during upload".to_owned(),
            TransferError::InvalidOffset => "server returned an invalid upload offset".to_owned(),
            TransferError::SizeMissing => "download size missing".to_owned(),
            TransferError::NegativeSize => "negative download size".to_owned(),
            TransferError::LengthMismatch => "download length does not match manifest".to_owned(),
            TransferError::SizeOverflow => "download size overflow".to_owned(),
            TransferError::TooLong { path } => joined(
                "download exceeds manifest size for ",
                path.as_str(),
            ),
            TransferError::Corrupt { path } => joined(
                "download integrity check failed for ",
                path.as_str(),
            ),
        }
    }
}

/// A call that ends with the text given, or succeeds where none is.
pub open spec fn ends<T>(result: Result<T, TransferError>, error: Option<Seq<char>>) -> bool {
    match result {
        Ok(_) => error is None,
        Err(e) => error == Some(e@),
    }
}

/// A body that may not grow over a limit, whatever the sender announces.
pub struct BoundedBody {
    limit: usize,
    bytes: Vec<u8>,
}

impl BoundedBody {
    pub closed spec fn most(self) -> nat {
        self.limit as nat
    }

    /// What has arrived so far.
    pub closed spec fn received(self) -> Seq<u8> {
        self.bytes@
    }

    pub open spec fn wf(self) -> bool {
        self.received().len() <= self.most()
    }

    /// Begins a body, unless its announced length is over the limit already.
    pub fn open(announced: Option<u64>, limit: usize) -> (body: Option<Self>)
        ensures
            body is None <==> announced is Some && announced->0 > limit,
            body matches Some(b) ==> b.wf() && b.most() == limit && b.received() == Seq::<
                u8,
            >::empty(),
    {
        match announced {
            Some(length) => if length > limit as u64 {
                return None;
            },
            None => {},
        }
        Some(BoundedBody { limit, bytes: Vec::new() })
    }

    /// Takes in a piece, unless it goes over the limit.
    pub fn accept(&mut self, chunk: &[u8]) -> (taken: bool)
        requires
            old(self).wf(),
        ensures
            final(self).wf(),
            final(self).most() == old(self).most(),
            taken == (old(self).received().len() + chunk@.len() <= old(self).most()),
            final(self).received() == if taken {
                old(self).received() + chunk@
            } else {
                old(self).received()
            },
    {
        if chunk.len() > self.limit - self.bytes.len() {
            return false;
        }
        self.bytes.extend_from_slice(chunk);
        true
    }

    /// The whole body.
    pub fn finish(self) -> (bytes: Vec<u8>)
        ensures
            bytes@ == self.received(),
    {
        self.bytes
    }
}

/// The text of the refusal of a body that is too large.
pub fn json_too_large(limit: usize) -> (error: TransferError)
    ensures
        error@ == too_large_text(limit as int),
{
    TransferError::JsonTooLarge { limit }
}

/// What an answer's status means to a request that changes or reads one revision.
#[derive(Clone, Copy, Debug, PartialEq, Eq, Structural)]
pub enum Verdict {
    /// The server has moved on: look again.
    Conflict,
    /// The request failed.
    Failed,
    /// The answer holds what was asked for.
    Accepted,
}

pub open spec fn verdict_of(status: u16) -> Verdict {
    if status == 409 {
        Verdict::Conflict
    } else if 400 <= status <= 599 {
        Verdict::Failed
    } else {
        Verdict::Accepted
    }
}

/// What an answer's status means.
pub fn judge(status: u16) -> (verdict: Verdict)
    ensures
        verdict == verdict_of(status),
{
    if status == 409 {
        Verdict::Conflict
    } else if 400 <= status && status <= 599 {
        Verdict::Failed
    } else {
        Verdict::Accepted
    }
}

/// The session that the client holds.
pub struct SessionCache {
    pub current: Option<Session>,
}

impl SessionCache {
    /// The token of a session that has more than half a minute left.
    pub open spec fn usable(self, time: int) -> Option<Seq<char>> {
        match self.current {
            Some(session) => if session.expires_at > time + 30 {
                Some(session.token@)
            } else {
                None
            },
            None => None,
        }
    }

    /// No session.
    pub fn new() -> (cache: Self)
        ensures
            cache.current is None,
    {
        SessionCache { current: None }
    }

    /// The token to use now, if a new session is not needed.
    pub fn token(&self, time: i64) -> (token: Option<String>)
        ensures
            opt_text(token) == self.usable(time as int),
    {
        match &self.current {
            Some(session) => if session.expires_at as i128 > time as i128 + 30 {
                Some(session.token.as_str().to_owned())
            } else {
                None
            },
            None => None,
        }
    }

    /// Takes in the server's answer to a request for a session.
    pub fn opened(&mut self, status: u16, session: Option<Session>) -> (result: Result<
        (),
        TransferError,
    >)
        ensures
            ends(
                result,
                if status == 403 {
                    Some("device awaits administrator approval or was revoked"@)
                } else {
                    None
                },
            ),
            *final(self) == if status == 403 {
                *old(self)
            } else {
                SessionCache { current: session }
            },
    {
        if status == 403 {
            return Err(TransferError::AwaitsApproval);
        }
        self.current = session;
        Ok(())
    }

    /// Whether a request is sent once more with a new session: the first time that the
    /// server does not know the caller.
    pub fn retries(&mut self, status: u16, attempt: usize) -> (again: bool)
        ensures
            again == (status == 401 && attempt == 0),
            *final(self) == if again {
                SessionCache { current: None }
            } else {
                *old(self)
            },
    {
        if status == 401 && attempt == 0 {
            self.current = None;
            return true;
        }
        false
    }
}

/// The value of the authorization header, which a request for a session does without.
pub fn authorization(token: &str) -> (value: Option<String>)
    ensures
        opt_text(value) == if token@.len() == 0 {
            None::<Seq<char>>
        } else {
            Some("MySync "@ + token@)
        },
{
    if token.is_empty() {
        None
    } else {
        Some(joined("MySync ", token))
    }
}

/// How a file goes up.
#[derive(Clone, Copy, Debug, PartialEq, Eq, Structural)]
pub enum UploadKind {
    Whole,
    Chunked { size: i64 },
}

/// How a file of this length goes up: at once where it fits in one chunk.
pub fn upload_kind(length: u64) -> (result: Result<UploadKind, TransferError>)
    ensures
        ends(
            result,
            if length > i64::MAX {
                Some("local file is too large"@)
            } else {
                None
            },
        ),
        result matches Ok(kind) ==> kind == if length > UPLOAD_CHUNK_BYTES {
            UploadKind::Chunked { size: length as i64 }
        } else {
            UploadKind::Whole
        },
{
    if length > i64::MAX as u64 {
        return Err(TransferError::FileTooLarge);
    }
    let size: i64 = length as i64;
    if size > UPLOAD_CHUNK_BYTES {
        Ok(UploadKind::Chunked { size })
    } else {
        Ok(UploadKind::Whole)
    }
}

/// Checks what was read of a file that was to fit in one chunk.
pub fn check_whole(read: usize) -> (result: Result<(), TransferError>)
    ensures
        ends(
            result,
            if read > UPLOAD_CHUNK_BYTES {
                Some("local file grew during upload; retry sync"@)
            } else {
                None
            },
        ),
{
    if read as u64 > UPLOAD_CHUNK_BYTES as u64 {
        return Err(TransferError::LocalGrew);
    }
    Ok(())
}

/// A file going up in chunks.
pub struct ChunkedUpload {
    id: String,
    offset: i64,
    size: i64,
}

/// The length of the chunk at an offset.
pub open spec fn chunk_at(offset: int, size: int) -> int {
    if size - offset < UPLOAD_CHUNK_BYTES {
        size - offset
    } else {
        UPLOAD_CHUNK_BYTES as int
    }
}

impl ChunkedUpload {
    pub closed spec fn session(self) -> Seq<char> {
        self.id@
    }

    /// How much the server has.
    pub closed spec fn sent(self) -> int {
        self.offset as int
    }

    pub closed spec fn total(self) -> int {
        self.size as int
    }

    pub open spec fn wf(self) -> bool {
        0 <= self.sent() <= self.total()
    }

    /// Begins, or goes on, where the server says it stands.
    pub fn begin(size: i64, progress: UploadProgress) -> (result: Result<Self, TransferError>)
        ensures
            ends(
                result,
                if progress.offset < 0 || progress.offset > size {
                    Some("server returned an invalid upload offset"@)
                } else {
                    None
                },
            ),
            result matches Ok(upload) ==> upload.wf() && upload.session() == progress.id@
                && upload.sent() == progress.offset && upload.total() == size,
    {
        if progress.offset < 0 || progress.offset > size {
            return Err(TransferError::InvalidOffset);
        }
        Ok(ChunkedUpload { id: progress.id, offset: progress.offset, size })
    }

    /// The session that the server keeps for this upload.
    pub fn id(&self) -> (id: &str)
        ensures
            id@ == self.session(),
    {
        self.id.as_str()
    }

    /// The offset and the length of the next chunk; nothing where all has been sent.
    pub fn next(&self) -> (chunk: Option<(i64, i64)>)
        requires
            self.wf(),
        ensures
            match chunk {
                None => self.sent() == self.total(),
                Some((offset, length)) => {
                    &&& self.sent() < self.total()
                    &&& offset == self.sent()
                    &&& length == chunk_at(self.sent(), self.total())
                },
            },
    {
        if self.offset >= self.size {
            return None;
        }
        let rest: i64 = self.size - self.offset;
        let length: i64 = if rest < UPLOAD_CHUNK_BYTES {
            rest
        } else {
            UPLOAD_CHUNK_BYTES
        };
        Some((self.offset, length))
    }

    /// Checks how much of the next chunk the file still gave.
    pub fn check_read(&self, read: usize) -> (result: Result<(), TransferError>)
        requires
            self.wf(),
            self.sent() < self.total(),
        ensures
            ends(
                result,
                if read != chunk_at(self.sent(), self.total()) {
                    Some("local file changed during upload"@)
                } else {
                    None
                },
            ),
    {
        let length: i64 = match self.next() {
            Some((_, length)) => length,
            None => 0,
        };
        if read as u64 != length as u64 {
            return Err(TransferError::LocalChanged);
        }
        Ok(())
    }

    /// Takes in the server's answer to a chunk: exactly that chunk must have arrived.
    pub fn advance(&mut self, next: &UploadProgress) -> (result: Result<(), TransferError>)
        requires
            old(self).wf(),
            old(self).sent() < old(self).total(),
        ensures
            final(self).wf(),
            final(self).session() == old(self).session(),
            final(self).total() == old(self).total(),
            ends(
                result,
                if next.id@ != old(self).session() || next.offset != old(self).sent() + chunk_at(
                    old(self).sent(),
                    old(self).total(),
                ) {
                    Some("server returned an invalid upload offset"@)
                } else {
                    None
                },
            ),
            final(self).sent() == match result {
                Ok(_) => old(self).sent() + chunk_at(old(self).sent(), old(self).total()),
                Err(_) => old(self).sent(),
            },
    {
        let length: i64 = match self.next() {
            Some((_, length)) => length,
            None => 0,
        };
        if !same_text(next.id.as_str(), self.id.as_str()) || next.offset != self.offset + length {
            return Err(TransferError::InvalidOffset);
        }
        self.offset = next.offset;
        Ok(())
    }
}

/// Every chunk that is taken brings the upload nearer to its end, never past it, and is
/// at most as large as a chunk may be.
pub proof fn law_chunks_reach_the_end(offset: int, size: int)
    requires
        0 <= offset < size,
    ensures
        0 < chunk_at(offset, size) <= UPLOAD_CHUNK_BYTES,
        offset < offset + chunk_at(offset, size) <= size,
{
}

/// A file coming down.
pub struct Download {
    hash: StreamHash,
    size: u64,
    expected: u64,
    sha256: Option<String>,
    path: String,
}

/// Why a file is not even asked for.
pub open spec fn download_error(entry: Entry) -> Option<Seq<char>> {
    match entry.size {
        None => Some("download size missing"@),
        Some(size) => if size < 0 {
            Some("negative download size"@)
        } else {
            None
        },
    }
}

impl Download {
    pub closed spec fn received(self) -> Seq<u8> {
        absorbed(self.hash)
    }

    pub closed spec fn length(self) -> nat {
        self.expected as nat
    }

    pub closed spec fn digest(self) -> Option<Seq<char>> {
        opt_text(self.sha256)
    }

    pub closed spec fn name(self) -> Seq<char> {
        self.path@
    }

    pub closed spec fn wf(self) -> bool {
        &&& self.size == absorbed(self.hash).len()
        &&& self.size <= self.expected
    }

    /// Prepares for the file that an entry of the manifest describes.
    pub fn open(entry: &Entry) -> (result: Result<Self, TransferError>)
        ensures
            ends(result, download_error(*entry)),
            result matches Ok(d) ==> d.wf() && d.received() == Seq::<u8>::empty() && Some(
                d.length() as int,
            ) == crate::server::opt_int(entry.size) && d.digest() == opt_text(entry.sha256)
                && d.name() == entry.path@,
    {
        match entry.size {
            None => Err(TransferError::SizeMissing),
            Some(size) => if size < 0 {
                Err(TransferError::NegativeSize)
            } else {
                Ok(
                    Download {
                        hash: StreamHash::new(),
                        size: 0,
                        expected: size as u64,
                        sha256: crate::text::copy_opt_text(&entry.sha256),
                        path: entry.path.as_str().to_owned(),
                    },
                )
            },
        }
    }

    /// Checks the length that the answer announces, where it does.
    pub fn check_length(&self, announced: Option<u64>) -> (result: Result<(), TransferError>)
        ensures
            ends(
                result,
                if announced is Some && announced->0 != self.length() {
                    Some("download length does not match manifest"@)
                } else {
                    None
                },
            ),
    {
        match announced {
            Some(length) => if length != self.expected {
                Err(TransferError::LengthMismatch)
            } else {
                Ok(())
            },
            None => Ok(()),
        }
    }

    /// Takes in a piece, unless the file becomes longer than the manifest says.
    pub fn accept(&mut self, chunk: &[u8]) -> (result: Result<(), TransferError>)
        requires
            old(self).wf(),
        ensures
            final(self).wf(),
            final(self).length() == old(self).length(),
            final(self).digest() == old(self).digest(),
            final(self).name() == old(self).name(),
            ends(
                result,
                if old(self).received().len() + chunk@.len() > u64::MAX {
                    Some("download size overflow"@)
                } else if old(self).received().len() + chunk@.len() > old(self).length() {
                    Some("download exceeds manifest size for "@ + old(self).name())
                } else {
                    None
                },
            ),
            final(self).received() == match result {
                Ok(_) => old(self).received() + chunk@,
                Err(_) => old(self).received(),
            },
    {
        let size: u64 = match self.size.checked_add(chunk.len() as u64) {
            Some(size) => size,
            None => return Err(TransferError::SizeOverflow),
        };
        if size > self.expected {
            return Err(TransferError::TooLong { path: self.path.as_str().to_owned() });
        }
        self.hash.update(chunk);
        self.size = size;
        Ok(())
    }

    /// Checks the whole file against the manifest.
    pub fn finish(self) -> (result: Result<(), TransferError>)
        requires
            self.wf(),
        ensures
            ends(
                result,
                if self.digest() != Some(hash_text(self.received())) || self.received().len()
                    != self.length() {
                    Some("download integrity check failed for "@ + self.name())
                } else {
                    None
                },
            ),
    {
        let digest = self.hash.finish();
        let right = match &self.sha256 {
            Some(expected) => same_text(expected.as_str(), digest.as_str()),
            None => false,
        };
        if !right || self.size != self.expected {
            return Err(TransferError::Corrupt { path: self.path });
        }
        Ok(())
    }
}

/// A conflict is told apart from the other failures, and these from everything else.
pub proof fn law_status_gives_the_verdict(status: u16)
    ensures
        verdict_of(status) == Verdict::Conflict <==> status == 409,
        verdict_of(status) == Verdict::Failed <==> 400 <= status < 600 && status != 409,
        verdict_of(status) == Verdict::Accepted <==> status < 400 || status >= 600,
{
}

/// A session is used until half a minute before it expires.
pub proof fn law_session_is_used_in_time(cache: SessionCache, time: int)
    ensures
        cache.usable(time) is Some <==> cache.current is Some && cache.current->0.expires_at - time
            > 30,
        cache.usable(time) matches Some(token) ==> token == cache.current->0.token@,
{
}

/// A chunk is 8 MiB, or what is left where that is less.
pub proof fn law_chunk_is_what_is_left(offset: int, size: int)
    ensures
        chunk_at(offset, size) <= 8 * 1024 * 1024,
        chunk_at(offset, size) <= size - offset,
        chunk_at(offset, size) == 8 * 1024 * 1024 || chunk_at(offset, size) == size - offset,
{
}

/// The chunks that a client sends are the ones that the server has room for.
pub proof fn law_client_and_server_agree_on_chunks(upload: crate::catalog::Upload)
    ensures
        chunk_at(upload.offset, upload.size) == crate::catalog::chunk_room(upload),
{
}

/// A file can be fetched exactly where the manifest gives it a size, zero included.
pub proof fn law_sized_file_can_be_fetched(entry: Entry)
    ensures
        download_error(entry) is None <==> entry.size is Some && entry.size->0 >= 0,
{
}

} // verus!
