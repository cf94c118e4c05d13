//! What the server lets in before a handler runs: how much, how long, and which release
//! files it hands out.
use vstd::prelude::*;

use crate::catalog::{self, Refusal};
use crate::release::{release_file_ok, target_ok, valid_release_file, valid_target};
use crate::server::{answers, ApiError};
use crate::text::{begins_with, joined, same_text};

verus! {

/// How many enrollment requests are handled at once.
pub const ENROLLMENT_PERMITS: usize = 4;

/// How many signed requests are handled at once.
pub const SIGNED_PERMITS: usize = 8;

/// How long a body may take to arrive, in seconds.
pub const BODY_SECONDS: u64 = 30;

/// Lets an enrollment request in where a permit was left for it. This comes before any of
/// its body is read.
pub fn enrollment_admission(permit: bool) -> (result: Result<(), ApiError>)
    ensures
        answers(
            result,
            if permit {
                None
            } else {
                Some(catalog::refusal(429, "enrollment busy"@))
            },
        ),
{
    if permit {
        Ok(())
    } else {
        Err(ApiError(429, "enrollment busy".to_owned()))
    }
}

/// The largest body of an enrollment request: a code is short, certificates are not.
pub open spec fn body_limit_of(path: Seq<char>) -> nat {
    if path == "/v1/enroll/ready"@ {
        128
    } else {
        262144
    }
}

/// The largest body of an enrollment request.
pub fn enrollment_body_limit(path: &str) -> (limit: usize)
    ensures
        limit == body_limit_of(path@),
{
    if same_text(path, "/v1/enroll/ready") {
        128
    } else {
        262144
    }
}

/// How the reading of a body has ended.
pub enum BodyRead {
    TimedOut,
    Broken,
    Complete(Vec<u8>),
}

/// Why a body is not taken.
pub open spec fn body_refusal(read: BodyRead, limit: nat) -> Option<Refusal> {
    match read {
        BodyRead::TimedOut => Some(catalog::refusal(408, "request body timed out"@)),
        BodyRead::Broken => Some(catalog::refusal(413, "invalid or oversized request body"@)),
        BodyRead::Complete(bytes) => if bytes@.len() > limit {
            Some(catalog::refusal(413, "invalid or oversized request body"@))
        } else {
            None
        },
    }
}

/// Takes a body that has arrived in time, whole, and within its limit.
pub fn read_body(read: BodyRead, limit: usize) -> (result: Result<Vec<u8>, ApiError>)
    ensures
        answers(result, body_refusal(read, limit as nat)),
        result matches Ok(bytes) ==> read == BodyRead::Complete(bytes),
{
    match read {
        BodyRead::TimedOut => Err(ApiError(408, "request body timed out".to_owned())),
        BodyRead::Broken => Err(ApiError(413, "invalid or oversized request body".to_owned())),
        BodyRead::Complete(bytes) => if bytes.len() > limit {
            Err(ApiError(413, "invalid or oversized request body".to_owned()))
        } else {
            Ok(bytes)
        },
    }
}

/// A release file that is handed out.
pub struct ReleaseFile {
    /// Below the directory of releases.
    pub path: String,
    /// The value of the cache header.
    pub cache: &'static str,
}

/// Why a release file is not even looked for.
pub open spec fn release_refusal(
    published: bool,
    target: Seq<char>,
    file: Seq<char>,
) -> Option<Refusal> {
    if target_ok(target) && release_file_ok(file) && published {
        None
    } else {
        Some(catalog::refusal(404, "release not found"@))
    }
}

/// The file of a release. Only what names the newest release may change; `published` tells
/// that the server has releases at all.
pub fn client_release(published: bool, target: &str, file: &str) -> (result: Result<
    ReleaseFile,
    ApiError,
>)
    ensures
        answers(result, release_refusal(published, target@, file@)),
        result matches Ok(found) ==> found.path@ == target@ + "/"@ + file@ && found.cache@ == (
        if "latest."@.is_prefix_of(file@) {
            "public, no-cache"@
        } else {
            "public, max-age=31536000, immutable"@
        }),
{
    if !valid_target(target) || !valid_release_file(file) || !published {
        return Err(ApiError(404, "release not found".to_owned()));
    }
    let cache = if begins_with(file, "latest.") {
        "public, no-cache"
    } else {
        "public, max-age=31536000, immutable"
    };
    Ok(ReleaseFile { path: joined(joined(target, "/").as_str(), file), cache })
}

/// How many checks of pairing codes are answered in one second.
pub const PAIR_CHECKS: u32 = 20;

/// The checks of pairing codes that were answered in the last second that had any.
#[derive(Clone, Copy, Debug, PartialEq, Eq, Structural)]
pub struct PairChecks {
    pub second: i64,
    pub answered: u32,
}

impl PairChecks {
    /// None yet.
    pub fn new() -> (checks: Self)
        ensures
            checks == (PairChecks { second: 0, answered: 0 }),
    {
        PairChecks { second: 0, answered: 0 }
    }

    /// How many checks were answered in a second.
    pub open spec fn count(self, second: int) -> nat {
        if self.second == second {
            self.answered as nat
        } else {
            0
        }
    }
}

/// Whether one more check of a pairing code is answered in the second `now`. It counts only
/// where it is.
pub fn allow_pair_check(checks: &mut PairChecks, now: i64) -> (allowed: bool)
    ensures
        allowed == (old(checks).count(now as int) < 20),
        final(checks).second == now,
        final(checks).answered == old(checks).count(now as int) + if allowed {
            1int
        } else {
            0int
        },
{
    if checks.second != now {
        checks.second = now;
        checks.answered = 0;
    }
    if checks.answered < PAIR_CHECKS {
        checks.answered = checks.answered + 1;
        true
    } else {
        false
    }
}

/// A body is taken exactly where it came whole and is not larger than it may be; one that took
/// too long is answered 408, and any other 413.
pub proof fn law_whole_body_is_taken(read: BodyRead, limit: nat)
    ensures
        body_refusal(read, limit) is None <==> (read matches BodyRead::Complete(bytes) && bytes@.len()
            <= limit),
        read is TimedOut ==> (body_refusal(read, limit) matches Some(why) && why.status == 408),
        body_refusal(read, limit) is Some && !(read is TimedOut) ==> (body_refusal(
            read,
            limit,
        ) matches Some(why) && why.status == 413),
{
}

/// The check of a code takes 128 bytes, and every other step of an enrollment 256 KiB.
pub proof fn law_enrollment_bodies_are_small(path: Seq<char>)
    ensures
        body_limit_of("/v1/enroll/ready"@) == 128,
        path != "/v1/enroll/ready"@ ==> body_limit_of(path) == 256 * 1024,
{
}

/// A release file is served exactly where it was published for a target that is supported and
/// has a name of a release file; anything else is answered 404.
pub proof fn law_published_release_is_served(published: bool, target: Seq<char>, file: Seq<char>)
    ensures
        release_refusal(published, target, file) is None <==> published && target_ok(target)
            && release_file_ok(file),
        release_refusal(published, target, file) matches Some(why) ==> why.status == 404,
{
}

/// Whatever an acceptable manifest names is served once it is published.
pub proof fn law_manifest_and_artifact_are_served(release: crate::release::Release)
    requires
        crate::release::manifest_error(release) is None,
    ensures
        release_refusal(true, release.target, release.artifact) is None,
        release_refusal(true, release.target, "latest.json"@) is None,
        release_refusal(true, release.target, "latest.sig"@) is None,
{
}

/// The checks are counted second by second.
pub proof fn law_checks_are_counted_by_the_second(checks: PairChecks, second: int)
    ensures
        second == checks.second ==> checks.count(second) == checks.answered,
        second != checks.second ==> checks.count(second) == 0,
{
}

} // verus!
