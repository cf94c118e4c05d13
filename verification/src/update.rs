//! How a client replaces itself by a newer signed release. Each step takes what the one
//! before has checked, so that nothing is installed that was not checked throughout.
use vstd::prelude::*;
use vstd::utf8::*;

use crate::digest::{absorbed, hash_text, StreamHash};
use crate::release::{
    current_target, manifest_error, parse_version, release_message, release_of, signature_error,
    target_of, verify_manifest, version_at_most, version_form, version_le, Release, ReleaseError,
    ReleaseManifest, SignedManifest, MAX_ARTIFACT_BYTES,
};
use crate::text::{
    joined, same_text, trim_end_of, trim_white, trimmed, without_prefix, without_trailing,
};
use crate::url::utf8_text;

verus! {

/// The largest signature file that is read.
pub const MAX_SIGNATURE_BYTES: usize = 256;

/// What an update came to.
pub enum UpdateOutcome {
    Current,
    Installed(String),
}

/// Why a client does not update itself.
#[derive(Clone, Copy, Debug, PartialEq, Eq, Structural)]
pub enum UpdateError {
    UnsupportedPlatform,
    MetadataTooLarge,
    SignatureNotText,
    Release(ReleaseError),
    TargetMismatch,
    InvalidVersion,
    LengthMismatch,
    TooLarge,
    ExceedsLength,
    ChecksumMismatch,
    NotRegular,
    CannotRun,
    OutputNotText,
    InvalidReport,
    WrongVersion,
    InvalidLock,
    LockHeld,
    SharedDirectory,
    LinkedClient,
    OtherClient,
}

pub open spec fn update_message(error: UpdateError) -> Seq<char> {
    match error {
        UpdateError::UnsupportedPlatform => "unsupported client platform"@,
        UpdateError::MetadataTooLarge => "release metadata is too large"@,
        UpdateError::SignatureNotText => "release signature is not text"@,
        UpdateError::Release(e) => release_message(e),
        UpdateError::TargetMismatch => "release target does not match this client"@,
        UpdateError::InvalidVersion => "invalid client version"@,
        UpdateError::LengthMismatch => "release length does not match signed manifest"@,
        UpdateError::TooLarge => "release too large"@,
        UpdateError::ExceedsLength => "release exceeds signed length"@,
        UpdateError::ChecksumMismatch => "release checksum verification failed"@,
        UpdateError::NotRegular => "client executable must be a regular file"@,
        UpdateError::CannotRun => "client cannot run here; check native dependencies"@,
        UpdateError::OutputNotText => "client version is not text"@,
        UpdateError::InvalidReport => "client reported an invalid version"@,
        UpdateError::WrongVersion =>
            "signed client cannot run here or reports the wrong version; check native dependencies"@,
        UpdateError::InvalidLock => "invalid update lock file"@,
        UpdateError::LockHeld => "another client update is being installed; retry shortly"@,
        UpdateError::SharedDirectory =>
            "client installation directory is writable by another user"@,
        UpdateError::LinkedClient =>
            "installed client must be a regular file, not a symbolic link"@,
        UpdateError::OtherClient => "automatic updates require running ~/.local/bin/mysync"@,
    }
}

impl UpdateError {
    /// What the user reads.
    pub fn message(&self) -> (text: &'static str)
        ensures
            text@ == update_message(*self),
    {
        match self {
            UpdateError::UnsupportedPlatform => "unsupported client platform",
            UpdateError::MetadataTooLarge => "release metadata is too large",
            UpdateError::SignatureNotText => "release signature is not text",
            UpdateError::Release(e) => e.message(),
            UpdateError::TargetMismatch => "release target does not match this client",
            UpdateError::InvalidVersion => "invalid client version",
            UpdateError::LengthMismatch => "release length does not match signed manifest",
            UpdateError::TooLarge => "release too large",
            UpdateError::ExceedsLength => "release exceeds signed length",
            UpdateError::ChecksumMismatch => "release checksum verification failed",
            UpdateError::NotRegular => "client executable must be a regular file",
            UpdateError::CannotRun => "client cannot run here; check native dependencies",
            UpdateError::OutputNotText => "client version is not text",
            UpdateError::InvalidReport => "client reported an invalid version",
            UpdateError::WrongVersion => {
                "signed client cannot run here or reports the wrong version; check native dependencies"
            },
            UpdateError::InvalidLock => "invalid update lock file",
            UpdateError::LockHeld => "another client update is being installed; retry shortly",
            UpdateError::SharedDirectory => {
                "client installation directory is writable by another user"
            },
            UpdateError::LinkedClient => {
                "installed client must be a regular file, not a symbolic link"
            },
            UpdateError::OtherClient => "automatic updates require running ~/.local/bin/mysync",
        }
    }
}

/// A call that ends as `error` says.
pub open spec fn update_ends<T>(result: Result<T, UpdateError>, error: Option<UpdateError>) -> bool {
    match result {
        Ok(_) => error is None,
        Err(e) => error == Some(e),
    }
}

/// Checks where the running client is installed: whether others can write to the directory,
/// what stands there under the client's name, and whether it is what runs.
pub fn check_installation(shared: bool, regular: bool, link: bool, running: bool) -> (result: Result<
    (),
    UpdateError,
>)
    ensures
        update_ends(
            result,
            if shared {
                Some(UpdateError::SharedDirectory)
            } else if !regular || link {
                Some(UpdateError::LinkedClient)
            } else if !running {
                Some(UpdateError::OtherClient)
            } else {
                None
            },
        ),
{
    if shared {
        return Err(UpdateError::SharedDirectory);
    }
    if !regular || link {
        return Err(UpdateError::LinkedClient);
    }
    if !running {
        return Err(UpdateError::OtherClient);
    }
    Ok(())
}

/// Checks a file before it is run to ask its version.
pub fn check_executable(regular: bool, link: bool) -> (result: Result<(), UpdateError>)
    ensures
        update_ends(
            result,
            if regular && !link {
                None
            } else {
                Some(UpdateError::NotRegular)
            },
        ),
{
    if !regular || link {
        return Err(UpdateError::NotRegular);
    }
    Ok(())
}

/// The version in what a client prints.
pub open spec fn reported(output: Seq<char>) -> Option<Seq<char>> {
    let text = trim_white(output);
    if "mysync "@.is_prefix_of(text) {
        Some(text.skip("mysync "@.len() as int))
    } else {
        None
    }
}

/// Why a client's answer is not a version.
pub open spec fn report_error(success: bool, output: Seq<u8>) -> Option<UpdateError> {
    if !success {
        Some(UpdateError::CannotRun)
    } else if !valid_utf8(output) {
        Some(UpdateError::OutputNotText)
    } else if reported(decode_utf8(output)) is None {
        Some(UpdateError::InvalidReport)
    } else if version_form(reported(decode_utf8(output))->0) is None {
        Some(UpdateError::InvalidVersion)
    } else {
        None
    }
}

/// The version that a client has reported.
pub fn executable_version(success: bool, output: Vec<u8>) -> (result: Result<String, UpdateError>)
    ensures
        update_ends(result, report_error(success, output@)),
        result matches Ok(version) ==> Some(version@) == reported(decode_utf8(output@))
            && version_form(version@) is Some,
{
    if !success {
        return Err(UpdateError::CannotRun);
    }
    let ghost bytes = output@;
    let text = match utf8_text(output) {
        Some(text) => text,
        None => return Err(UpdateError::OutputNotText),
    };
    proof {
        encode_utf8_valid_utf8(text@);
        encode_utf8_decode_utf8(text@);
        assert(decode_utf8(bytes) == text@);
    }
    let output = trimmed(text.as_str());
    match without_prefix(output.as_str(), "mysync ") {
        None => Err(UpdateError::InvalidReport),
        Some(version) => {
            assert(output@.skip("mysync "@.len() as int) =~= version@);
            if parse_version(version.as_str()).is_none() {
                return Err(UpdateError::InvalidVersion);
            }
            Ok(version)
        },
    }
}

/// The release that this machine takes.
pub fn platform(os: &str, arch: &str) -> (result: Result<&'static str, UpdateError>)
    ensures
        match result {
            Ok(target) => target_of(os@, arch@) == Some(target@),
            Err(e) => target_of(os@, arch@) is None && e == UpdateError::UnsupportedPlatform,
        },
{
    match current_target(os, arch) {
        Some(target) => Ok(target),
        None => Err(UpdateError::UnsupportedPlatform),
    }
}

/// Where the releases of a target are.
pub fn release_base(server: &str, target: &str) -> (base: String)
    ensures
        base@ == trim_end_of(server@, '/') + "/v1/updates/"@ + target@,
{
    let head = joined(without_trailing(server, '/').as_str(), "/v1/updates/");
    joined(head.as_str(), target)
}

/// Why the signature of a release is not believed.
pub open spec fn believe_error(manifest: Seq<u8>, signature: Seq<u8>, key: Seq<char>) -> Option<
    UpdateError,
> {
    if !valid_utf8(signature) {
        Some(UpdateError::SignatureNotText)
    } else {
        match signature_error(manifest, decode_utf8(signature), key) {
            Some(e) => Some(UpdateError::Release(e)),
            None => None,
        }
    }
}

/// Checks the signature of a manifest before anything in it is looked at.
pub fn believe(manifest: &[u8], signature: Vec<u8>, key: &str) -> (result: Result<
    SignedManifest,
    UpdateError,
>)
    ensures
        update_ends(result, believe_error(manifest@, signature@, key@)),
        result matches Ok(signed) ==> signed.content() == manifest@,
{
    let ghost bytes = signature@;
    let text = match utf8_text(signature) {
        Some(text) => text,
        None => return Err(UpdateError::SignatureNotText),
    };
    proof {
        encode_utf8_valid_utf8(text@);
        encode_utf8_decode_utf8(text@);
        assert(decode_utf8(bytes) == text@);
    }
    match verify_manifest(manifest, text.as_str(), key) {
        Ok(signed) => Ok(signed),
        Err(e) => Err(UpdateError::Release(e)),
    }
}

/// A release that is signed, for this machine, and newer than the running client.
pub struct Offer {
    manifest: ReleaseManifest,
}

/// Why a believed manifest is not looked at further.
pub open spec fn offer_error(
    decoded: Option<ReleaseManifest>,
    target: Seq<char>,
    current: Seq<char>,
) -> Option<UpdateError> {
    match decoded {
        None => Some(UpdateError::Release(ReleaseError::Malformed)),
        Some(manifest) => match manifest_error(manifest@) {
            Some(e) => Some(UpdateError::Release(e)),
            None => if manifest@.target != target {
                Some(UpdateError::TargetMismatch)
            } else if version_form(current) is None {
                Some(UpdateError::InvalidVersion)
            } else {
                None
            },
        },
    }
}

impl Offer {
    #[verifier::type_invariant]
    spec fn acceptable(self) -> bool {
        manifest_error(self.manifest@) is None
    }

    pub closed spec fn release(self) -> Release {
        self.manifest@
    }

    /// Looks at a believed manifest; `decoded` is what its bytes were parsed into. Nothing
    /// is offered where the running client is as new.
    pub fn consider(
        signed: SignedManifest,
        decoded: Option<ReleaseManifest>,
        target: &str,
        current: &str,
    ) -> (result: Result<Option<Self>, UpdateError>)
        ensures
            update_ends(result, offer_error(decoded, target@, current@)),
            result matches Ok(offer) ==> {
                let release = decoded->0@;
                match offer {
                    None => version_at_most(release.version, current@),
                    Some(o) => o.release() == release && !version_at_most(
                        release.version,
                        current@,
                    ),
                }
            },
    {
        let manifest = match signed.accept(decoded) {
            Ok(manifest) => manifest,
            Err(e) => return Err(UpdateError::Release(e)),
        };
        if !same_text(manifest.target.as_str(), target) {
            return Err(UpdateError::TargetMismatch);
        }
        if parse_version(current).is_none() {
            return Err(UpdateError::InvalidVersion);
        }
        if version_le(manifest.version.as_str(), current) {
            return Ok(None);
        }
        Ok(Some(Offer { manifest }))
    }

    /// The name of the file to fetch.
    pub fn artifact(&self) -> (name: &str)
        ensures
            name@ == self.release().artifact,
    {
        self.manifest.artifact.as_str()
    }

    /// Begins to take in the file, unless another length than the signed one is announced.
    pub fn fetch(self, announced: Option<u64>) -> (result: Result<Fetch, UpdateError>)
        ensures
            update_ends(
                result,
                if announced is Some && announced->0 != self.release().size {
                    Some(UpdateError::LengthMismatch)
                } else {
                    None
                },
            ),
            result matches Ok(fetch) ==> fetch.wf() && fetch.release() == self.release()
                && fetch.received() == Seq::<u8>::empty(),
    {
        match announced {
            Some(length) => if length != self.manifest.size {
                return Err(UpdateError::LengthMismatch);
            },
            None => {},
        }
        Ok(Fetch { offer: self, hash: StreamHash::new(), size: 0 })
    }
}

/// A release coming down.
pub struct Fetch {
    offer: Offer,
    hash: StreamHash,
    size: u64,
}

impl Fetch {
    pub closed spec fn release(self) -> Release {
        self.offer.release()
    }

    pub closed spec fn received(self) -> Seq<u8> {
        absorbed(self.hash)
    }

    pub closed spec fn wf(self) -> bool {
        &&& self.size == absorbed(self.hash).len()
        &&& self.size <= self.offer.release().size
    }

    /// Takes in a piece, unless the file becomes longer than the signed length.
    pub fn accept(&mut self, chunk: &[u8]) -> (result: Result<(), UpdateError>)
        requires
            old(self).wf(),
        ensures
            final(self).wf(),
            final(self).release() == old(self).release(),
            update_ends(
                result,
                if old(self).received().len() + chunk@.len() > u64::MAX {
                    Some(UpdateError::TooLarge)
                } else if old(self).received().len() + chunk@.len() > old(self).release().size {
                    Some(UpdateError::ExceedsLength)
                } else {
                    None
                },
            ),
            final(self).received() == match result {
                Ok(_) => old(self).received() + chunk@,
                Err(_) => old(self).received(),
            },
    {
        let size: u64 = match self.size.checked_add(chunk.len() as u64) {
            Some(size) => size,
            None => return Err(UpdateError::TooLarge),
        };
        proof {
            use_type_invariant(&self.offer);
        }
        if size > self.offer.manifest.size || size > MAX_ARTIFACT_BYTES {
            return Err(UpdateError::ExceedsLength);
        }
        self.hash.update(chunk);
        self.size = size;
        Ok(())
    }

    /// Checks the whole file against the signed manifest.
    pub fn finish(self) -> (result: Result<Candidate, UpdateError>)
        requires
            self.wf(),
        ensures
            update_ends(
                result,
                if self.received().len() != self.release().size || hash_text(self.received())
                    != self.release().sha256 {
                    Some(UpdateError::ChecksumMismatch)
                } else {
                    None
                },
            ),
            result matches Ok(candidate) ==> candidate.release() == self.release(),
    {
        let digest = self.hash.finish();
        if self.size != self.offer.manifest.size || !same_text(
            digest.as_str(),
            self.offer.manifest.sha256.as_str(),
        ) {
            return Err(UpdateError::ChecksumMismatch);
        }
        Ok(Candidate { offer: self.offer })
    }
}

/// A release that is down and is what was signed; whether it runs here is not known yet.
pub struct Candidate {
    offer: Offer,
}

/// Two versions that stand at the same place.
pub open spec fn same_version(a: Seq<char>, b: Seq<char>) -> bool {
    version_at_most(a, b) && version_at_most(b, a)
}

impl Candidate {
    pub closed spec fn release(self) -> Release {
        self.offer.release()
    }

    /// Checks the version that the file itself reported when it was run.
    pub fn proved(self, version: &str) -> (result: Result<Runnable, UpdateError>)
        ensures
            update_ends(
                result,
                if version_form(version@) is None {
                    Some(UpdateError::InvalidVersion)
                } else if same_version(version@, self.release().version) {
                    None
                } else {
                    Some(UpdateError::WrongVersion)
                },
            ),
            result matches Ok(runnable) ==> runnable.release() == self.release(),
    {
        proof {
            use_type_invariant(&self.offer);
        }
        if parse_version(version).is_none() {
            return Err(UpdateError::InvalidVersion);
        }
        let expected = self.offer.manifest.version.as_str();
        if !version_le(version, expected) || !version_le(expected, version) {
            return Err(UpdateError::WrongVersion);
        }
        Ok(Runnable { offer: self.offer })
    }
}

/// Checks the lock that keeps two updates apart.
pub fn check_lock(regular: bool, taken: bool) -> (result: Result<(), UpdateError>)
    ensures
        update_ends(
            result,
            if !regular {
                Some(UpdateError::InvalidLock)
            } else if !taken {
                Some(UpdateError::LockHeld)
            } else {
                None
            },
        ),
{
    if !regular {
        return Err(UpdateError::InvalidLock);
    }
    if !taken {
        return Err(UpdateError::LockHeld);
    }
    Ok(())
}

/// A release that is what was signed and runs here.
pub struct Runnable {
    offer: Offer,
}

/// What the client on disk and a release come to.
pub open spec fn settled(installed: Seq<char>, version: Seq<char>) -> bool {
    version_at_most(version, installed)
}

impl Runnable {
    pub closed spec fn release(self) -> Release {
        self.offer.release()
    }

    /// Decides, with the lock held, whether the release takes the place of the client that
    /// is on disk by now, whose version is given. `Installed` asks for it.
    pub fn decide(self, installed: &str) -> (result: Result<UpdateOutcome, UpdateError>)
        ensures
            update_ends(
                result,
                if version_form(installed@) is None {
                    Some(UpdateError::InvalidVersion)
                } else {
                    None
                },
            ),
            result matches Ok(outcome) ==> match outcome {
                UpdateOutcome::Current => settled(installed@, self.release().version),
                UpdateOutcome::Installed(version) => version@ == self.release().version && !settled(
                    installed@,
                    self.release().version,
                ),
            },
    {
        proof {
            use_type_invariant(&self.offer);
        }
        if parse_version(installed).is_none() {
            return Err(UpdateError::InvalidVersion);
        }
        if version_le(self.offer.manifest.version.as_str(), installed) {
            return Ok(UpdateOutcome::Current);
        }
        Ok(UpdateOutcome::Installed(self.offer.manifest.version))
    }
}

/// A client that takes in the very bytes that were published under a manifest finds the
/// length and the digest that the manifest names.
pub proof fn law_published_binary_is_accepted(
    version: Seq<char>,
    target: Seq<char>,
    binary: Seq<u8>,
)
    ensures
        binary.len() == release_of(version, target, binary).size,
        hash_text(binary) == release_of(version, target, binary).sha256,
{
}

/// A client reports its version behind its name, with white space around the two or not.
pub proof fn law_report_names_the_version(output: Seq<char>, version: Seq<char>)
    ensures
        reported(output) == Some(version) <==> trim_white(output) == "mysync "@ + version,
{
    let name = "mysync "@;
    let text = trim_white(output);
    if name.is_prefix_of(text) {
        assert(text.subrange(0, name.len() as int) =~= name);
        assert(text =~= name + text.skip(name.len() as int));
    }
    if text == name + version {
        assert(text.subrange(0, name.len() as int) =~= name);
        assert(name.is_prefix_of(text));
        assert(text.skip(name.len() as int) =~= version);
    }
}

/// A report is right exactly where the client ran, wrote text, and reported a version.
pub proof fn law_right_report_is_read(success: bool, output: Seq<u8>)
    ensures
        report_error(success, output) is None <==> success && valid_utf8(output) && (reported(
            decode_utf8(output),
        ) matches Some(version) && version_form(version) is Some),
        !success <==> report_error(success, output) == Some(UpdateError::CannotRun),
{
}

/// A signed manifest is believed by the client exactly where it is by its key.
pub proof fn law_client_believes_the_key(manifest: Seq<u8>, signature: Seq<u8>, key: Seq<char>)
    ensures
        believe_error(manifest, signature, key) is None <==> valid_utf8(signature)
            && signature_error(manifest, decode_utf8(signature), key) is None,
{
}

/// A release is considered exactly where its manifest is acceptable and made for this machine.
pub proof fn law_release_for_this_machine_is_considered(
    manifest: ReleaseManifest,
    target: Seq<char>,
    current: Seq<char>,
)
    ensures
        offer_error(Some(manifest), target, current) is None <==> manifest_error(manifest@) is None
            && manifest@.target == target && version_form(current) is Some,
        offer_error(None, target, current) == Some(UpdateError::Release(ReleaseError::Malformed)),
        manifest_error(manifest@) is None && manifest@.target != target ==> offer_error(
            Some(manifest),
            target,
            current,
        ) == Some(UpdateError::TargetMismatch),
{
}

/// An installed version settles the matter exactly where it is as new as the release; two
/// versions are the same where each is as new as the other.
pub proof fn law_as_new_settles_it(installed: Seq<char>, version: Seq<char>)
    ensures
        settled(installed, version) <==> version_at_most(version, installed),
        same_version(installed, version) <==> settled(installed, version) && settled(
            version,
            installed,
        ),
{
}

} // verus!
