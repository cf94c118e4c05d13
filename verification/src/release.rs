//! Signed client releases: what a release may look like, how it is published and
//! when it is believed.
use vstd::prelude::*;
use vstd::utf8::*;

use crate::catalog::digest_ok;
use crate::digest::{
    absorbed, hash_text, hex_bytes, hex_decode, hex_encode, hex_text, law_hex_round_trip,
    random_bytes, StreamHash,
};
use crate::keys::{
    ed25519_decodes, ed25519_public, ed25519_signature, ed25519_verifies, key_decodes, public_of,
    signature_of, signature_verifies,
};
use crate::text::{
    begins_with, byte_len, chars_of, decimal, decimal_nat, decimal_u64, is_alphanumeric, joined,
    opt_text, same_text, trim_end_white, trim_start_white, trim_white, trimmed, white_space,
};
use crate::uploads::valid_digest;

verus! {

/// Largest client binary that is published or installed.
pub const MAX_ARTIFACT_BYTES: u64 = 67108864;

/// Largest release manifest that is read.
pub const MAX_MANIFEST_BYTES: usize = 16384;

/// What a release is: one binary for one target.
pub struct ReleaseManifest {
    pub version: String,
    pub target: String,
    pub artifact: String,
    pub size: u64,
    pub sha256: String,
}

/// Why a release is not published, or not believed.
#[derive(Clone, Copy, Debug, PartialEq, Eq, Structural)]
pub enum ReleaseError {
    InvalidVersion,
    BuildMetadata,
    UnsupportedTarget,
    InvalidArtifactName,
    InvalidSize,
    InvalidChecksum,
    ManifestTooLarge,
    InvalidHex,
    PublicKeyLength,
    SignatureLength,
    InvalidPublicKey,
    SignatureMismatch,
    Malformed,
    InvalidVersionOrTarget,
    BinaryVersionMismatch,
    NotNewer,
    ArtifactTooLarge,
    SigningKeyReadable,
    SigningKeyNotAFile,
    SigningKeyLength,
    RandomSource,
}

impl ReleaseError {
    /// What the user reads.
    pub fn message(&self) -> (text: &'static str)
        ensures
            text@ == release_message(*self),
    {
        match self {
            ReleaseError::InvalidVersion => "invalid release version",
            ReleaseError::BuildMetadata => "release version must not contain build metadata",
            ReleaseError::UnsupportedTarget => "unsupported release target",
            ReleaseError::InvalidArtifactName => "invalid release artifact name",
            ReleaseError::InvalidSize => "release artifact size is invalid",
            ReleaseError::InvalidChecksum => "release checksum is invalid",
            ReleaseError::ManifestTooLarge => "release manifest is too large",
            ReleaseError::InvalidHex => "invalid hexadecimal text",
            ReleaseError::PublicKeyLength => "release public key must contain 32 bytes",
            ReleaseError::SignatureLength => "release signature must contain 64 bytes",
            ReleaseError::InvalidPublicKey => "release public key is invalid",
            ReleaseError::SignatureMismatch => "release signature verification failed",
            ReleaseError::Malformed => "release manifest is malformed",
            ReleaseError::InvalidVersionOrTarget => "invalid release version or target",
            ReleaseError::BinaryVersionMismatch => {
                "client binary version does not match the release version"
            },
            ReleaseError::NotNewer => "release version must be newer than the published version",
            ReleaseError::ArtifactTooLarge => "artifact exceeds 64 MiB",
            ReleaseError::SigningKeyReadable => {
                "signing key must not be readable by group or others"
            },
            ReleaseError::SigningKeyNotAFile => "signing key is not a regular file",
            ReleaseError::SigningKeyLength => "signing key must contain 32 bytes",
            ReleaseError::RandomSource => "random source failed",
        }
    }
}

pub open spec fn release_message(error: ReleaseError) -> Seq<char> {
    match error {
        ReleaseError::InvalidVersion => "invalid release version"@,
        ReleaseError::BuildMetadata => "release version must not contain build metadata"@,
        ReleaseError::UnsupportedTarget => "unsupported release target"@,
        ReleaseError::InvalidArtifactName => "invalid release artifact name"@,
        ReleaseError::InvalidSize => "release artifact size is invalid"@,
        ReleaseError::InvalidChecksum => "release checksum is invalid"@,
        ReleaseError::ManifestTooLarge => "release manifest is too large"@,
        ReleaseError::InvalidHex => "invalid hexadecimal text"@,
        ReleaseError::PublicKeyLength => "release public key must contain 32 bytes"@,
        ReleaseError::SignatureLength => "release signature must contain 64 bytes"@,
        ReleaseError::InvalidPublicKey => "release public key is invalid"@,
        ReleaseError::SignatureMismatch => "release signature verification failed"@,
        ReleaseError::Malformed => "release manifest is malformed"@,
        ReleaseError::InvalidVersionOrTarget => "invalid release version or target"@,
        ReleaseError::BinaryVersionMismatch => "client binary version does not match the release version"@,
        ReleaseError::NotNewer => "release version must be newer than the published version"@,
        ReleaseError::ArtifactTooLarge => "artifact exceeds 64 MiB"@,
        ReleaseError::SigningKeyReadable => "signing key must not be readable by group or others"@,
        ReleaseError::SigningKeyNotAFile => "signing key is not a regular file"@,
        ReleaseError::SigningKeyLength => "signing key must contain 32 bytes"@,
        ReleaseError::RandomSource => "random source failed"@,
    }
}

/// The build metadata of a semantic version, empty where it has none. `None` where the
/// text is no semantic version.
pub uninterp spec fn version_form(text: Seq<char>) -> Option<Seq<char>>;

/// Whether one semantic version is at most another.
pub uninterp spec fn version_at_most(a: Seq<char>, b: Seq<char>) -> bool;

/// Calls `semver::Version::parse` and reads the build metadata.
#[verifier::external_body]
pub(crate) fn parse_version(text: &str) -> (build: Option<String>)
    ensures
        opt_text(build) == version_form(text@),
{
    semver::Version::parse(text).ok().map(|version| version.build.as_str().to_owned())
}

/// A version is above every version that is at most `bound`.
pub open spec fn newer_than_all_to(version: Seq<char>, bound: Seq<char>) -> bool {
    forall|u: Seq<char>|
        version_form(u) is Some && #[trigger] version_at_most(u, bound) ==> !version_at_most(
            version,
            u,
        )
}

/// Calls the `<=` of `semver::Version` on two versions that parse. It is a total
/// order, in which the same text stands at the same place: what is not at most a version
/// is above it, and above everything that it is above.
#[verifier::external_body]
pub(crate) fn version_le(a: &str, b: &str) -> (at_most: bool)
    requires
        version_form(a@) is Some,
        version_form(b@) is Some,
    ensures
        at_most == version_at_most(a@, b@),
        a@ == b@ ==> at_most,
        !at_most ==> version_at_most(b@, a@),
        !at_most ==> newer_than_all_to(a@, b@),
{
    semver::Version::parse(a).unwrap() <= semver::Version::parse(b).unwrap()
}

pub open spec fn target_ok(target: Seq<char>) -> bool {
    target == "linux-x86_64"@ || target == "linux-aarch64"@
}

pub fn valid_target(target: &str) -> (ok: bool)
    ensures
        ok == target_ok(target@),
{
    same_text(target, "linux-x86_64") || same_text(target, "linux-aarch64")
}

/// The release target of a platform.
pub open spec fn target_of(os: Seq<char>, arch: Seq<char>) -> Option<Seq<char>> {
    if os != "linux"@ {
        None
    } else if arch == "x86_64"@ {
        Some("linux-x86_64"@)
    } else if arch == "aarch64"@ {
        Some("linux-aarch64"@)
    } else {
        None
    }
}

/// The release target of a platform, by the names of its system and architecture.
pub fn current_target(os: &str, arch: &str) -> (target: Option<&'static str>)
    ensures
        match target {
            Some(t) => target_of(os@, arch@) == Some(t@),
            None => target_of(os@, arch@) is None,
        },
{
    if !same_text(os, "linux") {
        return None;
    }
    if same_text(arch, "x86_64") {
        Some("linux-x86_64")
    } else if same_text(arch, "aarch64") {
        Some("linux-aarch64")
    } else {
        None
    }
}

/// A character of a published file name.
pub open spec fn is_file_char(c: char) -> bool {
    is_alphanumeric(c) || c == '-' || c == '_' || c == '.'
}

/// Two dots in a row occur.
pub open spec fn has_double_dot(s: Seq<char>) -> bool {
    exists|i: int| 0 <= i < s.len() - 1 && #[trigger] s[i] == '.' && s[i + 1] == '.'
}

/// A file that the server hands out below a release directory.
pub open spec fn release_file_ok(file: Seq<char>) -> bool {
    ||| file == "latest.json"@
    ||| file == "latest.sig"@
    ||| {
        &&& "mysync-"@.is_prefix_of(file)
        &&& encode_utf8(file).len() <= 128
        &&& forall|i: int| 0 <= i < file.len() ==> is_file_char(#[trigger] file[i])
        &&& !has_double_dot(file)
    }
}

pub fn valid_release_file(file: &str) -> (ok: bool)
    ensures
        ok == release_file_ok(file@),
{
    if same_text(file, "latest.json") || same_text(file, "latest.sig") {
        return true;
    }
    if !begins_with(file, "mysync-") || byte_len(file) > 128 {
        return false;
    }
    let v = chars_of(file);
    let mut i: usize = 0;
    while i < v.len()
        invariant
            i <= v.len(),
            v@ == file@,
            file@ != "latest.json"@,
            file@ != "latest.sig"@,
            "mysync-"@.is_prefix_of(file@),
            encode_utf8(file@).len() <= 128,
            forall|j: int| 0 <= j < i ==> is_file_char(#[trigger] v@[j]),
            forall|j: int| 0 <= j < i - 1 ==> !(#[trigger] v@[j] == '.' && v@[j + 1] == '.'),
        decreases v.len() - i,
    {
        let c = v[i];
        if !(('0' <= c && c <= '9') || ('a' <= c && c <= 'z') || ('A' <= c && c <= 'Z') || c == '-'
            || c == '_' || c == '.') {
            assert(!is_file_char(file@[i as int]));
            return false;
        }
        if i > 0 && c == '.' && v[i - 1] == '.' {
            assert(file@[i as int - 1] == '.' && file@[i as int - 1 + 1] == '.');
            return false;
        }
        i += 1;
    }
    true
}

/// A manifest as plain values.
pub struct Release {
    pub version: Seq<char>,
    pub target: Seq<char>,
    pub artifact: Seq<char>,
    pub size: nat,
    pub sha256: Seq<char>,
}

impl View for ReleaseManifest {
    type V = Release;

    open spec fn view(&self) -> Release {
        Release {
            version: self.version@,
            target: self.target@,
            artifact: self.artifact@,
            size: self.size as nat,
            sha256: self.sha256@,
        }
    }
}

/// The file name of a release.
pub open spec fn artifact_of(version: Seq<char>, target: Seq<char>) -> Seq<char> {
    "mysync-"@ + version + "-"@ + target
}

/// Why a manifest is not acceptable in itself.
pub open spec fn manifest_error(release: Release) -> Option<ReleaseError> {
    if version_form(release.version) is None {
        Some(ReleaseError::InvalidVersion)
    } else if version_form(release.version)->0 != ""@ {
        Some(ReleaseError::BuildMetadata)
    } else if !target_ok(release.target) {
        Some(ReleaseError::UnsupportedTarget)
    } else if release.artifact != artifact_of(release.version, release.target) || !release_file_ok(
        release.artifact,
    ) {
        Some(ReleaseError::InvalidArtifactName)
    } else if release.size == 0 || release.size > MAX_ARTIFACT_BYTES {
        Some(ReleaseError::InvalidSize)
    } else if !digest_ok(release.sha256) {
        Some(ReleaseError::InvalidChecksum)
    } else {
        None
    }
}

/// A call that ends as `error` says.
pub open spec fn ends_with<T>(result: Result<T, ReleaseError>, error: Option<ReleaseError>) -> bool {
    match result {
        Ok(_) => error is None,
        Err(e) => error == Some(e),
    }
}

pub fn artifact_name(version: &str, target: &str) -> (name: String)
    ensures
        name@ == artifact_of(version@, target@),
{
    let mut name = joined("mysync-", version);
    name.append("-");
    name.append(target);
    name
}

impl ReleaseManifest {
    /// Checks everything about a manifest but its signature.
    pub fn validate(&self) -> (result: Result<(), ReleaseError>)
        ensures
            ends_with(result, manifest_error(self@)),
    {
        match parse_version(self.version.as_str()) {
            None => return Err(ReleaseError::InvalidVersion),
            Some(build) => if !same_text(build.as_str(), "") {
                return Err(ReleaseError::BuildMetadata);
            },
        }
        if !valid_target(self.target.as_str()) {
            return Err(ReleaseError::UnsupportedTarget);
        }
        let name = artifact_name(self.version.as_str(), self.target.as_str());
        if !same_text(self.artifact.as_str(), name.as_str()) || !valid_release_file(
            self.artifact.as_str(),
        ) {
            return Err(ReleaseError::InvalidArtifactName);
        }
        if self.size == 0 || self.size > MAX_ARTIFACT_BYTES {
            return Err(ReleaseError::InvalidSize);
        }
        if !valid_digest(self.sha256.as_str()) {
            return Err(ReleaseError::InvalidChecksum);
        }
        Ok(())
    }
}

/// What is signed for a manifest: it cannot be taken for anything else.
pub open spec fn release_payload(manifest: Seq<u8>) -> Seq<u8> {
    encode_utf8("MySyncFiles release manifest v1\n"@) + manifest
}

pub fn signed_payload(manifest_bytes: &[u8]) -> (payload: Vec<u8>)
    ensures
        payload@ == release_payload(manifest_bytes@),
{
    let mut payload = "MySyncFiles release manifest v1\n".as_bytes_vec();
    payload.extend_from_slice(manifest_bytes);
    payload
}

/// Why the signature of a manifest is not believed.
pub open spec fn signature_error(
    manifest: Seq<u8>,
    signature: Seq<char>,
    public_key: Seq<char>,
) -> Option<ReleaseError> {
    let key = hex_bytes(trim_white(public_key));
    let sign = hex_bytes(trim_white(signature));
    if manifest.len() > MAX_MANIFEST_BYTES {
        Some(ReleaseError::ManifestTooLarge)
    } else if key is None {
        Some(ReleaseError::InvalidHex)
    } else if key->0.len() != 32 {
        Some(ReleaseError::PublicKeyLength)
    } else if sign is None {
        Some(ReleaseError::InvalidHex)
    } else if sign->0.len() != 64 {
        Some(ReleaseError::SignatureLength)
    } else if !ed25519_decodes(key->0) {
        Some(ReleaseError::InvalidPublicKey)
    } else if !ed25519_verifies(key->0, release_payload(manifest), sign->0) {
        Some(ReleaseError::SignatureMismatch)
    } else {
        None
    }
}

/// Manifest bytes whose signature has been checked; only then are they parsed.
pub struct SignedManifest {
    bytes: Vec<u8>,
}

impl SignedManifest {
    pub closed spec fn content(self) -> Seq<u8> {
        self.bytes@
    }

    /// The bytes to parse.
    pub fn bytes(&self) -> (bytes: &[u8])
        ensures
            bytes@ == self.content(),
    {
        self.bytes.as_slice()
    }

    /// Takes what the bytes were parsed into, if they were a manifest at all.
    pub fn accept(self, decoded: Option<ReleaseManifest>) -> (result: Result<
        ReleaseManifest,
        ReleaseError,
    >)
        ensures
            ends_with(
                result,
                match decoded {
                    None => Some(ReleaseError::Malformed),
                    Some(manifest) => manifest_error(manifest@),
                },
            ),
            result matches Ok(manifest) ==> decoded == Some(manifest),
    {
        match decoded {
            None => Err(ReleaseError::Malformed),
            Some(manifest) => {
                manifest.validate()?;
                Ok(manifest)
            },
        }
    }
}

/// Checks the signature of a manifest before anything in it is looked at.
pub fn verify_manifest(manifest_bytes: &[u8], signature_hex: &str, public_key_hex: &str) -> (result:
    Result<SignedManifest, ReleaseError>)
    ensures
        ends_with(result, signature_error(manifest_bytes@, signature_hex@, public_key_hex@)),
        result matches Ok(signed) ==> signed.content() == manifest_bytes@,
{
    if manifest_bytes.len() > MAX_MANIFEST_BYTES {
        return Err(ReleaseError::ManifestTooLarge);
    }
    let key = match hex_decode(trimmed(public_key_hex).as_str()) {
        Some(key) => key,
        None => return Err(ReleaseError::InvalidHex),
    };
    if key.len() != 32 {
        return Err(ReleaseError::PublicKeyLength);
    }
    let signature = match hex_decode(trimmed(signature_hex).as_str()) {
        Some(signature) => signature,
        None => return Err(ReleaseError::InvalidHex),
    };
    if signature.len() != 64 {
        return Err(ReleaseError::SignatureLength);
    }
    if !key_decodes(key.as_slice()) {
        return Err(ReleaseError::InvalidPublicKey);
    }
    let payload = signed_payload(manifest_bytes);
    if !signature_verifies(key.as_slice(), payload.as_slice(), signature.as_slice()) {
        return Err(ReleaseError::SignatureMismatch);
    }
    let mut bytes: Vec<u8> = Vec::new();
    bytes.extend_from_slice(manifest_bytes);
    assert(bytes@ =~= manifest_bytes@);
    Ok(SignedManifest { bytes })
}

/// The published form of a manifest. A manifest that passes validation holds no
/// character that would need an escape.
pub open spec fn manifest_json(release: Release) -> Seq<char> {
    "{\n  \"version\": \""@ + release.version + "\",\n  \"target\": \""@ + release.target
        + "\",\n  \"artifact\": \""@ + release.artifact + "\",\n  \"size\": "@ + decimal(
        release.size as int,
    ) + ",\n  \"sha256\": \""@ + release.sha256 + "\"\n}\n"@
}

fn manifest_text(manifest: &ReleaseManifest) -> (text: String)
    ensures
        text@ == manifest_json(manifest@),
{
    let mut text = joined("{\n  \"version\": \"", manifest.version.as_str());
    text.append("\",\n  \"target\": \"");
    text.append(manifest.target.as_str());
    text.append("\",\n  \"artifact\": \"");
    text.append(manifest.artifact.as_str());
    text.append("\",\n  \"size\": ");
    text.append(decimal_u64(manifest.size).as_str());
    text.append(",\n  \"sha256\": \"");
    text.append(manifest.sha256.as_str());
    text.append("\"\n}\n");
    text
}

/// Why a version is not published for a target.
pub open spec fn publication_error(version: Seq<char>, target: Seq<char>) -> Option<ReleaseError> {
    if version_form(version) is None {
        Some(ReleaseError::InvalidVersion)
    } else if version_form(version)->0 != ""@ || !target_ok(target) {
        Some(ReleaseError::InvalidVersionOrTarget)
    } else {
        None
    }
}

/// The first check of a publication.
pub fn check_publication(version: &str, target: &str) -> (result: Result<(), ReleaseError>)
    ensures
        ends_with(result, publication_error(version@, target@)),
{
    match parse_version(version) {
        None => Err(ReleaseError::InvalidVersion),
        Some(build) => if !same_text(build.as_str(), "") || !valid_target(target) {
            Err(ReleaseError::InvalidVersionOrTarget)
        } else {
            Ok(())
        },
    }
}

/// The binary itself must report the version under which it is published.
pub fn check_probe(success: bool, stdout: &str, version: &str) -> (result: Result<(), ReleaseError>)
    ensures
        ends_with(
            result,
            if success && trim_white(stdout@) == "mysync "@ + version@ {
                None
            } else {
                Some(ReleaseError::BinaryVersionMismatch)
            },
        ),
{
    if !success || !same_text(trimmed(stdout).as_str(), joined("mysync ", version).as_str()) {
        return Err(ReleaseError::BinaryVersionMismatch);
    }
    Ok(())
}

/// Why a version may not follow what is published already.
pub open spec fn succession_error(version: Seq<char>, previous: Release) -> Option<ReleaseError> {
    if version_form(version) is None {
        Some(ReleaseError::InvalidVersion)
    } else if manifest_error(previous) is Some {
        manifest_error(previous)
    } else if version_at_most(version, previous.version) {
        Some(ReleaseError::NotNewer)
    } else {
        None
    }
}

/// A release only ever replaces an older one.
pub fn check_newer(version: &str, previous: &ReleaseManifest) -> (result: Result<(), ReleaseError>)
    ensures
        ends_with(result, succession_error(version@, previous@)),
        result is Ok ==> newer_than_all_to(version@, previous@.version),
{
    if parse_version(version).is_none() {
        return Err(ReleaseError::InvalidVersion);
    }
    previous.validate()?;
    if version_le(version, previous.version.as_str()) {
        return Err(ReleaseError::NotNewer);
    }
    Ok(())
}

/// A client binary while it is read, hashed and copied.
pub struct Artifact {
    hash: StreamHash,
    size: u64,
}

impl Artifact {
    pub closed spec fn content(self) -> Seq<u8> {
        absorbed(self.hash)
    }

    pub closed spec fn wf(self) -> bool {
        self.size == absorbed(self.hash).len() && self.size <= MAX_ARTIFACT_BYTES
    }

    pub fn new() -> (artifact: Self)
        ensures
            artifact.wf(),
            artifact.content() == Seq::<u8>::empty(),
    {
        Artifact { hash: StreamHash::new(), size: 0 }
    }

    /// Takes in a piece of the binary, unless it grows too large.
    pub fn accept(&mut self, chunk: &[u8]) -> (result: Result<(), ReleaseError>)
        requires
            old(self).wf(),
        ensures
            final(self).wf(),
            ends_with(
                result,
                if old(self).content().len() + chunk@.len() > MAX_ARTIFACT_BYTES {
                    Some(ReleaseError::ArtifactTooLarge)
                } else {
                    None
                },
            ),
            match result {
                Ok(_) => final(self).content() == old(self).content() + chunk@,
                Err(_) => *final(self) == *old(self),
            },
    {
        let length: usize = chunk.len();
        if length as u128 + self.size as u128 > MAX_ARTIFACT_BYTES as u128 {
            return Err(ReleaseError::ArtifactTooLarge);
        }
        self.hash.update(chunk);
        self.size = self.size + length as u64;
        Ok(())
    }

    /// The digest and the size of everything that was read.
    pub fn finish(self) -> (done: (String, u64))
        requires
            self.wf(),
        ensures
            done.0@ == hash_text(self.content()),
            done.1 == self.content().len(),
    {
        let size: u64 = self.size;
        (self.hash.finish(), size)
    }
}

/// The manifest of a binary.
pub open spec fn release_of(version: Seq<char>, target: Seq<char>, binary: Seq<u8>) -> Release {
    Release {
        version,
        target,
        artifact: artifact_of(version, target),
        size: binary.len(),
        sha256: hash_text(binary),
    }
}

/// What a publication writes next to the binary.
pub struct Published {
    pub manifest: ReleaseManifest,
    pub manifest_bytes: Vec<u8>,
    pub signature_line: String,
}

/// The last step of a publication: the manifest of the binary that was read, and its
/// signature.
pub fn publish(secret: &[u8], version: &str, target: &str, artifact: Artifact) -> (result: Result<
    Published,
    ReleaseError,
>)
    requires
        secret@.len() == 32,
        artifact.wf(),
    ensures
        ends_with(result, manifest_error(release_of(version@, target@, artifact.content()))),
        result matches Ok(done) ==> {
            &&& done.manifest@ == release_of(version@, target@, artifact.content())
            &&& done.manifest_bytes@ == encode_utf8(manifest_json(done.manifest@))
            &&& done.signature_line@ == hex_text(
                ed25519_signature(secret@, release_payload(done.manifest_bytes@)),
            ).push('\n')
            &&& ed25519_signature(secret@, release_payload(done.manifest_bytes@)).len() == 64
        },
{
    let name = artifact_name(version, target);
    let (sha256, size) = artifact.finish();
    let manifest = ReleaseManifest {
        version: version.to_owned(),
        target: target.to_owned(),
        artifact: name,
        size,
        sha256,
    };
    manifest.validate()?;
    let manifest_bytes = manifest_text(&manifest).as_str().as_bytes_vec();
    let payload = signed_payload(manifest_bytes.as_slice());
    let signature = signature_of(secret, payload.as_slice());
    let mut signature_line = hex_encode(signature.as_slice());
    signature_line.push('\n');
    Ok(Published { manifest, manifest_bytes, signature_line })
}

/// Why a binary is not published after what is published already.
pub open spec fn replacement_error(
    previous: Option<Release>,
    version: Seq<char>,
    target: Seq<char>,
    binary: Seq<u8>,
) -> Option<ReleaseError> {
    if previous is Some && succession_error(version, previous->0) is Some {
        succession_error(version, previous->0)
    } else {
        manifest_error(release_of(version, target, binary))
    }
}

pub open spec fn opt_release(manifest: Option<ReleaseManifest>) -> Option<Release> {
    match manifest {
        Some(m) => Some(m@),
        None => None,
    }
}

/// Publishes a binary after what is published already. It has to be newer than that, and so
/// is newer than all that was published before.
pub fn publish_after(
    secret: &[u8],
    previous: &Option<ReleaseManifest>,
    version: &str,
    target: &str,
    artifact: Artifact,
) -> (result: Result<Published, ReleaseError>)
    requires
        secret@.len() == 32,
        artifact.wf(),
    ensures
        ends_with(
            result,
            replacement_error(opt_release(*previous), version@, target@, artifact.content()),
        ),
        result is Ok && previous is Some ==> newer_than_all_to(version@, previous->0@.version),
        result matches Ok(done) ==> {
            &&& done.manifest@ == release_of(version@, target@, artifact.content())
            &&& done.manifest_bytes@ == encode_utf8(manifest_json(done.manifest@))
            &&& done.signature_line@ == hex_text(
                ed25519_signature(secret@, release_payload(done.manifest_bytes@)),
            ).push('\n')
            &&& ed25519_signature(secret@, release_payload(done.manifest_bytes@)).len() == 64
        },
{
    if let Some(manifest) = previous {
        check_newer(version, manifest)?;
    }
    publish(secret, version, target, artifact)
}

/// Why a file does not hold a signing key.
pub open spec fn signing_key_error(
    shared: bool,
    regular: bool,
    text: Seq<char>,
) -> Option<ReleaseError> {
    if shared {
        Some(ReleaseError::SigningKeyReadable)
    } else if !regular {
        Some(ReleaseError::SigningKeyNotAFile)
    } else if hex_bytes(trim_white(text)) is None {
        Some(ReleaseError::InvalidHex)
    } else if hex_bytes(trim_white(text))->0.len() != 32 {
        Some(ReleaseError::SigningKeyLength)
    } else {
        None
    }
}

/// Reads a signing key file: `shared` where its mode lets group or others in,
/// `regular` where it is a plain file.
pub fn read_signing_key(shared: bool, regular: bool, text: &str) -> (result: Result<
    Vec<u8>,
    ReleaseError,
>)
    ensures
        ends_with(result, signing_key_error(shared, regular, text@)),
        result matches Ok(secret) ==> Some(secret@) == hex_bytes(trim_white(text@)),
{
    if shared {
        return Err(ReleaseError::SigningKeyReadable);
    }
    if !regular {
        return Err(ReleaseError::SigningKeyNotAFile);
    }
    match hex_decode(trimmed(text).as_str()) {
        None => Err(ReleaseError::InvalidHex),
        Some(secret) => if secret.len() != 32 {
            Err(ReleaseError::SigningKeyLength)
        } else {
            Ok(secret)
        },
    }
}

/// A fresh pair of keys: the line for the private file, and the public key.
pub struct KeyPair {
    pub secret_line: String,
    pub public_key: String,
}

/// The key pair of 32 secret bytes.
pub fn key_pair(secret: &[u8]) -> (pair: KeyPair)
    requires
        secret@.len() == 32,
    ensures
        pair.secret_line@ == hex_text(secret@).push('\n'),
        pair.public_key@ == hex_text(ed25519_public(secret@)),
        ed25519_public(secret@).len() == 32,
        ed25519_decodes(ed25519_public(secret@)),
{
    let mut secret_line = hex_encode(secret);
    secret_line.push('\n');
    let public = public_of(secret);
    KeyPair { secret_line, public_key: hex_encode(public.as_slice()) }
}

/// A key pair from the system's random source.
pub fn generate_key() -> (result: Result<KeyPair, ReleaseError>)
    ensures
        match result {
            Ok(pair) => exists|secret: Seq<u8>|
                secret.len() == 32 && pair.secret_line@ == #[trigger] hex_text(secret).push('\n')
                    && pair.public_key@ == hex_text(ed25519_public(secret)),
            Err(e) => e == ReleaseError::RandomSource,
        },
{
    match random_bytes(32) {
        Some(secret) => {
            let pair = key_pair(secret.as_slice());
            assert(pair.secret_line@ == hex_text(secret@).push('\n'));
            Ok(pair)
        },
        None => Err(ReleaseError::RandomSource),
    }
}

proof fn lemma_trim_plain(s: Seq<char>)
    requires
        forall|i: int| 0 <= i < s.len() ==> !white_space(#[trigger] s[i]),
    ensures
        trim_white(s) == s,
        s.len() > 0 ==> trim_white(s.push('\n')) == s,
{
    if s.len() > 0 {
        assert(!white_space(s[0]));
        assert(!white_space(s[s.len() - 1]));
        let line = s.push('\n');
        assert(line.first() == s[0]);
        assert(trim_start_white(line) == line);
        assert(line.drop_last() =~= s);
        assert(trim_end_white(line) == trim_end_white(s));
    }
}

proof fn lemma_hex_trims(bytes: Seq<u8>)
    ensures
        trim_white(hex_text(bytes)) == hex_text(bytes),
        bytes.len() > 0 ==> trim_white(hex_text(bytes).push('\n')) == hex_text(bytes),
{
    let text = hex_text(bytes);
    assert forall|i: int| 0 <= i < text.len() implies !white_space(#[trigger] text[i]) by {}
    lemma_trim_plain(text);
}

proof fn lemma_decimal_ascii(n: nat)
    ensures
        is_ascii_chars(decimal_nat(n)),
    decreases n,
{
    if n >= 10 {
        lemma_decimal_ascii(n / 10);
    }
}

proof fn lemma_ascii_join(a: Seq<char>, b: Seq<char>)
    requires
        is_ascii_chars(a),
        is_ascii_chars(b),
    ensures
        is_ascii_chars(a + b),
{
}

proof fn lemma_decimal_len(n: nat)
    ensures
        n < 10 ==> decimal_nat(n).len() <= 1,
        n < 100 ==> decimal_nat(n).len() <= 2,
        n < 1000 ==> decimal_nat(n).len() <= 3,
        n < 10000 ==> decimal_nat(n).len() <= 4,
        n < 100000 ==> decimal_nat(n).len() <= 5,
        n < 1000000 ==> decimal_nat(n).len() <= 6,
        n < 10000000 ==> decimal_nat(n).len() <= 7,
        n < 100000000 ==> decimal_nat(n).len() <= 8,
    decreases n,
{
    if n >= 10 {
        lemma_decimal_len(n / 10);
    }
}

/// A manifest that passes validation is far smaller than what is read of one.
pub proof fn lemma_manifest_is_small(release: Release)
    requires
        manifest_error(release) is None,
    ensures
        encode_utf8(manifest_json(release)).len() <= 1024,
{
    reveal_strlit("linux-x86_64");
    reveal_strlit("linux-aarch64");
    reveal_strlit("latest.json");
    reveal_strlit("latest.sig");
    reveal_strlit("mysync-");
    reveal_strlit("-");
    reveal_strlit("{\n  \"version\": \"");
    reveal_strlit("\",\n  \"target\": \"");
    reveal_strlit("\",\n  \"artifact\": \"");
    reveal_strlit("\",\n  \"size\": ");
    reveal_strlit(",\n  \"sha256\": \"");
    reveal_strlit("\"\n}\n");
    let artifact = release.artifact;
    let version = release.version;
    assert(artifact[0] == 'm');
    assert(artifact.len() == version.len() + release.target.len() + 8);
    assert(is_ascii_chars(artifact));
    is_ascii_chars_encode_utf8(artifact);
    assert forall|i: int| 0 <= i < version.len() implies '\0' <= #[trigger] version[i]
        <= '\u{7f}' by {
        assert(artifact[i + 7] == version[i]);
    }
    assert(is_ascii_chars(version));
    let size = decimal(release.size as int);
    lemma_decimal_ascii(release.size);
    lemma_decimal_len(release.size);
    assert(size.len() <= 8);
    assert(is_ascii_chars(release.sha256));
    let s1 = "{\n  \"version\": \""@ + version;
    let s2 = s1 + "\",\n  \"target\": \""@;
    let s3 = s2 + release.target;
    let s4 = s3 + "\",\n  \"artifact\": \""@;
    let s5 = s4 + artifact;
    let s6 = s5 + "\",\n  \"size\": "@;
    let s7 = s6 + size;
    let s8 = s7 + ",\n  \"sha256\": \""@;
    let s9 = s8 + release.sha256;
    let json = manifest_json(release);
    assert(json == s9 + "\"\n}\n"@);
    lemma_ascii_join("{\n  \"version\": \""@, version);
    lemma_ascii_join(s1, "\",\n  \"target\": \""@);
    lemma_ascii_join(s2, release.target);
    lemma_ascii_join(s3, "\",\n  \"artifact\": \""@);
    lemma_ascii_join(s4, artifact);
    lemma_ascii_join(s5, "\",\n  \"size\": "@);
    lemma_ascii_join(s6, size);
    lemma_ascii_join(s7, ",\n  \"sha256\": \""@);
    lemma_ascii_join(s8, release.sha256);
    lemma_ascii_join(s9, "\"\n}\n"@);
    is_ascii_chars_encode_utf8(json);
    assert(json.len() <= 1024);
}

/// What `publish` writes, `verify_manifest` believes under the matching public key,
/// as long as the key accepts its own signature.
pub proof fn law_published_release_is_believed(secret: Seq<u8>, release: Release)
    requires
        manifest_error(release) is None,
        ed25519_public(secret).len() == 32,
        ed25519_decodes(ed25519_public(secret)),
        ({
            let payload = release_payload(encode_utf8(manifest_json(release)));
            let signature = ed25519_signature(secret, payload);
            signature.len() == 64 && ed25519_verifies(ed25519_public(secret), payload, signature)
        }),
    ensures
        ({
            let bytes = encode_utf8(manifest_json(release));
            signature_error(
                bytes,
                hex_text(ed25519_signature(secret, release_payload(bytes))).push('\n'),
                hex_text(ed25519_public(secret)),
            ) is None
        }),
{
    let bytes = encode_utf8(manifest_json(release));
    let signature = ed25519_signature(secret, release_payload(bytes));
    lemma_manifest_is_small(release);
    lemma_hex_trims(signature);
    lemma_hex_trims(ed25519_public(secret));
    law_hex_round_trip(signature);
    law_hex_round_trip(ed25519_public(secret));
}

/// The key file that `generate_key` writes reads back as the same secret.
pub proof fn law_key_file_reads_back(secret: Seq<u8>)
    requires
        secret.len() == 32,
    ensures
        signing_key_error(false, true, hex_text(secret).push('\n')) is None,
        hex_bytes(trim_white(hex_text(secret).push('\n'))) == Some(secret),
{
    lemma_hex_trims(secret);
    law_hex_round_trip(secret);
}

/// Publications to one target only ever become newer: after one, no version that is at most
/// its version is published.
pub proof fn law_publications_become_newer(
    previous: Option<Release>,
    target: Seq<char>,
    first: Seq<char>,
    first_binary: Seq<u8>,
    second: Seq<char>,
    second_binary: Seq<u8>,
)
    requires
        replacement_error(previous, first, target, first_binary) is None,
    ensures
        replacement_error(
            Some(release_of(first, target, first_binary)),
            second,
            target,
            second_binary,
        ) is None ==> !version_at_most(second, first),
        version_form(second) is Some && version_at_most(second, first) ==> replacement_error(
            Some(release_of(first, target, first_binary)),
            second,
            target,
            second_binary,
        ) == Some(ReleaseError::NotNewer),
{
}

/// A manifest is acceptable exactly where its version is a version without build metadata, its
/// target is supported, its artifact is named after both and can be published, and its size and
/// digest can be right.
pub proof fn law_manifest_is_acceptable(release: Release)
    ensures
        manifest_error(release) is None <==> version_form(release.version) == Some(""@) && (
        release.target == "linux-x86_64"@ || release.target == "linux-aarch64"@)
            && release.artifact == "mysync-"@ + release.version + "-"@ + release.target
            && release_file_ok(release.artifact) && 0 < release.size <= 64 * 1024 * 1024
            && digest_ok(release.sha256),
        version_form(release.version) is None <==> manifest_error(release) == Some(
            ReleaseError::InvalidVersion,
        ),
{
}

/// A release file is the manifest, its signature, or a name that begins like the client's, has
/// only letters, digits, hyphens, underscores and dots, never two dots in a row, and takes 128
/// bytes at most.
pub proof fn law_release_files_are_named_plainly(file: Seq<char>)
    ensures
        release_file_ok("latest.json"@),
        release_file_ok("latest.sig"@),
        release_file_ok(file) && file != "latest.json"@ && file != "latest.sig"@
            ==> "mysync-"@.is_prefix_of(file) && encode_utf8(file).len() <= 128 && (forall|i: int|
            0 <= i < file.len() ==> (('0' <= #[trigger] file[i] <= '9') || ('a' <= file[i] <= 'z')
                || ('A' <= file[i] <= 'Z') || file[i] == '-' || file[i] == '_' || file[i] == '.'))
            && (forall|i: int|
            0 <= i < file.len() - 1 ==> !(#[trigger] file[i] == '.' && file[i + 1] == '.')),
{
    if release_file_ok(file) && file != "latest.json"@ && file != "latest.sig"@ {
        assert forall|i: int| 0 <= i < file.len() implies (('0' <= #[trigger] file[i] <= '9') || (
        'a' <= file[i] <= 'z') || ('A' <= file[i] <= 'Z') || file[i] == '-' || file[i] == '_'
            || file[i] == '.') by {
            assert(is_file_char(file[i]));
        }
    }
}

/// Every name of that form is a release file.
pub proof fn law_plain_name_is_a_release_file(file: Seq<char>)
    requires
        "mysync-"@.is_prefix_of(file),
        encode_utf8(file).len() <= 128,
        forall|i: int|
            0 <= i < file.len() ==> (('0' <= #[trigger] file[i] <= '9') || ('a' <= file[i] <= 'z')
                || ('A' <= file[i] <= 'Z') || file[i] == '-' || file[i] == '_' || file[i] == '.'),
        forall|i: int|
            0 <= i < file.len() - 1 ==> !(#[trigger] file[i] == '.' && file[i + 1] == '.'),
    ensures
        release_file_ok(file),
{
    assert forall|i: int| 0 <= i < file.len() implies is_file_char(#[trigger] file[i]) by {
        assert(('0' <= file[i] <= '9') || ('a' <= file[i] <= 'z') || ('A' <= file[i] <= 'Z')
            || file[i] == '-' || file[i] == '_' || file[i] == '.');
    }
}

/// The client runs on two machines, and each has its target.
pub proof fn law_two_targets(os: Seq<char>, arch: Seq<char>)
    ensures
        target_of("linux"@, "x86_64"@) == Some("linux-x86_64"@),
        target_of("linux"@, "aarch64"@) == Some("linux-aarch64"@),
        target_of(os, arch) is Some <==> os == "linux"@ && (arch == "x86_64"@ || arch
            == "aarch64"@),
        target_of(os, arch) matches Some(target) ==> target_ok(target) && target == os + "-"@
            + arch,
        target_ok(arch) <==> arch == "linux-x86_64"@ || arch == "linux-aarch64"@,
{
    reveal_strlit("x86_64");
    reveal_strlit("aarch64");
    reveal_strlit("linux");
    reveal_strlit("-");
    reveal_strlit("linux-x86_64");
    reveal_strlit("linux-aarch64");
    assert("x86_64"@[0] != "aarch64"@[0]);
    assert("linux-x86_64"@ =~= "linux"@ + "-"@ + "x86_64"@);
    assert("linux-aarch64"@ =~= "linux"@ + "-"@ + "aarch64"@);
}

/// A manifest is believed exactly where it is short enough, the key is 32 bytes and a point, the
/// signature is 64 bytes, and the key signed the manifest under the name of its purpose. White
/// space around the two texts does not matter.
pub proof fn law_signed_manifest_is_believed(
    manifest: Seq<u8>,
    signature: Seq<char>,
    public_key: Seq<char>,
)
    ensures
        signature_error(manifest, signature, public_key) is None <==> manifest.len() <= 16 * 1024
            && (hex_bytes(trim_white(public_key)) matches Some(key) && key.len() == 32
            && ed25519_decodes(key) && (hex_bytes(trim_white(signature)) matches Some(sign)
            && sign.len() == 64 && ed25519_verifies(
            key,
            encode_utf8("MySyncFiles release manifest v1\n"@) + manifest,
            sign,
        ))),
        manifest.len() > 16 * 1024 <==> signature_error(manifest, signature, public_key) == Some(
            ReleaseError::ManifestTooLarge,
        ),
{
}

/// A version may be published for a target exactly where both are acceptable, and after another
/// release exactly where that was acceptable and the version is newer.
pub proof fn law_newer_version_may_be_published(
    version: Seq<char>,
    target: Seq<char>,
    previous: Release,
)
    ensures
        publication_error(version, target) is None <==> version_form(version) == Some(""@)
            && target_ok(target),
        succession_error(version, previous) is None <==> version_form(version) is Some
            && manifest_error(previous) is None && !version_at_most(version, previous.version),
        version_form(version) is Some && manifest_error(previous) is None && version_at_most(
            version,
            previous.version,
        ) <==> succession_error(version, previous) == Some(ReleaseError::NotNewer),
{
}

/// A binary is published exactly where the release of it is acceptable and nothing newer, or
/// equally new, was published before.
pub proof fn law_binary_is_published(
    previous: Option<Release>,
    version: Seq<char>,
    target: Seq<char>,
    binary: Seq<u8>,
)
    ensures
        replacement_error(previous, version, target, binary) is None <==> manifest_error(
            release_of(version, target, binary),
        ) is None && (previous matches Some(before) ==> manifest_error(before) is None
            && !version_at_most(version, before.version)),
        release_of(version, target, binary).version == version,
        release_of(version, target, binary).target == target,
        release_of(version, target, binary).size == binary.len(),
        release_of(version, target, binary).sha256 == hash_text(binary),
        release_of(version, target, binary).artifact == "mysync-"@ + version + "-"@ + target,
{
}

/// A signing key is read exactly where nobody else can read it, it is a regular file, and it is
/// 32 bytes in hexadecimal.
pub proof fn law_private_key_is_read(shared: bool, regular: bool, text: Seq<char>)
    ensures
        signing_key_error(shared, regular, text) is None <==> !shared && regular && (hex_bytes(
            trim_white(text),
        ) matches Some(key) && key.len() == 32),
        shared <==> signing_key_error(shared, regular, text) == Some(
            ReleaseError::SigningKeyReadable,
        ),
{
}

} // verus!
