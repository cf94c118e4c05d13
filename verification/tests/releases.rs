use mysyncfiles::admission::{
    client_release, enrollment_admission, enrollment_body_limit, read_body, BodyRead,
};
use mysyncfiles::digest::{hash, FileDigest};
use mysyncfiles::release::{
    artifact_name, check_newer, check_probe, check_publication, current_target, generate_key,
    key_pair, publish, publish_after, read_signing_key, signed_payload, valid_release_file, valid_target,
    verify_manifest, Artifact, ReleaseError, ReleaseManifest, MAX_ARTIFACT_BYTES,
};
use mysyncfiles::update::{
    believe, check_executable, check_installation, check_lock, executable_version, platform,
    release_base, Offer, UpdateError, UpdateOutcome,
};

const TARGET: &str = "linux-x86_64";

fn manifest(version: &str, binary: &[u8]) -> ReleaseManifest {
    ReleaseManifest {
        version: version.to_owned(),
        target: TARGET.to_owned(),
        artifact: artifact_name(version, TARGET),
        size: binary.len() as u64,
        sha256: hash(binary),
    }
}

fn parse(bytes: &[u8]) -> Option<ReleaseManifest> {
    let value: serde_json::Value = serde_json::from_slice(bytes).ok()?;
    Some(ReleaseManifest {
        version: value.get("version")?.as_str()?.to_owned(),
        target: value.get("target")?.as_str()?.to_owned(),
        artifact: value.get("artifact")?.as_str()?.to_owned(),
        size: value.get("size")?.as_u64()?,
        sha256: value.get("sha256")?.as_str()?.to_owned(),
    })
}

fn offer(current: &str) -> Result<Option<Offer>, UpdateError> {
    let secret = [3u8; 32];
    let mut artifact = Artifact::new();
    artifact.accept(b"client ").ok().unwrap();
    artifact.accept(b"binary").ok().unwrap();
    let published = publish(&secret, "1.2.0", TARGET, artifact).ok().unwrap();
    let key = key_pair(&secret).public_key;
    let signature = published.signature_line.clone().into_bytes();
    let signed = believe(&published.manifest_bytes, signature, &key)?;
    let decoded = parse(signed.bytes());
    Offer::consider(signed, decoded, TARGET, current)
}

#[test]
fn a_published_release_is_believed_and_installed() {
    let offer = offer("1.1.9").ok().unwrap().unwrap();
    assert_eq!(offer.artifact(), "mysync-1.2.0-linux-x86_64");
    let mut fetch = offer.fetch(Some(13)).ok().unwrap();
    fetch.accept(b"client ").ok().unwrap();
    fetch.accept(b"binary").ok().unwrap();
    let candidate = fetch.finish().ok().unwrap();
    let runnable = candidate.proved("1.2.0").ok().unwrap();
    match runnable.decide("1.1.9").ok().unwrap() {
        UpdateOutcome::Installed(version) => assert_eq!(version, "1.2.0"),
        UpdateOutcome::Current => panic!("the release is newer"),
    }
}

#[test]
fn a_client_never_goes_back() {
    assert!(offer("1.2.0").ok().unwrap().is_none());
    assert!(offer("1.10.0").ok().unwrap().is_none());
    assert!(offer("nonsense").err() == Some(UpdateError::InvalidVersion));
    let mut fetch = offer("1.1.0").ok().unwrap().unwrap().fetch(None).ok().unwrap();
    fetch.accept(b"client binary").ok().unwrap();
    let runnable = fetch.finish().ok().unwrap().proved("1.2.0").ok().unwrap();
    assert!(matches!(runnable.decide("1.3.0"), Ok(UpdateOutcome::Current)));
}

#[test]
fn a_release_that_differs_is_not_installed() {
    let take = || offer("1.0.0").ok().unwrap().unwrap();
    assert!(take().fetch(Some(12)).err() == Some(UpdateError::LengthMismatch));
    let mut fetch = take().fetch(None).ok().unwrap();
    assert!(fetch.accept(b"client binary!").err() == Some(UpdateError::ExceedsLength));
    let mut fetch = take().fetch(None).ok().unwrap();
    fetch.accept(b"client binarz").ok().unwrap();
    assert!(fetch.finish().err() == Some(UpdateError::ChecksumMismatch));
    let mut fetch = take().fetch(None).ok().unwrap();
    fetch.accept(b"client").ok().unwrap();
    assert!(fetch.finish().err() == Some(UpdateError::ChecksumMismatch));
    let mut fetch = take().fetch(None).ok().unwrap();
    fetch.accept(b"client binary").ok().unwrap();
    let candidate = fetch.finish().ok().unwrap();
    assert!(candidate.proved("1.2.1").err() == Some(UpdateError::WrongVersion));
}

#[test]
fn an_unsigned_or_foreign_manifest_is_refused() {
    let secret = [3u8; 32];
    let mut artifact = Artifact::new();
    artifact.accept(b"x").ok().unwrap();
    let published = publish(&secret, "1.2.0", TARGET, artifact).ok().unwrap();
    let key = key_pair(&secret).public_key;
    let other = key_pair(&[4; 32]).public_key;
    let bytes = published.manifest_bytes;
    let signature = published.signature_line;
    assert!(verify_manifest(&bytes, &signature, &key).is_ok());
    let error = verify_manifest(&bytes, &signature, &other).err();
    assert!(error == Some(ReleaseError::SignatureMismatch));
    let error = verify_manifest(b"{}", &signature, &key).err();
    assert!(error == Some(ReleaseError::SignatureMismatch));
    assert!(verify_manifest(&bytes, "00", &key).err() == Some(ReleaseError::SignatureLength));
    assert!(verify_manifest(&bytes, "zz", &key).err() == Some(ReleaseError::InvalidHex));
    assert!(verify_manifest(&bytes, &signature, "00").err() == Some(ReleaseError::PublicKeyLength));
    let error = verify_manifest(&[0; 16385], &signature, &key).err();
    assert!(error == Some(ReleaseError::ManifestTooLarge));
    assert!(believe(&bytes, vec![0xff], &key).err() == Some(UpdateError::SignatureNotText));
    let signed = believe(&bytes, signature.clone().into_bytes(), &key).ok().unwrap();
    let decoded = parse(signed.bytes());
    let error = Offer::consider(signed, decoded, "linux-aarch64", "1.0.0").err();
    assert!(error == Some(UpdateError::TargetMismatch));
    let signed = believe(&bytes, signature.into_bytes(), &key).ok().unwrap();
    let error = Offer::consider(signed, None, TARGET, "1.0.0").err();
    assert!(error == Some(UpdateError::Release(ReleaseError::Malformed)));
}

#[test]
fn a_payload_begins_with_its_domain() {
    assert_eq!(signed_payload(b"{}"), b"MySyncFiles release manifest v1\n{}");
}

#[test]
fn a_manifest_is_checked_in_itself() {
    assert!(manifest("1.2.0", b"x").validate().is_ok());
    let check = |change: &dyn Fn(&mut ReleaseManifest)| {
        let mut m = manifest("1.2.0", b"x");
        change(&mut m);
        m.validate().err()
    };
    assert!(check(&|m| m.version = "1.2".to_owned()) == Some(ReleaseError::InvalidVersion));
    assert!(check(&|m| m.version = "1.2.0+b".to_owned()) == Some(ReleaseError::BuildMetadata));
    assert!(check(&|m| m.target = "windows".to_owned()) == Some(ReleaseError::UnsupportedTarget));
    assert!(check(&|m| m.artifact.push('x')) == Some(ReleaseError::InvalidArtifactName));
    assert!(check(&|m| m.size = 0) == Some(ReleaseError::InvalidSize));
    assert!(check(&|m| m.size = MAX_ARTIFACT_BYTES + 1) == Some(ReleaseError::InvalidSize));
    assert!(check(&|m| m.sha256.pop().map_or((), |_| ())) == Some(ReleaseError::InvalidChecksum));
}

#[test]
fn a_release_follows_an_older_one() {
    assert!(check_newer("1.2.1", &manifest("1.2.0", b"x")).is_ok());
    assert!(check_newer("1.2.0", &manifest("1.2.0", b"x")).err() == Some(ReleaseError::NotNewer));
    assert!(check_newer("1.10.0", &manifest("1.9.0", b"x")).is_ok());
    assert!(check_newer("x", &manifest("1.2.0", b"x")).err() == Some(ReleaseError::InvalidVersion));
    assert!(check_publication("1.2.0", TARGET).is_ok());
    assert!(check_publication("1.2.0", "x").err() == Some(ReleaseError::InvalidVersionOrTarget));
    assert!(check_probe(true, "mysync 1.2.0\n", "1.2.0").is_ok());
    let mismatch = Some(ReleaseError::BinaryVersionMismatch);
    assert!(check_probe(true, "mysync 1.2.1", "1.2.0").err() == mismatch);
    assert!(check_probe(false, "mysync 1.2.0", "1.2.0").err() == mismatch);
}

#[test]
fn publications_become_newer() {
    let secret = [3u8; 32];
    let go = |previous: &Option<ReleaseManifest>, version: &str| {
        let mut artifact = Artifact::new();
        artifact.accept(version.as_bytes()).ok().unwrap();
        publish_after(&secret, previous, version, TARGET, artifact).map(|done| done.manifest)
    };
    let first = go(&None, "1.2.0").ok();
    assert_eq!(first.as_ref().unwrap().sha256, hash(b"1.2.0"));
    assert!(go(&first, "1.2.0").err() == Some(ReleaseError::NotNewer));
    assert!(go(&first, "1.1.9").err() == Some(ReleaseError::NotNewer));
    let second = go(&first, "1.10.0").ok();
    assert!(go(&second, "1.9.0").err() == Some(ReleaseError::NotNewer));
    assert!(go(&second, "1.2.0").err() == Some(ReleaseError::NotNewer));
    assert!(go(&second, "2.0.0-rc.1").is_ok());
}

#[test]
fn a_binary_has_a_largest_size() {
    let mut artifact = Artifact::new();
    let most = vec![0u8; MAX_ARTIFACT_BYTES as usize];
    assert!(artifact.accept(&most).is_ok());
    assert!(artifact.accept(b"x").err() == Some(ReleaseError::ArtifactTooLarge));
}

#[test]
fn names_of_targets_and_files() {
    assert!(valid_target("linux-x86_64") && valid_target("linux-aarch64"));
    assert!(!valid_target("linux-arm"));
    assert_eq!(current_target("linux", "x86_64"), Some("linux-x86_64"));
    assert_eq!(current_target("linux", "aarch64"), Some("linux-aarch64"));
    assert_eq!(current_target("macos", "aarch64"), None);
    assert!(valid_release_file("latest.json") && valid_release_file("mysync-1.0.0-linux-x86_64"));
    for bad in ["", "a/b", "..", "a..b", "\u{e9}"] {
        assert!(!valid_release_file(bad), "{bad}");
    }
    assert_eq!(platform("linux", "x86_64").ok(), Some("linux-x86_64"));
    assert!(platform("linux", "arm").err() == Some(UpdateError::UnsupportedPlatform));
    assert_eq!(release_base("https://h//", TARGET), "https://h/v1/updates/linux-x86_64");
}

#[test]
fn a_signing_key_reads_back() {
    let pair = generate_key().ok().unwrap();
    assert_eq!(pair.public_key.len(), 64);
    let read = read_signing_key(false, true, &pair.secret_line).ok().unwrap();
    assert_eq!(key_pair(&read).public_key, pair.public_key);
    let error = read_signing_key(true, true, &pair.secret_line).err();
    assert!(error == Some(ReleaseError::SigningKeyReadable));
    let error = read_signing_key(false, false, &pair.secret_line).err();
    assert!(error == Some(ReleaseError::SigningKeyNotAFile));
    assert!(read_signing_key(false, true, "00").err() == Some(ReleaseError::SigningKeyLength));
}

#[test]
fn a_client_tells_its_version() {
    let tell = |success, output: &[u8]| executable_version(success, output.to_vec());
    assert_eq!(tell(true, b" mysync 1.2.3\n").ok(), Some("1.2.3".to_owned()));
    assert!(tell(false, b"mysync 1.2.3").err() == Some(UpdateError::CannotRun));
    assert!(tell(true, &[0xff]).err() == Some(UpdateError::OutputNotText));
    assert!(tell(true, b"other 1.2.3").err() == Some(UpdateError::InvalidReport));
    assert!(tell(true, b"mysync 1.2").err() == Some(UpdateError::InvalidVersion));
}

#[test]
fn an_update_starts_from_a_private_installation() {
    assert!(check_installation(false, true, false, true).is_ok());
    let refusal = |a, b, c, d| check_installation(a, b, c, d).err();
    assert!(refusal(true, true, false, true) == Some(UpdateError::SharedDirectory));
    assert!(refusal(false, false, false, true) == Some(UpdateError::LinkedClient));
    assert!(refusal(false, true, true, true) == Some(UpdateError::LinkedClient));
    assert!(refusal(false, true, false, false) == Some(UpdateError::OtherClient));
    assert!(check_executable(true, false).is_ok());
    assert!(check_executable(true, true).err() == Some(UpdateError::NotRegular));
    assert!(check_executable(false, false).err() == Some(UpdateError::NotRegular));
    assert!(check_lock(true, true).is_ok());
    assert!(check_lock(false, true).err() == Some(UpdateError::InvalidLock));
    assert!(check_lock(true, false).err() == Some(UpdateError::LockHeld));
    assert_eq!(
        UpdateError::LockHeld.message(),
        "another client update is being installed; retry shortly"
    );
}

#[test]
fn only_the_newest_release_may_change() {
    let found = client_release(true, TARGET, "latest.json").ok().unwrap();
    assert_eq!(found.path, "linux-x86_64/latest.json");
    assert_eq!(found.cache, "public, no-cache");
    let found = client_release(true, TARGET, "mysync-1.0.0-linux-x86_64").ok().unwrap();
    assert_eq!(found.cache, "public, max-age=31536000, immutable");
    for (published, target, file) in
        [(false, TARGET, "latest.json"), (true, "x", "latest.json"), (true, TARGET, "../x")]
    {
        let error = client_release(published, target, file).err().unwrap();
        assert_eq!((error.0, error.1.as_str()), (404, "release not found"));
    }
}

#[test]
fn enrollment_bodies_are_bounded() {
    assert!(enrollment_admission(true).is_ok());
    let error = enrollment_admission(false).err().unwrap();
    assert_eq!((error.0, error.1.as_str()), (429, "enrollment busy"));
    assert_eq!(enrollment_body_limit("/v1/enroll/ready"), 128);
    assert_eq!(enrollment_body_limit("/v1/enroll/start"), 262144);
    assert_eq!(read_body(BodyRead::Complete(vec![1, 2]), 2).ok(), Some(vec![1, 2]));
    assert_eq!(read_body(BodyRead::Complete(vec![1, 2, 3]), 2).err().unwrap().0, 413);
    assert_eq!(read_body(BodyRead::Broken, 2).err().unwrap().0, 413);
    assert_eq!(read_body(BodyRead::TimedOut, 2).err().unwrap().0, 408);
}

#[test]
fn a_file_is_hashed_in_pieces() {
    let mut digest = FileDigest::new();
    assert!(digest.accept(b"a"));
    assert!(digest.accept(b"bc"));
    let (text, size) = digest.finish();
    assert_eq!(text, "ba7816bf8f01cfea414140de5dae2223b00361a396177a9cb410ff61f20015ad");
    assert_eq!(size, 3);
    assert_eq!(text, hash(b"abc"));
}
