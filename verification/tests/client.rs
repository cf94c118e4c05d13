use mysyncfiles::auth_protocol::{
    hash, AuthError, EnrollChallenge, Enrollment, Session, TpmPublic,
};
use mysyncfiles::client::{
    activated, check_config_place, check_first_device, check_server, daemon_step,
    default_auto_update, default_update_public_key, status, Api, ClientConfig, ClientError,
    DaemonAction, DaemonEvent, EnrollNeed, Enroller, Rounds,
};
use mysyncfiles::model::{Entry, Manifest, UploadProgress, UPLOAD_CHUNK_BYTES};
use mysyncfiles::origin_auth::{public_key_text, OriginError};
use mysyncfiles::reconcile::{LocalFile, LocalState, Seen};
use mysyncfiles::setup::{
    self, PendingPair, Setup, SetupAction, SetupEvent, SetupStart, SETUP_SECONDS,
};
use mysyncfiles::tpm::{default_tcti, Identity};
use mysyncfiles::transfer::{
    authorization, check_whole, json_too_large, judge, upload_kind, BoundedBody, ChunkedUpload,
    Download, SessionCache, UploadKind, Verdict,
};
use mysyncfiles::url::UrlParts;

fn pin() -> String {
    public_key_text(&[9; 32])
}

fn identity() -> Identity {
    Identity::created(&default_tcti(), "rsa", b"public", b"private")
}

fn config(server: &str) -> ClientConfig {
    ClientConfig {
        server: server.to_owned(),
        server_public_key: pin(),
        identity: Some(identity()),
        root: b"/home/me/Sync".to_vec(),
        auto_update: true,
        update_public_key: "key".to_owned(),
    }
}

fn api_error(server: &str) -> &'static str {
    Api::new(&config(server)).err().unwrap().message()
}

#[test]
fn the_way_to_the_server_is_protected() {
    assert!(Api::new(&config("https://sync.example.org")).is_ok());
    assert!(Api::new(&config("http://127.0.0.1:8484")).is_ok());
    assert!(Api::new(&config("http://localhost:1")).is_ok());
    assert!(Api::new(&config("http://[::1]:1")).is_ok());
    let insecure = "server URL must use HTTPS (HTTP is allowed only on loopback)";
    assert_eq!(api_error("http://sync.example.org"), insecure);
    assert_eq!(api_error("ftp://localhost"), insecure);
    let decorated = "server URL must not contain credentials, a query, or a fragment";
    for url in ["https://u@h", "https://u:p@h", "https://h/?q", "https://h/#f"] {
        assert_eq!(api_error(url), decorated, "{url}");
    }
    assert_eq!(api_error("not a url"), "invalid server URL");
}

#[test]
fn an_address_is_judged_by_its_parts() {
    let parts = |scheme: &str, host: &str| {
        Some(UrlParts {
            scheme: scheme.to_owned(),
            host: Some(host.to_owned()),
            username: String::new(),
            has_password: false,
            has_query: false,
            has_fragment: false,
            path: "/".to_owned(),
            text: String::new(),
        })
    };
    assert!(check_server(&parts("https", "any")).is_ok());
    assert!(check_server(&parts("http", "localhost")).is_ok());
    assert!(check_server(&parts("http", "any")).err() == Some(ClientError::InsecureUrl));
    assert!(check_server(&None).err() == Some(ClientError::InvalidUrl));
}

#[test]
fn a_server_must_be_pinned_and_the_device_enrolled() {
    let mut wrong = config("https://h");
    wrong.server_public_key.clear();
    let error = Api::new(&wrong).err().unwrap();
    assert!(error == ClientError::Pin(OriginError::PublicKeyLength));
    wrong.identity = None;
    assert_eq!(Api::new(&wrong).err().unwrap().message(), "device key is empty");
    let mut pinned = config("https://h");
    assert!(pinned.trust_server("zz").is_err());
    assert_eq!(pinned.server_public_key, pin());
    let other = public_key_text(&[8; 32]);
    assert!(pinned.trust_server(&other).is_ok());
    assert_eq!(pinned.server_public_key, other);
}

#[test]
fn resources_are_found_below_the_base() {
    let api = Api::new(&config("https://h/sync//")).ok().unwrap();
    assert_eq!(api.base, "https://h/sync");
    assert_eq!(api.url("/v1/manifest"), "https://h/sync/v1/manifest");
    assert_eq!(hex::encode(&api.server_key), pin());
}

#[test]
fn defaults_are_what_they_say() {
    assert!(default_auto_update());
    assert_eq!(default_update_public_key(" ab12\n"), "ab12");
    assert_eq!(default_tcti(), "device:/dev/tpmrm0");
}

fn entry(path: &str, deleted: bool) -> Entry {
    Entry { path: path.to_owned(), revision: 1, sha256: None, size: None, deleted }
}

#[test]
fn a_first_device_begins_on_a_server_without_live_files() {
    let manifest = Manifest { generation: 2, entries: vec![entry("a", true)] };
    assert!(check_first_device(true, &manifest).is_ok());
    let manifest = Manifest { generation: 2, entries: vec![entry("a", true), entry("b", false)] };
    let error = check_first_device(true, &manifest).err().unwrap();
    assert_eq!(
        error.message(),
        "server already contains files; use 'connect' for this device"
    );
    assert!(check_first_device(false, &manifest).is_ok());
    assert!(check_config_place(false).is_ok());
    assert!(check_config_place(true).err() == Some(ClientError::ConfigInside));
}

fn begin(previous: Option<ClientConfig>) -> Result<Enroller, ClientError> {
    Enroller::begin(
        false,
        previous,
        None,
        "https://h".to_owned(),
        pin(),
        b"/home/me/Sync".to_vec(),
        "invitation".to_owned(),
        " built-in \n",
    )
}

#[test]
fn an_enrollment_keeps_the_server_and_the_folder() {
    let mut old = config("https://h/");
    assert!(begin(Some(config("https://h/"))).err() == Some(ClientError::AlreadyEnrolled));
    old.identity = None;
    old.auto_update = false;
    let enroller = begin(Some(old)).ok().unwrap();
    assert!(!enroller.auto_update);
    assert_eq!(enroller.update_public_key, "key");
    assert!(begin(Some(config("https://other"))).err() == Some(ClientError::OtherServer));
    let fresh = begin(None).ok().unwrap();
    assert!(fresh.auto_update);
    assert_eq!(fresh.update_public_key, "built-in");
}

fn area() -> TpmPublic {
    let group = openssl::ec::EcGroup::from_curve_name(openssl::nid::Nid::X9_62_PRIME256V1).unwrap();
    let key = openssl::ec::EcKey::generate(&group).unwrap();
    let mut context = openssl::bn::BigNumContext::new().unwrap();
    let mut x = openssl::bn::BigNum::new().unwrap();
    let mut y = openssl::bn::BigNum::new().unwrap();
    key.public_key().affine_coordinates(&group, &mut x, &mut y, &mut context).unwrap();
    TpmPublic {
        canonical: b"public".to_vec(),
        fixed_tpm: true,
        fixed_parent: true,
        sensitive_data_origin: true,
        restricted: true,
        sign_encrypt: true,
        decrypt: false,
        sha256_name: true,
        p256: true,
        x: x.to_vec(),
        y: y.to_vec(),
    }
}

#[test]
fn an_enrollment_goes_on_where_it_stood() {
    let mut enroller = begin(None).ok().unwrap();
    assert!(enroller.need().ok() == Some(EnrollNeed::Identity));
    enroller.identity_created(identity()).ok().unwrap();
    assert!(enroller.need().ok() == Some(EnrollNeed::Certificate));
    let request = enroller.start_request(&[1, 2], &vec![vec![3], vec![0xff]]);
    assert_eq!(request.invitation, "invitation");
    assert_eq!(request.public, hex::encode(b"public"));
    assert_eq!(request.ek_chain, vec!["0102", "03", "ff"]);
    enroller.challenged(EnrollChallenge {
        id: "device-1".to_owned(),
        credential: "aa".to_owned(),
        secret: "bb".to_owned(),
    });
    assert!(enroller.need().ok() == Some(EnrollNeed::Activation));
    let pending = enroller.pending.unwrap();
    let mut again = Enroller::begin(
        false,
        None,
        Some(pending),
        "https://h".to_owned(),
        pin(),
        b"/home/me/Sync".to_vec(),
        "other invitation".to_owned(),
        "",
    )
    .ok()
    .unwrap();
    assert!(again.need().ok() == Some(EnrollNeed::Activation));
    let request = again.finish_request("cc".to_owned());
    assert_eq!((request.id.as_str(), request.activation.as_str()), ("device-1", "cc"));
    let area = Some(area());
    let right = identity().fingerprint(&area).ok().unwrap();
    let told = |fingerprint: &str| Enrollment {
        id: "device-1".to_owned(),
        fingerprint: fingerprint.to_owned(),
        status: "pending-approval".to_owned(),
    };
    assert!(again.finished(&told(&right), &area).is_ok());
    let error = again.finished(&told("00"), &area).err();
    assert!(error == Some(ClientError::UnexpectedFingerprint));
    let error = again.finished(&told(&right), &None).err();
    assert!(error == Some(ClientError::Fingerprint(AuthError::MalformedPublicArea)));
    let (api, config) = activated(again.pending.take()).ok().unwrap();
    assert_eq!(api.base, "https://h");
    assert_eq!(config.identity.unwrap().device, "device-1");
    assert!(activated(None).err() == Some(ClientError::NoPending));
}

#[test]
fn another_pending_enrollment_is_not_overwritten() {
    let mut enroller = begin(None).ok().unwrap();
    enroller.identity_created(identity()).ok().unwrap();
    let result = Enroller::begin(
        false,
        None,
        enroller.pending,
        "https://other".to_owned(),
        pin(),
        b"/home/me/Sync".to_vec(),
        String::new(),
        "",
    );
    assert!(result.err() == Some(ClientError::OtherPending));
    let result = Enroller::begin(
        true,
        None,
        None,
        "https://h".to_owned(),
        pin(),
        vec![],
        String::new(),
        "",
    );
    assert!(result.err() == Some(ClientError::ConfigInside));
}

#[test]
fn a_run_makes_up_to_five_passes() {
    let mut rounds = Rounds::new();
    for _ in 0..4 {
        assert!(rounds.after_pass(true).ok() == Some(false));
    }
    let error = rounds.after_pass(true).err().unwrap();
    assert_eq!(error.message(), "files kept changing during sync; retry shortly");
    let mut rounds = Rounds::new();
    assert!(rounds.after_pass(true).ok() == Some(false));
    assert!(rounds.after_pass(false).ok() == Some(true));
}

#[test]
fn the_status_counts_edits_and_deletions() {
    let mut state = LocalState::new();
    state.insert("same", Seen { revision: 1, sha256: Some("s".to_owned()) });
    state.insert("edited", Seen { revision: 2, sha256: Some("e".to_owned()) });
    state.insert("gone", Seen { revision: 3, sha256: Some("g".to_owned()) });
    state.insert("buried", Seen { revision: 4, sha256: None });
    let file = |path: &str, digest: &str| LocalFile {
        path: path.to_owned(),
        sha256: digest.to_owned(),
    };
    let local = vec![file("same", "s"), file("edited", "x"), file("new", "n")];
    let entries = vec![entry("same", false), entry("gone", true), entry("edited", false)];
    let told = status(&local, &state, &Manifest { generation: 9, entries }, 4);
    assert_eq!(
        (told.local_files, told.remote_files, told.pending_local, told.conflicts, told.generation),
        (3, 2, 3, 4, 9)
    );
}

#[test]
fn the_daemon_does_one_thing_per_event() {
    let step = |event| daemon_step(event, true).ok();
    assert!(step(DaemonEvent::Poll) == Some(DaemonAction::Sync));
    assert!(step(DaemonEvent::Watched { alive: true }) == Some(DaemonAction::SettleThenSync));
    assert!(step(DaemonEvent::UpdateDue) == Some(DaemonAction::CheckUpdate));
    let checked = |installed| step(DaemonEvent::UpdateChecked { installed });
    assert!(checked(true) == Some(DaemonAction::Stop));
    assert!(checked(false) == Some(DaemonAction::Sync));
    assert!(step(DaemonEvent::Terminated) == Some(DaemonAction::Stop));
    assert!(daemon_step(DaemonEvent::UpdateDue, false).ok() == Some(DaemonAction::Sync));
    let error = daemon_step(DaemonEvent::Watched { alive: false }, true).err().unwrap();
    assert_eq!(error.message(), "filesystem watcher stopped");
}

#[test]
fn an_answer_may_not_grow_over_its_limit() {
    assert!(BoundedBody::open(Some(11), 10).is_none());
    let mut body = BoundedBody::open(Some(10), 10).unwrap();
    assert!(body.accept(b"12345"));
    assert!(body.accept(b"67890"));
    assert!(!body.accept(b"x"));
    assert_eq!(body.finish(), b"1234567890");
    let mut body = BoundedBody::open(None, 3).unwrap();
    assert!(!body.accept(b"1234"));
    assert_eq!(json_too_large(65536).message(), "API JSON response exceeds 65536 bytes");
}

#[test]
fn a_session_is_used_until_shortly_before_its_end() {
    let mut cache = SessionCache::new();
    assert_eq!(cache.token(1000), None);
    let session = Session { token: "t".to_owned(), expires_at: 1100 };
    assert!(cache.opened(200, Some(session)).is_ok());
    assert_eq!(cache.token(1069), Some("t".to_owned()));
    assert_eq!(cache.token(1070), None);
    assert!(!cache.retries(500, 0));
    assert!(!cache.retries(401, 1));
    assert_eq!(cache.token(1000), Some("t".to_owned()));
    assert!(cache.retries(401, 0));
    assert_eq!(cache.token(1000), None);
    let error = cache.opened(403, None).err().unwrap();
    assert_eq!(error.message(), "device awaits administrator approval or was revoked");
    assert_eq!(authorization(""), None);
    assert_eq!(authorization("t"), Some("MySync t".to_owned()));
}

#[test]
fn a_status_is_a_conflict_a_failure_or_an_answer() {
    assert!(judge(409) == Verdict::Conflict);
    assert!(judge(404) == Verdict::Failed);
    assert!(judge(500) == Verdict::Failed);
    assert!(judge(200) == Verdict::Accepted);
}

#[test]
fn a_file_over_one_chunk_goes_up_in_pieces() {
    let chunk = UPLOAD_CHUNK_BYTES as u64;
    assert!(upload_kind(chunk).ok() == Some(UploadKind::Whole));
    let size = UPLOAD_CHUNK_BYTES + 1;
    assert!(upload_kind(chunk + 1).ok() == Some(UploadKind::Chunked { size }));
    assert_eq!(upload_kind(u64::MAX).err().unwrap().message(), "local file is too large");
    assert!(check_whole(UPLOAD_CHUNK_BYTES as usize).is_ok());
    let error = check_whole(UPLOAD_CHUNK_BYTES as usize + 1).err().unwrap();
    assert_eq!(error.message(), "local file grew during upload; retry sync");
}

fn progress(id: &str, offset: i64) -> UploadProgress {
    UploadProgress { id: id.to_owned(), offset }
}

#[test]
fn chunks_follow_each_other_to_the_end() {
    let size = 2 * UPLOAD_CHUNK_BYTES + 5;
    let mut upload = ChunkedUpload::begin(size, progress("s", UPLOAD_CHUNK_BYTES)).ok().unwrap();
    assert_eq!(upload.id(), "s");
    assert_eq!(upload.next(), Some((UPLOAD_CHUNK_BYTES, UPLOAD_CHUNK_BYTES)));
    let error = upload.check_read(5).err().unwrap();
    assert_eq!(error.message(), "local file changed during upload");
    assert!(upload.check_read(UPLOAD_CHUNK_BYTES as usize).is_ok());
    let wrong = "server returned an invalid upload offset";
    assert_eq!(upload.advance(&progress("s", size)).err().unwrap().message(), wrong);
    let next = 2 * UPLOAD_CHUNK_BYTES;
    assert_eq!(upload.advance(&progress("t", next)).err().unwrap().message(), wrong);
    assert!(upload.advance(&progress("s", next)).is_ok());
    assert_eq!(upload.next(), Some((next, 5)));
    assert!(upload.advance(&progress("s", size)).is_ok());
    assert_eq!(upload.next(), None);
    for offset in [-1, size + 1] {
        let result = ChunkedUpload::begin(size, progress("s", offset));
        assert_eq!(result.err().unwrap().message(), wrong);
    }
}

fn coming(size: Option<i64>, content: &[u8]) -> Entry {
    Entry {
        path: "a/b".to_owned(),
        revision: 3,
        sha256: Some(hash(content)),
        size,
        deleted: false,
    }
}

#[test]
fn a_download_is_what_the_manifest_says() {
    let mut download = Download::open(&coming(Some(11), b"hello world")).ok().unwrap();
    assert!(download.check_length(None).is_ok());
    assert!(download.check_length(Some(11)).is_ok());
    let error = download.check_length(Some(12)).err().unwrap();
    assert_eq!(error.message(), "download length does not match manifest");
    download.accept(b"hello ").ok().unwrap();
    download.accept(b"world").ok().unwrap();
    let error = download.accept(b"!").err().unwrap();
    assert_eq!(error.message(), "download exceeds manifest size for a/b");
    assert!(download.finish().is_ok());
}

#[test]
fn a_short_or_altered_download_is_refused() {
    let corrupt = "download integrity check failed for a/b";
    let mut download = Download::open(&coming(Some(5), b"hello")).ok().unwrap();
    download.accept(b"hell").ok().unwrap();
    assert_eq!(download.finish().err().unwrap().message(), corrupt);
    let mut download = Download::open(&coming(Some(5), b"hello")).ok().unwrap();
    download.accept(b"jello").ok().unwrap();
    assert_eq!(download.finish().err().unwrap().message(), corrupt);
    let error = Download::open(&coming(None, b"")).err().unwrap();
    assert_eq!(error.message(), "download size missing");
    let error = Download::open(&coming(Some(-1), b"")).err().unwrap();
    assert_eq!(error.message(), "negative download size");
}

fn pair(server: &str, key: &str, root: &str) -> PendingPair {
    PendingPair {
        server: server.to_owned(),
        server_public_key: key.to_owned(),
        root: root.as_bytes().to_vec(),
        code: "ABCDE-FGHJK-MNPQR-STVWX".to_owned(),
    }
}

#[test]
fn a_shown_code_stands_for_its_own_request() {
    let (server, key) = ("https://sync.example.org", pin());
    let go = |pair: Option<PendingPair>| setup::begin(&None, &pair, server, &key, b"/home/me/Sync");
    assert!(matches!(go(None).ok(), Some(SetupStart::Fresh)));
    match go(Some(pair(server, &key, "/home/me/Sync"))).ok() {
        Some(SetupStart::Resume { code }) => assert_eq!(code, "ABCDE-FGHJK-MNPQR-STVWX"),
        _ => panic!("the code is shown again"),
    }
    let other = Some(ClientError::OtherPending);
    assert!(go(Some(pair(server, &key, "/elsewhere"))).err() == other);
    assert!(go(Some(pair(server, "another", "/home/me/Sync"))).err() == other);
    assert!(go(Some(pair("https://x.org", &key, "/home/me/Sync"))).err() == other);
    let enrolled = Some(config("https://sync.example.org/"));
    let again = setup::begin(&enrolled, &None, server, &key, b"/home/me/Sync").ok();
    assert!(matches!(again, Some(SetupStart::Enrolled)));
    let moved = setup::begin(&enrolled, &None, server, &key, b"/elsewhere").err();
    assert!(moved == Some(ClientError::OtherServer));
    let insecure = setup::begin(&None, &None, "http://sync.example.org", &key, b"/").err();
    assert!(insecure == Some(ClientError::InsecureUrl));
    let unpinned = setup::begin(&None, &None, server, "key", b"/").err();
    assert!(matches!(unpinned, Some(ClientError::Pin(_))));
}

#[test]
fn setup_waits_for_the_administrator_and_syncs() {
    let (mut run, first) = Setup::new(false);
    assert!(first == SetupAction::Ask);
    let mut step = |event| run.advance(event, 5).ok();
    assert!(step(SetupEvent::Answered { status: 202 }) == Some(SetupAction::Wait));
    assert!(step(SetupEvent::Answered { status: 429 }) == Some(SetupAction::Wait));
    assert!(step(SetupEvent::Answered { status: 204 }) == Some(SetupAction::Enroll));
    assert!(step(SetupEvent::Enrolled) == Some(SetupAction::Activate));
    assert!(step(SetupEvent::Refused) == Some(SetupAction::Wait));
    assert!(step(SetupEvent::Answered { status: 204 }) == Some(SetupAction::Activate));
    assert!(step(SetupEvent::Approved) == Some(SetupAction::Sync));
}

#[test]
fn an_answer_to_a_request_for_access_is_yes_or_no() {
    assert!(setup::access_event(200) == Some(SetupEvent::Approved));
    assert!(setup::access_event(401) == Some(SetupEvent::Refused));
    assert!(setup::access_event(403) == Some(SetupEvent::Refused));
    assert!(setup::access_event(500).is_none());
}

#[test]
fn a_cancelled_code_is_forgotten() {
    let (mut run, _) = Setup::new(false);
    let gone = SetupEvent::Answered { status: 410 };
    assert!(run.advance(gone, 5).ok() == Some(SetupAction::Discard));
    let (mut run, first) = Setup::new(true);
    assert!(first == SetupAction::Activate);
    assert!(run.advance(SetupEvent::Refused, 5).ok() == Some(SetupAction::Wait));
    assert!(run.advance(gone, 5).ok() == Some(SetupAction::Activate));
    assert!(run.clone().advance(SetupEvent::Approved, 5).ok() == Some(SetupAction::Sync));
    assert!(run.advance(SetupEvent::Refused, 5).ok() == Some(SetupAction::Discard));
}

#[test]
fn a_run_of_setup_ends_after_half_an_hour() {
    assert_eq!(SETUP_SECONDS, 30 * 60);
    let waiting = SetupEvent::Answered { status: 202 };
    let (mut run, _) = Setup::new(false);
    assert!(run.advance(waiting, SETUP_SECONDS - 1).ok() == Some(SetupAction::Wait));
    assert!(run.advance(waiting, SETUP_SECONDS).err() == Some(ClientError::PairingTimeout));
    let broken = SetupEvent::Answered { status: 500 };
    assert!(run.advance(broken, 5).err() == Some(ClientError::PairingRefused));
}
