use mysyncfiles::catalog::{
    MAX_UPLOAD_SESSIONS_PER_DEVICE, RETENTION_SECONDS, UPLOAD_SESSION_SECONDS,
};
use mysyncfiles::digest::hash;
use mysyncfiles::model::{below, valid_path, BeginUpload, Entry, UPLOAD_CHUNK_BYTES};
use mysyncfiles::server::{
    purge_expired, purge_trash_item, validate_path, ApiError, ServerState, StoredEntry,
};
use mysyncfiles::uploads::{
    copy_upload, purge_upload_sessions, valid_digest, ActiveUploads, Receiver,
};

fn empty() -> ServerState {
    ServerState::load(0, vec![], vec![], vec![]).unwrap()
}

fn put(state: &mut ServerState, path: &str, base: i64, content: &[u8]) -> Result<Entry, ApiError> {
    let blob = format!("blob-{path}-{base}");
    let size = content.len() as i64;
    state.commit_upload(path, base, blob, hash(content), size).map(|c| c.entry)
}

fn refused<T>(result: Result<T, ApiError>) -> (u16, String) {
    let error = result.err().unwrap();
    (error.0, error.1)
}

#[test]
fn a_commit_gets_the_next_revision() {
    let mut state = empty();
    let first = put(&mut state, "notes/a.txt", 0, b"one").ok().unwrap();
    assert_eq!(first.revision, 1);
    assert_eq!(first.sha256, Some(hash(b"one")));
    assert_eq!(first.size, Some(3));
    assert!(!first.deleted);
    let second = put(&mut state, "b.txt", 0, b"two").ok().unwrap();
    assert_eq!(second.revision, 2);
    assert_eq!(state.generation, 2);
    assert_eq!(state.current_revision("notes/a.txt"), 1);
    assert_eq!(state.current_revision("missing"), 0);
}

#[test]
fn a_commit_replaces_the_blob_it_names() {
    let mut state = empty();
    put(&mut state, "a", 0, b"one").ok().unwrap();
    let done = state.commit_upload("a", 1, "new".to_owned(), hash(b"two"), 3).ok().unwrap();
    assert_eq!(done.replaced_blob, Some("blob-a-0".to_owned()));
    assert_eq!(done.entry.revision, 2);
    assert_eq!(state.download("a", Some(2)).ok().unwrap(), ("new".to_owned(), 3));
}

#[test]
fn a_stale_base_is_refused() {
    let mut state = empty();
    put(&mut state, "a", 0, b"one").ok().unwrap();
    put(&mut state, "a", 1, b"two").ok().unwrap();
    let (status, text) = refused(put(&mut state, "a", 1, b"three"));
    assert_eq!(status, 409);
    assert_eq!(text, "server version wins; refresh manifest");
    assert_eq!(state.generation, 2);
    assert_eq!(refused(put(&mut state, "b", 7, b"x")).0, 409);
}

#[test]
fn a_file_excludes_descendants_and_ancestors() {
    let mut state = empty();
    put(&mut state, "a", 0, b"file").ok().unwrap();
    assert_eq!(refused(put(&mut state, "a/b", 0, b"x")).0, 409);
    assert_eq!(refused(state.check_path_namespace("a/b/c")).0, 409);
    assert!(state.check_path_namespace("ab").is_ok());
    put(&mut state, "d/e", 0, b"deep").ok().unwrap();
    assert_eq!(refused(put(&mut state, "d", 0, b"x")).0, 409);
    state.delete("a", Some(1), 100).ok().unwrap();
    assert!(put(&mut state, "a/b", 0, b"x").is_ok());
}

#[test]
fn a_deleted_file_comes_back_from_the_trash() {
    let mut state = empty();
    put(&mut state, "a", 0, b"one").ok().unwrap();
    let deletion = state.delete("a", Some(1), 1000).ok().unwrap();
    assert_eq!(deletion.entry.revision, 2);
    assert!(deletion.entry.deleted);
    let row = deletion.trashed.unwrap();
    assert_eq!(row.expires_at, 1000 + RETENTION_SECONDS);
    assert_eq!(RETENTION_SECONDS, 30 * 24 * 60 * 60);
    let items = state.list_trash(1001);
    assert_eq!(items.len(), 1);
    assert_eq!(items[0].path, "a");
    assert_eq!(items[0].size, 3);
    let entry = state.restore(row.id, 1002).ok().unwrap();
    assert_eq!(entry.revision, 3);
    assert_eq!(entry.sha256, Some(hash(b"one")));
    assert!(state.list_trash(1003).is_empty());
    assert_eq!(state.download("a", Some(3)).ok().unwrap().1, 3);
}

#[test]
fn an_expired_item_stays_deleted() {
    let mut state = empty();
    put(&mut state, "a", 0, b"one").ok().unwrap();
    let id = state.delete("a", Some(1), 1000).ok().unwrap().trashed.unwrap().id;
    let late = 1000 + RETENTION_SECONDS;
    assert!(state.list_trash(late).is_empty());
    assert_eq!(refused(state.restore(id, late)).0, 404);
    assert_eq!(purge_expired(&mut state, late), vec!["blob-a-0".to_owned()]);
    assert!(purge_expired(&mut state, late).is_empty());
}

#[test]
fn a_purged_item_is_gone() {
    let mut state = empty();
    put(&mut state, "a", 0, b"one").ok().unwrap();
    let id = state.delete("a", Some(1), 1000).ok().unwrap().trashed.unwrap().id;
    assert_eq!(purge_trash_item(&mut state, id), Some("blob-a-0".to_owned()));
    assert_eq!(purge_trash_item(&mut state, id), None);
    assert_eq!(refused(state.restore(id, 1001)).0, 404);
}

#[test]
fn restoring_over_a_live_file_is_refused() {
    let mut state = empty();
    put(&mut state, "a", 0, b"one").ok().unwrap();
    let id = state.delete("a", Some(1), 1000).ok().unwrap().trashed.unwrap().id;
    put(&mut state, "a", 2, b"two").ok().unwrap();
    assert_eq!(refused(state.restore(id, 1001)).0, 409);
    state.delete("a", Some(3), 1002).ok().unwrap();
    put(&mut state, "a/b", 0, b"x").ok().unwrap();
    assert_eq!(refused(state.restore(id, 1003)).0, 409);
}

#[test]
fn a_deletion_needs_a_base() {
    let mut state = empty();
    put(&mut state, "a", 0, b"one").ok().unwrap();
    assert_eq!(refused(state.delete("a", None, 1)).0, 400);
    assert_eq!(refused(state.delete("a", Some(0), 1)).0, 409);
    assert_eq!(refused(state.delete("../a", Some(0), 1)).0, 400);
}

#[test]
fn the_manifest_is_in_the_order_of_paths() {
    let mut state = empty();
    for path in ["b", "a/c", "\u{e9}", "a", "Z"] {
        let _ = put(&mut state, path, 0, b"x");
    }
    state.delete("b", Some(1), 5).ok().unwrap();
    let manifest = state.manifest();
    let paths: Vec<String> = manifest.entries.iter().map(|e| e.path.clone()).collect();
    assert_eq!(paths, vec!["Z", "a/c", "b", "\u{e9}"]);
    assert_eq!(manifest.generation, state.generation);
    assert!(manifest.entries[2].deleted);
    assert_eq!(manifest.entries[2].sha256, None);
}

#[test]
fn a_download_names_a_live_revision() {
    let mut state = empty();
    put(&mut state, "a", 0, b"one").ok().unwrap();
    assert!(state.download("a", Some(1)).is_ok());
    assert_eq!(refused(state.download("a", Some(2))).0, 409);
    assert_eq!(refused(state.download("b", Some(1))).0, 404);
    assert_eq!(refused(state.download("a", None)), (400, "revision required".to_owned()));
    state.delete("a", Some(1), 5).ok().unwrap();
    assert_eq!(refused(state.download("a", Some(2))), (409, "revision changed".to_owned()));
}

#[test]
fn rows_that_repeat_a_path_are_not_loaded() {
    let row = || StoredEntry {
        public: Entry {
            path: "a".to_owned(),
            revision: 1,
            sha256: None,
            size: None,
            deleted: true,
        },
        blob: None,
    };
    assert!(ServerState::load(1, vec![row()], vec![], vec![]).is_some());
    assert!(ServerState::load(1, vec![row(), row()], vec![], vec![]).is_none());
}

#[test]
fn paths_stay_below_the_root() {
    for good in ["a", "a/b", ".hidden", "a..b", "\u{e9}t\u{e9}", "a b/c"] {
        assert!(valid_path(good), "{good}");
    }
    for bad in [
        "", "/a", "a/", "a//b", ".", "..", "a/../b", "a/./b", "a\\b", "a\0b", ".mysync-conflicts",
        ".mysync-staging/x", "a/.mysync-staging",
    ] {
        assert!(!valid_path(bad), "{bad}");
        assert_eq!(refused(validate_path(bad)), (400, "invalid path".to_owned()));
    }
}

#[test]
fn path_limits_are_in_bytes() {
    assert!(valid_path(&"a".repeat(255)));
    assert!(!valid_path(&"a".repeat(256)));
    assert!(valid_path(&"\u{e9}".repeat(127)));
    assert!(!valid_path(&"\u{e9}".repeat(128)));
    let long = vec!["a".repeat(255); 16].join("/");
    assert_eq!(long.len(), 4095);
    assert!(valid_path(&long));
    assert!(!valid_path(&format!("{long}/b")));
}

#[test]
fn below_is_about_whole_components() {
    assert!(below("a/b", "a"));
    assert!(below("a/b/c", "a"));
    assert!(below("a/b/c", "a/b"));
    assert!(!below("ab", "a"));
    assert!(!below("a", "a"));
    assert!(!below("a", "a/b"));
}

fn begin(path: &str, size: i64, content: &[u8]) -> BeginUpload {
    BeginUpload { path: path.to_owned(), base_revision: 0, size, sha256: hash(content) }
}

#[test]
fn an_upload_in_chunks_is_committed_as_declared() {
    let mut state = empty();
    let content = vec![7u8; UPLOAD_CHUNK_BYTES as usize + 5];
    let request = begin("big", content.len() as i64, &content);
    assert!(state.admit_upload(1, &request).ok().unwrap().is_none());
    let progress =
        state.begin_upload(1, &request, None, false, "s1".to_owned(), 100).ok().unwrap();
    assert_eq!((progress.id.as_str(), progress.offset), ("s1", 0));
    let mut writer = state.open_chunk("s1", 1, 0).ok().unwrap();
    assert!(writer.accept(UPLOAD_CHUNK_BYTES as usize).is_ok());
    assert_eq!(refused(writer.accept(1)).0, 413);
    let mut writer = state.open_chunk("s1", 1, 0).ok().unwrap();
    writer.accept(UPLOAD_CHUNK_BYTES as usize).ok().unwrap();
    let to = writer.finish().ok().unwrap();
    assert_eq!(to, UPLOAD_CHUNK_BYTES);
    let progress = state.record_chunk("s1".to_owned(), 1, 0, to, 101).ok().unwrap();
    assert_eq!(progress.offset, UPLOAD_CHUNK_BYTES);
    assert_eq!(refused(state.open_finish("s1", 1)).0, 400);
    assert_eq!(refused(state.open_chunk("s1", 1, 0)).0, 409);
    let mut writer = state.open_chunk("s1", 1, to).ok().unwrap();
    assert_eq!(refused(writer.accept(6)).0, 413);
    let mut writer = state.open_chunk("s1", 1, to).ok().unwrap();
    writer.accept(5).ok().unwrap();
    let end = writer.finish().ok().unwrap();
    state.record_chunk("s1".to_owned(), 1, to, end, 102).ok().unwrap();
    let session = state.open_finish("s1", 1).ok().unwrap();
    let done = state
        .finish_upload(&session, hash(&content), content.len() as i64, "blob".to_owned())
        .ok()
        .unwrap();
    assert_eq!(done.entry.revision, 1);
    assert!(state.uploads.is_empty());
}

#[test]
fn a_session_is_resumed_by_its_own_device() {
    let mut state = empty();
    let request = begin("big", UPLOAD_CHUNK_BYTES + 1, b"x");
    state.begin_upload(1, &request, None, false, "s1".to_owned(), 100).ok().unwrap();
    state.record_chunk("s1".to_owned(), 1, 0, UPLOAD_CHUNK_BYTES, 101).ok().unwrap();
    let known = state.admit_upload(1, &request).ok().unwrap();
    assert!(known.is_some());
    let progress =
        state.begin_upload(1, &request, known, true, "s2".to_owned(), 102).ok().unwrap();
    assert_eq!((progress.id.as_str(), progress.offset), ("s1", UPLOAD_CHUNK_BYTES));
    assert!(state.admit_upload(2, &request).ok().unwrap().is_none());
    assert!(state.upload_row("s1", 2).is_none());
    assert_eq!(refused(state.open_chunk("s1", 2, 0)).0, 404);
}

#[test]
fn a_session_without_its_file_makes_room_for_another() {
    let mut state = empty();
    for i in 0..MAX_UPLOAD_SESSIONS_PER_DEVICE {
        let request = begin(&format!("f{i}"), UPLOAD_CHUNK_BYTES + 1, b"x");
        state.begin_upload(1, &request, None, false, format!("s{i}"), 100).ok().unwrap();
    }
    let request = begin("f3", UPLOAD_CHUNK_BYTES + 1, b"x");
    let known = state.admit_upload(1, &request).ok().unwrap();
    let progress =
        state.begin_upload(1, &request, known, true, "new".to_owned(), 101).ok().unwrap();
    assert_eq!((progress.id.as_str(), progress.offset), ("s3", 0));
    let known = state.admit_upload(1, &request).ok().unwrap();
    let progress =
        state.begin_upload(1, &request, known, false, "new".to_owned(), 102).ok().unwrap();
    assert_eq!((progress.id.as_str(), progress.offset), ("new", 0));
    assert_eq!(state.uploads.len(), MAX_UPLOAD_SESSIONS_PER_DEVICE);
    assert!(state.upload_row("s3", 1).is_none());
}

#[test]
fn an_item_is_restored_once_and_past_deleted_neighbours() {
    let mut state = empty();
    put(&mut state, "a", 0, b"one").ok().unwrap();
    let item = state.delete("a", Some(1), 1000).ok().unwrap().trashed.unwrap();
    put(&mut state, "a/b", 0, b"two").ok().unwrap();
    let (status, _) = refused(state.restore(item.id, 1001));
    assert_eq!(status, 409);
    assert_eq!(state.list_trash(1001).len(), 1);
    state.delete("a/b", Some(3), 1002).ok().unwrap();
    let entry = state.restore(item.id, 1003).ok().unwrap();
    assert_eq!((entry.path.as_str(), entry.revision), ("a", 5));
    assert_eq!(entry.sha256, Some(hash(b"one")));
    assert_eq!(refused(state.restore(item.id, 1004)).0, 404);
}

#[test]
fn sessions_are_limited_per_device() {
    let mut state = empty();
    for i in 0..MAX_UPLOAD_SESSIONS_PER_DEVICE {
        let request = begin(&format!("f{i}"), UPLOAD_CHUNK_BYTES + 1, b"x");
        state.begin_upload(1, &request, None, false, format!("s{i}"), 100).ok().unwrap();
    }
    let request = begin("more", UPLOAD_CHUNK_BYTES + 1, b"x");
    let (status, _) =
        refused(state.begin_upload(1, &request, None, false, "x".to_owned(), 100));
    assert_eq!(status, 429);
    assert!(state.begin_upload(2, &request, None, false, "y".to_owned(), 100).is_ok());
}

#[test]
fn an_upload_must_be_what_was_declared() {
    let mut state = empty();
    let size = UPLOAD_CHUNK_BYTES + 1;
    let request = begin("big", size, b"declared");
    state.begin_upload(1, &request, None, false, "s1".to_owned(), 100).ok().unwrap();
    state.record_chunk("s1".to_owned(), 1, 0, UPLOAD_CHUNK_BYTES, 101).ok().unwrap();
    state.record_chunk("s1".to_owned(), 1, UPLOAD_CHUNK_BYTES, size, 101).ok().unwrap();
    let session = state.open_finish("s1", 1).ok().unwrap();
    let (status, _) =
        refused(state.finish_upload(&session, hash(b"other"), size, "blob".to_owned()));
    assert_eq!(status, 400);
    assert!(state.uploads.is_empty());
    assert_eq!(state.generation, 0);
}

#[test]
fn an_idle_session_is_cleaned_up_unless_it_is_in_use() {
    let mut state = empty();
    for id in ["s1", "s2"] {
        let request = begin(id, UPLOAD_CHUNK_BYTES + 1, b"x");
        state.begin_upload(1, &request, None, false, id.to_owned(), 100).ok().unwrap();
    }
    let kept = copy_upload(&state.uploads[1]).temp_name;
    let mut active = ActiveUploads { ids: vec![] };
    active.lock_upload("s2").ok().unwrap();
    assert_eq!(refused(active.lock_upload("s2")).0, 409);
    let late = 100 + UPLOAD_SESSION_SECONDS + 1;
    let removed = purge_upload_sessions(&mut state, &active, late);
    assert_eq!(removed.len(), 1);
    assert_eq!(state.uploads.len(), 1);
    assert_eq!(state.uploads[0].temp_name, kept);
    active.release("s2");
    assert_eq!(purge_upload_sessions(&mut state, &active, late).len(), 1);
}

#[test]
fn a_small_body_is_hashed_as_it_arrives() {
    let (mut receiver, base) = Receiver::open("a", Some(4)).ok().unwrap();
    assert_eq!(base, 4);
    receiver.accept(b"hello ").ok().unwrap();
    receiver.accept(b"world").ok().unwrap();
    let (digest, size) = receiver.finish();
    assert_eq!(digest, "b94d27b9934d3e08a52e52d7da7dabfac484efe37a5380ee9088f7ace2efcde9");
    assert_eq!(size, 11);
    assert_eq!(refused(Receiver::open("a", None)).0, 400);
    assert_eq!(refused(Receiver::open("a", Some(-1))).0, 400);
    let (mut receiver, _) = Receiver::open("a", Some(0)).ok().unwrap();
    assert_eq!(refused(receiver.accept(&vec![0; UPLOAD_CHUNK_BYTES as usize + 1])).0, 413);
}

#[test]
fn a_digest_is_sixty_four_hexadecimal_digits() {
    assert!(valid_digest(&"0a".repeat(32)));
    assert!(valid_digest(&"0A".repeat(32)));
    assert!(!valid_digest(&"0a".repeat(31)));
    assert!(!valid_digest(&"0g".repeat(32)));
}
