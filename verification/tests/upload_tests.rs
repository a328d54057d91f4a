use dossier::api::ApiError;
use dossier::digest::hash_bytes;
use dossier::store::delete_file;
use dossier::store::write_file_data;
use dossier::store::ContentStore;
use dossier::sync::FileHash;
use dossier::sync::SyncOperation;
use dossier::upload::perform_sync_operation;
use dossier::upload::perform_upload;
use dossier::upload::upload_file;
use dossier::upload::UploadError;
use dossier::upload::UploadSession;

#[test]
fn upload_round_trips_bytes_and_digest() {
    // Whatever bytes are uploaded to a path, loading the path reproduces
    // them exactly and the recorded digest is their hash.
    let mut store = ContentStore::new();
    let bytes = b"some file contents \x00\xff binary too".to_vec();
    let digest = perform_upload("/proj/data.bin", bytes.as_slice(), None, &mut store).unwrap();
    assert_eq!(store.load_contents("/proj/data.bin").unwrap(), bytes);
    assert_eq!(store.metadata("/proj/data.bin").unwrap().blake3, digest);
    assert_eq!(digest, *blake3::hash(&bytes).as_bytes());
}

#[test]
fn upload_round_trips_across_many_chunks() {
    // Larger than one chunk, so the transfer is split and reassembled.
    let mut store = ContentStore::new();
    let bytes: Vec<u8> = (0..2_500_000u32).map(|i| (i % 251) as u8).collect();
    let digest = perform_upload("/proj/big.bin", bytes.as_slice(), None, &mut store).unwrap();
    assert_eq!(store.load_contents("/proj/big.bin").unwrap(), bytes);
    assert_eq!(digest, *blake3::hash(&bytes).as_bytes());
}

#[test]
fn upload_replaces_existing_contents() {
    let mut store = ContentStore::new();
    perform_upload("/proj/f", b"first version", None, &mut store).unwrap();
    perform_upload("/proj/f", b"second", None, &mut store).unwrap();
    assert_eq!(store.load_contents("/proj/f").unwrap(), b"second");
}

#[test]
fn upload_with_matching_supplied_digest_verifies() {
    let mut store = ContentStore::new();
    let bytes = b"verified payload";
    let expected = hash_bytes(bytes);
    let digest = perform_upload("/proj/v", bytes, Some(expected), &mut store).unwrap();
    assert_eq!(digest, expected);
}

#[test]
fn upload_with_wrong_supplied_digest_exhausts_retries() {
    let mut store = ContentStore::new();
    let wrong = [0xabu8; 32];
    let r = perform_upload("/proj/w", b"payload", Some(wrong), &mut store);
    assert_eq!(r, Err(UploadError::RetriesExhausted));
    // The retries restarted from byte zero each time: the store holds the
    // bytes once, not several concatenated attempts.
    assert_eq!(store.load_contents("/proj/w").unwrap(), b"payload");
}

#[test]
fn upload_rejects_invalid_path() {
    let mut store = ContentStore::new();
    let r = perform_upload("no-leading-slash", b"x", None, &mut store);
    assert_eq!(r, Err(UploadError::Store(ApiError::InvalidPath)));
    let r = perform_upload("/a//b", b"x", None, &mut store);
    assert_eq!(r, Err(UploadError::Store(ApiError::InvalidName)));
}

#[test]
fn verification_retry_truncates_rather_than_appends() {
    // A first attempt whose reported digest is rejected is followed by a
    // second full attempt from offset zero; the stored bytes are not the
    // concatenation of both attempts.
    let mut store = ContentStore::new();
    let bytes = b"hello world";
    let expected = hash_bytes(bytes);

    // First attempt, driven chunk by chunk.
    let mut session = UploadSession::new("/proj/h", Some(expected));
    let req = session.next_chunk(&bytes[..6], false);
    write_file_data(&req.path, &req.data, req.start, req.finished, &mut store).unwrap();
    let req = session.next_chunk(&bytes[6..], true);
    let reported =
        write_file_data(&req.path, &req.data, req.start, req.finished, &mut store).unwrap();
    assert!(reported.is_some());
    // Simulate a corrupted transfer report: verification fails.
    let corrupted = [0x55u8; 32];
    assert!(!session.verify(Some(&corrupted)));

    // Retry: a fresh session starts again from byte zero.
    let mut session = UploadSession::new("/proj/h", Some(expected));
    let req = session.next_chunk(&bytes[..6], false);
    assert!(req.start, "a fresh attempt starts the file over");
    write_file_data(&req.path, &req.data, req.start, req.finished, &mut store).unwrap();
    let req = session.next_chunk(&bytes[6..], true);
    let reported =
        write_file_data(&req.path, &req.data, req.start, req.finished, &mut store).unwrap();
    assert!(session.verify(reported.as_ref()));

    let stored = store.load_contents("/proj/h").unwrap();
    assert_eq!(stored, bytes);
    let mut doubled = bytes.to_vec();
    doubled.extend_from_slice(bytes);
    assert_ne!(stored, doubled);
}

#[test]
fn write_file_data_requires_start_for_missing_file() {
    let mut store = ContentStore::new();
    let r = write_file_data("/proj/missing", b"x", false, true, &mut store);
    assert_eq!(r, Err(ApiError::Deleted));
}

#[test]
fn write_file_data_finalizes_metadata_once() {
    let mut store = ContentStore::new();
    assert_eq!(write_file_data("/proj/f", b"ab", true, false, &mut store).unwrap(), None);
    assert!(store.metadata("/proj/f").is_none(), "no digest before the final chunk");
    let digest = write_file_data("/proj/f", b"cd", false, true, &mut store).unwrap().unwrap();
    assert_eq!(digest, *blake3::hash(b"abcd").as_bytes());
    assert_eq!(store.metadata("/proj/f").unwrap().blake3, digest);
}

#[test]
fn create_on_occupied_path_already_exists() {
    let mut store = ContentStore::new();
    store.create("/proj/f").unwrap();
    assert_eq!(store.create("/proj/f"), Err(ApiError::AlreadyExists));
}

#[test]
fn upload_file_qualifies_directory_targets() {
    let mut store = ContentStore::new();
    let full = upload_file(b"abc", "/docs/", "proj", Some("readme.md"), None, &mut store)
        .unwrap();
    assert_eq!(full, "/proj/docs/readme.md");
    assert_eq!(store.load_contents("/proj/docs/readme.md").unwrap(), b"abc");
}

#[test]
fn upload_file_rejects_directory_target_without_name() {
    let mut store = ContentStore::new();
    let r = upload_file(b"abc", "/docs/", "proj", None, None, &mut store);
    assert_eq!(r, Err(UploadError::Store(ApiError::InvalidName)));
}

#[test]
fn sync_operation_create_uploads() {
    let mut store = ContentStore::new();
    let bytes = b"created".to_vec();
    let op = SyncOperation::Create(FileHash {
        path: "local/created".to_string(),
        remote_path: "/created.txt".to_string(),
        blake3: hash_bytes(&bytes),
    });
    let done = perform_sync_operation(op, "proj", bytes.as_slice(), &mut store).unwrap();
    assert_eq!(done, "/created.txt");
    assert_eq!(store.load_contents("/proj/created.txt").unwrap(), bytes);
}

#[test]
fn sync_operation_replace_uploads() {
    let mut store = ContentStore::new();
    perform_upload("/proj/r.txt", b"old", None, &mut store).unwrap();
    let bytes = b"new contents".to_vec();
    let op = SyncOperation::Replace(
        FileHash {
            path: "local/r".to_string(),
            remote_path: "/r.txt".to_string(),
            blake3: hash_bytes(&bytes),
        },
        *blake3::hash(b"old").as_bytes(),
    );
    perform_sync_operation(op, "proj", bytes.as_slice(), &mut store).unwrap();
    assert_eq!(store.load_contents("/proj/r.txt").unwrap(), bytes);
}

#[test]
fn sync_operation_delete_removes() {
    let mut store = ContentStore::new();
    perform_upload("/proj/gone.txt", b"x", None, &mut store).unwrap();
    let op = SyncOperation::Delete("/proj/gone.txt".to_string());
    let done = perform_sync_operation(op, "proj", b"", &mut store).unwrap();
    assert_eq!(done, "/proj/gone.txt");
    assert!(store.load_contents("/proj/gone.txt").is_none());
}

#[test]
fn delete_file_reports_presence() {
    let mut store = ContentStore::new();
    perform_upload("/proj/d", b"x", None, &mut store).unwrap();
    assert_eq!(delete_file("/proj/d", &mut store).unwrap(), true);
    assert_eq!(delete_file("/proj/d", &mut store).unwrap(), false);
}
