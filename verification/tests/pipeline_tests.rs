use dossier::digest::hash_bytes;
use dossier::store::list_files;
use dossier::store::ContentStore;
use dossier::sync::plan_sync_operations;
use dossier::sync::FileHash;
use dossier::sync::RemoteIndex;
use dossier::sync::SyncOperation;
use dossier::upload::perform_sync_operation;
use dossier::upload::perform_upload;

/// A whole sync run against the store: plan from a listing, apply every
/// operation, and converge — a second run plans nothing.
#[test]
fn full_sync_run_converges() {
    let mut store = ContentStore::new();
    // The remote already holds a file that matches the local tree, one
    // that is stale, and one with no local counterpart.
    perform_upload("/proj/keep.txt", b"keep", None, &mut store).unwrap();
    perform_upload("/proj/stale.txt", b"old", None, &mut store).unwrap();
    perform_upload("/proj/gone.txt", b"bye", None, &mut store).unwrap();

    let local: Vec<(&str, &str, &[u8])> = vec![
        ("local/keep", "/keep.txt", b"keep"),
        ("local/stale", "/stale.txt", b"fresh"),
        ("local/new", "/sub/new.txt", b"brand new"),
    ];
    let records: Vec<FileHash> = local
        .iter()
        .map(|(local_path, remote_path, bytes)| FileHash {
            path: local_path.to_string(),
            remote_path: remote_path.to_string(),
            blake3: hash_bytes(bytes),
        })
        .collect();

    let index = RemoteIndex::from_listing(list_files("/proj/", &store)).unwrap();
    let ops = plan_sync_operations("proj", index, &records);
    assert_eq!(ops.len(), 3, "one replace, one create, one delete");

    for op in ops {
        let bytes: &[u8] = match &op {
            SyncOperation::Create(fh) | SyncOperation::Replace(fh, _) => {
                local.iter().find(|(lp, _, _)| *lp == fh.path).unwrap().2
            }
            SyncOperation::Delete(_) => b"",
        };
        perform_sync_operation(op, "proj", bytes, &mut store).unwrap();
    }

    assert_eq!(store.load_contents("/proj/keep.txt").unwrap(), b"keep");
    assert_eq!(store.load_contents("/proj/stale.txt").unwrap(), b"fresh");
    assert_eq!(store.load_contents("/proj/sub/new.txt").unwrap(), b"brand new");
    assert!(store.load_contents("/proj/gone.txt").is_none());
    assert_eq!(
        store.metadata("/proj/stale.txt").unwrap().blake3,
        *blake3::hash(b"fresh").as_bytes()
    );

    // Re-running with no local changes plans zero operations.
    let index = RemoteIndex::from_listing(list_files("/proj/", &store)).unwrap();
    let ops = plan_sync_operations("proj", index, &records);
    assert!(ops.is_empty());
}
