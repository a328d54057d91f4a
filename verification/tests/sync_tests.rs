use dossier::sync::plan_sync_operations;
use dossier::sync::DiffPlanner;
use dossier::sync::FileHash;
use dossier::sync::RemoteIndex;
use dossier::sync::SyncOperation;

fn record(local: &str, remote: &str, digest: [u8; 32]) -> FileHash {
    FileHash { path: local.to_string(), remote_path: remote.to_string(), blake3: digest }
}

#[test]
fn diff_plans_create_and_delete() {
    // Remote {a: h1, b: h2}, local {a: h1, c: h3}: exactly a create for c
    // and a delete for b, nothing for a.
    let h1 = [1u8; 32];
    let h2 = [2u8; 32];
    let h3 = [3u8; 32];
    let index = RemoteIndex::from_listing(vec![
        ("/proj/a".to_string(), h1),
        ("/proj/b".to_string(), h2),
    ])
    .unwrap();
    let records = vec![record("a", "/a", h1), record("c", "/c", h3)];
    let ops = plan_sync_operations("proj", index, &records);
    assert_eq!(ops.len(), 2);
    match &ops[0] {
        SyncOperation::Create(fh) => {
            assert_eq!(fh.remote_path, "/c");
            assert_eq!(fh.blake3, h3);
        },
        _ => panic!("expected a create"),
    }
    match &ops[1] {
        SyncOperation::Delete(path) => assert_eq!(path, "/proj/b"),
        _ => panic!("expected a delete"),
    }
}

#[test]
fn diff_plans_nothing_when_in_sync() {
    // Re-running sync with no local changes plans zero operations.
    let h1 = [1u8; 32];
    let h2 = [2u8; 32];
    let index = RemoteIndex::from_listing(vec![
        ("/proj/a".to_string(), h1),
        ("/proj/sub/b".to_string(), h2),
    ])
    .unwrap();
    let records = vec![record("a", "/a", h1), record("b", "/sub/b", h2)];
    let ops = plan_sync_operations("proj", index, &records);
    assert_eq!(ops.len(), 0);
}

#[test]
fn diff_plans_replace_on_changed_digest() {
    // Changing a's content when the remote holds the old digest plans
    // exactly one replace carrying the new record and the previous digest.
    let h1 = [1u8; 32];
    let h1_new = [9u8; 32];
    let index = RemoteIndex::from_listing(vec![("/proj/a".to_string(), h1)]).unwrap();
    let records = vec![record("a", "/a", h1_new)];
    let ops = plan_sync_operations("proj", index, &records);
    assert_eq!(ops.len(), 1);
    match &ops[0] {
        SyncOperation::Replace(fh, previous) => {
            assert_eq!(fh.remote_path, "/a");
            assert_eq!(fh.blake3, h1_new);
            assert_eq!(*previous, h1);
        },
        _ => panic!("expected a replace"),
    }
}

#[test]
fn streaming_planner_steps() {
    let h1 = [1u8; 32];
    let h2 = [2u8; 32];
    let index = RemoteIndex::from_listing(vec![
        ("/proj/a".to_string(), h1),
        ("/proj/b".to_string(), h2),
    ])
    .unwrap();
    let mut planner = DiffPlanner::new("proj", index);
    planner.observe(record("a", "/a", h1));
    planner.observe(record("new", "/new", [5u8; 32]));
    let ops = planner.finish();
    assert_eq!(ops.len(), 2);
    assert!(matches!(&ops[0], SyncOperation::Create(fh) if fh.remote_path == "/new"));
    assert!(matches!(&ops[1], SyncOperation::Delete(p) if p == "/proj/b"));
}

#[test]
fn remote_index_rejects_duplicate_paths() {
    let listing = vec![
        ("/proj/a".to_string(), [1u8; 32]),
        ("/proj/a".to_string(), [2u8; 32]),
    ];
    assert!(RemoteIndex::from_listing(listing).is_none());
}

#[test]
fn remote_index_reports_length() {
    let index = RemoteIndex::from_listing(vec![
        ("/proj/a".to_string(), [1u8; 32]),
        ("/proj/b".to_string(), [2u8; 32]),
    ])
    .unwrap();
    assert_eq!(index.len(), 2);
}
