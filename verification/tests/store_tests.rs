use dossier::store::list_files;
use dossier::store::write_file_data;
use dossier::store::ContentStore;
use dossier::upload::perform_upload;

#[test]
fn listing_reports_finalized_files_under_prefix() {
    let mut store = ContentStore::new();
    let d1 = perform_upload("/proj/a.txt", b"aaa", None, &mut store).unwrap();
    let d2 = perform_upload("/proj/sub/b.txt", b"bbb", None, &mut store).unwrap();
    perform_upload("/other/c.txt", b"ccc", None, &mut store).unwrap();
    // An unfinished transfer has no digest yet and is not listed.
    write_file_data("/proj/partial", b"...", true, false, &mut store).unwrap();

    let mut listing = list_files("/proj/", &store);
    listing.sort_by(|a, b| a.0.cmp(&b.0));
    assert_eq!(listing.len(), 2);
    assert_eq!(listing[0], ("/proj/a.txt".to_string(), d1));
    assert_eq!(listing[1], ("/proj/sub/b.txt".to_string(), d2));
}

#[test]
fn listing_of_unmatched_prefix_is_empty() {
    let mut store = ContentStore::new();
    perform_upload("/proj/a.txt", b"aaa", None, &mut store).unwrap();
    assert!(list_files("/elsewhere/", &store).is_empty());
}

#[test]
fn load_and_metadata_of_missing_path_are_none() {
    let store = ContentStore::new();
    assert!(store.load_contents("/proj/nothing").is_none());
    assert!(store.metadata("/proj/nothing").is_none());
    assert!(!store.contains("/proj/nothing"));
}

#[test]
fn store_keeps_files_independent() {
    let mut store = ContentStore::new();
    perform_upload("/proj/one", b"first", None, &mut store).unwrap();
    perform_upload("/proj/two", b"second", None, &mut store).unwrap();
    store.delete("/proj/one");
    assert!(store.load_contents("/proj/one").is_none());
    assert_eq!(store.load_contents("/proj/two").unwrap(), b"second");
}
