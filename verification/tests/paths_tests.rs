use dossier::api::ApiError;
use dossier::paths::check_file_path;
use dossier::paths::check_name;
use dossier::paths::check_project;
use dossier::paths::decode_escaped_path_components;
use dossier::paths::normalize_dir_path;
use dossier::paths::project_path;
use dossier::paths::project_slug_of_path;
use dossier::paths::qualify_remote_path;

#[test]
fn decode_passes_plain_paths_through() {
    assert_eq!(decode_escaped_path_components("/proj/file.txt").unwrap(), "/proj/file.txt");
    assert_eq!(decode_escaped_path_components("").unwrap(), "");
}

#[test]
fn decode_unescapes_hex_pairs() {
    assert_eq!(decode_escaped_path_components("/a%41b").unwrap(), "/aAb");
    assert_eq!(decode_escaped_path_components("%7e%7E").unwrap(), "~~");
}

#[test]
fn decode_maps_plus_to_space() {
    assert_eq!(decode_escaped_path_components("/a+b").unwrap(), "/a b");
}

#[test]
fn decode_maps_escape_bytes_to_chars_directly() {
    // Each escaped byte becomes the character with that code, not a UTF-8
    // continuation byte.
    assert_eq!(decode_escaped_path_components("%C3%A9").unwrap(), "\u{c3}\u{a9}");
}

#[test]
fn decode_rejects_smuggled_separator() {
    assert_eq!(decode_escaped_path_components("/a%2Fb"), Err(ApiError::InvalidName));
    assert_eq!(decode_escaped_path_components("%2f"), Err(ApiError::InvalidName));
}

#[test]
fn decode_rejects_malformed_escapes() {
    assert_eq!(decode_escaped_path_components("/a%zzb"), Err(ApiError::InvalidPath));
    assert_eq!(decode_escaped_path_components("/a%4"), Err(ApiError::InvalidPath));
    assert_eq!(decode_escaped_path_components("%"), Err(ApiError::InvalidPath));
}

#[test]
fn file_path_validation() {
    assert!(check_file_path("/a/b.txt").is_ok());
    assert!(check_file_path("/a").is_ok());
    assert_eq!(check_file_path("a/b"), Err(ApiError::InvalidPath));
    assert_eq!(check_file_path(""), Err(ApiError::InvalidPath));
    assert_eq!(check_file_path("/"), Err(ApiError::InvalidName));
    assert_eq!(check_file_path("/a/"), Err(ApiError::InvalidName));
    assert_eq!(check_file_path("/a//b"), Err(ApiError::InvalidName));
}

#[test]
fn name_validation() {
    assert!(check_name("file.txt"));
    assert!(!check_name(""));
    assert!(!check_name("a/b"));
}

#[test]
fn qualify_prefixes_project() {
    assert_eq!(qualify_remote_path("/sub/f.txt", "proj", None).unwrap(), "/proj/sub/f.txt");
    assert_eq!(qualify_remote_path("rel.txt", "proj", None).unwrap(), "/proj/rel.txt");
}

#[test]
fn qualify_appends_file_name_for_directory_targets() {
    assert_eq!(
        qualify_remote_path("/dir/", "proj", Some("name.txt")).unwrap(),
        "/proj/dir/name.txt"
    );
    assert_eq!(qualify_remote_path("", "proj", Some("f.bin")).unwrap(), "/proj/f.bin");
}

#[test]
fn qualify_rejects_missing_or_invalid_file_name() {
    assert_eq!(qualify_remote_path("/dir/", "proj", None), Err(ApiError::InvalidName));
    assert_eq!(qualify_remote_path("/dir/", "proj", Some("a/b")), Err(ApiError::InvalidName));
    assert_eq!(qualify_remote_path("/dir/", "proj", Some("")), Err(ApiError::InvalidName));
}

#[test]
fn normalize_dir_paths() {
    assert_eq!(normalize_dir_path("x"), "/x/");
    assert_eq!(normalize_dir_path("/x/"), "/x/");
    assert_eq!(normalize_dir_path("/x"), "/x/");
    assert_eq!(normalize_dir_path(""), "/");
}

#[test]
fn project_path_concatenates() {
    assert_eq!(project_path("proj", "/a/b"), "/proj/a/b");
}

#[test]
fn second_segment_extraction() {
    assert_eq!(project_slug_of_path("/proj/x/y").unwrap(), "proj");
    assert_eq!(project_slug_of_path("/proj").unwrap(), "proj");
    assert_eq!(project_slug_of_path("/").unwrap(), "");
    assert!(project_slug_of_path("noslash").is_none());
    assert!(project_slug_of_path("").is_none());
}

#[test]
fn project_lookup() {
    let slugs = vec!["alpha".to_string(), "beta".to_string()];
    assert_eq!(check_project("/beta/file", &slugs).unwrap(), 1);
    assert_eq!(check_project("/gamma/file", &slugs), Err(ApiError::ProjectNotFound));
    assert_eq!(check_project("nopath", &slugs), Err(ApiError::ProjectNotFound));
}

#[test]
fn error_messages() {
    assert_eq!(ApiError::ProjectNotFound.message(), "project not found");
    assert_eq!(ApiError::InvalidName.message(), "names must not contain '/'");
    assert_eq!(ApiError::InvalidPath.message(), "all paths must start with a leading '/'");
    assert_eq!(ApiError::AlreadyExists.message(), "a file already exists at the path provided");
    assert_eq!(ApiError::Deleted.message(), "the file was deleted during the operation");
}
