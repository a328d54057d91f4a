use dossier::api::ListFiles;
use dossier::api::DeleteFile;
use dossier::api::WriteFileData;
use dossier::page::allowed_methods;
use dossier::page::construct_page_response;
use dossier::page::parse_etags;
use dossier::page::plan_method;
use dossier::page::resolve_page;
use dossier::page::HttpMethod;
use dossier::page::MethodPlan;
use dossier::page::PagePlan;
use dossier::schema::Metadata;

#[test]
fn response_without_validator_is_full() {
    let meta = Metadata { blake3: [3u8; 32] };
    let r = construct_page_response(None, "file.txt", Some(&meta));
    assert_eq!(r.status, 200);
    assert!(r.send_body);
    assert!(r.etag.is_some());
}

#[test]
fn conditional_get_with_current_digest_is_not_modified() {
    // A request whose If-None-Match carries the file's exact current
    // digest is answered 304 without a body.
    let meta = Metadata { blake3: *blake3::hash(b"page body").as_bytes() };
    let first = construct_page_response(None, "page.html", Some(&meta));
    let etag = first.etag.unwrap();
    let header = format!("\"{etag}\"");
    let second = construct_page_response(Some(&header), "page.html", Some(&meta));
    assert_eq!(second.status, 304);
    assert!(!second.send_body);
}

#[test]
fn conditional_get_with_other_digests_is_full() {
    let meta = Metadata { blake3: [3u8; 32] };
    let other = Metadata { blake3: [4u8; 32] };
    let other_etag = construct_page_response(None, "f", Some(&other)).etag.unwrap();
    let header = format!("\"{other_etag}\", \"bm90aGluZw\"");
    let r = construct_page_response(Some(&header), "f", Some(&meta));
    assert_eq!(r.status, 200);
    assert!(r.send_body);
}

#[test]
fn conditional_get_matches_any_listed_digest() {
    let meta = Metadata { blake3: [9u8; 32] };
    let mine = construct_page_response(None, "f", Some(&meta)).etag.unwrap();
    let header = format!("\"AAAA\", \"{mine}\"");
    let r = construct_page_response(Some(&header), "f", Some(&meta));
    assert_eq!(r.status, 304);
}

#[test]
fn unusable_header_matches_nothing() {
    let meta = Metadata { blake3: [3u8; 32] };
    let r = construct_page_response(Some("no quotes here"), "f", Some(&meta));
    assert_eq!(r.status, 200);
}

#[test]
fn etag_encoding_round_trips() {
    let digest = [0xfau8; 32];
    let meta = Metadata { blake3: digest };
    let etag = construct_page_response(None, "f", Some(&meta)).etag.unwrap();
    let decoded = base64::decode_config(&etag, base64::URL_SAFE_NO_PAD).unwrap();
    assert_eq!(decoded, digest.to_vec());
}

#[test]
fn parse_etags_collects_quoted_digests() {
    let digest = [0x5au8; 32];
    let encoded = base64::encode_config(&digest, base64::URL_SAFE_NO_PAD);
    let header = format!("W/\"{encoded}\", \"c2hvcnQ\"");
    let tags = parse_etags(&header).unwrap();
    assert_eq!(tags, vec![digest]);
}

#[test]
fn parse_etags_fails_on_field_without_quotes() {
    assert!(parse_etags("abc, \"dGFn\"").is_none());
    assert!(parse_etags("").is_none());
}

#[test]
fn content_type_comes_from_extension() {
    let r = construct_page_response(None, "index.html", None);
    assert_eq!(r.content_type.as_deref(), mime_guess::from_path("index.html").first_raw());
    assert!(r.content_type.unwrap().contains("html"));
    let r = construct_page_response(None, "no-extension", None);
    assert!(r.content_type.is_none());
    assert!(r.etag.is_none());
}

#[test]
fn resolve_serves_loaded_file() {
    let r = resolve_page("/proj/f.txt", true, &vec![]);
    assert!(matches!(r, PagePlan::ServeLoaded));
}

#[test]
fn resolve_redirects_directory_without_separator() {
    let listing = vec!["style.css".to_string(), "index.html".to_string()];
    match resolve_page("/proj/dir", false, &listing) {
        PagePlan::Redirect(loc) => assert_eq!(loc, "/proj/dir/"),
        _ => panic!("expected a redirect"),
    }
}

#[test]
fn resolve_serves_first_index_file_of_directory() {
    let listing =
        vec!["style.css".to_string(), "index.html".to_string(), "index.md".to_string()];
    match resolve_page("/proj/dir/", false, &listing) {
        PagePlan::ServeIndex(i) => assert_eq!(i, 1),
        _ => panic!("expected the index file"),
    }
}

#[test]
fn resolve_reports_not_found_without_index() {
    let listing = vec!["style.css".to_string()];
    assert!(matches!(resolve_page("/proj/dir", false, &listing), PagePlan::NotFound));
    assert!(matches!(resolve_page("/proj/none", false, &vec![]), PagePlan::NotFound));
}

#[test]
fn method_dispatch() {
    assert!(matches!(plan_method(&HttpMethod::Get), MethodPlan::SendBody));
    assert!(matches!(plan_method(&HttpMethod::Head), MethodPlan::HeadersOnly));
    assert!(matches!(plan_method(&HttpMethod::Options), MethodPlan::ListMethods));
    assert!(matches!(plan_method(&HttpMethod::Other), MethodPlan::Reject));
    assert_eq!(allowed_methods(), "OPTIONS, GET, HEAD");
}

#[test]
fn api_request_types_carry_plain_values() {
    let list = ListFiles { path: "/proj/".to_string() };
    assert_eq!(list.path, "/proj/");
    let del = DeleteFile { path: "/proj/f".to_string() };
    assert_eq!(del.path, "/proj/f");
    let write = WriteFileData {
        path: "/proj/f".to_string(),
        data: vec![1, 2, 3],
        start: true,
        finished: false,
    };
    assert!(write.start && !write.finished);
    assert_eq!(write.data, vec![1, 2, 3]);
}
