use http_file_server::cache::FileCache;
use http_file_server::http::{RequestHead, RequestMethod};
use http_file_server::server::{
    classify_resource, get_directory_listing, handle_file_retrieve, upload_boundary,
    upload_completed, upload_field_written, upload_next_field_failed, FileServer, Resource,
    Route, UploadAction, UploadEvent, UploadField,
};

fn segs(items: &[&str]) -> Vec<String> {
    items.iter().map(|s| s.to_string()).collect()
}

fn head(method: RequestMethod, path: &str, authorization: Option<&[u8]>) -> RequestHead {
    RequestHead {
        method,
        path: path.to_string(),
        authorization: authorization.map(|a| a.to_vec()),
        content_type: None,
    }
}

fn open_server() -> FileServer {
    FileServer::new(segs(&["srv", "files"]), None, Some("/upload".to_string()), 50000)
}

fn locked_server() -> FileServer {
    FileServer::new(
        segs(&["srv", "files"]),
        Some("hunter2".to_string()),
        Some("/upload".to_string()),
        50000,
    )
}

fn no_upload_server() -> FileServer {
    FileServer::new(segs(&["srv", "files"]), None, None, 50000)
}

#[test]
fn no_password_accepts_any_header() {
    let server = open_server();
    assert!(server.is_valid_password(None));
    assert!(server.is_valid_password(Some(b"whatever")));
}

#[test]
fn password_must_match_exactly() {
    let server = locked_server();
    assert!(server.is_valid_password(Some(b"hunter2")));
    assert!(!server.is_valid_password(Some(b"hunter3")));
    assert!(!server.is_valid_password(Some(b"Bearer hunter2")));
    assert!(!server.is_valid_password(None));
}

#[test]
fn unauthorized_request_gets_401_whatever_its_method() {
    let server = locked_server();
    for method in [RequestMethod::Get, RequestMethod::Post, RequestMethod::Other] {
        match server.route(&head(method, "/a.txt", None)) {
            Route::Respond(r) => {
                assert_eq!(r.status, 401);
                assert_eq!(r.body, b"You are not authorized to access /a.txt".to_vec());
            }
            other => panic!("unexpected route {:?}", other),
        }
    }
}

#[test]
fn get_looks_up_the_path_below_the_root() {
    let server = locked_server();
    match server.route(&head(RequestMethod::Get, "/docs/a.txt", Some(b"hunter2"))) {
        Route::Lookup(path) => assert_eq!(path, "/srv/files/docs/a.txt"),
        other => panic!("unexpected route {:?}", other),
    }
    match server.route(&head(RequestMethod::Get, "/", Some(b"hunter2"))) {
        Route::Lookup(path) => assert_eq!(path, "/srv/files/"),
        other => panic!("unexpected route {:?}", other),
    }
    match server.route(&head(RequestMethod::Get, "//etc/passwd", Some(b"hunter2"))) {
        Route::Lookup(path) => assert_eq!(path, "/etc/passwd"),
        other => panic!("unexpected route {:?}", other),
    }
}

#[test]
fn post_to_upload_is_an_upload() {
    let server = open_server();
    assert!(matches!(
        server.route(&head(RequestMethod::Post, "/upload", None)),
        Route::Upload
    ));
}

#[test]
fn other_requests_are_not_found() {
    let server = open_server();
    for (method, path) in [
        (RequestMethod::Post, "/other"),
        (RequestMethod::Other, "/upload"),
        (RequestMethod::Other, "/a"),
    ] {
        match server.route(&head(method, path, None)) {
            Route::Respond(r) => {
                assert_eq!(r.status, 404);
                assert_eq!(r.body, format!("{path} Not Found").into_bytes());
            }
            other => panic!("unexpected route {:?}", other),
        }
    }
}

#[test]
fn paths_outside_the_root_are_filtered() {
    let server = open_server();
    assert_eq!(
        server.sanitize_file_path(Some(segs(&["srv", "files", "a.txt"]))),
        Some(segs(&["srv", "files", "a.txt"]))
    );
    assert_eq!(server.sanitize_file_path(Some(segs(&["srv", "files"]))), Some(segs(&["srv", "files"])));
    assert_eq!(server.sanitize_file_path(Some(segs(&["etc", "passwd"]))), None);
    assert_eq!(server.sanitize_file_path(Some(segs(&["srv", "filesx"]))), None);
    assert_eq!(server.sanitize_file_path(None), None);
}

#[test]
fn unresolvable_lookup_is_not_found() {
    let server = open_server();
    match server.resolve_lookup("/../../etc/passwd", Some(segs(&["etc", "passwd"]))) {
        Err(r) => {
            assert_eq!(r.status, 404);
            assert_eq!(r.body, b"/../../etc/passwd Not Found".to_vec());
        }
        Ok(_) => panic!("path outside the root was accepted"),
    }
    assert_eq!(
        server.resolve_lookup("/a", Some(segs(&["srv", "files", "a"]))).unwrap(),
        segs(&["srv", "files", "a"])
    );
}

#[test]
fn resources_are_classified_file_first() {
    assert!(matches!(classify_resource("/a", true, false), Resource::File));
    assert!(matches!(classify_resource("/a", true, true), Resource::File));
    assert!(matches!(classify_resource("/a", false, true), Resource::Directory));
    match classify_resource("/fifo", false, false) {
        Resource::Other(r) => {
            assert_eq!(r.status, 500);
            assert_eq!(r.body, b"Could not display the resource /fifo".to_vec());
        }
        _ => panic!("expected a response"),
    }
}

#[test]
fn file_response_guesses_the_content_type() {
    let r = handle_file_retrieve(&segs(&["srv", "index.html"]), Some(b"<p>hi</p>".to_vec()));
    assert_eq!(r.status, 200);
    assert_eq!(r.content_type, "text/html");
    assert_eq!(r.content_length, Some(9));
    assert_eq!(r.body, b"<p>hi</p>".to_vec());
    let r = handle_file_retrieve(&segs(&["srv", "README"]), Some(vec![1, 2, 3]));
    assert_eq!(r.content_type, "application/octet-stream");
}

#[test]
fn unreadable_file_is_not_found_by_its_path() {
    let r = handle_file_retrieve(&segs(&["srv", "files", "a.txt"]), None);
    assert_eq!(r.status, 404);
    assert_eq!(r.body, b"/srv/files/a.txt Not Found".to_vec());
}

#[test]
fn directory_listing_names_mark_directories() {
    let names = get_directory_listing(&[
        ("a.txt".to_string(), false),
        ("sub".to_string(), true),
    ]);
    assert_eq!(names, segs(&["a.txt", "sub/"]));
}

#[test]
fn directory_display_lists_relative_to_the_root() {
    let server = open_server();
    let r = server.handle_directory_display(
        &segs(&["srv", "files", "docs"]),
        Some(segs(&["x"])),
    );
    assert_eq!(r.status, 200);
    let page = String::from_utf8(r.body).unwrap();
    assert!(page.contains("<h1>docs/</h1>"));
    assert!(page.contains("<li><a href=\"/docs/x\">x</a></li>"));
    assert!(page.contains("<li><a href=\"/\">..</a></li>"));
}

#[test]
fn unreadable_directory_is_an_internal_error() {
    let server = open_server();
    let r = server.handle_directory_display(&segs(&["srv", "files", "docs"]), None);
    assert_eq!(r.status, 500);
    assert_eq!(r.body, b"Could not get the directory listing of /srv/files/docs".to_vec());
}

#[test]
fn upload_boundary_is_read_from_the_content_type() {
    assert_eq!(
        upload_boundary(Some(b"multipart/form-data; boundary=ABCDEFG")).unwrap(),
        "ABCDEFG"
    );
    for bad in [None, Some(&b"text/plain"[..]), Some(&b"multipart/form-data"[..])] {
        match upload_boundary(bad) {
            Err(r) => {
                assert_eq!(r.status, 400);
                assert_eq!(r.body, b"Invalid multipart data content type".to_vec());
            }
            Ok(b) => panic!("unexpected boundary {b}"),
        }
    }
}

#[test]
fn upload_targets_stay_below_the_root() {
    let server = open_server();
    assert!(matches!(server.upload_field_target(None), UploadField::Skip));
    match server.upload_field_target(Some("dir/./new.txt")) {
        UploadField::Write { path, key } => {
            assert_eq!(path, "/srv/files/dir/./new.txt");
            assert_eq!(key, segs(&["srv", "files", "dir", "new.txt"]));
        }
        other => panic!("unexpected {:?}", other),
    }
    match server.upload_field_target(Some("a/")) {
        UploadField::Write { path, key } => {
            assert_eq!(path, "/srv/files/a/");
            assert_eq!(key, segs(&["srv", "files", "a"]));
        }
        other => panic!("unexpected {:?}", other),
    }
    for bad in ["../escape.txt", "/etc/passwd", "a/../../b", ".."] {
        match server.upload_field_target(Some(bad)) {
            UploadField::Reject(r) => {
                assert_eq!(r.status, 403);
                assert_eq!(r.body, b"You are not allowed to write to this directory".to_vec());
            }
            other => panic!("unexpected {:?} for {bad}", other),
        }
    }
}

#[test]
fn written_upload_invalidates_the_cached_file() {
    let mut cache = FileCache::new();
    cache.remember("/srv/files/new.txt".to_string(), b"old".to_vec());
    cache.remember("/srv/files/other.txt".to_string(), b"other".to_vec());
    let r = upload_field_written(&mut cache, &segs(&["srv", "files", "new.txt"]), Ok(()));
    assert!(r.is_none());
    assert_eq!(cache.lookup("/srv/files/new.txt"), None);
    assert_eq!(cache.lookup("/srv/files/other.txt"), Some(b"other".to_vec()));
}

#[test]
fn failed_write_keeps_the_cache_and_answers_500() {
    let mut cache = FileCache::new();
    cache.remember("/srv/files/new.txt".to_string(), b"old".to_vec());
    let r = upload_field_written(
        &mut cache,
        &segs(&["srv", "files", "new.txt"]),
        Err("disk full".to_string()),
    )
    .unwrap();
    assert_eq!(r.status, 500);
    assert_eq!(r.body, b"Could not write data on disk: disk full".to_vec());
    assert_eq!(cache.lookup("/srv/files/new.txt"), Some(b"old".to_vec()));
}

#[test]
fn upload_end_responses() {
    let r = upload_next_field_failed("bad stream");
    assert_eq!(r.status, 401);
    assert_eq!(r.body, b"Could not get next field: bad stream".to_vec());
    let r = upload_completed();
    assert_eq!(r.status, 201);
    assert_eq!(r.body, b"Created".to_vec());
}

#[test]
fn uploads_follow_the_configured_endpoint() {
    match no_upload_server().route(&head(RequestMethod::Post, "/upload", None)) {
        Route::Respond(r) => {
            assert_eq!(r.status, 404);
            assert_eq!(r.body, b"/upload Not Found".to_vec());
        }
        other => panic!("uploads are disabled, got {:?}", other),
    }
    let custom = FileServer::new(segs(&["srv"]), None, Some("/files/new".to_string()), 10);
    assert!(matches!(
        custom.route(&head(RequestMethod::Post, "/files/new", None)),
        Route::Upload
    ));
    match custom.route(&head(RequestMethod::Post, "/upload", None)) {
        Route::Respond(r) => assert_eq!(r.status, 404),
        other => panic!("unexpected route {:?}", other),
    }
}

#[test]
fn chunks_are_admitted_up_to_the_maximum_size() {
    let server = FileServer::new(segs(&["srv"]), None, Some("/upload".to_string()), 10);
    assert_eq!(server.admit_chunk(0, 10), Ok(10));
    assert_eq!(server.admit_chunk(4, 6), Ok(10));
    assert_eq!(
        server.admit_chunk(4, 7),
        Err("the file exceeds the maximum upload size".to_string())
    );
    assert!(server.admit_chunk(11, 0).is_err());
    assert!(server.admit_chunk(1, usize::MAX).is_err());
}

#[test]
fn upload_steps_follow_the_body() {
    let server = open_server();
    let mut cache = FileCache::new();
    cache.remember("/srv/files/a.txt".to_string(), b"old".to_vec());
    assert!(matches!(
        server.upload_step(&mut cache, UploadEvent::NextField(None)),
        UploadAction::ReadNextField
    ));
    let key = match server.upload_step(&mut cache, UploadEvent::NextField(Some("a.txt".to_string()))) {
        UploadAction::Write { path, key } => {
            assert_eq!(path, "/srv/files/a.txt");
            key
        }
        other => panic!("unexpected {:?}", other),
    };
    assert_eq!(cache.lookup("/srv/files/a.txt"), Some(b"old".to_vec()));
    assert!(matches!(
        server.upload_step(&mut cache, UploadEvent::Written(key, Ok(()))),
        UploadAction::ReadNextField
    ));
    assert_eq!(cache.lookup("/srv/files/a.txt"), None);
    match server.upload_step(&mut cache, UploadEvent::NoMoreFields) {
        UploadAction::Finish(r) => assert_eq!(r.status, 201),
        other => panic!("unexpected {:?}", other),
    }
    match server.upload_step(&mut cache, UploadEvent::NextField(Some("../x".to_string()))) {
        UploadAction::Finish(r) => assert_eq!(r.status, 403),
        other => panic!("unexpected {:?}", other),
    }
    match server.upload_step(&mut cache, UploadEvent::NextFieldFailed("broken".to_string())) {
        UploadAction::Finish(r) => {
            assert_eq!(r.status, 401);
            assert_eq!(r.body, b"Could not get next field: broken".to_vec());
        }
        other => panic!("unexpected {:?}", other),
    }
    cache.remember("/srv/files/b.txt".to_string(), b"b".to_vec());
    match server.upload_step(
        &mut cache,
        UploadEvent::Written(segs(&["srv", "files", "b.txt"]), Err("Is a directory".to_string())),
    ) {
        UploadAction::Finish(r) => {
            assert_eq!(r.status, 500);
            assert_eq!(r.body, b"Could not write data on disk: Is a directory".to_vec());
        }
        other => panic!("unexpected {:?}", other),
    }
    assert_eq!(cache.lookup("/srv/files/b.txt"), Some(b"b".to_vec()));
}

#[test]
fn unreadable_directory_outside_the_root_is_still_answered() {
    let server = open_server();
    let r = server.handle_directory_display(&segs(&["elsewhere"]), None);
    assert_eq!(r.status, 500);
    assert_eq!(r.body, b"Could not get the directory listing of /elsewhere".to_vec());
}
