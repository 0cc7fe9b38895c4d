use simple_serve::dispatch::{dispatch, not_found, Descriptor};
use simple_serve::parse::{parse_file_route, parse_redirect_route, parse_status_route, FsProbe};
use simple_serve::route::Route;
use simple_serve::table::build_table;

fn scenario_table() -> Vec<Route> {
    let cands = vec![
        parse_file_route("/a:/tmp/dir", FsProbe::Dir).unwrap(),
        parse_redirect_route("/b:http://example.com").unwrap(),
        parse_status_route("/c:550").unwrap(),
    ];
    let (table, conflicts) = build_table(cands);
    assert!(conflicts.is_empty());
    table
}

#[test]
fn not_found_descriptor_shape() {
    match not_found() {
        Descriptor::Respond { status, location, body } => {
            assert_eq!(status, 404);
            assert!(location.is_none());
            assert_eq!(body, "Not found");
        },
        other => panic!("expected a response, got {:?}", other),
    }
}

#[test]
fn redirect_dispatch() {
    let table = scenario_table();
    match dispatch(&table, "/b", Some("GET")) {
        Descriptor::Respond { status, location, body } => {
            assert_eq!(status, 301);
            assert_eq!(location.as_deref(), Some("http://example.com"));
            assert_eq!(body, "http://example.com");
        },
        other => panic!("expected the redirect response, got {:?}", other),
    }
}

#[test]
fn status_dispatch_renders_status_line() {
    let table = scenario_table();
    match dispatch(&table, "/c", Some("GET")) {
        Descriptor::Respond { status, location, body } => {
            assert_eq!(status, 550);
            assert!(location.is_none());
            assert_eq!(body, "550 <unknown status code>");
        },
        other => panic!("expected the status response, got {:?}", other),
    }
}

#[test]
fn known_status_gets_canonical_reason() {
    let (table, _) = build_table(vec![parse_status_route("/gone:404").unwrap()]);
    match dispatch(&table, "/gone", Some("GET")) {
        Descriptor::Respond { status, body, .. } => {
            assert_eq!(status, 404);
            assert_eq!(body, "404 Not Found");
        },
        other => panic!("expected the status response, got {:?}", other),
    }
}

#[test]
fn directory_dispatch_delegates() {
    let table = scenario_table();
    match dispatch(&table, "/a", Some("GET")) {
        Descriptor::SendTree { root, remainder } => {
            assert_eq!(root, "/tmp/dir");
            assert_eq!(remainder, "");
        },
        other => panic!("expected a tree delegation, got {:?}", other),
    }
}

#[test]
fn file_dispatch_delegates() {
    let (table, _) =
        build_table(vec![parse_file_route("/f:/tmp/file.txt", FsProbe::File).unwrap()]);
    match dispatch(&table, "/f", Some("GET")) {
        Descriptor::SendFile { path } => assert_eq!(path, "/tmp/file.txt"),
        other => panic!("expected a file delegation, got {:?}", other),
    }
}

#[test]
fn unknown_path_dispatches_not_found() {
    let table = scenario_table();
    match dispatch(&table, "/z", Some("GET")) {
        Descriptor::Respond { status, location, body } => {
            assert_eq!(status, 404);
            assert!(location.is_none());
            assert_eq!(body, "Not found");
        },
        other => panic!("expected the not-found response, got {:?}", other),
    }
}

#[test]
fn dispatch_is_case_insensitive() {
    let table = scenario_table();
    match dispatch(&table, "/C", Some("GET")) {
        Descriptor::Respond { status, .. } => assert_eq!(status, 550),
        other => panic!("expected the status response, got {:?}", other),
    }
}
