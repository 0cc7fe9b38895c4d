use simple_serve::parse::{
    parse_file_route, parse_redirect_route, parse_status_route, parse_status_value,
    split_route_token, ArgError, FsProbe,
};
use simple_serve::route::Action;

#[test]
fn split_basic() {
    let (path, value) = split_route_token("/a:hello").unwrap();
    assert_eq!(path, "a");
    assert_eq!(value, "hello");
}

#[test]
fn split_leading_slash_optional() {
    let (path, value) = split_route_token("a:hello").unwrap();
    assert_eq!(path, "a");
    assert_eq!(value, "hello");
}

#[test]
fn split_lowercases_path() {
    let (path, _) = split_route_token("/FoO:x").unwrap();
    assert_eq!(path, "foo");
}

#[test]
fn split_on_first_colon_only() {
    let (path, value) = split_route_token("a:b:c").unwrap();
    assert_eq!(path, "a");
    assert_eq!(value, "b:c");
}

#[test]
fn split_empty_path() {
    let (path, value) = split_route_token(":550").unwrap();
    assert_eq!(path, "");
    assert_eq!(value, "550");
}

#[test]
fn split_without_colon_fails() {
    assert!(matches!(split_route_token("no-separator"), Err(ArgError::Format)));
}

#[test]
fn status_value_bounds() {
    assert_eq!(parse_status_value("100"), Some(100));
    assert_eq!(parse_status_value("550"), Some(550));
    assert_eq!(parse_status_value("999"), Some(999));
}

#[test]
fn status_value_rejects() {
    assert_eq!(parse_status_value("99"), None);
    assert_eq!(parse_status_value("1000"), None);
    assert_eq!(parse_status_value("099"), None);
    assert_eq!(parse_status_value("5a0"), None);
    assert_eq!(parse_status_value(""), None);
}

#[test]
fn status_route_ok() {
    let route = parse_status_route("/c:550").unwrap();
    assert_eq!(route.path, "c");
    assert!(route.method.is_none());
    assert!(matches!(route.action, Action::StatusCode(550)));
}

#[test]
fn status_route_convert_error() {
    assert!(matches!(parse_status_route("/c:5x0"), Err(ArgError::Convert)));
}

#[test]
fn status_route_format_error() {
    assert!(matches!(parse_status_route("550"), Err(ArgError::Format)));
}

#[test]
fn redirect_route_ok() {
    let route = parse_redirect_route("/b:http://example.com").unwrap();
    assert_eq!(route.path, "b");
    assert!(route.method.is_none());
    match route.action {
        Action::Redirect(uri) => assert_eq!(uri, "http://example.com"),
        other => panic!("expected a redirect, got {:?}", other),
    }
}

#[test]
fn redirect_route_convert_error() {
    assert!(matches!(parse_redirect_route("/b:"), Err(ArgError::Convert)));
    assert!(matches!(parse_redirect_route("/b:ht tp://x"), Err(ArgError::Convert)));
}

#[test]
fn file_route_dir_probe() {
    let route = parse_file_route("/a:/tmp/dir", FsProbe::Dir).unwrap();
    assert_eq!(route.path, "a");
    match route.action {
        Action::ServePath(target) => assert_eq!(target, "/tmp/dir"),
        other => panic!("expected a directory route, got {:?}", other),
    }
}

#[test]
fn file_route_file_probe() {
    let route = parse_file_route("/a:/tmp/file.txt", FsProbe::File).unwrap();
    match route.action {
        Action::ServeFile(target) => assert_eq!(target, "/tmp/file.txt"),
        other => panic!("expected a file route, got {:?}", other),
    }
}

#[test]
fn file_route_missing_probe_is_invalid() {
    match parse_file_route("/a:/nowhere", FsProbe::Missing) {
        Err(ArgError::Invalid(value)) => assert_eq!(value, "/nowhere"),
        other => panic!("expected an invalid-value error, got {:?}", other),
    }
}

#[test]
fn error_descriptions() {
    assert_eq!(ArgError::Format.describe(), "Expected format [URL_PATH]:<VALUE>");
    assert_eq!(ArgError::Convert.describe(), "Failed to convert value");
    assert_eq!(
        ArgError::Invalid(String::from("bad")).describe(),
        "Value passed is not valid: bad"
    );
}
