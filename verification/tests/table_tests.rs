use simple_serve::parse::{parse_redirect_route, parse_status_route};
use simple_serve::route::{Action, Route};
use simple_serve::table::{build_table, find, Options};
use std::cmp::Ordering;

fn status_route(token: &str) -> Route {
    parse_status_route(token).unwrap()
}

fn redirect_route(token: &str) -> Route {
    parse_redirect_route(token).unwrap()
}

#[test]
fn empty_table_finds_nothing() {
    let (table, conflicts) = build_table(Vec::new());
    assert!(table.is_empty());
    assert!(conflicts.is_empty());
    assert!(find(&table, "/anything", Some("GET")).is_none());
}

#[test]
fn table_is_sorted_by_path() {
    let cands = vec![
        status_route("/c:500"),
        status_route("/a:501"),
        status_route("/b:502"),
    ];
    let (table, conflicts) = build_table(cands);
    assert!(conflicts.is_empty());
    let paths: Vec<&str> = table.iter().map(|r| r.path.as_str()).collect();
    assert_eq!(paths, vec!["a", "b", "c"]);
}

#[test]
fn duplicate_is_discarded_first_wins() {
    let cands = vec![
        status_route("/dup:500"),
        redirect_route("/dup:http://example.com"),
    ];
    let (table, conflicts) = build_table(cands);
    assert_eq!(table.len(), 1);
    assert!(matches!(table[0].action, Action::StatusCode(500)));
    assert_eq!(conflicts.len(), 1);
    assert_eq!(conflicts[0].path, "dup");
    assert!(matches!(conflicts[0].kept, Action::StatusCode(500)));
    match &conflicts[0].dropped {
        Action::Redirect(uri) => assert_eq!(uri, "http://example.com"),
        other => panic!("expected the dropped redirect, got {:?}", other),
    }
}

#[test]
fn accepted_keys_are_pairwise_distinct() {
    let cands = vec![
        status_route("/x:500"),
        status_route("/x:501"),
        status_route("/y:502"),
        status_route("/X:503"),
        status_route("/y:504"),
    ];
    let (table, conflicts) = build_table(cands);
    assert_eq!(table.len(), 2);
    assert_eq!(conflicts.len(), 3);
    for i in 0..table.len() {
        for j in 0..table.len() {
            if i != j {
                assert!(table[i].path != table[j].path);
            }
        }
    }
}

#[test]
fn every_accepted_route_is_found_by_its_own_path() {
    let cands = vec![
        status_route("/alpha:500"),
        status_route("/beta:501"),
        status_route("/gamma:502"),
    ];
    let (table, _) = build_table(cands);
    for i in 0..table.len() {
        let display = table[i].display_path();
        let found = find(&table, display.as_str(), Some("GET")).expect("route must be found");
        assert_eq!(found.path, table[i].path);
    }
}

#[test]
fn lookup_is_case_insensitive() {
    let (table, _) = build_table(vec![status_route("/Foo:500")]);
    let a = find(&table, "/Foo", Some("GET")).expect("mixed case must match");
    let b = find(&table, "/foo", Some("GET")).expect("lower case must match");
    assert_eq!(a.path, b.path);
    assert_eq!(a.path, "foo");
}

#[test]
fn stored_route_without_method_matches_any_method() {
    let (table, _) = build_table(vec![status_route("/m:500")]);
    assert!(find(&table, "/m", Some("GET")).is_some());
    assert!(find(&table, "/m", Some("POST")).is_some());
    assert!(find(&table, "/m", None).is_some());
}

#[test]
fn missing_path_is_not_found() {
    let (table, _) = build_table(vec![status_route("/here:500")]);
    assert!(find(&table, "/elsewhere", Some("GET")).is_none());
}

#[test]
fn init_orders_candidates_by_precedence() {
    let status = vec![status_route("/x:500")];
    let redirects = vec![redirect_route("/x:http://example.com")];
    let (options, conflicts) = Options::init(String::from("[::1]:3030"), status, redirects, Vec::new());
    assert_eq!(options.address, "[::1]:3030");
    assert_eq!(options.routes.len(), 1);
    assert!(matches!(options.routes[0].action, Action::StatusCode(500)));
    assert_eq!(conflicts.len(), 1);
}

#[test]
fn method_specific_routes_coexist() {
    let get = Route {
        path: String::from("m"),
        method: Some(String::from("GET")),
        action: Action::StatusCode(500),
    };
    let post = Route {
        path: String::from("m"),
        method: Some(String::from("POST")),
        action: Action::StatusCode(501),
    };
    let (table, conflicts) = build_table(vec![get, post]);
    assert_eq!(table.len(), 2);
    assert!(conflicts.is_empty());
    let for_get = find(&table, "/m", Some("GET")).expect("GET must match");
    assert!(matches!(for_get.action, Action::StatusCode(500)));
    let for_post = find(&table, "/m", Some("POST")).expect("POST must match");
    assert!(matches!(for_post.action, Action::StatusCode(501)));
    assert!(find(&table, "/m", Some("PUT")).is_none());
}

#[test]
fn wildcard_collides_with_method_route() {
    let any = Route {
        path: String::from("m"),
        method: None,
        action: Action::StatusCode(500),
    };
    let get = Route {
        path: String::from("m"),
        method: Some(String::from("GET")),
        action: Action::StatusCode(501),
    };
    let (table, conflicts) = build_table(vec![any, get]);
    assert_eq!(table.len(), 1);
    assert!(table[0].method.is_none());
    assert_eq!(conflicts.len(), 1);
    assert!(matches!(conflicts[0].kept, Action::StatusCode(500)));
    assert!(matches!(conflicts[0].dropped, Action::StatusCode(501)));
}

#[test]
fn compare_orders_path_then_method() {
    let route = Route {
        path: String::from("b"),
        method: Some(String::from("GET")),
        action: Action::StatusCode(500),
    };
    assert_eq!(route.compare("b", Some("GET")), Ordering::Equal);
    assert_eq!(route.compare("b", None), Ordering::Equal);
    assert_eq!(route.compare("c", Some("GET")), Ordering::Less);
    assert_eq!(route.compare("a", Some("GET")), Ordering::Greater);
    assert_eq!(route.compare("b", Some("POST")), Ordering::Less);
}

#[test]
fn route_display_path_round_trips() {
    let route = status_route("/MiXeD:500");
    assert_eq!(route.path, "mixed");
    let display = route.display_path();
    assert_eq!(display, "/mixed");
    let reparsed = status_route(&format!("{}:501", display));
    assert_eq!(reparsed.path, route.path);
}

#[test]
fn route_describe_line() {
    let route = status_route("/c:550");
    assert_eq!(
        route.describe(),
        "/c -> Responding 550 <unknown status code>"
    );
    let redirect = redirect_route("/b:http://example.com");
    assert_eq!(redirect.describe(), "/b -> Redirecting to http://example.com");
}

#[test]
fn route_equality_ignores_action() {
    let a = status_route("/same:500");
    let b = status_route("/same:501");
    let c = status_route("/other:500");
    assert!(a == b);
    assert!(a != c);
}

#[test]
fn route_ordering_follows_paths() {
    let a = status_route("/a:500");
    let b = status_route("/b:500");
    assert!(a < b);
    assert!(!(b < a));
}
