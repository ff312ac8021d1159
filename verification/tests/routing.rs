use socks::http::HttpRequest;
use socks::http::HttpResponse;
use socks::matcher::Route;
use socks::router::dispatch;
use socks::router::find_route;
use socks::router::Handler;

/// A probe handler: answers with a fixed marker text.
struct Probe(&'static str);

impl Handler for Probe {
    fn handle(&self, _request: HttpRequest) -> HttpResponse {
        HttpResponse::Text(self.0.to_string())
    }
}

fn request(verb: &str, url: &str) -> HttpRequest {
    HttpRequest {
        url: url.to_string(),
        verb: verb.to_string(),
        caller_ip: "127.0.0.1".to_string(),
        body: None,
    }
}

fn route(verb: &str, url: &str, marker: &'static str) -> Route<Probe> {
    Route::new(url.to_string(), verb.to_string(), Probe(marker))
}

fn text_of(r: HttpResponse) -> Option<String> {
    match r {
        HttpResponse::Text(s) => Some(s),
        _ => None,
    }
}

#[test]
fn literal_and_wildcard_segments_match() {
    let r = route("GET", "/users/{id}", "a");
    assert!(r.is_basically_the_same_as(&request("GET", "/users/42")));
    assert!(r.is_basically_the_same_as(&request("GET", "/users/anything")));
    assert!(!r.is_basically_the_same_as(&request("GET", "/posts/42")));
}

#[test]
fn bare_braces_segment_is_a_wildcard() {
    let r = route("GET", "/x/{}", "a");
    assert!(r.is_basically_the_same_as(&request("GET", "/x/anything")));
}

#[test]
fn brace_prefix_alone_is_a_literal() {
    let r = route("GET", "/x/{y", "a");
    assert!(r.is_basically_the_same_as(&request("GET", "/x/{y")));
    assert!(!r.is_basically_the_same_as(&request("GET", "/x/z")));
}

#[test]
fn verbs_must_match_exactly() {
    let r = route("GET", "/users/{id}", "a");
    assert!(!r.is_basically_the_same_as(&request("POST", "/users/42")));
}

#[test]
fn differing_segment_counts_never_match() {
    let r = route("GET", "/users/{id}", "a");
    assert!(!r.is_basically_the_same_as(&request("GET", "/users")));
    assert!(!r.is_basically_the_same_as(&request("GET", "/users/42/x")));
    assert!(!r.is_basically_the_same_as(&request("GET", "/")));
}

#[test]
fn slash_runs_and_trailing_slashes_are_equivalent() {
    let r = route("GET", "/a/b", "a");
    assert!(r.is_basically_the_same_as(&request("GET", "/a/b/")));
    assert!(r.is_basically_the_same_as(&request("GET", "a//b")));
}

#[test]
fn root_route_matches_slash_and_only_slash() {
    let r = route("GET", "", "root");
    assert!(r.is_basically_the_same_as(&request("GET", "/")));
    assert!(!r.is_basically_the_same_as(&request("GET", "//")));
    assert!(!r.is_basically_the_same_as(&request("GET", "")));
    assert!(!r.is_basically_the_same_as(&request("GET", "/x")));
}

#[test]
fn first_declared_route_wins() {
    let routes = vec![
        route("GET", "/users/{id}", "wild"),
        route("GET", "/users/list", "list"),
    ];
    assert_eq!(find_route(&routes, &request("GET", "/users/42")), Some(0));
    let r = dispatch(&routes, request("GET", "/users/42"));
    assert_eq!(text_of(r).as_deref(), Some("wild"));
    // registration order, not specificity: the wildcard also takes "list"
    let r = dispatch(&routes, request("GET", "/users/list"));
    assert_eq!(text_of(r).as_deref(), Some("wild"));
}

#[test]
fn later_route_taken_when_earlier_fails() {
    let routes = vec![
        route("GET", "/users/list", "list"),
        route("GET", "/users/{id}", "wild"),
    ];
    assert_eq!(find_route(&routes, &request("GET", "/users/42")), Some(1));
    let r = dispatch(&routes, request("GET", "/users/42"));
    assert_eq!(text_of(r).as_deref(), Some("wild"));
}

#[test]
fn unrouted_get_gets_informational_text() {
    let routes: Vec<Route<Probe>> = Vec::new();
    assert_eq!(find_route(&routes, &request("GET", "/anything")), None);
    let r = dispatch(&routes, request("GET", "/anything"));
    assert_eq!(text_of(r).as_deref(), Some("404 Nothing here :/"));
}

#[test]
fn unrouted_post_gets_bad_request() {
    let routes: Vec<Route<Probe>> = Vec::new();
    let r = dispatch(&routes, request("POST", "/anything"));
    assert!(matches!(r, HttpResponse::BadRequest));
}

#[test]
fn route_new_keeps_template_fields() {
    let r = route("GET", "/a/{b}", "m");
    assert_eq!(r.request.url, "/a/{b}");
    assert_eq!(r.request.verb, "GET");
    assert_eq!(r.request.caller_ip, "");
    assert!(r.request.body.is_none());
}
