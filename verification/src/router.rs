//! Router: scan the registered routes in registration order, hand the
//! request to the first route whose template matches, or answer with the
//! default response.
//!
//! First match wins: overlapping templates are resolved purely by
//! declaration order, never by specificity — that is router policy, not a
//! defect.  An unrouted `GET` is answered, by deliberate policy, with a
//! 200 response carrying an informational body rather than a 404; an
//! unrouted body-carrying verb gets `BadRequest`.

use crate::http::HttpRequest;
use crate::http::HttpResponse;
use crate::http::RespView;
use crate::matcher::matches_spec;
use crate::matcher::Route;
use crate::text::chars_eq_str;
use crate::text::chars_vec;
use vstd::prelude::*;
use vstd::string::StringExecFns;

verus! {

/// The handler capability: the embedding program implements it for its
/// handler type.  A handler maps a request to a response; the router
/// promises nothing about what a handler returns.
pub trait Handler {
    fn handle(&self, request: HttpRequest) -> HttpResponse;
}

/// What an unrouted request receives.
pub open spec fn default_response_spec(verb: Seq<char>) -> RespView {
    if verb == "GET"@ {
        RespView::Text("404 Nothing here :/"@)
    } else {
        RespView::BadRequest
    }
}

/// The response for a request no route matches.
pub fn default_response(request: &HttpRequest) -> (r: HttpResponse)
    ensures
        r@ == default_response_spec(request@.verb),
{
    let vchars = chars_vec(request.verb.as_str());
    if chars_eq_str(&vchars, "GET") {
        HttpResponse::Text(String::from_str("404 Nothing here :/"))
    } else {
        HttpResponse::BadRequest
    }
}

/// Index of the first registered route whose template matches `request`,
/// scanning in registration order.
pub fn find_route<H>(routes: &Vec<Route<H>>, request: &HttpRequest) -> (r: Option<
    usize,
>)
    ensures
        match r {
            Some(i) => i < routes@.len() && matches_spec(
                routes@[i as int].request@.verb,
                routes@[i as int].request@.url,
                request@.verb,
                request@.url,
            ) && (forall|j: int|
                0 <= j < i ==> !matches_spec(
                    (#[trigger] routes@[j]).request@.verb,
                    routes@[j].request@.url,
                    request@.verb,
                    request@.url,
                )),
            None => forall|j: int|
                0 <= j < routes@.len() ==> !matches_spec(
                    (#[trigger] routes@[j]).request@.verb,
                    routes@[j].request@.url,
                    request@.verb,
                    request@.url,
                ),
        },
{
    let mut i: usize = 0;
    while i < routes.len()
        invariant
            i <= routes@.len(),
            forall|j: int|
                0 <= j < i ==> !matches_spec(
                    (#[trigger] routes@[j]).request@.verb,
                    routes@[j].request@.url,
                    request@.verb,
                    request@.url,
                ),
        decreases routes@.len() - i,
    {
        if routes[i].is_basically_the_same_as(request) {
            return Some(i);
        }
        i = i + 1;
    }
    None
}

/// Dispatch `request`: invoke the first matching route's handler, or
/// answer with the default response when no route matches.  What a
/// matched handler returns is the handler's affair; when no route
/// matches, the result is exactly the default response.
pub fn dispatch<H: Handler>(routes: &Vec<Route<H>>, request: HttpRequest) -> (r:
    HttpResponse)
    ensures
        (forall|j: int|
            0 <= j < routes@.len() ==> !matches_spec(
                (#[trigger] routes@[j]).request@.verb,
                routes@[j].request@.url,
                request@.verb,
                request@.url,
            )) ==> r@ == default_response_spec(request@.verb),
{
    match find_route(routes, &request) {
        Some(i) => routes[i].handler.handle(request),
        None => default_response(&request),
    }
}

} // verus!
