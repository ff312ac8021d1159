//! Path matcher: compares a request's verb and path against a route's
//! template, honoring `{name}` wildcard segments.
//!
//! Both paths are segmented at slashes with empty segments discarded, so
//! `/a/b`, `/a/b/` and `a//b` are equivalent.  Verbs must match exactly.
//! Segment counts must match exactly — no prefix matching.  A literal
//! template segment must equal the request segment; a wildcard segment
//! `{name}` matches any one non-empty segment.  A template without
//! segments is the root route and matches exactly the path `/`.

use crate::http::HttpRequest;
use crate::text::chars_eq;
use crate::text::chars_eq_str;
use crate::text::chars_vec;
use crate::text::lemma_split_nonempty_parts;
use crate::text::split_nonempty;
use crate::text::split_nonempty_s;
use vstd::prelude::*;

verus! {

/// The path segments of `s`: the parts between slashes, empties dropped.
pub open spec fn segments(s: Seq<char>) -> Seq<Seq<char>> {
    split_nonempty_s(s, '/')
}

/// A template segment written `{name}`: it matches any one non-empty
/// request segment, whatever its content.
pub open spec fn is_wildcard(seg: Seq<char>) -> bool {
    seg.len() >= 2 && seg[0] == '{' && seg[seg.len() - 1] == '}'
}

/// One template segment against one request segment.
pub open spec fn seg_matches(t: Seq<char>, p: Seq<char>) -> bool {
    (is_wildcard(t) && p.len() > 0) || t == p
}

/// Whether the route template (`t_verb`, `t_path`) matches a request with
/// verb `verb` for path `url`.
pub open spec fn matches_spec(
    t_verb: Seq<char>,
    t_path: Seq<char>,
    verb: Seq<char>,
    url: Seq<char>,
) -> bool {
    &&& verb == t_verb
    &&& {
        let ts = segments(t_path);
        let ps = segments(url);
        if ts.len() == 0 {
            url == "/"@
        } else {
            ts.len() == ps.len() && (forall|i: int|
                0 <= i < ts.len() ==> seg_matches(ts[i], ps[i]))
        }
    }
}

/// A registered route: the verb and path template to match, held in an
/// `HttpRequest` as the registration surface states them, and the handler
/// value the router hands matched requests to.
pub struct Route<H> {
    pub request: HttpRequest,
    pub handler: H,
}

impl<H> Route<H> {
    /// Register a route: `verb` requests whose path matches the template
    /// `url` are for `handler`.
    pub fn new(url: String, verb: String, handler: H) -> (r: Route<H>)
        ensures
            r.request@.url == url@,
            r.request@.verb == verb@,
            r.request@.caller_ip == Seq::<char>::empty(),
            r.request@.body is None,
            r.handler == handler,
    {
        Route {
            request: HttpRequest { url, verb, caller_ip: String::new(), body: None },
            handler,
        }
    }

    /// Whether this route's template matches `request`'s verb and path.
    pub fn is_basically_the_same_as(&self, request: &HttpRequest) -> (b: bool)
        ensures
            b == matches_spec(
                self.request@.verb,
                self.request@.url,
                request@.verb,
                request@.url,
            ),
    {
        let verb_ok = self.request.verb == request.verb;
        let tchars = chars_vec(self.request.url.as_str());
        let tsegs = split_nonempty(&tchars, '/');
        let ghost ts = segments(self.request@.url);
        let uchars = chars_vec(request.url.as_str());
        if tsegs.len() == 0 {
            let is_root = chars_eq_str(&uchars, "/");
            return verb_ok && is_root;
        }
        let usegs = split_nonempty(&uchars, '/');
        let ghost ps = segments(request@.url);
        if !verb_ok {
            return false;
        }
        if tsegs.len() != usegs.len() {
            return false;
        }
        let mut i: usize = 0;
        while i < tsegs.len()
            invariant
                i <= tsegs@.len(),
                ts == segments(self.request@.url),
                ps == segments(request@.url),
                self.request@.verb == request@.verb,
                tsegs@.map_values(|p: Vec<char>| p@) == ts,
                usegs@.map_values(|p: Vec<char>| p@) == ps,
                ts.len() > 0,
                ts.len() == ps.len(),
                ts.len() == tsegs@.len(),
                forall|k: int| 0 <= k < i ==> seg_matches(ts[k], ps[k]),
            decreases tsegs@.len() - i,
        {
            proof {
                assert(tsegs@.map_values(|p: Vec<char>| p@)[i as int] == ts[i as int]);
                assert(usegs@.map_values(|p: Vec<char>| p@)[i as int] == ps[i as int]);
            }
            let t = &tsegs[i];
            let p = &usegs[i];
            let wild = is_wildcard_vec(t);
            let ok = if wild {
                p.len() > 0
            } else {
                chars_eq(t, p)
            };
            if !ok {
                proof {
                    assert(!seg_matches(ts[i as int], ps[i as int]));
                    lemma_matches_witness(
                        self.request@.verb,
                        self.request@.url,
                        request@.verb,
                        request@.url,
                        i as int,
                    );
                }
                return false;
            }
            i = i + 1;
        }
        true
    }
}

/// Whether `v` is written `{name}`.
fn is_wildcard_vec(v: &Vec<char>) -> (b: bool)
    ensures
        b == is_wildcard(v@),
{
    v.len() >= 2 && v[0] == '{' && v[v.len() - 1] == '}'
}

/// A position where the template segment fails against the request
/// segment refutes the whole match.
pub proof fn lemma_matches_witness(
    t_verb: Seq<char>,
    t_path: Seq<char>,
    verb: Seq<char>,
    url: Seq<char>,
    i: int,
)
    requires
        segments(t_path).len() > 0,
        0 <= i < segments(t_path).len(),
        !seg_matches(segments(t_path)[i], segments(url)[i]),
    ensures
        !matches_spec(t_verb, t_path, verb, url),
{
    if matches_spec(t_verb, t_path, verb, url) {
        assert(seg_matches(segments(t_path)[i], segments(url)[i]));
    }
}

/// The path `/` has no segments.
pub proof fn lemma_root_segments()
    ensures
        segments("/"@).len() == 0,
{
    reveal_strlit("/");
    let s = "/"@;
    let e = Seq::<char>::empty();
    assert(s.len() == 1 && s[0] == '/');
    assert(s.skip(1) =~= e);
    assert(crate::text::split_on(s, '/') == seq![e] + crate::text::split_on(e, '/'));
    assert(crate::text::split_on(e, '/') == seq![e]);
    let parts = crate::text::split_on(s, '/');
    assert(parts =~= seq![e, e]);
    let pred = |p: Seq<char>| p.len() > 0;
    assert(forall|i: int| 0 <= i < parts.len() ==> !pred(#[trigger] parts[i]));
    parts.lemma_all_neg_filter_empty(pred);
    assert(segments("/"@) =~= Seq::<Seq<char>>::empty());
}

/// LAW: with equal verbs and equal segment counts, a template all of whose
/// literal segments equal the request segment at their position matches,
/// whatever its wildcard segments stand over.  (Stated for templates with
/// at least one segment; a template without segments is the root route,
/// which matches only the path `/`.)
pub proof fn lemma_matches_literals(
    t_verb: Seq<char>,
    t_path: Seq<char>,
    verb: Seq<char>,
    url: Seq<char>,
)
    requires
        verb == t_verb,
        segments(t_path).len() > 0,
        segments(t_path).len() == segments(url).len(),
        forall|i: int|
            0 <= i < segments(t_path).len() && !is_wildcard(
                #[trigger] segments(t_path)[i],
            ) ==> segments(t_path)[i] == segments(url)[i],
    ensures
        matches_spec(t_verb, t_path, verb, url),
{
    lemma_split_nonempty_parts(url, '/');
    let ts = segments(t_path);
    let ps = segments(url);
    assert forall|i: int| 0 <= i < ts.len() implies seg_matches(ts[i], ps[i]) by {
        if is_wildcard(ts[i]) {
            assert(ps[i].len() > 0);
        } else {
            assert(ts[i] == ps[i]);
        }
    }
}

/// LAW: differing segment counts never match, whatever the verbs and the
/// segments' content.
pub proof fn lemma_matches_count(
    t_verb: Seq<char>,
    t_path: Seq<char>,
    verb: Seq<char>,
    url: Seq<char>,
)
    requires
        segments(t_path).len() != segments(url).len(),
    ensures
        !matches_spec(t_verb, t_path, verb, url),
{
    if segments(t_path).len() == 0 {
        lemma_root_segments();
        if url == "/"@ {
            assert(segments(url).len() == 0);
        }
    }
}

/// LAW: the root route — a template without segments — matches exactly
/// the request path `/`, given equal verbs.
pub proof fn lemma_root_route(
    t_verb: Seq<char>,
    t_path: Seq<char>,
    verb: Seq<char>,
    url: Seq<char>,
)
    requires
        verb == t_verb,
        segments(t_path).len() == 0,
    ensures
        matches_spec(t_verb, t_path, verb, url) <==> url == "/"@,
{
}

} // verus!
