//! Wire codec, decode side: turn the text received on a connection into an
//! [`HttpRequest`], or fail.
//!
//! The rules, stated by [`decode_spec`]: carriage returns are stripped and
//! the text is split into lines.  The first line must read `VERB PATH`
//! (space-separated; any trailing protocol-version token is ignored).  The
//! verbs are a closed set: `GET` completes with no body; `POST` requires a
//! `Content-Length` header among the lines before the first blank line
//! (the last occurrence wins), and its body is exactly that many
//! characters starting right after the first blank line — fewer received
//! characters than declared is a failure, not a short body.  Any other
//! verb, a missing or unparsable length, text longer than
//! [`MAX_REQUEST_LEN`], or a malformed request line is a failure.

use crate::http::HttpRequest;
use crate::http::ReqView;
use crate::text::chars_eq_str;
use crate::text::chars_vec;
use crate::text::find_first;
use crate::text::find_from;
use crate::text::lemma_find_first_unique;
use crate::text::lemma_split_on_len;
use crate::text::parse_dec;
use crate::text::parse_dec_chars;
use crate::text::split_all;
use crate::text::split_nonempty;
use crate::text::split_nonempty_s;
use crate::text::split_on;
use crate::text::string_from_chars;
use crate::text::subvec;
use crate::text::trim_chars;
use crate::text::trim_s;
use crate::text::DEC_PARSE_CAP;
use vstd::prelude::*;
use vstd::string::StrSliceExecFns;

verus! {

/// Upper bound on the length of one request's text; longer input is
/// rejected rather than buffered without limit.
pub const MAX_REQUEST_LEN: usize = 4194304;

/// `s` with every carriage return removed.
pub open spec fn strip_cr(s: Seq<char>) -> Seq<char> {
    s.filter(|c: char| c != '\r')
}

/// Name-value split of one header line at its first `:`, both sides
/// trimmed; `None` for a line without `:`.
pub open spec fn header_nv(line: Seq<char>) -> Option<(Seq<char>, Seq<char>)> {
    match find_first(line, ':') {
        Some(i) => Some((trim_s(line.take(i)), trim_s(line.skip(i + 1)))),
        None => None,
    }
}

/// The `Content-Length` value among `lines[i..]`, stopping at the first
/// blank line; when the header repeats, the last occurrence wins.
pub open spec fn content_length_of(lines: Seq<Seq<char>>, i: int) -> Option<Seq<char>>
    decreases lines.len() - i,
{
    if i < 0 || i >= lines.len() {
        None
    } else if lines[i].len() == 0 {
        None
    } else {
        let cur = match header_nv(lines[i]) {
            Some(nv) => if nv.0 == "Content-Length"@ {
                Some(nv.1)
            } else {
                None
            },
            None => None,
        };
        match content_length_of(lines, i + 1) {
            Some(v) => Some(v),
            None => cur,
        }
    }
}

/// Index of the first line break immediately followed by another: the
/// blank line separating headers from body.
pub open spec fn find_blank(s: Seq<char>) -> Option<int>
    decreases s.len(),
{
    if s.len() < 2 {
        None
    } else if s[0] == '\n' && s[1] == '\n' {
        Some(0)
    } else {
        match find_blank(s.skip(1)) {
            Some(j) => Some(j + 1),
            None => None,
        }
    }
}

/// `find_blank` returns the least index starting a blank line.
pub proof fn lemma_find_blank(s: Seq<char>)
    ensures
        match find_blank(s) {
            Some(i) => 0 <= i && i + 1 < s.len() && s[i] == '\n' && s[i + 1] == '\n'
                && (forall|j: int| 0 <= j < i ==> !((#[trigger] s[j]) == '\n' && s[j + 1] == '\n')),
            None => forall|j: int|
                0 <= j && j + 1 < s.len() ==> !((#[trigger] s[j]) == '\n' && s[j + 1] == '\n'),
        },
    decreases s.len(),
{
    if s.len() < 2 {
    } else if s[0] == '\n' && s[1] == '\n' {
    } else {
        lemma_find_blank(s.skip(1));
        match find_blank(s.skip(1)) {
            Some(j) => {
                assert forall|j2: int|
                    0 <= j2 < j + 1 implies !((#[trigger] s[j2]) == '\n' && s[j2 + 1] == '\n') by {
                    if j2 > 0 {
                        assert(s.skip(1)[j2 - 1] == s[j2]);
                        assert(s.skip(1)[j2] == s[j2 + 1]);
                    }
                }
            },
            None => {
                assert forall|j2: int|
                    0 <= j2 && j2 + 1 < s.len() implies !((#[trigger] s[j2]) == '\n' && s[j2 + 1]
                    == '\n') by {
                    if j2 > 0 {
                        assert(s.skip(1)[j2 - 1] == s[j2]);
                        assert(s.skip(1)[j2] == s[j2 + 1]);
                    }
                }
            },
        }
    }
}

/// Any outcome satisfying the first-blank-line characterization is
/// `find_blank`'s outcome.
pub proof fn lemma_find_blank_unique(s: Seq<char>, r: Option<int>)
    requires
        match r {
            Some(i) => 0 <= i && i + 1 < s.len() && s[i] == '\n' && s[i + 1] == '\n'
                && (forall|j: int| 0 <= j < i ==> !((#[trigger] s[j]) == '\n' && s[j + 1] == '\n')),
            None => forall|j: int|
                0 <= j && j + 1 < s.len() ==> !((#[trigger] s[j]) == '\n' && s[j + 1] == '\n'),
        },
    ensures
        find_blank(s) == r,
{
    lemma_find_blank(s);
}

/// The space-separated words of the request line: the first line of the
/// received text, carriage returns stripped.
pub open spec fn request_words(raw: Seq<char>) -> Seq<Seq<char>> {
    split_nonempty_s(split_on(strip_cr(raw), '\n')[0], ' ')
}

/// What request, if any, the received text `raw` from caller `ip` denotes.
pub open spec fn decode_spec(raw: Seq<char>, ip: Seq<char>) -> Option<ReqView> {
    let s = strip_cr(raw);
    let lines = split_on(s, '\n');
    let ws = request_words(raw);
    if raw.len() > MAX_REQUEST_LEN {
        None
    } else if ws.len() < 2 {
        None
    } else {
        let verb = ws[0];
        let url = ws[1];
        if verb == "GET"@ {
            Some(ReqView { url, verb, caller_ip: ip, body: None })
        } else if verb == "POST"@ {
            match content_length_of(lines, 1) {
                None => None,
                Some(clv) => match parse_dec(clv) {
                    None => None,
                    Some(n) => match find_blank(s) {
                        None => None,
                        Some(b) => if b + 2 + n <= s.len() {
                            Some(
                                ReqView {
                                    url,
                                    verb,
                                    caller_ip: ip,
                                    body: Some(s.subrange(b + 2, b + 2 + n)),
                                },
                            )
                        } else {
                            None
                        },
                    },
                },
            }
        } else {
            None
        }
    }
}

/// First blank-line position in `v`, executable side.
fn find_blank_exec(v: &Vec<char>) -> (r: Option<usize>)
    ensures
        match r {
            Some(k) => k + 1 < v@.len() && v@[k as int] == '\n' && v@[k as int + 1]
                == '\n' && (forall|j: int|
                0 <= j < k ==> !((#[trigger] v@[j]) == '\n' && v@[j + 1] == '\n')),
            None => forall|j: int|
                0 <= j && j + 1 < v@.len() ==> !((#[trigger] v@[j]) == '\n' && v@[j + 1] == '\n'),
        },
{
    if v.len() < 2 {
        return None;
    }
    let mut i: usize = 0;
    while i < v.len() - 1
        invariant
            2 <= v@.len(),
            i <= v@.len(),
            forall|j: int| 0 <= j < i ==> !((#[trigger] v@[j]) == '\n' && v@[j + 1] == '\n'),
        decreases v@.len() - i,
    {
        if v[i] == '\n' && v[i + 1] == '\n' {
            return Some(i);
        }
        i = i + 1;
    }
    None
}

impl HttpRequest {
    /// Decode one request's received text.  The result is exactly what
    /// [`decode_spec`] assigns to it: a request on success, nothing on any
    /// decode failure.
    pub fn from_content(content: &str, caller_ip: String) -> (r: Option<HttpRequest>)
        ensures
            match r {
                Some(req) => decode_spec(content@, caller_ip@) == Some(req@),
                None => decode_spec(content@, caller_ip@) is None,
            },
    {
        broadcast use vstd::seq_lib::group_filter_ensures;

        if content.unicode_len() > MAX_REQUEST_LEN {
            return None;
        }
        let raw = chars_vec(content);
        let mut s: Vec<char> = Vec::new();
        let mut i: usize = 0;
        proof {
            assert(raw@.take(0) =~= Seq::<char>::empty());
            assert(strip_cr(raw@.take(0)).len() <= 0);
            assert(s@ =~= strip_cr(raw@.take(0)));
        }
        while i < raw.len()
            invariant
                i <= raw@.len(),
                s@ == strip_cr(raw@.take(i as int)),
            decreases raw@.len() - i,
        {
            let c = raw[i];
            proof {
                assert(raw@.take(i as int + 1) =~= raw@.take(i as int).push(
                    raw@[i as int],
                ));
                raw@.take(i as int).lemma_filter_push(
                    raw@[i as int],
                    |ch: char| ch != '\r',
                );
            }
            if c != '\r' {
                s.push(c);
            }
            i = i + 1;
        }
        proof {
            assert(raw@.take(raw@.len() as int) =~= raw@);
        }
        let ghost sv = strip_cr(content@);
        let ghost lv = split_on(sv, '\n');
        let lines = split_all(&s, '\n');
        proof {
            lemma_split_on_len(sv, '\n');
            assert(lines@.map_values(|p: Vec<char>| p@)[0] == lv[0]);
        }
        let words = split_nonempty(&lines[0], ' ');
        let ghost ws = split_nonempty_s(lv[0], ' ');
        if words.len() < 2 {
            return None;
        }
        let verb_is_get = chars_eq_str(&words[0], "GET");
        let verb_is_post = chars_eq_str(&words[0], "POST");
        proof {
            assert(words@.map_values(|p: Vec<char>| p@)[0] == ws[0]);
            assert(words@.map_values(|p: Vec<char>| p@)[1] == ws[1]);
        }
        if !verb_is_get && !verb_is_post {
            return None;
        }
        let url = string_from_chars(&words[1], 0, words[1].len());
        let verb = string_from_chars(&words[0], 0, words[0].len());
        proof {
            assert(words@[0]@.subrange(0, words@[0]@.len() as int) =~= ws[0]);
            assert(words@[1]@.subrange(0, words@[1]@.len() as int) =~= ws[1]);
        }
        if verb_is_get {
            let req = HttpRequest { url, verb, caller_ip, body: None };
            return Some(req);
        }
        // POST: find the Content-Length header, last occurrence winning.
        let mut j: usize = 1;
        let mut best: Option<Vec<char>> = None;
        let ghost lmap = lines@.map_values(|p: Vec<char>| p@);
        loop
            invariant_except_break
                1 <= j,
                lmap == lines@.map_values(|p: Vec<char>| p@),
                lmap == lv,
                content_length_of(lv, 1) == (match content_length_of(lv, j as int) {
                    Some(v) => Some(v),
                    None => match best {
                        Some(b) => Some(b@),
                        None => None,
                    },
                }),
            ensures
                content_length_of(lv, 1) == (match best {
                    Some(b) => Some(b@),
                    None => None,
                }),
            decreases lv.len() - j,
        {
            if j >= lines.len() {
                break;
            }
            let line = &lines[j];
            proof {
                assert(lmap[j as int] == line@);
            }
            if line.len() == 0 {
                break;
            }
            match find_from(line, ':', 0) {
                Some(ci) => {
                    let name_raw = subvec(line, 0, ci);
                    let name = trim_chars(&name_raw);
                    let val_raw = subvec(line, ci + 1, line.len());
                    let val = trim_chars(&val_raw);
                    proof {
                        lemma_find_first_unique(line@, ':', Some(ci as int));
                        assert(line@.take(ci as int) =~= line@.subrange(
                            0,
                            ci as int,
                        ));
                        assert(line@.skip(ci as int + 1) =~= line@.subrange(
                            ci as int + 1,
                            line@.len() as int,
                        ));
                        assert(header_nv(lv[j as int]) == Some(
                            (name@, val@),
                        ));
                    }
                    if chars_eq_str(&name, "Content-Length") {
                        best = Some(val);
                    }
                },
                None => {
                    proof {
                        lemma_find_first_unique(line@, ':', None);
                        assert(header_nv(lv[j as int]) is None);
                    }
                },
            }
            j = j + 1;
        }
        let clv = match best {
            Some(b) => b,
            None => {
                return None;
            },
        };
        let n = match parse_dec_chars(&clv) {
            Some(n) => n,
            None => {
                proof {
                    // either the length fails to parse, or its value is at
                    // or above the parse cap, far beyond what the received
                    // text can hold
                    match parse_dec(clv@) {
                        Some(m) => {
                            assert(parse_dec(clv@) == Some(m));
                            assert(m >= DEC_PARSE_CAP);
                            assert(sv.len() <= content@.len());
                            lemma_find_blank(sv);
                            match find_blank(sv) {
                                Some(bb) => {
                                    assert(bb + 2 + m > sv.len());
                                },
                                None => {},
                            }
                        },
                        None => {},
                    }
                }
                return None;
            },
        };
        let b = match find_blank_exec(&s) {
            Some(b) => b,
            None => {
                proof {
                    lemma_find_blank_unique(sv, None);
                }
                return None;
            },
        };
        proof {
            lemma_find_blank_unique(sv, Some(b as int));
        }
        if s.len() < 2 || b > s.len() - 2 || n > s.len() - 2 - b {
            proof {
                assert(b + 2 + n > sv.len());
            }
            return None;
        }
        let body = string_from_chars(&s, b + 2, b + 2 + n);
        let req = HttpRequest { url, verb, caller_ip, body: Some(body) };
        Some(req)
    }
}

/// LAW: received text within the size cap whose request line reads
/// `GET <path> ...` decodes to a request, and that request has no body.
pub proof fn lemma_decode_get(raw: Seq<char>, ip: Seq<char>)
    requires
        raw.len() <= MAX_REQUEST_LEN,
        request_words(raw).len() >= 2,
        request_words(raw)[0] == "GET"@,
    ensures
        decode_spec(raw, ip) == Some(
            ReqView {
                url: request_words(raw)[1],
                verb: "GET"@,
                caller_ip: ip,
                body: None,
            },
        ),
{
}

/// LAW: a POST whose declared body length exceeds the characters actually
/// received is a decode failure, never a short body.
pub proof fn lemma_decode_truncated(
    raw: Seq<char>,
    ip: Seq<char>,
    clv: Seq<char>,
    n: nat,
    b: int,
)
    requires
        request_words(raw).len() >= 2 ==> request_words(raw)[0] == "POST"@,
        content_length_of(split_on(strip_cr(raw), '\n'), 1) == Some(clv),
        parse_dec(clv) == Some(n),
        find_blank(strip_cr(raw)) == Some(b),
        b + 2 + n > strip_cr(raw).len(),
    ensures
        decode_spec(raw, ip) is None,
{
    reveal_strlit("GET");
    reveal_strlit("POST");
    if request_words(raw).len() >= 2 {
        assert(request_words(raw)[0] != "GET"@);
    }
}

} // verus!
