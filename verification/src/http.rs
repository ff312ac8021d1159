//! The request and response types of the engine, their abstract views, and
//! the response encoder.
//!
//! A response is serialized by the fixed mapping: the success variants give
//! status 200 (`Json` adds a `Content-Type` header, `Raw` a `Content-Length`
//! header and a binary payload); `BadRequest`, `NotFound` and `ServerError`
//! give 400, 404 and 500 with empty bodies.  No other status is produced.

use crate::text::dec_chars;
use crate::text::push_dec;
use vstd::prelude::*;
use vstd::string::StrSliceExecFns;
use vstd::string::StringExecFns;
use vstd::utf8::encode_utf8;

verus! {

/// A decoded HTTP request: the verb and path from the request line, the
/// caller's address as reported by the connection, and the body for
/// body-carrying verbs.  The body is present exactly when the verb carries
/// one and a valid length was found while decoding.
pub struct HttpRequest {
    pub url: String,
    pub verb: String,
    pub caller_ip: String,
    pub body: Option<String>,
}

/// The abstract value of a request: each field as a character sequence.
pub struct ReqView {
    pub url: Seq<char>,
    pub verb: Seq<char>,
    pub caller_ip: Seq<char>,
    pub body: Option<Seq<char>>,
}

impl View for HttpRequest {
    type V = ReqView;

    open spec fn view(&self) -> ReqView {
        ReqView {
            url: self.url@,
            verb: self.verb@,
            caller_ip: self.caller_ip@,
            body: match self.body {
                Some(b) => Some(b@),
                None => None,
            },
        }
    }
}

/// A handler's outcome: exactly one variant is active, and serialization
/// depends only on the tag.
pub enum HttpResponse {
    Text(String),
    Json(String),
    Raw(Vec<u8>),
    BadRequest,
    NotFound,
    ServerError,
}

/// The abstract value of a response.
pub enum RespView {
    Text(Seq<char>),
    Json(Seq<char>),
    Raw(Seq<u8>),
    BadRequest,
    NotFound,
    ServerError,
}

impl View for HttpResponse {
    type V = RespView;

    open spec fn view(&self) -> RespView {
        match self {
            HttpResponse::Text(m) => RespView::Text(m@),
            HttpResponse::Json(j) => RespView::Json(j@),
            HttpResponse::Raw(b) => RespView::Raw(b@),
            HttpResponse::BadRequest => RespView::BadRequest,
            HttpResponse::NotFound => RespView::NotFound,
            HttpResponse::ServerError => RespView::ServerError,
        }
    }
}

/// The textual part of a response's wire form: status line, any headers,
/// the blank separator line, and any textual body.
pub open spec fn head_chars(r: RespView) -> Seq<char> {
    match r {
        RespView::Text(m) => "HTTP/1.1 200\r\n\r\n"@ + m,
        RespView::Json(j) => "HTTP/1.1 200\r\nContent-Type: application/json\r\n\r\n"@
            + j,
        RespView::Raw(b) => "HTTP/1.1 200\r\nContent-Length: "@ + dec_chars(b.len())
            + "\r\n\r\n"@,
        RespView::BadRequest => "HTTP/1.1 400\r\n\r\n"@,
        RespView::NotFound => "HTTP/1.1 404\r\n\r\n"@,
        RespView::ServerError => "HTTP/1.1 500\r\n\r\n"@,
    }
}

/// The wire bytes of a response: the UTF-8 encoding of its textual part,
/// followed by the raw payload when there is one.
pub open spec fn response_bytes(r: RespView) -> Seq<u8> {
    match r {
        RespView::Raw(b) => encode_utf8(head_chars(r)) + b,
        _ => encode_utf8(head_chars(r)),
    }
}

impl HttpResponse {
    /// Serialize this response to wire bytes.
    pub fn as_bytes(&self) -> (r: Vec<u8>)
        ensures
            r@ == response_bytes(self@),
    {
        let mut head = String::from_str("HTTP/1.1 ");
        match self {
            HttpResponse::Text(m) => {
                head.append("200\r\n\r\n");
                head.append(m.as_str());
                proof {
                    reveal_strlit("HTTP/1.1 ");
                    reveal_strlit("200\r\n\r\n");
                    reveal_strlit("HTTP/1.1 200\r\n\r\n");
                    assert(head@ =~= head_chars(self@));
                }
            },
            HttpResponse::Json(j) => {
                head.append("200\r\nContent-Type: application/json\r\n\r\n");
                head.append(j.as_str());
                proof {
                    reveal_strlit("HTTP/1.1 ");
                    reveal_strlit("200\r\nContent-Type: application/json\r\n\r\n");
                    reveal_strlit(
                        "HTTP/1.1 200\r\nContent-Type: application/json\r\n\r\n",
                    );
                    assert(head@ =~= head_chars(self@));
                }
            },
            HttpResponse::Raw(b) => {
                head.append("200\r\nContent-Length: ");
                push_dec(&mut head, b.len());
                head.append("\r\n\r\n");
                proof {
                    reveal_strlit("HTTP/1.1 ");
                    reveal_strlit("200\r\nContent-Length: ");
                    reveal_strlit("HTTP/1.1 200\r\nContent-Length: ");
                    reveal_strlit("\r\n\r\n");
                    assert(head@ =~= head_chars(self@));
                }
            },
            HttpResponse::BadRequest => {
                head.append("400\r\n\r\n");
                proof {
                    reveal_strlit("HTTP/1.1 ");
                    reveal_strlit("400\r\n\r\n");
                    reveal_strlit("HTTP/1.1 400\r\n\r\n");
                    assert(head@ =~= head_chars(self@));
                }
            },
            HttpResponse::NotFound => {
                head.append("404\r\n\r\n");
                proof {
                    reveal_strlit("HTTP/1.1 ");
                    reveal_strlit("404\r\n\r\n");
                    reveal_strlit("HTTP/1.1 404\r\n\r\n");
                    assert(head@ =~= head_chars(self@));
                }
            },
            HttpResponse::ServerError => {
                head.append("500\r\n\r\n");
                proof {
                    reveal_strlit("HTTP/1.1 ");
                    reveal_strlit("500\r\n\r\n");
                    reveal_strlit("HTTP/1.1 500\r\n\r\n");
                    assert(head@ =~= head_chars(self@));
                }
            },
        }
        let mut out = head.as_str().as_bytes_vec();
        if let HttpResponse::Raw(b) = self {
            let ghost out_prev = out@;
            out.extend_from_slice(b.as_slice());
            proof {
                assert forall|i: int|
                    0 <= i < out@.len() implies out@[i] == (out_prev + b@)[i] by {
                    if i >= out_prev.len() {
                        assert(cloned::<u8>(b@[i - out_prev.len()], out@[i]));
                    }
                }
                assert(out@ =~= response_bytes(self@));
            }
        }
        out
    }
}

} // verus!
