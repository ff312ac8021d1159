use socks::http::HttpRequest;
use socks::http::HttpResponse;

fn decode(content: &str) -> Option<HttpRequest> {
    HttpRequest::from_content(content, "127.0.0.1".to_string())
}

#[test]
fn decode_get_has_no_body() {
    let req = decode("GET /index.html HTTP/1.1\r\nHost: example\r\n\r\n").unwrap();
    assert_eq!(req.verb, "GET");
    assert_eq!(req.url, "/index.html");
    assert_eq!(req.caller_ip, "127.0.0.1");
    assert!(req.body.is_none());
}

#[test]
fn decode_get_without_version_token() {
    let req = decode("GET /\r\n\r\n").unwrap();
    assert_eq!(req.verb, "GET");
    assert_eq!(req.url, "/");
    assert!(req.body.is_none());
}

#[test]
fn decode_post_with_exact_body() {
    let req = decode("POST /msg HTTP/1.1\r\nContent-Length: 5\r\n\r\nhello").unwrap();
    assert_eq!(req.verb, "POST");
    assert_eq!(req.url, "/msg");
    assert_eq!(req.body.as_deref(), Some("hello"));
}

#[test]
fn decode_post_body_is_cut_to_declared_length() {
    let req = decode("POST /msg\r\nContent-Length: 2\r\n\r\nhello").unwrap();
    assert_eq!(req.body.as_deref(), Some("he"));
}

#[test]
fn decode_post_truncated_body_fails() {
    assert!(decode("POST /msg HTTP/1.1\r\nContent-Length: 10\r\n\r\nabc").is_none());
}

#[test]
fn decode_post_missing_content_length_fails() {
    assert!(decode("POST /msg HTTP/1.1\r\nHost: example\r\n\r\nabc").is_none());
}

#[test]
fn decode_post_unparsable_content_length_fails() {
    assert!(decode("POST /msg\r\nContent-Length: ten\r\n\r\nabc").is_none());
}

#[test]
fn decode_post_last_content_length_wins() {
    let req = decode("POST /m\r\nContent-Length: 1\r\nContent-Length: 3\r\n\r\nabcd")
        .unwrap();
    assert_eq!(req.body.as_deref(), Some("abc"));
}

#[test]
fn decode_post_header_after_blank_line_is_ignored() {
    assert!(decode("POST /m\r\n\r\nContent-Length: 3\r\nabc").is_none());
}

#[test]
fn decode_post_header_name_and_value_are_trimmed() {
    let req = decode("POST /m\r\n  Content-Length\t:  3 \r\n\r\nabcd").unwrap();
    assert_eq!(req.body.as_deref(), Some("abc"));
}

#[test]
fn decode_post_body_keeps_newlines_without_carriage_returns() {
    let req = decode("POST /m\r\nContent-Length: 3\r\n\r\na\r\nb").unwrap();
    assert_eq!(req.body.as_deref(), Some("a\nb"));
}

#[test]
fn decode_unknown_verb_fails() {
    assert!(decode("PUT /msg HTTP/1.1\r\n\r\n").is_none());
    assert!(decode("get /msg\r\n\r\n").is_none());
}

#[test]
fn decode_short_request_line_fails() {
    assert!(decode("GET\r\n\r\n").is_none());
    assert!(decode("").is_none());
}

#[test]
fn decode_oversized_request_fails() {
    let mut content = String::from("GET /");
    content.push_str(&"a".repeat(4194304));
    assert!(decode(&content).is_none());
}

#[test]
fn encode_text_is_200_and_ends_with_body() {
    let bytes = HttpResponse::Text("hi".to_string()).as_bytes();
    assert!(bytes.starts_with(b"HTTP/1.1 200"));
    assert!(bytes.ends_with(b"hi"));
    assert_eq!(bytes, b"HTTP/1.1 200\r\n\r\nhi".to_vec());
}

#[test]
fn encode_json_adds_content_type() {
    let bytes = HttpResponse::Json("{\"a\":1}".to_string()).as_bytes();
    assert_eq!(
        bytes,
        b"HTTP/1.1 200\r\nContent-Type: application/json\r\n\r\n{\"a\":1}".to_vec()
    );
}

#[test]
fn encode_raw_adds_content_length_and_payload() {
    let bytes = HttpResponse::Raw(vec![0u8, 255u8, 7u8]).as_bytes();
    let mut expected = b"HTTP/1.1 200\r\nContent-Length: 3\r\n\r\n".to_vec();
    expected.extend_from_slice(&[0u8, 255u8, 7u8]);
    assert_eq!(bytes, expected);
}

#[test]
fn encode_raw_long_payload_length_in_decimal() {
    let bytes = HttpResponse::Raw(vec![9u8; 1234]).as_bytes();
    assert!(bytes.starts_with(b"HTTP/1.1 200\r\nContent-Length: 1234\r\n\r\n"));
    assert_eq!(bytes.len(), b"HTTP/1.1 200\r\nContent-Length: 1234\r\n\r\n".len() + 1234);
}

#[test]
fn encode_error_variants() {
    assert_eq!(
        HttpResponse::BadRequest.as_bytes(),
        b"HTTP/1.1 400\r\n\r\n".to_vec()
    );
    assert_eq!(
        HttpResponse::NotFound.as_bytes(),
        b"HTTP/1.1 404\r\n\r\n".to_vec()
    );
    assert_eq!(
        HttpResponse::ServerError.as_bytes(),
        b"HTTP/1.1 500\r\n\r\n".to_vec()
    );
}
