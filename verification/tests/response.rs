use germ::request::{GermVerifier, Response, Status};

#[test]
fn response_with_content_is_structured() {
    let response = Response::new(b"20 text/gemini\r\nhello");
    assert_eq!(response.status, Status::Success);
    assert_eq!(response.meta, "text/gemini");
    assert_eq!(response.content, Some("hello".to_string()));
    assert_eq!(response.size, 21);
}

#[test]
fn response_header_only_has_no_content() {
    let response = Response::new(b"51 not found\r\n");
    assert_eq!(response.status, Status::NotFound);
    assert_eq!(response.meta, "not found\r\n");
    assert_eq!(response.content, None);
}

#[test]
fn response_content_drops_inner_breaks() {
    let response = Response::new(b"20 ok\r\nab\r\ncd");
    assert_eq!(response.status, Status::Success);
    assert_eq!(response.meta, "ok");
    assert_eq!(response.content, Some("abcd".to_string()));
}

#[test]
fn response_with_bad_code_is_unsupported() {
    let response = Response::new(b"xy meta\r\n");
    assert_eq!(response.status, Status::Unsupported);
}

#[test]
fn verifier_policy_constructs() {
    let _ = GermVerifier::new();
}
