use request_ct::action::classify_headers;
use request_ct::action::get_key;
use request_ct::action::Do;

fn hdr(name: &str, value: &str) -> (Vec<u8>, Vec<u8>) {
    (name.as_bytes().to_vec(), value.as_bytes().to_vec())
}

#[test]
fn fail_trigger_classifies() {
    let headers = vec![hdr("host", "example.com"), hdr("x-fail", "1")];
    let action = classify_headers(&headers);
    assert!(matches!(action, Some(Do::Fail)));
}

#[test]
fn redirect_trigger_carries_value_verbatim() {
    let headers = vec![hdr("x-redirect", "/new")];
    match classify_headers(&headers) {
        Some(Do::Redirect(loc)) => assert_eq!(loc, b"/new".to_vec()),
        other => panic!("unexpected classification: {:?}", other.is_some()),
    }
}

#[test]
fn body_trigger_carries_value_verbatim() {
    let headers = vec![hdr("x-body", "hello")];
    match classify_headers(&headers) {
        Some(Do::Body(content)) => assert_eq!(content, b"hello".to_vec()),
        _ => panic!("expected a body action"),
    }
}

#[test]
fn httpbin_trigger_carries_value_verbatim() {
    let headers = vec![hdr("x-httpbin", "/get")];
    match classify_headers(&headers) {
        Some(Do::Httpbin(path)) => assert_eq!(path, b"/get".to_vec()),
        _ => panic!("expected a forward action"),
    }
}

#[test]
fn no_trigger_classifies_to_nothing() {
    let headers = vec![hdr("host", "example.com"), hdr("accept", "*/*")];
    assert!(classify_headers(&headers).is_none());
}

#[test]
fn empty_header_list_classifies_to_nothing() {
    let headers: Vec<(Vec<u8>, Vec<u8>)> = Vec::new();
    assert!(classify_headers(&headers).is_none());
}

#[test]
fn last_trigger_wins() {
    let headers = vec![hdr("x-fail", "1"), hdr("x-redirect", "/new")];
    match classify_headers(&headers) {
        Some(Do::Redirect(loc)) => assert_eq!(loc, b"/new".to_vec()),
        _ => panic!("the later trigger must win"),
    }
    let headers = vec![hdr("x-redirect", "/new"), hdr("x-fail", "1")];
    assert!(matches!(classify_headers(&headers), Some(Do::Fail)));
}

#[test]
fn later_duplicate_of_same_trigger_wins() {
    let headers = vec![hdr("x-redirect", "/a"), hdr("x-redirect", "/b")];
    match classify_headers(&headers) {
        Some(Do::Redirect(loc)) => assert_eq!(loc, b"/b".to_vec()),
        _ => panic!("the later trigger must win"),
    }
}

#[test]
fn trigger_names_are_case_sensitive() {
    let headers = vec![hdr("X-Fail", "1"), hdr("X-REDIRECT", "/new")];
    assert!(classify_headers(&headers).is_none());
}

#[test]
fn keys_name_the_kind() {
    assert_eq!(
        get_key(&Some(Do::Fail)),
        b"envoy.playground.request_ct.Do.Fail".to_vec()
    );
    assert_eq!(
        get_key(&Some(Do::Redirect(b"/new".to_vec()))),
        b"envoy.playground.request_ct.Do.Redirect".to_vec()
    );
    assert_eq!(
        get_key(&Some(Do::Body(b"hello".to_vec()))),
        b"envoy.playground.request_ct.Do.Body".to_vec()
    );
    assert_eq!(
        get_key(&Some(Do::Httpbin(b"/get".to_vec()))),
        b"envoy.playground.request_ct.Do.Httpbin".to_vec()
    );
    assert_eq!(
        get_key(&None),
        b"envoy.playground.request_ct.GenericRequest".to_vec()
    );
}

#[test]
fn key_ignores_the_payload() {
    let a = get_key(&Some(Do::Redirect(b"/one".to_vec())));
    let b = get_key(&Some(Do::Redirect(b"/two".to_vec())));
    assert_eq!(a, b);
}

#[test]
fn kind_str_names_the_kind() {
    assert_eq!(Do::Fail.kind_str(), b"Do.Fail".to_vec());
    assert_eq!(Do::Redirect(b"/x".to_vec()).kind_str(), b"Do.Redirect".to_vec());
    assert_eq!(Do::Body(b"x".to_vec()).kind_str(), b"Do.Body".to_vec());
    assert_eq!(Do::Httpbin(b"/x".to_vec()).kind_str(), b"Do.Httpbin".to_vec());
}
