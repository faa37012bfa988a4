use request_ct::action::classify_headers;
use request_ct::action::Do;
use request_ct::counter::produce_event;
use request_ct::filter::decide_request;
use request_ct::filter::request_header_ops;
use request_ct::filter::response_body_step;
use request_ct::filter::response_header_ops;
use request_ct::filter::upstream_reply;
use request_ct::filter::Config;
use request_ct::filter::Directive;
use request_ct::filter::HeaderOp;
use request_ct::filter::RequestDecision;

fn hdr(name: &str, value: &str) -> (Vec<u8>, Vec<u8>) {
    (name.as_bytes().to_vec(), value.as_bytes().to_vec())
}

#[test]
fn fail_request_is_refused_and_counted() {
    let headers = vec![hdr("x-fail", "1")];
    let action = classify_headers(&headers);
    let (_, payload) = produce_event(&action);
    assert_eq!(
        payload,
        b"{\"request_key\":\"envoy.playground.request_ct.Do.Fail\"}".to_vec()
    );
    let (decision, directive) = decide_request(action);
    match decision {
        RequestDecision::Respond(resp) => {
            assert_eq!(resp.status, 403);
            assert_eq!(
                resp.headers,
                vec![(b"Powered-By".to_vec(), b"proxy-wasm".to_vec())]
            );
            assert_eq!(resp.body, Some(b"Access forbidden.\n".to_vec()));
        },
        _ => panic!("a failure trigger must synthesize a response"),
    }
    assert_eq!(directive, Directive::Hold);
}

#[test]
fn redirect_request_gets_the_location() {
    let headers = vec![hdr("x-redirect", "/new")];
    let (decision, directive) = decide_request(classify_headers(&headers));
    match decision {
        RequestDecision::Respond(resp) => {
            assert_eq!(resp.status, 302);
            assert_eq!(resp.headers, vec![(b"Location".to_vec(), b"/new".to_vec())]);
            assert_eq!(resp.body, None);
        },
        _ => panic!("a redirect trigger must synthesize a response"),
    }
    assert_eq!(directive, Directive::Hold);
}

#[test]
fn body_request_stashes_and_rewrites_the_response() {
    let headers = vec![hdr("x-body", "hello")];
    let (decision, directive) = decide_request(classify_headers(&headers));
    let stashed = match decision {
        RequestDecision::StashBody(b) => b,
        _ => panic!("a body trigger must stash its content"),
    };
    assert_eq!(directive, Directive::Proceed);
    // response headers: the stale length goes, the type is pinned
    let (ops, d) = response_header_ops(true);
    assert_eq!(d, Directive::Proceed);
    assert_eq!(ops.len(), 2);
    assert!(matches!(&ops[0], HeaderOp::Clear(n) if n == &b"Content-Length".to_vec()));
    assert!(
        matches!(&ops[1], HeaderOp::Assign(n, v)
            if n == &b"Content-Type".to_vec() && v == &b"text/plain".to_vec())
    );
    // the stream is held until its end, then the replacement is written
    let (write, d) = response_body_step(Some(stashed.clone()), false);
    assert_eq!(write, None);
    assert_eq!(d, Directive::Hold);
    let (write, d) = response_body_step(Some(stashed), true);
    assert_eq!(write, Some(b"hello".to_vec()));
    assert_eq!(d, Directive::Proceed);
}

#[test]
fn response_stream_without_a_stash_is_untouched() {
    let (ops, d) = response_header_ops(false);
    assert!(ops.is_empty());
    assert_eq!(d, Directive::Proceed);
    let (write, d) = response_body_step(None, false);
    assert_eq!(write, None);
    assert_eq!(d, Directive::Proceed);
}

#[test]
fn httpbin_request_dispatches_the_fixed_upstream_call() {
    let headers = vec![hdr("x-httpbin", "/get")];
    let (decision, directive) = decide_request(classify_headers(&headers));
    match decision {
        RequestDecision::Dispatch(call) => {
            assert_eq!(call.upstream, b"httpbin".to_vec());
            assert_eq!(
                call.headers,
                vec![
                    (b":method".to_vec(), b"GET".to_vec()),
                    (b":path".to_vec(), b"/get".to_vec()),
                    (b":authority".to_vec(), b"httpbin.org".to_vec()),
                ]
            );
            assert_eq!(call.timeout_ms, 5000);
        },
        _ => panic!("a forward trigger must dispatch"),
    }
    assert_eq!(directive, Directive::Hold);
}

#[test]
fn plain_request_passes_through() {
    let headers = vec![hdr("host", "example.com")];
    let (decision, directive) = decide_request(classify_headers(&headers));
    assert!(matches!(decision, RequestDecision::PassThrough));
    assert_eq!(directive, Directive::Proceed);
}

#[test]
fn configured_headers_become_assignments() {
    let config = Config {
        headers: vec![hdr("x-custom", "yes"), hdr("x-other", "no")],
        channel_name: b"my_shared_queue".to_vec(),
    };
    let ops = request_header_ops(&config);
    assert_eq!(ops.len(), 2);
    assert!(
        matches!(&ops[0], HeaderOp::Assign(n, v)
            if n == &b"x-custom".to_vec() && v == &b"yes".to_vec())
    );
    assert!(
        matches!(&ops[1], HeaderOp::Assign(n, v)
            if n == &b"x-other".to_vec() && v == &b"no".to_vec())
    );
}

#[test]
fn upstream_completion_passes_through_as_a_fresh_reply() {
    let reply = upstream_reply(vec![hdr("server", "upstream")], Some(b"data".to_vec()));
    assert_eq!(reply.status, 200);
    assert_eq!(reply.headers, vec![hdr("server", "upstream")]);
    assert_eq!(reply.body, Some(b"data".to_vec()));
}
