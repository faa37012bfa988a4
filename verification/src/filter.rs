//! The filter's per-request decisions: what to answer, stash, or dispatch
//! for a classified request, and how to treat the response stream when a
//! replacement body is pending. Each hook of the request lifecycle is a pure
//! decision here; performing it (sending, dispatching, header writes) is the
//! host integration's job.

use vstd::prelude::*;
use crate::action::headers_view;
use crate::action::Do;
use crate::action::DoView;
use crate::action::opt_do_view;

verus! {

/// Whether the host should let the intercepted stream proceed or hold it.
#[derive(Clone, Copy, PartialEq, Eq, Structural, Debug)]
pub enum Directive {
    Proceed,
    Hold,
}

/// A response to synthesize and send in place of the upstream's.
pub struct Response {
    pub status: u16,
    pub headers: Vec<(Vec<u8>, Vec<u8>)>,
    pub body: Option<Vec<u8>>,
}

/// An outbound call to dispatch, answered later by a completion callback.
pub struct OutboundCall {
    pub upstream: Vec<u8>,
    pub headers: Vec<(Vec<u8>, Vec<u8>)>,
    pub timeout_ms: u64,
}

/// What to do with one classified request.
pub enum RequestDecision {
    /// Send this response and hold the stream.
    Respond(Response),
    /// Remember this body to substitute into the response stream.
    StashBody(Vec<u8>),
    /// Dispatch this call and hold the stream until it completes.
    Dispatch(OutboundCall),
    /// Touch nothing; the request passes through.
    PassThrough,
}

/// One edit to a header map.
pub enum HeaderOp {
    /// Remove the named header.
    Clear(Vec<u8>),
    /// Set the named header to the value.
    Assign(Vec<u8>, Vec<u8>),
}

/// The filter's static configuration: headers to stamp onto every request,
/// and the name of the shared queue channel that carries counting events.
pub struct Config {
    pub headers: Vec<(Vec<u8>, Vec<u8>)>,
    pub channel_name: Vec<u8>,
}

/// The bytes of `Powered-By`.
pub open spec fn powered_by_name() -> Seq<u8> {
    seq![80u8, 111, 119, 101, 114, 101, 100, 45, 66, 121]
}

/// The bytes of `proxy-wasm`.
pub open spec fn powered_by_value() -> Seq<u8> {
    seq![112u8, 114, 111, 120, 121, 45, 119, 97, 115, 109]
}

/// The bytes of the refusal body, `Access forbidden.` and a newline.
pub open spec fn forbidden_body() -> Seq<u8> {
    seq![65u8, 99, 99, 101, 115, 115, 32, 102, 111, 114, 98, 105, 100, 100, 101, 110, 46, 10]
}

/// The bytes of `Location`.
pub open spec fn location_name() -> Seq<u8> {
    seq![76u8, 111, 99, 97, 116, 105, 111, 110]
}

/// The bytes of `Content-Length`.
pub open spec fn content_length_name() -> Seq<u8> {
    seq![67u8, 111, 110, 116, 101, 110, 116, 45, 76, 101, 110, 103, 116, 104]
}

/// The bytes of `Content-Type`.
pub open spec fn ctype_header_name() -> Seq<u8> {
    seq![67u8, 111, 110, 116, 101, 110, 116, 45, 84, 121, 112, 101]
}

/// The bytes of `text/plain`.
pub open spec fn text_plain() -> Seq<u8> {
    seq![116u8, 101, 120, 116, 47, 112, 108, 97, 105, 110]
}

/// The bytes of the fixed upstream name `httpbin`.
pub open spec fn upstream_name() -> Seq<u8> {
    seq![104u8, 116, 116, 112, 98, 105, 110]
}

/// The headers of the forwarded call: method `GET`, the carried path, and
/// the authority `httpbin.org`.
pub open spec fn upstream_headers(path: Seq<u8>) -> Seq<(Seq<u8>, Seq<u8>)> {
    seq![
        (seq![58u8, 109, 101, 116, 104, 111, 100], seq![71u8, 69, 84]),
        (seq![58u8, 112, 97, 116, 104], path),
        (
            seq![58u8, 97, 117, 116, 104, 111, 114, 105, 116, 121],
            seq![104u8, 116, 116, 112, 98, 105, 110, 46, 111, 114, 103],
        ),
    ]
}

/// The milliseconds the forwarded call may take before it fails.
pub open spec fn upstream_timeout_ms() -> u64 {
    5000
}

/// Decides one classified request, exactly as the lifecycle demands:
/// a failure trigger earns the 403 refusal, a redirect the 302 with its
/// location, a body trigger is stashed for the response stream, a forward
/// trigger becomes the fixed upstream call, and no trigger passes through.
pub fn decide_request(action: Option<Do>) -> (r: (RequestDecision, Directive))
    ensures
        opt_do_view(action) is None ==> r.0 is PassThrough && r.1 == Directive::Proceed,
        opt_do_view(action) == Option::Some(DoView::Fail) ==> (r.0 matches RequestDecision::Respond(
            resp,
        ) && resp.status == 403 && headers_view(resp.headers@) == seq![
            (powered_by_name(), powered_by_value()),
        ] && (resp.body matches Some(b) && b@ == forbidden_body())) && r.1 == Directive::Hold,
        opt_do_view(action) matches Some(DoView::Redirect(loc)) ==> (r.0
            matches RequestDecision::Respond(resp) && resp.status == 302 && headers_view(
            resp.headers@,
        ) == seq![(location_name(), loc)] && resp.body is None) && r.1 == Directive::Hold,
        opt_do_view(action) matches Some(DoView::Body(content)) ==> (r.0
            matches RequestDecision::StashBody(b) && b@ == content) && r.1 == Directive::Proceed,
        opt_do_view(action) matches Some(DoView::Httpbin(path)) ==> (r.0
            matches RequestDecision::Dispatch(call) && call.upstream@ == upstream_name()
            && headers_view(call.headers@) == upstream_headers(path) && call.timeout_ms
            == upstream_timeout_ms()) && r.1 == Directive::Hold,
{
    match action {
        Some(Do::Fail) => {
            let name: Vec<u8> = vec![80u8, 111, 119, 101, 114, 101, 100, 45, 66, 121];
            let value: Vec<u8> = vec![112u8, 114, 111, 120, 121, 45, 119, 97, 115, 109];
            let body: Vec<u8> = vec![65u8, 99, 99, 101, 115, 115, 32, 102, 111, 114, 98, 105,
                100, 100, 101, 110, 46, 10];
            let mut headers: Vec<(Vec<u8>, Vec<u8>)> = Vec::new();
            headers.push((name, value));
            let resp = Response { status: 403, headers, body: Some(body) };
            proof {
                assert(headers_view(resp.headers@) =~= seq![
                    (powered_by_name(), powered_by_value()),
                ]);
            }
            (RequestDecision::Respond(resp), Directive::Hold)
        },
        Some(Do::Redirect(loc)) => {
            let name: Vec<u8> = vec![76u8, 111, 99, 97, 116, 105, 111, 110];
            let ghost loc_view = loc@;
            let mut headers: Vec<(Vec<u8>, Vec<u8>)> = Vec::new();
            headers.push((name, loc));
            let resp = Response { status: 302, headers, body: None };
            proof {
                assert(headers_view(resp.headers@) =~= seq![(location_name(), loc_view)]);
            }
            (RequestDecision::Respond(resp), Directive::Hold)
        },
        Some(Do::Body(content)) => (RequestDecision::StashBody(content), Directive::Proceed),
        Some(Do::Httpbin(path)) => {
            let upstream: Vec<u8> = vec![104u8, 116, 116, 112, 98, 105, 110];
            let method_name: Vec<u8> = vec![58u8, 109, 101, 116, 104, 111, 100];
            let method_value: Vec<u8> = vec![71u8, 69, 84];
            let path_name: Vec<u8> = vec![58u8, 112, 97, 116, 104];
            let authority_name: Vec<u8> = vec![58u8, 97, 117, 116, 104, 111, 114, 105, 116, 121];
            let authority_value: Vec<u8> = vec![104u8, 116, 116, 112, 98, 105, 110, 46, 111, 114,
                103];
            let ghost path_view = path@;
            let mut headers: Vec<(Vec<u8>, Vec<u8>)> = Vec::new();
            headers.push((method_name, method_value));
            headers.push((path_name, path));
            headers.push((authority_name, authority_value));
            let call = OutboundCall { upstream, headers, timeout_ms: 5000 };
            proof {
                assert(headers_view(call.headers@) =~= upstream_headers(path_view));
            }
            (RequestDecision::Dispatch(call), Directive::Hold)
        },
        None => (RequestDecision::PassThrough, Directive::Proceed),
    }
}

/// The header edits to stamp the configured headers onto a request: one
/// assignment per configured pair, in order.
pub fn request_header_ops(config: &Config) -> (r: Vec<HeaderOp>)
    ensures
        r@.len() == config.headers@.len(),
        forall|i: int| 0 <= i < r@.len() ==> (#[trigger] r@[i] matches HeaderOp::Assign(n, v)
            && n@ == config.headers@[i].0@ && v@ == config.headers@[i].1@),
{
    let mut ops: Vec<HeaderOp> = Vec::new();
    let mut i: usize = 0;
    while i < config.headers.len()
        invariant
            i <= config.headers@.len(),
            ops@.len() == i,
            forall|j: int| 0 <= j < i ==> (#[trigger] ops@[j] matches HeaderOp::Assign(n, v) && n@
                == config.headers@[j].0@ && v@ == config.headers@[j].1@),
        decreases config.headers@.len() - i,
    {
        let name = crate::bytes::copy_bytes(&config.headers[i].0);
        let value = crate::bytes::copy_bytes(&config.headers[i].1);
        ops.push(HeaderOp::Assign(name, value));
        i = i + 1;
    }
    ops
}

/// The response-header edits once the upstream's headers arrive: while a
/// replacement body is pending, the stale length is dropped and the type is
/// pinned to plain text; otherwise nothing is touched. The stream proceeds
/// either way.
pub fn response_header_ops(body_pending: bool) -> (r: (Vec<HeaderOp>, Directive))
    ensures
        r.1 == Directive::Proceed,
        !body_pending ==> r.0@.len() == 0,
        body_pending ==> r.0@.len() == 2 && (r.0@[0] matches HeaderOp::Clear(n) && n@
            == content_length_name()) && (r.0@[1] matches HeaderOp::Assign(n, v) && n@
            == ctype_header_name() && v@ == text_plain()),
{
    let mut ops: Vec<HeaderOp> = Vec::new();
    if body_pending {
        let length_name: Vec<u8> = vec![67u8, 111, 110, 116, 101, 110, 116, 45, 76, 101, 110,
            103, 116, 104];
        let ctype_name: Vec<u8> = vec![67u8, 111, 110, 116, 101, 110, 116, 45, 84, 121, 112, 101];
        let type_value: Vec<u8> = vec![116u8, 101, 120, 116, 47, 112, 108, 97, 105, 110];
        ops.push(HeaderOp::Clear(length_name));
        ops.push(HeaderOp::Assign(ctype_name, type_value));
    }
    (ops, Directive::Proceed)
}

/// The response-body step: with a replacement body pending, the stream is
/// held until its end, where the replacement is written; with none pending
/// the stream proceeds untouched.
pub fn response_body_step(stashed: Option<Vec<u8>>, end_of_stream: bool) -> (r: (
    Option<Vec<u8>>,
    Directive,
))
    ensures
        stashed is None ==> r.0 is None && r.1 == Directive::Proceed,
        stashed matches Some(b) ==> (!end_of_stream ==> r.0 is None && r.1 == Directive::Hold),
        stashed matches Some(b) ==> (end_of_stream ==> (r.0 matches Some(w) && w@ == b@) && r.1
            == Directive::Proceed),
{
    match stashed {
        None => (None, Directive::Proceed),
        Some(b) => {
            if end_of_stream {
                (Some(b), Directive::Proceed)
            } else {
                (None, Directive::Hold)
            }
        },
    }
}

/// The reply sent when a dispatched upstream call completes: its headers
/// and body pass through under a fresh 200 status.
pub fn upstream_reply(headers: Vec<(Vec<u8>, Vec<u8>)>, body: Option<Vec<u8>>) -> (r: Response)
    ensures
        r.status == 200,
        r.headers@ == headers@,
        r.body == body,
{
    Response { status: 200, headers, body }
}

} // verus!
