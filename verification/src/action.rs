//! Classifying a request by its trigger headers, and deriving the counter
//! bucket key for the classified action.
//!
//! The classifier scans the headers in the order they were delivered and
//! keeps the action of the last recognized trigger header; the action carries
//! the header value verbatim. The bucket key names only the kind of the
//! action, never its payload, so two actions of one kind share a counter.

use vstd::prelude::*;
use crate::bytes::push_all;
use crate::bytes::copy_bytes;

verus! {

/// A classified request action.
pub enum Do {
    /// Reject the request.
    Fail,
    /// Redirect to the carried location.
    Redirect(Vec<u8>),
    /// Replace the response body with the carried content.
    Body(Vec<u8>),
    /// Forward the carried path to the fixed upstream.
    Httpbin(Vec<u8>),
}

/// The mathematical shape of a classified action.
pub enum DoView {
    Fail,
    Redirect(Seq<u8>),
    Body(Seq<u8>),
    Httpbin(Seq<u8>),
}

impl View for Do {
    type V = DoView;

    open spec fn view(&self) -> DoView {
        match self {
            Do::Fail => DoView::Fail,
            Do::Redirect(loc) => DoView::Redirect(loc@),
            Do::Body(content) => DoView::Body(content@),
            Do::Httpbin(path) => DoView::Httpbin(path@),
        }
    }
}

/// The view of a classification result.
pub open spec fn opt_do_view(a: Option<Do>) -> Option<DoView> {
    match a {
        Option::None => Option::None,
        Option::Some(d) => Option::Some(d@),
    }
}

/// The bytes of the trigger header name `x-fail`.
pub open spec fn fail_name() -> Seq<u8> {
    seq![120u8, 45, 102, 97, 105, 108]
}

/// The bytes of the trigger header name `x-redirect`.
pub open spec fn redirect_name() -> Seq<u8> {
    seq![120u8, 45, 114, 101, 100, 105, 114, 101, 99, 116]
}

/// The bytes of the trigger header name `x-body`.
pub open spec fn body_name() -> Seq<u8> {
    seq![120u8, 45, 98, 111, 100, 121]
}

/// The bytes of the trigger header name `x-httpbin`.
pub open spec fn httpbin_name() -> Seq<u8> {
    seq![120u8, 45, 104, 116, 116, 112, 98, 105, 110]
}

/// Whether a header name is one of the four recognized triggers, compared
/// byte for byte, with no case normalization.
pub open spec fn is_trigger(name: Seq<u8>) -> bool {
    name == fail_name() || name == redirect_name() || name == body_name() || name
        == httpbin_name()
}

/// The action a trigger header denotes, its value carried verbatim.
pub open spec fn action_of(name: Seq<u8>, value: Seq<u8>) -> DoView {
    if name == fail_name() {
        DoView::Fail
    } else if name == redirect_name() {
        DoView::Redirect(value)
    } else if name == body_name() {
        DoView::Body(value)
    } else {
        DoView::Httpbin(value)
    }
}

/// The classification of an ordered header list: the action of the last
/// trigger header, or nothing when no trigger occurs.
pub open spec fn classify(headers: Seq<(Seq<u8>, Seq<u8>)>) -> Option<DoView>
    decreases headers.len(),
{
    if headers.len() == 0 {
        Option::None
    } else if is_trigger(headers.last().0) {
        Option::Some(action_of(headers.last().0, headers.last().1))
    } else {
        classify(headers.drop_last())
    }
}

/// The view of a delivered header list.
pub open spec fn headers_view(headers: Seq<(Vec<u8>, Vec<u8>)>) -> Seq<(Seq<u8>, Seq<u8>)> {
    headers.map_values(|p: (Vec<u8>, Vec<u8>)| (p.0@, p.1@))
}

/// A header list whose only trigger stands at `i` classifies to that
/// trigger's action, its value verbatim.
pub proof fn lemma_single_trigger(headers: Seq<(Seq<u8>, Seq<u8>)>, i: int)
    requires
        0 <= i < headers.len(),
        is_trigger(headers[i].0),
        forall|j: int| 0 <= j < headers.len() && j != i ==> !is_trigger(#[trigger] headers[j].0),
    ensures
        classify(headers) == Option::Some(action_of(headers[i].0, headers[i].1)),
{
    lemma_last_trigger_wins(headers, i);
}

/// A trigger header with no later trigger decides the classification:
/// the last match wins.
pub proof fn lemma_last_trigger_wins(headers: Seq<(Seq<u8>, Seq<u8>)>, j: int)
    requires
        0 <= j < headers.len(),
        is_trigger(headers[j].0),
        forall|k: int| j < k < headers.len() ==> !is_trigger(#[trigger] headers[k].0),
    ensures
        classify(headers) == Option::Some(action_of(headers[j].0, headers[j].1)),
    decreases headers.len(),
{
    if j == headers.len() - 1 {
    } else {
        assert(!is_trigger(headers.last().0));
        lemma_last_trigger_wins(headers.drop_last(), j);
    }
}

fn fail_trigger() -> (r: Vec<u8>)
    ensures
        r@ == fail_name(),
{
    let v: Vec<u8> = vec![120u8, 45, 102, 97, 105, 108];
    proof {
        assert(v@ =~= fail_name());
    }
    v
}

fn redirect_trigger() -> (r: Vec<u8>)
    ensures
        r@ == redirect_name(),
{
    let v: Vec<u8> = vec![120u8, 45, 114, 101, 100, 105, 114, 101, 99, 116];
    proof {
        assert(v@ =~= redirect_name());
    }
    v
}

fn body_trigger() -> (r: Vec<u8>)
    ensures
        r@ == body_name(),
{
    let v: Vec<u8> = vec![120u8, 45, 98, 111, 100, 121];
    proof {
        assert(v@ =~= body_name());
    }
    v
}

fn httpbin_trigger() -> (r: Vec<u8>)
    ensures
        r@ == httpbin_name(),
{
    let v: Vec<u8> = vec![120u8, 45, 104, 116, 116, 112, 98, 105, 110];
    proof {
        assert(v@ =~= httpbin_name());
    }
    v
}

/// Classifies one request's headers: the last recognized trigger header
/// decides, and its value is carried verbatim.
pub fn classify_headers(headers: &Vec<(Vec<u8>, Vec<u8>)>) -> (r: Option<Do>)
    ensures
        opt_do_view(r) == classify(headers_view(headers@)),
{
    let fail = fail_trigger();
    let redirect = redirect_trigger();
    let body = body_trigger();
    let httpbin = httpbin_trigger();
    let mut action: Option<Do> = None;
    let mut i: usize = 0;
    while i < headers.len()
        invariant
            i <= headers.len(),
            opt_do_view(action) == classify(headers_view(headers@).take(i as int)),
            fail@ == fail_name(),
            redirect@ == redirect_name(),
            body@ == body_name(),
            httpbin@ == httpbin_name(),
        decreases headers.len() - i,
    {
        let ghost pre = headers_view(headers@).take(i as int);
        let name = &headers[i].0;
        let value = &headers[i].1;
        if crate::bytes::bytes_eq(name, &fail) {
            action = Some(Do::Fail);
        } else if crate::bytes::bytes_eq(name, &redirect) {
            action = Some(Do::Redirect(copy_bytes(value)));
        } else if crate::bytes::bytes_eq(name, &body) {
            action = Some(Do::Body(copy_bytes(value)));
        } else if crate::bytes::bytes_eq(name, &httpbin) {
            action = Some(Do::Httpbin(copy_bytes(value)));
        }
        i = i + 1;
        proof {
            let cur = headers_view(headers@).take(i as int);
            assert(cur.drop_last() =~= pre);
            assert(cur.last() == (headers@[i - 1].0@, headers@[i - 1].1@));
        }
    }
    proof {
        assert(headers_view(headers@).take(headers@.len() as int) =~= headers_view(headers@));
    }
    action
}

/// The bytes of the counter key namespace `envoy.playground.request_ct.`.
pub open spec fn key_prefix_spec() -> Seq<u8> {
    seq![101u8, 110, 118, 111, 121, 46, 112, 108, 97, 121, 103, 114, 111, 117, 110, 100, 46, 114,
        101, 113, 117, 101, 115, 116, 95, 99, 116, 46]
}

/// The bytes of the kind name `Do.Fail`.
pub open spec fn fail_kind() -> Seq<u8> {
    seq![68u8, 111, 46, 70, 97, 105, 108]
}

/// The bytes of the kind name `Do.Redirect`.
pub open spec fn redirect_kind() -> Seq<u8> {
    seq![68u8, 111, 46, 82, 101, 100, 105, 114, 101, 99, 116]
}

/// The bytes of the kind name `Do.Body`.
pub open spec fn body_kind() -> Seq<u8> {
    seq![68u8, 111, 46, 66, 111, 100, 121]
}

/// The bytes of the kind name `Do.Httpbin`.
pub open spec fn httpbin_kind() -> Seq<u8> {
    seq![68u8, 111, 46, 72, 116, 116, 112, 98, 105, 110]
}

/// The bytes of the kind name `GenericRequest`.
pub open spec fn generic_kind() -> Seq<u8> {
    seq![71u8, 101, 110, 101, 114, 105, 99, 82, 101, 113, 117, 101, 115, 116]
}

/// The kind name of a classification result: the action's kind, never its
/// payload, and `GenericRequest` when nothing matched.
pub open spec fn kind_of(a: Option<DoView>) -> Seq<u8> {
    match a {
        Option::None => generic_kind(),
        Option::Some(DoView::Fail) => fail_kind(),
        Option::Some(DoView::Redirect(_)) => redirect_kind(),
        Option::Some(DoView::Body(_)) => body_kind(),
        Option::Some(DoView::Httpbin(_)) => httpbin_kind(),
    }
}

/// The counter bucket key of a classification result.
pub open spec fn key_of(a: Option<DoView>) -> Seq<u8> {
    key_prefix_spec() + kind_of(a)
}

/// The bucket key names the action's kind alone: actions of one kind with
/// different payloads land in the same counter, deliberately.
pub proof fn lemma_key_ignores_payload(p1: Seq<u8>, p2: Seq<u8>)
    ensures
        key_of(Option::Some(DoView::Redirect(p1))) == key_of(Option::Some(DoView::Redirect(p2))),
        key_of(Option::Some(DoView::Body(p1))) == key_of(Option::Some(DoView::Body(p2))),
        key_of(Option::Some(DoView::Httpbin(p1))) == key_of(Option::Some(DoView::Httpbin(p2))),
{
}

impl Do {
    /// The kind name of this action, as the log lines print it.
    pub fn kind_str(&self) -> (r: Vec<u8>)
        ensures
            r@ == kind_of(Option::Some(self@)),
    {
        match self {
            Do::Fail => {
                let v: Vec<u8> = vec![68u8, 111, 46, 70, 97, 105, 108];
                proof {
                    assert(v@ =~= fail_kind());
                }
                v
            },
            Do::Redirect(_) => {
                let v: Vec<u8> = vec![68u8, 111, 46, 82, 101, 100, 105, 114, 101, 99, 116];
                proof {
                    assert(v@ =~= redirect_kind());
                }
                v
            },
            Do::Body(_) => {
                let v: Vec<u8> = vec![68u8, 111, 46, 66, 111, 100, 121];
                proof {
                    assert(v@ =~= body_kind());
                }
                v
            },
            Do::Httpbin(_) => {
                let v: Vec<u8> = vec![68u8, 111, 46, 72, 116, 116, 112, 98, 105, 110];
                proof {
                    assert(v@ =~= httpbin_kind());
                }
                v
            },
        }
    }
}

/// The counter bucket key for a classification result.
pub fn get_key(action: &Option<Do>) -> (r: Vec<u8>)
    ensures
        r@ == key_of(opt_do_view(*action)),
{
    let mut v: Vec<u8> = vec![101u8, 110, 118, 111, 121, 46, 112, 108, 97, 121, 103, 114, 111,
        117, 110, 100, 46, 114, 101, 113, 117, 101, 115, 116, 95, 99, 116, 46];
    proof {
        assert(v@ =~= key_prefix_spec());
    }
    match action {
        Some(a) => {
            let suffix = a.kind_str();
            push_all(&mut v, &suffix);
        },
        None => {
            let suffix: Vec<u8> = vec![71u8, 101, 110, 101, 114, 105, 99, 82, 101, 113, 117, 101,
                115, 116];
            proof {
                assert(suffix@ =~= generic_kind());
            }
            push_all(&mut v, &suffix);
        },
    }
    v
}

} // verus!
