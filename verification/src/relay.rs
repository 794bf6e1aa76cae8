//! The relay's decision logic: classifying the outcome of the HTTP exchange
//! and producing either the parsed reply or a classified error.

use vstd::prelude::*;
use vstd::string::*;
use crate::json::spec_parse_reply;
use crate::json::spec_request_body;
use crate::json::encode_request_body;
use crate::text::spec_decimal;
use crate::text::chars_to_string;
use crate::text::push_decimal;

verus! {

/// The record sent to the remote service.
#[derive(Debug)]
pub struct AIRequest {
    pub message: String,
}

/// The record the remote service answers with.
#[derive(Debug)]
pub struct AIResponse {
    pub reply: String,
}

/// The three kinds of failure the relay reports.
#[derive(Clone, Copy, PartialEq, Eq, Structural, Debug)]
pub enum RelayErrorKind {
    /// The request never completed: connectivity, name resolution, a
    /// malformed URL.
    Transport,
    /// A response arrived, but its status code is outside the success range.
    Status,
    /// A response arrived with a success status, but its body is not the
    /// expected reply document.
    Parse,
}

/// A classified failure, with a human-readable description.
#[derive(Debug)]
pub struct RelayError {
    pub kind: RelayErrorKind,
    pub text: String,
}

/// What came back from one HTTP POST, as the transport saw it.
#[derive(Debug)]
pub enum HttpOutcome {
    /// The request never completed.
    TransportFailure { detail: String },
    /// A response arrived, but its body could not be read.
    BodyUnreadable { status: u16, detail: String },
    /// A response arrived whole.
    Response { status: u16, body: String },
}

/// True exactly for HTTP status codes in the success range.
pub open spec fn spec_status_is_success(status: u16) -> bool {
    200 <= status < 300
}

/// Decides whether an HTTP status code counts as success.
pub fn is_success_status(status: u16) -> (r: bool)
    ensures
        r == spec_status_is_success(status),
{
    200 <= status && status < 300
}

/// The text reported for a transport failure.
pub open spec fn spec_transport_text(detail: Seq<char>) -> Seq<char> {
    "发送请求失败: "@ + detail
}

/// The text reported for a non-success status code.
pub open spec fn spec_status_text(status: u16) -> Seq<char> {
    "API请求失败: 状态码 "@ + spec_decimal(status as nat)
}

/// The text reported for a body that is not the expected reply document.
pub open spec fn spec_parse_text(detail: Seq<char>) -> Seq<char> {
    "解析响应失败: "@ + detail
}

/// The detail used when a body read fine but has the wrong shape.
pub open spec fn spec_shape_detail() -> Seq<char> {
    "body is not a reply object"@
}

fn transport_error(detail: &String) -> (e: RelayError)
    ensures
        e.kind == RelayErrorKind::Transport,
        e.text@ == spec_transport_text(detail@),
{
    let mut text = String::from_str("发送请求失败: ");
    text.append(detail.as_str());
    RelayError { kind: RelayErrorKind::Transport, text }
}

fn status_error(status: u16) -> (e: RelayError)
    ensures
        e.kind == RelayErrorKind::Status,
        e.text@ == spec_status_text(status),
{
    let mut digits: Vec<char> = Vec::new();
    push_decimal(status, &mut digits);
    assert(digits@ =~= spec_decimal(status as nat));
    let rendered = chars_to_string(&digits);
    let mut text = String::from_str("API请求失败: 状态码 ");
    text.append(rendered.as_str());
    RelayError { kind: RelayErrorKind::Status, text }
}

fn parse_error(detail: &str) -> (e: RelayError)
    ensures
        e.kind == RelayErrorKind::Parse,
        e.text@ == spec_parse_text(detail@),
{
    let mut text = String::from_str("解析响应失败: ");
    text.append(detail);
    RelayError { kind: RelayErrorKind::Parse, text }
}

/// Builds the request record for a message.
pub fn build_request(message: String) -> (r: AIRequest)
    ensures
        r.message == message,
{
    AIRequest { message }
}

/// Encodes the POST body carrying a request's message.
pub fn request_body(request: &AIRequest) -> (r: String)
    ensures
        r@ == spec_request_body(request.message@),
{
    encode_request_body(request.message.as_str())
}

/// What the relay must answer for a given outcome of the HTTP exchange:
/// a transport failure is reported as such; a response with a status
/// outside the success range is reported with that status code; a success
/// response yields either the reply its body carries or a parse failure.
pub open spec fn spec_relay_post(outcome: HttpOutcome, r: Result<AIResponse, RelayError>) -> bool {
    match outcome {
        HttpOutcome::TransportFailure { detail } => {
            &&& r is Err
            &&& r->Err_0.kind == RelayErrorKind::Transport
            &&& r->Err_0.text@ == spec_transport_text(detail@)
        },
        HttpOutcome::BodyUnreadable { status, detail } => {
            if !spec_status_is_success(status) {
                &&& r is Err
                &&& r->Err_0.kind == RelayErrorKind::Status
                &&& r->Err_0.text@ == spec_status_text(status)
            } else {
                &&& r is Err
                &&& r->Err_0.kind == RelayErrorKind::Parse
                &&& r->Err_0.text@ == spec_parse_text(detail@)
            }
        },
        HttpOutcome::Response { status, body } => {
            if !spec_status_is_success(status) {
                &&& r is Err
                &&& r->Err_0.kind == RelayErrorKind::Status
                &&& r->Err_0.text@ == spec_status_text(status)
            } else {
                match spec_parse_reply(body@) {
                    Some(rep) => r is Ok && r->Ok_0.reply@ == rep,
                    None => {
                        &&& r is Err
                        &&& r->Err_0.kind == RelayErrorKind::Parse
                        &&& r->Err_0.text@ == spec_parse_text(spec_shape_detail())
                    },
                }
            }
        },
    }
}

/// Interprets what came back from one HTTP POST, as `spec_relay_post`
/// demands.
pub fn relay_outcome(outcome: &HttpOutcome) -> (r: Result<AIResponse, RelayError>)
    ensures
        spec_relay_post(*outcome, r),
{
    match outcome {
        HttpOutcome::TransportFailure { detail } => Err(transport_error(detail)),
        HttpOutcome::BodyUnreadable { status, detail } => {
            if !is_success_status(*status) {
                Err(status_error(*status))
            } else {
                Err(parse_error(detail.as_str()))
            }
        },
        HttpOutcome::Response { status, body } => {
            if !is_success_status(*status) {
                Err(status_error(*status))
            } else {
                match crate::json::parse_reply(body.as_str()) {
                    Some(reply) => Ok(AIResponse { reply }),
                    None => Err(parse_error("body is not a reply object")),
                }
            }
        },
    }
}

/// Law: the text reported for a non-success status carries the exact
/// decimal rendering of the status code served: it is the text's suffix,
/// after the fixed introduction.
pub proof fn lemma_status_text_shows_code(status: u16)
    ensures
        spec_status_text(status).len() > 13,
        spec_status_text(status).skip(13) == spec_decimal(status as nat),
{
    reveal_strlit("API请求失败: 状态码 ");
    assert("API请求失败: 状态码 "@.len() == 13);
    assert(spec_decimal(status as nat).len() >= 1);
    assert(spec_status_text(status).skip(13) =~= spec_decimal(status as nat));
}

/// Law: against an endpoint that answers a success status with a
/// well-formed reply document, the relay returns exactly the reply the
/// document carries — for every reply string, the empty one included.
pub proof fn lemma_relay_returns_served_reply(
    status: u16,
    body: String,
    reply: Seq<char>,
    r: Result<AIResponse, RelayError>,
)
    requires
        spec_status_is_success(status),
        body@ == crate::json::spec_reply_body(reply),
        spec_relay_post((HttpOutcome::Response { status, body }), r),
    ensures
        r is Ok,
        r->Ok_0.reply@ == reply,
{
    crate::json::lemma_reply_round_trip(reply);
}

/// Law: a response whose status lies outside the success range is reported
/// as a status failure, whatever its body holds, and the text's suffix is
/// the exact decimal rendering of the status code served.
pub proof fn lemma_relay_reports_status_code(
    status: u16,
    body: String,
    r: Result<AIResponse, RelayError>,
)
    requires
        !spec_status_is_success(status),
        spec_relay_post((HttpOutcome::Response { status, body }), r),
    ensures
        r is Err,
        r->Err_0.kind == RelayErrorKind::Status,
        r->Err_0.text@.skip(13) == spec_decimal(status as nat),
{
    lemma_status_text_shows_code(status);
}

/// Law: when the request never completes, the relay reports a transport
/// failure carrying the transport's own description.
pub proof fn lemma_relay_reports_transport_failure(
    detail: String,
    r: Result<AIResponse, RelayError>,
)
    requires
        spec_relay_post((HttpOutcome::TransportFailure { detail }), r),
    ensures
        r is Err,
        r->Err_0.kind == RelayErrorKind::Transport,
        r->Err_0.text@ == spec_transport_text(detail@),
{
}

/// Law: a success response whose body is not the reply document — valid
/// JSON of another shape included — is reported as a parse failure.
pub proof fn lemma_relay_rejects_malformed_body(
    status: u16,
    body: String,
    r: Result<AIResponse, RelayError>,
)
    requires
        spec_status_is_success(status),
        spec_parse_reply(body@) is None,
        spec_relay_post((HttpOutcome::Response { status, body }), r),
    ensures
        r is Err,
        r->Err_0.kind == RelayErrorKind::Parse,
{
}

/// Law: the outcome of the HTTP exchange alone determines the relay's
/// answer. Two answers to the same outcome agree on success, on the reply,
/// and on the kind and text of the error: calls are independent, and no
/// state leaks between them.
pub proof fn lemma_relay_deterministic(
    outcome: HttpOutcome,
    r1: Result<AIResponse, RelayError>,
    r2: Result<AIResponse, RelayError>,
)
    requires
        spec_relay_post(outcome, r1),
        spec_relay_post(outcome, r2),
    ensures
        r1 is Ok <==> r2 is Ok,
        r1 is Ok ==> r1->Ok_0.reply@ == r2->Ok_0.reply@,
        r1 is Err ==> r1->Err_0.kind == r2->Err_0.kind,
        r1 is Err ==> r1->Err_0.text@ == r2->Err_0.text@,
{
}

} // verus!
