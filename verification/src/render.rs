//! The response for a page render: a streamed page with its headers on
//! success, and a plain-text reply for each kind of failure.

use crate::headers::header_entries;
use crate::headers::merged;
use crate::headers::no_headers;
use crate::headers::overlaid;
use crate::headers::overlay_headers;
use crate::headers::static_name;
use crate::headers::text_value;
use crate::headers::try_insert;
use crate::headers::with_replaced;
use crate::headers::HeaderLimitReached;
use crate::headers::HeaderModel;
use crate::response::STATUS_INTERNAL_SERVER_ERROR;
use crate::text::ascii_bytes;
use http::HeaderMap;
use http::StatusCode;
use vstd::prelude::*;
use vstd::string::StringExecFns;

verus! {

/// What the renderer made of one request.
#[derive(Debug)]
pub enum RenderOutcome {
    /// A page: its status, the renderer's headers, and the headers that its
    /// freshness wrote. The streamed body is kept by the caller.
    Rendered { status: u16, headers: HeaderMap, freshness: HeaderMap },
    /// The incremental renderer could not produce the page.
    IncrementalFailure(String),
    /// The renderer asks for this status, with this body if it gave one.
    HttpFailure { status: u16, message: Option<String> },
}

/// The body of a reply.
#[derive(Debug)]
pub enum ReplyBody {
    /// The renderer's stream, handed on as it is.
    Stream,
    /// This text.
    Text(String),
}

/// The reply to a render request.
#[derive(Debug)]
pub struct RenderReply {
    pub status: u16,
    pub headers: HeaderMap,
    pub body: ReplyBody,
    /// The entry to record at error severity, if the render failed that way.
    pub error_log: Option<String>,
}

impl RenderReply {
    /// The text of the body, where the body is text.
    pub open spec fn body_text(self) -> Option<Seq<char>> {
        match self.body {
            ReplyBody::Stream => None,
            ReplyBody::Text(text) => Some(text@),
        }
    }

    /// The text of the error entry, where there is one.
    pub open spec fn log_text(self) -> Option<Seq<char>> {
        match self.error_log {
            Some(entry) => Some(entry@),
            None => None,
        }
    }
}

/// The reason phrase that `StatusCode::canonical_reason` gives for a status
/// code, if it has one for it.
pub uninterp spec fn canonical_reason_text(status: u16) -> Option<Seq<char>>;

/// A number that is a status code: three digits.
pub open spec fn is_status(code: u16) -> bool {
    100 <= code <= 999
}

/// The view of a piece of static text that may be absent.
pub open spec fn text_of(text: Option<&'static str>) -> Option<Seq<char>> {
    match text {
        Some(t) => Some(t@),
        None => None,
    }
}

/// The view of a string that may be absent.
pub open spec fn string_of(text: Option<String>) -> Option<Seq<char>> {
    match text {
        Some(t) => Some(t@),
        None => None,
    }
}

/// The standard reason phrase of a status, if the number is a status code and
/// has one.
pub open spec fn reason_phrase_text(status: u16) -> Option<Seq<char>> {
    if is_status(status) {
        canonical_reason_text(status)
    } else {
        None
    }
}

/// The body of an explicit failure: the renderer's own message where it gave
/// one, else the reason phrase of the status, else a general sentence.
pub open spec fn failure_text(message: Option<Seq<char>>, reason: Option<Seq<char>>) -> Seq<char> {
    match message {
        Some(text) => text,
        None => match reason {
            Some(phrase) => phrase,
            None => "An unknown error occurred"@,
        },
    }
}

/// The headers of a rendered page: the content type of an HTML page, after it
/// every header that the freshness wrote, each name with all its values in
/// their order, and laid over both the renderer's own headers. A name that the
/// renderer has keeps only the renderer's newest value.
pub open spec fn page_headers(renderer: HeaderModel, freshness: HeaderModel) -> HeaderModel {
    overlaid(
        merged(
            with_replaced(no_headers(), "content-type"@, ascii_bytes("text/html; charset=utf-8"@)),
            freshness,
        ),
        renderer,
    )
}

/// `StatusCode::canonical_reason`, asked of the status code that
/// `StatusCode::from_u16` makes of the number: assumed to give the same phrase
/// for the same status code, whenever it is asked.
#[verifier::external_body]
pub(crate) fn canonical_reason(status: u16) -> (reason: Option<&'static str>)
    requires
        is_status(status),
    ensures
        text_of(reason) == canonical_reason_text(status),
{
    match StatusCode::from_u16(status) {
        Ok(code) => code.canonical_reason(),
        Err(_) => None,
    }
}

/// The standard reason phrase of a status; none where the number is no status
/// code or has no such phrase.
pub fn reason_phrase(status: u16) -> (reason: Option<&'static str>)
    ensures
        text_of(reason) == reason_phrase_text(status),
{
    if 100 <= status && status <= 999 {
        canonical_reason(status)
    } else {
        None
    }
}

/// The body of an explicit failure, from the renderer's message and the
/// reason phrase of the status.
pub fn failure_body(message: Option<String>, reason: Option<&'static str>) -> (body: String)
    ensures
        body@ == failure_text(string_of(message), text_of(reason)),
{
    match message {
        Some(text) => text,
        None => match reason {
            Some(phrase) => String::from_str(phrase),
            None => String::from_str("An unknown error occurred"),
        },
    }
}

/// The reply for a failure of the incremental renderer: status 500, the
/// failure's text as the body, and one entry for the error log.
pub fn incremental_failure_reply(failure: String) -> (reply: RenderReply)
    ensures
        reply.status == STATUS_INTERNAL_SERVER_ERROR,
        header_entries(reply.headers) == no_headers(),
        reply.body_text() == Some(failure@),
        reply.log_text() == Some("Failed to render page: "@ + failure@),
{
    let entry = String::from_str("Failed to render page: ").concat(failure.as_str());
    RenderReply {
        status: STATUS_INTERNAL_SERVER_ERROR,
        headers: HeaderMap::new(),
        body: ReplyBody::Text(failure),
        error_log: Some(entry),
    }
}

/// The reply for an explicit failure: the status as it was given, and the
/// message, the reason phrase or the general sentence as the body.
pub fn http_failure_reply(status: u16, message: Option<String>) -> (reply: RenderReply)
    ensures
        reply.status == status,
        header_entries(reply.headers) == no_headers(),
        reply.body_text() == Some(failure_text(string_of(message), reason_phrase_text(status))),
        reply.error_log is None,
{
    let body = failure_body(message, reason_phrase(status));
    RenderReply { status, headers: HeaderMap::new(), body: ReplyBody::Text(body), error_log: None }
}

/// The headers of a page fit: the renderer's names and those that the
/// freshness wrote, and the content type beside them, are fewer than
/// `HEADER_ROOM`.
pub open spec fn page_fits(renderer: HeaderModel, freshness: HeaderModel) -> bool {
    crate::headers::name_count(renderer) + crate::headers::name_count(freshness) + 1
        < crate::headers::HEADER_ROOM
}

/// A reply is owed for what the renderer made: always for a failure, and for
/// a page wherever its headers fit.
pub open spec fn reply_owed(outcome: RenderOutcome) -> bool {
    match outcome {
        RenderOutcome::Rendered { status, headers, freshness } => page_fits(
            header_entries(headers),
            header_entries(freshness),
        ),
        _ => true,
    }
}

/// The reply for a rendered page: its status, its headers, the stream as body.
/// Succeeds wherever the page's headers fit, see [`page_fits`].
pub fn rendered_reply(status: u16, headers: &HeaderMap, freshness: &HeaderMap) -> (outcome: Result<
    RenderReply,
    HeaderLimitReached,
>)
    ensures
        outcome matches Ok(reply) ==> {
            &&& reply.status == status
            &&& header_entries(reply.headers) == page_headers(
                header_entries(*headers),
                header_entries(*freshness),
            )
            &&& reply.body is Stream
            &&& reply.error_log is None
        },
        page_fits(header_entries(*headers), header_entries(*freshness)) ==> outcome is Ok,
{
    proof {
        reveal_strlit("content-type");
        reveal_strlit("text/html; charset=utf-8");
    }
    let content_type = static_name("content-type");
    let html = text_value("text/html; charset=utf-8");
    let mut page = HeaderMap::new();
    let attempt = try_insert(&mut page, &content_type, &html);
    let started = crate::headers::after_write(page, attempt);
    let fresh = match started {
        Ok(page) => crate::headers::append_headers(page, freshness),
        Err(limit) => Err(limit),
    };
    let layered = match fresh {
        Ok(page) => overlay_headers(page, headers),
        Err(limit) => Err(limit),
    };
    page_reply(status, layered)
}

/// Whether `reply` is the reply that `outcome` calls for.
pub open spec fn answers(reply: RenderReply, outcome: RenderOutcome) -> bool {
    match outcome {
        RenderOutcome::Rendered { status, headers, freshness } => {
            &&& reply.status == status
            &&& header_entries(reply.headers) == page_headers(
                header_entries(headers),
                header_entries(freshness),
            )
            &&& reply.body is Stream
            &&& reply.error_log is None
        },
        RenderOutcome::IncrementalFailure(failure) => {
            &&& reply.status == STATUS_INTERNAL_SERVER_ERROR
            &&& header_entries(reply.headers) == no_headers()
            &&& reply.body_text() == Some(failure@)
            &&& reply.log_text() == Some("Failed to render page: "@ + failure@)
        },
        RenderOutcome::HttpFailure { status, message } => {
            &&& reply.status == status
            &&& header_entries(reply.headers) == no_headers()
            &&& reply.body_text() == Some(
                failure_text(string_of(message), reason_phrase_text(status)),
            )
            &&& reply.error_log is None
        },
    }
}

/// The reply to a render request, from what the renderer made of it. A failure
/// of the renderer always gets its reply; a page gets one wherever its headers
/// fit.
pub fn render_reply(outcome: RenderOutcome) -> (made: Result<RenderReply, HeaderLimitReached>)
    ensures
        made matches Ok(reply) ==> answers(reply, outcome),
        reply_owed(outcome) ==> made is Ok,
{
    match outcome {
        RenderOutcome::Rendered { status, headers, freshness } => rendered_reply(
            status,
            &headers,
            &freshness,
        ),
        RenderOutcome::IncrementalFailure(failure) => Ok(incremental_failure_reply(failure)),
        RenderOutcome::HttpFailure { status, message } => Ok(http_failure_reply(status, message)),
    }
}

/// The reply for a rendered page, from its status and from what came of laying
/// out its headers: where the headers were laid out, a reply with them and with
/// the stream as its body; where they did not fit, the report of that.
pub fn page_reply(status: u16, headers: Result<HeaderMap, HeaderLimitReached>) -> (made: Result<
    RenderReply,
    HeaderLimitReached,
>)
    ensures
        headers is Err ==> made is Err,
        headers matches Ok(page) ==> made matches Ok(reply) && reply.status == status
            && reply.headers == page && reply.body is Stream && reply.error_log is None,
{
    match headers {
        Ok(page) => Ok(
            RenderReply { status, headers: page, body: ReplyBody::Stream, error_log: None },
        ),
        Err(limit) => Err(limit),
    }
}

} // verus!
