//! The response of a server function on its way out: what the handler's
//! request context gathered is merged into the response headers, and a plain
//! HTML form submission is sent back to the page it came from.
//!
//! The order is fixed: the headers of the context are merged first, the
//! redirect is decided on the merged response.

use crate::headers::first_of;
use crate::headers::first_value;
use crate::headers::header_entries;
use crate::headers::header_value_bytes;
use crate::headers::is_visible_text;
use crate::headers::merged;
use crate::headers::no_headers;
use crate::headers::static_name;
use crate::headers::try_insert;
use crate::headers::with_replaced;
use crate::headers::after_write;
use crate::headers::append_headers;
use crate::headers::name_count;
use crate::headers::HEADER_ROOM;
use crate::headers::HeaderLimitReached;
use crate::headers::HeaderModel;
use crate::response::ResponseHead;
use crate::response::TextResponse;
use crate::response::STATUS_FOUND;
use crate::response::STATUS_INTERNAL_SERVER_ERROR;
use crate::text::ascii_bytes;
use crate::text::bytes_of_ascii;
use crate::text::contains_bytes;
use crate::text::contains_run;
use http::HeaderMap;
use http::HeaderValue;
use vstd::prelude::*;
use vstd::string::StringExecFns;

verus! {

/// What is kept of a request for the redirect decision, taken before the
/// handler consumes the request.
#[derive(Debug)]
pub struct RedirectHint {
    /// The request accepts HTML.
    pub accepts_html: bool,
    /// The page the request came from, if it said so.
    pub referrer: Option<HeaderValue>,
}

impl RedirectHint {
    /// The bytes of the referrer, if there is one.
    pub open spec fn referrer_bytes(self) -> Option<Seq<u8>> {
        match self.referrer {
            Some(value) => Some(header_value_bytes(value)),
            None => None,
        }
    }
}

/// The request accepts HTML: the oldest value of its `Accept` header is
/// visible ASCII and names `text/html` somewhere.
pub open spec fn wants_html(request: HeaderModel) -> bool {
    match first_of(request, "accept"@) {
        Some(value) => is_visible_text(value) && contains_run(value, ascii_bytes("text/html"@)),
        None => false,
    }
}

/// The redirect is due: the request accepts HTML, it named a referrer, and the
/// response has no `Location` header of its own.
pub open spec fn redirect_fires(hint: RedirectHint, response: HeaderModel) -> bool {
    &&& hint.accepts_html
    &&& hint.referrer is Some
    &&& !response.dom().contains("location"@)
}

/// Status and headers after the redirect decision: where the redirect is due,
/// status 302 and the referrer as the only `Location`; else both as they were.
pub open spec fn redirected(status: u16, response: HeaderModel, hint: RedirectHint) -> (
    u16,
    HeaderModel,
) {
    if redirect_fires(hint, response) {
        (STATUS_FOUND, with_replaced(response, "location"@, hint.referrer_bytes().unwrap()))
    } else {
        (status, response)
    }
}

/// The headers that a request context gathered, if it gathered any.
pub open spec fn context_model(context: Option<HeaderMap>) -> HeaderModel {
    match context {
        Some(headers) => header_entries(headers),
        None => no_headers(),
    }
}

/// The redirect is due exactly when three things hold: the request accepts
/// HTML, the request names a referrer, and the response has no `Location`.
/// Then the status becomes 302 and the referrer the only `Location`; in every
/// other case status and headers stay as they are.
pub proof fn law_redirect_conditions(
    request: HeaderModel,
    hint: RedirectHint,
    status: u16,
    response: HeaderModel,
)
    requires
        hint.accepts_html == wants_html(request),
        hint.referrer_bytes() == first_of(request, "referer"@),
    ensures
        redirect_fires(hint, response) <==> wants_html(request) && request.dom().contains(
            "referer"@,
        ) && !response.dom().contains("location"@),
        redirect_fires(hint, response) ==> redirected(status, response, hint) == (
            STATUS_FOUND,
            with_replaced(response, "location"@, first_of(request, "referer"@).unwrap()),
        ),
        !redirect_fires(hint, response) ==> redirected(status, response, hint) == (status, response),
{
}

/// Reads from the request's headers what the redirect decision needs.
pub fn redirect_hint(request: &HeaderMap) -> (hint: RedirectHint)
    ensures
        hint.accepts_html == wants_html(header_entries(*request)),
        hint.referrer_bytes() == first_of(header_entries(*request), "referer"@),
{
    proof {
        reveal_strlit("accept");
        reveal_strlit("referer");
        reveal_strlit("text/html");
    }
    let accept = static_name("accept");
    let referer = static_name("referer");
    let accepts_html = match first_value(request, &accept) {
        Some(value) => match value.to_str() {
            Ok(text) => contains_bytes(text.as_bytes(), bytes_of_ascii("text/html")),
            Err(_) => false,
        },
        None => false,
    };
    let referrer = match first_value(request, &referer) {
        Some(value) => Some(value.clone()),
        None => None,
    };
    RedirectHint { accepts_html, referrer }
}

/// Merges the headers that the request context gathered into the response:
/// they come after the values that the handler set under the same name, and
/// replace none of them. Without such headers the response stays as it is.
///
/// Succeeds wherever response and context together have fewer than
/// [`HEADER_ROOM`] header names.
pub fn merge_context_headers(head: ResponseHead, context: Option<HeaderMap>) -> (outcome: Result<
    ResponseHead,
    HeaderLimitReached,
>)
    ensures
        outcome matches Ok(out) ==> out.status == head.status && header_entries(out.headers)
            == merged(header_entries(head.headers), context_model(context)),
        outcome matches Ok(out) ==> name_count(header_entries(out.headers)) <= name_count(
            header_entries(head.headers),
        ) + name_count(context_model(context)),
        context is None ==> outcome == Ok::<ResponseHead, HeaderLimitReached>(head),
        context_model(context) == no_headers() ==> outcome is Ok,
        name_count(header_entries(head.headers)) + name_count(context_model(context))
            < HEADER_ROOM ==> outcome is Ok,
{
    match context {
        Some(extra) => {
            let status = head.status;
            match append_headers(head.headers, &extra) {
                Ok(headers) => Ok(ResponseHead { status, headers }),
                Err(limit) => Err(limit),
            }
        },
        None => {
            assert(merged(header_entries(head.headers), no_headers()) =~~= header_entries(
                head.headers,
            ));
            Ok(head)
        },
    }
}

/// The response of a redirect, from what came of writing its `Location`:
/// status 302 over the headers that took it, or the report that they did not.
pub fn found_response(headers: Result<HeaderMap, HeaderLimitReached>) -> (outcome: Result<
    ResponseHead,
    HeaderLimitReached,
>)
    ensures
        headers is Err ==> outcome is Err,
        headers matches Ok(written) ==> outcome == Ok::<ResponseHead, HeaderLimitReached>(
            (ResponseHead { status: STATUS_FOUND, headers: written }),
        ),
{
    match headers {
        Ok(written) => Ok(ResponseHead { status: STATUS_FOUND, headers: written }),
        Err(limit) => Err(limit),
    }
}

/// Sends the client back to the referring page where the redirect is due:
/// status 302, and the referrer as the `Location`. Otherwise the response stays
/// as it is.
///
/// Succeeds wherever the response has fewer than [`HEADER_ROOM`] header names,
/// and wherever the redirect is not due.
pub fn redirect_to_referrer(head: ResponseHead, hint: &RedirectHint) -> (outcome: Result<
    ResponseHead,
    HeaderLimitReached,
>)
    ensures
        outcome matches Ok(out) ==> (out.status, header_entries(out.headers)) == redirected(
            head.status,
            header_entries(head.headers),
            *hint,
        ),
        !redirect_fires(*hint, header_entries(head.headers)) ==> outcome == Ok::<
            ResponseHead,
            HeaderLimitReached,
        >(head),
        name_count(header_entries(head.headers)) < HEADER_ROOM ==> outcome is Ok,
{
    if !hint.accepts_html {
        return Ok(head);
    }
    match &hint.referrer {
        Some(referrer) => {
            proof {
                reveal_strlit("location");
            }
            let location = static_name("location");
            if first_value(&head.headers, &location).is_some() {
                return Ok(head);
            }
            let mut headers = head.headers;
            let attempt = try_insert(&mut headers, &location, referrer);
            found_response(after_write(headers, attempt))
        },
        None => Ok(head),
    }
}

/// What becomes of a handler's response before it leaves: first the headers of
/// the request context are merged in, then the redirect is decided.
///
/// Succeeds wherever response and context together have fewer than
/// [`HEADER_ROOM`] header names.
pub fn finish_response(head: ResponseHead, context: Option<HeaderMap>, hint: &RedirectHint) -> (outcome:
    Result<ResponseHead, HeaderLimitReached>)
    ensures
        outcome matches Ok(out) ==> (out.status, header_entries(out.headers)) == redirected(
            head.status,
            merged(header_entries(head.headers), context_model(context)),
            *hint,
        ),
        context is None && !redirect_fires(*hint, header_entries(head.headers)) ==> outcome == Ok::<
            ResponseHead,
            HeaderLimitReached,
        >(head),
        context_model(context) == no_headers() && !redirect_fires(
            *hint,
            header_entries(head.headers),
        ) ==> outcome is Ok,
        name_count(header_entries(head.headers)) + name_count(context_model(context))
            < HEADER_ROOM ==> outcome is Ok,
{
    proof {
        if context_model(context) == no_headers() {
            assert(merged(header_entries(head.headers), no_headers()) =~~= header_entries(
                head.headers,
            ));
        }
    }
    match merge_context_headers(head, context) {
        Ok(with_context) => redirect_to_referrer(with_context, hint),
        Err(limit) => Err(limit),
    }
}

/// The response for a unit of work that ended abnormally on its worker:
/// status 500, with the failure's text only where `detailed` asks for it.
pub fn worker_failure_response(failure: &str, detailed: bool) -> (response: TextResponse)
    ensures
        response.status == STATUS_INTERNAL_SERVER_ERROR,
        detailed ==> response.body@ == "Server function panicked: "@ + failure@,
        !detailed ==> response.body@ == "Internal Server Error"@,
{
    let body = if detailed {
        String::from_str("Server function panicked: ").concat(failure)
    } else {
        String::from_str("Internal Server Error")
    };
    TextResponse { status: STATUS_INTERNAL_SERVER_ERROR, body }
}

} // verus!
