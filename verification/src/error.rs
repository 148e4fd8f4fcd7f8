//! Errors in the form that Anthropic clients expect.

use crate::interop::{json_text, parse_bytes, parsed_bytes, print};
use crate::json::{Json, JsonObject, JsonView, ObjectView};
use vstd::prelude::*;

verus! {

/// The status of a refused request.
pub const BAD_REQUEST: u16 = 400;

/// The status of a failure on the gateway's side.
pub const INTERNAL_SERVER_ERROR: u16 = 500;

/// An error to answer a client with.
#[derive(Debug)]
pub struct AnthropicError {
    /// The HTTP status.
    pub status: u16,
    /// The kind of error, by its name in the Anthropic API.
    pub error_type: &'static str,
    /// What went wrong.
    pub message: String,
}

/// What an [`AnthropicError`] stands for.
pub ghost struct ErrorView {
    pub status: u16,
    pub error_type: Seq<char>,
    pub message: Seq<char>,
}

impl View for AnthropicError {
    type V = ErrorView;

    open spec fn view(&self) -> ErrorView {
        ErrorView { status: self.status, error_type: self.error_type@, message: self.message@ }
    }
}

/// The error for a request that cannot be accepted.
pub open spec fn invalid(message: Seq<char>) -> ErrorView {
    ErrorView { status: BAD_REQUEST, error_type: "invalid_request_error"@, message }
}

/// The error for an upstream response that cannot be used.
pub open spec fn internal(message: Seq<char>) -> ErrorView {
    ErrorView { status: INTERNAL_SERVER_ERROR, error_type: "api_error"@, message }
}

/// A result with its value and its error taken by their views.
pub open spec fn outcome<T: View>(result: Result<T, AnthropicError>) -> Result<T::V, ErrorView> {
    match result {
        Ok(value) => Ok(value@),
        Err(error) => Err(error@),
    }
}

/// The body of an error response.
pub open spec fn error_body(error_type: Seq<char>, message: Seq<char>) -> JsonView {
    JsonView::Object(
        ObjectView::empty().with("type"@, JsonView::String("error"@)).with(
            "error"@,
            JsonView::Object(
                ObjectView::empty().with("type"@, JsonView::String(error_type)).with(
                    "message"@,
                    JsonView::String(message),
                ),
            ),
        ),
    )
}

/// The kind of error that answers an upstream status.
pub open spec fn error_type_of(status: u16) -> Seq<char> {
    if status == 400 || status == 422 {
        "invalid_request_error"@
    } else if status == 401 {
        "authentication_error"@
    } else if status == 403 {
        "permission_error"@
    } else if status == 404 {
        "not_found_error"@
    } else if status == 429 {
        "rate_limit_error"@
    } else if status == 503 || status == 529 {
        "overloaded_error"@
    } else {
        "api_error"@
    }
}

/// The message of an upstream error: the one under `error`, else the one at the top, else a fixed
/// text.
pub open spec fn upstream_message(value: JsonView) -> Seq<char> {
    let nested = match value.get("error"@) {
        Some(error) => error.get_str("message"@),
        None => None,
    };
    match (nested, value.get_str("message"@)) {
        (Some(message), _) => message,
        (None, Some(message)) => message,
        (None, None) => "upstream request failed"@,
    }
}

/// The value of an upstream body; null if it is no JSON.
pub open spec fn value_or_null(parsed: Result<JsonView, Seq<char>>) -> JsonView {
    match parsed {
        Ok(value) => value,
        Err(_) => JsonView::Null,
    }
}

/// The body of an error response.
pub fn error_json(error_type: &str, message: &str) -> (result: Json)
    ensures
        result@ == error_body(error_type@, message@),
{
    let detail = JsonObject::new().with("type", Json::text(error_type)).with(
        "message",
        Json::text(message),
    );
    Json::object(
        JsonObject::new().with("type", Json::text("error")).with("error", Json::object(detail)),
    )
}

impl AnthropicError {
    /// The error for a request that cannot be accepted.
    pub fn invalid(message: &str) -> (result: AnthropicError)
        ensures
            result@ == invalid(message@),
    {
        AnthropicError {
            status: BAD_REQUEST,
            error_type: "invalid_request_error",
            message: message.to_string(),
        }
    }

    /// The error for an upstream response that cannot be used.
    pub fn internal(message: &str) -> (result: AnthropicError)
        ensures
            result@ == internal(message@),
    {
        AnthropicError {
            status: INTERNAL_SERVER_ERROR,
            error_type: "api_error",
            message: message.to_string(),
        }
    }

    /// The body of the response that reports this error.
    pub fn body(&self) -> (result: Json)
        ensures
            result@ == error_body(self@.error_type, self@.message),
    {
        error_json(self.error_type, self.message.as_str())
    }
}

/// The kind of error that answers an upstream status.
pub fn error_type_for_status(status: u16) -> (result: &'static str)
    ensures
        result@ == error_type_of(status),
{
    match status {
        400 | 422 => "invalid_request_error",
        401 => "authentication_error",
        403 => "permission_error",
        404 => "not_found_error",
        429 => "rate_limit_error",
        503 | 529 => "overloaded_error",
        _ => "api_error",
    }
}

/// The body that answers an upstream error whose own body is `value`.
pub fn upstream_error_json(status: u16, value: &Json) -> (result: Json)
    ensures
        result@ == error_body(error_type_of(status), upstream_message(value@)),
{
    let nested = match value.get("error") {
        Some(error) => error.get_str("message"),
        None => None,
    };
    let message = match nested {
        Some(message) => message,
        None => match value.get_str("message") {
            Some(message) => message,
            None => "upstream request failed",
        },
    };
    error_json(error_type_for_status(status), message)
}

/// The text that answers an upstream error, from its status and its body.
pub fn error_response_text(status: u16, body: &[u8]) -> (result: String)
    ensures
        result@ == json_text(
            error_body(error_type_of(status), upstream_message(value_or_null(parsed_bytes(body@)))),
        ),
{
    let value = match parse_bytes(body) {
        Ok(value) => value,
        Err(_) => Json::Null,
    };
    print(&upstream_error_json(status, &value))
}

}
