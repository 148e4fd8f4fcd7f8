//! The form in which an upstream response is passed on.

use crate::request::{ConfigView, ResponseConfig};
use vstd::prelude::*;

verus! {

/// The most bytes of a response that are read before it is converted.
pub const MAX_RESPONSE_BODY_SIZE: usize = 32 * 1024 * 1024;

/// How an upstream response is passed on.
#[derive(Clone, Copy, Debug, PartialEq, Eq, Structural)]
pub enum ResponseForm {
    /// As an error.
    Error,
    /// As one message.
    Message,
    /// As a stream of events.
    Stream,
}

/// The form in which a response with the given status is passed on. Only a response that succeeded
/// is converted to a message, whole or streamed.
pub open spec fn form_of(status: u16, config: ConfigView) -> ResponseForm {
    if !(200 <= status < 300) {
        ResponseForm::Error
    } else if config.stream {
        ResponseForm::Stream
    } else {
        ResponseForm::Message
    }
}

/// The form in which a response with the given status is passed on.
pub fn response_form(status: u16, config: &ResponseConfig) -> (result: ResponseForm)
    ensures
        result == form_of(status, config@),
{
    if status < 200 || 300 <= status {
        ResponseForm::Error
    } else if config.stream {
        ResponseForm::Stream
    } else {
        ResponseForm::Message
    }
}

/// The content type of a response.
pub open spec fn content_type_of(form: ResponseForm) -> Seq<char> {
    match form {
        ResponseForm::Stream => "text/event-stream"@,
        _ => "application/json"@,
    }
}

/// The content type of a response.
pub fn content_type(form: ResponseForm) -> (result: &'static str)
    ensures
        result@ == content_type_of(form),
{
    match form {
        ResponseForm::Stream => "text/event-stream",
        _ => "application/json",
    }
}

/// How a response may be cached, if that is said. A stream may not be.
pub fn cache_control(form: ResponseForm) -> (result: Option<&'static str>)
    ensures
        match result {
            Some(directive) => form == ResponseForm::Stream && directive@ == "no-cache"@,
            None => form != ResponseForm::Stream,
        },
{
    match form {
        ResponseForm::Stream => Some("no-cache"),
        _ => None,
    }
}

}
