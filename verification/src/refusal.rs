//! How a client is told that a request or a response cannot be converted.

use crate::content::{plain_text, required, text_step};
use crate::error::{ErrorView, BAD_REQUEST, INTERNAL_SERVER_ERROR};
use crate::json::{JsonView, ObjectView};
use crate::messages::{
    assistant_step, converted_assistant, converted_message, converted_messages, converted_user,
    image_part, message_step, no_assistant_parts, no_user_parts, tool_call_of, tool_message,
    user_step,
};
use crate::request::{all_messages, converted_request, request_parts, system_messages, ConfigView};
use crate::response::{
    converted_response, first_choice, message_visible, response_text, tool_calls, tool_use_step,
    visible_content,
};
use crate::tools::{converted_tool_choice, converted_tools, tool_step};
use crate::walk::lemma_folded_error;
use vstd::prelude::*;

verus! {

/// The error blames the request.
pub open spec fn blames_request(error: ErrorView) -> bool {
    error.status == BAD_REQUEST && error.error_type == "invalid_request_error"@
}

/// The error blames the upstream.
pub open spec fn blames_upstream(error: ErrorView) -> bool {
    error.status == INTERNAL_SERVER_ERROR && error.error_type == "api_error"@
}

proof fn lemma_plain_text_refusal(content: JsonView, field: Seq<char>)
    ensures
        plain_text(content, field) matches Err(error) ==> blames_request(error),
{
    if let JsonView::Array(blocks) = content {
        if crate::walk::folded(blocks, seq![], text_step(field)) is Err {
            let found = lemma_folded_error(blocks, seq![], text_step(field));
        }
    }
}

proof fn lemma_assistant_refusal(content: JsonView)
    ensures
        converted_assistant(content) matches Err(error) ==> blames_request(error),
{
    if let JsonView::Array(blocks) = content {
        if crate::walk::folded(blocks, no_assistant_parts(), assistant_step()) is Err {
            let found = lemma_folded_error(blocks, no_assistant_parts(), assistant_step());
            if let Some(block) = found.1.as_object() {
                assert(tool_call_of(block) matches Err(error) ==> blames_request(error));
            }
        }
    }
}

proof fn lemma_user_refusal(content: JsonView)
    ensures
        converted_user(content) matches Err(error) ==> blames_request(error),
{
    if let JsonView::Array(blocks) = content {
        if crate::walk::folded(blocks, no_user_parts(), user_step()) is Err {
            let found = lemma_folded_error(blocks, no_user_parts(), user_step());
            if let Some(block) = found.1.as_object() {
                assert(image_part(block) matches Err(error) ==> blames_request(error));
                if let Some(content) = block.get("content"@) {
                    lemma_plain_text_refusal(content, "tool_result"@);
                }
                assert(tool_message(block) matches Err(error) ==> blames_request(error));
            }
        }
    }
}

proof fn lemma_messages_refusal(messages: Seq<JsonView>)
    ensures
        converted_messages(messages) matches Err(error) ==> blames_request(error),
{
    if converted_messages(messages) is Err {
        let found = lemma_folded_error(messages, Seq::<JsonView>::empty(), message_step());
        if let Some(item) = found.1.as_object() {
            if let Some(content) = item.get("content"@) {
                lemma_assistant_refusal(content);
                lemma_user_refusal(content);
            }
        }
        assert(converted_message(found.1) matches Err(error) ==> blames_request(error));
    }
}

proof fn lemma_tools_refusal(tools: JsonView)
    ensures
        converted_tools(tools) matches Err(error) ==> blames_request(error),
{
    if let JsonView::Array(items) = tools {
        if crate::walk::folded(items, Seq::<JsonView>::empty(), tool_step()) is Err {
            let found = lemma_folded_error(items, Seq::<JsonView>::empty(), tool_step());
        }
    }
}

proof fn lemma_parts_refusal(request: ObjectView)
    ensures
        request_parts(request) matches Err(error) ==> blames_request(error),
{
    if let Some(system) = request.get("system"@) {
        lemma_plain_text_refusal(system, "system"@);
    }
    assert(system_messages(request) matches Err(error) ==> blames_request(error));
    if let Some(messages) = JsonView::Object(request).get_array("messages"@) {
        lemma_messages_refusal(messages);
        assert(all_messages(request, messages) matches Err(error) ==> blames_request(error));
    }
    if let Some(tools) = request.get("tools"@) {
        lemma_tools_refusal(tools);
    }
    if let Some(choice) = request.get("tool_choice"@) {
        assert(converted_tool_choice(choice) matches Err(error) ==> blames_request(error));
    }
}

/// A request that cannot be converted is refused as a bad request.
pub proof fn lemma_refused_request(body: JsonView)
    ensures
        converted_request(body) matches Err(error) ==> blames_request(error),
{
    if let Some(request) = body.as_object() {
        assert(required(request, "model"@) matches Err(error) ==> blames_request(error));
        lemma_parts_refusal(request);
    }
}

/// A response that cannot be read or converted is a failure of the upstream, not of the request.
pub proof fn lemma_refused_response(read: Result<Seq<u8>, Seq<char>>, config: ConfigView)
    ensures
        response_text(read, config) matches Err(error) ==> blames_upstream(error),
{
    if let Ok(bytes) = read {
        if let Ok(openai) = crate::interop::parsed_bytes(bytes) {
            lemma_refused_value(openai, config);
        }
    }
}

/// A response that cannot be converted is a failure of the upstream.
pub proof fn lemma_refused_value(openai: JsonView, config: ConfigView)
    ensures
        converted_response(openai, config) matches Err(error) ==> blames_upstream(error),
{
    if let Some(choice) = first_choice(openai) {
        if let Some(message) = choice.get_object("message"@) {
            let start = visible_content(message_visible(choice, message, config));
            if crate::walk::folded(tool_calls(message), start, tool_use_step()) is Err {
                let found = lemma_folded_error(tool_calls(message), start, tool_use_step());
            }
        }
    }
}

}
