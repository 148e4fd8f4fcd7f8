//! What a client is answered: the message for a response, field by field, and the error for a
//! response that failed.

use crate::error::{error_type_of, upstream_message, value_or_null, ErrorView};
use crate::event::EventView;
use crate::form::{content_type_of, form_of, ResponseForm};
use crate::interop::{json_text, parsed_text};
use crate::json::{JsonNumber, JsonView, ObjectView};
use crate::request::ConfigView;
use crate::response::{
    call_arguments, converted_response, first_choice, lemma_content_in_order, message_id,
    message_visible, parsed_response_text, response_text, stop_reason, tool_calls, tool_use_of,
    usage_of, visible_content,
};
use crate::settings::inside;
use crate::shapes::{lemma_block_shapes, lemma_message_fields, object, text, whole_message};
use crate::text::without_leading;
use crate::thinking::{normalized, raw_split};
use vstd::prelude::*;

verus! {

/// The error for a response that cannot be used for the given reason.
pub open spec fn unusable(reason: Seq<char>) -> ErrorView {
    ErrorView { status: 500, error_type: "api_error"@, message: reason }
}

/// A reason for stopping has its Anthropic name in a whole message and in a stream alike, and a
/// reason without such a name is passed on.
pub proof fn lemma_stop_reasons(reason: Seq<char>)
    ensures
        stop_reason(Some("stop"@)) == JsonView::String("end_turn"@),
        stop_reason(Some("length"@)) == JsonView::String("max_tokens"@),
        stop_reason(Some("tool_calls"@)) == JsonView::String("tool_use"@),
        stop_reason(Some("function_call"@)) == JsonView::String("tool_use"@),
        stop_reason(Some("content_filter"@)) == JsonView::String("refusal"@),
        stop_reason(None) == JsonView::Null,
        reason != "stop"@ && reason != "length"@ && reason != "tool_calls"@ && reason
            != "function_call"@ && reason != "content_filter"@ ==> stop_reason(Some(reason))
            == JsonView::String(reason),
{
    reveal_strlit("stop");
    reveal_strlit("length");
    reveal_strlit("tool_calls");
    reveal_strlit("function_call");
    reveal_strlit("content_filter");
    assert("stop"@.len() == 4 && "length"@.len() == 6 && "tool_calls"@.len() == 10);
    assert("function_call"@.len() == 13 && "content_filter"@.len() == 14);
}

/// The text in a field.
pub open spec fn text_in(value: Option<JsonView>) -> Option<Seq<char>> {
    match value {
        Some(JsonView::String(value)) => Some(value),
        _ => None,
    }
}

/// The number in a field, or zero.
pub open spec fn number_in(value: Option<JsonView>) -> u64 {
    match value {
        Some(JsonView::Number(JsonNumber::Unsigned(n))) => n,
        _ => 0,
    }
}

/// The first of the choices in a response, if there is one.
pub open spec fn chosen_answer(openai: JsonView) -> Option<JsonView> {
    match inside(Some(openai), "choices"@) {
        Some(JsonView::Array(choices)) => if choices.len() > 0 {
            Some(choices[0])
        } else {
            None
        },
        _ => None,
    }
}

/// The list in a field, or an empty one.
pub open spec fn list_in(value: Option<JsonView>) -> Seq<JsonView> {
    match value {
        Some(JsonView::Array(items)) => items,
        _ => seq![],
    }
}

/// The parts of a response are where they are expected.
pub proof fn lemma_parts_of_response(openai: JsonView, message: ObjectView, key: Seq<char>)
    ensures
        first_choice(openai) == chosen_answer(openai),
        tool_calls(message) == list_in(message.get("tool_calls"@)),
        usage_of(openai, key) == number_in(inside(inside(Some(openai), "usage"@), key)),
{
}

/// The id of a message says that it is one; what the completion is named by is kept, and only the
/// prefix of completions is taken away.
pub proof fn lemma_message_ids(id: Seq<char>)
    ensures
        message_id(None) == "msg_unknown"@,
        message_id(Some("msg_"@ + id)) == "msg_"@ + id,
        (forall|rest: Seq<char>| id != #[trigger] ("msg_"@ + rest)) ==> message_id(Some(id))
            == "msg_"@ + without_leading(id, "chatcmpl-"@),
{
    crate::characters::lemma_after_prefix(id, "msg_"@, id.skip("msg_"@.len() as int));
    crate::characters::lemma_after_prefix("msg_"@ + id, "msg_"@, id);
}

/// The message for a response has the id, the model, the reason for stopping and the numbers of
/// tokens of that response.
pub proof fn lemma_message_of_response(openai: JsonView, config: ConfigView)
    requires
        converted_response(openai, config) is Ok,
    ensures
        ({
            let answer = converted_response(openai, config)->Ok_0;
            let whole = Some(openai);
            let usage = inside(whole, "usage"@);
            exists|content: JsonView|
                answer == #[trigger] whole_message(
                    message_id(text_in(inside(whole, "id"@))),
                    content,
                    named(inside(whole, "model"@), config.model),
                    stop_reason(text_in(inside(chosen_answer(openai), "finish_reason"@))),
                    number_in(inside(usage, "prompt_tokens"@)),
                    number_in(inside(usage, "completion_tokens"@)),
                )
        }),
{
    let choice = first_choice(openai)->0;
    let message = choice.get_object("message"@)->0;
    let start = visible_content(message_visible(choice, message, config));
    let content = crate::walk::folded(
        tool_calls(message),
        start,
        crate::response::tool_use_step(),
    )->Ok_0;
    let whole = Some(openai);
    let usage = inside(whole, "usage"@);
    let model = named(inside(whole, "model"@), config.model);
    lemma_parts_of_response(openai, message, "prompt_tokens"@);
    lemma_parts_of_response(openai, message, "completion_tokens"@);
    lemma_message_fields(
        message_id(text_in(inside(whole, "id"@))),
        JsonView::Array(content),
        model,
        stop_reason(text_in(inside(chosen_answer(openai), "finish_reason"@))),
        number_in(inside(usage, "prompt_tokens"@)),
        number_in(inside(usage, "completion_tokens"@)),
    );
    assert(converted_response(openai, config)->Ok_0 == whole_message(
        message_id(text_in(inside(whole, "id"@))),
        JsonView::Array(content),
        model,
        stop_reason(text_in(inside(chosen_answer(openai), "finish_reason"@))),
        number_in(inside(usage, "prompt_tokens"@)),
        number_in(inside(usage, "completion_tokens"@)),
    ));
}

/// A block of reasoning.
pub open spec fn reasoning_block(value: Seq<char>) -> JsonView {
    object(seq![text("type"@, "thinking"@), text("thinking"@, value), text("signature"@, ""@)])
}

/// The blocks for a text: one, or none if there is nothing in it.
pub open spec fn text_blocks(value: Seq<char>) -> Seq<JsonView> {
    if value.len() > 0 {
        seq![object(seq![text("type"@, "text"@), text("text"@, value)])]
    } else {
        seq![]
    }
}

/// The blocks for reasoning: one, or none if there is nothing in it.
pub open spec fn reasoning_blocks(value: Seq<char>) -> Seq<JsonView> {
    if value.len() > 0 {
        seq![reasoning_block(value)]
    } else {
        seq![]
    }
}

/// What a client gets to see of an answer. Reasoning that is marked as such is shown before the
/// text, if the client wants it. If none is marked and it is looked for in the text, the reasoning
/// before the closing tag is shown and then the answer behind it; an answer that was cut off before
/// the tag is all reasoning, if there is something in it. Otherwise the text is all that is shown.
/// The tool calls follow.
pub proof fn lemma_what_is_shown(openai: JsonView, config: ConfigView)
    requires
        converted_response(openai, config) is Ok,
    ensures
        ({
            let choice = chosen_answer(openai);
            let message = inside(choice, "message"@);
            let calls = list_in(inside(message, "tool_calls"@));
            let content = converted_response(openai, config)->Ok_0.get_array("content"@)->0;
            let written = match text_in(inside(message, "content"@)) {
                Some(written) => written,
                None => seq![],
            };
            let marked = match text_in(inside(message, "reasoning_content"@)) {
                Some(marked) => marked,
                None => seq![],
            };
            let cut_off = inside(choice, "finish_reason"@) == Some(JsonView::String("length"@));
            let n = content.len() - calls.len();
            &&& converted_response(openai, config)->Ok_0.get_array("content"@) is Some
            &&& n >= 0
            &&& content.take(n) == if config.include_thinking && marked.len() > 0 {
                reasoning_blocks(marked) + text_blocks(written)
            } else if config.include_thinking && config.raw_thinking_fallback && raw_split(
                written,
            ) is Some {
                reasoning_blocks(split_reasoning(written)) + text_blocks(split_answer(written))
            } else if config.include_thinking && config.raw_thinking_fallback && cut_off
                && normalized(written).len() > 0 {
                reasoning_blocks(normalized(written))
            } else {
                text_blocks(written)
            }
            &&& forall|i: int|
                0 <= i < calls.len() ==> #[trigger] content[n + i] == use_of_tool(calls[i])
        }),
{
    let choice = first_choice(openai)->0;
    let message = choice.get_object("message"@)->0;
    let calls = tool_calls(message);
    let seen = message_visible(choice, message, config);
    let none = Seq::<JsonView>::empty();
    lemma_content_in_order(openai, config);
    lemma_parts_of_response(openai, message, "usage"@);
    let content = converted_response(openai, config)->Ok_0.get_array("content"@)->0;
    assert forall|i: int| 0 <= i < calls.len() implies #[trigger] content[content.len()
        - calls.len() + i] == use_of_tool(calls[i]) by {
        lemma_use_of_tool(calls[i]);
        assert(content[visible_content(seen).len() + i] == content[content.len() - calls.len()
            + i]);
    }
    lemma_block_shapes(none_text(), none_text(), seen.text, JsonView::Null);
    if let Some(thinking) = seen.thinking {
        lemma_block_shapes(none_text(), none_text(), thinking, JsonView::Null);
        assert(thinking.len() > 0);
        assert(visible_content(seen) =~= reasoning_blocks(thinking) + text_blocks(seen.text));
    } else {
        assert(visible_content(seen) =~= text_blocks(seen.text));
        assert(none + text_blocks(seen.text) =~= text_blocks(seen.text));
    }
    assert(reasoning_blocks(seq![]) =~= none);
    assert(text_blocks(seq![]) =~= none);
    if let Some(thinking) = seen.thinking {
        assert(reasoning_blocks(thinking) + none =~= reasoning_blocks(thinking));
    }
}

spec fn none_text() -> Seq<char> {
    seq![]
}

/// The reasoning that is split off.
pub open spec fn split_reasoning(value: Seq<char>) -> Seq<char> {
    match raw_split(value) {
        Some((thinking, _)) => thinking,
        None => seq![],
    }
}

/// The answer that is split off.
pub open spec fn split_answer(value: Seq<char>) -> Seq<char> {
    match raw_split(value) {
        Some((_, answer)) => answer,
        None => value,
    }
}

/// The block for a tool call: the id and the name of the call, and its arguments as they are read.
pub open spec fn use_of_tool(call: JsonView) -> JsonView {
    let whole = Some(call);
    let function = inside(whole, "function"@);
    object(
        seq![
            text("type"@, "tool_use"@),
            text("id"@, named(inside(whole, "id"@), "toolu_unknown"@)),
            text("name"@, named(inside(function, "name"@), "unknown"@)),
            ("input"@, input_read(inside(function, "arguments"@))),
        ],
    )
}

/// The text in a field, or else the default.
pub open spec fn named(value: Option<JsonView>, default: Seq<char>) -> Seq<char> {
    match value {
        Some(JsonView::String(value)) => value,
        _ => default,
    }
}

/// What the text of arguments is read as, or else an empty object.
pub open spec fn input_read(value: Option<JsonView>) -> JsonView {
    match value {
        Some(JsonView::String(value)) => match parsed_text(value) {
            Ok(input) => input,
            Err(_) => object(seq![]),
        },
        _ => object(seq![]),
    }
}

/// The use of a tool has the id and the name of the call and the arguments as they are read, and
/// only a call without a function is refused.
pub proof fn lemma_use_of_tool(call: JsonView)
    ensures
        tool_use_of(call) == if inside(Some(call), "function"@) matches Some(JsonView::Object(_)) {
            Ok(use_of_tool(call))
        } else {
            Err(unusable("tool call has no function"@))
        },
{
    let whole = Some(call);
    let function = inside(whole, "function"@);
    assert(ObjectView::empty().fields =~= seq![]);
    lemma_block_shapes(
        named(inside(whole, "id"@), "toolu_unknown"@),
        named(inside(function, "name"@), "unknown"@),
        seq![],
        input_read(inside(function, "arguments"@)),
    );
    if let Some(JsonView::Object(fields)) = function {
        assert(call.get_object("function"@) == Some(fields));
        let input = match call_arguments(fields) {
            Some(input) => input,
            None => JsonView::Object(ObjectView::empty()),
        };
        assert(input == input_read(inside(function, "arguments"@)));
    }
}

/// A response is refused only if it has no choice, no message in it, or a tool call without a
/// function.
pub proof fn lemma_refused_responses(openai: JsonView, config: ConfigView)
    ensures
        ({
            let choice = chosen_answer(openai);
            let message = inside(choice, "message"@);
            let calls = list_in(inside(message, "tool_calls"@));
            if choice is None {
                converted_response(openai, config) == Err::<JsonView, ErrorView>(
                    unusable("Chat Completions response has no choices"@),
                )
            } else if !(message matches Some(JsonView::Object(_))) {
                converted_response(openai, config) == Err::<JsonView, ErrorView>(
                    unusable("Chat Completions response has no message"@),
                )
            } else if exists|i: int|
                0 <= i < calls.len() && !(inside(Some(#[trigger] calls[i]), "function"@) matches
                Some(JsonView::Object(_))) {
                converted_response(openai, config) == Err::<JsonView, ErrorView>(
                    unusable("tool call has no function"@),
                )
            } else {
                converted_response(openai, config) is Ok
            }
        }),
{
    if let Some(choice) = first_choice(openai) {
        if let Some(message) = choice.get_object("message"@) {
            lemma_parts_of_response(openai, message, "usage"@);
            lemma_calls_taken(
                tool_calls(message),
                visible_content(message_visible(choice, message, config)),
            );
        }
    }
}

proof fn lemma_calls_taken(calls: Seq<JsonView>, start: Seq<JsonView>)
    ensures
        ({
            let result = crate::walk::folded(calls, start, crate::response::tool_use_step());
            if exists|i: int|
                0 <= i < calls.len() && !(inside(Some(#[trigger] calls[i]), "function"@) matches
                Some(JsonView::Object(_))) {
                result == Err::<Seq<JsonView>, ErrorView>(unusable("tool call has no function"@))
            } else {
                result is Ok
            }
        }),
    decreases calls.len(),
{
    if calls.len() > 0 {
        let fewer = calls.drop_last();
        lemma_calls_taken(fewer, start);
        lemma_use_of_tool(calls.last());
        assert(calls.last() == calls[calls.len() - 1]);
        assert forall|i: int| 0 <= i < fewer.len() implies #[trigger] fewer[i] == calls[i] by {}
        if exists|i: int|
            0 <= i < fewer.len() && !(inside(Some(#[trigger] fewer[i]), "function"@) matches Some(
                JsonView::Object(_),
            )) {
            let i = choose|i: int|
                0 <= i < fewer.len() && !(inside(Some(#[trigger] fewer[i]), "function"@) matches
                Some(JsonView::Object(_)));
            assert(calls[i] == fewer[i]);
        }
        if exists|i: int|
            0 <= i < calls.len() && !(inside(Some(#[trigger] calls[i]), "function"@) matches Some(
                JsonView::Object(_),
            )) {
            let i = choose|i: int|
                0 <= i < calls.len() && !(inside(Some(#[trigger] calls[i]), "function"@) matches
                Some(JsonView::Object(_)));
            if i < fewer.len() {
                assert(fewer[i] == calls[i]);
            }
        }
    }
}

/// The text that answers a request which is not streamed is that of the message for what the body
/// is read as. The client is told of a body that cannot be read.
pub proof fn lemma_response_text(
    read: Result<Seq<u8>, Seq<char>>,
    parsed: Result<JsonView, Seq<char>>,
    config: ConfigView,
)
    ensures
        parsed_response_text(parsed, config) == match parsed {
            Err(reason) => Err(unusable("invalid Chat Completions response: "@ + reason)),
            Ok(openai) => match converted_response(openai, config) {
                Ok(message) => Ok(json_text(message)),
                Err(error) => Err(error),
            },
        },
        response_text(read, config) == match read {
            Err(reason) => Err(
                unusable("failed to read Chat Completions response: "@ + reason),
            ),
            Ok(bytes) => match crate::interop::parsed_bytes(bytes) {
                Err(reason) => Err(unusable("invalid Chat Completions response: "@ + reason)),
                Ok(openai) => match converted_response(openai, config) {
                    Ok(message) => Ok(json_text(message)),
                    Err(error) => Err(error),
                },
            },
        },
{
}

/// An upstream error keeps its meaning and its message.
pub proof fn lemma_upstream_error(status: u16, value: JsonView, reason: Seq<char>)
    ensures
        error_type_of(400) == "invalid_request_error"@,
        error_type_of(422) == "invalid_request_error"@,
        error_type_of(401) == "authentication_error"@,
        error_type_of(403) == "permission_error"@,
        error_type_of(404) == "not_found_error"@,
        error_type_of(429) == "rate_limit_error"@,
        error_type_of(503) == "overloaded_error"@,
        error_type_of(529) == "overloaded_error"@,
        status != 400 && status != 422 && status != 401 && status != 403 && status != 404 && status
            != 429 && status != 503 && status != 529 ==> error_type_of(status) == "api_error"@,
        upstream_message(value) == match inside(inside(Some(value), "error"@), "message"@) {
            Some(JsonView::String(message)) => message,
            _ => match inside(Some(value), "message"@) {
                Some(JsonView::String(message)) => message,
                _ => "upstream request failed"@,
            },
        },
        value_or_null(Ok(value)) == value,
        value_or_null(Err(reason)) == JsonView::Null,
{
}

/// Only a response that succeeded is converted, and in the form that the client asks for.
pub proof fn lemma_form(status: u16, config: ConfigView)
    ensures
        form_of(status, config) == ResponseForm::Error <==> status < 200 || 300 <= status,
        form_of(status, config) == ResponseForm::Stream <==> 200 <= status < 300 && config.stream,
        form_of(status, config) == ResponseForm::Message <==> 200 <= status < 300
            && !config.stream,
        content_type_of(ResponseForm::Stream) == "text/event-stream"@,
        content_type_of(ResponseForm::Message) == "application/json"@,
        content_type_of(ResponseForm::Error) == "application/json"@,
{
}

/// The reason for stopping that a whole message gives is the Anthropic name of the one that was
/// reported, and it is the one that a stream gives at its end.
pub proof fn lemma_same_reason(openai: JsonView, config: ConfigView, output_tokens: u64)
    requires
        converted_response(openai, config) is Ok,
    ensures
        ({
            let reason = text_in(inside(chosen_answer(openai), "finish_reason"@));
            let whole = converted_response(openai, config)->Ok_0;
            let event = (EventView::MessageDelta { finish_reason: reason, output_tokens }).json();
            &&& whole matches JsonView::Object(message)
            &&& event matches JsonView::Object(delta)
            &&& message.fields.len() == 8 && delta.fields.len() == 3
            &&& message.fields[5].0 == "stop_reason"@
            &&& reason == Some("stop"@) ==> message.fields[5].1 == JsonView::String("end_turn"@)
            &&& reason == Some("length"@) ==> message.fields[5].1 == JsonView::String(
                "max_tokens"@,
            )
            &&& reason == Some("tool_calls"@) || reason == Some("function_call"@)
                ==> message.fields[5].1 == JsonView::String("tool_use"@)
            &&& reason == Some("content_filter"@) ==> message.fields[5].1 == JsonView::String(
                "refusal"@,
            )
            &&& reason is None ==> message.fields[5].1 == JsonView::Null
            &&& delta.fields[1] == (
                "delta"@,
                object(
                    seq![
                        ("stop_reason"@, message.fields[5].1),
                        ("stop_sequence"@, JsonView::Null),
                    ],
                ),
            )
        }),
{
    let reason = text_in(inside(chosen_answer(openai), "finish_reason"@));
    lemma_message_of_response(openai, config);
    lemma_stop_reasons(seq![]);
    crate::shapes::lemma_event_shapes(
        seq![],
        seq![],
        reason,
        crate::event::NewBlockView::Text,
        crate::event::DeltaView::Signature,
        output_tokens,
    );
}

}
