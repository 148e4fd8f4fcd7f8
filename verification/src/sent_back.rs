//! An answer that a client sends back as part of the conversation.

use crate::error::ErrorView;
use crate::interop::{json_text, parsed_text, survives_text};
use crate::json::{lemma_with_get, lemma_with_some_get, JsonView, ObjectView};
use crate::messages::{
    assistant_message, assistant_step, converted_assistant, inputs_are_read_back,
    lemma_block_types_differ, lemma_tool_call_comes_back, lemma_tool_call_fields,
    no_assistant_parts, required_call, tool_call, tool_input, AssistantParts,
};
use crate::request::ConfigView;
use crate::response::{
    call_arguments, converted_response, first_choice, lemma_content_in_order, message_visible,
    text_content, tool_calls, tool_use_content, tool_use_of, visible_content, Visible,
};
use crate::text::{noted, on_lines};
use crate::thinking::thinking_content;
use crate::walk::{folded, lemma_folded_concat};
use vstd::prelude::*;

verus! {

/// The function that a tool call calls.
pub open spec fn called_function(call: JsonView) -> ObjectView {
    call.get_object("function"@)->0
}

/// The call has an id, a name and arguments that are JSON.
pub open spec fn is_complete_call(call: JsonView) -> bool {
    &&& call.get_object("function"@) is Some
    &&& required_call(call, called_function(call))
    &&& call_arguments(called_function(call)) is Some
}

/// The arguments of a complete call.
pub open spec fn arguments_of(call: JsonView) -> JsonView {
    call_arguments(called_function(call))->0
}

/// A complete call as it comes back: the same id and name, and the text of the same arguments.
pub open spec fn call_sent_back(call: JsonView) -> JsonView {
    tool_call(
        call.get_str("id"@)->0,
        called_function(call).get_str("name"@)->0,
        arguments_of(call),
    )
}

/// Calls as they come back, in order.
pub open spec fn calls_sent_back(calls: Seq<JsonView>) -> Seq<JsonView> {
    calls.map_values(|call: JsonView| call_sent_back(call))
}

/// The field for a text, if there is something in it.
pub open spec fn text_field(text: Option<Seq<char>>) -> Option<JsonView> {
    match text {
        Some(text) if text.len() > 0 => Some(JsonView::String(text)),
        _ => None,
    }
}

/// The assistant message for what a client got to see of an answer and for the calls in it.
pub open spec fn answer_sent_back(seen: Visible, calls: Seq<JsonView>) -> AssistantParts {
    AssistantParts {
        texts: noted(seq![], Some(seen.text)),
        reasoning: noted(seq![], seen.thinking),
        tool_calls: calls_sent_back(calls),
    }
}

/// The fields by which blocks are read.
proof fn lemma_block_fields(text: Seq<char>)
    ensures
        text_content(text)->Object_0.get_str("type"@) == Some("text"@),
        text_content(text)->Object_0.get_str("text"@) == Some(text),
        thinking_content(text)->Object_0.get_str("type"@) == Some("thinking"@),
        thinking_content(text)->Object_0.get_str("thinking"@) == Some(text),
{
    reveal_strlit("type");
    reveal_strlit("text");
    reveal_strlit("thinking");
    reveal_strlit("signature");
    assert("type"@.len() == 4 && "text"@.len() == 4);
    assert("type"@[1] == 'y' && "text"@[1] == 'e');
    assert("thinking"@.len() == 8 && "signature"@.len() == 9);
    let value = JsonView::String(text);
    let none = ObjectView::empty();
    let kind = JsonView::String("text"@);
    lemma_with_get(none, "type"@, kind, "type"@);
    lemma_with_get(none.with("type"@, kind), "text"@, value, "type"@);
    lemma_with_get(none.with("type"@, kind), "text"@, value, "text"@);
    let kind = JsonView::String("thinking"@);
    let typed = none.with("type"@, kind);
    let filled = typed.with("thinking"@, value);
    let signature = JsonView::String(""@);
    lemma_with_get(none, "type"@, kind, "type"@);
    lemma_with_get(typed, "thinking"@, value, "type"@);
    lemma_with_get(typed, "thinking"@, value, "thinking"@);
    lemma_with_get(filled, "signature"@, signature, "type"@);
    lemma_with_get(filled, "signature"@, signature, "thinking"@);
}

/// A `tool_use` block says that it is one, and has its input.
proof fn lemma_tool_use_fields(id: Seq<char>, name: Seq<char>, input: JsonView)
    ensures
        tool_use_content(id, name, input)->Object_0.get_str("type"@) == Some("tool_use"@),
        tool_input(tool_use_content(id, name, input)->Object_0) == input,
{
    reveal_strlit("type");
    reveal_strlit("id");
    reveal_strlit("name");
    reveal_strlit("input");
    assert("type"@.len() == 4 && "id"@.len() == 2 && "name"@.len() == 4 && "input"@.len() == 5);
    assert("type"@[0] == 't' && "name"@[0] == 'n');
    let kind = JsonView::String("tool_use"@);
    let none = ObjectView::empty();
    let typed = none.with("type"@, kind);
    let with_id = typed.with("id"@, JsonView::String(id));
    let with_name = with_id.with("name"@, JsonView::String(name));
    lemma_with_get(none, "type"@, kind, "type"@);
    lemma_with_get(typed, "id"@, JsonView::String(id), "type"@);
    lemma_with_get(with_id, "name"@, JsonView::String(name), "type"@);
    lemma_with_get(with_name, "input"@, input, "type"@);
    lemma_with_get(with_name, "input"@, input, "input"@);
}

/// The blocks for what a client got to see are taken in as that.
proof fn lemma_seen_comes_back(seen: Visible)
    ensures
        folded(visible_content(seen), no_assistant_parts(), assistant_step()) == Ok::<
            AssistantParts,
            ErrorView,
        >(answer_sent_back(seen, seq![])),
{
    lemma_block_types_differ();
    let start = no_assistant_parts();
    let step = assistant_step();
    let first = match seen.thinking {
        Some(thinking) => seq![thinking_content(thinking)],
        None => seq![],
    };
    let reasoned = AssistantParts { reasoning: noted(seq![], seen.thinking), ..start };
    assert(calls_sent_back(seq![]) =~= seq![]);
    assert(folded(first, start, step) == Ok::<AssistantParts, ErrorView>(reasoned)) by {
        if let Some(thinking) = seen.thinking {
            lemma_block_fields(thinking);
            assert(first.drop_last() =~= seq![]);
            assert(folded(first.drop_last(), start, step) == Ok::<AssistantParts, ErrorView>(
                start,
            ));
        }
    }
    if seen.text.len() > 0 {
        lemma_block_fields(seen.text);
        assert(visible_content(seen).drop_last() =~= first);
    }
}

/// The blocks for calls are taken in as those calls.
proof fn lemma_calls_come_back(parts: AssistantParts, calls: Seq<JsonView>, blocks: Seq<JsonView>)
    requires
        blocks.len() == calls.len(),
        forall|i: int| 0 <= i < calls.len() ==> is_complete_call(#[trigger] calls[i]),
        forall|i: int|
            0 <= i < calls.len() ==> Ok::<JsonView, ErrorView>(#[trigger] blocks[i]) == tool_use_of(
                calls[i],
            ),
    ensures
        folded(blocks, parts, assistant_step()) == Ok::<AssistantParts, ErrorView>(
            AssistantParts {
                tool_calls: parts.tool_calls + calls_sent_back(calls),
                ..parts
            },
        ),
    decreases calls.len(),
{
    if calls.len() == 0 {
        assert(parts.tool_calls + calls_sent_back(calls) =~= parts.tool_calls);
    } else {
        let fewer = calls.drop_last();
        let before = blocks.drop_last();
        let call = calls.last();
        assert forall|i: int| 0 <= i < fewer.len() implies is_complete_call(
            #[trigger] fewer[i],
        ) by {
            assert(fewer[i] == calls[i]);
        }
        assert forall|i: int| 0 <= i < fewer.len() implies Ok::<JsonView, ErrorView>(
            #[trigger] before[i],
        ) == tool_use_of(fewer[i]) by {
            assert(before[i] == blocks[i] && fewer[i] == calls[i]);
        }
        lemma_calls_come_back(parts, fewer, before);
        assert(is_complete_call(calls[calls.len() - 1]));
        assert(blocks[blocks.len() - 1] == blocks.last());
        lemma_tool_call_comes_back(call, called_function(call), arguments_of(call));
        lemma_tool_use_fields(
            call.get_str("id"@)->0,
            called_function(call).get_str("name"@)->0,
            arguments_of(call),
        );
        lemma_block_types_differ();
        assert(parts.tool_calls + calls_sent_back(calls) =~= (parts.tool_calls + calls_sent_back(
            fewer,
        )).push(call_sent_back(call)));
    }
}

/// The model reads its own answer: the content of a message that was made of it, sent back by the
/// client, becomes an assistant message with the reasoning and the text that the client got to see
/// and with the same tool calls, in order. The calls need an id, a name and arguments that are
/// JSON.
pub proof fn lemma_answer_comes_back(openai: JsonView, config: ConfigView)
    requires
        converted_response(openai, config) is Ok,
        forall|i: int|
            0 <= i < tool_calls(answer_in(openai)).len() ==> is_complete_call(
                #[trigger] tool_calls(answer_in(openai))[i],
            ),
    ensures
        converted_response(openai, config)->Ok_0.get("content"@) is Some,
        converted_assistant(converted_response(openai, config)->Ok_0.get("content"@)->0) == Ok::<
            JsonView,
            ErrorView,
        >(
            assistant_message(
                answer_sent_back(
                    message_visible(first_choice(openai)->0, answer_in(openai), config),
                    tool_calls(answer_in(openai)),
                ),
            ),
        ),
{
    let message = answer_in(openai);
    let calls = tool_calls(message);
    let seen = message_visible(first_choice(openai)->0, message, config);
    let content = converted_response(openai, config)->Ok_0.get_array("content"@)->0;
    let shown = visible_content(seen);
    lemma_content_in_order(openai, config);
    let blocks = content.skip(shown.len() as int);
    assert(content =~= shown + blocks);
    assert forall|i: int| 0 <= i < calls.len() implies Ok::<JsonView, ErrorView>(
        #[trigger] blocks[i],
    ) == tool_use_of(calls[i]) by {
        assert(blocks[i] == content[shown.len() + i]);
    }
    lemma_folded_concat(shown, blocks, no_assistant_parts(), assistant_step());
    lemma_seen_comes_back(seen);
    let parts = answer_sent_back(seen, seq![]);
    lemma_calls_come_back(parts, calls, blocks);
    assert(calls_sent_back(seq![]) =~= seq![]);
    assert(parts.tool_calls + calls_sent_back(calls) =~= calls_sent_back(calls));
}

/// The message in a response.
pub open spec fn answer_in(openai: JsonView) -> ObjectView {
    first_choice(openai)->0.get_object("message"@)->0
}

/// The fields of an assistant message for an answer that is sent back.
proof fn lemma_answer_fields(seen: Visible, calls: Seq<JsonView>)
    ensures
        ({
            let answer = assistant_message(answer_sent_back(seen, calls));
            &&& answer.get("role"@) == Some(JsonView::String("assistant"@))
            &&& answer.get("content"@) == Some(
                match text_field(Some(seen.text)) {
                    Some(text) => text,
                    None => JsonView::Null,
                },
            )
            &&& answer.get("reasoning_content"@) == text_field(seen.thinking)
            &&& answer.get("tool_calls"@) == if calls.len() == 0 {
                None::<JsonView>
            } else {
                Some(JsonView::Array(calls_sent_back(calls)))
            }
        }),
{
    let parts = answer_sent_back(seen, calls);
    assert(parts.texts.len() > 0 ==> on_lines(parts.texts) == seen.text);
    assert(parts.reasoning.len() > 0 ==> on_lines(parts.reasoning) == seen.thinking->0);
    reveal_strlit("role");
    reveal_strlit("content");
    reveal_strlit("reasoning_content");
    reveal_strlit("tool_calls");
    assert("role"@.len() == 4 && "content"@.len() == 7);
    assert("reasoning_content"@.len() == 17 && "tool_calls"@.len() == 10);
    let role = JsonView::String("assistant"@);
    let text = match text_field(Some(seen.text)) {
        Some(text) => text,
        None => JsonView::Null,
    };
    let reasoning = text_field(seen.thinking);
    let all = if calls.len() == 0 {
        None
    } else {
        Some(JsonView::Array(calls_sent_back(calls)))
    };
    lemma_message_field(role, text, reasoning, all, "role"@);
    lemma_message_field(role, text, reasoning, all, "content"@);
    lemma_message_field(role, text, reasoning, all, "reasoning_content"@);
    lemma_message_field(role, text, reasoning, all, "tool_calls"@);
}

/// The field `key` of an assistant message: the last that is set under that name.
proof fn lemma_message_field(
    role: JsonView,
    text: JsonView,
    reasoning: Option<JsonView>,
    calls: Option<JsonView>,
    key: Seq<char>,
)
    ensures
        ObjectView::empty().with("role"@, role).with("content"@, text).with_some(
            "reasoning_content"@,
            reasoning,
        ).with_some("tool_calls"@, calls).get(key) == if key == "tool_calls"@ && calls is Some {
            calls
        } else if key == "reasoning_content"@ && reasoning is Some {
            reasoning
        } else if key == "content"@ {
            Some(text)
        } else if key == "role"@ {
            Some(role)
        } else {
            None
        },
{
    let o = ObjectView::empty();
    lemma_with_get(o, "role"@, role, key);
    let o = o.with("role"@, role);
    lemma_with_get(o, "content"@, text, key);
    let o = o.with("content"@, text);
    lemma_with_some_get(o, "reasoning_content"@, reasoning, key);
    lemma_with_some_get(
        o.with_some("reasoning_content"@, reasoning),
        "tool_calls"@,
        calls,
        key,
    );
}

/// Where the client sees reasoning that is marked as such, and none is looked for in the text, the
/// answer that it sends back is the answer of the model: the same text, or null if there is none;
/// the same reasoning, if there is any; and the same tool calls, in order, if there are any.
pub proof fn lemma_whole_answer_comes_back(openai: JsonView, config: ConfigView)
    requires
        config.include_thinking,
        !config.raw_thinking_fallback,
        converted_response(openai, config) is Ok,
        forall|i: int|
            0 <= i < tool_calls(answer_in(openai)).len() ==> is_complete_call(
                #[trigger] tool_calls(answer_in(openai))[i],
            ),
    ensures
        ({
            let message = answer_in(openai);
            let calls = tool_calls(message);
            let content = converted_response(openai, config)->Ok_0.get("content"@)->0;
            let answer = converted_assistant(content)->Ok_0;
            &&& converted_response(openai, config)->Ok_0.get("content"@) is Some
            &&& converted_assistant(content) is Ok
            &&& answer.get("role"@) == Some(JsonView::String("assistant"@))
            &&& answer.get("content"@) == Some(
                match text_field(message.get_str("content"@)) {
                    Some(text) => text,
                    None => JsonView::Null,
                },
            )
            &&& answer.get("reasoning_content"@) == text_field(
                message.get_str("reasoning_content"@),
            )
            &&& answer.get("tool_calls"@) == if calls.len() == 0 {
                None::<JsonView>
            } else {
                Some(JsonView::Array(calls_sent_back(calls)))
            }
        }),
{
    let message = answer_in(openai);
    lemma_answer_comes_back(openai, config);
    lemma_answer_fields(
        message_visible(first_choice(openai)->0, message, config),
        tool_calls(message),
    );
}

/// A call that comes back is the same call: it has the same id and name, and if the text of its
/// arguments is read as those arguments, a client sees the same block for it.
pub proof fn lemma_same_call_comes_back(call: JsonView)
    requires
        is_complete_call(call),
    ensures
        call_sent_back(call).get_str("id"@) == call.get_str("id"@),
        call_sent_back(call).get_object("function"@) is Some,
        called_function(call_sent_back(call)).get_str("name"@) == called_function(call).get_str(
            "name"@,
        ),
        called_function(call_sent_back(call)).get_str("arguments"@) == Some(
            json_text(arguments_of(call)),
        ),
        parsed_text(json_text(arguments_of(call))) == Ok::<JsonView, Seq<char>>(arguments_of(call))
            ==> tool_use_of(call_sent_back(call)) == tool_use_of(call),
{
    lemma_tool_call_fields(
        call.get_str("id"@)->0,
        called_function(call).get_str("name"@)->0,
        arguments_of(call),
    );
}

/// The model reads the arguments that it gave, within the limits of the reader: once the content of
/// its answer has been converted, which means that the inputs in it are read back from their texts,
/// a client sees the same block for each call that comes back.
pub proof fn lemma_same_arguments_come_back(openai: JsonView, config: ConfigView)
    requires
        converted_response(openai, config) is Ok,
        forall|i: int|
            0 <= i < tool_calls(answer_in(openai)).len() ==> is_complete_call(
                #[trigger] tool_calls(answer_in(openai))[i],
            ),
        inputs_are_read_back(converted_response(openai, config)->Ok_0.get("content"@)->0),
    ensures
        ({
            let calls = tool_calls(answer_in(openai));
            forall|i: int|
                0 <= i < calls.len() && survives_text(
                    arguments_of(#[trigger] calls[i]),
                    127,
                ) ==> parsed_text(json_text(arguments_of(calls[i]))) == Ok::<JsonView, Seq<char>>(
                    arguments_of(calls[i]),
                ) && tool_use_of(calls_sent_back(calls)[i]) == tool_use_of(calls[i])
        }),
{
    let message = answer_in(openai);
    let calls = tool_calls(message);
    let content = converted_response(openai, config)->Ok_0.get_array("content"@)->0;
    let shown = visible_content(message_visible(first_choice(openai)->0, message, config));
    lemma_content_in_order(openai, config);
    assert forall|i: int|
        0 <= i < calls.len() && survives_text(arguments_of(#[trigger] calls[i]), 127) implies
        parsed_text(json_text(arguments_of(calls[i]))) == Ok::<JsonView, Seq<char>>(
        arguments_of(calls[i]),
    ) && tool_use_of(calls_sent_back(calls)[i]) == tool_use_of(calls[i]) by {
        let call = calls[i];
        let block = content[shown.len() + i];
        assert(Ok::<JsonView, ErrorView>(block) == tool_use_of(call));
        lemma_tool_use_fields(
            call.get_str("id"@)->0,
            called_function(call).get_str("name"@)->0,
            arguments_of(call),
        );
        lemma_same_call_comes_back(call);
    }
}

}
