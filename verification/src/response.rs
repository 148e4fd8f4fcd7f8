//! From a Chat Completions response to an Anthropic message.

use crate::error::{internal, outcome, AnthropicError, ErrorView};
use crate::interop::{json_text, parse, parse_bytes, parsed_bytes, parsed_text, print};
use crate::json::{
    array_view, lemma_with_get, push_json, unsigned, Json, JsonObject, JsonView, ObjectView,
};
use crate::request::{ConfigView, ResponseConfig};
use crate::text::{
    begins_with, same_text, starts_with, text_view, trim_start_matches, without_leading,
};
use crate::thinking::{
    normalize_raw_thinking, normalized, raw_split, split_raw_thinking, thinking_block,
    thinking_content,
};
use crate::walk::{folded, lemma_folded_next};
use vstd::prelude::*;

verus! {

/// The id of the message for the id of a completion.
pub open spec fn message_id(openai_id: Option<Seq<char>>) -> Seq<char> {
    match openai_id {
        Some(id) => if begins_with(id, "msg_"@) {
            id
        } else {
            "msg_"@ + without_leading(id, "chatcmpl-"@)
        },
        None => "msg_unknown"@,
    }
}

/// The reason for stopping, by its Anthropic name. A reason without one is passed on.
pub open spec fn stop_reason(reason: Option<Seq<char>>) -> JsonView {
    match reason {
        None => JsonView::Null,
        Some(reason) => JsonView::String(
            if reason == "length"@ {
                "max_tokens"@
            } else if reason == "tool_calls"@ || reason == "function_call"@ {
                "tool_use"@
            } else if reason == "stop"@ {
                "end_turn"@
            } else if reason == "content_filter"@ {
                "refusal"@
            } else {
                reason
            },
        ),
    }
}

/// What the client gets to see of an answer: the reasoning, and the text.
pub ghost struct Visible {
    pub thinking: Option<Seq<char>>,
    pub text: Seq<char>,
}

/// A text, if there is something in it.
pub open spec fn nonempty(text: Seq<char>) -> Option<Seq<char>> {
    if text.len() > 0 {
        Some(text)
    } else {
        None
    }
}

/// What the client gets to see of the text of an answer in which reasoning is looked for. An
/// answer that was cut off before the closing tag is all reasoning.
pub open spec fn raw_visible(text: Seq<char>, cut_off: bool) -> Visible {
    match raw_split(text) {
        Some((thinking, answer)) => Visible { thinking: nonempty(thinking), text: answer },
        None => if cut_off && normalized(text).len() > 0 {
            Visible { thinking: Some(normalized(text)), text: seq![] }
        } else {
            Visible { thinking: None, text }
        },
    }
}

/// What the client gets to see of an answer.
pub open spec fn visible(
    text: Seq<char>,
    reasoning: Option<Seq<char>>,
    cut_off: bool,
    config: ConfigView,
) -> Visible {
    if config.include_thinking && reasoning is Some {
        Visible { thinking: reasoning, text }
    } else if config.include_thinking && config.raw_thinking_fallback {
        raw_visible(text, cut_off)
    } else {
        Visible { thinking: None, text }
    }
}

/// A block of text.
pub open spec fn text_content(text: Seq<char>) -> JsonView {
    JsonView::Object(
        ObjectView::empty().with("type"@, JsonView::String("text"@)).with(
            "text"@,
            JsonView::String(text),
        ),
    )
}

/// The blocks for what the client gets to see; there is no empty block.
pub open spec fn visible_content(seen: Visible) -> Seq<JsonView> {
    let thinking = match seen.thinking {
        Some(thinking) => seq![thinking_content(thinking)],
        None => seq![],
    };
    if seen.text.len() > 0 {
        thinking.push(text_content(seen.text))
    } else {
        thinking
    }
}

/// A text, or `default` if there is none.
pub open spec fn text_or(text: Option<Seq<char>>, default: Seq<char>) -> Seq<char> {
    match text {
        Some(text) => text,
        None => default,
    }
}

/// A number, or zero if there is none.
pub open spec fn or_zero(n: Option<u64>) -> u64 {
    match n {
        Some(n) => n,
        None => 0,
    }
}

/// The arguments of a function call, if they are JSON.
pub open spec fn call_arguments(function: ObjectView) -> Option<JsonView> {
    match function.get_str("arguments"@) {
        Some(arguments) => match parsed_text(arguments) {
            Ok(value) => Some(value),
            Err(_) => None,
        },
        None => None,
    }
}

/// A `tool_use` block.
pub open spec fn tool_use_content(id: Seq<char>, name: Seq<char>, input: JsonView) -> JsonView {
    JsonView::Object(
        ObjectView::empty().with("type"@, JsonView::String("tool_use"@)).with(
            "id"@,
            JsonView::String(id),
        ).with("name"@, JsonView::String(name)).with("input"@, input),
    )
}

/// The `tool_use` block for a tool call. Its input is an empty object if the arguments are no JSON.
pub open spec fn tool_use(
    tool_call: JsonView,
    function: ObjectView,
    arguments: Option<JsonView>,
) -> JsonView {
    tool_use_content(
        text_or(tool_call.get_str("id"@), "toolu_unknown"@),
        text_or(function.get_str("name"@), "unknown"@),
        match arguments {
            Some(input) => input,
            None => JsonView::Object(ObjectView::empty()),
        },
    )
}

/// The `tool_use` block for a tool call, which needs a function.
pub open spec fn tool_use_of(tool_call: JsonView) -> Result<JsonView, ErrorView> {
    match tool_call.get_object("function"@) {
        Some(function) => Ok(tool_use(tool_call, function, call_arguments(function))),
        None => Err(internal("tool call has no function"@)),
    }
}

/// Takes in one tool call.
pub open spec fn tool_use_step() -> spec_fn(Seq<JsonView>, JsonView) -> Result<
    Seq<JsonView>,
    ErrorView,
> {
    |content: Seq<JsonView>, tool_call: JsonView|
        match tool_use_of(tool_call) {
            Ok(block) => Ok(content.push(block)),
            Err(error) => Err(error),
        }
}

/// The tool calls of a message.
pub open spec fn tool_calls(message: ObjectView) -> Seq<JsonView> {
    match JsonView::Object(message).get_array("tool_calls"@) {
        Some(calls) => calls,
        None => seq![],
    }
}

/// What the client gets to see of a message.
pub open spec fn message_visible(
    choice: JsonView,
    message: ObjectView,
    config: ConfigView,
) -> Visible {
    visible(
        text_or(message.get_str("content"@), seq![]),
        match message.get_str("reasoning_content"@) {
            Some(reasoning) => nonempty(reasoning),
            None => None,
        },
        choice.get_str("finish_reason"@) == Some("length"@),
        config,
    )
}

/// The number of tokens that the response reports under `key`.
pub open spec fn usage_of(openai: JsonView, key: Seq<char>) -> u64 {
    match openai.get("usage"@) {
        Some(usage) => or_zero(usage.get_u64(key)),
        None => 0,
    }
}

/// The Anthropic message with the given content.
pub open spec fn anthropic_message(
    openai: JsonView,
    choice: JsonView,
    content: Seq<JsonView>,
    config: ConfigView,
) -> JsonView {
    JsonView::Object(
        ObjectView::empty().with(
            "id"@,
            JsonView::String(message_id(openai.get_str("id"@))),
        ).with("type"@, JsonView::String("message"@)).with(
            "role"@,
            JsonView::String("assistant"@),
        ).with("content"@, JsonView::Array(content)).with(
            "model"@,
            JsonView::String(text_or(openai.get_str("model"@), config.model)),
        ).with("stop_reason"@, stop_reason(choice.get_str("finish_reason"@))).with(
            "stop_sequence"@,
            JsonView::Null,
        ).with(
            "usage"@,
            JsonView::Object(
                ObjectView::empty().with(
                    "input_tokens"@,
                    unsigned(usage_of(openai, "prompt_tokens"@)),
                ).with("output_tokens"@, unsigned(usage_of(openai, "completion_tokens"@))),
            ),
        ),
    )
}

/// The first of the choices in a response.
pub open spec fn first_choice(openai: JsonView) -> Option<JsonView> {
    match openai.get_array("choices"@) {
        Some(choices) if choices.len() > 0 => Some(choices[0]),
        _ => None,
    }
}

/// The Anthropic message for a response.
pub open spec fn converted_response(openai: JsonView, config: ConfigView) -> Result<
    JsonView,
    ErrorView,
> {
    match first_choice(openai) {
        None => Err(internal("Chat Completions response has no choices"@)),
        Some(choice) => match choice.get_object("message"@) {
            None => Err(internal("Chat Completions response has no message"@)),
            Some(message) => {
                let start = visible_content(message_visible(choice, message, config));
                match folded(tool_calls(message), start, tool_use_step()) {
                    Ok(content) => Ok(anthropic_message(openai, choice, content, config)),
                    Err(error) => Err(error),
                }
            },
        },
    }
}

/// The text that answers a request which is not streamed. `read` is the body of the response, or
/// why it could not be read.
pub open spec fn response_text(
    read: Result<Seq<u8>, Seq<char>>,
    config: ConfigView,
) -> Result<Seq<char>, ErrorView> {
    match read {
        Err(message) => Err(internal("failed to read Chat Completions response: "@ + message)),
        Ok(bytes) => parsed_response_text(parsed_bytes(bytes), config),
    }
}

/// The text that answers a request which is not streamed, from what the body of the response was
/// parsed to.
pub open spec fn parsed_response_text(
    parsed: Result<JsonView, Seq<char>>,
    config: ConfigView,
) -> Result<Seq<char>, ErrorView> {
    match parsed {
        Err(message) => Err(internal("invalid Chat Completions response: "@ + message)),
        Ok(openai) => match converted_response(openai, config) {
            Ok(message) => Ok(json_text(message)),
            Err(error) => Err(error),
        },
    }
}

/// The id of the message for the id of a completion.
pub fn anthropic_message_id(openai_id: Option<&str>) -> (result: String)
    ensures
        result@ == message_id(text_view(openai_id)),
{
    match openai_id {
        Some(id) => {
            if starts_with(id, "msg_") {
                id.to_string()
            } else {
                proof {
                    reveal_strlit("chatcmpl-");
                }
                "msg_".to_string().concat(trim_start_matches(id, "chatcmpl-"))
            }
        },
        None => "msg_unknown".to_string(),
    }
}

/// The reason for stopping, by its Anthropic name.
pub fn map_stop_reason(reason: Option<&str>) -> (result: Json)
    ensures
        result@ == stop_reason(text_view(reason)),
{
    match reason {
        Some(reason) => {
            if same_text(reason, "length") {
                Json::text("max_tokens")
            } else if same_text(reason, "tool_calls") || same_text(reason, "function_call") {
                Json::text("tool_use")
            } else if same_text(reason, "stop") {
                Json::text("end_turn")
            } else if same_text(reason, "content_filter") {
                Json::text("refusal")
            } else {
                Json::text(reason)
            }
        },
        None => Json::Null,
    }
}

/// The `tool_use` block for a tool call whose arguments are already parsed.
pub fn tool_use_block(
    tool_call: &Json,
    function: &JsonObject,
    arguments: Option<Json>,
) -> (result: Json)
    ensures
        result@ == tool_use(
            tool_call@,
            function@,
            match arguments {
                Some(input) => Some(input@),
                None => None,
            },
        ),
{
    let id = match tool_call.get_str("id") {
        Some(id) => id,
        None => "toolu_unknown",
    };
    let name = match function.get_str("name") {
        Some(name) => name,
        None => "unknown",
    };
    let input = match arguments {
        Some(input) => input,
        None => Json::object(JsonObject::new()),
    };
    Json::object(
        JsonObject::new().with("type", Json::text("tool_use")).with("id", Json::text(id)).with(
            "name",
            Json::text(name),
        ).with("input", input),
    )
}

/// The blocks for the reasoning and the text that the client gets to see.
fn convert_visible(choice: &Json, message: &JsonObject, config: &ResponseConfig) -> (result: Vec<
    Json,
>)
    ensures
        array_view(result@) == visible_content(message_visible(choice@, message@, config@)),
{
    let mut content: Vec<Json> = Vec::new();
    assert(array_view(content@) =~= seq![]);
    let mut text: &str = match message.get_str("content") {
        Some(text) => text,
        None => "",
    };
    proof {
        reveal_strlit("");
        assert(""@ =~= seq![]);
    }
    let cut_off = match choice.get_str("finish_reason") {
        Some(reason) => same_text(reason, "length"),
        None => false,
    };
    let reasoning = match message.get_str("reasoning_content") {
        Some(reasoning) if !reasoning.is_empty() => Some(reasoning),
        _ => None,
    };
    let ghost seen = message_visible(choice@, message@, config@);
    let mut thinking: Option<&str> = None;
    if config.include_thinking {
        if reasoning.is_some() {
            thinking = reasoning;
        } else if config.raw_thinking_fallback {
            if let Some((before, answer)) = split_raw_thinking(text) {
                if !before.is_empty() {
                    thinking = Some(before);
                }
                text = answer;
            } else if cut_off {
                let whole = normalize_raw_thinking(text);
                if !whole.is_empty() {
                    thinking = Some(whole);
                    text = "";
                }
            }
        }
    }
    assert(seen.thinking == text_view(thinking));
    assert(seen.text == text@);
    if let Some(thinking) = thinking {
        push_json(&mut content, thinking_block(thinking));
    }
    assert(seen.thinking is Some ==> array_view(content@) =~= seq![
        thinking_content(seen.thinking->0),
    ]);
    if !text.is_empty() {
        push_json(
            &mut content,
            Json::object(
                JsonObject::new().with("type", Json::text("text")).with("text", Json::text(text)),
            ),
        );
    }
    content
}

/// The number of tokens that the response reports under `key`.
fn usage_tokens(openai: &Json, key: &str) -> (result: u64)
    ensures
        result == usage_of(openai@, key@),
{
    match openai.get("usage") {
        Some(usage) => match usage.get_u64(key) {
            Some(n) => n,
            None => 0,
        },
        None => 0,
    }
}

/// Converts a Chat Completions response to an Anthropic message.
pub fn convert_non_stream_value(openai: &Json, config: &ResponseConfig) -> (result: Result<
    Json,
    AnthropicError,
>)
    ensures
        outcome(result) == converted_response(openai@, config@),
{
    let choice = match openai.get_array("choices") {
        Some(choices) if choices.len() > 0 => &choices[0],
        _ => {
            return Err(AnthropicError::internal("Chat Completions response has no choices"));
        },
    };
    let message = match choice.get_object("message") {
        Some(message) => message,
        None => {
            return Err(AnthropicError::internal("Chat Completions response has no message"));
        },
    };
    let ghost object = message@;
    let mut content = convert_visible(choice, message, config);
    let ghost items = tool_calls(object);
    let ghost start = array_view(content@);
    let ghost step = tool_use_step();
    if let Some(Json::Array(calls)) = message.get("tool_calls") {
        for i in 0..calls.len()
            invariant
                items == array_view(calls@),
                step == tool_use_step(),
                items == tool_calls(object),
                start == visible_content(message_visible(choice@, object, config@)),
                first_choice(openai@) == Some(choice@),
                choice@.get_object("message"@) == Some(object),
                folded(items.take(i as int), start, step) == Ok::<Seq<JsonView>, ErrorView>(
                    array_view(content@),
                ),
        {
            proof {
                lemma_folded_next(items, i as int, start, step);
            }
            let tool_call = &calls[i];
            assert(items[i as int] == tool_call@);
            let function = match tool_call.get_object("function") {
                Some(function) => function,
                None => {
                    return Err(AnthropicError::internal("tool call has no function"));
                },
            };
            let arguments = match function.get_str("arguments") {
                Some(arguments) => match parse(arguments) {
                    Ok(value) => Some(value),
                    Err(_) => None,
                },
                None => None,
            };
            push_json(&mut content, tool_use_block(tool_call, function, arguments));
        }
        assert(items.take(items.len() as int) =~= items);
    }
    let model = match openai.get_str("model") {
        Some(model) => model,
        None => config.model.as_str(),
    };
    let usage = JsonObject::new().with(
        "input_tokens",
        Json::unsigned(usage_tokens(openai, "prompt_tokens")),
    ).with("output_tokens", Json::unsigned(usage_tokens(openai, "completion_tokens")));
    Ok(
        Json::object(
            JsonObject::new().with(
                "id",
                Json::String(anthropic_message_id(openai.get_str("id"))),
            ).with("type", Json::text("message")).with("role", Json::text("assistant")).with(
                "content",
                Json::Array(content),
            ).with("model", Json::text(model)).with(
                "stop_reason",
                map_stop_reason(choice.get_str("finish_reason")),
            ).with("stop_sequence", Json::Null).with("usage", Json::object(usage)),
        ),
    )
}

/// The text that answers a request which is not streamed, from what the body of the response was
/// parsed to.
pub fn parsed_json_response(parsed: Result<Json, String>, config: &ResponseConfig) -> (result:
    Result<String, AnthropicError>)
    ensures
        outcome(result) == parsed_response_text(
            match parsed {
                Ok(openai) => Ok(openai@),
                Err(message) => Err(message@),
            },
            config@,
        ),
{
    match parsed {
        Ok(openai) => Ok(print(&convert_non_stream_value(&openai, config)?)),
        Err(message) => Err(
            AnthropicError::internal(
                "invalid Chat Completions response: ".to_string().concat(
                    message.as_str(),
                ).as_str(),
            ),
        ),
    }
}

/// The text that answers a request which is not streamed. `read` is the body of the response, or
/// why it could not be read.
pub fn json_response_text(read: Result<Vec<u8>, String>, config: &ResponseConfig) -> (result:
    Result<String, AnthropicError>)
    ensures
        outcome(result) == response_text(
            match read {
                Ok(bytes) => Ok(bytes@),
                Err(message) => Err(message@),
            },
            config@,
        ),
{
    match read {
        Ok(bytes) => parsed_json_response(parse_bytes(bytes.as_slice()), config),
        Err(message) => Err(
            AnthropicError::internal(
                "failed to read Chat Completions response: ".to_string().concat(
                    message.as_str(),
                ).as_str(),
            ),
        ),
    }
}

/// The id of a message begins with `msg_`, and an id that does is kept.
pub proof fn lemma_message_id_form(openai_id: Option<Seq<char>>)
    ensures
        begins_with(message_id(openai_id), "msg_"@),
        message_id(Some(message_id(openai_id))) == message_id(openai_id),
{
    reveal_strlit("msg_");
    reveal_strlit("msg_unknown");
    let id = message_id(openai_id);
    assert(id.subrange(0, 4) =~= "msg_"@);
}

/// A message shows its reasoning first, then its text, and then each tool call, in order.
pub proof fn lemma_content_in_order(openai: JsonView, config: ConfigView)
    requires
        converted_response(openai, config) is Ok,
    ensures
        ({
            let choice = first_choice(openai)->0;
            let message = choice.get_object("message"@)->0;
            let calls = tool_calls(message);
            let seen = visible_content(message_visible(choice, message, config));
            let content = converted_response(openai, config)->Ok_0.get_array("content"@)->0;
            &&& converted_response(openai, config)->Ok_0.get_array("content"@) is Some
            &&& content.len() == seen.len() + calls.len()
            &&& content.take(seen.len() as int) == seen
            &&& forall|i: int|
                0 <= i < calls.len() ==> Ok::<JsonView, ErrorView>(
                    #[trigger] content[seen.len() + i],
                ) == tool_use_of(calls[i])
        }),
{
    let choice = first_choice(openai)->0;
    let message = choice.get_object("message"@)->0;
    let calls = tool_calls(message);
    let seen = visible_content(message_visible(choice, message, config));
    lemma_calls_in_order(seen, calls);
    let content = folded(calls, seen, tool_use_step())->Ok_0;
    lemma_message_content(openai, choice, content, config);
}

/// Tool calls are put behind the blocks that are there.
proof fn lemma_calls_in_order(seen: Seq<JsonView>, calls: Seq<JsonView>)
    ensures
        folded(calls, seen, tool_use_step()) matches Ok(content) ==> {
            &&& content.len() == seen.len() + calls.len()
            &&& content.take(seen.len() as int) == seen
            &&& forall|i: int|
                0 <= i < calls.len() ==> Ok::<JsonView, ErrorView>(
                    #[trigger] content[seen.len() + i],
                ) == tool_use_of(calls[i])
        },
    decreases calls.len(),
{
    if calls.len() == 0 {
        assert(seen.take(seen.len() as int) =~= seen);
    } else {
        lemma_calls_in_order(seen, calls.drop_last());
        if let Ok(content) = folded(calls, seen, tool_use_step()) {
            let before = folded(calls.drop_last(), seen, tool_use_step())->Ok_0;
            assert(content.take(seen.len() as int) =~= before.take(seen.len() as int));
            assert forall|i: int| 0 <= i < calls.len() implies Ok::<JsonView, ErrorView>(
                #[trigger] content[seen.len() + i],
            ) == tool_use_of(calls[i]) by {
                if i < calls.len() - 1 {
                    assert(content[seen.len() + i] == before[seen.len() + i]);
                    assert(calls[i] == calls.drop_last()[i]);
                }
            }
        }
    }
}

/// The content of a message is found under its name.
proof fn lemma_message_content(
    openai: JsonView,
    choice: JsonView,
    content: Seq<JsonView>,
    config: ConfigView,
)
    ensures
        anthropic_message(openai, choice, content, config).get_array("content"@) == Some(content),
{
    reveal_strlit("content");
    reveal_strlit("model");
    reveal_strlit("stop_reason");
    reveal_strlit("stop_sequence");
    reveal_strlit("usage");
    let o = ObjectView::empty().with(
        "id"@,
        JsonView::String(message_id(openai.get_str("id"@))),
    ).with("type"@, JsonView::String("message"@)).with("role"@, JsonView::String("assistant"@));
    let key = "content"@;
    assert(key.len() == 7);
    assert("model"@.len() == 5 && "usage"@.len() == 5);
    assert("stop_reason"@.len() == 11 && "stop_sequence"@.len() == 13);
    lemma_with_get(o, key, JsonView::Array(content), key);
    let o = o.with(key, JsonView::Array(content));
    let model = JsonView::String(text_or(openai.get_str("model"@), config.model));
    lemma_with_get(o, "model"@, model, key);
    let o = o.with("model"@, model);
    let reason = stop_reason(choice.get_str("finish_reason"@));
    lemma_with_get(o, "stop_reason"@, reason, key);
    let o = o.with("stop_reason"@, reason);
    lemma_with_get(o, "stop_sequence"@, JsonView::Null, key);
    let o = o.with("stop_sequence"@, JsonView::Null);
    let usage = JsonView::Object(
        ObjectView::empty().with(
            "input_tokens"@,
            unsigned(usage_of(openai, "prompt_tokens"@)),
        ).with("output_tokens"@, unsigned(usage_of(openai, "completion_tokens"@))),
    );
    lemma_with_get(o, "usage"@, usage, key);
    assert(anthropic_message(openai, choice, content, config) == JsonView::Object(
        o.with("usage"@, usage),
    ));
}

/// A client that does not want to see reasoning gets none, and all of the text.
pub proof fn lemma_hidden_thinking(
    text: Seq<char>,
    reasoning: Option<Seq<char>>,
    cut_off: bool,
    config: ConfigView,
)
    requires
        !config.include_thinking,
    ensures
        visible(text, reasoning, cut_off, config) == (Visible { thinking: None, text }),
{
}

}
