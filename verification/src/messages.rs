//! The messages of a conversation.

use crate::content::{content_to_text, copy_or, field_or, plain_text, required, required_string};
use crate::error::{invalid, outcome, AnthropicError, ErrorView};
use crate::interop::{json_text, parsed_text, print, survives_text};
use crate::json::{
    array_view, extend_json, lemma_with_get, push_json, Json, JsonObject, JsonView, ObjectView,
};
use crate::response::{call_arguments, tool_use_content, tool_use_of};
use crate::text::{
    append_text, lemma_appended_on_lines, none_empty, noted, on_lines, same_text, text_view,
};
use crate::walk::{folded, lemma_folded_concat, lemma_folded_next};
use vstd::prelude::*;

verus! {

/// The assistant content gathered so far.
pub ghost struct AssistantParts {
    pub texts: Seq<Seq<char>>,
    pub reasoning: Seq<Seq<char>>,
    pub tool_calls: Seq<JsonView>,
}

/// The input of a `tool_use` block; an empty object if it has none.
pub open spec fn tool_input(block: ObjectView) -> JsonView {
    field_or(block, "input"@, JsonView::Object(ObjectView::empty()))
}

/// A tool call with the given text as its arguments.
pub open spec fn call_with_arguments(
    id: Seq<char>,
    name: Seq<char>,
    arguments: Seq<char>,
) -> JsonView {
    JsonView::Object(
        ObjectView::empty().with("id"@, JsonView::String(id)).with(
            "type"@,
            JsonView::String("function"@),
        ).with(
            "function"@,
            JsonView::Object(
                ObjectView::empty().with("name"@, JsonView::String(name)).with(
                    "arguments"@,
                    JsonView::String(arguments),
                ),
            ),
        ),
    )
}

/// The tool call for a `tool_use` block: its arguments are the text of the input.
pub open spec fn tool_call(id: Seq<char>, name: Seq<char>, input: JsonView) -> JsonView {
    call_with_arguments(id, name, json_text(input))
}

/// The input of a `tool_use` block is what reading its text gives, within the limits of the reader.
pub open spec fn input_is_read_back(block: ObjectView) -> bool {
    survives_text(tool_input(block), 127) ==> parsed_text(json_text(tool_input(block))) == Ok::<
        JsonView,
        Seq<char>,
    >(tool_input(block))
}

/// The inputs of all `tool_use` blocks in assistant content are read back from their texts.
pub open spec fn inputs_are_read_back(content: JsonView) -> bool {
    content matches JsonView::Array(blocks) ==> forall|i: int|
        0 <= i < blocks.len() && (#[trigger] blocks[i]).get_str("type"@) == Some("tool_use"@)
            ==> input_is_read_back(blocks[i]->Object_0)
}

/// The tool call for a `tool_use` block, which needs an id and a name.
pub open spec fn tool_call_of(block: ObjectView) -> Result<JsonView, ErrorView> {
    match required(block, "id"@) {
        Ok(id) => match required(block, "name"@) {
            Ok(name) => Ok(tool_call(id, name, tool_input(block))),
            Err(error) => Err(error),
        },
        Err(error) => Err(error),
    }
}

/// Takes in one block of assistant content.
pub open spec fn assistant_step() -> spec_fn(AssistantParts, JsonView) -> Result<
    AssistantParts,
    ErrorView,
> {
    |parts: AssistantParts, block: JsonView|
        match block.as_object() {
            None => Err(invalid("content block must be an object"@)),
            Some(block) => match block.get_str("type"@) {
                None => Err(invalid("content block type is required"@)),
                Some(kind) => if kind == "text"@ {
                    Ok(
                        AssistantParts {
                            texts: noted(parts.texts, block.get_str("text"@)),
                            ..parts
                        },
                    )
                } else if kind == "thinking"@ {
                    Ok(
                        AssistantParts {
                            reasoning: noted(parts.reasoning, block.get_str("thinking"@)),
                            ..parts
                        },
                    )
                } else if kind == "tool_use"@ {
                    match tool_call_of(block) {
                        Ok(call) => Ok(
                            AssistantParts { tool_calls: parts.tool_calls.push(call), ..parts },
                        ),
                        Err(error) => Err(error),
                    }
                } else if kind == "redacted_thinking"@ {
                    Ok(parts)
                } else {
                    Err(invalid("unsupported assistant content block type: "@ + kind))
                },
            },
        }
}

/// No assistant content yet.
pub open spec fn no_assistant_parts() -> AssistantParts {
    AssistantParts { texts: seq![], reasoning: seq![], tool_calls: seq![] }
}

/// The assistant message made of the given content. What is not there has no field, except the
/// text, which is null.
pub open spec fn assistant_message(parts: AssistantParts) -> JsonView {
    JsonView::Object(
        ObjectView::empty().with("role"@, JsonView::String("assistant"@)).with(
            "content"@,
            if parts.texts.len() == 0 {
                JsonView::Null
            } else {
                JsonView::String(on_lines(parts.texts))
            },
        ).with_some(
            "reasoning_content"@,
            if parts.reasoning.len() == 0 {
                None
            } else {
                Some(JsonView::String(on_lines(parts.reasoning)))
            },
        ).with_some(
            "tool_calls"@,
            if parts.tool_calls.len() == 0 {
                None
            } else {
                Some(JsonView::Array(parts.tool_calls))
            },
        ),
    )
}

/// A message of the given role.
pub open spec fn message(role: Seq<char>, content: JsonView) -> JsonView {
    JsonView::Object(
        ObjectView::empty().with("role"@, JsonView::String(role)).with("content"@, content),
    )
}

/// The message for assistant content.
pub open spec fn converted_assistant(content: JsonView) -> Result<JsonView, ErrorView> {
    match content {
        JsonView::String(_) => Ok(message("assistant"@, content)),
        JsonView::Array(blocks) => match folded(blocks, no_assistant_parts(), assistant_step()) {
            Ok(parts) => Ok(assistant_message(parts)),
            Err(error) => Err(error),
        },
        _ => Err(invalid("assistant content must be a string or content block array"@)),
    }
}

/// The place an image is to be loaded from.
pub open spec fn image_url(source: ObjectView) -> Result<Seq<char>, ErrorView> {
    match source.get_str("type"@) {
        None => Err(invalid("image source type is required"@)),
        Some(kind) => if kind == "base64"@ {
            match required(source, "media_type"@) {
                Ok(media_type) => match required(source, "data"@) {
                    Ok(data) => Ok("data:"@ + media_type + ";base64,"@ + data),
                    Err(error) => Err(error),
                },
                Err(error) => Err(error),
            }
        } else if kind == "url"@ {
            required(source, "url"@)
        } else {
            Err(invalid("unsupported image source type: "@ + kind))
        },
    }
}

/// The content part for an image block.
pub open spec fn image_part(block: ObjectView) -> Result<JsonView, ErrorView> {
    match block.get("source"@) {
        Some(JsonView::Object(source)) => match image_url(source) {
            Ok(url) => Ok(
                JsonView::Object(
                    ObjectView::empty().with("type"@, JsonView::String("image_url"@)).with(
                        "image_url"@,
                        JsonView::Object(ObjectView::empty().with("url"@, JsonView::String(url))),
                    ),
                ),
            ),
            Err(error) => Err(error),
        },
        _ => Err(invalid("image source must be an object"@)),
    }
}

/// The content part for a text block; its text is empty if it has none.
pub open spec fn text_part(block: ObjectView) -> JsonView {
    JsonView::Object(
        ObjectView::empty().with("type"@, JsonView::String("text"@)).with(
            "text"@,
            JsonView::String(
                match block.get_str("text"@) {
                    Some(text) => text,
                    None => seq![],
                },
            ),
        ),
    )
}

/// The tool message for a `tool_result` block.
pub open spec fn tool_message(block: ObjectView) -> Result<JsonView, ErrorView> {
    match required(block, "tool_use_id"@) {
        Ok(id) => {
            let content = match block.get("content"@) {
                Some(content) => plain_text(content, "tool_result"@),
                None => Ok(seq![]),
            };
            match content {
                Ok(text) => Ok(
                    JsonView::Object(
                        ObjectView::empty().with("role"@, JsonView::String("tool"@)).with(
                            "tool_call_id"@,
                            JsonView::String(id),
                        ).with("content"@, JsonView::String(text)),
                    ),
                ),
                Err(error) => Err(error),
            }
        },
        Err(error) => Err(error),
    }
}

/// The user content gathered so far: complete messages, and the parts of the next one.
pub ghost struct UserParts {
    pub messages: Seq<JsonView>,
    pub parts: Seq<JsonView>,
}

impl UserParts {
    /// The parts put into a message, if there are any.
    pub open spec fn flushed(self) -> UserParts {
        if self.parts.len() == 0 {
            self
        } else {
            UserParts {
                messages: self.messages.push(message("user"@, JsonView::Array(self.parts))),
                parts: seq![],
            }
        }
    }
}

/// Takes in one block of user content.
pub open spec fn user_step() -> spec_fn(UserParts, JsonView) -> Result<UserParts, ErrorView> {
    |state: UserParts, block: JsonView|
        match block.as_object() {
            None => Err(invalid("content block must be an object"@)),
            Some(block) => match block.get_str("type"@) {
                None => Err(invalid("content block type is required"@)),
                Some(kind) => if kind == "text"@ {
                    Ok(UserParts { parts: state.parts.push(text_part(block)), ..state })
                } else if kind == "image"@ {
                    match image_part(block) {
                        Ok(part) => Ok(UserParts { parts: state.parts.push(part), ..state }),
                        Err(error) => Err(error),
                    }
                } else if kind == "tool_result"@ {
                    match tool_message(block) {
                        Ok(result) => Ok(
                            UserParts {
                                messages: state.flushed().messages.push(result),
                                parts: seq![],
                            },
                        ),
                        Err(error) => Err(error),
                    }
                } else {
                    Err(invalid("unsupported user content block type: "@ + kind))
                },
            },
        }
}

/// No user content yet.
pub open spec fn no_user_parts() -> UserParts {
    UserParts { messages: seq![], parts: seq![] }
}

/// A list of messages and its error by their views.
pub open spec fn list_outcome(result: Result<Vec<Json>, AnthropicError>) -> Result<
    Seq<JsonView>,
    ErrorView,
> {
    match result {
        Ok(items) => Ok(array_view(items@)),
        Err(error) => Err(error@),
    }
}

/// The messages for user content: tool results stand on their own, and what lies between them is
/// one user message. There is always at least one message.
pub open spec fn converted_user(content: JsonView) -> Result<Seq<JsonView>, ErrorView> {
    match content {
        JsonView::String(_) => Ok(seq![message("user"@, content)]),
        JsonView::Array(blocks) => match folded(blocks, no_user_parts(), user_step()) {
            Ok(state) => if state.flushed().messages.len() == 0 {
                Ok(seq![message("user"@, JsonView::String(seq![]))])
            } else {
                Ok(state.flushed().messages)
            },
            Err(error) => Err(error),
        },
        _ => Err(invalid("user content must be a string or content block array"@)),
    }
}

/// The messages for one message.
pub open spec fn converted_message(item: JsonView) -> Result<Seq<JsonView>, ErrorView> {
    match item.as_object() {
        None => Err(invalid("each message must be an object"@)),
        Some(item) => match required(item, "role"@) {
            Err(error) => Err(error),
            Ok(role) => match item.get("content"@) {
                None => Err(invalid("message content is required"@)),
                Some(content) => if role == "assistant"@ {
                    match converted_assistant(content) {
                        Ok(converted) => Ok(seq![converted]),
                        Err(error) => Err(error),
                    }
                } else if role == "user"@ {
                    converted_user(content)
                } else {
                    Err(invalid("Anthropic message role must be user or assistant"@))
                },
            },
        },
    }
}

/// Takes in one message.
pub open spec fn message_step() -> spec_fn(Seq<JsonView>, JsonView) -> Result<
    Seq<JsonView>,
    ErrorView,
> {
    |converted: Seq<JsonView>, item: JsonView|
        match converted_message(item) {
            Ok(more) => Ok(converted + more),
            Err(error) => Err(error),
        }
}

/// The messages for a conversation.
pub open spec fn converted_messages(messages: Seq<JsonView>) -> Result<Seq<JsonView>, ErrorView> {
    folded(messages, seq![], message_step())
}

/// The fields of a tool call.
pub proof fn lemma_tool_call_fields(id: Seq<char>, name: Seq<char>, input: JsonView)
    ensures
        tool_call(id, name, input).get_str("id"@) == Some(id),
        tool_call(id, name, input).get_object("function"@) is Some,
        tool_call(id, name, input).get_object("function"@)->0.get_str("name"@) == Some(name),
        tool_call(id, name, input).get_object("function"@)->0.get_str("arguments"@) == Some(
            json_text(input),
        ),
{
    reveal_strlit("id");
    reveal_strlit("type");
    reveal_strlit("function");
    reveal_strlit("name");
    reveal_strlit("arguments");
    assert("id"@.len() == 2 && "type"@.len() == 4 && "function"@.len() == 8);
    assert("name"@.len() == 4 && "arguments"@.len() == 9);
    let named = ObjectView::empty().with("name"@, JsonView::String(name));
    let arguments = JsonView::String(json_text(input));
    let function = named.with("arguments"@, arguments);
    lemma_with_get(ObjectView::empty(), "name"@, JsonView::String(name), "name"@);
    lemma_with_get(named, "arguments"@, arguments, "name"@);
    lemma_with_get(named, "arguments"@, arguments, "arguments"@);
    let with_id = ObjectView::empty().with("id"@, JsonView::String(id));
    let kind = JsonView::String("function"@);
    let with_type = with_id.with("type"@, kind);
    lemma_with_get(ObjectView::empty(), "id"@, JsonView::String(id), "id"@);
    lemma_with_get(with_id, "type"@, kind, "id"@);
    lemma_with_get(with_type, "function"@, JsonView::Object(function), "id"@);
    lemma_with_get(with_type, "function"@, JsonView::Object(function), "function"@);
}

/// A client that sends back the `tool_use` block of a tool call sends the same call: the model
/// reads its own id and name, and the arguments that it gave. The call needs an id, a name and
/// arguments that are JSON.
pub proof fn lemma_tool_call_comes_back(call: JsonView, function: ObjectView, arguments: JsonView)
    requires
        call.get_object("function"@) == Some(function),
        required_call(call, function),
        call_arguments(function) == Some(arguments),
    ensures
        tool_use_of(call) matches Ok(JsonView::Object(block)) && tool_call_of(block) == Ok::<
            JsonView,
            ErrorView,
        >(tool_call(call.get_str("id"@)->0, function.get_str("name"@)->0, arguments)),
{
    let id = call.get_str("id"@)->0;
    let name = function.get_str("name"@)->0;
    reveal_strlit("id");
    reveal_strlit("type");
    reveal_strlit("name");
    reveal_strlit("input");
    assert("id"@.len() == 2 && "type"@.len() == 4 && "input"@.len() == 5);
    assert("name"@.len() == 4 && "name"@[0] == 'n');
    let kind = JsonView::String("tool_use"@);
    let with_type = ObjectView::empty().with("type"@, kind);
    let with_id = with_type.with("id"@, JsonView::String(id));
    let with_name = with_id.with("name"@, JsonView::String(name));
    lemma_with_get(with_type, "id"@, JsonView::String(id), "id"@);
    lemma_with_get(with_id, "name"@, JsonView::String(name), "id"@);
    lemma_with_get(with_name, "input"@, arguments, "id"@);
    lemma_with_get(with_id, "name"@, JsonView::String(name), "name"@);
    lemma_with_get(with_name, "input"@, arguments, "name"@);
    lemma_with_get(with_name, "input"@, arguments, "input"@);
    assert(tool_use_of(call) == Ok::<JsonView, ErrorView>(
        JsonView::Object(with_name.with("input"@, arguments)),
    ));
}

/// The call has an id and a name with something in them.
pub open spec fn required_call(call: JsonView, function: ObjectView) -> bool {
    &&& call.get_str("id"@) matches Some(id) && id.len() > 0
    &&& function.get_str("name"@) matches Some(name) && name.len() > 0
}

/// A message of the given role.
pub fn message_json(role: &str, content: Json) -> (result: Json)
    ensures
        result@ == message(role@, content@),
{
    Json::object(JsonObject::new().with("role", Json::text(role)).with("content", content))
}

/// A tool call with the given text as its arguments.
pub fn tool_call_json(id: &str, name: &str, arguments: String) -> (result: Json)
    ensures
        result@ == call_with_arguments(id@, name@, arguments@),
{
    let function = JsonObject::new().with("name", Json::text(name)).with(
        "arguments",
        Json::String(arguments),
    );
    Json::object(
        JsonObject::new().with("id", Json::text(id)).with("type", Json::text("function")).with(
            "function",
            Json::object(function),
        ),
    )
}

/// The tool call for a `tool_use` block. Its arguments are the text of the input, from which
/// reading gives the input back: the call stands for the block.
pub fn convert_tool_use(block: &JsonObject) -> (result: Result<Json, AnthropicError>)
    ensures
        outcome(result) == tool_call_of(block@),
        result is Ok && survives_text(tool_input(block@), 127) ==> tool_use_of(result->Ok_0@)
            == Ok::<JsonView, ErrorView>(
            tool_use_content(
                required(block@, "id"@)->Ok_0,
                required(block@, "name"@)->Ok_0,
                tool_input(block@),
            ),
        ),
        result is Ok ==> input_is_read_back(block@),
{
    let id = required_string(block, "id")?;
    let name = required_string(block, "name")?;
    let input = copy_or(block, "input", Json::object(JsonObject::new()));
    let arguments = print(&input);
    proof {
        lemma_tool_call_fields(id@, name@, input@);
    }
    Ok(tool_call_json(id, name, arguments))
}

/// The types of the blocks in an answer differ.
pub proof fn lemma_block_types_differ()
    ensures
        "text"@ != "thinking"@,
        "text"@ != "tool_use"@,
        "thinking"@ != "tool_use"@,
{
    reveal_strlit("text");
    reveal_strlit("thinking");
    reveal_strlit("tool_use");
    assert("text"@.len() == 4 && "thinking"@.len() == 8 && "tool_use"@.len() == 8);
    assert("thinking"@[1] == 'h' && "tool_use"@[1] == 'o');
}

/// The message for assistant content. The arguments of its tool calls are texts from which reading
/// gives the inputs of the blocks back.
pub fn convert_assistant_message(content: &Json) -> (result: Result<Json, AnthropicError>)
    ensures
        outcome(result) == converted_assistant(content@),
        result is Ok ==> inputs_are_read_back(content@),
{
    if let Some(text) = content.as_str() {
        return Ok(message_json("assistant", Json::text(text)));
    }
    let blocks = match content.as_array() {
        Some(blocks) => blocks,
        None => {
            return Err(
                AnthropicError::invalid(
                    "assistant content must be a string or content block array",
                ),
            );
        },
    };
    let ghost items = array_view(blocks@);
    let ghost start = no_assistant_parts();
    let ghost step = assistant_step();
    let ghost mut parts = start;
    let mut text = String::new();
    let mut reasoning = String::new();
    let mut tool_calls: Vec<Json> = Vec::new();
    assert(array_view(tool_calls@) =~= parts.tool_calls);
    for i in 0..blocks.len()
        invariant
            items == array_view(blocks@),
            start == no_assistant_parts(),
            step == assistant_step(),
            content@ == JsonView::Array(items),
            folded(items.take(i as int), start, step) == Ok::<AssistantParts, ErrorView>(parts),
            none_empty(parts.texts),
            none_empty(parts.reasoning),
            text@ == on_lines(parts.texts),
            reasoning@ == on_lines(parts.reasoning),
            array_view(tool_calls@) == parts.tool_calls,
            forall|j: int|
                0 <= j < i && (#[trigger] items[j]).get_str("type"@) == Some("tool_use"@)
                    ==> input_is_read_back(items[j]->Object_0),
    {
        proof {
            lemma_folded_next(items, i as int, start, step);
            lemma_block_types_differ();
            assert(items[i as int] == blocks@[i as int]@);
        }
        let block = match blocks[i].as_object() {
            Some(block) => block,
            None => {
                return Err(AnthropicError::invalid("content block must be an object"));
            },
        };
        let kind = match block.get_str("type") {
            Some(kind) => kind,
            None => {
                return Err(AnthropicError::invalid("content block type is required"));
            },
        };
        if same_text(kind, "text") {
            let part = block.get_str("text");
            proof {
                lemma_appended_on_lines(parts.texts, text_view(part));
                parts = AssistantParts { texts: noted(parts.texts, text_view(part)), ..parts };
            }
            append_text(&mut text, part);
        } else if same_text(kind, "thinking") {
            let part = block.get_str("thinking");
            proof {
                lemma_appended_on_lines(parts.reasoning, text_view(part));
                parts = AssistantParts {
                    reasoning: noted(parts.reasoning, text_view(part)),
                    ..parts
                };
            }
            append_text(&mut reasoning, part);
        } else if same_text(kind, "tool_use") {
            let call = convert_tool_use(block)?;
            proof {
                parts = AssistantParts { tool_calls: parts.tool_calls.push(call@), ..parts };
            }
            push_json(&mut tool_calls, call);
        } else if !same_text(kind, "redacted_thinking") {
            return Err(
                AnthropicError::invalid(
                    "unsupported assistant content block type: ".to_string().concat(kind).as_str(),
                ),
            );
        }
    }
    assert(items.take(items.len() as int) =~= items);
    proof {
        lemma_appended_on_lines(parts.texts, None);
        lemma_appended_on_lines(parts.reasoning, None);
    }
    let text = if text.as_str().is_empty() {
        Json::Null
    } else {
        Json::String(text)
    };
    let reasoning = if reasoning.as_str().is_empty() {
        None
    } else {
        Some(Json::String(reasoning))
    };
    let tool_calls = if tool_calls.len() == 0 {
        None
    } else {
        Some(Json::Array(tool_calls))
    };
    Ok(
        Json::object(
            JsonObject::new().with("role", Json::text("assistant")).with("content", text).with_some(
                "reasoning_content",
                reasoning,
            ).with_some("tool_calls", tool_calls),
        ),
    )
}

/// Puts the parts into a user message, if there are any.
pub fn flush_user_parts(messages: &mut Vec<Json>, parts: &mut Vec<Json>)
    ensures
        (UserParts { messages: array_view(final(messages)@), parts: array_view(final(parts)@) })
            == (UserParts {
            messages: array_view(old(messages)@),
            parts: array_view(old(parts)@),
        }).flushed(),
{
    if parts.len() > 0 {
        let mut taken: Vec<Json> = Vec::new();
        std::mem::swap(parts, &mut taken);
        push_json(messages, message_json("user", Json::Array(taken)));
        assert(array_view(parts@) =~= seq![]);
    }
}

/// The content part for an image block.
pub fn convert_image_block(block: &JsonObject) -> (result: Result<Json, AnthropicError>)
    ensures
        outcome(result) == image_part(block@),
{
    let source = match block.get("source") {
        Some(Json::Object(source)) => source,
        _ => {
            return Err(AnthropicError::invalid("image source must be an object"));
        },
    };
    let kind = match source.get_str("type") {
        Some(kind) => kind,
        None => {
            return Err(AnthropicError::invalid("image source type is required"));
        },
    };
    let url = if same_text(kind, "base64") {
        let media_type = required_string(source, "media_type")?;
        let data = required_string(source, "data")?;
        "data:".to_string().concat(media_type).concat(";base64,").concat(data)
    } else if same_text(kind, "url") {
        required_string(source, "url")?.to_string()
    } else {
        return Err(
            AnthropicError::invalid(
                "unsupported image source type: ".to_string().concat(kind).as_str(),
            ),
        );
    };
    Ok(
        Json::object(
            JsonObject::new().with("type", Json::text("image_url")).with(
                "image_url",
                Json::object(JsonObject::new().with("url", Json::String(url))),
            ),
        ),
    )
}

/// The tool message for a `tool_result` block.
pub fn convert_tool_result(block: &JsonObject) -> (result: Result<Json, AnthropicError>)
    ensures
        outcome(result) == tool_message(block@),
{
    let id = required_string(block, "tool_use_id")?;
    let text = match block.get("content") {
        Some(content) => content_to_text(content, "tool_result")?,
        None => String::new(),
    };
    Ok(
        Json::object(
            JsonObject::new().with("role", Json::text("tool")).with(
                "tool_call_id",
                Json::text(id),
            ).with("content", Json::String(text)),
        ),
    )
}

/// The content part for a text block.
fn convert_text_block(block: &JsonObject) -> (result: Json)
    ensures
        result@ == text_part(block@),
{
    let text = match block.get_str("text") {
        Some(text) => text.to_string(),
        None => String::new(),
    };
    Json::object(
        JsonObject::new().with("type", Json::text("text")).with("text", Json::String(text)),
    )
}

/// A list with one value in it.
fn single(item: Json) -> (result: Vec<Json>)
    ensures
        array_view(result@) == seq![item@],
{
    let mut items: Vec<Json> = Vec::new();
    items.push(item);
    assert(array_view(items@) =~= seq![item@]);
    items
}

/// The messages for user content.
pub fn convert_user_message(content: &Json) -> (result: Result<Vec<Json>, AnthropicError>)
    ensures
        list_outcome(result) == converted_user(content@),
{
    if let Some(text) = content.as_str() {
        return Ok(single(message_json("user", Json::text(text))));
    }
    let blocks = match content.as_array() {
        Some(blocks) => blocks,
        None => {
            return Err(
                AnthropicError::invalid("user content must be a string or content block array"),
            );
        },
    };
    let ghost items = array_view(blocks@);
    let ghost start = no_user_parts();
    let ghost step = user_step();
    let ghost mut state = start;
    let mut messages: Vec<Json> = Vec::new();
    let mut parts: Vec<Json> = Vec::new();
    assert(array_view(messages@) =~= state.messages);
    assert(array_view(parts@) =~= state.parts);
    for i in 0..blocks.len()
        invariant
            items == array_view(blocks@),
            start == no_user_parts(),
            step == user_step(),
            content@ == JsonView::Array(items),
            folded(items.take(i as int), start, step) == Ok::<UserParts, ErrorView>(state),
            array_view(messages@) == state.messages,
            array_view(parts@) == state.parts,
    {
        proof {
            lemma_folded_next(items, i as int, start, step);
        }
        let block = match blocks[i].as_object() {
            Some(block) => block,
            None => {
                return Err(AnthropicError::invalid("content block must be an object"));
            },
        };
        let kind = match block.get_str("type") {
            Some(kind) => kind,
            None => {
                return Err(AnthropicError::invalid("content block type is required"));
            },
        };
        if same_text(kind, "text") {
            push_json(&mut parts, convert_text_block(block));
            proof {
                state = UserParts { parts: array_view(parts@), ..state };
            }
        } else if same_text(kind, "image") {
            let part = convert_image_block(block)?;
            push_json(&mut parts, part);
            proof {
                state = UserParts { parts: array_view(parts@), ..state };
            }
        } else if same_text(kind, "tool_result") {
            flush_user_parts(&mut messages, &mut parts);
            let result = convert_tool_result(block)?;
            push_json(&mut messages, result);
            proof {
                state = UserParts {
                    messages: state.flushed().messages.push(result@),
                    parts: seq![],
                };
            }
        } else {
            return Err(
                AnthropicError::invalid(
                    "unsupported user content block type: ".to_string().concat(kind).as_str(),
                ),
            );
        }
    }
    assert(items.take(items.len() as int) =~= items);
    flush_user_parts(&mut messages, &mut parts);
    if messages.len() == 0 {
        return Ok(single(message_json("user", Json::String(String::new()))));
    }
    Ok(messages)
}

/// The messages for one message.
pub fn convert_message(item: &Json) -> (result: Result<Vec<Json>, AnthropicError>)
    ensures
        list_outcome(result) == converted_message(item@),
{
    let item = match item.as_object() {
        Some(item) => item,
        None => {
            return Err(AnthropicError::invalid("each message must be an object"));
        },
    };
    let role = required_string(item, "role")?;
    let content = match item.get("content") {
        Some(content) => content,
        None => {
            return Err(AnthropicError::invalid("message content is required"));
        },
    };
    if same_text(role, "assistant") {
        Ok(single(convert_assistant_message(content)?))
    } else if same_text(role, "user") {
        convert_user_message(content)
    } else {
        Err(AnthropicError::invalid("Anthropic message role must be user or assistant"))
    }
}

/// The messages for a conversation.
pub fn convert_messages(messages: &Vec<Json>) -> (result: Result<Vec<Json>, AnthropicError>)
    ensures
        list_outcome(result) == converted_messages(array_view(messages@)),
{
    let ghost items = array_view(messages@);
    let ghost start: Seq<JsonView> = seq![];
    let ghost step = message_step();
    let mut converted: Vec<Json> = Vec::new();
    assert(array_view(converted@) =~= start);
    for i in 0..messages.len()
        invariant
            items == array_view(messages@),
            start == Seq::<JsonView>::empty(),
            step == message_step(),
            folded(items.take(i as int), start, step) == Ok::<Seq<JsonView>, ErrorView>(
                array_view(converted@),
            ),
    {
        proof {
            lemma_folded_next(items, i as int, start, step);
        }
        let more = convert_message(&messages[i])?;
        extend_json(&mut converted, more);
    }
    assert(items.take(items.len() as int) =~= items);
    Ok(converted)
}

/// A conversation is converted message by message: what has been converted does not change when
/// the conversation goes on, and the first message that is refused is the one that counts.
pub proof fn lemma_conversation_goes_on(earlier: Seq<JsonView>, later: Seq<JsonView>)
    ensures
        converted_messages(earlier + later) == match converted_messages(earlier) {
            Ok(before) => match converted_messages(later) {
                Ok(after) => Ok(before + after),
                Err(error) => Err(error),
            },
            Err(error) => Err(error),
        },
{
    lemma_folded_concat(earlier, later, seq![], message_step());
    if let Ok(before) = converted_messages(earlier) {
        lemma_messages_after(before, later);
    }
}

/// Messages are put behind those that are there.
proof fn lemma_messages_after(before: Seq<JsonView>, later: Seq<JsonView>)
    ensures
        folded(later, before, message_step()) == match converted_messages(later) {
            Ok(after) => Ok(before + after),
            Err(error) => Err(error),
        },
    decreases later.len(),
{
    if later.len() == 0 {
        assert(before + Seq::<JsonView>::empty() =~= before);
    } else {
        lemma_messages_after(before, later.drop_last());
        if let (Ok(after), Ok(more)) = (
            converted_messages(later.drop_last()),
            converted_message(later.last()),
        ) {
            assert(before + after + more =~= before + (after + more));
        }
    }
}

/// No message is lost: each becomes one message or more.
pub proof fn lemma_no_message_is_lost(messages: Seq<JsonView>)
    ensures
        converted_messages(messages) matches Ok(converted) ==> converted.len() >= messages.len(),
    decreases messages.len(),
{
    if messages.len() > 0 {
        lemma_no_message_is_lost(messages.drop_last());
    }
}

}
