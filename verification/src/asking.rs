//! What the model is asked: how each part of a request reaches it, and why a request is refused.

use crate::content::{plain_text, required, text_step};
use crate::error::ErrorView;
use crate::interop::json_text;
use crate::json::{JsonView, ObjectView};
use crate::messages::{
    assistant_message, assistant_step, converted_assistant, converted_message, converted_messages,
    converted_user, image_part, no_assistant_parts, no_user_parts, text_part,
    tool_message, user_step, AssistantParts, UserParts,
};
use crate::shapes::{
    lemma_message_shapes, lemma_names, lemma_one_field, lemma_three_fields, lemma_two_fields,
    object, text,
};
use crate::text::{none_empty, noted, on_lines};
use crate::tools::{converted_tool_choice, converted_tools};
use crate::walk::folded;
use vstd::prelude::*;

verus! {

/// The answer to a request that is refused for the given reason.
pub open spec fn refused(reason: Seq<char>) -> ErrorView {
    ErrorView { status: 400, error_type: "invalid_request_error"@, message: reason }
}

/// What is given, or else the default.
pub open spec fn given(value: Option<JsonView>, default: JsonView) -> JsonView {
    match value {
        Some(value) => value,
        None => default,
    }
}

/// A field that has to be there is there, is a text and is not empty.
pub proof fn lemma_required(source: ObjectView, field: Seq<char>)
    ensures
        required(source, field) == match source.get(field) {
            Some(JsonView::String(value)) if value.len() > 0 => Ok(value),
            _ => Err(refused(field + " must be a non-empty string"@)),
        },
{
}

/// A text is taken as it is, no blocks are no text, and nothing but a text or a list of blocks is
/// taken.
pub proof fn lemma_plain_text(content: JsonView, field: Seq<char>)
    ensures
        content matches JsonView::String(value) ==> plain_text(content, field) == Ok::<
            Seq<char>,
            ErrorView,
        >(value),
        content == JsonView::Array(seq![]) ==> plain_text(content, field) == Ok::<
            Seq<char>,
            ErrorView,
        >(seq![]),
        !(content is String) && !(content is Array) ==> plain_text(content, field) == Err::<
            Seq<char>,
            ErrorView,
        >(refused(field + " content must be a string or block array"@)),
{
}

/// The text of some blocks and one more: the text of the block stands behind on a line of its own.
/// A block that is no text is refused, and the first refusal counts.
pub proof fn lemma_plain_text_grows(blocks: Seq<JsonView>, block: JsonView, field: Seq<char>)
    ensures
        plain_text(JsonView::Array(blocks.push(block)), field) == match plain_text(
            JsonView::Array(blocks),
            field,
        ) {
            Err(error) => Err(error),
            Ok(before) => match block {
                JsonView::Object(block) => if block.get("type"@) == Some(
                    JsonView::String("text"@),
                ) {
                    match block.get("text"@) {
                        Some(JsonView::String(value)) if value.len() > 0 => if before.len() > 0 {
                            Ok(before + seq!['\n'] + value)
                        } else {
                            Ok(value)
                        },
                        _ => Ok(before),
                    }
                } else {
                    Err(refused(field + " only supports text blocks"@))
                },
                _ => Err(refused(field + " block must be an object"@)),
            },
        },
{
    assert(blocks.push(block).drop_last() =~= blocks);
    if let Ok(texts) = folded(blocks, Seq::<Seq<char>>::empty(), text_step(field)) {
        lemma_texts_filled(blocks, field);
        lemma_line_added(texts, block);
    }
}

proof fn lemma_line_added(texts: Seq<Seq<char>>, block: JsonView)
    requires
        none_empty(texts),
    ensures
        on_lines(texts).len() > 0 <==> texts.len() > 0,
        block matches JsonView::Object(block) ==> forall|key: Seq<char>|
            on_lines(noted(texts, #[trigger] block.get_str(key))) == match block.get(key) {
                Some(JsonView::String(value)) if value.len() > 0 => if texts.len() > 0 {
                    on_lines(texts) + seq!['\n'] + value
                } else {
                    value
                },
                _ => on_lines(texts),
            },
{
    crate::text::lemma_appended_on_lines(texts, None);
    if let JsonView::Object(block) = block {
        assert forall|key: Seq<char>|
            on_lines(noted(texts, #[trigger] block.get_str(key))) == match block.get(key) {
                Some(JsonView::String(value)) if value.len() > 0 => if texts.len() > 0 {
                    on_lines(texts) + seq!['\n'] + value
                } else {
                    value
                },
                _ => on_lines(texts),
            } by {
            if let Some(value) = block.get_str(key) {
                assert(texts.push(value).drop_last() =~= texts);
            }
        }
    }
}

proof fn lemma_texts_filled(blocks: Seq<JsonView>, field: Seq<char>)
    ensures
        folded(blocks, Seq::<Seq<char>>::empty(), text_step(field)) matches Ok(texts)
            ==> none_empty(texts),
    decreases blocks.len(),
{
    if blocks.len() > 0 {
        lemma_texts_filled(blocks.drop_last(), field);
    }
}

/// A tool result becomes a message of the tool: the id of the call that it answers, and as content
/// the text of the result. A result without content is empty.
pub proof fn lemma_tool_result(block: ObjectView)
    ensures
        tool_message(block) == match required(block, "tool_use_id"@) {
            Err(error) => Err(error),
            Ok(id) => match block.get("content"@) {
                None => Ok(answer_of_tool(id, seq![])),
                Some(JsonView::String(value)) => Ok(answer_of_tool(id, value)),
                Some(content) => match plain_text(content, "tool_result"@) {
                    Ok(value) => Ok(answer_of_tool(id, value)),
                    Err(error) => Err(error),
                },
            },
        },
{
    lemma_names();
    if let Ok(id) = required(block, "tool_use_id"@) {
        let content = match block.get("content"@) {
            None => Ok(seq![]),
            Some(content) => plain_text(content, "tool_result"@),
        };
        if let Ok(value) = content {
            lemma_three_fields(
                "role"@,
                JsonView::String("tool"@),
                "tool_call_id"@,
                JsonView::String(id),
                "content"@,
                JsonView::String(value),
            );
        }
    }
}

/// The message of a tool.
pub open spec fn answer_of_tool(id: Seq<char>, value: Seq<char>) -> JsonView {
    object(seq![text("role"@, "tool"@), text("tool_call_id"@, id), text("content"@, value)])
}

/// The place of an image: the place that is given, or the data itself with its type.
pub proof fn lemma_image(block: ObjectView)
    ensures
        image_part(block) == match block.get("source"@) {
            Some(JsonView::Object(source)) => match source.get("type"@) {
                Some(JsonView::String(kind)) => if kind == "base64"@ {
                    match (required(source, "media_type"@), required(source, "data"@)) {
                        (Ok(media), Ok(data)) => Ok(
                            image_at("data:"@ + media + ";base64,"@ + data),
                        ),
                        (Err(error), _) => Err(error),
                        (_, Err(error)) => Err(error),
                    }
                } else if kind == "url"@ {
                    match required(source, "url"@) {
                        Ok(url) => Ok(image_at(url)),
                        Err(error) => Err(error),
                    }
                } else {
                    Err(refused("unsupported image source type: "@ + kind))
                },
                _ => Err(refused("image source type is required"@)),
            },
            _ => Err(refused("image source must be an object"@)),
        },
{
    lemma_names();
    if let Some(JsonView::Object(source)) = block.get("source"@) {
        if let Ok(url) = crate::messages::image_url(source) {
            lemma_one_field("url"@, JsonView::String(url));
            lemma_two_fields(
                "type"@,
                JsonView::String("image_url"@),
                "image_url"@,
                JsonView::Object(ObjectView::empty().with("url"@, JsonView::String(url))),
            );
        }
    }
}

/// The part of a message that shows an image.
pub open spec fn image_at(url: Seq<char>) -> JsonView {
    object(
        seq![
            text("type"@, "image_url"@),
            ("image_url"@, object(seq![text("url"@, url)])),
        ],
    )
}

/// The text that is given, or else no text.
pub open spec fn text_given(value: Option<JsonView>) -> Seq<char> {
    match value {
        Some(JsonView::String(value)) => value,
        _ => seq![],
    }
}

/// The part of a message that is text: the text of the block, or no text.
pub proof fn lemma_text_part(block: ObjectView)
    ensures
        text_part(block) == object(
            seq![
                text("type"@, "text"@),
                text("text"@, text_given(block.get("text"@))),
            ],
        ),
{
    lemma_names();
    let value = text_given(block.get("text"@));
    lemma_two_fields("type"@, JsonView::String("text"@), "text"@, JsonView::String(value));
    assert(text_part(block) == JsonView::Object(
        ObjectView::empty().with("type"@, JsonView::String("text"@)).with(
            "text"@,
            JsonView::String(value),
        ),
    ));
}

/// An assistant message with the given text, reasoning and tool calls; what is not there has no
/// field, except the text, which is null.
pub open spec fn assistant(
    content: Option<Seq<char>>,
    reasoning: Option<Seq<char>>,
    calls: Seq<JsonView>,
) -> JsonView {
    let first = seq![
        text("role"@, "assistant"@),
        (
            "content"@,
            match content {
                Some(value) => JsonView::String(value),
                None => JsonView::Null,
            },
        ),
    ];
    let second = match reasoning {
        Some(value) => first.push(text("reasoning_content"@, value)),
        None => first,
    };
    object(
        if calls.len() > 0 {
            second.push(("tool_calls"@, JsonView::Array(calls)))
        } else {
            second
        },
    )
}

spec fn lines_of(texts: Seq<Seq<char>>) -> Option<Seq<char>> {
    if texts.len() == 0 {
        None
    } else {
        Some(on_lines(texts))
    }
}

proof fn lemma_assistant_shape(parts: AssistantParts)
    ensures
        assistant_message(parts) == assistant(
            lines_of(parts.texts),
            lines_of(parts.reasoning),
            parts.tool_calls,
        ),
{
    lemma_names();
    let role = JsonView::String("assistant"@);
    let content = match lines_of(parts.texts) {
        Some(value) => JsonView::String(value),
        None => JsonView::Null,
    };
    lemma_two_fields("role"@, role, "content"@, content);
    let two = ObjectView::empty().with("role"@, role).with("content"@, content);
    let reasoning = match lines_of(parts.reasoning) {
        Some(value) => Some(JsonView::String(value)),
        None => None,
    };
    if let Some(value) = reasoning {
        crate::json::lemma_with_new(two, "reasoning_content"@, value);
    }
    let three = two.with_some("reasoning_content"@, reasoning);
    if parts.tool_calls.len() > 0 {
        crate::json::lemma_with_new(three, "tool_calls"@, JsonView::Array(parts.tool_calls));
    }
    let wanted = assistant(lines_of(parts.texts), lines_of(parts.reasoning), parts.tool_calls);
    assert(assistant_message(parts)->Object_0.fields =~= wanted->Object_0.fields);
}

/// The parts of an assistant message are told apart.
proof fn lemma_assistant_parts(
    content: Option<Seq<char>>,
    reasoning: Option<Seq<char>>,
    calls: Seq<JsonView>,
    content2: Option<Seq<char>>,
    reasoning2: Option<Seq<char>>,
    calls2: Seq<JsonView>,
)
    requires
        assistant(content, reasoning, calls) == assistant(content2, reasoning2, calls2),
    ensures
        content == content2,
        reasoning == reasoning2,
        calls == calls2,
{
    lemma_names();
    let a = assistant(content, reasoning, calls)->Object_0.fields;
    let b = assistant(content2, reasoning2, calls2)->Object_0.fields;
    assert(a == b);
    assert(a[1] == b[1]);
    if a.len() > 2 {
        assert(a[2] == b[2]);
    }
    if a.len() > 3 {
        assert(a[3] == b[3]);
    }
    if calls.len() == 0 && calls2.len() == 0 {
        assert(calls =~= calls2);
    }
}

proof fn lemma_parts_filled(blocks: Seq<JsonView>)
    ensures
        folded(blocks, no_assistant_parts(), assistant_step()) matches Ok(parts) ==> none_empty(
            parts.texts,
        ) && none_empty(parts.reasoning),
    decreases blocks.len(),
{
    if blocks.len() > 0 {
        lemma_parts_filled(blocks.drop_last());
    }
}

/// Assistant content that is a text is taken as it is; no blocks are no content; and nothing but a
/// text or a list of blocks is taken.
pub proof fn lemma_assistant_content(content: JsonView)
    ensures
        content matches JsonView::String(value) ==> converted_assistant(content) == Ok::<
            JsonView,
            ErrorView,
        >(object(seq![text("role"@, "assistant"@), text("content"@, value)])),
        content == JsonView::Array(seq![]) ==> converted_assistant(content) == Ok::<
            JsonView,
            ErrorView,
        >(assistant(None, None, seq![])),
        !(content is String) && !(content is Array) ==> converted_assistant(content) == Err::<
            JsonView,
            ErrorView,
        >(refused("assistant content must be a string or content block array"@)),
{
    lemma_message_shapes(seq![], "assistant"@, seq![], content);
    lemma_assistant_shape(no_assistant_parts());
}

/// The text with one more on a line of its own.
pub open spec fn with_line(before: Option<Seq<char>>, line: Option<JsonView>) -> Option<Seq<char>> {
    match line {
        Some(JsonView::String(value)) if value.len() > 0 => match before {
            Some(before) => Some(before + seq!['\n'] + value),
            None => Some(value),
        },
        _ => before,
    }
}

/// The tool call for the use of a tool, whose input is an empty object if none is given.
pub open spec fn call_for(id: Seq<char>, name: Seq<char>, block: ObjectView) -> JsonView {
    object(
        seq![
            text("id"@, id),
            text("type"@, "function"@),
            (
                "function"@,
                object(
                    seq![
                        text("name"@, name),
                        text("arguments"@, json_text(given(block.get("input"@), object(seq![])))),
                    ],
                ),
            ),
        ],
    )
}

/// The assistant message for some blocks and one more. Text is added to the text and reasoning to
/// the reasoning, each on a line of its own; the use of a tool becomes one more tool call with its
/// id, its name and the text of its input; reasoning that is hidden is left out; and any other
/// block is refused.
pub proof fn lemma_assistant_grows(
    blocks: Seq<JsonView>,
    block: JsonView,
    content: Option<Seq<char>>,
    reasoning: Option<Seq<char>>,
    calls: Seq<JsonView>,
)
    requires
        converted_assistant(JsonView::Array(blocks)) == Ok::<JsonView, ErrorView>(
            assistant(content, reasoning, calls),
        ),
    ensures
        converted_assistant(JsonView::Array(blocks.push(block))) == match block {
            JsonView::Object(block) => match block.get("type"@) {
                Some(JsonView::String(kind)) => if kind == "text"@ {
                    Ok(assistant(with_line(content, block.get("text"@)), reasoning, calls))
                } else if kind == "thinking"@ {
                    Ok(assistant(content, with_line(reasoning, block.get("thinking"@)), calls))
                } else if kind == "tool_use"@ {
                    match (required(block, "id"@), required(block, "name"@)) {
                        (Ok(id), Ok(name)) => Ok(
                            assistant(content, reasoning, calls.push(call_for(id, name, block))),
                        ),
                        (Err(error), _) => Err(error),
                        (_, Err(error)) => Err(error),
                    }
                } else if kind == "redacted_thinking"@ {
                    Ok(assistant(content, reasoning, calls))
                } else {
                    Err(refused("unsupported assistant content block type: "@ + kind))
                },
                _ => Err(refused("content block type is required"@)),
            },
            _ => Err(refused("content block must be an object"@)),
        },
{
    assert(blocks.push(block).drop_last() =~= blocks);
    let parts = folded(blocks, no_assistant_parts(), assistant_step())->Ok_0;
    lemma_parts_filled(blocks);
    lemma_assistant_shape(parts);
    lemma_assistant_parts(
        content,
        reasoning,
        calls,
        lines_of(parts.texts),
        lines_of(parts.reasoning),
        parts.tool_calls,
    );
    lemma_line_added(parts.texts, block);
    lemma_line_added(parts.reasoning, block);
    if let Ok(after) = folded(blocks.push(block), no_assistant_parts(), assistant_step()) {
        lemma_assistant_shape(after);
    }
    if let JsonView::Object(block) = block {
        if let (Ok(id), Ok(name)) = (required(block, "id"@), required(block, "name"@)) {
            let input = crate::messages::tool_input(block);
            assert(ObjectView::empty().fields =~= seq![]);
            assert(JsonView::Object(ObjectView::empty()) == object(seq![]));
            assert(input == given(block.get("input"@), object(seq![])));
            lemma_message_shapes(id, name, json_text(input), input);
            assert(crate::messages::tool_call_of(block) == Ok::<JsonView, ErrorView>(
                call_for(id, name, block),
            ));
        }
    }
}

/// An error among the first blocks, messages or tools is the error of the whole list.
pub proof fn lemma_first_refusal_counts(items: Seq<JsonView>, item: JsonView)
    ensures
        converted_assistant(JsonView::Array(items)) matches Err(error) ==> converted_assistant(
            JsonView::Array(items.push(item)),
        ) == Err::<JsonView, ErrorView>(error),
        converted_user(JsonView::Array(items)) matches Err(error) ==> converted_user(
            JsonView::Array(items.push(item)),
        ) == Err::<Seq<JsonView>, ErrorView>(error),
        converted_messages(items) matches Err(error) ==> converted_messages(items.push(item))
            == Err::<Seq<JsonView>, ErrorView>(error),
        converted_tools(JsonView::Array(items)) matches Err(error) ==> converted_tools(
            JsonView::Array(items.push(item)),
        ) == Err::<JsonView, ErrorView>(error),
{
    assert(items.push(item).drop_last() =~= items);
}

/// A user message with the given parts.
pub open spec fn user_parts(parts: Seq<JsonView>) -> JsonView {
    object(seq![text("role"@, "user"@), ("content"@, JsonView::Array(parts))])
}

/// User content that is a text is taken as it is; no blocks are an empty message; and nothing but
/// a text or a list of blocks is taken.
pub proof fn lemma_user_content(content: JsonView)
    ensures
        content matches JsonView::String(value) ==> converted_user(content) == Ok::<
            Seq<JsonView>,
            ErrorView,
        >(seq![object(seq![text("role"@, "user"@), text("content"@, value)])]),
        content == JsonView::Array(seq![]) ==> converted_user(content) == Ok::<
            Seq<JsonView>,
            ErrorView,
        >(seq![object(seq![text("role"@, "user"@), text("content"@, seq![])])]),
        !(content is String) && !(content is Array) ==> converted_user(content) == Err::<
            Seq<JsonView>,
            ErrorView,
        >(refused("user content must be a string or content block array"@)),
{
    lemma_message_shapes(seq![], "user"@, seq![], content);
    lemma_message_shapes(seq![], "user"@, seq![], JsonView::String(seq![]));
}

/// The type that a block gives.
pub open spec fn type_of(block: JsonView) -> Option<JsonView> {
    match block {
        JsonView::Object(block) => block.get("type"@),
        _ => None,
    }
}

/// The messages that stand before the next block of user content; none if there are no blocks.
pub open spec fn messages_before(blocks: Seq<JsonView>) -> Seq<JsonView> {
    if blocks.len() == 0 {
        seq![]
    } else {
        converted_user(JsonView::Array(blocks))->Ok_0
    }
}

/// The last block is a part of a message that goes on.
pub open spec fn part_is_open(blocks: Seq<JsonView>) -> bool {
    blocks.len() > 0 && type_of(blocks.last()) != Some(JsonView::String("tool_result"@))
}

proof fn lemma_kinds_differ()
    ensures
        "text"@ != "image"@,
        "text"@ != "tool_result"@,
        "image"@ != "tool_result"@,
{
    reveal_strlit("text");
    reveal_strlit("image");
    reveal_strlit("tool_result");
    assert("text"@.len() == 4 && "image"@.len() == 5 && "tool_result"@.len() == 11);
}

proof fn lemma_user_state(blocks: Seq<JsonView>)
    requires
        folded(blocks, no_user_parts(), user_step()) is Ok,
    ensures
        ({
            let state = folded(blocks, no_user_parts(), user_step())->Ok_0;
            &&& part_is_open(blocks) <==> state.parts.len() > 0
            &&& messages_before(blocks) == state.flushed().messages
            &&& state.parts.len() > 0 ==> state.flushed().messages == state.messages.push(
                user_parts(state.parts),
            )
        }),
{
    lemma_kinds_differ();
    let state = folded(blocks, no_user_parts(), user_step())->Ok_0;
    lemma_message_shapes(seq![], "user"@, seq![], JsonView::Array(state.parts));
    if blocks.len() > 0 {
        let last = blocks.last();
        let before = folded(blocks.drop_last(), no_user_parts(), user_step())->Ok_0;
        assert(user_step()(before, last) == Ok::<UserParts, ErrorView>(state));
    }
}

/// The messages for some blocks of user content and one more. Text and images are parts of a user
/// message, which goes on from one to the next; a tool result is a message of its own; and any
/// other block is refused. What has been converted stays.
pub proof fn lemma_user_grows(blocks: Seq<JsonView>, block: JsonView)
    requires
        converted_user(JsonView::Array(blocks)) is Ok,
    ensures
        ({
            let before = messages_before(blocks);
            let after = converted_user(JsonView::Array(blocks.push(block)));
            match block {
                JsonView::Object(fields) => match fields.get("type"@) {
                    Some(JsonView::String(kind)) => if kind == "text"@ {
                        after matches Ok(after) && part_added(
                            blocks,
                            before,
                            text_part(fields),
                            after,
                        )
                    } else if kind == "image"@ {
                        match image_part(fields) {
                            Ok(part) => after matches Ok(after) && part_added(
                                blocks,
                                before,
                                part,
                                after,
                            ),
                            Err(error) => after == Err::<Seq<JsonView>, ErrorView>(error),
                        }
                    } else if kind == "tool_result"@ {
                        match tool_message(fields) {
                            Ok(result) => after == Ok::<Seq<JsonView>, ErrorView>(
                                before.push(result),
                            ),
                            Err(error) => after == Err::<Seq<JsonView>, ErrorView>(error),
                        }
                    } else {
                        after == Err::<Seq<JsonView>, ErrorView>(
                            refused("unsupported user content block type: "@ + kind),
                        )
                    },
                    _ => after == Err::<Seq<JsonView>, ErrorView>(
                        refused("content block type is required"@),
                    ),
                },
                _ => after == Err::<Seq<JsonView>, ErrorView>(
                    refused("content block must be an object"@),
                ),
            }
        }),
{
    assert(blocks.push(block).drop_last() =~= blocks);
    lemma_user_state(blocks);
    let state = folded(blocks, no_user_parts(), user_step())->Ok_0;
    if let Ok(next) = folded(blocks.push(block), no_user_parts(), user_step()) {
        lemma_user_state(blocks.push(block));
        if next.parts.len() > 0 {
            assert(next.messages == state.messages);
            assert(next.parts =~= state.parts.push(next.parts.last()));
            if state.parts.len() > 0 {
                assert(state.flushed().messages.drop_last() =~= state.messages);
                assert(state.flushed().messages.last() == user_parts(state.parts));
            } else {
                assert(state.parts =~= seq![]);
                assert(next.parts =~= seq![next.parts.last()]);
            }
        }
    }
}

/// A part has been added to the message that goes on, or begins a message of its own.
pub open spec fn part_added(
    blocks: Seq<JsonView>,
    before: Seq<JsonView>,
    part: JsonView,
    after: Seq<JsonView>,
) -> bool {
    if part_is_open(blocks) {
        exists|parts: Seq<JsonView>|
            before.last() == #[trigger] user_parts(parts) && after == before.drop_last().push(
                user_parts(parts.push(part)),
            )
    } else {
        after == before.push(user_parts(seq![part]))
    }
}

/// Each message of a conversation is converted by its role, and one after the other.
pub proof fn lemma_conversation(messages: Seq<JsonView>, item: JsonView)
    ensures
        converted_messages(Seq::<JsonView>::empty()) == Ok::<Seq<JsonView>, ErrorView>(seq![]),
        converted_messages(messages) matches Ok(before) ==> converted_messages(messages.push(item))
            == match converted_message(item) {
            Ok(after) => Ok(before + after),
            Err(error) => Err(error),
        },
        converted_message(item) == match item {
            JsonView::Object(fields) => match required(fields, "role"@) {
                Err(error) => Err(error),
                Ok(role) => match fields.get("content"@) {
                    None => Err(refused("message content is required"@)),
                    Some(content) => if role == "user"@ {
                        converted_user(content)
                    } else if role == "assistant"@ {
                        match converted_assistant(content) {
                            Ok(answer) => Ok(seq![answer]),
                            Err(error) => Err(error),
                        }
                    } else {
                        Err(refused("Anthropic message role must be user or assistant"@))
                    },
                },
            },
            _ => Err(refused("each message must be an object"@)),
        },
{
    assert(messages.push(item).drop_last() =~= messages);
    reveal_strlit("user");
    reveal_strlit("assistant");
    assert("user"@.len() == 4 && "assistant"@.len() == 9);
}

/// The definition of a function for a tool: the name, the description and the schema that the tool
/// has, each whatever the others are. Without a description it is null, and without a schema any
/// object is taken.
pub open spec fn defined_by(tool: ObjectView, name: Seq<char>) -> JsonView {
    object(
        seq![
            text("type"@, "function"@),
            (
                "function"@,
                object(
                    seq![
                        text("name"@, name),
                        ("description"@, given(tool.get("description"@), JsonView::Null)),
                        (
                            "parameters"@,
                            given(
                                tool.get("input_schema"@),
                                object(seq![text("type"@, "object"@)]),
                            ),
                        ),
                    ],
                ),
            ),
        ],
    )
}

/// The definitions for some tools and one more.
pub proof fn lemma_tools_grow(tools: Seq<JsonView>, tool: JsonView, before: Seq<JsonView>)
    requires
        converted_tools(JsonView::Array(tools)) == Ok::<JsonView, ErrorView>(
            JsonView::Array(before),
        ),
    ensures
        converted_tools(JsonView::Array(tools.push(tool))) == match tool {
            JsonView::Object(fields) => match required(fields, "name"@) {
                Ok(name) => Ok(JsonView::Array(before.push(defined_by(fields, name)))),
                Err(error) => Err(error),
            },
            _ => Err(refused("each tool must be an object"@)),
        },
{
    assert(tools.push(tool).drop_last() =~= tools);
    if let JsonView::Object(fields) = tool {
        if let Ok(name) = required(fields, "name"@) {
            lemma_tool_shape(fields, name);
        }
    }
}

proof fn lemma_tool_shape(tool: ObjectView, name: Seq<char>)
    ensures
        crate::tools::function_tool(tool, name) == defined_by(tool, name),
{
    lemma_names();
    lemma_one_field("type"@, JsonView::String("object"@));
    let any = JsonView::Object(ObjectView::empty().with("type"@, JsonView::String("object"@)));
    let description = given(tool.get("description"@), JsonView::Null);
    let schema = given(tool.get("input_schema"@), any);
    lemma_three_fields(
        "name"@,
        JsonView::String(name),
        "description"@,
        description,
        "parameters"@,
        schema,
    );
    let function = ObjectView::empty().with("name"@, JsonView::String(name)).with(
        "description"@,
        description,
    ).with("parameters"@, schema);
    assert(any == object(seq![text("type"@, "object"@)]));
    assert(crate::tools::function_tool(tool, name) == JsonView::Object(
        ObjectView::empty().with("type"@, JsonView::String("function"@)).with(
            "function"@,
            JsonView::Object(function),
        ),
    ));
    lemma_two_fields(
        "type"@,
        JsonView::String("function"@),
        "function"@,
        JsonView::Object(function),
    );
}

/// No tools are no definitions, and nothing but a list of tools is taken.
pub proof fn lemma_tools(tools: JsonView)
    ensures
        tools == JsonView::Array(seq![]) ==> converted_tools(tools) == Ok::<JsonView, ErrorView>(
            JsonView::Array(seq![]),
        ),
        !(tools is Array) ==> converted_tools(tools) == Err::<JsonView, ErrorView>(
            refused("tools must be an array"@),
        ),
{
}

/// The choice of a tool keeps its meaning: the model may choose, has to choose, may not choose, or
/// has to take the named tool; and several calls at once are allowed unless they are disabled.
pub proof fn lemma_tool_choice(choice: JsonView)
    ensures
        converted_tool_choice(choice) == match choice {
            JsonView::Object(fields) => match required(fields, "type"@) {
                Err(error) => Err(error),
                Ok(kind) => {
                    let parallel = match fields.get("disable_parallel_tool_use"@) {
                        Some(JsonView::Bool(true)) => Some(false),
                        Some(JsonView::Bool(false)) => Some(true),
                        _ => None,
                    };
                    if kind == "auto"@ {
                        Ok((JsonView::String("auto"@), parallel))
                    } else if kind == "any"@ {
                        Ok((JsonView::String("required"@), parallel))
                    } else if kind == "none"@ {
                        Ok((JsonView::String("none"@), parallel))
                    } else if kind == "tool"@ {
                        match required(fields, "name"@) {
                            Ok(name) => Ok((chosen(name), parallel)),
                            Err(error) => Err(error),
                        }
                    } else {
                        Err(refused("unsupported tool_choice type: "@ + kind))
                    }
                },
            },
            _ => Err(refused("tool_choice must be an object"@)),
        },
{
    lemma_names();
    if let JsonView::Object(fields) = choice {
        if let Ok(name) = required(fields, "name"@) {
            lemma_one_field("name"@, JsonView::String(name));
            lemma_two_fields(
                "type"@,
                JsonView::String("function"@),
                "function"@,
                JsonView::Object(ObjectView::empty().with("name"@, JsonView::String(name))),
            );
        }
    }
}

/// The choice of the function with the given name.
pub open spec fn chosen(name: Seq<char>) -> JsonView {
    object(
        seq![
            text("type"@, "function"@),
            ("function"@, object(seq![text("name"@, name)])),
        ],
    )
}

}
