//! The JSON that is written, field by field: which fields an object has, in which order, and what
//! they hold.

use crate::error::{error_body, internal, invalid};
use crate::event::{DeltaView, EventView, NewBlockView};
use crate::json::{lemma_with_new, unsigned, JsonNumber, JsonView, ObjectView};
use crate::messages::{call_with_arguments, message, tool_call};
use crate::request::single_field;
use crate::response::{text_content, tool_use_content};
use crate::thinking::thinking_content;
use vstd::prelude::*;

verus! {

/// An object with exactly the given fields.
pub open spec fn object(fields: Seq<(Seq<char>, JsonView)>) -> JsonView {
    JsonView::Object(ObjectView { fields })
}

/// A field that holds a text.
pub open spec fn text(name: Seq<char>, value: Seq<char>) -> (Seq<char>, JsonView) {
    (name, JsonView::String(value))
}

/// A field that holds a number.
pub open spec fn number(name: Seq<char>, value: u64) -> (Seq<char>, JsonView) {
    (name, JsonView::Number(JsonNumber::Unsigned(value)))
}

pub(crate) proof fn lemma_one_field(a: Seq<char>, x: JsonView)
    ensures
        ObjectView::empty().with(a, x).fields == seq![(a, x)],
{
    lemma_with_new(ObjectView::empty(), a, x);
    assert(ObjectView::empty().with(a, x).fields =~= seq![(a, x)]);
}

pub(crate) proof fn lemma_two_fields(a: Seq<char>, x: JsonView, b: Seq<char>, y: JsonView)
    requires
        a != b,
    ensures
        ObjectView::empty().with(a, x).with(b, y).fields == seq![(a, x), (b, y)],
{
    lemma_one_field(a, x);
    let one = ObjectView::empty().with(a, x);
    lemma_with_new(one, b, y);
    assert(one.with(b, y).fields =~= seq![(a, x), (b, y)]);
}

pub(crate) proof fn lemma_three_fields(
    a: Seq<char>,
    x: JsonView,
    b: Seq<char>,
    y: JsonView,
    c: Seq<char>,
    z: JsonView,
)
    requires
        a != b,
        a != c,
        b != c,
    ensures
        ObjectView::empty().with(a, x).with(b, y).with(c, z).fields == seq![(a, x), (b, y), (c, z)],
{
    lemma_two_fields(a, x, b, y);
    let two = ObjectView::empty().with(a, x).with(b, y);
    lemma_with_new(two, c, z);
    assert(two.with(c, z).fields =~= seq![(a, x), (b, y), (c, z)]);
}

pub(crate) proof fn lemma_four_fields(
    a: Seq<char>,
    w: JsonView,
    b: Seq<char>,
    x: JsonView,
    c: Seq<char>,
    y: JsonView,
    d: Seq<char>,
    z: JsonView,
)
    requires
        a != b,
        a != c,
        b != c,
        a != d,
        b != d,
        c != d,
    ensures
        ObjectView::empty().with(a, w).with(b, x).with(c, y).with(d, z).fields == seq![
            (a, w),
            (b, x),
            (c, y),
            (d, z),
        ],
{
    lemma_three_fields(a, w, b, x, c, y);
    let three = ObjectView::empty().with(a, w).with(b, x).with(c, y);
    lemma_with_new(three, d, z);
    assert(three.with(d, z).fields =~= seq![(a, w), (b, x), (c, y), (d, z)]);
}

/// By their lengths and some of their letters, the names of fields differ.
pub(crate) proof fn lemma_names()
    ensures
        "type"@.len() == 4 && "type"@[0] == 't' && "type"@[1] == 'y',
        "text"@.len() == 4 && "text"@[1] == 'e',
        "name"@.len() == 4 && "name"@[0] == 'n',
        "role"@.len() == 4 && "role"@[0] == 'r',
        "id"@.len() == 2,
        "url"@.len() == 3,
        "error"@.len() == 5,
        "index"@.len() == 5 && "index"@[0] == 'i',
        "delta"@.len() == 5 && "delta"@[0] == 'd',
        "usage"@.len() == 5 && "usage"@[0] == 'u',
        "input"@.len() == 5,
        "model"@.len() == 5 && "model"@[0] == 'm',
        "message"@.len() == 7,
        "content"@.len() == 7,
        "thinking"@.len() == 8,
        "function"@.len() == 8,
        "signature"@.len() == 9,
        "image_url"@.len() == 9,
        "arguments"@.len() == 9,
        "tool_calls"@.len() == 10,
        "parameters"@.len() == 10,
        "description"@.len() == 11,
        "stop_reason"@.len() == 11,
        "tool_call_id"@.len() == 12,
        "input_tokens"@.len() == 12,
        "output_tokens"@.len() == 13,
        "stop_sequence"@.len() == 13,
        "content_block"@.len() == 13,
        "reasoning_content"@.len() == 17,
        "output_tokens"@[0] == 'o',
        ""@.len() == 0,
{
    reveal_strlit("type");
    reveal_strlit("text");
    reveal_strlit("name");
    reveal_strlit("role");
    reveal_strlit("id");
    reveal_strlit("url");
    reveal_strlit("error");
    reveal_strlit("index");
    reveal_strlit("delta");
    reveal_strlit("usage");
    reveal_strlit("input");
    reveal_strlit("model");
    reveal_strlit("message");
    reveal_strlit("content");
    reveal_strlit("thinking");
    reveal_strlit("function");
    reveal_strlit("signature");
    reveal_strlit("image_url");
    reveal_strlit("arguments");
    reveal_strlit("tool_calls");
    reveal_strlit("parameters");
    reveal_strlit("description");
    reveal_strlit("stop_reason");
    reveal_strlit("tool_call_id");
    reveal_strlit("input_tokens");
    reveal_strlit("output_tokens");
    reveal_strlit("stop_sequence");
    reveal_strlit("content_block");
    reveal_strlit("reasoning_content");
    reveal_strlit("");
}

/// An error is answered with its type and its message, and nothing else.
pub proof fn lemma_error_shape(error_type: Seq<char>, reason: Seq<char>)
    ensures
        error_body(error_type, reason) == object(
            seq![
                text("type"@, "error"@),
                (
                    "error"@,
                    object(seq![text("type"@, error_type), text("message"@, reason)]),
                ),
            ],
        ),
        invalid(reason).status == 400,
        invalid(reason).error_type == "invalid_request_error"@,
        invalid(reason).message == reason,
        internal(reason).status == 500,
        internal(reason).error_type == "api_error"@,
        internal(reason).message == reason,
{
    lemma_names();
    lemma_two_fields(
        "type"@,
        JsonView::String(error_type),
        "message"@,
        JsonView::String(reason),
    );
    let inner = ObjectView::empty().with("type"@, JsonView::String(error_type)).with(
        "message"@,
        JsonView::String(reason),
    );
    lemma_two_fields(
        "type"@,
        JsonView::String("error"@),
        "error"@,
        JsonView::Object(inner),
    );
}

/// The blocks of a message: reasoning has an empty signature, text is text, and the use of a tool
/// has its id, name and input.
pub proof fn lemma_block_shapes(id: Seq<char>, name: Seq<char>, shown: Seq<char>, input: JsonView)
    ensures
        thinking_content(shown) == object(
            seq![
                text("type"@, "thinking"@),
                text("thinking"@, shown),
                text("signature"@, ""@),
            ],
        ),
        text_content(shown) == object(seq![text("type"@, "text"@), text("text"@, shown)]),
        tool_use_content(id, name, input) == object(
            seq![
                text("type"@, "tool_use"@),
                text("id"@, id),
                text("name"@, name),
                ("input"@, input),
            ],
        ),
{
    lemma_names();
    lemma_three_fields(
        "type"@,
        JsonView::String("thinking"@),
        "thinking"@,
        JsonView::String(shown),
        "signature"@,
        JsonView::String(""@),
    );
    lemma_two_fields("type"@, JsonView::String("text"@), "text"@, JsonView::String(shown));
    lemma_four_fields(
        "type"@,
        JsonView::String("tool_use"@),
        "id"@,
        JsonView::String(id),
        "name"@,
        JsonView::String(name),
        "input"@,
        input,
    );
}

/// A message has its role and its content, and a tool call its id, the name of the function and the
/// text of the arguments.
pub proof fn lemma_message_shapes(
    id: Seq<char>,
    name: Seq<char>,
    arguments: Seq<char>,
    content: JsonView,
)
    ensures
        message(name, content) == object(seq![text("role"@, name), ("content"@, content)]),
        single_field(name, content) == object(seq![(name, content)]),
        call_with_arguments(id, name, arguments) == object(
            seq![
                text("id"@, id),
                text("type"@, "function"@),
                (
                    "function"@,
                    object(seq![text("name"@, name), text("arguments"@, arguments)]),
                ),
            ],
        ),
        tool_call(id, name, content) == call_with_arguments(
            id,
            name,
            crate::interop::json_text(content),
        ),
{
    lemma_names();
    lemma_two_fields("role"@, JsonView::String(name), "content"@, content);
    lemma_one_field(name, content);
    lemma_two_fields("name"@, JsonView::String(name), "arguments"@, JsonView::String(arguments));
    let function = ObjectView::empty().with("name"@, JsonView::String(name)).with(
        "arguments"@,
        JsonView::String(arguments),
    );
    lemma_three_fields(
        "id"@,
        JsonView::String(id),
        "type"@,
        JsonView::String("function"@),
        "function"@,
        JsonView::Object(function),
    );
}

/// The blocks that a client fills are empty when they begin, and a piece of a block says what kind
/// of piece it is.
pub proof fn lemma_piece_shapes(id: Seq<char>, name: Seq<char>, piece: Seq<char>)
    ensures
        NewBlockView::Thinking.json() == object(
            seq![text("type"@, "thinking"@), text("thinking"@, ""@), text("signature"@, ""@)],
        ),
        NewBlockView::Text.json() == object(seq![text("type"@, "text"@), text("text"@, ""@)]),
        (NewBlockView::Tool { id, name }).json() == object(
            seq![
                text("type"@, "tool_use"@),
                text("id"@, id),
                text("name"@, name),
                ("input"@, object(seq![])),
            ],
        ),
        DeltaView::Thinking(piece).json() == object(
            seq![text("type"@, "thinking_delta"@), text("thinking"@, piece)],
        ),
        DeltaView::Signature.json() == object(
            seq![text("type"@, "signature_delta"@), text("signature"@, ""@)],
        ),
        DeltaView::Text(piece).json() == object(
            seq![text("type"@, "text_delta"@), text("text"@, piece)],
        ),
        DeltaView::InputJson(piece).json() == object(
            seq![text("type"@, "input_json_delta"@), text("partial_json"@, piece)],
        ),
{
    lemma_block_shapes(id, name, ""@, JsonView::Object(ObjectView::empty()));
    lemma_names();
    reveal_strlit("partial_json");
    assert("partial_json"@.len() == 12);
    assert(ObjectView::empty().fields =~= seq![]);
    let value = JsonView::String(piece);
    lemma_two_fields("type"@, JsonView::String("thinking_delta"@), "thinking"@, value);
    lemma_two_fields(
        "type"@,
        JsonView::String("signature_delta"@),
        "signature"@,
        JsonView::String(""@),
    );
    lemma_two_fields("type"@, JsonView::String("text_delta"@), "text"@, value);
    lemma_two_fields("type"@, JsonView::String("input_json_delta"@), "partial_json"@, value);
}

proof fn lemma_usage(input_tokens: u64, output_tokens: u64)
    ensures
        ObjectView::empty().with("input_tokens"@, unsigned(input_tokens)).with(
            "output_tokens"@,
            unsigned(output_tokens),
        ).fields == seq![
            number("input_tokens"@, input_tokens),
            number("output_tokens"@, output_tokens),
        ],
{
    lemma_names();
    lemma_two_fields(
        "input_tokens"@,
        unsigned(input_tokens),
        "output_tokens"@,
        unsigned(output_tokens),
    );
}

/// An object with the eight fields of a message.
pub(crate) proof fn lemma_message_fields(
    id: Seq<char>,
    content: JsonView,
    model: Seq<char>,
    reason: JsonView,
    input_tokens: u64,
    output_tokens: u64,
)
    ensures
        JsonView::Object(
            ObjectView::empty().with("id"@, JsonView::String(id)).with(
                "type"@,
                JsonView::String("message"@),
            ).with("role"@, JsonView::String("assistant"@)).with("content"@, content).with(
                "model"@,
                JsonView::String(model),
            ).with("stop_reason"@, reason).with("stop_sequence"@, JsonView::Null).with(
                "usage"@,
                JsonView::Object(
                    ObjectView::empty().with("input_tokens"@, unsigned(input_tokens)).with(
                        "output_tokens"@,
                        unsigned(output_tokens),
                    ),
                ),
            ),
        ) == whole_message(id, content, model, reason, input_tokens, output_tokens),
{
    lemma_names();
    lemma_usage(input_tokens, output_tokens);
    lemma_four_fields(
        "id"@,
        JsonView::String(id),
        "type"@,
        JsonView::String("message"@),
        "role"@,
        JsonView::String("assistant"@),
        "content"@,
        content,
    );
    let o = ObjectView::empty().with("id"@, JsonView::String(id)).with(
        "type"@,
        JsonView::String("message"@),
    ).with("role"@, JsonView::String("assistant"@)).with("content"@, content);
    lemma_with_new(o, "model"@, JsonView::String(model));
    let o = o.with("model"@, JsonView::String(model));
    lemma_with_new(o, "stop_reason"@, reason);
    let o = o.with("stop_reason"@, reason);
    lemma_with_new(o, "stop_sequence"@, JsonView::Null);
    let o = o.with("stop_sequence"@, JsonView::Null);
    let usage = JsonView::Object(
        ObjectView::empty().with("input_tokens"@, unsigned(input_tokens)).with(
            "output_tokens"@,
            unsigned(output_tokens),
        ),
    );
    lemma_with_new(o, "usage"@, usage);
    assert(o.with("usage"@, usage).fields =~= whole_message(
        id,
        content,
        model,
        reason,
        input_tokens,
        output_tokens,
    )->Object_0.fields);
}

/// A message with the given contents, field by field.
pub open spec fn whole_message(
    id: Seq<char>,
    content: JsonView,
    model: Seq<char>,
    reason: JsonView,
    input_tokens: u64,
    output_tokens: u64,
) -> JsonView {
    object(
        seq![
            text("id"@, id),
            text("type"@, "message"@),
            text("role"@, "assistant"@),
            ("content"@, content),
            text("model"@, model),
            ("stop_reason"@, reason),
            ("stop_sequence"@, JsonView::Null),
            (
                "usage"@,
                object(
                    seq![
                        number("input_tokens"@, input_tokens),
                        number("output_tokens"@, output_tokens),
                    ],
                ),
            ),
        ],
    )
}

/// The name of an event is the type that its data gives, and the data says all that is to be said.
pub proof fn lemma_event_shapes(
    id: Seq<char>,
    model: Seq<char>,
    reason: Option<Seq<char>>,
    block: NewBlockView,
    delta: DeltaView,
    n: u64,
)
    ensures
        (EventView::MessageStart { id, model, input_tokens: n }).json() == object(
            seq![
                text("type"@, "message_start"@),
                (
                    "message"@,
                    whole_message(id, JsonView::Array(seq![]), model, JsonView::Null, n, 0),
                ),
            ],
        ),
        (EventView::BlockStart { index: n, block }).json() == object(
            seq![
                text("type"@, "content_block_start"@),
                number("index"@, n),
                ("content_block"@, block.json()),
            ],
        ),
        (EventView::BlockDelta { index: n, delta }).json() == object(
            seq![
                text("type"@, "content_block_delta"@),
                number("index"@, n),
                ("delta"@, delta.json()),
            ],
        ),
        (EventView::BlockStop { index: n }).json() == object(
            seq![text("type"@, "content_block_stop"@), number("index"@, n)],
        ),
        (EventView::MessageDelta { finish_reason: reason, output_tokens: n }).json() == object(
            seq![
                text("type"@, "message_delta"@),
                (
                    "delta"@,
                    object(
                        seq![
                            ("stop_reason"@, crate::response::stop_reason(reason)),
                            ("stop_sequence"@, JsonView::Null),
                        ],
                    ),
                ),
                ("usage"@, object(seq![number("output_tokens"@, n)])),
            ],
        ),
        EventView::MessageStop.json() == object(seq![text("type"@, "message_stop"@)]),
        (EventView::Error { message: model }).json() == object(
            seq![
                text("type"@, "error"@),
                (
                    "error"@,
                    object(seq![text("type"@, "api_error"@), text("message"@, model)]),
                ),
            ],
        ),
{
    lemma_names();
    lemma_message_fields(id, JsonView::Array(seq![]), model, JsonView::Null, n, 0);
    lemma_two_fields(
        "type"@,
        JsonView::String("message_start"@),
        "message"@,
        whole_message(id, JsonView::Array(seq![]), model, JsonView::Null, n, 0),
    );
    lemma_three_fields(
        "type"@,
        JsonView::String("content_block_start"@),
        "index"@,
        unsigned(n),
        "content_block"@,
        block.json(),
    );
    lemma_three_fields(
        "type"@,
        JsonView::String("content_block_delta"@),
        "index"@,
        unsigned(n),
        "delta"@,
        delta.json(),
    );
    lemma_two_fields("type"@, JsonView::String("content_block_stop"@), "index"@, unsigned(n));
    let stop = crate::response::stop_reason(reason);
    lemma_two_fields("stop_reason"@, stop, "stop_sequence"@, JsonView::Null);
    lemma_one_field("output_tokens"@, unsigned(n));
    lemma_three_fields(
        "type"@,
        JsonView::String("message_delta"@),
        "delta"@,
        JsonView::Object(
            ObjectView::empty().with("stop_reason"@, stop).with("stop_sequence"@, JsonView::Null),
        ),
        "usage"@,
        JsonView::Object(ObjectView::empty().with("output_tokens"@, unsigned(n))),
    );
    lemma_one_field("type"@, JsonView::String("message_stop"@));
    lemma_error_shape("api_error"@, model);
}

/// Each event is sent under the type that its data gives.
#[verifier::spinoff_prover]
#[verifier::rlimit(30)]
pub proof fn lemma_event_is_named_by_its_type(event: EventView)
    ensures
        event.json() matches JsonView::Object(data) && data.fields.len() > 0 && data.fields[0]
            == text("type"@, event.name()),
        event.text() == "event: "@ + event.name() + "\ndata: "@ + crate::interop::json_text(
            event.json(),
        ) + "\n\n"@,
{
    let none = Seq::<char>::empty();
    let block = match event {
        EventView::BlockStart { block, .. } => block,
        _ => NewBlockView::Text,
    };
    let delta = match event {
        EventView::BlockDelta { delta, .. } => delta,
        _ => DeltaView::Signature,
    };
    match event {
        EventView::MessageStart { id, model, input_tokens } => {
            lemma_event_shapes(id, model, None, block, delta, input_tokens);
        },
        EventView::BlockStart { index, .. } => {
            lemma_event_shapes(none, none, None, block, delta, index);
        },
        EventView::BlockDelta { index, .. } => {
            lemma_event_shapes(none, none, None, block, delta, index);
        },
        EventView::BlockStop { index } => {
            lemma_event_shapes(none, none, None, block, delta, index);
        },
        EventView::MessageDelta { finish_reason, output_tokens } => {
            lemma_event_shapes(none, none, finish_reason, block, delta, output_tokens);
        },
        EventView::MessageStop => {
            lemma_event_shapes(none, none, None, block, delta, 0);
        },
        EventView::Error { message } => {
            lemma_event_shapes(none, message, None, block, delta, 0);
        },
    }
}

}
