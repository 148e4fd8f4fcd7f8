//! The events of a streamed Anthropic message.

use crate::error::{error_body, error_json};
use crate::interop::json_text;
use crate::json::{unsigned, Json, JsonObject, JsonView, ObjectView};
use crate::response::{map_stop_reason, stop_reason};
use crate::sse::{event_data, event_lines, format_sse, next_event, sse_text};
use vstd::prelude::*;
use vstd::utf8::encode_utf8;

verus! {

/// What is known of a content block when it begins.
#[derive(Debug)]
pub enum NewBlock {
    Thinking,
    Text,
    Tool { id: String, name: String },
}

/// A piece of a content block.
#[derive(Debug)]
pub enum Delta {
    Thinking(String),
    /// The signature of the reasoning, which is always empty: there is none to pass on.
    Signature,
    Text(String),
    InputJson(String),
}

/// An event of a streamed message.
#[derive(Debug)]
pub enum StreamEvent {
    MessageStart { id: String, model: String, input_tokens: u64 },
    BlockStart { index: u64, block: NewBlock },
    BlockDelta { index: u64, delta: Delta },
    BlockStop { index: u64 },
    MessageDelta { finish_reason: Option<String>, output_tokens: u64 },
    MessageStop,
    Error { message: String },
}

/// What a [`NewBlock`] stands for.
pub ghost enum NewBlockView {
    Thinking,
    Text,
    Tool { id: Seq<char>, name: Seq<char> },
}

/// What a [`Delta`] stands for.
pub ghost enum DeltaView {
    Thinking(Seq<char>),
    Signature,
    Text(Seq<char>),
    InputJson(Seq<char>),
}

/// What a [`StreamEvent`] stands for.
pub ghost enum EventView {
    MessageStart { id: Seq<char>, model: Seq<char>, input_tokens: u64 },
    BlockStart { index: u64, block: NewBlockView },
    BlockDelta { index: u64, delta: DeltaView },
    BlockStop { index: u64 },
    MessageDelta { finish_reason: Option<Seq<char>>, output_tokens: u64 },
    MessageStop,
    Error { message: Seq<char> },
}

impl View for NewBlock {
    type V = NewBlockView;

    open spec fn view(&self) -> NewBlockView {
        match *self {
            NewBlock::Thinking => NewBlockView::Thinking,
            NewBlock::Text => NewBlockView::Text,
            NewBlock::Tool { id, name } => NewBlockView::Tool { id: id@, name: name@ },
        }
    }
}

impl View for Delta {
    type V = DeltaView;

    open spec fn view(&self) -> DeltaView {
        match *self {
            Delta::Thinking(text) => DeltaView::Thinking(text@),
            Delta::Signature => DeltaView::Signature,
            Delta::Text(text) => DeltaView::Text(text@),
            Delta::InputJson(text) => DeltaView::InputJson(text@),
        }
    }
}

/// An optional text by its characters.
pub open spec fn string_view(text: Option<String>) -> Option<Seq<char>> {
    match text {
        Some(text) => Some(text@),
        None => None,
    }
}

impl View for StreamEvent {
    type V = EventView;

    open spec fn view(&self) -> EventView {
        match *self {
            StreamEvent::MessageStart { id, model, input_tokens } => EventView::MessageStart {
                id: id@,
                model: model@,
                input_tokens,
            },
            StreamEvent::BlockStart { index, block } => EventView::BlockStart {
                index,
                block: block@,
            },
            StreamEvent::BlockDelta { index, delta } => EventView::BlockDelta {
                index,
                delta: delta@,
            },
            StreamEvent::BlockStop { index } => EventView::BlockStop { index },
            StreamEvent::MessageDelta { finish_reason, output_tokens } => EventView::MessageDelta {
                finish_reason: string_view(finish_reason),
                output_tokens,
            },
            StreamEvent::MessageStop => EventView::MessageStop,
            StreamEvent::Error { message } => EventView::Error { message: message@ },
        }
    }
}

/// What a list of events stands for.
pub open spec fn events_view(events: Seq<StreamEvent>) -> Seq<EventView> {
    events.map_values(|event: StreamEvent| event@)
}

/// A list of texts by their characters.
pub open spec fn strings_view(texts: Seq<String>) -> Seq<Seq<char>> {
    texts.map_values(|text: String| text@)
}

/// An object whose first field says what it is.
pub open spec fn typed(kind: Seq<char>) -> ObjectView {
    ObjectView::empty().with("type"@, JsonView::String(kind))
}

impl NewBlockView {
    /// The empty block that the client fills.
    pub open spec fn json(self) -> JsonView {
        match self {
            NewBlockView::Thinking => JsonView::Object(
                typed("thinking"@).with("thinking"@, JsonView::String(""@)).with(
                    "signature"@,
                    JsonView::String(""@),
                ),
            ),
            NewBlockView::Text => JsonView::Object(
                typed("text"@).with("text"@, JsonView::String(""@)),
            ),
            NewBlockView::Tool { id, name } => JsonView::Object(
                typed("tool_use"@).with("id"@, JsonView::String(id)).with(
                    "name"@,
                    JsonView::String(name),
                ).with("input"@, JsonView::Object(ObjectView::empty())),
            ),
        }
    }
}

impl DeltaView {
    /// The piece as the client gets it.
    pub open spec fn json(self) -> JsonView {
        match self {
            DeltaView::Thinking(text) => JsonView::Object(
                typed("thinking_delta"@).with("thinking"@, JsonView::String(text)),
            ),
            DeltaView::Signature => JsonView::Object(
                typed("signature_delta"@).with("signature"@, JsonView::String(""@)),
            ),
            DeltaView::Text(text) => JsonView::Object(
                typed("text_delta"@).with("text"@, JsonView::String(text)),
            ),
            DeltaView::InputJson(text) => JsonView::Object(
                typed("input_json_delta"@).with("partial_json"@, JsonView::String(text)),
            ),
        }
    }
}

/// The message as it is when the stream begins.
pub open spec fn empty_message(id: Seq<char>, model: Seq<char>, input_tokens: u64) -> JsonView {
    JsonView::Object(
        ObjectView::empty().with("id"@, JsonView::String(id)).with(
            "type"@,
            JsonView::String("message"@),
        ).with("role"@, JsonView::String("assistant"@)).with(
            "content"@,
            JsonView::Array(seq![]),
        ).with("model"@, JsonView::String(model)).with("stop_reason"@, JsonView::Null).with(
            "stop_sequence"@,
            JsonView::Null,
        ).with(
            "usage"@,
            JsonView::Object(
                ObjectView::empty().with("input_tokens"@, unsigned(input_tokens)).with(
                    "output_tokens"@,
                    unsigned(0),
                ),
            ),
        ),
    )
}

impl EventView {
    /// The name of the event.
    pub open spec fn name(self) -> Seq<char> {
        match self {
            EventView::MessageStart { .. } => "message_start"@,
            EventView::BlockStart { .. } => "content_block_start"@,
            EventView::BlockDelta { .. } => "content_block_delta"@,
            EventView::BlockStop { .. } => "content_block_stop"@,
            EventView::MessageDelta { .. } => "message_delta"@,
            EventView::MessageStop => "message_stop"@,
            EventView::Error { .. } => "error"@,
        }
    }

    /// The data of the event.
    pub open spec fn json(self) -> JsonView {
        match self {
            EventView::MessageStart { id, model, input_tokens } => JsonView::Object(
                typed("message_start"@).with("message"@, empty_message(id, model, input_tokens)),
            ),
            EventView::BlockStart { index, block } => JsonView::Object(
                typed("content_block_start"@).with("index"@, unsigned(index)).with(
                    "content_block"@,
                    block.json(),
                ),
            ),
            EventView::BlockDelta { index, delta } => JsonView::Object(
                typed("content_block_delta"@).with("index"@, unsigned(index)).with(
                    "delta"@,
                    delta.json(),
                ),
            ),
            EventView::BlockStop { index } => JsonView::Object(
                typed("content_block_stop"@).with("index"@, unsigned(index)),
            ),
            EventView::MessageDelta { finish_reason, output_tokens } => JsonView::Object(
                typed("message_delta"@).with(
                    "delta"@,
                    JsonView::Object(
                        ObjectView::empty().with("stop_reason"@, stop_reason(finish_reason)).with(
                            "stop_sequence"@,
                            JsonView::Null,
                        ),
                    ),
                ).with(
                    "usage"@,
                    JsonView::Object(
                        ObjectView::empty().with("output_tokens"@, unsigned(output_tokens)),
                    ),
                ),
            ),
            EventView::MessageStop => JsonView::Object(typed("message_stop"@)),
            EventView::Error { message } => error_body("api_error"@, message),
        }
    }

    /// The event as it is sent.
    pub open spec fn text(self) -> Seq<char> {
        sse_text(self.name(), json_text(self.json()))
    }
}

/// The events as they are sent.
pub open spec fn sent(events: Seq<EventView>) -> Seq<Seq<char>> {
    events.map_values(|event: EventView| event.text())
}

/// An object whose first field says what it is.
fn typed_object(kind: &str) -> (result: JsonObject)
    ensures
        result@ == typed(kind@),
{
    JsonObject::new().with("type", Json::text(kind))
}

impl NewBlock {
    /// The empty block that the client fills.
    pub fn json(&self) -> (result: Json)
        ensures
            result@ == self@.json(),
    {
        match self {
            NewBlock::Thinking => Json::object(
                typed_object("thinking").with("thinking", Json::text("")).with(
                    "signature",
                    Json::text(""),
                ),
            ),
            NewBlock::Text => Json::object(typed_object("text").with("text", Json::text(""))),
            NewBlock::Tool { id, name } => Json::object(
                typed_object("tool_use").with("id", Json::text(id.as_str())).with(
                    "name",
                    Json::text(name.as_str()),
                ).with("input", Json::object(JsonObject::new())),
            ),
        }
    }
}

impl Delta {
    /// The piece as the client gets it.
    pub fn json(&self) -> (result: Json)
        ensures
            result@ == self@.json(),
    {
        match self {
            Delta::Thinking(text) => Json::object(
                typed_object("thinking_delta").with("thinking", Json::text(text.as_str())),
            ),
            Delta::Signature => Json::object(
                typed_object("signature_delta").with("signature", Json::text("")),
            ),
            Delta::Text(text) => Json::object(
                typed_object("text_delta").with("text", Json::text(text.as_str())),
            ),
            Delta::InputJson(text) => Json::object(
                typed_object("input_json_delta").with("partial_json", Json::text(text.as_str())),
            ),
        }
    }
}

/// The message as it is when the stream begins.
fn empty_message_json(id: &str, model: &str, input_tokens: u64) -> (result: Json)
    ensures
        result@ == empty_message(id@, model@, input_tokens),
{
    let content: Vec<Json> = Vec::new();
    assert(crate::json::array_view(content@) =~= seq![]);
    let usage = JsonObject::new().with("input_tokens", Json::unsigned(input_tokens)).with(
        "output_tokens",
        Json::unsigned(0),
    );
    Json::object(
        JsonObject::new().with("id", Json::text(id)).with("type", Json::text("message")).with(
            "role",
            Json::text("assistant"),
        ).with("content", Json::Array(content)).with("model", Json::text(model)).with(
            "stop_reason",
            Json::Null,
        ).with("stop_sequence", Json::Null).with("usage", Json::object(usage)),
    )
}

impl StreamEvent {
    /// The name of the event.
    pub fn name(&self) -> (result: &'static str)
        ensures
            result@ == self@.name(),
    {
        match self {
            StreamEvent::MessageStart { .. } => "message_start",
            StreamEvent::BlockStart { .. } => "content_block_start",
            StreamEvent::BlockDelta { .. } => "content_block_delta",
            StreamEvent::BlockStop { .. } => "content_block_stop",
            StreamEvent::MessageDelta { .. } => "message_delta",
            StreamEvent::MessageStop => "message_stop",
            StreamEvent::Error { .. } => "error",
        }
    }

    /// The data of the event.
    pub fn json(&self) -> (result: Json)
        ensures
            result@ == self@.json(),
    {
        match self {
            StreamEvent::MessageStart { id, model, input_tokens } => Json::object(
                typed_object("message_start").with(
                    "message",
                    empty_message_json(id.as_str(), model.as_str(), *input_tokens),
                ),
            ),
            StreamEvent::BlockStart { index, block } => Json::object(
                typed_object("content_block_start").with("index", Json::unsigned(*index)).with(
                    "content_block",
                    block.json(),
                ),
            ),
            StreamEvent::BlockDelta { index, delta } => Json::object(
                typed_object("content_block_delta").with("index", Json::unsigned(*index)).with(
                    "delta",
                    delta.json(),
                ),
            ),
            StreamEvent::BlockStop { index } => Json::object(
                typed_object("content_block_stop").with("index", Json::unsigned(*index)),
            ),
            StreamEvent::MessageDelta { finish_reason, output_tokens } => {
                let reason = match finish_reason {
                    Some(reason) => Some(reason.as_str()),
                    None => None,
                };
                let delta = JsonObject::new().with("stop_reason", map_stop_reason(reason)).with(
                    "stop_sequence",
                    Json::Null,
                );
                let usage = JsonObject::new().with("output_tokens", Json::unsigned(*output_tokens));
                Json::object(
                    typed_object("message_delta").with("delta", Json::object(delta)).with(
                        "usage",
                        Json::object(usage),
                    ),
                )
            },
            StreamEvent::MessageStop => Json::object(typed_object("message_stop")),
            StreamEvent::Error { message } => error_json("api_error", message.as_str()),
        }
    }

    /// The event as it is sent. A client reads it as one event with its data.
    pub fn text(&self) -> (result: String)
        ensures
            result@ == self@.text(),
            next_event(encode_utf8(result@)) == Some(
                (
                    encode_utf8(event_lines(self@.name(), json_text(self@.json()))),
                    Seq::<u8>::empty(),
                ),
            ),
            event_data(event_lines(self@.name(), json_text(self@.json()))) == Some(
                json_text(self@.json()),
            ),
    {
        proof {
            reveal_strlit("message_start");
            reveal_strlit("content_block_start");
            reveal_strlit("content_block_delta");
            reveal_strlit("content_block_stop");
            reveal_strlit("message_delta");
            reveal_strlit("message_stop");
            reveal_strlit("error");
        }
        format_sse(self.name(), &self.json())
    }
}

/// The events as they are sent.
pub fn send_all(events: &Vec<StreamEvent>) -> (result: Vec<String>)
    ensures
        strings_view(result@) == sent(events_view(events@)),
{
    let mut texts: Vec<String> = Vec::new();
    for i in 0..events.len()
        invariant
            texts.len() == i,
            forall|j: int| 0 <= j < i ==> (#[trigger] texts@[j])@ == events@[j]@.text(),
    {
        texts.push(events[i].text());
    }
    assert(strings_view(texts@) =~= sent(events_view(events@)));
    texts
}

}
