//! What the values of the library stand for, variant by variant and field by field.

use crate::converter::{run, ConverterView, Run};
use crate::error::{outcome, AnthropicError, ErrorView};
use crate::event::{
    events_view, string_view, strings_view, Delta, DeltaView, EventView, NewBlock, NewBlockView,
    StreamEvent,
};
use crate::form::MAX_RESPONSE_BODY_SIZE;
use crate::json::{
    array_view, fields_view, unsigned, Json, JsonNumber, JsonObject, JsonView,
};
use crate::messages::list_outcome;
use crate::request::ResponseConfig;
use crate::streaming::{StepView, StreamStep};
use crate::text::text_view;
use vstd::prelude::*;

verus! {

/// A JSON value stands for the value of the same kind that holds the same.
pub proof fn lemma_json(
    b: bool,
    n: JsonNumber,
    text: String,
    items: Vec<Json>,
    object: JsonObject,
    number: u64,
)
    ensures
        Json::Null@ == JsonView::Null,
        Json::Bool(b)@ == JsonView::Bool(b),
        Json::Number(n)@ == JsonView::Number(n),
        Json::String(text)@ == JsonView::String(text@),
        Json::Array(items)@ == JsonView::Array(array_view(items@)),
        Json::Object(object)@ == JsonView::Object(object@),
        unsigned(number) == JsonView::Number(JsonNumber::Unsigned(number)),
{
}

/// The elements of an array, the fields of an object and lists of texts and of events stand for as
/// many, one for one and in the same order.
pub proof fn lemma_lists(
    items: Seq<Json>,
    fields: Seq<(String, Json)>,
    texts: Seq<String>,
    events: Seq<StreamEvent>,
    converter: ConverterView,
    i: int,
)
    ensures
        array_view(items).len() == items.len(),
        0 <= i < items.len() ==> array_view(items)[i] == items[i]@,
        fields_view(fields).len() == fields.len(),
        0 <= i < fields.len() ==> fields_view(fields)[i] == (fields[i].0@, fields[i].1@),
        strings_view(texts).len() == texts.len(),
        0 <= i < texts.len() ==> strings_view(texts)[i] == texts[i]@,
        events_view(events).len() == events.len(),
        0 <= i < events.len() ==> events_view(events)[i] == events[i]@,
        run(converter, events) == (Run { converter, events: events_view(events) }),
{
}

/// A result stands for a result of the same kind.
pub proof fn lemma_results(
    value: Json,
    text: String,
    items: Vec<Json>,
    error: AnthropicError,
)
    ensures
        outcome::<Json>(Ok(value)) == Ok::<JsonView, ErrorView>(value@),
        outcome::<Json>(Err(error)) == Err::<JsonView, ErrorView>(error@),
        outcome::<String>(Ok(text)) == Ok::<Seq<char>, ErrorView>(text@),
        outcome::<String>(Err(error)) == Err::<Seq<char>, ErrorView>(error@),
        list_outcome(Ok(items)) == Ok::<Seq<JsonView>, ErrorView>(array_view(items@)),
        list_outcome(Err(error)) == Err::<Seq<JsonView>, ErrorView>(error@),
        string_view(Some(text)) == Some(text@),
        string_view(None) is None,
        text_view(None) is None,
        error@.status == error.status,
        error@.error_type == error.error_type@,
        error@.message == error.message@,
{
}

/// What a client has asked for is what it is answered by.
pub proof fn lemma_config(config: ResponseConfig, text: &str)
    ensures
        config@.model == config.model@,
        config@.stream == config.stream,
        config@.include_thinking == config.include_thinking,
        config@.raw_thinking_fallback == config.raw_thinking_fallback,
        text_view(Some(text)) == Some(text@),
        MAX_RESPONSE_BODY_SIZE == 33_554_432,
{
}

/// An event stands for the event of the same kind with the same contents.
pub proof fn lemma_events(
    event: StreamEvent,
    block: NewBlock,
    delta: Delta,
    step: StreamStep,
)
    ensures
        match event {
            StreamEvent::MessageStart { id, model, input_tokens: n } => event@
                == (EventView::MessageStart { id: id@, model: model@, input_tokens: n }),
            StreamEvent::BlockStart { index, block } => event@ == (EventView::BlockStart {
                index,
                block: block@,
            }),
            StreamEvent::BlockDelta { index, delta } => event@ == (EventView::BlockDelta {
                index,
                delta: delta@,
            }),
            StreamEvent::BlockStop { index } => event@ == (EventView::BlockStop { index }),
            StreamEvent::MessageDelta { finish_reason: None, output_tokens: n } => event@
                == (EventView::MessageDelta { finish_reason: None, output_tokens: n }),
            StreamEvent::MessageDelta { finish_reason: Some(reason), output_tokens: n } => event@
                == (EventView::MessageDelta { finish_reason: Some(reason@), output_tokens: n }),
            StreamEvent::MessageStop => event@ == EventView::MessageStop,
            StreamEvent::Error { message } => event@ == (EventView::Error { message: message@ }),
        },
        match block {
            NewBlock::Thinking => block@ == NewBlockView::Thinking,
            NewBlock::Text => block@ == NewBlockView::Text,
            NewBlock::Tool { id, name } => block@ == (NewBlockView::Tool { id: id@, name: name@ }),
        },
        match delta {
            Delta::Thinking(text) => delta@ == DeltaView::Thinking(text@),
            Delta::Signature => delta@ == DeltaView::Signature,
            Delta::Text(text) => delta@ == DeltaView::Text(text@),
            Delta::InputJson(text) => delta@ == DeltaView::InputJson(text@),
        },
        match step {
            StreamStep::Send(text) => step@ == StepView::Send(text@),
            StreamStep::Read => step@ == StepView::Read,
            StreamStep::End => step@ == StepView::End,
        },
{
}

}
