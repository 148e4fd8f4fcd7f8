//! From the chunks of a streamed Chat Completions response to the events of an Anthropic message.

use crate::event::{
    events_view, send_all, sent, string_view, strings_view, Delta, DeltaView, EventView, NewBlock,
    NewBlockView, StreamEvent,
};
use crate::interop::{parse, parsed_text};
use crate::json::{array_view, Json, JsonObject, JsonView, ObjectView};
use crate::request::{ConfigView, ResponseConfig};
use crate::response::{anthropic_message_id, first_choice, message_id, or_zero, text_or, tool_calls};
use crate::text::{decimal, decimal_text, same_text, text_view, trim, trimmed};
use crate::thinking::{normalize_raw_thinking, normalized, raw_split, split_raw_thinking};
use std::collections::HashMap;
use vstd::prelude::*;

verus! {

broadcast use vstd::std_specs::hash::group_hash_axioms;

/// What a content block holds. Tools are told apart by their index in the response.
#[derive(Clone, Copy, Debug, PartialEq, Eq, Structural)]
pub enum BlockKind {
    Thinking,
    Text,
    Tool(u64),
}

/// Converts the chunks of one response.
pub struct AnthropicStreamConverter {
    config: ResponseConfig,
    started: bool,
    finished: bool,
    message_id: String,
    model: String,
    current_block: Option<BlockKind>,
    current_content_index: u64,
    next_content_index: u64,
    finish_reason: Option<String>,
    input_tokens: u64,
    output_tokens: u64,
    tool_ids: HashMap<u64, String>,
    tool_names: HashMap<u64, String>,
    structured_thinking_seen: bool,
    raw_thinking_closed: bool,
    raw_thinking_buffer: String,
}

/// What an [`AnthropicStreamConverter`] stands for.
pub ghost struct ConverterView {
    pub config: ConfigView,
    pub started: bool,
    pub finished: bool,
    pub message_id: Seq<char>,
    pub model: Seq<char>,
    pub current_block: Option<BlockKind>,
    pub current_content_index: u64,
    pub next_content_index: u64,
    pub finish_reason: Option<Seq<char>>,
    pub input_tokens: u64,
    pub output_tokens: u64,
    pub tool_ids: Map<u64, Seq<char>>,
    pub tool_names: Map<u64, Seq<char>>,
    pub structured_thinking_seen: bool,
    pub raw_thinking_closed: bool,
    pub raw_thinking_buffer: Seq<char>,
}

/// Texts by number, each by its characters.
pub open spec fn texts_by_number(texts: Map<u64, String>) -> Map<u64, Seq<char>> {
    texts.map_values(|text: String| text@)
}

impl View for AnthropicStreamConverter {
    type V = ConverterView;

    closed spec fn view(&self) -> ConverterView {
        ConverterView {
            config: self.config@,
            started: self.started,
            finished: self.finished,
            message_id: self.message_id@,
            model: self.model@,
            current_block: self.current_block,
            current_content_index: self.current_content_index,
            next_content_index: self.next_content_index,
            finish_reason: string_view(self.finish_reason),
            input_tokens: self.input_tokens,
            output_tokens: self.output_tokens,
            tool_ids: texts_by_number(self.tool_ids@),
            tool_names: texts_by_number(self.tool_names@),
            structured_thinking_seen: self.structured_thinking_seen,
            raw_thinking_closed: self.raw_thinking_closed,
            raw_thinking_buffer: self.raw_thinking_buffer@,
        }
    }
}

impl ConverterView {
    /// A converter that has seen nothing yet.
    pub open spec fn new(config: ConfigView) -> ConverterView {
        ConverterView {
            config,
            started: false,
            finished: false,
            message_id: "msg_unknown"@,
            model: config.model,
            current_block: None,
            current_content_index: 0,
            next_content_index: 0,
            finish_reason: None,
            input_tokens: 0,
            output_tokens: 0,
            tool_ids: Map::empty(),
            tool_names: Map::empty(),
            structured_thinking_seen: false,
            raw_thinking_closed: false,
            raw_thinking_buffer: seq![],
        }
    }

    /// Whether reasoning is looked for in the text that comes next.
    pub open spec fn looks_for_thinking(self) -> bool {
        self.config.raw_thinking_fallback && !self.structured_thinking_seen
            && !self.raw_thinking_closed
    }

    /// The numbers of tokens taken from a usage report; what it does not say stays.
    pub open spec fn with_usage(self, usage: Option<JsonView>) -> ConverterView {
        match usage {
            Some(usage) => ConverterView {
                input_tokens: match usage.get_u64("prompt_tokens"@) {
                    Some(tokens) => tokens,
                    None => self.input_tokens,
                },
                output_tokens: match usage.get_u64("completion_tokens"@) {
                    Some(tokens) => tokens,
                    None => self.output_tokens,
                },
                ..self
            },
            None => self,
        }
    }

    /// The id, the model and the usage that a chunk reports.
    pub open spec fn with_metadata(self, chunk: JsonView) -> ConverterView {
        (ConverterView {
            message_id: match chunk.get_str("id"@) {
                Some(id) => message_id(Some(id)),
                None => self.message_id,
            },
            model: text_or(chunk.get_str("model"@), self.model),
            ..self
        }).with_usage(chunk.get("usage"@))
    }

    /// The id and the name that a piece of a tool call gives to its tool.
    pub open spec fn with_tool(
        self,
        index: u64,
        id: Option<Seq<char>>,
        name: Option<Seq<char>>,
    ) -> ConverterView {
        ConverterView {
            tool_ids: match id {
                Some(id) => self.tool_ids.insert(index, id),
                None => self.tool_ids,
            },
            tool_names: match name {
                Some(name) => self.tool_names.insert(index, name),
                None => self.tool_names,
            },
            ..self
        }
    }

    /// The id of a tool.
    pub open spec fn tool_id(self, index: u64) -> Seq<char> {
        if self.tool_ids.contains_key(index) {
            self.tool_ids[index]
        } else {
            "toolu_"@ + decimal(index as nat)
        }
    }

    /// The name of a tool.
    pub open spec fn tool_name(self, index: u64) -> Seq<char> {
        if self.tool_names.contains_key(index) {
            self.tool_names[index]
        } else {
            "unknown"@
        }
    }
}

/// The block that begins for the given kind.
pub open spec fn new_block(
    kind: BlockKind,
    id: Option<Seq<char>>,
    name: Option<Seq<char>>,
) -> NewBlockView {
    match kind {
        BlockKind::Thinking => NewBlockView::Thinking,
        BlockKind::Text => NewBlockView::Text,
        BlockKind::Tool(_) => NewBlockView::Tool {
            id: text_or(id, "toolu_unknown"@),
            name: text_or(name, "unknown"@),
        },
    }
}

/// A converter and the events it has made so far.
pub ghost struct Run {
    pub converter: ConverterView,
    pub events: Seq<EventView>,
}

impl Run {
    /// One more event.
    pub open spec fn emit(self, event: EventView) -> Run {
        Run { events: self.events.push(event), ..self }
    }

    /// One more piece of the current block.
    pub open spec fn delta(self, delta: DeltaView) -> Run {
        self.emit(EventView::BlockDelta { index: self.converter.current_content_index, delta })
    }

    /// Begins the message, unless it has begun.
    pub open spec fn start(self) -> Run {
        if self.converter.started {
            self
        } else {
            (Run { converter: ConverterView { started: true, ..self.converter }, ..self }).emit(
                EventView::MessageStart {
                    id: self.converter.message_id,
                    model: self.converter.model,
                    input_tokens: self.converter.input_tokens,
                },
            )
        }
    }

    /// Ends the current block, if there is one. Reasoning gets its signature first.
    pub open spec fn close(self) -> Run {
        match self.converter.current_block {
            None => self,
            Some(kind) => {
                let signed = if kind == BlockKind::Thinking {
                    self.delta(DeltaView::Signature)
                } else {
                    self
                };
                (Run {
                    converter: ConverterView { current_block: None, ..self.converter },
                    ..signed
                }).emit(EventView::BlockStop { index: self.converter.current_content_index })
            },
        }
    }

    /// Goes on with a block of the given kind: the current one if it is of that kind, else a new
    /// one. Blocks are numbered from zero; the number wraps around after the largest `u64`.
    pub open spec fn open(
        self,
        kind: BlockKind,
        id: Option<Seq<char>>,
        name: Option<Seq<char>>,
    ) -> Run {
        if self.converter.current_block == Some(kind) {
            self
        } else {
            let closed = self.close();
            let index = closed.converter.next_content_index;
            (Run {
                converter: ConverterView {
                    current_block: Some(kind),
                    current_content_index: index,
                    next_content_index: index.wrapping_add(1),
                    ..closed.converter
                },
                ..closed
            }).emit(EventView::BlockStart { index, block: new_block(kind, id, name) })
        }
    }

    /// A piece of reasoning.
    pub open spec fn thinking(self, text: Seq<char>) -> Run {
        self.open(BlockKind::Thinking, None, None).delta(DeltaView::Thinking(text))
    }

    /// A piece of reasoning, if there is something in it.
    pub open spec fn some_thinking(self, text: Seq<char>) -> Run {
        if text.len() > 0 {
            self.thinking(text)
        } else {
            self
        }
    }

    /// A piece of text.
    pub open spec fn text(self, text: Seq<char>) -> Run {
        self.open(BlockKind::Text, None, None).delta(DeltaView::Text(text))
    }

    /// A piece of text, if there is something in it.
    pub open spec fn some_text(self, text: Seq<char>) -> Run {
        if text.len() > 0 {
            self.text(text)
        } else {
            self
        }
    }

    /// The text held back becomes `held`.
    pub open spec fn hold(self, held: Seq<char>) -> Run {
        Run { converter: ConverterView { raw_thinking_buffer: held, ..self.converter }, ..self }
    }

    /// No reasoning is looked for in the text any more.
    pub open spec fn closed_thinking(self) -> Run {
        Run { converter: ConverterView { raw_thinking_closed: true, ..self.converter }, ..self }
    }

    /// A piece of the answer. While reasoning is looked for, text is held back until the closing
    /// tag is complete; what stands before it is reasoning.
    pub open spec fn push_text(self, text: Seq<char>) -> Run {
        if self.converter.looks_for_thinking() {
            let held = self.converter.raw_thinking_buffer + text;
            match raw_split(held) {
                Some((thinking, answer)) => self.hold(seq![]).some_thinking(
                    thinking,
                ).closed_thinking().some_text(answer),
                None => self.hold(held),
            }
        } else {
            self.text(text)
        }
    }

    /// Passes on the text held back, if there is any. It is reasoning if the answer was cut off
    /// while reasoning was looked for.
    pub open spec fn flush(self) -> Run {
        let held = self.converter.raw_thinking_buffer;
        if held.len() == 0 {
            self
        } else if self.converter.looks_for_thinking() && self.converter.finish_reason == Some(
            "length"@,
        ) && normalized(held).len() > 0 {
            self.hold(seq![]).thinking(normalized(held))
        } else {
            self.hold(seq![]).text(held)
        }
    }

    /// A piece of reasoning that the response marks as such.
    pub open spec fn push_reasoning(self, reasoning: Seq<char>) -> Run {
        (Run {
            converter: ConverterView { structured_thinking_seen: true, ..self.converter },
            ..self
        }).flush().thinking(reasoning)
    }

    /// A piece of a tool call.
    pub open spec fn push_tool_call(self, tool_call: JsonView) -> Run {
        let index = or_zero(tool_call.get_u64("index"@));
        let function = tool_call.get_object("function"@);
        let (name, arguments) = match function {
            Some(function) => (function.get_str("name"@), function.get_str("arguments"@)),
            None => (None, None),
        };
        let converter = self.converter.with_tool(index, tool_call.get_str("id"@), name);
        let opened = (Run { converter, ..self }).open(
            BlockKind::Tool(index),
            Some(converter.tool_id(index)),
            Some(converter.tool_name(index)),
        );
        match arguments {
            Some(text) if text.len() > 0 => opened.delta(DeltaView::InputJson(text)),
            _ => opened,
        }
    }

    /// Pieces of tool calls, one after the other.
    pub open spec fn push_tool_calls(self, calls: Seq<JsonView>) -> Run
        decreases calls.len(),
    {
        if calls.len() == 0 {
            self
        } else {
            self.push_tool_calls(calls.drop_last()).push_tool_call(calls.last())
        }
    }

    /// The contents of a delta: reasoning, text and tool calls.
    pub open spec fn push_delta(self, delta: ObjectView) -> Run {
        let reasoned = match delta.get_str("reasoning_content"@) {
            Some(reasoning) if self.converter.config.include_thinking && reasoning.len() > 0 =>
                self.push_reasoning(reasoning),
            _ => self,
        };
        let written = match delta.get_str("content"@) {
            Some(text) if text.len() > 0 => reasoned.push_text(text),
            _ => reasoned,
        };
        written.push_tool_calls(tool_calls(delta))
    }

    /// The first choice of a chunk.
    pub open spec fn push_choice(self, choice: JsonView) -> Run {
        let pushed = match choice.get_object("delta"@) {
            Some(delta) => self.push_delta(delta),
            None => self,
        };
        match choice.get_str("finish_reason"@) {
            Some(reason) => Run {
                converter: ConverterView { finish_reason: Some(reason), ..pushed.converter },
                ..pushed
            },
            None => pushed,
        }
    }

    /// A chunk of the response.
    pub open spec fn push_chunk(self, chunk: JsonView) -> Run {
        let started = (Run { converter: self.converter.with_metadata(chunk), ..self }).start();
        match first_choice(chunk) {
            Some(choice) => started.push_choice(choice),
            None => started,
        }
    }

    /// What the data of an upstream event was parsed to. Data that is no JSON is reported.
    pub open spec fn push_parsed(self, parsed: Result<JsonView, Seq<char>>) -> Run {
        match parsed {
            Ok(chunk) => self.push_chunk(chunk),
            Err(message) => self.emit(
                EventView::Error { message: "invalid upstream SSE event: "@ + message },
            ),
        }
    }

    /// Ends the message, once.
    pub open spec fn finish(self) -> Run {
        if self.converter.finished {
            self
        } else {
            let closed = self.start().flush().close();
            (Run { converter: ConverterView { finished: true, ..closed.converter }, ..closed }).emit(
                EventView::MessageDelta {
                    finish_reason: closed.converter.finish_reason,
                    output_tokens: closed.converter.output_tokens,
                },
            ).emit(EventView::MessageStop)
        }
    }

    /// The data of an upstream event.
    pub open spec fn push_data(self, data: Seq<char>) -> Run {
        if trimmed(data) == "[DONE]"@ {
            self.finish()
        } else {
            self.push_parsed(parsed_text(data))
        }
    }
}

/// A converter and a list of events.
pub open spec fn run(converter: ConverterView, events: Seq<StreamEvent>) -> Run {
    Run { converter, events: events_view(events) }
}

/// A converter that has made no events.
pub open spec fn fresh(converter: ConverterView) -> Run {
    Run { converter, events: seq![] }
}

/// Appends an event.
fn push_event(events: &mut Vec<StreamEvent>, event: StreamEvent)
    ensures
        events_view(final(events)@) == events_view(old(events)@).push(event@),
{
    events.push(event);
    assert(events_view(events@) =~= events_view(old(events)@).push(event@));
}

impl AnthropicStreamConverter {
    /// A converter that has seen nothing yet.
    pub fn new(config: ResponseConfig) -> (result: AnthropicStreamConverter)
        ensures
            result@ == ConverterView::new(config@),
    {
        let result = AnthropicStreamConverter {
            model: config.model.clone(),
            config,
            started: false,
            finished: false,
            message_id: "msg_unknown".to_string(),
            current_block: None,
            current_content_index: 0,
            next_content_index: 0,
            finish_reason: None,
            input_tokens: 0,
            output_tokens: 0,
            tool_ids: HashMap::new(),
            tool_names: HashMap::new(),
            structured_thinking_seen: false,
            raw_thinking_closed: false,
            raw_thinking_buffer: String::new(),
        };
        assert(result@.tool_ids =~= Map::empty());
        assert(result@.tool_names =~= Map::empty());
        result
    }

    /// A piece of the current block.
    fn push_block_delta(&self, delta: Delta, events: &mut Vec<StreamEvent>)
        ensures
            run(self@, final(events)@) == run(self@, old(events)@).delta(delta@),
    {
        push_event(events, StreamEvent::BlockDelta { index: self.current_content_index, delta });
    }

    /// Begins the message, unless it has begun.
    pub fn ensure_message_start(&mut self, events: &mut Vec<StreamEvent>)
        ensures
            run(final(self)@, final(events)@) == run(old(self)@, old(events)@).start(),
    {
        if self.started {
            return;
        }
        self.started = true;
        push_event(
            events,
            StreamEvent::MessageStart {
                id: self.message_id.clone(),
                model: self.model.clone(),
                input_tokens: self.input_tokens,
            },
        );
    }

    /// Ends the current block, if there is one.
    pub fn close_block(&mut self, events: &mut Vec<StreamEvent>)
        ensures
            run(final(self)@, final(events)@) == run(old(self)@, old(events)@).close(),
    {
        if let Some(kind) = self.current_block {
            self.current_block = None;
            if kind == BlockKind::Thinking {
                // The response has no signature for its reasoning. An empty one says so.
                self.push_block_delta(Delta::Signature, events);
            }
            push_event(events, StreamEvent::BlockStop { index: self.current_content_index });
        }
    }

    /// Goes on with a block of the given kind.
    pub fn ensure_block(
        &mut self,
        kind: BlockKind,
        tool_id: Option<&str>,
        tool_name: Option<&str>,
        events: &mut Vec<StreamEvent>,
    )
        ensures
            run(final(self)@, final(events)@) == run(old(self)@, old(events)@).open(
                kind,
                text_view(tool_id),
                text_view(tool_name),
            ),
    {
        if let Some(current) = self.current_block {
            if current == kind {
                return;
            }
        }
        self.close_block(events);
        self.current_content_index = self.next_content_index;
        self.next_content_index = self.next_content_index.wrapping_add(1);
        let block = match kind {
            BlockKind::Thinking => NewBlock::Thinking,
            BlockKind::Text => NewBlock::Text,
            BlockKind::Tool(_) => NewBlock::Tool {
                id: match tool_id {
                    Some(id) => id.to_string(),
                    None => "toolu_unknown".to_string(),
                },
                name: match tool_name {
                    Some(name) => name.to_string(),
                    None => "unknown".to_string(),
                },
            },
        };
        self.current_block = Some(kind);
        push_event(events, StreamEvent::BlockStart { index: self.current_content_index, block });
    }

    /// A piece of reasoning.
    pub fn push_thinking(&mut self, thinking: &str, events: &mut Vec<StreamEvent>)
        ensures
            run(final(self)@, final(events)@) == run(old(self)@, old(events)@).thinking(thinking@),
    {
        self.ensure_block(BlockKind::Thinking, None, None, events);
        self.push_block_delta(Delta::Thinking(thinking.to_string()), events);
    }

    /// A piece of text.
    pub fn push_text_delta(&mut self, text: &str, events: &mut Vec<StreamEvent>)
        ensures
            run(final(self)@, final(events)@) == run(old(self)@, old(events)@).text(text@),
    {
        self.ensure_block(BlockKind::Text, None, None, events);
        self.push_block_delta(Delta::Text(text.to_string()), events);
    }

    /// A piece of the answer, in which reasoning may have to be looked for.
    pub fn push_text(&mut self, text: &str, events: &mut Vec<StreamEvent>)
        ensures
            run(final(self)@, final(events)@) == run(old(self)@, old(events)@).push_text(text@),
    {
        if self.config.raw_thinking_fallback && !self.structured_thinking_seen
            && !self.raw_thinking_closed {
            let mut held = String::new();
            std::mem::swap(&mut held, &mut self.raw_thinking_buffer);
            held.append(text);
            if let Some((thinking, answer)) = split_raw_thinking(held.as_str()) {
                if !thinking.is_empty() {
                    self.push_thinking(thinking, events);
                }
                self.raw_thinking_closed = true;
                if !answer.is_empty() {
                    self.push_text_delta(answer, events);
                }
                return;
            }
            self.raw_thinking_buffer = held;
            return;
        }
        self.push_text_delta(text, events);
    }

    /// Passes on the text held back, if there is any.
    pub fn flush_raw_thinking_buffer(&mut self, events: &mut Vec<StreamEvent>)
        ensures
            run(final(self)@, final(events)@) == run(old(self)@, old(events)@).flush(),
    {
        if self.raw_thinking_buffer.as_str().is_empty() {
            return;
        }
        let mut text = String::new();
        std::mem::swap(&mut text, &mut self.raw_thinking_buffer);
        let cut_off = match &self.finish_reason {
            Some(reason) => same_text(reason.as_str(), "length"),
            None => false,
        };
        if self.config.raw_thinking_fallback && !self.structured_thinking_seen
            && !self.raw_thinking_closed && cut_off {
            let thinking = normalize_raw_thinking(text.as_str());
            if !thinking.is_empty() {
                self.push_thinking(thinking, events);
                return;
            }
        }
        self.push_text_delta(text.as_str(), events);
    }

    /// The numbers of tokens taken from a usage report.
    pub fn update_usage(&mut self, usage: Option<&Json>)
        ensures
            final(self)@ == old(self)@.with_usage(
                match usage {
                    Some(usage) => Some(usage@),
                    None => None,
                },
            ),
    {
        if let Some(usage) = usage {
            if let Some(tokens) = usage.get_u64("prompt_tokens") {
                self.input_tokens = tokens;
            }
            if let Some(tokens) = usage.get_u64("completion_tokens") {
                self.output_tokens = tokens;
            }
        }
    }

    /// The id and the name that a piece of a tool call gives to its tool.
    fn note_tool(&mut self, index: u64, id: Option<&str>, name: Option<&str>)
        ensures
            final(self)@ == old(self)@.with_tool(index, text_view(id), text_view(name)),
    {
        if let Some(id) = id {
            self.tool_ids.insert(index, id.to_string());
        }
        if let Some(name) = name {
            self.tool_names.insert(index, name.to_string());
        }
        let ghost noted = old(self)@.with_tool(index, text_view(id), text_view(name));
        assert(self@.tool_ids =~= noted.tool_ids);
        assert(self@.tool_names =~= noted.tool_names);
    }

    /// A piece of a tool call.
    pub fn push_tool_call(&mut self, tool_call: &Json, events: &mut Vec<StreamEvent>)
        ensures
            run(final(self)@, final(events)@) == run(old(self)@, old(events)@).push_tool_call(
                tool_call@,
            ),
    {
        let index: u64 = match tool_call.get_u64("index") {
            Some(index) => index,
            None => 0,
        };
        let (name, arguments) = match tool_call.get_object("function") {
            Some(function) => (function.get_str("name"), function.get_str("arguments")),
            None => (None, None),
        };
        self.note_tool(index, tool_call.get_str("id"), name);
        let id = match self.tool_ids.get(&index) {
            Some(id) => id.clone(),
            None => "toolu_".to_string().concat(decimal_text(index).as_str()),
        };
        let name = match self.tool_names.get(&index) {
            Some(name) => name.clone(),
            None => "unknown".to_string(),
        };
        self.ensure_block(
            BlockKind::Tool(index),
            Some(id.as_str()),
            Some(name.as_str()),
            events,
        );
        if let Some(arguments) = arguments {
            if !arguments.is_empty() {
                self.push_block_delta(Delta::InputJson(arguments.to_string()), events);
            }
        }
    }

    /// A piece of reasoning that the response marks as such.
    fn push_reasoning(&mut self, reasoning: &str, events: &mut Vec<StreamEvent>)
        ensures
            run(final(self)@, final(events)@) == run(old(self)@, old(events)@).push_reasoning(
                reasoning@,
            ),
    {
        self.structured_thinking_seen = true;
        self.flush_raw_thinking_buffer(events);
        self.push_thinking(reasoning, events);
    }

    /// Pieces of tool calls, one after the other.
    fn push_tool_calls(&mut self, calls: &Vec<Json>, events: &mut Vec<StreamEvent>)
        ensures
            run(final(self)@, final(events)@) == run(old(self)@, old(events)@).push_tool_calls(
                array_view(calls@),
            ),
    {
        let ghost before = run(self@, events@);
        let ghost items = array_view(calls@);
        for i in 0..calls.len()
            invariant
                items == array_view(calls@),
                run(self@, events@) == before.push_tool_calls(items.take(i as int)),
        {
            assert(items.take(i + 1).drop_last() =~= items.take(i as int));
            self.push_tool_call(&calls[i], events);
        }
        assert(items.take(items.len() as int) =~= items);
    }

    /// The contents of a delta: reasoning, text and tool calls.
    fn push_delta(&mut self, delta: &JsonObject, events: &mut Vec<StreamEvent>)
        ensures
            run(final(self)@, final(events)@) == run(old(self)@, old(events)@).push_delta(delta@),
    {
        if let Some(reasoning) = delta.get_str("reasoning_content") {
            if self.config.include_thinking && !reasoning.is_empty() {
                self.push_reasoning(reasoning, events);
            }
        }
        if let Some(text) = delta.get_str("content") {
            if !text.is_empty() {
                self.push_text(text, events);
            }
        }
        if let Some(Json::Array(calls)) = delta.get("tool_calls") {
            self.push_tool_calls(calls, events);
        }
    }

    /// The contents of the first choice of a chunk.
    fn push_choice(&mut self, choice: &Json, events: &mut Vec<StreamEvent>)
        ensures
            run(final(self)@, final(events)@) == run(old(self)@, old(events)@).push_choice(choice@),
    {
        if let Some(delta) = choice.get_object("delta") {
            self.push_delta(delta, events);
        }
        if let Some(reason) = choice.get_str("finish_reason") {
            self.finish_reason = Some(reason.to_string());
        }
    }

    /// The id, the model and the usage that a chunk reports.
    fn note_metadata(&mut self, chunk: &Json)
        ensures
            final(self)@ == old(self)@.with_metadata(chunk@),
    {
        if let Some(id) = chunk.get_str("id") {
            self.message_id = anthropic_message_id(Some(id));
        }
        if let Some(model) = chunk.get_str("model") {
            self.model = model.to_string();
        }
        self.update_usage(chunk.get("usage"));
    }

    /// The events for a chunk of the response.
    pub fn push_chunk(&mut self, chunk: &Json) -> (events: Vec<StreamEvent>)
        ensures
            run(final(self)@, events@) == fresh(old(self)@).push_chunk(chunk@),
    {
        let mut events: Vec<StreamEvent> = Vec::new();
        assert(events_view(events@) =~= seq![]);
        self.note_metadata(chunk);
        self.ensure_message_start(&mut events);
        if let Some(choices) = chunk.get_array("choices") {
            if choices.len() > 0 {
                self.push_choice(&choices[0], &mut events);
            }
        }
        events
    }

    /// The events for what the data of an upstream event was parsed to.
    pub fn push_parsed(&mut self, parsed: Result<Json, String>) -> (events: Vec<StreamEvent>)
        ensures
            run(final(self)@, events@) == fresh(old(self)@).push_parsed(
                match parsed {
                    Ok(chunk) => Ok(chunk@),
                    Err(message) => Err(message@),
                },
            ),
    {
        match parsed {
            Ok(chunk) => self.push_chunk(&chunk),
            Err(message) => {
                let mut events: Vec<StreamEvent> = Vec::new();
                assert(events_view(events@) =~= seq![]);
                push_event(
                    &mut events,
                    StreamEvent::Error {
                        message: "invalid upstream SSE event: ".to_string().concat(
                            message.as_str(),
                        ),
                    },
                );
                events
            },
        }
    }

    /// The events that end the message; none if it has ended.
    pub fn finish_events(&mut self) -> (events: Vec<StreamEvent>)
        ensures
            run(final(self)@, events@) == fresh(old(self)@).finish(),
    {
        let mut events: Vec<StreamEvent> = Vec::new();
        assert(events_view(events@) =~= seq![]);
        if self.finished {
            return events;
        }
        self.ensure_message_start(&mut events);
        self.flush_raw_thinking_buffer(&mut events);
        self.close_block(&mut events);
        push_event(
            &mut events,
            StreamEvent::MessageDelta {
                finish_reason: self.finish_reason.clone(),
                output_tokens: self.output_tokens,
            },
        );
        push_event(&mut events, StreamEvent::MessageStop);
        self.finished = true;
        events
    }

    /// Ends the message: the events to send, none if it has ended.
    pub fn finish(&mut self) -> (result: Vec<String>)
        ensures
            final(self)@ == fresh(old(self)@).finish().converter,
            strings_view(result@) == sent(fresh(old(self)@).finish().events),
    {
        send_all(&self.finish_events())
    }

    /// Takes in the data of an upstream event: the events to send.
    pub fn push_data(&mut self, data: &str) -> (result: Vec<String>)
        ensures
            final(self)@ == fresh(old(self)@).push_data(data@).converter,
            strings_view(result@) == sent(fresh(old(self)@).push_data(data@).events),
    {
        if same_text(trim(data), "[DONE]") {
            return self.finish();
        }
        send_all(&self.push_parsed(parse(data)))
    }
}

/// The message has ended once it has been ended, and is not ended twice.
pub proof fn lemma_finish_once(converter: ConverterView)
    ensures
        fresh(converter).finish().converter.finished,
        converter.finished ==> fresh(converter).finish() == fresh(converter),
{
}

}
