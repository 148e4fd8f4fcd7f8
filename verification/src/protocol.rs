//! The order of events that a client can rely on.

use crate::agreement::{chunk_delta, delta_reasoning, delta_text};
use crate::converter::{fresh, lemma_finish_once, BlockKind, ConverterView, Run};
use crate::event::{DeltaView, EventView, NewBlockView};
use crate::interop::parsed_text;
use crate::json::{JsonView, ObjectView};
use crate::response::{first_choice, tool_calls};
use crate::text::trimmed;
use crate::thinking::raw_split;
use vstd::prelude::*;

verus! {

/// The kinds of content blocks that a client tells apart.
pub ghost enum Content {
    Thinking,
    Text,
    Tool,
}

/// Where a client stands in the events of a message.
pub ghost enum Phase {
    /// The message has not begun.
    Before,
    /// No block is open; the next one has the number `next`.
    Between { next: u64 },
    /// The block `index` is open.
    Inside { index: u64, content: Content },
    /// The block `index` of reasoning has its signature and is about to end.
    Signed { index: u64 },
    /// The message has its reason for stopping and is about to end.
    Ending,
    /// The message has ended.
    Over,
}

/// What a new block holds.
pub open spec fn content_of(block: NewBlockView) -> Content {
    match block {
        NewBlockView::Thinking => Content::Thinking,
        NewBlockView::Text => Content::Text,
        NewBlockView::Tool { .. } => Content::Tool,
    }
}

impl Phase {
    /// Where the client stands after an event, if the event may come now. A message begins, has
    /// blocks numbered from zero, gets its reason for stopping, and ends. A block begins, has
    /// pieces of its own kind and ends; reasoning gets a signature just before. An error may be
    /// reported at any time.
    pub open spec fn after(self, event: EventView) -> Option<Phase> {
        match (self, event) {
            (_, EventView::Error { .. }) => Some(self),
            (Phase::Before, EventView::MessageStart { .. }) => Some(Phase::Between { next: 0 }),
            (Phase::Between { next }, EventView::BlockStart { index, block }) => if index == next {
                Some(Phase::Inside { index, content: content_of(block) })
            } else {
                None
            },
            (Phase::Between { .. }, EventView::MessageDelta { .. }) => Some(Phase::Ending),
            (Phase::Inside { index, content }, EventView::BlockDelta { index: i, delta }) => if index
                == i {
                match (content, delta) {
                    (Content::Thinking, DeltaView::Thinking(_)) => Some(self),
                    (Content::Thinking, DeltaView::Signature) => Some(Phase::Signed { index }),
                    (Content::Text, DeltaView::Text(_)) => Some(self),
                    (Content::Tool, DeltaView::InputJson(_)) => Some(self),
                    _ => None,
                }
            } else {
                None
            },
            (Phase::Inside { index, content }, EventView::BlockStop { index: i }) => if index == i
                && content != Content::Thinking {
                Some(Phase::Between { next: index.wrapping_add(1) })
            } else {
                None
            },
            (Phase::Signed { index }, EventView::BlockStop { index: i }) => if index == i {
                Some(Phase::Between { next: index.wrapping_add(1) })
            } else {
                None
            },
            (Phase::Ending, EventView::MessageStop) => Some(Phase::Over),
            _ => None,
        }
    }

    /// Where the client stands after a list of events, if they may come in this order.
    pub open spec fn after_all(self, events: Seq<EventView>) -> Option<Phase>
        decreases events.len(),
    {
        if events.len() == 0 {
            Some(self)
        } else {
            match self.after_all(events.drop_last()) {
                Some(phase) => phase.after(events.last()),
                None => None,
            }
        }
    }
}

/// What a block of the given kind holds.
pub open spec fn content_of_kind(kind: BlockKind) -> Content {
    match kind {
        BlockKind::Thinking => Content::Thinking,
        BlockKind::Text => Content::Text,
        BlockKind::Tool(_) => Content::Tool,
    }
}

impl ConverterView {
    /// A message that has not begun has no blocks, and the block that is open is the one before
    /// the next.
    pub open spec fn well_formed(self) -> bool {
        &&& !self.started ==> self.current_block is None && self.next_content_index == 0
        &&& self.current_block is Some ==> self.next_content_index
            == self.current_content_index.wrapping_add(1)
        &&& self.finished ==> self.started
    }

    /// Where a client stands that has got all events.
    pub open spec fn phase(self) -> Phase {
        if self.finished {
            Phase::Over
        } else if !self.started {
            Phase::Before
        } else {
            match self.current_block {
                None => Phase::Between { next: self.next_content_index },
                Some(kind) => Phase::Inside {
                    index: self.current_content_index,
                    content: content_of_kind(kind),
                },
            }
        }
    }
}

/// A client that stood at `from` before the events of `run` stands where the converter says.
spec fn in_order(from: Phase, run: Run) -> bool {
    &&& run.converter.well_formed()
    &&& from.after_all(run.events) == Some(run.converter.phase())
}

/// The same of a message that has begun and has not ended.
spec fn in_order_within(from: Phase, run: Run) -> bool {
    &&& in_order(from, run)
    &&& run.converter.started
    &&& !run.converter.finished
}

proof fn lemma_emit(from: Phase, run: Run, event: EventView)
    ensures
        from.after_all(run.emit(event).events) == match from.after_all(run.events) {
            Some(phase) => phase.after(event),
            None => None,
        },
{
    assert(run.events.push(event).drop_last() =~= run.events);
}

proof fn lemma_start(from: Phase, run: Run)
    requires
        in_order(from, run),
        !run.converter.finished,
    ensures
        in_order_within(from, run.start()),
{
    let event = EventView::MessageStart {
        id: run.converter.message_id,
        model: run.converter.model,
        input_tokens: run.converter.input_tokens,
    };
    lemma_emit(from, run, event);
}

proof fn lemma_close(from: Phase, run: Run)
    requires
        in_order_within(from, run),
    ensures
        in_order_within(from, run.close()),
        run.close().converter.current_block is None,
{
    if let Some(kind) = run.converter.current_block {
        let index = run.converter.current_content_index;
        let signed = if kind == BlockKind::Thinking {
            run.delta(DeltaView::Signature)
        } else {
            run
        };
        lemma_emit(from, run, EventView::BlockDelta { index, delta: DeltaView::Signature });
        lemma_emit(from, signed, EventView::BlockStop { index });
    }
}

proof fn lemma_open(
    from: Phase,
    run: Run,
    kind: BlockKind,
    id: Option<Seq<char>>,
    name: Option<Seq<char>>,
)
    requires
        in_order_within(from, run),
    ensures
        in_order_within(from, run.open(kind, id, name)),
        run.open(kind, id, name).converter.current_block == Some(kind),
{
    if run.converter.current_block != Some(kind) {
        lemma_close(from, run);
        let closed = run.close();
        lemma_emit(
            from,
            closed,
            EventView::BlockStart {
                index: closed.converter.next_content_index,
                block: crate::converter::new_block(kind, id, name),
            },
        );
    }
}

proof fn lemma_thinking(from: Phase, run: Run, text: Seq<char>)
    requires
        in_order_within(from, run),
    ensures
        in_order_within(from, run.thinking(text)),
{
    lemma_open(from, run, BlockKind::Thinking, None, None);
    let opened = run.open(BlockKind::Thinking, None, None);
    lemma_emit(
        from,
        opened,
        EventView::BlockDelta {
            index: opened.converter.current_content_index,
            delta: DeltaView::Thinking(text),
        },
    );
}

proof fn lemma_text(from: Phase, run: Run, text: Seq<char>)
    requires
        in_order_within(from, run),
    ensures
        in_order_within(from, run.text(text)),
{
    lemma_open(from, run, BlockKind::Text, None, None);
    let opened = run.open(BlockKind::Text, None, None);
    lemma_emit(
        from,
        opened,
        EventView::BlockDelta {
            index: opened.converter.current_content_index,
            delta: DeltaView::Text(text),
        },
    );
}

proof fn lemma_push_text(from: Phase, run: Run, text: Seq<char>)
    requires
        in_order_within(from, run),
    ensures
        in_order_within(from, run.push_text(text)),
{
    if run.converter.looks_for_thinking() {
        let held = run.converter.raw_thinking_buffer + text;
        if let Some((thinking, answer)) = raw_split(held) {
            let empty = run.hold(seq![]);
            assert(in_order_within(from, empty));
            if thinking.len() > 0 {
                lemma_thinking(from, empty, thinking);
            }
            let shown = empty.some_thinking(thinking).closed_thinking();
            assert(in_order_within(from, shown));
            if answer.len() > 0 {
                lemma_text(from, shown, answer);
            }
        }
    } else {
        lemma_text(from, run, text);
    }
}

proof fn lemma_flush(from: Phase, run: Run)
    requires
        in_order_within(from, run),
    ensures
        in_order_within(from, run.flush()),
{
    let empty = run.hold(seq![]);
    assert(in_order_within(from, empty));
    lemma_thinking(from, empty, crate::thinking::normalized(run.converter.raw_thinking_buffer));
    lemma_text(from, empty, run.converter.raw_thinking_buffer);
}

proof fn lemma_push_tool_call(from: Phase, run: Run, tool_call: JsonView)
    requires
        in_order_within(from, run),
    ensures
        in_order_within(from, run.push_tool_call(tool_call)),
{
    let index = crate::response::or_zero(tool_call.get_u64("index"@));
    let (name, arguments) = match tool_call.get_object("function"@) {
        Some(function) => (function.get_str("name"@), function.get_str("arguments"@)),
        None => (None, None),
    };
    let converter = run.converter.with_tool(index, tool_call.get_str("id"@), name);
    let noted = Run { converter, ..run };
    assert(in_order_within(from, noted));
    let kind = BlockKind::Tool(index);
    let id = Some(converter.tool_id(index));
    let known = Some(converter.tool_name(index));
    lemma_open(from, noted, kind, id, known);
    let opened = noted.open(kind, id, known);
    if let Some(text) = arguments {
        lemma_emit(
            from,
            opened,
            EventView::BlockDelta {
                index: opened.converter.current_content_index,
                delta: DeltaView::InputJson(text),
            },
        );
    }
}

proof fn lemma_push_tool_calls(from: Phase, run: Run, calls: Seq<JsonView>)
    requires
        in_order_within(from, run),
    ensures
        in_order_within(from, run.push_tool_calls(calls)),
    decreases calls.len(),
{
    if calls.len() > 0 {
        lemma_push_tool_calls(from, run, calls.drop_last());
        lemma_push_tool_call(from, run.push_tool_calls(calls.drop_last()), calls.last());
    }
}

proof fn lemma_push_delta(from: Phase, run: Run, delta: ObjectView)
    requires
        in_order_within(from, run),
    ensures
        in_order_within(from, run.push_delta(delta)),
{
    let reasoned = match delta.get_str("reasoning_content"@) {
        Some(reasoning) if run.converter.config.include_thinking && reasoning.len() > 0 => {
            let seen = Run {
                converter: ConverterView { structured_thinking_seen: true, ..run.converter },
                ..run
            };
            assert(in_order_within(from, seen));
            lemma_flush(from, seen);
            lemma_thinking(from, seen.flush(), reasoning);
            run.push_reasoning(reasoning)
        },
        _ => run,
    };
    let written = match delta.get_str("content"@) {
        Some(text) if text.len() > 0 => {
            lemma_push_text(from, reasoned, text);
            reasoned.push_text(text)
        },
        _ => reasoned,
    };
    lemma_push_tool_calls(from, written, tool_calls(delta));
}

proof fn lemma_push_chunk(from: Phase, run: Run, chunk: JsonView)
    requires
        in_order(from, run),
        !run.converter.finished,
    ensures
        in_order_within(from, run.push_chunk(chunk)),
{
    let noted = Run { converter: run.converter.with_metadata(chunk), ..run };
    assert(in_order(from, noted));
    lemma_start(from, noted);
    let started = noted.start();
    if let Some(choice) = first_choice(chunk) {
        if let Some(delta) = choice.get_object("delta"@) {
            lemma_push_delta(from, started, delta);
        }
    }
}

/// Converting the data of an upstream event keeps the events in order, as long as the message has
/// not ended.
pub proof fn lemma_push_data_in_order(converter: ConverterView, data: Seq<char>)
    requires
        converter.well_formed(),
        !converter.finished,
    ensures
        fresh(converter).push_data(data).converter.well_formed(),
        converter.phase().after_all(fresh(converter).push_data(data).events) == Some(
            fresh(converter).push_data(data).converter.phase(),
        ),
{
    let from = converter.phase();
    let run = fresh(converter);
    assert(in_order(from, run));
    if trimmed(data) == "[DONE]"@ {
        lemma_finish_in_order(converter);
    } else {
        match parsed_text(data) {
            Ok(chunk) => {
                lemma_push_chunk(from, run, chunk);
            },
            Err(message) => {
                lemma_emit(
                    from,
                    run,
                    EventView::Error { message: "invalid upstream SSE event: "@ + message },
                );
            },
        }
    }
}

/// Ending the message ends the open block and then the message; once it has ended, nothing more is
/// sent.
pub proof fn lemma_finish_in_order(converter: ConverterView)
    requires
        converter.well_formed(),
    ensures
        fresh(converter).finish().converter.well_formed(),
        fresh(converter).finish().converter.phase() == Phase::Over,
        converter.phase().after_all(fresh(converter).finish().events) == Some(Phase::Over),
        fresh(fresh(converter).finish().converter).finish() == fresh(
            fresh(converter).finish().converter,
        ),
{
    let from = converter.phase();
    let run = fresh(converter);
    assert(in_order(from, run));
    if !converter.finished {
        lemma_start(from, run);
        lemma_flush(from, run.start());
        lemma_close(from, run.start().flush());
        let closed = run.start().flush().close();
        let reason = EventView::MessageDelta {
            finish_reason: closed.converter.finish_reason,
            output_tokens: closed.converter.output_tokens,
        };
        lemma_emit(from, closed, reason);
        lemma_emit(from, closed.emit(reason), EventView::MessageStop);
    }
}

/// The converter after the data of several upstream events, and all events it has made.
pub open spec fn converted(converter: ConverterView, data: Seq<Seq<char>>) -> Run
    decreases data.len(),
{
    if data.len() == 0 {
        fresh(converter)
    } else {
        let before = converted(converter, data.drop_last());
        let last = fresh(before.converter).push_data(data.last());
        Run { converter: last.converter, events: before.events + last.events }
    }
}

/// One list of events after another.
pub proof fn lemma_after_all_concat(from: Phase, first: Seq<EventView>, rest: Seq<EventView>)
    ensures
        from.after_all(first + rest) == match from.after_all(first) {
            Some(phase) => phase.after_all(rest),
            None => None,
        },
    decreases rest.len(),
{
    if rest.len() == 0 {
        assert(first + rest =~= first);
    } else {
        assert((first + rest).drop_last() =~= first + rest.drop_last());
        lemma_after_all_concat(from, first, rest.drop_last());
    }
}

/// The end of the stream is announced by this data.
pub open spec fn is_done(data: Seq<char>) -> bool {
    trimmed(data) == "[DONE]"@
}

/// The data is a chunk that brings something of the answer.
pub open spec fn brings_content(data: Seq<char>) -> bool {
    !is_done(data) && match parsed_text(data) {
        Ok(chunk) => match chunk_delta(chunk) {
            Some(delta) => delta_reasoning(delta).len() > 0 || delta_text(delta).len() > 0
                || tool_calls(delta).len() > 0,
            None => false,
        },
        Err(_) => false,
    }
}

/// Nothing of the answer comes behind the data that announces the end of the stream.
pub open spec fn ends_at_the_end(data: Seq<Seq<char>>) -> bool {
    forall|i: int, j: int|
        0 <= i < j < data.len() && is_done(#[trigger] data[i]) ==> !brings_content(
            #[trigger] data[j],
        )
}

/// The end of the stream has been announced.
pub open spec fn has_end(data: Seq<Seq<char>>) -> bool {
    exists|i: int| 0 <= i < data.len() && is_done(#[trigger] data[i])
}

/// Whatever the upstream sends, the client gets its events in order, as long as nothing of the
/// answer comes behind the data that announces the end of the stream. With that data, and only
/// with that, the message ends.
#[verifier::spinoff_prover]
pub proof fn lemma_stream_in_order(converter: ConverterView, data: Seq<Seq<char>>)
    requires
        converter.well_formed(),
        !converter.finished,
        ends_at_the_end(data),
    ensures
        converted(converter, data).converter.well_formed(),
        converter.phase().after_all(converted(converter, data).events) == Some(
            converted(converter, data).converter.phase(),
        ),
        converted(converter, data).converter.finished == has_end(data),
    decreases data.len(),
{
    if data.len() > 0 {
        let shorter = data.drop_last();
        let last = data.last();
        assert forall|i: int, j: int|
            0 <= i < j < shorter.len() && is_done(#[trigger] shorter[i]) implies !brings_content(
            #[trigger] shorter[j],
        ) by {
            assert(shorter[i] == data[i] && shorter[j] == data[j]);
        }
        lemma_stream_in_order(converter, shorter);
        let before = converted(converter, shorter);
        if before.converter.finished {
            let i = choose|i: int| 0 <= i < shorter.len() && is_done(#[trigger] shorter[i]);
            assert(is_done(data[i]));
            assert(!brings_content(data[data.len() - 1]));
            lemma_nothing_after_the_end(before.converter, last);
        } else {
            lemma_push_data_in_order(before.converter, last);
            lemma_finished_by_done(before.converter, last);
            assert forall|i: int| 0 <= i < data.len() && is_done(#[trigger] data[i]) implies i
                == data.len() - 1 by {
                if i < data.len() - 1 {
                    assert(is_done(shorter[i]));
                }
            }
            if is_done(last) {
                assert(is_done(data[data.len() - 1]));
            }
        }
        lemma_after_all_concat(
            converter.phase(),
            before.events,
            fresh(before.converter).push_data(last).events,
        );
    }
}

/// Once the message has ended, data that brings nothing of the answer leaves the client where it
/// stands.
proof fn lemma_nothing_after_the_end(converter: ConverterView, data: Seq<char>)
    requires
        converter.well_formed(),
        converter.finished,
        !brings_content(data),
    ensures
        fresh(converter).push_data(data).converter.well_formed(),
        fresh(converter).push_data(data).converter.finished,
        Phase::Over.after_all(fresh(converter).push_data(data).events) == Some(Phase::Over),
{
    lemma_finish_once(converter);
    let run = fresh(converter);
    if !is_done(data) {
        match parsed_text(data) {
            Ok(chunk) => {
                let noted = Run { converter: converter.with_metadata(chunk), ..run };
                if let Some(delta) = chunk_delta(chunk) {
                    assert(tool_calls(delta) =~= seq![]);
                    assert(noted.push_delta(delta) == noted);
                }
            },
            Err(message) => {
                lemma_emit(
                    Phase::Over,
                    run,
                    EventView::Error { message: "invalid upstream SSE event: "@ + message },
                );
            },
        }
    }
}

/// Only the data that announces the end of the stream ends the message.
proof fn lemma_finished_by_done(converter: ConverterView, data: Seq<char>)
    requires
        converter.well_formed(),
        !converter.finished,
    ensures
        fresh(converter).push_data(data).converter.finished == is_done(data),
{
    lemma_finish_once(converter);
    let from = converter.phase();
    let run = fresh(converter);
    assert(in_order(from, run));
    if !is_done(data) {
        if let Ok(chunk) = parsed_text(data) {
            lemma_push_chunk(from, run, chunk);
        }
    }
}

/// A new converter is well formed, and its client waits for the message to begin.
pub proof fn lemma_new_in_order(config: crate::request::ConfigView)
    ensures
        ConverterView::new(config).well_formed(),
        ConverterView::new(config).phase() == Phase::Before,
        !ConverterView::new(config).finished,
{
}

}
