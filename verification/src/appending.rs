//! That the converter only adds events: what it makes of new data does not depend on the events
//! that it has made before.

use crate::agreement::push_chunks;
use crate::converter::{fresh, new_block, BlockKind, ConverterView, Run};
use crate::event::{DeltaView, EventView};
use crate::interop::parsed_text;
use crate::json::{JsonView, ObjectView};
use crate::protocol::{converted, is_done};
use crate::response::{first_choice, or_zero, tool_calls};
use crate::thinking::{normalized, raw_split};
use vstd::prelude::*;

verus! {

/// The same converter with more events before those it has made.
pub open spec fn behind(earlier: Seq<EventView>, run: Run) -> Run {
    Run { events: earlier + run.events, ..run }
}

proof fn lemma_emit_behind(earlier: Seq<EventView>, run: Run, event: EventView)
    ensures
        behind(earlier, run).emit(event) == behind(earlier, run.emit(event)),
{
    assert((earlier + run.events).push(event) =~= earlier + run.events.push(event));
}

proof fn lemma_start_behind(earlier: Seq<EventView>, run: Run)
    ensures
        behind(earlier, run).start() == behind(earlier, run.start()),
{
    lemma_emit_behind(
        earlier,
        Run { converter: ConverterView { started: true, ..run.converter }, ..run },
        EventView::MessageStart {
            id: run.converter.message_id,
            model: run.converter.model,
            input_tokens: run.converter.input_tokens,
        },
    );
}

proof fn lemma_delta_behind(earlier: Seq<EventView>, run: Run, delta: DeltaView)
    ensures
        behind(earlier, run).delta(delta) == behind(earlier, run.delta(delta)),
{
    lemma_emit_behind(
        earlier,
        run,
        EventView::BlockDelta { index: run.converter.current_content_index, delta },
    );
}

proof fn lemma_close_behind(earlier: Seq<EventView>, run: Run)
    ensures
        behind(earlier, run).close() == behind(earlier, run.close()),
{
    if let Some(kind) = run.converter.current_block {
        lemma_delta_behind(earlier, run, DeltaView::Signature);
        let signed = if kind == BlockKind::Thinking {
            run.delta(DeltaView::Signature)
        } else {
            run
        };
        lemma_emit_behind(
            earlier,
            Run { converter: ConverterView { current_block: None, ..run.converter }, ..signed },
            EventView::BlockStop { index: run.converter.current_content_index },
        );
    }
}

proof fn lemma_open_behind(
    earlier: Seq<EventView>,
    run: Run,
    kind: BlockKind,
    id: Option<Seq<char>>,
    name: Option<Seq<char>>,
)
    ensures
        behind(earlier, run).open(kind, id, name) == behind(earlier, run.open(kind, id, name)),
{
    lemma_close_behind(earlier, run);
    let closed = run.close();
    let index = closed.converter.next_content_index;
    lemma_emit_behind(
        earlier,
        Run {
            converter: ConverterView {
                current_block: Some(kind),
                current_content_index: index,
                next_content_index: index.wrapping_add(1),
                ..closed.converter
            },
            ..closed
        },
        EventView::BlockStart { index, block: new_block(kind, id, name) },
    );
}

proof fn lemma_thinking_behind(earlier: Seq<EventView>, run: Run, text: Seq<char>)
    ensures
        behind(earlier, run).thinking(text) == behind(earlier, run.thinking(text)),
{
    lemma_open_behind(earlier, run, BlockKind::Thinking, None, None);
    lemma_delta_behind(
        earlier,
        run.open(BlockKind::Thinking, None, None),
        DeltaView::Thinking(text),
    );
}

proof fn lemma_text_behind(earlier: Seq<EventView>, run: Run, text: Seq<char>)
    ensures
        behind(earlier, run).text(text) == behind(earlier, run.text(text)),
{
    lemma_open_behind(earlier, run, BlockKind::Text, None, None);
    lemma_delta_behind(earlier, run.open(BlockKind::Text, None, None), DeltaView::Text(text));
}

proof fn lemma_push_text_behind(earlier: Seq<EventView>, run: Run, text: Seq<char>)
    ensures
        behind(earlier, run).push_text(text) == behind(earlier, run.push_text(text)),
{
    if run.converter.looks_for_thinking() {
        let held = run.converter.raw_thinking_buffer + text;
        if let Some((thinking, answer)) = raw_split(held) {
            let empty = run.hold(seq![]);
            lemma_thinking_behind(earlier, empty, thinking);
            lemma_text_behind(earlier, empty.some_thinking(thinking).closed_thinking(), answer);
        }
    } else {
        lemma_text_behind(earlier, run, text);
    }
}

proof fn lemma_flush_behind(earlier: Seq<EventView>, run: Run)
    ensures
        behind(earlier, run).flush() == behind(earlier, run.flush()),
{
    let held = run.converter.raw_thinking_buffer;
    lemma_thinking_behind(earlier, run.hold(seq![]), normalized(held));
    lemma_text_behind(earlier, run.hold(seq![]), held);
}

proof fn lemma_push_reasoning_behind(earlier: Seq<EventView>, run: Run, reasoning: Seq<char>)
    ensures
        behind(earlier, run).push_reasoning(reasoning) == behind(
            earlier,
            run.push_reasoning(reasoning),
        ),
{
    let seen = Run {
        converter: ConverterView { structured_thinking_seen: true, ..run.converter },
        ..run
    };
    lemma_flush_behind(earlier, seen);
    lemma_thinking_behind(earlier, seen.flush(), reasoning);
}

proof fn lemma_push_tool_call_behind(earlier: Seq<EventView>, run: Run, call: JsonView)
    ensures
        behind(earlier, run).push_tool_call(call) == behind(earlier, run.push_tool_call(call)),
{
    let index = or_zero(call.get_u64("index"@));
    let (name, arguments) = match call.get_object("function"@) {
        Some(function) => (function.get_str("name"@), function.get_str("arguments"@)),
        None => (None, None),
    };
    let converter = run.converter.with_tool(index, call.get_str("id"@), name);
    let noted = Run { converter, ..run };
    let id = Some(converter.tool_id(index));
    let known = Some(converter.tool_name(index));
    lemma_open_behind(earlier, noted, BlockKind::Tool(index), id, known);
    if let Some(text) = arguments {
        lemma_delta_behind(
            earlier,
            noted.open(BlockKind::Tool(index), id, known),
            DeltaView::InputJson(text),
        );
    }
}

proof fn lemma_push_tool_calls_behind(earlier: Seq<EventView>, run: Run, calls: Seq<JsonView>)
    ensures
        behind(earlier, run).push_tool_calls(calls) == behind(earlier, run.push_tool_calls(calls)),
    decreases calls.len(),
{
    if calls.len() > 0 {
        lemma_push_tool_calls_behind(earlier, run, calls.drop_last());
        lemma_push_tool_call_behind(
            earlier,
            run.push_tool_calls(calls.drop_last()),
            calls.last(),
        );
    }
}

proof fn lemma_push_delta_behind(earlier: Seq<EventView>, run: Run, delta: ObjectView)
    ensures
        behind(earlier, run).push_delta(delta) == behind(earlier, run.push_delta(delta)),
{
    let reasoned = match delta.get_str("reasoning_content"@) {
        Some(reasoning) if run.converter.config.include_thinking && reasoning.len() > 0 => {
            lemma_push_reasoning_behind(earlier, run, reasoning);
            run.push_reasoning(reasoning)
        },
        _ => run,
    };
    let written = match delta.get_str("content"@) {
        Some(text) if text.len() > 0 => {
            lemma_push_text_behind(earlier, reasoned, text);
            reasoned.push_text(text)
        },
        _ => reasoned,
    };
    lemma_push_tool_calls_behind(earlier, written, tool_calls(delta));
}

/// What the converter makes of a chunk does not depend on the events that it has made before.
pub proof fn lemma_push_chunk_behind(earlier: Seq<EventView>, run: Run, chunk: JsonView)
    ensures
        behind(earlier, run).push_chunk(chunk) == behind(earlier, run.push_chunk(chunk)),
{
    let noted = Run { converter: run.converter.with_metadata(chunk), ..run };
    lemma_start_behind(earlier, noted);
    if let Some(choice) = first_choice(chunk) {
        if let Some(delta) = choice.get_object("delta"@) {
            lemma_push_delta_behind(earlier, noted.start(), delta);
        }
    }
}

/// How the converter ends the message does not depend on the events that it has made before.
pub proof fn lemma_finish_behind(earlier: Seq<EventView>, run: Run)
    ensures
        behind(earlier, run).finish() == behind(earlier, run.finish()),
{
    lemma_start_behind(earlier, run);
    lemma_flush_behind(earlier, run.start());
    lemma_close_behind(earlier, run.start().flush());
    let closed = run.start().flush().close();
    let ended = Run { converter: ConverterView { finished: true, ..closed.converter }, ..closed };
    let reason = EventView::MessageDelta {
        finish_reason: closed.converter.finish_reason,
        output_tokens: closed.converter.output_tokens,
    };
    lemma_emit_behind(earlier, ended, reason);
    lemma_emit_behind(earlier, ended.emit(reason), EventView::MessageStop);
}

/// Each piece of data is the text of a chunk.
pub open spec fn data_of_chunks(data: Seq<Seq<char>>, chunks: Seq<JsonView>) -> bool {
    &&& data.len() == chunks.len()
    &&& forall|i: int|
        0 <= i < data.len() ==> !is_done(#[trigger] data[i]) && parsed_text(data[i]) == Ok::<
            JsonView,
            Seq<char>,
        >(chunks[i])
}

/// The events for the data of a response, each piece converted when it arrives, are those for its
/// chunks, one after the other; and with the events that end the message they are those of the
/// whole message.
pub proof fn lemma_data_as_chunks(
    converter: ConverterView,
    data: Seq<Seq<char>>,
    chunks: Seq<JsonView>,
)
    requires
        data_of_chunks(data, chunks),
    ensures
        converted(converter, data) == push_chunks(fresh(converter), chunks),
        ({
            let run = converted(converter, data);
            let end = fresh(run.converter).finish();
            push_chunks(fresh(converter), chunks).finish() == (Run {
                converter: end.converter,
                events: run.events + end.events,
            })
        }),
    decreases data.len(),
{
    if data.len() > 0 {
        let shorter = data.drop_last();
        let fewer = chunks.drop_last();
        assert forall|i: int| 0 <= i < shorter.len() implies !is_done(#[trigger] shorter[i])
            && parsed_text(shorter[i]) == Ok::<JsonView, Seq<char>>(fewer[i]) by {
            assert(shorter[i] == data[i]);
            assert(fewer[i] == chunks[i]);
        }
        lemma_data_as_chunks(converter, shorter, fewer);
        let before = converted(converter, shorter);
        assert(data.last() == data[data.len() - 1]);
        lemma_push_chunk_behind(before.events, fresh(before.converter), chunks.last());
        lemma_behind_nothing(before);
    }
    let run = push_chunks(fresh(converter), chunks);
    lemma_finish_behind(run.events, fresh(run.converter));
    lemma_behind_nothing(run);
}

proof fn lemma_behind_nothing(run: Run)
    ensures
        behind(run.events, fresh(run.converter)) == run,
{
    assert(run.events + Seq::<EventView>::empty() =~= run.events);
}

}
