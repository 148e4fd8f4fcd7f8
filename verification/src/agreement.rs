//! What a client reads from a stream, compared with what it reads from a whole response.

use crate::converter::{fresh, BlockKind, ConverterView, Run};
use crate::event::{DeltaView, EventView};
use crate::json::{JsonView, ObjectView};
use crate::request::ConfigView;
use crate::response::{first_choice, nonempty, or_zero, text_or, tool_calls, visible, Visible};
use crate::text::{
    contains_text, index_of, joined, lemma_index_of, occurs_at, split_at_first, trimmed_start,
};
use crate::thinking::{closing_tag, lemma_split_iff_tag, normalized, raw_split};
use vstd::prelude::*;

verus! {

/// The pieces of a message that are put together by a client.
pub ghost struct Shown {
    /// The reasoning.
    pub thinking: Seq<char>,
    /// The text.
    pub text: Seq<char>,
    /// The input of the tools, of one after the other.
    pub input: Seq<char>,
}

impl Shown {
    /// Nothing has been shown.
    pub open spec fn nothing() -> Shown {
        Shown { thinking: seq![], text: seq![], input: seq![] }
    }

    /// What has been shown after one more event.
    pub open spec fn after(self, event: EventView) -> Shown {
        match event {
            EventView::BlockDelta { delta: DeltaView::Thinking(text), .. } => Shown {
                thinking: self.thinking + text,
                ..self
            },
            EventView::BlockDelta { delta: DeltaView::Text(text), .. } => Shown {
                text: self.text + text,
                ..self
            },
            EventView::BlockDelta { delta: DeltaView::InputJson(text), .. } => Shown {
                input: self.input + text,
                ..self
            },
            _ => self,
        }
    }
}

/// What a list of events shows.
pub open spec fn shown(events: Seq<EventView>) -> Shown
    decreases events.len(),
{
    if events.len() == 0 {
        Shown::nothing()
    } else {
        shown(events.drop_last()).after(events.last())
    }
}

/// The pieces, put together.
pub open spec fn whole(pieces: Seq<Seq<char>>) -> Seq<char> {
    joined(pieces, seq![])
}

/// The delta that a chunk brings.
pub open spec fn chunk_delta(chunk: JsonView) -> Option<ObjectView> {
    match first_choice(chunk) {
        Some(choice) => choice.get_object("delta"@),
        None => None,
    }
}

/// The reason for stopping that a chunk reports.
pub open spec fn chunk_reason(chunk: JsonView) -> Option<Seq<char>> {
    match first_choice(chunk) {
        Some(choice) => choice.get_str("finish_reason"@),
        None => None,
    }
}

/// The piece of reasoning in a delta.
pub open spec fn delta_reasoning(delta: ObjectView) -> Seq<char> {
    text_or(delta.get_str("reasoning_content"@), seq![])
}

/// The piece of text in a delta.
pub open spec fn delta_text(delta: ObjectView) -> Seq<char> {
    text_or(delta.get_str("content"@), seq![])
}

/// The piece of input in a piece of a tool call.
pub open spec fn call_input(call: JsonView) -> Seq<char> {
    match call.get_object("function"@) {
        Some(function) => text_or(function.get_str("arguments"@), seq![]),
        None => seq![],
    }
}

/// The pieces of input in pieces of tool calls.
pub open spec fn calls_input(calls: Seq<JsonView>) -> Seq<char> {
    whole(calls.map_values(|call: JsonView| call_input(call)))
}

/// The piece of reasoning in a chunk.
pub open spec fn chunk_reasoning(chunk: JsonView) -> Seq<char> {
    match chunk_delta(chunk) {
        Some(delta) => delta_reasoning(delta),
        None => seq![],
    }
}

/// The piece of text in a chunk.
pub open spec fn chunk_text(chunk: JsonView) -> Seq<char> {
    match chunk_delta(chunk) {
        Some(delta) => delta_text(delta),
        None => seq![],
    }
}

/// The pieces of input in a chunk.
pub open spec fn chunk_input(chunk: JsonView) -> Seq<char> {
    match chunk_delta(chunk) {
        Some(delta) => calls_input(tool_calls(delta)),
        None => seq![],
    }
}

/// The pieces of reasoning in a response.
pub open spec fn reasoning_pieces(chunks: Seq<JsonView>) -> Seq<Seq<char>> {
    chunks.map_values(|chunk: JsonView| chunk_reasoning(chunk))
}

/// The pieces of text in a response.
pub open spec fn text_pieces(chunks: Seq<JsonView>) -> Seq<Seq<char>> {
    chunks.map_values(|chunk: JsonView| chunk_text(chunk))
}

/// The pieces of input in a response.
pub open spec fn input_pieces(chunks: Seq<JsonView>) -> Seq<Seq<char>> {
    chunks.map_values(|chunk: JsonView| chunk_input(chunk))
}

/// The last reason for stopping that has been reported.
pub open spec fn last_reason(before: Option<Seq<char>>, chunks: Seq<JsonView>) -> Option<Seq<char>>
    decreases chunks.len(),
{
    if chunks.len() == 0 {
        before
    } else {
        match chunk_reason(chunks.last()) {
            Some(reason) => Some(reason),
            None => last_reason(before, chunks.drop_last()),
        }
    }
}

/// The chunks of a response, one after the other.
pub open spec fn push_chunks(run: Run, chunks: Seq<JsonView>) -> Run
    decreases chunks.len(),
{
    if chunks.len() == 0 {
        run
    } else {
        push_chunks(run, chunks.drop_last()).push_chunk(chunks.last())
    }
}

/// The text that a client reads from the pieces of an answer in which reasoning is looked for: in
/// the piece that completes the closing tag, white space behind the tag is left out; the pieces
/// that follow are passed on as they are.
pub open spec fn streamed_answer(pieces: Seq<Seq<char>>) -> Seq<char>
    decreases pieces.len(),
{
    if pieces.len() == 0 {
        seq![]
    } else if contains_text(whole(pieces.drop_last()), closing_tag()) {
        streamed_answer(pieces.drop_last()) + pieces.last()
    } else {
        match raw_split(whole(pieces)) {
            Some((_, answer)) => answer,
            None => seq![],
        }
    }
}

/// Whether the streamed answer begins with something other than white space.
pub open spec fn answer_begins_cleanly(pieces: Seq<Seq<char>>) -> bool {
    trimmed_start(streamed_answer(pieces)) == streamed_answer(pieces)
}

/// What stands before the first closing tag.
pub open spec fn before_tag(text: Seq<char>) -> Seq<char> {
    match split_at_first(text, closing_tag()) {
        Some((before, _)) => before,
        None => text,
    }
}

/// What stands behind the first closing tag.
pub open spec fn behind_tag(text: Seq<char>) -> Seq<char> {
    match split_at_first(text, closing_tag()) {
        Some((_, behind)) => behind,
        None => seq![],
    }
}

/// Text behind the first closing tag does not change what stands before it.
proof fn lemma_split_stable(text: Seq<char>, more: Seq<char>)
    requires
        contains_text(text, closing_tag()),
    ensures
        contains_text(text + more, closing_tag()),
        split_at_first(text, closing_tag()) is Some,
        split_at_first(text + more, closing_tag()) == Some(
            (before_tag(text), behind_tag(text) + more),
        ),
{
    let tag = closing_tag();
    let all = text + more;
    lemma_index_of(text, tag);
    lemma_index_of(all, tag);
    let i = index_of(text, tag)->0;
    assert(all.subrange(i, i + tag.len()) =~= text.subrange(i, i + tag.len()));
    assert(occurs_at(all, tag, i));
    let k = index_of(all, tag)->0;
    assert(k <= i);
    assert(all.subrange(k, k + tag.len()) =~= text.subrange(k, k + tag.len()));
    assert(occurs_at(text, tag, k));
    assert(k == i);
    assert(all.take(i) =~= text.take(i));
    assert(all.skip(i + tag.len()) =~= text.skip(i + tag.len()) + more);
}

proof fn lemma_shown_push(events: Seq<EventView>, event: EventView)
    ensures
        shown(events.push(event)) == shown(events).after(event),
{
    assert(events.push(event).drop_last() =~= events);
}

/// The state on which it depends what is shown.
spec fn same_view(a: ConverterView, b: ConverterView) -> bool {
    &&& a.config == b.config
    &&& a.finish_reason == b.finish_reason
    &&& a.finished == b.finished
    &&& a.structured_thinking_seen == b.structured_thinking_seen
    &&& a.raw_thinking_closed == b.raw_thinking_closed
    &&& a.raw_thinking_buffer == b.raw_thinking_buffer
}

proof fn lemma_close_shows_nothing(run: Run)
    ensures
        shown(run.close().events) == shown(run.events),
        same_view(run.close().converter, run.converter),
{
    if let Some(kind) = run.converter.current_block {
        let index = run.converter.current_content_index;
        let signature = EventView::BlockDelta { index, delta: DeltaView::Signature };
        lemma_shown_push(run.events, signature);
        lemma_shown_push(run.events, EventView::BlockStop { index });
        lemma_shown_push(run.events.push(signature), EventView::BlockStop { index });
    }
}

proof fn lemma_open_shows_nothing(
    run: Run,
    kind: BlockKind,
    id: Option<Seq<char>>,
    name: Option<Seq<char>>,
)
    ensures
        shown(run.open(kind, id, name).events) == shown(run.events),
        same_view(run.open(kind, id, name).converter, run.converter),
{
    lemma_close_shows_nothing(run);
    let closed = run.close();
    lemma_shown_push(
        closed.events,
        EventView::BlockStart {
            index: closed.converter.next_content_index,
            block: crate::converter::new_block(kind, id, name),
        },
    );
}

proof fn lemma_delta_shows(run: Run, delta: DeltaView)
    ensures
        shown(run.delta(delta).events) == shown(run.events).after(
            EventView::BlockDelta { index: run.converter.current_content_index, delta },
        ),
{
    lemma_shown_push(
        run.events,
        EventView::BlockDelta { index: run.converter.current_content_index, delta },
    );
}

proof fn lemma_thinking_shows(run: Run, text: Seq<char>)
    ensures
        shown(run.thinking(text).events) == (Shown {
            thinking: shown(run.events).thinking + text,
            ..shown(run.events)
        }),
        same_view(run.thinking(text).converter, run.converter),
{
    lemma_open_shows_nothing(run, BlockKind::Thinking, None, None);
    lemma_delta_shows(run.open(BlockKind::Thinking, None, None), DeltaView::Thinking(text));
}

proof fn lemma_text_shows(run: Run, text: Seq<char>)
    ensures
        shown(run.text(text).events) == (Shown {
            text: shown(run.events).text + text,
            ..shown(run.events)
        }),
        same_view(run.text(text).converter, run.converter),
{
    lemma_open_shows_nothing(run, BlockKind::Text, None, None);
    lemma_delta_shows(run.open(BlockKind::Text, None, None), DeltaView::Text(text));
}

proof fn lemma_tool_call_shows(run: Run, call: JsonView)
    ensures
        shown(run.push_tool_call(call).events) == (Shown {
            input: shown(run.events).input + call_input(call),
            ..shown(run.events)
        }),
        same_view(run.push_tool_call(call).converter, run.converter),
{
    let index = or_zero(call.get_u64("index"@));
    let (name, arguments) = match call.get_object("function"@) {
        Some(function) => (function.get_str("name"@), function.get_str("arguments"@)),
        None => (None, None),
    };
    let converter = run.converter.with_tool(index, call.get_str("id"@), name);
    let noted = Run { converter, ..run };
    let id = Some(converter.tool_id(index));
    let known = Some(converter.tool_name(index));
    lemma_open_shows_nothing(noted, BlockKind::Tool(index), id, known);
    let opened = noted.open(BlockKind::Tool(index), id, known);
    lemma_delta_shows(opened, DeltaView::InputJson(call_input(call)));
    if call_input(call).len() == 0 {
        assert(shown(run.events).input + call_input(call) =~= shown(run.events).input);
    }
}

proof fn lemma_tool_calls_show(run: Run, calls: Seq<JsonView>)
    ensures
        shown(run.push_tool_calls(calls).events) == (Shown {
            input: shown(run.events).input + calls_input(calls),
            ..shown(run.events)
        }),
        same_view(run.push_tool_calls(calls).converter, run.converter),
    decreases calls.len(),
{
    let pieces = calls.map_values(|call: JsonView| call_input(call));
    let before = shown(run.events).input;
    if calls.len() == 0 {
        assert(before + calls_input(calls) =~= before);
    } else {
        let shorter = calls.drop_last();
        lemma_tool_calls_show(run, shorter);
        lemma_tool_call_shows(run.push_tool_calls(shorter), calls.last());
        assert(pieces.drop_last() =~= shorter.map_values(|call: JsonView| call_input(call)));
        lemma_whole_push(pieces);
        assert(before + (calls_input(shorter) + call_input(calls.last())) =~= before + calls_input(
            shorter,
        ) + call_input(calls.last()));
    }
}

proof fn lemma_start_shows_nothing(run: Run)
    ensures
        shown(run.start().events) == shown(run.events),
        same_view(run.start().converter, run.converter),
{
    lemma_shown_push(
        run.events,
        EventView::MessageStart {
            id: run.converter.message_id,
            model: run.converter.model,
            input_tokens: run.converter.input_tokens,
        },
    );
}

/// Ending a message shows what has been held back, and nothing else.
proof fn lemma_finish_shows(run: Run)
    requires
        !run.converter.finished,
    ensures
        shown(run.finish().events) == shown(run.start().flush().events),
{
    let flushed = run.start().flush();
    lemma_close_shows_nothing(flushed);
    let closed = flushed.close();
    let reason = EventView::MessageDelta {
        finish_reason: closed.converter.finish_reason,
        output_tokens: closed.converter.output_tokens,
    };
    lemma_shown_push(closed.events, reason);
    lemma_shown_push(closed.events.push(reason), EventView::MessageStop);
}

proof fn lemma_whole_push(pieces: Seq<Seq<char>>)
    requires
        pieces.len() > 0,
    ensures
        whole(pieces) == whole(pieces.drop_last()) + pieces.last(),
{
    if pieces.len() == 1 {
        assert(whole(pieces.drop_last()) + pieces.last() =~= pieces.last());
    } else {
        assert(whole(pieces.drop_last()) + seq![] + pieces.last() =~= whole(pieces.drop_last())
            + pieces.last());
    }
}

/// Pieces of a list that has one more chunk.
proof fn lemma_pieces_push(chunks: Seq<JsonView>)
    requires
        chunks.len() > 0,
    ensures
        reasoning_pieces(chunks) == reasoning_pieces(chunks.drop_last()).push(
            chunk_reasoning(chunks.last()),
        ),
        text_pieces(chunks) == text_pieces(chunks.drop_last()).push(chunk_text(chunks.last())),
        input_pieces(chunks) == input_pieces(chunks.drop_last()).push(chunk_input(chunks.last())),
        whole(reasoning_pieces(chunks)) == whole(reasoning_pieces(chunks.drop_last()))
            + chunk_reasoning(chunks.last()),
        whole(text_pieces(chunks)) == whole(text_pieces(chunks.drop_last())) + chunk_text(
            chunks.last(),
        ),
        whole(input_pieces(chunks)) == whole(input_pieces(chunks.drop_last())) + chunk_input(
            chunks.last(),
        ),
{
    let shorter = chunks.drop_last();
    assert(reasoning_pieces(chunks) =~= reasoning_pieces(shorter).push(
        chunk_reasoning(chunks.last()),
    ));
    assert(text_pieces(chunks) =~= text_pieces(shorter).push(chunk_text(chunks.last())));
    assert(input_pieces(chunks) =~= input_pieces(shorter).push(chunk_input(chunks.last())));
    assert(reasoning_pieces(chunks).drop_last() =~= reasoning_pieces(shorter));
    assert(text_pieces(chunks).drop_last() =~= text_pieces(shorter));
    assert(input_pieces(chunks).drop_last() =~= input_pieces(shorter));
    lemma_whole_push(reasoning_pieces(chunks));
    lemma_whole_push(text_pieces(chunks));
    lemma_whole_push(input_pieces(chunks));
}

/// A converter that passes text on as it comes.
spec fn passes_on(converter: ConverterView, config: ConfigView) -> bool {
    &&& converter.config == config
    &&& !converter.looks_for_thinking()
    &&& converter.raw_thinking_buffer.len() == 0
    &&& !converter.finished
}

/// The reasoning of which a client gets to see something.
pub open spec fn seen_reasoning(config: ConfigView, reasoning: Seq<char>) -> Seq<char> {
    if config.include_thinking {
        reasoning
    } else {
        seq![]
    }
}

proof fn lemma_delta_passed_on(run: Run, config: ConfigView, delta: ObjectView)
    requires
        passes_on(run.converter, config),
    ensures
        passes_on(run.push_delta(delta).converter, config),
        shown(run.push_delta(delta).events) == (Shown {
            thinking: shown(run.events).thinking + seen_reasoning(config, delta_reasoning(delta)),
            text: shown(run.events).text + delta_text(delta),
            input: shown(run.events).input + calls_input(tool_calls(delta)),
        }),
{
    let before = shown(run.events);
    let reasoning = delta_reasoning(delta);
    let text = delta_text(delta);
    let reasoned = if config.include_thinking && reasoning.len() > 0 {
        run.push_reasoning(reasoning)
    } else {
        run
    };
    if config.include_thinking && reasoning.len() > 0 {
        let seen = Run {
            converter: ConverterView { structured_thinking_seen: true, ..run.converter },
            ..run
        };
        lemma_thinking_shows(seen, reasoning);
    } else {
        assert(before.thinking + seen_reasoning(config, reasoning) =~= before.thinking);
    }
    let written = if text.len() > 0 {
        reasoned.push_text(text)
    } else {
        reasoned
    };
    if text.len() > 0 {
        lemma_text_shows(reasoned, text);
    } else {
        assert(before.text + text =~= before.text);
    }
    lemma_tool_calls_show(written, tool_calls(delta));
}

proof fn lemma_chunk_passed_on(run: Run, config: ConfigView, chunk: JsonView)
    requires
        passes_on(run.converter, config),
    ensures
        passes_on(run.push_chunk(chunk).converter, config),
        shown(run.push_chunk(chunk).events) == (Shown {
            thinking: shown(run.events).thinking + seen_reasoning(config, chunk_reasoning(chunk)),
            text: shown(run.events).text + chunk_text(chunk),
            input: shown(run.events).input + chunk_input(chunk),
        }),
{
    let before = shown(run.events);
    let noted = Run { converter: run.converter.with_metadata(chunk), ..run };
    lemma_start_shows_nothing(noted);
    match chunk_delta(chunk) {
        Some(delta) => {
            lemma_delta_passed_on(noted.start(), config, delta);
        },
        None => {
            assert(before.thinking + seen_reasoning(config, seq![]) =~= before.thinking);
            assert(before.text + seq![] =~= before.text);
            assert(before.input + seq![] =~= before.input);
        },
    }
}

proof fn lemma_chunks_passed_on(run: Run, config: ConfigView, chunks: Seq<JsonView>)
    requires
        passes_on(run.converter, config),
    ensures
        passes_on(push_chunks(run, chunks).converter, config),
        shown(push_chunks(run, chunks).events) == (Shown {
            thinking: shown(run.events).thinking + seen_reasoning(
                config,
                whole(reasoning_pieces(chunks)),
            ),
            text: shown(run.events).text + whole(text_pieces(chunks)),
            input: shown(run.events).input + whole(input_pieces(chunks)),
        }),
    decreases chunks.len(),
{
    let start = shown(run.events);
    if chunks.len() == 0 {
        assert(start.thinking + seen_reasoning(config, seq![]) =~= start.thinking);
        assert(start.text + seq![] =~= start.text);
        assert(start.input + seq![] =~= start.input);
    } else {
        let shorter = chunks.drop_last();
        let last = chunks.last();
        lemma_chunks_passed_on(run, config, shorter);
        lemma_pieces_push(chunks);
        lemma_chunk_passed_on(push_chunks(run, shorter), config, last);
        lemma_three_parts(
            start.thinking,
            seen_reasoning(config, whole(reasoning_pieces(shorter))),
            seen_reasoning(config, chunk_reasoning(last)),
        );
        lemma_three_parts(start.text, whole(text_pieces(shorter)), chunk_text(last));
        lemma_three_parts(start.input, whole(input_pieces(shorter)), chunk_input(last));
        assert(Seq::<char>::empty() + Seq::<char>::empty() =~= Seq::<char>::empty());
    }
}

proof fn lemma_three_parts(a: Seq<char>, b: Seq<char>, c: Seq<char>)
    ensures
        a + b + c == a + (b + c),
{
    assert(a + b + c =~= a + (b + c));
}

/// Where reasoning is not looked for in the text, a client reads from a stream all the text and
/// all the input of tools, in order, and all the reasoning or none of it, as it wants: what it
/// reads from the whole answer.
pub proof fn lemma_stream_shows_all(converter: ConverterView, chunks: Seq<JsonView>)
    requires
        !converter.looks_for_thinking(),
        converter.raw_thinking_buffer.len() == 0,
        !converter.finished,
    ensures
        ({
            let config = converter.config;
            let reasoning = whole(reasoning_pieces(chunks));
            let text = whole(text_pieces(chunks));
            let read = shown(push_chunks(fresh(converter), chunks).finish().events);
            &&& read.thinking == seen_reasoning(config, reasoning)
            &&& read.text == text
            &&& read.input == whole(input_pieces(chunks))
            &&& !config.raw_thinking_fallback ==> forall|cut_off: bool|
                {
                    let seen = #[trigger] visible(text, nonempty(reasoning), cut_off, config);
                    read.thinking == text_or(seen.thinking, seq![]) && read.text == seen.text
                }
        }),
{
    lemma_chunks_passed_on(fresh(converter), converter.config, chunks);
    let pushed = push_chunks(fresh(converter), chunks);
    lemma_start_shows_nothing(pushed);
    lemma_finish_shows(pushed);
    let reasoning = whole(reasoning_pieces(chunks));
    let none = Seq::<char>::empty();
    assert(none + seen_reasoning(converter.config, reasoning) =~= seen_reasoning(
        converter.config,
        reasoning,
    ));
    assert(none + whole(text_pieces(chunks)) =~= whole(text_pieces(chunks)));
    assert(none + whole(input_pieces(chunks)) =~= whole(input_pieces(chunks)));
    if reasoning.len() == 0 {
        assert(reasoning =~= seq![]);
    }
}

/// What a client has been shown of an answer in which reasoning is looked for.
spec fn shows_pieces(run: Run, config: ConfigView, pieces: Seq<Seq<char>>) -> bool {
    let converter = run.converter;
    &&& converter.config == config
    &&& !converter.finished
    &&& !converter.structured_thinking_seen
    &&& shown(run.events).text == streamed_answer(pieces)
    &&& match raw_split(whole(pieces)) {
        Some((thinking, _)) => converter.raw_thinking_closed && converter.raw_thinking_buffer.len()
            == 0 && shown(run.events).thinking == thinking,
        None => !converter.raw_thinking_closed && converter.raw_thinking_buffer == whole(pieces)
            && shown(run.events).thinking.len() == 0,
    }
}

proof fn lemma_shows_nothing_yet(converter: ConverterView)
    requires
        converter.looks_for_thinking(),
        converter.raw_thinking_buffer.len() == 0,
        !converter.finished,
    ensures
        shows_pieces(fresh(converter), converter.config, seq![]),
{
    let none = Seq::<Seq<char>>::empty();
    lemma_split_iff_tag(whole(none));
    reveal_strlit("</think>");
    lemma_index_of(whole(none), closing_tag());
    assert(converter.raw_thinking_buffer =~= whole(none));
}

proof fn lemma_shows_next(run: Run, config: ConfigView, pieces: Seq<Seq<char>>, last: Seq<char>)
    requires
        config.raw_thinking_fallback,
        shows_pieces(run, config, pieces),
    ensures
        shows_pieces(run.push_text(last), config, pieces.push(last)),
        run.push_text(last).converter.finish_reason == run.converter.finish_reason,
        shown(run.push_text(last).events).input == shown(run.events).input,
{
    let longer = pieces.push(last);
    assert(longer.drop_last() =~= pieces);
    lemma_whole_push(longer);
    lemma_split_iff_tag(whole(pieces));
    lemma_split_iff_tag(whole(longer));
    if contains_text(whole(pieces), closing_tag()) {
        lemma_split_stable(whole(pieces), last);
        lemma_text_shows(run, last);
    } else {
        let empty = run.hold(seq![]);
        lemma_no_answer_without_tag(pieces);
        assert(streamed_answer(pieces) =~= seq![]);
        if let Some((thinking, answer)) = raw_split(whole(longer)) {
            lemma_thinking_shows(empty, thinking);
            let closed = empty.some_thinking(thinking).closed_thinking();
            lemma_text_shows(closed, answer);
            assert(shown(run.events).thinking + thinking =~= thinking);
            assert(shown(run.events).thinking =~= seq![]);
            assert(streamed_answer(pieces) + answer =~= answer);
            if thinking.len() == 0 {
                assert(thinking =~= seq![]);
            }
            if answer.len() == 0 {
                assert(answer =~= seq![]);
            }
        }
    }
}

proof fn lemma_shows_empty(run: Run, config: ConfigView, pieces: Seq<Seq<char>>, last: Seq<char>)
    requires
        shows_pieces(run, config, pieces),
        last.len() == 0,
    ensures
        shows_pieces(run, config, pieces.push(last)),
{
    let longer = pieces.push(last);
    assert(longer.drop_last() =~= pieces);
    lemma_whole_push(longer);
    assert(whole(longer) =~= whole(pieces));
    lemma_split_iff_tag(whole(pieces));
    if contains_text(whole(pieces), closing_tag()) {
        assert(streamed_answer(pieces) + last =~= streamed_answer(pieces));
    } else {
        lemma_no_answer_without_tag(pieces);
        assert(streamed_answer(pieces) =~= seq![]);
    }
}

proof fn lemma_shows_chunk(run: Run, config: ConfigView, pieces: Seq<Seq<char>>, chunk: JsonView)
    requires
        config.raw_thinking_fallback,
        shows_pieces(run, config, pieces),
        chunk_reasoning(chunk).len() == 0,
    ensures
        shows_pieces(run.push_chunk(chunk), config, pieces.push(chunk_text(chunk))),
        run.push_chunk(chunk).converter.finish_reason == match chunk_reason(chunk) {
            Some(reason) => Some(reason),
            None => run.converter.finish_reason,
        },
        shown(run.push_chunk(chunk).events).input == shown(run.events).input + chunk_input(chunk),
{
    let noted = Run { converter: run.converter.with_metadata(chunk), ..run };
    lemma_start_shows_nothing(noted);
    let started = noted.start();
    let text = chunk_text(chunk);
    assert(shows_pieces(started, config, pieces));
    let written = if text.len() > 0 {
        started.push_text(text)
    } else {
        started
    };
    if text.len() > 0 {
        lemma_shows_next(started, config, pieces, text);
    } else {
        lemma_shows_empty(started, config, pieces, text);
    }
    if let Some(delta) = chunk_delta(chunk) {
        lemma_tool_calls_show(written, tool_calls(delta));
        assert(started.push_delta(delta) == written.push_tool_calls(tool_calls(delta)));
    } else {
        assert(shown(run.events).input + chunk_input(chunk) =~= shown(run.events).input);
    }
}

proof fn lemma_shows_chunks(converter: ConverterView, chunks: Seq<JsonView>)
    requires
        converter.looks_for_thinking(),
        converter.raw_thinking_buffer.len() == 0,
        !converter.finished,
        forall|i: int|
            0 <= i < chunks.len() ==> chunk_reasoning(#[trigger] chunks[i]).len() == 0,
    ensures
        shows_pieces(
            push_chunks(fresh(converter), chunks),
            converter.config,
            text_pieces(chunks),
        ),
        push_chunks(fresh(converter), chunks).converter.finish_reason == last_reason(
            converter.finish_reason,
            chunks,
        ),
        shown(push_chunks(fresh(converter), chunks).events).input == whole(input_pieces(chunks)),
    decreases chunks.len(),
{
    if chunks.len() == 0 {
        lemma_shows_nothing_yet(converter);
        assert(text_pieces(chunks) =~= seq![]);
    } else {
        let shorter = chunks.drop_last();
        assert forall|i: int| 0 <= i < shorter.len() implies chunk_reasoning(
            #[trigger] shorter[i],
        ).len() == 0 by {
            assert(shorter[i] == chunks[i]);
        }
        lemma_shows_chunks(converter, shorter);
        lemma_pieces_push(chunks);
        lemma_shows_chunk(
            push_chunks(fresh(converter), shorter),
            converter.config,
            text_pieces(shorter),
            chunks.last(),
        );
    }
}

/// A streamed answer in which reasoning is looked for shows the same reasoning as the whole
/// answer, however it is cut into pieces. It shows the same text, up to white space at its start,
/// which is left out only in the piece that completes the closing tag.
pub proof fn lemma_stream_agrees_with_whole(converter: ConverterView, chunks: Seq<JsonView>)
    requires
        converter.looks_for_thinking(),
        converter.config.include_thinking,
        converter.raw_thinking_buffer.len() == 0,
        !converter.finished,
        forall|i: int|
            0 <= i < chunks.len() ==> chunk_reasoning(#[trigger] chunks[i]).len() == 0,
    ensures
        ({
            let pieces = text_pieces(chunks);
            let cut_off = last_reason(converter.finish_reason, chunks) == Some("length"@);
            let read = shown(push_chunks(fresh(converter), chunks).finish().events);
            let seen = visible(whole(pieces), None, cut_off, converter.config);
            &&& read.thinking == text_or(seen.thinking, seq![])
            &&& match raw_split(whole(pieces)) {
                Some(_) => read.text == streamed_answer(pieces) && trimmed_start(read.text)
                    == trimmed_start(seen.text),
                None => read.text == seen.text,
            }
            &&& answer_begins_cleanly(pieces) <==> read.text == seen.text
        }),
{
    lemma_shows_chunks(converter, chunks);
    let pieces = text_pieces(chunks);
    let pushed = push_chunks(fresh(converter), chunks);
    lemma_start_shows_nothing(pushed);
    lemma_finish_shows(pushed);
    let empty = pushed.start().hold(seq![]);
    let held = pushed.converter.raw_thinking_buffer;
    lemma_thinking_shows(empty, normalized(held));
    lemma_text_shows(empty, held);
    lemma_split_iff_tag(whole(pieces));
    match raw_split(whole(pieces)) {
        Some((thinking, answer)) => {
            lemma_streamed_answer_trimmed(pieces);
            if thinking.len() == 0 {
                assert(thinking =~= seq![]);
            }
            lemma_trimmed_twice(behind_tag(whole(pieces)));
        },
        None => {
            lemma_no_answer_without_tag(pieces);
            assert(streamed_answer(pieces) =~= seq![]);
            assert(shown(pushed.events).thinking =~= seq![]);
            assert(Seq::<char>::empty() + held =~= held);
            assert(Seq::<char>::empty() + normalized(held) =~= normalized(held));
            if held.len() == 0 {
                assert(held =~= seq![]);
                assert(trimmed_start(held) == held);
                lemma_normalized_empty(held);
            }
        },
    }
}

proof fn lemma_push_chunks_concat(run: Run, first: Seq<JsonView>, rest: Seq<JsonView>)
    ensures
        push_chunks(run, first + rest) == push_chunks(push_chunks(run, first), rest),
    decreases rest.len(),
{
    if rest.len() == 0 {
        assert(first + rest =~= first);
    } else {
        assert((first + rest).drop_last() =~= first + rest.drop_last());
        lemma_push_chunks_concat(run, first, rest.drop_last());
    }
}

proof fn lemma_whole_concat(first: Seq<Seq<char>>, rest: Seq<Seq<char>>)
    ensures
        whole(first + rest) == whole(first) + whole(rest),
    decreases rest.len(),
{
    if rest.len() == 0 {
        assert(first + rest =~= first);
        assert(whole(first) + whole(rest) =~= whole(first));
    } else {
        let all = first + rest;
        assert(all.drop_last() =~= first + rest.drop_last());
        lemma_whole_concat(first, rest.drop_last());
        lemma_whole_push(all);
        lemma_whole_push(rest);
        assert(whole(first) + whole(rest.drop_last()) + rest.last() =~= whole(first) + whole(rest));
    }
}

/// Text that has been held back is shown when marked reasoning comes, and nothing is held back
/// from then on.
proof fn lemma_marked_chunk_shows(run: Run, config: ConfigView, chunk: JsonView)
    requires
        run.converter.config == config,
        config.include_thinking,
        !run.converter.finished,
        chunk_reasoning(chunk).len() > 0,
    ensures
        passes_on(run.push_chunk(chunk).converter, config),
        shown(run.push_chunk(chunk).events) == (Shown {
            thinking: shown(run.events).thinking + chunk_reasoning(chunk),
            text: shown(run.events).text + run.converter.raw_thinking_buffer + chunk_text(chunk),
            input: shown(run.events).input + chunk_input(chunk),
        }),
{
    let before = shown(run.events);
    let noted = Run { converter: run.converter.with_metadata(chunk), ..run };
    lemma_start_shows_nothing(noted);
    let started = noted.start();
    let delta = chunk_delta(chunk)->0;
    let seen = Run {
        converter: ConverterView { structured_thinking_seen: true, ..started.converter },
        ..started
    };
    let held = run.converter.raw_thinking_buffer;
    if held.len() > 0 {
        lemma_text_shows(seen.hold(seq![]), held);
    } else {
        assert(before.text + held =~= before.text);
    }
    let flushed = seen.flush();
    lemma_thinking_shows(flushed, delta_reasoning(delta));
    let reasoned = started.push_reasoning(delta_reasoning(delta));
    let text = delta_text(delta);
    let written = if text.len() > 0 {
        reasoned.push_text(text)
    } else {
        reasoned
    };
    if text.len() > 0 {
        lemma_text_shows(reasoned, text);
    } else {
        assert(before.text + held + text =~= before.text + held);
    }
    lemma_tool_calls_show(written, tool_calls(delta));
    assert(started.push_delta(delta) == written.push_tool_calls(tool_calls(delta)));
}

/// Where reasoning is marked as such, a client reads from a stream what it reads from the whole
/// answer, also if reasoning is looked for in the text: all the reasoning, all the text and all
/// the input of tools. The first marked reasoning has to come before a closing tag in the text is
/// complete.
#[verifier::spinoff_prover]
pub proof fn lemma_marked_stream_agrees_with_whole(
    converter: ConverterView,
    early: Seq<JsonView>,
    marked: JsonView,
    rest: Seq<JsonView>,
)
    requires
        converter.looks_for_thinking(),
        converter.config.include_thinking,
        converter.raw_thinking_buffer.len() == 0,
        !converter.finished,
        forall|i: int| 0 <= i < early.len() ==> chunk_reasoning(#[trigger] early[i]).len() == 0,
        !contains_text(whole(text_pieces(early)), closing_tag()),
        chunk_reasoning(marked).len() > 0,
    ensures
        ({
            let chunks = early.push(marked) + rest;
            let reasoning = whole(reasoning_pieces(chunks));
            let text = whole(text_pieces(chunks));
            let read = shown(push_chunks(fresh(converter), chunks).finish().events);
            &&& read == (Shown {
                thinking: reasoning,
                text,
                input: whole(input_pieces(chunks)),
            })
            &&& forall|cut_off: bool|
                #[trigger] visible(text, nonempty(reasoning), cut_off, converter.config) == (
                Visible { thinking: Some(reasoning), text })
        }),
{
    let config = converter.config;
    let first = early.push(marked);
    let chunks = first + rest;
    lemma_shows_chunks(converter, early);
    lemma_split_iff_tag(whole(text_pieces(early)));
    lemma_no_answer_without_tag(text_pieces(early));
    let before = push_chunks(fresh(converter), early);
    lemma_marked_chunk_shows(before, config, marked);
    assert(first.drop_last() =~= early);
    let pushed = push_chunks(fresh(converter), first);
    assert(pushed == before.push_chunk(marked));
    lemma_chunks_passed_on(pushed, config, rest);
    lemma_push_chunks_concat(fresh(converter), first, rest);
    let all = push_chunks(fresh(converter), chunks);
    lemma_start_shows_nothing(all);
    lemma_finish_shows(all);
    lemma_pieces_push(first);
    lemma_no_reasoning(early);
    assert(reasoning_pieces(chunks) =~= reasoning_pieces(first) + reasoning_pieces(rest));
    assert(text_pieces(chunks) =~= text_pieces(first) + text_pieces(rest));
    assert(input_pieces(chunks) =~= input_pieces(first) + input_pieces(rest));
    lemma_whole_concat(reasoning_pieces(first), reasoning_pieces(rest));
    lemma_whole_concat(text_pieces(first), text_pieces(rest));
    lemma_whole_concat(input_pieces(first), input_pieces(rest));
    let read = shown(all.events);
    assert(read.thinking =~= whole(reasoning_pieces(chunks)));
    assert(read.text =~= whole(text_pieces(chunks)));
    assert(read.input =~= whole(input_pieces(chunks)));
}

proof fn lemma_no_reasoning(chunks: Seq<JsonView>)
    requires
        forall|i: int| 0 <= i < chunks.len() ==> chunk_reasoning(#[trigger] chunks[i]).len() == 0,
    ensures
        whole(reasoning_pieces(chunks)).len() == 0,
    decreases chunks.len(),
{
    if chunks.len() > 0 {
        let shorter = chunks.drop_last();
        assert forall|i: int| 0 <= i < shorter.len() implies chunk_reasoning(
            #[trigger] shorter[i],
        ).len() == 0 by {
            assert(shorter[i] == chunks[i]);
        }
        lemma_no_reasoning(shorter);
        lemma_pieces_push(chunks);
    }
}

proof fn lemma_no_answer_without_tag(pieces: Seq<Seq<char>>)
    requires
        !contains_text(whole(pieces), closing_tag()),
    ensures
        streamed_answer(pieces).len() == 0,
{
    lemma_split_iff_tag(whole(pieces));
    if pieces.len() > 0 {
        lemma_whole_push(pieces);
        if contains_text(whole(pieces.drop_last()), closing_tag()) {
            lemma_split_stable(whole(pieces.drop_last()), pieces.last());
        }
    }
}

proof fn lemma_normalized_empty(text: Seq<char>)
    requires
        text.len() == 0,
    ensures
        normalized(text).len() == 0,
{
    reveal_strlit("<think>");
    assert(trimmed_start(text) == text);
}

/// Trimming twice is trimming once.
proof fn lemma_trimmed_twice(text: Seq<char>)
    ensures
        trimmed_start(trimmed_start(text)) == trimmed_start(text),
    decreases text.len(),
{
    if text.len() > 0 {
        lemma_trimmed_twice(text.skip(1));
    }
}

/// White space at the start of a text is trimmed also where more text follows.
proof fn lemma_trimmed_concat(text: Seq<char>, more: Seq<char>)
    ensures
        trimmed_start(trimmed_start(text) + more) == trimmed_start(text + more),
    decreases text.len(),
{
    if text.len() > 0 && crate::text::is_white_space(text[0]) {
        lemma_trimmed_concat(text.skip(1), more);
        assert((text + more).skip(1) =~= text.skip(1) + more);
    }
}

/// The streamed answer is the whole answer, up to white space at its start.
proof fn lemma_streamed_answer_trimmed(pieces: Seq<Seq<char>>)
    requires
        contains_text(whole(pieces), closing_tag()),
    ensures
        trimmed_start(streamed_answer(pieces)) == trimmed_start(
            behind_tag(whole(pieces)),
        ),
    decreases pieces.len(),
{
    lemma_split_iff_tag(whole(pieces));
    let after = behind_tag(whole(pieces));
    if pieces.len() == 0 {
        reveal_strlit("</think>");
        lemma_index_of(whole(pieces), closing_tag());
        assert(false);
    } else {
        let shorter = pieces.drop_last();
        lemma_whole_push(pieces);
        if contains_text(whole(shorter), closing_tag()) {
            lemma_streamed_answer_trimmed(shorter);
            lemma_split_stable(whole(shorter), pieces.last());
            lemma_trimmed_concat(streamed_answer(shorter), pieces.last());
            lemma_trimmed_concat(
                behind_tag(whole(shorter)),
                pieces.last(),
            );
        } else {
            lemma_trimmed_twice(after);
        }
    }
}

}
