//! What a client puts together from the events of a stream, and what each piece of a stream adds
//! to it.

use crate::agreement::push_chunks;
use crate::answering::{
    chosen_answer, input_read, lemma_parts_of_response, lemma_use_of_tool, list_in, named,
    number_in, text_in,
};
use crate::converter::{fresh, BlockKind, ConverterView, Run};
use crate::error::ErrorView;
use crate::event::{DeltaView, EventView, NewBlockView};
use crate::interop::parsed_text;
use crate::json::{JsonNumber, JsonView, ObjectView};
use crate::request::ConfigView;
use crate::response::{message_id, tool_use_of};
use crate::settings::inside;
use crate::shapes::{object, text};
use crate::text::{decimal, trimmed};
use crate::thinking::{normalized, raw_split};
use vstd::prelude::*;

verus! {

/// The events that end the block that is open: reasoning gets an empty signature first.
pub open spec fn ending(converter: ConverterView) -> Seq<EventView> {
    let index = converter.current_content_index;
    match converter.current_block {
        None => seq![],
        Some(BlockKind::Thinking) => seq![
            EventView::BlockDelta { index, delta: DeltaView::Signature },
            EventView::BlockStop { index },
        ],
        Some(_) => seq![EventView::BlockStop { index }],
    }
}

/// The number behind a number; the largest is followed by zero.
pub open spec fn following(number: u64) -> u64 {
    if number == 0xffff_ffff_ffff_ffff {
        0
    } else {
        (number + 1) as u64
    }
}

/// A stream in which a block of the given kind is open: the block that is open already, or a new
/// one behind it.
pub open spec fn within(before: Run, kind: BlockKind, block: NewBlockView) -> Run {
    if before.converter.current_block == Some(kind) {
        before
    } else {
        let index = before.converter.next_content_index;
        Run {
            converter: ConverterView {
                current_block: Some(kind),
                current_content_index: index,
                next_content_index: following(index),
                ..before.converter
            },
            events: before.events + ending(before.converter) + seq![
                EventView::BlockStart { index, block },
            ],
        }
    }
}

/// A stream in which a block of the given kind has got one more piece.
pub open spec fn extended(
    before: Run,
    kind: BlockKind,
    block: NewBlockView,
    delta: DeltaView,
) -> Run {
    let inside = within(before, kind, block);
    Run {
        events: inside.events.push(
            EventView::BlockDelta { index: inside.converter.current_content_index, delta },
        ),
        ..inside
    }
}

/// A stream with one more piece of reasoning, if there is something in the piece.
pub open spec fn reasoned(before: Run, piece: Seq<char>) -> Run {
    if piece.len() > 0 {
        extended(before, BlockKind::Thinking, NewBlockView::Thinking, DeltaView::Thinking(piece))
    } else {
        before
    }
}

/// A stream with one more piece of text, if there is something in the piece.
pub open spec fn answered(before: Run, piece: Seq<char>) -> Run {
    if piece.len() > 0 {
        extended(before, BlockKind::Text, NewBlockView::Text, DeltaView::Text(piece))
    } else {
        before
    }
}

/// A block is numbered by its place, ends before the next begins, and begins once for all pieces
/// of its kind that follow each other.
pub proof fn lemma_blocks(run: Run, kind: BlockKind, id: Seq<char>, name: Seq<char>)
    ensures
        run.open(BlockKind::Thinking, None, None) == within(
            run,
            BlockKind::Thinking,
            NewBlockView::Thinking,
        ),
        run.open(BlockKind::Text, None, None) == within(run, BlockKind::Text, NewBlockView::Text),
        kind is Tool ==> run.open(kind, Some(id), Some(name)) == within(
            run,
            kind,
            NewBlockView::Tool { id, name },
        ),
        run.close() == (Run {
            converter: ConverterView { current_block: None, ..run.converter },
            events: run.events + ending(run.converter),
        }),
{
    let events = run.events + ending(run.converter);
    assert(run.close().events =~= events);
    let index = run.converter.next_content_index;
    assert(index.wrapping_add(1) == following(index));
    let thinking = EventView::BlockStart { index, block: NewBlockView::Thinking };
    let text = EventView::BlockStart { index, block: NewBlockView::Text };
    let tool = EventView::BlockStart { index, block: NewBlockView::Tool { id, name } };
    assert(events.push(thinking) =~= events + seq![thinking]);
    assert(events.push(text) =~= events + seq![text]);
    assert(events.push(tool) =~= events + seq![tool]);
}

/// A piece of reasoning or of text goes into a block of its kind.
pub proof fn lemma_pieces(run: Run, piece: Seq<char>)
    ensures
        run.thinking(piece) == extended(
            run,
            BlockKind::Thinking,
            NewBlockView::Thinking,
            DeltaView::Thinking(piece),
        ),
        run.text(piece) == extended(
            run,
            BlockKind::Text,
            NewBlockView::Text,
            DeltaView::Text(piece),
        ),
        run.some_thinking(piece) == reasoned(run, piece),
        run.some_text(piece) == answered(run, piece),
{
    lemma_blocks(run, BlockKind::Text, seq![], seq![]);
}

/// The stream with the given text held back.
pub open spec fn holding(before: Run, held: Seq<char>) -> Run {
    Run {
        converter: ConverterView { raw_thinking_buffer: held, ..before.converter },
        ..before
    }
}

/// The stream in which the reasoning is over.
pub open spec fn past_reasoning(before: Run) -> Run {
    Run { converter: ConverterView { raw_thinking_closed: true, ..before.converter }, ..before }
}

/// Text is passed on as it comes, unless reasoning is still looked for in it: then it is held back
/// behind what is held already, until the closing tag has come. What is then split off comes as
/// reasoning and as text, nothing is held back any more, and all that follows is text.
pub proof fn lemma_text_piece(run: Run, piece: Seq<char>)
    ensures
        ({
            let state = run.converter;
            let looked_for = state.config.raw_thinking_fallback && !state.structured_thinking_seen
                && !state.raw_thinking_closed;
            let held = state.raw_thinking_buffer + piece;
            &&& !looked_for ==> run.push_text(piece) == extended(
                run,
                BlockKind::Text,
                NewBlockView::Text,
                DeltaView::Text(piece),
            )
            &&& looked_for && raw_split(held) is None ==> run.push_text(piece) == holding(
                run,
                held,
            )
            &&& looked_for ==> (raw_split(held) matches Some((thinking, answer)) ==> run.push_text(
                piece,
            ) == answered(past_reasoning(reasoned(holding(run, seq![]), thinking)), answer))
        }),
{
    lemma_pieces(run, piece);
    if let Some((thinking, answer)) = raw_split(run.converter.raw_thinking_buffer + piece) {
        let none = holding(run, seq![]);
        lemma_pieces(none, thinking);
        lemma_pieces(past_reasoning(reasoned(none, thinking)), answer);
    }
}

/// Text that is held back is not lost. It comes as text, but as reasoning if the answer was cut off
/// while reasoning was looked for.
pub proof fn lemma_held_text(run: Run)
    ensures
        ({
            let state = run.converter;
            let looked_for = state.config.raw_thinking_fallback && !state.structured_thinking_seen
                && !state.raw_thinking_closed;
            let held = state.raw_thinking_buffer;
            let cut_off = state.finish_reason == Some("length"@);
            &&& held.len() == 0 ==> run.flush() == run
            &&& looked_for && cut_off && held.len() > 0 && normalized(held).len() > 0
                ==> run.flush() == reasoned(holding(run, seq![]), normalized(held))
            &&& !looked_for || !cut_off || normalized(held).len() == 0 ==> run.flush() == answered(
                holding(run, seq![]),
                held,
            )
        }),
{
    let held = run.converter.raw_thinking_buffer;
    let none = holding(run, seq![]);
    lemma_pieces(none, held);
    lemma_pieces(none, normalized(held));
    if held.len() == 0 {
        assert(held =~= seq![]);
        assert(none == run);
    }
}

/// Reasoning that is marked as such comes behind the text that was held back, and no reasoning is
/// looked for in text any more.
pub proof fn lemma_reasoning_piece(run: Run, piece: Seq<char>)
    requires
        piece.len() > 0,
    ensures
        ({
            let seen = Run {
                converter: ConverterView { structured_thinking_seen: true, ..run.converter },
                ..run
            };
            run.push_reasoning(piece) == reasoned(
                answered(holding(seen, seq![]), run.converter.raw_thinking_buffer),
                piece,
            )
        }),
{
    let seen = Run {
        converter: ConverterView { structured_thinking_seen: true, ..run.converter },
        ..run
    };
    lemma_held_text(seen);
    lemma_pieces(seen.flush(), piece);
}

/// The number of the tool that a piece of a call is for.
pub open spec fn piece_index(call: JsonView) -> u64 {
    number_in(inside(Some(call), "index"@))
}

/// The id that a piece of a call gives.
pub open spec fn piece_id(call: JsonView) -> Option<Seq<char>> {
    text_in(inside(Some(call), "id"@))
}

/// The name that a piece of a call gives.
pub open spec fn piece_name(call: JsonView) -> Option<Seq<char>> {
    text_in(inside(inside(Some(call), "function"@), "name"@))
}

/// The piece of input that a piece of a call brings.
pub open spec fn piece_input(call: JsonView) -> Seq<char> {
    match text_in(inside(inside(Some(call), "function"@), "arguments"@)) {
        Some(input) => input,
        None => seq![],
    }
}

/// Of all tools, only the one at `index` may have got something else, and that only if something
/// was given for it.
pub open spec fn noted(
    before: Map<u64, Seq<char>>,
    after: Map<u64, Seq<char>>,
    index: u64,
    given: Option<Seq<char>>,
) -> bool {
    &&& given is None ==> after == before
    &&& given matches Some(value) ==> after.contains_key(index) && after[index] == value
    &&& forall|other: u64|
        other != index ==> {
            &&& #[trigger] after.contains_key(other) <==> before.contains_key(other)
            &&& before.contains_key(other) ==> after[other] == before[other]
        }
}

/// What is known of the tool at `index`, or else the default.
pub open spec fn known(values: Map<u64, Seq<char>>, index: u64, default: Seq<char>) -> Seq<char> {
    if values.contains_key(index) {
        values[index]
    } else {
        default
    }
}

/// A piece of a tool call notes the id and the name that it gives for its tool and for no other.
/// The block that begins for the tool has exactly that id and that name, whatever came before; one
/// that is not given is the one given before, or else made from the number of the tool. The input
/// goes into the block of the tool.
#[verifier::spinoff_prover]
#[verifier::rlimit(30)]
pub proof fn lemma_call_piece(run: Run, call: JsonView)
    ensures
        ({
            let index = piece_index(call);
            let after = run.push_tool_call(call);
            let ids = after.converter.tool_ids;
            let names = after.converter.tool_names;
            let id = known(ids, index, "toolu_"@ + decimal(index as nat));
            let name = known(names, index, "unknown"@);
            let kind = BlockKind::Tool(index);
            let block = NewBlockView::Tool { id, name };
            let told = Run {
                converter: ConverterView { tool_ids: ids, tool_names: names, ..run.converter },
                ..run
            };
            &&& noted(run.converter.tool_ids, ids, index, piece_id(call))
            &&& noted(run.converter.tool_names, names, index, piece_name(call))
            &&& piece_input(call).len() == 0 ==> after == within(told, kind, block)
            &&& piece_input(call).len() > 0 ==> after == extended(
                told,
                kind,
                block,
                DeltaView::InputJson(piece_input(call)),
            )
        }),
{
    let index = piece_index(call);
    let after = run.push_tool_call(call);
    let ids = after.converter.tool_ids;
    let names = after.converter.tool_names;
    let told = Run {
        converter: ConverterView { tool_ids: ids, tool_names: names, ..run.converter },
        ..run
    };
    let converter = run.converter.with_tool(index, piece_id(call), piece_name(call));
    lemma_blocks(
        told,
        BlockKind::Tool(index),
        converter.tool_id(index),
        converter.tool_name(index),
    );
    lemma_blocks(
        Run { converter, ..run },
        BlockKind::Tool(index),
        converter.tool_id(index),
        converter.tool_name(index),
    );
}

/// A delta brings reasoning, then text, then pieces of tool calls, each only if there is something
/// in it, and reasoning only if the client wants it.
pub proof fn lemma_delta(run: Run, delta: ObjectView)
    ensures
        ({
            let reasoning = named(delta.get("reasoning_content"@), seq![]);
            let content = named(delta.get("content"@), seq![]);
            let first = if run.converter.config.include_thinking && reasoning.len() > 0 {
                run.push_reasoning(reasoning)
            } else {
                run
            };
            let second = if content.len() > 0 {
                first.push_text(content)
            } else {
                first
            };
            run.push_delta(delta) == second.push_tool_calls(list_in(delta.get("tool_calls"@)))
        }),
{
}

/// Pieces of tool calls come in their order.
pub proof fn lemma_calls(run: Run, calls: Seq<JsonView>, call: JsonView)
    ensures
        run.push_tool_calls(seq![]) == run,
        run.push_tool_calls(calls.push(call)) == run.push_tool_calls(calls).push_tool_call(call),
{
    assert(calls.push(call).drop_last() =~= calls);
}

/// A number that is reported, or else the one from before.
pub open spec fn reported(value: Option<JsonView>, before: u64) -> u64 {
    match value {
        Some(JsonView::Number(JsonNumber::Unsigned(n))) => n,
        _ => before,
    }
}

/// What is known of the message once a chunk has come: what the chunk reports, or else what was
/// known before.
pub open spec fn informed(before: ConverterView, chunk: JsonView) -> ConverterView {
    let usage = inside(Some(chunk), "usage"@);
    ConverterView {
        message_id: match text_in(inside(Some(chunk), "id"@)) {
            Some(id) => message_id(Some(id)),
            None => before.message_id,
        },
        model: named(inside(Some(chunk), "model"@), before.model),
        input_tokens: reported(inside(usage, "prompt_tokens"@), before.input_tokens),
        output_tokens: reported(inside(usage, "completion_tokens"@), before.output_tokens),
        ..before
    }
}

/// The stream once the message has begun, which it does only once.
pub open spec fn begun(before: Run) -> Run {
    let state = before.converter;
    if state.started {
        before
    } else {
        Run {
            converter: ConverterView { started: true, ..state },
            events: before.events.push(
                EventView::MessageStart {
                    id: state.message_id,
                    model: state.model,
                    input_tokens: state.input_tokens,
                },
            ),
        }
    }
}

/// A chunk first tells of the message, which then begins. Then comes its delta, and the reason for
/// stopping, if it reports one, is kept.
#[verifier::spinoff_prover]
#[verifier::rlimit(30)]
pub proof fn lemma_chunk(run: Run, chunk: JsonView)
    ensures
        ({
            let choice = chosen_answer(chunk);
            let started = begun(Run { converter: informed(run.converter, chunk), ..run });
            let pushed = match inside(choice, "delta"@) {
                Some(JsonView::Object(delta)) => started.push_delta(delta),
                _ => started,
            };
            let reason = match text_in(inside(choice, "finish_reason"@)) {
                Some(reason) => Some(reason),
                None => pushed.converter.finish_reason,
            };
            run.push_chunk(chunk) == (Run {
                converter: ConverterView { finish_reason: reason, ..pushed.converter },
                ..pushed
            })
        }),
{
    lemma_parts_of_response(chunk, ObjectView::empty(), "usage"@);
}

/// A stream begins with the id, the model and the number of tokens that its first chunk reports.
pub proof fn lemma_first_chunk(config: ConfigView, chunk: JsonView)
    ensures
        ({
            let told = informed(ConverterView::new(config), chunk);
            let usage = inside(Some(chunk), "usage"@);
            let begin = begun(fresh(told));
            &&& begin.events == seq![
                EventView::MessageStart {
                    id: message_id(text_in(inside(Some(chunk), "id"@))),
                    model: named(inside(Some(chunk), "model"@), config.model),
                    input_tokens: number_in(inside(usage, "prompt_tokens"@)),
                },
            ]
            &&& told.output_tokens == number_in(inside(usage, "completion_tokens"@))
            &&& told.config == config
            &&& told.current_block is None
            &&& told.next_content_index == 0
            &&& told.finish_reason is None
            &&& told.tool_ids == Map::<u64, Seq<char>>::empty()
            &&& told.tool_names == Map::<u64, Seq<char>>::empty()
            &&& told.raw_thinking_buffer.len() == 0
            &&& !told.finished
            &&& !told.structured_thinking_seen
            &&& !told.raw_thinking_closed
        }),
{
}

/// The message ends once: it begins if it has not, what was held back comes, the block that is open
/// ends, and the last events give the reason for stopping and the number of tokens.
pub proof fn lemma_end(run: Run)
    ensures
        begun(run) == run.start(),
        run.converter.finished ==> run.finish() == run,
        !run.converter.finished ==> {
            let last = begun(run).flush();
            run.finish() == (Run {
                converter: ConverterView { current_block: None, finished: true, ..last.converter },
                events: last.events + ending(last.converter) + seq![
                    EventView::MessageDelta {
                        finish_reason: last.converter.finish_reason,
                        output_tokens: last.converter.output_tokens,
                    },
                    EventView::MessageStop,
                ],
            })
        },
{
    let last = begun(run).flush();
    lemma_blocks(last, BlockKind::Text, seq![], seq![]);
    assert(!run.converter.finished ==> run.finish().events =~= last.events + ending(last.converter)
        + seq![
        EventView::MessageDelta {
            finish_reason: last.converter.finish_reason,
            output_tokens: last.converter.output_tokens,
        },
        EventView::MessageStop,
    ]);
}

/// The data of an event ends the message, or is a chunk, or else is reported to the client.
pub proof fn lemma_data(run: Run, data: Seq<char>)
    ensures
        trimmed(data) == "[DONE]"@ ==> run.push_data(data) == run.finish(),
        trimmed(data) != "[DONE]"@ ==> (parsed_text(data) matches Ok(chunk) ==> run.push_data(data)
            == run.push_chunk(chunk)),
        trimmed(data) != "[DONE]"@ ==> (parsed_text(data) matches Err(reason) ==> run.push_data(
            data,
        ) == (Run {
            events: run.events.push(
                EventView::Error { message: "invalid upstream SSE event: "@ + reason },
            ),
            ..run
        })),
{
}

/// A use of a tool that a client has put together.
pub ghost struct UsedTool {
    pub id: Seq<char>,
    pub name: Seq<char>,
    pub input: Seq<char>,
}

/// The tools that a client has put together after one more event.
pub open spec fn tools_after(tools: Seq<UsedTool>, event: EventView) -> Seq<UsedTool> {
    match event {
        EventView::BlockStart { block: NewBlockView::Tool { id, name }, .. } => tools.push(
            UsedTool { id, name, input: seq![] },
        ),
        EventView::BlockDelta { delta: DeltaView::InputJson(input), .. } => if tools.len() > 0 {
            tools.drop_last().push(UsedTool { input: tools.last().input + input, ..tools.last() })
        } else {
            tools
        },
        _ => tools,
    }
}

/// The uses of tools that a client puts together from events.
pub open spec fn tools_in(events: Seq<EventView>) -> Seq<UsedTool>
    decreases events.len(),
{
    if events.len() == 0 {
        seq![]
    } else {
        tools_after(tools_in(events.drop_last()), events.last())
    }
}

/// The calls whose pieces come one after the other: the pieces for one tool that follow each other
/// are one call.
pub open spec fn gathered(pieces: Seq<JsonView>) -> Seq<UsedTool>
    decreases pieces.len(),
{
    if pieces.len() == 0 {
        seq![]
    } else {
        let calls = gathered(pieces.drop_last());
        let piece = pieces.last();
        if begins(pieces, pieces.len() - 1) {
            calls.push(
                UsedTool {
                    id: piece_id(piece)->0,
                    name: piece_name(piece)->0,
                    input: piece_input(piece),
                },
            )
        } else {
            calls.drop_last().push(
                UsedTool { input: calls.last().input + piece_input(piece), ..calls.last() },
            )
        }
    }
}

/// The piece at `i` is the first of a call.
pub open spec fn begins(pieces: Seq<JsonView>, i: int) -> bool {
    i == 0 || piece_index(pieces[i]) != piece_index(pieces[i - 1])
}

/// The first piece of each call gives its id and its name.
pub open spec fn named_at_first(pieces: Seq<JsonView>) -> bool {
    forall|i: int|
        0 <= i < pieces.len() && #[trigger] begins(pieces, i) ==> piece_id(pieces[i]) is Some
            && piece_name(pieces[i]) is Some
}

/// A client that had put the tools `tools` together has put the calls in the pieces behind them.
spec fn has_gathered(run: Run, tools: Seq<UsedTool>, pieces: Seq<JsonView>) -> bool {
    &&& tools_in(run.events) == tools + gathered(pieces)
    &&& pieces.len() > 0 ==> run.converter.current_block == Some(
        BlockKind::Tool(piece_index(pieces.last())),
    )
    &&& pieces.len() == 0 ==> outside_tools(run.converter)
    &&& pieces.len() > 0 ==> gathered(pieces).len() > 0
}

/// Events that are not of tools.
spec fn without_tools(events: Seq<EventView>) -> bool {
    forall|i: int|
        0 <= i < events.len() ==> (#[trigger] events[i] matches EventView::BlockStart { block, .. }
            ==> !(block is Tool)) && (events[i] matches EventView::BlockDelta { delta, .. } ==> !(
        delta is InputJson))
}

proof fn lemma_no_tools(events: Seq<EventView>, more: Seq<EventView>)
    requires
        without_tools(more),
    ensures
        tools_in(events + more) == tools_in(events),
    decreases more.len(),
{
    if more.len() == 0 {
        assert(events + more =~= events);
    } else {
        let fewer = more.drop_last();
        assert forall|i: int| 0 <= i < fewer.len() implies #[trigger] fewer[i] == more[i] by {}
        assert((events + more).drop_last() =~= events + fewer);
        lemma_no_tools(events, fewer);
        assert(more.last() == more[more.len() - 1]);
    }
}

/// One more piece of a call.
proof fn lemma_one_more_piece(
    run: Run,
    tools: Seq<UsedTool>,
    pieces: Seq<JsonView>,
    piece: JsonView,
)
    requires
        has_gathered(run, tools, pieces),
        named_at_first(pieces.push(piece)),
    ensures
        has_gathered(run.push_tool_call(piece), tools, pieces.push(piece)),
{
    let all = pieces.push(piece);
    let after = run.push_tool_call(piece);
    let index = piece_index(piece);
    let input = piece_input(piece);
    let n = pieces.len() as int;
    assert(all.drop_last() =~= pieces);
    assert(all[n] == piece);
    if n > 0 {
        assert(all[n - 1] == pieces.last());
    }
    lemma_call_piece(run, piece);
    let delta = EventView::BlockDelta {
        index: after.converter.current_content_index,
        delta: DeltaView::InputJson(input),
    };
    if begins(all, n) {
        let id = piece_id(piece)->0;
        let name = piece_name(piece)->0;
        let first = EventView::BlockStart {
            index: run.converter.next_content_index,
            block: NewBlockView::Tool { id, name },
        };
        let ended = run.events + ending(run.converter);
        lemma_no_tools(run.events, ending(run.converter));
        assert(ended + seq![first] =~= ended.push(first));
        assert(ended.push(first).drop_last() =~= ended);
        let opened = tools_in(ended).push(UsedTool { id, name, input: seq![] });
        assert(tools_in(ended.push(first)) == opened);
        let used = UsedTool { id, name, input };
        if input.len() > 0 {
            assert(after.events == ended.push(first).push(delta));
            assert(ended.push(first).push(delta).drop_last() =~= ended.push(first));
            assert(Seq::<char>::empty() + input =~= input);
            assert(opened.drop_last() =~= tools_in(ended));
            assert(tools_in(after.events) == tools_in(ended).push(used));
        } else {
            assert(input =~= seq![]);
            assert(tools_in(after.events) == tools_in(ended).push(used));
        }
        assert((tools + gathered(pieces)).push(used) =~= tools + gathered(pieces).push(used));
    } else {
        let calls = gathered(pieces);
        let used = UsedTool { input: calls.last().input + input, ..calls.last() };
        assert((tools + calls).drop_last() =~= tools + calls.drop_last());
        assert((tools + calls).last() == calls.last());
        assert((tools + calls.drop_last()).push(used) =~= tools + calls.drop_last().push(used));
        if input.len() > 0 {
            assert(after.events == run.events.push(delta));
            assert(run.events.push(delta).drop_last() =~= run.events);
        } else {
            assert(input =~= seq![]);
            assert(calls.last().input + input =~= calls.last().input);
            assert(calls.drop_last().push(calls.last()) =~= calls);
        }
    }
}

/// The pieces of tool calls that a chunk brings.
pub open spec fn pieces_in(chunk: JsonView) -> Seq<JsonView> {
    list_in(inside(inside(chosen_answer(chunk), "delta"@), "tool_calls"@))
}

/// The pieces of tool calls that chunks bring, in order.
pub open spec fn all_pieces(chunks: Seq<JsonView>) -> Seq<JsonView>
    decreases chunks.len(),
{
    if chunks.len() == 0 {
        seq![]
    } else {
        all_pieces(chunks.drop_last()) + pieces_in(chunks.last())
    }
}

/// The chunk brings neither reasoning nor text.
pub open spec fn brings_no_text(chunk: JsonView) -> bool {
    let delta = inside(chosen_answer(chunk), "delta"@);
    &&& named(inside(delta, "reasoning_content"@), seq![]).len() == 0
    &&& named(inside(delta, "content"@), seq![]).len() == 0
}

proof fn lemma_fewer_named(pieces: Seq<JsonView>, n: int)
    requires
        named_at_first(pieces),
        0 <= n <= pieces.len(),
    ensures
        named_at_first(pieces.take(n)),
{
    let first = pieces.take(n);
    assert forall|i: int| 0 <= i < first.len() && #[trigger] begins(first, i) implies piece_id(
        first[i],
    ) is Some && piece_name(first[i]) is Some by {
        assert(begins(pieces, i));
    }
}

/// More pieces of calls.
proof fn lemma_more_pieces(
    run: Run,
    tools: Seq<UsedTool>,
    pieces: Seq<JsonView>,
    more: Seq<JsonView>,
)
    requires
        has_gathered(run, tools, pieces),
        named_at_first(pieces + more),
    ensures
        has_gathered(run.push_tool_calls(more), tools, pieces + more),
    decreases more.len(),
{
    if more.len() == 0 {
        assert(pieces + more =~= pieces);
        assert(more =~= seq![]);
        lemma_calls(run, more, JsonView::Null);
    } else {
        let fewer = more.drop_last();
        let all = pieces + more;
        assert(all.take(all.len() - 1) =~= pieces + fewer);
        lemma_fewer_named(all, all.len() - 1);
        lemma_more_pieces(run, tools, pieces, fewer);
        assert(fewer.push(more.last()) =~= more);
        lemma_calls(run, fewer, more.last());
        assert((pieces + fewer).push(more.last()) =~= all);
        lemma_one_more_piece(run.push_tool_calls(fewer), tools, pieces + fewer, more.last());
    }
}

/// A chunk of pieces of calls.
proof fn lemma_one_more_chunk(
    run: Run,
    tools: Seq<UsedTool>,
    pieces: Seq<JsonView>,
    chunk: JsonView,
)
    requires
        has_gathered(run, tools, pieces),
        named_at_first(pieces + pieces_in(chunk)),
        brings_no_text(chunk),
    ensures
        has_gathered(run.push_chunk(chunk), tools, pieces + pieces_in(chunk)),
{
    let told = Run { converter: informed(run.converter, chunk), ..run };
    let started = begun(told);
    let more = pieces_in(chunk);
    lemma_chunk(run, chunk);
    lemma_begin_adds_no_tool(told);
    assert(has_gathered(started, tools, pieces));
    match inside(chosen_answer(chunk), "delta"@) {
        Some(JsonView::Object(delta)) => {
            lemma_delta(started, delta);
            lemma_more_pieces(started, tools, pieces, more);
        },
        _ => {
            assert(more =~= seq![]);
            assert(pieces + more =~= pieces);
        },
    }
}

/// Many chunks of pieces of calls.
proof fn lemma_chunks_of_pieces(run: Run, tools: Seq<UsedTool>, chunks: Seq<JsonView>)
    requires
        has_gathered(run, tools, seq![]),
        named_at_first(all_pieces(chunks)),
        forall|i: int| 0 <= i < chunks.len() ==> brings_no_text(#[trigger] chunks[i]),
    ensures
        has_gathered(push_chunks(run, chunks), tools, all_pieces(chunks)),
    decreases chunks.len(),
{
    if chunks.len() > 0 {
        let fewer = chunks.drop_last();
        let all = all_pieces(chunks);
        let n = all_pieces(fewer).len() as int;
        assert(all.take(n) =~= all_pieces(fewer));
        lemma_fewer_named(all, n);
        assert forall|i: int| 0 <= i < fewer.len() implies brings_no_text(#[trigger] fewer[i]) by {
            assert(fewer[i] == chunks[i]);
        }
        lemma_chunks_of_pieces(run, tools, fewer);
        assert(brings_no_text(chunks[chunks.len() - 1]));
        lemma_one_more_chunk(
            push_chunks(run, fewer),
            tools,
            all_pieces(fewer),
            chunks.last(),
        );
    }
}

/// The beginning of a message adds no tool.
proof fn lemma_begin_adds_no_tool(run: Run)
    ensures
        tools_in(begun(run).events) == tools_in(run.events),
{
    if !run.converter.started {
        let last = begun(run).events.last();
        assert(begun(run).events =~= run.events + seq![last]);
        lemma_no_tools(run.events, seq![last]);
    }
}

/// Text that was held back adds no tool.
proof fn lemma_held_text_adds_no_tool(run: Run)
    ensures
        tools_in(run.flush().events) == tools_in(run.events),
{
    let none = holding(run, seq![]);
    let held = run.converter.raw_thinking_buffer;
    lemma_held_text(run);
    lemma_text_adds_no_tool(none, held);
    lemma_text_adds_no_tool(none, normalized(held));
}

/// The end of a message adds no tool.
proof fn lemma_end_adds_no_tool(run: Run)
    ensures
        tools_in(run.finish().events) == tools_in(run.events),
{
    lemma_end(run);
    if !run.converter.finished {
        let last = begun(run).flush();
        lemma_begin_adds_no_tool(run);
        lemma_held_text_adds_no_tool(begun(run));
        let end = seq![
            EventView::MessageDelta {
                finish_reason: last.converter.finish_reason,
                output_tokens: last.converter.output_tokens,
            },
            EventView::MessageStop,
        ];
        lemma_no_tools(last.events, ending(last.converter));
        lemma_no_tools(last.events + ending(last.converter), end);
    }
}

/// Neither reasoning nor text adds a tool.
proof fn lemma_text_adds_no_tool(run: Run, piece: Seq<char>)
    ensures
        tools_in(reasoned(run, piece).events) == tools_in(run.events),
        tools_in(answered(run, piece).events) == tools_in(run.events),
{
    let thinking = reasoned(run, piece).events;
    let text = answered(run, piece).events;
    let n = run.events.len() as int;
    assert(thinking =~= run.events + thinking.skip(n));
    assert(text =~= run.events + text.skip(n));
    lemma_no_tools(run.events, thinking.skip(n));
    lemma_no_tools(run.events, text.skip(n));
}

/// The tools that a client puts together from a stream are the calls whose pieces the stream
/// brings: for each call there is one use of a tool, with the id and the name that the first piece
/// of the call gives and with the input of all its pieces, however many calls stand before it. A
/// block of a tool may not be open before, and neither reasoning nor text may come between the
/// pieces.
pub proof fn lemma_streamed_calls(run: Run, chunks: Seq<JsonView>)
    requires
        outside_tools(run.converter),
        forall|i: int| 0 <= i < chunks.len() ==> brings_no_text(#[trigger] chunks[i]),
        named_at_first(all_pieces(chunks)),
    ensures
        tools_in(push_chunks(run, chunks).events) == tools_in(run.events) + gathered(
            all_pieces(chunks),
        ),
        tools_in(push_chunks(run, chunks).finish().events) == tools_in(run.events) + gathered(
            all_pieces(chunks),
        ),
{
    let tools = tools_in(run.events);
    assert(tools + Seq::<UsedTool>::empty() =~= tools);
    lemma_chunks_of_pieces(run, tools, chunks);
    lemma_end_adds_no_tool(push_chunks(run, chunks));
}

/// No block of a tool is open.
pub open spec fn outside_tools(converter: ConverterView) -> bool {
    match converter.current_block {
        Some(BlockKind::Tool(_)) => false,
        _ => true,
    }
}

/// A piece of text that is pushed adds no tool.
proof fn lemma_pushed_text_adds_no_tool(run: Run, piece: Seq<char>)
    requires
        piece.len() > 0,
        outside_tools(run.converter),
    ensures
        outside_tools(run.push_text(piece).converter),
        tools_in(run.push_text(piece).events) == tools_in(run.events),
{
    lemma_text_piece(run, piece);
    lemma_text_adds_no_tool(run, piece);
    if let Some((thinking, answer)) = raw_split(run.converter.raw_thinking_buffer + piece) {
        let none = holding(run, seq![]);
        lemma_text_adds_no_tool(none, thinking);
        lemma_text_adds_no_tool(past_reasoning(reasoned(none, thinking)), answer);
    }
}

/// A piece of reasoning that is pushed adds no tool.
proof fn lemma_pushed_reasoning_adds_no_tool(run: Run, piece: Seq<char>)
    requires
        piece.len() > 0,
        outside_tools(run.converter),
    ensures
        outside_tools(run.push_reasoning(piece).converter),
        tools_in(run.push_reasoning(piece).events) == tools_in(run.events),
{
    let seen = Run {
        converter: ConverterView { structured_thinking_seen: true, ..run.converter },
        ..run
    };
    let none = holding(seen, seq![]);
    let held = run.converter.raw_thinking_buffer;
    lemma_reasoning_piece(run, piece);
    lemma_text_adds_no_tool(none, held);
    lemma_text_adds_no_tool(answered(none, held), piece);
}

/// A chunk without pieces of calls adds no tool.
proof fn lemma_chunk_adds_no_tool(run: Run, chunk: JsonView)
    requires
        outside_tools(run.converter),
        pieces_in(chunk).len() == 0,
    ensures
        outside_tools(run.push_chunk(chunk).converter),
        tools_in(run.push_chunk(chunk).events) == tools_in(run.events),
{
    let told = Run { converter: informed(run.converter, chunk), ..run };
    let started = begun(told);
    lemma_chunk(run, chunk);
    lemma_begin_adds_no_tool(told);
    if let Some(JsonView::Object(delta)) = inside(chosen_answer(chunk), "delta"@) {
        let reasoning = named(delta.get("reasoning_content"@), seq![]);
        let content = named(delta.get("content"@), seq![]);
        lemma_delta(started, delta);
        let first = if started.converter.config.include_thinking && reasoning.len() > 0 {
            lemma_pushed_reasoning_adds_no_tool(started, reasoning);
            started.push_reasoning(reasoning)
        } else {
            started
        };
        let second = if content.len() > 0 {
            lemma_pushed_text_adds_no_tool(first, content);
            first.push_text(content)
        } else {
            first
        };
        assert(list_in(delta.get("tool_calls"@)) =~= seq![]);
        lemma_calls(second, seq![], JsonView::Null);
    }
}

/// Chunks without pieces of calls add no tool.
proof fn lemma_chunks_add_no_tool(run: Run, chunks: Seq<JsonView>)
    requires
        outside_tools(run.converter),
        forall|i: int| 0 <= i < chunks.len() ==> pieces_in(#[trigger] chunks[i]).len() == 0,
    ensures
        outside_tools(push_chunks(run, chunks).converter),
        tools_in(push_chunks(run, chunks).events) == tools_in(run.events),
    decreases chunks.len(),
{
    if chunks.len() > 0 {
        let fewer = chunks.drop_last();
        assert forall|i: int| 0 <= i < fewer.len() implies pieces_in(
            #[trigger] fewer[i],
        ).len() == 0 by {
            assert(fewer[i] == chunks[i]);
        }
        lemma_chunks_add_no_tool(run, fewer);
        assert(pieces_in(chunks[chunks.len() - 1]).len() == 0);
        lemma_chunk_adds_no_tool(push_chunks(run, fewer), chunks.last());
    }
}

/// The tools that a client puts together from a stream are those of the whole answer: for each call
/// of the answer whose pieces the stream brings, the block of the answer has the id, the name and
/// the input that the client has put together. Reasoning and text come before the calls.
pub proof fn lemma_streamed_tools_are_those_of_the_answer(
    config: ConfigView,
    first: Seq<JsonView>,
    chunks: Seq<JsonView>,
    calls: Seq<JsonView>,
)
    requires
        forall|i: int| 0 <= i < first.len() ==> pieces_in(#[trigger] first[i]).len() == 0,
        forall|i: int| 0 <= i < chunks.len() ==> brings_no_text(#[trigger] chunks[i]),
        named_at_first(all_pieces(chunks)),
        gathered(all_pieces(chunks)).len() == calls.len(),
        forall|k: int|
            0 <= k < calls.len() ==> brings_call(
                #[trigger] calls[k],
                gathered(all_pieces(chunks))[k],
            ),
    ensures
        ({
            let begin = push_chunks(fresh(ConverterView::new(config)), first);
            let tools = tools_in(push_chunks(begin, chunks).finish().events);
            &&& tools.len() == calls.len()
            &&& forall|k: int|
                0 <= k < calls.len() ==> #[trigger] tool_use_of(calls[k]) == Ok::<
                    JsonView,
                    ErrorView,
                >(shown_tool(tools[k]))
        }),
{
    let start = fresh(ConverterView::new(config));
    let begin = push_chunks(start, first);
    let none = Seq::<UsedTool>::empty();
    lemma_chunks_add_no_tool(start, first);
    lemma_streamed_calls(begin, chunks);
    assert(tools_in(begin.events) == none);
    assert(none + gathered(all_pieces(chunks)) =~= gathered(all_pieces(chunks)));
    let tools = tools_in(push_chunks(begin, chunks).finish().events);
    assert forall|k: int| 0 <= k < calls.len() implies #[trigger] tool_use_of(calls[k]) == Ok::<
        JsonView,
        ErrorView,
    >(shown_tool(tools[k])) by {
        assert(brings_call(calls[k], gathered(all_pieces(chunks))[k]));
        lemma_use_of_tool(calls[k]);
    }
}

/// The block of an answer for the use of a tool.
pub open spec fn shown_tool(tool: UsedTool) -> JsonView {
    object(
        seq![
            text("type"@, "tool_use"@),
            text("id"@, tool.id),
            text("name"@, tool.name),
            ("input"@, input_read(Some(JsonView::String(tool.input)))),
        ],
    )
}

/// A call in a whole answer is the use of the tool: it has the id, the name and the input.
pub open spec fn brings_call(call: JsonView, tool: UsedTool) -> bool {
    let function = inside(Some(call), "function"@);
    &&& inside(Some(call), "id"@) == Some(JsonView::String(tool.id))
    &&& inside(function, "name"@) == Some(JsonView::String(tool.name))
    &&& inside(function, "arguments"@) == Some(JsonView::String(tool.input))
}

}
