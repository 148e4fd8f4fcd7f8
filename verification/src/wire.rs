//! What goes over the wire: where an upstream event ends, what its data is, how an event is
//! written, and what a streamed response does with what has arrived.

use crate::characters::{
    all_white, lemma_after_prefix, lemma_joined, lemma_trimmed_start, lemma_without_trailing,
};
use crate::converter::{fresh, ConverterView};
use crate::event::{sent, EventView};
use crate::interop::json_text;
use crate::request::ConfigView;
use crate::sse::{
    break_length, event_data, first_break, lemma_first_break, line_data, lines_data, lossy_text,
    next_event, sse_text,
};
use crate::streaming::{StepView, StreamView};
use crate::text::{is_white_space, line_pieces, without_trailing};
use vstd::prelude::*;

verus! {

/// An empty line is complete at `i`: two line feeds, or two pairs of a carriage return and a line
/// feed.
pub open spec fn ends_at(bytes: Seq<u8>, i: int) -> bool {
    ||| 0 <= i <= bytes.len() - 2 && bytes[i] == 10 && bytes[i + 1] == 10
    ||| 0 <= i <= bytes.len() - 4 && bytes[i] == 13 && bytes[i + 1] == 10 && bytes[i + 2] == 13
        && bytes[i + 3] == 10
}

/// An event is all that stands before the first empty line, and what stands behind that line is
/// left. Without an empty line there is no event.
pub proof fn lemma_event_ends_at_first_empty_line(bytes: Seq<u8>)
    ensures
        match next_event(bytes) {
            Some((event, rest)) => {
                &&& bytes == event + seq![10u8, 10] + rest || bytes == event + seq![
                    13u8,
                    10,
                    13,
                    10,
                ] + rest
                &&& forall|i: int| i < event.len() ==> !#[trigger] ends_at(bytes, i)
            },
            None => forall|i: int| !#[trigger] ends_at(bytes, i),
        },
{
    lemma_first_break(bytes, 0);
    assert forall|i: int| #[trigger] ends_at(bytes, i) implies break_length(bytes, i) > 0 by {}
    if let Some((event, rest)) = next_event(bytes) {
        let k = first_break(bytes, 0)->0;
        assert(event.len() == k);
        if break_length(bytes, k) == 2 {
            assert(bytes =~= event + seq![10u8, 10] + rest);
        } else {
            assert(bytes =~= event + seq![13u8, 10, 13, 10] + rest);
        }
    }
}

/// The text holds no line feed.
pub open spec fn on_one_line(text: Seq<char>) -> bool {
    forall|i: int| 0 <= i < text.len() ==> text[i] != '\n'
}

/// A line that begins with the name of the field has data: what stands behind the name, without the
/// white space before it and the carriage returns at the end of the line.
pub proof fn lemma_data_of_line(line: Seq<char>) -> (parts: (Seq<char>, Seq<char>))
    ensures
        match line_data(line) {
            Some(data) => {
                &&& line == "data:"@ + parts.0 + data + parts.1
                &&& all_white(parts.0)
                &&& forall|i: int| 0 <= i < parts.1.len() ==> parts.1[i] == '\r'
                &&& data.len() > 0 ==> !is_white_space(data[0]) && data.last() != '\r'
            },
            None => forall|rest: Seq<char>| line != #[trigger] ("data:"@ + rest),
        },
{
    let copies = lemma_without_trailing(line, '\r');
    let kept = without_trailing(line, '\r');
    lemma_after_prefix(kept, "data:"@, kept.skip("data:"@.len() as int));
    if let Some(data) = line_data(line) {
        let behind = kept.skip("data:"@.len() as int);
        let white = lemma_trimmed_start(behind);
        assert(kept == "data:"@ + behind);
        assert(line =~= "data:"@ + white + data + copies);
        if data.len() > 0 {
            assert(kept.last() == data.last());
        }
        (white, copies)
    } else {
        reveal_strlit("data:");
        assert forall|rest: Seq<char>| line != #[trigger] ("data:"@ + rest) by {
            let whole = "data:"@ + rest;
            if line == whole {
                assert(line[4] == ':');
                assert(kept.len() >= 5) by {
                    if kept.len() < 5 {
                        assert(line[4] == copies[4 - kept.len()]);
                    }
                }
                assert(kept =~= "data:"@ + kept.skip(5)) by {
                    assert forall|i: int| 0 <= i < 5 implies kept[i] == "data:"@[i] by {
                        assert(kept[i] == line[i]);
                        assert(whole[i] == "data:"@[i]);
                    }
                }
            }
        }
        (seq![], seq![])
    }
}

proof fn lemma_pieces_with_line(event: Seq<char>, line: Seq<char>)
    requires
        on_one_line(line),
    ensures
        line_pieces(event + seq!['\n'] + line) == line_pieces(event).push(line),
    decreases line.len(),
{
    let all = event + seq!['\n'] + line;
    if line.len() == 0 {
        assert(all =~= event.push('\n'));
        assert(event.push('\n').drop_last() =~= event);
        assert(line =~= seq![]);
        assert(line_pieces(all) =~= line_pieces(event).push(line));
    } else {
        let fewer = line.drop_last();
        assert(all.drop_last() =~= event + seq!['\n'] + fewer);
        lemma_pieces_with_line(event, fewer);
        assert(fewer.push(line.last()) =~= line);
        assert(line_pieces(all) =~= line_pieces(event).push(line));
    }
}

proof fn lemma_pieces_of_line(line: Seq<char>)
    requires
        on_one_line(line),
    ensures
        line_pieces(line) == seq![line],
    decreases line.len(),
{
    if line.len() == 0 {
        assert(line =~= seq![]);
        assert(line_pieces(line) =~= seq![line]);
    } else {
        let fewer = line.drop_last();
        lemma_pieces_of_line(fewer);
        assert(fewer.push(line.last()) =~= line);
        assert(line_pieces(line) =~= seq![line]);
    }
}

/// The data of an event comes from its lines, in order: the data of one more line comes behind, on
/// a line of its own, and a line without data adds nothing.
pub proof fn lemma_data_of_event(event: Seq<char>, line: Seq<char>)
    requires
        on_one_line(line),
    ensures
        event_data(line) == line_data(line),
        event_data(event + seq!['\n'] + line) == match (event_data(event), line_data(line)) {
            (before, None) => before,
            (None, Some(data)) => Some(data),
            (Some(before), Some(data)) => Some(before + seq!['\n'] + data),
        },
{
    let pieces = line_pieces(event);
    lemma_pieces_of_line(line);
    lemma_pieces_with_line(event, line);
    assert(pieces.push(line).drop_last() =~= pieces);
    let none = Seq::<Seq<char>>::empty();
    assert(seq![line].drop_last() =~= none);
    assert(lines_data(none) == none);
    if let Some(data) = line_data(line) {
        lemma_joined(lines_data(pieces), data, seq!['\n']);
        lemma_joined(lines_data(pieces).push(data), data, seq!['\n']);
        lemma_joined(seq![data], data, seq!['\n']);
        assert(none.push(data) =~= seq![data]);
        if lines_data(pieces).len() == 0 {
            assert(lines_data(pieces) =~= none);
        }
    }
}

/// An event is written as its name and its data, each on a line of its own, and an empty line.
pub proof fn lemma_written(name: Seq<char>, data: Seq<char>, events: Seq<EventView>, i: int)
    requires
        0 <= i < events.len(),
    ensures
        sse_text(name, data) == "event: "@ + name + "\ndata: "@ + data + "\n\n"@,
        sent(events).len() == events.len(),
        sent(events)[i] == "event: "@ + events[i].name() + "\ndata: "@ + json_text(
            events[i].json(),
        ) + "\n\n"@,
{
}

/// A response of which nothing has arrived has nothing to send; what arrives is kept behind what is
/// there; a failure is told to the client behind all that waits; and at the end an event that is
/// not complete is completed.
pub proof fn lemma_arrivals(
    config: ConfigView,
    state: StreamView,
    bytes: Seq<u8>,
    message: Seq<char>,
)
    ensures
        StreamView::new(config) == (StreamView {
            buffer: seq![],
            pending: seq![],
            converter: ConverterView::new(config),
            upstream_done: false,
        }),
        state.received(bytes) == (StreamView { buffer: state.buffer + bytes, ..state }),
        state.failed(message) == (StreamView {
            pending: state.pending + sent(
                seq![EventView::Error { message: "upstream stream failed: "@ + message }],
            ),
            upstream_done: true,
            ..state
        }),
        state.buffer.len() == 0 ==> state.ended() == (StreamView { upstream_done: true, ..state }),
        state.buffer.len() > 0 ==> state.ended() == (StreamView {
            buffer: state.buffer + seq![10u8, 10],
            upstream_done: true,
            ..state
        }),
{
    let report = EventView::Error { message: "upstream stream failed: "@ + message };
    assert(state.failed(message).pending =~= state.pending + sent(seq![report]));
}

/// What waits is sent first, in order. Else the first event that is complete is converted, if it
/// has data. If there is none with data at hand, more is read, or the message is ended once the
/// upstream has ended, and the response ends when nothing is left to send.
pub proof fn lemma_steps(state: StreamView)
    ensures
        state.pending.len() > 0 ==> state.next() == (
            StreamView { pending: state.pending.skip(1), ..state },
            StepView::Send(state.pending[0]),
        ),
        state.pending.len() == 0 ==> match next_event(state.buffer) {
            Some((event, rest)) => match event_data(lossy_text(event)) {
                Some(data) => {
                    let run = fresh(state.converter).push_data(data);
                    let converted = StreamView {
                        buffer: rest,
                        converter: run.converter,
                        pending: sent(run.events),
                        ..state
                    };
                    state.next() == converted.next()
                },
                None => rests(StreamView { buffer: rest, ..state }, state.next()),
            },
            None => rests(state, state.next()),
        },
{
    if state.pending.len() > 0 {
        assert(state.pending.drop_first() =~= state.pending.skip(1));
    } else {
        let end = fresh(state.converter).finish();
        assert(state.pending + sent(end.events) =~= sent(end.events));
        assert(sent(end.events).drop_first() =~= sent(end.events).skip(1));
        if let Some((event, rest)) = next_event(state.buffer) {
            if let Some(data) = event_data(lossy_text(event)) {
                let run = fresh(state.converter).push_data(data);
                assert(state.pending + sent(run.events) =~= sent(run.events));
            }
        }
    }
}

/// What is done when nothing is at hand: more is read, or the message is ended.
pub open spec fn rests(state: StreamView, done: (StreamView, StepView)) -> bool {
    let end = fresh(state.converter).finish();
    let texts = sent(end.events);
    if !state.upstream_done {
        done == (state, StepView::Read)
    } else if texts.len() == 0 {
        &&& done.1 == StepView::End
        &&& done.0 == (StreamView { converter: end.converter, ..state })
    } else {
        &&& done.1 == StepView::Send(texts[0])
        &&& done.0 == (StreamView {
            converter: end.converter,
            pending: texts.skip(1),
            ..state
        })
    }
}

}
