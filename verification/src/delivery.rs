//! What a client gets of a streamed response.

use crate::converter::{fresh, lemma_finish_once, ConverterView, Run};
use crate::event::{sent, EventView};
use crate::protocol::{
    converted, ends_at_the_end, lemma_after_all_concat, lemma_finish_in_order, lemma_new_in_order,
    lemma_stream_in_order, Phase,
};
use crate::request::ConfigView;
use crate::sse::{
    break_length, events, first_break, lemma_events_in_pieces, lemma_first_break,
    lemma_next_event_stable, next_event, CR, LF,
};
use crate::streaming::{bytes_data, StepView, StreamView};
use vstd::prelude::*;

verus! {

impl StreamView {
    /// Zero once the message has ended.
    pub open spec fn ends_left(self) -> nat {
        if self.converter.finished {
            0
        } else {
            1
        }
    }

    /// Everything that is sent until more has to be read or the response ends.
    pub open spec fn sends(self) -> (StreamView, Seq<Seq<char>>)
        decreases self.buffer.len(), self.ends_left(), self.pending.len(),
    {
        match self.next() {
            (after, StepView::Send(text)) => {
                proof {
                    lemma_next_goes_on(self);
                }
                (after.sends().0, seq![text] + after.sends().1)
            },
            (after, _) => (after, seq![]),
        }
    }

    /// The converter when the data at hand has been converted, and the events that are made of it
    /// and, if the upstream has ended, to end the message.
    pub open spec fn all_converted(self) -> Run {
        let run = converted(self.converter, ready(self.buffer).0);
        if self.upstream_done {
            let end = fresh(run.converter).finish();
            Run { converter: end.converter, events: run.events + end.events }
        } else {
            run
        }
    }
}

/// The data of the events at hand, up to an event without data, and the bytes behind.
pub open spec fn ready(buffer: Seq<u8>) -> (Seq<Seq<char>>, Seq<u8>)
    decreases buffer.len(),
{
    match next_event(buffer) {
        Some((event, rest)) => {
            proof {
                lemma_first_break(buffer, 0);
            }
            match bytes_data(event) {
                Some(data) => (seq![data] + ready(rest).0, ready(rest).1),
                None => (seq![], rest),
            }
        },
        None => (seq![], buffer),
    }
}

/// No event at hand has data.
pub open spec fn none_has_data(events: Seq<Seq<u8>>) -> bool {
    forall|i: int| 0 <= i < events.len() ==> bytes_data(#[trigger] events[i]) is None
}

/// Every event has data.
pub open spec fn all_have_data(events: Seq<Seq<u8>>) -> bool {
    forall|i: int| 0 <= i < events.len() ==> bytes_data(#[trigger] events[i]) is Some
}

/// The response ends only when the upstream has ended and the message has been ended, and nothing
/// is read once the upstream has ended.
pub proof fn lemma_next_ends_last(state: StreamView)
    ensures
        state.next().1 is End ==> state.upstream_done && state.next().0.converter.finished
            && state.next().0.pending.len() == 0,
        state.next().1 is Read ==> !state.upstream_done && state.next().0.pending.len() == 0,
        state.next().0.upstream_done == state.upstream_done,
    decreases state.buffer.len(),
{
    if state.pending.len() == 0 {
        lemma_finish_once(state.converter);
        if let Some((event, rest)) = next_event(state.buffer) {
            lemma_first_break(state.buffer, 0);
            if let Some(data) = bytes_data(event) {
                lemma_next_ends_last((StreamView { buffer: rest, ..state }).with_data(data));
            }
        }
    }
}

/// Sending comes to an end: each text that is sent was waiting, comes from an event, or ends the
/// message.
pub proof fn lemma_next_goes_on(state: StreamView)
    ensures
        state.next().0.upstream_done == state.upstream_done,
        state.next().1 is Send ==> {
            let after = state.next().0;
            ||| after.buffer.len() < state.buffer.len()
            ||| after.buffer == state.buffer && after.ends_left() < state.ends_left()
            ||| after.buffer == state.buffer && after.ends_left() == state.ends_left()
                && after.pending.len() < state.pending.len()
        },
        state.next().0.buffer.len() <= state.buffer.len(),
    decreases state.buffer.len(),
{
    if state.pending.len() == 0 {
        lemma_finish_once(state.converter);
        if let Some((event, rest)) = next_event(state.buffer) {
            lemma_first_break(state.buffer, 0);
            if let Some(data) = bytes_data(event) {
                lemma_next_goes_on((StreamView { buffer: rest, ..state }).with_data(data));
            }
        }
    }
}

/// The data of a first event and then of more events.
proof fn lemma_converted_first(converter: ConverterView, first: Seq<char>, rest: Seq<Seq<char>>)
    ensures
        ({
            let one = fresh(converter).push_data(first);
            let all = converted(converter, seq![first] + rest);
            &&& all.converter == converted(one.converter, rest).converter
            &&& all.events == one.events + converted(one.converter, rest).events
        }),
{
    let one = fresh(converter).push_data(first);
    let single = seq![first];
    assert(single.drop_last() =~= seq![]);
    assert(converted(converter, single.drop_last()) == fresh(converter));
    assert(converted(converter, single).events =~= one.events);
    lemma_converted_concat(converter, single, rest);
}

/// If no event has data, neither has the first nor has any behind it.
proof fn lemma_none_has_data(buffer: Seq<u8>)
    requires
        none_has_data(events(buffer).0),
    ensures
        next_event(buffer) matches Some((event, rest)) ==> bytes_data(event) is None
            && none_has_data(events(rest).0),
{
    if let Some((event, rest)) = next_event(buffer) {
        lemma_first_break(buffer, 0);
        let all = events(buffer).0;
        let others = events(rest).0;
        assert(all =~= seq![event] + others);
        assert(all[0] == event);
        assert forall|i: int| 0 <= i < others.len() implies bytes_data(
            #[trigger] others[i],
        ) is None by {
            assert(all[i + 1] == others[i]);
        }
    }
}

/// The first text that waits is sent first.
proof fn lemma_sends_first(state: StreamView, rest: Seq<Seq<char>>)
    requires
        state.pending.len() > 0,
        state.send().0.sends().1 == state.pending.drop_first() + rest,
    ensures
        state.sends().0 == state.send().0.sends().0,
        state.sends().1 == state.pending + rest,
{
    assert(state.next() == state.send());
    lemma_first_then_rest(state.pending, rest);
}

proof fn lemma_first_then_rest(texts: Seq<Seq<char>>, rest: Seq<Seq<char>>)
    requires
        texts.len() > 0,
    ensures
        seq![texts[0]] + (texts.drop_first() + rest) == texts + rest,
{
    assert(seq![texts[0]] + (texts.drop_first() + rest) =~= texts + rest);
}

/// When the next event has data, what is sent is what is sent once that data is converted.
proof fn lemma_sends_data(state: StreamView, data: Seq<char>, pushed: StreamView)
    requires
        next_event(state.buffer) matches Some((event, rest)) && bytes_data(event) == Some(data)
            && pushed == (StreamView { buffer: rest, ..state }).with_data(data),
        state.pending.len() == 0,
    ensures
        state.sends() == pushed.sends(),
        pushed.buffer.len() < state.buffer.len(),
        ready(state.buffer).1 == ready(pushed.buffer).1,
{
    lemma_first_break(state.buffer, 0);
    assert(state.next() == pushed.next());
}

/// The events for the first data at hand come first.
proof fn lemma_data_first(state: StreamView, data: Seq<char>, pushed: StreamView)
    requires
        next_event(state.buffer) matches Some((event, rest)) && bytes_data(event) == Some(data)
            && pushed == (StreamView { buffer: rest, ..state }).with_data(data),
        state.pending.len() == 0,
    ensures
        state.all_converted().converter == pushed.all_converted().converter,
        sent(state.all_converted().events) == pushed.pending + sent(pushed.all_converted().events),
{
    let more = ready(pushed.buffer).0;
    lemma_first_break(state.buffer, 0);
    lemma_converted_first(state.converter, data, more);
    let one = fresh(state.converter).push_data(data);
    assert(pushed.pending =~= sent(one.events));
    assert(state.all_converted().events =~= one.events + pushed.all_converted().events);
    assert(sent(state.all_converted().events) =~= sent(one.events) + sent(
        pushed.all_converted().events,
    ));
}

/// While the upstream goes on, what is sent is what waits and then the events that the converter
/// makes of the data at hand, in order.
#[verifier::spinoff_prover]
pub proof fn lemma_sends_all_data(state: StreamView)
    requires
        !state.upstream_done,
    ensures
        state.sends().0 == (StreamView {
            buffer: ready(state.buffer).1,
            pending: seq![],
            converter: state.all_converted().converter,
            ..state
        }),
        state.sends().1 == state.pending + sent(state.all_converted().events),
    decreases state.buffer.len(), state.pending.len(),
{
    if state.pending.len() > 0 {
        lemma_sends_all_data(state.send().0);
        lemma_sends_first(state, sent(state.all_converted().events));
    } else {
        match next_event(state.buffer) {
            Some((event, rest)) if bytes_data(event) is Some => {
                let data = bytes_data(event)->0;
                let pushed = (StreamView { buffer: rest, ..state }).with_data(data);
                lemma_sends_data(state, data, pushed);
                lemma_sends_all_data(pushed);
                lemma_data_first(state, data, pushed);
                lemma_behind_none(state.pending, sent(state.all_converted().events));
            },
            _ => {
                lemma_sends_nothing(state);
            },
        }
    }
}

/// Texts behind no texts.
proof fn lemma_behind_none(none: Seq<Seq<char>>, texts: Seq<Seq<char>>)
    requires
        none.len() == 0,
    ensures
        none + texts == texts,
{
    assert(none + texts =~= texts);
}

/// When no data is at hand, nothing is sent before more has been read.
proof fn lemma_sends_nothing(state: StreamView)
    requires
        !state.upstream_done,
        state.pending.len() == 0,
        next_event(state.buffer) matches Some((event, _)) ==> bytes_data(event) is None,
    ensures
        state.sends().0 == (StreamView {
            buffer: ready(state.buffer).1,
            pending: seq![],
            converter: state.all_converted().converter,
            ..state
        }),
        state.sends().1 == state.pending + sent(state.all_converted().events),
{
    lemma_first_break(state.buffer, 0);
    assert(state.pending =~= seq![]);
    assert(state.next().1 == StepView::Read);
    assert(state.all_converted().events =~= seq![]);
    assert(sent(state.all_converted().events) =~= seq![]);
    assert(state.sends().1 =~= state.pending + sent(state.all_converted().events));
}

/// When the upstream has ended, what is sent is what waits, then the events that the converter
/// makes of the data at hand, and then those that end the message. Behind an event without data,
/// no event may have data.
#[verifier::spinoff_prover]
pub proof fn lemma_sends_all_at_the_end(state: StreamView)
    requires
        state.upstream_done,
        none_has_data(events(ready(state.buffer).1).0),
    ensures
        state.sends().1 == state.pending + sent(state.all_converted().events),
        state.sends().0.next().1 == StepView::End,
    decreases state.buffer.len(), state.pending.len(),
{
    if state.pending.len() > 0 {
        lemma_sends_all_at_the_end(state.send().0);
        lemma_sends_first(state, sent(state.all_converted().events));
    } else {
        match next_event(state.buffer) {
            Some((event, rest)) if bytes_data(event) is Some => {
                let data = bytes_data(event)->0;
                let pushed = (StreamView { buffer: rest, ..state }).with_data(data);
                lemma_sends_data(state, data, pushed);
                lemma_sends_all_at_the_end(pushed);
                lemma_data_first(state, data, pushed);
                lemma_behind_none(state.pending, sent(state.all_converted().events));
            },
            _ => {
                lemma_sends_end(state);
            },
        }
    }
}

/// When no data is at hand and the upstream has ended, the events that end the message are sent.
#[verifier::spinoff_prover]
proof fn lemma_sends_end(state: StreamView)
    requires
        state.upstream_done,
        state.pending.len() == 0,
        next_event(state.buffer) matches Some((event, _)) ==> bytes_data(event) is None,
        none_has_data(events(ready(state.buffer).1).0),
    ensures
        state.sends().1 == state.pending + sent(state.all_converted().events),
        state.sends().0.next().1 == StepView::End,
{
    let left = StreamView { buffer: ready(state.buffer).1, ..state };
    let ended = left.with_end();
    let end = fresh(state.converter).finish();
    lemma_first_break(state.buffer, 0);
    assert(state.next() == left.idle());
    lemma_finish_once(state.converter);
    lemma_behind_none(state.pending, sent(end.events));
    assert(state.all_converted().events =~= end.events);
    if ended.pending.len() == 0 {
        lemma_ended_ends(ended);
        assert(state.sends().0 == ended);
        assert(state.sends().1 =~= sent(end.events));
    } else {
        lemma_sends_waiting(ended);
        assert(state.next() == ended.next());
    }
}

/// Once the message has ended and no data is left, only what waits is sent.
#[verifier::spinoff_prover]
proof fn lemma_sends_waiting(state: StreamView)
    requires
        state.upstream_done,
        state.converter.finished,
        none_has_data(events(state.buffer).0),
    ensures
        state.sends().1 == state.pending,
        state.sends().0.next().1 == StepView::End,
    decreases state.pending.len(),
{
    if state.pending.len() == 0 {
        lemma_ended_ends(state);
        lemma_ended_ends(state.next().0);
        assert(state.sends().0 == state.next().0);
        assert(state.sends().1 =~= state.pending);
    } else {
        lemma_sends_waiting(state.send().0);
        let none = Seq::<Seq<char>>::empty();
        assert(state.pending.drop_first() + none =~= state.pending.drop_first());
        lemma_sends_first(state, none);
        assert(state.pending + none =~= state.pending);
    }
}

/// A response that has nothing left to send ends.
proof fn lemma_ended_ends(state: StreamView)
    requires
        state.upstream_done,
        state.converter.finished,
        state.pending.len() == 0,
        none_has_data(events(state.buffer).0),
    ensures
        state.next().1 == StepView::End,
        state.next().0.upstream_done,
        state.next().0.converter.finished,
        state.next().0.pending.len() == 0,
        none_has_data(events(state.next().0.buffer).0),
{
    lemma_finish_once(state.converter);
    assert(state.with_end().pending =~= seq![]);
    if let Some((event, rest)) = next_event(state.buffer) {
        lemma_first_break(state.buffer, 0);
        lemma_none_has_data(state.buffer);
        assert((StreamView { buffer: rest, ..state }).with_end().pending =~= seq![]);
    }
}

/// A client that gets the whole response gets a whole message: when the upstream has ended, what
/// is still sent brings it from where it stands to the end of the message, in order. Behind an
/// event without data no event may have data, and nothing of the answer may come behind the data
/// that announces its end.
pub proof fn lemma_message_is_completed(state: StreamView)
    requires
        state.upstream_done,
        state.converter.well_formed(),
        !state.converter.finished,
        none_has_data(events(ready(state.buffer).1).0),
        ends_at_the_end(ready(state.buffer).0),
    ensures
        state.sends().1 == state.pending + sent(state.all_converted().events),
        state.converter.phase().after_all(state.all_converted().events) == Some(Phase::Over),
        state.sends().0.next().1 == StepView::End,
{
    lemma_sends_all_at_the_end(state);
    let data = ready(state.buffer).0;
    lemma_stream_in_order(state.converter, data);
    let run = converted(state.converter, data);
    lemma_finish_in_order(run.converter);
    lemma_after_all_concat(
        state.converter.phase(),
        run.events,
        fresh(run.converter).finish().events,
    );
}

/// Whether bytes that arrive later are treated as if they had been there before: an event without
/// data makes the response read on, so no event may follow one.
pub open spec fn pieces_read_alike(buffer: Seq<u8>, more: Seq<u8>) -> bool {
    all_have_data(events(buffer).0) || next_event(ready(buffer).1 + more) is None
}

/// The data that is ready when bytes arrive together is the data that is ready when they arrive one
/// part after the other.
proof fn lemma_ready_in_pieces(buffer: Seq<u8>, more: Seq<u8>)
    requires
        pieces_read_alike(buffer, more),
    ensures
        ready(buffer + more).0 == ready(buffer).0 + ready(ready(buffer).1 + more).0,
        ready(buffer + more).1 == ready(ready(buffer).1 + more).1,
    decreases buffer.len(),
{
    lemma_first_break(buffer, 0);
    lemma_next_event_stable(buffer, more);
    match next_event(buffer) {
        None => {
            assert(ready(buffer).0 + ready(buffer + more).0 =~= ready(buffer + more).0);
        },
        Some((event, rest)) => {
            lemma_first_break(buffer + more, 0);
            lemma_events_behind(buffer);
            match bytes_data(event) {
                Some(data) => {
                    lemma_ready_in_pieces(rest, more);
                    assert(ready(buffer + more).0 =~= ready(buffer).0 + ready(
                        ready(buffer).1 + more,
                    ).0);
                },
                None => {
                    assert(!all_have_data(events(buffer).0)) by {
                        assert(bytes_data(events(buffer).0[0]) is None);
                    }
                    assert(ready(buffer).0 + ready(rest + more).0 =~= seq![]);
                },
            }
        },
    }
}

/// The events of a buffer are its first event and those behind it.
proof fn lemma_events_behind(buffer: Seq<u8>)
    ensures
        next_event(buffer) matches Some((event, rest)) ==> {
            &&& events(buffer).0 == seq![event] + events(rest).0
            &&& events(buffer).1 == events(rest).1
            &&& events(buffer).0[0] == event
            &&& all_have_data(events(buffer).0) ==> all_have_data(events(rest).0)
        },
{
    if let Some((event, rest)) = next_event(buffer) {
        lemma_first_break(buffer, 0);
        let all = events(buffer).0;
        let others = events(rest).0;
        assert(all =~= seq![event] + others);
        if all_have_data(all) {
            assert forall|i: int| 0 <= i < others.len() implies bytes_data(
                #[trigger] others[i],
            ) is Some by {
                assert(all[i + 1] == others[i]);
            }
        }
    }
}

/// It does not matter whether bytes of the upstream arrive together or one part after the other,
/// unless an event without data stands before another event: the same texts are sent, in the same
/// order.
pub proof fn lemma_pieces_do_not_matter(state: StreamView, more: Seq<u8>)
    requires
        !state.upstream_done,
        pieces_read_alike(state.buffer, more),
    ensures
        ({
            let one = state.sends();
            let two = one.0.received(more).sends();
            let both = state.received(more).sends();
            &&& both.0 == two.0
            &&& both.1 == one.1 + two.1
        }),
{
    let one = state.sends();
    let later = one.0.received(more);
    let both = state.received(more);
    lemma_sends_all_data(state);
    lemma_sends_all_data(later);
    lemma_sends_all_data(both);
    lemma_ready_in_pieces(state.buffer, more);
    lemma_converted_concat(state.converter, ready(state.buffer).0, ready(later.buffer).0);
    lemma_sent_concat(state.all_converted().events, later.all_converted().events);
    lemma_behind_none(later.pending, sent(later.all_converted().events));
    assert(both.sends().1 =~= one.1 + later.sends().1);
}

/// Events that are sent one list after another.
proof fn lemma_sent_concat(first: Seq<EventView>, rest: Seq<EventView>)
    ensures
        sent(first + rest) == sent(first) + sent(rest),
{
    assert(sent(first + rest) =~= sent(first) + sent(rest));
}

/// The data of some events and then of more events.
proof fn lemma_converted_concat(
    converter: ConverterView,
    first: Seq<Seq<char>>,
    rest: Seq<Seq<char>>,
)
    ensures
        ({
            let one = converted(converter, first);
            let all = converted(converter, first + rest);
            &&& all.converter == converted(one.converter, rest).converter
            &&& all.events == one.events + converted(one.converter, rest).events
        }),
    decreases rest.len(),
{
    let one = converted(converter, first);
    if rest.len() == 0 {
        assert(first + rest =~= first);
        assert(one.events + Seq::<EventView>::empty() =~= one.events);
    } else {
        assert((first + rest).drop_last() =~= first + rest.drop_last());
        lemma_converted_concat(converter, first, rest.drop_last());
        let before = converted(one.converter, rest.drop_last());
        let last = fresh(before.converter).push_data(rest.last());
        assert(one.events + before.events + last.events =~= one.events + (before.events
            + last.events));
    }
}

/// The data of those events that have data, in order.
pub open spec fn data_of(events: Seq<Seq<u8>>) -> Seq<Seq<char>>
    decreases events.len(),
{
    if events.len() == 0 {
        seq![]
    } else {
        match bytes_data(events.last()) {
            Some(data) => data_of(events.drop_last()).push(data),
            None => data_of(events.drop_last()),
        }
    }
}

proof fn lemma_data_of_concat(first: Seq<Seq<u8>>, rest: Seq<Seq<u8>>)
    ensures
        data_of(first + rest) == data_of(first) + data_of(rest),
    decreases rest.len(),
{
    if rest.len() == 0 {
        assert(first + rest =~= first);
        assert(data_of(first) + data_of(rest) =~= data_of(first));
    } else {
        assert((first + rest).drop_last() =~= first + rest.drop_last());
        lemma_data_of_concat(first, rest.drop_last());
        assert(data_of(first + rest) =~= data_of(first) + data_of(rest));
    }
}

/// The data in a buffer is the data that is ready and then the data behind it.
proof fn lemma_ready_then_rest(buffer: Seq<u8>)
    ensures
        data_of(events(buffer).0) == ready(buffer).0 + data_of(events(ready(buffer).1).0),
        events(buffer).1 == events(ready(buffer).1).1,
        all_have_data(events(buffer).0) ==> ready(buffer).1 == events(buffer).1,
    decreases buffer.len(),
{
    let none = Seq::<Seq<char>>::empty();
    match next_event(buffer) {
        None => {
            assert(none + data_of(events(buffer).0) =~= data_of(events(buffer).0));
        },
        Some((event, rest)) => {
            lemma_first_break(buffer, 0);
            lemma_events_behind(buffer);
            let one = seq![event];
            lemma_data_of_concat(one, events(rest).0);
            assert(one.drop_last() =~= seq![]);
            assert(data_of(one.drop_last()) == none);
            match bytes_data(event) {
                Some(data) => {
                    lemma_ready_then_rest(rest);
                    assert(data_of(one) =~= seq![data]);
                    assert(data_of(events(buffer).0) =~= ready(buffer).0 + data_of(
                        events(ready(buffer).1).0,
                    ));
                },
                None => {
                    assert(data_of(events(buffer).0) =~= none + data_of(events(rest).0));
                    assert(all_have_data(events(buffer).0) ==> false) by {
                        assert(bytes_data(events(buffer).0[0]) is None);
                    }
                },
            }
        },
    }
}

/// The pieces in which bytes arrive, put together.
pub open spec fn all_bytes(pieces: Seq<Seq<u8>>) -> Seq<u8>
    decreases pieces.len(),
{
    if pieces.len() == 0 {
        seq![]
    } else {
        all_bytes(pieces.drop_last()) + pieces.last()
    }
}

/// A response of which the given pieces have arrived, one after the other, and what has been sent:
/// after each piece, everything until more has to be read.
pub open spec fn streamed(config: ConfigView, pieces: Seq<Seq<u8>>) -> (
    StreamView,
    Seq<Seq<char>>,
)
    decreases pieces.len(),
{
    if pieces.len() == 0 {
        StreamView::new(config).sends()
    } else {
        let (before, texts) = streamed(config, pieces.drop_last());
        let (after, more) = before.received(pieces.last()).sends();
        (after, texts + more)
    }
}

/// A response of which the given pieces have arrived before the upstream ended, and what has been
/// sent.
pub open spec fn completed(config: ConfigView, pieces: Seq<Seq<u8>>) -> (
    StreamView,
    Seq<Seq<char>>,
) {
    let (before, texts) = streamed(config, pieces);
    let (after, more) = before.ended().sends();
    (after, texts + more)
}

/// A response of which the given pieces have arrived before the upstream failed, and what has been
/// sent.
pub open spec fn broken_off(config: ConfigView, pieces: Seq<Seq<u8>>, message: Seq<char>) -> (
    StreamView,
    Seq<Seq<char>>,
) {
    let (before, texts) = streamed(config, pieces);
    let (after, more) = before.failed(message).sends();
    (after, texts + more)
}

/// A response of which nothing has arrived sends nothing.
proof fn lemma_new_sends_nothing(config: ConfigView)
    ensures
        StreamView::new(config).sends() == (StreamView::new(config), Seq::<Seq<char>>::empty()),
{
    let state = StreamView::new(config);
    lemma_first_break(state.buffer, 0);
    assert(state.next() == (state, StepView::Read));
}

/// What has been sent while the upstream goes on, of whatever has arrived in whatever pieces: the
/// events for some of the data that has arrived, from the first on. The data behind it is still in
/// the buffer.
#[verifier::spinoff_prover]
#[verifier::rlimit(40)]
pub proof fn lemma_streamed(config: ConfigView, pieces: Seq<Seq<u8>>) -> (data: Seq<Seq<char>>)
    ensures
        ({
            let (state, texts) = streamed(config, pieces);
            let run = converted(ConverterView::new(config), data);
            &&& state.converter == run.converter
            &&& state.pending.len() == 0
            &&& !state.upstream_done
            &&& texts == sent(run.events)
            &&& data_of(events(all_bytes(pieces)).0) == data + data_of(events(state.buffer).0)
            &&& events(all_bytes(pieces)).1 == events(state.buffer).1
            &&& all_have_data(events(all_bytes(pieces)).0) ==> state.buffer == events(
                all_bytes(pieces),
            ).1
        }),
    decreases pieces.len(),
{
    let start = ConverterView::new(config);
    if pieces.len() == 0 {
        let none = Seq::<Seq<char>>::empty();
        lemma_new_sends_nothing(config);
        lemma_first_break(Seq::<u8>::empty(), 0);
        assert(converted(start, none) == fresh(start));
        assert(sent(fresh(start).events) =~= none);
        assert(none + none =~= none);
        none
    } else {
        let fewer = pieces.drop_last();
        let piece = pieces.last();
        let data = lemma_streamed(config, fewer);
        let (before, texts) = streamed(config, fewer);
        let later = before.received(piece);
        let more = ready(later.buffer).0;
        lemma_sends_all_data(later);
        lemma_converted_concat(start, data, more);
        lemma_sent_concat(converted(start, data).events, later.all_converted().events);
        lemma_behind_none(later.pending, sent(later.all_converted().events));
        lemma_arrived(all_bytes(fewer), before.buffer, piece, data);
        lemma_ready_then_rest(later.buffer);
        lemma_texts_regrouped(data, more, data_of(events(ready(later.buffer).1).0));
        data + more
    }
}

/// More bytes behind those that have arrived are more bytes behind those in the buffer.
proof fn lemma_arrived(all: Seq<u8>, buffer: Seq<u8>, more: Seq<u8>, data: Seq<Seq<char>>)
    requires
        data_of(events(all).0) == data + data_of(events(buffer).0),
        events(all).1 == events(buffer).1,
        all_have_data(events(all).0) ==> buffer == events(all).1,
    ensures
        data_of(events(all + more).0) == data + data_of(events(buffer + more).0),
        events(all + more).1 == events(buffer + more).1,
        all_have_data(events(all + more).0) ==> all_have_data(events(buffer + more).0),
{
    lemma_events_in_pieces(all, more);
    lemma_events_in_pieces(buffer, more);
    let new = events(events(all).1 + more).0;
    lemma_data_of_concat(events(all).0, new);
    lemma_data_of_concat(events(buffer).0, new);
    assert(data + data_of(events(buffer).0) + data_of(new) =~= data + (data_of(events(buffer).0)
        + data_of(new)));
    if all_have_data(events(all + more).0) {
        let both = events(all).0 + new;
        assert forall|i: int| 0 <= i < events(all).0.len() implies bytes_data(
            #[trigger] events(all).0[i],
        ) is Some by {
            assert(both[i] == events(all).0[i]);
        }
        assert forall|i: int| 0 <= i < new.len() implies bytes_data(#[trigger] new[i]) is Some by {
            assert(both[events(all).0.len() + i] == new[i]);
        }
    }
}

/// The bytes that end an event which is not complete.
pub open spec fn closing(buffer: Seq<u8>) -> Seq<u8> {
    if buffer.len() > 0 {
        seq![LF, LF]
    } else {
        seq![]
    }
}

/// What a client gets of a whole response, in whatever pieces it has arrived: the events for the
/// data of all its events, in order, and then those that end the message. What is left at the end
/// is taken as an event. When the upstream ends, the buffer may not hold an event with data behind
/// one without.
pub proof fn lemma_completed(config: ConfigView, pieces: Seq<Seq<u8>>)
    requires
        none_has_data(events(ready(streamed(config, pieces).0.ended().buffer).1).0),
    ensures
        ({
            let bytes = all_bytes(pieces) + closing(streamed(config, pieces).0.buffer);
            let run = converted(ConverterView::new(config), data_of(events(bytes).0));
            let (state, texts) = completed(config, pieces);
            &&& texts == sent(run.events) + sent(fresh(run.converter).finish().events)
            &&& state.next().1 == StepView::End
        }),
{
    let start = ConverterView::new(config);
    let data = lemma_streamed(config, pieces);
    let before = streamed(config, pieces).0;
    let bytes = all_bytes(pieces) + closing(before.buffer);
    let ended = before.ended();
    let more = ready(ended.buffer).0;
    lemma_sends_all_at_the_end(ended);
    lemma_all_data_at_the_end(all_bytes(pieces), before, data);
    let second = converted(converted(start, data).converter, more);
    lemma_texts_in_parts(start, data, more, fresh(second.converter).finish().events);
    lemma_behind_none(ended.pending, sent(ended.all_converted().events));
}

/// At the end, the data of all events is the data that has been converted and the data at hand.
proof fn lemma_all_data_at_the_end(all: Seq<u8>, state: StreamView, data: Seq<Seq<char>>)
    requires
        data_of(events(all).0) == data + data_of(events(state.buffer).0),
        events(all).1 == events(state.buffer).1,
        all_have_data(events(all).0) ==> state.buffer == events(all).1,
        none_has_data(events(ready(state.ended().buffer).1).0),
    ensures
        data_of(events(all + closing(state.buffer)).0) == data + ready(state.ended().buffer).0,
{
    let more = ready(state.ended().buffer).0;
    assert(state.ended().buffer =~= state.buffer + closing(state.buffer));
    lemma_arrived(all, state.buffer, closing(state.buffer), data);
    lemma_ready_then_rest(state.ended().buffer);
    lemma_no_data(events(ready(state.ended().buffer).1).0);
    assert(more + Seq::<Seq<char>>::empty() =~= more);
}

/// The texts for some data, for more data and for what comes at the end.
proof fn lemma_texts_in_parts(
    start: ConverterView,
    data: Seq<Seq<char>>,
    more: Seq<Seq<char>>,
    end: Seq<EventView>,
)
    ensures
        ({
            let first = converted(start, data);
            let second = converted(first.converter, more);
            let all = converted(start, data + more);
            &&& all.converter == second.converter
            &&& sent(first.events) + sent(second.events + end) == sent(all.events) + sent(end)
        }),
{
    let first = converted(start, data);
    let second = converted(first.converter, more);
    lemma_converted_concat(start, data, more);
    lemma_sent_concat(first.events, second.events);
    lemma_sent_concat(second.events, end);
    lemma_texts_regrouped(sent(first.events), sent(second.events), sent(end));
}

proof fn lemma_texts_regrouped(a: Seq<Seq<char>>, b: Seq<Seq<char>>, c: Seq<Seq<char>>)
    ensures
        a + b + c == a + (b + c),
{
    assert(a + b + c =~= a + (b + c));
}

proof fn lemma_no_data(events: Seq<Seq<u8>>)
    requires
        none_has_data(events),
    ensures
        data_of(events) == Seq::<Seq<char>>::empty(),
    decreases events.len(),
{
    if events.len() > 0 {
        let fewer = events.drop_last();
        assert forall|i: int| 0 <= i < fewer.len() implies bytes_data(
            #[trigger] fewer[i],
        ) is None by {
            assert(fewer[i] == events[i]);
        }
        assert(events.last() == events[events.len() - 1]);
        lemma_no_data(fewer);
    }
}

/// What is left at the end is one event: all of it, but for a line feed, or an empty line that is
/// not complete, at its end.
pub proof fn lemma_rest_is_one_event(rest: Seq<u8>)
    requires
        next_event(rest) is None,
        rest.len() > 0,
    ensures
        ({
            let taken = events(rest + closing(rest)).0;
            let n = rest.len() as int;
            &&& taken.len() == 1
            &&& {
                ||| taken[0] == rest
                ||| taken[0] == rest.take(n - 1) && rest[n - 1] == LF
                ||| n >= 3 && taken[0] == rest.take(n - 3) && rest.skip(n - 3) == seq![CR, LF, CR]
            }
        }),
{
    let n = rest.len() as int;
    let all = rest + closing(rest);
    lemma_first_break(rest, 0);
    lemma_first_break(all, 0);
    assert(break_length(all, n) == 2);
    let k = first_break(all, 0)->0;
    assert(k <= n);
    assert(break_length(rest, k) == 0);
    let behind = all.skip(k + break_length(all, k));
    if k == n {
        assert(all.take(k) =~= rest);
    } else if break_length(all, k) == 2 {
        assert(k == n - 1);
        assert(all.take(k) =~= rest.take(n - 1));
    } else {
        assert(all[k + 2] == CR);
        assert(k == n - 3);
        assert(all.take(k) =~= rest.take(n - 3));
        assert(rest.skip(n - 3) =~= seq![CR, LF, CR]);
    }
    assert(behind.len() <= 1);
    lemma_first_break(behind, 0);
    assert(next_event(behind) is None);
    assert(events(behind).0 =~= seq![]);
    lemma_events_behind(all);
    assert(events(all).0 =~= seq![all.take(k)]);
}

/// The bytes of a response, what is left at the end made an event.
pub open spec fn terminated(bytes: Seq<u8>) -> Seq<u8> {
    bytes + closing(events(bytes).1)
}

/// If every event of a response has data, what a client gets depends on the bytes alone, and not on
/// the pieces in which they have arrived: the texts for the data of each event, in order, and then
/// those that end the message. What is left at the end counts as the last event.
pub proof fn lemma_whole_response(config: ConfigView, pieces: Seq<Seq<u8>>)
    requires
        all_have_data(events(terminated(all_bytes(pieces))).0),
    ensures
        ({
            let data = data_of(events(terminated(all_bytes(pieces))).0);
            let run = converted(ConverterView::new(config), data);
            let (state, texts) = completed(config, pieces);
            &&& texts == sent(run.events) + sent(fresh(run.converter).finish().events)
            &&& state.next().1 == StepView::End
        }),
{
    let bytes = all_bytes(pieces);
    let data = lemma_streamed(config, pieces);
    let before = streamed(config, pieces).0;
    lemma_first_have_data(bytes, closing(events(bytes).1));
    lemma_no_gap_at_the_end(bytes, before);
    lemma_completed(config, pieces);
}

/// If every event has data, none without data is in the buffer at the end.
proof fn lemma_no_gap_at_the_end(bytes: Seq<u8>, state: StreamView)
    requires
        state.buffer == events(bytes).1,
        all_have_data(events(terminated(bytes)).0),
    ensures
        none_has_data(events(ready(state.ended().buffer).1).0),
{
    let left = events(bytes).1;
    let last = left + closing(left);
    assert(state.ended().buffer =~= last);
    lemma_events_in_pieces(bytes, closing(left));
    let behind = events(last).0;
    assert forall|i: int| 0 <= i < behind.len() implies bytes_data(
        #[trigger] behind[i],
    ) is Some by {
        assert(events(terminated(bytes)).0[events(bytes).0.len() + i] == behind[i]);
    }
    lemma_ready_then_rest(last);
    lemma_nothing_behind(last);
}

/// If every event of a response has data, and nothing of the answer comes behind the data that
/// announces its end, a client gets a whole message: its events come in order, from the beginning
/// of the message to its end.
pub proof fn lemma_whole_message(config: ConfigView, pieces: Seq<Seq<u8>>)
    requires
        all_have_data(events(terminated(all_bytes(pieces))).0),
        ends_at_the_end(data_of(events(terminated(all_bytes(pieces))).0)),
    ensures
        ({
            let data = data_of(events(terminated(all_bytes(pieces))).0);
            let run = converted(ConverterView::new(config), data);
            let all = run.events + fresh(run.converter).finish().events;
            &&& completed(config, pieces).1 == sent(all)
            &&& Phase::Before.after_all(all) == Some(Phase::Over)
        }),
{
    let data = data_of(events(terminated(all_bytes(pieces))).0);
    let start = ConverterView::new(config);
    let run = converted(start, data);
    let end = fresh(run.converter).finish().events;
    lemma_whole_response(config, pieces);
    lemma_sent_concat(run.events, end);
    lemma_new_in_order(config);
    lemma_stream_in_order(start, data);
    lemma_finish_in_order(run.converter);
    lemma_after_all_concat(Phase::Before, run.events, end);
}

/// If all events of more bytes have data, so have those of the first bytes.
proof fn lemma_first_have_data(bytes: Seq<u8>, more: Seq<u8>)
    requires
        all_have_data(events(bytes + more).0),
    ensures
        all_have_data(events(bytes).0),
{
    lemma_events_in_pieces(bytes, more);
    let first = events(bytes).0;
    assert forall|i: int| 0 <= i < first.len() implies bytes_data(#[trigger] first[i]) is Some by {
        assert(events(bytes + more).0[i] == first[i]);
    }
}

/// No complete event is left behind the events of a buffer.
proof fn lemma_nothing_behind(buffer: Seq<u8>)
    ensures
        events(events(buffer).1).0.len() == 0,
        events(events(buffer).1).1 == events(buffer).1,
    decreases buffer.len(),
{
    if let Some((event, rest)) = next_event(buffer) {
        lemma_first_break(buffer, 0);
        lemma_nothing_behind(rest);
    }
}

/// Where the cuts between the pieces fall makes no difference.
pub proof fn lemma_cuts_do_not_matter(
    config: ConfigView,
    pieces: Seq<Seq<u8>>,
    others: Seq<Seq<u8>>,
)
    requires
        all_bytes(pieces) == all_bytes(others),
        all_have_data(events(terminated(all_bytes(pieces))).0),
    ensures
        completed(config, pieces).1 == completed(config, others).1,
{
    lemma_whole_response(config, pieces);
    lemma_whole_response(config, others);
}

/// If the upstream fails, a client gets the texts for the data of each event that is complete, the
/// report of the failure, and then the texts that end the message. Every event has to have data.
pub proof fn lemma_broken_off(config: ConfigView, pieces: Seq<Seq<u8>>, message: Seq<char>)
    requires
        all_have_data(events(all_bytes(pieces)).0),
    ensures
        ({
            let run = converted(
                ConverterView::new(config),
                data_of(events(all_bytes(pieces)).0),
            );
            let report = EventView::Error { message: "upstream stream failed: "@ + message };
            let (state, texts) = broken_off(config, pieces, message);
            &&& texts == sent(run.events).push(report.text()) + sent(
                fresh(run.converter).finish().events,
            )
            &&& state.next().1 == StepView::End
        }),
{
    let start = ConverterView::new(config);
    let data = lemma_streamed(config, pieces);
    let (before, texts) = streamed(config, pieces);
    let failed = before.failed(message);
    let bytes = all_bytes(pieces);
    lemma_nothing_behind(bytes);
    let left = events(bytes).1;
    assert(next_event(left) is None) by {
        lemma_events_behind(left);
    }
    assert(ready(failed.buffer) == (Seq::<Seq<char>>::empty(), left));
    lemma_no_data(events(left).0);
    assert(data + Seq::<Seq<char>>::empty() =~= data);
    lemma_sends_all_at_the_end(failed);
    let report = EventView::Error { message: "upstream stream failed: "@ + message };
    let run = converted(start, data);
    let end = fresh(run.converter).finish();
    assert(failed.pending =~= seq![report.text()]);
    assert(failed.all_converted().events =~= end.events);
    assert(sent(run.events) + (failed.pending + sent(end.events)) =~= sent(run.events).push(
        report.text(),
    ) + sent(end.events));
}

}
