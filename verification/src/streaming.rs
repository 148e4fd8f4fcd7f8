//! A streamed response: what to do next, given the bytes that have arrived.

use crate::converter::{fresh, AnthropicStreamConverter, ConverterView};
use crate::event::{sent, strings_view, EventView, StreamEvent};
use crate::request::{ConfigView, ResponseConfig};
use crate::sse::{
    event_data, extract_sse_data, lemma_first_break, lossy_text, next_event, take_sse_event, LF,
};
use std::collections::VecDeque;
use vstd::prelude::*;

verus! {

/// A response that is being streamed.
pub struct StreamingState {
    buffer: Vec<u8>,
    pending: VecDeque<String>,
    converter: AnthropicStreamConverter,
    upstream_done: bool,
}

/// What to do next with a streamed response.
#[derive(Debug, PartialEq, Eq)]
pub enum StreamStep {
    /// Send this text to the client.
    Send(String),
    /// Read on from the upstream.
    Read,
    /// End the response.
    End,
}

/// What a [`StreamStep`] stands for.
pub ghost enum StepView {
    Send(Seq<char>),
    Read,
    End,
}

impl View for StreamStep {
    type V = StepView;

    open spec fn view(&self) -> StepView {
        match *self {
            StreamStep::Send(text) => StepView::Send(text@),
            StreamStep::Read => StepView::Read,
            StreamStep::End => StepView::End,
        }
    }
}

/// What a [`StreamingState`] stands for: the bytes that are not converted yet, the texts that are
/// not sent yet, the converter, and whether the upstream has ended.
pub ghost struct StreamView {
    pub buffer: Seq<u8>,
    pub pending: Seq<Seq<char>>,
    pub converter: ConverterView,
    pub upstream_done: bool,
}

impl View for StreamingState {
    type V = StreamView;

    closed spec fn view(&self) -> StreamView {
        StreamView {
            buffer: self.buffer@,
            pending: strings_view(self.pending@),
            converter: self.converter@,
            upstream_done: self.upstream_done,
        }
    }
}

/// The data of an event, from its bytes.
pub open spec fn bytes_data(event: Seq<u8>) -> Option<Seq<char>> {
    event_data(lossy_text(event))
}

impl StreamView {
    /// A response of which nothing has arrived.
    pub open spec fn new(config: ConfigView) -> StreamView {
        StreamView {
            buffer: seq![],
            pending: seq![],
            converter: ConverterView::new(config),
            upstream_done: false,
        }
    }

    /// The texts for the data of an upstream event wait to be sent.
    pub open spec fn with_data(self, data: Seq<char>) -> StreamView {
        let run = fresh(self.converter).push_data(data);
        StreamView {
            converter: run.converter,
            pending: self.pending + sent(run.events),
            ..self
        }
    }

    /// The texts that end the message wait to be sent.
    pub open spec fn with_end(self) -> StreamView {
        let run = fresh(self.converter).finish();
        StreamView {
            converter: run.converter,
            pending: self.pending + sent(run.events),
            ..self
        }
    }

    /// Sends the first text that waits.
    pub open spec fn send(self) -> (StreamView, StepView) {
        (
            StreamView { pending: self.pending.drop_first(), ..self },
            StepView::Send(self.pending[0]),
        )
    }

    /// What to do when no data is at hand: read on, or end the message and the response.
    pub open spec fn idle(self) -> (StreamView, StepView) {
        if !self.upstream_done {
            (self, StepView::Read)
        } else if self.with_end().pending.len() == 0 {
            (self.with_end(), StepView::End)
        } else {
            self.with_end().send()
        }
    }

    /// What to do next: send what waits, else convert the events that are complete. An event
    /// without data is passed over, and more is read before the event behind it is taken.
    pub open spec fn next(self) -> (StreamView, StepView)
        decreases self.buffer.len(),
    {
        if self.pending.len() > 0 {
            self.send()
        } else {
            match next_event(self.buffer) {
                Some((event, rest)) => {
                    proof {
                        lemma_first_break(self.buffer, 0);
                    }
                    let taken = StreamView { buffer: rest, ..self };
                    match bytes_data(event) {
                        Some(data) => taken.with_data(data).next(),
                        None => taken.idle(),
                    }
                },
                None => self.idle(),
            }
        }
    }

    /// Bytes have arrived.
    pub open spec fn received(self, bytes: Seq<u8>) -> StreamView {
        StreamView { buffer: self.buffer + bytes, ..self }
    }

    /// The upstream has failed, of which the client is told.
    pub open spec fn failed(self, message: Seq<char>) -> StreamView {
        StreamView {
            pending: self.pending.push(
                (EventView::Error { message: "upstream stream failed: "@ + message }).text(),
            ),
            upstream_done: true,
            ..self
        }
    }

    /// The upstream has ended. An event that is not complete is taken as it stands.
    pub open spec fn ended(self) -> StreamView {
        StreamView {
            buffer: if self.buffer.len() > 0 {
                self.buffer + seq![LF, LF]
            } else {
                self.buffer
            },
            upstream_done: true,
            ..self
        }
    }
}

impl StreamingState {
    /// A response of which nothing has arrived.
    pub fn new(config: ResponseConfig) -> (result: StreamingState)
        ensures
            result@ == StreamView::new(config@),
    {
        let result = StreamingState {
            buffer: Vec::new(),
            pending: VecDeque::new(),
            converter: AnthropicStreamConverter::new(config),
            upstream_done: false,
        };
        assert(result@.pending =~= seq![]);
        result
    }

    /// Texts wait to be sent.
    fn enqueue(&mut self, texts: Vec<String>)
        ensures
            final(self)@ == (StreamView {
                pending: old(self)@.pending + strings_view(texts@),
                ..old(self)@
            }),
    {
        let ghost all = texts@;
        let ghost before = self@;
        for text in it: texts
            invariant
                it.seq() == all,
                self@ == (StreamView {
                    pending: before.pending + strings_view(all.take(it.index())),
                    ..before
                }),
        {
            let ghost earlier = self@.pending;
            self.pending.push_back(text);
            assert(self@.pending =~= earlier.push(text@));
            assert(self@.pending =~= before.pending + strings_view(all.take(it.index() + 1)));
        }
        assert(all.take(all.len() as int) =~= all);
        assert(self@.pending =~= before.pending + strings_view(all));
    }

    /// The first text that waits, if any does.
    fn dequeue(&mut self) -> (result: Option<String>)
        ensures
            match result {
                Some(text) => old(self)@.pending.len() > 0 && (final(self)@, StepView::Send(text@))
                    == old(self)@.send(),
                None => old(self)@.pending.len() == 0 && final(self)@ == old(self)@,
            },
    {
        let result = self.pending.pop_front();
        assert(result is Some ==> self@.pending =~= old(self)@.pending.drop_first());
        assert(result is None ==> self@.pending =~= old(self)@.pending);
        result
    }

    /// What to do next.
    pub fn next(&mut self) -> (result: StreamStep)
        ensures
            (final(self)@, result@) == old(self)@.next(),
    {
        let ghost start = self@;
        loop
            invariant
                self@.next() == start.next(),
                start == old(self)@,
            decreases self@.buffer.len(),
        {
            if let Some(text) = self.dequeue() {
                return StreamStep::Send(text);
            }
            proof {
                lemma_first_break(self@.buffer, 0);
            }
            let event = take_sse_event(&mut self.buffer);
            if let Some(event) = event {
                if let Some(data) = extract_sse_data(event.as_slice()) {
                    let texts = self.converter.push_data(data.as_str());
                    self.enqueue(texts);
                    continue;
                }
            }
            if !self.upstream_done {
                return StreamStep::Read;
            }
            let texts = self.converter.finish();
            self.enqueue(texts);
            return match self.dequeue() {
                Some(text) => StreamStep::Send(text),
                None => StreamStep::End,
            };
        }
    }

    /// Bytes have arrived.
    pub fn received(&mut self, bytes: &[u8])
        ensures
            final(self)@ == old(self)@.received(bytes@),
    {
        self.buffer.extend_from_slice(bytes);
        assert(self@.buffer =~= old(self)@.buffer + bytes@);
    }

    /// The upstream has failed, of which the client is told.
    pub fn failed(&mut self, message: &str)
        ensures
            final(self)@ == old(self)@.failed(message@),
    {
        let event = StreamEvent::Error {
            message: "upstream stream failed: ".to_string().concat(message),
        };
        let text = event.text();
        self.pending.push_back(text);
        self.upstream_done = true;
        assert(self@.pending =~= old(self)@.pending.push(text@));
    }

    /// The upstream has ended.
    pub fn ended(&mut self)
        ensures
            final(self)@ == old(self)@.ended(),
    {
        if self.buffer.len() > 0 {
            self.buffer.push(LF);
            self.buffer.push(LF);
            assert(self@.buffer =~= old(self)@.buffer + seq![LF, LF]);
        }
        self.upstream_done = true;
    }
}

}
