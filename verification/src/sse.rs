//! Server-sent events: cutting a byte stream into events, reading their data and writing them.

use crate::framing::{is_one_line, lemma_written_event_is_one_event};
use crate::interop::{json_text, print};
use crate::json::Json;
use crate::text::{
    after_prefix, line_pieces, on_lines, push_line_feed, split_lines, strip_prefix,
    trim_end_char, trim_start, trimmed_start, without_trailing,
};
use vstd::prelude::*;
use vstd::utf8::{decode_utf8, encode_utf8, valid_utf8};

verus! {

/// The byte that ends a line.
pub const LF: u8 = 10;

/// The byte that may stand before the end of a line.
pub const CR: u8 = 13;

/// The length of the empty line that ends an event at `i`: two line feeds, or the same with a
/// carriage return before each. Zero if none stands there.
pub open spec fn break_length(buffer: Seq<u8>, i: int) -> int {
    if 0 <= i && i + 2 <= buffer.len() && buffer[i] == LF && buffer[i + 1] == LF {
        2
    } else if 0 <= i && i + 4 <= buffer.len() && buffer[i] == CR && buffer[i + 1] == LF && buffer[i
        + 2] == CR && buffer[i + 3] == LF {
        4
    } else {
        0
    }
}

/// The first place at or after `i` where an event ends.
pub open spec fn first_break(buffer: Seq<u8>, i: int) -> Option<int>
    decreases buffer.len() - i,
{
    if i >= buffer.len() {
        None
    } else if break_length(buffer, i) > 0 {
        Some(i)
    } else {
        first_break(buffer, i + 1)
    }
}

/// The first event in the buffer and what follows it, if the event is complete.
pub open spec fn next_event(buffer: Seq<u8>) -> Option<(Seq<u8>, Seq<u8>)> {
    match first_break(buffer, 0) {
        Some(i) => Some((buffer.take(i), buffer.skip(i + break_length(buffer, i)))),
        None => None,
    }
}

/// The complete events in the buffer, and what is left behind them.
pub open spec fn events(buffer: Seq<u8>) -> (Seq<Seq<u8>>, Seq<u8>)
    decreases buffer.len(),
{
    match next_event(buffer) {
        Some((event, rest)) => {
            proof {
                lemma_first_break(buffer, 0);
            }
            (seq![event] + events(rest).0, events(rest).1)
        },
        None => (seq![], buffer),
    }
}

/// What `String::from_utf8_lossy` makes of bytes.
pub uninterp spec fn lossy_text(bytes: Seq<u8>) -> Seq<char>;

/// The data in a line of an event.
pub open spec fn line_data(line: Seq<char>) -> Option<Seq<char>> {
    match after_prefix(without_trailing(line, '\r'), "data:"@) {
        Some(data) => Some(trimmed_start(data)),
        None => None,
    }
}

/// The data in the lines of an event.
pub open spec fn lines_data(lines: Seq<Seq<char>>) -> Seq<Seq<char>>
    decreases lines.len(),
{
    if lines.len() == 0 {
        seq![]
    } else {
        match line_data(lines.last()) {
            Some(data) => lines_data(lines.drop_last()).push(data),
            None => lines_data(lines.drop_last()),
        }
    }
}

/// The data of an event: what its data lines hold, each on a line of its own.
pub open spec fn event_data(event: Seq<char>) -> Option<Seq<char>> {
    let data = lines_data(line_pieces(event));
    if data.len() == 0 {
        None
    } else {
        Some(on_lines(data))
    }
}

/// The lines of an event.
pub open spec fn event_lines(event: Seq<char>, data: Seq<char>) -> Seq<char> {
    "event: "@ + event + "\ndata: "@ + data
}

/// An event with its name and its data.
pub open spec fn sse_text(event: Seq<char>, data: Seq<char>) -> Seq<char> {
    event_lines(event, data) + "\n\n"@
}

/// `String::from_utf8_lossy`. The text depends on the bytes alone, and bytes that are UTF-8 are
/// decoded as they stand. Nothing is stated of what replaces other bytes.
#[verifier::external_body]
fn decode_lossy(bytes: &[u8]) -> (result: String)
    ensures
        result@ == lossy_text(bytes@),
        valid_utf8(bytes@) ==> result@ == decode_utf8(bytes@),
{
    String::from_utf8_lossy(bytes).into_owned()
}

/// Takes the first complete event out of the buffer.
pub fn take_sse_event(buffer: &mut Vec<u8>) -> (result: Option<Vec<u8>>)
    ensures
        match next_event(old(buffer)@) {
            Some((event, rest)) => result matches Some(taken) && taken@ == event && final(buffer)@
                == rest,
            None => result is None && final(buffer)@ == old(buffer)@,
        },
{
    let mut i: usize = 0;
    while i < buffer.len()
        invariant
            i <= buffer.len(),
            *buffer == *old(buffer),
            first_break(buffer@, i as int) == first_break(buffer@, 0),
        decreases buffer.len() - i,
    {
        let left = buffer.len() - i;
        let length: usize = if left >= 2 && buffer[i] == LF && buffer[i + 1] == LF {
            2
        } else if left >= 4 && buffer[i] == CR && buffer[i + 1] == LF && buffer[i + 2] == CR
            && buffer[i + 3] == LF {
            4
        } else {
            0
        };
        if length > 0 {
            let mut event = buffer.split_off(i + length);
            std::mem::swap(buffer, &mut event);
            event.truncate(i);
            assert(event@ =~= old(buffer)@.take(i as int));
            assert(buffer@ =~= old(buffer)@.skip(i + length));
            return Some(event);
        }
        i += 1;
    }
    None
}

/// The data of an event.
pub fn event_text_data(text: &str) -> (result: Option<String>)
    ensures
        match result {
            Some(data) => event_data(text@) == Some(data@),
            None => event_data(text@) is None,
        },
{
    let pieces = split_lines(text);
    let ghost views = line_pieces(text@);
    let ghost mut found: Seq<Seq<char>> = seq![];
    let mut data: Option<String> = None;
    for i in 0..pieces.len()
        invariant
            views == line_pieces(text@),
            pieces.len() == views.len(),
            forall|j: int| 0 <= j < pieces.len() ==> (#[trigger] pieces@[j])@ == views[j],
            found == lines_data(views.take(i as int)),
            match data {
                Some(data) => found.len() > 0 && data@ == on_lines(found),
                None => found.len() == 0,
            },
    {
        assert(views.take(i + 1).drop_last() =~= views.take(i as int));
        assert(pieces@[i as int]@ == views[i as int]);
        if let Some(rest) = strip_prefix(trim_end_char(pieces[i], '\r'), "data:") {
            let line = trim_start(rest);
            let ghost before = found;
            proof {
                found = before.push(line@);
                assert(found.drop_last() =~= before);
            }
            data = match data {
                Some(text) => {
                    let mut text = text;
                    push_line_feed(&mut text);
                    let text = text.concat(line);
                    assert(text@ =~= on_lines(before) + seq!['\n'] + line@);
                    Some(text)
                },
                None => Some(line.to_string()),
            };
        }
    }
    assert(views.take(views.len() as int) =~= views);
    data
}

/// The data of an event, whose bytes should be UTF-8.
pub fn extract_sse_data(event: &[u8]) -> (result: Option<String>)
    ensures
        match result {
            Some(data) => event_data(lossy_text(event@)) == Some(data@),
            None => event_data(lossy_text(event@)) is None,
        },
        valid_utf8(event@) ==> match result {
            Some(data) => event_data(decode_utf8(event@)) == Some(data@),
            None => event_data(decode_utf8(event@)) is None,
        },
{
    let text = decode_lossy(event);
    event_text_data(text.as_str())
}

/// Writes an event with the given data.
pub fn event_text(event: &str, data: &str) -> (result: String)
    ensures
        result@ == sse_text(event@, data@),
{
    "event: ".to_string().concat(event).concat("\ndata: ").concat(data).concat("\n\n")
}

/// Writes an event whose data is JSON. A client reads it as one event with that data.
pub fn format_sse(event: &str, data: &Json) -> (result: String)
    ensures
        result@ == sse_text(event@, json_text(data@)),
        is_one_line(event@) ==> next_event(encode_utf8(result@)) == Some(
            (encode_utf8(event_lines(event@, json_text(data@))), Seq::<u8>::empty()),
        ) && event_data(event_lines(event@, json_text(data@))) == Some(json_text(data@)),
{
    let data = print(data);
    proof {
        if is_one_line(event@) {
            lemma_written_event_is_one_event(event@, data@);
        }
    }
    event_text(event, data.as_str())
}

/// Where the first break is found, and that there is none before it.
pub proof fn lemma_first_break(buffer: Seq<u8>, i: int)
    requires
        0 <= i,
    ensures
        match first_break(buffer, i) {
            Some(k) => i <= k < buffer.len() && break_length(buffer, k) > 0 && k + break_length(
                buffer,
                k,
            ) <= buffer.len() && forall|j: int| i <= j < k ==> break_length(buffer, j) == 0,
            None => forall|j: int| i <= j ==> break_length(buffer, j) == 0,
        },
    decreases buffer.len() - i,
{
    if i < buffer.len() && break_length(buffer, i) == 0 {
        lemma_first_break(buffer, i + 1);
    }
}

/// The first break is the one with no other before it.
pub proof fn lemma_first_break_is(buffer: Seq<u8>, i: int, k: int)
    requires
        0 <= i <= k,
        break_length(buffer, k) > 0,
        forall|j: int| i <= j < k ==> break_length(buffer, j) == 0,
    ensures
        first_break(buffer, i) == Some(k),
    decreases k - i,
{
    if i < k {
        assert(break_length(buffer, i) == 0);
        lemma_first_break_is(buffer, i + 1, k);
    }
}

/// An event that is taken, its break and the rest are the buffer, and nothing in the event is a
/// break.
pub proof fn lemma_next_event_parts(buffer: Seq<u8>)
    ensures
        match next_event(buffer) {
            Some((event, rest)) => {
                let n = break_length(buffer, event.len() as int);
                &&& n > 0
                &&& buffer == event + buffer.subrange(
                    event.len() as int,
                    event.len() + n,
                ) + rest
                &&& first_break(event, 0) is None
            },
            None => forall|i: int| break_length(buffer, i) == 0,
        },
{
    lemma_first_break(buffer, 0);
    if let Some((event, rest)) = next_event(buffer) {
        let n = break_length(buffer, event.len() as int);
        assert(buffer =~= event + buffer.subrange(event.len() as int, event.len() + n) + rest);
        lemma_first_break(event, 0);
        if let Some(k) = first_break(event, 0) {
            assert(break_length(buffer, k) > 0);
        }
    }
}

/// Bytes that arrive later do not change the event that is taken.
pub proof fn lemma_next_event_stable(buffer: Seq<u8>, more: Seq<u8>)
    ensures
        match next_event(buffer) {
            Some((event, rest)) => next_event(buffer + more) == Some((event, rest + more)),
            None => true,
        },
{
    lemma_first_break(buffer, 0);
    if let Some(k) = first_break(buffer, 0) {
        let all = buffer + more;
        let n = break_length(buffer, k);
        assert forall|j: int| 0 <= j < k implies break_length(all, j) == 0 by {
            assert(break_length(buffer, j) == 0);
            if j + 4 <= buffer.len() {
            } else {
                assert(k <= j + 2);
                assert(all[k] == buffer[k]);
                assert(all[k + 1] == buffer[k + 1]);
            }
        }
        lemma_first_break_is(all, 0, k);
        assert(all.take(k) =~= buffer.take(k));
        assert(all.skip(k + n) =~= buffer.skip(k + n) + more);
    }
}

/// It does not matter in which pieces bytes arrive: taking the events of one piece and then those
/// of what was left with the next piece gives the events of both pieces together.
pub proof fn lemma_events_in_pieces(buffer: Seq<u8>, more: Seq<u8>)
    ensures
        events(buffer + more).0 == events(buffer).0 + events(events(buffer).1 + more).0,
        events(buffer + more).1 == events(events(buffer).1 + more).1,
    decreases buffer.len(),
{
    lemma_first_break(buffer, 0);
    lemma_next_event_stable(buffer, more);
    match next_event(buffer) {
        Some((event, rest)) => {
            lemma_events_in_pieces(rest, more);
            assert(events(buffer + more).0 =~= seq![event] + events(rest + more).0);
            assert(events(buffer + more).0 =~= events(buffer).0 + events(
                events(buffer).1 + more,
            ).0);
        },
        None => {
            assert(events(buffer).0 + events(buffer + more).0 =~= events(buffer + more).0);
        },
    }
}

}
