//! That an event which is written is read as that one event.

use crate::interop::is_bare_line;
use crate::sse::{
    break_length, event_data, event_lines, lemma_first_break_is, line_data, lines_data, next_event,
    sse_text, LF,
};
use crate::text::{begins_with, line_pieces, trimmed_start, without_trailing};
use vstd::prelude::*;
use vstd::utf8::{encode_scalar, encode_utf8};

verus! {

/// Text without line feeds.
pub open spec fn is_one_line(text: Seq<char>) -> bool {
    forall|i: int| 0 <= i < text.len() ==> text[i] != '\n'
}

/// Bytes without line feeds.
spec fn one_line_bytes(bytes: Seq<u8>) -> bool {
    forall|i: int| 0 <= i < bytes.len() ==> bytes[i] != LF
}

proof fn lemma_encode_concat(first: Seq<char>, rest: Seq<char>)
    ensures
        encode_utf8(first + rest) == encode_utf8(first) + encode_utf8(rest),
    decreases first.len(),
{
    if first.len() == 0 {
        assert(first + rest =~= rest);
        assert(encode_utf8(first) + encode_utf8(rest) =~= encode_utf8(rest));
    } else {
        assert((first + rest).drop_first() =~= first.drop_first() + rest);
        lemma_encode_concat(first.drop_first(), rest);
        assert(encode_utf8(first + rest) =~= encode_utf8(first) + encode_utf8(rest));
    }
}

proof fn lemma_encode_scalar_one_line(c: char)
    requires
        c != '\n',
    ensures
        one_line_bytes(encode_scalar(c as u32)),
        encode_scalar(c as u32).len() > 0,
{
    let s = c as u32;
    assert(s <= 0x7F ==> (s & 0x7F) as u8 == s) by (bit_vector);
    assert(0xC0u8 | (((s >> 6) & 0x1F) as u8) >= 0x80) by (bit_vector);
    assert(0xE0u8 | (((s >> 12) & 0x0F) as u8) >= 0x80) by (bit_vector);
    assert(0xF0u8 | (((s >> 18) & 0x7) as u8) >= 0x80) by (bit_vector);
    assert(0x80u8 | ((s & 0x3F) as u8) >= 0x80) by (bit_vector);
    assert(0x80u8 | (((s >> 6) & 0x3F) as u8) >= 0x80) by (bit_vector);
    assert(0x80u8 | (((s >> 12) & 0x3F) as u8) >= 0x80) by (bit_vector);
}

proof fn lemma_encode_one_line(text: Seq<char>)
    requires
        is_one_line(text),
    ensures
        one_line_bytes(encode_utf8(text)),
        text.len() > 0 ==> encode_utf8(text).len() > 0,
    decreases text.len(),
{
    if text.len() > 0 {
        lemma_encode_scalar_one_line(text[0]);
        lemma_encode_one_line(text.drop_first());
    }
}

proof fn lemma_encode_line_feed()
    ensures
        encode_utf8(seq!['\n']) == seq![LF],
{
    let s = '\n' as u32;
    assert((10u32 & 0x7F) as u8 == 10u8) by (bit_vector);
    assert(seq!['\n'].drop_first() =~= seq![]);
    assert(encode_utf8(seq!['\n'].drop_first()) =~= seq![]);
    assert(encode_utf8(seq!['\n']) =~= seq![LF]);
}

proof fn lemma_line_pieces_last(text: Seq<char>, line: Seq<char>)
    requires
        is_one_line(line),
    ensures
        line_pieces(text).len() > 0,
        line_pieces(text + line) == line_pieces(text).update(
            line_pieces(text).len() - 1,
            line_pieces(text).last() + line,
        ),
    decreases line.len(),
{
    lemma_line_pieces_nonempty(text);
    let pieces = line_pieces(text);
    if line.len() == 0 {
        assert(text + line =~= text);
        assert(pieces.last() + line =~= pieces.last());
        assert(pieces.update(pieces.len() - 1, pieces.last() + line) =~= pieces);
    } else {
        let shorter = line.drop_last();
        assert((text + line).drop_last() =~= text + shorter);
        lemma_line_pieces_last(text, shorter);
        assert((pieces.last() + shorter).push(line.last()) =~= pieces.last() + line);
        assert(line_pieces(text + line) =~= pieces.update(
            pieces.len() - 1,
            pieces.last() + line,
        ));
    }
}

proof fn lemma_line_pieces_nonempty(text: Seq<char>)
    ensures
        line_pieces(text).len() > 0,
    decreases text.len(),
{
    if text.len() > 0 {
        lemma_line_pieces_nonempty(text.drop_last());
    }
}

proof fn lemma_two_lines(first: Seq<char>, second: Seq<char>)
    requires
        is_one_line(first),
        is_one_line(second),
    ensures
        line_pieces(first.push('\n') + second) == seq![first, second],
{
    let empty: Seq<char> = seq![];
    lemma_line_pieces_last(empty, first);
    assert(empty + first =~= first);
    assert(line_pieces(first) =~= seq![first]);
    assert(first.push('\n').drop_last() =~= first);
    assert(line_pieces(first.push('\n')) =~= seq![first, empty]);
    lemma_line_pieces_last(first.push('\n'), second);
    assert(empty + second =~= second);
    assert(line_pieces(first.push('\n') + second) =~= seq![first, second]);
}

/// The two lines of an event.
spec fn name_line(event: Seq<char>) -> Seq<char> {
    "event: "@ + event
}

spec fn data_line(data: Seq<char>) -> Seq<char> {
    "data: "@ + data
}

proof fn lemma_event_lines(event: Seq<char>, data: Seq<char>)
    requires
        is_one_line(event),
        is_bare_line(data),
    ensures
        event_lines(event, data) == name_line(event).push('\n') + data_line(data),
        is_one_line(name_line(event)),
        is_one_line(data_line(data)),
{
    reveal_strlit("event: ");
    reveal_strlit("data: ");
    reveal_strlit("\ndata: ");
    assert("\ndata: "@ =~= seq!['\n'] + "data: "@);
    assert(event_lines(event, data) =~= name_line(event).push('\n') + data_line(data));
}

/// A text that begins with another character still does so without the copies of `c` at its end.
proof fn lemma_keeps_first(text: Seq<char>, c: char)
    requires
        text.len() > 0,
        text[0] != c,
    ensures
        without_trailing(text, c).len() > 0,
        without_trailing(text, c)[0] == text[0],
    decreases text.len(),
{
    if text.last() == c {
        lemma_keeps_first(text.drop_last(), c);
    }
}

/// The data of an event is read back from its lines.
pub proof fn lemma_event_data_read_back(event: Seq<char>, data: Seq<char>)
    requires
        is_one_line(event),
        is_bare_line(data),
    ensures
        event_data(event_lines(event, data)) == Some(data),
{
    let first = name_line(event);
    let second = data_line(data);
    lemma_event_lines(event, data);
    lemma_two_lines(first, second);
    reveal_strlit("event: ");
    reveal_strlit("data: ");
    reveal_strlit("data:");
    assert(line_data(first) is None) by {
        let line = without_trailing(first, '\r');
        lemma_keeps_first(first, '\r');
        assert(line[0] == 'e');
        if begins_with(line, "data:"@) {
            assert(line.subrange(0, 5)[0] == "data:"@[0]);
        }
    }
    assert(line_data(second) == Some(data)) by {
        assert(without_trailing(second, '\r') == second);
        assert(second.subrange(0, 5) =~= "data:"@);
        let rest = second.skip(5);
        assert(rest =~= seq![' '] + data);
        assert(rest.skip(1) =~= data);
        assert(trimmed_start(data) == data);
    }
    let lines = seq![first, second];
    assert(lines.drop_last() =~= seq![first]);
    assert(seq![first].drop_last() =~= seq![]);
    assert(lines_data(seq![first].drop_last()) =~= seq![]);
    assert(lines_data(seq![first]) =~= seq![]);
    assert(lines_data(lines) =~= seq![data]);
}

/// The bytes of the data line begin with a letter.
proof fn lemma_encode_data_line(data: Seq<char>)
    ensures
        encode_utf8(data_line(data)).len() > 0,
        encode_utf8(data_line(data))[0] == 100,
{
    reveal_strlit("data: ");
    assert(data_line(data)[0] == 'd');
    assert((100u32 & 0x7F) as u8 == 100u8) by (bit_vector);
}

/// An event that is written is one event, with nothing behind it, and reading its lines gives the
/// data back.
pub proof fn lemma_written_event_is_one_event(event: Seq<char>, data: Seq<char>)
    requires
        is_one_line(event),
        is_bare_line(data),
    ensures
        next_event(encode_utf8(sse_text(event, data))) == Some(
            (encode_utf8(event_lines(event, data)), Seq::<u8>::empty()),
        ),
        event_data(event_lines(event, data)) == Some(data),
{
    lemma_event_data_read_back(event, data);
    lemma_event_lines(event, data);
    reveal_strlit("\n\n");
    reveal_strlit("data: ");
    let first = name_line(event);
    let second = data_line(data);
    let text = event_lines(event, data);
    let break_text = seq!['\n'];
    assert("\n\n"@ =~= break_text + break_text);
    assert(first.push('\n') =~= first + break_text);
    lemma_encode_concat(first + break_text, second);
    lemma_encode_concat(first, break_text);
    lemma_encode_concat(text, "\n\n"@);
    lemma_encode_concat(break_text, break_text);
    lemma_encode_line_feed();
    lemma_encode_one_line(first);
    lemma_encode_one_line(second);
    let a = encode_utf8(first);
    let b = encode_utf8(second);
    let lines = encode_utf8(text);
    let all = encode_utf8(sse_text(event, data));
    assert(lines =~= a + seq![LF] + b);
    assert(all =~= lines + seq![LF, LF]);
    let n = lines.len() as int;
    assert(all[n] == LF && all[n + 1] == LF);
    lemma_encode_data_line(data);
    assert forall|j: int| 0 <= j < n implies break_length(all, j) == 0 by {
        assert(all[j] == lines[j]);
        if j < a.len() {
            assert(all[j] == a[j]);
            assert(j + 1 < a.len() ==> all[j + 1] == a[j + 1]);
            assert(all[a.len() as int + 1] == b[0]);
        } else if j == a.len() {
            assert(all[j + 1] == b[0]);
        } else {
            assert(all[j] == b[j - a.len() - 1]);
        }
    }
    lemma_first_break_is(all, 0, n);
    assert(all.take(n) =~= lines);
    assert(all.skip(n + 2) =~= seq![]);
}

}
