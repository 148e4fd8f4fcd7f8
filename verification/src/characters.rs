//! What the operations on text leave of a text and what they take away.

use crate::text::{
    after_prefix, appended, ascii_lower, begins_with, contains_text, decimal, index_of,
    is_white_space, joined, lemma_index_of, line_pieces, occurs_at, on_lines, split_at_first,
    trimmed, trimmed_end, trimmed_start, without_leading, without_trailing,
};
use crate::thinking::{normalized, raw_split};
use vstd::prelude::*;

verus! {

/// White space is a tab, a line feed, a line tabulation, a form feed, a carriage return, a space,
/// or one of the spaces and separators that Unicode has beyond ASCII.
pub proof fn lemma_white_space(c: char)
    ensures
        is_white_space(c) <==> {
            let code = c as u32;
            ||| 9 <= code <= 13
            ||| code == 32
            ||| code == 133
            ||| code == 160
            ||| code == 5760
            ||| 8192 <= code <= 8202
            ||| code == 8232
            ||| code == 8233
            ||| code == 8239
            ||| code == 8287
            ||| code == 12288
        },
{
}

/// Every character is white space.
pub open spec fn all_white(s: Seq<char>) -> bool {
    forall|i: int| 0 <= i < s.len() ==> is_white_space(#[trigger] s[i])
}

/// What is trimmed at the start is white space, and all of it.
pub proof fn lemma_trimmed_start(s: Seq<char>) -> (white: Seq<char>)
    ensures
        s == white + trimmed_start(s),
        all_white(white),
        trimmed_start(s).len() > 0 ==> !is_white_space(trimmed_start(s)[0]),
    decreases s.len(),
{
    if s.len() > 0 && is_white_space(s[0]) {
        let white = lemma_trimmed_start(s.skip(1));
        let all = seq![s[0]] + white;
        assert forall|i: int| 0 <= i < all.len() implies is_white_space(#[trigger] all[i]) by {
            if i > 0 {
                assert(all[i] == white[i - 1]);
            }
        }
        assert(s =~= all + trimmed_start(s)) by {
            assert(s =~= seq![s[0]] + s.skip(1));
        }
        all
    } else {
        assert(s =~= Seq::<char>::empty() + s);
        seq![]
    }
}

/// What is trimmed at the end is white space, and all of it.
pub proof fn lemma_trimmed_end(s: Seq<char>) -> (white: Seq<char>)
    ensures
        s == trimmed_end(s) + white,
        all_white(white),
        trimmed_end(s).len() > 0 ==> !is_white_space(trimmed_end(s).last()),
    decreases s.len(),
{
    if s.len() > 0 && is_white_space(s.last()) {
        let white = lemma_trimmed_end(s.drop_last());
        let all = white.push(s.last());
        assert(s =~= trimmed_end(s) + all) by {
            assert(s =~= s.drop_last().push(s.last()));
        }
        all
    } else {
        assert(s =~= s + Seq::<char>::empty());
        seq![]
    }
}

/// Trimming leaves everything between the white space at the two ends.
pub proof fn lemma_trimmed(s: Seq<char>) -> (white: (Seq<char>, Seq<char>))
    ensures
        s == white.0 + trimmed(s) + white.1,
        all_white(white.0),
        all_white(white.1),
        trimmed(s).len() > 0 ==> !is_white_space(trimmed(s)[0]) && !is_white_space(
            trimmed(s).last(),
        ),
{
    let first = lemma_trimmed_start(s);
    let last = lemma_trimmed_end(trimmed_start(s));
    assert(s =~= first + trimmed(s) + last);
    if trimmed(s).len() > 0 {
        assert(trimmed(s)[0] == trimmed_start(s)[0]);
    }
    (first, last)
}

/// Only copies of the character are taken away at the end, and all of them.
pub proof fn lemma_without_trailing(s: Seq<char>, c: char) -> (copies: Seq<char>)
    ensures
        s == without_trailing(s, c) + copies,
        forall|i: int| 0 <= i < copies.len() ==> copies[i] == c,
        without_trailing(s, c).len() > 0 ==> without_trailing(s, c).last() != c,
    decreases s.len(),
{
    if s.len() > 0 && s.last() == c {
        let copies = lemma_without_trailing(s.drop_last(), c);
        let all = copies.push(c);
        assert(s =~= without_trailing(s, c) + all) by {
            assert(s =~= s.drop_last().push(c));
        }
        all
    } else {
        assert(s =~= s + Seq::<char>::empty());
        seq![]
    }
}

/// A pattern stands at a place exactly if the text is what stands before it, the pattern, and what
/// stands behind it.
pub proof fn lemma_occurs_at(before: Seq<char>, pattern: Seq<char>, after: Seq<char>)
    ensures
        occurs_at(before + pattern + after, pattern, before.len() as int),
{
    let all = before + pattern + after;
    assert(all.subrange(before.len() as int, (before.len() + pattern.len()) as int) =~= pattern);
}

proof fn lemma_occurs_parts(s: Seq<char>, pattern: Seq<char>, i: int)
    requires
        occurs_at(s, pattern, i),
    ensures
        s == s.take(i) + pattern + s.skip(i + pattern.len()),
{
    assert(s =~= s.take(i) + s.subrange(i, i + pattern.len()) + s.skip(i + pattern.len()));
}

/// A prefix that is taken away was there, and one that is there is taken away.
pub proof fn lemma_after_prefix(s: Seq<char>, pattern: Seq<char>, rest: Seq<char>)
    ensures
        after_prefix(s, pattern) == Some(rest) <==> s == pattern + rest,
        after_prefix(pattern + rest, pattern) == Some(rest),
        begins_with(pattern + rest, pattern),
        begins_with(s, pattern) ==> s == pattern + s.skip(pattern.len() as int),
{
    let none = Seq::<char>::empty();
    lemma_occurs_at(none, pattern, rest);
    assert(none + pattern + rest =~= pattern + rest);
    assert((pattern + rest).skip(pattern.len() as int) =~= rest);
    if begins_with(s, pattern) {
        lemma_occurs_parts(s, pattern, 0);
        assert(s.take(0) + pattern + s.skip(pattern.len() as int) =~= pattern + s.skip(
            pattern.len() as int,
        ));
    }
}

/// A text that begins with the pattern loses it, and nothing else is taken away.
pub proof fn lemma_without_leading(rest: Seq<char>, pattern: Seq<char>)
    requires
        pattern.len() > 0,
    ensures
        without_leading(pattern + rest, pattern) == without_leading(rest, pattern),
        (forall|other: Seq<char>| rest != #[trigger] (pattern + other)) ==> without_leading(
            rest,
            pattern,
        ) == rest,
{
    lemma_after_prefix(rest, pattern, rest.skip(pattern.len() as int));
    lemma_after_prefix(pattern + rest, pattern, rest);
    assert((pattern + rest).skip(pattern.len() as int) =~= rest);
    if begins_with(rest, pattern) {
        assert(rest == pattern + rest.skip(pattern.len() as int));
    }
}

/// A text is split at the first place where the pattern stands in it, and at no other; nothing of
/// it is lost.
pub proof fn lemma_split_at_first(s: Seq<char>, pattern: Seq<char>)
    ensures
        match split_at_first(s, pattern) {
            Some((before, after)) => {
                &&& s == before + pattern + after
                &&& forall|p: Seq<char>, q: Seq<char>|
                    s == #[trigger] (p + pattern + q) ==> before.len() <= p.len()
            },
            None => forall|p: Seq<char>, q: Seq<char>| s != #[trigger] (p + pattern + q),
        },
{
    lemma_index_of(s, pattern);
    if let Some(i) = index_of(s, pattern) {
        lemma_occurs_parts(s, pattern, i);
    }
    assert forall|p: Seq<char>, q: Seq<char>| s == #[trigger] (p + pattern + q) implies occurs_at(
        s,
        pattern,
        p.len() as int,
    ) by {
        lemma_occurs_at(p, pattern, q);
    }
}

/// A text holds a pattern exactly if it can be written around it.
pub proof fn lemma_contains_text(s: Seq<char>, pattern: Seq<char>)
    ensures
        contains_text(s, pattern) <==> exists|p: Seq<char>, q: Seq<char>|
            s == #[trigger] (p + pattern + q),
{
    if contains_text(s, pattern) {
        let i = choose|i: int| occurs_at(s, pattern, i);
        lemma_occurs_parts(s, pattern, i);
        assert(s == s.take(i) + pattern + s.skip(i + pattern.len()));
    }
    if exists|p: Seq<char>, q: Seq<char>| s == #[trigger] (p + pattern + q) {
        let (p, q) = choose|p: Seq<char>, q: Seq<char>| s == #[trigger] (p + pattern + q);
        lemma_occurs_at(p, pattern, q);
        assert(occurs_at(s, pattern, p.len() as int));
    }
}

/// Each ASCII letter becomes the small letter, and every other character stays.
pub proof fn lemma_ascii_lower(s: Seq<char>, i: int)
    requires
        0 <= i < s.len(),
    ensures
        ascii_lower(s).len() == s.len(),
        65 <= s[i] as u32 <= 90 ==> ascii_lower(s)[i] as u32 == s[i] as u32 + 32,
        !(65 <= s[i] as u32 <= 90) ==> ascii_lower(s)[i] == s[i],
{
}

/// A number of one digit is that digit, and a number with one more digit is written with that digit
/// behind.
pub proof fn lemma_decimal(n: nat, d: nat)
    requires
        d < 10,
    ensures
        decimal(d).len() == 1,
        decimal(d)[0] as u32 == 48 + d,
        n > 0 ==> decimal(10 * n + d) == decimal(n) + decimal(d),
{
    if n > 0 {
        assert((10 * n + d) / 10 == n && (10 * n + d) % 10 == d) by (nonlinear_arith)
            requires
                d < 10,
        ;
        assert(decimal(10 * n + d) =~= decimal(n) + decimal(d));
    }
}

/// The pieces between the line feeds, put together with line feeds, are the text, and no line feed
/// is in one of them.
pub proof fn lemma_line_pieces(s: Seq<char>)
    ensures
        joined(line_pieces(s), seq!['\n']) == s,
        line_pieces(s).len() > 0,
        forall|i: int, j: int|
            0 <= i < line_pieces(s).len() && 0 <= j < line_pieces(s)[i].len() ==> #[trigger]
            line_pieces(s)[i][j] != '\n',
    decreases s.len(),
{
    let feed = seq!['\n'];
    if s.len() > 0 {
        let fewer = s.drop_last();
        lemma_line_pieces(fewer);
        let before = line_pieces(fewer);
        let pieces = line_pieces(s);
        if s.last() == '\n' {
            assert(pieces.drop_last() =~= before);
            assert(joined(pieces, feed) =~= s);
            assert forall|i: int, j: int|
                0 <= i < pieces.len() && 0 <= j < pieces[i].len() implies #[trigger] pieces[i][j]
                != '\n' by {
                if i < before.len() {
                    assert(before[i][j] != '\n');
                }
            }
        } else {
            assert(pieces.drop_last() =~= before.drop_last());
            assert(pieces.last() =~= before.last().push(s.last()));
            if before.len() == 1 {
                assert(joined(pieces, feed) =~= s);
            } else {
                let head = joined(before.drop_last(), feed) + feed;
                assert(joined(before, feed) == head + before.last());
                assert(joined(pieces, feed) == head + pieces.last());
                assert(head + before.last().push(s.last()) =~= (head + before.last()).push(
                    s.last(),
                ));
                assert(s =~= fewer.push(s.last()));
            }
            assert forall|i: int, j: int|
                0 <= i < pieces.len() && 0 <= j < pieces[i].len() implies #[trigger] pieces[i][j]
                != '\n' by {
                if i < before.len() - 1 {
                    assert(before[i][j] != '\n');
                } else if j < before.last().len() {
                    assert(before[before.len() - 1][j] != '\n');
                }
            }
        }
    }
}

/// Putting parts together leaves nothing out and puts the separator between each two.
pub proof fn lemma_joined(parts: Seq<Seq<char>>, last: Seq<char>, separator: Seq<char>)
    ensures
        joined(Seq::<Seq<char>>::empty(), separator) == Seq::<char>::empty(),
        joined(seq![last], separator) == last,
        parts.len() > 0 ==> joined(parts.push(last), separator) == joined(parts, separator)
            + separator + last,
        on_lines(parts) == joined(parts, seq!['\n']),
{
    assert(parts.push(last).drop_last() =~= parts);
}

/// A text that is appended stands at the end; if there is something before it and in it, on a line
/// of its own.
pub proof fn lemma_appended(target: Seq<char>, text: Seq<char>)
    ensures
        appended(target, None) == target,
        target.len() > 0 && text.len() > 0 ==> appended(target, Some(text)) == target + seq!['\n']
            + text,
        target.len() == 0 ==> appended(target, Some(text)) == text,
        text.len() == 0 ==> appended(target, Some(text)) == target,
{
    assert(target.push('\n') + text =~= target + seq!['\n'] + text);
    if target.len() == 0 {
        assert(target + text =~= text);
    }
    if text.len() == 0 {
        assert(target + text =~= target);
    }
}

/// The opening tag of reasoning.
pub open spec fn has_opening_tag(text: Seq<char>) -> bool {
    exists|white: Seq<char>, rest: Seq<char>|
        all_white(white) && text == #[trigger] (white + "<think>"@ + rest)
}

/// Nothing of the reasoning is lost: the text is the reasoning, with white space around it and, if
/// it begins with an opening tag, that tag and white space before.
pub proof fn lemma_reasoning_is_kept(text: Seq<char>) -> (white: (Seq<char>, Seq<char>, Seq<char>))
    ensures
        all_white(white.0),
        all_white(white.1),
        all_white(white.2),
        has_opening_tag(text) ==> text == white.0 + "<think>"@ + white.1 + normalized(text)
            + white.2,
        !has_opening_tag(text) ==> text == white.0 + white.1 + normalized(text) + white.2,
        normalized(text).len() > 0 ==> !is_white_space(normalized(text)[0]) && !is_white_space(
            normalized(text).last(),
        ),
{
    let tag = "<think>"@;
    let first = lemma_trimmed_start(text);
    let inner = trimmed_start(text);
    lemma_opening_tag(text, first);
    match after_prefix(inner, tag) {
        Some(rest) => {
            lemma_after_prefix(inner, tag, rest);
            let (a, b) = lemma_trimmed(rest);
            assert(first + tag + rest =~= first + (tag + rest));
            assert(first + tag + a + normalized(text) + b =~= text);
            (first, a, b)
        },
        None => {
            let (a, b) = lemma_trimmed(inner);
            assert(first + a + normalized(text) + b =~= text);
            (first, a, b)
        },
    }
}

/// There is an opening tag exactly if what is left without the white space at the start begins with
/// it.
proof fn lemma_opening_tag(text: Seq<char>, first: Seq<char>)
    requires
        text == first + trimmed_start(text),
        all_white(first),
        trimmed_start(text).len() > 0 ==> !is_white_space(trimmed_start(text)[0]),
    ensures
        has_opening_tag(text) <==> after_prefix(trimmed_start(text), "<think>"@) is Some,
{
    let tag = "<think>"@;
    let inner = trimmed_start(text);
    reveal_strlit("<think>");
    assert(tag.len() == 7 && tag[0] == '<');
    if let Some(rest) = after_prefix(inner, tag) {
        lemma_after_prefix(inner, tag, rest);
        assert(first + tag + rest =~= first + (tag + rest));
        assert(text == first + tag + rest);
    }
    if has_opening_tag(text) {
        let (white, rest) = choose|white: Seq<char>, rest: Seq<char>|
            all_white(white) && text == #[trigger] (white + tag + rest);
        let n = white.len() as int;
        assert(text[n] == '<');
        if first.len() > n {
            assert(text[n] == first[n]);
        }
        if first.len() < n {
            assert(text[first.len() as int] == white[first.len() as int]);
            assert(text[first.len() as int] == inner[0]);
        }
        assert(inner =~= text.skip(n));
        assert(inner =~= tag + rest);
        lemma_after_prefix(inner, tag, rest);
    }
}

/// Nothing of an answer with a closing tag is lost: it is what stands before the first closing tag,
/// of which the reasoning is kept, the tag, and the answer with white space before it. An answer
/// without a closing tag is not split.
pub proof fn lemma_answer_is_kept(text: Seq<char>) -> (parts: (Seq<char>, Seq<char>))
    ensures
        match raw_split(text) {
            Some((thinking, answer)) => {
                &&& text == parts.0 + "</think>"@ + parts.1 + answer
                &&& all_white(parts.1)
                &&& answer.len() > 0 ==> !is_white_space(answer[0])
                &&& thinking == normalized(parts.0)
                &&& forall|p: Seq<char>, q: Seq<char>|
                    text == #[trigger] (p + "</think>"@ + q) ==> parts.0.len() <= p.len()
            },
            None => forall|p: Seq<char>, q: Seq<char>| text != #[trigger] (p + "</think>"@ + q),
        },
{
    let tag = "</think>"@;
    lemma_split_at_first(text, tag);
    match split_at_first(text, tag) {
        Some((before, after)) => {
            let white = lemma_trimmed_start(after);
            assert(before + tag + (white + trimmed_start(after)) =~= before + tag + white
                + trimmed_start(after));
            (before, white)
        },
        None => (seq![], seq![]),
    }
}

}
