//! Reasoning that a model writes into its text, before a closing tag.

use crate::json::{Json, JsonObject, JsonView, ObjectView};
use crate::text::{
    after_prefix, contains_text, index_of, lemma_index_of, occurs_at, split_at_first, split_once,
    strip_prefix, trim, trim_start, trimmed, trimmed_end, trimmed_start,
};
use vstd::prelude::*;

verus! {

/// The tag that ends the reasoning.
pub open spec fn closing_tag() -> Seq<char> {
    "</think>"@
}

/// The reasoning without an opening tag and without white space around it.
pub open spec fn normalized(text: Seq<char>) -> Seq<char> {
    match after_prefix(trimmed_start(text), "<think>"@) {
        Some(rest) => trimmed(rest),
        None => trimmed(trimmed_start(text)),
    }
}

/// The reasoning before the first closing tag and the answer behind it, if there is such a tag.
pub open spec fn raw_split(text: Seq<char>) -> Option<(Seq<char>, Seq<char>)> {
    match split_at_first(text, closing_tag()) {
        Some((thinking, answer)) => Some((normalized(thinking), trimmed_start(answer))),
        None => None,
    }
}

/// A block of reasoning. It has no signature, which is said by an empty one.
pub open spec fn thinking_content(thinking: Seq<char>) -> JsonView {
    JsonView::Object(
        ObjectView::empty().with("type"@, JsonView::String("thinking"@)).with(
            "thinking"@,
            JsonView::String(thinking),
        ).with("signature"@, JsonView::String(""@)),
    )
}

/// A block of reasoning.
pub fn thinking_block(thinking: &str) -> (result: Json)
    ensures
        result@ == thinking_content(thinking@),
{
    Json::object(
        JsonObject::new().with("type", Json::text("thinking")).with(
            "thinking",
            Json::text(thinking),
        ).with("signature", Json::text("")),
    )
}

/// The reasoning without an opening tag and without white space around it.
pub fn normalize_raw_thinking<'a>(text: &'a str) -> (result: &'a str)
    ensures
        result@ == normalized(text@),
{
    let text = trim_start(text);
    match strip_prefix(text, "<think>") {
        Some(rest) => trim(rest),
        None => trim(text),
    }
}

/// The reasoning before the first closing tag and the answer behind it, if there is such a tag.
pub fn split_raw_thinking<'a>(text: &'a str) -> (result: Option<(&'a str, &'a str)>)
    ensures
        match result {
            Some((thinking, answer)) => raw_split(text@) == Some((thinking@, answer@)),
            None => raw_split(text@) is None,
        },
{
    match split_once(text, "</think>") {
        Some((thinking, answer)) => Some((normalize_raw_thinking(thinking), trim_start(answer))),
        None => None,
    }
}

/// Text is split exactly if there is a closing tag in it.
pub proof fn lemma_split_iff_tag(text: Seq<char>)
    ensures
        (raw_split(text) is Some) == contains_text(text, closing_tag()),
{
    lemma_index_of(text, closing_tag());
}

/// The reasoning that is split off never has a closing tag in it.
pub proof fn lemma_split_thinking_has_no_tag(text: Seq<char>)
    ensures
        match raw_split(text) {
            Some((thinking, _)) => !contains_text(thinking, closing_tag()),
            None => true,
        },
{
    lemma_index_of(text, closing_tag());
    if let Some(i) = index_of(text, closing_tag()) {
        let before = text.take(i);
        assert forall|j: int| !occurs_at(before, closing_tag(), j) by {
            if occurs_at(before, closing_tag(), j) {
                let n = closing_tag().len();
                assert(text.subrange(j, j + n) =~= before.subrange(j, j + n));
                assert(occurs_at(text, closing_tag(), j));
                reveal_strlit("</think>");
                assert(j < i);
            }
        }
        lemma_normalized_part(before);
        let (from, to) = choose|from: int, to: int|
            0 <= from <= to <= before.len() && normalized(before) == #[trigger] before.subrange(
                from,
                to,
            );
        let thinking = normalized(before);
        assert forall|j: int| !occurs_at(thinking, closing_tag(), j) by {
            if occurs_at(thinking, closing_tag(), j) {
                let n = closing_tag().len();
                assert(before.subrange(from + j, from + j + n) =~= thinking.subrange(j, j + n));
                assert(occurs_at(before, closing_tag(), from + j));
            }
        }
    }
}

/// Normalized reasoning is a part of the text it comes from.
proof fn lemma_normalized_part(text: Seq<char>)
    ensures
        exists|from: int, to: int|
            0 <= from <= to <= text.len() && normalized(text) == #[trigger] text.subrange(from, to),
{
    let start = trimmed_start(text);
    lemma_trimmed_start_part(text);
    let skipped = text.len() - start.len();
    let rest = match after_prefix(start, "<think>"@) {
        Some(rest) => rest,
        None => start,
    };
    let from = text.len() - rest.len();
    assert(rest =~= text.skip(from));
    lemma_trimmed_start_part(rest);
    let inner = trimmed_start(rest);
    lemma_trimmed_end_part(inner);
    let first = text.len() - inner.len();
    let last = first + trimmed_end(inner).len();
    assert(trimmed_end(inner) =~= text.subrange(first, last));
}

/// Trimming the start leaves an end of the text.
proof fn lemma_trimmed_start_part(text: Seq<char>)
    ensures
        trimmed_start(text).len() <= text.len(),
        trimmed_start(text) == text.skip(text.len() - trimmed_start(text).len()),
    decreases text.len(),
{
    if text.len() > 0 {
        lemma_trimmed_start_part(text.skip(1));
    }
    assert(trimmed_start(text) =~= text.skip(text.len() - trimmed_start(text).len()));
}

/// Trimming the end leaves a start of the text.
proof fn lemma_trimmed_end_part(text: Seq<char>)
    ensures
        trimmed_end(text).len() <= text.len(),
        trimmed_end(text) == text.take(trimmed_end(text).len() as int),
    decreases text.len(),
{
    if text.len() > 0 {
        lemma_trimmed_end_part(text.drop_last());
    }
    assert(trimmed_end(text) =~= text.take(trimmed_end(text).len() as int));
}

}
