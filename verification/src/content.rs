//! Reading the fields of a request.

use crate::error::{invalid, outcome, AnthropicError, ErrorView};
use crate::json::{array_view, Json, JsonObject, JsonView, ObjectView};
use crate::text::{
    append_text, lemma_appended_on_lines, none_empty, noted, on_lines, same_text, text_view,
};
use crate::walk::{folded, lemma_folded_next};
use vstd::prelude::*;

verus! {

/// The field `field`, which has to be a string with something in it.
pub open spec fn required(object: ObjectView, field: Seq<char>) -> Result<Seq<char>, ErrorView> {
    match object.get_str(field) {
        Some(text) if text.len() > 0 => Ok(text),
        _ => Err(invalid(field + " must be a non-empty string"@)),
    }
}

/// The texts of a list of text blocks, of which `field` is made.
pub open spec fn text_step(field: Seq<char>) -> spec_fn(Seq<Seq<char>>, JsonView) -> Result<
    Seq<Seq<char>>,
    ErrorView,
> {
    |texts: Seq<Seq<char>>, block: JsonView|
        match block.as_object() {
            Some(block) => if block.get_str("type"@) == Some("text"@) {
                Ok(noted(texts, block.get_str("text"@)))
            } else {
                Err(invalid(field + " only supports text blocks"@))
            },
            None => Err(invalid(field + " block must be an object"@)),
        }
}

/// The text of a string or of a list of text blocks, each on lines of its own.
pub open spec fn plain_text(content: JsonView, field: Seq<char>) -> Result<Seq<char>, ErrorView> {
    match content {
        JsonView::String(text) => Ok(text),
        JsonView::Array(blocks) => match folded(blocks, seq![], text_step(field)) {
            Ok(texts) => Ok(on_lines(texts)),
            Err(error) => Err(error),
        },
        _ => Err(invalid(field + " content must be a string or block array"@)),
    }
}

/// The field `field`, or `default` if there is none.
pub open spec fn field_or(object: ObjectView, field: Seq<char>, default: JsonView) -> JsonView {
    match object.get(field) {
        Some(value) => value,
        None => default,
    }
}

/// The field `field`, which has to be a string with something in it.
pub fn required_string<'a>(object: &'a JsonObject, field: &str) -> (result: Result<
    &'a str,
    AnthropicError,
>)
    ensures
        outcome(result) == required(object@, field@),
{
    match object.get_str(field) {
        Some(text) if !text.is_empty() => Ok(text),
        _ => Err(
            AnthropicError::invalid(
                field.to_string().concat(" must be a non-empty string").as_str(),
            ),
        ),
    }
}

/// Whether the field `key` is the string `value`.
fn is_text_field(object: &JsonObject, key: &str, value: &str) -> (result: bool)
    ensures
        result == (object@.get_str(key@) == Some(value@)),
{
    match object.get_str(key) {
        Some(text) => same_text(text, value),
        None => false,
    }
}

/// The text of a string or of a list of text blocks, each on lines of its own.
pub fn content_to_text(content: &Json, field: &str) -> (result: Result<String, AnthropicError>)
    ensures
        outcome(result) == plain_text(content@, field@),
{
    if let Some(text) = content.as_str() {
        return Ok(text.to_string());
    }
    let blocks = match content.as_array() {
        Some(blocks) => blocks,
        None => {
            return Err(
                AnthropicError::invalid(
                    field.to_string().concat(" content must be a string or block array").as_str(),
                ),
            );
        },
    };
    let ghost items = array_view(blocks@);
    let ghost step = text_step(field@);
    let ghost mut texts: Seq<Seq<char>> = seq![];
    let mut text = String::new();
    for i in 0..blocks.len()
        invariant
            items == array_view(blocks@),
            step == text_step(field@),
            content@ == JsonView::Array(items),
            folded(items.take(i as int), seq![], step) == Ok::<Seq<Seq<char>>, ErrorView>(texts),
            none_empty(texts),
            text@ == on_lines(texts),
    {
        proof {
            lemma_folded_next(items, i as int, seq![], step);
        }
        match blocks[i].as_object() {
            Some(block) => {
                if !is_text_field(block, "type", "text") {
                    return Err(
                        AnthropicError::invalid(
                            field.to_string().concat(" only supports text blocks").as_str(),
                        ),
                    );
                }
                let part = block.get_str("text");
                proof {
                    lemma_appended_on_lines(texts, text_view(part));
                    texts = noted(texts, text_view(part));
                }
                append_text(&mut text, part);
            },
            None => {
                return Err(
                    AnthropicError::invalid(
                        field.to_string().concat(" block must be an object").as_str(),
                    ),
                );
            },
        }
    }
    assert(items.take(items.len() as int) =~= items);
    Ok(text)
}

/// A copy of the field `field`, or `default` if there is none.
pub fn copy_or(object: &JsonObject, field: &str, default: Json) -> (result: Json)
    ensures
        result@ == field_or(object@, field@, default@),
{
    match object.get(field) {
        Some(value) => value.copy(),
        None => default,
    }
}

}
