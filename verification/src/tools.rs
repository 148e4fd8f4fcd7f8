//! Tool definitions and the choice of a tool.

use crate::content::{copy_or, field_or, required, required_string};
use crate::error::{invalid, outcome, AnthropicError, ErrorView};
use crate::json::{array_view, push_json, Json, JsonObject, JsonView, ObjectView};
use crate::text::same_text;
use crate::walk::{folded, lemma_folded_next};
use vstd::prelude::*;

verus! {

/// Takes in one tool.
pub open spec fn tool_step() -> spec_fn(Seq<JsonView>, JsonView) -> Result<
    Seq<JsonView>,
    ErrorView,
> {
    |converted: Seq<JsonView>, tool: JsonView|
        match tool.as_object() {
            None => Err(invalid("each tool must be an object"@)),
            Some(tool) => match required(tool, "name"@) {
                Err(error) => Err(error),
                Ok(name) => Ok(converted.push(function_tool(tool, name))),
            },
        }
}

/// The definition of a function for a tool. A tool without a schema takes any object.
pub open spec fn function_tool(tool: ObjectView, name: Seq<char>) -> JsonView {
    let any_object = JsonView::Object(
        ObjectView::empty().with("type"@, JsonView::String("object"@)),
    );
    JsonView::Object(
        ObjectView::empty().with("type"@, JsonView::String("function"@)).with(
            "function"@,
            JsonView::Object(
                ObjectView::empty().with("name"@, JsonView::String(name)).with(
                    "description"@,
                    field_or(tool, "description"@, JsonView::Null),
                ).with("parameters"@, field_or(tool, "input_schema"@, any_object)),
            ),
        ),
    )
}

/// The definitions of functions for a list of tools.
pub open spec fn converted_tools(tools: JsonView) -> Result<JsonView, ErrorView> {
    match tools {
        JsonView::Array(tools) => match folded(tools, seq![], tool_step()) {
            Ok(converted) => Ok(JsonView::Array(converted)),
            Err(error) => Err(error),
        },
        _ => Err(invalid("tools must be an array"@)),
    }
}

/// The choice of a function for a choice of a tool.
pub open spec fn function_choice(choice: ObjectView, kind: Seq<char>) -> Result<
    JsonView,
    ErrorView,
> {
    if kind == "auto"@ {
        Ok(JsonView::String("auto"@))
    } else if kind == "any"@ {
        Ok(JsonView::String("required"@))
    } else if kind == "none"@ {
        Ok(JsonView::String("none"@))
    } else if kind == "tool"@ {
        match required(choice, "name"@) {
            Ok(name) => Ok(
                JsonView::Object(
                    ObjectView::empty().with("type"@, JsonView::String("function"@)).with(
                        "function"@,
                        JsonView::Object(ObjectView::empty().with("name"@, JsonView::String(name))),
                    ),
                ),
            ),
            Err(error) => Err(error),
        }
    } else {
        Err(invalid("unsupported tool_choice type: "@ + kind))
    }
}

/// The choice of a function, and whether several may be called at once if the client says so.
pub open spec fn converted_tool_choice(choice: JsonView) -> Result<
    (JsonView, Option<bool>),
    ErrorView,
> {
    match choice.as_object() {
        None => Err(invalid("tool_choice must be an object"@)),
        Some(choice) => match required(choice, "type"@) {
            Err(error) => Err(error),
            Ok(kind) => match function_choice(choice, kind) {
                Err(error) => Err(error),
                Ok(converted) => Ok(
                    (
                        converted,
                        match choice.get("disable_parallel_tool_use"@) {
                            Some(JsonView::Bool(disabled)) => Some(!disabled),
                            _ => None,
                        },
                    ),
                ),
            },
        },
    }
}

/// The definitions of functions for a list of tools.
pub fn convert_tools(tools: &Json) -> (result: Result<Json, AnthropicError>)
    ensures
        outcome(result) == converted_tools(tools@),
{
    let list = match tools.as_array() {
        Some(list) => list,
        None => {
            return Err(AnthropicError::invalid("tools must be an array"));
        },
    };
    let ghost items = array_view(list@);
    let ghost start: Seq<JsonView> = seq![];
    let ghost step = tool_step();
    let mut converted: Vec<Json> = Vec::new();
    assert(array_view(converted@) =~= start);
    for i in 0..list.len()
        invariant
            items == array_view(list@),
            start == Seq::<JsonView>::empty(),
            step == tool_step(),
            tools@ == JsonView::Array(items),
            folded(items.take(i as int), start, step) == Ok::<Seq<JsonView>, ErrorView>(
                array_view(converted@),
            ),
    {
        proof {
            lemma_folded_next(items, i as int, start, step);
        }
        let tool = match list[i].as_object() {
            Some(tool) => tool,
            None => {
                return Err(AnthropicError::invalid("each tool must be an object"));
            },
        };
        let name = required_string(tool, "name")?;
        let any_object = Json::object(JsonObject::new().with("type", Json::text("object")));
        let function = JsonObject::new().with("name", Json::text(name)).with(
            "description",
            copy_or(tool, "description", Json::Null),
        ).with("parameters", copy_or(tool, "input_schema", any_object));
        push_json(
            &mut converted,
            Json::object(
                JsonObject::new().with("type", Json::text("function")).with(
                    "function",
                    Json::object(function),
                ),
            ),
        );
    }
    assert(items.take(items.len() as int) =~= items);
    Ok(Json::Array(converted))
}

/// The choice of a function, and whether several may be called at once if the client says so.
pub fn convert_tool_choice(tool_choice: &Json) -> (result: Result<
    (Json, Option<bool>),
    AnthropicError,
>)
    ensures
        (match result {
            Ok((choice, parallel)) => Ok((choice@, parallel)),
            Err(error) => Err(error@),
        }) == converted_tool_choice(tool_choice@),
{
    let object = match tool_choice.as_object() {
        Some(object) => object,
        None => {
            return Err(AnthropicError::invalid("tool_choice must be an object"));
        },
    };
    let kind = required_string(object, "type")?;
    let parallel = match object.get("disable_parallel_tool_use") {
        Some(Json::Bool(disabled)) => Some(!*disabled),
        _ => None,
    };
    let choice = if same_text(kind, "auto") {
        Json::text("auto")
    } else if same_text(kind, "any") {
        Json::text("required")
    } else if same_text(kind, "none") {
        Json::text("none")
    } else if same_text(kind, "tool") {
        let name = required_string(object, "name")?;
        Json::object(
            JsonObject::new().with("type", Json::text("function")).with(
                "function",
                Json::object(JsonObject::new().with("name", Json::text(name))),
            ),
        )
    } else {
        return Err(
            AnthropicError::invalid(
                "unsupported tool_choice type: ".to_string().concat(kind).as_str(),
            ),
        );
    };
    Ok((choice, parallel))
}

/// Each tool is defined, in order.
pub proof fn lemma_tools_in_order(tools: Seq<JsonView>)
    ensures
        folded(tools, seq![], tool_step()) matches Ok(converted) ==> converted.len() == tools.len()
            && forall|i: int|
            0 <= i < tools.len() ==> #[trigger] converted[i] == function_tool(
                tools[i]->Object_0,
                required(tools[i]->Object_0, "name"@)->Ok_0,
            ),
    decreases tools.len(),
{
    if tools.len() > 0 {
        lemma_tools_in_order(tools.drop_last());
    }
}

}
