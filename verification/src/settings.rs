//! What becomes of a whole request: the fields of the Chat Completions request, the way in which
//! the response is converted, and the order in which faults are looked for.

use crate::asking::refused;
use crate::content::{plain_text, required};
use crate::error::ErrorView;
use crate::json::{JsonNumber, JsonView, ObjectView};
use crate::messages::converted_messages;
use crate::request::{converted_request, lemma_chat_field, request_parts, ConfigView};
use crate::shapes::{lemma_message_shapes, object, text};
use crate::text::{ascii_lower, contains_text};
use crate::tools::{converted_tool_choice, converted_tools};
use vstd::prelude::*;

verus! {

/// The kind of thinking that a request names.
pub open spec fn named_thinking(request: ObjectView) -> Option<JsonView> {
    match request.get("thinking"@) {
        Some(JsonView::Object(thinking)) => thinking.get("type"@),
        _ => None,
    }
}

/// The response is converted for the model and in the form that the request asks for. Reasoning is
/// kept unless the request disables it, and it is looked for in the text if the request enables it
/// or the model is known to put it there.
pub proof fn lemma_response_is_wanted(body: JsonView)
    requires
        converted_request(body) is Ok,
    ensures
        ({
            let request = body->Object_0;
            let config = converted_request(body)->Ok_0.1;
            &&& body is Object
            &&& request.get("model"@) == Some(JsonView::String(config.model))
            &&& config.model.len() > 0
            &&& config.stream <==> request.get("stream"@) == Some(JsonView::Bool(true))
            &&& config.include_thinking <==> named_thinking(request) != Some(
                JsonView::String("disabled"@),
            )
            &&& config.raw_thinking_fallback <==> named_thinking(request) != Some(
                JsonView::String("disabled"@),
            ) && (named_thinking(request) == Some(JsonView::String("enabled"@)) || contains_text(
                ascii_lower(config.model),
                "kimi2.7"@,
            ))
        }),
{
    let request = body->Object_0;
    if let Some(JsonView::Object(thinking)) = request.get("thinking"@) {
        if let Some(JsonView::String(kind)) = thinking.get("type"@) {
            assert(crate::request::thinking_type(request) == Some(kind));
        }
    }
}

/// A field that is a number.
pub open spec fn if_number(value: Option<JsonView>) -> Option<JsonView> {
    match value {
        Some(JsonView::Number(_)) => value,
        _ => None,
    }
}

/// A field that is a text.
pub open spec fn if_text(value: Option<JsonView>) -> Option<JsonView> {
    match value {
        Some(JsonView::String(_)) => value,
        _ => None,
    }
}

/// A field of a field.
pub open spec fn inside(value: Option<JsonView>, name: Seq<char>) -> Option<JsonView> {
    match value {
        Some(JsonView::Object(fields)) => fields.get(name),
        _ => None,
    }
}

/// The field `name` of the Chat Completions request for a request. There are no other fields.
pub open spec fn asked(request: ObjectView, name: Seq<char>, messages: Seq<JsonView>) -> Option<
    JsonView,
> {
    if name == "model"@ || name == "max_tokens"@ {
        request.get(name)
    } else if name == "stream"@ {
        Some(JsonView::Bool(request.get("stream"@) == Some(JsonView::Bool(true))))
    } else if name == "stream_options"@ {
        if request.get("stream"@) == Some(JsonView::Bool(true)) {
            Some(object(seq![("include_usage"@, JsonView::Bool(true))]))
        } else {
            None
        }
    } else if name == "messages"@ {
        Some(JsonView::Array(messages))
    } else if name == "temperature"@ || name == "top_p"@ || name == "top_k"@ {
        if_number(request.get(name))
    } else if name == "stop"@ {
        request.get("stop_sequences"@)
    } else if name == "user"@ {
        if_text(inside(request.get("metadata"@), "user_id"@))
    } else if name == "tools"@ {
        match request.get("tools"@) {
            Some(tools) => Some(converted_tools(tools)->Ok_0),
            None => None,
        }
    } else if name == "tool_choice"@ {
        match request.get("tool_choice"@) {
            Some(choice) => Some(converted_tool_choice(choice)->Ok_0.0),
            None => None,
        }
    } else if name == "parallel_tool_calls"@ {
        match request.get("tool_choice"@) {
            Some(choice) => match converted_tool_choice(choice)->Ok_0.1 {
                Some(parallel) => Some(JsonView::Bool(parallel)),
                None => None,
            },
            None => None,
        }
    } else if name == "chat_template_kwargs"@ {
        match request.get("thinking"@) {
            Some(_) => Some(
                object(
                    seq![
                        (
                            "enable_thinking"@,
                            JsonView::Bool(
                                named_thinking(request) != Some(JsonView::String("disabled"@)),
                            ),
                        ),
                    ],
                ),
            ),
            None => None,
        }
    } else {
        None
    }
}

/// The messages that a model reads for a request: the system prompt, if there is something in it,
/// and then the conversation.
pub open spec fn to_be_read(request: ObjectView) -> Seq<JsonView> {
    let conversation = converted_messages(request.get("messages"@)->0->Array_0)->Ok_0;
    match request.get("system"@) {
        Some(system) => {
            let prompt = plain_text(system, "system"@)->Ok_0;
            if prompt.len() > 0 {
                seq![object(seq![text("role"@, "system"@), text("content"@, prompt)])]
                    + conversation
            } else {
                conversation
            }
        },
        None => conversation,
    }
}

/// Every field of the Chat Completions request comes from the request, and no other field is there.
#[verifier::spinoff_prover]
#[verifier::rlimit(30)]
pub proof fn lemma_every_field(body: JsonView, name: Seq<char>)
    requires
        converted_request(body) is Ok,
    ensures
        converted_request(body)->Ok_0.0.get(name) == asked(
            body->Object_0,
            name,
            to_be_read(body->Object_0),
        ),
{
    let request = body->Object_0;
    let (chat, config) = converted_request(body)->Ok_0;
    let parts = request_parts(request)->Ok_0;
    crate::request::lemma_field_names_differ();
    lemma_chat_field(request, config, parts, name);
    lemma_response_is_wanted(body);
    lemma_message_shapes(seq![], "include_usage"@, seq![], JsonView::Bool(true));
    lemma_message_shapes(
        seq![],
        "enable_thinking"@,
        seq![],
        JsonView::Bool(config.include_thinking),
    );
    lemma_read(request);
    assert(parts.messages == to_be_read(request));
}

proof fn lemma_read(request: ObjectView)
    requires
        request_parts(request) is Ok,
    ensures
        request_parts(request)->Ok_0.messages == to_be_read(request),
{
    let conversation = converted_messages(request.get("messages"@)->0->Array_0)->Ok_0;
    assert(Seq::<JsonView>::empty() + conversation =~= conversation);
    if let Some(system) = request.get("system"@) {
        if let Ok(prompt) = plain_text(system, "system"@) {
            lemma_message_shapes(seq![], "system"@, seq![], JsonView::String(prompt));
        }
    }
}

/// A request is refused for the first fault that is found in it, and for no other reason.
pub proof fn lemma_faults(body: JsonView)
    ensures
        match body {
            JsonView::Object(request) => {
                let messages = request.get("messages"@);
                let error = converted_request(body)->Err_0;
                let limit_is_good = request.get("max_tokens"@) matches Some(
                    JsonView::Number(JsonNumber::Unsigned(n)),
                ) && n > 0;
                if required(request, "model"@) is Err {
                    converted_request(body) is Err && error == required(request, "model"@)->Err_0
                } else if !limit_is_good {
                    converted_request(body) is Err && error == refused(
                        "max_tokens must be a positive integer"@,
                    )
                } else if !(messages matches Some(JsonView::Array(_))) {
                    converted_request(body) is Err && error == refused(
                        "messages must be an array"@,
                    )
                } else if messages->0->Array_0.len() == 0 {
                    converted_request(body) is Err && error == refused(
                        "messages must not be empty"@,
                    )
                } else if request.get("system"@) is Some && plain_text(
                    request.get("system"@)->0,
                    "system"@,
                ) is Err {
                    converted_request(body) is Err && error == plain_text(
                        request.get("system"@)->0,
                        "system"@,
                    )->Err_0
                } else if converted_messages(messages->0->Array_0) is Err {
                    converted_request(body) is Err && error == converted_messages(
                        messages->0->Array_0,
                    )->Err_0
                } else if request.get("stop_sequences"@) is Some && !(request.get(
                    "stop_sequences"@,
                )->0 is Array) {
                    converted_request(body) is Err && error == refused(
                        "stop_sequences must be an array of strings"@,
                    )
                } else if request.get("tools"@) is Some && converted_tools(
                    request.get("tools"@)->0,
                ) is Err {
                    converted_request(body) is Err && error == converted_tools(
                        request.get("tools"@)->0,
                    )->Err_0
                } else if request.get("tool_choice"@) is Some && converted_tool_choice(
                    request.get("tool_choice"@)->0,
                ) is Err {
                    converted_request(body) is Err && error == converted_tool_choice(
                        request.get("tool_choice"@)->0,
                    )->Err_0
                } else {
                    converted_request(body) is Ok
                }
            },
            _ => converted_request(body) == Err::<(JsonView, ConfigView), ErrorView>(
                refused("request body must be a JSON object"@),
            ),
        },
{
}

}
