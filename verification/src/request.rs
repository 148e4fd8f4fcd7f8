//! From an Anthropic Messages request to a Chat Completions request.

use crate::content::{content_to_text, plain_text, required, required_string};
use crate::error::{invalid, AnthropicError, ErrorView};
use crate::json::{
    array_view, extend_json, lemma_with_get, lemma_with_some_get, push_json, unsigned, Json,
    JsonObject, JsonView, ObjectView,
};
use crate::messages::{convert_messages, converted_messages, message, message_json};
use crate::text::{ascii_lower, contains_in_lower_case, contains_text, same_text};
use crate::tools::{convert_tool_choice, convert_tools, converted_tool_choice, converted_tools};
use vstd::prelude::*;

verus! {

/// A request in the form of the Chat Completions API, and how to convert the response to it.
#[derive(Debug)]
pub struct ConvertedRequest {
    /// The Chat Completions request.
    pub chat: Json,
    /// How to convert the response.
    pub response_config: ResponseConfig,
}

/// How to convert the response to a request.
#[derive(Debug, PartialEq, Eq)]
pub struct ResponseConfig {
    /// The model that the client asked for.
    pub model: String,
    /// Whether the response is streamed.
    pub stream: bool,
    /// Whether the client gets to see the reasoning.
    pub include_thinking: bool,
    /// Whether reasoning may stand in the text itself, before a closing tag.
    pub raw_thinking_fallback: bool,
}

impl Clone for ResponseConfig {
    fn clone(&self) -> (result: ResponseConfig)
        ensures
            result == *self,
    {
        ResponseConfig {
            model: self.model.clone(),
            stream: self.stream,
            include_thinking: self.include_thinking,
            raw_thinking_fallback: self.raw_thinking_fallback,
        }
    }
}

/// What a [`ResponseConfig`] stands for.
pub ghost struct ConfigView {
    pub model: Seq<char>,
    pub stream: bool,
    pub include_thinking: bool,
    pub raw_thinking_fallback: bool,
}

impl View for ResponseConfig {
    type V = ConfigView;

    open spec fn view(&self) -> ConfigView {
        ConfigView {
            model: self.model@,
            stream: self.stream,
            include_thinking: self.include_thinking,
            raw_thinking_fallback: self.raw_thinking_fallback,
        }
    }
}

/// The kind of thinking that the client asks for.
pub open spec fn thinking_type(request: ObjectView) -> Option<Seq<char>> {
    match request.get("thinking"@) {
        Some(thinking) => thinking.get_str("type"@),
        None => None,
    }
}

/// How to convert the response to `request`. Reasoning is kept unless the client disables it. It
/// is looked for in the text if the client asks for it or the model is known to put it there.
pub open spec fn response_config(request: ObjectView, model: Seq<char>) -> ConfigView {
    let include_thinking = thinking_type(request) != Some("disabled"@);
    ConfigView {
        model,
        stream: request.get("stream"@) == Some(JsonView::Bool(true)),
        include_thinking,
        raw_thinking_fallback: include_thinking && (thinking_type(request) == Some("enabled"@)
            || contains_text(ascii_lower(model), "kimi2.7"@)),
    }
}

/// The field `field` if it is a number.
pub open spec fn number_field(request: ObjectView, field: Seq<char>) -> Option<JsonView> {
    match request.get(field) {
        Some(JsonView::Number(number)) => Some(JsonView::Number(number)),
        _ => None,
    }
}

/// The user that the request names.
pub open spec fn user_id(request: ObjectView) -> Option<JsonView> {
    match request.get("metadata"@) {
        Some(metadata) => match metadata.get("user_id"@) {
            Some(JsonView::String(id)) => Some(JsonView::String(id)),
            _ => None,
        },
        None => None,
    }
}

/// The parts of a request that are converted on their own.
pub ghost struct RequestParts {
    pub max_tokens: u64,
    pub messages: Seq<JsonView>,
    pub tools: Option<JsonView>,
    pub tool_choice: Option<(JsonView, Option<bool>)>,
}

/// An object with the one field `key`.
pub open spec fn single_field(key: Seq<char>, value: JsonView) -> JsonView {
    JsonView::Object(ObjectView::empty().with(key, value))
}

/// The choice of a tool in a Chat Completions request.
pub open spec fn choice_field(parts: RequestParts) -> Option<JsonView> {
    match parts.tool_choice {
        Some((choice, _)) => Some(choice),
        None => None,
    }
}

/// Whether several tools may be called at once, in a Chat Completions request.
pub open spec fn parallel_field(parts: RequestParts) -> Option<JsonView> {
    match parts.tool_choice {
        Some((_, Some(parallel))) => Some(JsonView::Bool(parallel)),
        _ => None,
    }
}

/// The request for a usage report in a Chat Completions request.
pub open spec fn stream_options_field(config: ConfigView) -> Option<JsonView> {
    if config.stream {
        Some(single_field("include_usage"@, JsonView::Bool(true)))
    } else {
        None
    }
}

/// Whether the model is to reason, in a Chat Completions request.
pub open spec fn template_field(request: ObjectView, config: ConfigView) -> Option<JsonView> {
    if request.get("thinking"@) is Some {
        Some(single_field("enable_thinking"@, JsonView::Bool(config.include_thinking)))
    } else {
        None
    }
}

/// The Chat Completions request, field by field. A streamed response has to report its usage at
/// the end.
pub open spec fn chat_request(
    request: ObjectView,
    config: ConfigView,
    parts: RequestParts,
) -> ObjectView {
    ObjectView::empty().with("model"@, JsonView::String(config.model)).with(
        "max_tokens"@,
        unsigned(parts.max_tokens),
    ).with("stream"@, JsonView::Bool(config.stream)).with_some(
        "stream_options"@,
        stream_options_field(config),
    ).with("messages"@, JsonView::Array(parts.messages)).with_some(
        "temperature"@,
        number_field(request, "temperature"@),
    ).with_some("top_p"@, number_field(request, "top_p"@)).with_some(
        "top_k"@,
        number_field(request, "top_k"@),
    ).with_some("stop"@, request.get("stop_sequences"@)).with_some(
        "user"@,
        user_id(request),
    ).with_some("tools"@, parts.tools).with_some("tool_choice"@, choice_field(parts)).with_some(
        "parallel_tool_calls"@,
        parallel_field(parts),
    ).with_some("chat_template_kwargs"@, template_field(request, config))
}

/// The most tokens that the answer may have.
pub open spec fn token_limit(request: ObjectView) -> Result<u64, ErrorView> {
    match JsonView::Object(request).get_u64("max_tokens"@) {
        Some(n) if n > 0 => Ok(n),
        _ => Err(invalid("max_tokens must be a positive integer"@)),
    }
}

/// The messages of the request, of which there has to be one.
pub open spec fn conversation(request: ObjectView) -> Result<Seq<JsonView>, ErrorView> {
    match JsonView::Object(request).get_array("messages"@) {
        None => Err(invalid("messages must be an array"@)),
        Some(messages) => if messages.len() == 0 {
            Err(invalid("messages must not be empty"@))
        } else {
            Ok(messages)
        },
    }
}

/// The message for the system prompt, unless there is none or it is empty.
pub open spec fn system_messages(request: ObjectView) -> Result<Seq<JsonView>, ErrorView> {
    match request.get("system"@) {
        None => Ok(seq![]),
        Some(system) => match plain_text(system, "system"@) {
            Err(error) => Err(error),
            Ok(text) => if text.len() == 0 {
                Ok(seq![])
            } else {
                Ok(seq![message("system"@, JsonView::String(text))])
            },
        },
    }
}

/// All messages of the Chat Completions request: the system prompt and the conversation.
pub open spec fn all_messages(request: ObjectView, messages: Seq<JsonView>) -> Result<
    Seq<JsonView>,
    ErrorView,
> {
    match system_messages(request) {
        Err(error) => Err(error),
        Ok(system) => match converted_messages(messages) {
            Err(error) => Err(error),
            Ok(converted) => Ok(system + converted),
        },
    }
}

/// The converted tools, if the request has any.
pub open spec fn tools_of(request: ObjectView) -> Result<Option<JsonView>, ErrorView> {
    match request.get("tools"@) {
        None => Ok(None),
        Some(tools) => match converted_tools(tools) {
            Err(error) => Err(error),
            Ok(converted) => Ok(Some(converted)),
        },
    }
}

/// The converted choice of a tool, if the request makes one.
pub open spec fn tool_choice_of(request: ObjectView) -> Result<
    Option<(JsonView, Option<bool>)>,
    ErrorView,
> {
    match request.get("tool_choice"@) {
        None => Ok(None),
        Some(choice) => match converted_tool_choice(choice) {
            Err(error) => Err(error),
            Ok(converted) => Ok(Some(converted)),
        },
    }
}

/// The parts of a request, or the first error among them.
pub open spec fn request_parts(request: ObjectView) -> Result<RequestParts, ErrorView> {
    match token_limit(request) {
        Err(error) => Err(error),
        Ok(max_tokens) => match conversation(request) {
            Err(error) => Err(error),
            Ok(messages) => match all_messages(request, messages) {
                Err(error) => Err(error),
                Ok(messages) => match request.get("stop_sequences"@) {
                    Some(stop) if !(stop is Array) => Err(
                        invalid("stop_sequences must be an array of strings"@),
                    ),
                    _ => match tools_of(request) {
                        Err(error) => Err(error),
                        Ok(tools) => match tool_choice_of(request) {
                            Err(error) => Err(error),
                            Ok(tool_choice) => Ok(
                                RequestParts { max_tokens, messages, tools, tool_choice },
                            ),
                        },
                    },
                },
            },
        },
    }
}

/// The Chat Completions request for `body` and how to convert the response, or why the request is
/// refused.
pub open spec fn converted_request(body: JsonView) -> Result<(JsonView, ConfigView), ErrorView> {
    match body.as_object() {
        None => Err(invalid("request body must be a JSON object"@)),
        Some(request) => match required(request, "model"@) {
            Err(error) => Err(error),
            Ok(model) => match request_parts(request) {
                Err(error) => Err(error),
                Ok(parts) => {
                    let config = response_config(request, model);
                    Ok((JsonView::Object(chat_request(request, config, parts)), config))
                },
            },
        },
    }
}

/// The object with the field `field` of `source`, if that is a number.
fn copy_number(source: &JsonObject, target: JsonObject, field: &str) -> (result: JsonObject)
    ensures
        result@ == target@.with_some(field@, number_field(source@, field@)),
{
    match source.get(field) {
        Some(value) => if value.is_number() {
            target.with(field, value.copy())
        } else {
            target
        },
        None => target,
    }
}

/// An object with the one field `key`.
fn single_field_json(key: &str, value: Json) -> (result: Json)
    ensures
        result@ == single_field(key@, value@),
{
    Json::object(JsonObject::new().with(key, value))
}

/// The message for the system prompt, unless there is none or it is empty.
fn convert_system(request: &JsonObject) -> (result: Result<Vec<Json>, AnthropicError>)
    ensures
        crate::messages::list_outcome(result) == system_messages(request@),
{
    let mut messages: Vec<Json> = Vec::new();
    assert(array_view(messages@) =~= seq![]);
    if let Some(system) = request.get("system") {
        let text = content_to_text(system, "system")?;
        if !text.as_str().is_empty() {
            push_json(&mut messages, message_json("system", Json::String(text)));
        }
    }
    assert(array_view(messages@) =~= system_messages(request@)->Ok_0);
    Ok(messages)
}

/// The user that the request names.
fn user_of(request: &JsonObject) -> (result: Option<Json>)
    ensures
        (match result {
            Some(user) => Some(user@),
            None => None,
        }) == user_id(request@),
{
    match request.get("metadata") {
        Some(metadata) => match metadata.get_str("user_id") {
            Some(id) => Some(Json::text(id)),
            None => None,
        },
        None => None,
    }
}

/// Converts an Anthropic Messages request to a Chat Completions request.
pub fn convert_request(body: Json) -> (result: Result<ConvertedRequest, AnthropicError>)
    ensures
        (match result {
            Ok(converted) => Ok((converted.chat@, converted.response_config@)),
            Err(error) => Err(error@),
        }) == converted_request(body@),
{
    let request = match body.as_object() {
        Some(request) => request,
        None => {
            return Err(AnthropicError::invalid("request body must be a JSON object"));
        },
    };
    let model = required_string(request, "model")?.to_string();
    let max_tokens = match body.get_u64("max_tokens") {
        Some(n) if n > 0 => n,
        _ => {
            return Err(AnthropicError::invalid("max_tokens must be a positive integer"));
        },
    };
    let messages = match body.get_array("messages") {
        Some(messages) => messages,
        None => {
            return Err(AnthropicError::invalid("messages must be an array"));
        },
    };
    if messages.len() == 0 {
        return Err(AnthropicError::invalid("messages must not be empty"));
    }
    let stream = match request.get("stream") {
        Some(Json::Bool(stream)) => *stream,
        _ => false,
    };
    let thinking_type = match request.get("thinking") {
        Some(thinking) => thinking.get_str("type"),
        None => None,
    };
    let (enabled, disabled) = match thinking_type {
        Some(kind) => (same_text(kind, "enabled"), same_text(kind, "disabled")),
        None => (false, false),
    };
    // Reasoning may come back although the request does not ask for it. It is kept unless the
    // client disables it.
    let include_thinking = !disabled;
    let raw_thinking_fallback = include_thinking && (enabled || contains_in_lower_case(
        model.as_str(),
        "kimi2.7",
    ));

    let mut chat_messages = convert_system(request)?;
    extend_json(&mut chat_messages, convert_messages(messages)?);

    let chat = JsonObject::new().with("model", Json::text(model.as_str())).with(
        "max_tokens",
        Json::unsigned(max_tokens),
    ).with("stream", Json::Bool(stream)).with_some(
        "stream_options",
        if stream {
            Some(single_field_json("include_usage", Json::Bool(true)))
        } else {
            None
        },
    ).with("messages", Json::Array(chat_messages));
    let chat = copy_number(request, chat, "temperature");
    let chat = copy_number(request, chat, "top_p");
    let chat = copy_number(request, chat, "top_k");
    let stop = match request.get("stop_sequences") {
        Some(stop) => {
            if !stop.is_array() {
                return Err(AnthropicError::invalid("stop_sequences must be an array of strings"));
            }
            Some(stop.copy())
        },
        None => None,
    };
    let tools = match request.get("tools") {
        Some(tools) => Some(convert_tools(tools)?),
        None => None,
    };
    let (tool_choice, parallel) = match request.get("tool_choice") {
        Some(choice) => {
            let (choice, parallel) = convert_tool_choice(choice)?;
            (Some(choice), parallel)
        },
        None => (None, None),
    };
    let parallel = match parallel {
        Some(parallel) => Some(Json::Bool(parallel)),
        None => None,
    };
    let template = if request.get("thinking").is_some() {
        Some(single_field_json("enable_thinking", Json::Bool(include_thinking)))
    } else {
        None
    };
    let chat = chat.with_some("stop", stop).with_some("user", user_of(request)).with_some(
        "tools",
        tools,
    ).with_some("tool_choice", tool_choice).with_some("parallel_tool_calls", parallel).with_some(
        "chat_template_kwargs",
        template,
    );
    Ok(
        ConvertedRequest {
            chat: Json::object(chat),
            response_config: ResponseConfig {
                model,
                stream,
                include_thinking,
                raw_thinking_fallback,
            },
        },
    )
}

/// The typed Chat Completions request, or the error for a request that has no typed form.
pub fn typed_request<T>(typed: Result<T, String>) -> (result: Result<T, AnthropicError>)
    ensures
        match typed {
            Ok(chat) => result == Ok::<T, AnthropicError>(chat),
            Err(message) => result matches Err(error) && error@ == invalid(
                "request cannot be converted to Chat Completions: "@ + message@,
            ),
        },
{
    match typed {
        Ok(chat) => Ok(chat),
        Err(message) => Err(
            AnthropicError::invalid(
                "request cannot be converted to Chat Completions: ".to_string().concat(
                    message.as_str(),
                ).as_str(),
            ),
        ),
    }
}

/// The field `key` of a Chat Completions request: the last that is set under that name.
pub(crate) proof fn lemma_chat_field(
    request: ObjectView,
    config: ConfigView,
    parts: RequestParts,
    key: Seq<char>,
)
    ensures
        chat_request(request, config, parts).get(key) == if key == "chat_template_kwargs"@
            && template_field(request, config) is Some {
            template_field(request, config)
        } else if key == "parallel_tool_calls"@ && parallel_field(parts) is Some {
            parallel_field(parts)
        } else if key == "tool_choice"@ && choice_field(parts) is Some {
            choice_field(parts)
        } else if key == "tools"@ && parts.tools is Some {
            parts.tools
        } else if key == "user"@ && user_id(request) is Some {
            user_id(request)
        } else if key == "stop"@ && request.get("stop_sequences"@) is Some {
            request.get("stop_sequences"@)
        } else if key == "top_k"@ && number_field(request, "top_k"@) is Some {
            number_field(request, "top_k"@)
        } else if key == "top_p"@ && number_field(request, "top_p"@) is Some {
            number_field(request, "top_p"@)
        } else if key == "temperature"@ && number_field(request, "temperature"@) is Some {
            number_field(request, "temperature"@)
        } else if key == "messages"@ {
            Some(JsonView::Array(parts.messages))
        } else if key == "stream_options"@ && stream_options_field(config) is Some {
            stream_options_field(config)
        } else if key == "stream"@ {
            Some(JsonView::Bool(config.stream))
        } else if key == "max_tokens"@ {
            Some(unsigned(parts.max_tokens))
        } else if key == "model"@ {
            Some(JsonView::String(config.model))
        } else {
            None
        },
{
    let o = ObjectView::empty();
    lemma_with_get(o, "model"@, JsonView::String(config.model), key);
    let o = o.with("model"@, JsonView::String(config.model));
    lemma_with_get(o, "max_tokens"@, unsigned(parts.max_tokens), key);
    let o = o.with("max_tokens"@, unsigned(parts.max_tokens));
    lemma_with_get(o, "stream"@, JsonView::Bool(config.stream), key);
    let o = o.with("stream"@, JsonView::Bool(config.stream));
    lemma_with_some_get(o, "stream_options"@, stream_options_field(config), key);
    let o = o.with_some("stream_options"@, stream_options_field(config));
    lemma_with_get(o, "messages"@, JsonView::Array(parts.messages), key);
    let o = o.with("messages"@, JsonView::Array(parts.messages));
    lemma_with_some_get(o, "temperature"@, number_field(request, "temperature"@), key);
    let o = o.with_some("temperature"@, number_field(request, "temperature"@));
    lemma_with_some_get(o, "top_p"@, number_field(request, "top_p"@), key);
    let o = o.with_some("top_p"@, number_field(request, "top_p"@));
    lemma_with_some_get(o, "top_k"@, number_field(request, "top_k"@), key);
    let o = o.with_some("top_k"@, number_field(request, "top_k"@));
    lemma_with_some_get(o, "stop"@, request.get("stop_sequences"@), key);
    let o = o.with_some("stop"@, request.get("stop_sequences"@));
    lemma_with_some_get(o, "user"@, user_id(request), key);
    let o = o.with_some("user"@, user_id(request));
    lemma_with_some_get(o, "tools"@, parts.tools, key);
    let o = o.with_some("tools"@, parts.tools);
    lemma_with_some_get(o, "tool_choice"@, choice_field(parts), key);
    let o = o.with_some("tool_choice"@, choice_field(parts));
    lemma_with_some_get(o, "parallel_tool_calls"@, parallel_field(parts), key);
    let o = o.with_some("parallel_tool_calls"@, parallel_field(parts));
    lemma_with_some_get(o, "chat_template_kwargs"@, template_field(request, config), key);
}

/// By their lengths and some of their letters, the names of the fields of a Chat Completions
/// request differ.
pub(crate) proof fn lemma_field_names_differ()
    ensures
        "model"@.len() == 5,
        "max_tokens"@.len() == 10,
        "stream"@.len() == 6,
        "stream_options"@.len() == 14,
        "messages"@.len() == 8,
        "temperature"@.len() == 11,
        "top_p"@.len() == 5,
        "top_k"@.len() == 5,
        "stop"@.len() == 4,
        "user"@.len() == 4,
        "tools"@.len() == 5,
        "tool_choice"@.len() == 11,
        "parallel_tool_calls"@.len() == 19,
        "chat_template_kwargs"@.len() == 20,
        "model"@[0] == 'm',
        "top_p"@[0] == 't',
        "top_k"@[0] == 't',
        "tools"@[0] == 't',
        "top_p"@[4] == 'p',
        "top_k"@[4] == 'k',
        "tools"@[4] == 's',
        "temperature"@[1] == 'e',
        "tool_choice"@[1] == 'o',
        "stop"@[0] == 's',
        "user"@[0] == 'u',
{
    reveal_strlit("model");
    reveal_strlit("max_tokens");
    reveal_strlit("stream");
    reveal_strlit("stream_options");
    reveal_strlit("messages");
    reveal_strlit("temperature");
    reveal_strlit("top_p");
    reveal_strlit("top_k");
    reveal_strlit("stop");
    reveal_strlit("user");
    reveal_strlit("tools");
    reveal_strlit("tool_choice");
    reveal_strlit("parallel_tool_calls");
    reveal_strlit("chat_template_kwargs");
}

/// What the client asks for reaches the model: each setting of the request that has a counterpart
/// in a Chat Completions request stands there with the same value, the tools and the choice among
/// them stand there as functions, and what the client leaves out is left out. A streamed response
/// is always asked for its usage.
pub proof fn lemma_settings_are_passed_on(body: JsonView)
    requires
        converted_request(body) is Ok,
    ensures
        ({
            let request = body->Object_0;
            let (chat, config) = converted_request(body)->Ok_0;
            &&& chat.get("model"@) == request.get("model"@)
            &&& chat.get("max_tokens"@) == request.get("max_tokens"@)
            &&& chat.get("stream"@) == Some(JsonView::Bool(config.stream))
            &&& chat.get("stream_options"@) == stream_options_field(config)
            &&& chat.get("temperature"@) == number_field(request, "temperature"@)
            &&& chat.get("top_p"@) == number_field(request, "top_p"@)
            &&& chat.get("top_k"@) == number_field(request, "top_k"@)
            &&& chat.get("stop"@) == request.get("stop_sequences"@)
            &&& chat.get("user"@) == user_id(request)
            &&& chat.get("tools"@) == tools_of(request)->Ok_0
            &&& chat.get("tool_choice"@) == match tool_choice_of(request)->Ok_0 {
                Some((choice, _)) => Some(choice),
                None => None::<JsonView>,
            }
            &&& chat.get("parallel_tool_calls"@) == match tool_choice_of(request)->Ok_0 {
                Some((_, Some(parallel))) => Some(JsonView::Bool(parallel)),
                _ => None::<JsonView>,
            }
            &&& tools_of(request) is Ok
            &&& tool_choice_of(request) is Ok
            &&& chat.get("chat_template_kwargs"@) == template_field(request, config)
        }),
{
    let request = body->Object_0;
    let (chat, config) = converted_request(body)->Ok_0;
    let parts = request_parts(request)->Ok_0;
    lemma_field_names_differ();
    lemma_chat_field(request, config, parts, "model"@);
    lemma_chat_field(request, config, parts, "max_tokens"@);
    lemma_chat_field(request, config, parts, "stream"@);
    lemma_chat_field(request, config, parts, "stream_options"@);
    lemma_chat_field(request, config, parts, "temperature"@);
    lemma_chat_field(request, config, parts, "top_p"@);
    lemma_chat_field(request, config, parts, "top_k"@);
    lemma_chat_field(request, config, parts, "stop"@);
    lemma_chat_field(request, config, parts, "user"@);
    lemma_chat_field(request, config, parts, "tools"@);
    lemma_chat_field(request, config, parts, "tool_choice"@);
    lemma_chat_field(request, config, parts, "parallel_tool_calls"@);
    lemma_chat_field(request, config, parts, "chat_template_kwargs"@);
}

/// The model reads the system prompt first, if there is one, and then the conversation.
pub proof fn lemma_system_prompt_comes_first(body: JsonView)
    requires
        converted_request(body) is Ok,
    ensures
        ({
            let request = body->Object_0;
            let messages = converted_request(body)->Ok_0.0.get_array("messages"@)->0;
            let system = match request.get("system"@) {
                Some(system) => plain_text(system, "system"@)->Ok_0,
                None => seq![],
            };
            let asked = JsonView::Object(request).get_array("messages"@)->0;
            let conversation = converted_messages(asked)->Ok_0;
            &&& converted_request(body)->Ok_0.0.get_array("messages"@) is Some
            &&& JsonView::Object(request).get_array("messages"@) is Some
            &&& converted_messages(asked) is Ok
            &&& request.get("system"@) is Some ==> plain_text(
                request.get("system"@)->0,
                "system"@,
            ) is Ok
            &&& if system.len() > 0 {
                messages == seq![message("system"@, JsonView::String(system))] + conversation
            } else {
                messages == conversation
            }
        }),
{
    let request = body->Object_0;
    let (chat, config) = converted_request(body)->Ok_0;
    let parts = request_parts(request)->Ok_0;
    lemma_field_names_differ();
    lemma_chat_field(request, config, parts, "messages"@);
    let conversation = converted_messages(
        JsonView::Object(request).get_array("messages"@)->0,
    )->Ok_0;
    assert(Seq::<JsonView>::empty() + conversation =~= conversation);
}

/// Reasoning is looked for in the text only if the client gets to see it.
pub proof fn lemma_fallback_needs_thinking(body: JsonView)
    requires
        converted_request(body) is Ok,
    ensures
        ({
            let config = converted_request(body)->Ok_0.1;
            config.raw_thinking_fallback ==> config.include_thinking
        }),
{
}

}
