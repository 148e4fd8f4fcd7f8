use anthropic_compat::error::{
    error_response_text, error_type_for_status, upstream_error_json, AnthropicError,
};
use anthropic_compat::form::{cache_control, content_type, response_form, ResponseForm};
use anthropic_compat::interop::{from_serde, to_serde};
use anthropic_compat::request::ResponseConfig;

#[test]
fn error_types_by_status() {
    assert_eq!(error_type_for_status(400), "invalid_request_error");
    assert_eq!(error_type_for_status(422), "invalid_request_error");
    assert_eq!(error_type_for_status(401), "authentication_error");
    assert_eq!(error_type_for_status(403), "permission_error");
    assert_eq!(error_type_for_status(404), "not_found_error");
    assert_eq!(error_type_for_status(429), "rate_limit_error");
    assert_eq!(error_type_for_status(503), "overloaded_error");
    assert_eq!(error_type_for_status(529), "overloaded_error");
    assert_eq!(error_type_for_status(500), "api_error");
    assert_eq!(error_type_for_status(418), "api_error");
}

#[test]
fn error_bodies() {
    assert_eq!(
        to_serde(&AnthropicError::invalid("no").body()).to_string(),
        r#"{"type":"error","error":{"type":"invalid_request_error","message":"no"}}"#
    );
    let internal = AnthropicError::internal("down");
    assert_eq!(internal.status, 500);
    assert_eq!(
        to_serde(&internal.body()).to_string(),
        r#"{"type":"error","error":{"type":"api_error","message":"down"}}"#
    );
}

#[test]
fn upstream_errors() {
    let text = |status: u16, body: &str| error_response_text(status, body.as_bytes());
    let error = |kind: &str, message: &str| {
        format!(r#"{{"type":"error","error":{{"type":"{kind}","message":"{message}"}}}}"#)
    };
    assert_eq!(
        text(429, r#"{"error": {"message": "slow"}, "message": "top"}"#),
        error("rate_limit_error", "slow")
    );
    assert_eq!(
        text(404, r#"{"error": {"message": 1}, "message": "top"}"#),
        error("not_found_error", "top")
    );
    for body in ["", "no json", "[]", r#"{"error": "x"}"#, r#"{"message": null}"#] {
        assert_eq!(text(502, body), error("api_error", "upstream request failed"));
    }
    let value = from_serde(serde_json::from_str(r#"{"message": "m"}"#).unwrap());
    assert_eq!(
        to_serde(&upstream_error_json(401, &value)).to_string(),
        error("authentication_error", "m")
    );
}

#[test]
fn forms_of_responses() {
    let config = |stream: bool| ResponseConfig {
        model: "m".to_string(),
        stream,
        include_thinking: true,
        raw_thinking_fallback: false,
    };
    for status in 100..1000u16 {
        let success = axum::http::StatusCode::from_u16(status).unwrap().is_success();
        let form = response_form(status, &config(true));
        assert_eq!(form != ResponseForm::Error, success);
        assert_eq!(response_form(status, &config(false)) != ResponseForm::Error, success);
    }
    assert_eq!(response_form(200, &config(true)), ResponseForm::Stream);
    assert_eq!(response_form(299, &config(false)), ResponseForm::Message);
    assert_eq!(content_type(ResponseForm::Stream), "text/event-stream");
    assert_eq!(content_type(ResponseForm::Message), "application/json");
    assert_eq!(content_type(ResponseForm::Error), "application/json");
    assert_eq!(cache_control(ResponseForm::Stream), Some("no-cache"));
    assert_eq!(cache_control(ResponseForm::Message), None);
    assert_eq!(cache_control(ResponseForm::Error), None);
}
