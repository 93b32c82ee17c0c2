use deepwiki_rs::auth::{AuthClaims, AuthDotJson, CodexOAuthAuth, IdTokenPayload, TokenData};
use deepwiki_rs::json::JsonValue;
use deepwiki_rs::responses::{extract_responses_text, select_sse_text, sse_data_payloads};

fn to_json(v: &serde_json::Value) -> JsonValue {
    match v {
        serde_json::Value::Null => JsonValue::Null,
        serde_json::Value::Bool(b) => JsonValue::Bool(*b),
        serde_json::Value::Number(n) => JsonValue::Number(n.to_string()),
        serde_json::Value::String(s) => JsonValue::Str(s.clone()),
        serde_json::Value::Array(items) => JsonValue::Array(items.iter().map(to_json).collect()),
        serde_json::Value::Object(map) => {
            JsonValue::Object(map.iter().map(|(k, v)| (k.clone(), to_json(v))).collect())
        }
    }
}

fn obj(pairs: Vec<(&str, JsonValue)>) -> JsonValue {
    JsonValue::Object(pairs.into_iter().map(|(k, v)| (k.to_string(), v)).collect())
}

fn s(text: &str) -> JsonValue {
    JsonValue::Str(text.to_string())
}

fn stream_text(sse: &str) -> Option<String> {
    let events: Vec<Option<JsonValue>> = sse_data_payloads(sse)
        .iter()
        .map(|data| serde_json::from_str::<serde_json::Value>(data).ok().map(|v| to_json(&v)))
        .collect();
    select_sse_text(&events)
}

#[test]
fn extracts_responses_output_text() {
    let payload = obj(vec![("output_text", s("hello"))]);
    assert_eq!(extract_responses_text(&payload).unwrap(), "hello");
}

#[test]
fn extracts_nested_responses_text() {
    let payload = obj(vec![(
        "output",
        JsonValue::Array(vec![obj(vec![(
            "content",
            JsonValue::Array(vec![
                obj(vec![("type", s("output_text")), ("text", s("hel"))]),
                obj(vec![("type", s("output_text")), ("text", s("lo"))]),
            ]),
        )])]),
    )]);
    assert_eq!(extract_responses_text(&payload).unwrap(), "hello");
}

#[test]
fn extracts_streaming_responses_text_deltas() {
    let sse = r#"event: response.output_text.delta
data: {"type":"response.output_text.delta","delta":"hel"}

event: response.output_text.delta
data: {"type":"response.output_text.delta","delta":"lo"}

event: response.completed
data: {"type":"response.completed","response":{"output":[{"content":[{"type":"output_text","text":"ignored fallback"}]}]}}
"#;

    assert_eq!(stream_text(sse).unwrap(), "hello");
}

fn auth_from_content(content: &str) -> CodexOAuthAuth {
    let value: serde_json::Value = serde_json::from_str(content).unwrap();
    let tokens = value.get("tokens").map(|t| TokenData {
        access_token: t["access_token"].as_str().unwrap().to_string(),
        account_id: t.get("account_id").and_then(|a| a.as_str()).map(|a| a.to_string()),
        id_token: t["id_token"].as_str().unwrap().to_string(),
    });
    let claims: Option<AuthClaims> = match &tokens {
        Some(t) => match deepwiki_rs::auth::id_token_payload(&t.id_token) {
            IdTokenPayload::Decoded(_) => panic!("the token of this file does not decode"),
            _ => None,
        },
        None => None,
    };
    CodexOAuthAuth::from_auth_json(AuthDotJson { tokens }, claims).unwrap()
}

#[test]
fn parses_auth_json_without_exposing_tokens() {
    let content = r#"{
            "tokens": {
                "access_token": "access-token",
                "refresh_token": "refresh-token",
                "account_id": "account-1",
                "id_token": "not.a.jwt"
            }
        }"#;
    let auth = auth_from_content(content);
    assert_eq!(auth.access_token, "access-token");
    assert_eq!(auth.account_id.as_deref(), Some("account-1"));
    assert!(!auth.is_fedramp);
}
