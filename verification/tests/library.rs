use deepwiki_rs::agent_builder::{AgentBuilder, AgentTool, Config, LlmConfig, ProviderClient};
use deepwiki_rs::auth::{
    check_auth_file, codex_auth_path_parts, id_token_payload, AuthClaims, AuthDotJson, AuthError,
    AuthFileProblem, AuthPathBase, CodexOAuthAuth, HeaderError, IdTokenPayload, TokenData,
};
use deepwiki_rs::client::{check_status, normalize_codex_base_url, request_body, CodexOAuthClient, ResponsesError};
use deepwiki_rs::extraction::{build_extraction_prompt, AfterFailure, ExtractionAttempts};
use deepwiki_rs::json::JsonValue;
use deepwiki_rs::json_text::{extract_first_json_object, json_response_text, JsonResponseError};
use deepwiki_rs::responses::{extract_responses_text, select_sse_text, sse_data_payloads};

fn obj(pairs: Vec<(&str, JsonValue)>) -> JsonValue {
    JsonValue::Object(pairs.into_iter().map(|(k, v)| (k.to_string(), v)).collect())
}

fn s(text: &str) -> JsonValue {
    JsonValue::Str(text.to_string())
}

fn sample_auth(account: Option<&str>, fedramp: bool) -> CodexOAuthAuth {
    CodexOAuthAuth {
        access_token: "tok".to_string(),
        account_id: account.map(|a| a.to_string()),
        is_fedramp: fedramp,
    }
}

#[test]
fn first_json_object_is_found_after_prose() {
    let text = "prefix {\"a\": {\"b\": 1}} suffix {\"c\": 2}";
    assert_eq!(extract_first_json_object(text).as_deref(), Some("{\"a\": {\"b\": 1}}"));
}

#[test]
fn first_json_object_ignores_braces_in_strings() {
    let text = "x {\"s\": \"}\", \"t\": \"\\\"}\"} tail }";
    assert_eq!(extract_first_json_object(text).as_deref(), Some("{\"s\": \"}\", \"t\": \"\\\"}\"}"));
}

#[test]
fn first_json_object_absent_or_unclosed() {
    assert_eq!(extract_first_json_object("no braces here"), None);
    assert_eq!(extract_first_json_object("{ \"a\": 1"), None);
    assert_eq!(extract_first_json_object(""), None);
}

#[test]
fn json_reply_that_parses_is_kept() {
    assert_eq!(json_response_text("{\"a\":1}").unwrap(), "{\"a\":1}");
}

#[test]
fn json_reply_from_fenced_block() {
    let reply = "Here it is:\n```json\n{\"a\": 1}\n```\nDone.";
    assert_eq!(json_response_text(reply).unwrap(), "{\"a\": 1}");
}

#[test]
fn json_reply_from_embedded_object() {
    let reply = "The answer is {\"a\": [1, 2]} as requested.";
    assert_eq!(json_response_text(reply).unwrap(), "{\"a\": [1, 2]}");
}

#[test]
fn json_reply_without_json_is_an_error_that_quotes_the_start() {
    match json_response_text("not json at all") {
        Err(JsonResponseError::NotJson { preview }) => assert_eq!(preview, "not json at all"),
        Ok(t) => panic!("unexpected {}", t),
    }
    let long: String = "x".repeat(300);
    match json_response_text(&long) {
        Err(JsonResponseError::NotJson { preview }) => assert_eq!(preview, "x".repeat(200)),
        Ok(t) => panic!("unexpected {}", t),
    }
}

#[test]
fn base_url_is_normalized() {
    assert_eq!(normalize_codex_base_url("https://chatgpt.com/"), "https://chatgpt.com/backend-api/codex");
    assert_eq!(normalize_codex_base_url("https://chat.openai.com"), "https://chatgpt.com/backend-api/codex");
    assert_eq!(normalize_codex_base_url("https://example.com/v1///"), "https://example.com/v1");
    assert_eq!(normalize_codex_base_url("///"), "");
    let once = normalize_codex_base_url("https://chatgpt.com//");
    assert_eq!(normalize_codex_base_url(&once), once);
}

#[test]
fn client_urls() {
    let client = CodexOAuthClient::new("https://chatgpt.com/", 30, sample_auth(None, false));
    assert_eq!(client.base_url, "https://chatgpt.com/backend-api/codex");
    assert_eq!(client.responses_url(), "https://chatgpt.com/backend-api/codex/responses");
    assert_eq!(client.timeout_seconds, 30);
    let extractor = client.extractor("m".to_string(), "i".to_string(), 0);
    assert_eq!(extractor.attempts().total(), 1);
}

#[test]
fn statuses_are_judged() {
    assert_eq!(check_status(200), Ok(()));
    assert_eq!(check_status(299), Ok(()));
    assert_eq!(check_status(401), Err(ResponsesError::Unauthorized));
    assert_eq!(check_status(500), Err(ResponsesError::HttpStatus(500)));
    assert_eq!(check_status(199), Err(ResponsesError::HttpStatus(199)));
    assert_eq!(check_status(300), Err(ResponsesError::HttpStatus(300)));
}

#[test]
fn headers_of_a_full_session() {
    let h = sample_auth(Some("acc"), true).headers().unwrap();
    let expected = vec![
        ("content-type", "application/json"),
        ("authorization", "Bearer tok"),
        ("openai-beta", "responses=2025-06-21"),
        ("x-codex-client", "deepwiki-rs"),
        ("chatgpt-account-id", "acc"),
        ("x-openai-fedramp", "true"),
    ];
    let got: Vec<(&str, &str)> = h.iter().map(|(n, v)| (n.as_str(), v.as_str())).collect();
    assert_eq!(got, expected);
}

#[test]
fn headers_of_a_bare_session() {
    let h = sample_auth(None, false).headers().unwrap();
    assert_eq!(h.len(), 4);
    assert_eq!(h[1].1, "Bearer tok");
}

#[test]
fn headers_refuse_control_characters() {
    let mut bad_token = sample_auth(None, false);
    bad_token.access_token = "to\nk".to_string();
    assert_eq!(bad_token.headers(), Err(HeaderError::InvalidHeaderValue));
    let mut del = sample_auth(None, false);
    del.access_token = "tok\u{7f}".to_string();
    assert_eq!(del.headers(), Err(HeaderError::InvalidHeaderValue));
    assert_eq!(sample_auth(Some("a\rb"), false).headers(), Err(HeaderError::InvalidHeaderValue));
    let mut fine = sample_auth(Some("caf\u{e9}\tx"), false);
    fine.access_token = "t\tok".to_string();
    assert_eq!(fine.headers().unwrap().len(), 5);
}

#[test]
fn requests_are_built_or_refused() {
    let client = CodexOAuthClient::new("https://example.com/api/", 7, sample_auth(Some("acc"), false));
    let request = client.responses_request("m", "sys", "p", None).unwrap();
    assert_eq!(request.url, "https://example.com/api/responses");
    assert_eq!(request.timeout_seconds, 7);
    assert_eq!(request.headers[1].1, "Bearer tok");
    assert_eq!(request.body.get("instructions").unwrap().as_str().unwrap(), "sys");
    let refused = CodexOAuthClient::new("https://example.com", 7, sample_auth(Some("a\nb"), false));
    assert!(matches!(refused.responses_request("m", "", "p", None), Err(HeaderError::InvalidHeaderValue)));
}

#[test]
fn blank_token_account_falls_back_to_claims() {
    let tokens = TokenData {
        access_token: "a".to_string(),
        account_id: Some("  \t".to_string()),
        id_token: "x".to_string(),
    };
    let claims = AuthClaims { chatgpt_account_id: Some("claim-acc".to_string()), chatgpt_account_is_fedramp: true };
    let auth = CodexOAuthAuth::from_auth_json(AuthDotJson { tokens: Some(tokens) }, Some(claims)).unwrap();
    assert_eq!(auth.account_id.as_deref(), Some("claim-acc"));
    assert!(auth.is_fedramp);
}

#[test]
fn token_account_wins_over_claims() {
    let tokens = TokenData {
        access_token: "a".to_string(),
        account_id: Some("own".to_string()),
        id_token: "x".to_string(),
    };
    let claims = AuthClaims { chatgpt_account_id: Some("claim-acc".to_string()), chatgpt_account_is_fedramp: false };
    let auth = CodexOAuthAuth::from_auth_json(AuthDotJson { tokens: Some(tokens) }, Some(claims)).unwrap();
    assert_eq!(auth.account_id.as_deref(), Some("own"));
    assert!(!auth.is_fedramp);
}

#[test]
fn missing_tokens_are_an_error() {
    assert!(matches!(
        CodexOAuthAuth::from_auth_json(AuthDotJson { tokens: None }, None),
        Err(AuthError::MissingTokens)
    ));
}

#[test]
fn auth_path_parts() {
    let (base, parts) = codex_auth_path_parts(true, true);
    assert_eq!(base, AuthPathBase::CodexHome);
    assert_eq!(parts, vec!["auth.json".to_string()]);
    let (base, parts) = codex_auth_path_parts(false, true);
    assert_eq!(base, AuthPathBase::Home);
    assert_eq!(parts, vec![".codex".to_string(), "auth.json".to_string()]);
    let (base, _) = codex_auth_path_parts(false, false);
    assert_eq!(base, AuthPathBase::CurrentDir);
}

#[test]
fn auth_file_checks() {
    assert_eq!(check_auth_file(true, true, Some(0o600)), Err(AuthFileProblem::Symlink));
    assert_eq!(check_auth_file(false, false, Some(0o600)), Err(AuthFileProblem::NotRegularFile));
    assert_eq!(check_auth_file(false, true, Some(0o600)), Ok(()));
    assert_eq!(check_auth_file(false, true, Some(0o644)), Err(AuthFileProblem::GroupOrWorldAccess));
    assert_eq!(check_auth_file(false, true, Some(0o100640)), Err(AuthFileProblem::GroupOrWorldAccess));
    assert_eq!(check_auth_file(false, true, None), Ok(()));
}

#[test]
fn id_token_payload_is_decoded() {
    match id_token_payload("h.eyJhIjoxfQ.s") {
        IdTokenPayload::Decoded(bytes) => assert_eq!(bytes, b"{\"a\":1}".to_vec()),
        _ => panic!("expected a decoded payload"),
    }
    match id_token_payload("h.eyJhIjoxfQ.s.extra") {
        IdTokenPayload::Decoded(bytes) => assert_eq!(bytes, b"{\"a\":1}".to_vec()),
        _ => panic!("expected a decoded payload"),
    }
}

#[test]
fn id_token_payload_failures() {
    assert!(matches!(id_token_payload("onlyone"), IdTokenPayload::Malformed));
    assert!(matches!(id_token_payload("h.p"), IdTokenPayload::Malformed));
    assert!(matches!(id_token_payload("h..s"), IdTokenPayload::Malformed));
    assert!(matches!(id_token_payload(".p.s"), IdTokenPayload::Malformed));
    assert!(matches!(id_token_payload("h.p."), IdTokenPayload::Malformed));
    assert!(matches!(id_token_payload("h.!!!.s"), IdTokenPayload::Undecodable));
    assert!(matches!(id_token_payload("not.a.jwt"), IdTokenPayload::Undecodable));
}

const JSON_ONLY: &str =
    "\n\nReturn only a valid JSON object matching the requested schema. Do not add markdown or commentary.\n";

#[test]
fn extraction_prompts() {
    assert_eq!(build_extraction_prompt("Base", None), format!("Base{}", JSON_ONLY));
    assert_eq!(
        build_extraction_prompt("Base", Some("bad")),
        format!(
            "Base{}\nPrevious attempt failed with error: bad\nPlease fix these issues and regenerate.\n",
            JSON_ONLY
        )
    );
}

#[test]
fn attempts_retry_then_give_up() {
    let mut a = ExtractionAttempts::new(3);
    assert_eq!(a.attempt(), 1);
    assert_eq!(a.prompt("P"), build_extraction_prompt("P", None));
    assert!(matches!(a.record_failure("e1".to_string()), AfterFailure::RetryAfterMillis(3000)));
    assert_eq!(a.attempt(), 2);
    assert_eq!(a.prompt("P"), build_extraction_prompt("P", Some("e1")));
    assert!(matches!(a.record_failure("e2".to_string()), AfterFailure::RetryAfterMillis(3000)));
    assert_eq!(a.prompt("P"), build_extraction_prompt("P", Some("e2")));
    match a.record_failure("e3".to_string()) {
        AfterFailure::GiveUp(m) => assert_eq!(m, "Failed after 3 attempts. Last error: e3"),
        _ => panic!("expected to give up"),
    }
}

#[test]
fn attempts_at_least_one() {
    let mut a = ExtractionAttempts::new(0);
    assert_eq!(a.total(), 1);
    match a.record_failure("x".to_string()) {
        AfterFailure::GiveUp(m) => assert_eq!(m, "Failed after 1 attempts. Last error: x"),
        _ => panic!("expected to give up"),
    }
}

#[test]
fn attempts_count_in_decimal() {
    let mut a = ExtractionAttempts::new(12);
    for _ in 0..11 {
        assert!(matches!(a.record_failure("e".to_string()), AfterFailure::RetryAfterMillis(3000)));
    }
    match a.record_failure("last".to_string()) {
        AfterFailure::GiveUp(m) => assert_eq!(m, "Failed after 12 attempts. Last error: last"),
        _ => panic!("expected to give up"),
    }
}

fn config(disable: bool) -> Config {
    Config { llm: LlmConfig { model_efficient: "fast".to_string(), disable_preset_tools: disable } }
}

#[test]
fn agent_gets_tools_where_allowed() {
    let client = ProviderClient::new(true);
    let cfg = config(false);
    let agent = AgentBuilder::new(&client, &cfg).build_agent_with_tools("sys");
    assert_eq!(agent.model, "fast");
    assert!(agent.system_prompt.starts_with("sys\nDo not fabricate non-existent code."));
    assert!(agent.system_prompt.ends_with("obtain more contextual information"));
    assert_eq!(agent.tools, vec![AgentTool::FileExplorer, AgentTool::FileReader]);
}

#[test]
fn agent_without_tools_where_not_allowed() {
    let unsupported = ProviderClient::new(false);
    let supported = ProviderClient::new(true);
    let enabled = config(false);
    let disabled = config(true);
    for (client, cfg) in [(&unsupported, &enabled), (&supported, &disabled)] {
        let agent = AgentBuilder::new(client, cfg).build_agent_with_tools("sys");
        assert_eq!(agent.system_prompt, "sys");
        assert!(agent.tools.is_empty());
    }
    let plain = AgentBuilder::new(&supported, &enabled).build_agent_without_tools("sys");
    assert_eq!(plain.model, "fast");
    assert_eq!(plain.system_prompt, "sys");
    assert!(plain.tools.is_empty());
}

fn keys(v: &JsonValue) -> Vec<String> {
    match v {
        JsonValue::Object(pairs) => pairs.iter().map(|(k, _)| k.clone()).collect(),
        _ => Vec::new(),
    }
}

#[test]
fn request_bodies() {
    let body = request_body("m", "", "p", None);
    assert_eq!(
        keys(&body),
        vec!["model", "input", "tool_choice", "parallel_tool_calls", "store", "stream", "include"]
    );
    let input = body.get("input").unwrap().as_array().unwrap();
    let content = input[0].get("content").unwrap().as_array().unwrap();
    assert_eq!(content[0].get("text").unwrap().as_str().unwrap(), "p");
    assert!(matches!(body.get("stream"), Some(JsonValue::Bool(true))));
    let with = request_body("m", "sys", "p", Some(obj(vec![("format", s("json"))])));
    assert_eq!(keys(&with).len(), 9);
    assert_eq!(with.get("instructions").unwrap().as_str().unwrap(), "sys");
    assert!(with.get("text").unwrap().get("format").is_some());
}

#[test]
fn payloads_of_a_stream() {
    let sse = "event: a\ndata: one\ndata: two\n\nevent: b\n\n: comment\ndata: three\r\ndata: four";
    assert_eq!(sse_data_payloads(sse), vec!["one\ntwo".to_string(), "three\nfour".to_string()]);
    assert!(sse_data_payloads("").is_empty());
    assert_eq!(sse_data_payloads("data: x\n\n\ndata: y"), vec!["x".to_string(), "y".to_string()]);
    assert_eq!(sse_data_payloads("data:x\ndata: \r"), vec!["\r".to_string()]);
}

fn stream_text(sse: &str) -> Option<String> {
    let events: Vec<Option<JsonValue>> = sse_data_payloads(sse)
        .iter()
        .map(|data| {
            serde_json::from_str::<serde_json::Value>(data).ok().map(|v| match v.get("type").and_then(|t| t.as_str()) {
                Some(t) => obj(vec![
                    ("type", s(t)),
                    ("delta", s(v.get("delta").and_then(|d| d.as_str()).unwrap_or(""))),
                ]),
                None => JsonValue::Null,
            })
        })
        .collect();
    select_sse_text(&events)
}

#[test]
fn irrelevant_block_leaves_stream_text() {
    let a = "data: {\"type\":\"response.output_text.delta\",\"delta\":\"he\"}";
    let b = "data: {\"type\":\"response.output_text.delta\",\"delta\":\"y\"}";
    let base = format!("{}\n\n{}", a, b);
    for x in ["event: ping", "data: not json", "data: {\"type\":\"response.created\"}"] {
        let with = format!("{}\n\n{}\n\n{}", a, x, b);
        assert_eq!(stream_text(&with), stream_text(&base));
    }
    assert_eq!(stream_text(&base).as_deref(), Some("hey"));
}

#[test]
fn stream_falls_back_to_last_completed_response() {
    let completed = |t: &str| {
        Some(obj(vec![("type", s("response.completed")), ("response", obj(vec![("output_text", s(t))]))]))
    };
    let events = vec![completed("first"), None, completed("second"), Some(obj(vec![("type", s("other"))]))];
    assert_eq!(select_sse_text(&events).as_deref(), Some("second"));
    let none: Vec<Option<JsonValue>> = vec![None, Some(obj(vec![("type", s("response.completed"))]))];
    assert_eq!(select_sse_text(&none), None);
}

#[test]
fn deltas_win_over_completed_text() {
    let delta = |d: &str| Some(obj(vec![("type", s("response.output_text.delta")), ("delta", s(d))]));
    let done = Some(obj(vec![("type", s("response.completed")), ("response", obj(vec![("output_text", s("z"))]))]));
    let events = vec![delta("a"), done, delta("b")];
    assert_eq!(select_sse_text(&events).as_deref(), Some("ab"));
}

#[test]
fn responses_text_edge_cases() {
    assert_eq!(extract_responses_text(&obj(vec![("output", JsonValue::Array(vec![]))])), None);
    assert_eq!(extract_responses_text(&s("plain")), None);
    let not_string = obj(vec![
        ("output_text", JsonValue::Number("1".to_string())),
        ("output", JsonValue::Array(vec![obj(vec![("content", JsonValue::Array(vec![obj(vec![("text", s(""))])]))])])),
    ]);
    assert_eq!(extract_responses_text(&not_string).as_deref(), Some(""));
}
