//! The Codex Responses API client: its base URL, its requests and how replies are judged.
use vstd::prelude::*;

use crate::auth::{auth_headers, auth_headers_ok, header_views, opt_view, CodexOAuthAuth, HeaderError};
use crate::extraction::{attempt_budget, initial_attempts, ExtractionAttempts};
use crate::json::{lemma_lookup_absent, lemma_lookup_at, lookup, JsonValue, JsonView};
use crate::text::{str_chars, string_from_chars, trim_end_char, trim_end_matches_char};

verus! {

/// The Codex backend of ChatGPT.
pub open spec fn codex_backend_url() -> Seq<char> {
    "https://chatgpt.com/backend-api/codex"@
}

/// The base URL without trailing slashes; the ChatGPT site itself stands for its Codex backend.
pub open spec fn normalized_base_url(base_url: Seq<char>) -> Seq<char> {
    let trimmed = trim_end_char(base_url, '/');
    if trimmed == "https://chatgpt.com"@ || trimmed == "https://chat.openai.com"@ {
        codex_backend_url()
    } else {
        trimmed
    }
}

/// The base URL of the Responses API for a configured URL.
pub fn normalize_codex_base_url(base_url: &str) -> (r: String)
    ensures
        r@ == normalized_base_url(base_url@),
{
    let chars = str_chars(base_url);
    let trimmed = string_from_chars(trim_end_matches_char(&chars, '/').as_slice());
    if trimmed == "https://chatgpt.com".to_owned() || trimmed == "https://chat.openai.com".to_owned() {
        "https://chatgpt.com/backend-api/codex".to_owned()
    } else {
        trimmed
    }
}

proof fn lemma_trim_end_char(s: Seq<char>, c: char)
    ensures
        trim_end_char(s, c).len() == 0 || trim_end_char(s, c).last() != c,
        trim_end_char(trim_end_char(s, c), c) == trim_end_char(s, c),
    decreases s.len(),
{
    if s.len() > 0 && s.last() == c {
        lemma_trim_end_char(s.drop_last(), c);
    }
}

/// Normalizing a base URL twice gives what normalizing it once gives, and a normalized URL
/// never ends with a slash.
pub proof fn lemma_normalize_idempotent(base_url: Seq<char>)
    ensures
        normalized_base_url(normalized_base_url(base_url)) == normalized_base_url(base_url),
        normalized_base_url(base_url).len() == 0 || normalized_base_url(base_url).last() != '/',
{
    reveal_strlit("https://chatgpt.com/backend-api/codex");
    reveal_strlit("https://chatgpt.com");
    reveal_strlit("https://chat.openai.com");
    lemma_trim_end_char(base_url, '/');
    let t = trim_end_char(base_url, '/');
    let b = codex_backend_url();
    assert(b.last() == 'x');
    assert(trim_end_char(b, '/') == b);
    assert(b.len() != "https://chatgpt.com"@.len());
    assert(b.len() != "https://chat.openai.com"@.len());
}

/// How a reply's HTTP status is judged.
#[derive(Debug, PartialEq, Eq, Structural)]
pub enum ResponsesError {
    /// HTTP 401: the session was rejected; `codex login` renews it.
    Unauthorized,
    /// Any other status outside 200 to 299.
    HttpStatus(u16),
}

/// The status of a reply: success is 200 to 299; 401 means the session was rejected.
pub fn check_status(status: u16) -> (r: Result<(), ResponsesError>)
    ensures
        200 <= status <= 299 ==> r == Ok::<(), ResponsesError>(()),
        status == 401 ==> r == Err::<(), ResponsesError>(ResponsesError::Unauthorized),
        !(200 <= status <= 299) && status != 401 ==> r == Err::<(), ResponsesError>(
            ResponsesError::HttpStatus(status),
        ),
{
    if 200 <= status && status <= 299 {
        Ok(())
    } else if status == 401 {
        Err(ResponsesError::Unauthorized)
    } else {
        Err(ResponsesError::HttpStatus(status))
    }
}

/// The body of a Responses API request: one user message holding the prompt, no tools,
/// nothing stored, a streamed reply; the instructions where they are not empty and the text
/// format where one is given.
pub open spec fn request_body_view(
    model: Seq<char>,
    instructions: Seq<char>,
    prompt: Seq<char>,
    text: Option<JsonView>,
) -> JsonView {
    JsonView::Object(
        seq![
            ("model"@, JsonView::Str(model)),
            ("input"@, JsonView::Array(seq![JsonView::Object(seq![
                ("type"@, JsonView::Str("message"@)),
                ("role"@, JsonView::Str("user"@)),
                ("content"@, JsonView::Array(seq![JsonView::Object(seq![
                    ("type"@, JsonView::Str("input_text"@)),
                    ("text"@, JsonView::Str(prompt)),
                ])])),
            ])])),
            ("tool_choice"@, JsonView::Str("none"@)),
            ("parallel_tool_calls"@, JsonView::Bool(false)),
            ("store"@, JsonView::Bool(false)),
            ("stream"@, JsonView::Bool(true)),
            ("include"@, JsonView::Array(Seq::empty())),
        ] + if instructions.len() > 0 {
            seq![("instructions"@, JsonView::Str(instructions))]
        } else {
            Seq::empty()
        } + match text {
            Some(t) => seq![("text"@, t)],
            None => Seq::empty(),
        },
    )
}

proof fn lemma_body_pairs(instructions: Seq<char>, text: Option<JsonView>, pairs: Seq<(Seq<char>, JsonView)>)
    requires
        pairs.len() == 7 + (if instructions.len() > 0 { 1int } else { 0int }) + (if text is Some { 1int } else { 0int }),
        pairs[0].0 == "model"@,
        pairs[1].0 == "input"@,
        pairs[2].0 == "tool_choice"@,
        pairs[3].0 == "parallel_tool_calls"@,
        pairs[4].0 == "store"@,
        pairs[5].0 == "stream"@,
        pairs[6].0 == "include"@,
        instructions.len() > 0 ==> pairs[7].0 == "instructions"@,
        text is Some ==> pairs[pairs.len() - 1].0 == "text"@,
    ensures
        lookup(pairs, "model"@) == Some(pairs[0].1),
        lookup(pairs, "input"@) == Some(pairs[1].1),
        lookup(pairs, "tool_choice"@) == Some(pairs[2].1),
        lookup(pairs, "parallel_tool_calls"@) == Some(pairs[3].1),
        lookup(pairs, "store"@) == Some(pairs[4].1),
        lookup(pairs, "stream"@) == Some(pairs[5].1),
        lookup(pairs, "include"@) == Some(pairs[6].1),
        instructions.len() > 0 ==> lookup(pairs, "instructions"@) == Some(pairs[7].1),
        instructions.len() == 0 ==> lookup(pairs, "instructions"@) is None,
        text is Some ==> lookup(pairs, "text"@) == Some(pairs[pairs.len() - 1].1),
        text is None ==> lookup(pairs, "text"@) is None,
{
    reveal_strlit("model");
    reveal_strlit("input");
    reveal_strlit("tool_choice");
    reveal_strlit("parallel_tool_calls");
    reveal_strlit("store");
    reveal_strlit("stream");
    reveal_strlit("include");
    reveal_strlit("instructions");
    reveal_strlit("text");
    assert("model"@[0] == 'm');
    assert("input"@[0] == 'i');
    assert("input"@[2] == 'p');
    assert("tool_choice"@[0] == 't');
    assert("tool_choice"@[1] == 'o');
    assert("parallel_tool_calls"@[0] == 'p');
    assert("store"@[0] == 's');
    assert("store"@[2] == 'o');
    assert("stream"@[0] == 's');
    assert("stream"@[2] == 'r');
    assert("include"@[0] == 'i');
    assert("include"@[2] == 'c');
    assert("instructions"@[0] == 'i');
    assert("instructions"@[2] == 's');
    assert("text"@[0] == 't');
    assert("text"@[1] == 'e');
    lemma_lookup_at(pairs, "model"@, 0);
    assert forall|j: int| 0 <= j < 1 implies pairs[j].0 != "input"@ by {
        if j == 0 {
        }
    }
    lemma_lookup_at(pairs, "input"@, 1);
    assert forall|j: int| 0 <= j < 2 implies pairs[j].0 != "tool_choice"@ by {
        if j == 0 {
        } else if j == 1 {
        }
    }
    lemma_lookup_at(pairs, "tool_choice"@, 2);
    assert forall|j: int| 0 <= j < 3 implies pairs[j].0 != "parallel_tool_calls"@ by {
        if j == 0 {
        } else if j == 1 {
        } else if j == 2 {
        }
    }
    lemma_lookup_at(pairs, "parallel_tool_calls"@, 3);
    assert forall|j: int| 0 <= j < 4 implies pairs[j].0 != "store"@ by {
        if j == 0 {
        } else if j == 1 {
        } else if j == 2 {
        } else if j == 3 {
        }
    }
    lemma_lookup_at(pairs, "store"@, 4);
    assert forall|j: int| 0 <= j < 5 implies pairs[j].0 != "stream"@ by {
        if j == 0 {
        } else if j == 1 {
        } else if j == 2 {
        } else if j == 3 {
        } else if j == 4 {
        }
    }
    lemma_lookup_at(pairs, "stream"@, 5);
    assert forall|j: int| 0 <= j < 6 implies pairs[j].0 != "include"@ by {
        if j == 0 {
        } else if j == 1 {
        } else if j == 2 {
        } else if j == 3 {
        } else if j == 4 {
        } else if j == 5 {
        }
    }
    lemma_lookup_at(pairs, "include"@, 6);
    if instructions.len() > 0 {
        assert forall|j: int| 0 <= j < 7 implies pairs[j].0 != "instructions"@ by {
            if j == 0 {
        } else if j == 1 {
        } else if j == 2 {
        } else if j == 3 {
        } else if j == 4 {
        } else if j == 5 {
        } else if j == 6 {
        }
        }
        lemma_lookup_at(pairs, "instructions"@, 7);
    } else {
        assert forall|j: int| 0 <= j < pairs.len() implies pairs[j].0 != "instructions"@ by {
            if j == 0 {
        } else if j == 1 {
        } else if j == 2 {
        } else if j == 3 {
        } else if j == 4 {
        } else if j == 5 {
        } else if j == 6 {
        } else if j == 7 {
            }
        }
        lemma_lookup_absent(pairs, "instructions"@);
    }
    if text is Some {
        assert forall|j: int| 0 <= j < pairs.len() - 1 implies pairs[j].0 != "text"@ by {
            if j == 0 {
        } else if j == 1 {
        } else if j == 2 {
        } else if j == 3 {
        } else if j == 4 {
        } else if j == 5 {
        } else if j == 6 {
        } else if j == 7 {
        }
        }
        lemma_lookup_at(pairs, "text"@, pairs.len() - 1);
    } else {
        assert forall|j: int| 0 <= j < pairs.len() implies pairs[j].0 != "text"@ by {
            if j == 0 {
        } else if j == 1 {
        } else if j == 2 {
        } else if j == 3 {
        } else if j == 4 {
        } else if j == 5 {
        } else if j == 6 {
        } else if j == 7 {
        }
        }
        lemma_lookup_absent(pairs, "text"@);
    }
}

/// Whatever the model, instructions, prompt and text format, a request body names the
/// model, sends the prompt unchanged as the one user message, asks for no tool, no parallel
/// tool calls, no storage and a streamed reply, includes nothing more, carries the
/// instructions exactly when they are not empty and the text format exactly when one is given.
pub proof fn lemma_request_body_members(
    model: Seq<char>,
    instructions: Seq<char>,
    prompt: Seq<char>,
    text: Option<JsonView>,
)
    ensures
        request_body_view(model, instructions, prompt, text).get("model"@) == Some(JsonView::Str(model)),
        request_body_view(model, instructions, prompt, text).get("tool_choice"@) == Some(
            JsonView::Str("none"@),
        ),
        request_body_view(model, instructions, prompt, text).get("parallel_tool_calls"@) == Some(
            JsonView::Bool(false),
        ),
        request_body_view(model, instructions, prompt, text).get("store"@) == Some(JsonView::Bool(false)),
        request_body_view(model, instructions, prompt, text).get("stream"@) == Some(JsonView::Bool(true)),
        request_body_view(model, instructions, prompt, text).get("include"@) == Some(
            JsonView::Array(Seq::empty()),
        ),
        instructions.len() > 0 ==> request_body_view(model, instructions, prompt, text).get(
            "instructions"@,
        ) == Some(JsonView::Str(instructions)),
        instructions.len() == 0 ==> request_body_view(model, instructions, prompt, text).get(
            "instructions"@,
        ) is None,
        request_body_view(model, instructions, prompt, text).get("text"@) == text,
        request_body_view(model, instructions, prompt, text).get("input"@) == Some(
            JsonView::Array(
                seq![JsonView::Object(seq![
                    ("type"@, JsonView::Str("message"@)),
                    ("role"@, JsonView::Str("user"@)),
                    ("content"@, JsonView::Array(seq![JsonView::Object(seq![
                        ("type"@, JsonView::Str("input_text"@)),
                        ("text"@, JsonView::Str(prompt)),
                    ])])),
                ])],
            ),
        ),
{
    let pairs = request_body_view(model, instructions, prompt, text)->Object_0;
    lemma_body_pairs(instructions, text, pairs);
}

fn member(key: &str, value: JsonValue) -> (r: (String, JsonValue))
    ensures
        r.0@ == key@,
        r.1 == value,
{
    (key.to_owned(), value)
}

/// The body of a Responses API request (see `request_body_view`).
pub fn request_body(model: &str, instructions: &str, prompt: &str, text: Option<JsonValue>) -> (r: JsonValue)
    ensures
        r@.get("model"@) == Some(JsonView::Str(model@)),
        r@.get("tool_choice"@) == Some(JsonView::Str("none"@)),
        r@.get("parallel_tool_calls"@) == Some(JsonView::Bool(false)),
        r@.get("store"@) == Some(JsonView::Bool(false)),
        r@.get("stream"@) == Some(JsonView::Bool(true)),
        instructions@.len() > 0 ==> r@.get("instructions"@) == Some(JsonView::Str(instructions@)),
        instructions@.len() == 0 ==> r@.get("instructions"@) is None,
        r@ == request_body_view(
            model@,
            instructions@,
            prompt@,
            match text {
                Some(t) => Some(t@),
                None => None,
            },
        ),
{
    let mut part_members: Vec<(String, JsonValue)> = Vec::new();
    part_members.push(member("type", JsonValue::string("input_text")));
    part_members.push(member("text", JsonValue::string(prompt)));
    assert(part_members@.len() == 2);
    assert(part_members@[0].0@ == "type"@);
    assert(part_members@[0].1@ == JsonView::Str("input_text"@));
    assert(part_members@[1].1@ == JsonView::Str(prompt@));
    let part = JsonValue::object(part_members);
    let ghost part_view = JsonView::Object(
        seq![("type"@, JsonView::Str("input_text"@)), ("text"@, JsonView::Str(prompt@))],
    );
    assert(part@->Object_0 =~= part_view->Object_0);
    assert(part@ == part_view);
    let mut content: Vec<JsonValue> = Vec::new();
    content.push(part);
    let content = JsonValue::array(content);
    assert(content@->Array_0 =~= seq![part_view]);
    assert(content@ == JsonView::Array(seq![part_view]));
    let mut message: Vec<(String, JsonValue)> = Vec::new();
    message.push(member("type", JsonValue::string("message")));
    message.push(member("role", JsonValue::string("user")));
    message.push(member("content", content));
    let message = JsonValue::object(message);
    let ghost message_view = JsonView::Object(
        seq![
            ("type"@, JsonView::Str("message"@)),
            ("role"@, JsonView::Str("user"@)),
            ("content"@, JsonView::Array(seq![part_view])),
        ],
    );
    assert(message@->Object_0 =~= message_view->Object_0);
    assert(message@ == message_view);
    let mut input: Vec<JsonValue> = Vec::new();
    input.push(message);
    let input = JsonValue::array(input);
    assert(input@->Array_0 =~= seq![message_view]);
    assert(input@ == JsonView::Array(seq![message_view]));
    let empty = JsonValue::array(Vec::new());
    assert(empty@->Array_0 =~= Seq::<JsonView>::empty());
    assert(empty@ == JsonView::Array(Seq::empty()));
    let mut body: Vec<(String, JsonValue)> = Vec::new();
    body.push(member("model", JsonValue::string(model)));
    body.push(member("input", input));
    body.push(member("tool_choice", JsonValue::string("none")));
    body.push(member("parallel_tool_calls", JsonValue::Bool(false)));
    body.push(member("store", JsonValue::Bool(false)));
    body.push(member("stream", JsonValue::Bool(true)));
    body.push(member("include", empty));
    if !instructions.is_empty() {
        body.push(member("instructions", JsonValue::string(instructions)));
    }
    let ghost tv = match &text {
        Some(t) => Some(t@),
        None => None::<JsonView>,
    };
    match text {
        Some(t) => {
            body.push(member("text", t));
        },
        None => {},
    }
    let r = JsonValue::object(body);
    assert(r@->Object_0 =~= request_body_view(model@, instructions@, prompt@, tv)->Object_0);
    proof {
        lemma_request_body_members(model@, instructions@, prompt@, tv);
    }
    r
}

/// A client of the Codex Responses API: where it sends requests, with which credentials and
/// how long it waits.
pub struct CodexOAuthClient {
    pub base_url: String,
    pub auth: CodexOAuthAuth,
    pub timeout_seconds: u64,
}

impl Clone for CodexOAuthClient {
    fn clone(&self) -> (r: Self)
        ensures
            r == *self,
    {
        CodexOAuthClient {
            base_url: self.base_url.clone(),
            auth: self.auth.clone(),
            timeout_seconds: self.timeout_seconds,
        }
    }
}

impl CodexOAuthClient {
    /// A client of the API at `base_url` (normalized), with the given session and timeout.
    pub fn new(base_url: &str, timeout_seconds: u64, auth: CodexOAuthAuth) -> (r: Self)
        ensures
            r.base_url@ == normalized_base_url(base_url@),
            r.auth == auth,
            r.timeout_seconds == timeout_seconds,
    {
        CodexOAuthClient { base_url: normalize_codex_base_url(base_url), auth, timeout_seconds }
    }

    /// The URL of the Responses endpoint.
    pub fn responses_url(&self) -> (r: String)
        ensures
            r@ == self.base_url@ + "/responses"@,
    {
        let mut url = self.base_url.clone();
        url.append("/responses");
        url
    }

    /// The Responses API request for `prompt`: where it goes, its headers, its body and its
    /// timeout; an error, and so no request, where the session's header values are not valid.
    pub fn responses_request(
        &self,
        model: &str,
        instructions: &str,
        prompt: &str,
        text: Option<JsonValue>,
    ) -> (r: Result<ResponsesRequest, HeaderError>)
        ensures
            r is Err <==> !auth_headers_ok(self.auth.access_token@, opt_view(self.auth.account_id)),
            match r {
                Ok(req) => {
                    &&& req.url@ == self.base_url@ + "/responses"@
                    &&& header_views(req.headers@) == auth_headers(
                        self.auth.access_token@,
                        opt_view(self.auth.account_id),
                        self.auth.is_fedramp,
                    )
                    &&& req.body@ == request_body_view(
                        model@,
                        instructions@,
                        prompt@,
                        match text {
                            Some(t) => Some(t@),
                            None => None,
                        },
                    )
                    &&& req.timeout_seconds == self.timeout_seconds
                },
                Err(e) => e == HeaderError::InvalidHeaderValue,
            },
    {
        let ghost tv = match &text {
            Some(t) => Some(t@),
            None => None::<JsonView>,
        };
        let body = request_body(model, instructions, prompt, text);
        let headers = self.auth.headers()?;
        Ok(ResponsesRequest {
            url: self.responses_url(),
            headers,
            body,
            timeout_seconds: self.timeout_seconds,
        })
    }

    /// An extractor of structured values that asks `model` with `instructions` and makes at
    /// most `max_retries` attempts (at least one).
    pub fn extractor(&self, model: String, instructions: String, max_retries: u32) -> (r: CodexOAuthExtractor)
        ensures
            r.client == *self,
            r.model == model,
            r.instructions == instructions,
            r.max_retries == max_retries,
    {
        CodexOAuthExtractor { client: self.clone(), model, instructions, max_retries }
    }
}

/// A Responses API request, ready to send.
pub struct ResponsesRequest {
    pub url: String,
    pub headers: Vec<(String, String)>,
    pub body: JsonValue,
    pub timeout_seconds: u64,
}

/// What a structured extraction asks, and of whom.
pub struct CodexOAuthExtractor {
    pub client: CodexOAuthClient,
    pub model: String,
    pub instructions: String,
    pub max_retries: u32,
}

impl CodexOAuthExtractor {
    /// The retry state before the first attempt.
    pub fn attempts(&self) -> (r: ExtractionAttempts)
        ensures
            r@ == initial_attempts(self.max_retries),
            r@.total == attempt_budget(self.max_retries),
    {
        ExtractionAttempts::new(self.max_retries)
    }
}

} // verus!
