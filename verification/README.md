# deepwiki_rs: the Codex OAuth client core, verified

The library (`src/`) holds the decisions of the Codex OAuth Responses API client and of the
agent builder, each with a contract that Verus proves:

- `text`: character-level string helpers (white space, trimming, joining, decimal notation).
- `json`: a JSON tree held as plain values and its mathematical view.
- `json_text`: finding the JSON document in a model's reply (whole reply, fenced code block,
  first balanced object, trimmed reply).
- `responses`: the reply text of a Responses API document and of its event stream.
- `extraction`: the prompt of each extraction attempt and the retry policy.
- `auth`: the OAuth session of `auth.json`, the ID-token payload, the request headers and the
  checks on the file.
- `client`: the base URL, the request body and the judgement of HTTP statuses.
- `agent_builder`: which agent is built, with or without the preset file tools.

`app/` holds what Verus does not see: file and environment access, HTTP through `reqwest`,
`serde` parsing into values, and the asynchronous retry loop that follows the library's
decisions.
