//! Finding the JSON text in a model's reply.
use vstd::prelude::*;

use crate::text::{find_char_from, first_index_of, str_chars, string_from_chars, take_chars, trim, trim_chars};

verus! {

/// Whether `serde_json` accepts `text` as one JSON document (a function of the text alone).
pub uninterp spec fn json_text_parses(text: Seq<char>) -> bool;

/// The text that capture group `group` of the leftmost match of the regular expression
/// `pattern` covers in `haystack`; nothing where the pattern does not compile, does not
/// match, or the group takes no part in the match.
pub uninterp spec fn regex_first_capture(pattern: Seq<char>, haystack: Seq<char>, group: usize) -> Option<
    Seq<char>,
>;

/// Calls `serde_json::from_str::<serde_json::Value>` and reports whether it succeeded.
/// Claimed: the outcome depends on the text alone; what the parser accepts is not stated.
#[verifier::external_body]
pub(crate) fn json_parses(text: &str) -> (r: bool)
    ensures
        r == json_text_parses(text@),
{
    serde_json::from_str::<serde_json::Value>(text).is_ok()
}

/// Compiles `pattern` with `regex::Regex::new`, runs `Regex::captures` on `haystack` and
/// returns the text of group `group` (`Captures::get`, `Match::as_str`).
/// Claimed: the result depends on the three arguments alone; the matching itself is not stated.
#[verifier::external_body]
pub(crate) fn regex_capture(pattern: &str, haystack: &str, group: usize) -> (r: Option<String>)
    ensures
        match r {
            Some(s) => regex_first_capture(pattern@, haystack@, group) == Some(s@),
            None => regex_first_capture(pattern@, haystack@, group) is None,
        },
{
    match regex::Regex::new(pattern) {
        Ok(re) => match re.captures(haystack) {
            Some(caps) => match caps.get(group) {
                Some(m) => Some(m.as_str().to_string()),
                None => None,
            },
            None => None,
        },
        Err(_) => None,
    }
}

/// The regular expression of a fenced JSON code block; group 1 is the object inside.
pub open spec fn code_block_pattern() -> Seq<char> {
    "```(?:json)?\\s*(\\{[\\s\\S]*?\\})\\s*```"@
}

/// Scanning `t` from index `i` with `depth` open braces, inside a string literal or not, and
/// with the next character escaped or not: the index of the brace that closes the outermost
/// object. Braces inside string literals do not count; a backslash inside a string literal
/// escapes the next character.
pub open spec fn object_end(t: Seq<char>, i: int, depth: int, in_string: bool, escape_next: bool) -> Option<int>
    decreases t.len() - i,
{
    if i < 0 || i >= t.len() {
        None
    } else if escape_next {
        object_end(t, i + 1, depth, in_string, false)
    } else if t[i] == '\\' && in_string {
        object_end(t, i + 1, depth, in_string, true)
    } else if t[i] == '"' {
        object_end(t, i + 1, depth, !in_string, false)
    } else if t[i] == '{' && !in_string {
        object_end(t, i + 1, depth + 1, in_string, false)
    } else if t[i] == '}' && !in_string {
        if depth - 1 == 0 {
            Some(i)
        } else {
            object_end(t, i + 1, depth - 1, in_string, false)
        }
    } else {
        object_end(t, i + 1, depth, in_string, false)
    }
}

/// The first balanced `{ ... }` of `t`, from its first `{` to the brace that closes it.
pub open spec fn first_json_object(t: Seq<char>) -> Option<Seq<char>> {
    match first_index_of(t, '{') {
        None => None,
        Some(start) => match object_end(t, start, 0, false, false) {
            Some(end) => Some(t.subrange(start, end + 1)),
            None => None,
        },
    }
}

/// The text of the first balanced JSON object in `text`, braces inside string literals
/// not counted.
pub fn extract_first_json_object(text: &str) -> (r: Option<String>)
    ensures
        match r {
            Some(s) => first_json_object(text@) == Some(s@),
            None => first_json_object(text@) is None,
        },
{
    let t = str_chars(text);
    let start: usize = match find_char_from(&t, 0, '{') {
        Some(k) => k,
        None => {
            assert(t@.skip(0) == t@);
            return None;
        },
    };
    assert(t@.skip(0) == t@);
    let mut depth: usize = 0;
    let mut in_string = false;
    let mut escape_next = false;
    let mut i: usize = start;
    while i < t.len()
        invariant
            start <= i <= t@.len(),
            t@ == text@,
            t@[start as int] == '{',
            first_index_of(t@, '{') == Some(start as int),
            i == start ==> depth == 0 && !in_string && !escape_next,
            i > start ==> depth >= 1,
            depth <= i - start,
            object_end(t@, start as int, 0, false, false) == object_end(
                t@,
                i as int,
                depth as int,
                in_string,
                escape_next,
            ),
        decreases t@.len() - i,
    {
        let c = t[i];
        if escape_next {
            escape_next = false;
        } else if c == '\\' && in_string {
            escape_next = true;
        } else if c == '"' {
            in_string = !in_string;
        } else if c == '{' && !in_string {
            depth = depth + 1;
        } else if c == '}' && !in_string {
            depth = depth - 1;
            if depth == 0 {
                let mut out: Vec<char> = Vec::new();
                let mut k: usize = start;
                let end: usize = i + 1;
                while k < end
                    invariant
                        start <= k <= end,
                        end <= t@.len(),
                        out@ == t@.subrange(start as int, k as int),
                    decreases end - k,
                {
                    out.push(t[k]);
                    k = k + 1;
                    assert(out@ == t@.subrange(start as int, k as int));
                }
                return Some(string_from_chars(out.as_slice()));
            }
        }
        i = i + 1;
    }
    None
}

proof fn lemma_first_index_of(s: Seq<char>, c: char)
    ensures
        first_index_of(s, c) matches Some(k) ==> 0 <= k < s.len() && s[k] == c && forall|j: int|
            0 <= j < k ==> s[j] != c,
    decreases s.len(),
{
    if s.len() > 0 && s[0] != c {
        lemma_first_index_of(s.drop_first(), c);
        if let Some(k) = first_index_of(s, c) {
            assert forall|j: int| 0 <= j < k implies s[j] != c by {
                if j > 0 {
                    assert(s[j] == s.drop_first()[j - 1]);
                }
            }
        }
    }
}

proof fn lemma_object_end(t: Seq<char>, i: int, depth: int, in_string: bool, escape_next: bool)
    ensures
        object_end(t, i, depth, in_string, escape_next) matches Some(e) ==> i <= e < t.len() && t[e]
            == '}',
    decreases t.len() - i,
{
    if 0 <= i < t.len() {
        let c = t[i];
        if escape_next {
            lemma_object_end(t, i + 1, depth, in_string, false);
        } else if c == '\\' && in_string {
            lemma_object_end(t, i + 1, depth, in_string, true);
        } else if c == '"' {
            lemma_object_end(t, i + 1, depth, !in_string, false);
        } else if c == '{' && !in_string {
            lemma_object_end(t, i + 1, depth + 1, in_string, false);
        } else if c == '}' && !in_string {
            if depth - 1 != 0 {
                lemma_object_end(t, i + 1, depth - 1, in_string, false);
            }
        } else {
            lemma_object_end(t, i + 1, depth, in_string, false);
        }
    }
}

/// The object found in a text is a piece of it that starts at its first `{` and ends with a
/// `}`.
pub proof fn lemma_first_json_object_shape(t: Seq<char>)
    ensures
        first_json_object(t) matches Some(o) ==> {
            let start = first_index_of(t, '{')->0;
            &&& 0 <= start && start + o.len() <= t.len()
            &&& o == t.subrange(start, start + o.len())
            &&& forall|j: int| 0 <= j < start ==> t[j] != '{'
            &&& o.len() >= 2
            &&& o[0] == '{'
            &&& o.last() == '}'
        },
{
    lemma_first_index_of(t, '{');
    if let Some(start) = first_index_of(t, '{') {
        lemma_object_end(t, start, 0, false, false);
    }
}

/// A character that is not `"`, a backslash or a brace leaves the scan as it is, inside a
/// string literal or outside one: only `"` opens and closes string literals.
pub proof fn lemma_plain_char_transparent(t: Seq<char>, i: int, depth: int, in_string: bool)
    requires
        0 <= i < t.len(),
        t[i] != '"',
        t[i] != '\\',
        t[i] != '{',
        t[i] != '}',
    ensures
        object_end(t, i, depth, in_string, false) == object_end(t, i + 1, depth, in_string, false),
{
}

proof fn lemma_inside_string(t: Seq<char>, j: int, k: int, depth: int)
    requires
        0 <= j <= k < t.len(),
        forall|m: int| j <= m < k ==> t[m] != '"' && t[m] != '\\',
    ensures
        object_end(t, j, depth, true, false) == object_end(t, k, depth, true, false),
    decreases k - j,
{
    if j < k {
        assert(t[j] != '"' && t[j] != '\\');
        lemma_inside_string(t, j + 1, k, depth);
    }
}

/// A string literal without backslashes is passed over whole: the braces and the other
/// characters inside it do not count, and the scan goes on after its closing `"`.
pub proof fn lemma_string_literal_skipped(t: Seq<char>, i: int, k: int, depth: int)
    requires
        0 <= i < k < t.len(),
        t[i] == '"',
        t[k] == '"',
        forall|m: int| i < m < k ==> t[m] != '"' && t[m] != '\\',
    ensures
        object_end(t, i, depth, false, false) == object_end(t, k + 1, depth, false, false),
{
    lemma_inside_string(t, i + 1, k, depth);
}

proof fn lemma_first_index_after(p: Seq<char>, rest: Seq<char>, c: char)
    requires
        rest.len() > 0,
        rest[0] == c,
        forall|j: int| 0 <= j < p.len() ==> p[j] != c,
    ensures
        first_index_of(p + rest, c) == Some(p.len() as int),
    decreases p.len(),
{
    if p.len() == 0 {
        assert(p + rest =~= rest);
    } else {
        assert((p + rest).drop_first() =~= p.drop_first() + rest);
        lemma_first_index_after(p.drop_first(), rest, c);
    }
}

proof fn lemma_flat_run(t: Seq<char>, j: int, k: int)
    requires
        0 <= j <= k < t.len(),
        forall|m: int| j <= m < k ==> t[m] != '"' && t[m] != '\\' && t[m] != '{' && t[m] != '}',
    ensures
        object_end(t, j, 1, false, false) == object_end(t, k, 1, false, false),
    decreases k - j,
{
    if j < k {
        lemma_plain_char_transparent(t, j, 1, false);
        lemma_flat_run(t, j + 1, k);
    }
}

/// An object with neither string literals nor nested braces, after text without `{`, is the
/// object found, whole, whatever follows it.
pub proof fn lemma_flat_object_found(p: Seq<char>, s: Seq<char>, q: Seq<char>)
    requires
        forall|j: int| 0 <= j < p.len() ==> p[j] != '{',
        forall|j: int|
            0 <= j < s.len() ==> s[j] != '"' && s[j] != '\\' && s[j] != '{' && s[j] != '}',
    ensures
        first_json_object(p + seq!['{'] + s + seq!['}'] + q) == Some(seq!['{'] + s + seq!['}']),
{
    let o = seq!['{'] + s + seq!['}'];
    let t = p + seq!['{'] + s + seq!['}'] + q;
    let l = p.len() as int;
    assert(t == p + (o + q));
    assert((o + q)[0] == '{');
    lemma_first_index_after(p, o + q, '{');
    assert(t[l] == '{');
    assert(t[l + 1 + s.len()] == '}');
    assert forall|m: int| l + 1 <= m < l + 1 + s.len() implies t[m] != '"' && t[m] != '\\' && t[m]
        != '{' && t[m] != '}' by {
        assert(t[m] == s[m - l - 1]);
    }
    lemma_flat_run(t, l + 1, l + 1 + s.len());
    assert(object_end(t, l, 0, false, false) == object_end(t, l + 1, 1, false, false));
    assert(object_end(t, l + 1 + s.len(), 1, false, false) == Some(l + 1 + s.len()));
    assert(t.subrange(l, l + 1 + s.len() + 1) =~= o);
}

/// The texts tried, in order, as the JSON of a reply: the whole reply, the object of a
/// fenced JSON code block, the first balanced object, and the reply without surrounding
/// white space.
pub open spec fn json_candidates(response: Seq<char>) -> Seq<Seq<char>> {
    seq![response] + match regex_first_capture(code_block_pattern(), response, 1) {
        Some(c) => seq![c],
        None => Seq::empty(),
    } + match first_json_object(response) {
        Some(o) => seq![o],
        None => Seq::empty(),
    } + seq![trim(response)]
}

/// The first of `candidates` that parses, by the flags in `parses`.
pub open spec fn first_parsing(candidates: Seq<Seq<char>>, parses: Seq<bool>) -> Option<Seq<char>>
    decreases candidates.len(),
{
    if candidates.len() == 0 || parses.len() == 0 {
        None
    } else if parses[0] {
        Some(candidates[0])
    } else {
        first_parsing(candidates.drop_first(), parses.drop_first())
    }
}

/// How many characters of a reply an error quotes.
pub open spec fn preview_len(response: Seq<char>) -> int {
    if response.len() <= 200 {
        response.len() as int
    } else {
        200
    }
}

/// A reply in which no JSON document was found.
#[derive(Debug)]
pub enum JsonResponseError {
    NotJson { preview: String },
}

/// The texts that are tried, in order, as the JSON document of `response`.
pub fn json_text_candidates(response: &str) -> (r: Vec<String>)
    ensures
        r@.len() == json_candidates(response@).len(),
        forall|i: int| 0 <= i < r@.len() ==> #[trigger] r@[i]@ == json_candidates(response@)[i],
{
    let mut r: Vec<String> = Vec::new();
    r.push(response.to_owned());
    let block = regex_capture("```(?:json)?\\s*(\\{[\\s\\S]*?\\})\\s*```", response, 1);
    match block {
        Some(b) => r.push(b),
        None => {},
    }
    let object = extract_first_json_object(response);
    match object {
        Some(o) => r.push(o),
        None => {},
    }
    let chars = str_chars(response);
    let trimmed = trim_chars(&chars);
    r.push(string_from_chars(trimmed.as_slice()));
    let ghost c = json_candidates(response@);
    assert(r@.len() == c.len());
    assert forall|i: int| 0 <= i < r@.len() implies #[trigger] r@[i]@ == c[i] by {}
    r
}

/// The first candidate that parses; where none does, the error that quotes the start of
/// `response`.
pub fn choose_json_text(candidates: Vec<String>, parses: &Vec<bool>, response: &str) -> (r: Result<
    String,
    JsonResponseError,
>)
    requires
        candidates@.len() == parses@.len(),
    ensures
        match r {
            Ok(t) => first_parsing(Seq::new(candidates@.len(), |i: int| candidates@[i]@), parses@)
                == Some(t@),
            Err(JsonResponseError::NotJson { preview }) => first_parsing(
                Seq::new(candidates@.len(), |i: int| candidates@[i]@),
                parses@,
            ) is None && preview@ == response@.take(preview_len(response@)),
        },
{
    let ghost cv = Seq::new(candidates@.len(), |i: int| candidates@[i]@);
    let mut i: usize = 0;
    let mut rest = candidates;
    assert(cv.skip(0) == cv);
    assert(parses@.skip(0) == parses@);
    while i < parses.len()
        invariant
            i <= parses@.len(),
            rest@.len() == parses@.len() - i,
            cv.len() == parses@.len(),
            cv == Seq::new(candidates@.len(), |k: int| candidates@[k]@),
            forall|j: int| 0 <= j < rest@.len() ==> #[trigger] rest@[j]@ == cv[j + i],
            first_parsing(cv, parses@) == first_parsing(cv.skip(i as int), parses@.skip(i as int)),
        decreases parses@.len() - i,
    {
        let ghost before = rest@;
        let c = rest.remove(0);
        assert(c@ == cv[i as int]);
        if parses[i] {
            assert(cv.skip(i as int)[0] == cv[i as int]);
            assert(parses@.skip(i as int)[0] == parses@[i as int]);
            assert(cv.skip(i as int).len() > 0);
            return Ok(c);
        }
        assert(cv.skip(i as int).drop_first() == cv.skip(i + 1));
        assert(parses@.skip(i as int).drop_first() == parses@.skip(i + 1));
        assert forall|j: int| 0 <= j < rest@.len() implies #[trigger] rest@[j]@ == cv[j + i + 1] by {
            assert(rest@[j] == before[j + 1]);
        }
        i = i + 1;
    }
    Err(JsonResponseError::NotJson { preview: take_chars(response, 200) })
}

/// The JSON text of a model's reply: the first of the candidates that parses.
pub fn json_response_text(response: &str) -> (r: Result<String, JsonResponseError>)
    ensures
        match r {
            Ok(t) => first_parsing(
                json_candidates(response@),
                json_candidates(response@).map_values(|c: Seq<char>| json_text_parses(c)),
            ) == Some(t@),
            Err(JsonResponseError::NotJson { preview }) => first_parsing(
                json_candidates(response@),
                json_candidates(response@).map_values(|c: Seq<char>| json_text_parses(c)),
            ) is None && preview@ == response@.take(preview_len(response@)),
        },
{
    let candidates = json_text_candidates(response);
    let mut parses: Vec<bool> = Vec::new();
    let mut i: usize = 0;
    while i < candidates.len()
        invariant
            i <= candidates@.len(),
            parses@.len() == i,
            forall|j: int| 0 <= j < i ==> #[trigger] parses@[j] == json_text_parses(candidates@[j]@),
        decreases candidates@.len() - i,
    {
        let p = json_parses(candidates[i].as_str());
        parses.push(p);
        i = i + 1;
    }
    let ghost cv = Seq::new(candidates@.len(), |k: int| candidates@[k]@);
    assert(cv =~= json_candidates(response@));
    assert(parses@ =~= json_candidates(response@).map_values(|c: Seq<char>| json_text_parses(c)));
    choose_json_text(candidates, &parses, response)
}

/// A reply that is itself one JSON document is taken whole.
pub proof fn lemma_json_reply_kept(response: Seq<char>)
    requires
        json_text_parses(response),
    ensures
        first_parsing(
            json_candidates(response),
            json_candidates(response).map_values(|c: Seq<char>| json_text_parses(c)),
        ) == Some(response),
{
    let c = json_candidates(response);
    assert(c[0] == response);
    assert(c.map_values(|c: Seq<char>| json_text_parses(c))[0]);
}

} // verus!
