//! The text of a Responses API reply, from a JSON document or from its event stream.
use vstd::prelude::*;

use crate::json::{JsonValue, JsonView};
use crate::text::{
    has_prefix, join, join_chars, lemma_flatten_concat, lemma_join_without_separator, starts_with_chars,
    str_chars, string_from_chars, views,
};

verus! {

/// The `text` strings of the content parts, in order.
pub open spec fn part_texts(parts: Seq<JsonView>) -> Seq<Seq<char>>
    decreases parts.len(),
{
    if parts.len() == 0 {
        Seq::empty()
    } else {
        let rest = part_texts(parts.drop_last());
        match parts.last().str_field("text"@) {
            Some(t) => rest.push(t),
            None => rest,
        }
    }
}

/// The `text` strings of the `content` arrays of the output items, in order.
pub open spec fn output_texts(items: Seq<JsonView>) -> Seq<Seq<char>>
    decreases items.len(),
{
    if items.len() == 0 {
        Seq::empty()
    } else {
        output_texts(items.drop_last()) + match items.last().array_field("content"@) {
            Some(parts) => part_texts(parts),
            None => Seq::empty(),
        }
    }
}

/// The text of a Responses API reply: its `output_text` string, else the concatenated texts
/// of the content parts of its `output` items, where there is at least one.
pub open spec fn document_text(j: JsonView) -> Option<Seq<char>> {
    match j.str_field("output_text"@) {
        Some(t) => Some(t),
        None => match j.array_field("output"@) {
            None => None,
            Some(items) => if output_texts(items).len() == 0 {
                None
            } else {
                Some(join(output_texts(items), Seq::empty()))
            },
        },
    }
}

fn str_field<'a>(j: &'a JsonValue, key: &str) -> (r: Option<&'a String>)
    ensures
        match r {
            Some(s) => j@.str_field(key@) == Some(s@),
            None => j@.str_field(key@) is None,
        },
{
    match j.get(key) {
        Some(v) => v.as_str(),
        None => None,
    }
}

fn array_field<'a>(j: &'a JsonValue, key: &str) -> (r: Option<&'a Vec<JsonValue>>)
    ensures
        match r {
            Some(items) => j@.array_field(key@) == Some(Seq::new(items@.len(), |i: int| items@[i]@)),
            None => j@.array_field(key@) is None,
        },
{
    match j.get(key) {
        Some(v) => v.as_array(),
        None => None,
    }
}

/// The text of a Responses API reply (see `document_text`).
pub fn extract_responses_text(json: &JsonValue) -> (r: Option<String>)
    ensures
        match r {
            Some(s) => document_text(json@) == Some(s@),
            None => document_text(json@) is None,
        },
{
    match str_field(json, "output_text") {
        Some(t) => {
            return Some(t.clone());
        },
        None => {},
    }
    let output = match array_field(json, "output") {
        Some(items) => items,
        None => {
            return None;
        },
    };
    let ghost vitems = Seq::new(output@.len(), |i: int| output@[i]@);
    let mut chunks: Vec<Vec<char>> = Vec::new();
    let mut i: usize = 0;
    assert(vitems.take(0) == Seq::<JsonView>::empty());
    while i < output.len()
        invariant
            i <= output@.len(),
            vitems == Seq::new(output@.len(), |k: int| output@[k]@),
            views(chunks@) == output_texts(vitems.take(i as int)),
        decreases output@.len() - i,
    {
        assert(vitems.take(i + 1).drop_last() == vitems.take(i as int));
        assert(vitems.take(i + 1).last() == output@[i as int]@);
        let ghost before = views(chunks@);
        match array_field(&output[i], "content") {
            Some(parts) => {
                let ghost vparts = Seq::new(parts@.len(), |k: int| parts@[k]@);
                let mut k: usize = 0;
                assert(vparts.take(0) == Seq::<JsonView>::empty());
                while k < parts.len()
                    invariant
                        k <= parts@.len(),
                        vparts == Seq::new(parts@.len(), |q: int| parts@[q]@),
                        views(chunks@) == before + part_texts(vparts.take(k as int)),
                    decreases parts@.len() - k,
                {
                    assert(vparts.take(k + 1).drop_last() == vparts.take(k as int));
                    assert(vparts.take(k + 1).last() == parts@[k as int]@);
                    match str_field(&parts[k], "text") {
                        Some(t) => {
                            let ghost mid = chunks@;
                            chunks.push(str_chars(t.as_str()));
                            assert(views(chunks@) == views(mid).push(t@));
                        },
                        None => {},
                    }
                    k = k + 1;
                }
                assert(vparts.take(parts@.len() as int) == vparts);
            },
            None => {
                assert(views(chunks@) == before + Seq::<Seq<char>>::empty());
            },
        }
        i = i + 1;
    }
    assert(vitems.take(output@.len() as int) == vitems);
    if chunks.len() == 0 {
        None
    } else {
        let empty: Vec<char> = Vec::new();
        let joined = join_chars(&chunks, &empty);
        Some(string_from_chars(joined.as_slice()))
    }
}

/// `s` split at each blank line (each `"\n\n"`, leftmost first), as `str::split("\n\n")`
/// splits it: the pieces from `start`, scanning from `i`.
pub open spec fn blocks_from(s: Seq<char>, start: int, i: int) -> Seq<Seq<char>>
    decreases s.len() - i,
{
    if i + 1 >= s.len() {
        seq![s.subrange(start, s.len() as int)]
    } else if s[i] == '\n' && s[i + 1] == '\n' {
        seq![s.subrange(start, i)] + blocks_from(s, i + 2, i + 2)
    } else {
        blocks_from(s, start, i + 1)
    }
}

/// The blocks of an event stream: `s` split at each `"\n\n"`.
pub open spec fn sse_blocks(s: Seq<char>) -> Seq<Seq<char>> {
    blocks_from(s, 0, 0)
}

/// `t` without one trailing carriage return.
pub open spec fn strip_cr(t: Seq<char>) -> Seq<char> {
    if t.len() > 0 && t.last() == '\r' {
        t.drop_last()
    } else {
        t
    }
}

/// The lines of `s` as `str::lines` gives them, from `start`, scanning from `i`: pieces
/// ended by `'\n'` lose it and one `'\r'` before it; a last piece without `'\n'` stays
/// as it is; no empty piece follows a final `'\n'`.
pub open spec fn lines_from(s: Seq<char>, start: int, i: int) -> Seq<Seq<char>>
    decreases s.len() - i,
{
    if i >= s.len() {
        if start < s.len() {
            seq![s.subrange(start, s.len() as int)]
        } else {
            Seq::empty()
        }
    } else if s[i] == '\n' {
        seq![strip_cr(s.subrange(start, i))] + lines_from(s, i + 1, i + 1)
    } else {
        lines_from(s, start, i + 1)
    }
}

/// The lines of `s`.
pub open spec fn lines(s: Seq<char>) -> Seq<Seq<char>> {
    lines_from(s, 0, 0)
}

/// The prefix that marks a data line of an event stream.
pub open spec fn data_prefix() -> Seq<char> {
    "data: "@
}

/// The data of the lines that start with `"data: "`, in order.
pub open spec fn data_lines(ls: Seq<Seq<char>>) -> Seq<Seq<char>>
    decreases ls.len(),
{
    if ls.len() == 0 {
        Seq::empty()
    } else {
        let rest = data_lines(ls.drop_last());
        if has_prefix(ls.last(), data_prefix()) {
            rest.push(ls.last().skip(data_prefix().len() as int))
        } else {
            rest
        }
    }
}

/// For each block with at least one data line, its data lines joined by `'\n'`.
pub open spec fn block_payloads(blocks: Seq<Seq<char>>) -> Seq<Seq<char>>
    decreases blocks.len(),
{
    if blocks.len() == 0 {
        Seq::empty()
    } else {
        let rest = block_payloads(blocks.drop_last());
        let d = data_lines(lines(blocks.last()));
        if d.len() == 0 {
            rest
        } else {
            rest.push(join(d, seq!['\n']))
        }
    }
}

/// The data payloads of an event stream, one per block that has data lines.
pub open spec fn sse_payloads(s: Seq<char>) -> Seq<Seq<char>> {
    block_payloads(sse_blocks(s))
}

fn copy_range(s: &Vec<char>, from: usize, to: usize) -> (r: Vec<char>)
    requires
        from <= to <= s@.len(),
    ensures
        r@ == s@.subrange(from as int, to as int),
{
    let mut r: Vec<char> = Vec::new();
    let mut k: usize = from;
    while k < to
        invariant
            from <= k <= to <= s@.len(),
            r@ == s@.subrange(from as int, k as int),
        decreases to - k,
    {
        r.push(s[k]);
        k = k + 1;
        assert(r@ == s@.subrange(from as int, k as int));
    }
    r
}

/// `s` split at each `"\n\n"`.
fn split_blocks(s: &Vec<char>) -> (r: Vec<Vec<char>>)
    ensures
        views(r@) == sse_blocks(s@),
{
    let mut r: Vec<Vec<char>> = Vec::new();
    let mut start: usize = 0;
    let mut i: usize = 0;
    while i < s.len() && i + 1 < s.len()
        invariant
            start <= i <= s@.len(),
            start <= s@.len(),
            sse_blocks(s@) == views(r@) + blocks_from(s@, start as int, i as int),
        decreases s@.len() - i,
    {
        if s[i] == '\n' && s[i + 1] == '\n' {
            let ghost before = views(r@);
            r.push(copy_range(s, start, i));
            assert(views(r@) == before.push(s@.subrange(start as int, i as int)));
            assert(before + blocks_from(s@, start as int, i as int) == views(r@) + blocks_from(
                s@,
                i + 2,
                i + 2,
            ));
            start = i + 2;
            i = i + 2;
        } else {
            i = i + 1;
        }
    }
    let ghost before = views(r@);
    r.push(copy_range(s, start, s.len()));
    assert(views(r@) == before.push(s@.subrange(start as int, s@.len() as int)));
    r
}

/// The lines of `s`.
fn split_lines(s: &Vec<char>) -> (r: Vec<Vec<char>>)
    ensures
        views(r@) == lines(s@),
{
    let mut r: Vec<Vec<char>> = Vec::new();
    let mut start: usize = 0;
    let mut i: usize = 0;
    while i < s.len()
        invariant
            start <= i <= s@.len(),
            lines(s@) == views(r@) + lines_from(s@, start as int, i as int),
        decreases s@.len() - i,
    {
        if s[i] == '\n' {
            let mut end: usize = i;
            if end > start && s[end - 1] == '\r' {
                assert(s@.subrange(start as int, i as int).drop_last() == s@.subrange(
                    start as int,
                    i - 1,
                ));
                end = end - 1;
            }
            let ghost before = views(r@);
            r.push(copy_range(s, start, end));
            assert(views(r@) == before.push(strip_cr(s@.subrange(start as int, i as int))));
            start = i + 1;
        }
        i = i + 1;
    }
    if start < s.len() {
        let ghost before = views(r@);
        r.push(copy_range(s, start, s.len()));
        assert(views(r@) == before.push(s@.subrange(start as int, s@.len() as int)));
    } else {
        assert(views(r@) + Seq::<Seq<char>>::empty() == views(r@));
    }
    r
}

/// The data of the data lines of `ls`.
fn collect_data_lines(ls: &Vec<Vec<char>>) -> (r: Vec<Vec<char>>)
    ensures
        views(r@) == data_lines(views(ls@)),
{
    let prefix = str_chars("data: ");
    proof {
        reveal_strlit("data: ");
    }
    let mut r: Vec<Vec<char>> = Vec::new();
    let mut i: usize = 0;
    assert(views(ls@).take(0) == Seq::<Seq<char>>::empty());
    while i < ls.len()
        invariant
            i <= ls@.len(),
            prefix@ == data_prefix(),
            prefix@.len() == 6,
            views(r@) == data_lines(views(ls@).take(i as int)),
        decreases ls@.len() - i,
    {
        assert(views(ls@).take(i + 1).drop_last() == views(ls@).take(i as int));
        assert(views(ls@).take(i + 1).last() == ls@[i as int]@);
        if starts_with_chars(&ls[i], &prefix) {
            let ghost before = views(r@);
            r.push(copy_range(&ls[i], prefix.len(), ls[i].len()));
            assert(ls@[i as int]@.subrange(6, ls@[i as int]@.len() as int) == ls@[i as int]@.skip(6));
            assert(views(r@) == before.push(ls@[i as int]@.skip(6)));
        }
        i = i + 1;
    }
    assert(views(ls@).take(ls@.len() as int) == views(ls@));
    r
}

/// The data payloads of an event stream: for each block (blocks are separated by a blank
/// line) that has lines starting with `"data: "`, the rest of those lines joined by `'\n'`.
pub fn sse_data_payloads(sse: &str) -> (r: Vec<String>)
    ensures
        r@.len() == sse_payloads(sse@).len(),
        forall|i: int| 0 <= i < r@.len() ==> #[trigger] r@[i]@ == sse_payloads(sse@)[i],
{
    let s = str_chars(sse);
    let blocks = split_blocks(&s);
    let newline: Vec<char> = vec!['\n'];
    let mut r: Vec<String> = Vec::new();
    let mut i: usize = 0;
    assert(views(blocks@).take(0) == Seq::<Seq<char>>::empty());
    while i < blocks.len()
        invariant
            i <= blocks@.len(),
            newline@ == seq!['\n'],
            views(blocks@) == sse_blocks(sse@),
            r@.len() == block_payloads(views(blocks@).take(i as int)).len(),
            forall|k: int|
                0 <= k < r@.len() ==> #[trigger] r@[k]@ == block_payloads(views(blocks@).take(i as int))[k],
        decreases blocks@.len() - i,
    {
        assert(views(blocks@).take(i + 1).drop_last() == views(blocks@).take(i as int));
        assert(views(blocks@).take(i + 1).last() == blocks@[i as int]@);
        let ls = split_lines(&blocks[i]);
        let data = collect_data_lines(&ls);
        if data.len() > 0 {
            let joined = join_chars(&data, &newline);
            r.push(string_from_chars(joined.as_slice()));
        }
        i = i + 1;
    }
    assert(views(blocks@).take(blocks@.len() as int) == views(blocks@));
    r
}

/// The views of parsed events; an event that did not parse is nothing.
pub open spec fn event_views(events: Seq<Option<JsonValue>>) -> Seq<Option<JsonView>> {
    Seq::new(
        events.len(),
        |i: int|
            match events[i] {
                Some(j) => Some(j@),
                None => None,
            },
    )
}

/// The event's `type` is `t`.
pub open spec fn has_type(j: JsonView, t: Seq<char>) -> bool {
    j.str_field("type"@) == Some(t)
}

/// The `delta` strings of the `response.output_text.delta` events, in order.
pub open spec fn delta_chunks(events: Seq<Option<JsonView>>) -> Seq<Seq<char>>
    decreases events.len(),
{
    if events.len() == 0 {
        Seq::empty()
    } else {
        let rest = delta_chunks(events.drop_last());
        match events.last() {
            Some(j) => if has_type(j, "response.output_text.delta"@) {
                match j.str_field("delta"@) {
                    Some(d) => rest.push(d),
                    None => rest,
                }
            } else {
                rest
            },
            None => rest,
        }
    }
}

/// The reply text of the last `response.completed` event whose `response` has one.
pub open spec fn completed_text(events: Seq<Option<JsonView>>) -> Option<Seq<char>>
    decreases events.len(),
{
    if events.len() == 0 {
        None
    } else {
        let earlier = completed_text(events.drop_last());
        match events.last() {
            Some(j) => if has_type(j, "response.completed"@) {
                match j.get("response"@) {
                    Some(resp) => match document_text(resp) {
                        Some(t) => Some(t),
                        None => earlier,
                    },
                    None => earlier,
                }
            } else {
                earlier
            },
            None => earlier,
        }
    }
}

/// The text of an event stream: the concatenated deltas where there are any, else the text
/// of the last completed response.
pub open spec fn sse_text(events: Seq<Option<JsonView>>) -> Option<Seq<char>> {
    if delta_chunks(events).len() > 0 {
        Some(join(delta_chunks(events), Seq::empty()))
    } else {
        completed_text(events)
    }
}

/// The text of an event stream whose data payloads were parsed into `events` (nothing for
/// a payload that is not JSON).
pub fn select_sse_text(events: &Vec<Option<JsonValue>>) -> (r: Option<String>)
    ensures
        match r {
            Some(s) => sse_text(event_views(events@)) == Some(s@),
            None => sse_text(event_views(events@)) is None,
        },
{
    let ghost ev = event_views(events@);
    let delta_type = "response.output_text.delta".to_owned();
    let completed_type = "response.completed".to_owned();
    let mut chunks: Vec<Vec<char>> = Vec::new();
    let mut completed: Option<String> = None;
    let mut i: usize = 0;
    assert(ev.take(0) == Seq::<Option<JsonView>>::empty());
    while i < events.len()
        invariant
            i <= events@.len(),
            ev == event_views(events@),
            delta_type@ == "response.output_text.delta"@,
            completed_type@ == "response.completed"@,
            views(chunks@) == delta_chunks(ev.take(i as int)),
            match completed {
                Some(t) => completed_text(ev.take(i as int)) == Some(t@),
                None => completed_text(ev.take(i as int)) is None,
            },
        decreases events@.len() - i,
    {
        assert(ev.take(i + 1).drop_last() == ev.take(i as int));
        assert(ev.take(i + 1).last() == ev[i as int]);
        proof {
            reveal_strlit("response.output_text.delta");
            reveal_strlit("response.completed");
            assert("response.output_text.delta"@[9] != "response.completed"@[9]);
        }
        match &events[i] {
            Some(j) => {
                match str_field(j, "type") {
                    Some(t) => {
                        if *t == delta_type {
                            match str_field(j, "delta") {
                                Some(d) => {
                                    let ghost before = chunks@;
                                    chunks.push(str_chars(d.as_str()));
                                    assert(views(chunks@) == views(before).push(d@));
                                },
                                None => {},
                            }
                        } else if *t == completed_type {
                            match j.get("response") {
                                Some(resp) => match extract_responses_text(resp) {
                                    Some(text) => {
                                        completed = Some(text);
                                    },
                                    None => {},
                                },
                                None => {},
                            }
                        }
                    },
                    None => {},
                }
            },
            None => {},
        }
        i = i + 1;
    }
    assert(ev.take(events@.len() as int) == ev);
    if chunks.len() > 0 {
        let empty: Vec<char> = Vec::new();
        let joined = join_chars(&chunks, &empty);
        Some(string_from_chars(joined.as_slice()))
    } else {
        completed
    }
}

/// The blank line that separates the blocks of an event stream.
pub open spec fn block_separator() -> Seq<char> {
    seq!['\n', '\n']
}

/// `s` has no blank line (no `"\n\n"`) at or after position `i`.
pub open spec fn no_blank_line_from(s: Seq<char>, i: int) -> bool {
    forall|k: int| i <= k < s.len() - 1 ==> !(#[trigger] s[k] == '\n' && s[k + 1] == '\n')
}

proof fn lemma_blocks_shift(pre: Seq<char>, q: Seq<char>, j: int, k: int)
    requires
        0 <= j <= k <= q.len(),
    ensures
        blocks_from(pre + q, pre.len() + j, pre.len() + k) == blocks_from(q, j, k),
    decreases q.len() - k,
{
    let s = pre + q;
    let l = pre.len() as int;
    if k + 1 >= q.len() {
        assert(s.subrange(l + j, s.len() as int) =~= q.subrange(j, q.len() as int));
    } else {
        assert(s[l + k] == q[k]);
        assert(s[l + k + 1] == q[k + 1]);
        if q[k] == '\n' && q[k + 1] == '\n' {
            assert(s.subrange(l + j, l + k) =~= q.subrange(j, k));
            lemma_blocks_shift(pre, q, k + 2, k + 2);
        } else {
            lemma_blocks_shift(pre, q, j, k + 1);
        }
    }
}

proof fn lemma_blocks_concat(p: Seq<char>, q: Seq<char>, start: int, i: int)
    requires
        0 <= start <= i <= p.len(),
        p.len() == 0 || p.last() != '\n',
    ensures
        blocks_from(p + block_separator() + q, start, i) == blocks_from(p, start, i) + sse_blocks(q),
    decreases p.len() - i,
{
    let s = p + block_separator() + q;
    let l = p.len() as int;
    assert(s[l] == '\n' && s[l + 1] == '\n');
    if i + 1 >= l {
        if i < l {
            assert(s[i] == p[i]);
            assert(blocks_from(s, start, i) == blocks_from(s, start, i + 1));
        }
        assert(blocks_from(s, start, l) == seq![s.subrange(start, l)] + blocks_from(s, l + 2, l + 2));
        assert(s == (p + block_separator()) + q);
        lemma_blocks_shift(p + block_separator(), q, 0, 0);
        assert(s.subrange(start, l) =~= p.subrange(start, l));
    } else {
        assert(s[i] == p[i]);
        assert(s[i + 1] == p[i + 1]);
        if p[i] == '\n' && p[i + 1] == '\n' {
            assert(s.subrange(start, i) =~= p.subrange(start, i));
            lemma_blocks_concat(p, q, i + 2, i + 2);
        } else {
            lemma_blocks_concat(p, q, start, i + 1);
        }
    }
}

proof fn lemma_blocks_single(x: Seq<char>, start: int, i: int)
    requires
        0 <= start <= i <= x.len(),
        no_blank_line_from(x, i),
    ensures
        blocks_from(x, start, i) == seq![x.subrange(start, x.len() as int)],
    decreases x.len() - i,
{
    if i + 1 < x.len() {
        assert(!(x[i] == '\n' && x[i + 1] == '\n'));
        lemma_blocks_single(x, start, i + 1);
    }
}

proof fn lemma_block_payloads_concat(b1: Seq<Seq<char>>, b2: Seq<Seq<char>>)
    ensures
        block_payloads(b1 + b2) == block_payloads(b1) + block_payloads(b2),
    decreases b2.len(),
{
    if b2.len() == 0 {
        assert(b1 + b2 =~= b1);
    } else {
        assert((b1 + b2).drop_last() =~= b1 + b2.drop_last());
        lemma_block_payloads_concat(b1, b2.drop_last());
    }
}

/// An event that affects no stream text: one that did not parse, or one whose type is
/// neither a text delta nor a completed response.
pub open spec fn irrelevant_event(e: Option<JsonView>) -> bool {
    match e {
        None => true,
        Some(j) => !has_type(j, "response.output_text.delta"@) && !has_type(j, "response.completed"@),
    }
}

proof fn lemma_irrelevant_events(e: Seq<Option<JsonView>>)
    requires
        forall|i: int| 0 <= i < e.len() ==> irrelevant_event(#[trigger] e[i]),
    ensures
        delta_chunks(e) == Seq::<Seq<char>>::empty(),
        completed_text(e) is None,
    decreases e.len(),
{
    if e.len() > 0 {
        lemma_irrelevant_events(e.drop_last());
        assert(irrelevant_event(e[e.len() - 1]));
    }
}

proof fn lemma_events_concat(e1: Seq<Option<JsonView>>, e2: Seq<Option<JsonView>>)
    ensures
        delta_chunks(e1 + e2) == delta_chunks(e1) + delta_chunks(e2),
        completed_text(e1 + e2) == match completed_text(e2) {
            Some(t) => Some(t),
            None => completed_text(e1),
        },
    decreases e2.len(),
{
    if e2.len() == 0 {
        assert(e1 + e2 =~= e1);
        assert(delta_chunks(e1) + delta_chunks(e2) =~= delta_chunks(e1));
    } else {
        assert((e1 + e2).drop_last() =~= e1 + e2.drop_last());
        assert((e1 + e2).last() == e2.last());
        lemma_events_concat(e1, e2.drop_last());
        assert(delta_chunks(e1) + delta_chunks(e2.drop_last()).push(e2.last()->0.str_field("delta"@)->0)
            =~= (delta_chunks(e1) + delta_chunks(e2.drop_last())).push(
            e2.last()->0.str_field("delta"@)->0,
        ));
    }
}

/// The text of an event stream whose data payloads are turned into events by `parse`.
pub open spec fn stream_text_with(sse: Seq<char>, parse: spec_fn(Seq<char>) -> Option<JsonView>) -> Option<
    Seq<char>,
> {
    sse_text(sse_payloads(sse).map_values(parse))
}

/// Putting a block between two blocks of an event stream leaves the stream's text unchanged
/// where the block carries no relevant event: it has no data lines, or its data does not
/// parse, or it parses to an event that is neither a text delta nor a completed response.
/// This holds for any way of parsing payloads into events.
pub proof fn lemma_irrelevant_block_leaves_text(
    a: Seq<char>,
    x: Seq<char>,
    b: Seq<char>,
    parse: spec_fn(Seq<char>) -> Option<JsonView>,
)
    requires
        a.len() == 0 || a.last() != '\n',
        x.len() == 0 || x.last() != '\n',
        no_blank_line_from(x, 0),
        forall|i: int|
            0 <= i < block_payloads(seq![x]).len() ==> irrelevant_event(
                parse(#[trigger] block_payloads(seq![x])[i]),
            ),
    ensures
        stream_text_with(a + block_separator() + x + block_separator() + b, parse) == stream_text_with(
            a + block_separator() + b,
            parse,
        ),
{
    let sep = block_separator();
    let s2 = a + sep + x + sep + b;
    let s1 = a + sep + b;
    assert(s2 == a + sep + (x + sep + b));
    lemma_blocks_concat(a, x + sep + b, 0, 0);
    lemma_blocks_concat(x, b, 0, 0);
    lemma_blocks_single(x, 0, 0);
    assert(x.subrange(0, x.len() as int) =~= x);
    lemma_blocks_concat(a, b, 0, 0);
    let ba = sse_blocks(a);
    let bb = sse_blocks(b);
    assert(sse_blocks(s2) == ba + (seq![x] + bb));
    assert(sse_blocks(s1) == ba + bb);
    lemma_block_payloads_concat(seq![x], bb);
    lemma_block_payloads_concat(ba, seq![x] + bb);
    lemma_block_payloads_concat(ba, bb);
    let pa = block_payloads(ba);
    let px = block_payloads(seq![x]);
    let pb = block_payloads(bb);
    assert(sse_payloads(s2) == pa + (px + pb));
    assert(sse_payloads(s1) == pa + pb);
    let ea = pa.map_values(parse);
    let ex = px.map_values(parse);
    let eb = pb.map_values(parse);
    assert(sse_payloads(s2).map_values(parse) =~= ea + (ex + eb));
    assert(sse_payloads(s1).map_values(parse) =~= ea + eb);
    assert forall|i: int| 0 <= i < ex.len() implies irrelevant_event(#[trigger] ex[i]) by {
        assert(ex[i] == parse(px[i]));
    }
    lemma_irrelevant_events(ex);
    lemma_events_concat(ex, eb);
    lemma_events_concat(ea, ex + eb);
    lemma_events_concat(ea, eb);
    assert(delta_chunks(ex) + delta_chunks(eb) =~= delta_chunks(eb));
}

/// The event is a text delta whose `delta` string is `d`.
pub open spec fn is_delta_with(e: Option<JsonView>, d: Seq<char>) -> bool {
    &&& e is Some
    &&& e->0.str_field("type"@) == Some("response.output_text.delta"@)
    &&& e->0.str_field("delta"@) == Some(d)
}

/// Some event of the stream is a text delta with a `delta` string.
pub open spec fn has_delta(events: Seq<Option<JsonView>>) -> bool {
    exists|i: int, d: Seq<char>| 0 <= i < events.len() && #[trigger] is_delta_with(events[i], d)
}

proof fn lemma_delta_chunks_nonempty(events: Seq<Option<JsonView>>)
    ensures
        delta_chunks(events).len() > 0 <==> has_delta(events),
    decreases events.len(),
{
    if events.len() > 0 {
        let rest = events.drop_last();
        lemma_delta_chunks_nonempty(rest);
        let e = events.last();
        if has_delta(rest) {
            let (i, d) = choose|i: int, d: Seq<char>| 0 <= i < rest.len() && #[trigger] is_delta_with(rest[i], d);
            assert(events[i] == rest[i]);
            assert(is_delta_with(events[i], d));
        }
        if e is Some && has_type(e->0, "response.output_text.delta"@) && e->0.str_field("delta"@) is Some {
            assert(is_delta_with(events[events.len() - 1], e->0.str_field("delta"@)->0));
        } else if has_delta(events) {
            let (i, d) = choose|i: int, d: Seq<char>| 0 <= i < events.len() && #[trigger] is_delta_with(events[i], d);
            if i < events.len() - 1 {
                assert(rest[i] == events[i]);
                assert(is_delta_with(rest[i], d));
            }
        }
    }
}

/// A text delta appended to a stream adds its string, unchanged, at the end of the stream's
/// text; where the stream had no text delta before, the text is that string alone, whatever
/// completed responses the stream holds.
pub proof fn lemma_delta_appends_verbatim(events: Seq<Option<JsonView>>, ev: Option<JsonView>, d: Seq<char>)
    requires
        is_delta_with(ev, d),
    ensures
        has_delta(events) ==> sse_text(events.push(ev)) == Some(sse_text(events)->0 + d),
        !has_delta(events) ==> sse_text(events.push(ev)) == Some(d),
{
    let pushed = events.push(ev);
    assert(pushed.drop_last() =~= events);
    assert(pushed.last() == ev);
    lemma_delta_chunks_nonempty(events);
    let dc = delta_chunks(events);
    assert(delta_chunks(pushed) == dc.push(d));
    assert(dc.push(d).drop_last() =~= dc);
    if dc.len() == 0 {
        assert(dc.push(d) =~= seq![d]);
    }
}

/// A stream made only of text deltas has as its text the deltas' strings, unchanged and in
/// order, one after the other.
pub proof fn lemma_delta_stream_verbatim(events: Seq<Option<JsonView>>, deltas: Seq<Seq<char>>)
    requires
        events.len() == deltas.len(),
        events.len() > 0,
        forall|i: int| 0 <= i < events.len() ==> is_delta_with(#[trigger] events[i], deltas[i]),
    ensures
        sse_text(events) == Some(deltas.flatten()),
    decreases events.len(),
{
    let n = events.len() - 1;
    let prefix = events.drop_last();
    let dprefix = deltas.drop_last();
    assert(events =~= prefix.push(events[n]));
    assert(deltas =~= dprefix + seq![deltas[n]]);
    lemma_flatten_concat(dprefix, seq![deltas[n]]);
    let one = seq![deltas[n]];
    assert(one.drop_first() =~= Seq::<Seq<char>>::empty());
    assert(one.drop_first().flatten() == Seq::<char>::empty());
    assert(one.flatten() == one.first() + one.drop_first().flatten());
    assert(one.flatten() =~= deltas[n]);
    assert(is_delta_with(events[n], deltas[n]));
    lemma_delta_appends_verbatim(prefix, events[n], deltas[n]);
    if n == 0 {
        assert(!has_delta(prefix));
        assert(dprefix.flatten() =~= Seq::<char>::empty());
    } else {
        assert forall|i: int| 0 <= i < prefix.len() implies is_delta_with(#[trigger] prefix[i], dprefix[i]) by {
            assert(prefix[i] == events[i]);
        }
        lemma_delta_stream_verbatim(prefix, dprefix);
        assert(is_delta_with(prefix[0], dprefix[0]));
    }
}

/// A reply document with only an `output` array.
pub open spec fn output_document(items: Seq<JsonView>) -> JsonView {
    JsonView::Object(seq![("output"@, JsonView::Array(items))])
}

/// An output item with one content part whose text is `t`.
pub open spec fn text_item(t: Seq<char>) -> JsonView {
    JsonView::Object(
        seq![("content"@, JsonView::Array(seq![JsonView::Object(seq![("text"@, JsonView::Str(t))])]))],
    )
}

/// Two optional texts one after the other; nothing only where both are nothing.
pub open spec fn concat_texts(a: Option<Seq<char>>, b: Option<Seq<char>>) -> Option<Seq<char>> {
    match (a, b) {
        (Some(x), Some(y)) => Some(x + y),
        (Some(x), None) => Some(x),
        (None, Some(y)) => Some(y),
        (None, None) => None,
    }
}

proof fn lemma_output_texts_concat(i1: Seq<JsonView>, i2: Seq<JsonView>)
    ensures
        output_texts(i1 + i2) == output_texts(i1) + output_texts(i2),
    decreases i2.len(),
{
    if i2.len() == 0 {
        assert(i1 + i2 =~= i1);
        assert(output_texts(i1) + output_texts(i2) =~= output_texts(i1));
    } else {
        assert((i1 + i2).drop_last() =~= i1 + i2.drop_last());
        assert((i1 + i2).last() == i2.last());
        lemma_output_texts_concat(i1, i2.drop_last());
        let tail = match i2.last().array_field("content"@) {
            Some(parts) => part_texts(parts),
            None => Seq::<Seq<char>>::empty(),
        };
        assert(output_texts(i1) + output_texts(i2.drop_last()) + tail =~= output_texts(i1) + (output_texts(
            i2.drop_last(),
        ) + tail));
    }
}

proof fn lemma_output_document_text(items: Seq<JsonView>)
    ensures
        document_text(output_document(items)) == if output_texts(items).len() == 0 {
            None
        } else {
            Some(output_texts(items).flatten())
        },
{
    reveal_strlit("output");
    reveal_strlit("output_text");
    let pairs = seq![("output"@, JsonView::Array(items))];
    assert(pairs[0].0.len() != "output_text"@.len());
    assert(pairs[0].0 != "output_text"@);
    assert(pairs.drop_first() =~= Seq::<(Seq<char>, JsonView)>::empty());
    assert(crate::json::lookup(pairs.drop_first(), "output_text"@) is None);
    assert(crate::json::lookup(pairs, "output_text"@) is None);
    assert(output_document(items) == JsonView::Object(pairs));
    assert(output_document(items).str_field("output_text"@) is None);
    assert(output_document(items).array_field("output"@) == Some(items));
    lemma_join_without_separator(output_texts(items));
}

/// The text of a reply's output items is the text of each item, in order, one after the
/// other: splitting the items into a first run and a second run, the text of the whole is the
/// text of the first run followed by that of the second, and a run without text adds nothing.
pub proof fn lemma_output_items_concatenate(i1: Seq<JsonView>, i2: Seq<JsonView>)
    ensures
        document_text(output_document(i1 + i2)) == concat_texts(
            document_text(output_document(i1)),
            document_text(output_document(i2)),
        ),
{
    lemma_output_texts_concat(i1, i2);
    lemma_output_document_text(i1 + i2);
    lemma_output_document_text(i1);
    lemma_output_document_text(i2);
    lemma_flatten_concat(output_texts(i1), output_texts(i2));
    if output_texts(i1).len() == 0 {
        assert(output_texts(i1) + output_texts(i2) =~= output_texts(i2));
    }
    if output_texts(i2).len() == 0 {
        assert(output_texts(i1) + output_texts(i2) =~= output_texts(i1));
    }
}

/// An output item without a `content` array adds no text.
pub proof fn lemma_item_without_content_adds_nothing(item: JsonView)
    requires
        item.array_field("content"@) is None,
    ensures
        document_text(output_document(seq![item])) is None,
{
    lemma_output_document_text(seq![item]);
    assert(seq![item].drop_last() =~= Seq::<JsonView>::empty());
    assert(seq![item].last() == item);
    assert(output_texts(Seq::<JsonView>::empty()) == Seq::<Seq<char>>::empty());
    assert(output_texts(seq![item]) =~= Seq::<Seq<char>>::empty());
}

/// An output item whose one content part has the text `t` gives exactly `t`.
pub proof fn lemma_text_item(t: Seq<char>)
    ensures
        document_text(output_document(seq![text_item(t)])) == Some(t),
{
    reveal_strlit("content");
    reveal_strlit("text");
    lemma_output_document_text(seq![text_item(t)]);
    let part = JsonView::Object(seq![("text"@, JsonView::Str(t))]);
    let parts = seq![part];
    assert(seq![text_item(t)].drop_last() =~= Seq::<JsonView>::empty());
    assert(text_item(t).array_field("content"@) == Some(parts));
    assert(parts.drop_last() =~= Seq::<JsonView>::empty());
    assert(part.str_field("text"@) == Some(t));
    assert(parts.last() == part);
    assert(part_texts(parts.drop_last()) == Seq::<Seq<char>>::empty());
    assert(part_texts(parts) =~= seq![t]);
    assert(seq![text_item(t)].last() == text_item(t));
    assert(output_texts(Seq::<JsonView>::empty()) == Seq::<Seq<char>>::empty());
    assert(output_texts(seq![text_item(t)]) =~= seq![t]);
    let one = seq![t];
    assert(one.drop_first() =~= Seq::<Seq<char>>::empty());
    assert(one.flatten() == one.first() + one.drop_first().flatten());
    assert(one.flatten() =~= t);
}

} // verus!
