//! A JSON document tree held as plain values, with its mathematical view.
use vstd::prelude::*;

verus! {

/// A JSON value. Numbers keep their textual form.
#[derive(Debug)]
pub enum JsonValue {
    Null,
    Bool(bool),
    Number(String),
    Str(String),
    Array(Vec<JsonValue>),
    Object(Vec<(String, JsonValue)>),
}

/// The mathematical model of a JSON value.
#[verifier::ext_equal]
pub enum JsonView {
    Null,
    Bool(bool),
    Number(Seq<char>),
    Str(Seq<char>),
    Array(Seq<JsonView>),
    Object(Seq<(Seq<char>, JsonView)>),
}

impl JsonValue {
    pub open spec fn json_view(self) -> JsonView
        decreases self,
    {
        match self {
            JsonValue::Null => JsonView::Null,
            JsonValue::Bool(b) => JsonView::Bool(b),
            JsonValue::Number(n) => JsonView::Number(n@),
            JsonValue::Str(s) => JsonView::Str(s@),
            JsonValue::Array(items) => JsonView::Array(
                Seq::new(
                    items@.len(),
                    |i: int|
                        if 0 <= i < items@.len() {
                            items@[i].json_view()
                        } else {
                            JsonView::Null
                        },
                ),
            ),
            JsonValue::Object(pairs) => JsonView::Object(
                Seq::new(
                    pairs@.len(),
                    |i: int|
                        if 0 <= i < pairs@.len() {
                            (pairs@[i].0@, pairs@[i].1.json_view())
                        } else {
                            (Seq::empty(), JsonView::Null)
                        },
                ),
            ),
        }
    }
}

impl View for JsonValue {
    type V = JsonView;

    open spec fn view(&self) -> JsonView {
        self.json_view()
    }
}

/// The value of the first member named `key`.
pub open spec fn lookup(pairs: Seq<(Seq<char>, JsonView)>, key: Seq<char>) -> Option<JsonView>
    decreases pairs.len(),
{
    if pairs.len() == 0 {
        None
    } else if pairs[0].0 == key {
        Some(pairs[0].1)
    } else {
        lookup(pairs.drop_first(), key)
    }
}

/// The member found for `key` is that of the first pair named `key`.
pub proof fn lemma_lookup_at(pairs: Seq<(Seq<char>, JsonView)>, key: Seq<char>, i: int)
    requires
        0 <= i < pairs.len(),
        pairs[i].0 == key,
        forall|j: int| 0 <= j < i ==> pairs[j].0 != key,
    ensures
        lookup(pairs, key) == Some(pairs[i].1),
    decreases i,
{
    if i > 0 {
        assert(pairs[0].0 != key);
        assert forall|j: int| 0 <= j < i - 1 implies pairs.drop_first()[j].0 != key by {
            assert(pairs.drop_first()[j] == pairs[j + 1]);
        }
        lemma_lookup_at(pairs.drop_first(), key, i - 1);
    }
}

/// No member is found for a name that no pair has.
pub proof fn lemma_lookup_absent(pairs: Seq<(Seq<char>, JsonView)>, key: Seq<char>)
    requires
        forall|j: int| 0 <= j < pairs.len() ==> pairs[j].0 != key,
    ensures
        lookup(pairs, key) is None,
    decreases pairs.len(),
{
    if pairs.len() > 0 {
        assert(pairs[0].0 != key);
        assert forall|j: int| 0 <= j < pairs.len() - 1 implies pairs.drop_first()[j].0 != key by {
            assert(pairs.drop_first()[j] == pairs[j + 1]);
        }
        lemma_lookup_absent(pairs.drop_first(), key);
    }
}

impl JsonView {
    /// The member `key` of an object; nothing for any other value.
    pub open spec fn get(self, key: Seq<char>) -> Option<JsonView> {
        match self {
            JsonView::Object(pairs) => lookup(pairs, key),
            _ => None,
        }
    }

    pub open spec fn as_str(self) -> Option<Seq<char>> {
        match self {
            JsonView::Str(s) => Some(s),
            _ => None,
        }
    }

    pub open spec fn as_array(self) -> Option<Seq<JsonView>> {
        match self {
            JsonView::Array(items) => Some(items),
            _ => None,
        }
    }

    /// The member `key`, where it is a string.
    pub open spec fn str_field(self, key: Seq<char>) -> Option<Seq<char>> {
        match self.get(key) {
            Some(v) => v.as_str(),
            None => None,
        }
    }

    /// The member `key`, where it is an array.
    pub open spec fn array_field(self, key: Seq<char>) -> Option<Seq<JsonView>> {
        match self.get(key) {
            Some(v) => v.as_array(),
            None => None,
        }
    }
}

impl JsonValue {
    /// The member `key` of an object (the first one of that name).
    pub fn get(&self, key: &str) -> (r: Option<&JsonValue>)
        ensures
            match r {
                Some(v) => self@.get(key@) == Some(v@),
                None => self@.get(key@) is None,
            },
    {
        match self {
            JsonValue::Object(pairs) => {
                let owned_key = key.to_owned();
                let ghost vp = self@->Object_0;
                let mut i: usize = 0;
                assert(vp.skip(0) == vp);
                while i < pairs.len()
                    invariant
                        i <= pairs@.len(),
                        vp.len() == pairs@.len(),
                        forall|j: int| 0 <= j < vp.len() ==> #[trigger] vp[j] == (pairs@[j].0@, pairs@[j].1@),
                        owned_key@ == key@,
                        self@.get(key@) == lookup(vp.skip(i as int), key@),
                    decreases pairs@.len() - i,
                {
                    assert(vp.skip(i as int).drop_first() == vp.skip(i + 1));
                    if pairs[i].0 == owned_key {
                        assert(vp.skip(i as int)[0] == vp[i as int]);
                        assert(vp[i as int].0 == key@);
                        return Some(&pairs[i].1);
                    }
                    i = i + 1;
                }
                None
            },
            _ => None,
        }
    }

    pub fn as_str(&self) -> (r: Option<&String>)
        ensures
            match r {
                Some(s) => self@.as_str() == Some(s@),
                None => self@.as_str() is None,
            },
    {
        match self {
            JsonValue::Str(s) => Some(s),
            _ => None,
        }
    }

    pub fn as_array(&self) -> (r: Option<&Vec<JsonValue>>)
        ensures
            match r {
                Some(items) => self@.as_array() == Some(Seq::new(items@.len(), |i: int| items@[i]@)),
                None => self@.as_array() is None,
            },
    {
        match self {
            JsonValue::Array(items) => {
                assert(self@.as_array()->0 =~= Seq::new(items@.len(), |i: int| items@[i]@));
                Some(items)
            },
            _ => None,
        }
    }
}

impl JsonValue {
    /// An object with these members, in order.
    pub fn object(pairs: Vec<(String, JsonValue)>) -> (r: JsonValue)
        ensures
            r@ == JsonView::Object(Seq::new(pairs@.len(), |i: int| (pairs@[i].0@, pairs@[i].1@))),
    {
        let r = JsonValue::Object(pairs);
        assert(r@->Object_0 =~= Seq::new(pairs@.len(), |i: int| (pairs@[i].0@, pairs@[i].1@)));
        r
    }

    /// An array of these items, in order.
    pub fn array(items: Vec<JsonValue>) -> (r: JsonValue)
        ensures
            r@ == JsonView::Array(Seq::new(items@.len(), |i: int| items@[i]@)),
    {
        let r = JsonValue::Array(items);
        assert(r@->Array_0 =~= Seq::new(items@.len(), |i: int| items@[i]@));
        r
    }

    /// A string value.
    pub fn string(s: &str) -> (r: JsonValue)
        ensures
            r@ == JsonView::Str(s@),
    {
        JsonValue::Str(s.to_owned())
    }
}

} // verus!
