//! A JSON value model: what request parameters and response payloads carry.
//!
//! Numbers keep the three shapes of a JSON number: a non-negative integer, a
//! negative integer, or a floating-point number held as its IEEE-754 bit
//! pattern.  Object entries keep their order; objects built here never repeat
//! a key, and lookups return the first entry with the key.
use vstd::prelude::*;

verus! {

/// A JSON number.
#[derive(Debug, Clone, Copy, PartialEq, Eq, Structural)]
pub enum JsonNumber {
    /// A non-negative integer.
    PosInt(u64),
    /// A negative integer.
    NegInt(i64),
    /// A floating-point number, as the bit pattern of an IEEE-754 double.
    Float(u64),
}

/// A JSON value.
#[derive(Debug, PartialEq)]
pub enum JsonValue {
    Null,
    Bool(bool),
    Number(JsonNumber),
    Str(String),
    Array(Vec<JsonValue>),
    Object(Vec<(String, JsonValue)>),
}

/// The abstract content of a [`JsonValue`]: strings as character sequences.
pub enum JsonView {
    Null,
    Bool(bool),
    Number(JsonNumber),
    Str(Seq<char>),
    Array(Seq<JsonView>),
    Object(Seq<(Seq<char>, JsonView)>),
}

/// The value stored under `key` in an object's entries: the first entry with
/// that key, if there is one.
pub open spec fn object_get(entries: Seq<(Seq<char>, JsonView)>, key: Seq<char>) -> Option<
    JsonView,
>
    decreases entries.len(),
{
    if entries.len() == 0 {
        None
    } else if entries[0].0 == key {
        Some(entries[0].1)
    } else {
        object_get(entries.skip(1), key)
    }
}

/// An object's lookup finds the first entry that carries the key.
pub proof fn lemma_object_get_at(entries: Seq<(Seq<char>, JsonView)>, key: Seq<char>, k: int)
    requires
        0 <= k < entries.len(),
        entries[k].0 == key,
        forall|i: int| 0 <= i < k ==> #[trigger] entries[i].0 != key,
    ensures
        object_get(entries, key) == Some(entries[k].1),
    decreases k,
{
    if k > 0 {
        let rest = entries.skip(1);
        assert(entries[0].0 != key);
        assert(rest[k - 1] == entries[k]);
        assert forall|i: int| 0 <= i < k - 1 implies #[trigger] rest[i].0 != key by {
            assert(rest[i] == entries[i + 1]);
        }
        lemma_object_get_at(rest, key, k - 1);
    }
}

/// An object's lookup finds nothing when no entry carries the key.
pub proof fn lemma_object_get_none(entries: Seq<(Seq<char>, JsonView)>, key: Seq<char>)
    requires
        forall|i: int| 0 <= i < entries.len() ==> #[trigger] entries[i].0 != key,
    ensures
        object_get(entries, key) is None,
    decreases entries.len(),
{
    if entries.len() > 0 {
        let rest = entries.skip(1);
        assert(entries[0].0 != key);
        assert forall|i: int| 0 <= i < rest.len() implies #[trigger] rest[i].0 != key by {
            assert(rest[i] == entries[i + 1]);
        }
        lemma_object_get_none(rest, key);
    }
}

/// Looking a key up in a JSON value: objects answer with their entry, every
/// other value with nothing.
pub open spec fn json_get(v: JsonView, key: Seq<char>) -> Option<JsonView> {
    match v {
        JsonView::Object(entries) => object_get(entries, key),
        _ => None,
    }
}

/// The non-negative integer a JSON number denotes, if it denotes one.
pub open spec fn number_as_u64(n: JsonNumber) -> Option<u64> {
    match n {
        JsonNumber::PosInt(u) => Some(u),
        JsonNumber::NegInt(i) => if i >= 0 {
            Some(i as u64)
        } else {
            None
        },
        JsonNumber::Float(_) => None,
    }
}

/// A JSON string built from a character sequence.
pub open spec fn str_view(s: Seq<char>) -> JsonView {
    JsonView::Str(s)
}

/// A non-negative JSON integer.
pub open spec fn uint_view(n: nat) -> JsonView {
    JsonView::Number(JsonNumber::PosInt(n as u64))
}

impl JsonValue {
    pub open spec fn json_view(self) -> JsonView
        decreases self,
    {
        match self {
            JsonValue::Null => JsonView::Null,
            JsonValue::Bool(b) => JsonView::Bool(b),
            JsonValue::Number(n) => JsonView::Number(n),
            JsonValue::Str(s) => JsonView::Str(s@),
            JsonValue::Array(items) => JsonView::Array(
                Seq::new(
                    items@.len(),
                    |i: int|
                        if 0 <= i < items@.len() {
                            proof {
                                assert(decreases_to!(items => items@));
                                assert(decreases_to!(items@ => items@[i]));
                            }
                            items@[i].json_view()
                        } else {
                            JsonView::Null
                        },
                ),
            ),
            JsonValue::Object(entries) => JsonView::Object(
                Seq::new(
                    entries@.len(),
                    |i: int|
                        if 0 <= i < entries@.len() {
                            proof {
                                assert(decreases_to!(entries => entries@));
                                assert(decreases_to!(entries@ => entries@[i]));
                                assert(decreases_to!(entries@[i] => entries@[i].1));
                            }
                            (entries@[i].0@, entries@[i].1.json_view())
                        } else {
                            (Seq::empty(), JsonView::Null)
                        },
                ),
            ),
        }
    }

    /// A copy of this value.
    pub fn deep_clone(&self) -> (r: JsonValue)
        ensures
            r@ == self@,
        decreases self,
    {
        match self {
            JsonValue::Null => JsonValue::Null,
            JsonValue::Bool(b) => JsonValue::Bool(*b),
            JsonValue::Number(n) => JsonValue::Number(*n),
            JsonValue::Str(s) => JsonValue::Str(s.clone()),
            JsonValue::Array(items) => {
                let mut out: Vec<JsonValue> = Vec::new();
                let mut i: usize = 0;
                while i < items.len()
                    invariant
                        i <= items@.len(),
                        *self == JsonValue::Array(*items),
                        out@.len() == i,
                        forall|k: int| 0 <= k < i ==> (#[trigger] out@[k])@ == items@[k]@,
                    decreases items@.len() - i,
                {
                    proof {
                        assert(decreases_to!(*self => self->Array_0));
                        assert(decreases_to!(items => items@));
                        assert(decreases_to!(items@ => items@[i as int]));
                    }
                    let c = items[i].deep_clone();
                    out.push(c);
                    i = i + 1;
                }
                let r = JsonValue::Array(out);
                proof {
                    assert(r.json_view()->Array_0 =~= self.json_view()->Array_0);
                }
                r
            },
            JsonValue::Object(entries) => {
                let mut out: Vec<(String, JsonValue)> = Vec::new();
                let mut i: usize = 0;
                while i < entries.len()
                    invariant
                        i <= entries@.len(),
                        *self == JsonValue::Object(*entries),
                        out@.len() == i,
                        forall|k: int|
                            0 <= k < i ==> (#[trigger] out@[k]).0@ == entries@[k].0@ && out@[k].1@
                                == entries@[k].1@,
                    decreases entries@.len() - i,
                {
                    proof {
                        assert(decreases_to!(*self => self->Object_0));
                        assert(decreases_to!(entries => entries@));
                        assert(decreases_to!(entries@ => entries@[i as int]));
                        assert(decreases_to!(entries@[i as int] => entries@[i as int].1));
                    }
                    let k = entries[i].0.clone();
                    let v = entries[i].1.deep_clone();
                    out.push((k, v));
                    i = i + 1;
                }
                let r = JsonValue::Object(out);
                proof {
                    assert(r.json_view()->Object_0 =~= self.json_view()->Object_0);
                }
                r
            },
        }
    }

    /// The value under `key` when this is an object (the first entry with
    /// that key); nothing for any other value.
    pub fn get(&self, key: &str) -> (r: Option<&JsonValue>)
        ensures
            match r {
                Some(v) => json_get(self@, key@) == Some(v@),
                None => json_get(self@, key@) is None,
            },
    {
        match self {
            JsonValue::Object(entries) => {
                let ghost es = self@->Object_0;
                let k = key.to_owned();
                let mut i: usize = 0;
                assert(es.skip(0) =~= es);
                while i < entries.len()
                    invariant
                        i <= entries@.len(),
                        es.len() == entries@.len(),
                        es == self@->Object_0,
                        self@ == JsonValue::Object(*entries).json_view(),
                        k@ == key@,
                        object_get(es, key@) == object_get(es.skip(i as int), key@),
                    decreases entries@.len() - i,
                {
                    assert(es[i as int].0 == entries@[i as int].0@);
                    if entries[i].0 == k {
                        return Some(&entries[i].1);
                    }
                    assert(es.skip(i as int).skip(1) =~= es.skip(i + 1));
                    i = i + 1;
                }
                None
            },
            _ => None,
        }
    }

    /// The string content when this is a JSON string.
    pub fn as_str(&self) -> (r: Option<&str>)
        ensures
            match self@ {
                JsonView::Str(s) => r is Some && r->0@ == s,
                _ => r is None,
            },
    {
        match self {
            JsonValue::Str(s) => Some(s.as_str()),
            _ => None,
        }
    }

    /// A JSON string holding `s`.
    pub fn from_str(s: &str) -> (r: JsonValue)
        ensures
            r@ == JsonView::Str(s@),
    {
        JsonValue::Str(s.to_owned())
    }

    /// A non-negative JSON integer.
    pub fn from_u64(n: u64) -> (r: JsonValue)
        ensures
            r@ == uint_view(n as nat),
    {
        JsonValue::Number(JsonNumber::PosInt(n))
    }
}

impl JsonNumber {
    /// The non-negative integer this number denotes, if any.
    pub fn as_u64(&self) -> (r: Option<u64>)
        ensures
            r == number_as_u64(*self),
    {
        match self {
            JsonNumber::PosInt(u) => Some(*u),
            JsonNumber::NegInt(i) => if *i >= 0 {
                Some(*i as u64)
            } else {
                None
            },
            JsonNumber::Float(_) => None,
        }
    }
}

impl Clone for JsonValue {
    fn clone(&self) -> (r: JsonValue)
        ensures
            r@ == self@,
    {
        self.deep_clone()
    }
}

impl View for JsonValue {
    type V = JsonView;

    open spec fn view(&self) -> JsonView {
        self.json_view()
    }
}

} // verus!
