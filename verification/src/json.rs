//! JSON documents as plain values, and the calls that read and write them.
use crate::text::{chars_of, same};
use serde_json::Value;
use vstd::prelude::*;
use vstd::utf8::{decode_utf8, valid_utf8};

verus! {

broadcast use {vstd::seq::group_seq_axioms, vstd::string::group_string_axioms};

/// A JSON value. An object's entries stand in order of their keys when read.
#[derive(Debug)]
pub enum Json {
    Null,
    Bool(bool),
    /// An integer that is not negative.
    PosInt(u64),
    /// A negative integer.
    NegInt(i64),
    /// Any other number, as its shortest decimal text.
    Float(String),
    Text(String),
    Array(Vec<Json>),
    Object(Vec<(String, Json)>),
}

/// What a [`Json`] holds.
pub enum JsonView {
    Null,
    Bool(bool),
    PosInt(u64),
    NegInt(i64),
    Float(Seq<char>),
    Text(Seq<char>),
    Array(Seq<JsonView>),
    Object(Seq<(Seq<char>, JsonView)>),
}

impl View for Json {
    type V = JsonView;

    open spec fn view(&self) -> JsonView
        decreases self,
    {
        match self {
            Json::Null => JsonView::Null,
            Json::Bool(b) => JsonView::Bool(*b),
            Json::PosInt(n) => JsonView::PosInt(*n),
            Json::NegInt(n) => JsonView::NegInt(*n),
            Json::Float(t) => JsonView::Float(t@),
            Json::Text(t) => JsonView::Text(t@),
            Json::Array(v) => JsonView::Array(
                Seq::new(
                    v@.len(),
                    |i: int|
                        if 0 <= i < v@.len() {
                            v@[i].view()
                        } else {
                            JsonView::Null
                        },
                ),
            ),
            Json::Object(v) => JsonView::Object(
                Seq::new(
                    v@.len(),
                    |i: int|
                        if 0 <= i < v@.len() {
                            (v@[i].0@, v@[i].1.view())
                        } else {
                            (Seq::empty(), JsonView::Null)
                        },
                ),
            ),
        }
    }
}

/// The values of an array.
pub open spec fn item_views(v: Seq<Json>) -> Seq<JsonView> {
    v.map_values(|j: Json| j@)
}

/// The entries of an object.
pub open spec fn entry_views(v: Seq<(String, Json)>) -> Seq<(Seq<char>, JsonView)> {
    v.map_values(|e: (String, Json)| (e.0@, e.1@))
}

pub proof fn lemma_array_view(v: Vec<Json>)
    ensures
        Json::Array(v)@ == JsonView::Array(item_views(v@)),
{
    reveal_with_fuel(<Json as View>::view, 2);
    assert(Json::Array(v)@->Array_0 =~= item_views(v@));
}

pub proof fn lemma_object_view(v: Vec<(String, Json)>)
    ensures
        Json::Object(v)@ == JsonView::Object(entry_views(v@)),
{
    reveal_with_fuel(<Json as View>::view, 2);
    assert(Json::Object(v)@->Object_0 =~= entry_views(v@));
}

/// A JSON value of serde_json.
#[verifier::external_type_specification]
#[verifier::external_body]
pub struct ExValue(serde_json::Value);

/// Converts a value of serde_json, variant by variant. Nothing is claimed of it
/// on its own: the functions that read documents say what they return.
#[verifier::external_body]
fn from_value(v: Value) -> (r: Json)
{
    match v {
        Value::Null => Json::Null,
        Value::Bool(b) => Json::Bool(b),
        Value::Number(n) => match (n.as_u64(), n.as_i64()) {
            (Some(u), _) => Json::PosInt(u),
            (None, Some(i)) => Json::NegInt(i),
            (None, None) => Json::Float(n.to_string()),
        },
        Value::String(s) => Json::Text(s),
        Value::Array(a) => Json::Array(a.into_iter().map(from_value).collect()),
        Value::Object(o) => Json::Object(o.into_iter().map(|(k, x)| (k, from_value(x))).collect()),
    }
}

/// What `serde_json::from_str` reads from a text: the document, or the message of
/// its error.
pub uninterp spec fn parsed_json(text: Seq<char>) -> Result<JsonView, Seq<char>>;

/// Reads a JSON document with `serde_json::from_str`. The result depends on the
/// text alone; which texts are documents is not said here.
#[verifier::external_body]
pub(crate) fn parse_json(text: &str) -> (r: Result<Json, String>)
    ensures
        match r {
            Ok(j) => parsed_json(text@) == Ok::<JsonView, Seq<char>>(j@),
            Err(e) => parsed_json(text@) == Err::<JsonView, Seq<char>>(e@),
        },
{
    match serde_json::from_str::<Value>(text) {
        Ok(v) => Ok(from_value(v)),
        Err(e) => Err(e.to_string()),
    }
}

/// What `serde_json::from_slice` reads from bytes, where they are a document.
pub uninterp spec fn parsed_bytes(bytes: Seq<u8>) -> Option<JsonView>;

/// Reads a JSON document with `serde_json::from_slice`. The result depends on the
/// bytes alone; which bytes are documents is not said here.
#[verifier::external_body]
pub(crate) fn parse_json_bytes(bytes: &Vec<u8>) -> (r: Option<Json>)
    ensures
        match r {
            Some(j) => parsed_bytes(bytes@) == Some(j@),
            None => parsed_bytes(bytes@) is None,
        },
{
    match serde_json::from_slice::<Value>(bytes) {
        Ok(v) => Some(from_value(v)),
        Err(_) => None,
    }
}

/// Converts to a value of serde_json, variant by variant. Nothing is claimed of
/// it on its own: the function that writes documents says what it returns.
#[verifier::external_body]
fn to_value(j: &Json) -> (r: Value)
{
    match j {
        Json::Null => Value::Null,
        Json::Bool(b) => Value::Bool(*b),
        Json::PosInt(n) => Value::Number((*n).into()),
        Json::NegInt(n) => Value::Number((*n).into()),
        Json::Float(t) => t.parse().ok().and_then(serde_json::Number::from_f64).into(),
        Json::Text(t) => Value::String(t.clone()),
        Json::Array(v) => Value::Array(v.iter().map(to_value).collect()),
        Json::Object(v) => Value::Object(v.iter().map(|(k, x)| (k.clone(), to_value(x))).collect()),
    }
}

/// The value of a key; of several the first.
pub open spec fn lookup(entries: Seq<(Seq<char>, JsonView)>, key: Seq<char>) -> Option<JsonView>
    decreases entries.len(),
{
    if entries.len() == 0 {
        None
    } else if entries[0].0 == key {
        Some(entries[0].1)
    } else {
        lookup(entries.drop_first(), key)
    }
}

/// No key occurs twice.
pub open spec fn distinct_keys(entries: Seq<(Seq<char>, JsonView)>) -> bool {
    forall|i: int, j: int| 0 <= i < j < entries.len() ==> (#[trigger] entries[i]).0 != (#[trigger] entries[j]).0
}

/// How deep a document may be nested to be read.
pub const MAX_DEPTH: usize = 100;

/// The document has no parts that a reader takes for others: no key occurs twice, its
/// numbers are integers, a negative one where it is marked so, and at most `depth`
/// lists or objects lie in each other.
pub open spec fn plain(j: JsonView, depth: nat) -> bool
    decreases j,
{
    match j {
        JsonView::NegInt(n) => n < 0,
        JsonView::Float(_) => false,
        JsonView::Array(v) => depth > 0 && forall|i: int| 0 <= i < v.len() ==> plain(#[trigger] v[i], (depth - 1) as nat),
        JsonView::Object(v) => depth > 0 && distinct_keys(v) && forall|i: int|
            0 <= i < v.len() ==> plain((#[trigger] v[i]).1, (depth - 1) as nat),
        _ => true,
    }
}

/// The documents are the same but for the order of their objects' entries.
pub open spec fn same_document(a: JsonView, b: JsonView) -> bool
    decreases a,
{
    match (a, b) {
        (JsonView::Array(x), JsonView::Array(y)) => x.len() == y.len() && forall|i: int|
            0 <= i < x.len() ==> same_document(#[trigger] x[i], y[i]),
        (JsonView::Object(x), JsonView::Object(y)) => {
            &&& distinct_keys(x)
            &&& distinct_keys(y)
            &&& forall|i: int|
                0 <= i < x.len() ==> (lookup(y, (#[trigger] x[i]).0) matches Some(w) && same_document(x[i].1, w))
            &&& forall|j: int| 0 <= j < y.len() ==> lookup(x, (#[trigger] y[j]).0) is Some
        },
        _ => a == b,
    }
}

/// The bytes are the text of a document that is the same as `j`.
pub open spec fn reads_back(bytes: Seq<u8>, j: JsonView) -> bool {
    &&& valid_utf8(bytes)
    &&& parsed_json(decode_utf8(bytes)) is Ok
    &&& same_document(j, parsed_json(decode_utf8(bytes))->Ok_0)
}

/// What `serde_json::to_vec_pretty` writes for a document: its bytes, or the
/// message of its error.
pub uninterp spec fn pretty_json(j: JsonView) -> Result<Seq<u8>, Seq<char>>;

/// Writes a JSON document with `serde_json::to_vec_pretty`. The bytes depend on
/// the document alone, and are text from which `serde_json::from_str` reads a plain
/// document back, its objects' entries in order of their keys; their layout is not
/// said here.
#[verifier::external_body]
pub(crate) fn write_json(j: &Json) -> (r: Result<Vec<u8>, String>)
    ensures
        match r {
            Ok(b) => pretty_json(j@) == Ok::<Seq<u8>, Seq<char>>(b@),
            Err(e) => pretty_json(j@) == Err::<Seq<u8>, Seq<char>>(e@),
        },
        r matches Ok(b) ==> plain(j@, MAX_DEPTH as nat) ==> reads_back(b@, j@),
{
    match serde_json::to_vec_pretty(&to_value(j)) {
        Ok(b) => Ok(b),
        Err(e) => Err(e.to_string()),
    }
}

// ---- reading ----------------------------------------------------------------

/// The value of a key, where the document is an object that has it.
pub open spec fn member(j: JsonView, key: Seq<char>) -> Option<JsonView> {
    match j {
        JsonView::Object(entries) => lookup(entries, key),
        _ => None,
    }
}

/// The number as an integer that is not negative.
pub open spec fn as_unsigned(j: JsonView) -> Option<u64> {
    match j {
        JsonView::PosInt(n) => Some(n),
        _ => None,
    }
}

/// The number as a signed 64-bit integer.
pub open spec fn as_signed(j: JsonView) -> Option<i64> {
    match j {
        JsonView::PosInt(n) => if n <= i64::MAX {
            Some(n as i64)
        } else {
            None
        },
        JsonView::NegInt(n) => Some(n),
        _ => None,
    }
}

/// The value is a number.
pub open spec fn is_number(j: JsonView) -> bool {
    j is PosInt || j is NegInt || j is Float
}

/// A digit other than zero stands in the text before any exponent.
pub open spec fn has_nonzero(t: Seq<char>) -> bool
    decreases t.len(),
{
    if t.len() == 0 || t[0] == 'e' || t[0] == 'E' {
        false
    } else {
        '1' <= t[0] <= '9' || has_nonzero(t.drop_first())
    }
}

/// The value is a number above zero.
pub open spec fn is_positive(j: JsonView) -> bool {
    match j {
        JsonView::PosInt(n) => n > 0,
        JsonView::Float(t) => t.len() > 0 && t[0] != '-' && has_nonzero(t),
        _ => false,
    }
}

fn nonzero_from(t: &Vec<char>, i: usize) -> (r: bool)
    requires
        i <= t@.len(),
    ensures
        r == has_nonzero(t@.skip(i as int)),
    decreases t@.len() - i,
{
    if i == t.len() {
        return false;
    }
    let c: char = t[i];
    assert(t@.skip(i as int)[0] == c);
    assert(t@.skip(i as int).drop_first() =~= t@.skip(i + 1));
    if c == 'e' || c == 'E' {
        return false;
    }
    if c >= '1' && c <= '9' {
        return true;
    }
    nonzero_from(t, i + 1)
}

impl Json {
    /// The value of a key, where the document is an object that has it.
    pub fn get(&self, key: &str) -> (r: Option<&Json>)
        ensures
            match r {
                Some(j) => member(self@, key@) == Some(j@),
                None => member(self@, key@) is None,
            },
    {
        match self {
            Json::Object(entries) => {
                proof {
                    lemma_object_view(*entries);
                }
                let ghost all = entry_views(entries@);
                let k: Vec<char> = chars_of(key);
                let mut i: usize = 0;
                assert(all.skip(0) =~= all);
                while i < entries.len()
                    invariant
                        i <= entries@.len(),
                        all == entry_views(entries@),
                        k@ == key@,
                        self@ == JsonView::Object(all),
                        lookup(all, key@) == lookup(all.skip(i as int), key@),
                    decreases entries@.len() - i,
                {
                    assert(all.skip(i as int)[0] == (entries@[i as int].0@, entries@[i as int].1@));
                    assert(all.skip(i as int).drop_first() =~= all.skip(i + 1));
                    let name: Vec<char> = chars_of(entries[i].0.as_str());
                    if same(&name, &k) {
                        return Some(&entries[i].1);
                    }
                    i = i + 1;
                }
                None
            },
            _ => None,
        }
    }

    /// The number as an integer that is not negative.
    pub fn as_u64(&self) -> (r: Option<u64>)
        ensures
            r == as_unsigned(self@),
    {
        match self {
            Json::PosInt(n) => Some(*n),
            _ => None,
        }
    }

    /// The number as a signed 64-bit integer.
    pub fn as_i64(&self) -> (r: Option<i64>)
        ensures
            r == as_signed(self@),
    {
        match self {
            Json::PosInt(n) => {
                if *n <= i64::MAX as u64 {
                    Some(*n as i64)
                } else {
                    None
                }
            },
            Json::NegInt(n) => Some(*n),
            _ => None,
        }
    }

    /// Whether the value is a number.
    pub fn number(&self) -> (r: bool)
        ensures
            r == is_number(self@),
    {
        match self {
            Json::PosInt(_) => true,
            Json::NegInt(_) => true,
            Json::Float(_) => true,
            _ => false,
        }
    }

    /// Whether the value is a number above zero.
    pub fn positive(&self) -> (r: bool)
        ensures
            r == is_positive(self@),
    {
        match self {
            Json::PosInt(n) => *n > 0,
            Json::Float(t) => {
                let v: Vec<char> = chars_of(t.as_str());
                assert(v@.skip(0) =~= v@);
                v.len() > 0 && v[0] != '-' && nonzero_from(&v, 0)
            },
            _ => false,
        }
    }
}

} // verus!
