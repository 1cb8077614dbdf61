//! The JSON document model that decoding walks, and its link to `serde_json`.

use vstd::prelude::*;

verus! {

/// A JSON number as the mathematical model sees it.
pub enum NumberModel {
    /// A non-negative integer.
    PosInt(u64),
    /// A negative integer.
    NegInt(i64),
    /// Any other number, held as the text `serde_json` renders for it.
    Float(Seq<char>),
}

/// A JSON value as the mathematical model sees it.
pub enum Json {
    Null,
    Bool(bool),
    Number(NumberModel),
    String(Seq<char>),
    Array(Seq<Json>),
    /// Members in the order the parser hands them over (`serde_json` sorts
    /// them by key).
    Object(Seq<(Seq<char>, Json)>),
}

/// A JSON number.
#[derive(Debug, PartialEq)]
pub enum JsonNumber {
    /// A non-negative integer.
    PosInt(u64),
    /// A negative integer.
    NegInt(i64),
    /// A number that is not an integer in range, with its rendered text
    /// (for example `1.5`).
    Float(String),
}

/// A parsed JSON value, as decoding walks it.
#[derive(Debug, PartialEq)]
pub enum JsonValue {
    Null,
    Bool(bool),
    Number(JsonNumber),
    String(String),
    Array(Vec<JsonValue>),
    /// Object members, in the order the parser produced them (`serde_json`
    /// sorts them by key).
    Object(Vec<(String, JsonValue)>),
}

impl View for JsonNumber {
    type V = NumberModel;

    open spec fn view(&self) -> NumberModel {
        match self {
            JsonNumber::PosInt(n) => NumberModel::PosInt(*n),
            JsonNumber::NegInt(n) => NumberModel::NegInt(*n),
            JsonNumber::Float(t) => NumberModel::Float(t@),
        }
    }
}

/// The models of the first `n` array elements.
pub open spec fn model_items(items: Seq<JsonValue>, n: nat) -> Seq<Json>
    decreases items, 0nat, n,
{
    if n == 0 || n > items.len() {
        Seq::empty()
    } else {
        model_items(items, (n - 1) as nat).push(model_of(items[n - 1]))
    }
}

/// The models of the first `n` object members.
pub open spec fn model_entries(entries: Seq<(String, JsonValue)>, n: nat) -> Seq<(Seq<char>, Json)>
    decreases entries, 0nat, n,
{
    if n == 0 || n > entries.len() {
        Seq::empty()
    } else {
        model_entries(entries, (n - 1) as nat).push((entries[n - 1].0@, model_of(entries[n - 1].1)))
    }
}

/// The model of a JSON value.
pub open spec fn model_of(v: JsonValue) -> Json
    decreases v, 1nat, 0nat,
{
    match v {
        JsonValue::Null => Json::Null,
        JsonValue::Bool(b) => Json::Bool(b),
        JsonValue::Number(n) => Json::Number(n@),
        JsonValue::String(s) => Json::String(s@),
        JsonValue::Array(items) => Json::Array(model_items(items@, items@.len())),
        JsonValue::Object(entries) => Json::Object(model_entries(entries@, entries@.len())),
    }
}

impl View for JsonValue {
    type V = Json;

    open spec fn view(&self) -> Json {
        model_of(*self)
    }
}

/// `model_items` has one model per element, in order.
pub proof fn lemma_model_items(items: Seq<JsonValue>, n: nat)
    requires
        n <= items.len(),
    ensures
        model_items(items, n).len() == n,
        forall|i: int| 0 <= i < n ==> #[trigger] model_items(items, n)[i] == model_of(items[i]),
    decreases n,
{
    if n > 0 {
        lemma_model_items(items, (n - 1) as nat);
    }
}

/// `model_entries` has one model per member, in order.
pub proof fn lemma_model_entries(entries: Seq<(String, JsonValue)>, n: nat)
    requires
        n <= entries.len(),
    ensures
        model_entries(entries, n).len() == n,
        forall|i: int| 0 <= i < n ==> #[trigger] model_entries(entries, n)[i] == (entries[i].0@, model_of(entries[i].1)),
    decreases n,
{
    if n > 0 {
        lemma_model_entries(entries, (n - 1) as nat);
    }
}

/// The elements of an array value, modelled.
pub proof fn lemma_array_model(items: Vec<JsonValue>)
    ensures
        JsonValue::Array(items)@ matches Json::Array(ms) && ms.len() == items@.len()
            && forall|i: int| 0 <= i < items@.len() ==> #[trigger] ms[i] == items@[i]@,
{
    lemma_model_items(items@, items@.len());
}

/// The members of an object value, modelled.
pub proof fn lemma_object_model(entries: Vec<(String, JsonValue)>)
    ensures
        JsonValue::Object(entries)@ matches Json::Object(ms) && ms.len() == entries@.len()
            && forall|i: int| 0 <= i < entries@.len() ==> #[trigger] ms[i] == (entries@[i].0@, entries@[i].1@),
{
    lemma_model_entries(entries@, entries@.len());
}

/// Whether `a` comes strictly before `b` in the order of their characters,
/// which is the order of `String` (UTF-8 keeps the order of code points).
pub open spec fn text_before(a: Seq<char>, b: Seq<char>) -> bool {
    exists|i: int|
        #![trigger a.take(i), b.take(i)]
        0 <= i <= a.len() && i <= b.len() && a.take(i) == b.take(i) && ((i < a.len() && i < b.len() && a[i] < b[i]) || (
        i == a.len() && i < b.len()))
}

/// Whether the keys of `entries` come in strictly ascending order.
pub open spec fn keys_ascending(entries: Seq<(Seq<char>, Json)>) -> bool {
    forall|a: int, b: int| 0 <= a < b < entries.len() ==> text_before(#[trigger] entries[a].0, #[trigger] entries[b].0)
}

/// Whether the first `n` elements have the shape of parsed documents.
pub open spec fn items_parsed(items: Seq<Json>, n: nat) -> bool
    decreases items, 0nat, n,
{
    if n == 0 || n > items.len() {
        true
    } else {
        items_parsed(items, (n - 1) as nat) && parsed_document(items[n - 1])
    }
}

/// Whether the values of the first `n` members have the shape of parsed
/// documents.
pub open spec fn members_parsed(entries: Seq<(Seq<char>, Json)>, n: nat) -> bool
    decreases entries, 0nat, n,
{
    if n == 0 || n > entries.len() {
        true
    } else {
        members_parsed(entries, (n - 1) as nat) && parsed_document(entries[n - 1].1)
    }
}

/// The shape of every document `serde_json` parses, at every depth: a
/// negative integer is below zero (non-negative ones are `PosInt`), and the
/// members of an object come with distinct keys in ascending order, as its
/// `BTreeMap`-backed `Map` hands them over.
pub open spec fn parsed_document(j: Json) -> bool
    decreases j, 1nat, 0nat,
{
    match j {
        Json::Number(NumberModel::NegInt(i)) => i < 0,
        Json::Array(items) => items_parsed(items, items.len()),
        Json::Object(entries) => keys_ascending(entries) && members_parsed(entries, entries.len()),
        _ => true,
    }
}

/// `Value::as_u64` on the model: the integer of a non-negative integer number.
pub open spec fn json_as_u64(j: Json) -> Option<u64> {
    match j {
        Json::Number(NumberModel::PosInt(n)) => Some(n),
        _ => None,
    }
}

/// `Value::as_i64` on the model: the integer of an integer number that fits
/// an `i64`.
pub open spec fn json_as_i64(j: Json) -> Option<i64> {
    match j {
        Json::Number(NumberModel::PosInt(n)) => if n <= i64::MAX { Some(n as i64) } else { None },
        Json::Number(NumberModel::NegInt(n)) => Some(n),
        _ => None,
    }
}

/// `Value::as_bool` on the model.
pub open spec fn json_as_bool(j: Json) -> Option<bool> {
    match j {
        Json::Bool(b) => Some(b),
        _ => None,
    }
}

/// `Value::as_str` on the model.
pub open spec fn json_as_str(j: Json) -> Option<Seq<char>> {
    match j {
        Json::String(s) => Some(s),
        _ => None,
    }
}

impl JsonNumber {
    /// A copy of this number.
    pub fn duplicate(&self) -> (r: JsonNumber)
        ensures
            r@ == self@,
    {
        match self {
            JsonNumber::PosInt(n) => JsonNumber::PosInt(*n),
            JsonNumber::NegInt(n) => JsonNumber::NegInt(*n),
            JsonNumber::Float(t) => JsonNumber::Float(t.clone()),
        }
    }
}

impl JsonValue {
    /// Whether the value is `null`.
    pub fn is_null(&self) -> (r: bool)
        ensures
            r == (self@ == Json::Null),
    {
        match self {
            JsonValue::Null => true,
            _ => false,
        }
    }

    /// The value as a `u64`, when it is a non-negative integer.
    pub fn as_u64(&self) -> (r: Option<u64>)
        ensures
            r == json_as_u64(self@),
    {
        match self {
            JsonValue::Number(JsonNumber::PosInt(n)) => Some(*n),
            _ => None,
        }
    }

    /// The value as an `i64`, when it is an integer in range.
    pub fn as_i64(&self) -> (r: Option<i64>)
        ensures
            r == json_as_i64(self@),
    {
        match self {
            JsonValue::Number(JsonNumber::PosInt(n)) => {
                if *n <= 9223372036854775807u64 {
                    Some(*n as i64)
                } else {
                    None
                }
            }
            JsonValue::Number(JsonNumber::NegInt(n)) => Some(*n),
            _ => None,
        }
    }

    /// The value as a `bool`, when it is a boolean.
    pub fn as_bool(&self) -> (r: Option<bool>)
        ensures
            r == json_as_bool(self@),
    {
        match self {
            JsonValue::Bool(b) => Some(*b),
            _ => None,
        }
    }

    /// The value as a string slice, when it is a string.
    pub fn as_str(&self) -> (r: Option<&str>)
        ensures
            r matches Some(s) ==> json_as_str(self@) == Some(s@),
            r is None ==> json_as_str(self@) is None,
    {
        match self {
            JsonValue::String(s) => Some(s.as_str()),
            _ => None,
        }
    }

    /// A deep copy of the value.
    pub fn duplicate(&self) -> (r: JsonValue)
        ensures
            r@ == self@,
        decreases self,
    {
        match self {
            JsonValue::Null => JsonValue::Null,
            JsonValue::Bool(b) => JsonValue::Bool(*b),
            JsonValue::Number(n) => JsonValue::Number(n.duplicate()),
            JsonValue::String(s) => JsonValue::String(s.clone()),
            JsonValue::Array(items) => {
                let mut out: Vec<JsonValue> = Vec::new();
                let mut i: usize = 0;
                while i < items.len()
                    invariant
                        i <= items.len(),
                        *self == JsonValue::Array(*items),
                        out@.len() == i,
                        forall|j: int| 0 <= j < i ==> (#[trigger] out@[j])@ == items@[j]@,
                    decreases items.len() - i,
                {
                    assert(decreases_to!(*self => (*self)->Array_0));
                    assert(decreases_to!(*items => items@));
                    assert(decreases_to!(items@ => items@[i as int]));
                    let c = items[i].duplicate();
                    out.push(c);
                    i = i + 1;
                }
                proof {
                    lemma_array_model(out);
                    lemma_array_model(*items);
                    assert(model_items(out@, out@.len()) =~= model_items(items@, items@.len()));
                }
                JsonValue::Array(out)
            }
            JsonValue::Object(entries) => {
                let mut out: Vec<(String, JsonValue)> = Vec::new();
                let mut i: usize = 0;
                while i < entries.len()
                    invariant
                        i <= entries.len(),
                        *self == JsonValue::Object(*entries),
                        out@.len() == i,
                        forall|j: int| 0 <= j < i ==> (#[trigger] out@[j]).0@ == entries@[j].0@ && out@[j].1@ == entries@[j].1@,
                    decreases entries.len() - i,
                {
                    assert(decreases_to!(*self => (*self)->Object_0));
                    assert(decreases_to!(*entries => entries@));
                    assert(decreases_to!(entries@ => entries@[i as int]));
                    assert(decreases_to!(entries@[i as int] => entries@[i as int].1));
                    let k = entries[i].0.clone();
                    let c = entries[i].1.duplicate();
                    out.push((k, c));
                    i = i + 1;
                }
                proof {
                    lemma_object_model(out);
                    lemma_object_model(*entries);
                    assert(model_entries(out@, out@.len()) =~= model_entries(entries@, entries@.len()));
                }
                JsonValue::Object(out)
            }
        }
    }
}

#[verifier::external_type_specification]
#[verifier::external_body]
pub struct ExSerdeJsonValue(serde_json::Value);

#[verifier::external_type_specification]
#[verifier::external_body]
pub struct ExSerdeJsonNumber(serde_json::Number);

/// What `serde_json` makes of the text `text`: the parsed document, modelled,
/// or the message of its syntax error.
pub uninterp spec fn json_text_parse(text: Seq<char>) -> Result<Json, Seq<char>>;

/// What `serde_json` makes of the bytes `bytes`: the parsed document, modelled,
/// or the message of its syntax error.
pub uninterp spec fn json_bytes_parse(bytes: Seq<u8>) -> Result<Json, Seq<char>>;

/// The model of a parse outcome: the document's model or the error message.
pub open spec fn outcome_model(r: Result<JsonValue, String>) -> Result<Json, Seq<char>> {
    match r {
        Ok(v) => Ok(v@),
        Err(m) => Err(m@),
    }
}

/// Parses JSON text into a document.
///
/// Trusted: calls `serde_json::from_str::<serde_json::Value>`, converts the
/// value, and renders an error through its `Display`. The contract says that
/// the outcome is the named function of the text, and that a parsed document
/// has the shape `serde_json` gives every document: its `Map` is a `BTreeMap`
/// (the `preserve_order` feature is off), which hands members over once per
/// key in ascending key order, and its numbers keep `NegInt` for negative
/// integers only.
#[verifier::external_body]
pub(crate) fn parse_json_str(text: &str) -> (r: Result<JsonValue, String>)
    ensures
        json_text_parse(text@) == outcome_model(r),
        r matches Ok(v) ==> parsed_document(v@),
{
    match serde_json::from_str::<serde_json::Value>(text) {
        Ok(v) => Ok(lower_document(v)),
        Err(e) => Err(e.to_string()),
    }
}

/// Parses JSON bytes into a document.
///
/// Trusted: calls `serde_json::from_slice::<serde_json::Value>`, converts the
/// value, and renders an error through its `Display`. The contract says that
/// the outcome is the named function of the bytes, and that a parsed
/// document has the shape `serde_json` gives every document (see
/// [`parse_json_str`]).
#[verifier::external_body]
pub(crate) fn parse_json_slice(bytes: &[u8]) -> (r: Result<JsonValue, String>)
    ensures
        json_bytes_parse(bytes@) == outcome_model(r),
        r matches Ok(v) ==> parsed_document(v@),
{
    match serde_json::from_slice::<serde_json::Value>(bytes) {
        Ok(v) => Ok(lower_document(v)),
        Err(e) => Err(e.to_string()),
    }
}

/// Converts a `serde_json::Value` into a `JsonValue`, variant for variant,
/// keeping the order in which `serde_json` hands over object members
/// (sorted by key).
///
/// Trusted conversion: matches on the variants of `serde_json::Value` and moves
/// their fields; nothing is stated of it on its own, the parsing wrappers state
/// what the converted document is.
#[verifier::external_body]
fn lower_document(v: serde_json::Value) -> JsonValue {
    match v {
        serde_json::Value::Null => JsonValue::Null,
        serde_json::Value::Bool(b) => JsonValue::Bool(b),
        serde_json::Value::Number(n) => JsonValue::Number(lower_number(n)),
        serde_json::Value::String(s) => JsonValue::String(s),
        serde_json::Value::Array(items) => JsonValue::Array(items.into_iter().map(lower_document).collect()),
        serde_json::Value::Object(map) => JsonValue::Object(map.into_iter().map(|(k, v)| (k, lower_document(v))).collect()),
    }
}

/// Converts a `serde_json::Number`: integers that fit a `u64` become
/// `PosInt`, other integers that fit an `i64` become `NegInt`, everything else
/// keeps the text that `serde_json` renders for it.
///
/// Trusted conversion: tells the number's hidden variants apart through
/// `Number::as_u64` and `Number::as_i64` and renders floats through its
/// `Display`.
#[verifier::external_body]
fn lower_number(n: serde_json::Number) -> JsonNumber {
    if let Some(u) = n.as_u64() {
        JsonNumber::PosInt(u)
    } else if let Some(i) = n.as_i64() {
        JsonNumber::NegInt(i)
    } else {
        JsonNumber::Float(n.to_string())
    }
}

impl Clone for JsonNumber {
    fn clone(&self) -> (r: Self)
        ensures
            r@ == self@,
    {
        self.duplicate()
    }
}

impl Clone for JsonValue {
    /// A deep copy of the value.
    fn clone(&self) -> (r: Self)
        ensures
            r@ == self@,
    {
        self.duplicate()
    }
}

} // verus!
