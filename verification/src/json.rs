use vstd::prelude::*;

verus! {

/// A JSON document held as plain values.
pub enum JsonValue {
    Null,
    Bool(bool),
    /// A number, with its value where it is a whole number in `0..=u64::MAX`, else `None`.
    Number(Option<u64>),
    Str(String),
    Array(Vec<JsonValue>),
    Object(Vec<JsonMember>),
}

/// One `"key": value` member of a JSON object.
pub struct JsonMember {
    pub key: String,
    pub value: JsonValue,
}

/// The value of the first member of `members` whose key is `key`.
pub open spec fn member_lookup(members: Seq<JsonMember>, key: Seq<char>) -> Option<JsonValue>
    decreases members.len(),
{
    if members.len() == 0 {
        None
    } else if members[0].key@ == key {
        Some(members[0].value)
    } else {
        member_lookup(members.drop_first(), key)
    }
}

/// What `v.get(key)` finds: a member of an object, nothing for any other value.
pub open spec fn spec_get(v: JsonValue, key: Seq<char>) -> Option<JsonValue> {
    match v {
        JsonValue::Object(members) => member_lookup(members@, key),
        _ => None,
    }
}

impl JsonValue {
    /// The value under `key` when `self` is an object that has such a member.
    pub fn get(&self, key: &str) -> (r: Option<&JsonValue>)
        ensures
            r is Some <==> spec_get(*self, key@) is Some,
            r matches Some(x) ==> spec_get(*self, key@) == Some(*x),
    {
        match self {
            JsonValue::Object(members) => {
                let wanted = key.to_owned();
                let n = members.len();
                let mut i: usize = 0;
                assert(members@.skip(0) =~= members@);
                while i < n
                    invariant
                        n == members@.len(),
                        i <= n,
                        wanted@ == key@,
                        spec_get(*self, key@) == member_lookup(members@, key@),
                        member_lookup(members@, key@) == member_lookup(members@.skip(i as int), key@),
                    decreases n - i,
                {
                    assert(members@.skip(i as int).drop_first() =~= members@.skip(i + 1));
                    if members[i].key == wanted {
                        assert(members@.skip(i as int)[0] == members@[i as int]);
                        return Some(&members[i].value);
                    }
                    i += 1;
                }
                None
            },
            _ => None,
        }
    }
}


/// The value behind an optional reference.
pub open spec fn deref_opt(o: Option<&JsonValue>) -> Option<JsonValue> {
    match o {
        Some(x) => Some(*x),
        None => None,
    }
}

/// `spec_get` lifted to an optional value.
pub open spec fn get_opt(v: Option<JsonValue>, key: Seq<char>) -> Option<JsonValue> {
    match v {
        Some(x) => spec_get(x, key),
        None => None,
    }
}

/// The text of a JSON string.
pub open spec fn str_of(v: Option<JsonValue>) -> Option<Seq<char>> {
    match v {
        Some(JsonValue::Str(s)) => Some(s@),
        _ => None,
    }
}

/// The text of a JSON string, or the empty text for anything else.
pub open spec fn str_or_empty(v: Option<JsonValue>) -> Seq<char> {
    match str_of(v) {
        Some(s) => s,
        None => seq![],
    }
}

/// The items of a JSON array, or no items for anything else.
pub open spec fn items_of(v: Option<JsonValue>) -> Seq<JsonValue> {
    match v {
        Some(JsonValue::Array(items)) => items@,
        _ => seq![],
    }
}

/// The value of a JSON number that is a whole number in `0..=u64::MAX`.
pub open spec fn u64_of(v: Option<JsonValue>) -> Option<u64> {
    match v {
        Some(JsonValue::Number(n)) => n,
        _ => None,
    }
}

/// The value of a JSON boolean.
pub open spec fn bool_of(v: Option<JsonValue>) -> Option<bool> {
    match v {
        Some(JsonValue::Bool(b)) => Some(b),
        _ => None,
    }
}

/// Looks `key` up in an optional value, as `Option::and_then(|v| v.get(key))` does.
pub fn get_in<'a>(v: Option<&'a JsonValue>, key: &str) -> (r: Option<&'a JsonValue>)
    ensures
        deref_opt(r) == get_opt(deref_opt(v), key@),
{
    match v {
        Some(x) => x.get(key),
        None => None,
    }
}

/// A copy of the text of a JSON string, or the empty string for anything else.
pub fn string_or_empty(v: Option<&JsonValue>) -> (r: String)
    ensures
        r@ == str_or_empty(deref_opt(v)),
{
    match v {
        Some(JsonValue::Str(s)) => s.clone(),
        _ => String::new(),
    }
}

/// A copy of the text of a JSON string.
pub fn string_of(v: Option<&JsonValue>) -> (r: Option<String>)
    ensures
        r is Some <==> str_of(deref_opt(v)) is Some,
        r matches Some(s) ==> str_of(deref_opt(v)) == Some(s@),
{
    match v {
        Some(JsonValue::Str(s)) => Some(s.clone()),
        _ => None,
    }
}

/// The items of a JSON array, or an empty slice for anything else.
pub fn items<'a>(v: Option<&'a JsonValue>) -> (r: &'a [JsonValue])
    ensures
        r@ == items_of(deref_opt(v)),
{
    match v {
        Some(JsonValue::Array(items)) => items.as_slice(),
        _ => &[],
    }
}

impl JsonValue {
    /// The value of a whole number in `0..=u64::MAX`, as `serde_json::Value::as_u64`.
    pub fn as_u64(&self) -> (r: Option<u64>)
        ensures
            r == u64_of(Some(*self)),
    {
        match self {
            JsonValue::Number(n) => *n,
            _ => None,
        }
    }

    /// The value of a boolean, as `serde_json::Value::as_bool`.
    pub fn as_bool(&self) -> (r: Option<bool>)
        ensures
            r == bool_of(Some(*self)),
    {
        match self {
            JsonValue::Bool(b) => Some(*b),
            _ => None,
        }
    }
}

// ---------------------------------------------------------------------------
// Parsing JSON text
// ---------------------------------------------------------------------------

#[verifier::external_type_specification]
#[verifier::external_body]
pub struct ExSerdeJsonValue(serde_json::Value);

/// What `serde_json` gives for the JSON text `text`: its value, held as a `JsonValue`, or,
/// where `text` is not JSON, the text that its error (`serde_json::Error`) displays.
pub uninterp spec fn json_parsed(text: Seq<char>) -> Result<JsonValue, Seq<char>>;

/// A parse result with its error taken as text.
pub open spec fn error_as_text(r: Result<JsonValue, String>) -> Result<JsonValue, Seq<char>> {
    match r {
        Ok(v) => Ok(v),
        Err(m) => Err(m@),
    }
}

/// Parses `text` with `serde_json::from_str::<serde_json::Value>`, holds the value as a
/// `JsonValue` and an error as the text that `serde_json::Error` displays; the result is named
/// by `json_parsed`.
#[verifier::external_body]
pub(crate) fn parse_json(text: &str) -> (r: Result<JsonValue, String>)
    ensures
        json_parsed(text@) == error_as_text(r),
{
    serde_json::from_str::<serde_json::Value>(text).map(from_serde_value).map_err(|e| e.to_string())
}

/// Moves a `serde_json::Value` into a `JsonValue`, variant by variant: a number keeps what
/// `serde_json::Number::as_u64` gives, an object keeps its members in the order in which
/// `serde_json::Map` yields them. Nothing is stated of the result: a `serde_json::Value` is
/// opaque here, and `parse_json` names the value of the whole parse.
#[verifier::external_body]
fn from_serde_value(v: serde_json::Value) -> JsonValue {
    match v {
        serde_json::Value::Null => JsonValue::Null,
        serde_json::Value::Bool(b) => JsonValue::Bool(b),
        serde_json::Value::Number(n) => JsonValue::Number(n.as_u64()),
        serde_json::Value::String(s) => JsonValue::Str(s),
        serde_json::Value::Array(a) => JsonValue::Array(a.into_iter().map(from_serde_value).collect()),
        serde_json::Value::Object(m) => JsonValue::Object(
            m.into_iter().map(|(key, value)| JsonMember { key, value: from_serde_value(value) }).collect(),
        ),
    }
}

} // verus!
