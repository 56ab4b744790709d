//! JSON values as license files and the license service's answers hold
//! them: their compact and canonical (sorted-key) text forms, and lookups by
//! key path.
use vstd::prelude::*;
use crate::order::{name_order, stable_name_order};
use crate::model::DawApp;
use crate::device::hex_digit;
use crate::text::{chars_of, concat, owned, same_text};

verus! {

/// A JSON number: the text serde_json writes for it and, for a whole number
/// that fits, its `u64` value.
pub struct JsonNumber {
    pub text: String,
    pub as_u64: Option<u64>,
}

/// A JSON value. An object lists its members in the order of its map.
pub enum JsonValue {
    Null,
    Bool(bool),
    Number(JsonNumber),
    Str(String),
    Array(Vec<JsonValue>),
    Object(Vec<JsonMember>),
}

/// One member of a JSON object.
pub struct JsonMember {
    pub key: String,
    pub value: JsonValue,
}

/// How a character is written inside a JSON string: quote and backslash
/// behind a backslash, the short escapes for backspace, tab, line feed, form
/// feed and carriage return, `\u00` and two lower-case hexadecimal digits
/// for the other control characters, any other character as it is.
pub open spec fn json_escaped_char(c: char) -> Seq<char> {
    if c == '"' {
        seq!['\\', '"']
    } else if c == '\\' {
        seq!['\\', '\\']
    } else if c == '\u{8}' {
        seq!['\\', 'b']
    } else if c == '\t' {
        seq!['\\', 't']
    } else if c == '\n' {
        seq!['\\', 'n']
    } else if c == '\u{c}' {
        seq!['\\', 'f']
    } else if c == '\r' {
        seq!['\\', 'r']
    } else if (c as int) < 32 {
        seq!['\\', 'u', '0', '0', hex_digit(c as int / 16), hex_digit(c as int % 16)]
    } else {
        seq![c]
    }
}

/// The characters of `s`, each written as inside a JSON string.
pub open spec fn json_escaped(s: Seq<char>) -> Seq<char>
    decreases s.len(),
{
    if s.len() == 0 {
        Seq::empty()
    } else {
        json_escaped(s.drop_last()) + json_escaped_char(s.last())
    }
}

/// The JSON string literal serde_json writes for `s`: `s` escaped (see
/// `json_escaped_char`) between double quotes.
pub open spec fn json_string_literal(s: Seq<char>) -> Seq<char> {
    seq!['"'] + json_escaped(s) + seq!['"']
}

/// The JSON string literal of `s` (serde_json `to_string` on a `str`).
///
/// Claimed: the result is `json_string_literal` of the text, the escaping
/// serde_json's serializer applies to a string. Serialising a `str` into
/// memory cannot fail, so the empty fallback is never taken.
#[verifier::external_body]
fn quote_json(s: &str) -> (r: String)
    ensures
        r@ == json_string_literal(s@),
{
    serde_json::to_string(s).unwrap_or_default()
}

/// A JSON document as serde_json reads it.
#[verifier::external_type_specification]
#[verifier::external_body]
pub struct ExSerdeJsonValue(serde_json::Value);

/// What serde_json reads `text` as: the document, or the text of its error.
pub uninterp spec fn json_parsed(text: Seq<char>) -> Result<JsonValue, String>;

/// Reads JSON text (serde_json `from_str` into its `Value`), the document
/// taken over into `JsonValue` (see `from_serde_value`).
///
/// Claimed: the outcome is `json_parsed` of the text.
#[verifier::external_body]
pub(crate) fn parse_json(text: &str) -> (r: Result<JsonValue, String>)
    ensures
        r == json_parsed(text@),
{
    match serde_json::from_str::<serde_json::Value>(text) {
        Ok(v) => Ok(from_serde_value(&v)),
        Err(e) => Err(e.to_string()),
    }
}

/// A serde_json document taken over value for value: a number keeps
/// serde_json's text of it and, where it is one, its `u64` value; an
/// object's members come in the order of serde_json's map.
#[verifier::external_body]
fn from_serde_value(v: &serde_json::Value) -> (r: JsonValue) {
    match v {
        serde_json::Value::Null => JsonValue::Null,
        serde_json::Value::Bool(b) => JsonValue::Bool(*b),
        serde_json::Value::Number(n) => JsonValue::Number(JsonNumber { text: n.to_string(), as_u64: n.as_u64() }),
        serde_json::Value::String(s) => JsonValue::Str(s.clone()),
        serde_json::Value::Array(items) => JsonValue::Array(items.iter().map(from_serde_value).collect()),
        serde_json::Value::Object(map) => JsonValue::Object(
            map.iter().map(|(k, x)| JsonMember { key: k.clone(), value: from_serde_value(x) }).collect(),
        ),
    }
}

/// The keys of `members`, in order.
pub open spec fn member_keys(members: Seq<JsonMember>) -> Seq<Seq<char>> {
    members.map_values(|m: JsonMember| m.key@)
}

/// The order in which the members of an object are written: by key when
/// `sort_keys`, else as listed.
pub open spec fn member_order(members: Seq<JsonMember>, sort_keys: bool) -> Seq<int> {
    if sort_keys {
        name_order(member_keys(members))
    } else {
        Seq::new(members.len(), |i: int| i)
    }
}

/// The compact text of `v`, members of objects sorted by key when
/// `sort_keys`.
pub open spec fn json_text(v: JsonValue, sort_keys: bool) -> Seq<char>
    decreases v, 0int,
{
    match v {
        JsonValue::Null => "null"@,
        JsonValue::Bool(b) => if b {
            "true"@
        } else {
            "false"@
        },
        JsonValue::Number(n) => n.text@,
        JsonValue::Str(s) => json_string_literal(s@),
        JsonValue::Array(items) => "["@ + items_text(items@, items@.len() as int, sort_keys) + "]"@,
        JsonValue::Object(members) => "{"@ + members_text(
            members@,
            member_order(members@, sort_keys),
            members@.len() as int,
            sort_keys,
        ) + "}"@,
    }
}

/// The first `n` items of an array, written and separated by commas.
pub open spec fn items_text(items: Seq<JsonValue>, n: int, sort_keys: bool) -> Seq<char>
    decreases items, n,
{
    if n <= 0 || n > items.len() {
        Seq::empty()
    } else if n == 1 {
        json_text(items[0], sort_keys)
    } else {
        items_text(items, n - 1, sort_keys) + ","@ + json_text(items[n - 1], sort_keys)
    }
}

/// The members at the first `n` positions of order `o`, written and
/// separated by commas.
pub open spec fn members_text(members: Seq<JsonMember>, o: Seq<int>, n: int, sort_keys: bool) -> Seq<char>
    decreases members, n,
{
    if n <= 0 || n > o.len() {
        Seq::empty()
    } else {
        let j = o[n - 1];
        let part = if 0 <= j < members.len() {
            json_string_literal(members[j].key@) + ":"@ + json_text(members[j].value, sort_keys)
        } else {
            Seq::empty()
        };
        if n == 1 {
            part
        } else {
            members_text(members, o, n - 1, sort_keys) + ","@ + part
        }
    }
}

/// The positions of `members` in the order they are written (see
/// `member_order`).
fn member_positions(members: &Vec<JsonMember>, sort_keys: bool) -> (o: Vec<usize>)
    ensures
        o@.map_values(|x: usize| x as int) == member_order(members@, sort_keys),
        o@.len() == members@.len(),
        forall|i: int| 0 <= i < o@.len() ==> #[trigger] o@[i] < members@.len(),
{
    let n = members.len();
    if sort_keys {
        let mut names: Vec<Vec<char>> = Vec::new();
        let mut k: usize = 0;
        while k < n
            invariant
                k <= n == members@.len(),
                names.deep_view() == member_keys(members@).take(k as int),
            decreases n - k,
        {
            let ghost before = names.deep_view();
            let key = chars_of(members[k].key.as_str());
            assert(key.deep_view() =~= key@);
            names.push(key);
            assert(names.deep_view() =~= before.push(members@[k as int].key@));
            assert(member_keys(members@).take(k + 1) =~= member_keys(members@).take(k as int).push(members@[k as int].key@));
            k = k + 1;
        }
        assert(member_keys(members@).take(n as int) =~= member_keys(members@));
        let o = stable_name_order(&names);
        proof {
            assert forall|i: int| 0 <= i < o@.len() implies #[trigger] o@[i] < members@.len() by {
                assert(o@.map_values(|x: usize| x as int)[i] == o@[i] as int);
            }
        }
        o
    } else {
        let mut o: Vec<usize> = Vec::new();
        let mut k: usize = 0;
        while k < n
            invariant
                k <= n == members@.len(),
                o@.map_values(|x: usize| x as int) == Seq::new(k as nat, |i: int| i),
                forall|i: int| 0 <= i < o@.len() ==> #[trigger] o@[i] < members@.len(),
            decreases n - k,
        {
            let ghost before = o@;
            o.push(k);
            assert(o@ == before.push(k));
            assert(o@.map_values(|x: usize| x as int) =~= Seq::new(k as nat, |i: int| i).push(k as int));
            assert(Seq::new((k + 1) as nat, |i: int| i) =~= Seq::new(k as nat, |i: int| i).push(k as int));
            k = k + 1;
        }
        o
    }
}

/// `head`, then a comma unless `head` is the first part, then `part`.
fn joined_part(head: String, first: bool, part: &str) -> (r: String)
    ensures
        r@ == if first {
            part@
        } else {
            head@ + ","@ + part@
        },
{
    if first {
        owned(part)
    } else {
        let with_comma = concat(head.as_str(), ",");
        concat(with_comma.as_str(), part)
    }
}

/// `open`, then `body`, then `close`.
fn enclosed(open: &str, body: &str, close: &str) -> (r: String)
    ensures
        r@ == open@ + body@ + close@,
{
    let head = concat(open, body);
    concat(head.as_str(), close)
}

/// The compact text of `v` (see `json_text`).
pub(crate) fn write_json(v: &JsonValue, sort_keys: bool) -> (r: String)
    ensures
        r@ == json_text(*v, sort_keys),
    decreases v,
{
    match v {
        JsonValue::Null => {
            assert(json_text(JsonValue::Null, sort_keys) == "null"@);
            owned("null")
        },
        JsonValue::Bool(b) => if *b {
            owned("true")
        } else {
            owned("false")
        },
        JsonValue::Number(n) => {
            let r = n.text.clone();
            assert(r@ == json_text(*v, sort_keys));
            r
        },
        JsonValue::Str(s) => {
            let r = quote_json(s.as_str());
            assert(r@ == json_text(*v, sort_keys));
            r
        },
        JsonValue::Array(items) => {
            let mut out = String::new();
            let mut i: usize = 0;
            while i < items.len()
                invariant
                    *v == JsonValue::Array(*items),
                    i <= items@.len(),
                    out@ == items_text(items@, i as int, sort_keys),
                decreases items@.len() - i,
            {
                proof {
                    assert(decreases_to!(*v => v->Array_0));
                    assert(decreases_to!(*items => items@));
                    assert(decreases_to!(items@ => items@[i as int]));
                }
                let part = write_json(&items[i], sort_keys);
                out = joined_part(out, i == 0, part.as_str());
                i = i + 1;
            }
            assert(items_text(items@, items@.len() as int, sort_keys) == out@);
            let r = enclosed("[", out.as_str(), "]");
            assert(r@ == json_text(*v, sort_keys));
            r
        },
        JsonValue::Object(members) => {
            let order = member_positions(members, sort_keys);
            let ghost o = member_order(members@, sort_keys);
            let mut out = String::new();
            let mut k: usize = 0;
            while k < order.len()
                invariant
                    *v == JsonValue::Object(*members),
                    o == member_order(members@, sort_keys),
                    order@.map_values(|x: usize| x as int) == o,
                    forall|i: int| 0 <= i < order@.len() ==> #[trigger] order@[i] < members@.len(),
                    k <= order@.len(),
                    out@ == members_text(members@, o, k as int, sort_keys),
                decreases order@.len() - k,
            {
                let j = order[k];
                assert(o[k as int] == j as int);
                let key = quote_json(members[j].key.as_str());
                proof {
                    assert(decreases_to!(*v => v->Object_0));
                    assert(decreases_to!(*members => members@));
                    assert(decreases_to!(members@ => members@[j as int]));
                    assert(decreases_to!(members@[j as int] => members@[j as int].value));
                }
                let value = write_json(&members[j].value, sort_keys);
                let part = enclosed(key.as_str(), ":", value.as_str());
                out = joined_part(out, k == 0, part.as_str());
                k = k + 1;
            }
            let r = enclosed("{", out.as_str(), "}");
            assert(r@ == json_text(*v, sort_keys));
            r
        },
    }
}

/// The value of the first member of `members` with key `key`.
pub open spec fn find_member(members: Seq<JsonMember>, key: Seq<char>) -> Option<JsonValue>
    decreases members.len(),
{
    if members.len() == 0 {
        None
    } else if members[0].key@ == key {
        Some(members[0].value)
    } else {
        find_member(members.drop_first(), key)
    }
}

/// The value of member `key` of `v`; nothing when `v` is not an object or
/// has no such member.
pub open spec fn member_value(v: JsonValue, key: Seq<char>) -> Option<JsonValue> {
    match v {
        JsonValue::Object(members) => find_member(members@, key),
        _ => None,
    }
}

/// The value reached from `v` by following the keys of `path`.
pub open spec fn value_at(v: JsonValue, path: Seq<Seq<char>>) -> Option<JsonValue>
    decreases path.len(),
{
    if path.len() == 0 {
        Some(v)
    } else {
        match member_value(v, path[0]) {
            Some(c) => value_at(c, path.drop_first()),
            None => None,
        }
    }
}

/// The text of the string reached by `path`, if it is a string.
pub open spec fn string_at(v: JsonValue, path: Seq<Seq<char>>) -> Option<Seq<char>> {
    match value_at(v, path) {
        Some(JsonValue::Str(s)) => Some(s@),
        _ => None,
    }
}

/// The number reached by `path`, if it is a whole number that fits a `u64`.
pub open spec fn u64_at(v: JsonValue, path: Seq<Seq<char>>) -> Option<u64> {
    match value_at(v, path) {
        Some(JsonValue::Number(n)) => n.as_u64,
        _ => None,
    }
}

/// The keys of a path.
pub open spec fn path_keys(path: Seq<&str>) -> Seq<Seq<char>> {
    path.map_values(|k: &str| k@)
}

/// The value of member `key` of `v` (see `member_value`).
pub fn member<'a>(v: &'a JsonValue, key: &str) -> (r: Option<&'a JsonValue>)
    ensures
        match r {
            Some(x) => member_value(*v, key@) == Some(*x),
            None => member_value(*v, key@) is None,
        },
{
    match v {
        JsonValue::Object(members) => {
            let mut i: usize = 0;
            assert(members@.skip(0) =~= members@);
            while i < members.len()
                invariant
                    *v == JsonValue::Object(*members),
                    i <= members@.len(),
                    find_member(members@, key@) == find_member(members@.skip(i as int), key@),
                decreases members@.len() - i,
            {
                assert(members@.skip(i as int)[0] == members@[i as int]);
                if same_text(members[i].key.as_str(), key) {
                    assert(find_member(members@.skip(i as int), key@) == Some(members@[i as int].value));
                    return Some(&members[i].value);
                }
                assert(members@.skip(i as int).drop_first() =~= members@.skip(i + 1));
                i = i + 1;
            }
            None
        },
        _ => None,
    }
}

/// The value reached from `v` by `path` (see `value_at`).
pub fn value_at_path<'a>(v: &'a JsonValue, path: &[&str]) -> (r: Option<&'a JsonValue>)
    ensures
        match r {
            Some(x) => value_at(*v, path_keys(path@)) == Some(*x),
            None => value_at(*v, path_keys(path@)) is None,
        },
{
    let ghost keys = path_keys(path@);
    let mut current = v;
    let mut i: usize = 0;
    assert(keys.skip(0) =~= keys);
    while i < path.len()
        invariant
            i <= path@.len() == keys.len(),
            keys == path_keys(path@),
            value_at(*v, keys) == value_at(*current, keys.skip(i as int)),
        decreases path@.len() - i,
    {
        assert(keys.skip(i as int)[0] == path@[i as int]@);
        assert(keys.skip(i as int).drop_first() =~= keys.skip(i + 1));
        match member(current, path[i]) {
            Some(c) => {
                current = c;
            },
            None => {
                return None;
            },
        }
        i = i + 1;
    }
    assert(keys.skip(i as int) =~= Seq::<Seq<char>>::empty());
    Some(current)
}

impl DawApp {
    /// The canonical text of `value`: compact, members of every object
    /// sorted by key.
    pub fn canonical_json(value: &JsonValue) -> (r: String)
        ensures
            r@ == json_text(*value, true),
    {
        write_json(value, true)
    }

    /// The string reached from `value` by `path`, if it is a string.
    pub fn get_value_string(value: &JsonValue, path: &[&str]) -> (r: Option<String>)
        ensures
            r.deep_view() == string_at(*value, path_keys(path@)),
    {
        match value_at_path(value, path) {
            Some(JsonValue::Str(s)) => Some(s.clone()),
            _ => None,
        }
    }

    /// The number reached from `value` by `path`, if it is a whole number
    /// that fits a `u64`.
    pub fn get_value_u64(value: &JsonValue, path: &[&str]) -> (r: Option<u64>)
        ensures
            r == u64_at(*value, path_keys(path@)),
    {
        match value_at_path(value, path) {
            Some(JsonValue::Number(n)) => n.as_u64,
            _ => None,
        }
    }
}

} // verus!
