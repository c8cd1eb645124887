//! The parts of a JSON or TOML document that the project's logic reads, as plain values.
use vstd::prelude::*;

use crate::text::{chars_of, same_str};

verus! {

/// A JSON value. Objects keep their keys in the order the parser's map walks them.
#[derive(Debug)]
pub enum JsonValue {
    Str(String),
    Array(Vec<JsonValue>),
    Object(Vec<(String, JsonValue)>),
    /// `null`, a boolean or a number: nothing the checks read.
    Other,
}

/// A TOML value. Tables and other values carry the text that TOML writes for them.
#[derive(Debug)]
pub enum TomlValue {
    Str(String),
    Table(Vec<(String, TomlValue)>, String),
    /// An integer, float, boolean, date or array, with its TOML text.
    Other(String),
}

/// What reading and parsing a file gave.
#[derive(Debug)]
pub enum FileState<V> {
    /// The file is not there.
    Missing,
    /// The file is there but could not be read or parsed.
    Invalid,
    Parsed(V),
}

/// The index of the first entry with `key`.
pub open spec fn first_key_index<V>(es: Seq<(String, V)>, key: Seq<char>) -> Option<int> {
    es.map_values(|e: (String, V)| e.0@).index_of_first(key)
}

/// The value at `key` of an object, as `serde_json::Value::get` gives it.
pub open spec fn json_get(v: JsonValue, key: Seq<char>) -> Option<JsonValue> {
    match v {
        JsonValue::Object(es) => match first_key_index(es@, key) {
            Some(i) => Some(es@[i].1),
            None => None,
        },
        _ => None,
    }
}

/// The string at `key` of an object.
pub open spec fn json_get_str(v: JsonValue, key: Seq<char>) -> Option<Seq<char>> {
    match json_get(v, key) {
        Some(JsonValue::Str(s)) => Some(s@),
        _ => None,
    }
}

/// The value at `key` of a table, as `toml::Value::get` gives it.
pub open spec fn toml_get(v: TomlValue, key: Seq<char>) -> Option<TomlValue> {
    match v {
        TomlValue::Table(es, _) => match first_key_index(es@, key) {
            Some(i) => Some(es@[i].1),
            None => None,
        },
        _ => None,
    }
}

/// The string at `key` of a table.
pub open spec fn toml_get_str(v: TomlValue, key: Seq<char>) -> Option<Seq<char>> {
    match toml_get(v, key) {
        Some(TomlValue::Str(s)) => Some(s@),
        _ => None,
    }
}

/// The index of the first entry of `es` with `key`.
pub fn find_key<V>(es: &Vec<(String, V)>, key: &str) -> (res: Option<usize>)
    ensures
        res matches Some(i) ==> i < es.len() && first_key_index(es@, key@) == Some(i as int),
        res is None ==> first_key_index(es@, key@) is None,
{
    let ghost keys = es@.map_values(|e: (String, V)| e.0@);
    let mut i: usize = 0;
    while i < es.len()
        invariant
            i <= es.len(),
            keys == es@.map_values(|e: (String, V)| e.0@),
            forall|j: int| 0 <= j < i ==> keys[j] != key@,
        decreases es.len() - i,
    {
        let k = chars_of(es[i].0.as_str());
        assert(keys[i as int] == es@[i as int].0@);
        if same_str(&k, key) {
            proof {
                keys.index_of_first_ensures(key@);
                assert(keys.contains(key@));
            }
            return Some(i);
        }
        i += 1;
    }
    proof {
        keys.index_of_first_ensures(key@);
    }
    None
}

impl JsonValue {
    /// The value at `key` when this is an object that has it.
    pub fn get(&self, key: &str) -> (res: Option<&JsonValue>)
        ensures
            match res {
                Some(r) => json_get(*self, key@) == Some(*r),
                None => json_get(*self, key@) is None,
            },
    {
        match self {
            JsonValue::Object(es) => match find_key(es, key) {
                Some(i) => Some(&es[i].1),
                None => None,
            },
            _ => None,
        }
    }

    /// The text when this is a string.
    pub fn as_str(&self) -> (res: Option<&str>)
        ensures
            match res {
                Some(s) => *self matches JsonValue::Str(t) && s@ == t@,
                None => !(*self is Str),
            },
    {
        match self {
            JsonValue::Str(s) => Some(s.as_str()),
            _ => None,
        }
    }
}

impl TomlValue {
    /// The value at `key` when this is a table that has it.
    pub fn get(&self, key: &str) -> (res: Option<&TomlValue>)
        ensures
            match res {
                Some(r) => toml_get(*self, key@) == Some(*r),
                None => toml_get(*self, key@) is None,
            },
    {
        match self {
            TomlValue::Table(es, _) => match find_key(es, key) {
                Some(i) => Some(&es[i].1),
                None => None,
            },
            _ => None,
        }
    }

    /// The text when this is a string.
    pub fn as_str(&self) -> (res: Option<&str>)
        ensures
            match res {
                Some(s) => *self matches TomlValue::Str(t) && s@ == t@,
                None => !(*self is Str),
            },
    {
        match self {
            TomlValue::Str(s) => Some(s.as_str()),
            _ => None,
        }
    }
}


/// The `$path` strings of a project tree, depth first, each object's own before those
/// below it, as the project check gathers them.
pub open spec fn json_paths(v: JsonValue) -> Seq<Seq<char>>
    decreases v,
{
    match v {
        JsonValue::Object(es) => {
            let own = match json_get(v, "$path"@) {
                Some(JsonValue::Str(p)) => seq![p@],
                _ => Seq::<Seq<char>>::empty(),
            };
            own + entries_paths(es@)
        },
        JsonValue::Array(items) => items_paths(items@),
        _ => Seq::<Seq<char>>::empty(),
    }
}

pub open spec fn entries_paths(es: Seq<(String, JsonValue)>) -> Seq<Seq<char>>
    decreases es,
{
    if es.len() == 0 {
        Seq::<Seq<char>>::empty()
    } else {
        entries_paths(es.drop_last()) + json_paths(es.last().1)
    }
}

pub open spec fn items_paths(items: Seq<JsonValue>) -> Seq<Seq<char>>
    decreases items,
{
    if items.len() == 0 {
        Seq::<Seq<char>>::empty()
    } else {
        items_paths(items.drop_last()) + json_paths(items.last())
    }
}

// ---- reading JSON and TOML text ----

#[verifier::external_type_specification]
#[verifier::external_body]
pub struct ExSerdeJsonValue(serde_json::Value);

#[verifier::external_type_specification]
#[verifier::external_body]
pub struct ExTomlValue(toml::Value);

/// What `serde_json::from_str::<serde_json::Value>` reads from `text`, in the form the
/// checks read: `None` when the text is not JSON.
pub uninterp spec fn json_text_value(text: Seq<char>) -> Option<JsonValue>;

/// What `toml::from_str::<toml::Value>` reads from `text`, in the form the checks read,
/// or the message of its error when the text is not TOML.
pub uninterp spec fn toml_text_value(text: Seq<char>) -> Result<TomlValue, Seq<char>>;

/// Converts a parsed JSON value, variant for variant; objects keep the order in which
/// serde_json's map walks its keys. Only the parse below calls it.
#[verifier::external_body]
fn json_from(v: &serde_json::Value) -> JsonValue {
    match v {
        serde_json::Value::String(s) => JsonValue::Str(s.clone()),
        serde_json::Value::Array(a) => JsonValue::Array(a.iter().map(json_from).collect()),
        serde_json::Value::Object(m) => JsonValue::Object(m.iter().map(|(k, x)| (k.clone(), json_from(x))).collect()),
        _ => JsonValue::Other,
    }
}

/// Converts a parsed TOML value, variant for variant; a table keeps the order in which
/// toml's map walks its keys and, like any value but a string, its TOML text.
#[verifier::external_body]
fn toml_from(v: &toml::Value) -> TomlValue {
    match v {
        toml::Value::String(s) => TomlValue::Str(s.clone()),
        toml::Value::Table(t) => TomlValue::Table(t.iter().map(|(k, x)| (k.clone(), toml_from(x))).collect(), v.to_string()),
        other => TomlValue::Other(other.to_string()),
    }
}

/// Parses `text` with `serde_json::from_str::<serde_json::Value>`. Its result depends on
/// `text` alone and is named by `json_text_value`.
#[verifier::external_body]
pub(crate) fn parse_json(text: &str) -> (r: Option<JsonValue>)
    ensures
        r == json_text_value(text@),
{
    match serde_json::from_str::<serde_json::Value>(text) {
        Ok(v) => Some(json_from(&v)),
        Err(_) => None,
    }
}

/// No key occurs twice among the entries.
pub open spec fn keys_distinct<V>(es: Seq<(String, V)>) -> bool {
    forall|i: int, j: int| 0 <= i < j < es.len() ==> (#[trigger] es[i]).0@ != (#[trigger] es[j]).0@
}

/// A table whose keys, and those of each table directly in it, occur once each.
pub open spec fn toml_tables_distinct(v: TomlValue) -> bool {
    match v {
        TomlValue::Table(es, _) => {
            &&& keys_distinct(es@)
            &&& forall|i: int|
                0 <= i < es@.len() ==> match (#[trigger] es@[i]).1 {
                    TomlValue::Table(inner, _) => keys_distinct(inner@),
                    _ => true,
                }
        },
        _ => true,
    }
}

/// Parses `text` with `toml::from_str::<toml::Value>`, the error by its `Display` text.
/// Its result depends on `text` alone and is named by `toml_text_value`. A parsed table is
/// a `toml::Table`, a map, so its keys are distinct, and so are those of the tables in it.
#[verifier::external_body]
pub(crate) fn parse_toml(text: &str) -> (r: Result<TomlValue, String>)
    ensures
        match r {
            Ok(v) => toml_text_value(text@) == Ok::<TomlValue, Seq<char>>(v) && toml_tables_distinct(v),
            Err(m) => toml_text_value(text@) == Err::<TomlValue, Seq<char>>(m@),
        },
{
    match toml::from_str::<toml::Value>(text) {
        Ok(v) => Ok(toml_from(&v)),
        Err(e) => Err(e.to_string()),
    }
}

pub open spec fn opt_seq(t: Option<&str>) -> Option<Seq<char>> {
    match t {
        Some(s) => Some(s@),
        None => None,
    }
}

/// A JSON file: missing when it is not there, invalid when it cannot be read or is not JSON.
pub open spec fn json_file(exists: bool, text: Option<Seq<char>>) -> FileState<JsonValue> {
    if !exists {
        FileState::Missing
    } else {
        match text {
            None => FileState::Invalid,
            Some(t) => match json_text_value(t) {
                Some(v) => FileState::Parsed(v),
                None => FileState::Invalid,
            },
        }
    }
}

/// A TOML file: missing when it is not there, invalid when it cannot be read or is not TOML.
pub open spec fn toml_file(exists: bool, text: Option<Seq<char>>) -> FileState<TomlValue> {
    if !exists {
        FileState::Missing
    } else {
        match text {
            None => FileState::Invalid,
            Some(t) => match toml_text_value(t) {
                Ok(v) => FileState::Parsed(v),
                Err(_) => FileState::Invalid,
            },
        }
    }
}

/// What a JSON file gives, from whether it is there and its text when it could be read.
pub fn file_state_json(exists: bool, text: Option<&str>) -> (r: FileState<JsonValue>)
    ensures
        r == json_file(exists, opt_seq(text)),
{
    if !exists {
        return FileState::Missing;
    }
    match text {
        None => FileState::Invalid,
        Some(t) => match parse_json(t) {
            Some(v) => FileState::Parsed(v),
            None => FileState::Invalid,
        },
    }
}

/// What a TOML file gives, from whether it is there and its text when it could be read.
pub fn file_state_toml(exists: bool, text: Option<&str>) -> (r: FileState<TomlValue>)
    ensures
        r == toml_file(exists, opt_seq(text)),
{
    if !exists {
        return FileState::Missing;
    }
    match text {
        None => FileState::Invalid,
        Some(t) => match parse_toml(t) {
            Ok(v) => FileState::Parsed(v),
            Err(_) => FileState::Invalid,
        },
    }
}

// ---- writing JSON text ----

/// A JSON value as plain values.
pub enum JsonView {
    Str(Seq<char>),
    Array(Seq<JsonView>),
    Object(Seq<(Seq<char>, JsonView)>),
    Other,
}

pub open spec fn json_view(v: JsonValue) -> JsonView
    decreases v,
{
    match v {
        JsonValue::Str(s) => JsonView::Str(s@),
        JsonValue::Array(items) => JsonView::Array(items_view(items@)),
        JsonValue::Object(es) => JsonView::Object(entries_view(es@)),
        JsonValue::Other => JsonView::Other,
    }
}

pub open spec fn items_view(items: Seq<JsonValue>) -> Seq<JsonView>
    decreases items,
{
    if items.len() == 0 {
        Seq::empty()
    } else {
        items_view(items.drop_last()).push(json_view(items.last()))
    }
}

pub open spec fn entries_view(es: Seq<(String, JsonValue)>) -> Seq<(Seq<char>, JsonView)>
    decreases es,
{
    if es.len() == 0 {
        Seq::empty()
    } else {
        entries_view(es.drop_last()).push((es.last().0@, json_view(es.last().1)))
    }
}

/// The text `serde_json::to_string_pretty` writes for a value: the value converted variant
/// for variant into a `serde_json::Value` (an `Other` as `null`, an object's entries put
/// into serde_json's map).
pub uninterp spec fn json_pretty(v: JsonView) -> Seq<char>;

/// Converts a value to serde_json's, variant for variant; `Other` becomes `null`. Only
/// the printer below calls it.
#[verifier::external_body]
fn json_to(v: &JsonValue) -> serde_json::Value {
    match v {
        JsonValue::Str(s) => serde_json::Value::String(s.clone()),
        JsonValue::Array(a) => serde_json::Value::Array(a.iter().map(json_to).collect()),
        JsonValue::Object(es) => serde_json::Value::Object(es.iter().map(|(k, x)| (k.clone(), json_to(x))).collect()),
        JsonValue::Other => serde_json::Value::Null,
    }
}

/// Writes `v` with `serde_json::to_string_pretty`; the text depends on `v` alone and is
/// named by `json_pretty`. Writing a `serde_json::Value` does not fail: its keys are
/// strings.
#[verifier::external_body]
pub(crate) fn pretty_json(v: &JsonValue) -> (r: String)
    ensures
        r@ == json_pretty(json_view(*v)),
{
    match serde_json::to_string_pretty(&json_to(v)) {
        Ok(t) => t,
        Err(_) => String::new(),
    }
}

/// A JSON string.
pub(crate) fn json_str(s: &str) -> (r: JsonValue)
    ensures
        json_view(r) == JsonView::Str(s@),
{
    JsonValue::Str(chars_string(s))
}

fn chars_string(s: &str) -> (r: String)
    ensures
        r@ == s@,
{
    crate::text::string_of(&chars_of(s))
}

/// A JSON object of the entries `es`, in order.
pub(crate) fn json_object(es: Vec<(&str, JsonValue)>) -> (r: JsonValue)
    ensures
        json_view(r) == JsonView::Object(
            es@.map_values(|e: (&str, JsonValue)| (e.0@, json_view(e.1))),
        ),
{
    let ghost want = es@.map_values(|e: (&str, JsonValue)| (e.0@, json_view(e.1)));
    let mut out: Vec<(String, JsonValue)> = Vec::new();
    let mut rest = es;
    let ghost all = rest@;
    let mut rev: Vec<(&str, JsonValue)> = Vec::new();
    while rest.len() > 0
        invariant
            all.len() == rest@.len() + rev@.len(),
            forall|k: int| 0 <= k < rest@.len() ==> #[trigger] rest@[k] == all[k],
            forall|k: int| 0 <= k < rev@.len() ==> #[trigger] rev@[k] == all[all.len() - 1 - k],
        decreases rest.len(),
    {
        let e = rest.pop().unwrap();
        rev.push(e);
    }
    let n = rev.len();
    let mut i: usize = 0;
    while rev.len() > 0
        invariant
            n == all.len(),
            rev@.len() + i == n,
            forall|k: int| 0 <= k < rev@.len() ==> #[trigger] rev@[k] == all[n - 1 - k],
            entries_view(out@) == all.take(i as int).map_values(
                |e: (&str, JsonValue)| (e.0@, json_view(e.1)),
            ),
        decreases rev.len(),
    {
        let e = rev.pop().unwrap();
        assert(e == all[i as int]);
        let k = chars_string(e.0);
        let ghost o0 = out@;
        out.push((k, e.1));
        assert(out@.drop_last() =~= o0);
        assert(all.take(i + 1) =~= all.take(i as int).push(all[i as int]));
        assert(all.take(i + 1).map_values(|e: (&str, JsonValue)| (e.0@, json_view(e.1)))
            =~= all.take(i as int).map_values(|e: (&str, JsonValue)| (e.0@, json_view(e.1))).push(
            (all[i as int].0@, json_view(all[i as int].1)),
        ));
        i += 1;
    }
    assert(all.take(n as int) =~= all);
    JsonValue::Object(out)
}

} // verus!
