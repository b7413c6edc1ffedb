//! The outside codec crates (serde_json, serde_yaml, toml, csv and
//! toon-format), each reached through a trusted item whose contract is
//! stated here and checked by no proof.
use crate::json::{distinct_keys, Json};
use vstd::prelude::*;

verus! {

#[verifier::external_type_specification]
#[verifier::external_body]
pub struct ExSerdeValue(serde_json::Value);

#[verifier::external_type_specification]
#[verifier::external_body]
pub struct ExSerdeNumber(serde_json::Number);

#[verifier::external_type_specification]
#[verifier::external_body]
pub struct ExSerdeJsonError(serde_json::Error);

#[verifier::external_type_specification]
#[verifier::external_body]
pub struct ExSerdeYamlError(serde_yaml::Error);

#[verifier::external_type_specification]
#[verifier::external_body]
pub struct ExCsvError(csv::Error);

#[verifier::external_type_specification]
#[verifier::external_body]
pub struct ExTomlValue(toml::Value);

#[verifier::external_type_specification]
#[verifier::external_body]
pub struct ExTomlError(toml::de::Error);

#[verifier::external_type_specification]
#[verifier::external_body]
pub struct ExToonError(toon_format::ToonError);

#[verifier::external_type_specification]
#[verifier::external_body]
pub struct ExIoError(std::io::Error);

/// The document that a `serde_json::Value` holds.
pub uninterp spec fn serde_tree(v: serde_json::Value) -> Json;

/// The text that `Display` gives for a `serde_json::Number`.
pub uninterp spec fn number_display(n: serde_json::Number) -> Seq<char>;

/// `serde_json::Number::from(i64)`.
pub uninterp spec fn i64_number(i: i64) -> serde_json::Number;

/// `serde_json::Number::from(u64)`.
pub uninterp spec fn u64_number(u: u64) -> serde_json::Number;

/// The JSON number of the text read as an `f64`, where the text reads as one
/// and the float is finite.
pub uninterp spec fn float_text_number(text: Seq<char>) -> Option<serde_json::Number>;

/// The document that `serde_json::from_str` reads from the text, if it reads one.
pub uninterp spec fn json_text_value(text: Seq<char>) -> Option<Json>;

/// The document that `serde_yaml::from_str` reads from the text, if it reads one.
pub uninterp spec fn yaml_text_value(text: Seq<char>) -> Option<Json>;

/// The document that `toon_format::decode_default` reads from the text, if it reads one.
pub uninterp spec fn toon_text_value(text: Seq<char>) -> Option<Json>;

/// The document that `toml::from_str` reads from the text, if it reads one.
pub uninterp spec fn toml_text_value(text: Seq<char>) -> Option<TomlTree>;

/// The header and the records that the `csv` reader reads from the text
/// with the given delimiter, if it reads them all.
pub uninterp spec fn csv_text_table(text: Seq<char>, delimiter: u8) -> Option<
    (Seq<Seq<char>>, Seq<Seq<Seq<char>>>),
>;

/// The text that `serde_json::to_string` writes for the document, if it writes one.
pub uninterp spec fn json_compact_text(j: Json) -> Option<Seq<char>>;

/// The text that `serde_yaml::to_string` writes for the document, if it writes one.
pub uninterp spec fn yaml_text(j: Json) -> Option<Seq<char>>;

/// The text that `toon_format::encode_default` writes for the document, if it writes one.
pub uninterp spec fn toon_text(j: Json) -> Option<Seq<char>>;

/// The document that a `toml::Value` holds. A float is carried as the JSON
/// number that `serde_json::Number::from_f64` makes of it (`None` where the
/// float is not finite); a date-time as the text that its `Display` gives.
pub enum TomlTree {
    Str(Seq<char>),
    Integer(i64),
    Float(Option<serde_json::Number>),
    Boolean(bool),
    Datetime(Seq<char>),
    Array(Seq<TomlTree>),
    Table(Seq<(Seq<char>, TomlTree)>),
}

/// The top of a `toml::Value`: its variant, with the fields borrowed.
pub enum TomlNode<'a> {
    Str(&'a String),
    Integer(i64),
    Float(Option<serde_json::Number>),
    Boolean(bool),
    Datetime(String),
    Array(&'a Vec<toml::Value>),
    Table(Vec<(&'a String, &'a toml::Value)>),
}

/// The top of a `serde_json::Value`: its variant, with the fields borrowed.
pub enum SerdeNode<'a> {
    Null,
    Bool(bool),
    Number(&'a serde_json::Number),
    Str(&'a String),
    Array(&'a Vec<serde_json::Value>),
    Object(Vec<(&'a String, &'a serde_json::Value)>),
}

/// Tells the variants of a `serde_json::Value` apart. Claims that the
/// variant and its fields are what `serde_tree` holds, that an object's
/// members come in the map's iteration order, and that a map holds each key
/// once.
#[verifier::external_body]
pub fn serde_node<'a>(v: &'a serde_json::Value) -> (node: SerdeNode<'a>)
    ensures
        match node {
            SerdeNode::Null => serde_tree(*v) == Json::Null,
            SerdeNode::Bool(b) => serde_tree(*v) == Json::Bool(b),
            SerdeNode::Number(n) => serde_tree(*v) == Json::Number(*n),
            SerdeNode::Str(s) => serde_tree(*v) == Json::Str(s@),
            SerdeNode::Array(items) => serde_tree(*v) == Json::Array(
                items@.map_values(|x: serde_json::Value| serde_tree(x)),
            ),
            SerdeNode::Object(members) => {
                &&& serde_tree(*v) == Json::Object(
                    members@.map_values(
                        |m: (&String, &serde_json::Value)| (m.0@, serde_tree(*m.1)),
                    ),
                )
                &&& distinct_keys(
                    members@.map_values(
                        |m: (&String, &serde_json::Value)| (m.0@, serde_tree(*m.1)),
                    ),
                )
            },
        },
{
    match v {
        serde_json::Value::Null => SerdeNode::Null,
        serde_json::Value::Bool(b) => SerdeNode::Bool(*b),
        serde_json::Value::Number(n) => SerdeNode::Number(n),
        serde_json::Value::String(s) => SerdeNode::Str(s),
        serde_json::Value::Array(items) => SerdeNode::Array(items),
        serde_json::Value::Object(map) => SerdeNode::Object(map.iter().collect()),
    }
}

/// `serde_json::Value::Null`.
#[verifier::external_body]
pub fn serde_null() -> (v: serde_json::Value)
    ensures
        serde_tree(v) == Json::Null,
{
    serde_json::Value::Null
}

/// `serde_json::Value::Bool`.
#[verifier::external_body]
pub fn serde_bool(b: bool) -> (v: serde_json::Value)
    ensures
        serde_tree(v) == Json::Bool(b),
{
    serde_json::Value::Bool(b)
}

/// `serde_json::Value::Number`.
#[verifier::external_body]
pub fn serde_number(n: serde_json::Number) -> (v: serde_json::Value)
    ensures
        serde_tree(v) == Json::Number(n),
{
    serde_json::Value::Number(n)
}

/// `serde_json::Value::String`.
#[verifier::external_body]
pub fn serde_string(s: String) -> (v: serde_json::Value)
    ensures
        serde_tree(v) == Json::Str(s@),
{
    serde_json::Value::String(s)
}

/// `serde_json::Value::Array`.
#[verifier::external_body]
pub fn serde_array(items: Vec<serde_json::Value>) -> (v: serde_json::Value)
    ensures
        serde_tree(v) == Json::Array(items@.map_values(|x: serde_json::Value| serde_tree(x))),
{
    serde_json::Value::Array(items)
}

/// `serde_json::Value::Object` of a map collected from the members. Claims
/// that, the keys being distinct, the map holds the members in the order
/// given (the map keeps insertion order).
#[verifier::external_body]
pub fn serde_object(members: Vec<(String, serde_json::Value)>) -> (v: serde_json::Value)
    requires
        distinct_keys(
            members@.map_values(|m: (String, serde_json::Value)| (m.0@, serde_tree(m.1))),
        ),
    ensures
        serde_tree(v) == Json::Object(
            members@.map_values(|m: (String, serde_json::Value)| (m.0@, serde_tree(m.1))),
        ),
{
    serde_json::Value::Object(members.into_iter().collect())
}

/// `<serde_json::Number as Clone>::clone` (derived): an equal number.
pub assume_specification[ <serde_json::Number as Clone>::clone ](n: &serde_json::Number) -> (r:
    serde_json::Number)
    ensures
        r == *n,
;

/// `Display` of a `serde_json::Number`.
#[verifier::external_body]
pub fn number_text(n: &serde_json::Number) -> (s: String)
    ensures
        s@ == number_display(*n),
{
    n.to_string()
}

/// `serde_json::Number::from(i64)`. Claims that the number displays as the
/// integer's decimal numeral (serde_json writes integers with `itoa`).
#[verifier::external_body]
pub fn number_from_i64(i: i64) -> (n: serde_json::Number)
    ensures
        n == i64_number(i),
        number_display(n) == crate::text::signed_decimal(i as int),
{
    serde_json::Number::from(i)
}

/// `serde_json::Number::from(u64)`. Claims that the number displays as the
/// integer's decimal numeral.
#[verifier::external_body]
pub fn number_from_u64(u: u64) -> (n: serde_json::Number)
    ensures
        n == u64_number(u),
        number_display(n) == crate::text::decimal(u as nat),
{
    serde_json::Number::from(u)
}

/// `<f64 as FromStr>::from_str` followed by `serde_json::Number::from_f64`:
/// the text read as a float, made a JSON number if it is finite.
#[verifier::external_body]
pub fn parse_float_number(text: &str) -> (r: Option<serde_json::Number>)
    ensures
        r == float_text_number(text@),
{
    text.parse().ok().and_then(serde_json::Number::from_f64)
}

/// `serde_json::from_str::<serde_json::Value>`.
#[verifier::external_body]
pub fn json_from_str(text: &str) -> (r: Result<serde_json::Value, serde_json::Error>)
    ensures
        r is Ok <==> json_text_value(text@) is Some,
        r matches Ok(v) ==> json_text_value(text@) == Some(serde_tree(v)),
{
    serde_json::from_str(text)
}

/// `serde_yaml::from_str::<serde_json::Value>`.
#[verifier::external_body]
pub fn yaml_from_str(text: &str) -> (r: Result<serde_json::Value, serde_yaml::Error>)
    ensures
        r is Ok <==> yaml_text_value(text@) is Some,
        r matches Ok(v) ==> yaml_text_value(text@) == Some(serde_tree(v)),
{
    serde_yaml::from_str(text)
}

/// `toon_format::decode_default::<serde_json::Value>`.
#[verifier::external_body]
pub fn toon_decode(text: &str) -> (r: Result<serde_json::Value, toon_format::ToonError>)
    ensures
        r is Ok <==> toon_text_value(text@) is Some,
        r matches Ok(v) ==> toon_text_value(text@) == Some(serde_tree(v)),
{
    toon_format::decode_default(text)
}

/// `serde_json::to_string` of a value.
#[verifier::external_body]
pub fn json_to_string(v: &serde_json::Value) -> (r: Result<String, serde_json::Error>)
    ensures
        r is Ok <==> json_compact_text(serde_tree(*v)) is Some,
        r matches Ok(s) ==> json_compact_text(serde_tree(*v)) == Some(s@),
{
    serde_json::to_string(v)
}

/// `serde_yaml::to_string` of a value.
#[verifier::external_body]
pub fn yaml_to_string(v: &serde_json::Value) -> (r: Result<String, serde_yaml::Error>)
    ensures
        r is Ok <==> yaml_text(serde_tree(*v)) is Some,
        r matches Ok(s) ==> yaml_text(serde_tree(*v)) == Some(s@),
{
    serde_yaml::to_string(v)
}

/// `toon_format::encode_default` of a value.
#[verifier::external_body]
pub fn toon_encode(v: &serde_json::Value) -> (r: Result<String, toon_format::ToonError>)
    ensures
        r is Ok <==> toon_text(serde_tree(*v)) is Some,
        r matches Ok(s) ==> toon_text(serde_tree(*v)) == Some(s@),
{
    toon_format::encode_default(v)
}

/// `toml::from_str::<toml::Value>`.
#[verifier::external_body]
pub fn toml_from_str(text: &str) -> (r: Result<toml::Value, toml::de::Error>)
    ensures
        r is Ok <==> toml_text_value(text@) is Some,
        r matches Ok(v) ==> toml_text_value(text@) == Some(toml_tree(v)),
{
    toml::from_str(text)
}

/// The document that a `toml::Value` holds.
pub uninterp spec fn toml_tree(v: toml::Value) -> TomlTree;

/// Tells the variants of a `toml::Value` apart. A float is handed to
/// `serde_json::Number::from_f64` and a date-time to its `Display`, as
/// `TomlTree` describes. Claims that the fields are what `toml_tree` holds,
/// that a table's entries come in its iteration order, and that a table
/// holds each key once.
#[verifier::external_body]
pub fn toml_node<'a>(v: &'a toml::Value) -> (node: TomlNode<'a>)
    ensures
        match node {
            TomlNode::Str(s) => toml_tree(*v) == TomlTree::Str(s@),
            TomlNode::Integer(i) => toml_tree(*v) == TomlTree::Integer(i),
            TomlNode::Float(n) => toml_tree(*v) == TomlTree::Float(n),
            TomlNode::Boolean(b) => toml_tree(*v) == TomlTree::Boolean(b),
            TomlNode::Datetime(s) => toml_tree(*v) == TomlTree::Datetime(s@),
            TomlNode::Array(items) => toml_tree(*v) == TomlTree::Array(
                items@.map_values(|x: toml::Value| toml_tree(x)),
            ),
            TomlNode::Table(entries) => {
                &&& toml_tree(*v) == TomlTree::Table(
                    entries@.map_values(|e: (&String, &toml::Value)| (e.0@, toml_tree(*e.1))),
                )
                &&& forall|i: int, j: int|
                    0 <= i < entries@.len() && 0 <= j < entries@.len() && i != j
                        ==> #[trigger] entries@[i].0@ != #[trigger] entries@[j].0@
            },
        },
{
    match v {
        toml::Value::String(s) => TomlNode::Str(s),
        toml::Value::Integer(i) => TomlNode::Integer(*i),
        toml::Value::Float(f) => TomlNode::Float(serde_json::Number::from_f64(*f)),
        toml::Value::Boolean(b) => TomlNode::Boolean(*b),
        toml::Value::Datetime(d) => TomlNode::Datetime(d.to_string()),
        toml::Value::Array(items) => TomlNode::Array(items),
        toml::Value::Table(table) => TomlNode::Table(table.iter().collect()),
    }
}

/// The `csv` reader over the text with the given delimiter and a header row:
/// the header fields and every record's fields, or the reader's first error.
#[verifier::external_body]
pub fn csv_read(text: &str, delimiter: u8) -> (r: Result<(Vec<String>, Vec<Vec<String>>), csv::Error>)
    ensures
        r is Ok <==> csv_text_table(text@, delimiter) is Some,
        r matches Ok(t) ==> csv_text_table(text@, delimiter) == Some(
            (
                t.0@.map_values(|s: String| s@),
                t.1@.map_values(|row: Vec<String>| row@.map_values(|s: String| s@)),
            ),
        ),
{
    let mut reader = csv::ReaderBuilder::new().delimiter(delimiter).from_reader(text.as_bytes());
    let headers: Vec<String> = reader.headers()?.iter().map(str::to_owned).collect();
    let records = reader.records().map(|r| r.map(|rec| rec.iter().map(str::to_owned).collect()));
    let rows = records.collect::<Result<Vec<Vec<String>>, csv::Error>>()?;
    Ok((headers, rows))
}

} // verus!
