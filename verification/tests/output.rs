use llmfmt::format::OutputFormat;
use llmfmt::json::JsonValue;
use llmfmt::output::{canonicalize_value, emit_output, wrap_output};

fn num(n: i64) -> JsonValue {
    JsonValue::Number(serde_json::Number::from(n))
}

fn text(s: &str) -> JsonValue {
    JsonValue::String(s.to_owned())
}

fn obj(members: Vec<(&str, JsonValue)>) -> JsonValue {
    JsonValue::Object(members.into_iter().map(|(k, v)| (k.to_owned(), v)).collect())
}

fn arr(items: Vec<JsonValue>) -> JsonValue {
    JsonValue::Array(items)
}

#[test]
fn canonicalizes_object_order() {
    let value = obj(vec![("b", num(1)), ("a", obj(vec![("d", num(1)), ("c", num(2))]))]);
    let rendered = emit_output(OutputFormat::JsonCompact, &canonicalize_value(value)).unwrap();
    assert_eq!(rendered, r#"{"a":{"c":2,"d":1},"b":1}"#);
}

#[test]
fn emits_tsv() {
    let value = arr(vec![obj(vec![("id", num(1)), ("name", text("alice"))])]);
    let output = emit_output(OutputFormat::Tsv, &value).unwrap();
    assert_eq!(output, "id\tname\n1\talice\n");
}

#[test]
fn emits_toon() {
    let value = obj(vec![("users", arr(vec![obj(vec![("id", num(1)), ("name", text("alice"))])]))]);
    let output = emit_output(OutputFormat::Toon, &value).unwrap();
    assert_eq!(output, "users[1]{id,name}:\n  1,alice");
}

#[test]
fn wraps_output_with_trailing_newline() {
    let wrapped = wrap_output(OutputFormat::Tsv, "id\tname\n1\talice\n");
    assert_eq!(wrapped, "```tsv\nid\tname\n1\talice\n```\n");
}

#[test]
fn escapes_special_characters_in_tsv_cells() {
    let value = arr(vec![obj(vec![("id", num(1)), ("text", text("hello\tworld\nnext"))])]);
    let output = emit_output(OutputFormat::Tsv, &value).unwrap();
    assert_eq!(output, "id\ttext\n1\thello\\tworld\\nnext\n");
}

#[test]
fn supports_single_key_object_table_for_tsv() {
    let value = obj(vec![("users", arr(vec![obj(vec![("id", num(1)), ("name", text("alice"))])]))]);
    let output = emit_output(OutputFormat::Tsv, &value).unwrap();
    assert_eq!(output, "id\tname\n1\talice\n");
}
