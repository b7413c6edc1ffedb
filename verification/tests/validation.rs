use llmfmt::json::JsonValue;
use llmfmt::validation::validate_tsv_value;

fn num(n: i64) -> JsonValue {
    JsonValue::Number(serde_json::Number::from(n))
}

fn text(s: &str) -> JsonValue {
    JsonValue::String(s.to_owned())
}

fn obj(members: Vec<(&str, JsonValue)>) -> JsonValue {
    JsonValue::Object(members.into_iter().map(|(k, v)| (k.to_owned(), v)).collect())
}

fn arr(items: Vec<JsonValue>) -> JsonValue {
    JsonValue::Array(items)
}

#[test]
fn rejects_nested_tsv_rows() {
    let value = arr(vec![obj(vec![("id", num(1)), ("tags", arr(vec![text("a")]))])]);
    assert!(validate_tsv_value(&value).is_err());
}

#[test]
fn rejects_non_object_rows() {
    let value = arr(vec![num(1), num(2), num(3)]);
    assert!(validate_tsv_value(&value).is_err());
}

#[test]
fn rejects_non_table_top_level() {
    let value = obj(vec![("users", obj(vec![("id", num(1))]))]);
    assert!(validate_tsv_value(&value).is_err());
}

#[test]
fn accepts_single_key_object_with_array() {
    let value = obj(vec![("users", arr(vec![obj(vec![("id", num(1)), ("name", text("alice"))])]))]);
    assert!(validate_tsv_value(&value).is_ok());
}
