use llmfmt::format::InputFormat;
use llmfmt::io::{detect_input_format, parse_input};
use llmfmt::json::JsonValue;

fn num(n: i64) -> JsonValue {
    JsonValue::Number(serde_json::Number::from(n))
}

fn text(s: &str) -> JsonValue {
    JsonValue::String(s.to_owned())
}

fn obj(members: Vec<(&str, JsonValue)>) -> JsonValue {
    JsonValue::Object(members.into_iter().map(|(k, v)| (k.to_owned(), v)).collect())
}

fn arr(items: Vec<JsonValue>) -> JsonValue {
    JsonValue::Array(items)
}

/// Document equality as JSON maps have it: the members of an object in any
/// order, the items of an array in order.
fn same(a: &JsonValue, b: &JsonValue) -> bool {
    match (a, b) {
        (JsonValue::Array(x), JsonValue::Array(y)) => {
            x.len() == y.len() && x.iter().zip(y.iter()).all(|(p, q)| same(p, q))
        }
        (JsonValue::Object(x), JsonValue::Object(y)) => {
            x.len() == y.len()
                && x.iter().all(|(k, v)| {
                    y.iter().any(|(k2, v2)| k == k2 && same(v, v2))
                })
        }
        _ => a == b,
    }
}

#[test]
fn detects_tsv_as_csv_input() {
    let input = "id\tname\n1\talice\n";
    assert_eq!(detect_input_format(None, input).unwrap(), InputFormat::Csv);
}

#[test]
fn prefers_toon_over_comma_detection() {
    let input = "users[2]{id,name}:\n  1,Alice\n  2,Bob\n";
    assert_eq!(detect_input_format(None, input).unwrap(), InputFormat::Toon);
}

#[test]
fn detects_formats_from_extensions() {
    assert_eq!(
        detect_input_format(Some("data.toml"), "ignored").unwrap(),
        InputFormat::Toml
    );
    assert_eq!(
        detect_input_format(Some("data.toon"), "ignored").unwrap(),
        InputFormat::Toon
    );
}

#[test]
fn parses_yaml() {
    let value = parse_input(InputFormat::Yaml, "name: alice\nactive: true\n").unwrap();
    assert!(same(
        &value,
        &obj(vec![("name", text("alice")), ("active", JsonValue::Bool(true))])
    ));
}

#[test]
fn parses_toml() {
    let value = parse_input(InputFormat::Toml, "name = 'alice'\ncount = 2\n").unwrap();
    assert!(same(&value, &obj(vec![("name", text("alice")), ("count", num(2))])));
}

#[test]
fn csv_empty_cells_become_null() {
    let value = parse_input(InputFormat::Csv, "id,name\n1,\n").unwrap();
    assert!(same(&value, &arr(vec![obj(vec![("id", num(1)), ("name", JsonValue::Null)])])));
}

#[test]
fn unknown_input_format_returns_error() {
    let err = detect_input_format(None, "not actually structured data").unwrap_err();
    assert!(err.to_string().contains("could not detect input format"));
}

#[test]
fn parses_csv_rows() {
    let value = parse_input(InputFormat::Csv, "id,name\n1,alice\n").unwrap();
    assert!(same(&value, &arr(vec![obj(vec![("id", num(1)), ("name", text("alice"))])])));
}

#[test]
fn parses_simple_toon() {
    let input = "users[2]{id,name}:\n  1,Alice\n  2,Bob\n";
    let value = parse_input(InputFormat::Toon, input).unwrap();
    assert!(same(
        &value,
        &obj(vec![(
            "users",
            arr(vec![
                obj(vec![("id", num(1)), ("name", text("Alice"))]),
                obj(vec![("id", num(2)), ("name", text("Bob"))]),
            ])
        )])
    ));
}
