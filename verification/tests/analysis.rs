use llmfmt::analysis::{analyze, Ratio};
use llmfmt::json::JsonValue;

fn num(n: i64) -> JsonValue {
    JsonValue::Number(serde_json::Number::from(n))
}

fn text(s: &str) -> JsonValue {
    JsonValue::String(s.to_owned())
}

fn obj(members: Vec<(&str, JsonValue)>) -> JsonValue {
    JsonValue::Object(members.into_iter().map(|(k, v)| (k.to_owned(), v)).collect())
}

fn arr(items: Vec<JsonValue>) -> JsonValue {
    JsonValue::Array(items)
}

fn ratio_value(r: Ratio) -> f64 {
    r.numerator as f64 / r.denominator as f64
}

#[test]
fn detects_flat_uniform_array() {
    let value = arr(vec![
        obj(vec![("id", num(1)), ("name", text("a"))]),
        obj(vec![("id", num(2)), ("name", text("b"))]),
    ]);
    let analysis = analyze(&value);
    assert!(analysis.is_uniform_object_array);
    assert!(analysis.is_flat_object_array);
    assert_eq!(analysis.field_count, 2);
    assert_eq!(analysis.scalar_field_count, 4);
    assert_eq!(analysis.nested_field_count, 0);
    assert_eq!(analysis.nested_value_field_count, 0);
}

#[test]
fn detects_irregular_array() {
    let value = arr(vec![
        obj(vec![("id", num(1)), ("name", text("a"))]),
        obj(vec![("id", num(2)), ("role", text("b"))]),
    ]);
    let analysis = analyze(&value);
    assert!(!analysis.is_uniform_object_array);
    assert!(ratio_value(analysis.sparsity) > 0.0);
}

#[test]
fn detects_nested_arrays_and_deep_nesting() {
    let value = obj(vec![(
        "outer",
        arr(vec![obj(vec![("items", arr(vec![obj(vec![("id", num(1))])]))])]),
    )]);
    let analysis = analyze(&value);
    assert!(analysis.has_nested_arrays);
    assert!(!analysis.is_flat_object_array);
}

#[test]
fn marks_deep_values() {
    let value = obj(vec![(
        "a",
        obj(vec![("b", obj(vec![("c", obj(vec![("d", obj(vec![("e", num(1))]))]))]))]),
    )]);
    let analysis = analyze(&value);
    assert!(analysis.is_deeply_nested);
    assert!(analysis.depth >= 5);
}

#[test]
fn counts_nested_and_scalar_fields_for_object_rows() {
    let value = arr(vec![
        obj(vec![
            ("id", num(1)),
            ("name", text("alice")),
            ("address", obj(vec![("city", text("x"))])),
            ("tags", arr(vec![text("a")])),
        ]),
        obj(vec![
            ("id", num(2)),
            ("name", text("bob")),
            ("address", obj(vec![("city", text("y"))])),
            ("tags", arr(vec![text("b")])),
        ]),
    ]);
    let analysis = analyze(&value);
    assert_eq!(analysis.scalar_field_count, 4);
    assert_eq!(analysis.nested_field_count, 4);
    assert_eq!(analysis.nested_value_field_count, 4);
    assert!(!analysis.is_flat_object_array);
}

#[test]
fn sparsity_and_uniformity_are_exact_shares() {
    let value = arr(vec![
        obj(vec![("id", num(1)), ("name", text("a"))]),
        obj(vec![("id", num(2)), ("role", text("b"))]),
    ]);
    let analysis = analyze(&value);
    // three columns, two rows: two of six cells are empty
    assert_eq!(analysis.field_count, 3);
    assert_eq!(analysis.row_count, 2);
    assert!((ratio_value(analysis.sparsity) - 2.0 / 6.0).abs() < 1e-12);
    // one of two rows has the first row's keys
    assert!((ratio_value(analysis.uniformity) - 0.5).abs() < 1e-12);
}

#[test]
fn scalar_document_has_depth_zero() {
    let analysis = analyze(&num(7));
    assert_eq!(analysis.depth, 0);
    assert_eq!(analysis.row_count, 0);
    assert!(!analysis.is_deeply_nested);
    assert!(!analysis.has_nested_arrays);
}
