use llmfmt::analysis::analyze;
use llmfmt::format::OutputFormat;
use llmfmt::json::JsonValue;
use llmfmt::profile::{Profile, Profile20260410, Profile20260411};

fn num(n: i64) -> JsonValue {
    JsonValue::Number(serde_json::Number::from(n))
}

fn text(s: &str) -> JsonValue {
    JsonValue::String(s.to_owned())
}

fn obj(members: Vec<(&str, JsonValue)>) -> JsonValue {
    JsonValue::Object(members.into_iter().map(|(k, v)| (k.to_owned(), v)).collect())
}

fn arr(items: Vec<JsonValue>) -> JsonValue {
    JsonValue::Array(items)
}

#[test]
fn routes_dense_small_table_to_tsv() {
    let profile = Profile20260410;
    let analysis = analyze(&arr(vec![
        obj(vec![("id", num(1)), ("name", text("a"))]),
        obj(vec![("id", num(2)), ("name", text("b"))]),
    ]));
    assert_eq!(profile.select_format(&analysis), OutputFormat::Tsv);
}

#[test]
fn routes_wider_table_to_toon() {
    let profile = Profile20260410;
    let analysis = analyze(&arr(vec![
        obj(vec![("id", num(1)), ("name", text("a")), ("role", text("x")), ("team", text("red"))]),
        obj(vec![("id", num(2)), ("name", text("b")), ("role", text("y")), ("team", text("blue"))]),
    ]));
    assert_eq!(profile.select_format(&analysis), OutputFormat::Toon);
}

#[test]
fn routes_nested_object_to_yaml() {
    let profile = Profile20260410;
    let analysis = analyze(&obj(vec![("user", obj(vec![("id", num(1)), ("name", text("alice"))]))]));
    assert_eq!(profile.select_format(&analysis), OutputFormat::Yaml);
}

#[test]
fn routes_deep_structure_to_compact_json() {
    let profile = Profile20260410;
    let analysis = analyze(&obj(vec![(
        "a",
        obj(vec![("b", obj(vec![("c", obj(vec![("d", obj(vec![("e", num(1))]))]))]))]),
    )]));
    assert_eq!(profile.select_format(&analysis), OutputFormat::JsonCompact);
}

#[test]
fn new_profile_routes_nested_uniform_rows_away_from_toon() {
    let profile = Profile20260411;
    let analysis = analyze(&arr(vec![
        obj(vec![
            ("id", num(1)),
            ("name", text("Alice")),
            (
                "address",
                obj(vec![
                    ("city", text("Gwenborough")),
                    ("geo", obj(vec![("lat", text("1")), ("lng", text("2"))])),
                ]),
            ),
            (
                "company",
                obj(vec![
                    ("name", text("Romaguera-Crona")),
                    ("bs", text("harness real-time e-markets")),
                ]),
            ),
        ]),
        obj(vec![
            ("id", num(2)),
            ("name", text("Bob")),
            (
                "address",
                obj(vec![
                    ("city", text("Wisokyburgh")),
                    ("geo", obj(vec![("lat", text("3")), ("lng", text("4"))])),
                ]),
            ),
            (
                "company",
                obj(vec![
                    ("name", text("Deckow-Crist")),
                    ("bs", text("synergize scalable supply-chains")),
                ]),
            ),
        ]),
    ]));
    assert_eq!(profile.select_format(&analysis), OutputFormat::Yaml);
}

#[test]
fn old_profile_still_routes_nested_uniform_rows_to_toon() {
    let profile = Profile20260410;
    let analysis = analyze(&arr(vec![
        obj(vec![
            ("id", num(1)),
            ("name", text("Alice")),
            ("address", obj(vec![("city", text("Gwenborough"))])),
            ("company", obj(vec![("name", text("Romaguera-Crona"))])),
        ]),
        obj(vec![
            ("id", num(2)),
            ("name", text("Bob")),
            ("address", obj(vec![("city", text("Wisokyburgh"))])),
            ("company", obj(vec![("name", text("Deckow-Crist"))])),
        ]),
    ]));
    assert_eq!(profile.select_format(&analysis), OutputFormat::Toon);
}
