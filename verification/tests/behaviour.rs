use llmfmt::cli::{Cli, StatsMode};
use llmfmt::error::LlmFmtError;
use llmfmt::format::{InputFormat, OutputFormat};
use llmfmt::io::{
    decode_scalar, detect_input_format, format_for_extension, looks_like_delimited,
    looks_like_toon, looks_like_yaml, parse_input, require_input, sniff_format,
};
use llmfmt::json::JsonValue;
use llmfmt::output::{canonicalize_value, emit_output, escape_text, wrap_output};
use llmfmt::profile::{resolve_profile, BuiltinProfile, Profile};
use llmfmt::stats::ConversionStats;
use llmfmt::{convert, ConvertOptions};

fn num(n: i64) -> JsonValue {
    JsonValue::Number(serde_json::Number::from(n))
}

fn text(s: &str) -> JsonValue {
    JsonValue::String(s.to_owned())
}

fn obj(members: Vec<(&str, JsonValue)>) -> JsonValue {
    JsonValue::Object(members.into_iter().map(|(k, v)| (k.to_owned(), v)).collect())
}

fn arr(items: Vec<JsonValue>) -> JsonValue {
    JsonValue::Array(items)
}

fn compact(value: &JsonValue) -> String {
    emit_output(OutputFormat::JsonCompact, value).unwrap()
}

fn message(err: &LlmFmtError) -> String {
    match err {
        LlmFmtError::Message(m) => m.clone(),
        other => panic!("expected a message, got {:?}", other),
    }
}

// --- canonical form -------------------------------------------------------

#[test]
fn canonical_form_is_stable_under_repetition() {
    let value = obj(vec![
        ("zeta", arr(vec![obj(vec![("y", num(1)), ("x", num(2))])])),
        ("alpha", obj(vec![("b", JsonValue::Null), ("a", JsonValue::Bool(false))])),
    ]);
    let once = canonicalize_value(value);
    let once_text = compact(&once);
    let twice = canonicalize_value(once);
    assert_eq!(compact(&twice), once_text);
    assert_eq!(once_text, r#"{"alpha":{"a":false,"b":null},"zeta":[{"x":2,"y":1}]}"#);
}

#[test]
fn canonical_order_compares_code_points() {
    let value = obj(vec![("b", num(1)), ("B", num(2)), ("é", num(3)), ("a", num(4)), ("", num(5))]);
    assert_eq!(compact(&canonicalize_value(value)), r#"{"":5,"B":2,"a":4,"b":1,"é":3}"#);
}

#[test]
fn canonical_form_ignores_member_order() {
    let one = obj(vec![("b", num(1)), ("a", arr(vec![obj(vec![("y", num(2)), ("x", num(3))])]))]);
    let other = obj(vec![("a", arr(vec![obj(vec![("x", num(3)), ("y", num(2))])])), ("b", num(1))]);
    assert_eq!(canonicalize_value(one), canonicalize_value(other));
}

#[test]
fn canonical_keeps_array_order() {
    let value = arr(vec![num(3), num(1), num(2)]);
    assert_eq!(compact(&canonicalize_value(value)), "[3,1,2]");
}

// --- TSV ---------------------------------------------------------------------

#[test]
fn tsv_columns_are_the_sorted_union_of_row_keys() {
    let value = arr(vec![
        obj(vec![("b", num(1)), ("a", num(2))]),
        obj(vec![("c", num(3)), ("a", num(4))]),
    ]);
    let output = emit_output(OutputFormat::Tsv, &value).unwrap();
    assert_eq!(output, "a\tb\tc\n2\t1\t\n4\t\t3\n");
}

#[test]
fn tsv_writes_booleans_numbers_and_escapes_backslashes() {
    let value = arr(vec![obj(vec![
        ("flag", JsonValue::Bool(true)),
        ("ratio", JsonValue::Number(serde_json::Number::from_f64(1.5).unwrap())),
        ("path", text("a\\b")),
    ])]);
    let output = emit_output(OutputFormat::Tsv, &value).unwrap();
    assert_eq!(output, "flag\tpath\tratio\ntrue\ta\\\\b\t1.5\n");
}

#[test]
fn tsv_of_empty_table_is_an_empty_header_line() {
    let output = emit_output(OutputFormat::Tsv, &arr(vec![])).unwrap();
    assert_eq!(output, "\n");
}

#[test]
fn tsv_errors_carry_the_validation_messages() {
    let not_table = emit_output(OutputFormat::Tsv, &num(1)).unwrap_err();
    assert_eq!(
        message(&not_table),
        "tsv output requires a top-level array or a single-key object containing an array"
    );
    let not_object = emit_output(OutputFormat::Tsv, &arr(vec![num(1)])).unwrap_err();
    assert_eq!(message(&not_object), "tsv output requires every row to be an object");
    let nested = emit_output(
        OutputFormat::Tsv,
        &arr(vec![obj(vec![("a", obj(vec![]))])]),
    )
    .unwrap_err();
    assert_eq!(
        message(&nested),
        "tsv output requires flat scalar fields; nested arrays and objects are not supported"
    );
}

#[test]
fn escape_text_escapes_the_delimiter() {
    assert_eq!(escape_text("a,b\\c\td\ne", ','), "a\\,b\\\\c\\td\\ne");
    assert_eq!(escape_text("plain", '\t'), "plain");
}

#[test]
fn escaped_cells_hold_no_line_breaks_and_stay_distinct() {
    let escaped = escape_text("a\tb\\c\nd,e", ',');
    assert_eq!(escaped, "a\\tb\\\\c\\nd\\,e");
    assert!(!escaped.contains('\n') && !escaped.contains('\t'));
    // a line feed and the two characters `\n` escape differently
    assert_ne!(escape_text("\n", ','), escape_text("\\n", ','));
    assert_ne!(escape_text("\t", '\t'), escape_text("\\t", '\t'));
}

#[test]
fn wrap_output_drops_trailing_white_space_only() {
    assert_eq!(wrap_output(OutputFormat::JsonCompact, "  x \n\t"), "```json\n  x\n```\n");
    assert_eq!(wrap_output(OutputFormat::Yaml, ""), "```yaml\n\n```\n");
}

// --- detection -----------------------------------------------------------------

#[test]
fn extensions_name_formats() {
    assert_eq!(format_for_extension("yml"), Some(InputFormat::Yaml));
    assert_eq!(format_for_extension("tsv"), Some(InputFormat::Csv));
    assert_eq!(format_for_extension("json"), Some(InputFormat::Json));
    assert_eq!(format_for_extension("JSON"), None);
    assert_eq!(format_for_extension("txt"), None);
}

#[test]
fn path_extension_follows_the_last_dot_of_the_file_name() {
    assert_eq!(detect_input_format(Some("dir/archive.tar.json"), "a = 1").unwrap(), InputFormat::Json);
    // a leading dot starts no extension: the content decides
    assert_eq!(detect_input_format(Some("dir/.json"), "a = 1").unwrap(), InputFormat::Toml);
    // an unknown extension leaves the content to decide
    assert_eq!(detect_input_format(Some("notes.txt"), "[1, 2]").unwrap(), InputFormat::Json);
}

#[test]
fn content_detection_order() {
    assert_eq!(detect_input_format(None, "  \n {\"a\": 1}").unwrap(), InputFormat::Json);
    assert_eq!(detect_input_format(None, "---\nname: x\n").unwrap(), InputFormat::Yaml);
    assert_eq!(detect_input_format(None, "name: x\n").unwrap(), InputFormat::Yaml);
    assert_eq!(detect_input_format(None, "a = 1\n").unwrap(), InputFormat::Toml);
    assert_eq!(detect_input_format(None, "a,b\n\n1,2\n").unwrap(), InputFormat::Csv);
}

#[test]
fn sniffing_looks_at_first_non_blank_lines() {
    assert!(looks_like_toon("\n\nitems[2]: a,b"));
    assert!(!looks_like_toon("items[2]:\ta"));
    assert!(looks_like_delimited("a\tb\n   \nc\td"));
    assert!(!looks_like_delimited("a\tb\nc,d"));
    assert!(!looks_like_delimited("a,b"));
    assert!(looks_like_yaml("key: value\n"));
    assert!(!looks_like_yaml("key = value\n"));
    let chars: Vec<char> = "[1]".chars().collect();
    assert_eq!(sniff_format(&chars), Some(InputFormat::Json));
    let none: Vec<char> = "plain words".chars().collect();
    assert_eq!(sniff_format(&none), None);
}

#[test]
fn blank_standard_input_is_refused() {
    let err = require_input(" \n\t".to_owned()).unwrap_err();
    assert_eq!(message(&err), "no input provided; pass a file path or pipe data via stdin");
    assert_eq!(require_input("x".to_owned()).unwrap(), "x");
}

// --- parsing ---------------------------------------------------------------------

#[test]
fn csv_cells_decode_to_scalars() {
    assert_eq!(decode_scalar("  ".to_owned()), JsonValue::Null);
    assert_eq!(decode_scalar("NuLL".to_owned()), JsonValue::Null);
    assert_eq!(decode_scalar(" TRUE ".to_owned()), JsonValue::Bool(true));
    assert_eq!(decode_scalar("False".to_owned()), JsonValue::Bool(false));
    assert_eq!(decode_scalar("-42".to_owned()), num(-42));
    assert_eq!(decode_scalar("+7".to_owned()), num(7));
    assert_eq!(
        decode_scalar("18446744073709551615".to_owned()),
        JsonValue::Number(serde_json::Number::from(u64::MAX))
    );
    assert_eq!(
        decode_scalar("2.5".to_owned()),
        JsonValue::Number(serde_json::Number::from_f64(2.5).unwrap())
    );
    assert_eq!(decode_scalar("NaN".to_owned()), text("NaN"));
    assert_eq!(decode_scalar(" hello world ".to_owned()), text("hello world"));
}

#[test]
fn csv_repeated_header_keeps_first_place_and_last_value() {
    let value = parse_input(InputFormat::Csv, "a,b,a\n1,2,3\n").unwrap();
    assert_eq!(compact(&value), r#"[{"a":3,"b":2}]"#);
}

#[test]
fn tab_in_first_line_selects_tsv_reading() {
    let value = parse_input(InputFormat::Csv, "a\tb\n1,2\t3\n").unwrap();
    assert_eq!(compact(&value), r#"[{"a":"1,2","b":3}]"#);
}

#[test]
fn toml_values_convert_to_json() {
    let value = parse_input(InputFormat::Toml, "f = 1.5\nd = 1979-05-27\ni = -3\n[t]\nk = [true]\n")
        .unwrap();
    assert_eq!(
        compact(&canonicalize_value(value)),
        r#"{"d":"1979-05-27","f":1.5,"i":-3,"t":{"k":[true]}}"#
    );
    let not_finite = parse_input(InputFormat::Toml, "x = nan\n").unwrap();
    assert_eq!(compact(&not_finite), r#"{"x":null}"#);
}

#[test]
fn parse_errors_come_from_each_codec() {
    assert!(matches!(parse_input(InputFormat::Json, "{bad"), Err(LlmFmtError::Json(_))));
    assert!(matches!(parse_input(InputFormat::Yaml, "a: [1"), Err(LlmFmtError::Yaml(_))));
    assert!(matches!(parse_input(InputFormat::Toml, "a = "), Err(LlmFmtError::Toml(_))));
    assert!(matches!(parse_input(InputFormat::Csv, "a,b\n1\n"), Err(LlmFmtError::Csv(_))));
    assert!(matches!(parse_input(InputFormat::Toon, "a[2]: 1"), Err(LlmFmtError::Toon(_))));
}

// --- profiles ---------------------------------------------------------------------

#[test]
fn profile_names_resolve() {
    assert_eq!(resolve_profile(None).unwrap(), BuiltinProfile::Profile20260411);
    assert_eq!(resolve_profile(Some("latest")).unwrap(), BuiltinProfile::Profile20260411);
    assert_eq!(resolve_profile(Some("20260410")).unwrap(), BuiltinProfile::Profile20260410);
    assert_eq!(resolve_profile(Some("20260410")).unwrap().id(), "20260410");
    let err = resolve_profile(Some("x")).unwrap_err();
    assert_eq!(
        message(&err),
        "unknown profile `x`; supported values: latest, 20260410, 20260411"
    );
}

// --- stats ---------------------------------------------------------------------------

#[test]
fn percent_rounds_to_nearest_with_ties_to_even() {
    let growth = ConversionStats::new(InputFormat::Json, OutputFormat::Tsv, "p", false, 8, 9);
    assert_eq!(growth.render_text(), "tsv | size 8B→9B (+12%) [auto|estimate:bytes|profile:p]");
    let shrink = ConversionStats::new(InputFormat::Json, OutputFormat::Tsv, "p", false, 3, 2);
    assert_eq!(shrink.render_text(), "tsv | size 3B→2B (-33%) [auto|estimate:bytes|profile:p]");
    let tiny = ConversionStats::new(InputFormat::Json, OutputFormat::Tsv, "p", true, 1000, 999);
    assert_eq!(tiny.render_text(), "tsv | size 1000B→999B (-0%) [forced|estimate:bytes|profile:p]");
    let same = ConversionStats::new(InputFormat::Json, OutputFormat::Toon, "p", false, 5, 5);
    assert_eq!(same.render_text(), "toon | size 5B→5B (0%) [auto|estimate:bytes|profile:p]");
    let empty = ConversionStats::new(InputFormat::Json, OutputFormat::Toon, "p", false, 0, 5);
    assert_eq!(empty.render_text(), "toon | size 0B→5B (0%) [auto|estimate:bytes|profile:p]");
}

#[test]
fn json_report_lists_every_field_in_order() {
    let stats = ConversionStats::new(
        InputFormat::Csv,
        OutputFormat::JsonCompact,
        "a\"b",
        true,
        4,
        2,
    );
    assert_eq!(
        stats.render_json("-50.0"),
        r#"{"input_format":"csv","output_format":"json-compact","profile":"a\"b","forced":true,"estimate_kind":"bytes","input_bytes":4,"output_bytes":2,"delta_percent":-50.0}"#
    );
}

// --- conversions --------------------------------------------------------------------

#[test]
fn latest_none_and_explicit_profile_agree() {
    let input = r#"[{"id":1,"name":"a"},{"id":2,"role":"b"}]"#;
    let none = convert(input, None, &ConvertOptions { profile: None, ..ConvertOptions::default() }).unwrap();
    let latest = convert(input, None, &ConvertOptions::default()).unwrap();
    let explicit = convert(
        input,
        None,
        &ConvertOptions { profile: Some("20260411".to_owned()), ..ConvertOptions::default() },
    )
    .unwrap();
    assert_eq!(none.payload, latest.payload);
    assert_eq!(latest.payload, explicit.payload);
    assert_eq!(none.stats.render_text(), explicit.stats.render_text());
}

#[test]
fn wrapping_changes_only_the_payload() {
    let input = r#"{"b":[1,2],"a":"x"}"#;
    let plain = convert(input, None, &ConvertOptions::default()).unwrap();
    let wrapped = convert(input, None, &ConvertOptions { wrap: true, ..ConvertOptions::default() }).unwrap();
    assert_eq!(plain.rendered, wrapped.rendered);
    assert_eq!(plain.payload, plain.rendered);
    assert_eq!(wrapped.payload, wrap_output(wrapped.output_format, &wrapped.rendered));
    assert_eq!(plain.stats.render_text(), wrapped.stats.render_text());
}

#[test]
fn stats_count_bytes_of_input_and_rendered_text() {
    let input = r#"{"é":1}"#;
    let result = convert(
        input,
        None,
        &ConvertOptions { output_format: Some(OutputFormat::JsonCompact), ..ConvertOptions::default() },
    )
    .unwrap();
    assert_eq!(result.stats.input_bytes(), input.len());
    assert_eq!(result.stats.output_bytes(), result.rendered.len());
    assert_eq!(input.len(), 8);
}

#[test]
fn tsv_refusal_surfaces_through_convert() {
    let err = convert(
        r#"{"a":1,"b":2}"#,
        None,
        &ConvertOptions { output_format: Some(OutputFormat::Tsv), ..ConvertOptions::default() },
    )
    .unwrap_err();
    assert_eq!(
        err.to_string(),
        "tsv output requires a top-level array or a single-key object containing an array"
    );
}

#[test]
fn parse_error_surfaces_through_convert() {
    let err = convert(
        "{\"a\": }",
        None,
        &ConvertOptions::default(),
    )
    .unwrap_err();
    assert!(matches!(err, LlmFmtError::Json(_)));
}

#[test]
fn command_line_maps_to_options() {
    let cli = Cli {
        input: Some("users.json".to_owned()),
        input_format: Some(InputFormat::Json),
        output_format: None,
        profile: Some("20260410".to_owned()),
        wrap: true,
        stats: StatsMode::Off,
        output: None,
    };
    let options = cli.options();
    assert_eq!(options.input_format, Some(InputFormat::Json));
    assert_eq!(options.output_format, None);
    assert_eq!(options.profile.as_deref(), Some("20260410"));
    assert!(options.wrap);
    let defaults = ConvertOptions::default();
    assert_eq!(defaults.profile.as_deref(), Some("latest"));
    assert!(!defaults.wrap);
}
