use llmfmt::format::{InputFormat, OutputFormat};
use llmfmt::stats::ConversionStats;

/// The size change as the JSON report carries it: an `f32` percentage,
/// written by serde_json.
fn delta_text(stats: &ConversionStats) -> String {
    let input = stats.input_bytes() as f32;
    let output = stats.output_bytes() as f32;
    let delta: f32 = if stats.input_bytes() == 0 {
        0.0
    } else {
        ((output - input) / input) * 100.0
    };
    serde_json::to_string(&delta).unwrap()
}

#[test]
fn renders_text_for_auto_mode() {
    let stats = ConversionStats::new(
        InputFormat::Json,
        OutputFormat::Tsv,
        "20260410",
        false,
        100,
        50,
    );
    assert_eq!(
        stats.render_text(),
        "tsv | size 100B→50B (-50%) [auto|estimate:bytes|profile:20260410]"
    );
}

#[test]
fn renders_text_for_forced_growth() {
    let stats = ConversionStats::new(
        InputFormat::Json,
        OutputFormat::Yaml,
        "20260410",
        true,
        100,
        125,
    );
    assert_eq!(
        stats.render_text(),
        "yaml | size 100B→125B (+25%) [forced|estimate:bytes|profile:20260410]"
    );
}

#[test]
fn renders_json_fields() {
    let stats = ConversionStats::new(
        InputFormat::Toon,
        OutputFormat::JsonCompact,
        "20260410",
        false,
        33,
        44,
    );
    let rendered = stats.render_json(&delta_text(&stats));
    assert!(rendered.contains(r#""input_format":"toon""#));
    assert!(rendered.contains(r#""estimate_kind":"bytes""#));
}
