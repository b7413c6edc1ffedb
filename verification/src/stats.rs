//! Size-estimate reporting for conversions.
use crate::format::{output_label, InputFormat, OutputFormat};
use crate::text::{chars_to_string, decimal, decimal_chars, push_all, push_str};
use vstd::prelude::*;

verus! {

/// What a `ConversionStats` records.
pub struct StatsView {
    pub input_format: InputFormat,
    pub output_format: OutputFormat,
    pub profile: Seq<char>,
    pub forced: bool,
    pub estimate_kind: Seq<char>,
    pub input_bytes: nat,
    pub output_bytes: nat,
}

/// Byte sizes of one conversion's input and output, with what was converted
/// and how the output format was chosen.
#[derive(Debug)]
pub struct ConversionStats {
    input_format: InputFormat,
    output_format: OutputFormat,
    profile: &'static str,
    forced: bool,
    estimate_kind: &'static str,
    input_bytes: usize,
    output_bytes: usize,
}

impl View for ConversionStats {
    type V = StatsView;

    closed spec fn view(&self) -> StatsView {
        StatsView {
            input_format: self.input_format,
            output_format: self.output_format,
            profile: self.profile@,
            forced: self.forced,
            estimate_kind: self.estimate_kind@,
            input_bytes: self.input_bytes as nat,
            output_bytes: self.output_bytes as nat,
        }
    }
}

/// `100 * part / whole` rounded to the nearest integer, a tie to the even one.
pub open spec fn rounded_percent(part: nat, whole: nat) -> nat
    recommends
        whole > 0,
{
    let n = (100 * part) / whole;
    let r = (100 * part) % whole;
    if 2 * r > whole || (2 * r == whole && n % 2 == 1) {
        n + 1
    } else {
        n
    }
}

/// The size change as a whole percentage of the input size: `+` before a
/// growth, `-` before a shrink (also one that rounds to zero), and `0` where
/// the sizes are equal or the input is empty.
pub open spec fn percent_text(input_bytes: nat, output_bytes: nat) -> Seq<char> {
    if input_bytes == 0 || input_bytes == output_bytes {
        "0"@
    } else if output_bytes > input_bytes {
        "+"@ + decimal(rounded_percent((output_bytes - input_bytes) as nat, input_bytes))
    } else {
        "-"@ + decimal(rounded_percent((input_bytes - output_bytes) as nat, input_bytes))
    }
}

/// The one-line text report.
pub open spec fn stats_text(s: StatsView) -> Seq<char> {
    output_label(s.output_format) + " | size "@ + decimal(s.input_bytes) + "B→"@ + decimal(
        s.output_bytes,
    ) + "B ("@ + percent_text(s.input_bytes, s.output_bytes) + "%) ["@ + (if s.forced {
        "forced"@
    } else {
        "auto"@
    }) + "|estimate:"@ + s.estimate_kind + "|profile:"@ + s.profile + "]"@
}

/// A JSON string literal of the text, as `serde_json::to_string` writes it.
pub uninterp spec fn json_string_text(s: Seq<char>) -> Seq<char>;

/// `serde_json::to_string` of a string slice: the quoted, escaped literal
/// (serializing a `str` cannot fail).
#[verifier::external_body]
fn json_quote(s: &str) -> (r: String)
    ensures
        r@ == json_string_text(s@),
{
    match serde_json::to_string(s) {
        Ok(text) => text,
        Err(_) => String::new(),
    }
}

/// The name under which an input format is serialized.
pub open spec fn input_format_name(f: InputFormat) -> Seq<char> {
    match f {
        InputFormat::Json => "json"@,
        InputFormat::Yaml => "yaml"@,
        InputFormat::Toml => "toml"@,
        InputFormat::Csv => "csv"@,
        InputFormat::Toon => "toon"@,
    }
}

/// The name under which an output format is serialized.
pub open spec fn output_format_name(f: OutputFormat) -> Seq<char> {
    match f {
        OutputFormat::Toon => "toon"@,
        OutputFormat::Tsv => "tsv"@,
        OutputFormat::Yaml => "yaml"@,
        OutputFormat::JsonCompact => "json-compact"@,
    }
}

/// The JSON report, with the size change given as its JSON number text.
pub open spec fn stats_json(s: StatsView, delta_percent: Seq<char>) -> Seq<char> {
    "{\"input_format\":\""@ + input_format_name(s.input_format) + "\",\"output_format\":\""@
        + output_format_name(s.output_format) + "\",\"profile\":"@ + json_string_text(s.profile)
        + ",\"forced\":"@ + (if s.forced {
        "true"@
    } else {
        "false"@
    }) + ",\"estimate_kind\":"@ + json_string_text(s.estimate_kind) + ",\"input_bytes\":"@
        + decimal(s.input_bytes) + ",\"output_bytes\":"@ + decimal(s.output_bytes)
        + ",\"delta_percent\":"@ + delta_percent + "}"@
}

fn input_format_name_str(f: InputFormat) -> (r: &'static str)
    ensures
        r@ == input_format_name(f),
{
    match f {
        InputFormat::Json => "json",
        InputFormat::Yaml => "yaml",
        InputFormat::Toml => "toml",
        InputFormat::Csv => "csv",
        InputFormat::Toon => "toon",
    }
}

fn output_format_name_str(f: OutputFormat) -> (r: &'static str)
    ensures
        r@ == output_format_name(f),
{
    match f {
        OutputFormat::Toon => "toon",
        OutputFormat::Tsv => "tsv",
        OutputFormat::Yaml => "yaml",
        OutputFormat::JsonCompact => "json-compact",
    }
}

/// The percentage text of `percent_text`.
fn push_percent(out: &mut Vec<char>, input_bytes: usize, output_bytes: usize)
    ensures
        final(out)@ == old(out)@ + percent_text(input_bytes as nat, output_bytes as nat),
{
    if input_bytes == 0 || input_bytes == output_bytes {
        push_str(out, "0");
        return;
    }
    let growth = output_bytes > input_bytes;
    let part: u128 = if growth {
        (output_bytes - input_bytes) as u128
    } else {
        (input_bytes - output_bytes) as u128
    };
    let whole: u128 = input_bytes as u128;
    let scaled: u128 = 100 * part;
    let n = scaled / whole;
    let r = scaled % whole;
    let rounded: u128 = if 2 * r > whole || (2 * r == whole && n % 2 == 1) {
        n + 1
    } else {
        n
    };
    proof {
        assert(rounded == rounded_percent(part as nat, whole as nat));
    }
    if growth {
        push_str(out, "+");
    } else {
        push_str(out, "-");
    }
    let digits = decimal_chars(rounded);
    push_all(out, digits.as_slice());
}

impl ConversionStats {
    /// Records a conversion; the estimate kind is `bytes`.
    pub fn new(
        input_format: InputFormat,
        output_format: OutputFormat,
        profile: &'static str,
        forced: bool,
        input_bytes: usize,
        output_bytes: usize,
    ) -> (r: Self)
        ensures
            r@ == (StatsView {
                input_format,
                output_format,
                profile: profile@,
                forced,
                estimate_kind: "bytes"@,
                input_bytes: input_bytes as nat,
                output_bytes: output_bytes as nat,
            }),
    {
        ConversionStats {
            input_format,
            output_format,
            profile,
            forced,
            estimate_kind: "bytes",
            input_bytes,
            output_bytes,
        }
    }

    /// The input's size in bytes.
    pub fn input_bytes(&self) -> (r: usize)
        ensures
            r == self@.input_bytes,
    {
        self.input_bytes
    }

    /// The rendered output's size in bytes.
    pub fn output_bytes(&self) -> (r: usize)
        ensures
            r == self@.output_bytes,
    {
        self.output_bytes
    }

    /// The one-line report:
    /// `{format} | size {in}B→{out}B ({change}%) [{auto|forced}|estimate:{kind}|profile:{id}]`.
    pub fn render_text(&self) -> (r: String)
        ensures
            r@ == stats_text(self@),
    {
        let mut out: Vec<char> = Vec::new();
        push_str(&mut out, self.output_format.label());
        push_str(&mut out, " | size ");
        let a = decimal_chars(self.input_bytes as u128);
        push_all(&mut out, a.as_slice());
        push_str(&mut out, "B→");
        let b = decimal_chars(self.output_bytes as u128);
        push_all(&mut out, b.as_slice());
        push_str(&mut out, "B (");
        push_percent(&mut out, self.input_bytes, self.output_bytes);
        push_str(&mut out, "%) [");
        if self.forced {
            push_str(&mut out, "forced");
        } else {
            push_str(&mut out, "auto");
        }
        push_str(&mut out, "|estimate:");
        push_str(&mut out, self.estimate_kind);
        push_str(&mut out, "|profile:");
        push_str(&mut out, self.profile);
        push_str(&mut out, "]");
        proof {
            assert(out@ =~= stats_text(self@));
        }
        chars_to_string(out.as_slice())
    }

    /// The JSON report, its fields in order: `input_format`, `output_format`,
    /// `profile`, `forced`, `estimate_kind`, `input_bytes`, `output_bytes`,
    /// and `delta_percent`, whose JSON number text is given.
    pub fn render_json(&self, delta_percent: &str) -> (r: String)
        ensures
            r@ == stats_json(self@, delta_percent@),
    {
        let mut out: Vec<char> = Vec::new();
        push_str(&mut out, "{\"input_format\":\"");
        push_str(&mut out, input_format_name_str(self.input_format));
        push_str(&mut out, "\",\"output_format\":\"");
        push_str(&mut out, output_format_name_str(self.output_format));
        push_str(&mut out, "\",\"profile\":");
        let p = json_quote(self.profile);
        push_str(&mut out, p.as_str());
        push_str(&mut out, ",\"forced\":");
        if self.forced {
            push_str(&mut out, "true");
        } else {
            push_str(&mut out, "false");
        }
        push_str(&mut out, ",\"estimate_kind\":");
        let k = json_quote(self.estimate_kind);
        push_str(&mut out, k.as_str());
        push_str(&mut out, ",\"input_bytes\":");
        let a = decimal_chars(self.input_bytes as u128);
        push_all(&mut out, a.as_slice());
        push_str(&mut out, ",\"output_bytes\":");
        let b = decimal_chars(self.output_bytes as u128);
        push_all(&mut out, b.as_slice());
        push_str(&mut out, ",\"delta_percent\":");
        push_str(&mut out, delta_percent);
        push_str(&mut out, "}");
        proof {
            assert(out@ =~= stats_json(self@, delta_percent@));
        }
        chars_to_string(out.as_slice())
    }
}

/// The size change is marked `+` exactly when the output is larger than the
/// input, and `-` exactly when it is smaller.
pub proof fn law_percent_sign(input_bytes: nat, output_bytes: nat)
    ensures
        percent_text(input_bytes, output_bytes).len() > 0,
        percent_text(input_bytes, output_bytes)[0] == '+' <==> (input_bytes > 0 && output_bytes
            > input_bytes),
        percent_text(input_bytes, output_bytes)[0] == '-' <==> (input_bytes > 0 && output_bytes
            < input_bytes),
{
    reveal_strlit("0");
    reveal_strlit("+");
    reveal_strlit("-");
}

/// The whole percentage is within half a percent of the exact change:
/// `|rounded * whole - 100 * part| <= whole / 2`.
pub proof fn law_percent_rounding(part: nat, whole: nat)
    requires
        whole > 0,
    ensures
        2 * (rounded_percent(part, whole) * whole - 100 * part) <= whole,
        2 * (100 * part - rounded_percent(part, whole) * whole) <= whole,
{
    let q = 100 * part;
    let n = q / whole;
    let r = q % whole;
    vstd::arithmetic::div_mod::lemma_fundamental_div_mod(q as int, whole as int);
    assert(q == whole * n + r);
    assert((n + 1) * whole == n * whole + whole) by (nonlinear_arith);
    assert(n * whole == whole * n) by (nonlinear_arith);
}

} // verus!
