//! Input and output format names.
use vstd::prelude::*;

verus! {

/// The formats that input is read from.
#[derive(Clone, Copy, Debug, PartialEq, Eq, Structural)]
pub enum InputFormat {
    Json,
    Yaml,
    Toml,
    Csv,
    Toon,
}

/// The formats that output is written in.
#[derive(Clone, Copy, Debug, PartialEq, Eq, Structural)]
pub enum OutputFormat {
    Toon,
    Tsv,
    Yaml,
    JsonCompact,
}

/// The short name of an output format, used in fences and statistics.
pub open spec fn output_label(format: OutputFormat) -> Seq<char> {
    match format {
        OutputFormat::Toon => "toon"@,
        OutputFormat::Tsv => "tsv"@,
        OutputFormat::Yaml => "yaml"@,
        OutputFormat::JsonCompact => "json"@,
    }
}

impl OutputFormat {
    /// The short name of the format.
    pub fn label(self) -> (r: &'static str)
        ensures
            r@ == output_label(self),
    {
        match self {
            OutputFormat::Toon => "toon",
            OutputFormat::Tsv => "tsv",
            OutputFormat::Yaml => "yaml",
            OutputFormat::JsonCompact => "json",
        }
    }
}

} // verus!
