//! The command line's settings, as plain values.
use crate::format::{InputFormat, OutputFormat};
use crate::ConvertOptions;
use vstd::prelude::*;

verus! {

/// Where the size report goes: a text line, a JSON object, or nowhere.
#[derive(Clone, Copy, Debug, PartialEq, Eq, Structural)]
pub enum StatsMode {
    Text,
    Json,
    Off,
}

/// The command line: an optional input path, optional forced formats, the
/// profile (`latest` unless given), whether to wrap the output, the stats
/// mode (`text` unless given) and an optional output path.
#[derive(Debug)]
pub struct Cli {
    pub input: Option<String>,
    pub input_format: Option<InputFormat>,
    pub output_format: Option<OutputFormat>,
    pub profile: Option<String>,
    pub wrap: bool,
    pub stats: StatsMode,
    pub output: Option<String>,
}

impl Cli {
    /// The conversion options that the command line asks for.
    pub fn options(&self) -> (r: ConvertOptions)
        ensures
            r.input_format == self.input_format,
            r.output_format == self.output_format,
            r.profile == self.profile,
            r.wrap == self.wrap,
    {
        ConvertOptions {
            input_format: self.input_format,
            output_format: self.output_format,
            profile: match &self.profile {
                Some(p) => Some(p.clone()),
                None => None,
            },
            wrap: self.wrap,
        }
    }
}

} // verus!
