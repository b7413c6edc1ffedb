//! `llmfmt` is a deterministic formatter for structured data headed toward
//! LLM prompts: it parses JSON, YAML, TOML, CSV and TOON into one document
//! model, sorts object keys, analyzes the shape of the data, routes it
//! through a frozen heuristic profile, and emits TOON, TSV, YAML or compact
//! JSON. Size reporting is a byte-based estimate.
pub mod analysis;
pub mod cli;
pub mod codecs;
pub mod error;
pub mod format;
pub mod io;
pub mod json;
pub mod order;
pub mod output;
pub mod profile;
pub mod stats;
pub mod text;
pub mod validation;

use crate::analysis::{
    all_objects, analysis_of, analyze, keys_union, lemma_keys_union_finite,
    lemma_row_keys_in_union, nested_members, row_keys, rows_nested, rows_with_keys,
};
use crate::error::LlmFmtError;
use crate::format::{InputFormat, OutputFormat};
use crate::io::{
    detect_input_format, detected_format, extension_format, optional_extension, parse_input,
    parsed, undetected_message,
};
use crate::json::{is_container, member_keys, Json};
use crate::output::{
    canonical, canonicalize_value, emit_output, emitted, lemma_canonical_sorted,
    lemma_rows_problem_none, wrap_output, wrapped,
};
use crate::profile::{
    named_profile, resolve_profile, unknown_profile_message, BuiltinProfile, Profile,
};
use crate::stats::{ConversionStats, StatsView};
use crate::validation::{
    has_nested_member, row_problem, rows_problem, table_rows_of, tsv_problem,
};
use vstd::prelude::*;
use vstd::utf8::encode_utf8;

verus! {

/// Options for one conversion: the library's equivalent of the command
/// line's flags.
#[derive(Debug, Clone)]
pub struct ConvertOptions {
    pub input_format: Option<InputFormat>,
    pub output_format: Option<OutputFormat>,
    pub profile: Option<String>,
    pub wrap: bool,
}

impl Default for ConvertOptions {
    /// No forced formats, the `latest` profile, no wrapping.
    fn default() -> (r: Self)
        ensures
            r.input_format is None,
            r.output_format is None,
            r.profile matches Some(p) && p@ == "latest"@,
            !r.wrap,
    {
        ConvertOptions {
            input_format: None,
            output_format: None,
            profile: Some("latest".to_owned()),
            wrap: false,
        }
    }
}

/// The result of one conversion. `rendered` is the formatted payload;
/// `payload` is the same in a fenced block when wrapping was asked for.
#[derive(Debug)]
pub struct ConversionResult {
    pub payload: String,
    pub rendered: String,
    pub input_format: InputFormat,
    pub output_format: OutputFormat,
    pub stats: ConversionStats,
}

/// What a successful conversion gives.
pub struct ConversionView {
    pub payload: Seq<char>,
    pub rendered: Seq<char>,
    pub input_format: InputFormat,
    pub output_format: OutputFormat,
    pub stats: StatsView,
}

/// Why a conversion fails.
pub enum ConvertFailure {
    /// No format was given and none was detected.
    Undetected,
    /// The text does not parse in the format.
    Unparsed(InputFormat),
    /// The profile name names no profile.
    UnknownProfile(Seq<char>),
    /// The canonical document cannot be written in the format.
    Unemitted(OutputFormat, Json),
}

/// The length of the UTF-8 encoding of the text.
pub open spec fn byte_len(s: Seq<char>) -> usize {
    encode_utf8(s).len() as usize
}

/// One conversion, step by step: the input format (given, else detected),
/// the parsed document in canonical form, the profile, the output format
/// (given, else routed by the profile), the rendered text, the payload, and
/// the byte sizes of the input and of the rendered text.
pub open spec fn conversion(
    input: Seq<char>,
    path_extension: Option<Seq<char>>,
    input_format: Option<InputFormat>,
    output_format: Option<OutputFormat>,
    profile: Option<Seq<char>>,
    wrap: bool,
) -> Result<ConversionView, ConvertFailure> {
    let in_format = match input_format {
        Some(f) => Some(f),
        None => detected_format(path_extension, input),
    };
    match in_format {
        None => Err(ConvertFailure::Undetected),
        Some(in_fmt) => match parsed(in_fmt, input) {
            None => Err(ConvertFailure::Unparsed(in_fmt)),
            Some(doc) => {
                let canon = canonical(doc);
                match named_profile(profile) {
                    None => Err(ConvertFailure::UnknownProfile(profile->0)),
                    Some(p) => {
                        let out_fmt = match output_format {
                            Some(f) => f,
                            None => p.route(analysis_of(canon)),
                        };
                        match emitted(out_fmt, canon) {
                            None => Err(ConvertFailure::Unemitted(out_fmt, canon)),
                            Some(rendered) => Ok(
                                ConversionView {
                                    payload: if wrap {
                                        wrapped(out_fmt, rendered)
                                    } else {
                                        rendered
                                    },
                                    rendered,
                                    input_format: in_fmt,
                                    output_format: out_fmt,
                                    stats: StatsView {
                                        input_format: in_fmt,
                                        output_format: out_fmt,
                                        profile: p.profile_name(),
                                        forced: output_format is Some,
                                        estimate_kind: "bytes"@,
                                        input_bytes: byte_len(input) as nat,
                                        output_bytes: byte_len(rendered) as nat,
                                    },
                                },
                            ),
                        }
                    },
                }
            },
        },
    }
}

/// The error that a failed conversion reports.
pub open spec fn reports(e: LlmFmtError, failure: ConvertFailure) -> bool {
    match failure {
        ConvertFailure::Undetected => e is Message && e->Message_0@ == undetected_message(),
        ConvertFailure::Unparsed(f) => match f {
            InputFormat::Json => e is Json,
            InputFormat::Yaml => e is Yaml,
            InputFormat::Toml => e is Toml,
            InputFormat::Csv => e is Csv,
            InputFormat::Toon => e is Toon,
        },
        ConvertFailure::UnknownProfile(name) => e is Message && e->Message_0@
            == unknown_profile_message(name),
        ConvertFailure::Unemitted(f, canon) => match f {
            OutputFormat::Toon => e is Toon,
            OutputFormat::Tsv => e is Message && Some(e->Message_0@) == tsv_problem(canon),
            OutputFormat::Yaml => e is Yaml,
            OutputFormat::JsonCompact => e is Json,
        },
    }
}

/// The text of an optional string.
pub open spec fn optional_text(s: Option<String>) -> Option<Seq<char>> {
    match s {
        Some(t) => Some(t@),
        None => None,
    }
}

/// The conversion that the options ask for.
pub open spec fn converted(
    input: Seq<char>,
    path_hint: Option<&str>,
    options: ConvertOptions,
) -> Result<ConversionView, ConvertFailure> {
    conversion(
        input,
        optional_extension(path_hint),
        options.input_format,
        options.output_format,
        optional_text(options.profile),
        options.wrap,
    )
}

/// Converts one structured document into the selected prompt-ready format.
pub fn convert(input: &str, path_hint: Option<&str>, options: &ConvertOptions) -> (r: Result<
    ConversionResult,
    LlmFmtError,
>)
    ensures
        r is Ok <==> converted(input@, path_hint, *options) is Ok,
        r matches Ok(res) ==> converted(input@, path_hint, *options)->Ok_0 == (ConversionView {
            payload: res.payload@,
            rendered: res.rendered@,
            input_format: res.input_format,
            output_format: res.output_format,
            stats: res.stats@,
        }),
        r matches Err(e) ==> reports(e, converted(input@, path_hint, *options)->Err_0),
{
    let input_format = match options.input_format {
        Some(f) => f,
        None => match detect_input_format(path_hint, input) {
            Ok(f) => f,
            Err(e) => {
                return Err(e);
            },
        },
    };
    let value = match parse_input(input_format, input) {
        Ok(v) => v,
        Err(e) => {
            return Err(e);
        },
    };
    proof {
        lemma_canonical_sorted(value@);
    }
    let canonical = canonicalize_value(value);
    let analysis = analyze(&canonical);
    let profile_name = match &options.profile {
        Some(p) => Some(p.as_str()),
        None => None,
    };
    let profile = match resolve_profile(profile_name) {
        Ok(p) => p,
        Err(e) => {
            return Err(e);
        },
    };
    let forced = options.output_format.is_some();
    let output_format = match options.output_format {
        Some(f) => f,
        None => profile.select_format(&analysis),
    };
    let rendered = match emit_output(output_format, &canonical) {
        Ok(s) => s,
        Err(e) => {
            return Err(e);
        },
    };
    let payload = if options.wrap {
        wrap_output(output_format, rendered.as_str())
    } else {
        rendered.clone()
    };
    let stats = ConversionStats::new(
        input_format,
        output_format,
        profile.id(),
        forced,
        input.len(),
        rendered.as_str().len(),
    );
    Ok(ConversionResult { payload, rendered, input_format, output_format, stats })
}

/// Without wrapping the payload is the rendered text; with it, the rendered
/// text in a block fenced with the output format's label.
pub proof fn law_payload_is_rendered_text(
    input: Seq<char>,
    path_extension: Option<Seq<char>>,
    input_format: Option<InputFormat>,
    output_format: Option<OutputFormat>,
    profile: Option<Seq<char>>,
    wrap: bool,
)
    ensures
        conversion(input, path_extension, input_format, output_format, profile, wrap) matches Ok(v)
            ==> v.payload == if wrap {
            wrapped(v.output_format, v.rendered)
        } else {
            v.rendered
        },
{
}

/// Wrapping changes the payload only: whether a conversion succeeds, the
/// formats, the rendered text and the stats are the same either way.
pub proof fn law_wrap_changes_only_payload(
    input: Seq<char>,
    path_extension: Option<Seq<char>>,
    input_format: Option<InputFormat>,
    output_format: Option<OutputFormat>,
    profile: Option<Seq<char>>,
)
    ensures
        ({
            let wrapped_run = conversion(
                input,
                path_extension,
                input_format,
                output_format,
                profile,
                true,
            );
            let plain_run = conversion(
                input,
                path_extension,
                input_format,
                output_format,
                profile,
                false,
            );
            &&& wrapped_run is Ok <==> plain_run is Ok
            &&& wrapped_run is Ok ==> {
                &&& wrapped_run->Ok_0.rendered == plain_run->Ok_0.rendered
                &&& wrapped_run->Ok_0.input_format == plain_run->Ok_0.input_format
                &&& wrapped_run->Ok_0.output_format == plain_run->Ok_0.output_format
                &&& wrapped_run->Ok_0.stats == plain_run->Ok_0.stats
            }
        }),
{
}

/// A given output format overrides routing, and the stats say `forced`
/// exactly when one was given.
pub proof fn law_given_output_format_is_used(
    input: Seq<char>,
    path_extension: Option<Seq<char>>,
    input_format: Option<InputFormat>,
    output_format: Option<OutputFormat>,
    profile: Option<Seq<char>>,
    wrap: bool,
)
    ensures
        conversion(input, path_extension, input_format, output_format, profile, wrap) matches Ok(v)
            ==> {
            &&& v.stats.forced <==> output_format is Some
            &&& output_format matches Some(f) ==> v.output_format == f
            &&& v.stats.output_format == v.output_format
        },
{
}

/// A given input format overrides detection: the text is parsed in it, and
/// detection cannot fail.
pub proof fn law_given_input_format_is_used(
    input: Seq<char>,
    path_extension: Option<Seq<char>>,
    input_format: Option<InputFormat>,
    output_format: Option<OutputFormat>,
    profile: Option<Seq<char>>,
    wrap: bool,
)
    ensures
        input_format is Some ==> !(conversion(
            input,
            path_extension,
            input_format,
            output_format,
            profile,
            wrap,
        ) matches Err(ConvertFailure::Undetected)),
        conversion(input, path_extension, input_format, output_format, profile, wrap) matches Ok(v)
            ==> {
            &&& input_format matches Some(f) ==> v.input_format == f
            &&& v.stats.input_format == v.input_format
        },
{
}

/// `latest`, `20260411` and no profile name give the same conversion.
pub proof fn law_latest_profile_is_20260411(
    input: Seq<char>,
    path_extension: Option<Seq<char>>,
    input_format: Option<InputFormat>,
    output_format: Option<OutputFormat>,
    wrap: bool,
)
    ensures
        conversion(input, path_extension, input_format, output_format, Some("latest"@), wrap)
            == conversion(
            input,
            path_extension,
            input_format,
            output_format,
            Some("20260411"@),
            wrap,
        ),
        conversion(input, path_extension, input_format, output_format, None, wrap) == conversion(
            input,
            path_extension,
            input_format,
            output_format,
            Some("latest"@),
            wrap,
        ),
{
    crate::profile::law_latest_is_20260411();
}

/// The stats of a conversion report its formats, the byte sizes of the input
/// and of the rendered text, the profile's identifier, and `bytes` as the
/// estimate kind.
pub proof fn law_stats_describe_conversion(
    input: Seq<char>,
    path_extension: Option<Seq<char>>,
    input_format: Option<InputFormat>,
    output_format: Option<OutputFormat>,
    profile: Option<Seq<char>>,
    wrap: bool,
)
    ensures
        conversion(input, path_extension, input_format, output_format, profile, wrap) matches Ok(v)
            ==> {
            &&& v.stats.input_bytes == byte_len(input)
            &&& v.stats.output_bytes == byte_len(v.rendered)
            &&& v.stats.estimate_kind == "bytes"@
            &&& v.stats.profile == named_profile(profile)->0.profile_name()
            &&& v.stats.input_format == v.input_format
            &&& v.stats.output_format == v.output_format
        },
{
}

/// The rendered text is the canonical document in the output format: the
/// parsed document with every object's keys sorted.
pub proof fn law_rendered_is_canonical_document(
    input: Seq<char>,
    path_extension: Option<Seq<char>>,
    input_format: Option<InputFormat>,
    output_format: Option<OutputFormat>,
    profile: Option<Seq<char>>,
    wrap: bool,
)
    ensures
        conversion(input, path_extension, input_format, output_format, profile, wrap) matches Ok(v)
            ==> {
            &&& parsed(v.input_format, input) is Some
            &&& emitted(v.output_format, canonical(parsed(v.input_format, input)->0)) == Some(
                v.rendered,
            )
        },
{
}

/// Members that count no array- or object-valued member hold none.
proof fn lemma_no_nested_members(members: Seq<(Seq<char>, Json)>)
    requires
        nested_members(members) == 0,
    ensures
        !has_nested_member(members),
    decreases members.len(),
{
    if members.len() > 0 {
        let init = members.drop_last();
        lemma_no_nested_members(init);
        if has_nested_member(members) {
            let k = choose|k: int| 0 <= k < members.len() && #[trigger] is_container(members[k].1);
            if k < members.len() - 1 {
                assert(is_container(init[k].1));
            }
        }
    }
}

/// Object rows that count no nested member, or that have no key at all,
/// can all be written as TSV rows.
proof fn lemma_flat_rows_have_no_problem(rows: Seq<Json>)
    requires
        all_objects(rows),
        rows_nested(rows) == 0 || keys_union(rows).len() == 0,
    ensures
        rows_problem(rows) is None,
    decreases rows.len(),
{
    if rows.len() > 0 {
        let init = rows.drop_last();
        assert(all_objects(init)) by {
            assert forall|i: int| 0 <= i < init.len() implies #[trigger] init[i] is Object by {
                assert(init[i] == rows[i]);
            }
        }
        let last = rows.last();
        assert(last is Object);
        lemma_keys_union_finite(rows);
        if rows_nested(rows) == 0 {
            lemma_flat_rows_have_no_problem(init);
            lemma_no_nested_members(last->Object_0);
        } else {
            assert(keys_union(init).len() == 0) by {
                lemma_keys_union_finite(init);
                assert(keys_union(init).subset_of(keys_union(rows)));
                vstd::set_lib::lemma_len_subset(keys_union(init), keys_union(rows));
            }
            lemma_flat_rows_have_no_problem(init);
            let members = last->Object_0;
            lemma_row_keys_in_union(rows, rows.len() - 1);
            vstd::set_lib::lemma_len_subset(row_keys(last), keys_union(rows));
            if members.len() > 0 {
                assert(row_keys(last).contains(members[0].0)) by {
                    assert(member_keys(members)[0] == members[0].0);
                }
            }
            assert(!has_nested_member(members));
        }
    }
}

/// Routing picks TSV only for a document that TSV can write: either
/// profile's TSV choice passes TSV validation.
pub proof fn law_routed_tsv_is_writable(j: Json, profile: BuiltinProfile)
    ensures
        profile.route(analysis_of(j)) == OutputFormat::Tsv ==> tsv_problem(j) is None,
{
    let a = analysis_of(j);
    if profile.route(a) == OutputFormat::Tsv {
        assert(a.is_flat_object_array);
        let rows = j->Array_0;
        assert(table_rows_of(j) == Some(rows));
        lemma_keys_union_finite(rows);
        lemma_flat_rows_have_no_problem(rows);
    }
}

/// The rows counted as having the key set are at most all the rows.
proof fn lemma_rows_with_keys_bound(rows: Seq<Json>, keys: Set<Seq<char>>)
    ensures
        rows_with_keys(rows, keys) <= rows.len(),
    decreases rows.len(),
{
    if rows.len() > 0 {
        lemma_rows_with_keys_bound(rows.drop_last(), keys);
    }
}

/// Where every row is counted as having the key set, every row has it.
proof fn lemma_rows_with_keys_all(rows: Seq<Json>, keys: Set<Seq<char>>)
    requires
        rows_with_keys(rows, keys) == rows.len(),
    ensures
        forall|i: int| 0 <= i < rows.len() ==> #[trigger] row_keys(rows[i]) == keys,
    decreases rows.len(),
{
    if rows.len() > 0 {
        let init = rows.drop_last();
        lemma_rows_with_keys_bound(init, keys);
        lemma_rows_with_keys_all(init, keys);
        assert forall|i: int| 0 <= i < rows.len() implies #[trigger] row_keys(rows[i]) == keys by {
            if i < rows.len() - 1 {
                assert(init[i] == rows[i]);
                assert(row_keys(init[i]) == keys);
            }
        }
    }
}

/// Where every row has the same key set, that set is the union of all keys.
proof fn lemma_same_keys_union(rows: Seq<Json>, keys: Set<Seq<char>>)
    requires
        rows.len() > 0,
        forall|i: int| 0 <= i < rows.len() ==> #[trigger] row_keys(rows[i]) == keys,
    ensures
        keys_union(rows) == keys,
    decreases rows.len(),
{
    let init = rows.drop_last();
    assert(row_keys(rows[rows.len() - 1]) == keys);
    if init.len() == 0 {
        assert(keys_union(init) == Set::<Seq<char>>::empty());
        assert(keys_union(rows) =~= keys);
    } else {
        assert forall|i: int| 0 <= i < init.len() implies #[trigger] row_keys(init[i]) == keys by {
            assert(init[i] == rows[i]);
            assert(row_keys(rows[i]) == keys);
        }
        lemma_same_keys_union(init, keys);
        assert(keys_union(rows) =~= keys);
    }
}

/// A flat object array is a uniform one, and a uniform one is a non-empty
/// array of object rows that all have the same key set, the set of every
/// key; the rows of a flat one hold no array or object.
pub proof fn law_flat_table_is_uniform(j: Json)
    ensures
        analysis_of(j).is_flat_object_array ==> analysis_of(j).is_uniform_object_array,
        analysis_of(j).is_uniform_object_array ==> {
            &&& j is Array
            &&& j->Array_0.len() > 0
            &&& forall|i: int|
                0 <= i < j->Array_0.len() ==> {
                    &&& #[trigger] j->Array_0[i] is Object
                    &&& row_keys(j->Array_0[i]) == keys_union(j->Array_0)
                }
        },
        analysis_of(j).is_flat_object_array ==> forall|i: int|
            0 <= i < j->Array_0.len() ==> !has_nested_member(#[trigger] j->Array_0[i]->Object_0),
{
    let a = analysis_of(j);
    if a.is_uniform_object_array {
        let rows = j->Array_0;
        assert(all_objects(rows));
        lemma_keys_union_finite(rows);
        if keys_union(rows).len() == 0 {
            assert forall|i: int| 0 <= i < rows.len() implies #[trigger] row_keys(rows[i])
                == keys_union(rows) by {
                lemma_row_keys_in_union(rows, i);
                vstd::set_lib::lemma_len_subset(row_keys(rows[i]), keys_union(rows));
                assert(row_keys(rows[i]) =~= keys_union(rows));
            }
        } else {
            let first = row_keys(rows[0]);
            assert(rows_with_keys(rows, first) == rows.len());
            lemma_rows_with_keys_all(rows, first);
            lemma_same_keys_union(rows, first);
        }
    }
    if a.is_flat_object_array {
        let rows = j->Array_0;
        lemma_keys_union_finite(rows);
        lemma_flat_rows_have_no_problem(rows);
        lemma_rows_problem_none(rows);
        assert forall|i: int| 0 <= i < rows.len() implies !has_nested_member(
            #[trigger] rows[i]->Object_0,
        ) by {
            assert(row_problem(rows[i]) is None);
        }
    }
}

/// With no input format given, a path whose extension names a format fixes
/// the input format: detection cannot fail, and the text is parsed in that
/// format.
pub proof fn law_path_extension_fixes_input_format(
    input: Seq<char>,
    path_extension: Option<Seq<char>>,
    output_format: Option<OutputFormat>,
    profile: Option<Seq<char>>,
    wrap: bool,
    ext: Seq<char>,
    format: InputFormat,
)
    requires
        path_extension == Some(ext),
        extension_format(ext) == Some(format),
    ensures
        ({
            let run = conversion(input, path_extension, None, output_format, profile, wrap);
            &&& !(run matches Err(ConvertFailure::Undetected))
            &&& run matches Err(ConvertFailure::Unparsed(g)) ==> g == format
            &&& run matches Ok(v) ==> v.input_format == format
        }),
{
}

/// The same for `convert`: a path hint whose extension names a format fixes
/// the input format when none is given in the options.
pub proof fn law_path_hint_fixes_input_format(
    input: Seq<char>,
    path_hint: Option<&str>,
    options: ConvertOptions,
    ext: Seq<char>,
    format: InputFormat,
)
    requires
        options.input_format is None,
        optional_extension(path_hint) == Some(ext),
        extension_format(ext) == Some(format),
    ensures
        ({
            let run = converted(input, path_hint, options);
            &&& !(run matches Err(ConvertFailure::Undetected))
            &&& run matches Err(ConvertFailure::Unparsed(g)) ==> g == format
            &&& run matches Ok(v) ==> v.input_format == format
        }),
{
}

} // verus!
