//! Input checking, format detection, and parsing into documents.
use crate::codecs::{
    csv_read, csv_text_table, float_text_number, i64_number, json_from_str, json_text_value,
    number_from_i64, number_from_u64, parse_float_number, toml_from_str, toml_node,
    toml_text_value, toml_tree, toon_decode, toon_text_value, u64_number, yaml_from_str,
    yaml_text_value, TomlNode, TomlTree,
};
use crate::error::LlmFmtError;
use crate::format::InputFormat;
use crate::json::{
    distinct_keys, from_serde, lemma_array_view, lemma_object_view, wf_json, Json, JsonValue,
};
use crate::text::{
    blank, chars_to_string, contains_char, eq_ignore_ascii_case, eq_ignore_case, find_nonblank,
    is_blank, lemma_next_nonblank_bounds, lines, next_nonblank, parse_i64, parse_i64_chars,
    parse_u64, parse_u64_chars, same_chars, starts_with, str_chars, text_lines, trim, trim_chars,
    trim_start, trim_start_chars,
};
use vstd::prelude::*;

verus! {

// ---------------------------------------------------------------------------
// Input presence
// ---------------------------------------------------------------------------

/// The message for input that holds nothing but white space.
pub open spec fn no_input_message() -> Seq<char> {
    "no input provided; pass a file path or pipe data via stdin"@
}

/// Accepts text read from standard input unless it is blank.
pub fn require_input(buffer: String) -> (r: Result<String, LlmFmtError>)
    ensures
        r is Ok <==> !is_blank(buffer@),
        r matches Ok(s) ==> s == buffer,
        r matches Err(e) ==> e is Message && e->Message_0@ == no_input_message(),
{
    let cs = str_chars(buffer.as_str());
    if blank(cs.as_slice()) {
        return Err(
            LlmFmtError::Message(
                "no input provided; pass a file path or pipe data via stdin".to_owned(),
            ),
        );
    }
    Ok(buffer)
}

// ---------------------------------------------------------------------------
// Format detection
// ---------------------------------------------------------------------------

/// What `std::path::Path::extension` gives for the path, where it is valid
/// UTF-8.
pub uninterp spec fn path_extension(path: Seq<char>) -> Option<Seq<char>>;

/// `std::path::Path::extension` of the path, as text (none where the
/// extension is not valid UTF-8).
#[verifier::external_body]
fn file_extension(path: &str) -> (r: Option<String>)
    ensures
        match r {
            Some(ext) => path_extension(path@) == Some(ext@),
            None => path_extension(path@) is None,
        },
{
    match std::path::Path::new(path).extension() {
        Some(ext) => match ext.to_str() {
            Some(text) => Some(text.to_owned()),
            None => None,
        },
        None => None,
    }
}

/// The input format that a file extension names.
pub open spec fn extension_format(ext: Seq<char>) -> Option<InputFormat> {
    if ext == "json"@ {
        Some(InputFormat::Json)
    } else if ext == "yaml"@ || ext == "yml"@ {
        Some(InputFormat::Yaml)
    } else if ext == "toml"@ {
        Some(InputFormat::Toml)
    } else if ext == "csv"@ || ext == "tsv"@ {
        Some(InputFormat::Csv)
    } else if ext == "toon"@ {
        Some(InputFormat::Toon)
    } else {
        None
    }
}

/// The input format that a file extension names, if any.
pub fn format_for_extension(ext: &str) -> (r: Option<InputFormat>)
    ensures
        r == extension_format(ext@),
{
    let e = str_chars(ext);
    let e = e.as_slice();
    if same_chars(e, str_chars("json").as_slice()) {
        Some(InputFormat::Json)
    } else if same_chars(e, str_chars("yaml").as_slice()) || same_chars(
        e,
        str_chars("yml").as_slice(),
    ) {
        Some(InputFormat::Yaml)
    } else if same_chars(e, str_chars("toml").as_slice()) {
        Some(InputFormat::Toml)
    } else if same_chars(e, str_chars("csv").as_slice()) || same_chars(
        e,
        str_chars("tsv").as_slice(),
    ) {
        Some(InputFormat::Csv)
    } else if same_chars(e, str_chars("toon").as_slice()) {
        Some(InputFormat::Toon)
    } else {
        None
    }
}

/// The first line that is not blank, or nothing where every line is blank.
pub open spec fn first_nonblank_line(t: Seq<char>) -> Seq<char> {
    let ls = text_lines(t);
    let i = next_nonblank(ls, 0);
    if i < ls.len() {
        ls[i]
    } else {
        Seq::empty()
    }
}

/// The first non-blank line has a `[` and a `:` and no tab, as a TOON
/// header line has.
pub open spec fn toon_like(t: Seq<char>) -> bool {
    let first = first_nonblank_line(t);
    first.contains('[') && first.contains(':') && !first.contains('\t')
}

/// The first non-blank line has a tab (else a comma), and so has the next
/// non-blank line.
pub open spec fn delimited_like(t: Seq<char>) -> bool {
    let ls = text_lines(t);
    let i = next_nonblank(ls, 0);
    if i >= ls.len() {
        false
    } else {
        let first = ls[i];
        let j = next_nonblank(ls, i + 1);
        if first.contains('\t') {
            j < ls.len() && ls[j].contains('\t')
        } else if first.contains(',') {
            j < ls.len() && ls[j].contains(',')
        } else {
            false
        }
    }
}

/// The format that the text's first characters and lines show, before any
/// parser is tried: JSON for a leading `{` or `[`, then TOON, then delimited
/// text, then YAML for a leading `---`.
pub open spec fn sniffed_format(t: Seq<char>) -> Option<InputFormat> {
    if t.len() > 0 && (t[0] == '{' || t[0] == '[') {
        Some(InputFormat::Json)
    } else if toon_like(t) {
        Some(InputFormat::Toon)
    } else if delimited_like(t) {
        Some(InputFormat::Csv)
    } else if t.len() >= 3 && t.subrange(0, 3) == "---"@ {
        Some(InputFormat::Yaml)
    } else {
        None
    }
}

/// The format of text whose leading white space is gone: as sniffed, else
/// YAML where the first non-blank line has a `:` and the YAML parser reads
/// the text, else TOML where the TOML parser reads it.
pub open spec fn content_format(t: Seq<char>) -> Option<InputFormat> {
    match sniffed_format(t) {
        Some(f) => Some(f),
        None => if yaml_like(t) {
            Some(InputFormat::Yaml)
        } else if toml_text_value(t) is Some {
            Some(InputFormat::Toml)
        } else {
            None
        },
    }
}

/// The detected format: the one that the path's extension names, else the
/// one that the content shows.
pub open spec fn detected_format(ext: Option<Seq<char>>, input: Seq<char>) -> Option<InputFormat> {
    let by_extension = match ext {
        Some(e) => extension_format(e),
        None => None,
    };
    if by_extension is Some {
        by_extension
    } else {
        content_format(trim_start(input))
    }
}

/// The extension of an optional path.
pub open spec fn optional_extension(path: Option<&str>) -> Option<Seq<char>> {
    match path {
        Some(p) => path_extension(p@),
        None => None,
    }
}

/// The message when no format could be detected.
pub open spec fn undetected_message() -> Seq<char> {
    "could not detect input format; use --input-format"@
}

/// The lines of the text, and the index of the first non-blank one.
fn first_nonblank(t: &[char]) -> (r: (Vec<Vec<char>>, usize))
    ensures
        r.0@.map_values(|l: Vec<char>| l@) == text_lines(t@),
        r.1 == next_nonblank(text_lines(t@), 0),
        r.1 <= r.0@.len(),
{
    let ls = lines(t);
    proof {
        assert(ls@.map_values(|l: Vec<char>| l@) =~= text_lines(t@));
    }
    let i = find_nonblank(&ls, 0);
    (ls, i)
}

/// Whether the text looks like TOON.
fn sniff_toon(t: &[char]) -> (r: bool)
    ensures
        r == toon_like(t@),
{
    let (ls, i) = first_nonblank(t);
    proof {
        lemma_next_nonblank_bounds(text_lines(t@), 0);
    }
    if i < ls.len() {
        let first = ls[i].as_slice();
        proof {
            assert(ls@.map_values(|l: Vec<char>| l@)[i as int] == ls@[i as int]@);
        }
        contains_char(first, '[') && contains_char(first, ':') && !contains_char(first, '\t')
    } else {
        false
    }
}

/// Whether the text looks like delimited rows.
fn sniff_delimited(t: &[char]) -> (r: bool)
    ensures
        r == delimited_like(t@),
{
    let (ls, i) = first_nonblank(t);
    let ghost tl = text_lines(t@);
    if i >= ls.len() {
        return false;
    }
    proof {
        assert(ls@.map_values(|l: Vec<char>| l@)[i as int] == ls@[i as int]@);
    }
    let first = ls[i].as_slice();
    let delimiter = if contains_char(first, '\t') {
        '\t'
    } else if contains_char(first, ',') {
        ','
    } else {
        return false;
    };
    let j = find_nonblank(&ls, i + 1);
    if j < ls.len() {
        proof {
            assert(ls@.map_values(|l: Vec<char>| l@)[j as int] == ls@[j as int]@);
        }
        contains_char(ls[j].as_slice(), delimiter)
    } else {
        false
    }
}

/// Whether the text looks like TOON: its first non-blank line has a `[`
/// and a `:` and no tab.
pub fn looks_like_toon(input: &str) -> (r: bool)
    ensures
        r == toon_like(input@),
{
    let cs = str_chars(input);
    sniff_toon(cs.as_slice())
}

/// Whether the text looks like delimited rows: its first non-blank line has
/// a tab (else a comma), and so has the next non-blank line.
pub fn looks_like_delimited(input: &str) -> (r: bool)
    ensures
        r == delimited_like(input@),
{
    let cs = str_chars(input);
    sniff_delimited(cs.as_slice())
}

/// The text looks like YAML: its first non-blank line has a `:` and the
/// YAML parser reads it.
pub open spec fn yaml_like(t: Seq<char>) -> bool {
    first_nonblank_line(t).contains(':') && yaml_text_value(t) is Some
}

/// Whether the text looks like YAML: its first non-blank line has a `:`
/// and the YAML parser reads it.
pub fn looks_like_yaml(input: &str) -> (r: bool)
    ensures
        r == yaml_like(input@),
{
    let cs = str_chars(input);
    if !first_line_has_colon(cs.as_slice()) {
        return false;
    }
    yaml_from_str(input).is_ok()
}

/// The format that the text's first characters and lines show, if any.
pub fn sniff_format(t: &[char]) -> (r: Option<InputFormat>)
    ensures
        r == sniffed_format(t@),
{
    if t.len() > 0 && (t[0] == '{' || t[0] == '[') {
        return Some(InputFormat::Json);
    }
    if sniff_toon(t) {
        return Some(InputFormat::Toon);
    }
    if sniff_delimited(t) {
        return Some(InputFormat::Csv);
    }
    let dashes = str_chars("---");
    proof {
        reveal_strlit("---");
    }
    if starts_with(t, dashes.as_slice()) {
        return Some(InputFormat::Yaml);
    }
    None
}

/// Whether the first non-blank line has a `:`.
fn first_line_has_colon(t: &[char]) -> (r: bool)
    ensures
        r == first_nonblank_line(t@).contains(':'),
{
    let (ls, i) = first_nonblank(t);
    if i < ls.len() {
        proof {
            assert(ls@.map_values(|l: Vec<char>| l@)[i as int] == ls@[i as int]@);
        }
        contains_char(ls[i].as_slice(), ':')
    } else {
        proof {
            assert(!Seq::<char>::empty().contains(':'));
        }
        false
    }
}

/// Detects the input format: from the path's extension where it names one,
/// else from the content with its leading white space removed (JSON, TOON,
/// delimited text, YAML, TOML, in that order).
pub fn detect_input_format(path: Option<&str>, input: &str) -> (r: Result<InputFormat, LlmFmtError>)
    ensures
        match r {
            Ok(f) => detected_format(optional_extension(path), input@) == Some(f),
            Err(e) => {
                &&& detected_format(optional_extension(path), input@) is None
                &&& e is Message
                &&& e->Message_0@ == undetected_message()
            },
        },
{
    match path {
        Some(p) => match file_extension(p) {
            Some(ext) => match format_for_extension(ext.as_str()) {
                Some(f) => {
                    return Ok(f);
                },
                None => {},
            },
            None => {},
        },
        None => {},
    }
    let cs = str_chars(input);
    let trimmed = trim_start_chars(cs.as_slice());
    let t = trimmed.as_slice();
    match sniff_format(t) {
        Some(f) => {
            return Ok(f);
        },
        None => {},
    }
    let text = chars_to_string(t);
    if looks_like_yaml(text.as_str()) {
        return Ok(InputFormat::Yaml);
    }
    if toml_from_str(text.as_str()).is_ok() {
        return Ok(InputFormat::Toml);
    }
    Err(LlmFmtError::Message("could not detect input format; use --input-format".to_owned()))
}

// ---------------------------------------------------------------------------
// Parsing
// ---------------------------------------------------------------------------

/// What a CSV cell holds: nothing or `null` (any case) is null, `true` and
/// `false` (any case) are booleans, then an `i64`, a `u64` or a finite
/// float; else the text itself. White space around the cell is ignored.
pub open spec fn decoded_scalar(raw: Seq<char>) -> Json {
    let t = trim(raw);
    if t.len() == 0 || eq_ignore_ascii_case(t, "null"@) {
        Json::Null
    } else if eq_ignore_ascii_case(t, "true"@) {
        Json::Bool(true)
    } else if eq_ignore_ascii_case(t, "false"@) {
        Json::Bool(false)
    } else if parse_i64(t) is Some {
        Json::Number(i64_number(parse_i64(t)->0))
    } else if parse_u64(t) is Some {
        Json::Number(u64_number(parse_u64(t)->0))
    } else if float_text_number(t) is Some {
        Json::Number(float_text_number(t)->0)
    } else {
        Json::Str(t)
    }
}

/// Reads one CSV cell as a scalar.
pub fn decode_scalar(raw: String) -> (r: JsonValue)
    ensures
        r@ == decoded_scalar(raw@),
{
    let cs = str_chars(raw.as_str());
    let t = trim_chars(cs.as_slice());
    let t = t.as_slice();
    proof {
        reveal_strlit("null");
        reveal_strlit("true");
        reveal_strlit("false");
    }
    if t.len() == 0 || eq_ignore_case(t, str_chars("null").as_slice()) {
        return JsonValue::Null;
    }
    if eq_ignore_case(t, str_chars("true").as_slice()) {
        return JsonValue::Bool(true);
    }
    if eq_ignore_case(t, str_chars("false").as_slice()) {
        return JsonValue::Bool(false);
    }
    match parse_i64_chars(t) {
        Some(i) => {
            return JsonValue::Number(number_from_i64(i));
        },
        None => {},
    }
    match parse_u64_chars(t) {
        Some(u) => {
            return JsonValue::Number(number_from_u64(u));
        },
        None => {},
    }
    let text = chars_to_string(t);
    match parse_float_number(text.as_str()) {
        Some(n) => JsonValue::Number(n),
        None => JsonValue::String(text),
    }
}

/// Inserts a member as a map insert does: an existing key keeps its place
/// and takes the new value; a new key goes last.
pub open spec fn put_member(members: Seq<(Seq<char>, Json)>, key: Seq<char>, value: Json) -> Seq<
    (Seq<char>, Json),
>
    decreases members.len(),
{
    if members.len() == 0 {
        seq![(key, value)]
    } else if members[0].0 == key {
        seq![(key, value)] + members.drop_first()
    } else {
        seq![members[0]] + put_member(members.drop_first(), key, value)
    }
}

/// The members of the first `n` header/cell pairs, inserted in order.
pub open spec fn record_prefix(headers: Seq<Seq<char>>, fields: Seq<Seq<char>>, n: nat) -> Seq<
    (Seq<char>, Json),
>
    decreases n,
{
    if n == 0 {
        Seq::empty()
    } else {
        put_member(
            record_prefix(headers, fields, (n - 1) as nat),
            headers[n - 1],
            decoded_scalar(fields[n - 1]),
        )
    }
}

/// A CSV record as an object: each header with its cell, as far as both go.
pub open spec fn record_json(headers: Seq<Seq<char>>, fields: Seq<Seq<char>>) -> Json {
    let n = if headers.len() < fields.len() {
        headers.len()
    } else {
        fields.len()
    };
    Json::Object(record_prefix(headers, fields, n))
}

/// The CSV delimiter: a tab where the first line has one, else a comma.
pub open spec fn csv_delimiter(input: Seq<char>) -> u8 {
    let ls = text_lines(input);
    if ls.len() > 0 && ls[0].contains('\t') {
        9u8
    } else {
        44u8
    }
}

/// The rows that CSV text reads as: one object per record.
pub open spec fn csv_json(input: Seq<char>) -> Option<Json> {
    match csv_text_table(input, csv_delimiter(input)) {
        Some(table) => Some(table_json(table.0, table.1)),
        None => None,
    }
}

/// Where the key is: the first `k` members have other keys, and member `k`
/// has it (or there are only `k` members).
proof fn lemma_put_member_at(
    members: Seq<(Seq<char>, Json)>,
    key: Seq<char>,
    value: Json,
    k: int,
)
    requires
        0 <= k <= members.len(),
        forall|t: int| 0 <= t < k ==> #[trigger] members[t].0 != key,
        k < members.len() ==> members[k].0 == key,
    ensures
        put_member(members, key, value) == if k < members.len() {
            members.update(k, (key, value))
        } else {
            members.push((key, value))
        },
    decreases members.len(),
{
    if members.len() == 0 {
        assert(members.push((key, value)) =~= seq![(key, value)]);
    } else if k == 0 {
        assert(seq![(key, value)] + members.drop_first() =~= members.update(0, (key, value)));
    } else {
        let rest = members.drop_first();
        assert forall|t: int| 0 <= t < k - 1 implies #[trigger] rest[t].0 != key by {
            assert(rest[t] == members[t + 1]);
        }
        lemma_put_member_at(rest, key, value, k - 1);
        if k < members.len() {
            assert(seq![members[0]] + rest.update(k - 1, (key, value)) =~= members.update(
                k,
                (key, value),
            ));
        } else {
            assert(seq![members[0]] + rest.push((key, value)) =~= members.push((key, value)));
        }
    }
}

/// Reads a CSV record into an object, header by header.
pub fn record_to_value(headers: &Vec<String>, record: &Vec<String>) -> (r: JsonValue)
    ensures
        r@ == record_json(headers@.map_values(|s: String| s@), record@.map_values(|s: String| s@)),
        wf_json(r@),
{
    let ghost hs = headers@.map_values(|s: String| s@);
    let ghost fs = record@.map_values(|s: String| s@);
    let n: usize = if headers.len() < record.len() {
        headers.len()
    } else {
        record.len()
    };
    let mut members: Vec<(String, JsonValue)> = Vec::new();
    let mut i: usize = 0;
    while i < n
        invariant
            i <= n,
            n <= headers@.len(),
            n <= record@.len(),
            hs == headers@.map_values(|s: String| s@),
            fs == record@.map_values(|s: String| s@),
            members@.len() == record_prefix(hs, fs, i as nat).len(),
            forall|t: int|
                #![trigger members@[t]]
                0 <= t < members@.len() ==> (members@[t].0@, members@[t].1@) == record_prefix(
                    hs,
                    fs,
                    i as nat,
                )[t],
            distinct_keys(record_prefix(hs, fs, i as nat)),
            forall|t: int|
                #![trigger members@[t]]
                0 <= t < members@.len() ==> wf_json(members@[t].1@),
        decreases n - i,
    {
        let ghost before = record_prefix(hs, fs, i as nat);
        let key = &headers[i];
        let value = decode_scalar(record[i].clone());
        proof {
            assert(hs[i as int] == key@);
            assert(fs[i as int] == record@[i as int]@);
        }
        let mut k: usize = 0;
        while k < members.len() && members[k].0 != *key
            invariant
                k <= members@.len(),
                members@.len() == before.len(),
                forall|t: int|
                    #![trigger members@[t]]
                    0 <= t < members@.len() ==> (members@[t].0@, members@[t].1@) == before[t],
                forall|t: int| 0 <= t < k ==> #[trigger] before[t].0 != key@,
            decreases members@.len() - k,
        {
            proof {
                assert((members@[k as int].0@, members@[k as int].1@) == before[k as int]);
            }
            k = k + 1;
        }
        proof {
            if k < members@.len() {
                assert((members@[k as int].0@, members@[k as int].1@) == before[k as int]);
            }
            lemma_put_member_at(before, key@, value@, k as int);
        }
        let ghost after = put_member(before, key@, value@);
        if k < members.len() {
            members.set(k, (key.clone(), value));
            proof {
                assert(after == before.update(k as int, (key@, value@)));
                assert forall|a: int, b: int|
                    0 <= a < after.len() && 0 <= b < after.len() && a != b implies #[trigger] after[a].0
                    != #[trigger] after[b].0 by {
                    assert(after[a].0 == before[a].0 && after[b].0 == before[b].0);
                }
            }
        } else {
            members.push((key.clone(), value));
            proof {
                assert(after == before.push((key@, value@)));
                assert forall|a: int, b: int|
                    0 <= a < after.len() && 0 <= b < after.len() && a != b implies #[trigger] after[a].0
                    != #[trigger] after[b].0 by {
                    if a < before.len() && b < before.len() {
                        assert(after[a] == before[a] && after[b] == before[b]);
                    } else if a < before.len() {
                        assert(after[a] == before[a]);
                    } else {
                        assert(after[b] == before[b]);
                    }
                }
            }
        }
        proof {
            assert(record_prefix(hs, fs, (i + 1) as nat) == after);
        }
        i = i + 1;
    }
    proof {
        let ms = record_prefix(hs, fs, n as nat);
        lemma_object_view(members, ms);
        assert forall|t: int| 0 <= t < ms.len() implies wf_json(#[trigger] ms[t].1) by {
            assert((members@[t].0@, members@[t].1@) == ms[t]);
        }
    }
    JsonValue::Object(members)
}

/// The rows of a CSV table: one object per record, as `record_json` reads it.
pub open spec fn table_json(headers: Seq<Seq<char>>, records: Seq<Seq<Seq<char>>>) -> Json {
    Json::Array(Seq::new(records.len(), |i: int| record_json(headers, records[i])))
}

/// Reads the records of a CSV table, under its header, into an array of
/// objects.
pub fn csv_rows(headers: &Vec<String>, records: &Vec<Vec<String>>) -> (r: JsonValue)
    ensures
        r@ == table_json(
            headers@.map_values(|s: String| s@),
            records@.map_values(|row: Vec<String>| row@.map_values(|s: String| s@)),
        ),
        wf_json(r@),
{
    let ghost hs = headers@.map_values(|s: String| s@);
    let ghost recs = records@.map_values(|row: Vec<String>| row@.map_values(|s: String| s@));
    let mut rows: Vec<JsonValue> = Vec::new();
    let mut i: usize = 0;
    while i < records.len()
        invariant
            i <= records@.len(),
            hs == headers@.map_values(|s: String| s@),
            recs == records@.map_values(|row: Vec<String>| row@.map_values(|s: String| s@)),
            rows@.len() == i,
            forall|k: int| 0 <= k < i ==> #[trigger] rows@[k]@ == record_json(hs, recs[k]),
            forall|k: int| 0 <= k < i ==> wf_json(#[trigger] rows@[k]@),
        decreases records@.len() - i,
    {
        let row = record_to_value(headers, &records[i]);
        rows.push(row);
        i = i + 1;
    }
    let ghost kids = Seq::new(recs.len(), |k: int| record_json(hs, recs[k]));
    proof {
        lemma_array_view(rows, kids);
        assert forall|k: int| 0 <= k < kids.len() implies wf_json(#[trigger] kids[k]) by {
            assert(rows@[k]@ == kids[k]);
        }
    }
    JsonValue::Array(rows)
}

/// Reads CSV (or TSV, where the first line has a tab) with a header row into
/// an array of objects.
fn parse_csv(input: &str) -> (r: Result<JsonValue, LlmFmtError>)
    ensures
        r is Ok <==> csv_json(input@) is Some,
        r matches Ok(v) ==> csv_json(input@) == Some(v@) && wf_json(v@),
        r matches Err(e) ==> e is Csv,
{
    let cs = str_chars(input);
    let ls = lines(cs.as_slice());
    let delimiter: u8 = if ls.len() > 0 && contains_char(ls[0].as_slice(), '\t') {
        9
    } else {
        44
    };
    match csv_read(input, delimiter) {
        Ok(table) => Ok(csv_rows(&table.0, &table.1)),
        Err(e) => Err(LlmFmtError::Csv(e)),
    }
}

/// A TOML document as JSON: integers and finite floats become numbers (a
/// float that is not finite becomes null), date-times their text, tables
/// objects.
pub open spec fn toml_json(t: TomlTree) -> Json
    decreases t,
{
    match t {
        TomlTree::Str(s) => Json::Str(s),
        TomlTree::Integer(i) => Json::Number(i64_number(i)),
        TomlTree::Float(n) => match n {
            Some(n) => Json::Number(n),
            None => Json::Null,
        },
        TomlTree::Boolean(b) => Json::Bool(b),
        TomlTree::Datetime(s) => Json::Str(s),
        TomlTree::Array(items) => Json::Array(
            Seq::new(
                items.len(),
                |i: int|
                    if 0 <= i < items.len() {
                        toml_json(items[i])
                    } else {
                        Json::Null
                    },
            ),
        ),
        TomlTree::Table(entries) => Json::Object(
            Seq::new(
                entries.len(),
                |i: int|
                    if 0 <= i < entries.len() {
                        (entries[i].0, toml_json(entries[i].1))
                    } else {
                        (Seq::<char>::empty(), Json::Null)
                    },
            ),
        ),
    }
}

/// Converts a TOML value into a document.
pub fn toml_to_json(v: &toml::Value) -> (r: JsonValue)
    ensures
        r@ == toml_json(toml_tree(*v)),
        wf_json(r@),
    decreases toml_tree(*v),
{
    match toml_node(v) {
        TomlNode::Str(s) => JsonValue::String(s.clone()),
        TomlNode::Integer(i) => JsonValue::Number(number_from_i64(i)),
        TomlNode::Float(n) => match n {
            Some(n) => JsonValue::Number(n),
            None => JsonValue::Null,
        },
        TomlNode::Boolean(b) => JsonValue::Bool(b),
        TomlNode::Datetime(s) => JsonValue::String(s),
        TomlNode::Array(items) => {
            let ghost kids = items@.map_values(|x: toml::Value| toml_tree(x));
            let ghost whole = toml_tree(*v);
            let mut out: Vec<JsonValue> = Vec::new();
            let mut i: usize = 0;
            while i < items.len()
                invariant
                    i <= items@.len(),
                    kids == items@.map_values(|x: toml::Value| toml_tree(x)),
                    whole == toml_tree(*v),
                    whole == TomlTree::Array(kids),
                    out@.len() == i,
                    forall|k: int| 0 <= k < i ==> #[trigger] out@[k]@ == toml_json(kids[k]),
                    forall|k: int| 0 <= k < i ==> wf_json(#[trigger] out@[k]@),
                decreases items@.len() - i,
            {
                proof {
                    assert(decreases_to!(whole => whole->Array_0));
                    assert(decreases_to!(kids => kids[i as int]));
                }
                let x = toml_to_json(&items[i]);
                out.push(x);
                i = i + 1;
            }
            let ghost json_kids = Seq::new(kids.len(), |k: int| toml_json(kids[k]));
            proof {
                lemma_array_view(out, json_kids);
                assert(toml_json(whole) == Json::Array(json_kids)) by {
                    assert(toml_json(whole)->Array_0 =~= json_kids);
                }
                assert forall|k: int| 0 <= k < json_kids.len() implies wf_json(
                    #[trigger] json_kids[k],
                ) by {
                    assert(out@[k]@ == json_kids[k]);
                }
            }
            JsonValue::Array(out)
        },
        TomlNode::Table(entries) => {
            let ghost kids = entries@.map_values(
                |e: (&String, &toml::Value)| (e.0@, toml_tree(*e.1)),
            );
            let ghost whole = toml_tree(*v);
            let mut out: Vec<(String, JsonValue)> = Vec::new();
            let mut i: usize = 0;
            while i < entries.len()
                invariant
                    i <= entries@.len(),
                    kids == entries@.map_values(
                        |e: (&String, &toml::Value)| (e.0@, toml_tree(*e.1)),
                    ),
                    whole == toml_tree(*v),
                    whole == TomlTree::Table(kids),
                    out@.len() == i,
                    forall|k: int|
                        #![trigger out@[k]]
                        0 <= k < i ==> out@[k].0@ == kids[k].0 && out@[k].1@ == toml_json(
                            kids[k].1,
                        ),
                    forall|k: int| #![trigger out@[k]] 0 <= k < i ==> wf_json(out@[k].1@),
                decreases entries@.len() - i,
            {
                proof {
                    assert(decreases_to!(whole => whole->Table_0));
                    assert(decreases_to!(kids => kids[i as int]));
                    assert(decreases_to!(kids[i as int] => kids[i as int].1));
                }
                let key = entries[i].0.clone();
                let x = toml_to_json(entries[i].1);
                out.push((key, x));
                i = i + 1;
            }
            let ghost json_kids = Seq::new(
                kids.len(),
                |k: int| (kids[k].0, toml_json(kids[k].1)),
            );
            proof {
                lemma_object_view(out, json_kids);
                assert(toml_json(whole) == Json::Object(json_kids)) by {
                    assert(toml_json(whole)->Object_0 =~= json_kids);
                }
                assert(distinct_keys(json_kids)) by {
                    assert forall|a: int, b: int|
                        0 <= a < json_kids.len() && 0 <= b < json_kids.len() && a != b implies #[trigger] json_kids[a].0
                        != #[trigger] json_kids[b].0 by {
                        assert(json_kids[a].0 == entries@[a].0@);
                        assert(json_kids[b].0 == entries@[b].0@);
                    }
                }
                assert forall|k: int| 0 <= k < json_kids.len() implies wf_json(
                    #[trigger] json_kids[k].1,
                ) by {
                    assert(out@[k].1@ == json_kids[k].1);
                }
            }
            JsonValue::Object(out)
        },
    }
}

/// The document that the text holds in the format, if it holds one.
pub open spec fn parsed(format: InputFormat, input: Seq<char>) -> Option<Json> {
    match format {
        InputFormat::Json => json_text_value(input),
        InputFormat::Yaml => yaml_text_value(input),
        InputFormat::Toml => match toml_text_value(input) {
            Some(t) => Some(toml_json(t)),
            None => None,
        },
        InputFormat::Csv => csv_json(input),
        InputFormat::Toon => toon_text_value(input),
    }
}

/// Parses the text in the format into a document.
pub fn parse_input(format: InputFormat, input: &str) -> (r: Result<JsonValue, LlmFmtError>)
    ensures
        r is Ok <==> parsed(format, input@) is Some,
        r matches Ok(v) ==> parsed(format, input@) == Some(v@) && wf_json(v@),
        r matches Err(e) ==> match format {
            InputFormat::Json => e is Json,
            InputFormat::Yaml => e is Yaml,
            InputFormat::Toml => e is Toml,
            InputFormat::Csv => e is Csv,
            InputFormat::Toon => e is Toon,
        },
{
    match format {
        InputFormat::Json => match json_from_str(input) {
            Ok(v) => Ok(from_serde(&v)),
            Err(e) => Err(LlmFmtError::Json(e)),
        },
        InputFormat::Yaml => match yaml_from_str(input) {
            Ok(v) => Ok(from_serde(&v)),
            Err(e) => Err(LlmFmtError::Yaml(e)),
        },
        InputFormat::Toml => match toml_from_str(input) {
            Ok(v) => Ok(toml_to_json(&v)),
            Err(e) => Err(LlmFmtError::Toml(e)),
        },
        InputFormat::Csv => parse_csv(input),
        InputFormat::Toon => match toon_decode(input) {
            Ok(v) => Ok(from_serde(&v)),
            Err(e) => Err(LlmFmtError::Toon(e)),
        },
    }
}

/// Each documented extension names its format: `json`; `yaml` and `yml`;
/// `toml`; `csv` and `tsv`; `toon`. A path with such an extension fixes the
/// detected format, whatever the content.
pub proof fn law_extensions_name_formats(input: Seq<char>, ext: Seq<char>)
    ensures
        extension_format("json"@) == Some(InputFormat::Json),
        extension_format("yaml"@) == Some(InputFormat::Yaml),
        extension_format("yml"@) == Some(InputFormat::Yaml),
        extension_format("toml"@) == Some(InputFormat::Toml),
        extension_format("csv"@) == Some(InputFormat::Csv),
        extension_format("tsv"@) == Some(InputFormat::Csv),
        extension_format("toon"@) == Some(InputFormat::Toon),
        extension_format(ext) is Some ==> detected_format(Some(ext), input) == extension_format(
            ext,
        ),
{
    reveal_strlit("json");
    reveal_strlit("yaml");
    reveal_strlit("yml");
    reveal_strlit("toml");
    reveal_strlit("csv");
    reveal_strlit("tsv");
    reveal_strlit("toon");
    assert("yaml"@[0] != "json"@[0]);
    assert("toml"@[0] != "json"@[0]);
    assert("toml"@[0] != "yaml"@[0]);
    assert("csv"@[0] != "yml"@[0]);
    assert("tsv"@[0] != "yml"@[0]);
    assert("tsv"@[0] != "csv"@[0]);
    assert("toon"@[0] != "json"@[0]);
    assert("toon"@[0] != "yaml"@[0]);
    assert("toon"@[2] != "toml"@[2]);
}

} // verus!
