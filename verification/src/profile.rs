//! Frozen routing profiles: versioned decisions from data shape to output format.
use crate::analysis::{DataAnalysis, Ratio};
use crate::error::LlmFmtError;
use crate::format::OutputFormat;
use crate::text::{chars_to_string, push_str, same_chars, str_chars};
use vstd::prelude::*;

verus! {

/// `r <= p / q`, compared exactly.
pub open spec fn ratio_at_most(r: Ratio, p: int, q: int) -> bool {
    r.numerator * q <= p * r.denominator
}

/// `r >= p / q`, compared exactly.
pub open spec fn ratio_at_least(r: Ratio, p: int, q: int) -> bool {
    r.numerator * q >= p * r.denominator
}

/// `p * d` divided by `q`: the quotient and the remainder.
fn scaled_division(p: u128, q: u128, d: u128) -> (r: (u128, u128))
    requires
        0 < p < q <= 20,
    ensures
        p * d == q * r.0 + r.1,
        r.1 < q,
{
    let a = d / q;
    let b = d % q;
    proof {
        assert(d == q * a + b) by (nonlinear_arith)
            requires
                a == d / q,
                b == d % q,
                q > 0,
        ;
        assert(p * b < 400) by (nonlinear_arith)
            requires
                p < 20,
                b < q,
                q <= 20,
        ;
        assert(p * a <= d) by (nonlinear_arith)
            requires
                d == q * a + b,
                p < q,
                a >= 0,
                b >= 0,
        ;
    }
    let c = p * b;
    let e = c / q;
    let g = c % q;
    proof {
        assert(c == q * e + g) by (nonlinear_arith)
            requires
                e == c / q,
                g == c % q,
                q > 0,
        ;
        assert(p * d == q * (p * a + e) + g) by (nonlinear_arith)
            requires
                d == q * a + b,
                c == p * b,
                c == q * e + g,
        ;
        assert(q * (p * a + e) <= p * d) by (nonlinear_arith)
            requires
                p * d == q * (p * a + e) + g,
                g >= 0,
        ;
        assert(p * d < q * d + 1) by (nonlinear_arith)
            requires
                p < q,
                d >= 0,
        ;
        assert(p * a + e <= d) by (nonlinear_arith)
            requires
                q * (p * a + e) <= p * d,
                p * d <= q * d,
                q > 0,
        ;
    }
    (p * a + e, g)
}

/// Whether `r <= p / q`.
fn at_most(r: Ratio, p: u128, q: u128) -> (b: bool)
    requires
        0 < p < q <= 20,
    ensures
        b == ratio_at_most(r, p as int, q as int),
{
    let (f, g) = scaled_division(p, q, r.denominator);
    proof {
        let n = r.numerator as int;
        let d = r.denominator as int;
        assert((n <= f) == (n * q <= p * d)) by (nonlinear_arith)
            requires
                p * d == q * f + g,
                0 <= g < q,
                q > 0,
        ;
    }
    r.numerator <= f
}

/// Whether `r >= p / q`.
fn at_least(r: Ratio, p: u128, q: u128) -> (b: bool)
    requires
        0 < p < q <= 20,
    ensures
        b == ratio_at_least(r, p as int, q as int),
{
    let (f, g) = scaled_division(p, q, r.denominator);
    proof {
        let n = r.numerator as int;
        let d = r.denominator as int;
        assert((n > f || (n == f && g == 0)) == (n * q >= p * d)) by (nonlinear_arith)
            requires
                p * d == q * f + g,
                0 <= g < q,
                q > 0,
        ;
    }
    r.numerator > f || (r.numerator == f && g == 0)
}

/// Routing of the 20260410 profile: a flat, non-empty table goes to TSV when
/// it has at most 3 columns and at most 5% empty cells, else to TOON; a
/// uniform table of object rows with at least 90% uniformity and at most 35%
/// empty cells goes to TOON; anything else to YAML unless deeper than 4 (or
/// deeply nested), which goes to compact JSON.
pub open spec fn route_20260410(a: DataAnalysis) -> OutputFormat {
    if a.is_flat_object_array && a.row_count > 0 {
        if a.field_count <= 3 && ratio_at_most(a.sparsity, 1, 20) {
            OutputFormat::Tsv
        } else {
            OutputFormat::Toon
        }
    } else if a.is_uniform_object_array && ratio_at_least(a.uniformity, 9, 10) && ratio_at_most(
        a.sparsity,
        7,
        20,
    ) {
        OutputFormat::Toon
    } else if !a.is_deeply_nested && a.depth <= 4 {
        OutputFormat::Yaml
    } else {
        OutputFormat::JsonCompact
    }
}

/// Routing of the 20260411 profile: as 20260410, except that a uniform table
/// goes to TOON only where its nested members hold no more scalar values than
/// its scalar members.
pub open spec fn route_20260411(a: DataAnalysis) -> OutputFormat {
    if a.is_flat_object_array && a.row_count > 0 {
        if a.field_count <= 3 && ratio_at_most(a.sparsity, 1, 20) {
            OutputFormat::Tsv
        } else {
            OutputFormat::Toon
        }
    } else if a.is_uniform_object_array && ratio_at_least(a.uniformity, 9, 10) && ratio_at_most(
        a.sparsity,
        7,
        20,
    ) && a.nested_value_field_count <= a.scalar_field_count {
        OutputFormat::Toon
    } else if !a.is_deeply_nested && a.depth <= 4 {
        OutputFormat::Yaml
    } else {
        OutputFormat::JsonCompact
    }
}

/// A versioned decision function from analyzed data shape to output format.
pub trait Profile {
    /// The profile's identifier.
    spec fn profile_name(&self) -> Seq<char>;

    /// The format that the profile routes an analysis to.
    spec fn route(&self, analysis: DataAnalysis) -> OutputFormat;

    fn id(&self) -> (r: &'static str)
        ensures
            r@ == self.profile_name(),
    ;

    fn select_format(&self, analysis: &DataAnalysis) -> (r: OutputFormat)
        ensures
            r == self.route(*analysis),
    ;
}

/// The profile of 2026-04-10.
pub struct Profile20260410;

/// The profile of 2026-04-11, which `latest` names.
pub struct Profile20260411;

impl Profile for Profile20260410 {
    open spec fn profile_name(&self) -> Seq<char> {
        "20260410"@
    }

    open spec fn route(&self, analysis: DataAnalysis) -> OutputFormat {
        route_20260410(analysis)
    }

    fn id(&self) -> (r: &'static str) {
        "20260410"
    }

    fn select_format(&self, analysis: &DataAnalysis) -> (r: OutputFormat) {
        if analysis.is_flat_object_array && analysis.row_count > 0 {
            if analysis.field_count <= 3 && at_most(analysis.sparsity, 1, 20) {
                OutputFormat::Tsv
            } else {
                OutputFormat::Toon
            }
        } else if analysis.is_uniform_object_array && at_least(analysis.uniformity, 9, 10)
            && at_most(analysis.sparsity, 7, 20) {
            OutputFormat::Toon
        } else if !analysis.is_deeply_nested && analysis.depth <= 4 {
            OutputFormat::Yaml
        } else {
            OutputFormat::JsonCompact
        }
    }
}

impl Profile for Profile20260411 {
    open spec fn profile_name(&self) -> Seq<char> {
        "20260411"@
    }

    open spec fn route(&self, analysis: DataAnalysis) -> OutputFormat {
        route_20260411(analysis)
    }

    fn id(&self) -> (r: &'static str) {
        "20260411"
    }

    fn select_format(&self, analysis: &DataAnalysis) -> (r: OutputFormat) {
        if analysis.is_flat_object_array && analysis.row_count > 0 {
            if analysis.field_count <= 3 && at_most(analysis.sparsity, 1, 20) {
                OutputFormat::Tsv
            } else {
                OutputFormat::Toon
            }
        } else if analysis.is_uniform_object_array && at_least(analysis.uniformity, 9, 10)
            && at_most(analysis.sparsity, 7, 20) && analysis.nested_value_field_count
            <= analysis.scalar_field_count {
            OutputFormat::Toon
        } else if !analysis.is_deeply_nested && analysis.depth <= 4 {
            OutputFormat::Yaml
        } else {
            OutputFormat::JsonCompact
        }
    }
}

/// One of the built-in profiles, as `resolve_profile` hands it out.
#[derive(Clone, Copy, Debug, PartialEq, Eq, Structural)]
pub enum BuiltinProfile {
    Profile20260410,
    Profile20260411,
}

impl Profile for BuiltinProfile {
    open spec fn profile_name(&self) -> Seq<char> {
        match self {
            BuiltinProfile::Profile20260410 => "20260410"@,
            BuiltinProfile::Profile20260411 => "20260411"@,
        }
    }

    open spec fn route(&self, analysis: DataAnalysis) -> OutputFormat {
        match self {
            BuiltinProfile::Profile20260410 => route_20260410(analysis),
            BuiltinProfile::Profile20260411 => route_20260411(analysis),
        }
    }

    fn id(&self) -> (r: &'static str) {
        match self {
            BuiltinProfile::Profile20260410 => Profile20260410.id(),
            BuiltinProfile::Profile20260411 => Profile20260411.id(),
        }
    }

    fn select_format(&self, analysis: &DataAnalysis) -> (r: OutputFormat) {
        match self {
            BuiltinProfile::Profile20260410 => Profile20260410.select_format(analysis),
            BuiltinProfile::Profile20260411 => Profile20260411.select_format(analysis),
        }
    }
}

/// The profile that an identifier names (`latest` where none is given):
/// `latest` and `20260411` name the newer profile, `20260410` the older.
pub open spec fn named_profile(id: Option<Seq<char>>) -> Option<BuiltinProfile> {
    let name = match id {
        Some(name) => name,
        None => "latest"@,
    };
    if name == "latest"@ || name == "20260411"@ {
        Some(BuiltinProfile::Profile20260411)
    } else if name == "20260410"@ {
        Some(BuiltinProfile::Profile20260410)
    } else {
        None
    }
}

/// The message for an identifier that names no profile.
pub open spec fn unknown_profile_message(name: Seq<char>) -> Seq<char> {
    "unknown profile `"@ + name + "`; supported values: latest, 20260410, 20260411"@
}

/// Finds the profile that an identifier names.
pub fn resolve_profile(id: Option<&str>) -> (r: Result<BuiltinProfile, LlmFmtError>)
    ensures
        match r {
            Ok(profile) => named_profile(
                match id {
                    Some(s) => Some(s@),
                    None => None,
                },
            ) == Some(profile),
            Err(err) => {
                let name = id.unwrap()@;
                &&& id is Some
                &&& named_profile(Some(name)) is None
                &&& err == LlmFmtError::Message(err->Message_0)
                &&& err->Message_0@ == unknown_profile_message(name)
            },
        },
{
    let name = match id {
        Some(s) => str_chars(s),
        None => {
            return Ok(BuiltinProfile::Profile20260411);
        },
    };
    if same_chars(name.as_slice(), str_chars("latest").as_slice()) || same_chars(
        name.as_slice(),
        str_chars("20260411").as_slice(),
    ) {
        Ok(BuiltinProfile::Profile20260411)
    } else if same_chars(name.as_slice(), str_chars("20260410").as_slice()) {
        Ok(BuiltinProfile::Profile20260410)
    } else {
        let mut message: Vec<char> = Vec::new();
        push_str(&mut message, "unknown profile `");
        push_str(&mut message, id.unwrap());
        push_str(&mut message, "`; supported values: latest, 20260410, 20260411");
        Err(LlmFmtError::Message(chars_to_string(message.as_slice())))
    }
}

/// The two profiles route alike except for a uniform table whose nested
/// members hold more scalar values than its scalar members: there the older
/// profile picks TOON and the newer one does not.
pub proof fn law_profiles_differ_only_on_nested_tables(a: DataAnalysis)
    ensures
        a.nested_value_field_count <= a.scalar_field_count ==> route_20260411(a) == route_20260410(
            a,
        ),
        route_20260411(a) != route_20260410(a) ==> route_20260410(a) == OutputFormat::Toon
            && route_20260411(a) != OutputFormat::Toon,
{
}

/// `latest`, and no name at all, name the 20260411 profile; `20260410`
/// names the older one.
pub proof fn law_latest_is_20260411()
    ensures
        named_profile(None) == Some(BuiltinProfile::Profile20260411),
        named_profile(Some("latest"@)) == Some(BuiltinProfile::Profile20260411),
        named_profile(Some("20260411"@)) == Some(BuiltinProfile::Profile20260411),
        named_profile(Some("20260410"@)) == Some(BuiltinProfile::Profile20260410),
{
    reveal_strlit("latest");
    reveal_strlit("20260411");
    reveal_strlit("20260410");
    assert("20260410"@ != "latest"@) by {
        assert("20260410"@[0] != "latest"@[0]);
    }
    assert("20260410"@ != "20260411"@) by {
        assert("20260410"@[7] != "20260411"@[7]);
    }
}

/// A small, dense, flat table goes to TSV under either profile: a flat,
/// non-empty object array with at most 3 columns and at most 5% empty
/// cells. Another flat, non-empty object array goes to TOON, and TSV is
/// chosen for nothing else.
pub proof fn law_small_flat_tables_route_to_tsv(profile: BuiltinProfile, a: DataAnalysis)
    ensures
        a.is_flat_object_array && a.row_count > 0 && a.field_count <= 3 && a.sparsity.numerator
            * 20 <= a.sparsity.denominator ==> profile.route(a) == OutputFormat::Tsv,
        a.is_flat_object_array && a.row_count > 0 && !(a.field_count <= 3
            && a.sparsity.numerator * 20 <= a.sparsity.denominator) ==> profile.route(a)
            == OutputFormat::Toon,
        profile.route(a) == OutputFormat::Tsv ==> a.is_flat_object_array && a.row_count > 0
            && a.field_count <= 3 && a.sparsity.numerator * 20 <= a.sparsity.denominator,
        Profile20260410.route(a) == BuiltinProfile::Profile20260410.route(a),
        Profile20260411.route(a) == BuiltinProfile::Profile20260411.route(a),
{
}

} // verus!
