//! Checking the merged configuration against what the registry declares.
//!
//! This is the only place that sees both the merged file contents and the
//! parameter specs. Four things happen here, all of them collecting into
//! diagnostics rather than returning early:
//!
//! 1. every key the user wrote is one the owning cop declared
//! 2. every value coerces to its declared type
//! 3. every integer falls inside its declared range
//! 4. every declared key the user did not write is filled in from its default
//!
//! Step four is what makes the resolved configuration complete, and therefore
//! what makes [`CopParams`](crate::config::params::CopParams) infallible.

use vstd::prelude::*;

use crate::config::diagnostics::{helped, placed, plain, suggested, DiagnosticBuilder, DiagnosticModel, Diagnostics, Level};
use crate::config::globals::{default_meta_keys, globals_spec, Globals};
use crate::config::params::{read_bool, read_str, read_str_list, read_uint};
use crate::config::merge::{merged_wf, sourced_map_ok, sourced_ok, Merged, MergedCop, Sourced};
use crate::config::resolved::{origin_at, recorded_origin, CopSettings, Origin, OriginModel, ResolvedConfig};
use crate::keyed::{
    has_key, insert_entry, lemma_insert_entry, lemma_lookup_has, lemma_lookup_position, lookup, sorted_keys,
    TextMap,
};
use crate::config::raw::{blame_key_of, blame_value_of, parsed_type_name, raw_locatable, ParsedModel, ParsedValue, RawModel};
use crate::config::source::ConfigSource;
use crate::config::spec::{decl_qualified, declares, default_model, find_param, kind_type_name, lists, lists_str, ParamKind, ParamSpec, ParamValue, ValueModel};
use crate::text::{concat3, decimal, join, join_strs, signed_decimal, str_views, to_decimal, to_signed_decimal};

verus! {

/// The value a written value takes under `kind`, if it has the right shape
/// and lies within the declared range.
pub open spec fn coerced(kind: ParamKind, v: ParsedModel) -> Option<ValueModel> {
    match kind {
        ParamKind::Uint { min, max, .. } => match v {
            ParsedModel::Int(raw) => if raw < 0 || raw < min || raw > max {
                None
            } else {
                Some(ValueModel::Uint(raw as u64))
            },
            _ => None,
        },
        ParamKind::Bool { .. } => match v {
            ParsedModel::Bool(b) => Some(ValueModel::Bool(b)),
            _ => None,
        },
        ParamKind::Str { .. } => match v {
            ParsedModel::Str(s) => Some(ValueModel::Str(s)),
            _ => None,
        },
        ParamKind::StrList { .. } => match v {
            ParsedModel::StrList(l) => Some(ValueModel::StrList(l)),
            _ => None,
        },
        ParamKind::Enum { variants, .. } => match v {
            ParsedModel::Str(s) => if lists(variants@, s) {
                Some(ValueModel::Str(s))
            } else {
                None
            },
            _ => None,
        },
    }
}

/// An error about the value `v`, placed at the value in the file at `path`.
pub open spec fn error_at(message: Seq<char>, v: RawModel, path: Seq<char>, text: Seq<char>) -> DiagnosticModel {
    placed(plain(Level::Error, message), path, text, blame_value_of(v))
}

/// The message for a value of the wrong shape.
pub open spec fn must_be_text(key: Seq<char>, owner: Seq<char>, expected: Seq<char>, found: Seq<char>) -> Seq<char> {
    "`"@ + key + "` for "@ + owner + " must be "@ + expected + ", found "@ + found
}

/// The error for a value of the wrong shape.
pub open spec fn mismatch_diagnostic(owner: Seq<char>, spec: ParamSpec, v: RawModel, path: Seq<char>, text: Seq<char>) -> DiagnosticModel {
    error_at(must_be_text(spec.key@, owner, kind_type_name(spec.kind), parsed_type_name(v.value)), v, path, text)
}

/// The diagnostics reported while coercing `v` for the parameter `spec` of
/// `owner`: none if it coerces, otherwise one error saying why not.
pub open spec fn coerce_diagnostics(owner: Seq<char>, spec: ParamSpec, v: RawModel, path: Seq<char>, text: Seq<char>) -> Seq<DiagnosticModel> {
    let key = spec.key@;
    match spec.kind {
        ParamKind::Uint { min, max, .. } => match v.value {
            ParsedModel::Int(raw) => if raw < 0 {
                seq![
                    error_at(
                        "`"@ + key + "` for "@ + owner + " must be at least "@ + decimal(min as nat)
                            + ", found "@ + signed_decimal(raw as int),
                        v,
                        path,
                        text,
                    ),
                ]
            } else if raw < min || raw > max {
                seq![
                    error_at(
                        "`"@ + key + "` for "@ + owner + " must be between "@ + decimal(min as nat)
                            + " and "@ + decimal(max as nat) + ", found "@ + decimal(raw as nat),
                        v,
                        path,
                        text,
                    ),
                ]
            } else {
                seq![]
            },
            _ => seq![mismatch_diagnostic(owner, spec, v, path, text)],
        },
        ParamKind::Bool { .. } => match v.value {
            ParsedModel::Bool(_) => seq![],
            _ => seq![mismatch_diagnostic(owner, spec, v, path, text)],
        },
        ParamKind::Str { .. } => match v.value {
            ParsedModel::Str(_) => seq![],
            _ => seq![mismatch_diagnostic(owner, spec, v, path, text)],
        },
        ParamKind::StrList { .. } => match v.value {
            ParsedModel::StrList(_) => seq![],
            _ => seq![mismatch_diagnostic(owner, spec, v, path, text)],
        },
        ParamKind::Enum { variants, .. } => match v.value {
            ParsedModel::Str(s) => if lists(variants@, s) {
                seq![]
            } else {
                seq![
                    helped(
                        error_at(
                            "`"@ + s + "` is not a valid value for `"@ + key + "` on "@ + owner,
                            v,
                            path,
                            text,
                        ),
                        "expected one of: "@ + join(str_views(variants@), ", "@),
                    ),
                ]
            },
            _ => seq![mismatch_diagnostic(owner, spec, v, path, text)],
        },
    }
}

/// Report a value of the wrong shape.
fn report_mismatch(owner: &str, spec: &ParamSpec, sourced: &Sourced, source: &ConfigSource, diagnostics: &mut Diagnostics)
    requires
        raw_locatable(sourced.raw@, source.text@),
    ensures
        final(diagnostics)@ == old(diagnostics)@.push(
            mismatch_diagnostic(owner@, *spec, sourced.raw@, source.path@, source.text@),
        ),
{
    let mut message = concat3("`", spec.key, "` for ");
    message.append(owner);
    message.append(" must be ");
    message.append(spec.kind.type_label());
    message.append(", found ");
    message.append(sourced.raw.value.type_label());
    DiagnosticBuilder::error(message).at(
        source.path.as_str(),
        source.text.as_str(),
        sourced.raw.blame_value(),
    ).emit(diagnostics);
}

/// Convert one written value into its declared type, or report why it cannot
/// be converted.
fn coerce(owner: &str, spec: &ParamSpec, sourced: &Sourced, source: &ConfigSource, diagnostics: &mut Diagnostics) -> (res: Option<ParamValue>)
    requires
        raw_locatable(sourced.raw@, source.text@),
    ensures
        res matches Some(v) ==> coerced(spec.kind, sourced.raw@.value) == Some(v@),
        res is None ==> coerced(spec.kind, sourced.raw@.value) is None,
        final(diagnostics)@ == old(diagnostics)@ + coerce_diagnostics(
            owner@,
            *spec,
            sourced.raw@,
            source.path@,
            source.text@,
        ),
{
    let ghost d0 = diagnostics@;
    let span = sourced.raw.blame_value();
    match spec.kind {
        ParamKind::Uint { min, max, .. } => match &sourced.raw.value {
            ParsedValue::Int(raw) => {
                if *raw < 0 {
                    let mut message = concat3("`", spec.key, "` for ");
                    message.append(owner);
                    message.append(" must be at least ");
                    message.append(to_decimal(min).as_str());
                    message.append(", found ");
                    message.append(to_signed_decimal(*raw).as_str());
                    DiagnosticBuilder::error(message).at(
                        source.path.as_str(),
                        source.text.as_str(),
                        span,
                    ).emit(diagnostics);
                    return None;
                }
                let value = *raw as u64;
                if value < min || value > max {
                    let mut message = concat3("`", spec.key, "` for ");
                    message.append(owner);
                    message.append(" must be between ");
                    message.append(to_decimal(min).as_str());
                    message.append(" and ");
                    message.append(to_decimal(max).as_str());
                    message.append(", found ");
                    message.append(to_decimal(value).as_str());
                    DiagnosticBuilder::error(message).at(
                        source.path.as_str(),
                        source.text.as_str(),
                        span,
                    ).emit(diagnostics);
                    return None;
                }
                assert(diagnostics@ =~= d0 + seq![]);
                Some(ParamValue::Uint(value))
            },
            _ => {
                report_mismatch(owner, spec, sourced, source, diagnostics);
                None
            },
        },
        ParamKind::Bool { .. } => match &sourced.raw.value {
            ParsedValue::Bool(b) => {
                assert(diagnostics@ =~= d0 + seq![]);
                Some(ParamValue::Bool(*b))
            },
            _ => {
                report_mismatch(owner, spec, sourced, source, diagnostics);
                None
            },
        },
        ParamKind::Str { .. } => match &sourced.raw.value {
            ParsedValue::Str(s) => {
                assert(diagnostics@ =~= d0 + seq![]);
                Some(ParamValue::Str(s.clone()))
            },
            _ => {
                report_mismatch(owner, spec, sourced, source, diagnostics);
                None
            },
        },
        ParamKind::StrList { .. } => match &sourced.raw.value {
            ParsedValue::StrList(l) => {
                assert(diagnostics@ =~= d0 + seq![]);
                Some(ParamValue::StrList(crate::config::globals::copy_strings(l)))
            },
            _ => {
                report_mismatch(owner, spec, sourced, source, diagnostics);
                None
            },
        },
        ParamKind::Enum { variants, .. } => match &sourced.raw.value {
            ParsedValue::Str(s) => {
                if lists_str(variants, s.as_str()) {
                    assert(diagnostics@ =~= d0 + seq![]);
                    Some(ParamValue::Str(s.clone()))
                } else {
                    let mut message = concat3("`", s.as_str(), "` is not a valid value for `");
                    message.append(spec.key);
                    message.append("` on ");
                    message.append(owner);
                    let mut help = "expected one of: ".to_owned();
                    help.append(join_strs(variants, ", ").as_str());
                    DiagnosticBuilder::error(message).at(
                        source.path.as_str(),
                        source.text.as_str(),
                        span,
                    ).help(help).emit(diagnostics);
                    None
                }
            },
            _ => {
                report_mismatch(owner, spec, sourced, source, diagnostics);
                None
            },
        },
    }
}

/// The keys of the declared parameters, in order.
pub open spec fn param_keys(specs: Seq<ParamSpec>) -> Seq<Seq<char>> {
    specs.map_values(|p: ParamSpec| p.key@)
}

/// Declaring a key is having it among the declared keys.
pub proof fn lemma_param_keys(specs: Seq<ParamSpec>, k: Seq<char>)
    ensures
        declares(specs, k) <==> param_keys(specs).contains(k),
{
    if declares(specs, k) {
        let i = choose|i: int| 0 <= i < specs.len() && #[trigger] specs[i].key@ == k;
        assert(param_keys(specs)[i] == k);
    }
    if param_keys(specs).contains(k) {
        let i = choose|i: int| 0 <= i < param_keys(specs).len() && param_keys(specs)[i] == k;
        assert(specs[i].key@ == k);
    }
}

/// The warnings for written keys that are not among the declared `keys`, in
/// order.
pub open spec fn unknown_key_diagnostics(
    owner: Seq<char>,
    keys: Seq<Seq<char>>,
    written: Seq<(Seq<char>, Sourced)>,
    files: Seq<ConfigSource>,
) -> Seq<DiagnosticModel>
    decreases written.len(),
{
    if written.len() == 0 {
        seq![]
    } else {
        let key = written.last().0;
        let s = written.last().1;
        unknown_key_diagnostics(owner, keys, written.drop_last(), files) + if keys.contains(key) {
            seq![]
        } else {
            seq![
                suggested(
                    placed(
                        plain(Level::Warning, "unknown option `"@ + key + "` for "@ + owner),
                        files[s.file as int].path@,
                        files[s.file as int].text@,
                        blame_key_of(s.raw@),
                    ),
                    key,
                    keys,
                ),
            ]
        }
    }
}

/// The value a declared parameter resolves to: the written value if it
/// coerces, else the declared default.
pub open spec fn param_value(spec: ParamSpec, written: Seq<(Seq<char>, Sourced)>) -> ValueModel {
    match lookup(written, spec.key@) {
        Some(s) => match coerced(spec.kind, s.raw@.value) {
            Some(v) => v,
            None => default_model(spec.kind),
        },
        None => default_model(spec.kind),
    }
}

/// Where a declared parameter's value comes from: the written value's place
/// if it coerces, else the default.
pub open spec fn param_origin(spec: ParamSpec, written: Seq<(Seq<char>, Sourced)>, files: Seq<ConfigSource>) -> OriginModel {
    match lookup(written, spec.key@) {
        Some(s) => match coerced(spec.kind, s.raw@.value) {
            Some(_) => origin_at(files[s.file as int].path@, files[s.file as int].text@, blame_value_of(s.raw@)),
            None => OriginModel::Default,
        },
        None => OriginModel::Default,
    }
}

/// The diagnostics reported for one declared parameter.
pub open spec fn param_diagnostics(owner: Seq<char>, spec: ParamSpec, written: Seq<(Seq<char>, Sourced)>, files: Seq<ConfigSource>) -> Seq<DiagnosticModel> {
    match lookup(written, spec.key@) {
        Some(s) => coerce_diagnostics(owner, spec, s.raw@, files[s.file as int].path@, files[s.file as int].text@),
        None => seq![],
    }
}

/// The diagnostics reported for every declared parameter, in order.
pub open spec fn params_diagnostics(owner: Seq<char>, specs: Seq<ParamSpec>, written: Seq<(Seq<char>, Sourced)>, files: Seq<ConfigSource>) -> Seq<DiagnosticModel>
    decreases specs.len(),
{
    if specs.len() == 0 {
        seq![]
    } else {
        params_diagnostics(owner, specs.drop_last(), written, files) + param_diagnostics(owner, specs.last(), written, files)
    }
}

/// True if no later parameter than the one at `i` has its key.
pub open spec fn last_with_key(specs: Seq<ParamSpec>, i: int) -> bool {
    forall|j: int| i < j < specs.len() ==> #[trigger] specs[j].key@ != specs[i].key@
}

/// True if `values` and `origins` hold exactly the declared keys, each bound
/// to what the last declaration with that key resolves to.
pub open spec fn resolved(
    values: Seq<(Seq<char>, ParamValue)>,
    origins: Seq<(Seq<char>, Origin)>,
    specs: Seq<ParamSpec>,
    written: Seq<(Seq<char>, Sourced)>,
    files: Seq<ConfigSource>,
) -> bool {
    &&& sorted_keys(values)
    &&& sorted_keys(origins)
    &&& forall|k: Seq<char>| #[trigger] has_key(values, k) <==> declares(specs, k)
    &&& forall|k: Seq<char>| #[trigger] has_key(origins, k) <==> declares(specs, k)
    &&& forall|i: int|
        0 <= i < specs.len() && last_with_key(specs, i) ==> (lookup(values, (#[trigger] specs[i]).key@) matches Some(v)
            && v@ == param_value(specs[i], written)) && (lookup(origins, specs[i].key@) matches Some(o)
            && o@ == param_origin(specs[i], written, files))
}

/// The keys of the declared parameters.
fn key_list(specs: &[ParamSpec]) -> (res: Vec<&'static str>)
    ensures
        str_views(res@) == param_keys(specs@),
{
    let mut res: Vec<&'static str> = Vec::new();
    let mut i: usize = 0;
    while i < specs.len()
        invariant
            i <= specs@.len(),
            res@.len() == i,
            forall|k: int| 0 <= k < i ==> #[trigger] res@[k]@ == specs@[k].key@,
        decreases specs@.len() - i,
    {
        res.push(specs[i].key);
        i = i + 1;
    }
    assert(str_views(res@) =~= param_keys(specs@));
    res
}

/// Warn about every written key that no parameter declares.
fn warn_unknown_keys(
    owner: &str,
    specs: &'static [ParamSpec],
    written: &TextMap<String, Sourced>,
    files: &[ConfigSource],
    diagnostics: &mut Diagnostics,
)
    requires
        forall|i: int| 0 <= i < written@.len() ==> sourced_ok(#[trigger] written@[i].1, files@),
    ensures
        final(diagnostics)@ == old(diagnostics)@ + unknown_key_diagnostics(owner@, param_keys(specs@), written@, files@),
{
    let keys = key_list(specs);
    let ghost d0 = diagnostics@;
    let mut i: usize = 0;
    assert(d0 + unknown_key_diagnostics(owner@, param_keys(specs@), written@.take(0), files@) =~= d0);
    while i < written.len()
        invariant
            i <= written@.len(),
            str_views(keys@) == param_keys(specs@),
            forall|j: int| 0 <= j < written@.len() ==> sourced_ok(#[trigger] written@[j].1, files@),
            diagnostics@ == d0 + unknown_key_diagnostics(owner@, param_keys(specs@), written@.take(i as int), files@),
        decreases written@.len() - i,
    {
        let key = written.key_at(i).as_str();
        let sourced = written.value_at(i);
        proof {
            let t = written@.take(i + 1);
            assert(t.drop_last() =~= written@.take(i as int));
            assert(sourced_ok(written@[i as int].1, files@));
        }
        proof {
            lemma_param_keys(specs@, key@);
        }
        if find_param(specs, key).is_none() {
            let source = &files[sourced.file];
            let mut message = concat3("unknown option `", key, "` for ");
            message.append(owner);
            DiagnosticBuilder::warning(message).at(
                source.path.as_str(),
                source.text.as_str(),
                sourced.raw.blame_key(),
            ).suggest(key, keys.as_slice()).emit(diagnostics);
        }
        assert(diagnostics@ =~= d0 + unknown_key_diagnostics(owner@, param_keys(specs@), written@.take(i + 1), files@));
        i = i + 1;
    }
    assert(written@.take(i as int) =~= written@);
}

/// Binding one more declared parameter keeps the maps resolved.
#[verifier::spinoff_prover]
#[verifier::rlimit(40)]
proof fn lemma_resolved_step(
    values: Seq<(Seq<char>, ParamValue)>,
    origins: Seq<(Seq<char>, Origin)>,
    specs: Seq<ParamSpec>,
    n: int,
    v: ParamValue,
    o: Origin,
    written: Seq<(Seq<char>, Sourced)>,
    files: Seq<ConfigSource>,
)
    requires
        0 <= n < specs.len(),
        resolved(values, origins, specs.take(n), written, files),
        v@ == param_value(specs[n], written),
        o@ == param_origin(specs[n], written, files),
    ensures
        resolved(
            insert_entry(values, specs[n].key@, v),
            insert_entry(origins, specs[n].key@, o),
            specs.take(n + 1),
            written,
            files,
        ),
{
    let k0 = specs[n].key@;
    let t0 = specs.take(n);
    let t1 = specs.take(n + 1);
    let nv = insert_entry(values, k0, v);
    let no = insert_entry(origins, k0, o);
    lemma_insert_entry(values, k0, v);
    lemma_insert_entry(origins, k0, o);
    assert forall|k: Seq<char>| declares(t1, k) <==> (declares(t0, k) || k == k0) by {
        if declares(t1, k) {
            let i = choose|i: int| 0 <= i < t1.len() && #[trigger] t1[i].key@ == k;
            if i < n {
                assert(t0[i] == t1[i]);
            }
        }
        if declares(t0, k) {
            let i = choose|i: int| 0 <= i < t0.len() && #[trigger] t0[i].key@ == k;
            assert(t1[i] == t0[i]);
        }
        if k == k0 {
            assert(t1[n] == specs[n]);
        }
    }
    assert forall|k: Seq<char>| #[trigger] has_key(nv, k) <==> declares(t1, k) by {
        lemma_lookup_has(nv, k);
        lemma_lookup_has(values, k);
    }
    assert forall|k: Seq<char>| #[trigger] has_key(no, k) <==> declares(t1, k) by {
        lemma_lookup_has(no, k);
        lemma_lookup_has(origins, k);
    }
    assert forall|i: int| 0 <= i < t1.len() && last_with_key(t1, i) implies (lookup(nv, (#[trigger] t1[i]).key@) matches Some(w)
        && w@ == param_value(t1[i], written)) && (lookup(no, t1[i].key@) matches Some(x)
        && x@ == param_origin(t1[i], written, files)) by {
        if i < n {
            assert(t1[i] == t0[i]);
            assert(t1[n] == specs[n]);
            assert(t1[i].key@ != k0);
            assert forall|j: int| i < j < t0.len() implies #[trigger] t0[j].key@ != t0[i].key@ by {
                assert(t1[j] == t0[j]);
            }
            assert(last_with_key(t0, i));
        }
    }
}

/// Resolve one owner's parameters against its specs.
///
/// Returns the complete value map and the origin of each value. Written keys
/// that no parameter declares are reported and otherwise ignored.
fn resolve_params(
    owner: &str,
    specs: &'static [ParamSpec],
    written: &TextMap<String, Sourced>,
    files: &[ConfigSource],
    diagnostics: &mut Diagnostics,
) -> (res: (TextMap<&'static str, ParamValue>, TextMap<&'static str, Origin>))
    requires
        forall|i: int| 0 <= i < written@.len() ==> sourced_ok(#[trigger] written@[i].1, files@),
    ensures
        resolved(res.0@, res.1@, specs@, written@, files@),
        final(diagnostics)@ == old(diagnostics)@ + unknown_key_diagnostics(owner@, param_keys(specs@), written@, files@)
            + params_diagnostics(owner@, specs@, written@, files@),
{
    warn_unknown_keys(owner, specs, written, files, diagnostics);
    let ghost d1 = diagnostics@;
    let mut values: TextMap<&'static str, ParamValue> = TextMap::new();
    let mut origins: TextMap<&'static str, Origin> = TextMap::new();
    let mut n: usize = 0;
    proof {
        assert(specs@.take(0).len() == 0);
        assert(d1 + params_diagnostics(owner@, specs@.take(0), written@, files@) =~= d1);
        assert forall|k: Seq<char>| #[trigger] has_key(values@, k) <==> declares(specs@.take(0), k) by {}
        assert forall|k: Seq<char>| #[trigger] has_key(origins@, k) <==> declares(specs@.take(0), k) by {}
    }
    while n < specs.len()
        invariant
            n <= specs@.len(),
            forall|i: int| 0 <= i < written@.len() ==> sourced_ok(#[trigger] written@[i].1, files@),
            resolved(values@, origins@, specs@.take(n as int), written@, files@),
            diagnostics@ == d1 + params_diagnostics(owner@, specs@.take(n as int), written@, files@),
        decreases specs@.len() - n,
    {
        let spec = &specs[n];
        let ghost d2 = diagnostics@;
        let (value, origin) = match written.get(spec.key) {
            Some(sourced) => {
                proof {
                    lemma_lookup_position(written@, spec.key@);
                }
                let source = &files[sourced.file];
                match coerce(owner, spec, sourced, source, diagnostics) {
                    Some(value) => {
                        let origin = Origin::from_span(
                            source.path.as_str(),
                            source.text.as_str(),
                            sourced.raw.blame_value(),
                        );
                        (value, origin)
                    },
                    None => (spec.kind.default_value(), Origin::Default),
                }
            },
            None => (spec.kind.default_value(), Origin::Default),
        };
        proof {
            lemma_resolved_step(values@, origins@, specs@, n as int, value, origin, written@, files@);
            let t = specs@.take(n + 1);
            assert(t.drop_last() =~= specs@.take(n as int));
            assert(t.last() == specs@[n as int]);
        }
        values.insert(spec.key, value);
        origins.insert(spec.key, origin);
        assert(diagnostics@ =~= d1 + params_diagnostics(owner@, specs@.take(n + 1), written@, files@));
        n = n + 1;
    }
    assert(specs@.take(n as int) =~= specs@);
    (values, origins)
}

/// The resolved `required_meta_keys`: the list written in `[globals]` if it
/// is an array of strings, else the default.
pub open spec fn resolved_meta_keys(written: Seq<(Seq<char>, Sourced)>) -> Seq<Seq<char>> {
    match lookup(written, "required_meta_keys"@) {
        Some(s) => match s.raw@.value {
            ParsedModel::StrList(l) => l,
            _ => default_meta_keys(),
        },
        None => default_meta_keys(),
    }
}

/// The diagnostics reported for the `[globals]` section: a warning for each
/// key other than `required_meta_keys`, then an error if that one is not an
/// array of strings.
pub open spec fn globals_diagnostics(written: Seq<(Seq<char>, Sourced)>, files: Seq<ConfigSource>) -> Seq<DiagnosticModel> {
    unknown_key_diagnostics("globals"@, seq!["required_meta_keys"@], written, files) + match lookup(
        written,
        "required_meta_keys"@,
    ) {
        Some(s) => match s.raw@.value {
            ParsedModel::StrList(_) => seq![],
            other => seq![
                error_at(
                    must_be_text("required_meta_keys"@, "globals"@, "an array of strings"@, parsed_type_name(other)),
                    s.raw@,
                    files[s.file as int].path@,
                    files[s.file as int].text@,
                ),
            ],
        },
        None => seq![],
    }
}

/// The diagnostics reported while resolving one cop's parameters.
pub open spec fn cop_diagnostics(c: MergedCop, files: Seq<ConfigSource>) -> Seq<DiagnosticModel> {
    let owner = decl_qualified(*c.decl);
    unknown_key_diagnostics(owner, param_keys(c.decl.params@), c.params@, files) + params_diagnostics(
        owner,
        c.decl.params@,
        c.params@,
        files,
    )
}

/// The diagnostics reported while resolving every cop, in cop order.
pub open spec fn cops_diagnostics(cops: Seq<(Seq<char>, MergedCop)>, files: Seq<ConfigSource>) -> Seq<DiagnosticModel>
    decreases cops.len(),
{
    if cops.len() == 0 {
        seq![]
    } else {
        cops_diagnostics(cops.drop_last(), files) + cop_diagnostics(cops.last().1, files)
    }
}

/// True if `s` is what the merged state `c` of a cop resolves to: the same
/// declaration and framework settings, every declared parameter resolved,
/// and the origin of every setting recorded.
pub open spec fn settings_resolved(c: MergedCop, s: CopSettings, files: Seq<ConfigSource>) -> bool {
    let specs = c.decl.params@;
    &&& s.decl == c.decl
    &&& s.enabled == c.enabled
    &&& s.severity == c.severity
    &&& sorted_keys(s.params@)
    &&& sorted_keys(s.origins@)
    &&& forall|k: Seq<char>| #[trigger] has_key(s.params@, k) <==> declares(specs, k)
    &&& forall|k: Seq<char>|
        #[trigger] has_key(s.origins@, k) <==> (declares(specs, k) || k == "enabled"@ || k == "severity"@)
    &&& recorded_origin(s.origins@, "enabled"@) == c.enabled_origin@
    &&& recorded_origin(s.origins@, "severity"@) == c.severity_origin@
    &&& forall|i: int|
        0 <= i < specs.len() && last_with_key(specs, i) ==> (lookup(s.params@, (#[trigger] specs[i]).key@) matches Some(v)
            && v@ == param_value(specs[i], c.params@))
    &&& forall|i: int|
        0 <= i < specs.len() && last_with_key(specs, i) && specs[i].key@ != "enabled"@ && specs[i].key@
            != "severity"@ ==> recorded_origin(s.origins@, (#[trigger] specs[i]).key@) == param_origin(
            specs[i],
            c.params@,
            files,
        )
}

/// Resolve one cop.
#[verifier::spinoff_prover]
#[verifier::rlimit(30)]
fn resolve_cop(cop: &MergedCop, files: &[ConfigSource], diagnostics: &mut Diagnostics) -> (res: CopSettings)
    requires
        sourced_map_ok(cop.params@, files@),
    ensures
        settings_resolved(*cop, res, files@),
        final(diagnostics)@ == old(diagnostics)@ + cop_diagnostics(*cop, files@),
{
    let owner = cop.decl.qualified_name();
    let (values, mut origins) = resolve_params(owner.as_str(), cop.decl.params, &cop.params, files, diagnostics);
    let ghost po = origins@;
    let enabled_origin = cop.enabled_origin.duplicate();
    let severity_origin = cop.severity_origin.duplicate();
    proof {
        reveal_strlit("enabled");
        reveal_strlit("severity");
        assert("enabled"@ != "severity"@) by {
            assert("enabled"@.len() != "severity"@.len());
        }
        lemma_insert_entry(po, "enabled"@, enabled_origin);
        lemma_insert_entry(insert_entry(po, "enabled"@, enabled_origin), "severity"@, severity_origin);
    }
    origins.insert("enabled", enabled_origin);
    origins.insert("severity", severity_origin);
    let res = CopSettings {
        decl: cop.decl,
        enabled: cop.enabled,
        severity: cop.severity,
        params: values,
        origins,
    };
    proof {
        let o1 = insert_entry(po, "enabled"@, enabled_origin);
        assert forall|k: Seq<char>| #[trigger] has_key(res.origins@, k) <==> (declares(cop.decl.params@, k) || k == "enabled"@ || k == "severity"@) by {
            lemma_lookup_has(res.origins@, k);
            lemma_lookup_has(o1, k);
            lemma_lookup_has(po, k);
        }
    }
    res
}

/// Resolve every cop, in order.
fn resolve_cops(cops: &TextMap<String, MergedCop>, files: &[ConfigSource], diagnostics: &mut Diagnostics) -> (res: Vec<CopSettings>)
    requires
        forall|i: int| 0 <= i < cops@.len() ==> sourced_map_ok(#[trigger] cops@[i].1.params@, files@),
    ensures
        res@.len() == cops@.len(),
        forall|i: int| 0 <= i < cops@.len() ==> settings_resolved(cops@[i].1, #[trigger] res@[i], files@),
        final(diagnostics)@ == old(diagnostics)@ + cops_diagnostics(cops@, files@),
{
    let ghost d0 = diagnostics@;
    let mut res: Vec<CopSettings> = Vec::new();
    let mut i: usize = 0;
    assert(d0 + cops_diagnostics(cops@.take(0), files@) =~= d0);
    while i < cops.len()
        invariant
            i <= cops@.len(),
            forall|j: int| 0 <= j < cops@.len() ==> sourced_map_ok(#[trigger] cops@[j].1.params@, files@),
            res@.len() == i,
            forall|j: int| 0 <= j < i ==> settings_resolved(cops@[j].1, #[trigger] res@[j], files@),
            diagnostics@ == d0 + cops_diagnostics(cops@.take(i as int), files@),
        decreases cops@.len() - i,
    {
        let settings = resolve_cop(cops.value_at(i), files, diagnostics);
        res.push(settings);
        proof {
            let t = cops@.take(i + 1);
            assert(t.drop_last() =~= cops@.take(i as int));
        }
        assert(diagnostics@ =~= d0 + cops_diagnostics(cops@.take(i + 1), files@));
        i = i + 1;
    }
    assert(cops@.take(i as int) =~= cops@);
    res
}

/// True if `res` is what validating `m` produces.
pub open spec fn run_result(m: Merged, res: ResolvedConfig) -> bool {
    &&& res.global_values().required_meta_keys.deep_view() == resolved_meta_keys(m.globals@)
    &&& res.cops().len() == m.cops@.len()
    &&& forall|i: int| 0 <= i < m.cops@.len() ==> settings_resolved(m.cops@[i].1, #[trigger] res.cops()[i], m.files@)
}

/// The diagnostics reported while validating `m`.
pub open spec fn run_diagnostics(m: Merged) -> Seq<DiagnosticModel> {
    globals_diagnostics(m.globals@, m.files@) + cops_diagnostics(m.cops@, m.files@)
}

/// Validate a merged configuration and produce the effective one.
///
/// Every registered cop appears, in the merged order, with every declared
/// parameter present: the written value where it is valid, the declared
/// default otherwise.
pub fn run(merged: Merged, diagnostics: &mut Diagnostics) -> (res: ResolvedConfig)
    requires
        merged_wf(merged),
    ensures
        run_result(merged, res),
        final(diagnostics)@ == old(diagnostics)@ + run_diagnostics(merged),
{
    let files = merged.files.as_slice();
    let specs = globals_spec();
    let ghost d0 = diagnostics@;
    let (globals_values, _) = resolve_params("globals", specs, &merged.globals, files, diagnostics);
    let ghost d1 = diagnostics@;
    proof {
        let key = specs@[0].key@;
        let written = merged.globals@;
        assert(param_keys(specs@) =~= seq!["required_meta_keys"@]);
        assert(last_with_key(specs@, 0));
        assert(specs@.drop_last() =~= Seq::<ParamSpec>::empty());
        assert(params_diagnostics("globals"@, specs@.drop_last(), written, merged.files@) == Seq::<DiagnosticModel>::empty());
        assert(specs@.last() == specs@[0]);
        assert(params_diagnostics("globals"@, specs@, written, merged.files@) == param_diagnostics(
            "globals"@,
            specs@[0],
            written,
            merged.files@,
        ));
        assert(str_views(specs@[0].kind->StrList_default@) =~= default_meta_keys());
        assert(d1 =~= d0 + globals_diagnostics(written, merged.files@));
    }
    let globals = Globals::from_params(&globals_values);
    let cops = resolve_cops(&merged.cops, files, diagnostics);
    ResolvedConfig::new(globals, cops)
}

// ---------------------------------------------------------------------------
// What validation promises
// ---------------------------------------------------------------------------

/// Every parameter a cop declares is present after validation, whether the
/// file mentioned it or not; nothing else is.
pub proof fn declared_params_are_present(c: MergedCop, s: CopSettings, files: Seq<ConfigSource>, key: Seq<char>)
    requires
        settings_resolved(c, s, files),
    ensures
        has_key(s.params@, key) <==> declares(c.decl.params@, key),
{
}

/// A parameter the file does not mention takes its declared default, and
/// its origin is the default.
pub proof fn unwritten_param_takes_its_default(spec: ParamSpec, written: Seq<(Seq<char>, Sourced)>, files: Seq<ConfigSource>)
    requires
        !has_key(written, spec.key@),
    ensures
        param_value(spec, written) == default_model(spec.kind),
        param_origin(spec, written, files) == OriginModel::Default,
{
    lemma_lookup_has(written, spec.key@);
}

/// A written value that does not coerce is replaced by the declared
/// default, and its origin is the default.
pub proof fn rejected_value_falls_back(spec: ParamSpec, written: Seq<(Seq<char>, Sourced)>, files: Seq<ConfigSource>, w: Sourced)
    requires
        lookup(written, spec.key@) == Some(w),
        coerced(spec.kind, w.raw@.value) is None,
    ensures
        param_value(spec, written) == default_model(spec.kind),
        param_origin(spec, written, files) == OriginModel::Default,
{
}

/// A list written for a list parameter replaces the declared default; it is
/// not appended to it.
pub proof fn written_list_replaces_the_default(
    spec: ParamSpec,
    written: Seq<(Seq<char>, Sourced)>,
    w: Sourced,
    list: Seq<Seq<char>>,
)
    requires
        spec.kind is StrList,
        lookup(written, spec.key@) == Some(w),
        w.raw@.value == ParsedModel::StrList(list),
    ensures
        param_value(spec, written) == ValueModel::StrList(list),
{
}

/// A written value of the declared shape is kept exactly, whatever it holds
/// (an empty string or an empty list included): a boolean for a boolean
/// parameter, a string for a string parameter, a list for a list parameter,
/// and a listed variant for an enum parameter. Its origin is where it was
/// written, and nothing is reported.
pub proof fn values_of_the_declared_shape_are_kept(
    owner: Seq<char>,
    spec: ParamSpec,
    written: Seq<(Seq<char>, Sourced)>,
    files: Seq<ConfigSource>,
    w: Sourced,
)
    requires
        lookup(written, spec.key@) == Some(w),
        match (spec.kind, w.raw@.value) {
            (ParamKind::Bool { .. }, ParsedModel::Bool(_)) => true,
            (ParamKind::Str { .. }, ParsedModel::Str(_)) => true,
            (ParamKind::StrList { .. }, ParsedModel::StrList(_)) => true,
            (ParamKind::Enum { variants, .. }, ParsedModel::Str(s)) => exists|i: int|
                0 <= i < variants@.len() && #[trigger] variants@[i]@ == s,
            _ => false,
        },
    ensures
        match w.raw@.value {
            ParsedModel::Bool(b) => param_value(spec, written) == ValueModel::Bool(b),
            ParsedModel::Str(s) => param_value(spec, written) == ValueModel::Str(s),
            ParsedModel::StrList(l) => param_value(spec, written) == ValueModel::StrList(l),
            _ => false,
        },
        param_origin(spec, written, files) == origin_at(
            files[w.file as int].path@,
            files[w.file as int].text@,
            blame_value_of(w.raw@),
        ),
        param_diagnostics(owner, spec, written, files) == Seq::<DiagnosticModel>::empty(),
{
}

/// A written value of another shape than declared, or a string an enum
/// parameter does not list, is rejected: the parameter takes its declared
/// default, its origin is the default, and exactly one error is reported.
pub proof fn values_of_another_shape_are_rejected(
    owner: Seq<char>,
    spec: ParamSpec,
    written: Seq<(Seq<char>, Sourced)>,
    files: Seq<ConfigSource>,
    w: Sourced,
)
    requires
        lookup(written, spec.key@) == Some(w),
        match (spec.kind, w.raw@.value) {
            (ParamKind::Uint { .. }, ParsedModel::Int(_)) => false,
            (ParamKind::Bool { .. }, ParsedModel::Bool(_)) => false,
            (ParamKind::Str { .. }, ParsedModel::Str(_)) => false,
            (ParamKind::StrList { .. }, ParsedModel::StrList(_)) => false,
            (ParamKind::Enum { variants, .. }, ParsedModel::Str(s)) => forall|i: int|
                0 <= i < variants@.len() ==> #[trigger] variants@[i]@ != s,
            _ => true,
        },
    ensures
        param_value(spec, written) == default_model(spec.kind),
        param_origin(spec, written, files) == OriginModel::Default,
        param_diagnostics(owner, spec, written, files).len() == 1,
        param_diagnostics(owner, spec, written, files)[0].level == Level::Error,
{
}

/// An integer parameter keeps exactly the values within its declared range.
pub proof fn integers_are_kept_exactly_within_range(spec: ParamSpec, written: Seq<(Seq<char>, Sourced)>, w: Sourced, raw: i64)
    requires
        spec.kind is Uint,
        lookup(written, spec.key@) == Some(w),
        w.raw@.value == ParsedModel::Int(raw),
    ensures
        (spec.kind->Uint_min <= raw <= spec.kind->Uint_max) ==> param_value(spec, written) == ValueModel::Uint(
            raw as u64,
        ),
        !(spec.kind->Uint_min <= raw <= spec.kind->Uint_max) ==> param_value(spec, written) == default_model(
            spec.kind,
        ),
{
}

/// Coercing a written value either takes it, with nothing reported, or
/// rejects it with exactly one error.
pub proof fn rejected_value_is_one_error(owner: Seq<char>, spec: ParamSpec, v: RawModel, path: Seq<char>, text: Seq<char>)
    ensures
        coerced(spec.kind, v.value) is Some ==> coerce_diagnostics(owner, spec, v, path, text).len() == 0,
        coerced(spec.kind, v.value) is None ==> coerce_diagnostics(owner, spec, v, path, text).len() == 1
            && coerce_diagnostics(owner, spec, v, path, text)[0].level == Level::Error,
{
}

/// True if `spec`'s parameter is written with a value that does not coerce.
pub open spec fn rejected_param(spec: ParamSpec, written: Seq<(Seq<char>, Sourced)>) -> bool {
    lookup(written, spec.key@) matches Some(w) && coerced(spec.kind, w.raw@.value) is None
}

/// Problems are collected, not cut short: every written key that no
/// parameter declares gets one warning, and every declared parameter whose
/// written value is rejected gets one error, however many there are.
pub proof fn problems_are_collected(
    owner: Seq<char>,
    specs: Seq<ParamSpec>,
    written: Seq<(Seq<char>, Sourced)>,
    files: Seq<ConfigSource>,
)
    ensures
        unknown_key_diagnostics(owner, param_keys(specs), written, files).len() == written.filter(
            |w: (Seq<char>, Sourced)| !param_keys(specs).contains(w.0),
        ).len(),
        forall|i: int|
            0 <= i < unknown_key_diagnostics(owner, param_keys(specs), written, files).len()
                ==> (#[trigger] unknown_key_diagnostics(owner, param_keys(specs), written, files)[i]).level
                == Level::Warning,
        params_diagnostics(owner, specs, written, files).len() == specs.filter(
            |sp: ParamSpec| rejected_param(sp, written),
        ).len(),
        forall|i: int|
            0 <= i < params_diagnostics(owner, specs, written, files).len()
                ==> (#[trigger] params_diagnostics(owner, specs, written, files)[i]).level == Level::Error,
{
    lemma_unknown_keys_counted(owner, param_keys(specs), written, files);
    lemma_params_errors_counted(owner, specs, written, files);
}

proof fn lemma_unknown_keys_counted(
    owner: Seq<char>,
    keys: Seq<Seq<char>>,
    written: Seq<(Seq<char>, Sourced)>,
    files: Seq<ConfigSource>,
)
    ensures
        unknown_key_diagnostics(owner, keys, written, files).len() == written.filter(
            |w: (Seq<char>, Sourced)| !keys.contains(w.0),
        ).len(),
        forall|i: int|
            0 <= i < unknown_key_diagnostics(owner, keys, written, files).len()
                ==> (#[trigger] unknown_key_diagnostics(owner, keys, written, files)[i]).level
                == Level::Warning,
    decreases written.len(),
{
    if written.len() > 0 {
        let rest = written.drop_last();
        lemma_unknown_keys_counted(owner, keys, rest, files);
        let f = |w: (Seq<char>, Sourced)| !keys.contains(w.0);
        reveal(Seq::filter);
        assert(written.filter(f) == if f(written.last()) {
            rest.filter(f).push(written.last())
        } else {
            rest.filter(f)
        });
        let d = unknown_key_diagnostics(owner, keys, written, files);
        let d0 = unknown_key_diagnostics(owner, keys, rest, files);
        assert forall|i: int| 0 <= i < d.len() implies (#[trigger] d[i]).level == Level::Warning by {
            if i < d0.len() {
                assert(d[i] == d0[i]);
            }
        }
    }
}

proof fn lemma_params_errors_counted(
    owner: Seq<char>,
    specs: Seq<ParamSpec>,
    written: Seq<(Seq<char>, Sourced)>,
    files: Seq<ConfigSource>,
)
    ensures
        params_diagnostics(owner, specs, written, files).len() == specs.filter(
            |sp: ParamSpec| rejected_param(sp, written),
        ).len(),
        forall|i: int|
            0 <= i < params_diagnostics(owner, specs, written, files).len()
                ==> (#[trigger] params_diagnostics(owner, specs, written, files)[i]).level == Level::Error,
    decreases specs.len(),
{
    if specs.len() > 0 {
        let rest = specs.drop_last();
        lemma_params_errors_counted(owner, rest, written, files);
        let f = |sp: ParamSpec| rejected_param(sp, written);
        reveal(Seq::filter);
        assert(specs.filter(f) == if f(specs.last()) {
            rest.filter(f).push(specs.last())
        } else {
            rest.filter(f)
        });
        let last = specs.last();
        match lookup(written, last.key@) {
            Some(w) => rejected_value_is_one_error(
                owner,
                last,
                w.raw@,
                files[w.file as int].path@,
                files[w.file as int].text@,
            ),
            None => {},
        }
        let d = params_diagnostics(owner, specs, written, files);
        let d0 = params_diagnostics(owner, rest, written, files);
        let e = param_diagnostics(owner, last, written, files);
        assert(d == d0 + e);
        assert forall|i: int| 0 <= i < d.len() implies (#[trigger] d[i]).level == Level::Error by {
            if i < d0.len() {
                assert(d[i] == d0[i]);
            } else {
                assert(d[i] == e[i - d0.len()]);
            }
        }
    }
}

/// What a cop reads through its parameter handle is what validation
/// resolved: each declared parameter reads back as its resolved value, with
/// the accessor of its kind.
pub proof fn params_read_back_what_was_resolved(c: MergedCop, s: CopSettings, files: Seq<ConfigSource>, i: int)
    requires
        settings_resolved(c, s, files),
        0 <= i < c.decl.params@.len(),
        last_with_key(c.decl.params@, i),
    ensures
        ({
            let spec = c.decl.params@[i];
            let specs = c.decl.params@;
            match param_value(spec, c.params@) {
                ValueModel::Uint(v) => spec.kind is Uint && read_uint(s.params@, specs, spec.key@) == v,
                ValueModel::Bool(v) => spec.kind is Bool && read_bool(s.params@, specs, spec.key@) == v,
                ValueModel::Str(v) => (spec.kind is Str || spec.kind is Enum) && read_str(s.params@, specs, spec.key@)
                    == v,
                ValueModel::StrList(v) => spec.kind is StrList && read_str_list(s.params@, specs, spec.key@) == v,
            }
        }),
{
    let spec = c.decl.params@[i];
    let v = lookup(s.params@, spec.key@)->0;
    assert(v@ == param_value(spec, c.params@));
}

} // verus!
