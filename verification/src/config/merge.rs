//! Layering the configuration file over the registry defaults.
//!
//! Precedence, lowest to highest: the declared defaults from the registry, then
//! the `[defaults]` section of the configuration file, then the file's entry
//! for the cop, then the command line.
//!
//! List parameters *replace* rather than append. A `StrList` set in the
//! configuration file discards the declared default entirely.

use core::ops::Range;

use vstd::prelude::*;

use crate::config::diagnostics::{
    placed, plain, suggested, DiagnosticBuilder, DiagnosticModel, Diagnostics, Level,
};
use crate::config::raw::{
    blame_key_of, blame_value_of, cops_model, family_ok, opt_model, opt_raw_locatable,
    parsed_type_name, raw_cop_ok, raw_entry, raw_locatable, raw_wf, values_model, values_ok,
    ParsedModel, ParsedValue, RawConfig, RawConfigModel, RawCop, RawCopModel, RawModel, RawValue,
};
use crate::config::resolved::{
    origin_at, severity_names, spec_parse_severity, parse_severity, Origin, OriginModel,
};
use crate::config::spec::decl_qualified;
use crate::config::source::ConfigSource;
use crate::config::spec::CopDecl;
use crate::keyed::{
    has_key, text_lt, lemma_insert_entry, lemma_lookup_has, lemma_lookup_position,
    lemma_lookup_push, lemma_sorted_fresh, lemma_sorted_lookup, lookup, sorted_keys, TextMap,
};
use crate::linter::cop::{category_name, lemma_category_names, spec_parse_category, Category};
use crate::linter::finding::Severity;
use crate::text::{borrow_all, concat2, concat3, concat5, str_eq, str_views};

verus! {

/// A value carried through merging together with the file it came from.
#[derive(Debug)]
pub struct Sourced {
    /// The value as written.
    pub raw: RawValue,
    /// Index into [`Merged::files`] identifying the file it came from.
    pub file: usize,
}

/// One cop's state part-way through resolution.
#[derive(Debug)]
pub struct MergedCop {
    /// The cop's declaration.
    pub decl: &'static CopDecl,
    /// Whether the cop should run.
    pub enabled: bool,
    /// Where `enabled` came from.
    pub enabled_origin: Origin,
    /// Severity for this cop's findings.
    pub severity: Severity,
    /// Where `severity` came from.
    pub severity_origin: Origin,
    /// Parameters as written, still text-keyed and unchecked.
    pub params: TextMap<String, Sourced>,
}

/// The merged configuration, before parameter types have been checked.
#[derive(Debug)]
pub struct Merged {
    /// Every file that contributed, for resolving diagnostics back to source.
    pub files: Vec<ConfigSource>,
    /// The `[globals]` section as written.
    pub globals: TextMap<String, Sourced>,
    /// Every registered cop, keyed by [`cop_key`]: ordered by family, then
    /// by name.
    pub cops: TextMap<String, MergedCop>,
}

/// Overrides supplied on the command line.
#[derive(Debug, Clone, Default)]
pub struct CliOverrides {
    /// Run only these cops. Each entry is a qualified name such as
    /// `Naming/RuleNameLength`, or a bare family such as `Naming`.
    pub only: Vec<String>,
    /// Run everything except these cops, in the same format as `only`.
    pub except: Vec<String>,
}

impl CliOverrides {
    /// True if neither list was supplied.
    pub fn is_empty(&self) -> (res: bool)
        ensures
            res == (self.only@.len() == 0 && self.except@.len() == 0),
    {
        self.only.len() == 0 && self.except.len() == 0
    }
}

/// The single character that orders a family among the others.
pub open spec fn rank_char(c: Category) -> char {
    match c {
        Category::Lint => '0',
        Category::Logic => '1',
        Category::Naming => '2',
        Category::Style => '3',
    }
}

/// The key under which a cop is registered: its family's rank character
/// followed by its name. Keys order cops by family, then by name.
pub open spec fn cop_key(category: Category, name: Seq<char>) -> Seq<char> {
    seq![rank_char(category)] + name
}

/// The key of a declaration.
pub open spec fn decl_key(d: CopDecl) -> Seq<char> {
    cop_key(d.category, d.name@)
}

/// Cop keys identify family and name.
pub proof fn lemma_cop_key_injective(c1: Category, n1: Seq<char>, c2: Category, n2: Seq<char>)
    ensures
        cop_key(c1, n1) == cop_key(c2, n2) <==> (c1 == c2 && n1 == n2),
{
    if cop_key(c1, n1) == cop_key(c2, n2) {
        assert(cop_key(c1, n1)[0] == cop_key(c2, n2)[0]);
        assert(n1 =~= cop_key(c1, n1).drop_first());
        assert(n2 =~= cop_key(c2, n2).drop_first());
    }
}

/// Build the key under which a cop is registered.
pub fn make_cop_key(category: Category, name: &str) -> (res: String)
    ensures
        res@ == cop_key(category, name@),
{
    let rank: &str = match category {
        Category::Lint => "0",
        Category::Logic => "1",
        Category::Naming => "2",
        Category::Style => "3",
    };
    proof {
        reveal_strlit("0");
        reveal_strlit("1");
        reveal_strlit("2");
        reveal_strlit("3");
    }
    let res = concat2(rank, name);
    assert(res@ =~= cop_key(category, name@));
    res
}

/// True if `d` is the last declaration in `decls` with its key.
pub open spec fn last_declared(decls: Seq<CopDecl>, d: CopDecl) -> bool {
    exists|j: int|
        0 <= j < decls.len() && decls[j] == d && forall|k: int|
            j < k < decls.len() ==> decl_key(#[trigger] decls[k]) != decl_key(d)
}

/// True if `c` is a cop freshly registered from `decls`: its declared
/// defaults, nothing written yet.
pub open spec fn fresh_cop(decls: Seq<CopDecl>, key: Seq<char>, c: MergedCop) -> bool {
    &&& key == decl_key(*c.decl)
    &&& last_declared(decls, *c.decl)
    &&& c.enabled == c.decl.default_enabled
    &&& c.enabled_origin@ == OriginModel::Default
    &&& c.severity == c.decl.default_severity
    &&& c.severity_origin@ == OriginModel::Default
    &&& c.params@.len() == 0
}

/// True if `cops` registers exactly the cops of `decls`, fresh.
pub open spec fn registers(decls: Seq<CopDecl>, cops: Seq<(Seq<char>, MergedCop)>) -> bool {
    &&& sorted_keys(cops)
    &&& forall|i: int| 0 <= i < cops.len() ==> fresh_cop(decls, cops[i].0, #[trigger] cops[i].1)
    &&& forall|j: int| 0 <= j < decls.len() ==> has_key(cops, decl_key(#[trigger] decls[j]))
}

/// True if `m` is the starting state for `decls`: no files, no globals, and
/// every declared cop registered fresh.
pub open spec fn base_state(decls: Seq<CopDecl>, m: Merged) -> bool {
    &&& m.files@.len() == 0
    &&& m.globals@.len() == 0
    &&& registers(decls, m.cops@)
    &&& merged_wf(m)
}

/// Build the starting state from the registry.
///
/// Every registered cop is present with its declared defaults. When two
/// declarations share a family and name, the later one wins. Parameters start
/// empty; validation fills in the ones the user did not set.
pub fn base(decls: &'static [CopDecl]) -> (res: Merged)
    ensures
        base_state(decls@, res),
{
    let mut cops: TextMap<String, MergedCop> = TextMap::new();
    let mut i: usize = 0;
    while i < decls.len()
        invariant
            i <= decls@.len(),
            registers(decls@.take(i as int), cops@),
        decreases decls@.len() - i,
    {
        let decl: &'static CopDecl = &decls[i];
        let key = make_cop_key(decl.category, decl.name);
        let cop = MergedCop {
            decl,
            enabled: decl.default_enabled,
            enabled_origin: Origin::Default,
            severity: decl.default_severity,
            severity_origin: Origin::Default,
            params: TextMap::new(),
        };
        let ghost before = cops@;
        let ghost t = decls@.take(i + 1);
        proof {
            lemma_insert_entry(before, key@, cop);
            assert(t.drop_last() =~= decls@.take(i as int));
            assert(t[i as int] == *decl);
        }
        cops.insert(key, cop);
        proof {
            let after = cops@;
            assert forall|a: int| 0 <= a < after.len() implies fresh_cop(t, after[a].0, #[trigger] after[a].1) by {
                lemma_sorted_lookup(after, a);
                let ka = after[a].0;
                if ka == key@ {
                    assert(after[a].1 == cop);
                    assert(t[i as int] == *decl);
                } else {
                    lemma_lookup_has(after, ka);
                    lemma_lookup_has(before, ka);
                    lemma_lookup_position(before, ka);
                    let b = choose|b: int| 0 <= b < before.len() && before[b].0 == ka && lookup(before, ka) == Some(before[b].1);
                    assert(fresh_cop(t.drop_last(), before[b].0, before[b].1));
                    let d = *before[b].1.decl;
                    let j = choose|j: int|
                        0 <= j < t.drop_last().len() && t.drop_last()[j] == d && forall|k: int|
                            j < k < t.drop_last().len() ==> decl_key(#[trigger] t.drop_last()[k]) != decl_key(d);
                    assert(t[j] == d);
                    assert forall|k: int| j < k < t.len() implies decl_key(#[trigger] t[k]) != decl_key(d) by {
                        if k < i {
                            assert(t[k] == t.drop_last()[k]);
                        }
                    }
                }
            }
            assert forall|j: int| 0 <= j < t.len() implies has_key(after, decl_key(#[trigger] t[j])) by {
                let k = decl_key(t[j]);
                lemma_lookup_has(after, k);
                lemma_lookup_has(before, k);
                if j < i {
                    assert(t[j] == t.drop_last()[j]);
                }
            }
        }
        i = i + 1;
    }
    assert(decls@.take(i as int) =~= decls@);
    let res = Merged { files: Vec::new(), globals: TextMap::new(), cops };
    assert forall|i: int| 0 <= i < res.cops@.len() implies (#[trigger] res.cops@[i]).0 == decl_key(*res.cops@[i].1.decl)
        && sourced_map_ok(res.cops@[i].1.params@, res.files@) by {
        assert(fresh_cop(decls@, res.cops@[i].0, res.cops@[i].1));
    }
    res
}

// ---------------------------------------------------------------------------
// Checking framework keys
// ---------------------------------------------------------------------------

/// The boolean a written value holds, if it is one.
pub open spec fn bool_of(v: ParsedModel) -> Option<bool> {
    match v {
        ParsedModel::Bool(b) => Some(b),
        _ => None,
    }
}

/// The severity a written value names, if it is a string naming one.
pub open spec fn severity_of(v: ParsedModel) -> Option<Severity> {
    match v {
        ParsedModel::Str(name) => spec_parse_severity(name),
        _ => None,
    }
}

/// The error reported for a framework key that is not a boolean.
pub open spec fn not_bool_diagnostic(key: Seq<char>, v: RawModel, source: ConfigSource) -> DiagnosticModel {
    placed(
        plain(Level::Error, "`"@ + key + "` must be a boolean, found "@ + parsed_type_name(v.value)),
        source.path@,
        source.text@,
        blame_value_of(v),
    )
}

/// The diagnostics reported for a `severity` value: none if it names a
/// severity, otherwise one error.
pub open spec fn severity_diagnostics(v: RawModel, source: ConfigSource) -> Seq<DiagnosticModel> {
    match v.value {
        ParsedModel::Str(name) => match spec_parse_severity(name) {
            Some(_) => seq![],
            None => seq![
                suggested(
                    placed(
                        plain(Level::Error, "`"@ + name + "` is not a severity"@),
                        source.path@,
                        source.text@,
                        blame_value_of(v),
                    ),
                    name,
                    seq!["info"@, "warning"@, "error"@],
                ),
            ],
        },
        other => seq![
            placed(
                plain(Level::Error, "`severity` must be a string, found "@ + parsed_type_name(other)),
                source.path@,
                source.text@,
                blame_value_of(v),
            ),
        ],
    }
}

/// The diagnostics reported for an `enabled` value: none if it is a
/// boolean, otherwise one error.
pub open spec fn enabled_diagnostics(v: RawModel, source: ConfigSource) -> Seq<DiagnosticModel> {
    match v.value {
        ParsedModel::Bool(_) => seq![],
        _ => seq![not_bool_diagnostic("enabled"@, v, source)],
    }
}

/// Require that a raw value is a boolean.
fn expect_bool(value: &RawValue, key: &str, source: &ConfigSource, diagnostics: &mut Diagnostics) -> (res: Option<bool>)
    requires
        raw_locatable(value@, source.text@),
    ensures
        res == bool_of(value@.value),
        res is Some ==> final(diagnostics)@ == old(diagnostics)@,
        res is None ==> final(diagnostics)@ == old(diagnostics)@.push(
            not_bool_diagnostic(key@, value@, *source),
        ),
{
    match &value.value {
        ParsedValue::Bool(flag) => Some(*flag),
        other => {
            let mut message = concat3("`", key, "` must be a boolean, found ");
            message.append(other.type_label());
            DiagnosticBuilder::error(message).at(
                source.path.as_str(),
                source.text.as_str(),
                value.blame_value(),
            ).emit(diagnostics);
            None
        },
    }
}

/// Require that a raw value names a severity.
fn expect_severity(value: &RawValue, source: &ConfigSource, diagnostics: &mut Diagnostics) -> (res: Option<Severity>)
    requires
        raw_locatable(value@, source.text@),
    ensures
        res == severity_of(value@.value),
        final(diagnostics)@ == old(diagnostics)@ + severity_diagnostics(value@, *source),
{
    match &value.value {
        ParsedValue::Str(name) => match parse_severity(name.as_str()) {
            Some(severity) => {
                assert(old(diagnostics)@ + severity_diagnostics(value@, *source) =~= old(diagnostics)@);
                Some(severity)
            },
            None => {
                let names = severity_names();
                assert(str_views(names@) =~= seq!["info"@, "warning"@, "error"@]);
                DiagnosticBuilder::error(concat3("`", name.as_str(), "` is not a severity")).at(
                    source.path.as_str(),
                    source.text.as_str(),
                    value.blame_value(),
                ).suggest(name.as_str(), names).emit(diagnostics);
                None
            },
        },
        other => {
            let mut message = "`severity` must be a string, found ".to_owned();
            message.append(other.type_label());
            DiagnosticBuilder::error(message).at(
                source.path.as_str(),
                source.text.as_str(),
                value.blame_value(),
            ).emit(diagnostics);
            None
        },
    }
}

/// True if a selector names the cop `d`, by qualified name or by family.
pub open spec fn selects(selector: Seq<char>, d: CopDecl) -> bool {
    selector == decl_qualified(d) || selector == category_name(d.category)
}

/// True if any of `selectors` names the cop `d`.
pub open spec fn matches_any_spec(d: CopDecl, selectors: Seq<String>) -> bool {
    exists|i: int| 0 <= i < selectors.len() && selects(#[trigger] selectors[i]@, d)
}

/// True if any selector names this cop, either by qualified name or by
/// family.
fn matches_any(decl: &CopDecl, selectors: &Vec<String>) -> (res: bool)
    ensures
        res == matches_any_spec(*decl, selectors@),
{
    let qualified = decl.qualified_name();
    let category = decl.category.name();
    let mut i: usize = 0;
    while i < selectors.len()
        invariant
            i <= selectors@.len(),
            qualified@ == decl_qualified(*decl),
            category@ == category_name(decl.category),
            forall|j: int| 0 <= j < i ==> !selects(#[trigger] selectors@[j]@, *decl),
        decreases selectors@.len() - i,
    {
        if str_eq(selectors[i].as_str(), qualified.as_str()) || str_eq(selectors[i].as_str(), category) {
            assert(selects(selectors@[i as int]@, *decl));
            return true;
        }
        i = i + 1;
    }
    false
}

// ---------------------------------------------------------------------------
// Well-formedness
// ---------------------------------------------------------------------------

/// True if `s` names one of `files` and its spans can be located there.
pub open spec fn sourced_ok(s: Sourced, files: Seq<ConfigSource>) -> bool {
    &&& s.file < files.len()
    &&& raw_locatable(s.raw@, files[s.file as int].text@)
}

/// True if the values of `m` are sorted by key and each is [`sourced_ok`].
pub open spec fn sourced_map_ok(m: Seq<(Seq<char>, Sourced)>, files: Seq<ConfigSource>) -> bool {
    &&& sorted_keys(m)
    &&& forall|i: int| 0 <= i < m.len() ==> sourced_ok(#[trigger] m[i].1, files)
}

/// True if the cops are sorted by key, each under its own key, with every
/// written parameter traceable to one of `files`.
pub open spec fn cops_ok(cops: Seq<(Seq<char>, MergedCop)>, files: Seq<ConfigSource>) -> bool {
    &&& sorted_keys(cops)
    &&& forall|i: int|
        0 <= i < cops.len() ==> (#[trigger] cops[i]).0 == decl_key(*cops[i].1.decl)
            && sourced_map_ok(cops[i].1.params@, files)
}

/// The invariant of a merged state: keys sorted, each cop under its own key,
/// and every written value traceable to a file.
pub open spec fn merged_wf(m: Merged) -> bool {
    &&& sourced_map_ok(m.globals@, m.files@)
    &&& cops_ok(m.cops@, m.files@)
}

/// True if `b` holds the files of `a`, then possibly more.
pub open spec fn files_extend(a: Seq<ConfigSource>, b: Seq<ConfigSource>) -> bool {
    a.len() <= b.len() && forall|i: int| 0 <= i < a.len() ==> #[trigger] b[i] == a[i]
}

/// Values traceable to some files stay traceable when more files are added.
pub proof fn lemma_files_extend(m: Merged, files: Seq<ConfigSource>)
    requires
        merged_wf(m),
        files_extend(m.files@, files),
    ensures
        sourced_map_ok(m.globals@, files),
        cops_ok(m.cops@, files),
{
    assert forall|i: int| 0 <= i < m.globals@.len() implies sourced_ok(#[trigger] m.globals@[i].1, files) by {
        assert(sourced_ok(m.globals@[i].1, m.files@));
        assert(files[m.globals@[i].1.file as int] == m.files@[m.globals@[i].1.file as int]);
    }
    assert forall|i: int| 0 <= i < m.cops@.len() implies (#[trigger] m.cops@[i]).0 == decl_key(*m.cops@[i].1.decl)
        && sourced_map_ok(m.cops@[i].1.params@, files) by {
        let p = m.cops@[i].1.params@;
        assert(sourced_map_ok(p, m.files@));
        assert forall|j: int| 0 <= j < p.len() implies sourced_ok(#[trigger] p[j].1, files) by {
            assert(sourced_ok(p[j].1, m.files@));
            assert(files[p[j].1.file as int] == m.files@[p[j].1.file as int]);
        }
    }
}

/// What a written `enabled` value sets, if it is a boolean: the flag and the
/// value it came from.
pub open spec fn enabled_setting(v: Option<RawModel>) -> Option<(bool, RawModel)> {
    match v {
        Some(r) => match bool_of(r.value) {
            Some(b) => Some((b, r)),
            None => None,
        },
        None => None,
    }
}

/// What a written `severity` value sets, if it names a severity.
pub open spec fn severity_setting(v: Option<RawModel>) -> Option<(Severity, RawModel)> {
    match v {
        Some(r) => match severity_of(r.value) {
            Some(s) => Some((s, r)),
            None => None,
        },
        None => None,
    }
}

/// The diagnostics for an optional `enabled` value.
pub open spec fn opt_enabled_diagnostics(v: Option<RawModel>, source: ConfigSource) -> Seq<DiagnosticModel> {
    match v {
        Some(r) => enabled_diagnostics(r, source),
        None => seq![],
    }
}

/// The diagnostics for an optional `severity` value.
pub open spec fn opt_severity_diagnostics(v: Option<RawModel>, source: ConfigSource) -> Seq<DiagnosticModel> {
    match v {
        Some(r) => severity_diagnostics(r, source),
        None => seq![],
    }
}

/// True if `after` is `before` with only `enabled` and its origin changed
/// to the given ones.
pub open spec fn with_enabled(before: MergedCop, after: MergedCop, enabled: bool, origin: OriginModel) -> bool {
    &&& after.decl == before.decl
    &&& after.params == before.params
    &&& after.severity == before.severity
    &&& after.severity_origin == before.severity_origin
    &&& after.enabled == enabled
    &&& after.enabled_origin@ == origin
}

/// True if `after` is `before` with only `severity` and its origin changed
/// to the given ones.
pub open spec fn with_severity(before: MergedCop, after: MergedCop, severity: Severity, origin: OriginModel) -> bool {
    &&& after.decl == before.decl
    &&& after.params == before.params
    &&& after.enabled == before.enabled
    &&& after.enabled_origin == before.enabled_origin
    &&& after.severity == severity
    &&& after.severity_origin@ == origin
}

/// The `enabled` a setting leaves: the one it sets, else `current`.
pub open spec fn enabled_after(setting: Option<(bool, RawModel)>, current: bool) -> bool {
    match setting {
        Some((b, _)) => b,
        None => current,
    }
}

/// The origin of `enabled` a setting leaves.
pub open spec fn enabled_origin_after(setting: Option<(bool, RawModel)>, current: OriginModel, source: ConfigSource) -> OriginModel {
    match setting {
        Some((_, v)) => origin_at(source.path@, source.text@, blame_value_of(v)),
        None => current,
    }
}

/// The severity a setting leaves: the one it sets, else `current`.
pub open spec fn severity_after(setting: Option<(Severity, RawModel)>, current: Severity) -> Severity {
    match setting {
        Some((s, _)) => s,
        None => current,
    }
}

/// The origin of `severity` a setting leaves.
pub open spec fn severity_origin_after(setting: Option<(Severity, RawModel)>, current: OriginModel, source: ConfigSource) -> OriginModel {
    match setting {
        Some((_, v)) => origin_at(source.path@, source.text@, blame_value_of(v)),
        None => current,
    }
}

/// True if `after` is `before` with the `[defaults]` section's settings laid
/// over every cop.
pub open spec fn defaults_applied(before: MergedCop, after: MergedCop, enabled: Option<RawModel>, severity: Option<RawModel>, source: ConfigSource) -> bool {
    &&& after.decl == before.decl
    &&& after.params == before.params
    &&& after.enabled == enabled_after(enabled_setting(enabled), before.enabled)
    &&& after.enabled_origin@ == enabled_origin_after(enabled_setting(enabled), before.enabled_origin@, source)
    &&& after.severity == severity_after(severity_setting(severity), before.severity)
    &&& after.severity_origin@ == severity_origin_after(severity_setting(severity), before.severity_origin@, source)
}

/// The same keys in the same order.
pub open spec fn same_keys<A, B>(a: Seq<(Seq<char>, A)>, b: Seq<(Seq<char>, B)>) -> bool {
    a.len() == b.len() && forall|i: int| 0 <= i < a.len() ==> #[trigger] a[i].0 == b[i].0
}

/// Set every cop's `enabled` and its origin.
fn set_all_enabled(cops: &mut TextMap<String, MergedCop>, enabled: bool, origin: &Origin)
    ensures
        same_keys(old(cops)@, final(cops)@),
        forall|i: int|
            0 <= i < old(cops)@.len() ==> with_enabled(old(cops)@[i].1, #[trigger] final(cops)@[i].1, enabled, origin@),
{
    let ghost start = cops@;
    let mut i: usize = 0;
    while i < cops.len()
        invariant
            same_keys(start, cops@),
            i <= start.len(),
            forall|j: int| 0 <= j < i ==> with_enabled(start[j].1, #[trigger] cops@[j].1, enabled, origin@),
            forall|j: int| i <= j < start.len() ==> #[trigger] cops@[j].1 == start[j].1,
        decreases start.len() - i,
    {
        let cop = cops.value_mut(i);
        cop.enabled = enabled;
        cop.enabled_origin = origin.duplicate();
        i = i + 1;
    }
}

/// Set every cop's `severity` and its origin.
fn set_all_severity(cops: &mut TextMap<String, MergedCop>, severity: Severity, origin: &Origin)
    ensures
        same_keys(old(cops)@, final(cops)@),
        forall|i: int|
            0 <= i < old(cops)@.len() ==> with_severity(old(cops)@[i].1, #[trigger] final(cops)@[i].1, severity, origin@),
{
    let ghost start = cops@;
    let mut i: usize = 0;
    while i < cops.len()
        invariant
            same_keys(start, cops@),
            i <= start.len(),
            forall|j: int| 0 <= j < i ==> with_severity(start[j].1, #[trigger] cops@[j].1, severity, origin@),
            forall|j: int| i <= j < start.len() ==> #[trigger] cops@[j].1 == start[j].1,
        decreases start.len() - i,
    {
        let cop = cops.value_mut(i);
        cop.severity = severity;
        cop.severity_origin = origin.duplicate();
        i = i + 1;
    }
}

/// Apply the `[defaults]` section to every cop.
fn apply_defaults(
    cops: &mut TextMap<String, MergedCop>,
    enabled: &Option<RawValue>,
    severity: &Option<RawValue>,
    source: &ConfigSource,
    diagnostics: &mut Diagnostics,
)
    requires
        opt_raw_locatable(opt_model(*enabled), source.text@),
        opt_raw_locatable(opt_model(*severity), source.text@),
    ensures
        same_keys(old(cops)@, final(cops)@),
        forall|i: int|
            0 <= i < old(cops)@.len() ==> defaults_applied(
                old(cops)@[i].1,
                #[trigger] final(cops)@[i].1,
                opt_model(*enabled),
                opt_model(*severity),
                *source,
            ),
        final(diagnostics)@ == old(diagnostics)@ + opt_enabled_diagnostics(opt_model(*enabled), *source)
            + opt_severity_diagnostics(opt_model(*severity), *source),
{
    let ghost start = cops@;
    let ghost d0 = diagnostics@;
    if let Some(value) = enabled {
        if let Some(flag) = expect_bool(value, "enabled", source, diagnostics) {
            let origin = Origin::from_span(source.path.as_str(), source.text.as_str(), value.blame_value());
            set_all_enabled(cops, flag, &origin);
        }
    }
    let ghost mid = cops@;
    let ghost d1 = diagnostics@;
    assert(d1 =~= d0 + opt_enabled_diagnostics(opt_model(*enabled), *source));
    if let Some(value) = severity {
        if let Some(level) = expect_severity(value, source, diagnostics) {
            let origin = Origin::from_span(source.path.as_str(), source.text.as_str(), value.blame_value());
            set_all_severity(cops, level, &origin);
        }
    }
    assert(diagnostics@ =~= d1 + opt_severity_diagnostics(opt_model(*severity), *source));
    assert forall|i: int| 0 <= i < start.len() implies defaults_applied(
        start[i].1,
        #[trigger] cops@[i].1,
        opt_model(*enabled),
        opt_model(*severity),
        *source,
    ) by {
        assert(mid[i].0 == start[i].0);
    }
}

// ---------------------------------------------------------------------------
// Command line
// ---------------------------------------------------------------------------

/// The qualified names of the registered cops, in order.
pub open spec fn qualified_names(cops: Seq<(Seq<char>, MergedCop)>) -> Seq<Seq<char>> {
    cops.map_values(|e: (Seq<char>, MergedCop)| decl_qualified(*e.1.decl))
}

/// `names` followed by the family of each cop of `cops` not already listed,
/// in cop order.
pub open spec fn with_families(names: Seq<Seq<char>>, cops: Seq<(Seq<char>, MergedCop)>) -> Seq<Seq<char>>
    decreases cops.len(),
{
    if cops.len() == 0 {
        names
    } else {
        let before = with_families(names, cops.drop_last());
        let family = category_name(cops.last().1.decl.category);
        if before.contains(family) {
            before
        } else {
            before.push(family)
        }
    }
}

/// Everything a command-line selector may name: every qualified cop name,
/// then every family.
pub open spec fn known_selectors(cops: Seq<(Seq<char>, MergedCop)>) -> Seq<Seq<char>> {
    with_families(qualified_names(cops), cops)
}

/// The warnings for the selectors that name nothing, in order.
pub open spec fn selector_diagnostics(selectors: Seq<Seq<char>>, known: Seq<Seq<char>>) -> Seq<DiagnosticModel>
    decreases selectors.len(),
{
    if selectors.len() == 0 {
        seq![]
    } else {
        let s = selectors.last();
        selector_diagnostics(selectors.drop_last(), known) + if known.contains(s) {
            seq![]
        } else {
            seq![
                suggested(
                    plain(Level::Warning, "unknown cop selector `"@ + s + "`"@),
                    s,
                    known,
                ),
            ]
        }
    }
}

/// Whether a cop runs after the command line is applied: `except` switches it
/// off; otherwise a non-empty `only` decides; otherwise it is unchanged.
pub open spec fn cli_enabled(d: CopDecl, current: bool, cli: CliOverrides) -> bool {
    if matches_any_spec(d, cli.except@) {
        false
    } else if cli.only@.len() > 0 {
        matches_any_spec(d, cli.only@)
    } else {
        current
    }
}

/// Where `enabled` comes from after the command line is applied.
pub open spec fn cli_enabled_origin(d: CopDecl, current: OriginModel, cli: CliOverrides) -> OriginModel {
    if matches_any_spec(d, cli.except@) || cli.only@.len() > 0 {
        OriginModel::CommandLine
    } else {
        current
    }
}

/// True if `list` holds a string equal to `s`.
fn lists_string(list: &Vec<String>, s: &str) -> (res: bool)
    ensures
        res == list.deep_view().contains(s@),
{
    let mut i: usize = 0;
    while i < list.len()
        invariant
            i <= list@.len(),
            forall|j: int| 0 <= j < i ==> #[trigger] list@[j]@ != s@,
        decreases list@.len() - i,
    {
        if str_eq(list[i].as_str(), s) {
            assert(list.deep_view()[i as int] == s@);
            return true;
        }
        i = i + 1;
    }
    assert(!list.deep_view().contains(s@)) by {
        if list.deep_view().contains(s@) {
            let j = choose|j: int| 0 <= j < list.deep_view().len() && list.deep_view()[j] == s@;
            assert(list@[j]@ == s@);
        }
    }
    false
}

/// The qualified names of the registered cops, in order, as owned strings.
fn qualified_list(cops: &TextMap<String, MergedCop>) -> (res: Vec<String>)
    ensures
        res.deep_view() == qualified_names(cops@),
{
    let mut names: Vec<String> = Vec::new();
    let mut i: usize = 0;
    while i < cops.len()
        invariant
            i <= cops@.len(),
            names.deep_view() =~= qualified_names(cops@.take(i as int)),
        decreases cops@.len() - i,
    {
        let q = cops.value_at(i).decl.qualified_name();
        proof {
            assert(qualified_names(cops@.take(i + 1)) =~= qualified_names(cops@.take(i as int)).push(
                decl_qualified(*cops@[i as int].1.decl),
            ));
        }
        names.push(q);
        i = i + 1;
    }
    assert(cops@.take(i as int) =~= cops@);
    names
}

/// Append the family of each registered cop not already in `names`.
fn add_families(names: &mut Vec<String>, cops: &TextMap<String, MergedCop>)
    ensures
        final(names).deep_view() == with_families(old(names).deep_view(), cops@),
{
    let ghost q = names.deep_view();
    let mut k: usize = 0;
    assert(cops@.take(0).len() == 0);
    while k < cops.len()
        invariant
            k <= cops@.len(),
            names.deep_view() == with_families(q, cops@.take(k as int)),
        decreases cops@.len() - k,
    {
        let family = cops.value_at(k).decl.category.name();
        proof {
            let t = cops@.take(k + 1);
            assert(t.drop_last() =~= cops@.take(k as int));
        }
        if !lists_string(names, family) {
            names.push(family.to_owned());
            assert(names.deep_view() =~= with_families(q, cops@.take(k as int)).push(family@));
        }
        k = k + 1;
    }
    assert(cops@.take(k as int) =~= cops@);
}

/// Everything a command-line selector may name, as owned strings.
fn known_selector_list(cops: &TextMap<String, MergedCop>) -> (res: Vec<String>)
    ensures
        res.deep_view() == known_selectors(cops@),
{
    let mut names = qualified_list(cops);
    add_families(&mut names, cops);
    names
}

/// The family of every registered cop, once each, in cop order.
fn family_list(cops: &TextMap<String, MergedCop>) -> (res: Vec<String>)
    ensures
        res.deep_view() == with_families(seq![], cops@),
{
    let mut names: Vec<String> = Vec::new();
    assert(names.deep_view() =~= Seq::<Seq<char>>::empty());
    add_families(&mut names, cops);
    names
}

/// Warn about every selector in `selectors` that names nothing in `known`.
fn warn_unknown_selectors(selectors: &Vec<String>, known: &Vec<String>, diagnostics: &mut Diagnostics)
    ensures
        final(diagnostics)@ == old(diagnostics)@ + selector_diagnostics(selectors.deep_view(), known.deep_view()),
{
    let refs = borrow_all(known);
    let ghost d0 = diagnostics@;
    let mut i: usize = 0;
    assert(selectors.deep_view().take(0).len() == 0);
    assert(d0 + selector_diagnostics(selectors.deep_view().take(0), known.deep_view()) =~= d0);
    while i < selectors.len()
        invariant
            i <= selectors@.len(),
            str_views(refs@) == known.deep_view(),
            diagnostics@ == d0 + selector_diagnostics(selectors.deep_view().take(i as int), known.deep_view()),
        decreases selectors@.len() - i,
    {
        let selector = selectors[i].as_str();
        proof {
            let t = selectors.deep_view().take(i + 1);
            assert(t.drop_last() =~= selectors.deep_view().take(i as int));
            assert(t.last() == selector@);
        }
        let ghost before = diagnostics@;
        if !lists_string(known, selector) {
            DiagnosticBuilder::warning(concat3("unknown cop selector `", selector, "`")).suggest(
                selector,
                refs.as_slice(),
            ).emit(diagnostics);
        }
        assert(diagnostics@ =~= d0 + selector_diagnostics(selectors.deep_view().take(i + 1), known.deep_view()));
        i = i + 1;
    }
    assert(selectors.deep_view().take(i as int) =~= selectors.deep_view());
}

/// True if `after` is `before` with the command line applied.
pub open spec fn cli_applied(before: MergedCop, after: MergedCop, cli: CliOverrides) -> bool {
    &&& after.decl == before.decl
    &&& after.params == before.params
    &&& after.severity == before.severity
    &&& after.severity_origin == before.severity_origin
    &&& after.enabled == cli_enabled(*before.decl, before.enabled, cli)
    &&& after.enabled_origin@ == cli_enabled_origin(*before.decl, before.enabled_origin@, cli)
}

/// True if `after` is `before` with the command line applied.
pub open spec fn cli_state(before: Merged, after: Merged, cli: CliOverrides) -> bool {
    &&& after.files == before.files
    &&& after.globals == before.globals
    &&& same_keys(before.cops@, after.cops@)
    &&& forall|i: int| 0 <= i < before.cops@.len() ==> cli_applied(before.cops@[i].1, #[trigger] after.cops@[i].1, cli)
}

/// The warnings for command-line selectors that name nothing.
pub open spec fn cli_diagnostics(m: Merged, cli: CliOverrides) -> Seq<DiagnosticModel> {
    selector_diagnostics(cli.only.deep_view() + cli.except.deep_view(), known_selectors(m.cops@))
}

/// Apply command-line cop selection, which wins over the configuration file.
///
/// `only` replaces the enabled set rather than intersecting with it: if it is
/// non-empty, everything not named is switched off. `except` then switches
/// off everything it names.
pub fn apply_cli(merged: &mut Merged, cli: &CliOverrides, diagnostics: &mut Diagnostics)
    ensures
        cli_state(*old(merged), *final(merged), *cli),
        merged_wf(*old(merged)) ==> merged_wf(*final(merged)),
        final(diagnostics)@ == old(diagnostics)@ + cli_diagnostics(*old(merged), *cli),
{
    let known = known_selector_list(&merged.cops);
    let ghost d0 = diagnostics@;
    warn_unknown_selectors(&cli.only, &known, diagnostics);
    warn_unknown_selectors(&cli.except, &known, diagnostics);
    proof {
        lemma_selector_diagnostics_concat(cli.only.deep_view(), cli.except.deep_view(), known.deep_view());
    }
    let ghost start = merged.cops@;
    let ghost files = merged.files;
    let ghost globals = merged.globals;
    let mut i: usize = 0;
    while i < merged.cops.len()
        invariant
            merged.files == files,
            merged.globals == globals,
            same_keys(start, merged.cops@),
            i <= start.len(),
            forall|j: int| 0 <= j < i ==> cli_applied(start[j].1, #[trigger] merged.cops@[j].1, *cli),
            forall|j: int| i <= j < start.len() ==> #[trigger] merged.cops@[j].1 == start[j].1,
        decreases start.len() - i,
    {
        let cop = merged.cops.value_mut(i);
        let excepted = matches_any(cop.decl, &cli.except);
        if excepted {
            cop.enabled = false;
            cop.enabled_origin = Origin::CommandLine;
        } else if cli.only.len() > 0 {
            cop.enabled = matches_any(cop.decl, &cli.only);
            cop.enabled_origin = Origin::CommandLine;
        }
        i = i + 1;
    }
    proof {
        if merged_wf(*old(merged)) {
            lemma_cops_ok_same(start, merged.cops@, merged.files@);
        }
    }
}

proof fn lemma_selector_diagnostics_concat(a: Seq<Seq<char>>, b: Seq<Seq<char>>, known: Seq<Seq<char>>)
    ensures
        selector_diagnostics(a + b, known) == selector_diagnostics(a, known) + selector_diagnostics(b, known),
    decreases b.len(),
{
    if b.len() == 0 {
        assert(a + b =~= a);
        assert(selector_diagnostics(a, known) + selector_diagnostics(b, known) =~= selector_diagnostics(a, known));
    } else {
        lemma_selector_diagnostics_concat(a, b.drop_last(), known);
        assert((a + b).drop_last() =~= a + b.drop_last());
        assert((a + b).last() == b.last());
    }
}

// ---------------------------------------------------------------------------
// Laying a file over the state
// ---------------------------------------------------------------------------

/// The value written under `k`, as plain values, and the file it came from.
pub open spec fn sourced_at(s: Seq<(Seq<char>, Sourced)>, k: Seq<char>) -> Option<(RawModel, usize)> {
    match lookup(s, k) {
        Some(v) => Some((v.raw@, v.file)),
        None => None,
    }
}

/// True if `after` holds what `before` held, overwritten by every value of
/// `written`, each recorded as coming from file `file`.
pub open spec fn values_merged(
    before: Seq<(Seq<char>, Sourced)>,
    after: Seq<(Seq<char>, Sourced)>,
    written: Seq<(Seq<char>, RawModel)>,
    file: usize,
) -> bool {
    &&& sorted_keys(after)
    &&& forall|k: Seq<char>|
        #[trigger] sourced_at(after, k) == if has_key(written, k) {
            Some((lookup(written, k)->0, file))
        } else {
            sourced_at(before, k)
        }
}

/// Every value of `written`, traced to file `file`, laid over `target`.
fn merge_written(
    target: &mut TextMap<String, Sourced>,
    written: &TextMap<String, RawValue>,
    file: usize,
    Ghost(files): Ghost<Seq<ConfigSource>>,
)
    requires
        sorted_keys(old(target)@),
        values_ok(values_model(written@), files[file as int].text@),
        file < files.len(),
        forall|i: int| 0 <= i < old(target)@.len() ==> sourced_ok(#[trigger] old(target)@[i].1, files),
    ensures
        values_merged(old(target)@, final(target)@, values_model(written@), file),
        forall|i: int| 0 <= i < final(target)@.len() ==> sourced_ok(#[trigger] final(target)@[i].1, files),
{
    let ghost start = target@;
    let ghost w = values_model(written@);
    let mut k: usize = 0;
    proof {
        assert(w.take(0).len() == 0);
        assert forall|key: Seq<char>| #[trigger] sourced_at(target@, key) == if has_key(w.take(0), key) {
            Some((lookup(w.take(0), key)->0, file))
        } else {
            sourced_at(start, key)
        } by {}
    }
    while k < written.len()
        invariant
            k <= written@.len(),
            w == values_model(written@),
            values_ok(w, files[file as int].text@),
            file < files.len(),
            values_merged(start, target@, w.take(k as int), file),
            forall|i: int| 0 <= i < target@.len() ==> sourced_ok(#[trigger] target@[i].1, files),
        decreases written@.len() - k,
    {
        let key = written.key_at(k).clone();
        let value = Sourced { raw: written.value_at(k).clone(), file };
        let ghost before = target@;
        proof {
            lemma_insert_entry(before, key@, value);
            lemma_sorted_fresh(w, k as int);
            assert(raw_locatable(w[k as int].1, files[file as int].text@));
        }
        target.insert(key, value);
        proof {
            let w0 = w.take(k as int);
            let w1 = w.take(k + 1);
            let after = target@;
            assert forall|key2: Seq<char>| #[trigger] sourced_at(after, key2) == if has_key(w1, key2) {
                Some((lookup(w1, key2)->0, file))
            } else {
                sourced_at(start, key2)
            } by {
                lemma_lookup_push(w0, w[k as int], key2);
                lemma_lookup_has(w1, key2);
                lemma_lookup_has(w0, key2);
                assert(sourced_at(before, key2) == if has_key(w0, key2) {
                    Some((lookup(w0, key2)->0, file))
                } else {
                    sourced_at(start, key2)
                });
                if key2 == key@ {
                } else {
                    if has_key(w1, key2) {
                        let j = choose|j: int| 0 <= j < w1.len() && #[trigger] w1[j].0 == key2;
                        if j < k {
                            assert(w0[j] == w1[j]);
                        }
                    }
                }
            }
            assert forall|i: int| 0 <= i < after.len() implies sourced_ok(#[trigger] after[i].1, files) by {
                lemma_sorted_lookup(after, i);
                if after[i].0 == key@ {
                } else {
                    lemma_lookup_has(after, after[i].0);
                    lemma_lookup_has(before, after[i].0);
                    lemma_lookup_position(before, after[i].0);
                }
            }
        }
        k = k + 1;
    }
    assert(w.take(k as int) =~= w);
}

/// True if `after` is `before` with one cop entry of a file laid over it.
pub open spec fn entry_applied(before: MergedCop, after: MergedCop, c: RawCopModel, source: ConfigSource, file: usize) -> bool {
    &&& after.decl == before.decl
    &&& after.enabled == enabled_after(enabled_setting(c.enabled), before.enabled)
    &&& after.enabled_origin@ == enabled_origin_after(enabled_setting(c.enabled), before.enabled_origin@, source)
    &&& after.severity == severity_after(severity_setting(c.severity), before.severity)
    &&& after.severity_origin@ == severity_origin_after(severity_setting(c.severity), before.severity_origin@, source)
    &&& values_merged(before.params@, after.params@, c.params, file)
}

/// Lay one cop entry over the cop's state.
fn apply_entry(
    cop: &mut MergedCop,
    raw_cop: &RawCop,
    source: &ConfigSource,
    file: usize,
    diagnostics: &mut Diagnostics,
    Ghost(files): Ghost<Seq<ConfigSource>>,
)
    requires
        raw_cop_ok(raw_cop@, source.text@),
        file < files.len(),
        files[file as int].text@ == source.text@,
        sorted_keys(old(cop).params@),
        forall|i: int| 0 <= i < old(cop).params@.len() ==> sourced_ok(#[trigger] old(cop).params@[i].1, files),
    ensures
        entry_applied(*old(cop), *final(cop), raw_cop@, *source, file),
        forall|i: int| 0 <= i < final(cop).params@.len() ==> sourced_ok(#[trigger] final(cop).params@[i].1, files),
        final(diagnostics)@ == old(diagnostics)@ + opt_enabled_diagnostics(raw_cop@.enabled, *source)
            + opt_severity_diagnostics(raw_cop@.severity, *source),
{
    let ghost d0 = diagnostics@;
    if let Some(value) = &raw_cop.enabled {
        if let Some(flag) = expect_bool(value, "enabled", source, diagnostics) {
            cop.enabled = flag;
            cop.enabled_origin = Origin::from_span(source.path.as_str(), source.text.as_str(), value.blame_value());
        }
    }
    let ghost d1 = diagnostics@;
    assert(d1 =~= d0 + opt_enabled_diagnostics(raw_cop@.enabled, *source));
    if let Some(value) = &raw_cop.severity {
        if let Some(severity) = expect_severity(value, source, diagnostics) {
            cop.severity = severity;
            cop.severity_origin = Origin::from_span(source.path.as_str(), source.text.as_str(), value.blame_value());
        }
    }
    assert(diagnostics@ =~= d1 + opt_severity_diagnostics(raw_cop@.severity, *source));
    merge_written(&mut cop.params, &raw_cop.params, file, Ghost(files));
}

/// The span that points at a cop entry: that of its first framework key, else
/// of its first parameter.
pub open spec fn entry_span_of(c: RawCopModel) -> Option<Range<usize>> {
    match c.enabled {
        Some(v) => blame_key_of(v),
        None => match c.severity {
            Some(v) => blame_key_of(v),
            None => if c.params.len() > 0 {
                blame_key_of(c.params[0].1)
            } else {
                None
            },
        },
    }
}

/// A span somewhere inside a cop entry, used to point at an entry whose own
/// heading cannot be located.
fn entry_span(cop: &RawCop) -> (res: Option<Range<usize>>)
    ensures
        res == entry_span_of(cop@),
{
    match &cop.enabled {
        Some(v) => v.blame_key(),
        None => match &cop.severity {
            Some(v) => v.blame_key(),
            None => if cop.params.len() > 0 {
                cop.params.value_at(0).blame_key()
            } else {
                None
            },
        },
    }
}

/// The key of the cop an entry `[family.name]` is for, if the family exists.
pub open spec fn entry_target(family: Seq<char>, name: Seq<char>) -> Option<Seq<char>> {
    match spec_parse_category(family) {
        Some(c) => Some(cop_key(c, name)),
        None => None,
    }
}

/// An entry targets a cop exactly when it is written under the cop's family
/// and name.
pub proof fn lemma_entry_target(family: Seq<char>, name: Seq<char>, c: Category, cop_name: Seq<char>)
    ensures
        entry_target(family, name) == Some(cop_key(c, cop_name)) <==> (family == category_name(c)
            && name == cop_name),
{
    lemma_category_names();
    if entry_target(family, name) == Some(cop_key(c, cop_name)) {
        let parsed = spec_parse_category(family)->0;
        lemma_cop_key_injective(parsed, name, c, cop_name);
    }
}

/// The diagnostics reported for one cop entry `[family.name]`: a warning if
/// the family or the cop is unknown, else those of its framework keys.
pub open spec fn entry_diagnostics(
    family: Seq<char>,
    name: Seq<char>,
    c: RawCopModel,
    cops: Seq<(Seq<char>, MergedCop)>,
    source: ConfigSource,
) -> Seq<DiagnosticModel> {
    match entry_target(family, name) {
        None => seq![
            suggested(
                placed(
                    plain(Level::Warning, "unknown cop family `"@ + family + "`"@),
                    source.path@,
                    source.text@,
                    entry_span_of(c),
                ),
                family,
                with_families(seq![], cops),
            ),
        ],
        Some(key) => if has_key(cops, key) {
            opt_enabled_diagnostics(c.enabled, source) + opt_severity_diagnostics(c.severity, source)
        } else {
            seq![
                suggested(
                    placed(
                        plain(Level::Warning, "unknown cop `"@ + family + "/"@ + name + "`"@),
                        source.path@,
                        source.text@,
                        entry_span_of(c),
                    ),
                    family + "/"@ + name,
                    qualified_names(cops),
                ),
            ]
        },
    }
}

/// True if `after` is `before` with an entry laid over it, or unchanged when
/// there is none.
pub open spec fn entry_state(before: MergedCop, after: MergedCop, entry: Option<RawCopModel>, source: ConfigSource, file: usize) -> bool {
    match entry {
        Some(c) => entry_applied(before, after, c, source, file),
        None => after == before,
    }
}

/// Lay the entry `[family.name]` over the cop it is for, or warn that there
/// is no such cop.
fn apply_cop_entry(
    cops: &mut TextMap<String, MergedCop>,
    family: &str,
    name: &str,
    raw_cop: &RawCop,
    source: &ConfigSource,
    file: usize,
    known: &[&str],
    family_names: &[&str],
    diagnostics: &mut Diagnostics,
    Ghost(registered): Ghost<Seq<(Seq<char>, MergedCop)>>,
    Ghost(files): Ghost<Seq<ConfigSource>>,
)
    requires
        cops_ok(old(cops)@, files),
        same_keys(registered, old(cops)@),
        str_views(known@) == qualified_names(registered),
        str_views(family_names@) == with_families(seq![], registered),
        raw_cop_ok(raw_cop@, source.text@),
        file < files.len(),
        files[file as int].text@ == source.text@,
    ensures
        same_keys(old(cops)@, final(cops)@),
        cops_ok(final(cops)@, files),
        forall|i: int|
            0 <= i < old(cops)@.len() ==> if entry_target(family@, name@) == Some(old(cops)@[i].0) {
                entry_applied(old(cops)@[i].1, #[trigger] final(cops)@[i].1, raw_cop@, *source, file)
            } else {
                final(cops)@[i].1 == old(cops)@[i].1
            },
        final(diagnostics)@ == old(diagnostics)@ + entry_diagnostics(family@, name@, raw_cop@, registered, *source),
{
    let ghost start = cops@;
    proof {
        if has_key(registered, entry_target(family@, name@)->0) {
            let j = choose|j: int| 0 <= j < registered.len() && #[trigger] registered[j].0 == entry_target(family@, name@)->0;
            assert(start[j].0 == registered[j].0);
        }
        if has_key(start, entry_target(family@, name@)->0) {
            let j = choose|j: int| 0 <= j < start.len() && #[trigger] start[j].0 == entry_target(family@, name@)->0;
            assert(start[j].0 == registered[j].0);
        }
    }
    let category = match Category::parse(family) {
        Some(c) => c,
        None => {
            DiagnosticBuilder::warning(concat3("unknown cop family `", family, "`")).at(
                source.path.as_str(),
                source.text.as_str(),
                entry_span(raw_cop),
            ).suggest(family, family_names).emit(diagnostics);
            return;
        },
    };
    let key = make_cop_key(category, name);
    let pos = match cops.position(key.as_str()) {
        Some(p) => p,
        None => {
            let qualified = concat3(family, "/", name);
            DiagnosticBuilder::warning(concat5("unknown cop `", family, "/", name, "`")).at(
                source.path.as_str(),
                source.text.as_str(),
                entry_span(raw_cop),
            ).suggest(qualified.as_str(), known).emit(diagnostics);
            return;
        },
    };
    proof {
        lemma_sorted_lookup(start, pos as int);
        assert forall|i: int| 0 <= i < start.len() && i != pos implies start[i].0 != key@ by {
            lemma_sorted_lookup(start, i);
        }
        assert(sourced_map_ok(start[pos as int].1.params@, files));
    }
    let cop = cops.value_mut(pos);
    apply_entry(cop, raw_cop, source, file, diagnostics, Ghost(files));
    proof {
        let after = cops@;
        assert forall|a: int, b: int| 0 <= a < b < after.len() implies text_lt(#[trigger] after[a].0, #[trigger] after[b].0) by {
            assert(after[a].0 == start[a].0 && after[b].0 == start[b].0);
        }
    }
}

/// The entry written for the cop `d` in the entries of one family.
pub open spec fn family_entry(family: Seq<char>, entries: Seq<(Seq<char>, RawCopModel)>, d: CopDecl) -> Option<RawCopModel> {
    if family == category_name(d.category) {
        lookup(entries, d.name@)
    } else {
        None
    }
}

/// The diagnostics reported for the entries of one family, in order.
pub open spec fn family_diagnostics(
    family: Seq<char>,
    entries: Seq<(Seq<char>, RawCopModel)>,
    cops: Seq<(Seq<char>, MergedCop)>,
    source: ConfigSource,
) -> Seq<DiagnosticModel>
    decreases entries.len(),
{
    if entries.len() == 0 {
        seq![]
    } else {
        family_diagnostics(family, entries.drop_last(), cops, source) + entry_diagnostics(
            family,
            entries.last().0,
            entries.last().1,
            cops,
            source,
        )
    }
}

/// The diagnostics reported for every cop entry of a file, family by family.
pub open spec fn file_entry_diagnostics(
    families: Seq<(Seq<char>, Seq<(Seq<char>, RawCopModel)>)>,
    cops: Seq<(Seq<char>, MergedCop)>,
    source: ConfigSource,
) -> Seq<DiagnosticModel>
    decreases families.len(),
{
    if families.len() == 0 {
        seq![]
    } else {
        file_entry_diagnostics(families.drop_last(), cops, source) + family_diagnostics(
            families.last().0,
            families.last().1,
            cops,
            source,
        )
    }
}

/// Lay every entry of one family over the cops.
fn apply_family(
    cops: &mut TextMap<String, MergedCop>,
    family: &str,
    entries: &TextMap<String, RawCop>,
    source: &ConfigSource,
    file: usize,
    known: &[&str],
    family_names: &[&str],
    diagnostics: &mut Diagnostics,
    Ghost(registered): Ghost<Seq<(Seq<char>, MergedCop)>>,
    Ghost(files): Ghost<Seq<ConfigSource>>,
)
    requires
        cops_ok(old(cops)@, files),
        same_keys(registered, old(cops)@),
        str_views(known@) == qualified_names(registered),
        str_views(family_names@) == with_families(seq![], registered),
        family_ok(cops_model(entries@), source.text@),
        file < files.len(),
        files[file as int].text@ == source.text@,
    ensures
        same_keys(old(cops)@, final(cops)@),
        cops_ok(final(cops)@, files),
        forall|i: int|
            0 <= i < old(cops)@.len() ==> entry_state(
                old(cops)@[i].1,
                #[trigger] final(cops)@[i].1,
                family_entry(family@, cops_model(entries@), *old(cops)@[i].1.decl),
                *source,
                file,
            ),
        final(diagnostics)@ == old(diagnostics)@ + family_diagnostics(family@, cops_model(entries@), registered, *source),
{
    let ghost start = cops@;
    let ghost d0 = diagnostics@;
    let ghost em = cops_model(entries@);
    let mut j: usize = 0;
    proof {
        assert(em.take(0).len() == 0);
        assert(d0 + family_diagnostics(family@, em.take(0), registered, *source) =~= d0);
        assert forall|i: int| 0 <= i < start.len() implies entry_state(
            start[i].1,
            #[trigger] cops@[i].1,
            family_entry(family@, em.take(0), *start[i].1.decl),
            *source,
            file,
        ) by {
            lemma_lookup_has(em.take(0), start[i].1.decl.name@);
        }
    }
    while j < entries.len()
        invariant
            j <= em.len(),
            em == cops_model(entries@),
            cops_ok(cops@, files),
            same_keys(start, cops@),
            same_keys(registered, cops@),
            str_views(known@) == qualified_names(registered),
            str_views(family_names@) == with_families(seq![], registered),
            family_ok(em, source.text@),
            file < files.len(),
            files[file as int].text@ == source.text@,
            forall|i: int|
                0 <= i < start.len() ==> entry_state(
                    start[i].1,
                    #[trigger] cops@[i].1,
                    family_entry(family@, em.take(j as int), *start[i].1.decl),
                    *source,
                    file,
                ),
            diagnostics@ == d0 + family_diagnostics(family@, em.take(j as int), registered, *source),
        decreases em.len() - j,
    {
        let ghost cur = cops@;
        let ghost d1 = diagnostics@;
        let ghost e = em[j as int];
        let ghost t0 = em.take(j as int);
        let ghost t1 = em.take(j + 1);
        proof {
            lemma_sorted_fresh(em, j as int);
            assert(raw_cop_ok(em[j as int].1, source.text@));
        }
        apply_cop_entry(
            cops,
            family,
            entries.key_at(j).as_str(),
            entries.value_at(j),
            source,
            file,
            known,
            family_names,
            diagnostics,
            Ghost(registered),
            Ghost(files),
        );
        proof {
            assert(t1.drop_last() =~= t0);
            assert(diagnostics@ =~= d0 + family_diagnostics(family@, t1, registered, *source));
            assert forall|i: int| 0 <= i < start.len() implies entry_state(
                start[i].1,
                #[trigger] cops@[i].1,
                family_entry(family@, t1, *start[i].1.decl),
                *source,
                file,
            ) by {
                let d = *start[i].1.decl;
                assert(cur[i].0 == start[i].0);
                assert(cur[i].0 == decl_key(*cur[i].1.decl));
                assert(cur[i].1.decl == start[i].1.decl);
                assert(cur[i].0 == cop_key(d.category, d.name@));
                lemma_entry_target(family@, e.0, d.category, d.name@);
                lemma_lookup_push(t0, e, d.name@);
                lemma_lookup_has(t0, d.name@);
                assert(t1 == t0.push(e));
                if entry_target(family@, e.0) == Some(cur[i].0) {
                    assert(lookup(t0, d.name@) is None);
                    assert(cur[i].1 == start[i].1);
                    assert(entry_applied(cur[i].1, cops@[i].1, e.1, *source, file));
                } else {
                    assert(cops@[i].1 == cur[i].1);
                    assert(family_entry(family@, t1, d) == family_entry(family@, t0, d));
                }
            }
        }
        j = j + 1;
    }
    assert(em.take(j as int) =~= em);
}

/// True if `after` is `before` with one file laid over it: the file's
/// `[defaults]` first, then the file's own entry for the cop, if any. A
/// setting that does not type-check leaves what was there.
pub open spec fn file_applied(before: MergedCop, after: MergedCop, raw: RawConfigModel, source: ConfigSource, file: usize) -> bool {
    let defaults_enabled = enabled_setting(raw.defaults.enabled);
    let defaults_severity = severity_setting(raw.defaults.severity);
    let enabled = enabled_after(defaults_enabled, before.enabled);
    let enabled_origin = enabled_origin_after(defaults_enabled, before.enabled_origin@, source);
    let severity = severity_after(defaults_severity, before.severity);
    let severity_origin = severity_origin_after(defaults_severity, before.severity_origin@, source);
    &&& after.decl == before.decl
    &&& match raw_entry(raw.cops, category_name(before.decl.category), before.decl.name@) {
        Some(c) => {
            &&& after.enabled == enabled_after(enabled_setting(c.enabled), enabled)
            &&& after.enabled_origin@ == enabled_origin_after(enabled_setting(c.enabled), enabled_origin, source)
            &&& after.severity == severity_after(severity_setting(c.severity), severity)
            &&& after.severity_origin@ == severity_origin_after(severity_setting(c.severity), severity_origin, source)
            &&& values_merged(before.params@, after.params@, c.params, file)
        },
        None => {
            &&& after.enabled == enabled
            &&& after.enabled_origin@ == enabled_origin
            &&& after.severity == severity
            &&& after.severity_origin@ == severity_origin
            &&& after.params == before.params
        },
    }
}

/// Cops with the same keys, declarations and parameters are equally well formed.
proof fn lemma_cops_ok_same(a: Seq<(Seq<char>, MergedCop)>, b: Seq<(Seq<char>, MergedCop)>, files: Seq<ConfigSource>)
    requires
        cops_ok(a, files),
        same_keys(a, b),
        forall|i: int| 0 <= i < a.len() ==> (#[trigger] b[i]).1.decl == a[i].1.decl && b[i].1.params == a[i].1.params,
    ensures
        cops_ok(b, files),
{
    assert forall|x: int, y: int| 0 <= x < y < b.len() implies text_lt(#[trigger] b[x].0, #[trigger] b[y].0) by {
        assert(a[x].0 == b[x].0 && a[y].0 == b[y].0);
    }
    assert forall|i: int| 0 <= i < b.len() implies (#[trigger] b[i]).0 == decl_key(*b[i].1.decl)
        && sourced_map_ok(b[i].1.params@, files) by {
        assert(a[i].0 == b[i].0);
        assert(a[i].0 == decl_key(*a[i].1.decl) && sourced_map_ok(a[i].1.params@, files));
    }
}

/// True if `after` is `before` with the file `source`, read as `raw`, laid
/// over it.
pub open spec fn file_state(before: Merged, after: Merged, raw: RawConfigModel, source: ConfigSource) -> bool {
    let file = before.files.len();
    &&& after.files@.len() == before.files@.len() + 1
    &&& files_extend(before.files@, after.files@)
    &&& after.files@.last().path@ == source.path@
    &&& after.files@.last().text@ == source.text@
    &&& values_merged(before.globals@, after.globals@, raw.globals, file)
    &&& same_keys(before.cops@, after.cops@)
    &&& forall|i: int|
        0 <= i < before.cops@.len() ==> file_applied(before.cops@[i].1, #[trigger] after.cops@[i].1, raw, source, file)
}

/// The diagnostics reported while laying the file `source`, read as `raw`,
/// over a state with the cops `cops`.
pub open spec fn file_diagnostics(cops: Seq<(Seq<char>, MergedCop)>, raw: RawConfigModel, source: ConfigSource) -> Seq<DiagnosticModel> {
    opt_enabled_diagnostics(raw.defaults.enabled, source) + opt_severity_diagnostics(raw.defaults.severity, source)
        + file_entry_diagnostics(raw.cops, cops, source)
}

/// Lay one configuration file over the current state.
///
/// The file is recorded in `files`; its `[defaults]` apply to every cop, its
/// `[globals]` replace the values they name, and each of its cop entries
/// applies to the cop it names. Entries for an unknown family or cop are
/// reported and skipped, as are framework keys of the wrong type.
pub fn apply(merged: &mut Merged, raw: &RawConfig, source: &ConfigSource, diagnostics: &mut Diagnostics)
    requires
        merged_wf(*old(merged)),
        raw_wf(raw@, source.text@),
    ensures
        merged_wf(*final(merged)),
        file_state(*old(merged), *final(merged), raw@, *source),
        final(diagnostics)@ == old(diagnostics)@ + file_diagnostics(old(merged).cops@, raw@, *source),
{
    let ghost m0 = *merged;
    let ghost registered = merged.cops@;
    let known_list = qualified_list(&merged.cops);
    let known = borrow_all(&known_list);
    let family_name_list = family_list(&merged.cops);
    let family_names = borrow_all(&family_name_list);

    let file = merged.files.len();
    merged.files.push(source.clone());
    let ghost files = merged.files@;
    proof {
        lemma_files_extend(m0, files);
    }
    let ghost d0 = diagnostics@;
    apply_defaults(&mut merged.cops, &raw.defaults.enabled, &raw.defaults.severity, source, diagnostics);
    let ghost mid = merged.cops@;
    let ghost d1 = diagnostics@;
    proof {
        lemma_cops_ok_same(registered, mid, files);
    }
    merge_written(&mut merged.globals, &raw.globals, file, Ghost(files));
    let ghost globals = merged.globals;

    let ghost fams = raw@.cops;
    let mut fi: usize = 0;
    proof {
        assert(fams.take(0).len() == 0);
        assert(d1 + file_entry_diagnostics(fams.take(0), registered, *source) =~= d1);
        assert forall|i: int| 0 <= i < mid.len() implies entry_state(
            mid[i].1,
            #[trigger] merged.cops@[i].1,
            raw_entry(fams.take(0), category_name(mid[i].1.decl.category), mid[i].1.decl.name@),
            *source,
            file,
        ) by {
            lemma_lookup_has(fams.take(0), category_name(mid[i].1.decl.category));
        }
    }
    while fi < raw.cops.family_count()
        invariant
            fi <= fams.len(),
            fams == raw@.cops,
            raw_wf(raw@, source.text@),
            merged.files@ == files,
            merged.globals == globals,
            file < files.len(),
            files[file as int].text@ == source.text@,
            cops_ok(merged.cops@, files),
            same_keys(mid, merged.cops@),
            same_keys(registered, merged.cops@),
            str_views(known@) == qualified_names(registered),
            str_views(family_names@) == with_families(seq![], registered),
            forall|i: int|
                0 <= i < mid.len() ==> entry_state(
                    mid[i].1,
                    #[trigger] merged.cops@[i].1,
                    raw_entry(fams.take(fi as int), category_name(mid[i].1.decl.category), mid[i].1.decl.name@),
                    *source,
                    file,
                ),
            diagnostics@ == d1 + file_entry_diagnostics(fams.take(fi as int), registered, *source),
        decreases fams.len() - fi,
    {
        let ghost cur = merged.cops@;
        let ghost d2 = diagnostics@;
        let (family, entries) = raw.cops.family_at(fi);
        let ghost t0 = fams.take(fi as int);
        let ghost t1 = fams.take(fi + 1);
        proof {
            lemma_sorted_fresh(fams, fi as int);
            assert(family_ok(fams[fi as int].1, source.text@));
        }
        apply_family(
            &mut merged.cops,
            family.as_str(),
            entries,
            source,
            file,
            known.as_slice(),
            family_names.as_slice(),
            diagnostics,
            Ghost(registered),
            Ghost(files),
        );
        proof {
            assert(t1.drop_last() =~= t0);
            assert(diagnostics@ =~= d1 + file_entry_diagnostics(t1, registered, *source));
            assert forall|i: int| 0 <= i < mid.len() implies entry_state(
                mid[i].1,
                #[trigger] merged.cops@[i].1,
                raw_entry(t1, category_name(mid[i].1.decl.category), mid[i].1.decl.name@),
                *source,
                file,
            ) by {
                let d = *mid[i].1.decl;
                let f = category_name(d.category);
                assert(cur[i].1.decl == mid[i].1.decl);
                lemma_lookup_push(t0, fams[fi as int], f);
                lemma_lookup_has(t0, f);
                assert(t1 == t0.push(fams[fi as int]));
                if has_key(t0, f) {
                    assert(family_entry(family@, cops_model(entries@), d) is None);
                } else {
                    assert(cur[i].1 == mid[i].1);
                }
            }
        }
        fi = fi + 1;
    }
    proof {
        assert(fams.take(fi as int) =~= fams);
        assert(diagnostics@ =~= d0 + opt_enabled_diagnostics(raw@.defaults.enabled, *source)
            + opt_severity_diagnostics(raw@.defaults.severity, *source) + file_entry_diagnostics(
            fams,
            registered,
            *source,
        ));
        assert forall|i: int| 0 <= i < registered.len() implies file_applied(
            registered[i].1,
            #[trigger] merged.cops@[i].1,
            raw@,
            *source,
            file,
        ) by {
            assert(mid[i].1.decl == registered[i].1.decl);
        }
    }
}

// ---------------------------------------------------------------------------
// Precedence
// ---------------------------------------------------------------------------

/// A cop's own entry decides `enabled` over the file's `[defaults]` section
/// and over what was there before.
pub proof fn entry_enabled_wins(
    before: MergedCop,
    after: MergedCop,
    raw: RawConfigModel,
    source: ConfigSource,
    file: usize,
    c: RawCopModel,
    v: RawModel,
    flag: bool,
)
    requires
        file_applied(before, after, raw, source, file),
        raw_entry(raw.cops, category_name(before.decl.category), before.decl.name@) == Some(c),
        c.enabled == Some(v),
        v.value == ParsedModel::Bool(flag),
    ensures
        after.enabled == flag,
        after.enabled_origin@ == origin_at(source.path@, source.text@, blame_value_of(v)),
{
}

/// A cop's own entry decides `severity` over the file's `[defaults]`
/// section and over what was there before.
pub proof fn entry_severity_wins(
    before: MergedCop,
    after: MergedCop,
    raw: RawConfigModel,
    source: ConfigSource,
    file: usize,
    c: RawCopModel,
    v: RawModel,
    severity: Severity,
)
    requires
        file_applied(before, after, raw, source, file),
        raw_entry(raw.cops, category_name(before.decl.category), before.decl.name@) == Some(c),
        c.severity == Some(v),
        severity_of(v.value) == Some(severity),
    ensures
        after.severity == severity,
        after.severity_origin@ == origin_at(source.path@, source.text@, blame_value_of(v)),
{
}

/// The `[defaults]` section decides `enabled` for every cop whose own entry
/// does not set it to a boolean.
pub proof fn defaults_enabled_applies(
    before: MergedCop,
    after: MergedCop,
    raw: RawConfigModel,
    source: ConfigSource,
    file: usize,
    v: RawModel,
    flag: bool,
)
    requires
        file_applied(before, after, raw, source, file),
        raw.defaults.enabled == Some(v),
        v.value == ParsedModel::Bool(flag),
        raw_entry(raw.cops, category_name(before.decl.category), before.decl.name@) matches Some(c)
            ==> enabled_setting(c.enabled) is None,
    ensures
        after.enabled == flag,
        after.enabled_origin@ == origin_at(source.path@, source.text@, blame_value_of(v)),
{
}

/// The `[defaults]` section decides `severity` for every cop whose own
/// entry does not name a severity.
pub proof fn defaults_severity_applies(
    before: MergedCop,
    after: MergedCop,
    raw: RawConfigModel,
    source: ConfigSource,
    file: usize,
    v: RawModel,
    severity: Severity,
)
    requires
        file_applied(before, after, raw, source, file),
        raw.defaults.severity == Some(v),
        severity_of(v.value) == Some(severity),
        raw_entry(raw.cops, category_name(before.decl.category), before.decl.name@) matches Some(c)
            ==> severity_setting(c.severity) is None,
    ensures
        after.severity == severity,
        after.severity_origin@ == origin_at(source.path@, source.text@, blame_value_of(v)),
{
}

/// A setting of the wrong type, in the cop's entry or in `[defaults]`,
/// changes nothing: without a valid setting anywhere in the file, the cop
/// keeps what it had.
pub proof fn invalid_settings_change_nothing(
    before: MergedCop,
    after: MergedCop,
    raw: RawConfigModel,
    source: ConfigSource,
    file: usize,
)
    requires
        file_applied(before, after, raw, source, file),
        enabled_setting(raw.defaults.enabled) is None,
        severity_setting(raw.defaults.severity) is None,
        raw_entry(raw.cops, category_name(before.decl.category), before.decl.name@) matches Some(c)
            ==> enabled_setting(c.enabled) is None && severity_setting(c.severity) is None,
    ensures
        after.enabled == before.enabled,
        after.enabled_origin@ == before.enabled_origin@,
        after.severity == before.severity,
        after.severity_origin@ == before.severity_origin@,
{
}

/// A cop entry's `enabled` or `severity` of the wrong type changes nothing
/// of that setting: the cop keeps what the file's `[defaults]` section left
/// (what it had before, where `[defaults]` set nothing valid either).
pub proof fn rejected_entry_setting_keeps_defaults(
    before: MergedCop,
    after: MergedCop,
    raw: RawConfigModel,
    source: ConfigSource,
    file: usize,
    c: RawCopModel,
)
    requires
        file_applied(before, after, raw, source, file),
        raw_entry(raw.cops, category_name(before.decl.category), before.decl.name@) == Some(c),
    ensures
        enabled_setting(c.enabled) is None ==> {
            &&& after.enabled == enabled_after(enabled_setting(raw.defaults.enabled), before.enabled)
            &&& after.enabled_origin@ == enabled_origin_after(
                enabled_setting(raw.defaults.enabled),
                before.enabled_origin@,
                source,
            )
        },
        severity_setting(c.severity) is None ==> {
            &&& after.severity == severity_after(severity_setting(raw.defaults.severity), before.severity)
            &&& after.severity_origin@ == severity_origin_after(
                severity_setting(raw.defaults.severity),
                before.severity_origin@,
                source,
            )
        },
{
}

/// A written `enabled` or `severity` value is either taken, with nothing
/// reported, or rejected with exactly one error.
pub proof fn rejected_setting_is_one_error(v: RawModel, source: ConfigSource)
    ensures
        bool_of(v.value) is Some ==> enabled_diagnostics(v, source).len() == 0,
        bool_of(v.value) is None ==> enabled_diagnostics(v, source).len() == 1
            && enabled_diagnostics(v, source)[0].level == Level::Error,
        severity_of(v.value) is Some ==> severity_diagnostics(v, source).len() == 0,
        severity_of(v.value) is None ==> severity_diagnostics(v, source).len() == 1
            && severity_diagnostics(v, source)[0].level == Level::Error,
{
}

/// A cop named by `except`, by its qualified name or its family, is off
/// after the command line is applied, whatever `only` and the file say.
pub proof fn except_wins(before: MergedCop, after: MergedCop, cli: CliOverrides)
    requires
        cli_applied(before, after, cli),
        matches_any_spec(*before.decl, cli.except@),
    ensures
        !after.enabled,
        after.enabled_origin@ == OriginModel::CommandLine,
{
}

/// A non-empty `only` replaces the enabled set: a cop not excepted runs
/// exactly when `only` names it, whatever the file says.
pub proof fn only_replaces_the_enabled_set(before: MergedCop, after: MergedCop, cli: CliOverrides)
    requires
        cli_applied(before, after, cli),
        cli.only@.len() > 0,
        !matches_any_spec(*before.decl, cli.except@),
    ensures
        after.enabled == matches_any_spec(*before.decl, cli.only@),
        after.enabled_origin@ == OriginModel::CommandLine,
{
}

/// Without `only`, `except` touches only the cops it names: every other cop
/// keeps its `enabled` and where it came from.
pub proof fn except_leaves_other_cops_alone(before: MergedCop, after: MergedCop, cli: CliOverrides)
    requires
        cli_applied(before, after, cli),
        cli.only@.len() == 0,
        !matches_any_spec(*before.decl, cli.except@),
    ensures
        after.enabled == before.enabled,
        after.enabled_origin@ == before.enabled_origin@,
{
}

/// The command line decides only whether cops run: a cop's declaration,
/// parameters and severity, with its origin, are what they were.
pub proof fn command_line_selects_only(before: MergedCop, after: MergedCop, cli: CliOverrides)
    requires
        cli_applied(before, after, cli),
    ensures
        after.decl == before.decl,
        after.params == before.params,
        after.severity == before.severity,
        after.severity_origin == before.severity_origin,
{
}

/// Without `only` and `except`, the command line changes nothing.
pub proof fn empty_command_line_changes_nothing(before: MergedCop, after: MergedCop, cli: CliOverrides)
    requires
        cli_applied(before, after, cli),
        cli.only@.len() == 0,
        cli.except@.len() == 0,
    ensures
        after.enabled == before.enabled,
        after.enabled_origin@ == before.enabled_origin@,
{
}

} // verus!
