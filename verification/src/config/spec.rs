//! Static declarations describing every configurable knob in YARlint.
//!
//! A [`ParamSpec`] is a *declaration*, not a value. It bundles the schema (what
//! type the key accepts and what range is legal), the default, and one line of
//! documentation. All of it is `&'static` data.

use vstd::prelude::*;

use crate::linter::cop::{category_name, Category};
use crate::linter::finding::Severity;
use crate::text::{concat3, str_eq, str_views};

verus! {

/// The type of a configurable parameter, together with its default and the
/// range of values the configuration file is permitted to supply.
///
/// The default lives inside the kind so that a type/default mismatch is
/// unrepresentable.
#[derive(Debug, Clone, Copy, PartialEq, Eq)]
pub enum ParamKind {
    /// An unsigned integer. `min` and `max` bound the value the
    /// configuration file may supply, inclusive.
    Uint { default: u64, min: u64, max: u64 },
    /// A boolean.
    Bool { default: bool },
    /// A free-form string.
    Str { default: &'static str },
    /// A list of strings. A list supplied by the configuration file replaces
    /// the default; it is never appended to it.
    StrList { default: &'static [&'static str] },
    /// A string restricted to a fixed set of permitted values. The default
    /// must appear among the variants; [`check_invariants`] enforces this.
    Enum { variants: &'static [&'static str], default: &'static str },
}

/// A fully resolved parameter value, as plain mathematical values.
pub enum ValueModel {
    Uint(u64),
    Bool(bool),
    Str(Seq<char>),
    StrList(Seq<Seq<char>>),
}

/// A fully resolved parameter value.
///
/// There is no `Enum` variant: a validated enum parameter resolves to
/// [`ParamValue::Str`].
#[derive(Debug, Clone, PartialEq, Eq)]
pub enum ParamValue {
    /// A resolved unsigned integer.
    Uint(u64),
    /// A resolved boolean.
    Bool(bool),
    /// A resolved string.
    Str(String),
    /// A resolved list of strings.
    StrList(Vec<String>),
}

impl View for ParamValue {
    type V = ValueModel;

    open spec fn view(&self) -> ValueModel {
        match self {
            ParamValue::Uint(v) => ValueModel::Uint(*v),
            ParamValue::Bool(v) => ValueModel::Bool(*v),
            ParamValue::Str(v) => ValueModel::Str(v@),
            ParamValue::StrList(v) => ValueModel::StrList(v.deep_view()),
        }
    }
}

/// The declared default of a kind.
pub open spec fn default_model(kind: ParamKind) -> ValueModel {
    match kind {
        ParamKind::Uint { default, .. } => ValueModel::Uint(default),
        ParamKind::Bool { default } => ValueModel::Bool(default),
        ParamKind::Str { default } => ValueModel::Str(default@),
        ParamKind::Enum { default, .. } => ValueModel::Str(default@),
        ParamKind::StrList { default } => ValueModel::StrList(str_views(default@)),
    }
}

/// Human-readable type name of a kind.
pub open spec fn kind_type_name(kind: ParamKind) -> Seq<char> {
    match kind {
        ParamKind::Uint { .. } => "an integer"@,
        ParamKind::Bool { .. } => "a boolean"@,
        ParamKind::Str { .. } => "a string"@,
        ParamKind::Enum { .. } => "a string"@,
        ParamKind::StrList { .. } => "an array of strings"@,
    }
}

/// Human-readable type name of a value.
pub open spec fn value_type_name(v: ValueModel) -> Seq<char> {
    match v {
        ValueModel::Uint(_) => "an integer"@,
        ValueModel::Bool(_) => "a boolean"@,
        ValueModel::Str(_) => "a string"@,
        ValueModel::StrList(_) => "an array of strings"@,
    }
}

/// Owned copies of a list of strings.
pub fn to_strings(list: &[&str]) -> (res: Vec<String>)
    ensures
        res.deep_view() == str_views(list@),
{
    let mut res: Vec<String> = Vec::new();
    let mut i: usize = 0;
    while i < list.len()
        invariant
            i <= list@.len(),
            res@.len() == i,
            forall|k: int| 0 <= k < i ==> #[trigger] res@[k]@ == list@[k]@,
        decreases list@.len() - i,
    {
        res.push(list[i].to_owned());
        i = i + 1;
    }
    assert(res.deep_view() =~= str_views(list@));
    res
}

impl ParamKind {
    /// Human-readable type name, used in diagnostics such as
    /// "expected an integer, found a string".
    pub fn type_label(&self) -> (res: &'static str)
        ensures
            res@ == kind_type_name(*self),
    {
        match self {
            ParamKind::Uint { .. } => "an integer",
            ParamKind::Bool { .. } => "a boolean",
            ParamKind::Str { .. } => "a string",
            ParamKind::Enum { .. } => "a string",
            ParamKind::StrList { .. } => "an array of strings",
        }
    }

    /// The declared default, materialised as an owned [`ParamValue`].
    pub fn default_value(&self) -> (res: ParamValue)
        ensures
            res@ == default_model(*self),
    {
        match *self {
            ParamKind::Uint { default, .. } => ParamValue::Uint(default),
            ParamKind::Bool { default } => ParamValue::Bool(default),
            ParamKind::Str { default } => ParamValue::Str(default.to_owned()),
            ParamKind::Enum { default, .. } => ParamValue::Str(default.to_owned()),
            ParamKind::StrList { default } => ParamValue::StrList(to_strings(default)),
        }
    }
}

impl ParamValue {
    /// Human-readable type name, used in diagnostics.
    pub fn type_label(&self) -> (res: &'static str)
        ensures
            res@ == value_type_name(self@),
    {
        match self {
            ParamValue::Uint(_) => "an integer",
            ParamValue::Bool(_) => "a boolean",
            ParamValue::Str(_) => "a string",
            ParamValue::StrList(_) => "an array of strings",
        }
    }
}

/// A single configurable parameter belonging to one cop, or to the global
/// section.
#[derive(Debug, Clone, Copy)]
pub struct ParamSpec {
    /// The key as it appears in the configuration file.
    pub key: &'static str,
    /// Type, default, and permitted range.
    pub kind: ParamKind,
    /// One-line description, shown in generated documentation.
    pub doc: &'static str,
}

/// Everything the configuration system needs to know about one cop.
#[derive(Debug, Clone)]
pub struct CopDecl {
    /// The cop's family.
    pub category: Category,
    /// The cop's bare name, without its family prefix.
    pub name: &'static str,
    /// Severity used for this cop's findings unless the configuration
    /// overrides it.
    pub default_severity: Severity,
    /// Whether this cop runs unless the configuration disables it.
    pub default_enabled: bool,
    /// The cop's configurable parameters. May be empty.
    pub params: &'static [ParamSpec],
}

/// The fully qualified id of a cop, for example `Naming/RuleNameLength`.
pub open spec fn qualified(category: Category, name: Seq<char>) -> Seq<char> {
    category_name(category) + "/"@ + name
}

/// The fully qualified id of a declaration.
pub open spec fn decl_qualified(d: CopDecl) -> Seq<char> {
    qualified(d.category, d.name@)
}

/// True if `i` is the first position of a parameter with key `key`.
pub open spec fn first_param_at(params: Seq<ParamSpec>, key: Seq<char>, i: int) -> bool {
    &&& 0 <= i < params.len()
    &&& params[i].key@ == key
    &&& forall|j: int| 0 <= j < i ==> #[trigger] params[j].key@ != key
}

/// True if some parameter has key `key`.
pub open spec fn declares(params: Seq<ParamSpec>, key: Seq<char>) -> bool {
    exists|i: int| 0 <= i < params.len() && #[trigger] params[i].key@ == key
}

/// The first parameter with key `key`, as found by a front-to-back search.
pub fn find_param(params: &'static [ParamSpec], key: &str) -> (res: Option<&'static ParamSpec>)
    ensures
        res matches Some(p) ==> exists|i: int| first_param_at(params@, key@, i) && *p == params@[i],
        res is None ==> !declares(params@, key@),
{
    let mut i: usize = 0;
    while i < params.len()
        invariant
            i <= params@.len(),
            forall|j: int| 0 <= j < i ==> #[trigger] params@[j].key@ != key@,
        decreases params@.len() - i,
    {
        if str_eq(params[i].key, key) {
            assert(first_param_at(params@, key@, i as int));
            return Some(&params[i]);
        }
        i = i + 1;
    }
    None
}

impl CopDecl {
    /// The fully qualified id, for example `Naming/RuleNameLength`.
    pub fn qualified_name(&self) -> (res: String)
        ensures
            res@ == decl_qualified(*self),
    {
        concat3(self.category.name(), "/", self.name)
    }

    /// Look up one of this cop's declared parameters by key.
    pub fn spec(&self, key: &str) -> (res: Option<&'static ParamSpec>)
        ensures
            res matches Some(p) ==> exists|i: int|
                first_param_at(self.params@, key@, i) && *p == self.params@[i],
            res is None ==> !declares(self.params@, key@),
    {
        find_param(self.params, key)
    }
}

/// A violated declaration invariant.
///
/// These are authoring mistakes in YARlint's own source, not user
/// configuration errors, so they are surfaced by a test rather than at runtime.
#[derive(Debug, Clone, PartialEq, Eq)]
pub enum SpecViolation {
    /// An enum parameter's default is not listed among its variants.
    EnumDefaultNotAVariant { owner: String, key: &'static str },
    /// A `Uint` parameter's default lies outside its own permitted range.
    UintDefaultOutOfRange { owner: String, key: &'static str },
    /// A `Uint` parameter declares `min` greater than `max`.
    UintRangeInverted { owner: String, key: &'static str },
    /// An enum parameter declares no variants.
    EnumHasNoVariants { owner: String, key: &'static str },
    /// The same parameter key is declared twice for one owner.
    DuplicateParamKey { owner: String, key: &'static str },
    /// Two cops share the same category and name.
    DuplicateCop { qualified_name: String },
}

/// A violated declaration invariant, as plain values.
pub enum ViolationModel {
    EnumDefaultNotAVariant { owner: Seq<char>, key: Seq<char> },
    UintDefaultOutOfRange { owner: Seq<char>, key: Seq<char> },
    UintRangeInverted { owner: Seq<char>, key: Seq<char> },
    EnumHasNoVariants { owner: Seq<char>, key: Seq<char> },
    DuplicateParamKey { owner: Seq<char>, key: Seq<char> },
    DuplicateCop { qualified_name: Seq<char> },
}

impl View for SpecViolation {
    type V = ViolationModel;

    open spec fn view(&self) -> ViolationModel {
        match self {
            SpecViolation::EnumDefaultNotAVariant { owner, key } => {
                ViolationModel::EnumDefaultNotAVariant { owner: owner@, key: key@ }
            },
            SpecViolation::UintDefaultOutOfRange { owner, key } => {
                ViolationModel::UintDefaultOutOfRange { owner: owner@, key: key@ }
            },
            SpecViolation::UintRangeInverted { owner, key } => {
                ViolationModel::UintRangeInverted { owner: owner@, key: key@ }
            },
            SpecViolation::EnumHasNoVariants { owner, key } => {
                ViolationModel::EnumHasNoVariants { owner: owner@, key: key@ }
            },
            SpecViolation::DuplicateParamKey { owner, key } => {
                ViolationModel::DuplicateParamKey { owner: owner@, key: key@ }
            },
            SpecViolation::DuplicateCop { qualified_name } => {
                ViolationModel::DuplicateCop { qualified_name: qualified_name@ }
            },
        }
    }
}

/// The views of a sequence of violations.
pub open spec fn violation_views(s: Seq<SpecViolation>) -> Seq<ViolationModel> {
    s.map_values(|v: SpecViolation| v@)
}

proof fn lemma_views_push(s: Seq<SpecViolation>, x: SpecViolation)
    ensures
        violation_views(s.push(x)) == violation_views(s) + seq![x@],
{
    assert(violation_views(s.push(x)) =~= violation_views(s) + seq![x@]);
}

/// True if some string in `list` holds the characters `s`.
pub open spec fn lists(list: Seq<&str>, s: Seq<char>) -> bool {
    exists|i: int| 0 <= i < list.len() && #[trigger] list[i]@ == s
}

/// The violation, if any, of the invariants that a parameter's kind carries.
pub open spec fn kind_violations(owner: Seq<char>, p: ParamSpec) -> Seq<ViolationModel> {
    match p.kind {
        ParamKind::Uint { default, min, max } => {
            if min > max {
                seq![ViolationModel::UintRangeInverted { owner, key: p.key@ }]
            } else if default < min || default > max {
                seq![ViolationModel::UintDefaultOutOfRange { owner, key: p.key@ }]
            } else {
                seq![]
            }
        },
        ParamKind::Enum { variants, default } => {
            if variants@.len() == 0 {
                seq![ViolationModel::EnumHasNoVariants { owner, key: p.key@ }]
            } else if !lists(variants@, default@) {
                seq![ViolationModel::EnumDefaultNotAVariant { owner, key: p.key@ }]
            } else {
                seq![]
            }
        },
        _ => seq![],
    }
}

/// The violations found at the last parameter of `params`: a repeated key
/// first, then the kind's own.
pub open spec fn last_param_violations(owner: Seq<char>, params: Seq<ParamSpec>) -> Seq<
    ViolationModel,
>
    recommends
        params.len() > 0,
{
    let p = params.last();
    (if declares(params.drop_last(), p.key@) {
        seq![ViolationModel::DuplicateParamKey { owner, key: p.key@ }]
    } else {
        seq![]
    }) + kind_violations(owner, p)
}

/// Every violation in one owner's parameter list, in declaration order.
pub open spec fn param_violations(owner: Seq<char>, params: Seq<ParamSpec>) -> Seq<ViolationModel>
    decreases params.len(),
{
    if params.len() == 0 {
        seq![]
    } else {
        param_violations(owner, params.drop_last()) + last_param_violations(owner, params)
    }
}

/// True if some declaration in `decls` has qualified name `q`.
pub open spec fn names_cop(decls: Seq<CopDecl>, q: Seq<char>) -> bool {
    exists|i: int| 0 <= i < decls.len() && decl_qualified(#[trigger] decls[i]) == q
}

/// Every violation in a list of cop declarations, in declaration order.
pub open spec fn cop_violations(decls: Seq<CopDecl>) -> Seq<ViolationModel>
    decreases decls.len(),
{
    if decls.len() == 0 {
        seq![]
    } else {
        let d = decls.last();
        let q = decl_qualified(d);
        cop_violations(decls.drop_last()) + (if names_cop(decls.drop_last(), q) {
            seq![ViolationModel::DuplicateCop { qualified_name: q }]
        } else {
            seq![]
        }) + param_violations(q, d.params@)
    }
}

/// Every violation of a registry: the global parameters first, then each cop
/// in declaration order.
pub open spec fn registry_violations(decls: Seq<CopDecl>, globals: Seq<ParamSpec>) -> Seq<
    ViolationModel,
> {
    param_violations("globals"@, globals) + cop_violations(decls)
}

/// True if a parameter's kind is internally consistent.
pub open spec fn kind_ok(kind: ParamKind) -> bool {
    match kind {
        ParamKind::Uint { default, min, max } => min <= default <= max,
        ParamKind::Enum { variants, default } => lists(variants@, default@),
        _ => true,
    }
}

/// True if a parameter list has distinct keys and consistent kinds.
pub open spec fn params_ok(params: Seq<ParamSpec>) -> bool {
    &&& forall|i: int, j: int|
        0 <= i < j < params.len() ==> #[trigger] params[i].key@ != #[trigger] params[j].key@
    &&& forall|i: int| 0 <= i < params.len() ==> kind_ok(#[trigger] params[i].kind)
}

/// True if a registry satisfies every declaration invariant.
pub open spec fn registry_ok(decls: Seq<CopDecl>, globals: Seq<ParamSpec>) -> bool {
    &&& params_ok(globals)
    &&& forall|i: int| 0 <= i < decls.len() ==> params_ok(#[trigger] decls[i].params@)
    &&& forall|i: int, j: int|
        0 <= i < j < decls.len() ==> decl_qualified(#[trigger] decls[i]) != decl_qualified(
            #[trigger] decls[j],
        )
}

/// True if `variants` lists `value`.
pub(crate) fn lists_str(variants: &[&str], value: &str) -> (res: bool)
    ensures
        res == lists(variants@, value@),
{
    let mut i: usize = 0;
    while i < variants.len()
        invariant
            i <= variants@.len(),
            forall|j: int| 0 <= j < i ==> #[trigger] variants@[j]@ != value@,
        decreases variants@.len() - i,
    {
        if str_eq(variants[i], value) {
            return true;
        }
        i = i + 1;
    }
    false
}

/// True if `list` holds a string equal to `s`.
fn contains_string(list: &Vec<String>, s: &str) -> (res: bool)
    ensures
        res == exists|i: int| 0 <= i < list@.len() && #[trigger] list@[i]@ == s@,
{
    let mut i: usize = 0;
    while i < list.len()
        invariant
            i <= list@.len(),
            forall|j: int| 0 <= j < i ==> #[trigger] list@[j]@ != s@,
        decreases list@.len() - i,
    {
        if str_eq(list[i].as_str(), s) {
            return true;
        }
        i = i + 1;
    }
    false
}

/// Check every invariant the type system cannot express.
///
/// Call this from a test over the real registry. It exists to catch
/// authoring mistakes at build time rather than shipping them.
pub fn check_invariants(decls: &[CopDecl], globals: &[ParamSpec]) -> (res: Vec<SpecViolation>)
    ensures
        violation_views(res@) == registry_violations(decls@, globals@),
        res@.len() == 0 <==> registry_ok(decls@, globals@),
{
    let mut out: Vec<SpecViolation> = Vec::new();
    check_params("globals", globals, &mut out);
    let mut seen: Vec<String> = Vec::new();
    let mut i: usize = 0;
    proof {
        assert(decls@.take(0) =~= Seq::<CopDecl>::empty());
    }
    while i < decls.len()
        invariant
            i <= decls@.len(),
            violation_views(out@) == param_violations("globals"@, globals@) + cop_violations(
                decls@.take(i as int),
            ),
            seen@.len() == i,
            forall|k: int| 0 <= k < i ==> #[trigger] seen@[k]@ == decl_qualified(decls@[k]),
        decreases decls@.len() - i,
    {
        let decl = &decls[i];
        let qualified = decl.qualified_name();
        let ghost before = out@;
        proof {
            let t = decls@.take(i + 1);
            assert(t.drop_last() =~= decls@.take(i as int));
            assert(t.last() == decls@[i as int]);
            assert(names_cop(t.drop_last(), qualified@) == exists|k: int|
                0 <= k < seen@.len() && #[trigger] seen@[k]@ == qualified@) by {
                if names_cop(t.drop_last(), qualified@) {
                    let k = choose|k: int| 0 <= k < i && decl_qualified(#[trigger] t.drop_last()[k]) == qualified@;
                    assert(seen@[k]@ == qualified@);
                }
                if exists|k: int| 0 <= k < seen@.len() && #[trigger] seen@[k]@ == qualified@ {
                    let k = choose|k: int| 0 <= k < seen@.len() && #[trigger] seen@[k]@ == qualified@;
                    assert(decl_qualified(t.drop_last()[k]) == qualified@);
                }
            }
        }
        if contains_string(&seen, qualified.as_str()) {
            let v = SpecViolation::DuplicateCop { qualified_name: qualified.clone() };
            proof { lemma_views_push(out@, v); }
            out.push(v);
        }
        let ghost o1 = out@;
        proof {
            let t = decls@.take(i + 1);
            assert(violation_views(o1) == violation_views(before) + (if names_cop(t.drop_last(), qualified@) {
                seq![ViolationModel::DuplicateCop { qualified_name: qualified@ }]
            } else {
                seq![]
            }));
        }
        check_params(qualified.as_str(), decl.params, &mut out);
        proof {
            let t = decls@.take(i + 1);
            assert(violation_views(out@) =~= param_violations("globals"@, globals@) + cop_violations(t));
        }
        seen.push(qualified);
        i = i + 1;
    }
    proof {
        assert(decls@.take(decls@.len() as int) =~= decls@);
        lemma_registry_violations(decls@, globals@);
    }
    out
}

/// Check the invariants for one owner's parameter list, appending what is
/// found to `out`.
fn check_params(owner: &str, params: &[ParamSpec], out: &mut Vec<SpecViolation>)
    ensures
        violation_views(final(out)@) == violation_views(old(out)@) + param_violations(
            owner@,
            params@,
        ),
{
    let mut seen: Vec<&'static str> = Vec::new();
    let mut i: usize = 0;
    let ghost start = violation_views(out@);
    proof {
        assert(params@.take(0) =~= Seq::<ParamSpec>::empty());
        assert(start + param_violations(owner@, params@.take(0)) =~= start);
    }
    while i < params.len()
        invariant
            i <= params@.len(),
            violation_views(out@) == start + param_violations(owner@, params@.take(i as int)),
            seen@.len() == i,
            forall|k: int| 0 <= k < i ==> #[trigger] seen@[k]@ == params@[k].key@,
        decreases params@.len() - i,
    {
        let spec = params[i];
        let ghost t = params@.take(i + 1);
        proof {
            assert(t.drop_last() =~= params@.take(i as int));
            assert(t.last() == params@[i as int]);
        }
        let ghost o0 = out@;
        if lists_str(seen.as_slice(), spec.key) {
            proof {
                let k = choose|k: int| 0 <= k < seen@.len() && #[trigger] seen@[k]@ == spec.key@;
                assert(t.drop_last()[k].key@ == spec.key@);
            }
            let v = SpecViolation::DuplicateParamKey { owner: owner.to_owned(), key: spec.key };
            proof { lemma_views_push(out@, v); }
            out.push(v);
        } else {
            proof {
                assert forall|k: int| 0 <= k < t.drop_last().len() implies #[trigger] t.drop_last()[k].key@ != spec.key@ by {
                    assert(seen@[k]@ == t.drop_last()[k].key@);
                }
            }
        }
        seen.push(spec.key);
        let ghost o1 = out@;
        proof {
            assert(violation_views(o1) == violation_views(o0) + (if declares(t.drop_last(), spec.key@) {
                seq![ViolationModel::DuplicateParamKey { owner: owner@, key: spec.key@ }]
            } else {
                seq![]
            }));
        }
        match spec.kind {
            ParamKind::Uint { default, min, max } => {
                if min > max {
                    let v = SpecViolation::UintRangeInverted { owner: owner.to_owned(), key: spec.key };
                    proof { lemma_views_push(out@, v); }
                    out.push(v);
                } else if default < min || default > max {
                    let v = SpecViolation::UintDefaultOutOfRange { owner: owner.to_owned(), key: spec.key };
                    proof { lemma_views_push(out@, v); }
                    out.push(v);
                }
            },
            ParamKind::Enum { variants, default } => {
                if variants.len() == 0 {
                    let v = SpecViolation::EnumHasNoVariants { owner: owner.to_owned(), key: spec.key };
                    proof { lemma_views_push(out@, v); }
                    out.push(v);
                } else if !lists_str(variants, default) {
                    let v = SpecViolation::EnumDefaultNotAVariant { owner: owner.to_owned(), key: spec.key };
                    proof { lemma_views_push(out@, v); }
                    out.push(v);
                }
            },
            _ => {},
        }
        proof {
            assert(violation_views(out@) =~= violation_views(o1) + kind_violations(owner@, spec));
            assert(last_param_violations(owner@, t) == (if declares(t.drop_last(), spec.key@) {
                seq![ViolationModel::DuplicateParamKey { owner: owner@, key: spec.key@ }]
            } else {
                seq![]
            }) + kind_violations(owner@, spec));
        }
        proof {
            assert(violation_views(out@) =~= start + param_violations(owner@, t));
        }
        i = i + 1;
    }
    proof {
        assert(params@.take(params@.len() as int) =~= params@);
    }
}

/// No violations are reported exactly when every invariant holds.
pub proof fn lemma_registry_violations(decls: Seq<CopDecl>, globals: Seq<ParamSpec>)
    ensures
        registry_violations(decls, globals).len() == 0 <==> registry_ok(decls, globals),
{
    lemma_param_violations(globals);
    lemma_cop_violations(decls);
}

proof fn lemma_param_violations(params: Seq<ParamSpec>)
    ensures
        forall|owner: Seq<char>|
            #![trigger param_violations(owner, params)]
            param_violations(owner, params).len() == 0 <==> params_ok(params),
    decreases params.len(),
{
    if params.len() > 0 {
        let init = params.drop_last();
        lemma_param_violations(init);
        let p = params.last();
        assert forall|owner: Seq<char>|
            #![trigger param_violations(owner, params)]
            param_violations(owner, params).len() == 0 <==> params_ok(params) by {
            assert(param_violations(owner, params) == param_violations(owner, init)
                + last_param_violations(owner, params));
            if params_ok(params) {
                assert(params_ok(init)) by {
                    assert forall|i: int, j: int| 0 <= i < j < init.len() implies #[trigger] init[i].key@
                        != #[trigger] init[j].key@ by {
                        assert(init[i] == params[i] && init[j] == params[j]);
                    }
                    assert forall|i: int| 0 <= i < init.len() implies kind_ok(#[trigger] init[i].kind) by {
                        assert(init[i] == params[i]);
                    }
                }
                assert(!declares(init, p.key@)) by {
                    if declares(init, p.key@) {
                        let i = choose|i: int| 0 <= i < init.len() && #[trigger] init[i].key@ == p.key@;
                        assert(params[i].key@ != params[params.len() - 1].key@);
                    }
                }
                assert(kind_ok(params[params.len() - 1].kind));
            }
            if param_violations(owner, params).len() == 0 {
                assert(param_violations(owner, init).len() == 0);
                assert(last_param_violations(owner, params).len() == 0);
                assert(!declares(init, p.key@));
                assert(kind_ok(p.kind));
                assert forall|i: int, j: int| 0 <= i < j < params.len() implies #[trigger] params[i].key@
                    != #[trigger] params[j].key@ by {
                    if j < params.len() - 1 {
                        assert(init[i] == params[i] && init[j] == params[j]);
                    } else {
                        assert(init[i] == params[i]);
                    }
                }
                assert forall|i: int| 0 <= i < params.len() implies kind_ok(#[trigger] params[i].kind) by {
                    if i < params.len() - 1 {
                        assert(init[i] == params[i]);
                    }
                }
            }
        }
    }
}

proof fn lemma_cop_violations(decls: Seq<CopDecl>)
    ensures
        cop_violations(decls).len() == 0 <==> (forall|i: int|
            0 <= i < decls.len() ==> params_ok(#[trigger] decls[i].params@)) && (forall|i: int, j: int|
            0 <= i < j < decls.len() ==> decl_qualified(#[trigger] decls[i]) != decl_qualified(
                #[trigger] decls[j],
            )),
    decreases decls.len(),
{
    if decls.len() > 0 {
        let init = decls.drop_last();
        let d = decls.last();
        let q = decl_qualified(d);
        lemma_cop_violations(init);
        lemma_param_violations(d.params@);
        assert(param_violations(q, d.params@).len() == 0 <==> params_ok(d.params@));
        if cop_violations(decls).len() == 0 {
            assert(!names_cop(init, q));
            assert forall|i: int| 0 <= i < decls.len() implies params_ok(#[trigger] decls[i].params@) by {
                if i < decls.len() - 1 {
                    assert(init[i] == decls[i]);
                }
            }
            assert forall|i: int, j: int| 0 <= i < j < decls.len() implies decl_qualified(
                #[trigger] decls[i],
            ) != decl_qualified(#[trigger] decls[j]) by {
                assert(init[i] == decls[i]);
                if j < decls.len() - 1 {
                    assert(init[j] == decls[j]);
                } else {
                    if decl_qualified(decls[i]) == q {
                        assert(names_cop(init, q));
                    }
                }
            }
        }
        if (forall|i: int| 0 <= i < decls.len() ==> params_ok(#[trigger] decls[i].params@)) && (
        forall|i: int, j: int|
            0 <= i < j < decls.len() ==> decl_qualified(#[trigger] decls[i]) != decl_qualified(
                #[trigger] decls[j],
            )) {
            assert forall|i: int| 0 <= i < init.len() implies params_ok(#[trigger] init[i].params@) by {
                assert(init[i] == decls[i]);
            }
            assert forall|i: int, j: int| 0 <= i < j < init.len() implies decl_qualified(
                #[trigger] init[i],
            ) != decl_qualified(#[trigger] init[j]) by {
                assert(init[i] == decls[i] && init[j] == decls[j]);
            }
            assert(!names_cop(init, q)) by {
                if names_cop(init, q) {
                    let i = choose|i: int| 0 <= i < init.len() && decl_qualified(#[trigger] init[i]) == q;
                    assert(decls[i] == init[i]);
                    assert(decl_qualified(decls[i]) != decl_qualified(decls[decls.len() - 1]));
                }
            }
            assert(params_ok(decls[decls.len() - 1].params@));
        }
    }
}

/// A parameter list never reports a duplicate cop.
proof fn lemma_param_violations_no_duplicate_cop(owner: Seq<char>, params: Seq<ParamSpec>)
    ensures
        forall|k: int|
            0 <= k < param_violations(owner, params).len() ==> !(#[trigger] param_violations(
                owner,
                params,
            )[k] is DuplicateCop),
    decreases params.len(),
{
    if params.len() > 0 {
        lemma_param_violations_no_duplicate_cop(owner, params.drop_last());
        let a = param_violations(owner, params.drop_last());
        let b = last_param_violations(owner, params);
        let all = param_violations(owner, params);
        assert(all == a + b);
        assert forall|k: int| 0 <= k < all.len() implies !(#[trigger] all[k] is DuplicateCop) by {
            if k < a.len() {
                assert(all[k] == a[k]);
            } else {
                assert(all[k] == b[k - a.len()]);
            }
        }
    }
}

proof fn lemma_cop_violations_duplicates(decls: Seq<CopDecl>)
    ensures
        forall|k: int|
            0 <= k < cop_violations(decls).len() && (#[trigger] cop_violations(decls)[k]) is DuplicateCop
                ==> exists|i: int, j: int|
                0 <= i < j < decls.len() && decl_qualified(decls[i])
                    == cop_violations(decls)[k]->DuplicateCop_qualified_name && decl_qualified(decls[j])
                    == cop_violations(decls)[k]->DuplicateCop_qualified_name,
        forall|i: int, j: int|
            0 <= i < j < decls.len() && decl_qualified(#[trigger] decls[i]) == decl_qualified(
                #[trigger] decls[j],
            ) ==> cop_violations(decls).contains(
                ViolationModel::DuplicateCop { qualified_name: decl_qualified(decls[j]) },
            ),
    decreases decls.len(),
{
    if decls.len() > 0 {
        let init = decls.drop_last();
        let d = decls.last();
        let q = decl_qualified(d);
        lemma_cop_violations_duplicates(init);
        lemma_param_violations_no_duplicate_cop(q, d.params@);
        let a = cop_violations(init);
        let m: Seq<ViolationModel> = if names_cop(init, q) {
            seq![ViolationModel::DuplicateCop { qualified_name: q }]
        } else {
            seq![]
        };
        let b = param_violations(q, d.params@);
        let all = cop_violations(decls);
        assert(all == a + m + b);
        assert forall|k: int|
            0 <= k < all.len() && (#[trigger] all[k]) is DuplicateCop implies exists|i: int, j: int|
            0 <= i < j < decls.len() && decl_qualified(decls[i]) == all[k]->DuplicateCop_qualified_name
                && decl_qualified(decls[j]) == all[k]->DuplicateCop_qualified_name by {
            if k < a.len() {
                assert(all[k] == a[k]);
                let (i, j) = choose|i: int, j: int|
                    0 <= i < j < init.len() && decl_qualified(init[i]) == a[k]->DuplicateCop_qualified_name
                        && decl_qualified(init[j]) == a[k]->DuplicateCop_qualified_name;
                assert(decls[i] == init[i] && decls[j] == init[j]);
            } else if k < a.len() + m.len() {
                assert(all[k] == m[k - a.len()]);
                let i = choose|i: int| 0 <= i < init.len() && decl_qualified(#[trigger] init[i]) == q;
                assert(decls[i] == init[i]);
                assert(decls[decls.len() - 1] == d);
            } else {
                assert(all[k] == b[k - a.len() - m.len()]);
            }
        }
        assert forall|i: int, j: int|
            0 <= i < j < decls.len() && decl_qualified(#[trigger] decls[i]) == decl_qualified(
                #[trigger] decls[j],
            ) implies all.contains(ViolationModel::DuplicateCop { qualified_name: decl_qualified(decls[j]) })
            by {
            assert(decls[i] == init[i]);
            if j < decls.len() - 1 {
                assert(decls[j] == init[j]);
                let w = ViolationModel::DuplicateCop { qualified_name: decl_qualified(decls[j]) };
                assert(a.contains(w));
                let k = choose|k: int| 0 <= k < a.len() && a[k] == w;
                assert(all[k] == a[k]);
            } else {
                assert(decls[j] == d);
                assert(names_cop(init, q));
                assert(all[a.len() as int] == m[0]);
            }
        }
    }
}

/// A duplicate cop is reported under its qualified id, exactly for the ids
/// that are declared more than once: every `DuplicateCop` names an id that
/// two declarations share, and every shared id is reported.
pub proof fn duplicate_cops_are_reported_by_qualified_name(decls: Seq<CopDecl>, globals: Seq<ParamSpec>)
    ensures
        forall|k: int|
            0 <= k < registry_violations(decls, globals).len() && (#[trigger] registry_violations(
                decls,
                globals,
            )[k]) is DuplicateCop ==> exists|i: int, j: int|
                0 <= i < j < decls.len() && category_name(decls[i].category) + "/"@ + decls[i].name@
                    == registry_violations(decls, globals)[k]->DuplicateCop_qualified_name
                    && category_name(decls[j].category) + "/"@ + decls[j].name@ == registry_violations(
                    decls,
                    globals,
                )[k]->DuplicateCop_qualified_name,
        forall|i: int, j: int|
            0 <= i < j < decls.len() && decl_qualified(#[trigger] decls[i]) == decl_qualified(
                #[trigger] decls[j],
            ) ==> registry_violations(decls, globals).contains(
                ViolationModel::DuplicateCop {
                    qualified_name: category_name(decls[j].category) + "/"@ + decls[j].name@,
                },
            ),
{
    lemma_cop_violations_duplicates(decls);
    lemma_param_violations_no_duplicate_cop("globals"@, globals);
    let g = param_violations("globals"@, globals);
    let c = cop_violations(decls);
    let all = registry_violations(decls, globals);
    assert(all == g + c);
    assert forall|k: int| 0 <= k < all.len() && (#[trigger] all[k]) is DuplicateCop implies exists|i: int, j: int|
        0 <= i < j < decls.len() && category_name(decls[i].category) + "/"@ + decls[i].name@
            == all[k]->DuplicateCop_qualified_name && category_name(decls[j].category) + "/"@
            + decls[j].name@ == all[k]->DuplicateCop_qualified_name by {
        if k < g.len() {
            assert(all[k] == g[k]);
        } else {
            assert(all[k] == c[k - g.len()]);
        }
    }
    assert forall|i: int, j: int|
        0 <= i < j < decls.len() && decl_qualified(#[trigger] decls[i]) == decl_qualified(
            #[trigger] decls[j],
        ) implies all.contains(
        ViolationModel::DuplicateCop { qualified_name: category_name(decls[j].category) + "/"@ + decls[j].name@ },
    ) by {
        let w = ViolationModel::DuplicateCop { qualified_name: decl_qualified(decls[j]) };
        assert(c.contains(w));
        let k = choose|k: int| 0 <= k < c.len() && c[k] == w;
        assert(all[k + g.len()] == c[k]);
    }
}

/// True if `v` is a parameter violation of the parameter `key` that `owner`
/// declares in `params`.
pub open spec fn blames_param(v: ViolationModel, owner: Seq<char>, params: Seq<ParamSpec>) -> bool {
    match v {
        ViolationModel::EnumDefaultNotAVariant { owner: o, key } => o == owner && declares(params, key),
        ViolationModel::UintDefaultOutOfRange { owner: o, key } => o == owner && declares(params, key),
        ViolationModel::UintRangeInverted { owner: o, key } => o == owner && declares(params, key),
        ViolationModel::EnumHasNoVariants { owner: o, key } => o == owner && declares(params, key),
        ViolationModel::DuplicateParamKey { owner: o, key } => o == owner && declares(params, key),
        ViolationModel::DuplicateCop { .. } => false,
    }
}

proof fn lemma_param_violations_blame(owner: Seq<char>, params: Seq<ParamSpec>)
    ensures
        forall|k: int|
            0 <= k < param_violations(owner, params).len() ==> blames_param(
                #[trigger] param_violations(owner, params)[k],
                owner,
                params,
            ),
    decreases params.len(),
{
    if params.len() > 0 {
        let init = params.drop_last();
        lemma_param_violations_blame(owner, init);
        let a = param_violations(owner, init);
        let b = last_param_violations(owner, params);
        let all = param_violations(owner, params);
        assert(all == a + b);
        let last = params.len() - 1;
        assert(params[last] == params.last());
        assert(declares(params, params.last().key@));
        assert forall|k: int| 0 <= k < all.len() implies blames_param(#[trigger] all[k], owner, params) by {
            if k < a.len() {
                assert(all[k] == a[k]);
                assert(blames_param(a[k], owner, init));
                assert forall|key: Seq<char>| declares(init, key) implies declares(params, key) by {
                    let j = choose|j: int| 0 <= j < init.len() && #[trigger] init[j].key@ == key;
                    assert(params[j] == init[j]);
                }
            } else {
                assert(all[k] == b[k - a.len()]);
            }
        }
    }
}

/// Every parameter violation names its owner and one of the owner's own
/// parameters: `globals` and a global parameter, or a cop's qualified id and
/// one of that cop's parameters.
pub proof fn param_violations_name_their_owner(decls: Seq<CopDecl>, globals: Seq<ParamSpec>)
    ensures
        forall|k: int|
            0 <= k < registry_violations(decls, globals).len() && !((#[trigger] registry_violations(
                decls,
                globals,
            )[k]) is DuplicateCop) ==> blames_param(registry_violations(decls, globals)[k], "globals"@, globals)
                || exists|i: int|
                0 <= i < decls.len() && blames_param(
                    registry_violations(decls, globals)[k],
                    category_name(decls[i].category) + "/"@ + decls[i].name@,
                    decls[i].params@,
                ),
{
    lemma_param_violations_blame("globals"@, globals);
    lemma_cop_violations_blame(decls);
    let g = param_violations("globals"@, globals);
    let c = cop_violations(decls);
    let all = registry_violations(decls, globals);
    assert(all == g + c);
    assert forall|k: int| 0 <= k < all.len() && !((#[trigger] all[k]) is DuplicateCop) implies blames_param(
        all[k],
        "globals"@,
        globals,
    ) || exists|i: int|
        0 <= i < decls.len() && blames_param(
            all[k],
            category_name(decls[i].category) + "/"@ + decls[i].name@,
            decls[i].params@,
        ) by {
        if k < g.len() {
            assert(all[k] == g[k]);
        } else {
            assert(all[k] == c[k - g.len()]);
        }
    }
}

proof fn lemma_cop_violations_blame(decls: Seq<CopDecl>)
    ensures
        forall|k: int|
            0 <= k < cop_violations(decls).len() && !((#[trigger] cop_violations(decls)[k]) is DuplicateCop)
                ==> exists|i: int|
                0 <= i < decls.len() && blames_param(
                    cop_violations(decls)[k],
                    category_name(decls[i].category) + "/"@ + decls[i].name@,
                    decls[i].params@,
                ),
    decreases decls.len(),
{
    if decls.len() > 0 {
        let init = decls.drop_last();
        let d = decls.last();
        let q = decl_qualified(d);
        lemma_cop_violations_blame(init);
        lemma_param_violations_blame(q, d.params@);
        let a = cop_violations(init);
        let m: Seq<ViolationModel> = if names_cop(init, q) {
            seq![ViolationModel::DuplicateCop { qualified_name: q }]
        } else {
            seq![]
        };
        let b = param_violations(q, d.params@);
        let all = cop_violations(decls);
        assert(all == a + m + b);
        assert forall|k: int| 0 <= k < all.len() && !((#[trigger] all[k]) is DuplicateCop) implies exists|i: int|
            0 <= i < decls.len() && blames_param(
                all[k],
                category_name(decls[i].category) + "/"@ + decls[i].name@,
                decls[i].params@,
            ) by {
            if k < a.len() {
                assert(all[k] == a[k]);
                let i = choose|i: int|
                    0 <= i < init.len() && blames_param(
                        a[k],
                        category_name(init[i].category) + "/"@ + init[i].name@,
                        init[i].params@,
                    );
                assert(decls[i] == init[i]);
            } else if k < a.len() + m.len() {
                assert(all[k] == m[k - a.len()]);
            } else {
                assert(all[k] == b[k - a.len() - m.len()]);
                let i = decls.len() - 1;
                assert(decls[i] == d);
            }
        }
    }
}

} // verus!
