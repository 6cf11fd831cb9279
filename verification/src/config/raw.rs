//! The literal contents of a configuration file.
//!
//! This layer answers "what did the user write", not "is it any good". Keys
//! stay as text because nothing has been checked against the registry yet,
//! and values are converted into a small local enum so that no other part of
//! the configuration module needs to know about TOML.

use core::ops::Range;

use vstd::prelude::*;

use crate::config::diagnostics::{
    copy_span, locatable, placed, plain, span_locatable, suggested, DiagnosticBuilder, DiagnosticModel,
    Diagnostics, Level,
};
use crate::config::document::{
    entry_model, item_model, lemma_entries_model, read_toml, toml_document, TomlEntry, TomlEntryModel, TomlItem, TomlItemModel,
    TomlTable, TomlValue, TomlValueModel,
};
use crate::config::error::ConfigError;
use crate::config::source::ConfigSource;
use crate::text::{concat3, str_eq, str_views};
use crate::config::globals::copy_strings;
use crate::keyed::{
    insert_entry, lemma_insert_entry, lemma_insert_entry_from, lemma_insert_entry_map, lemma_map_entries,
    lemma_lookup_has, lemma_lookup_position, lemma_sorted_lookup, lemma_update_value, lookup,
    map_entries, sorted_keys, TextMap,
};

verus! {

/// A value as it appeared in the file, before any type checking.
#[derive(Debug, PartialEq, Eq)]
pub enum ParsedValue {
    /// A TOML integer. Signed, because TOML integers are.
    Int(i64),
    /// A TOML boolean.
    Bool(bool),
    /// A TOML string.
    Str(String),
    /// A TOML array whose elements are all strings.
    StrList(Vec<String>),
    /// Anything else, carrying a human-readable name for diagnostics.
    Other(&'static str),
}

/// A value as written, as plain values.
pub enum ParsedModel {
    Int(i64),
    Bool(bool),
    Str(Seq<char>),
    StrList(Seq<Seq<char>>),
    Other(Seq<char>),
}

impl View for ParsedValue {
    type V = ParsedModel;

    open spec fn view(&self) -> ParsedModel {
        match self {
            ParsedValue::Int(v) => ParsedModel::Int(*v),
            ParsedValue::Bool(v) => ParsedModel::Bool(*v),
            ParsedValue::Str(v) => ParsedModel::Str(v@),
            ParsedValue::StrList(v) => ParsedModel::StrList(v.deep_view()),
            ParsedValue::Other(name) => ParsedModel::Other(name@),
        }
    }
}

/// Human-readable type name of a written value.
pub open spec fn parsed_type_name(v: ParsedModel) -> Seq<char> {
    match v {
        ParsedModel::Int(_) => "an integer"@,
        ParsedModel::Bool(_) => "a boolean"@,
        ParsedModel::Str(_) => "a string"@,
        ParsedModel::StrList(_) => "an array of strings"@,
        ParsedModel::Other(name) => name,
    }
}

impl Clone for ParsedValue {
    fn clone(&self) -> (res: Self)
        ensures
            res@ == self@,
    {
        match self {
            ParsedValue::Int(v) => ParsedValue::Int(*v),
            ParsedValue::Bool(v) => ParsedValue::Bool(*v),
            ParsedValue::Str(v) => ParsedValue::Str(v.clone()),
            ParsedValue::StrList(v) => ParsedValue::StrList(copy_strings(v)),
            ParsedValue::Other(name) => ParsedValue::Other(name),
        }
    }
}

impl ParsedValue {
    /// Human-readable type name, used in diagnostics.
    pub fn type_label(&self) -> (res: &'static str)
        ensures
            res@ == parsed_type_name(self@),
    {
        match self {
            ParsedValue::Int(_) => "an integer",
            ParsedValue::Bool(_) => "a boolean",
            ParsedValue::Str(_) => "a string",
            ParsedValue::StrList(_) => "an array of strings",
            ParsedValue::Other(name) => name,
        }
    }
}

/// A value together with the spans needed to point at it in an error message.
#[derive(Debug, PartialEq, Eq)]
pub struct RawValue {
    /// The value itself.
    pub value: ParsedValue,
    /// Byte range of the key, used when the key is what is wrong.
    pub key_span: Option<Range<usize>>,
    /// Byte range of the value, used when the value is what is wrong.
    pub value_span: Option<Range<usize>>,
}

/// A written value as plain values.
pub struct RawModel {
    pub value: ParsedModel,
    pub key_span: Option<Range<usize>>,
    pub value_span: Option<Range<usize>>,
}

impl View for RawValue {
    type V = RawModel;

    open spec fn view(&self) -> RawModel {
        RawModel { value: self.value@, key_span: self.key_span, value_span: self.value_span }
    }
}

impl Clone for RawValue {
    fn clone(&self) -> (res: Self)
        ensures
            res@ == self@,
    {
        RawValue {
            value: self.value.clone(),
            key_span: copy_span(&self.key_span),
            value_span: copy_span(&self.value_span),
        }
    }
}

/// The span to blame for a problem with a value: the value's, else the key's.
pub open spec fn blame_value_of(v: RawModel) -> Option<Range<usize>> {
    match v.value_span {
        Some(s) => Some(s),
        None => v.key_span,
    }
}

/// The span to blame for a problem with a key: the key's, else the value's.
pub open spec fn blame_key_of(v: RawModel) -> Option<Range<usize>> {
    match v.key_span {
        Some(s) => Some(s),
        None => v.value_span,
    }
}

/// True if both spans of `v` can be located in `text`.
pub open spec fn raw_locatable(v: RawModel, text: Seq<char>) -> bool {
    span_locatable(text, v.key_span) && span_locatable(text, v.value_span)
}

/// An optional written value as plain values.
pub open spec fn opt_model(v: Option<RawValue>) -> Option<RawModel> {
    match v {
        Some(r) => Some(r@),
        None => None,
    }
}

/// A table of written values as plain values.
pub open spec fn values_model(s: Seq<(Seq<char>, RawValue)>) -> Seq<(Seq<char>, RawModel)> {
    map_entries(s, |v: RawValue| v@)
}

/// The cop entries of one family as plain values.
pub open spec fn cops_model(s: Seq<(Seq<char>, RawCop)>) -> Seq<(Seq<char>, RawCopModel)> {
    map_entries(s, |c: RawCop| c@)
}

/// True if an optional written value can be located in `text`.
pub open spec fn opt_raw_locatable(v: Option<RawModel>, text: Seq<char>) -> bool {
    match v {
        Some(r) => raw_locatable(r, text),
        None => true,
    }
}

/// True if a table of written values is sorted by key and each value can be
/// located in `text`.
pub open spec fn values_ok(m: Seq<(Seq<char>, RawModel)>, text: Seq<char>) -> bool {
    &&& sorted_keys(m)
    &&& forall|i: int| 0 <= i < m.len() ==> raw_locatable(#[trigger] m[i].1, text)
}

/// True if a cop entry's values can all be located in `text`.
pub open spec fn raw_cop_ok(c: RawCopModel, text: Seq<char>) -> bool {
    &&& opt_raw_locatable(c.enabled, text)
    &&& opt_raw_locatable(c.severity, text)
    &&& values_ok(c.params, text)
}

/// True if the cop entries of one family are sorted by name and well formed.
pub open spec fn family_ok(m: Seq<(Seq<char>, RawCopModel)>, text: Seq<char>) -> bool {
    &&& sorted_keys(m)
    &&& forall|i: int| 0 <= i < m.len() ==> raw_cop_ok(#[trigger] m[i].1, text)
}

/// The invariant of a parsed file: every table sorted by key and every span
/// locatable in the file's text.
pub open spec fn raw_wf(raw: RawConfigModel, text: Seq<char>) -> bool {
    &&& opt_raw_locatable(raw.defaults.enabled, text)
    &&& opt_raw_locatable(raw.defaults.severity, text)
    &&& values_ok(raw.globals, text)
    &&& sorted_keys(raw.cops)
    &&& forall|i: int| 0 <= i < raw.cops.len() ==> family_ok(#[trigger] raw.cops[i].1, text)
}

/// The entry written for the cop of family `family_name` and name `name`.
pub open spec fn raw_entry(
    families: Seq<(Seq<char>, Seq<(Seq<char>, RawCopModel)>)>,
    family_name: Seq<char>,
    name: Seq<char>,
) -> Option<RawCopModel> {
    match lookup(families, family_name) {
        Some(f) => lookup(f, name),
        None => None,
    }
}

/// The entries grouped by family, with the entry for `(family, name)` set to
/// `c`.
pub open spec fn cops_insert(
    families: Seq<(Seq<char>, Seq<(Seq<char>, RawCopModel)>)>,
    family: Seq<char>,
    name: Seq<char>,
    c: RawCopModel,
) -> Seq<(Seq<char>, Seq<(Seq<char>, RawCopModel)>)> {
    let current = match lookup(families, family) {
        Some(m) => m,
        None => Seq::empty(),
    };
    insert_entry(families, family, insert_entry(current, name, c))
}

impl RawValue {
    /// The span to blame for a problem with the value.
    ///
    /// Falls back to the key's span when the value has none.
    pub fn blame_value(&self) -> (res: Option<Range<usize>>)
        ensures
            res == blame_value_of(self@),
    {
        match &self.value_span {
            Some(s) => Some(Range { start: s.start, end: s.end }),
            None => copy_span(&self.key_span),
        }
    }

    /// The span to blame for a problem with the key.
    ///
    /// Falls back to the value's span when the key has none.
    pub fn blame_key(&self) -> (res: Option<Range<usize>>)
        ensures
            res == blame_key_of(self@),
    {
        match &self.key_span {
            Some(s) => Some(Range { start: s.start, end: s.end }),
            None => copy_span(&self.value_span),
        }
    }
}

/// One cop's entry, exactly as written.
#[derive(Debug, Default, PartialEq, Eq)]
pub struct RawCop {
    /// The `enabled` key, if present.
    pub enabled: Option<RawValue>,
    /// The `severity` key, if present.
    pub severity: Option<RawValue>,
    /// Every other key, unchecked.
    pub params: TextMap<String, RawValue>,
}

/// One cop's entry as plain values.
pub struct RawCopModel {
    pub enabled: Option<RawModel>,
    pub severity: Option<RawModel>,
    pub params: Seq<(Seq<char>, RawModel)>,
}

impl View for RawCop {
    type V = RawCopModel;

    open spec fn view(&self) -> RawCopModel {
        RawCopModel {
            enabled: opt_model(self.enabled),
            severity: opt_model(self.severity),
            params: values_model(self.params@),
        }
    }
}

/// The `[defaults]` section, exactly as written.
#[derive(Debug, Default, PartialEq, Eq)]
pub struct RawDefaults {
    /// Default `enabled` for every cop, if present.
    pub enabled: Option<RawValue>,
    /// Default `severity` for every cop, if present.
    pub severity: Option<RawValue>,
}

/// The `[defaults]` section as plain values.
pub struct RawDefaultsModel {
    pub enabled: Option<RawModel>,
    pub severity: Option<RawModel>,
}

impl View for RawDefaults {
    type V = RawDefaultsModel;

    open spec fn view(&self) -> RawDefaultsModel {
        RawDefaultsModel { enabled: opt_model(self.enabled), severity: opt_model(self.severity) }
    }
}

/// Every cop entry of a file, grouped by family and then by name, both in
/// key order.
#[derive(Debug, Default, PartialEq, Eq)]
pub struct RawCops {
    families: TextMap<String, TextMap<String, RawCop>>,
}

impl View for RawCops {
    type V = Seq<(Seq<char>, Seq<(Seq<char>, RawCopModel)>)>;

    closed spec fn view(&self) -> Seq<(Seq<char>, Seq<(Seq<char>, RawCopModel)>)> {
        map_entries(self.families@, |m: TextMap<String, RawCop>| cops_model(m@))
    }
}

/// One configuration file, parsed but not checked.
#[derive(Debug, Default, PartialEq, Eq)]
pub struct RawConfig {
    /// The `[defaults]` section.
    pub defaults: RawDefaults,
    /// The `[globals]` section, unchecked.
    pub globals: TextMap<String, RawValue>,
    /// Every cop entry, keyed by family and name as written.
    pub cops: RawCops,
}

/// One configuration file as plain values.
pub struct RawConfigModel {
    pub defaults: RawDefaultsModel,
    pub globals: Seq<(Seq<char>, RawModel)>,
    pub cops: Seq<(Seq<char>, Seq<(Seq<char>, RawCopModel)>)>,
}

impl View for RawConfig {
    type V = RawConfigModel;

    open spec fn view(&self) -> RawConfigModel {
        RawConfigModel { defaults: self.defaults@, globals: values_model(self.globals@), cops: self.cops@ }
    }
}

impl RawCops {
    /// The entries are grouped under sorted family keys, and sorted by name
    /// within each family.
    pub closed spec fn wf(&self) -> bool {
        &&& sorted_keys(self.families@)
        &&& forall|i: int| 0 <= i < self.families@.len() ==> sorted_keys(#[trigger] self.families@[i].1@)
    }

    /// No entries.
    pub fn new() -> (res: Self)
        ensures
            res@ == Seq::<(Seq<char>, Seq<(Seq<char>, RawCopModel)>)>::empty(),
            res.wf(),
    {
        let res = RawCops { families: TextMap::new() };
        assert(res@ =~= Seq::<(Seq<char>, Seq<(Seq<char>, RawCopModel)>)>::empty());
        res
    }

    /// The number of families with at least one entry.
    pub fn family_count(&self) -> (res: usize)
        ensures
            res == self@.len(),
    {
        self.families.len()
    }

    /// The family at position `i`, and its entries.
    pub fn family_at(&self, i: usize) -> (res: (&String, &TextMap<String, RawCop>))
        requires
            i < self@.len(),
        ensures
            res.0@ == self@[i as int].0,
            cops_model(res.1@) == self@[i as int].1,
    {
        (self.families.key_at(i), self.families.value_at(i))
    }

    /// True if there are no entries.
    pub fn is_empty(&self) -> (res: bool)
        ensures
            res == (self@.len() == 0),
    {
        self.families.is_empty()
    }

    /// The entry for a `(family, name)` pair, if present.
    pub fn get(&self, key: &(String, String)) -> (res: Option<&RawCop>)
        ensures
            res matches Some(c) ==> raw_entry(self@, key.0@, key.1@) == Some(c@),
            res is None ==> raw_entry(self@, key.0@, key.1@) is None,
    {
        proof {
            lemma_map_entries(self.families@, |m: TextMap<String, RawCop>| cops_model(m@), key.0@);
        }
        match self.families.get(key.0.as_str()) {
            Some(f) => {
                proof {
                    lemma_map_entries(f@, |c: RawCop| c@, key.1@);
                }
                f.get(key.1.as_str())
            },
            None => None,
        }
    }

    /// Set the entry for `(family, name)`.
    pub fn insert(&mut self, family: String, name: String, cop: RawCop)
        requires
            old(self).wf(),
        ensures
            final(self).wf(),
            final(self)@ == cops_insert(old(self)@, family@, name@, cop@),
    {
        let ghost before = self.families@;
        let ghost f = |m: TextMap<String, RawCop>| cops_model(m@);
        let ghost g = |c: RawCop| c@;
        let ghost cm = cop@;
        proof {
            lemma_map_entries(before, f, family@);
        }
        match self.families.position(family.as_str()) {
            Some(i) => {
                let ghost inner_before = before[i as int].1@;
                proof {
                    lemma_sorted_lookup(before, i as int);
                    lemma_map_entries(inner_before, g, name@);
                    lemma_insert_entry(inner_before, name@, cop);
                    lemma_insert_entry_map(inner_before, name@, cop, g);
                }
                let inner = self.families.value_mut(i);
                inner.insert(name, cop);
                proof {
                    let after = self.families@;
                    lemma_update_value(before, i as int, after[i as int].1);
                    assert(self@ =~= cops_insert(old(self)@, family@, name@, cm));
                }
            },
            None => {
                let mut inner: TextMap<String, RawCop> = TextMap::new();
                proof {
                    lemma_insert_entry(inner@, name@, cop);
                    lemma_insert_entry_map(inner@, name@, cop, g);
                    assert(cops_model(inner@) =~= Seq::<(Seq<char>, RawCopModel)>::empty());
                }
                inner.insert(name, cop);
                let ghost inner_after = inner@;
                proof {
                    lemma_insert_entry(before, family@, inner);
                    lemma_insert_entry_map(before, family@, inner, f);
                }
                self.families.insert(family, inner);
                proof {
                    let after = self.families@;
                    assert forall|a: int| 0 <= a < after.len() implies sorted_keys(#[trigger] after[a].1@) by {
                        lemma_insert_entry_from(before, family@, inner, a);
                    }
                }
            },
        }
    }
}

// ---------------------------------------------------------------------------
// Reading a TOML document
// ---------------------------------------------------------------------------

/// A span, kept only if text can be located at its start.
pub open spec fn located(text: Seq<char>, span: Option<Range<usize>>) -> Option<Range<usize>> {
    match span {
        Some(s) => if locatable(text, s.start) {
            Some(s)
        } else {
            None
        },
        None => None,
    }
}

/// Human-readable description of a TOML item, for diagnostics.
pub open spec fn describe_item(item: TomlItemModel) -> Seq<char> {
    match item {
        TomlItemModel::Nothing => "nothing"@,
        TomlItemModel::Table(_) => "a table"@,
        TomlItemModel::ArrayOfTables => "an array of tables"@,
        TomlItemModel::Value(v) => match v {
            TomlValueModel::Str(_) => "a string"@,
            TomlValueModel::Int(_) => "an integer"@,
            TomlValueModel::Float => "a float"@,
            TomlValueModel::Bool(_) => "a boolean"@,
            TomlValueModel::Datetime => "a datetime"@,
            TomlValueModel::Array(_) => "an array"@,
            TomlValueModel::InlineTable => "a table"@,
        },
    }
}

/// True if every element of an array is a string.
pub open spec fn all_strings(a: Seq<Option<Seq<char>>>) -> bool {
    forall|i: int| 0 <= i < a.len() ==> #[trigger] a[i] is Some
}

/// A TOML item as a written value: integers, booleans, strings and arrays of
/// strings as such, anything else by its description.
pub open spec fn converted(item: TomlItemModel) -> ParsedModel {
    match item {
        TomlItemModel::Value(TomlValueModel::Int(v)) => ParsedModel::Int(v),
        TomlItemModel::Value(TomlValueModel::Bool(b)) => ParsedModel::Bool(b),
        TomlItemModel::Value(TomlValueModel::Str(s)) => ParsedModel::Str(s),
        TomlItemModel::Value(TomlValueModel::Array(a)) => if all_strings(a) {
            ParsedModel::StrList(a.map_values(|e: Option<Seq<char>>| e->0))
        } else {
            ParsedModel::Other("an array with non-string elements"@)
        },
        _ => ParsedModel::Other(describe_item(item)),
    }
}

/// The written value of one table entry, with the spans that can be located.
pub open spec fn raw_of(e: TomlEntryModel, text: Seq<char>) -> RawModel {
    RawModel { value: converted(e.item), key_span: located(text, e.key_span), value_span: located(text, e.span) }
}

/// The error for an entry that should have been a table.
pub open spec fn not_table_diagnostic(e: TomlEntryModel, path: Seq<char>, text: Seq<char>) -> DiagnosticModel {
    placed(
        plain(Level::Error, "`"@ + e.key + "` must be a table, found "@ + describe_item(e.item)),
        path,
        text,
        located(text, e.key_span),
    )
}

/// The `[defaults]` section read from its entries: the last `enabled` and
/// `severity` written.
pub open spec fn defaults_from(es: Seq<TomlEntryModel>, text: Seq<char>) -> RawDefaultsModel
    decreases es.len(),
{
    if es.len() == 0 {
        RawDefaultsModel { enabled: None, severity: None }
    } else {
        let d = defaults_from(es.drop_last(), text);
        let e = es.last();
        if e.key == "enabled"@ {
            RawDefaultsModel { enabled: Some(raw_of(e, text)), ..d }
        } else if e.key == "severity"@ {
            RawDefaultsModel { severity: Some(raw_of(e, text)), ..d }
        } else {
            d
        }
    }
}

/// The warnings for keys of `[defaults]` other than `enabled` and `severity`.
pub open spec fn defaults_diagnostics(es: Seq<TomlEntryModel>, path: Seq<char>, text: Seq<char>) -> Seq<DiagnosticModel>
    decreases es.len(),
{
    if es.len() == 0 {
        seq![]
    } else {
        let e = es.last();
        defaults_diagnostics(es.drop_last(), path, text) + if e.key == "enabled"@ || e.key == "severity"@ {
            seq![]
        } else {
            seq![
                suggested(
                    placed(
                        plain(Level::Warning, "unknown key `"@ + e.key + "` in `[defaults]`"@),
                        path,
                        text,
                        blame_key_of(raw_of(e, text)),
                    ),
                    e.key,
                    seq!["enabled"@, "severity"@],
                ),
            ]
        }
    }
}

/// A flat table read from its entries, each key bound to its written value.
pub open spec fn kv_from(es: Seq<TomlEntryModel>, text: Seq<char>) -> Seq<(Seq<char>, RawModel)>
    decreases es.len(),
{
    if es.len() == 0 {
        seq![]
    } else {
        insert_entry(kv_from(es.drop_last(), text), es.last().key, raw_of(es.last(), text))
    }
}

/// One cop entry read from its table: `enabled` and `severity` apart, every
/// other key a parameter.
pub open spec fn cop_from(es: Seq<TomlEntryModel>, text: Seq<char>) -> RawCopModel
    decreases es.len(),
{
    if es.len() == 0 {
        RawCopModel { enabled: None, severity: None, params: seq![] }
    } else {
        let c = cop_from(es.drop_last(), text);
        let e = es.last();
        let v = raw_of(e, text);
        if e.key == "enabled"@ {
            RawCopModel { enabled: Some(v), ..c }
        } else if e.key == "severity"@ {
            RawCopModel { severity: Some(v), ..c }
        } else {
            RawCopModel { params: insert_entry(c.params, e.key, v), ..c }
        }
    }
}

/// `acc` with every cop table among the entries of family `family` added.
pub open spec fn family_into(
    acc: Seq<(Seq<char>, Seq<(Seq<char>, RawCopModel)>)>,
    family: Seq<char>,
    es: Seq<TomlEntryModel>,
    text: Seq<char>,
) -> Seq<(Seq<char>, Seq<(Seq<char>, RawCopModel)>)>
    decreases es.len(),
{
    if es.len() == 0 {
        acc
    } else {
        let a = family_into(acc, family, es.drop_last(), text);
        let e = es.last();
        match e.item {
            TomlItemModel::Table(ces) => cops_insert(a, family, e.key, cop_from(ces, text)),
            _ => a,
        }
    }
}

/// The `[cops]` table read from its entries: every cop table of every family
/// table.
pub open spec fn cops_from(es: Seq<TomlEntryModel>, text: Seq<char>) -> Seq<(Seq<char>, Seq<(Seq<char>, RawCopModel)>)>
    decreases es.len(),
{
    if es.len() == 0 {
        seq![]
    } else {
        let a = cops_from(es.drop_last(), text);
        let e = es.last();
        match e.item {
            TomlItemModel::Table(fes) => family_into(a, e.key, fes, text),
            _ => a,
        }
    }
}

/// The errors for entries of a family table that are not tables.
pub open spec fn family_table_diagnostics(es: Seq<TomlEntryModel>, path: Seq<char>, text: Seq<char>) -> Seq<DiagnosticModel>
    decreases es.len(),
{
    if es.len() == 0 {
        seq![]
    } else {
        let e = es.last();
        family_table_diagnostics(es.drop_last(), path, text) + match e.item {
            TomlItemModel::Table(_) => seq![],
            _ => seq![not_table_diagnostic(e, path, text)],
        }
    }
}

/// The errors for the `[cops]` table: families and cops that are not tables.
pub open spec fn cops_table_diagnostics(es: Seq<TomlEntryModel>, path: Seq<char>, text: Seq<char>) -> Seq<DiagnosticModel>
    decreases es.len(),
{
    if es.len() == 0 {
        seq![]
    } else {
        let e = es.last();
        cops_table_diagnostics(es.drop_last(), path, text) + match e.item {
            TomlItemModel::Table(fes) => family_table_diagnostics(fes, path, text),
            _ => seq![not_table_diagnostic(e, path, text)],
        }
    }
}

/// A file with nothing in it.
pub open spec fn empty_config() -> RawConfigModel {
    RawConfigModel { defaults: RawDefaultsModel { enabled: None, severity: None }, globals: seq![], cops: seq![] }
}

/// A configuration file read from the root table's entries.
pub open spec fn config_from(es: Seq<TomlEntryModel>, text: Seq<char>) -> RawConfigModel
    decreases es.len(),
{
    if es.len() == 0 {
        empty_config()
    } else {
        let c = config_from(es.drop_last(), text);
        let e = es.last();
        match e.item {
            TomlItemModel::Table(t) => if e.key == "defaults"@ {
                RawConfigModel { defaults: defaults_from(t, text), ..c }
            } else if e.key == "globals"@ {
                RawConfigModel { globals: kv_from(t, text), ..c }
            } else if e.key == "cops"@ {
                RawConfigModel { cops: cops_from(t, text), ..c }
            } else {
                c
            },
            _ => c,
        }
    }
}

/// The diagnostics for one top-level entry.
pub open spec fn top_level_diagnostics(e: TomlEntryModel, path: Seq<char>, text: Seq<char>) -> Seq<DiagnosticModel> {
    if e.key == "defaults"@ || e.key == "globals"@ || e.key == "cops"@ {
        match e.item {
            TomlItemModel::Table(t) => if e.key == "defaults"@ {
                defaults_diagnostics(t, path, text)
            } else if e.key == "cops"@ {
                cops_table_diagnostics(t, path, text)
            } else {
                seq![]
            },
            _ => seq![not_table_diagnostic(e, path, text)],
        }
    } else {
        seq![
            suggested(
                placed(
                    plain(Level::Warning, "unknown top-level key `"@ + e.key + "`"@),
                    path,
                    text,
                    located(text, e.key_span),
                ),
                e.key,
                seq!["defaults"@, "globals"@, "cops"@],
            ),
        ]
    }
}

/// The diagnostics for a whole file, entry by entry.
pub open spec fn config_diagnostics(es: Seq<TomlEntryModel>, path: Seq<char>, text: Seq<char>) -> Seq<DiagnosticModel>
    decreases es.len(),
{
    if es.len() == 0 {
        seq![]
    } else {
        config_diagnostics(es.drop_last(), path, text) + top_level_diagnostics(es.last(), path, text)
    }
}

/// Every value read from a table can be located.
proof fn lemma_kv_from_ok(es: Seq<TomlEntryModel>, text: Seq<char>)
    ensures
        values_ok(kv_from(es, text), text),
    decreases es.len(),
{
    if es.len() > 0 {
        let before = kv_from(es.drop_last(), text);
        let e = es.last();
        lemma_kv_from_ok(es.drop_last(), text);
        lemma_insert_entry(before, e.key, raw_of(e, text));
        let after = kv_from(es, text);
        assert forall|i: int| 0 <= i < after.len() implies raw_locatable(#[trigger] after[i].1, text) by {
            lemma_insert_entry_from(before, e.key, raw_of(e, text), i);
        }
    }
}

/// A cop entry read from a table is well formed.
proof fn lemma_cop_from_ok(es: Seq<TomlEntryModel>, text: Seq<char>)
    ensures
        raw_cop_ok(cop_from(es, text), text),
    decreases es.len(),
{
    if es.len() > 0 {
        let c = cop_from(es.drop_last(), text);
        let e = es.last();
        lemma_cop_from_ok(es.drop_last(), text);
        lemma_insert_entry(c.params, e.key, raw_of(e, text));
        let p = insert_entry(c.params, e.key, raw_of(e, text));
        assert forall|i: int| 0 <= i < p.len() implies raw_locatable(#[trigger] p[i].1, text) by {
            lemma_insert_entry_from(c.params, e.key, raw_of(e, text), i);
        }
    }
}

/// True if families are sorted and each is well formed.
pub open spec fn families_ok(fams: Seq<(Seq<char>, Seq<(Seq<char>, RawCopModel)>)>, text: Seq<char>) -> bool {
    &&& sorted_keys(fams)
    &&& forall|i: int| 0 <= i < fams.len() ==> family_ok(#[trigger] fams[i].1, text)
}

/// Setting one well-formed entry keeps the families well formed.
proof fn lemma_cops_insert_ok(
    fams: Seq<(Seq<char>, Seq<(Seq<char>, RawCopModel)>)>,
    family: Seq<char>,
    name: Seq<char>,
    c: RawCopModel,
    text: Seq<char>,
)
    requires
        families_ok(fams, text),
        raw_cop_ok(c, text),
    ensures
        families_ok(cops_insert(fams, family, name, c), text),
{
    let current = match lookup(fams, family) {
        Some(m) => m,
        None => Seq::<(Seq<char>, RawCopModel)>::empty(),
    };
    if lookup(fams, family) is Some {
        lemma_lookup_has(fams, family);
        lemma_lookup_position(fams, family);
    }
    assert(family_ok(current, text));
    let inner = insert_entry(current, name, c);
    lemma_insert_entry(current, name, c);
    assert forall|i: int| 0 <= i < inner.len() implies raw_cop_ok(#[trigger] inner[i].1, text) by {
        lemma_insert_entry_from(current, name, c, i);
    }
    lemma_insert_entry(fams, family, inner);
    let after = insert_entry(fams, family, inner);
    assert forall|i: int| 0 <= i < after.len() implies family_ok(#[trigger] after[i].1, text) by {
        lemma_insert_entry_from(fams, family, inner, i);
    }
}

proof fn lemma_family_into_ok(
    acc: Seq<(Seq<char>, Seq<(Seq<char>, RawCopModel)>)>,
    family: Seq<char>,
    es: Seq<TomlEntryModel>,
    text: Seq<char>,
)
    requires
        families_ok(acc, text),
    ensures
        families_ok(family_into(acc, family, es, text), text),
    decreases es.len(),
{
    if es.len() > 0 {
        lemma_family_into_ok(acc, family, es.drop_last(), text);
        if let TomlItemModel::Table(ces) = es.last().item {
            lemma_cop_from_ok(ces, text);
            lemma_cops_insert_ok(family_into(acc, family, es.drop_last(), text), family, es.last().key, cop_from(ces, text), text);
        }
    }
}

proof fn lemma_cops_from_ok(es: Seq<TomlEntryModel>, text: Seq<char>)
    ensures
        families_ok(cops_from(es, text), text),
    decreases es.len(),
{
    if es.len() > 0 {
        lemma_cops_from_ok(es.drop_last(), text);
        if let TomlItemModel::Table(fes) = es.last().item {
            lemma_family_into_ok(cops_from(es.drop_last(), text), es.last().key, fes, text);
        }
    }
}

/// What is read from a document is well formed.
pub proof fn lemma_config_from_ok(es: Seq<TomlEntryModel>, text: Seq<char>)
    ensures
        raw_wf(config_from(es, text), text),
    decreases es.len(),
{
    if es.len() > 0 {
        lemma_config_from_ok(es.drop_last(), text);
        if let TomlItemModel::Table(t) = es.last().item {
            lemma_kv_from_ok(t, text);
            lemma_cops_from_ok(t, text);
            lemma_defaults_from_ok(t, text);
        }
    }
}

proof fn lemma_defaults_from_ok(es: Seq<TomlEntryModel>, text: Seq<char>)
    ensures
        opt_raw_locatable(defaults_from(es, text).enabled, text),
        opt_raw_locatable(defaults_from(es, text).severity, text),
    decreases es.len(),
{
    if es.len() > 0 {
        lemma_defaults_from_ok(es.drop_last(), text);
    }
}

/// True if text can be located at byte `offset` of `text`.
fn is_locatable(text: &str, offset: usize) -> (res: bool)
    ensures
        res == locatable(text@, offset),
{
    let len = text.as_bytes().len();
    if len == usize::MAX {
        return false;
    }
    offset >= len || text.is_char_boundary(offset)
}

/// A span, kept only if text can be located at its start.
fn located_span(text: &str, span: Option<Range<usize>>) -> (res: Option<Range<usize>>)
    ensures
        res == located(text@, span),
{
    match span {
        Some(s) => if is_locatable(text, s.start) {
            Some(s)
        } else {
            None
        },
        None => None,
    }
}

/// Human-readable description of a TOML item, for diagnostics.
fn describe(item: &TomlItem) -> (res: &'static str)
    ensures
        res@ == describe_item(item_model(*item)),
{
    match item {
        TomlItem::Nothing => "nothing",
        TomlItem::Table(_) => "a table",
        TomlItem::ArrayOfTables => "an array of tables",
        TomlItem::Value(value) => match value {
            TomlValue::Str(_) => "a string",
            TomlValue::Int(_) => "an integer",
            TomlValue::Float => "a float",
            TomlValue::Bool(_) => "a boolean",
            TomlValue::Datetime => "a datetime",
            TomlValue::Array(_) => "an array",
            TomlValue::InlineTable => "a table",
        },
    }
}

/// Convert a TOML item into a [`ParsedValue`].
fn convert(item: &TomlItem) -> (res: ParsedValue)
    ensures
        res@ == converted(item_model(*item)),
{
    match item {
        TomlItem::Value(TomlValue::Int(v)) => ParsedValue::Int(*v),
        TomlItem::Value(TomlValue::Bool(b)) => ParsedValue::Bool(*b),
        TomlItem::Value(TomlValue::Str(s)) => ParsedValue::Str(s.clone()),
        TomlItem::Value(TomlValue::Array(elements)) => {
            let ghost a = elements.deep_view();
            assert(item_model(*item) == TomlItemModel::Value(TomlValueModel::Array(a)));
            let mut list: Vec<String> = Vec::new();
            let mut i: usize = 0;
            while i < elements.len()
                invariant
                    i <= elements@.len(),
                    a == elements.deep_view(),
                    item_model(*item) == TomlItemModel::Value(TomlValueModel::Array(a)),
                    list@.len() == i,
                    forall|j: int| 0 <= j < i ==> #[trigger] a[j] is Some && list@[j]@ == a[j]->0,
                decreases elements@.len() - i,
            {
                match &elements[i] {
                    Some(s) => list.push(s.clone()),
                    None => {
                        assert(a[i as int] is None);
                        assert(!all_strings(a));
                        return ParsedValue::Other("an array with non-string elements");
                    },
                }
                i = i + 1;
            }
            assert(list.deep_view() =~= a.map_values(|e: Option<Seq<char>>| e->0));
            ParsedValue::StrList(list)
        },
        _ => ParsedValue::Other(describe(item)),
    }
}

/// Build a [`RawValue`] for one table entry.
fn raw_value(entry: &TomlEntry, text: &str) -> (res: RawValue)
    ensures
        res@ == raw_of(entry_model(*entry), text@),
{
    RawValue {
        value: convert(&entry.item),
        key_span: located_span(text, copy_span(&entry.key_span)),
        value_span: located_span(text, copy_span(&entry.span)),
    }
}

/// Require that an entry holds a table, reporting a diagnostic if it does not.
fn expect_table<'a>(entry: &'a TomlEntry, source: &ConfigSource, diagnostics: &mut Diagnostics) -> (res: Option<&'a TomlTable>)
    ensures
        match item_model(entry.item) {
            TomlItemModel::Table(es) => res matches Some(t) && t@ == es && final(diagnostics)@ == old(diagnostics)@,
            _ => res is None && final(diagnostics)@ == old(diagnostics)@.push(
                not_table_diagnostic(entry_model(*entry), source.path@, source.text@),
            ),
        },
{
    match &entry.item {
        TomlItem::Table(table) => Some(table),
        other => {
            let mut message = concat3("`", entry.key.as_str(), "` must be a table, found ");
            message.append(describe(other));
            DiagnosticBuilder::error(message).at(
                source.path.as_str(),
                source.text.as_str(),
                located_span(source.text.as_str(), copy_span(&entry.key_span)),
            ).emit(diagnostics);
            None
        },
    }
}

/// The keys the `[defaults]` section accepts.
fn framework_keys() -> (res: &'static [&'static str])
    ensures
        str_views(res@) == seq!["enabled"@, "severity"@],
{
    let keys: &'static [&'static str] = &["enabled", "severity"];
    assert(str_views(keys@) =~= seq!["enabled"@, "severity"@]);
    keys
}

/// The top-level keys this format recognises.
fn top_level_keys() -> (res: &'static [&'static str])
    ensures
        str_views(res@) == seq!["defaults"@, "globals"@, "cops"@],
{
    let keys: &'static [&'static str] = &["defaults", "globals", "cops"];
    assert(str_views(keys@) =~= seq!["defaults"@, "globals"@, "cops"@]);
    keys
}

/// Parse the `[defaults]` section.
fn parse_defaults(table: &TomlTable, source: &ConfigSource, diagnostics: &mut Diagnostics) -> (res: RawDefaults)
    ensures
        res@ == defaults_from(table@, source.text@),
        final(diagnostics)@ == old(diagnostics)@ + defaults_diagnostics(table@, source.path@, source.text@),
{
    let ghost es = table@;
    let ghost d0 = diagnostics@;
    proof {
        lemma_entries_model(table.entries@);
    }
    let keys = framework_keys();
    let mut defaults = RawDefaults { enabled: None, severity: None };
    let mut i: usize = 0;
    assert(es.take(0).len() == 0);
    assert(d0 + defaults_diagnostics(es.take(0), source.path@, source.text@) =~= d0);
    while i < table.entries.len()
        invariant
            i <= es.len(),
            es == table@,
            es.len() == table.entries@.len(),
            forall|j: int| 0 <= j < es.len() ==> #[trigger] es[j] == entry_model(table.entries@[j]),
            str_views(keys@) == seq!["enabled"@, "severity"@],
            defaults@ == defaults_from(es.take(i as int), source.text@),
            diagnostics@ == d0 + defaults_diagnostics(es.take(i as int), source.path@, source.text@),
        decreases es.len() - i,
    {
        let entry = &table.entries[i];
        proof {
            let t = es.take(i + 1);
            assert(t.drop_last() =~= es.take(i as int));
            assert(t.last() == entry_model(*entry));
        }
        let raw = raw_value(entry, source.text.as_str());
        let key = entry.key.as_str();
        if str_eq(key, "enabled") {
            defaults.enabled = Some(raw);
        } else if str_eq(key, "severity") {
            defaults.severity = Some(raw);
        } else {
            let blame = raw.blame_key();
            DiagnosticBuilder::warning(concat3("unknown key `", key, "` in `[defaults]`")).at(
                source.path.as_str(),
                source.text.as_str(),
                blame,
            ).suggest(key, keys).emit(diagnostics);
        }
        assert(diagnostics@ =~= d0 + defaults_diagnostics(es.take(i + 1), source.path@, source.text@));
        i = i + 1;
    }
    assert(es.take(i as int) =~= es);
    defaults
}

/// Collect a flat table of key/value pairs without interpreting them.
fn parse_kv_table(table: &TomlTable, text: &str) -> (res: TextMap<String, RawValue>)
    ensures
        values_model(res@) == kv_from(table@, text@),
{
    let ghost es = table@;
    proof {
        lemma_entries_model(table.entries@);
    }
    let mut values: TextMap<String, RawValue> = TextMap::new();
    let mut i: usize = 0;
    assert(values_model(values@) =~= kv_from(es.take(0), text@));
    while i < table.entries.len()
        invariant
            i <= es.len(),
            es == table@,
            es.len() == table.entries@.len(),
            forall|j: int| 0 <= j < es.len() ==> #[trigger] es[j] == entry_model(table.entries@[j]),
            sorted_keys(values@),
            values_model(values@) == kv_from(es.take(i as int), text@),
        decreases es.len() - i,
    {
        let entry = &table.entries[i];
        let raw = raw_value(entry, text);
        proof {
            let t = es.take(i + 1);
            assert(t.drop_last() =~= es.take(i as int));
            assert(t.last() == entry_model(*entry));
            lemma_insert_entry(values@, entry.key@, raw);
            lemma_insert_entry_map(values@, entry.key@, raw, |v: RawValue| v@);
        }
        values.insert(entry.key.clone(), raw);
        i = i + 1;
    }
    assert(es.take(i as int) =~= es);
    values
}

/// Read one cop entry from its table.
fn parse_cop(table: &TomlTable, text: &str) -> (res: RawCop)
    ensures
        res@ == cop_from(table@, text@),
{
    let ghost es = table@;
    proof {
        lemma_entries_model(table.entries@);
    }
    let mut cop = RawCop { enabled: None, severity: None, params: TextMap::new() };
    let mut i: usize = 0;
    assert(es.take(0).len() == 0);
    assert(cop@.params =~= Seq::<(Seq<char>, RawModel)>::empty());
    while i < table.entries.len()
        invariant
            i <= es.len(),
            es == table@,
            es.len() == table.entries@.len(),
            forall|j: int| 0 <= j < es.len() ==> #[trigger] es[j] == entry_model(table.entries@[j]),
            sorted_keys(cop.params@),
            cop@ == cop_from(es.take(i as int), text@),
        decreases es.len() - i,
    {
        let entry = &table.entries[i];
        let raw = raw_value(entry, text);
        proof {
            let t = es.take(i + 1);
            assert(t.drop_last() =~= es.take(i as int));
            assert(t.last() == entry_model(*entry));
        }
        let key = entry.key.as_str();
        if str_eq(key, "enabled") {
            cop.enabled = Some(raw);
        } else if str_eq(key, "severity") {
            cop.severity = Some(raw);
        } else {
            proof {
                lemma_insert_entry(cop.params@, entry.key@, raw);
                lemma_insert_entry_map(cop.params@, entry.key@, raw, |v: RawValue| v@);
            }
            cop.params.insert(entry.key.clone(), raw);
        }
        i = i + 1;
    }
    assert(es.take(i as int) =~= es);
    cop
}

/// Add every cop table of the family table `table`, named `family`.
fn parse_family(cops: &mut RawCops, family: &str, table: &TomlTable, source: &ConfigSource, diagnostics: &mut Diagnostics)
    requires
        old(cops).wf(),
    ensures
        final(cops).wf(),
        final(cops)@ == family_into(old(cops)@, family@, table@, source.text@),
        final(diagnostics)@ == old(diagnostics)@ + family_table_diagnostics(table@, source.path@, source.text@),
{
    let ghost es = table@;
    let ghost c0 = cops@;
    let ghost d0 = diagnostics@;
    proof {
        lemma_entries_model(table.entries@);
    }
    let mut i: usize = 0;
    assert(es.take(0).len() == 0);
    assert(d0 + family_table_diagnostics(es.take(0), source.path@, source.text@) =~= d0);
    while i < table.entries.len()
        invariant
            i <= es.len(),
            es == table@,
            es.len() == table.entries@.len(),
            forall|j: int| 0 <= j < es.len() ==> #[trigger] es[j] == entry_model(table.entries@[j]),
            cops.wf(),
            cops@ == family_into(c0, family@, es.take(i as int), source.text@),
            diagnostics@ == d0 + family_table_diagnostics(es.take(i as int), source.path@, source.text@),
        decreases es.len() - i,
    {
        let entry = &table.entries[i];
        proof {
            let t = es.take(i + 1);
            assert(t.drop_last() =~= es.take(i as int));
            assert(t.last() == entry_model(*entry));
        }
        if let Some(cop_table) = expect_table(entry, source, diagnostics) {
            let cop = parse_cop(cop_table, source.text.as_str());
            cops.insert(family.to_owned(), entry.key.clone(), cop);
        }
        assert(diagnostics@ =~= d0 + family_table_diagnostics(es.take(i + 1), source.path@, source.text@));
        i = i + 1;
    }
    assert(es.take(i as int) =~= es);
}

/// Parse the `[cops]` table into entries grouped by family.
fn parse_cops(table: &TomlTable, source: &ConfigSource, diagnostics: &mut Diagnostics) -> (res: RawCops)
    ensures
        res.wf(),
        res@ == cops_from(table@, source.text@),
        final(diagnostics)@ == old(diagnostics)@ + cops_table_diagnostics(table@, source.path@, source.text@),
{
    let ghost es = table@;
    let ghost d0 = diagnostics@;
    proof {
        lemma_entries_model(table.entries@);
    }
    let mut cops = RawCops::new();
    let mut i: usize = 0;
    assert(es.take(0).len() == 0);
    assert(d0 + cops_table_diagnostics(es.take(0), source.path@, source.text@) =~= d0);
    while i < table.entries.len()
        invariant
            i <= es.len(),
            es == table@,
            es.len() == table.entries@.len(),
            forall|j: int| 0 <= j < es.len() ==> #[trigger] es[j] == entry_model(table.entries@[j]),
            cops.wf(),
            cops@ == cops_from(es.take(i as int), source.text@),
            diagnostics@ == d0 + cops_table_diagnostics(es.take(i as int), source.path@, source.text@),
        decreases es.len() - i,
    {
        let entry = &table.entries[i];
        proof {
            let t = es.take(i + 1);
            assert(t.drop_last() =~= es.take(i as int));
            assert(t.last() == entry_model(*entry));
        }
        if let Some(family_table) = expect_table(entry, source, diagnostics) {
            parse_family(&mut cops, entry.key.as_str(), family_table, source, diagnostics);
        }
        assert(diagnostics@ =~= d0 + cops_table_diagnostics(es.take(i + 1), source.path@, source.text@));
        i = i + 1;
    }
    assert(es.take(i as int) =~= es);
    cops
}

/// Read a configuration file from its parsed root table.
///
/// Only the `[defaults]`, `[globals]` and `[cops]` tables are read; any
/// other top-level key is reported. Inside `[cops]`, every family and every
/// cop must be a table; entries that are not are reported and skipped.
pub fn parse_document(document: &TomlTable, source: &ConfigSource, diagnostics: &mut Diagnostics) -> (res: RawConfig)
    ensures
        res@ == config_from(document@, source.text@),
        raw_wf(res@, source.text@),
        final(diagnostics)@ == old(diagnostics)@ + config_diagnostics(document@, source.path@, source.text@),
{
    let ghost es = document@;
    let ghost d0 = diagnostics@;
    proof {
        lemma_entries_model(document.entries@);
        lemma_config_from_ok(es, source.text@);
    }
    let keys = top_level_keys();
    let mut config = RawConfig {
        defaults: RawDefaults { enabled: None, severity: None },
        globals: TextMap::new(),
        cops: RawCops::new(),
    };
    let mut i: usize = 0;
    assert(es.take(0).len() == 0);
    assert(config@.globals =~= Seq::<(Seq<char>, RawModel)>::empty());
    assert(d0 + config_diagnostics(es.take(0), source.path@, source.text@) =~= d0);
    while i < document.entries.len()
        invariant
            i <= es.len(),
            es == document@,
            es.len() == document.entries@.len(),
            forall|j: int| 0 <= j < es.len() ==> #[trigger] es[j] == entry_model(document.entries@[j]),
            str_views(keys@) == seq!["defaults"@, "globals"@, "cops"@],
            config@ == config_from(es.take(i as int), source.text@),
            diagnostics@ == d0 + config_diagnostics(es.take(i as int), source.path@, source.text@),
        decreases es.len() - i,
    {
        let entry = &document.entries[i];
        proof {
            let t = es.take(i + 1);
            assert(t.drop_last() =~= es.take(i as int));
            assert(t.last() == entry_model(*entry));
        }
        let key = entry.key.as_str();
        let ghost d1 = diagnostics@;
        let ghost e = entry_model(*entry);
        if str_eq(key, "defaults") {
            if let Some(table) = expect_table(entry, source, diagnostics) {
                config.defaults = parse_defaults(table, source, diagnostics);
            }
            assert(diagnostics@ =~= d1 + top_level_diagnostics(e, source.path@, source.text@));
        } else if str_eq(key, "globals") {
            if let Some(table) = expect_table(entry, source, diagnostics) {
                config.globals = parse_kv_table(table, source.text.as_str());
            }
            proof {
                reveal_strlit("globals");
                reveal_strlit("cops");
                assert("globals"@.len() != "cops"@.len());
            }
            assert(diagnostics@ =~= d1 + top_level_diagnostics(e, source.path@, source.text@));
        } else if str_eq(key, "cops") {
            if let Some(table) = expect_table(entry, source, diagnostics) {
                config.cops = parse_cops(table, source, diagnostics);
            }
            assert(diagnostics@ =~= d1 + top_level_diagnostics(e, source.path@, source.text@));
        } else {
            DiagnosticBuilder::warning(concat3("unknown top-level key `", key, "`")).at(
                source.path.as_str(),
                source.text.as_str(),
                located_span(source.text.as_str(), copy_span(&entry.key_span)),
            ).suggest(key, keys).emit(diagnostics);
            assert(diagnostics@ =~= d1 + top_level_diagnostics(e, source.path@, source.text@));
        }
        assert(diagnostics@ =~= d1 + top_level_diagnostics(e, source.path@, source.text@));
        assert(config@ =~= config_from(es.take(i + 1), source.text@));
        assert(diagnostics@ =~= d0 + config_diagnostics(es.take(i + 1), source.path@, source.text@));
        i = i + 1;
    }
    assert(es.take(i as int) =~= es);
    config
}

/// Parse one configuration file.
///
/// Only a text that is not valid TOML is an error. Structural problems within
/// valid TOML are reported through `diagnostics` instead.
pub fn parse(source: &ConfigSource, diagnostics: &mut Diagnostics) -> (res: Result<RawConfig, ConfigError>)
    ensures
        match toml_document(source.text@) {
            Ok(es) => res matches Ok(raw) && raw@ == config_from(es, source.text@) && raw_wf(raw@, source.text@)
                && final(diagnostics)@ == old(diagnostics)@ + config_diagnostics(es, source.path@, source.text@),
            Err((message, span)) => res matches Err(ConfigError::Parse { path: p, message: m, span: s })
                && p@ == source.path@ && m@ == message && s == span && final(diagnostics)@ == old(diagnostics)@,
        },
{
    match read_toml(source.text.as_str()) {
        Ok(document) => Ok(parse_document(&document, source, diagnostics)),
        Err(failure) => Err(ConfigError::Parse { path: source.path.clone(), message: failure.message, span: failure.span }),
    }
}

} // verus!
