//! A TOML document, as the configuration reads it.
//!
//! `toml_edit` parses the text; what the configuration layer reads of the
//! result (keys in document order, their spans, and the shape of each value)
//! is held here as plain data, so that the interpretation in
//! [`raw`](crate::config::raw) is verified against it.

use core::ops::Range;

use vstd::prelude::*;

verus! {

/// `toml_edit::Table`, read only while converting a parsed document.
#[verifier::external_type_specification]
#[verifier::external_body]
pub struct ExTomlTable(toml_edit::Table);

/// `toml_edit::Item`, read only while converting a parsed document.
#[verifier::external_type_specification]
#[verifier::external_body]
pub struct ExTomlItem(toml_edit::Item);

/// `toml_edit::Value`, read only while converting a parsed document.
#[verifier::external_type_specification]
#[verifier::external_body]
pub struct ExTomlValue(toml_edit::Value);

/// A TOML value, reduced to what the configuration reads of it.
#[derive(Debug, Clone, PartialEq, Eq)]
pub enum TomlValue {
    /// A string.
    Str(String),
    /// An integer.
    Int(i64),
    /// A float; its value is never read.
    Float,
    /// A boolean.
    Bool(bool),
    /// A date and time; its value is never read.
    Datetime,
    /// An inline array: for each element, its text if it is a string.
    Array(Vec<Option<String>>),
    /// An inline table; its contents are never read.
    InlineTable,
}

/// One item of a table.
#[derive(Debug)]
pub enum TomlItem {
    /// No item.
    Nothing,
    /// A value.
    Value(TomlValue),
    /// A table written with a `[header]`.
    Table(TomlTable),
    /// An array of tables; its contents are never read.
    ArrayOfTables,
}

/// One key of a table, with the item stored under it.
#[derive(Debug)]
pub struct TomlEntry {
    /// The key.
    pub key: String,
    /// Byte range of the key, when the parser recorded one.
    pub key_span: Option<Range<usize>>,
    /// Byte range of the item, when the parser recorded one.
    pub span: Option<Range<usize>>,
    /// The item.
    pub item: TomlItem,
}

/// A table: its entries, in document order.
#[derive(Debug)]
pub struct TomlTable {
    /// The entries, in document order.
    pub entries: Vec<TomlEntry>,
}

/// Why a text is not valid TOML.
#[derive(Debug, Clone, PartialEq, Eq)]
pub struct TomlFailure {
    /// The parser's message.
    pub message: String,
    /// Byte range of the offending text, when the parser supplied one.
    pub span: Option<Range<usize>>,
}

/// A TOML value as plain values.
pub enum TomlValueModel {
    Str(Seq<char>),
    Int(i64),
    Float,
    Bool(bool),
    Datetime,
    Array(Seq<Option<Seq<char>>>),
    InlineTable,
}

/// A table item as plain values.
pub enum TomlItemModel {
    Nothing,
    Value(TomlValueModel),
    Table(Seq<TomlEntryModel>),
    ArrayOfTables,
}

/// A table entry as plain values.
pub struct TomlEntryModel {
    pub key: Seq<char>,
    pub key_span: Option<Range<usize>>,
    pub span: Option<Range<usize>>,
    pub item: TomlItemModel,
}

impl View for TomlValue {
    type V = TomlValueModel;

    open spec fn view(&self) -> TomlValueModel {
        match self {
            TomlValue::Str(s) => TomlValueModel::Str(s@),
            TomlValue::Int(v) => TomlValueModel::Int(*v),
            TomlValue::Float => TomlValueModel::Float,
            TomlValue::Bool(b) => TomlValueModel::Bool(*b),
            TomlValue::Datetime => TomlValueModel::Datetime,
            TomlValue::Array(a) => TomlValueModel::Array(a.deep_view()),
            TomlValue::InlineTable => TomlValueModel::InlineTable,
        }
    }
}

/// An item as plain values.
pub open spec fn item_model(item: TomlItem) -> TomlItemModel
    decreases item,
{
    match item {
        TomlItem::Nothing => TomlItemModel::Nothing,
        TomlItem::Value(v) => TomlItemModel::Value(v@),
        TomlItem::Table(t) => TomlItemModel::Table(entries_model(t.entries@)),
        TomlItem::ArrayOfTables => TomlItemModel::ArrayOfTables,
    }
}

/// Entries as plain values.
pub open spec fn entries_model(entries: Seq<TomlEntry>) -> Seq<TomlEntryModel>
    decreases entries,
{
    if entries.len() == 0 {
        Seq::empty()
    } else {
        let e = entries.last();
        entries_model(entries.drop_last()).push(
            TomlEntryModel { key: e.key@, key_span: e.key_span, span: e.span, item: item_model(e.item) },
        )
    }
}

/// One entry as plain values.
pub open spec fn entry_model(e: TomlEntry) -> TomlEntryModel {
    TomlEntryModel { key: e.key@, key_span: e.key_span, span: e.span, item: item_model(e.item) }
}

/// Each entry's model is the model of that entry.
pub proof fn lemma_entries_model(entries: Seq<TomlEntry>)
    ensures
        entries_model(entries).len() == entries.len(),
        forall|i: int| 0 <= i < entries.len() ==> #[trigger] entries_model(entries)[i] == entry_model(entries[i]),
    decreases entries.len(),
{
    if entries.len() > 0 {
        lemma_entries_model(entries.drop_last());
        assert forall|i: int| 0 <= i < entries.len() implies #[trigger] entries_model(entries)[i] == entry_model(entries[i]) by {
            if i < entries.len() - 1 {
                assert(entries.drop_last()[i] == entries[i]);
            }
        }
    }
}

impl View for TomlTable {
    type V = Seq<TomlEntryModel>;

    open spec fn view(&self) -> Seq<TomlEntryModel> {
        entries_model(self.entries@)
    }
}

/// What reading a text as TOML gives, as plain values: the root table, or
/// the parser's message and span.
pub open spec fn read_model(res: Result<TomlTable, TomlFailure>) -> Result<Seq<TomlEntryModel>, (Seq<char>, Option<Range<usize>>)> {
    match res {
        Ok(t) => Ok(t@),
        Err(e) => Err((e.message@, e.span)),
    }
}

/// What `toml_edit::Document::parse` makes of a text: the root table, or the
/// parser's message and span.
pub uninterp spec fn toml_document(text: Seq<char>) -> Result<Seq<TomlEntryModel>, (Seq<char>, Option<Range<usize>>)>;

/// Parse `text` with `toml_edit::Document::parse`.
///
/// The result is claimed to be a function of the text alone, named
/// [`toml_document`]: the root table's entries as `Table::iter` lists them,
/// or the message and span of the `TomlError`.
#[verifier::external_body]
pub(crate) fn read_toml(text: &str) -> (res: Result<TomlTable, TomlFailure>)
    ensures
        read_model(res) == toml_document(text@),
{
    match toml_edit::Document::parse(text) {
        Ok(document) => Ok(table_of(document.as_table())),
        Err(error) => Err(TomlFailure { message: error.message().to_owned(), span: error.span() }),
    }
}

/// Convert a `toml_edit::Table`, entry by entry as `Table::iter` lists them,
/// with each key's span from `Table::key` and each item's from `Item::span`.
#[verifier::external_body]
fn table_of(table: &toml_edit::Table) -> TomlTable {
    let entries = table.iter().map(|(key, item)| TomlEntry {
        key: key.to_owned(),
        key_span: table.key(key).and_then(toml_edit::Key::span),
        span: item.span(),
        item: item_of(item),
    }).collect();
    TomlTable { entries }
}

/// Convert a `toml_edit::Item`, one variant to one variant.
#[verifier::external_body]
fn item_of(item: &toml_edit::Item) -> TomlItem {
    match item {
        toml_edit::Item::None => TomlItem::Nothing,
        toml_edit::Item::Value(value) => TomlItem::Value(value_of(value)),
        toml_edit::Item::Table(table) => TomlItem::Table(table_of(table)),
        toml_edit::Item::ArrayOfTables(_) => TomlItem::ArrayOfTables,
    }
}

/// Convert a `toml_edit::Value`, one variant to one variant, keeping each
/// array element's text when `Value::as_str` gives one.
#[verifier::external_body]
fn value_of(value: &toml_edit::Value) -> TomlValue {
    match value {
        toml_edit::Value::String(v) => TomlValue::Str(v.value().clone()),
        toml_edit::Value::Integer(v) => TomlValue::Int(*v.value()),
        toml_edit::Value::Float(_) => TomlValue::Float,
        toml_edit::Value::Boolean(v) => TomlValue::Bool(*v.value()),
        toml_edit::Value::Datetime(_) => TomlValue::Datetime,
        toml_edit::Value::Array(a) => TomlValue::Array(a.iter().map(|e| e.as_str().map(str::to_owned)).collect()),
        toml_edit::Value::InlineTable(_) => TomlValue::InlineTable,
    }
}

} // verus!
