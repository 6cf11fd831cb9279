//! Configuration keys shared by more than one cop.
//!
//! Deliberately small. A key belongs here only when two or more cops genuinely
//! need to agree on it.

use vstd::prelude::*;

use crate::config::spec::{default_model, to_strings, ParamKind, ParamSpec, ParamValue};
use crate::text::str_views;
use crate::keyed::{lookup, TextMap};

verus! {

/// The `[globals]` section's declared keys.
pub fn globals_spec() -> (res: &'static [ParamSpec])
    ensures
        res@.len() == 1,
        res@[0].key@ == "required_meta_keys"@,
        res@[0].kind matches ParamKind::StrList { default } && default@.len() == 4
            && default@[0]@ == "author"@ && default@[1]@ == "description"@
            && default@[2]@ == "reference"@ && default@[3]@ == "date"@,
{
    let specs: &'static [ParamSpec] = &[
        ParamSpec {
            key: "required_meta_keys",
            kind: ParamKind::StrList { default: &["author", "description", "reference", "date"] },
            doc: "Meta keys every rule must define, in the order they should appear.",
        },
    ];
    specs
}

/// Resolved values for the `[globals]` section.
#[derive(Debug, Clone, PartialEq, Eq)]
pub struct Globals {
    /// Meta keys every rule must define, in the order they should appear.
    ///
    /// Shared by `Style/MissingRequiredMeta` and `Style/MetaKeysOrder` so that
    /// the two cannot disagree about what "required" means.
    pub required_meta_keys: Vec<String>,
}

/// The meta keys every rule must define when the file does not say: the
/// declared default of `required_meta_keys`.
pub open spec fn default_meta_keys() -> Seq<Seq<char>> {
    seq!["author"@, "description"@, "reference"@, "date"@]
}

/// The meta keys read from a validated parameter map: the list stored under
/// `required_meta_keys`, or the declared default if the map holds no list
/// there.
pub open spec fn meta_keys_of(values: Seq<(Seq<char>, ParamValue)>) -> Seq<Seq<char>> {
    match lookup(values, "required_meta_keys"@) {
        Some(ParamValue::StrList(list)) => list.deep_view(),
        _ => default_meta_keys(),
    }
}

/// A copy of a list of strings.
pub fn copy_strings(list: &Vec<String>) -> (res: Vec<String>)
    ensures
        res.deep_view() == list.deep_view(),
{
    let mut res: Vec<String> = Vec::new();
    let mut i: usize = 0;
    while i < list.len()
        invariant
            i <= list@.len(),
            res@.len() == i,
            forall|k: int| 0 <= k < i ==> #[trigger] res@[k]@ == list@[k]@,
        decreases list@.len() - i,
    {
        res.push(list[i].clone());
        i = i + 1;
    }
    assert(res.deep_view() =~= list.deep_view());
    res
}

impl Globals {
    /// Build from a validated parameter map.
    ///
    /// Validation guarantees the declared key is present with the right
    /// variant; a mismatch means the declaration and this struct have
    /// drifted, and the list falls back to the declared default.
    pub fn from_params(values: &TextMap<&'static str, ParamValue>) -> (res: Self)
        ensures
            res.required_meta_keys.deep_view() == meta_keys_of(values@),
    {
        let required_meta_keys = match values.get("required_meta_keys") {
            Some(ParamValue::StrList(list)) => copy_strings(list),
            _ => declared_meta_keys(),
        };
        Globals { required_meta_keys }
    }
}

/// The declared default of `required_meta_keys`, as owned strings.
fn declared_meta_keys() -> (res: Vec<String>)
    ensures
        res.deep_view() == default_meta_keys(),
{
    let specs = globals_spec();
    match specs[0].kind {
        ParamKind::StrList { default } => {
            let res = to_strings(default);
            assert(str_views(default@) =~= default_meta_keys());
            res
        },
        _ => {
            let empty: Vec<String> = Vec::new();
            empty
        },
    }
}

impl Default for Globals {
    /// The declared defaults of every global key.
    fn default() -> (res: Self)
        ensures
            res.required_meta_keys.deep_view() == seq!["author"@, "description"@, "reference"@, "date"@],
    {
        let specs = globals_spec();
        let mut values: TextMap<&'static str, ParamValue> = TextMap::new();
        let mut i: usize = 0;
        while i < specs.len()
            invariant
                specs@.len() == 1,
                i <= 1,
                crate::keyed::sorted_keys(values@),
                i == 0 ==> values@.len() == 0,
                i == 1 ==> lookup(values@, specs@[0].key@) == Some(values@[0].1) && values@[0].1@ == default_model(specs@[0].kind),
            decreases specs@.len() - i,
        {
            let spec = specs[i];
            let v = spec.kind.default_value();
            proof {
                crate::keyed::lemma_insert_entry(values@, spec.key@, v);
            }
            values.insert(spec.key, v);
            i = i + 1;
        }
        let res = Self::from_params(&values);
        res
    }
}

} // verus!
