//! The read handle a cop receives when it is built.
//!
//! Every accessor is infallible. Validation has already materialised every
//! declared parameter into the resolved map, range-checked and typed. If a cop
//! asks for a key it did not declare, or for the wrong type, the accessor
//! degrades to the declared default for that key, or to an empty value when
//! no default of that type is declared.

use vstd::prelude::*;

use crate::config::globals::copy_strings;
use crate::config::spec::{find_param, first_param_at, to_strings, ParamKind, ParamSpec, ParamValue};
use crate::text::str_views;
use crate::keyed::{lookup, TextMap};

verus! {

/// Read access to one cop's resolved parameters.
#[derive(Debug, Clone, Copy)]
pub struct CopParams<'a> {
    /// Resolved values, keyed by spec key.
    values: &'a TextMap<&'static str, ParamValue>,
    /// The declaring cop's specs, used to supply a fallback.
    specs: &'static [ParamSpec],
}

/// The kind of the first parameter declared with `key`, if any.
pub open spec fn declared_kind(specs: Seq<ParamSpec>, key: Seq<char>) -> Option<ParamKind> {
    if exists|i: int| first_param_at(specs, key, i) {
        Some(specs[choose|i: int| first_param_at(specs, key, i)].kind)
    } else {
        None
    }
}

proof fn lemma_declared_kind(specs: Seq<ParamSpec>, key: Seq<char>, i: int)
    requires
        first_param_at(specs, key, i),
    ensures
        declared_kind(specs, key) == Some(specs[i].kind),
{
    let j = choose|j: int| first_param_at(specs, key, j);
    if j < i {
        assert(specs[j].key@ != key);
    }
    if i < j {
        assert(specs[i].key@ != key);
    }
}

/// The integer read for `key`: the resolved integer, else the declared
/// integer default, else zero.
pub open spec fn read_uint(values: Seq<(Seq<char>, ParamValue)>, specs: Seq<ParamSpec>, key: Seq<char>) -> u64 {
    match lookup(values, key) {
        Some(ParamValue::Uint(v)) => v,
        _ => match declared_kind(specs, key) {
            Some(ParamKind::Uint { default, .. }) => default,
            _ => 0,
        },
    }
}

/// The boolean read for `key`: the resolved boolean, else the declared
/// boolean default, else false.
pub open spec fn read_bool(values: Seq<(Seq<char>, ParamValue)>, specs: Seq<ParamSpec>, key: Seq<char>) -> bool {
    match lookup(values, key) {
        Some(ParamValue::Bool(v)) => v,
        _ => match declared_kind(specs, key) {
            Some(ParamKind::Bool { default }) => default,
            _ => false,
        },
    }
}

/// The string read for `key`: the resolved string, else the declared string
/// or enum default, else empty.
pub open spec fn read_str(values: Seq<(Seq<char>, ParamValue)>, specs: Seq<ParamSpec>, key: Seq<char>) -> Seq<char> {
    match lookup(values, key) {
        Some(ParamValue::Str(v)) => v@,
        _ => match declared_kind(specs, key) {
            Some(ParamKind::Str { default }) => default@,
            Some(ParamKind::Enum { default, .. }) => default@,
            _ => Seq::empty(),
        },
    }
}

/// The list read for `key`: the resolved list, else the declared list
/// default, else empty.
pub open spec fn read_str_list(values: Seq<(Seq<char>, ParamValue)>, specs: Seq<ParamSpec>, key: Seq<char>) -> Seq<Seq<char>> {
    match lookup(values, key) {
        Some(ParamValue::StrList(v)) => v.deep_view(),
        _ => match declared_kind(specs, key) {
            Some(ParamKind::StrList { default }) => str_views(default@),
            _ => Seq::empty(),
        },
    }
}

impl<'a> CopParams<'a> {
    /// The resolved values this handle reads.
    pub closed spec fn values(&self) -> Seq<(Seq<char>, ParamValue)> {
        self.values@
    }

    /// The parameter declarations this handle falls back on.
    pub closed spec fn specs(&self) -> Seq<ParamSpec> {
        self.specs@
    }

    /// Wrap a resolved parameter map.
    pub fn new(values: &'a TextMap<&'static str, ParamValue>, specs: &'static [ParamSpec]) -> (res: Self)
        ensures
            res.values() == values@,
            res.specs() == specs@,
    {
        CopParams { values, specs }
    }

    fn fallback_kind(&self, key: &str) -> (res: Option<ParamKind>)
        ensures
            res == declared_kind(self.specs@, key@),
    {
        match find_param(self.specs, key) {
            Some(p) => {
                proof {
                    let i = choose|i: int| first_param_at(self.specs@, key@, i) && *p == self.specs@[i];
                    lemma_declared_kind(self.specs@, key@, i);
                }
                Some(p.kind)
            },
            None => None,
        }
    }

    /// Read an unsigned integer parameter.
    pub fn uint(&self, key: &str) -> (res: u64)
        ensures
            res == read_uint(self.values(), self.specs(), key@),
    {
        match self.values.get(key) {
            Some(ParamValue::Uint(value)) => *value,
            _ => match self.fallback_kind(key) {
                Some(ParamKind::Uint { default, .. }) => default,
                _ => 0,
            },
        }
    }

    /// Read a boolean parameter.
    pub fn bool(&self, key: &str) -> (res: bool)
        ensures
            res == read_bool(self.values(), self.specs(), key@),
    {
        match self.values.get(key) {
            Some(ParamValue::Bool(value)) => *value,
            _ => match self.fallback_kind(key) {
                Some(ParamKind::Bool { default }) => default,
                _ => false,
            },
        }
    }

    /// Read a string parameter. Also used for enum parameters, whose value is
    /// guaranteed by validation to be one of the declared variants.
    pub fn str(&self, key: &str) -> (res: &'a str)
        ensures
            res@ == read_str(self.values(), self.specs(), key@),
    {
        match self.values.get(key) {
            Some(ParamValue::Str(value)) => value.as_str(),
            _ => match self.fallback_kind(key) {
                Some(ParamKind::Str { default }) => default,
                Some(ParamKind::Enum { default, .. }) => default,
                _ => {
                    proof {
                        reveal_strlit("");
                    }
                    ""
                },
            },
        }
    }

    /// Read a string list parameter, as owned strings.
    pub fn str_list(&self, key: &str) -> (res: Vec<String>)
        ensures
            res.deep_view() == read_str_list(self.values(), self.specs(), key@),
    {
        match self.values.get(key) {
            Some(ParamValue::StrList(value)) => copy_strings(value),
            _ => match self.fallback_kind(key) {
                Some(ParamKind::StrList { default }) => to_strings(default),
                _ => {
                    let empty: Vec<String> = Vec::new();
                    assert(empty.deep_view() =~= Seq::<Seq<char>>::empty());
                    empty
                },
            },
        }
    }
}

} // verus!
