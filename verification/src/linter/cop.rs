//! Cop families.

use vstd::prelude::*;

use crate::text::str_eq;

verus! {

/// The family a cop belongs to, which prefixes its qualified name.
///
/// Families are ordered as declared here, which is the order in which
/// resolved configuration lists them.
#[derive(Clone, Copy, Debug, PartialEq, Eq, Structural, PartialOrd, Ord, Hash)]
pub enum Category {
    /// Cops that catch probable mistakes.
    Lint,
    /// Cops that check the logic of conditions.
    Logic,
    /// Cops that check how rules are named.
    Naming,
    /// Cops that check style and metadata conventions.
    Style,
}

/// The name of a family as written in configuration files and selectors.
pub open spec fn category_name(c: Category) -> Seq<char> {
    match c {
        Category::Lint => "Lint"@,
        Category::Logic => "Logic"@,
        Category::Naming => "Naming"@,
        Category::Style => "Style"@,
    }
}

/// The family named `name`, if any.
pub open spec fn spec_parse_category(name: Seq<char>) -> Option<Category> {
    if name == "Lint"@ {
        Some(Category::Lint)
    } else if name == "Logic"@ {
        Some(Category::Logic)
    } else if name == "Naming"@ {
        Some(Category::Naming)
    } else if name == "Style"@ {
        Some(Category::Style)
    } else {
        None
    }
}

/// Family names identify families, and parsing a name finds its family.
pub proof fn lemma_category_names()
    ensures
        forall|c: Category| spec_parse_category(#[trigger] category_name(c)) == Some(c),
        forall|c1: Category, c2: Category|
            #[trigger] category_name(c1) == #[trigger] category_name(c2) ==> c1 == c2,
        forall|s: Seq<char>| #[trigger] spec_parse_category(s) matches Some(c) ==> category_name(c) == s,
{
    reveal_strlit("Lint");
    reveal_strlit("Logic");
    reveal_strlit("Naming");
    reveal_strlit("Style");
    assert("Lint"@.len() == 4 && "Logic"@.len() == 5 && "Naming"@.len() == 6 && "Style"@.len() == 5);
    assert("Logic"@[0] != "Style"@[0]);
}

impl Category {
    /// The family's name, for example `Naming`.
    pub fn name(&self) -> (res: &'static str)
        ensures
            res@ == category_name(*self),
    {
        match self {
            Category::Lint => "Lint",
            Category::Logic => "Logic",
            Category::Naming => "Naming",
            Category::Style => "Style",
        }
    }

    /// Parse a family name, exactly as [`Category::name`] writes it.
    pub fn parse(name: &str) -> (res: Option<Category>)
        ensures
            res == spec_parse_category(name@),
            res matches Some(c) ==> category_name(c) == name@,
            res is None ==> forall|c: Category| category_name(c) != name@,
    {
        proof {
            lemma_category_names();
        }
        if str_eq(name, "Lint") {
            Some(Category::Lint)
        } else if str_eq(name, "Logic") {
            Some(Category::Logic)
        } else if str_eq(name, "Naming") {
            Some(Category::Naming)
        } else if str_eq(name, "Style") {
            Some(Category::Style)
        } else {
            None
        }
    }
}

} // verus!
