use yarlint::config::spec::{check_invariants, ParamKind, ParamSpec, SpecViolation};
use yarlint::config::{CopDecl, ParamValue};
use yarlint::linter::cop::Category;
use yarlint::linter::finding::Severity;

#[test]
fn enum_default_must_be_a_variant() {
    let bad: &'static [CopDecl] = &[CopDecl {
        category: Category::Style,
        name: "Broken",
        default_severity: Severity::Info,
        default_enabled: true,
        params: &[ParamSpec {
            key: "case",
            kind: ParamKind::Enum { variants: &["PascalCase"], default: "SnakeCase" },
            doc: "",
        }],
    }];

    let violations = check_invariants(bad, &[]);

    assert!(matches!(violations.as_slice(), [SpecViolation::EnumDefaultNotAVariant { key: "case", .. }]));
}

#[test]
fn uint_default_must_sit_inside_its_range() {
    let bad: &'static [CopDecl] = &[CopDecl {
        category: Category::Naming,
        name: "Broken",
        default_severity: Severity::Info,
        default_enabled: true,
        params: &[ParamSpec { key: "size", kind: ParamKind::Uint { default: 900, min: 1, max: 512 }, doc: "" }],
    }];

    let violations = check_invariants(bad, &[]);

    assert!(matches!(violations.as_slice(), [SpecViolation::UintDefaultOutOfRange { key: "size", .. }]));
}

#[test]
fn duplicate_cop_names_are_caught() {
    let bad: &'static [CopDecl] = &[
        CopDecl {
            category: Category::Naming,
            name: "Same",
            default_severity: Severity::Info,
            default_enabled: true,
            params: &[],
        },
        CopDecl {
            category: Category::Naming,
            name: "Same",
            default_severity: Severity::Info,
            default_enabled: true,
            params: &[],
        },
    ];

    let violations = check_invariants(bad, &[]);

    assert!(matches!(violations.as_slice(), [SpecViolation::DuplicateCop { .. }]));
}

#[test]
fn defaults_materialise_with_the_right_variant() {
    let kind = ParamKind::StrList { default: &["author", "date"] };

    assert_eq!(kind.default_value(), ParamValue::StrList(vec!["author".to_string(), "date".to_string()]));
}

#[test]
fn every_kind_reports_a_type_name() {
    assert_eq!(ParamKind::Uint { default: 1, min: 1, max: 2 }.type_label(), "an integer");
    assert_eq!(ParamKind::Bool { default: true }.type_label(), "a boolean");
    assert_eq!(ParamKind::Str { default: "x" }.type_label(), "a string");
    assert_eq!(ParamKind::Enum { variants: &["x"], default: "x" }.type_label(), "a string");
    assert_eq!(ParamKind::StrList { default: &[] }.type_label(), "an array of strings");
}

#[test]
fn every_value_reports_a_type_name() {
    assert_eq!(ParamValue::Uint(1).type_label(), "an integer");
    assert_eq!(ParamValue::Bool(true).type_label(), "a boolean");
    assert_eq!(ParamValue::Str(String::new()).type_label(), "a string");
    assert_eq!(ParamValue::StrList(Vec::new()).type_label(), "an array of strings");
}

#[test]
fn every_kind_materialises_its_default() {
    assert_eq!(ParamKind::Uint { default: 7, min: 1, max: 9 }.default_value(), ParamValue::Uint(7));
    assert_eq!(ParamKind::Bool { default: false }.default_value(), ParamValue::Bool(false));
    assert_eq!(ParamKind::Str { default: "rule_" }.default_value(), ParamValue::Str("rule_".to_string()));
    assert_eq!(
        ParamKind::Enum { variants: &["a", "b"], default: "b" }.default_value(),
        ParamValue::Str("b".to_string())
    );
}

#[test]
fn duplicate_param_keys_are_caught() {
    let bad: &'static [ParamSpec] = &[
        ParamSpec { key: "size", kind: ParamKind::Uint { default: 1, min: 1, max: 2 }, doc: "" },
        ParamSpec { key: "size", kind: ParamKind::Bool { default: true }, doc: "" },
    ];

    let violations = check_invariants(&[], bad);

    assert!(matches!(violations.as_slice(), [SpecViolation::DuplicateParamKey { key: "size", .. }]));
}

#[test]
fn an_inverted_uint_range_is_caught_instead_of_the_default_check() {
    let bad: &'static [ParamSpec] =
        &[ParamSpec { key: "size", kind: ParamKind::Uint { default: 5, min: 10, max: 2 }, doc: "" }];

    let violations = check_invariants(&[], bad);

    assert!(matches!(violations.as_slice(), [SpecViolation::UintRangeInverted { key: "size", .. }]));
}

#[test]
fn an_enum_with_no_variants_is_caught() {
    let bad: &'static [ParamSpec] =
        &[ParamSpec { key: "case", kind: ParamKind::Enum { variants: &[], default: "PascalCase" }, doc: "" }];

    let violations = check_invariants(&[], bad);

    assert!(matches!(violations.as_slice(), [SpecViolation::EnumHasNoVariants { key: "case", .. }]));
}

#[test]
fn violations_name_the_owner_they_came_from() {
    let bad: &'static [CopDecl] = &[CopDecl {
        category: Category::Logic,
        name: "Broken",
        default_severity: Severity::Info,
        default_enabled: true,
        params: &[ParamSpec { key: "size", kind: ParamKind::Uint { default: 900, min: 1, max: 2 }, doc: "" }],
    }];

    let violations = check_invariants(bad, &[]);

    match &violations[0] {
        SpecViolation::UintDefaultOutOfRange { owner, .. } => {
            assert_eq!(owner, "Logic/Broken");
        }
        other => panic!("expected an out-of-range violation, got {other:?}"),
    }
}

#[test]
fn global_violations_are_attributed_to_globals() {
    let bad: &'static [ParamSpec] =
        &[ParamSpec { key: "case", kind: ParamKind::Enum { variants: &["a"], default: "b" }, doc: "" }];

    let violations = check_invariants(&[], bad);

    match &violations[0] {
        SpecViolation::EnumDefaultNotAVariant { owner, .. } => {
            assert_eq!(owner, "globals");
        }
        other => panic!("expected an enum violation, got {other:?}"),
    }
}
