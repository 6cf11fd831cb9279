use yarlint::config::spec::check_invariants;
use yarlint::config::{
    CliOverrides, ConfigError, CopDecl, Diagnostics, MapLoader, Origin, ParamKind, ParamSpec, ParamValue,
    ResolvedConfig,
};
use yarlint::linter::cop::Category;
use yarlint::linter::finding::Severity;

/// A stand-in registry used by every configuration test.
fn decls() -> &'static [CopDecl] {
    &[
        CopDecl {
            category: Category::Lint,
            name: "Fixture",
            default_severity: Severity::Warning,
            default_enabled: true,
            params: &[
                ParamSpec {
                    key: "strict",
                    kind: ParamKind::Bool { default: true },
                    doc: "Whether to apply the strict interpretation.",
                },
                ParamSpec {
                    key: "prefix",
                    kind: ParamKind::Str { default: "rule_" },
                    doc: "Prefix rule names are expected to carry.",
                },
                ParamSpec {
                    key: "ignored_tags",
                    kind: ParamKind::StrList { default: &["test", "wip"] },
                    doc: "Tags that exempt a rule from this cop.",
                },
            ],
        },
        CopDecl {
            category: Category::Naming,
            name: "RuleNameLength",
            default_severity: Severity::Info,
            default_enabled: true,
            params: &[
                ParamSpec {
                    key: "min_name_length",
                    kind: ParamKind::Uint { default: 4, min: 1, max: 512 },
                    doc: "Shortest permitted rule name, in characters.",
                },
                ParamSpec {
                    key: "max_name_length",
                    kind: ParamKind::Uint { default: 80, min: 1, max: 512 },
                    doc: "Longest permitted rule name, in characters.",
                },
            ],
        },
        CopDecl {
            category: Category::Style,
            name: "RuleNameCase",
            default_severity: Severity::Warning,
            default_enabled: true,
            params: &[ParamSpec {
                key: "case",
                kind: ParamKind::Enum { variants: &["PascalCase", "SnakeCase"], default: "PascalCase" },
                doc: "Casing convention rule names must follow.",
            }],
        },
        CopDecl {
            category: Category::Style,
            name: "MissingRequiredMeta",
            default_severity: Severity::Error,
            default_enabled: true,
            params: &[],
        },
    ]
}

/// Load configuration from a TOML string, returning the result and any
/// diagnostics.
fn load(text: &str) -> (ResolvedConfig, Diagnostics) {
    load_with(text, &CliOverrides::default())
}

/// Load configuration from a TOML string with command-line overrides applied.
fn load_with(text: &str, cli: &CliOverrides) -> (ResolvedConfig, Diagnostics) {
    let loader = MapLoader::single("yarlint.toml", text);
    let mut diagnostics = Diagnostics::new();
    let resolved = yarlint::config::load(&loader, decls(), cli, &mut diagnostics).expect("configuration should load");
    (resolved, diagnostics)
}

/// Every diagnostic message, for assertions.
fn messages(diagnostics: &Diagnostics) -> Vec<String> {
    diagnostics.entries().iter().map(|entry| entry.message.clone()).collect()
}

// ---------------------------------------------------------------------------
// Loading
// ---------------------------------------------------------------------------

#[test]
fn no_config_file_yields_registry_defaults() {
    let loader = MapLoader::new();
    let mut diagnostics = Diagnostics::new();

    let resolved = yarlint::config::load(&loader, decls(), &CliOverrides::default(), &mut diagnostics)
        .expect("configuration should load");

    assert!(diagnostics.is_empty());
    let settings = resolved.get(Category::Naming, "RuleNameLength").expect("cop should be registered");
    assert!(settings.enabled);
    assert_eq!(settings.severity, Severity::Info);
    assert_eq!(settings.params.get("max_name_length"), Some(&ParamValue::Uint(80)));
}

#[test]
fn file_overrides_defaults_and_leaves_the_rest_alone() {
    let (resolved, diagnostics) = load(
        r#"
[cops.Naming.RuleNameLength]
max_name_length = 50
"#,
    );

    assert!(diagnostics.is_empty(), "{:?}", messages(&diagnostics));
    let settings = resolved.get(Category::Naming, "RuleNameLength").unwrap();
    assert_eq!(settings.params.get("max_name_length"), Some(&ParamValue::Uint(50)));
    assert_eq!(settings.params.get("min_name_length"), Some(&ParamValue::Uint(4)));
}

#[test]
fn malformed_toml_is_a_hard_error() {
    let loader = MapLoader::single("yarlint.toml", "[cops.Naming.RuleNameLength\n");
    let mut diagnostics = Diagnostics::new();

    let result = yarlint::config::load(&loader, decls(), &CliOverrides::default(), &mut diagnostics);

    assert!(result.is_err());
}

#[test]
fn a_real_parse_failure_carries_a_span() {
    let loader = MapLoader::single("yarlint.toml", "[cops.Naming.RuleNameLength\n");
    let mut diagnostics = Diagnostics::new();

    let err = yarlint::config::load(&loader, decls(), &CliOverrides::default(), &mut diagnostics)
        .expect_err("unterminated table header should fail");

    match err {
        ConfigError::Parse { span, path, .. } => {
            assert_eq!(path, "yarlint.toml");
            assert!(span.is_some(), "toml_edit should report a span");
        }
        other => panic!("expected a parse error, got {other:?}"),
    }
}

// ---------------------------------------------------------------------------
// Merging
// ---------------------------------------------------------------------------

#[test]
fn defaults_section_applies_to_every_cop() {
    let (resolved, diagnostics) = load("[defaults]\nenabled = false\n");

    assert!(diagnostics.is_empty(), "{:?}", messages(&diagnostics));
    assert_eq!(resolved.enabled().len(), 0);
}

#[test]
fn a_cop_entry_beats_the_defaults_section() {
    let (resolved, _) = load(
        r#"
[defaults]
enabled = false

[cops.Style.RuleNameCase]
enabled = true
"#,
    );

    assert_eq!(resolved.enabled().len(), 1);
    assert!(resolved.get(Category::Style, "RuleNameCase").unwrap().enabled);
}

#[test]
fn severity_is_overridable_per_cop() {
    let (resolved, diagnostics) = load(
        r#"
[cops.Naming.RuleNameLength]
severity = "error"
"#,
    );

    assert!(diagnostics.is_empty(), "{:?}", messages(&diagnostics));
    assert_eq!(resolved.get(Category::Naming, "RuleNameLength").unwrap().severity, Severity::Error);
}

#[test]
fn an_unknown_severity_is_rejected_with_a_suggestion() {
    let (resolved, diagnostics) = load(
        r#"
[cops.Naming.RuleNameLength]
severity = "warn"
"#,
    );

    assert!(diagnostics.has_errors());
    assert_eq!(diagnostics.entries()[0].help.as_deref(), Some("did you mean `warning`?"));
    assert_eq!(
        resolved.get(Category::Naming, "RuleNameLength").unwrap().severity,
        Severity::Info,
        "a rejected severity falls back to the declared default"
    );
}

#[test]
fn an_unknown_cop_warns_with_a_suggestion() {
    let (_, diagnostics) = load("[cops.Naming.RuleNameLenght]\nmax_name_length = 50\n");

    let entry = &diagnostics.entries()[0];
    assert!(entry.message.contains("unknown cop"));
    assert_eq!(entry.help.as_deref(), Some("did you mean `Naming/RuleNameLength`?"));
}

#[test]
fn an_unknown_family_warns() {
    let (_, diagnostics) = load("[cops.Nameing.RuleNameLength]\nmax_name_length = 50\n");

    let entry = &diagnostics.entries()[0];
    assert!(entry.message.contains("unknown cop family"));
    assert_eq!(entry.help.as_deref(), Some("did you mean `Naming`?"));
}

#[test]
fn only_replaces_the_enabled_set_rather_than_intersecting() {
    let cli = CliOverrides { only: vec!["Style/RuleNameCase".to_string()], except: vec![] };

    let (resolved, diagnostics) = load_with("[defaults]\nenabled = true\n", &cli);

    assert!(diagnostics.is_empty(), "{:?}", messages(&diagnostics));
    assert_eq!(resolved.enabled().len(), 1);
    assert!(resolved.get(Category::Style, "RuleNameCase").unwrap().enabled);
}

#[test]
fn except_wins_over_the_config_file() {
    let cli = CliOverrides { only: vec![], except: vec!["Style".to_string()] };

    let (resolved, _) = load_with("", &cli);

    assert!(!resolved.get(Category::Style, "RuleNameCase").unwrap().enabled);
    assert!(!resolved.get(Category::Style, "MissingRequiredMeta").unwrap().enabled);
    assert!(resolved.get(Category::Naming, "RuleNameLength").unwrap().enabled);
}

#[test]
fn a_list_from_the_file_replaces_the_default_rather_than_appending() {
    let (resolved, diagnostics) = load(
        r#"
[globals]
required_meta_keys = ["author"]
"#,
    );

    assert!(diagnostics.is_empty(), "{:?}", messages(&diagnostics));
    assert_eq!(resolved.globals.required_meta_keys, vec!["author"]);
}

#[test]
fn origin_records_where_a_value_came_from() {
    let (resolved, _) = load("[cops.Naming.RuleNameLength]\nmax_name_length = 50\n");
    let settings = resolved.get(Category::Naming, "RuleNameLength").unwrap();

    assert_eq!(settings.origin("min_name_length"), Origin::Default);
    assert!(matches!(settings.origin("max_name_length"), Origin::File { line: 2, .. }));
    assert_eq!(settings.params.get("max_name_length"), Some(&ParamValue::Uint(50)));
}

#[test]
fn defaults_section_sets_severity_for_every_cop() {
    let (resolved, diagnostics) = load("[defaults]\nseverity = \"error\"\n");

    assert!(diagnostics.is_empty(), "{:?}", messages(&diagnostics));
    for settings in resolved.iter() {
        assert_eq!(settings.severity, Severity::Error, "{} kept its own severity", settings.decl.qualified_name());
    }
}

#[test]
fn a_cop_entry_beats_the_defaults_severity() {
    let (resolved, _) = load(
        r#"
[defaults]
severity = "error"

[cops.Naming.RuleNameLength]
severity = "info"
"#,
    );

    assert_eq!(resolved.get(Category::Naming, "RuleNameLength").unwrap().severity, Severity::Info);
    assert_eq!(resolved.get(Category::Style, "RuleNameCase").unwrap().severity, Severity::Error);
}

#[test]
fn an_unknown_severity_in_defaults_is_rejected() {
    let (resolved, diagnostics) = load("[defaults]\nseverity = \"loud\"\n");

    assert!(diagnostics.has_errors());
    assert_eq!(
        resolved.get(Category::Naming, "RuleNameLength").unwrap().severity,
        Severity::Info,
        "every cop keeps its declared default"
    );
}

#[test]
fn a_non_boolean_enabled_is_rejected() {
    let (resolved, diagnostics) = load("[cops.Naming.RuleNameLength]\nenabled = \"yes\"\n");

    assert!(diagnostics.has_errors());
    assert!(diagnostics.entries()[0].message.contains("`enabled` must be a boolean, found a string"));
    assert!(resolved.get(Category::Naming, "RuleNameLength").unwrap().enabled);
}

#[test]
fn a_non_boolean_enabled_in_defaults_is_rejected() {
    let (_, diagnostics) = load("[defaults]\nenabled = 1\n");

    assert!(diagnostics.has_errors());
    assert!(diagnostics.entries()[0].message.contains("must be a boolean, found an integer"));
}

#[test]
fn a_non_string_severity_is_rejected() {
    let (_, diagnostics) = load("[cops.Naming.RuleNameLength]\nseverity = 3\n");

    assert!(diagnostics.has_errors());
    assert!(diagnostics.entries()[0].message.contains("`severity` must be a string, found an integer"));
}

#[test]
fn an_unknown_cop_selector_warns_with_a_suggestion() {
    let cli = CliOverrides { only: vec!["Naming/RuleNameLenght".to_string()], except: vec![] };

    let (_, diagnostics) = load_with("", &cli);

    let entry = &diagnostics.entries()[0];
    assert!(entry.message.contains("unknown cop selector"));
    assert_eq!(entry.help.as_deref(), Some("did you mean `Naming/RuleNameLength`?"));
}

#[test]
fn an_unknown_except_selector_warns_too() {
    let cli = CliOverrides { only: vec![], except: vec!["Nonsense".to_string()] };

    let (resolved, diagnostics) = load_with("", &cli);

    assert!(diagnostics.entries()[0].message.contains("unknown cop selector"));
    assert_eq!(resolved.enabled().len(), decls().len());
}

#[test]
fn a_category_selector_enables_a_whole_family() {
    let cli = CliOverrides { only: vec!["Style".to_string()], except: vec![] };

    let (resolved, _) = load_with("", &cli);

    assert_eq!(resolved.enabled().len(), 2);
    assert!(resolved.get(Category::Style, "RuleNameCase").unwrap().enabled);
    assert!(!resolved.get(Category::Naming, "RuleNameLength").unwrap().enabled);
}

#[test]
fn except_narrows_only() {
    let cli = CliOverrides { only: vec!["Style".to_string()], except: vec!["Style/RuleNameCase".to_string()] };

    let (resolved, _) = load_with("", &cli);

    assert_eq!(resolved.enabled().len(), 1);
    assert!(resolved.get(Category::Style, "MissingRequiredMeta").unwrap().enabled);
}

#[test]
fn severity_origin_points_at_the_line_that_set_it() {
    let (resolved, _) = load("[cops.Naming.RuleNameLength]\nseverity = \"error\"\n");
    let settings = resolved.get(Category::Naming, "RuleNameLength").unwrap();

    assert!(matches!(settings.origin("severity"), Origin::File { line: 2, .. }));
    assert_eq!(settings.origin("enabled"), Origin::Default);
}

#[test]
fn a_rejected_value_leaves_its_origin_as_default() {
    let (resolved, _) = load("[cops.Naming.RuleNameLength]\nmax_name_length = 9000\n");
    let settings = resolved.get(Category::Naming, "RuleNameLength").unwrap();

    assert_eq!(settings.origin("max_name_length"), Origin::Default);
    assert_eq!(settings.params.get("max_name_length"), Some(&ParamValue::Uint(80)));
}

// ---------------------------------------------------------------------------
// Reading parameters
// ---------------------------------------------------------------------------

#[test]
fn accessors_read_the_configured_value() {
    let (resolved, _) = load("[cops.Naming.RuleNameLength]\nmax_name_length = 50\n");
    let settings = resolved.get(Category::Naming, "RuleNameLength").unwrap();
    let params = settings.params();

    assert_eq!(params.uint("max_name_length"), 50);
    assert_eq!(params.uint("min_name_length"), 4);
}

#[test]
fn enum_params_read_as_strings() {
    let (resolved, _) = load("[cops.Style.RuleNameCase]\ncase = \"SnakeCase\"\n");
    let settings = resolved.get(Category::Style, "RuleNameCase").unwrap();

    assert_eq!(settings.params().str("case"), "SnakeCase");
}

#[test]
fn globals_are_readable_after_an_override() {
    let (resolved, _) = load("[globals]\nrequired_meta_keys = [\"author\", \"date\"]\n");

    assert_eq!(resolved.globals.required_meta_keys, vec!["author", "date"]);
}

#[test]
fn boolean_accessors_read_configured_and_default_values() {
    let (configured, _) = load("[cops.Lint.Fixture]\nstrict = false\n");
    assert!(!configured.get(Category::Lint, "Fixture").unwrap().params().bool("strict"));

    let (defaulted, _) = load("");
    assert!(defaulted.get(Category::Lint, "Fixture").unwrap().params().bool("strict"));
}

#[test]
fn string_accessors_read_configured_and_default_values() {
    let (configured, _) = load("[cops.Lint.Fixture]\nprefix = \"yara_\"\n");
    assert_eq!(configured.get(Category::Lint, "Fixture").unwrap().params().str("prefix"), "yara_");

    let (defaulted, _) = load("");
    assert_eq!(defaulted.get(Category::Lint, "Fixture").unwrap().params().str("prefix"), "rule_");
}

#[test]
fn string_list_accessors_read_configured_and_default_values() {
    let (configured, _) = load("[cops.Lint.Fixture]\nignored_tags = [\"draft\"]\n");
    assert_eq!(configured.get(Category::Lint, "Fixture").unwrap().params().str_list("ignored_tags"), ["draft"]);

    let (defaulted, _) = load("");
    assert_eq!(defaulted.get(Category::Lint, "Fixture").unwrap().params().str_list("ignored_tags"), ["test", "wip"]);
}

#[test]
fn an_empty_list_reads_back_as_empty() {
    let (resolved, _) = load("[cops.Lint.Fixture]\nignored_tags = []\n");

    assert!(resolved.get(Category::Lint, "Fixture").unwrap().params().str_list("ignored_tags").is_empty());
}

#[test]
fn accessors_survive_a_rejected_value_by_returning_the_default() {
    let (resolved, diagnostics) = load("[cops.Naming.RuleNameLength]\nmax_name_length = 9000\n");

    assert!(diagnostics.has_errors());
    assert_eq!(resolved.get(Category::Naming, "RuleNameLength").unwrap().params().uint("max_name_length"), 80);
}

#[test]
fn a_params_handle_is_cheap_to_copy() {
    let (resolved, _) = load("");
    let settings = resolved.get(Category::Lint, "Fixture").unwrap();
    let params = settings.params();
    let copied = params;

    assert_eq!(params.str("prefix"), copied.str("prefix"));
}

// ---------------------------------------------------------------------------
// Validation
// ---------------------------------------------------------------------------

#[test]
fn an_unknown_param_warns_and_is_ignored() {
    let (resolved, diagnostics) = load("[cops.Naming.RuleNameLength]\nmax_name_lenght = 50\n");

    let entry = &diagnostics.entries()[0];
    assert!(entry.message.contains("unknown option `max_name_lenght`"));
    assert_eq!(entry.help.as_deref(), Some("did you mean `max_name_length`?"));
    assert_eq!(
        resolved.get(Category::Naming, "RuleNameLength").unwrap().params.get("max_name_length"),
        Some(&ParamValue::Uint(80))
    );
}

#[test]
fn a_negative_integer_is_rejected() {
    let (resolved, diagnostics) = load("[cops.Naming.RuleNameLength]\nmax_name_length = -5\n");

    assert!(diagnostics.has_errors(), "{:?}", messages(&diagnostics));
    assert_eq!(
        resolved.get(Category::Naming, "RuleNameLength").unwrap().params.get("max_name_length"),
        Some(&ParamValue::Uint(80)),
        "a rejected value falls back to the declared default"
    );
}

#[test]
fn an_out_of_range_integer_is_rejected() {
    let (_, diagnostics) = load("[cops.Naming.RuleNameLength]\nmax_name_length = 9000\n");

    assert!(diagnostics.has_errors());
    assert!(diagnostics.entries()[0].message.contains("between 1 and 512"));
}

#[test]
fn a_float_does_not_coerce_to_an_integer() {
    let (_, diagnostics) = load("[cops.Naming.RuleNameLength]\nmax_name_length = 50.0\n");

    assert!(diagnostics.has_errors());
    assert!(diagnostics.entries()[0].message.contains("must be an integer"));
}

#[test]
fn a_string_is_not_an_integer() {
    let (_, diagnostics) = load("[cops.Naming.RuleNameLength]\nmax_name_length = \"50\"\n");

    assert!(diagnostics.has_errors());
    assert!(diagnostics.entries()[0].message.contains("found a string"));
}

#[test]
fn an_enum_value_outside_its_variants_is_rejected() {
    let (resolved, diagnostics) = load("[cops.Style.RuleNameCase]\ncase = \"kebab\"\n");

    assert!(diagnostics.has_errors());
    assert!(diagnostics.entries()[0].help.as_deref().unwrap().contains("PascalCase"));
    assert_eq!(
        resolved.get(Category::Style, "RuleNameCase").unwrap().params.get("case"),
        Some(&ParamValue::Str("PascalCase".to_string()))
    );
}

#[test]
fn a_valid_enum_value_is_accepted() {
    let (resolved, diagnostics) = load("[cops.Style.RuleNameCase]\ncase = \"SnakeCase\"\n");

    assert!(diagnostics.is_empty(), "{:?}", messages(&diagnostics));
    assert_eq!(
        resolved.get(Category::Style, "RuleNameCase").unwrap().params.get("case"),
        Some(&ParamValue::Str("SnakeCase".to_string()))
    );
}

#[test]
fn every_declared_param_is_present_even_when_unmentioned() {
    let (resolved, _) = load("");

    for settings in resolved.iter() {
        for spec in settings.decl.params {
            assert!(
                settings.params.contains_key(spec.key),
                "{} is missing {}",
                settings.decl.qualified_name(),
                spec.key
            );
        }
    }
}

#[test]
fn diagnostics_are_collected_not_short_circuited() {
    let (_, diagnostics) = load(
        r#"
[cops.Naming.RuleNameLength]
max_name_length = 9000
bogus = 1

[cops.Style.RuleNameCase]
case = "kebab"
"#,
    );

    assert!(diagnostics.entries().len() >= 3, "{:?}", messages(&diagnostics));
}

#[test]
fn a_boolean_param_is_coerced() {
    let (resolved, diagnostics) = load("[cops.Lint.Fixture]\nstrict = false\n");

    assert!(diagnostics.is_empty(), "{:?}", messages(&diagnostics));
    assert_eq!(resolved.get(Category::Lint, "Fixture").unwrap().params.get("strict"), Some(&ParamValue::Bool(false)));
}

#[test]
fn a_string_param_is_coerced() {
    let (resolved, diagnostics) = load("[cops.Lint.Fixture]\nprefix = \"yara_\"\n");

    assert!(diagnostics.is_empty(), "{:?}", messages(&diagnostics));
    assert_eq!(
        resolved.get(Category::Lint, "Fixture").unwrap().params.get("prefix"),
        Some(&ParamValue::Str("yara_".to_string()))
    );
}

#[test]
fn a_string_list_param_is_coerced() {
    let (resolved, diagnostics) = load("[cops.Lint.Fixture]\nignored_tags = [\"draft\", \"old\"]\n");

    assert!(diagnostics.is_empty(), "{:?}", messages(&diagnostics));
    assert_eq!(
        resolved.get(Category::Lint, "Fixture").unwrap().params.get("ignored_tags"),
        Some(&ParamValue::StrList(vec!["draft".to_string(), "old".to_string()]))
    );
}

#[test]
fn an_empty_string_list_is_accepted() {
    let (resolved, diagnostics) = load("[cops.Lint.Fixture]\nignored_tags = []\n");

    assert!(diagnostics.is_empty(), "{:?}", messages(&diagnostics));
    assert_eq!(
        resolved.get(Category::Lint, "Fixture").unwrap().params.get("ignored_tags"),
        Some(&ParamValue::StrList(Vec::new()))
    );
}

#[test]
fn every_param_kind_rejects_the_wrong_shape() {
    let cases = [
        ("strict = 1", "must be a boolean, found an integer"),
        ("prefix = 3", "must be a string, found an integer"),
        ("ignored_tags = \"draft\"", "must be an array of strings, found a string"),
        ("ignored_tags = [\"a\", 1]", "must be an array of strings, found an array with non-string elements"),
    ];

    for (line, expected) in cases {
        let text = format!("[cops.Lint.Fixture]\n{line}\n");
        let (_, diagnostics) = load(&text);

        assert!(diagnostics.has_errors(), "{line} should be rejected");
        assert!(
            diagnostics.entries()[0].message.contains(expected),
            "{line} should say {expected:?}, got {:?}",
            messages(&diagnostics)
        );
    }
}

#[test]
fn a_boolean_where_an_integer_belongs_names_the_boolean() {
    let (_, diagnostics) = load("[cops.Naming.RuleNameLength]\nmax_name_length = true\n");

    assert!(diagnostics.has_errors());
    assert!(diagnostics.entries()[0].message.contains("must be an integer, found a boolean"));
}

#[test]
fn a_rejected_param_falls_back_but_the_rest_still_apply() {
    let (resolved, diagnostics) = load(
        r#"
[cops.Lint.Fixture]
strict = 1
prefix = "yara_"
"#,
    );

    assert!(diagnostics.has_errors());
    let settings = resolved.get(Category::Lint, "Fixture").unwrap();
    assert_eq!(settings.params.get("strict"), Some(&ParamValue::Bool(true)));
    assert_eq!(settings.params.get("prefix"), Some(&ParamValue::Str("yara_".to_string())));
}

#[test]
fn an_unknown_global_key_warns() {
    let (_, diagnostics) = load("[globals]\nrequired_meta_key = [\"author\"]\n");

    let entry = &diagnostics.entries()[0];
    assert!(entry.message.contains("unknown option"));
    assert!(entry.message.contains("for globals"));
    assert_eq!(entry.help.as_deref(), Some("did you mean `required_meta_keys`?"));
}

#[test]
fn a_global_of_the_wrong_type_falls_back_to_its_default() {
    let (resolved, diagnostics) = load("[globals]\nrequired_meta_keys = \"author\"\n");

    assert!(diagnostics.has_errors());
    assert_eq!(resolved.globals.required_meta_keys, vec!["author", "description", "reference", "date"]);
}

#[test]
fn a_cop_with_no_params_gets_an_empty_map() {
    let (resolved, _) = load("");

    assert!(resolved.get(Category::Style, "MissingRequiredMeta").unwrap().params.is_empty());
}

// ---------------------------------------------------------------------------
// The resolved configuration
// ---------------------------------------------------------------------------

#[test]
fn a_command_line_override_is_recorded_as_such() {
    let cli = CliOverrides { only: vec!["Naming/RuleNameLength".to_string()], except: vec![] };
    let (resolved, _) = load_with("", &cli);

    assert_eq!(resolved.get(Category::Naming, "RuleNameLength").unwrap().origin("enabled"), Origin::CommandLine);
}

#[test]
fn an_unrecorded_key_reports_itself_as_default() {
    let (resolved, _) = load("");
    let settings = resolved.get(Category::Naming, "RuleNameLength").unwrap();

    assert_eq!(settings.origin("never_set_by_anything"), Origin::Default);
}

#[test]
fn config_show_renders_every_value_with_its_origin() {
    let (resolved, _) = load(
        r#"
[globals]
required_meta_keys = ["author"]

[cops.Lint.Fixture]
severity = "error"
strict = false
prefix = "yara_"
ignored_tags = ["draft"]

[cops.Naming.RuleNameLength]
max_name_length = 50
"#,
    );

    let rendered = resolved.to_text();

    assert!(rendered.contains("[globals]"));
    assert!(rendered.contains("required_meta_keys = [\"author\"]"));

    assert!(rendered.contains("[cops.Lint.Fixture]"));
    assert!(rendered.contains("severity = \"error\""));
    assert!(rendered.contains("strict = false"));
    assert!(rendered.contains("prefix = \"yara_\""));
    assert!(rendered.contains("ignored_tags = [\"draft\"]"));

    assert!(rendered.contains("[cops.Naming.RuleNameLength]"));
    assert!(rendered.contains("max_name_length = 50"));

    // Origins are rendered as trailing comments.
    assert!(rendered.contains("# default"));
    assert!(rendered.contains("# yarlint.toml:"));
}

#[test]
fn config_show_covers_every_registered_cop() {
    let (resolved, _) = load("");
    let rendered = resolved.to_text();

    for settings in resolved.iter() {
        let heading = format!("[cops.{}.{}]", settings.decl.category.name(), settings.decl.name);
        assert!(rendered.contains(&heading), "missing {heading}");
    }
}

#[test]
fn enabled_is_a_subset_of_iter() {
    let (resolved, _) = load("[cops.Style.RuleNameCase]\nenabled = false\n");

    assert_eq!(resolved.iter().count(), decls().len());
    assert_eq!(resolved.enabled().len(), decls().len() - 1);
}

#[test]
fn get_returns_none_for_an_unregistered_cop() {
    let (resolved, _) = load("");

    assert!(resolved.get(Category::Logic, "NotARealCop").is_none());
    assert!(resolved.get(Category::Logic, "RuleNameLength").is_none());
}

// ---------------------------------------------------------------------------
// The fixture registry
// ---------------------------------------------------------------------------

#[test]
fn fixture_registry_satisfies_every_invariant() {
    let violations = check_invariants(decls(), yarlint::config::globals::globals_spec());
    assert!(violations.is_empty(), "{violations:?}");
}

#[test]
fn a_decl_can_look_up_its_own_specs() {
    let decl = decls().iter().find(|d| d.name == "RuleNameLength").expect("fixture cop");

    assert_eq!(decl.qualified_name(), "Naming/RuleNameLength");
    assert_eq!(decl.spec("max_name_length").unwrap().key, "max_name_length");
    assert!(decl.spec("not_a_key").is_none());
}

#[test]
fn a_cop_with_no_params_looks_up_nothing() {
    let decl = decls().iter().find(|d| d.name == "MissingRequiredMeta").expect("fixture cop");

    assert!(decl.params.is_empty());
    assert!(decl.spec("anything").is_none());
}

// ---------------------------------------------------------------------------
// Laws, on concrete values
// ---------------------------------------------------------------------------

#[test]
fn except_beats_a_cop_entry_that_enables_it() {
    let cli = CliOverrides { only: vec![], except: vec!["Naming/RuleNameLength".to_string()] };
    let (resolved, _) = load_with("[cops.Naming.RuleNameLength]\nenabled = true\n", &cli);

    let settings = resolved.get(Category::Naming, "RuleNameLength").unwrap();
    assert!(!settings.enabled);
    assert_eq!(settings.origin("enabled"), Origin::CommandLine);
}

#[test]
fn only_disables_a_cop_the_file_enables() {
    let cli = CliOverrides { only: vec!["Lint".to_string()], except: vec![] };
    let (resolved, _) = load_with("[cops.Style.RuleNameCase]\nenabled = true\n", &cli);

    assert!(!resolved.get(Category::Style, "RuleNameCase").unwrap().enabled);
    assert!(resolved.get(Category::Lint, "Fixture").unwrap().enabled);
    assert_eq!(resolved.enabled().len(), 1);
}

#[test]
fn an_empty_command_line_changes_nothing() {
    let text = "[defaults]\nenabled = false\n[cops.Lint.Fixture]\nenabled = true\n";
    let (with_cli, _) = load_with(text, &CliOverrides { only: vec![], except: vec![] });
    let (without, _) = load(text);

    assert_eq!(with_cli.to_text(), without.to_text());
    assert_eq!(with_cli.get(Category::Lint, "Fixture").unwrap().origin("enabled"), Origin::File {
        path: "yarlint.toml".to_string(),
        line: 4,
        column: 11,
    });
}

#[test]
fn invalid_framework_settings_change_nothing() {
    let (resolved, diagnostics) = load("[defaults]\nenabled = 1\nseverity = \"loud\"\n");

    assert_eq!(diagnostics.entries().len(), 2);
    for settings in resolved.iter() {
        assert_eq!(settings.enabled, settings.decl.default_enabled);
        assert_eq!(settings.severity, settings.decl.default_severity);
        assert_eq!(settings.origin("enabled"), Origin::Default);
        assert_eq!(settings.origin("severity"), Origin::Default);
    }
}

#[test]
fn the_defaults_section_reaches_cops_without_an_entry_only() {
    let (resolved, _) = load("[defaults]\nseverity = \"info\"\n[cops.Style.RuleNameCase]\nseverity = \"error\"\n");

    assert_eq!(resolved.get(Category::Style, "RuleNameCase").unwrap().severity, Severity::Error);
    assert_eq!(resolved.get(Category::Style, "MissingRequiredMeta").unwrap().severity, Severity::Info);
    assert_eq!(resolved.get(Category::Lint, "Fixture").unwrap().severity, Severity::Info);
}

#[test]
fn integers_on_the_range_bounds_are_kept() {
    let (resolved, diagnostics) = load("[cops.Naming.RuleNameLength]\nmin_name_length = 1\nmax_name_length = 512\n");

    assert!(diagnostics.is_empty(), "{:?}", messages(&diagnostics));
    let params = resolved.get(Category::Naming, "RuleNameLength").unwrap().params();
    assert_eq!(params.uint("min_name_length"), 1);
    assert_eq!(params.uint("max_name_length"), 512);
}

#[test]
fn integers_just_outside_the_range_are_rejected() {
    let (resolved, diagnostics) = load("[cops.Naming.RuleNameLength]\nmin_name_length = 0\nmax_name_length = 513\n");

    assert_eq!(
        messages(&diagnostics),
        vec![
            "`min_name_length` for Naming/RuleNameLength must be between 1 and 512, found 0".to_string(),
            "`max_name_length` for Naming/RuleNameLength must be between 1 and 512, found 513".to_string(),
        ]
    );
    let params = resolved.get(Category::Naming, "RuleNameLength").unwrap().params();
    assert_eq!(params.uint("min_name_length"), 4);
    assert_eq!(params.uint("max_name_length"), 80);
}

#[test]
fn a_negative_integer_names_the_minimum() {
    let (_, diagnostics) = load("[cops.Naming.RuleNameLength]\nmax_name_length = -5\n");

    assert_eq!(
        messages(&diagnostics),
        vec!["`max_name_length` for Naming/RuleNameLength must be at least 1, found -5".to_string()]
    );
}

#[test]
fn an_enum_rejection_lists_the_variants() {
    let (_, diagnostics) = load("[cops.Style.RuleNameCase]\ncase = \"kebab\"\n");

    let entry = &diagnostics.entries()[0];
    assert_eq!(entry.message, "`kebab` is not a valid value for `case` on Style/RuleNameCase");
    assert_eq!(entry.help.as_deref(), Some("expected one of: PascalCase, SnakeCase"));
    assert_eq!(entry.location.as_deref(), Some("yarlint.toml:2:8"));
}

#[test]
fn a_structural_problem_is_not_fatal() {
    let (resolved, diagnostics) = load("globals = 3\n[cops]\nNaming = 1\n");

    assert!(diagnostics.has_errors());
    assert_eq!(resolved.iter().count(), decls().len());
}

#[test]
fn warnings_alone_are_not_errors() {
    let (_, diagnostics) = load("[cops.Naming.RuleNameLenght]\nmax_name_length = 50\n");

    assert!(!diagnostics.is_empty());
    assert!(!diagnostics.has_errors());
}

#[test]
fn an_unknown_cop_is_located_at_its_first_key() {
    let (_, diagnostics) = load("[cops.Naming.RuleNameLenght]\nmax_name_length = 50\n");

    let entry = &diagnostics.entries()[0];
    assert_eq!(entry.message, "unknown cop `Naming/RuleNameLenght`");
    assert_eq!(entry.location.as_deref(), Some("yarlint.toml:2:1"));
    assert_eq!(entry.span, Some(29..44));
}

#[test]
fn an_origin_points_at_the_value_that_set_it() {
    let (resolved, _) = load("[cops.Naming.RuleNameLength]\nmax_name_length = 50\n");

    assert_eq!(
        resolved.get(Category::Naming, "RuleNameLength").unwrap().origin("max_name_length"),
        Origin::File { path: "yarlint.toml".to_string(), line: 2, column: 19 }
    );
}

#[test]
fn config_show_renders_the_registry_defaults_exactly() {
    let (resolved, _) = load("");

    let expected = "[globals]\n\
required_meta_keys = [\"author\", \"description\", \"reference\", \"date\"]\n\
\n\
[cops.Lint.Fixture]\n\
enabled = true  # default\n\
severity = \"warning\"  # default\n\
ignored_tags = [\"test\", \"wip\"]  # default\n\
prefix = \"rule_\"  # default\n\
strict = true  # default\n\
\n\
[cops.Naming.RuleNameLength]\n\
enabled = true  # default\n\
severity = \"info\"  # default\n\
max_name_length = 80  # default\n\
min_name_length = 4  # default\n\
\n\
[cops.Style.MissingRequiredMeta]\n\
enabled = true  # default\n\
severity = \"error\"  # default\n\
\n\
[cops.Style.RuleNameCase]\n\
enabled = true  # default\n\
severity = \"warning\"  # default\n\
case = \"PascalCase\"  # default\n";
    assert_eq!(resolved.to_text(), expected);
}

#[test]
fn config_show_quotes_strings_as_rust_debug_does() {
    let (resolved, _) = load("[cops.Lint.Fixture]\nprefix = \"a\\\"b\\\\c\"\n");

    assert!(resolved.to_text().contains("prefix = \"a\\\"b\\\\c\"  # yarlint.toml:2:10\n"));
}

#[test]
fn a_duplicated_declaration_keeps_the_later_one() {
    let twice: &'static [CopDecl] = &[
        CopDecl {
            category: Category::Naming,
            name: "Same",
            default_severity: Severity::Info,
            default_enabled: true,
            params: &[],
        },
        CopDecl {
            category: Category::Naming,
            name: "Same",
            default_severity: Severity::Error,
            default_enabled: false,
            params: &[],
        },
    ];
    let mut diagnostics = Diagnostics::new();

    let resolved = yarlint::config::resolve(None, twice, &CliOverrides::default(), &mut diagnostics).unwrap();

    assert_eq!(resolved.iter().count(), 1);
    let settings = resolved.get(Category::Naming, "Same").unwrap();
    assert_eq!(settings.severity, Severity::Error);
    assert!(!settings.enabled);
}

#[test]
fn resolve_without_a_file_matches_an_empty_loader() {
    let mut first = Diagnostics::new();
    let mut second = Diagnostics::new();

    let resolved = yarlint::config::resolve(None, decls(), &CliOverrides::default(), &mut first).unwrap();
    let loaded = yarlint::config::load(&MapLoader::new(), decls(), &CliOverrides::default(), &mut second).unwrap();

    assert_eq!(resolved.to_text(), loaded.to_text());
    assert!(first.is_empty() && second.is_empty());
}

#[test]
fn a_rejected_entry_setting_keeps_what_the_defaults_section_set() {
    let (resolved, diagnostics) = load(
        "[defaults]\nenabled = false\nseverity = \"error\"\n\n[cops.Style.RuleNameCase]\nenabled = \"yes\"\nseverity = 3\n",
    );

    assert_eq!(diagnostics.entries().len(), 2, "{:?}", messages(&diagnostics));
    assert!(diagnostics.has_errors());
    let settings = resolved.get(Category::Style, "RuleNameCase").unwrap();
    assert!(!settings.enabled);
    assert_eq!(settings.severity, Severity::Error);
    assert!(matches!(settings.origin("enabled"), Origin::File { line: 2, .. }));
    assert!(matches!(settings.origin("severity"), Origin::File { line: 3, .. }));
}
