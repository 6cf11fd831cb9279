use yarlint::config::ConfigError;

#[test]
fn io_errors_name_the_path_and_keep_their_source() {
    let err = ConfigError::Io {
        path: "yarlint.toml".into(),
        source: std::io::Error::new(std::io::ErrorKind::PermissionDenied, "nope"),
    };

    let rendered = err.to_text();
    assert!(rendered.contains("could not read"));
    assert!(rendered.contains("yarlint.toml"));
    assert!(rendered.contains("nope"));
    assert!(err.has_source());
}

#[test]
fn parse_errors_name_the_path_and_have_no_source() {
    let err = ConfigError::Parse { path: "yarlint.toml".into(), message: "expected `]`".to_string(), span: Some(0..3) };

    let rendered = err.to_text();
    assert!(rendered.contains("could not parse"));
    assert!(rendered.contains("expected `]`"));
    assert!(!err.has_source());
}

#[test]
fn invalid_builds_from_anything_stringy_and_has_no_source() {
    let err = ConfigError::invalid("Naming/RuleNameLength", "min_name_length cannot exceed max_name_length");

    let rendered = err.to_text();
    assert!(rendered.contains("invalid configuration for Naming/RuleNameLength"));
    assert!(rendered.contains("cannot exceed"));
    assert!(!err.has_source());
}
