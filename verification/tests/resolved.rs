use yarlint::config::resolved::{parse_severity, severity_name};
use yarlint::config::Origin;
use yarlint::linter::finding::Severity;

#[test]
fn severity_names_round_trip() {
    for name in ["info", "warning", "error"] {
        let severity = parse_severity(name).expect("a severity");
        assert_eq!(severity_name(&severity), name);
    }
}

#[test]
fn severity_parsing_is_case_insensitive() {
    assert_eq!(parse_severity("WARNING"), Some(Severity::Warning));
    assert_eq!(parse_severity("Error"), Some(Severity::Error));
    assert_eq!(parse_severity("nonsense"), None);
}

#[test]
fn origin_renders_each_variant() {
    assert_eq!(Origin::Default.to_text(), "default");
    assert_eq!(Origin::CommandLine.to_text(), "command line");
    assert_eq!(Origin::File { path: "yarlint.toml".into(), line: 4, column: 19 }.to_text(), "yarlint.toml:4:19");
}

#[test]
fn origin_from_span_falls_back_when_there_is_no_span() {
    let origin = Origin::from_span("yarlint.toml", "a = 1\n", None);

    assert_eq!(origin.to_text(), "yarlint.toml:1:1");
}
