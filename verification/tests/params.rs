use yarlint::config::{CopParams, Globals, ParamKind, ParamSpec, ParamValue};
use yarlint::keyed::TextMap;

fn list_specs() -> &'static [ParamSpec] {
    &[ParamSpec {
        key: "ignored_tags",
        kind: ParamKind::StrList { default: &["test", "wip"] },
        doc: "Tags that exempt a rule from this cop.",
    }]
}

#[test]
fn a_missing_list_reads_as_its_declared_default() {
    let values: TextMap<&'static str, ParamValue> = TextMap::new();
    let params = CopParams::new(&values, list_specs());

    assert_eq!(params.str_list("ignored_tags"), ["test", "wip"]);
}

#[test]
fn a_list_of_the_wrong_kind_reads_as_its_declared_default() {
    let mut values: TextMap<&'static str, ParamValue> = TextMap::new();
    values.insert("ignored_tags", ParamValue::Bool(true));
    let params = CopParams::new(&values, list_specs());

    assert_eq!(params.str_list("ignored_tags"), ["test", "wip"]);
}

#[test]
fn a_stored_list_is_read_as_stored() {
    let mut values: TextMap<&'static str, ParamValue> = TextMap::new();
    values.insert("ignored_tags", ParamValue::StrList(vec!["draft".to_owned()]));
    let params = CopParams::new(&values, list_specs());

    assert_eq!(params.str_list("ignored_tags"), ["draft"]);
}

#[test]
fn globals_without_meta_keys_fall_back_to_the_declared_default() {
    let values: TextMap<&'static str, ParamValue> = TextMap::new();

    let globals = Globals::from_params(&values);

    assert_eq!(globals.required_meta_keys, ["author", "description", "reference", "date"]);
}

#[test]
fn globals_with_mistyped_meta_keys_fall_back_to_the_declared_default() {
    let mut values: TextMap<&'static str, ParamValue> = TextMap::new();
    values.insert("required_meta_keys", ParamValue::Str("author".to_owned()));

    let globals = Globals::from_params(&values);

    assert_eq!(globals.required_meta_keys, ["author", "description", "reference", "date"]);
}

#[test]
fn globals_read_the_written_meta_keys() {
    let mut values: TextMap<&'static str, ParamValue> = TextMap::new();
    values.insert("required_meta_keys", ParamValue::StrList(vec!["owner".to_owned()]));

    let globals = Globals::from_params(&values);

    assert_eq!(globals.required_meta_keys, ["owner"]);
}
