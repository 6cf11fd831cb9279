use yarlint::config::{ConfigError, MapLoader, SourceLoader};

#[test]
fn an_empty_loader_discovers_nothing() {
    let loader = MapLoader::new();

    assert_eq!(loader.discover().unwrap(), None);
}

#[test]
fn single_makes_its_file_the_discovery_target() {
    let loader = MapLoader::single("yarlint.toml", "[globals]\n");

    let path = loader.discover().unwrap().expect("a path");
    assert_eq!(path, "yarlint.toml");

    let source = loader.load(&path).unwrap();
    assert_eq!(source.path, path);
    assert_eq!(source.text, "[globals]\n");
}

#[test]
fn with_adds_a_file_without_making_it_discoverable() {
    let loader = MapLoader::single("yarlint.toml", "a").with("shared/base.toml", "b");

    assert_eq!(loader.discover().unwrap(), Some("yarlint.toml".to_string()));

    let extra = loader.load("shared/base.toml").expect("the added file should load");
    assert_eq!(extra.text, "b");
}

#[test]
fn with_on_an_empty_loader_leaves_discovery_empty() {
    let loader = MapLoader::new().with("shared/base.toml", "b");

    assert_eq!(loader.discover().unwrap(), None);
    assert!(loader.load("shared/base.toml").is_ok());
}

#[test]
fn loading_a_missing_file_is_a_not_found_io_error() {
    let loader = MapLoader::new();

    let err = loader.load("nope.toml").expect_err("missing file should fail");

    match err {
        ConfigError::Io { path, source } => {
            assert_eq!(path, "nope.toml");
            assert_eq!(source.kind(), std::io::ErrorKind::NotFound);
        }
        other => panic!("expected an io error, got {other:?}"),
    }
}

#[test]
fn paths_are_compared_by_component() {
    let loader = MapLoader::single("conf/yarlint.toml", "x");

    for asked in ["conf//yarlint.toml", "conf/./yarlint.toml", "conf/yarlint.toml/"] {
        let source = loader.load(asked).expect("same components should find the file");
        assert_eq!(source.path, asked);
        assert_eq!(source.text, "x");
    }
}

#[test]
fn a_leading_dot_or_slash_names_another_path() {
    let loader = MapLoader::single("conf/yarlint.toml", "x");

    assert!(loader.load("./conf/yarlint.toml").is_err());
    assert!(loader.load("/conf/yarlint.toml").is_err());
    assert!(loader.load("conf/../conf/yarlint.toml").is_err());
}

#[test]
fn adding_the_same_path_again_replaces_the_file() {
    let loader = MapLoader::new().with("a/b.toml", "first").with("a//b.toml", "second");

    assert_eq!(loader.load("a/b.toml").unwrap().text, "second");
}
