use perry_freshness::manifest::{
    declared_feature_names, manifest_feature_names, retain_declared,
    retain_workspace_declared_features,
};
use perry_freshness::name_set::NameSet;
use perry_freshness::toml_value::{parse_toml, TomlValue};

fn strings(items: &[&str]) -> Vec<String> {
    items.iter().map(|s| s.to_string()).collect()
}

fn names(items: &[&str]) -> NameSet {
    let mut set = NameSet::new();
    for item in items {
        set.insert(item);
    }
    set
}

const RUNTIME: &str = r#"
[package]
name = "perry-runtime"
version = "0.5.0"

[features]
default = ["full"]
full = []
temporal = ["dep:temporal_rs"]
regex-engine = ["fancy", "dep:regress"]

[dependencies]
serde = "1"
temporal_rs = { version = "0.1", optional = true }
regress = { version = "0.10", optional = true }
mimalloc = { version = "0.1", optional = true }
plain = { version = "1", optional = false }
odd = { version = "1", optional = "true" }

[dev-dependencies]
proptest = { version = "1", optional = true }

[target.'cfg(unix)'.dependencies]
nix = { version = "0.29", optional = true }

[target.'cfg(windows)'.dependencies]
winapi = "0.3"
"#;

#[test]
fn declared_names_are_features_and_visible_optional_dependencies() {
    let declared = declared_feature_names(Some(RUNTIME)).unwrap();
    assert_eq!(
        declared.names(),
        &strings(&["default", "full", "mimalloc", "nix", "regex-engine", "temporal"])
    );
    assert!(declared.contains("mimalloc"));
    assert!(!declared.contains("regress"));
    assert!(!declared.contains("proptest"));
    assert!(!declared.contains("plain"));
    assert!(!declared.contains("odd"));
}

#[test]
fn optional_build_dependencies_are_feature_names() {
    let manifest = "[build-dependencies]\ncc = { version = '1', optional = true }\nplain = '1'\n\n[target.'cfg(unix)'.build-dependencies]\npkg-config = { version = '0.3', optional = true }\nhidden = { version = '1', optional = true }\n\n[features]\nf = ['dep:hidden']\n";
    let declared = declared_feature_names(Some(manifest)).unwrap();
    assert_eq!(declared.names(), &strings(&["cc", "f", "pkg-config"]));
    let mut requests = strings(&["perry-runtime/cc", "perry-runtime/plain"]);
    let dropped = retain_workspace_declared_features(Some(manifest), None, &mut requests);
    assert_eq!(requests, strings(&["perry-runtime/cc"]));
    assert_eq!(dropped, strings(&["perry-runtime/plain"]));
}

#[test]
fn missing_and_broken_manifests_declare_nothing_known() {
    assert!(declared_feature_names(None).is_none());
    assert!(declared_feature_names(Some("[features")).is_none());
    assert!(declared_feature_names(Some("")).unwrap().names().is_empty());
}

#[test]
fn features_that_are_no_table_are_passed_over() {
    let declared = declared_feature_names(Some("features = 3\ndependencies = []\ntarget = true\n"));
    assert!(declared.unwrap().names().is_empty());
}

#[test]
fn parsed_documents_keep_their_structure() {
    let doc = parse_toml("a = 'text'\nb = true\nc = [1, 'two', [false]]\n[t]\nk = 1.5\n").unwrap();
    assert!(matches!(doc.get("a"), Some(TomlValue::Str(s)) if s == "text"));
    assert!(matches!(doc.get("b"), Some(TomlValue::Bool(true))));
    match doc.get("c") {
        Some(TomlValue::Array(items)) => {
            assert_eq!(items.len(), 3);
            assert!(matches!(items[0], TomlValue::Other));
            assert!(matches!(&items[1], TomlValue::Str(s) if s == "two"));
            assert!(matches!(&items[2], TomlValue::Array(inner) if matches!(inner[0], TomlValue::Bool(false))));
        }
        _ => panic!("c is an array"),
    }
    match doc.get("t") {
        Some(TomlValue::Table(entries)) => {
            assert_eq!(entries.len(), 1);
            assert_eq!(entries[0].0, "k");
            assert!(matches!(entries[0].1, TomlValue::Other));
        }
        _ => panic!("t is a table"),
    }
    assert!(doc.get("missing").is_none());
    assert!(TomlValue::Bool(true).get("a").is_none());
    assert!(parse_toml("a = ").is_none());
}

#[test]
fn feature_names_of_a_value() {
    let optional = TomlValue::Table(vec![("optional".to_string(), TomlValue::Bool(true))]);
    let hidden = TomlValue::Table(vec![("optional".to_string(), TomlValue::Bool(true))]);
    let doc = TomlValue::Table(vec![
        (
            "features".to_string(),
            TomlValue::Table(vec![(
                "f".to_string(),
                TomlValue::Array(vec![TomlValue::Other, TomlValue::Str("dep:h".to_string()), TomlValue::Str("o".to_string())]),
            )]),
        ),
        (
            "dependencies".to_string(),
            TomlValue::Table(vec![("o".to_string(), optional), ("h".to_string(), hidden)]),
        ),
    ]);
    assert_eq!(manifest_feature_names(&doc).names(), &strings(&["f", "o"]));
}

#[test]
fn undeclared_requests_are_dropped_and_reported() {
    let mut requests = strings(&[
        "perry-runtime/full",
        "perry-stdlib/http",
        "perry-runtime/brand-new",
        "perry-stdlib/gone",
        "perry-runtime/mimalloc",
        "perry-other/any",
        "perry-runtime-static/x",
        "perry-runtime/",
    ]);
    let dropped = retain_workspace_declared_features(
        Some(RUNTIME),
        Some("[features]\nhttp = []\n"),
        &mut requests,
    );
    assert_eq!(
        requests,
        strings(&[
            "perry-runtime/full",
            "perry-stdlib/http",
            "perry-runtime/mimalloc",
            "perry-other/any",
            "perry-runtime-static/x",
        ])
    );
    assert_eq!(
        dropped,
        strings(&["perry-runtime/brand-new", "perry-runtime/", "perry-stdlib/gone"])
    );
    let before = requests.clone();
    let again = retain_workspace_declared_features(
        Some(RUNTIME),
        Some("[features]\nhttp = []\n"),
        &mut requests,
    );
    assert!(again.is_empty());
    assert_eq!(requests, before);
}

#[test]
fn an_unreadable_manifest_costs_its_crate_nothing() {
    let all = strings(&["perry-runtime/brand-new", "perry-stdlib/gone"]);
    let mut requests = all.clone();
    assert!(retain_workspace_declared_features(None, Some("= ="), &mut requests).is_empty());
    assert_eq!(requests, all);
    let dropped = retain_workspace_declared_features(None, Some(""), &mut requests);
    assert_eq!(dropped, strings(&["perry-stdlib/gone"]));
    assert_eq!(requests, strings(&["perry-runtime/brand-new"]));
}

#[test]
fn one_crate_is_sifted_by_its_names() {
    let mut requests = strings(&["a/x", "a/y", "ab/y", "b/y"]);
    let mut dropped = strings(&["before"]);
    retain_declared("a", &names(&["x"]), &mut requests, &mut dropped);
    assert_eq!(requests, strings(&["a/x", "ab/y", "b/y"]));
    assert_eq!(dropped, strings(&["before", "a/y"]));
}
