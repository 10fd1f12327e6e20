use creator::classmap::{
    classmap_semver_display, classmap_version_from_url, gen_classmap_dts, CssMappingRef, Mapping, ResolveError,
};
use creator::error::Error;

fn mapping_from_json(v: &serde_json::Value) -> Mapping {
    match v {
        serde_json::Value::String(s) => Mapping::leaf(s.clone()),
        serde_json::Value::Object(map) => {
            let mut m = Mapping::empty();
            for (k, child) in map {
                m.insert(k.clone(), mapping_from_json(child));
            }
            m
        }
        other => panic!("not a classmap value: {other}"),
    }
}

fn sample() -> Mapping {
    let json = r#"{
        "main": {
            "top_bar": {
                "left": { "button": { "wrapper": "X1" } },
                "right": { "button": { "wrapper": "X2" } }
            }
        }
    }"#;
    let value: serde_json::Value = serde_json::from_str(json).unwrap();
    mapping_from_json(&value)
}

#[test]
fn lookup_full_path() {
    let m = sample();
    assert_eq!(m.lookup(&["main", "top_bar", "left", "button", "wrapper"]).unwrap(), Some("X1"));
}

#[test]
fn lookup_not_found_returns_none() {
    let m = sample();
    assert!(m.lookup(&["main", "top_bar", "middle"]).unwrap().is_none());
}

#[test]
fn lookup_not_a_leaf_errors() {
    let m = sample();
    let err = m.lookup(&["main", "top_bar"]).unwrap_err();
    assert!(matches!(err, Error::Classmap(ResolveError::NotALeaf { .. })));
}

#[test]
fn resolve_wraps_lookup() {
    let m = sample();
    assert_eq!(m.resolve(&["main", "top_bar", "left", "button", "wrapper"]).unwrap(), "X1");
    assert!(m.resolve(&["main", "top_bar", "middle"]).is_err());
}

#[test]
fn css_ref_resolves_with_dash() {
    let m = sample();
    let css = CssMappingRef::new(&m);
    assert_eq!(css.lookup("main__top-bar__left__button__wrapper").unwrap(), Some("X1"));
}

#[test]
fn css_ref_resolves_original_form() {
    let m = sample();
    let css = CssMappingRef::new(&m);
    assert_eq!(css.lookup("main__top_bar__left__button__wrapper").unwrap(), Some("X1"));
}

#[test]
fn css_ref_not_found_returns_none() {
    let m = sample();
    let css = CssMappingRef::new(&m);
    assert!(css.lookup("nope__top_bar").unwrap().is_none());
}

#[test]
fn lookup_through_a_leaf_reports_the_prefix() {
    let m = sample();
    let err = m.lookup(&["main", "top_bar", "left", "button", "wrapper", "deeper"]).unwrap_err();
    match err {
        Error::Classmap(ResolveError::NotALeaf { path }) => {
            assert_eq!(path, vec!["main", "top_bar", "left", "button", "wrapper"]);
        }
        other => panic!("unexpected {other:?}"),
    }
}

#[test]
fn lookup_at_inner_node_reports_whole_path() {
    let m = sample();
    match m.lookup(&["main", "top_bar"]).unwrap_err() {
        Error::Classmap(ResolveError::NotALeaf { path }) => assert_eq!(path, vec!["main", "top_bar"]),
        other => panic!("unexpected {other:?}"),
    }
}

#[test]
fn resolve_missing_is_not_found_with_path() {
    let m = sample();
    match m.resolve(&["main", "top_bar", "middle"]).unwrap_err() {
        Error::Classmap(ResolveError::NotFound { matched, path }) => {
            assert_eq!(matched, 2);
            assert_eq!(path, vec!["main", "top_bar", "middle"]);
        }
        other => panic!("unexpected {other:?}"),
    }
}

#[test]
fn empty_mapping_finds_nothing() {
    let m = Mapping::empty();
    assert!(m.lookup(&["anything"]).unwrap().is_none());
    assert!(matches!(m.lookup(&[]).unwrap_err(), Error::Classmap(ResolveError::NotALeaf { .. })));
}

#[test]
fn insert_replaces_existing_key() {
    let mut m = Mapping::empty();
    assert!(m.insert("a".to_string(), Mapping::leaf("1".to_string())));
    assert!(m.insert("a".to_string(), Mapping::leaf("2".to_string())));
    assert_eq!(m.lookup(&["a"]).unwrap(), Some("2"));
    assert_eq!(m.children().len(), 1);
    let mut leaf = Mapping::leaf("x".to_string());
    assert!(!leaf.insert("b".to_string(), Mapping::empty()));
    assert_eq!(leaf.leaf_text(), Some("x"));
}

#[test]
fn children_are_sorted_by_name() {
    let mut m = Mapping::empty();
    m.insert("b".to_string(), Mapping::leaf("2".to_string()));
    m.insert("a".to_string(), Mapping::leaf("1".to_string()));
    m.insert("c".to_string(), Mapping::leaf("3".to_string()));
    let names: Vec<&str> = m.children().iter().map(|(k, _)| k.as_str()).collect();
    assert_eq!(names, vec!["a", "b", "c"]);
}

#[test]
fn css_ref_dash_fallback_only_when_missing() {
    let mut inner = Mapping::empty();
    inner.insert("a-b".to_string(), Mapping::leaf("DASH".to_string()));
    inner.insert("a_b".to_string(), Mapping::leaf("UNDER".to_string()));
    let m = inner;
    let css = CssMappingRef::new(&m);
    assert_eq!(css.lookup("a-b").unwrap(), Some("DASH"));
    assert_eq!(css.lookup("a_b").unwrap(), Some("UNDER"));
    let mut only = Mapping::empty();
    only.insert("a_b".to_string(), Mapping::leaf("UNDER".to_string()));
    let css2 = CssMappingRef::new(&only);
    assert_eq!(css2.lookup("a-b").unwrap(), Some("UNDER"));
}

#[test]
fn css_ref_leaf_too_early_errors() {
    let m = sample();
    let css = CssMappingRef::new(&m);
    assert!(matches!(
        css.lookup("main__top_bar__left__button__wrapper__x").unwrap_err(),
        Error::Classmap(ResolveError::NotALeaf { .. })
    ));
}

#[test]
fn dts_describes_the_mapping() {
    let mut inner = Mapping::empty();
    inner.insert("b".to_string(), Mapping::leaf("X".to_string()));
    let mut m = Mapping::empty();
    m.insert("a".to_string(), inner);
    assert_eq!(
        gen_classmap_dts(&m),
        "/* Spicetify Classmap */\n\ndeclare const MAP: {readonly \"a\":{readonly \"b\":\"X\",},};\n"
    );
}

#[test]
fn semver_display_splits_packed_version() {
    assert_eq!(classmap_semver_display(1_002_003), "1.2.3");
    assert_eq!(classmap_semver_display(0), "0.0.0");
    assert_eq!(classmap_semver_display(12_345_678), "12.345.678");
}

#[test]
fn version_from_url_packs_semver() {
    let url = "https://raw.githubusercontent.com/spicetify/classmaps/main/1.2.34/classmap.json";
    assert_eq!(classmap_version_from_url(url).unwrap(), 1_002_034);
}

#[test]
fn version_from_url_rejects_other_forms() {
    let err = classmap_version_from_url("https://example.com/classmap.json").unwrap_err();
    match err {
        Error::ClassmapFetch(m) => assert_eq!(
            m,
            "invalid classmap url: https://example.com/classmap.json. Expected https://raw.githubusercontent.com/<owner>/<repo>/<ref>/<major>.<minor>.<patch>/classmap.json"
        ),
        other => panic!("unexpected {other:?}"),
    }
    let big = "https://raw.githubusercontent.com/a/b/c/99999999999999999999.0.0/classmap.json";
    match classmap_version_from_url(big).unwrap_err() {
        Error::ClassmapFetch(m) => {
            assert_eq!(m, format!("invalid classmap semver in url: {big}: number too large to fit in target type"))
        }
        other => panic!("unexpected {other:?}"),
    }
}
