use creator::build::graph::{ContentHash, NodeId, SourceKind, SourceNode};
use creator::classmap::{CssMappingRef, Mapping, ResolveError};
use creator::error::Error;
use creator::transpile::css::{
    autoprefix, is_keyframes_prelude, process, remap_all, remap_class_name, remap_map_expressions, remap_selector_prelude,
    remap_selectors, CssTranspiler,
};

fn mapping_from_json(v: &serde_json::Value) -> Mapping {
    match v {
        serde_json::Value::String(s) => Mapping::leaf(s.clone()),
        serde_json::Value::Object(map) => {
            let mut m = Mapping::empty();
            for (k, child) in map {
                m.insert(k.clone(), mapping_from_json(child));
            }
            m
        }
        other => panic!("not a classmap value: {other}"),
    }
}

fn sample() -> Mapping {
    let json = r#"{ "main": { "top_bar": { "wrapper": "X1" } }, "nav": "N0" }"#;
    let value: serde_json::Value = serde_json::from_str(json).unwrap();
    mapping_from_json(&value)
}

#[test]
fn prelude_class_names_are_remapped() {
    let m = sample();
    let r = CssMappingRef::new(&m);
    assert_eq!(remap_selector_prelude(".main__top-bar__wrapper > .nav", &r).unwrap(), ".X1 > .N0");
    assert_eq!(remap_selector_prelude(".unknown .nav", &r).unwrap(), ".unknown .N0");
}

#[test]
fn prelude_strings_and_attributes_are_kept() {
    let m = sample();
    let r = CssMappingRef::new(&m);
    assert_eq!(remap_selector_prelude("a[title='.nav'] .nav", &r).unwrap(), "a[title='.nav'] .N0");
    assert_eq!(remap_selector_prelude("[data-x=.nav]", &r).unwrap(), "[data-x=.nav]");
    assert_eq!(remap_selector_prelude(". .nav", &r).unwrap(), ". .N0");
}

#[test]
fn prelude_not_a_leaf_errors() {
    let m = sample();
    let r = CssMappingRef::new(&m);
    match remap_selector_prelude(".main__top_bar", &r).unwrap_err() {
        Error::Classmap(ResolveError::NotALeaf { path }) => assert_eq!(path, vec!["main", "top_bar"]),
        other => panic!("unexpected {other:?}"),
    }
}

#[test]
fn class_name_lookup() {
    let m = sample();
    let r = CssMappingRef::new(&m);
    assert_eq!(remap_class_name("nav", &r).unwrap(), Some("N0".to_string()));
    assert_eq!(remap_class_name("other", &r).unwrap(), None);
}

#[test]
fn non_ascii_prelude_text_is_written_byte_by_byte() {
    let m = sample();
    let r = CssMappingRef::new(&m);
    assert_eq!(remap_selector_prelude("é", &r).unwrap(), "\u{c3}\u{a9}");
}

#[test]
fn keyframes_preludes() {
    assert!(is_keyframes_prelude("  @KEYFRAMES spin"));
    assert!(is_keyframes_prelude("@-webkit-keyframes x"));
    assert!(is_keyframes_prelude("@-moz-keyframes x"));
    assert!(is_keyframes_prelude("@-ms-keyframes x"));
    assert!(!is_keyframes_prelude("@media screen"));
}

#[test]
fn selectors_outside_at_rules_are_remapped() {
    let m = sample();
    let r = CssMappingRef::new(&m);
    let css = ".nav { color: red; }\n@media screen { .nav { color: blue; } }\n@keyframes spin { from { opacity: 0; } .nav { x: y; } }";
    assert_eq!(
        remap_selectors(css, &r).unwrap(),
        ".N0 { color: red; }\n@media screen { .N0 { color: blue; } }\n@keyframes spin { from { opacity: 0; } .nav { x: y; } }"
    );
}

#[test]
fn selectors_skip_comments_and_strings() {
    let m = sample();
    let r = CssMappingRef::new(&m);
    let css = "/* .nav { */ .nav { content: \"}\"; }";
    // The prelude before `{` still holds the comment, and its class names are remapped too.
    assert_eq!(remap_selectors(css, &r).unwrap(), "/* .N0 { */ .N0 { content: \"}\"; }");
}

#[test]
fn map_expressions_are_replaced() {
    let m = sample();
    let r = CssMappingRef::new(&m);
    // The text after the first five characters (`.MAP_`) is looked up.
    assert_eq!(remap_map_expressions(".MAP___nav x", &r).unwrap(), ".MAP___nav x");
    let mut root = Mapping::empty();
    root.insert("_nav".to_string(), Mapping::leaf("Q".to_string()));
    let r2 = CssMappingRef::new(&root);
    assert_eq!(remap_map_expressions("a .MAP__nav b", &r2).unwrap(), "a .Q b");
    assert_eq!(remap_map_expressions("a .MAP___nav b", &r2).unwrap(), "a .MAP___nav b");
    assert_eq!(remap_map_expressions(".MAP__ .MAP", &r2).unwrap(), ".MAP__ .MAP");
}

#[test]
fn remap_all_runs_both_passes() {
    let mut root = Mapping::empty();
    root.insert("_nav".to_string(), Mapping::leaf("Q".to_string()));
    root.insert("nav".to_string(), Mapping::leaf("N0".to_string()));
    let r = CssMappingRef::new(&root);
    assert_eq!(remap_all(".nav{}.MAP__nav{}", &r).unwrap(), ".N0{}.Q{}");
}

#[test]
fn autoprefix_prints_the_stylesheet() {
    let out = autoprefix(".a{color:red}").unwrap();
    assert!(out.contains(".a"), "got {out}");
    assert!(out.contains("color: red"), "got {out}");
    match autoprefix(".a{color:red").map(|_| ()) {
        Ok(()) => {}
        Err(Error::Transpile { path, message }) => {
            assert_eq!(path, "<css>");
            assert!(message.starts_with("lightningcss "));
        }
        Err(other) => panic!("unexpected {other:?}"),
    }
}

#[test]
fn process_remaps_printed_css() {
    let m = sample();
    let r = CssMappingRef::new(&m);
    let out = process(".nav { color: red }", &r).unwrap();
    assert!(out.contains(".N0"), "got {out}");
    assert!(!out.contains(".nav"), "got {out}");
}

fn node(kind: SourceKind) -> SourceNode {
    SourceNode {
        id: NodeId::from_raw(0),
        path: "/src/a.x".to_string(),
        rel_path: "a.x".to_string(),
        kind,
        content_hash: ContentHash::from_bytes(b"body"),
        content: "body".to_string(),
    }
}

#[test]
fn css_sources_by_kind() {
    assert_eq!(CssTranspiler::css_source(&node(SourceKind::Css)).unwrap(), Some("body".to_string()));
    assert_eq!(CssTranspiler::css_source(&node(SourceKind::Scss)).unwrap(), None);
    match CssTranspiler::css_source(&node(SourceKind::Ts)).unwrap_err() {
        Error::Transpile { path, message } => {
            assert_eq!(path, "/src/a.x");
            assert_eq!(message, "CssTranspiler called with non-CSS kind Ts");
        }
        other => panic!("unexpected {other:?}"),
    }
}

#[test]
fn tailwind_detection() {
    assert!(CssTranspiler::needs_tailwind("@tailwind base;"));
    assert!(!CssTranspiler::needs_tailwind("@tail wind"));
}

#[test]
fn transpiler_uses_its_classmap() {
    let t = CssTranspiler::new(sample());
    let out = t.transpile_css(".nav{}").unwrap();
    assert!(out.code.contains(".N0"));
    assert!(out.source_map.is_none());
}

#[test]
fn plain_css_is_unchanged() {
    let m = sample();
    let r = CssMappingRef::new(&m);
    let css = "a { color: red; }\n@media screen { b { x: 'y'; } }";
    assert_eq!(remap_all(css, &r).unwrap(), css);
}
