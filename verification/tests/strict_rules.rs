use creator::classmap::Mapping;
use creator::css::{
    is_keyframes_prelude, lookup_mapping_path, remap_class_name, remap_css_classmap_expressions, remap_css_selectors,
    remap_selector_segment, tailwind_content_arg, CssTranspiler,
};
use creator::js::{
    remap_js_classmap_expressions, rewrite_specifier, rewrite_with_timestamp, trim_query_and_fragment, JsTranspiler,
};

fn mapping_from_json(v: &serde_json::Value) -> Mapping {
    match v {
        serde_json::Value::String(s) => Mapping::leaf(s.clone()),
        serde_json::Value::Object(map) => {
            let mut m = Mapping::empty();
            for (k, child) in map {
                m.insert(k.clone(), mapping_from_json(child));
            }
            m
        }
        other => panic!("not a classmap value: {other}"),
    }
}

fn sample() -> Mapping {
    let json = r#"{ "main": { "top_bar": { "wrapper": "X1" } }, "nav": "N0", "MAP": { "a": "MA" } }"#;
    let value: serde_json::Value = serde_json::from_str(json).unwrap();
    mapping_from_json(&value)
}

#[test]
fn strict_path_lookup() {
    let m = sample();
    assert_eq!(lookup_mapping_path(&m, &["main", "top_bar", "wrapper"], ".").unwrap(), Some("X1".to_string()));
    assert_eq!(lookup_mapping_path(&m, &["nope"], ".").unwrap(), None);
    assert_eq!(lookup_mapping_path(&m, &[], ".").unwrap(), None);
    assert_eq!(
        lookup_mapping_path(&m, &["main", "nope", "x"], ".").unwrap_err(),
        "main.nope isn't a node of the provided mapping"
    );
    assert_eq!(
        lookup_mapping_path(&m, &["main", "top_bar"], "__").unwrap_err(),
        "main__top_bar isn't an ending node (leaf) of the provided mapping"
    );
    assert_eq!(
        lookup_mapping_path(&m, &["nav", "deeper"], ".").unwrap_err(),
        "nav.deeper isn't a node of the provided mapping"
    );
}

#[test]
fn strict_class_names() {
    let m = sample();
    assert_eq!(remap_class_name("main__top_bar__wrapper", &m).unwrap(), Some("X1".to_string()));
    assert_eq!(remap_class_name("other", &m).unwrap(), None);
    assert!(remap_class_name("main__top-bar__wrapper", &m).is_err());
    assert_eq!(
        remap_class_name("main__top_bar", &m).unwrap_err(),
        "main__top_bar isn't an ending node (leaf) of the provided mapping"
    );
}

#[test]
fn strict_segments_and_selectors() {
    let m = sample();
    assert_eq!(remap_selector_segment(".nav > .other", &m).unwrap(), ".N0 > .other");
    assert_eq!(remap_css_selectors(".nav{}@keyframes k{.nav{}}", &m).unwrap(), ".N0{}@keyframes k{.nav{}}");
    assert!(remap_css_selectors(".main{}", &m).is_err());
    assert!(is_keyframes_prelude("@keyframes x"));
}

#[test]
fn strict_classmap_expressions() {
    let m = sample();
    assert_eq!(remap_css_classmap_expressions("x .MAP__a y", &m).unwrap(), "x .MA y");
    assert_eq!(
        remap_css_classmap_expressions(".MAP__b", &m).unwrap_err(),
        "MAP__b isn't a node of the provided mapping"
    );
}

#[test]
fn strict_process_css() {
    let t = CssTranspiler::new(sample());
    let out = t.process_css(".nav { color: red }").unwrap();
    assert!(out.contains(".N0"), "got {out}");
}

#[test]
fn tailwind_content_list() {
    assert_eq!(tailwind_content_arg(&vec![]), None);
    assert_eq!(
        tailwind_content_arg(&vec!["a\\b.ts".to_string(), "c/d.tsx".to_string()]),
        Some("a/b.ts,c/d.tsx".to_string())
    );
}

#[test]
fn stamped_specifiers() {
    assert_eq!(rewrite_with_timestamp("./a.js", 5, true, None), Some("./a.js?t=5".to_string()));
    assert_eq!(rewrite_with_timestamp("./a.js", 5, false, None), None);
    assert_eq!(
        rewrite_with_timestamp("/modules/x/i.js?v=1#f", 5, true, Some(9)),
        Some("/modules/x/i.js?t=9".to_string())
    );
    assert_eq!(rewrite_with_timestamp("/modules/x/i.js", 5, true, None), None);
    assert_eq!(
        rewrite_with_timestamp("react/jsx-runtime", 5, false, None),
        Some("/modules/stdlib/src/expose/jsx-runtime.js".to_string())
    );
    assert_eq!(rewrite_with_timestamp("https://x/a.js", 5, true, None), None);
    assert_eq!(trim_query_and_fragment("a#b?c"), "a");
    assert_eq!(trim_query_and_fragment("a?b#c"), "a");
    assert_eq!(trim_query_and_fragment("plain"), "plain");
    assert_eq!(rewrite_specifier("./x.tsx"), Some("./x.js".to_string()));
    let t = JsTranspiler::new(Mapping::empty(), true, false);
    assert!(t.sourcemap());
    assert!(!t.dev());
}

fn script_mapping() -> Mapping {
    let json = r#"{ "MAP": { "main": { "root": "Xa1", "quoted": "say \"hi\"" }, "leaf": "L0" } }"#;
    let value: serde_json::Value = serde_json::from_str(json).unwrap();
    mapping_from_json(&value)
}

#[test]
fn script_classmap_expressions() {
    let m = script_mapping();
    assert_eq!(
        remap_js_classmap_expressions("const c = MAP.main.root;", &m).unwrap(),
        "const c = \"Xa1\";"
    );
    assert_eq!(remap_js_classmap_expressions("f(MAP.leaf, MAP.leaf)", &m).unwrap(), "f(\"L0\", \"L0\")");
    assert_eq!(
        remap_js_classmap_expressions("x = MAP.main.quoted", &m).unwrap(),
        "x = \"say \\\"hi\\\"\""
    );
    // Preceded by a word character, ASCII or not, `MAP` starts no expression.
    assert_eq!(remap_js_classmap_expressions("xMAP.main.root", &m).unwrap(), "xMAP.main.root");
    assert_eq!(remap_js_classmap_expressions("éMAP.main.root", &m).unwrap(), "éMAP.main.root");
    assert_eq!(remap_js_classmap_expressions("MAP.", &m).unwrap(), "MAP.");
    assert_eq!(remap_js_classmap_expressions("MAP.1a", &m).unwrap(), "MAP.1a");
    assert_eq!(remap_js_classmap_expressions("", &m).unwrap(), "");
}

#[test]
fn script_classmap_expression_errors() {
    let m = script_mapping();
    assert_eq!(
        remap_js_classmap_expressions("a(MAP.main)", &m).unwrap_err(),
        "MAP.main isn't an ending node (leaf) of the provided mapping"
    );
    assert_eq!(
        remap_js_classmap_expressions("a(MAP.main.nope.x)", &m).unwrap_err(),
        "MAP.main.nope isn't a node of the provided mapping"
    );
    // A classmap without a `MAP` entry leaves every expression as written.
    let plain = mapping_from_json(&serde_json::from_str(r#"{ "main": { "root": "R" } }"#).unwrap());
    assert_eq!(remap_js_classmap_expressions("MAP.main.root", &plain).unwrap(), "MAP.main.root");
}

/// A classmap whose `MAP` entry leads every dotted path of `paths` to the leaf `R`.
fn leaves_at(paths: &[&str]) -> Mapping {
    let mut root = serde_json::Map::new();
    for path in paths {
        let names: Vec<&str> = path.split('.').collect();
        let mut node = &mut root;
        for (k, name) in names.iter().enumerate() {
            if k + 1 == names.len() {
                node.insert(name.to_string(), serde_json::Value::String("R".to_string()));
            } else {
                let entry = node
                    .entry(name.to_string())
                    .or_insert_with(|| serde_json::Value::Object(serde_json::Map::new()));
                node = entry.as_object_mut().unwrap();
            }
        }
    }
    mapping_from_json(&serde_json::Value::Object(root))
}

#[test]
fn script_expressions_match_the_pattern() {
    let re = regex::Regex::new(r"\bMAP(?:\.[A-Za-z_][A-Za-z0-9_]*)+").unwrap();
    for code in [
        "MAP.a",
        "(MAP.b.c_2).d",
        "xMAP.a MAP.e",
        "éMAP.a, ΩMAP.a, 1MAP.a, -MAP.f",
        "_MAP.a",
        "MAP..a MAP.a.9",
        "Ω MAP.g+MAP.h",
        "MAPMAP.a",
    ] {
        let paths: Vec<&str> = re.find_iter(code).map(|m| m.as_str()).collect();
        let expected = re.replace_all(code, "\"R\"").into_owned();
        assert_eq!(remap_js_classmap_expressions(code, &leaves_at(&paths)).unwrap(), expected, "{code}");
    }
}

#[test]
fn script_classmap_values_are_json_escaped() {
    let json = "{ \"MAP\": { \"odd\": \"a\\nb\\u0001c\\\\\" } }";
    let value: serde_json::Value = serde_json::from_str(json).unwrap();
    let m = mapping_from_json(&value);
    assert_eq!(remap_js_classmap_expressions("MAP.odd", &m).unwrap(), "\"a\\nb\\u0001c\\\\\"");
}
