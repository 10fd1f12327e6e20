use std::sync::Arc;

use creator::classmap::Mapping;
use creator::env::BuildEnvironment;
use creator::transpile::js::{extract_module_name, inline_source_map, is_remote, JsTranspiler};
use creator::transpile::TranspileContext;
use oxc::allocator::{Allocator, FromIn};
use oxc::ast::ast::{Expression, MemberExpression, Str};
use oxc::ast::builder::AstBuilder;
use oxc::ast_visit::{walk_mut, VisitMut};
use oxc::codegen::Codegen;
use oxc::parser::Parser;
use oxc::span::{GetSpan, SourceType};

fn mapping_from_json(v: &serde_json::Value) -> Mapping {
    match v {
        serde_json::Value::String(s) => Mapping::leaf(s.clone()),
        serde_json::Value::Object(map) => {
            let mut m = Mapping::empty();
            for (k, child) in map {
                m.insert(k.clone(), mapping_from_json(child));
            }
            m
        }
        other => panic!("not a classmap value: {other}"),
    }
}

fn sample() -> Mapping {
    let json = r#"{ "main": { "topbar": { "wrapper": "X1" } } }"#;
    let value: serde_json::Value = serde_json::from_str(json).unwrap();
    mapping_from_json(&value)
}

/// The property names of a member chain from the outside in, and whether it starts at `MAP`.
fn chain_of(expr: &MemberExpression<'_>) -> Option<(Vec<String>, bool)> {
    let mut props = vec![expr.static_property_name()?.to_string()];
    let mut current: &Expression<'_> = expr.object();
    while let Some(inner) = current.as_member_expression() {
        props.push(inner.static_property_name()?.to_string());
        current = inner.object();
    }
    let root_is_map = matches!(current, Expression::Identifier(id) if id.name.as_str() == "MAP");
    Some((props, root_is_map))
}

struct Replacer<'a, 'b> {
    allocator: &'a Allocator,
    mapping: &'b Mapping,
}

impl<'a, 'b> VisitMut<'a> for Replacer<'a, 'b> {
    fn visit_expression(&mut self, expr: &mut Expression<'a>) {
        if let Some(me) = expr.as_member_expression() {
            if let Some((props, root_is_map)) = chain_of(me) {
                if let Some(leaf) = JsTranspiler::resolve_map_chain(&props, root_is_map, self.mapping) {
                    let span = me.span();
                    let ast = AstBuilder::new(self.allocator);
                    *expr = Expression::new_string_literal(span, Str::from_in(leaf.as_str(), self.allocator), None, &ast);
                    return;
                }
            }
        }
        walk_mut::walk_expression(self, expr);
    }
}

fn replace_maps(source: &str, m: &Mapping) -> String {
    let allocator = Allocator::default();
    let mut program = Parser::new(&allocator, source, SourceType::mjs()).parse().program;
    let mut rewriter = Replacer { allocator: &allocator, mapping: m };
    rewriter.visit_program(&mut program);
    Codegen::new().build(&program).code
}

#[test]
fn resolve_map_chain_simple() {
    let m = sample();
    let code = replace_maps("const x = MAP.main.topbar.wrapper;", &m);
    assert!(code.contains("\"X1\""), "got: {}", code);
    assert!(!code.contains("MAP"), "got: {}", code);
}

#[test]
fn resolve_map_chain_unknown_preserved() {
    let m = sample();
    let code = replace_maps("const x = MAP.main.nope;", &m);
    assert!(code.contains("MAP"), "got: {}", code);
}

#[test]
fn resolve_map_chain_inside_string_literal_preserved() {
    let m = sample();
    let code = replace_maps("const x = \"MAP.main.topbar.wrapper\";", &m);
    assert!(code.contains("\"MAP.main.topbar.wrapper\""));
}

#[test]
fn map_chain_reverses_properties() {
    let m = sample();
    let props = vec!["wrapper".to_string(), "topbar".to_string(), "main".to_string()];
    assert_eq!(JsTranspiler::resolve_map_chain(&props, true, &m), Some("X1".to_string()));
    assert_eq!(JsTranspiler::resolve_map_chain(&props, false, &m), None);
    let partial = vec!["topbar".to_string(), "main".to_string()];
    assert_eq!(JsTranspiler::resolve_map_chain(&partial, true, &m), None);
}

#[test]
fn remote_specifiers() {
    assert!(is_remote("https://esm.sh/react"));
    assert!(is_remote("http://x"));
    assert!(!is_remote("./a.ts"));
}

#[test]
fn module_names_of_specifiers() {
    assert_eq!(extract_module_name("/modules/stdlib/src/index.js"), Some("stdlib".to_string()));
    assert_eq!(extract_module_name("/modules/"), Some(String::new()));
    assert_eq!(extract_module_name("/modules/solo"), Some("solo".to_string()));
    assert_eq!(extract_module_name("./a.ts"), None);
}

#[test]
fn extension_rules() {
    let t = JsTranspiler::new(Mapping::empty());
    assert_eq!(t.rewrite_extension("./a.ts"), Some("./a.js".to_string()));
    assert_eq!(t.rewrite_extension("./a.tsx"), Some("./a.js".to_string()));
    assert_eq!(t.rewrite_extension("./a.mjs"), Some("./a.js".to_string()));
    assert_eq!(t.rewrite_extension("./a.mts"), Some("./a.js".to_string()));
    assert_eq!(t.rewrite_extension("./a.jsx"), Some("./a.js".to_string()));
    assert_eq!(t.rewrite_extension("./a.ts?raw=1"), Some("./a.js?raw=1".to_string()));
    assert_eq!(t.rewrite_extension("./a.js"), None);
    assert_eq!(t.rewrite_extension("./a.tsv"), None);
    assert_eq!(t.rewrite_extension("./a.ts.bak"), None);
    assert_eq!(t.rewrite_extension("https://x/a.ts"), None);
    assert_eq!(t.rewrite_extension("./x.ts?a.ts"), Some("./x.js?a.ts".to_string()));
    assert_eq!(t.rewrite_extension("./a.ts?x\ny"), None);
}

fn ctx(dev: bool) -> TranspileContext {
    TranspileContext::new(
        Arc::new(BuildEnvironment::current(dev, false)),
        1234,
        vec![("dep".to_string(), 77)],
    )
}

#[test]
fn specifier_rewrites() {
    let t = JsTranspiler::new(Mapping::empty());
    let prod = ctx(false);
    let dev = ctx(true);
    assert_eq!(
        t.rewrite_specifier("react/jsx-runtime", &prod),
        Some("/modules/stdlib/src/expose/jsx-runtime.js".to_string())
    );
    assert_eq!(
        t.rewrite_specifier("/modules/stdlib/src/expose/jsx-runtime", &dev),
        Some("/modules/stdlib/src/expose/jsx-runtime.js".to_string())
    );
    assert_eq!(t.rewrite_specifier("./a.ts", &prod), Some("./a.js".to_string()));
    assert_eq!(t.rewrite_specifier("./a.ts", &dev), Some("./a.ts?t=1234".to_string()));
    assert_eq!(t.rewrite_specifier("/modules/dep/index.js", &dev), Some("/modules/dep/index.js?t=77".to_string()));
    assert_eq!(t.rewrite_specifier("/modules/other/index.js", &dev), Some("/modules/other/index.js?t=1234".to_string()));
    assert_eq!(t.rewrite_specifier("react", &dev), None);
    assert_eq!(t.rewrite_specifier("https://esm.sh/x.ts", &dev), None);
}

#[test]
fn timestamps_of_specifiers() {
    let t = JsTranspiler::new(Mapping::empty());
    let c = ctx(true);
    assert_eq!(t.resolve_timestamp("../x.js", &c), 1234);
    assert_eq!(t.resolve_timestamp("/modules/dep/x.js", &c), 77);
    assert_eq!(c.resolve_dep_timestamp("dep"), Some(77));
    assert_eq!(c.resolve_dep_timestamp("nope"), None);
}

#[test]
fn inline_source_map_appends_base64_comment() {
    let out = inline_source_map("let a = 1;".to_string(), "{}");
    assert_eq!(
        out,
        "let a = 1;\n//# sourceMappingURL=data:application/json;charset=utf-8;base64,e30=\n"
    );
}

#[test]
fn inline_source_map_pads_short_groups() {
    let tail = |map: &str| inline_source_map(String::new(), map).rsplit(',').next().unwrap().trim_end().to_string();
    assert_eq!(tail("a"), "YQ==");
    assert_eq!(tail("ab"), "YWI=");
    assert_eq!(tail("abc"), "YWJj");
    assert_eq!(tail("abcd+/?"), "YWJjZCsvPw==");
}
