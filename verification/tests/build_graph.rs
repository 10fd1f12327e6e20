use creator::build::graph::{BuildGraph, ContentHash, NodeId, SourceKind, SourceNode};
use creator::build::source::{build_graph, is_interesting, read_into};
use creator::error::Error;

fn src(path: &str, content: &str) -> SourceNode {
    SourceNode::from_source("/root", path, content.to_string())
}

#[test]
fn kinds_from_paths() {
    assert_eq!(SourceKind::from_path("/a/b.ts"), SourceKind::Ts);
    assert_eq!(SourceKind::from_path("x.tsx"), SourceKind::Tsx);
    assert_eq!(SourceKind::from_path("x.mjs"), SourceKind::Mjs);
    assert_eq!(SourceKind::from_path("x.scss"), SourceKind::Scss);
    assert_eq!(SourceKind::from_path("x.css"), SourceKind::Css);
    assert_eq!(SourceKind::from_path("x.png"), SourceKind::Other);
    assert_eq!(SourceKind::from_path("noext"), SourceKind::Other);
    assert!(SourceKind::Jsx.is_js_like());
    assert!(SourceKind::Scss.is_css_like());
    assert!(!SourceKind::Other.is_js_like());
}

#[test]
fn node_ids_round_trip() {
    assert_eq!(NodeId::from_raw(7).raw(), 7);
}

#[test]
fn content_hash_hex_is_blake3() {
    let h = ContentHash::from_bytes(b"abc");
    let hex = h.to_hex();
    assert_eq!(hex, "6437b3ac38465133ffb63b75273a8db548c558465d79db03fd359c6cd5bd9d85");
    assert_eq!(ContentHash::from_blake3(h.as_bytes()).to_hex(), hex);
}

#[test]
fn source_node_fields() {
    let n = src("/root/dir/a.ts", "x");
    assert_eq!(n.rel_path, "dir/a.ts");
    assert_eq!(n.kind, SourceKind::Ts);
    assert!(n.is_js_like());
    assert!(!n.is_css_like());
    let outside = src("/elsewhere/b.css", "y");
    assert_eq!(outside.rel_path, "/elsewhere/b.css");
}

#[test]
fn insert_lookup_remove() {
    let mut g = BuildGraph::new();
    let a = g.insert(src("/root/a.ts", "a")).unwrap();
    let b = g.insert(src("/root/b.ts", "b")).unwrap();
    assert_eq!(a, NodeId::from_raw(0));
    assert_eq!(b, NodeId::from_raw(1));
    assert_eq!(g.lookup("/root/b.ts"), Some(b));
    assert_eq!(g.node(b).unwrap().content, "b");
    match g.insert(src("/root/a.ts", "again")).unwrap_err() {
        Error::Plan(m) => assert_eq!(m, "duplicate node for path /root/a.ts"),
        other => panic!("unexpected {other:?}"),
    }
    let removed = g.remove(a).unwrap();
    assert_eq!(removed.path, "/root/a.ts");
    assert_eq!(g.lookup("/root/a.ts"), None);
    assert_eq!(g.nodes().len(), 1);
    assert!(g.remove(NodeId::from_raw(5)).is_none());
    assert!(matches!(g.node(NodeId::from_raw(5)), Err(Error::UnknownNode(_))));
}

#[test]
fn insert_then_remove_restores_graph() {
    let mut g = BuildGraph::new();
    g.insert(src("/root/a.ts", "a")).unwrap();
    let id = g.insert(src("/root/b.ts", "b")).unwrap();
    g.remove(id);
    assert_eq!(g.nodes().len(), 1);
    assert_eq!(g.lookup("/root/b.ts"), None);
    assert_eq!(g.lookup("/root/a.ts"), Some(NodeId::from_raw(0)));
}

#[test]
fn replace_keeps_path() {
    let mut g = BuildGraph::new();
    let id = g.insert(src("/root/a.ts", "a")).unwrap();
    g.replace(id, src("/root/a.ts", "new")).unwrap();
    assert_eq!(g.node(id).unwrap().content, "new");
    match g.replace(id, src("/root/other.ts", "x")).unwrap_err() {
        Error::Plan(m) => assert_eq!(m, "replace at NodeId(0) would change path from /root/a.ts to /root/other.ts"),
        other => panic!("unexpected {other:?}"),
    }
    assert!(matches!(g.replace(NodeId::from_raw(9), src("/root/a.ts", "x")), Err(Error::UnknownNode(_))));
}

#[test]
fn upsert_and_remove_by_path() {
    let mut g = BuildGraph::new();
    let id = g.upsert("/root", "/root/a.ts", "1".to_string()).unwrap();
    let again = g.upsert("/root", "/root/a.ts", "2".to_string()).unwrap();
    assert_eq!(id, again);
    assert_eq!(g.node(id).unwrap().content, "2");
    assert_eq!(g.remove_by_path("/root/a.ts"), Some(id));
    assert_eq!(g.remove_by_path("/root/a.ts"), None);
}

#[test]
fn graph_from_files() {
    let files = vec![
        ("/root/a.ts".to_string(), "a".to_string()),
        ("/root/b.css".to_string(), "b".to_string()),
    ];
    let g = build_graph("/root", files).unwrap();
    assert_eq!(g.nodes().len(), 2);
    assert_eq!(g.lookup("/root/b.css"), Some(NodeId::from_raw(1)));
    let mut g2 = BuildGraph::new();
    read_into(&mut g2, "/root", "/root/c.scss", "c".to_string()).unwrap();
    assert_eq!(g2.nodes()[0].kind, SourceKind::Scss);
    assert!(is_interesting("/x/y.mts"));
    assert!(!is_interesting("/x/y.txt"));
}

#[test]
fn refresh_replaces_everything() {
    let mut g = BuildGraph::new();
    g.insert(src("/root/old.ts", "o")).unwrap();
    g.refresh_from_disk("/root", vec![("/root/new.ts".to_string(), "n".to_string())]).unwrap();
    assert_eq!(g.lookup("/root/old.ts"), None);
    assert_eq!(g.lookup("/root/new.ts"), Some(NodeId::from_raw(0)));
}

#[test]
fn lookups_compare_paths_by_components() {
    let mut g = BuildGraph::new();
    let id = g.insert(src("/root/dir/a.ts", "x")).unwrap();
    assert_eq!(g.lookup("/root/dir/a.ts"), Some(id));
    assert_eq!(g.lookup("/root//dir/a.ts"), Some(id));
    assert_eq!(g.lookup("/root/./dir/a.ts"), Some(id));
    assert_eq!(g.lookup("/root/dir/b.ts"), None);
    assert!(matches!(g.insert(src("/root//dir/a.ts", "y")), Err(Error::Plan(_))));
    assert_eq!(g.remove_by_path("/root/dir//a.ts"), Some(id));
    assert_eq!(g.lookup("/root/dir/a.ts"), None);
}
