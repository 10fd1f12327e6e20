use creator::build::watch::{
    corresponding_output, debounce_step, reload_uri, should_ignore_path, DebouncePhase, WatchAction, WatchSignal,
};
use creator::build::workspace::{ModuleGraph, PendingChanges, WatchEventKind};
use creator::error::Error;

fn graph(mods: &[(&str, &[&str])]) -> ModuleGraph {
    let mut g = ModuleGraph::new();
    for (name, deps) in mods {
        g.add_module(name.to_string(), format!("/ws/{name}"), deps.iter().map(|d| d.to_string()).collect())
            .unwrap();
    }
    g
}

fn sorted(mut v: Vec<String>) -> Vec<String> {
    v.sort();
    v
}

#[test]
fn duplicate_module_names_are_refused() {
    let mut g = graph(&[("a", &[])]);
    match g.add_module("a".to_string(), "/other/a".to_string(), vec![]).unwrap_err() {
        Error::Plan(m) => assert_eq!(m, "duplicate module name 'a': /ws/a and /other/a"),
        other => panic!("unexpected {other:?}"),
    }
    assert_eq!(g.module_names(), vec!["a".to_string()]);
}

#[test]
fn levels_put_dependencies_first() {
    let g = graph(&[("app", &["ui", "lib"]), ("ui", &["lib"]), ("lib", &["external"]), ("solo", &[])]);
    let levels = g.build_levels();
    assert_eq!(levels, vec![vec!["lib".to_string(), "solo".to_string()], vec!["ui".to_string()], vec!["app".to_string()]]);
}

#[test]
fn levels_stop_at_a_cycle() {
    let g = graph(&[("a", &["b"]), ("b", &["a"]), ("c", &[]), ("d", &["a"])]);
    let levels = g.build_levels();
    assert_eq!(levels, vec![vec!["c".to_string()]]);
}

#[test]
fn closure_takes_all_dependents() {
    let g = graph(&[("app", &["ui"]), ("ui", &["lib"]), ("lib", &[]), ("other", &[])]);
    let c = g.affected_closure(&vec!["lib".to_string()]);
    assert_eq!(sorted(c), vec!["app".to_string(), "lib".to_string(), "ui".to_string()]);
    let c2 = g.affected_closure(&vec!["other".to_string(), "other".to_string()]);
    assert_eq!(c2, vec!["other".to_string()]);
}

#[test]
fn order_respects_dependencies_within_the_subset() {
    let g = graph(&[("app", &["ui", "lib"]), ("ui", &["lib"]), ("lib", &[])]);
    let order = g.topological_order_of(&vec!["app".to_string(), "ui".to_string(), "lib".to_string()]);
    assert_eq!(order, vec!["lib".to_string(), "ui".to_string(), "app".to_string()]);
    let part = g.topological_order_of(&vec!["app".to_string(), "ui".to_string()]);
    assert_eq!(part, vec!["ui".to_string(), "app".to_string()]);
}

#[test]
fn order_leaves_out_cycles() {
    let g = graph(&[("a", &["b"]), ("b", &["a"]), ("c", &["a"]), ("d", &[])]);
    let order = g.topological_order_of(&vec!["a".to_string(), "b".to_string(), "c".to_string(), "d".to_string()]);
    assert_eq!(order, vec!["d".to_string()]);
}

#[test]
fn pending_changes_collect_paths() {
    let mut p = PendingChanges::new();
    assert!(p.is_empty());
    p.add("a".to_string(), "/ws/a/x.ts".to_string());
    p.add("a".to_string(), "/ws/a/x.ts".to_string());
    p.add("a".to_string(), "/ws/a/y.ts".to_string());
    p.add("b".to_string(), "/ws/b/z.ts".to_string());
    assert!(!p.is_empty());
    let drained = p.drain();
    assert!(p.is_empty());
    assert_eq!(
        drained,
        vec![
            ("a".to_string(), vec!["/ws/a/x.ts".to_string(), "/ws/a/y.ts".to_string()]),
            ("b".to_string(), vec!["/ws/b/z.ts".to_string()]),
        ]
    );
}

#[test]
fn watch_events_are_filed_under_their_modules() {
    let g = graph(&[("a", &[]), ("b", &[])]);
    let mut p = PendingChanges::new();
    g.apply_watch_event(WatchEventKind::Other, &vec!["/ws/a/x.ts".to_string()], &mut p);
    assert!(p.is_empty());
    g.apply_watch_event(
        WatchEventKind::Modify,
        &vec!["/ws/a/x.ts".to_string(), "/elsewhere/q.ts".to_string(), "/ws/b/z.ts".to_string()],
        &mut p,
    );
    let drained = p.drain();
    assert_eq!(
        drained,
        vec![("a".to_string(), vec!["/ws/a/x.ts".to_string()]), ("b".to_string(), vec!["/ws/b/z.ts".to_string()])]
    );
    assert_eq!(g.module_for_path("/ws/ab/x.ts"), None);
    assert_eq!(g.dir_of("b"), Some("/ws/b".to_string()));
}

#[test]
fn rebuild_plan_orders_affected_modules() {
    let g = graph(&[("app", &["lib"]), ("lib", &[]), ("other", &[])]);
    let plan = g.plan_rebuild(&vec![("lib".to_string(), vec!["/ws/lib/a.ts".to_string()])]);
    assert_eq!(
        plan,
        vec![("lib".to_string(), Some(vec!["/ws/lib/a.ts".to_string()])), ("app".to_string(), None)]
    );
}

#[test]
fn outputs_of_sources() {
    assert_eq!(corresponding_output("/m", "/m", "/m/src/a.tsx"), "/m/src/a.js");
    assert_eq!(corresponding_output("/m", "/out", "/m/s.scss"), "/out/s.css");
    assert_eq!(corresponding_output("/m", "/out", "/m/i.png"), "/out/i.png");
    assert!(should_ignore_path("/out/a.js", "/m", "/out"));
    assert!(!should_ignore_path("/m/a.js", "/m", "/out"));
    assert!(!should_ignore_path("/m/a.js", "/m", "/m"));
    assert_eq!(reload_uri("x"), "spotify:app:rpc:reload?module=x");
}

#[test]
fn debounce_decisions() {
    let (waiting, settling) = (DebouncePhase::Waiting, DebouncePhase::Settling);
    assert_eq!(debounce_step(waiting, WatchSignal::Changed), (Some(settling), WatchAction::ApplyAndRebuild));
    assert_eq!(debounce_step(settling, WatchSignal::Changed), (Some(settling), WatchAction::ApplyAndWait));
    assert_eq!(debounce_step(settling, WatchSignal::QuietPeriodOver), (Some(waiting), WatchAction::Rebuild));
    assert_eq!(debounce_step(waiting, WatchSignal::QuietPeriodOver), (Some(waiting), WatchAction::Wait));
    assert_eq!(
        debounce_step(waiting, WatchSignal::Disconnected),
        (None, WatchAction::Stop("file watcher channel closed".to_string()))
    );
    assert_eq!(
        debounce_step(settling, WatchSignal::Disconnected),
        (None, WatchAction::Stop("file watcher disconnected".to_string()))
    );
}

#[test]
fn acyclic_subset_is_fully_ordered() {
    let g = graph(&[("a", &[]), ("b", &["a"]), ("c", &["b", "a"])]);
    let subset = vec!["c".to_string(), "a".to_string(), "b".to_string()];
    let order = g.topological_order_of(&subset);
    assert_eq!(order, vec!["a".to_string(), "b".to_string(), "c".to_string()]);
}

#[test]
fn module_lists_build_workspaces() {
    let m = |n: &str, d: &str, deps: &[&str]| (n.to_string(), d.to_string(), deps.iter().map(|x| x.to_string()).collect::<Vec<_>>());
    let g = ModuleGraph::from_modules(vec![m("a", "/a", &[]), m("b", "/b", &["a"])]).unwrap();
    assert_eq!(g.module_names(), vec!["a".to_string(), "b".to_string()]);
    match ModuleGraph::from_modules(vec![m("a", "/a", &[]), m("b", "/b", &[]), m("a", "/c", &[]), m("b", "/d", &[])]) {
        Err(Error::Plan(msg)) => assert_eq!(msg, "duplicate module name 'a': /a and /c"),
        _ => panic!("expected a duplicate error"),
    }
}
