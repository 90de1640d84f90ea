use log_viewer::graph::{cycle_marker_label, plan_graphs, GraphToggles};
use log_viewer::loaded::LoadedLog;
use log_viewer::viewer::LogViewer;

const LOG: &str = "[0.0] speed | Number : 1\n\
[0.5] cycle | CycleNumber : 1\n\
[1.0] speed | Number : 2\n\
[1.5] mode | String : auto\n\
[2.0] cycle | CycleNumber : 2\n\
[2.5] speed | Number : oops\n";

fn switches(t: &GraphToggles) -> Vec<(String, bool)> {
    let mut v = t.switches();
    v.sort();
    v
}

#[test]
fn first_plan_only_adds_switches() {
    let log = LoadedLog::from_text(LOG);
    let mut t = GraphToggles::new();
    let plan = plan_graphs(log.groups(), &mut t);
    assert!(plan.lines.is_empty());
    assert!(plan.markers.is_empty());
    assert_eq!(
        switches(&t),
        vec![("cycle".to_string(), false), ("speed".to_string(), false)]
    );
}

#[test]
fn enabled_number_gives_line() {
    let log = LoadedLog::from_text(LOG);
    let mut t = GraphToggles::new();
    t.set(&"speed".to_string(), true);
    let plan = plan_graphs(log.groups(), &mut t);
    assert_eq!(plan.lines.len(), 1);
    assert_eq!(plan.lines[0].name, "speed");
    let pts: Vec<(&str, &str)> = plan.lines[0]
        .points
        .iter()
        .map(|(a, b)| (a.as_str(), b.as_str()))
        .collect();
    assert_eq!(pts, vec![("0.0", "1"), ("1.0", "2"), ("2.5", "0")]);
    assert!(plan.markers.is_empty());
    assert!(t.is_enabled(&"speed".to_string()));
    assert!(!t.is_enabled(&"cycle".to_string()));
}

#[test]
fn enabled_cycle_gives_markers() {
    let log = LoadedLog::from_text(LOG);
    let mut t = GraphToggles::new();
    t.set(&"cycle".to_string(), true);
    let plan = plan_graphs(log.groups(), &mut t);
    assert!(plan.lines.is_empty());
    let marks: Vec<(&str, &str)> = plan
        .markers
        .iter()
        .map(|m| (m.label.as_str(), m.time.as_str()))
        .collect();
    assert_eq!(marks, vec![("Cylce #1", "0.5"), ("Cylce #2", "2.0")]);
}

#[test]
fn switches_settle_after_one_plan() {
    let log = LoadedLog::from_text(LOG);
    let mut t = GraphToggles::new();
    t.set(&"speed".to_string(), true);
    plan_graphs(log.groups(), &mut t);
    let after_one = switches(&t);
    plan_graphs(log.groups(), &mut t);
    assert_eq!(switches(&t), after_one);
}

#[test]
fn toggles_insert_and_set() {
    let mut t = GraphToggles::new();
    let a = "a".to_string();
    assert!(!t.contains(&a));
    t.insert_if_absent(&a);
    assert!(t.contains(&a));
    assert!(!t.is_enabled(&a));
    t.set(&a, true);
    t.insert_if_absent(&a);
    assert!(t.is_enabled(&a));
    assert_eq!(t.switches().len(), 1);
}

#[test]
fn marker_label_text() {
    assert_eq!(cycle_marker_label(0), "Cylce #0");
    assert_eq!(cycle_marker_label(1234), "Cylce #1234");
}

#[test]
fn viewer_plans_only_with_a_log() {
    let mut v = LogViewer::new();
    assert!(v.plan_graphs().is_none());
    v.load_log(LOG);
    v.set_graph_enabled(&"speed".to_string(), true);
    let plan = v.plan_graphs().unwrap();
    assert_eq!(plan.lines.len(), 1);
    assert!(v.enabled_graphs().contains(&"cycle".to_string()));
}
