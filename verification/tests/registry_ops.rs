use window_registry::registry::{WindowConfig, WindowRegistry, WindowState};

fn config(kind: &str, title: &str) -> WindowConfig {
    WindowConfig {
        window_type: kind.to_string(),
        title: title.to_string(),
        width: 800,
        height: 600,
        x: Some(10),
        y: Some(20),
        resizable: true,
        minimizable: true,
        maximizable: true,
        closable: true,
        always_on_top: false,
        decorations: true,
        transparent: false,
        focus: true,
        fullscreen: false,
        url: None,
    }
}

fn focused_count(snapshot: &[WindowState]) -> usize {
    snapshot.iter().filter(|w| w.is_focused).count()
}

#[test]
fn empty_registry_has_no_focus() {
    let registry = WindowRegistry::new();
    assert!(registry.get_focused_window().is_none());
    assert!(registry.get_windows_by_z_order().is_empty());
}

#[test]
fn register_focuses_new_window() {
    let mut registry = WindowRegistry::new();
    registry.add_window("a".to_string(), config("main", "A"), 100);
    let focused = registry.get_focused_window().unwrap();
    assert_eq!(focused.label, "a");
    assert!(focused.is_focused);
    assert_eq!(focused.z_order, 1);
    assert_eq!(focused.created_at, 100);
    assert_eq!(focused.last_focused_at, 100);

    registry.add_window("b".to_string(), config("main", "B"), 200);
    let focused = registry.get_focused_window().unwrap();
    assert_eq!(focused.label, "b");
    assert_eq!(focused.z_order, 2);
}

#[test]
fn exactly_one_focused_after_each_operation() {
    let mut registry = WindowRegistry::new();
    registry.add_window("a".to_string(), config("main", "A"), 1);
    assert_eq!(focused_count(&registry.get_windows_by_z_order()), 1);
    registry.add_window("b".to_string(), config("main", "B"), 2);
    assert_eq!(focused_count(&registry.get_windows_by_z_order()), 1);
    registry.add_window("c".to_string(), config("main", "C"), 3);
    assert_eq!(focused_count(&registry.get_windows_by_z_order()), 1);
    registry.focus_window("a", 4);
    assert_eq!(focused_count(&registry.get_windows_by_z_order()), 1);
    registry.remove_window("a");
    assert_eq!(focused_count(&registry.get_windows_by_z_order()), 1);
    registry.focus_window("missing", 5);
    assert_eq!(focused_count(&registry.get_windows_by_z_order()), 1);
    registry.remove_window("b");
    assert_eq!(focused_count(&registry.get_windows_by_z_order()), 1);
    registry.remove_window("c");
    assert_eq!(focused_count(&registry.get_windows_by_z_order()), 0);
    assert!(registry.get_focused_window().is_none());
}

#[test]
fn z_orders_distinct_and_latest_on_top() {
    let mut registry = WindowRegistry::new();
    registry.add_window("a".to_string(), config("main", "A"), 1);
    registry.add_window("b".to_string(), config("main", "B"), 2);
    registry.add_window("c".to_string(), config("main", "C"), 3);
    let snapshot = registry.get_windows_by_z_order();
    let mut orders: Vec<u32> = snapshot.iter().map(|w| w.z_order).collect();
    let count = orders.len();
    orders.dedup();
    assert_eq!(orders.len(), count);
    // the most recently registered window is frontmost
    assert_eq!(snapshot[0].label, "c");

    registry.focus_window("a", 4);
    let snapshot = registry.get_windows_by_z_order();
    assert_eq!(snapshot[0].label, "a");
    assert!(snapshot[0].is_focused);
    assert!(snapshot
        .iter()
        .skip(1)
        .all(|w| w.z_order < snapshot[0].z_order));
}

#[test]
fn snapshot_sorted_by_descending_z_order() {
    let mut registry = WindowRegistry::new();
    registry.add_window("a".to_string(), config("main", "A"), 1);
    registry.add_window("b".to_string(), config("main", "B"), 2);
    registry.add_window("c".to_string(), config("main", "C"), 3);
    registry.focus_window("b", 4);
    let snapshot = registry.get_windows_by_z_order();
    assert_eq!(snapshot.len(), 3);
    for pair in snapshot.windows(2) {
        assert!(pair[0].z_order > pair[1].z_order);
    }
    let labels: Vec<&str> = snapshot.iter().map(|w| w.label.as_str()).collect();
    assert_eq!(labels, vec!["b", "c", "a"]);
}

#[test]
fn focus_twice_is_idempotent() {
    let mut registry = WindowRegistry::new();
    registry.add_window("a".to_string(), config("main", "A"), 1);
    registry.add_window("b".to_string(), config("main", "B"), 2);
    registry.focus_window("a", 10);
    let first = registry.get_windows_by_z_order();
    let first_counter_view = registry.get_focused_window().unwrap().z_order;
    registry.focus_window("a", 99);
    let second = registry.get_windows_by_z_order();
    assert_eq!(first, second);
    assert_eq!(
        registry.get_focused_window().unwrap().z_order,
        first_counter_view
    );
    assert_eq!(registry.get_focused_window().unwrap().last_focused_at, 10);
}

#[test]
fn removal_reassigns_focus_to_most_recently_focused() {
    let mut registry = WindowRegistry::new();
    registry.add_window("a".to_string(), config("main", "A"), 5);
    registry.add_window("b".to_string(), config("main", "B"), 10);
    registry.focus_window("a", 5);
    assert_eq!(registry.get_focused_window().unwrap().label, "a");
    assert_eq!(registry.get_focused_window().unwrap().last_focused_at, 5);
    registry.remove_window("a");
    let focused = registry.get_focused_window().unwrap();
    assert_eq!(focused.label, "b");
    assert!(focused.is_focused);
    assert_eq!(focused.last_focused_at, 10);
}

#[test]
fn removal_ties_break_by_higher_z_order() {
    let mut registry = WindowRegistry::new();
    registry.add_window("a".to_string(), config("main", "A"), 7);
    registry.add_window("b".to_string(), config("main", "B"), 7);
    registry.add_window("c".to_string(), config("main", "C"), 7);
    // c is focused; a and b both carry last_focused_at == 7, b has higher z
    registry.remove_window("c");
    assert_eq!(registry.get_focused_window().unwrap().label, "b");
}

#[test]
fn removing_unknown_label_is_noop() {
    let mut registry = WindowRegistry::new();
    registry.add_window("a".to_string(), config("main", "A"), 1);
    let before = registry.get_windows_by_z_order();
    registry.remove_window("ghost");
    let after = registry.get_windows_by_z_order();
    assert_eq!(before, after);
}

#[test]
fn focusing_unknown_label_is_noop() {
    let mut registry = WindowRegistry::new();
    registry.add_window("a".to_string(), config("main", "A"), 1);
    registry.add_window("b".to_string(), config("main", "B"), 2);
    let before = registry.get_windows_by_z_order();
    registry.focus_window("ghost", 50);
    let after = registry.get_windows_by_z_order();
    assert_eq!(before, after);
    assert_eq!(registry.get_focused_window().unwrap().label, "b");
}

#[test]
fn update_window_state_applies_only_given_fields() {
    let mut registry = WindowRegistry::new();
    registry.add_window("a".to_string(), config("main", "A"), 1);
    registry.update_window_state("a", Some(true), None, Some("m1".to_string()));
    let w = registry.get_window("a").unwrap();
    assert!(w.is_minimized);
    assert!(!w.is_maximized);
    assert_eq!(w.monitor_id.as_deref(), Some("m1"));

    registry.update_window_state("a", None, Some(true), None);
    let w = registry.get_window("a").unwrap();
    assert!(w.is_minimized);
    assert!(w.is_maximized);
    assert_eq!(w.monitor_id.as_deref(), Some("m1"));

    registry.update_window_state("ghost", Some(false), Some(false), None);
    let w = registry.get_window("a").unwrap();
    assert!(w.is_minimized && w.is_maximized);
}

#[test]
fn get_window_returns_none_for_unknown_label() {
    let mut registry = WindowRegistry::new();
    registry.add_window("a".to_string(), config("main", "A"), 1);
    assert!(registry.get_window("b").is_none());
    assert_eq!(registry.get_window("a").unwrap().label, "a");
}

#[test]
fn reregistering_a_label_replaces_the_record() {
    let mut registry = WindowRegistry::new();
    registry.add_window("a".to_string(), config("main", "old title"), 1);
    registry.add_window("b".to_string(), config("main", "B"), 2);
    registry.add_window("a".to_string(), config("panel", "new title"), 3);
    let snapshot = registry.get_windows_by_z_order();
    assert_eq!(snapshot.len(), 2);
    let w = registry.get_window("a").unwrap();
    assert_eq!(w.config.title, "new title");
    assert_eq!(w.config.window_type, "panel");
    assert_eq!(w.created_at, 3);
    assert!(w.is_focused);
}
