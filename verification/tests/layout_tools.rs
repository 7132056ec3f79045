use window_registry::codec::{deserialize_layout, serialize_layout};
use window_registry::cycle::compute_cycle_target;
use window_registry::geometry::{compute_snap_rect, SnapPosition, SnapTarget};
use window_registry::monitor::fallback_monitors;
use window_registry::registry::{WindowConfig, WindowState};
use window_registry::restore::{restore_geometry, restore_report};

fn sample_state(label: &str, z: u32, focused: bool) -> WindowState {
    WindowState {
        label: label.to_string(),
        config: WindowConfig {
            window_type: "main".to_string(),
            title: format!("window {label}"),
            width: 1024,
            height: 768,
            x: Some(-40),
            y: None,
            resizable: true,
            minimizable: false,
            maximizable: true,
            closable: true,
            always_on_top: false,
            decorations: true,
            transparent: false,
            focus: true,
            fullscreen: false,
            url: Some("index.html".to_string()),
        },
        z_order: z,
        is_focused: focused,
        is_minimized: false,
        is_maximized: true,
        monitor_id: Some("primary".to_string()),
        created_at: 1111,
        last_focused_at: 2222,
    }
}

fn screen() -> SnapTarget {
    SnapTarget {
        x: 0,
        y: 0,
        width: 1920,
        height: 1080,
    }
}

#[test]
fn snap_left_is_left_half() {
    let r = compute_snap_rect(&screen(), &SnapPosition::Left);
    assert_eq!(
        r,
        SnapTarget {
            x: 0,
            y: 0,
            width: 960,
            height: 1080
        }
    );
}

#[test]
fn snap_center_is_seventy_percent_inset() {
    let r = compute_snap_rect(&screen(), &SnapPosition::Center);
    assert_eq!(
        r,
        SnapTarget {
            x: 288,
            y: 162,
            width: 1344,
            height: 756
        }
    );
}

#[test]
fn snap_quadrants_and_halves() {
    let area = screen();
    assert_eq!(
        compute_snap_rect(&area, &SnapPosition::Right),
        SnapTarget {
            x: 960,
            y: 0,
            width: 960,
            height: 1080
        }
    );
    assert_eq!(
        compute_snap_rect(&area, &SnapPosition::Top),
        SnapTarget {
            x: 0,
            y: 0,
            width: 1920,
            height: 540
        }
    );
    assert_eq!(
        compute_snap_rect(&area, &SnapPosition::Bottom),
        SnapTarget {
            x: 0,
            y: 540,
            width: 1920,
            height: 540
        }
    );
    assert_eq!(
        compute_snap_rect(&area, &SnapPosition::TopLeft),
        SnapTarget {
            x: 0,
            y: 0,
            width: 960,
            height: 540
        }
    );
    assert_eq!(
        compute_snap_rect(&area, &SnapPosition::BottomRight),
        SnapTarget {
            x: 960,
            y: 540,
            width: 960,
            height: 540
        }
    );
    assert_eq!(compute_snap_rect(&area, &SnapPosition::Maximize), area);
}

#[test]
fn snap_is_deterministic() {
    let a = compute_snap_rect(&screen(), &SnapPosition::TopRight);
    let b = compute_snap_rect(&screen(), &SnapPosition::TopRight);
    assert_eq!(a, b);
}

#[test]
fn snap_respects_offset_reference() {
    let area = SnapTarget {
        x: 100,
        y: 50,
        width: 1000,
        height: 500,
    };
    assert_eq!(
        compute_snap_rect(&area, &SnapPosition::BottomLeft),
        SnapTarget {
            x: 100,
            y: 300,
            width: 500,
            height: 250
        }
    );
}

#[test]
fn cycle_three_windows() {
    let ordered = vec!["A".to_string(), "B".to_string(), "C".to_string()];
    let target = |cur: &str, fwd: bool| {
        compute_cycle_target(&Some(cur.to_string()), fwd, &ordered).unwrap()
    };
    assert_eq!(target("B", true), "C");
    assert_eq!(target("A", true), "B");
    assert_eq!(target("C", true), "A");
    assert_eq!(target("A", false), "C");
    assert_eq!(target("B", false), "A");
    assert_eq!(target("C", false), "B");
}

#[test]
fn cycle_empty_snapshot_gives_no_target() {
    let ordered: Vec<String> = Vec::new();
    assert!(compute_cycle_target(&Some("A".to_string()), true, &ordered).is_none());
    assert!(compute_cycle_target(&None, false, &ordered).is_none());
}

#[test]
fn cycle_missing_current_falls_back_to_first() {
    let ordered = vec!["A".to_string(), "B".to_string()];
    assert_eq!(
        compute_cycle_target(&Some("gone".to_string()), true, &ordered).unwrap(),
        "A"
    );
    assert_eq!(compute_cycle_target(&None, true, &ordered).unwrap(), "A");
}

#[test]
fn layout_round_trip_preserves_records_exactly() {
    let records = vec![
        sample_state("alpha", 3, true),
        sample_state("beta", 2, false),
        sample_state("weiß-Ω-🗔", 1, false),
    ];
    let bytes = serialize_layout(&records);
    let back = deserialize_layout(&bytes).unwrap();
    assert_eq!(back, records);
}

#[test]
fn layout_round_trip_of_empty_layout() {
    let records: Vec<WindowState> = Vec::new();
    let bytes = serialize_layout(&records);
    let back = deserialize_layout(&bytes).unwrap();
    assert!(back.is_empty());
}

#[test]
fn deserialize_rejects_garbage() {
    assert!(deserialize_layout(&vec![]).is_err());
    assert!(deserialize_layout(&vec![1, 2, 3]).is_err());
    assert!(deserialize_layout(&b"not a layout at all".to_vec()).is_err());
}

#[test]
fn deserialize_rejects_wrong_version() {
    let records = vec![sample_state("alpha", 1, true)];
    let mut bytes = serialize_layout(&records);
    bytes[2] = 2;
    assert!(deserialize_layout(&bytes).is_err());
}

#[test]
fn deserialize_rejects_truncated_input() {
    let records = vec![sample_state("alpha", 1, true)];
    let bytes = serialize_layout(&records);
    let cut = bytes[..bytes.len() - 1].to_vec();
    assert!(deserialize_layout(&cut).is_err());
}

#[test]
fn deserialize_rejects_trailing_bytes() {
    let records = vec![sample_state("alpha", 1, true)];
    let mut bytes = serialize_layout(&records);
    bytes.push(0);
    assert!(deserialize_layout(&bytes).is_err());
}

#[test]
fn deserialize_rejects_invalid_flag_byte() {
    let records = vec![sample_state("alpha", 1, true)];
    let bytes = serialize_layout(&records);
    // flip a byte somewhere in the body, keeping the length: a malformed
    // record must be rejected rather than misread
    let mut rejected = false;
    for i in 3..bytes.len() {
        let mut copy = bytes.clone();
        copy[i] = copy[i].wrapping_add(200);
        match deserialize_layout(&copy) {
            Err(_) => {
                rejected = true;
                break;
            }
            Ok(_) => {}
        }
    }
    assert!(rejected);
    // and untouched bytes still parse
    assert!(deserialize_layout(&bytes).is_ok());
}

#[test]
fn partial_restore_reports_failures_by_index() {
    let results = vec![
        Some("first".to_string()),
        None,
        Some("third".to_string()),
    ];
    let report = restore_report(&results);
    assert_eq!(report.restored, vec!["first".to_string(), "third".to_string()]);
    assert_eq!(report.failed_indices, vec![1]);
}

#[test]
fn restore_report_on_all_failures() {
    let results: Vec<Option<String>> = vec![None, None];
    let report = restore_report(&results);
    assert!(report.restored.is_empty());
    assert_eq!(report.failed_indices, vec![0, 1]);
}

#[test]
fn restore_geometry_prefers_minimized_and_saved_position() {
    let mut w = sample_state("alpha", 1, true);
    w.config.x = Some(30);
    w.config.y = Some(40);
    w.is_minimized = true;
    w.is_maximized = true;
    let g = restore_geometry(&w);
    assert_eq!((g.x, g.y), (30, 40));
    assert_eq!((g.width, g.height), (1024, 768));
    assert!(g.is_minimized);
    assert!(!g.is_maximized);
    assert_eq!(g.monitor_name.as_deref(), Some("primary"));

    let mut plain = sample_state("beta", 1, true);
    plain.config.x = None;
    plain.is_minimized = false;
    plain.is_maximized = true;
    let g = restore_geometry(&plain);
    assert_eq!((g.x, g.y), (0, 0));
    assert!(g.is_maximized);
}

#[test]
fn fallback_monitor_is_single_primary() {
    let monitors = fallback_monitors();
    assert_eq!(monitors.len(), 1);
    let m = &monitors[0];
    assert_eq!(m.id, "primary");
    assert_eq!(m.name, "Primary Monitor");
    assert_eq!((m.width, m.height), (1920, 1080));
    assert_eq!((m.x, m.y), (0, 0));
    assert_eq!(m.scale_factor_milli, 1000);
    assert!(m.is_primary);
    let area = m.work_area();
    assert_eq!(
        area,
        SnapTarget {
            x: 0,
            y: 0,
            width: 1920,
            height: 1080
        }
    );
}
