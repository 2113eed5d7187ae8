use showdesktop::snapshot::{lowest_id, persisted_entry, snapshot_entry, RestoreKind, SnapshotEntry};
use showdesktop::text::{text_contains, text_not_after};
use showdesktop::toplevel::{
    should_manage_toplevel, should_manage_toplevel_values, Toplevel, ToplevelState,
};

fn window(foreign_id: u32, identifier: &str, app_id: &str, state: Vec<ToplevelState>) -> Toplevel {
    Toplevel {
        foreign_id,
        identifier: identifier.to_string(),
        app_id: app_id.to_string(),
        state,
        controllable: true,
        workspaces: vec![],
        outputs: vec![],
    }
}

#[test]
fn text_is_found_where_it_stands() {
    assert!(text_contains("cosmic-panel", "cosmic-panel"));
    assert!(text_contains("com.system76.cosmic-panel.dock", "cosmic-panel"));
    assert!(!text_contains("cosmic-pane", "cosmic-panel"));
    assert!(!text_contains("cosmic-pan-cosmic-pane", "cosmic-panel"));
    assert!(text_contains("aab", "ab"));
    assert!(text_contains("", ""));
    assert!(text_contains("abc", ""));
    assert!(!text_contains("", "a"));
    assert!(text_contains("fenêtre-bg", "être"));
}

#[test]
fn text_is_ordered_as_strings_are() {
    let words = ["", "a", "aa", "ab", "b", "B", "é", "窓", "a\u{ffff}", "a\u{10000}"];
    for a in words {
        for b in words {
            assert_eq!(text_not_after(a, b), a <= b);
        }
    }
}

#[test]
fn regular_windows_are_managed() {
    assert!(should_manage_toplevel_values("w1", "org.mozilla.firefox"));
    assert!(should_manage_toplevel_values("w1", ""));
    assert!(should_manage_toplevel_values("w1", "com.system76.CosmicFiles"));
}

#[test]
fn windows_without_identifier_are_not_managed() {
    assert!(!should_manage_toplevel_values("", "org.mozilla.firefox"));
    assert!(!should_manage_toplevel_values("", ""));
}

#[test]
fn shell_parts_are_not_managed() {
    assert!(!should_manage_toplevel_values("w1", "cosmic-panel"));
    assert!(!should_manage_toplevel_values("w1", "org.cosmic-ext-showdesktop.applet"));
    assert!(!should_manage_toplevel_values("w1", "x-cosmic-bg"));
    assert!(!should_manage_toplevel_values("w1", "cosmic-greeter-x"));
    assert!(!should_manage_toplevel(&window(1, "w1", "cosmic-bg", vec![])));
    assert!(should_manage_toplevel(&window(1, "w1", "term", vec![])));
}

#[test]
fn states_are_looked_up() {
    let w = window(1, "w1", "term", vec![ToplevelState::Sticky, ToplevelState::Activated]);
    assert!(w.has_state(ToplevelState::Activated));
    assert!(w.has_state(ToplevelState::Sticky));
    assert!(!w.has_state(ToplevelState::Minimized));
    assert!(!w.has_state(ToplevelState::Fullscreen));
}

#[test]
fn only_visible_controllable_managed_windows_are_minimized() {
    let mut w = window(1, "w1", "term", vec![]);
    assert!(w.is_eligible() && w.is_to_minimize());
    w.controllable = false;
    assert!(!w.is_eligible() && !w.is_to_minimize());
    let hidden = window(1, "w1", "term", vec![ToplevelState::Minimized]);
    assert!(hidden.is_eligible() && !hidden.is_to_minimize());
    let panel = window(1, "w1", "cosmic-panel", vec![]);
    assert!(!panel.is_eligible() && !panel.is_to_minimize());
}

#[test]
fn lowest_of_ids() {
    assert_eq!(lowest_id(&vec![]), None);
    assert_eq!(lowest_id(&vec![7]), Some(7));
    assert_eq!(lowest_id(&vec![7, 3, 9, 3]), Some(3));
}

#[test]
fn snapshot_entry_of_a_window() {
    let mut w = window(
        17,
        "w1",
        "term",
        vec![ToplevelState::Activated, ToplevelState::Maximized],
    );
    w.workspaces = vec![12, 4];
    assert_eq!(
        snapshot_entry(&w),
        SnapshotEntry {
            foreign_id: 17,
            restore_kind: RestoreKind::Maximized,
            workspace: Some(4),
            was_active: true,
        }
    );
    assert_eq!(
        snapshot_entry(&window(18, "w2", "term", vec![ToplevelState::Fullscreen])),
        SnapshotEntry {
            foreign_id: 18,
            restore_kind: RestoreKind::Normal,
            workspace: None,
            was_active: false,
        }
    );
}

#[test]
fn persisted_entry_of_a_window() {
    let w = window(17, "w1", "term", vec![ToplevelState::Maximized]);
    let entry = persisted_entry(&w);
    assert_eq!(entry.identifier, "w1");
    assert_eq!(entry.app_id, "term");
    assert_eq!(entry.restore_kind, RestoreKind::Maximized);
    assert!(!entry.was_active);
}
