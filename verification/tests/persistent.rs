use showdesktop::app_data::AppData;
use showdesktop::error::WmError;
use showdesktop::key_order::sort_eligible;
use showdesktop::paths::{snapshot_file_path, snapshot_file_path_in};
use showdesktop::persistent_toggle::{snapshot_cleared, PersistentStep};
use showdesktop::request::ToplevelRequest;
use showdesktop::snapshot::{PersistedSnapshot, PersistedSnapshotEntry, RestoreKind};
use showdesktop::toplevel::{Toplevel, ToplevelState};

fn window(foreign_id: u32, identifier: &str, app_id: &str, state: Vec<ToplevelState>) -> Toplevel {
    Toplevel {
        foreign_id,
        identifier: identifier.to_string(),
        app_id: app_id.to_string(),
        state,
        controllable: true,
        workspaces: vec![],
        outputs: vec![],
    }
}

fn entry(identifier: &str, app_id: &str, kind: RestoreKind, active: bool) -> PersistedSnapshotEntry {
    PersistedSnapshotEntry {
        identifier: identifier.to_string(),
        app_id: app_id.to_string(),
        restore_kind: kind,
        was_active: active,
    }
}

fn set(window: usize) -> ToplevelRequest {
    ToplevelRequest::SetMinimized { window }
}

fn unset(window: usize) -> ToplevelRequest {
    ToplevelRequest::UnsetMinimized { window }
}

fn maximize(window: usize) -> ToplevelRequest {
    ToplevelRequest::SetMaximized { window }
}

fn unmaximize(window: usize) -> ToplevelRequest {
    ToplevelRequest::UnsetMaximized { window }
}

fn text(error: WmError) -> String {
    let WmError::Command(text) = error;
    text
}

fn desktop() -> Vec<Toplevel> {
    vec![
        window(9, "w2", "term", vec![ToplevelState::Activated]),
        window(8, "w1", "mail", vec![ToplevelState::Maximized]),
        window(7, "w1", "editor", vec![]),
        window(3, "w0", "cosmic-bg", vec![]),
        window(6, "w2", "term", vec![]),
        window(5, "w0", "calc", vec![ToplevelState::Minimized]),
    ]
}

#[test]
fn windows_are_sorted_by_key() {
    assert_eq!(sort_eligible(&desktop(), true), vec![2, 1, 4, 0]);
    assert_eq!(sort_eligible(&desktop(), false), vec![5, 2, 1, 4, 0]);
    // Equal keys keep the order of the listing.
    let same = vec![window(1, "w", "a", vec![]), window(1, "w", "a", vec![])];
    assert_eq!(sort_eligible(&same, true), vec![0, 1]);
}

#[test]
fn persisting_minimizes_in_key_order() {
    let data = AppData::new(true);
    let (asked, snapshot) = data.minimize_all_and_persist(&desktop()).unwrap();
    assert_eq!(asked, vec![set(2), set(1), set(4), set(0)]);
    let kept: Vec<(&str, &str, RestoreKind, bool)> = snapshot
        .entries
        .iter()
        .map(|e| (e.identifier.as_str(), e.app_id.as_str(), e.restore_kind, e.was_active))
        .collect();
    assert_eq!(
        kept,
        vec![
            ("w1", "editor", RestoreKind::Normal, false),
            ("w1", "mail", RestoreKind::Maximized, false),
            ("w2", "term", RestoreKind::Normal, false),
            ("w2", "term", RestoreKind::Normal, true),
        ]
    );
}

#[test]
fn restoring_takes_windows_of_one_name_by_protocol_id() {
    let data = AppData::new(true);
    let windows = desktop();
    let (_, snapshot) = data.minimize_all_and_persist(&windows).unwrap();
    assert_eq!(
        data.restore_persisted_snapshot(&snapshot, &windows).unwrap(),
        vec![
            unset(2),
            unmaximize(2),
            unset(1),
            maximize(1),
            unset(4),
            unmaximize(4),
            unset(0),
            unmaximize(0),
        ]
    );
}

#[test]
fn each_window_is_restored_once() {
    let data = AppData::new(true);
    let snapshot = PersistedSnapshot {
        entries: vec![
            entry("w1", "mail", RestoreKind::Normal, true),
            entry("gone", "mail", RestoreKind::Normal, false),
            entry("w1", "mail", RestoreKind::Maximized, false),
            entry("w0", "cosmic-bg", RestoreKind::Maximized, false),
        ],
    };
    // The entry that was not active comes first and takes the only window.
    assert_eq!(
        data.restore_persisted_snapshot(&snapshot, &desktop()).unwrap(),
        vec![unset(1), maximize(1)]
    );
}

#[test]
fn a_window_minimized_before_can_be_taken_instead() {
    let data = AppData::new(true);
    let windows = vec![
        window(1, "w", "term", vec![ToplevelState::Minimized]),
        window(2, "w", "term", vec![]),
    ];
    let (asked, snapshot) = data.minimize_all_and_persist(&windows).unwrap();
    assert_eq!(asked, vec![set(1)]);
    assert_eq!(
        data.restore_persisted_snapshot(&snapshot, &windows).unwrap(),
        vec![unset(0), unmaximize(0)]
    );
}

#[test]
fn without_manager_nothing_is_persisted_or_restored() {
    let data = AppData::new(false);
    let message = "cosmic toplevel manager is unavailable";
    assert_eq!(text(data.minimize_all_and_persist(&desktop()).unwrap_err()), message);
    let empty = PersistedSnapshot { entries: vec![] };
    assert_eq!(text(data.restore_persisted_snapshot(&empty, &desktop()).unwrap_err()), message);
}

#[test]
fn snapshot_path_below_the_configuration_directory() {
    let path = |config: &str| snapshot_file_path_in(Some(config.as_bytes().to_vec())).unwrap();
    let expected = b"/home/alice/.config/cosmic-ext-showdesktop/snapshot.json".to_vec();
    assert_eq!(path("/home/alice/.config"), expected);
    assert_eq!(path("/home/alice/.config/"), expected);
    assert_eq!(path(""), b"cosmic-ext-showdesktop/snapshot.json".to_vec());
    assert_eq!(path("/"), b"/cosmic-ext-showdesktop/snapshot.json".to_vec());
    assert_eq!(
        text(snapshot_file_path_in(None).unwrap_err()),
        "failed to resolve ~/.config directory"
    );
}

#[test]
fn snapshot_path_of_this_user() {
    match dirs::config_dir() {
        Some(config) => {
            let joined = config.join("cosmic-ext-showdesktop").join("snapshot.json");
            assert_eq!(
                snapshot_file_path().unwrap(),
                joined.into_os_string().into_encoded_bytes()
            );
        }
        None => assert!(snapshot_file_path().is_err()),
    }
}

#[test]
fn the_first_step_looks_for_the_file() {
    let data = AppData::new(true);
    match (data.handle_toggle_persistent(), snapshot_file_path()) {
        (PersistentStep::CheckFile { path }, Ok(expected)) => assert_eq!(path, expected),
        (PersistentStep::Reply(Err(error)), Err(expected)) => {
            assert_eq!(text(error), text(expected))
        }
        (step, _) => panic!("unexpected step {step:?}"),
    }
    let failed = AppData::path_resolved(snapshot_file_path_in(None));
    assert!(matches!(failed, PersistentStep::Reply(Err(_))));
}

#[test]
fn without_file_all_is_minimized_and_saved() {
    let data = AppData::new(true);
    match data.snapshot_file_checked(false, &desktop()) {
        PersistentStep::MinimizeAndSave { requests, snapshot } => {
            assert_eq!(requests, vec![set(2), set(1), set(4), set(0)]);
            assert_eq!(snapshot.entries.len(), 4);
        }
        step => panic!("unexpected step {step:?}"),
    }
    let failed = AppData::new(false).snapshot_file_checked(false, &desktop());
    assert!(matches!(failed, PersistentStep::Reply(Err(_))));
}

#[test]
fn a_file_is_loaded_restored_and_cleared() {
    let data = AppData::new(true);
    assert!(matches!(data.snapshot_file_checked(true, &desktop()), PersistentStep::Load));
    let snapshot =
        PersistedSnapshot { entries: vec![entry("w1", "mail", RestoreKind::Maximized, false)] };
    match data.snapshot_loaded(Ok(snapshot), &desktop()) {
        PersistentStep::RestoreAndClear { requests, restored } => {
            assert_eq!(requests, vec![unset(1), maximize(1)]);
            assert!(restored.is_ok());
        }
        step => panic!("unexpected step {step:?}"),
    }
}

#[test]
fn the_file_is_cleared_though_restoring_failed() {
    let data = AppData::new(false);
    let snapshot = PersistedSnapshot { entries: vec![] };
    match data.snapshot_loaded(Ok(snapshot), &desktop()) {
        PersistentStep::RestoreAndClear { requests, restored } => {
            assert_eq!(requests, vec![]);
            let reply = snapshot_cleared(restored, Err(WmError::Command("removal".to_string())));
            assert_eq!(text(reply.unwrap_err()), "cosmic toplevel manager is unavailable");
        }
        step => panic!("unexpected step {step:?}"),
    }
}

#[test]
fn an_unreadable_file_is_only_reported() {
    let data = AppData::new(true);
    let unreadable = Err(WmError::Command("unreadable".to_string()));
    match data.snapshot_loaded(unreadable, &desktop()) {
        PersistentStep::Reply(Err(error)) => assert_eq!(text(error), "unreadable"),
        step => panic!("unexpected step {step:?}"),
    }
}

#[test]
fn a_failed_removal_is_reported_after_a_restore() {
    let removal = WmError::Command("removal".to_string());
    assert_eq!(text(snapshot_cleared(Ok(()), Err(removal)).unwrap_err()), "removal");
    assert!(snapshot_cleared(Ok(()), Ok(())).is_ok());
}

#[test]
fn windows_of_distinct_names_come_back_as_they_were() {
    let data = AppData::new(true);
    let windows = vec![
        window(4, "w1", "term", vec![ToplevelState::Maximized, ToplevelState::Activated]),
        window(2, "w1", "mail", vec![]),
        window(3, "w0", "term", vec![ToplevelState::Minimized]),
    ];
    let (asked, snapshot) = data.minimize_all_and_persist(&windows).unwrap();
    assert_eq!(asked, vec![set(1), set(0)]);
    assert_eq!(
        data.restore_persisted_snapshot(&snapshot, &windows).unwrap(),
        vec![unset(1), unmaximize(1), unset(0), maximize(0)]
    );
}

#[test]
fn windows_of_one_name_keep_their_kinds() {
    let data = AppData::new(true);
    let windows = vec![
        window(1, "w", "term", vec![ToplevelState::Maximized, ToplevelState::Activated]),
        window(2, "w", "term", vec![]),
    ];
    let (asked, snapshot) = data.minimize_all_and_persist(&windows).unwrap();
    assert_eq!(asked, vec![set(0), set(1)]);
    // The window that was active is maximized again, and comes last.
    assert_eq!(
        data.restore_persisted_snapshot(&snapshot, &windows).unwrap(),
        vec![unset(1), unmaximize(1), unset(0), maximize(0)]
    );
}

#[test]
fn entries_of_one_name_take_windows_in_their_order() {
    let data = AppData::new(true);
    let windows = vec![
        window(3, "w", "term", vec![]),
        window(1, "w", "term", vec![]),
        window(2, "w", "term", vec![]),
        window(4, "w", "term", vec![]),
    ];
    let snapshot = PersistedSnapshot {
        entries: vec![
            entry("w", "term", RestoreKind::Normal, true),
            entry("w", "term", RestoreKind::Maximized, false),
            entry("w", "term", RestoreKind::Normal, false),
        ],
    };
    assert_eq!(
        data.restore_persisted_snapshot(&snapshot, &windows).unwrap(),
        vec![unset(2), maximize(2), unset(0), unmaximize(0), unset(1), unmaximize(1)]
    );
}

#[test]
fn windows_that_were_not_active_are_served_first() {
    let data = AppData::new(true);
    let windows = vec![window(5, "w", "term", vec![]), window(6, "w", "term", vec![])];
    let snapshot = PersistedSnapshot {
        entries: vec![
            entry("w", "term", RestoreKind::Maximized, true),
            entry("w", "term", RestoreKind::Normal, true),
            entry("w", "term", RestoreKind::Normal, false),
        ],
    };
    // There is no window for the second entry.
    assert_eq!(
        data.restore_persisted_snapshot(&snapshot, &windows).unwrap(),
        vec![unset(1), unmaximize(1), unset(0), maximize(0)]
    );
}
