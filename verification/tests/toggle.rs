use showdesktop::app_data::AppData;
use showdesktop::error::WmError;
use showdesktop::request::{AnnouncedCapability, Capability, ToplevelRequest};
use showdesktop::toplevel::{Toplevel, ToplevelState};

fn window(foreign_id: u32, app_id: &str, state: Vec<ToplevelState>) -> Toplevel {
    Toplevel {
        foreign_id,
        identifier: format!("id-{foreign_id}"),
        app_id: app_id.to_string(),
        state,
        controllable: true,
        workspaces: vec![],
        outputs: vec![],
    }
}

fn set(window: usize) -> ToplevelRequest {
    ToplevelRequest::SetMinimized { window }
}

fn unset(window: usize) -> ToplevelRequest {
    ToplevelRequest::UnsetMinimized { window }
}

fn maximize(window: usize) -> ToplevelRequest {
    ToplevelRequest::SetMaximized { window }
}

fn unmaximize(window: usize) -> ToplevelRequest {
    ToplevelRequest::UnsetMaximized { window }
}

fn change(w: &mut Toplevel, state: ToplevelState, on: bool) {
    w.state.retain(|s| *s != state);
    if on {
        w.state.push(state);
    }
}

fn carry_out(requests: &[ToplevelRequest], windows: &mut [Toplevel]) {
    for request in requests {
        match *request {
            ToplevelRequest::SetMinimized { window } => {
                change(&mut windows[window], ToplevelState::Minimized, true)
            }
            ToplevelRequest::UnsetMinimized { window } => {
                change(&mut windows[window], ToplevelState::Minimized, false)
            }
            ToplevelRequest::SetMaximized { window } => {
                change(&mut windows[window], ToplevelState::Maximized, true)
            }
            ToplevelRequest::UnsetMaximized { window } => {
                change(&mut windows[window], ToplevelState::Maximized, false)
            }
            ToplevelRequest::MoveToExtWorkspace { .. } => {}
        }
    }
}

fn states(windows: &[Toplevel]) -> Vec<[bool; 3]> {
    windows
        .iter()
        .map(|w| {
            [
                w.has_state(ToplevelState::Minimized),
                w.has_state(ToplevelState::Maximized),
                w.has_state(ToplevelState::Activated),
            ]
        })
        .collect()
}

fn desktop() -> Vec<Toplevel> {
    vec![
        window(10, "editor", vec![ToplevelState::Activated]),
        window(11, "cosmic-panel", vec![]),
        window(12, "term", vec![ToplevelState::Maximized]),
        window(13, "mail", vec![ToplevelState::Minimized]),
        window(14, "term", vec![]),
    ]
}

#[test]
fn toggle_minimizes_in_listing_order() {
    let mut data = AppData::new(true);
    let asked = data.handle_toggle(&desktop()).unwrap();
    assert_eq!(asked, vec![set(0), set(2), set(4)]);
}

#[test]
fn second_toggle_restores_with_the_active_window_last() {
    let mut data = AppData::new(true);
    let mut windows = desktop();
    let asked = data.handle_toggle(&windows).unwrap();
    carry_out(&asked, &mut windows);
    let asked = data.handle_toggle(&windows).unwrap();
    assert_eq!(
        asked,
        vec![unset(2), maximize(2), unset(4), unmaximize(4), unset(0), unmaximize(0)]
    );
}

#[test]
fn toggling_twice_gives_back_the_windows() {
    let mut data = AppData::new(true);
    let mut windows = desktop();
    let before = states(&windows);
    let asked = data.handle_toggle(&windows).unwrap();
    carry_out(&asked, &mut windows);
    assert!(windows.iter().all(|w| !w.is_to_minimize()));
    assert_ne!(states(&windows), before);
    let asked = data.handle_toggle(&windows).unwrap();
    carry_out(&asked, &mut windows);
    assert_eq!(states(&windows), before);
    // Nothing is remembered any more: the next toggle minimizes again.
    assert_eq!(data.handle_toggle(&windows).unwrap(), vec![set(0), set(2), set(4)]);
}

#[test]
fn nothing_to_minimize_is_no_snapshot() {
    let mut data = AppData::new(true);
    let hidden = vec![window(1, "term", vec![ToplevelState::Minimized])];
    assert_eq!(data.handle_toggle(&hidden).unwrap(), vec![]);
    let shown = vec![window(1, "term", vec![])];
    assert_eq!(data.handle_toggle(&shown).unwrap(), vec![set(0)]);
}

#[test]
fn windows_that_went_are_skipped() {
    let mut data = AppData::new(true);
    data.handle_toggle(&desktop()).unwrap();
    let mut kept = window(14, "term", vec![ToplevelState::Minimized]);
    let mut stuck = window(12, "term", vec![ToplevelState::Minimized]);
    stuck.controllable = false;
    kept.app_id = "renamed".to_string();
    assert_eq!(data.handle_toggle(&vec![kept, stuck]).unwrap(), vec![unset(0), unmaximize(0)]);
}

#[test]
fn an_id_listed_twice_means_the_last_window() {
    let mut data = AppData::new(true);
    data.handle_toggle(&vec![window(5, "term", vec![])]).unwrap();
    let listed = vec![window(5, "a", vec![]), window(6, "b", vec![]), window(5, "c", vec![])];
    assert_eq!(data.handle_toggle(&listed).unwrap(), vec![unset(2), unmaximize(2)]);
}

#[test]
fn windows_move_back_where_that_is_supported() {
    let supported = vec![
        AnnouncedCapability::Unknown(99),
        AnnouncedCapability::Value(Capability::MoveToExtWorkspace),
        AnnouncedCapability::Value(Capability::Close),
    ];
    let mut w = window(5, "term", vec![]);
    w.workspaces = vec![31, 30];
    w.outputs = vec![41, 40];
    let mut homeless = window(6, "term", vec![]);
    homeless.outputs = vec![41];
    let mut off_screen = window(7, "term", vec![]);
    off_screen.workspaces = vec![30];
    let windows = vec![w, homeless, off_screen];

    let mut data = AppData::new(true);
    data.capabilities(&supported);
    data.handle_toggle(&windows).unwrap();
    assert_eq!(
        data.handle_toggle(&windows).unwrap(),
        vec![
            ToplevelRequest::MoveToExtWorkspace { window: 0, workspace: 30, output: 41 },
            unset(0),
            unmaximize(0),
            unset(1),
            unmaximize(1),
            unset(2),
            unmaximize(2),
        ]
    );

    // An announcement without the capability takes it back.
    data.capabilities(&vec![AnnouncedCapability::Value(Capability::MoveToWorkspace)]);
    data.handle_toggle(&windows).unwrap();
    assert_eq!(
        data.handle_toggle(&windows).unwrap(),
        vec![unset(0), unmaximize(0), unset(1), unmaximize(1), unset(2), unmaximize(2)]
    );
}

#[test]
fn without_manager_a_toggle_fails() {
    let mut data = AppData::new(false);
    let WmError::Command(text) = data.handle_toggle(&desktop()).unwrap_err();
    assert_eq!(text, "cosmic toplevel manager is unavailable");
    assert!(data.minimize_all(&desktop()).is_err());
    assert!(data.restore_snapshot(&desktop()).is_err());
}

#[test]
fn a_visible_stranger_makes_it_forget() {
    let mut data = AppData::new(true);
    data.handle_toggle(&desktop()).unwrap();
    data.new_toplevel(Some(&window(20, "calc", vec![])));
    assert_eq!(data.handle_toggle(&desktop()).unwrap(), vec![set(0), set(2), set(4)]);

    let mut data = AppData::new(true);
    data.handle_toggle(&desktop()).unwrap();
    data.update_toplevel(Some(&window(20, "calc", vec![])));
    assert_eq!(data.handle_toggle(&desktop()).unwrap(), vec![set(0), set(2), set(4)]);
}

#[test]
fn other_windows_do_not_make_it_forget() {
    let mut data = AppData::new(true);
    data.handle_toggle(&desktop()).unwrap();
    data.new_toplevel(None);
    data.new_toplevel(Some(&window(20, "calc", vec![ToplevelState::Minimized])));
    data.new_toplevel(Some(&window(21, "cosmic-panel", vec![])));
    data.update_toplevel(Some(&window(10, "editor", vec![])));
    data.update_toplevel(Some(&window(12, "term", vec![ToplevelState::Minimized])));
    data.update_toplevel(None);
    assert_eq!(data.handle_toggle(&desktop()).unwrap()[0], unset(2));
}

#[test]
fn reported_minimizing_does_not_make_it_forget() {
    let mut data = AppData::new(true);
    let mut windows = desktop();
    let asked = data.handle_toggle(&windows).unwrap();
    carry_out(&asked, &mut windows);
    for w in &windows {
        data.update_toplevel(Some(w));
    }
    assert_eq!(data.handle_toggle(&windows).unwrap().len(), 6);
}

#[test]
fn a_discarded_snapshot_is_forgotten() {
    let mut data = AppData::new(true);
    data.discard_snapshot();
    data.handle_toggle(&desktop()).unwrap();
    data.discard_snapshot();
    assert_eq!(data.restore_snapshot(&desktop()).unwrap(), vec![]);
}
