use showdesktop::app_data::AppData;
use showdesktop::error::{received, FileOperation, Operation, WmError};
use showdesktop::event_loop::{
    advance, start, ChannelAction, ChannelEvent, LoopAction, LoopPhase,
};
use showdesktop::files::{clear_result, load_result, save_advance, save_begin, SaveStep};
use showdesktop::snapshot::PersistedSnapshot;
use showdesktop::toplevel::Toplevel;

fn text(error: WmError) -> String {
    let WmError::Command(text) = error;
    text
}

fn boom() -> String {
    "boom".to_string()
}

#[test]
fn errors_are_shown_as_failed_commands() {
    let error = WmError::Command(boom());
    assert_eq!(error.message(), "failed to execute command: boom");
}

#[test]
fn failed_operations_are_named() {
    let cases = [
        (Operation::SpawnThread, "failed to spawn wayland thread: boom"),
        (Operation::Startup, "wayland startup timeout/error: boom"),
        (Operation::SendRequest, "failed to send request: boom"),
        (Operation::Response, "response timeout/error: boom"),
        (Operation::Connect, "wayland connect failed: boom"),
        (Operation::InitRegistry, "registry init failed: boom"),
        (Operation::CreateEventLoop, "event loop create failed: boom"),
        (Operation::InsertWaylandSource, "failed to insert wayland source: boom"),
        (Operation::AddRequestSource, "failed to add request source: boom"),
        (Operation::DispatchWarmup, "event loop warmup dispatch failed: boom"),
        (Operation::Dispatch, "event loop dispatch failed: boom"),
        (Operation::SerializeSnapshot, "failed to serialize snapshot: boom"),
    ];
    for (operation, expected) in cases {
        assert_eq!(text(WmError::failed(operation, "boom")), expected);
    }
}

#[test]
fn failed_file_operations_name_the_path() {
    let cases = [
        (FileOperation::ReadSnapshot, "failed to read snapshot at /p: boom"),
        (FileOperation::ParseSnapshot, "failed to parse snapshot at /p: boom"),
        (FileOperation::CreateSnapshotDirectory, "failed to create snapshot directory /p: boom"),
        (FileOperation::WriteSnapshot, "failed to write snapshot at /p: boom"),
        (FileOperation::RemoveSnapshot, "failed to remove snapshot at /p: boom"),
    ];
    for (operation, expected) in cases {
        assert_eq!(text(WmError::failed_at(operation, "/p", "boom")), expected);
    }
}

#[test]
fn a_reply_is_handed_on_and_a_missing_one_is_an_error() {
    assert!(received(Operation::Response, Ok(Ok(()))).is_ok());
    let refused = received(Operation::Response, Ok(Err(WmError::Command(boom()))));
    assert_eq!(text(refused.unwrap_err()), "boom");
    let missing = received(Operation::Response, Err("timed out".to_string()));
    assert_eq!(text(missing.unwrap_err()), "response timeout/error: timed out");
}

#[test]
fn loading_reports_reading_and_parsing() {
    let empty = PersistedSnapshot { entries: vec![] };
    assert_eq!(load_result("/p", Ok(Ok(empty))).unwrap().entries.len(), 0);
    assert_eq!(
        text(load_result("/p", Err(boom())).unwrap_err()),
        "failed to read snapshot at /p: boom"
    );
    assert_eq!(
        text(load_result("/p", Ok(Err(boom()))).unwrap_err()),
        "failed to parse snapshot at /p: boom"
    );
}

#[test]
fn clearing_reports_removal() {
    assert!(clear_result("/p", None).is_ok());
    assert!(clear_result("/p", Some(Ok(()))).is_ok());
    assert_eq!(
        text(clear_result("/p", Some(Err(boom()))).unwrap_err()),
        "failed to remove snapshot at /p: boom"
    );
}

#[test]
fn saving_goes_step_by_step() {
    assert_eq!(save_begin("/d/p", true).unwrap(), SaveStep::CreateDirectory);
    assert_eq!(
        text(save_begin("/", false).unwrap_err()),
        "failed to resolve snapshot parent path for /"
    );
    let next = |step| save_advance(step, Ok(()), "/d/p", "/d").unwrap();
    assert_eq!(next(SaveStep::CreateDirectory), Some(SaveStep::Serialize));
    assert_eq!(next(SaveStep::Serialize), Some(SaveStep::Write));
    assert_eq!(next(SaveStep::Write), None);
    let fail = |step| text(save_advance(step, Err(boom()), "/d/p", "/d").unwrap_err());
    assert_eq!(
        fail(SaveStep::CreateDirectory),
        "failed to create snapshot directory /d: boom"
    );
    assert_eq!(fail(SaveStep::Serialize), "failed to serialize snapshot: boom");
    assert_eq!(fail(SaveStep::Write), "failed to write snapshot at /d/p: boom");
}

#[test]
fn warm_up_takes_three_rounds_at_most() {
    let (mut phase, mut action) = start();
    let mut done = vec![action];
    for _ in 0..4 {
        (phase, action) = advance(phase, false, false);
        done.push(action);
    }
    assert_eq!(
        done,
        vec![
            LoopAction::WarmUp,
            LoopAction::WarmUp,
            LoopAction::WarmUp,
            LoopAction::AnnounceReady,
            LoopAction::Dispatch,
        ]
    );
    assert_eq!(phase, LoopPhase::Running);
}

#[test]
fn warm_up_ends_once_windows_are_listed() {
    let (phase, _) = start();
    let (phase, action) = advance(phase, true, false);
    assert_eq!(action, LoopAction::AnnounceReady);
    let (phase, action) = advance(phase, true, false);
    assert_eq!(action, LoopAction::Dispatch);
    let (phase, action) = advance(phase, false, true);
    assert_eq!(action, LoopAction::Stop);
    assert_eq!(advance(phase, true, false), (LoopPhase::Stopped, LoopAction::Stop));
}

#[test]
fn readiness_is_announced_even_to_a_closed_channel() {
    let (phase, _) = start();
    let (phase, action) = advance(phase, true, true);
    assert_eq!(action, LoopAction::AnnounceReady);
    assert_eq!(advance(phase, true, true).1, LoopAction::Stop);
}

#[test]
fn channel_events_are_answered() {
    let windows = vec![Toplevel {
        foreign_id: 1,
        identifier: "w".to_string(),
        app_id: "term".to_string(),
        state: vec![],
        controllable: true,
        workspaces: vec![],
        outputs: vec![],
    }];
    let mut data = AppData::new(true);
    match data.handle_channel_event(ChannelEvent::Toggle, &windows) {
        ChannelAction::Reply { requests, result } => {
            assert_eq!(requests.len(), 1);
            assert!(result.is_ok());
        }
        action => panic!("unexpected action {action:?}"),
    }
    let persistent = data.handle_channel_event(ChannelEvent::TogglePersistent, &windows);
    assert!(matches!(persistent, ChannelAction::Persistent(_)));
    assert!(!data.exit());
    let closed = data.handle_channel_event(ChannelEvent::Closed, &windows);
    assert!(matches!(closed, ChannelAction::Nothing));
    assert!(data.exit());

    let mut data = AppData::new(false);
    assert!(!data.has_manager());
    match data.handle_channel_event(ChannelEvent::Toggle, &windows) {
        ChannelAction::Reply { requests, result } => {
            assert_eq!(requests.len(), 0);
            assert_eq!(text(result.unwrap_err()), "cosmic toplevel manager is unavailable");
        }
        action => panic!("unexpected action {action:?}"),
    }
}
