use wasm_proxy::hot_reload::{watch_dir, WatchAction, WatchEvent, WatchState, QUIET_PERIOD_MS};
use wasm_proxy::server::{ServerAction, ServerEvent, ServerPhase, SHUTDOWN_GRACE_PERIOD_SECS};

fn watch_all(events: &[WatchEvent]) -> Vec<WatchAction> {
    let mut state = WatchState::Idle;
    let mut actions = Vec::new();
    for event in events {
        let (next, action) = state.watch(*event);
        state = next;
        actions.push(action);
    }
    actions
}

#[test]
fn the_directory_of_the_configuration_is_watched() {
    assert_eq!(watch_dir(Some("/etc/proxy")), "/etc/proxy");
    assert_eq!(watch_dir(Some("")), ".");
    assert_eq!(watch_dir(None), ".");
}

#[test]
fn a_burst_of_changes_reloads_once() {
    assert_eq!(QUIET_PERIOD_MS, 200);
    let actions = watch_all(&[
        WatchEvent::Changed,
        WatchEvent::Changed,
        WatchEvent::Fault,
        WatchEvent::Changed,
        WatchEvent::Quiet,
    ]);
    assert_eq!(
        actions,
        [
            WatchAction::WaitForQuiet,
            WatchAction::WaitForQuiet,
            WatchAction::WaitForQuiet,
            WatchAction::WaitForQuiet,
            WatchAction::Reload,
        ]
    );
}

#[test]
fn faults_alone_reload_nothing() {
    let actions = watch_all(&[WatchEvent::Fault, WatchEvent::Fault, WatchEvent::Closed]);
    assert_eq!(actions, [WatchAction::Wait, WatchAction::Wait, WatchAction::Stop]);
}

#[test]
fn the_end_of_watching_reloads_what_has_changed() {
    let actions = watch_all(&[WatchEvent::Changed, WatchEvent::Closed, WatchEvent::Closed]);
    assert_eq!(
        actions,
        [WatchAction::WaitForQuiet, WatchAction::Reload, WatchAction::Stop]
    );
}

fn serve_all(events: &[ServerEvent]) -> Vec<ServerAction> {
    let mut phase = ServerPhase::Accepting;
    let mut actions = Vec::new();
    for event in events {
        let (next, action) = phase.handle(*event);
        phase = next;
        actions.push(action);
    }
    actions
}

#[test]
fn no_connection_is_taken_after_the_signal() {
    let actions = serve_all(&[
        ServerEvent::Connected,
        ServerEvent::AcceptFailed,
        ServerEvent::Connected,
        ServerEvent::ShutdownSignal,
        ServerEvent::Connected,
        ServerEvent::Drained,
    ]);
    assert_eq!(
        actions,
        [
            ServerAction::Serve,
            ServerAction::Wait,
            ServerAction::Serve,
            ServerAction::Drain,
            ServerAction::Wait,
            ServerAction::Exit,
        ]
    );
}

#[test]
fn the_grace_period_ends_the_wait() {
    assert_eq!(SHUTDOWN_GRACE_PERIOD_SECS, 10);
    let actions = serve_all(&[
        ServerEvent::GraceElapsed,
        ServerEvent::Drained,
        ServerEvent::ShutdownSignal,
        ServerEvent::GraceElapsed,
        ServerEvent::Drained,
    ]);
    assert_eq!(
        actions,
        [
            ServerAction::Wait,
            ServerAction::Wait,
            ServerAction::Drain,
            ServerAction::ForceExit,
            ServerAction::Wait,
        ]
    );
}
