use desktop_app::config::LaunchConfig;
use desktop_app::lifecycle::{
    is_abnormal_exit, Action, Event, LaunchError, Lifecycle, ProcessState, Supervisor,
};

fn running() -> Supervisor {
    let mut s = Supervisor::new();
    s.launch();
    s.spawned();
    s
}

#[test]
fn new_supervisor_is_not_started() {
    let s = Supervisor::new();
    assert_eq!(
        s.lifecycle(),
        Lifecycle { state: ProcessState::NotStarted, shutdown_requested: false, terminate_sent: false }
    );
}

#[test]
fn launch_moves_to_starting_then_running() {
    let mut s = Supervisor::new();
    assert_eq!(s.launch(), Action::Spawn);
    assert_eq!(s.state(), ProcessState::Starting);
    assert_eq!(s.spawned(), Action::Nothing);
    assert_eq!(s.state(), ProcessState::Running);
}

#[test]
fn second_launch_while_live_is_ignored() {
    let mut s = running();
    assert_eq!(s.launch(), Action::Nothing);
    assert_eq!(s.state(), ProcessState::Running);
}

#[test]
fn missing_executable_fails_and_never_runs() {
    let mut s = Supervisor::new();
    assert_eq!(s.launch(), Action::Spawn);
    assert_eq!(s.spawn_failed(LaunchError::NotFound), Action::ReportFailure(LaunchError::NotFound));
    assert_eq!(s.state(), ProcessState::Failed(LaunchError::NotFound));
    let later = vec![
        Event::Spawned,
        Event::ChildExited(Some(0)),
        Event::Shutdown,
        Event::Launch,
        Event::Spawned,
    ];
    for e in later {
        assert_eq!(s.handle(e), Action::Nothing);
        assert_ne!(s.state(), ProcessState::Running);
    }
    assert_eq!(s.state(), ProcessState::Failed(LaunchError::NotFound));
}

#[test]
fn permission_denied_is_reported() {
    let mut s = Supervisor::new();
    s.launch();
    assert_eq!(
        s.spawn_failed(LaunchError::PermissionDenied),
        Action::ReportFailure(LaunchError::PermissionDenied)
    );
    assert_eq!(s.state(), ProcessState::Failed(LaunchError::PermissionDenied));
}

#[test]
fn other_launch_failure_is_reported() {
    let mut s = Supervisor::new();
    s.launch();
    assert_eq!(
        s.spawn_failed(LaunchError::LaunchFailure),
        Action::ReportFailure(LaunchError::LaunchFailure)
    );
}

#[test]
fn exit_is_reported_exactly_once() {
    let mut s = running();
    assert_eq!(s.child_exited(Some(3)), Action::ReportExit(Some(3)));
    assert_eq!(s.state(), ProcessState::Exited(Some(3)));
    assert_eq!(s.child_exited(Some(3)), Action::Nothing);
    assert_eq!(s.state(), ProcessState::Exited(Some(3)));
}

#[test]
fn exit_report_count_over_events() {
    let mut s = Supervisor::new();
    let evs = vec![
        Event::Launch,
        Event::Shutdown,
        Event::Spawned,
        Event::ChildExited(None),
        Event::ChildExited(Some(1)),
        Event::Shutdown,
    ];
    let acts = s.handle_all(&evs);
    let reports = acts.iter().filter(|a| matches!(a, Action::ReportExit(_))).count();
    let terminates = acts.iter().filter(|a| matches!(a, Action::Terminate)).count();
    assert_eq!(reports, 1);
    assert_eq!(terminates, 1);
    assert_eq!(
        acts,
        vec![
            Action::Spawn,
            Action::Nothing,
            Action::Terminate,
            Action::ReportExit(None),
            Action::Nothing,
            Action::Nothing,
        ]
    );
    assert_eq!(s.state(), ProcessState::Exited(None));
}

#[test]
fn failed_launch_never_reports_exit() {
    let mut s = Supervisor::new();
    let evs = vec![
        Event::Launch,
        Event::SpawnFailed(LaunchError::NotFound),
        Event::ChildExited(Some(0)),
    ];
    let acts = s.handle_all(&evs);
    assert!(!acts.iter().any(|a| matches!(a, Action::ReportExit(_))));
}

#[test]
fn shutdown_twice_sends_one_signal() {
    let mut s = running();
    assert_eq!(s.shutdown(), Action::Terminate);
    let after_first = s.lifecycle();
    assert_eq!(s.shutdown(), Action::Nothing);
    assert_eq!(s.lifecycle(), after_first);
    assert_eq!(s.state(), ProcessState::Running);
}

#[test]
fn shutdown_during_spawn_terminates_once_spawned() {
    let mut s = Supervisor::new();
    s.launch();
    assert_eq!(s.shutdown(), Action::Nothing);
    assert_eq!(s.shutdown(), Action::Nothing);
    assert_eq!(s.spawned(), Action::Terminate);
    assert_eq!(s.shutdown(), Action::Nothing);
}

#[test]
fn shutdown_without_child_does_nothing() {
    let mut s = Supervisor::new();
    assert_eq!(s.shutdown(), Action::Nothing);
    assert_eq!(s.state(), ProcessState::NotStarted);
    let mut f = Supervisor::new();
    f.launch();
    f.spawn_failed(LaunchError::NotFound);
    assert_eq!(f.shutdown(), Action::Nothing);
    assert_eq!(f.shutdown(), Action::Nothing);
}

#[test]
fn reset_only_from_terminal_state() {
    let mut s = running();
    assert_eq!(s.reset(), Action::Nothing);
    assert_eq!(s.state(), ProcessState::Running);
    s.child_exited(Some(0));
    assert_eq!(s.reset(), Action::Nothing);
    assert_eq!(s.state(), ProcessState::NotStarted);
    assert_eq!(s.launch(), Action::Spawn);
}

#[test]
fn echo_runs_then_exits_with_zero() {
    let mut config = LaunchConfig::new("/bin/echo");
    config.arg("hi");
    assert_eq!(config.exe(), "/bin/echo");
    assert_eq!(config.args().clone(), vec!["hi".to_string()]);
    let mut s = Supervisor::new();
    assert_eq!(s.launch(), Action::Spawn);
    assert_eq!(s.spawned(), Action::Nothing);
    assert_eq!(s.state(), ProcessState::Running);
    assert_eq!(s.child_exited(Some(0)), Action::ReportExit(Some(0)));
    assert_eq!(s.state(), ProcessState::Exited(Some(0)));
}

#[test]
fn abnormal_exit_classification() {
    assert!(!is_abnormal_exit(Some(0)));
    assert!(is_abnormal_exit(Some(1)));
    assert!(is_abnormal_exit(Some(-1)));
    assert!(is_abnormal_exit(None));
}
