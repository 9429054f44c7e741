use unity_adapter::dispatch::{decimal_string, launch_args, remote_send_command};
use unity_adapter::error::AdapterError;
use unity_adapter::goto::parse_line_and_column_aware;
use unity_adapter::paths::{ancestors, find_unity_root, marker_path, parent_dir};
use unity_adapter::session::{Session, SessionAction, SessionEvent, SessionPhase, MAX_POLLS};

fn session_at(root: &str) -> Session {
    Session::start(Some(root.to_string())).expect("root given")
}

#[test]
fn missing_root_is_root_not_found() {
    assert_eq!(Session::start(None).err(), Some(AdapterError::RootNotFound));
}

#[test]
fn existing_endpoint_is_reused_twice() {
    let mut first = session_at("/proj");
    assert_eq!(first.action(), SessionAction::CheckEndpoint);
    assert_eq!(first.step(SessionEvent::EndpointExists(true)), SessionAction::Finish);
    let mut second = session_at("/proj");
    assert_eq!(second.step(SessionEvent::EndpointExists(true)), SessionAction::Finish);
    let a = first.outcome().unwrap().unwrap();
    let b = second.outcome().unwrap().unwrap();
    assert_eq!(a, "/proj/Temp/adapter_pipe");
    assert_eq!(a, b);
}

#[test]
fn absent_endpoint_launches_then_polls() {
    let mut s = session_at("/proj");
    assert_eq!(s.step(SessionEvent::EndpointExists(false)), SessionAction::Launch);
    assert_eq!(s.outcome(), None);
    assert_eq!(s.step(SessionEvent::Launched(true)), SessionAction::WaitThenCheck);
    assert_eq!(s.step(SessionEvent::EndpointExists(false)), SessionAction::WaitThenCheck);
    assert_eq!(s.step(SessionEvent::EndpointExists(true)), SessionAction::Finish);
    assert_eq!(s.phase, SessionPhase::Ready);
    assert_eq!(s.outcome(), Some(Ok("/proj/Temp/adapter_pipe".to_string())));
}

#[test]
fn failed_launch_is_launch_failed() {
    let mut s = session_at("/proj");
    s.step(SessionEvent::EndpointExists(false));
    assert_eq!(s.step(SessionEvent::Launched(false)), SessionAction::Finish);
    assert_eq!(s.outcome(), Some(Err(AdapterError::LaunchFailed)));
}

#[test]
fn endpoint_never_appearing_times_out_after_bounded_polls() {
    let mut s = session_at("/proj");
    s.step(SessionEvent::EndpointExists(false));
    s.step(SessionEvent::Launched(true));
    let mut looks = 0;
    while s.action() == SessionAction::WaitThenCheck {
        s.step(SessionEvent::EndpointExists(false));
        looks += 1;
    }
    assert_eq!(looks, 40);
    assert_eq!(MAX_POLLS, 40);
    assert_eq!(s.outcome(), Some(Err(AdapterError::ServerTimeout)));
}

#[test]
fn unexpected_event_leaves_phase() {
    let mut s = session_at("/proj");
    assert_eq!(s.step(SessionEvent::Launched(true)), SessionAction::CheckEndpoint);
    assert_eq!(s.phase, SessionPhase::Checking);
}

#[test]
fn decimal_numbers() {
    assert_eq!(decimal_string(0), "0");
    assert_eq!(decimal_string(9), "9");
    assert_eq!(decimal_string(10), "10");
    assert_eq!(decimal_string(1234), "1234");
    assert_eq!(decimal_string(usize::MAX), usize::MAX.to_string());
}

#[test]
fn command_for_path_without_line() {
    let spec = parse_line_and_column_aware("a.cs").unwrap();
    assert_eq!(remote_send_command(&spec), "<C-\\><C-N>:n a.cs<CR>|:call cursor(0,0)<CR>");
}

#[test]
fn launch_arguments() {
    assert_eq!(
        launch_args("/proj/Temp/adapter_pipe"),
        vec!["-e", "bash", "-c", "nvim", "--listen", "/proj/Temp/adapter_pipe"]
    );
}

#[test]
fn end_to_end_reuses_endpoint_and_targets_line_and_column() {
    let spec = parse_line_and_column_aware("/proj/sub/dir/a.cs:5:2").unwrap();
    let start = parent_dir(&spec.path).unwrap();
    assert_eq!(start, "/proj/sub/dir");
    let dirs = ancestors(&start);
    let marks: Vec<bool> = dirs
        .iter()
        .map(|d| marker_path(d) == "/proj/ProjectSettings/ProjectVersion.txt")
        .collect();
    let root = find_unity_root(&dirs, &marks);
    assert_eq!(root, Some("/proj".to_string()));
    let mut session = Session::start(root).unwrap();
    let endpoint_exists = session.endpoint == "/proj/Temp/adapter_pipe";
    assert_eq!(session.step(SessionEvent::EndpointExists(endpoint_exists)), SessionAction::Finish);
    let endpoint = session.outcome().unwrap().unwrap();
    assert_eq!(endpoint, "/proj/Temp/adapter_pipe");
    assert_eq!(
        remote_send_command(&spec),
        "<C-\\><C-N>:n /proj/sub/dir/a.cs<CR>|:call cursor(5,2)<CR>"
    );
}
