use win_keeper::config::{AppConfig, ManagerConfig, ToolConfig};
use win_keeper::elevated::{
    claimed_name, command_file_id, command_file_name, command_id, command_queue, command_rank,
    next_command_id, recovered_name, run_command, state_file_name, temporary_command_file_name,
    temporary_state_file_name, CommandRequest, ElevatedCommand, ElevatedState, Helper, Proxy,
    Rejection, Verdict,
};
use win_keeper::names::tool_key;
use win_keeper::paths::AppPaths;
use win_keeper::supervisor::{Supervisor, ToolSnapshot};
use win_keeper::tool::{Control, MemoryValue, Runtime, Signal, ToolState};

fn state(acknowledged: u64, updated: u64) -> ElevatedState {
    ElevatedState {
        snapshot: ToolSnapshot::stopped("Admin Tool".to_string()),
        acknowledged_command_id: acknowledged,
        helper_started_unix_ms: 0,
        updated_unix_ms: updated,
    }
}

fn helper() -> Helper {
    Helper::new(
        &vec!["Admin Tool".to_string(), "Other".to_string()],
        &vec![Some(state(5, 0)), None],
    )
}

#[test]
fn command_files_sort_by_monotonic_id() {
    let key = tool_key("Admin Tool");
    let mut paths = [
        format!("{key}.30.command"),
        format!("{key}.2.command"),
        format!("{key}.11.command"),
    ];
    paths.sort_by_key(|path| command_file_id(path).unwrap());

    assert_eq!(
        paths
            .iter()
            .map(|path| command_file_id(path).unwrap())
            .collect::<Vec<_>>(),
        vec![2, 11, 30]
    );
}

#[test]
fn the_queue_holds_the_commands_in_order() {
    let names = vec![
        "a.30.command".to_string(),
        "a.state.toml".to_string(),
        "b.2.command".to_string(),
        "a.x.command".to_string(),
        "a.2.command".to_string(),
        ".command".to_string(),
        "a.11.command".to_string(),
    ];
    assert_eq!(
        command_queue(names),
        vec![
            "b.2.command",
            "a.2.command",
            "a.11.command",
            "a.30.command",
            "a.x.command"
        ]
    );
    assert_eq!(command_rank("a.x.command"), u64::MAX);
    assert!(command_queue(Vec::new()).is_empty());
}

#[test]
fn keys_tell_names_apart_that_look_alike() {
    assert_eq!(tool_key(""), "_cbf29ce484222325");
    assert_eq!(tool_key("a"), "a_af63dc4c8601ec8c");
    assert_eq!(tool_key("Admin Tool").len(), 10 + 17);
    assert!(tool_key("Admin Tool").starts_with("admin_tool_"));
    assert_ne!(tool_key("中文"), tool_key("??"));
}

#[test]
fn names_of_files_hold_the_key() {
    assert_eq!(
        command_file_name("a", 123),
        "a_af63dc4c8601ec8c.123.command"
    );
    assert_eq!(
        temporary_command_file_name("a", 123, 9),
        "a_af63dc4c8601ec8c.123.tmp-9-123"
    );
    assert_eq!(state_file_name("a"), "a_af63dc4c8601ec8c.state.toml");
    assert_eq!(
        temporary_state_file_name("a", 9),
        "a_af63dc4c8601ec8c.state.9.tmp"
    );
}

#[test]
fn a_command_name_gives_its_number_back() {
    for id in [0, 7, u64::MAX] {
        let name = command_file_name("Admin.Tool", id);
        assert_eq!(command_file_id(&name), Some(id));
    }
    assert_eq!(command_file_id("tool"), None);
    assert_eq!(command_file_id("tool.command"), None);
    assert_eq!(command_file_id("tool.18446744073709551616.command"), None);
}

#[test]
fn a_claimed_command_gets_its_name_back() {
    assert_eq!(
        claimed_name("tool.123.command", 999).unwrap(),
        "tool.123.processing-999"
    );
    assert_eq!(
        recovered_name("tool.123.processing-999").unwrap(),
        "tool.123.command"
    );
    assert_eq!(recovered_name("tool.123.command"), None);
    assert_eq!(recovered_name(".processing-1"), None);
    assert_eq!(claimed_name("tool", 1), None);
}

#[test]
fn numbers_of_commands_grow_with_time() {
    assert_eq!(command_id(1_700_000_000_000, 1_234), 1_700_000_000_000_234);
    assert_eq!(command_id(u64::MAX, 5), u64::MAX);
    assert_eq!(next_command_id(1, 2, &None), 1_002);
    assert_eq!(next_command_id(1, 2, &Some(state(9_999, 0))), 10_000);
    assert_eq!(next_command_id(1, 2, &Some(state(u64::MAX, 0))), u64::MAX);
}

#[test]
fn a_state_is_fresh_for_eight_seconds() {
    let shown = state(0, 10_000);
    assert!(shown.is_fresh(18_000));
    assert!(!shown.is_fresh(18_001));
    assert!(shown.is_fresh(0));
}

#[test]
fn a_command_is_judged_by_its_name_and_contents() {
    let mut helper = helper();
    let name = command_file_name("Admin Tool", 6);
    let request = CommandRequest {
        id: 6,
        command: ElevatedCommand::Restart,
    };
    assert_eq!(
        helper.judge(&name, None),
        Verdict::Reject(Rejection::Invalid)
    );
    assert_eq!(
        helper.judge(
            &name,
            Some(CommandRequest {
                id: 7,
                command: ElevatedCommand::Stop
            })
        ),
        Verdict::Reject(Rejection::IdMismatch)
    );
    assert_eq!(
        helper.judge(&command_file_name("Nobody", 6), Some(request)),
        Verdict::Reject(Rejection::UnknownTool)
    );
    assert_eq!(
        helper.judge(&name, Some(request)),
        Verdict::Dispatch {
            index: 0,
            command: ElevatedCommand::Restart
        }
    );
    assert_eq!(helper.judge(&name, Some(request)), Verdict::Discard);
    assert_eq!(
        helper.judge(
            &command_file_name("Admin Tool", 5),
            Some(CommandRequest {
                id: 5,
                command: ElevatedCommand::Start
            })
        ),
        Verdict::Discard
    );
}

#[test]
fn rejected_commands_say_why() {
    assert_eq!(Rejection::Invalid.rejected_name("x.1"), "x.1.invalid");
    assert_eq!(Rejection::IdMismatch.rejected_name("x"), "x.id-mismatch");
    assert_eq!(Rejection::UnknownTool.rejected_name("x"), "x.unknown-tool");
}

#[test]
fn the_helper_shows_its_tools_when_something_changes() {
    let mut helper = helper();
    let shown = || vec![ToolSnapshot::stopped("Admin Tool".to_string())];
    let second = 1_000_000_000;
    assert!(helper.publish_due(&shown(), 0));
    helper.published(shown(), 10 * second);
    assert!(!helper.publish_due(&shown(), 12 * second - 1));
    assert!(helper.publish_due(&shown(), 12 * second));
    assert!(helper.publish_due(&Vec::new(), 10 * second));
    let name = command_file_name("Other", 1);
    helper.judge(
        &name,
        Some(CommandRequest {
            id: 1,
            command: ElevatedCommand::Start,
        }),
    );
    assert!(helper.publish_due(&shown(), 10 * second));
    let first = helper.state(ToolSnapshot::stopped("Admin Tool".to_string()), 3, 4);
    assert_eq!(first.acknowledged_command_id, 5);
    assert_eq!(first.helper_started_unix_ms, 3);
    assert_eq!(first.updated_unix_ms, 4);
    let second = helper.state(ToolSnapshot::stopped("Other".to_string()), 3, 4);
    assert_eq!(second.acknowledged_command_id, 1);
    let stranger = helper.state(ToolSnapshot::stopped("x".to_string()), 3, 4);
    assert_eq!(stranger.acknowledged_command_id, 0);
}

fn supervisor() -> Supervisor {
    let tool = ToolConfig {
        name: "a".to_string(),
        command: "x".to_string(),
        ..ToolConfig::default()
    };
    Supervisor::new(
        AppConfig {
            manager: ManagerConfig::default(),
            tools: vec![tool],
        },
        AppPaths {
            config_file: Vec::new(),
            log_directory: Vec::new(),
            state_directory: Vec::new(),
        },
        false,
        0,
    )
}

#[test]
fn commands_reach_the_tools() {
    let mut supervisor = supervisor();
    assert!(run_command(&mut supervisor, 0, ElevatedCommand::Stop).is_empty());
    assert!(run_command(&mut supervisor, 0, ElevatedCommand::Restart).is_empty());
    assert!(run_command(&mut supervisor, 0, ElevatedCommand::Start).is_empty());
    assert!(run_command(&mut supervisor, 7, ElevatedCommand::Start).is_empty());
    assert_eq!(supervisor.take_request(0), Some(Control::Stop));
    assert_eq!(supervisor.take_request(0), Some(Control::Restart));
    assert_eq!(supervisor.take_request(0), Some(Control::Start));
    assert_eq!(supervisor.take_request(0), None);
    supervisor.start_succeeded(0, 42, 1_000);
    assert_eq!(
        run_command(&mut supervisor, 0, ElevatedCommand::SampleMemory),
        vec![(0, 42)]
    );
    assert_eq!(supervisor.manager_memory(), MemoryValue::Pending);
}

#[test]
fn the_manager_believes_the_helper_while_it_is_heard() {
    let mut runtime = Runtime::new();
    let (mut proxy, first) = Proxy::new(true, 0, &mut runtime);
    assert_eq!(first, Some(ElevatedCommand::Start));
    assert_eq!(runtime.state, ToolState::Starting);
    let mut shown = state(0, 5_000);
    shown.snapshot.state = ToolState::Running;
    shown.snapshot.pid = Some(7);
    shown.snapshot.memory = MemoryValue::Bytes(9);
    shown.snapshot.restart_count = 2;
    shown.snapshot.started_at_unix_ms = Some(4_000);
    proxy.observe(&mut runtime, &Some(shown.clone()), 1, 6_000);
    assert_eq!(runtime.state, ToolState::Running);
    assert_eq!(runtime.pid, Some(7));
    assert_eq!(runtime.memory, MemoryValue::Bytes(9));
    assert_eq!(runtime.restart_count, 0);
    assert_eq!(runtime.started_at_unix_ms, Some(4_000));
    assert_eq!(proxy.unavailable_since, None);
    proxy.observe(&mut runtime, &Some(shown), 10, 100_000);
    assert_eq!(proxy.unavailable_since, Some(10));
    assert_eq!(runtime.state, ToolState::Running);
    proxy.observe(&mut runtime, &None, 8_000_000_010, 0);
    assert_eq!(runtime.state, ToolState::Crashed);
    assert_eq!(runtime.pid, None);
    assert_eq!(runtime.memory, MemoryValue::Unavailable);
}

#[test]
fn a_tool_that_is_not_wanted_is_stopped_when_the_helper_is_lost() {
    let mut runtime = Runtime::new();
    let (mut proxy, first) = Proxy::new(false, 0, &mut runtime);
    assert_eq!(first, None);
    proxy.observe(&mut runtime, &None, 7_999_999_999, 0);
    assert_eq!(runtime.memory, MemoryValue::Idle);
    proxy.observe(&mut runtime, &None, 8_000_000_000, 0);
    assert_eq!(runtime.state, ToolState::Stopped);
    assert_eq!(runtime.memory, MemoryValue::Unavailable);
}

#[test]
fn signals_are_passed_on_to_the_helper() {
    let mut runtime = Runtime::new();
    let (mut proxy, _) = Proxy::new(false, 0, &mut runtime);
    let mut send = |signal| proxy.handle_signal(&mut runtime, signal);
    assert_eq!(
        send(Signal::Request(Control::Start)).command,
        Some(ElevatedCommand::Start)
    );
    assert_eq!(
        send(Signal::Request(Control::Restart)).command,
        Some(ElevatedCommand::Restart)
    );
    assert_eq!(
        send(Signal::Request(Control::SampleMemory)).command,
        Some(ElevatedCommand::SampleMemory)
    );
    assert_eq!(send(Signal::Timeout).command, None);
    assert_eq!(
        send(Signal::Request(Control::Stop)).command,
        Some(ElevatedCommand::Stop)
    );
    let last = send(Signal::Disconnected);
    assert!(last.exit);
    assert_eq!(last.command, Some(ElevatedCommand::Stop));
    let last = send(Signal::Request(Control::Shutdown));
    assert!(last.exit);
    assert_eq!(runtime.state, ToolState::Stopping);
    assert!(!proxy.desired);
}
