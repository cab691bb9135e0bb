use win_keeper::config::{AppConfig, ManagerConfig, ToolConfig};
use std::path::Path;
use win_keeper::launch::Platform;
use win_keeper::instance::{activation_text, lock_text, startup, LockAttempt, Startup};
use win_keeper::paths::{
    autostart_paths, command_directory, is_own_directory, paths, windows_paths, AppDataMissing, AppPaths,
    Environment, HomeMissing,
};
use win_keeper::restart::RestartHistory;
use win_keeper::supervisor::Supervisor;
use win_keeper::tool::{
    Action, Control, ExitOutcome, MemoryValue, Runtime, Signal, Tool, ToolState,
};
use win_keeper::wait::{
    answer_time, deadline, end_stop, plan_stop, poll_child, poll_scope, poll_stop, ChildStatus,
    Poll, StopEnd, StopStart,
};
use win_keeper::windows::WindowsAdapter;

const SECOND: u64 = 1_000_000_000;

fn config(name: &str) -> ToolConfig {
    ToolConfig {
        name: name.to_string(),
        command: "/bin/x".to_string(),
        restart_delay_ms: 3_000,
        max_restart_count: 2,
        restart_window_seconds: 60,
        ..ToolConfig::default()
    }
}

#[test]
fn restarts_are_limited_within_the_window() {
    let mut history = RestartHistory::new();
    assert!(history.request(0, 60, 2));
    assert!(history.request(SECOND, 60, 2));
    assert!(!history.request(60 * SECOND, 60, 2));
    assert!(history.request(60 * SECOND + 1, 60, 2));
    assert!(!history.request(61 * SECOND, 60, 2));
    history.clear();
    assert!(history.request(61 * SECOND, 60, 2));
    assert!(!RestartHistory::new().request(0, 60, 0));
}

#[test]
fn a_tool_that_ends_is_restarted_until_the_limit() {
    let config = config("a");
    let mut tool = Tool::new(true, 0);
    assert!(tool.start_due(0));
    tool.begin_start();
    assert_eq!(tool.runtime().state, ToolState::Starting);
    assert!(!tool.start_due(SECOND));
    tool.start_succeeded(7, 1_000);
    let runtime = tool.runtime();
    assert_eq!(runtime.state, ToolState::Running);
    assert_eq!(runtime.pid, Some(7));
    assert_eq!(runtime.started_at_unix_ms, Some(1_000));
    assert_eq!(
        tool.process_exited(&config, SECOND),
        ExitOutcome::RestartScheduled
    );
    assert_eq!(tool.runtime().state, ToolState::Restarting);
    assert_eq!(tool.runtime().pid, None);
    assert_eq!(tool.runtime().started_at_unix_ms, None);
    assert_eq!(tool.runtime().restart_count, 1);
    assert!(!tool.start_due(4 * SECOND - 1));
    assert!(tool.start_due(4 * SECOND));
    tool.begin_start();
    tool.start_failed(&config, 4 * SECOND);
    assert_eq!(tool.runtime().state, ToolState::Restarting);
    assert_eq!(tool.runtime().restart_count, 2);
    tool.begin_start();
    tool.start_succeeded(8, 2_000);
    assert_eq!(
        tool.process_exited(&config, 5 * SECOND),
        ExitOutcome::RestartLimitReached
    );
    assert_eq!(
        ExitOutcome::RestartLimitReached.message().unwrap(),
        "automatic restart limit reached; tool marked Crashed"
    );
    assert_eq!(
        ExitOutcome::RestartScheduled.message().unwrap(),
        "scheduled automatic restart"
    );
    assert_eq!(ExitOutcome::Stopped.message(), None);
    assert_eq!(tool.runtime().state, ToolState::Crashed);
    assert!(!tool.start_due(u64::MAX));
    assert_eq!(
        tool.handle_signal(Signal::Request(Control::Start), 6 * SECOND),
        Action::Continue
    );
    assert!(tool.start_due(6 * SECOND));
    assert_eq!(tool.runtime().restart_count, 0);
}

#[test]
fn a_tool_that_is_not_restarted_stops() {
    let config = ToolConfig {
        auto_restart: false,
        ..config("a")
    };
    let mut tool = Tool::new(true, 0);
    tool.begin_start();
    tool.start_succeeded(7, 0);
    assert_eq!(tool.process_exited(&config, 1), ExitOutcome::Stopped);
    assert_eq!(tool.runtime().state, ToolState::Stopped);
    let mut tool = Tool::new(true, 0);
    tool.begin_start();
    tool.start_failed(&config, 1);
    assert_eq!(tool.runtime().state, ToolState::Crashed);
    assert!(!tool.start_due(u64::MAX));
}

#[test]
fn signals_stop_and_restart_a_tool() {
    let mut tool = Tool::new(true, 0);
    tool.begin_start();
    tool.start_succeeded(7, 0);
    assert_eq!(
        tool.handle_signal(Signal::Request(Control::Restart), 5),
        Action::StopProcess
    );
    assert_eq!(tool.runtime().state, ToolState::Restarting);
    assert!(tool.begin_stop());
    assert_eq!(tool.runtime().state, ToolState::Stopping);
    tool.finish_stop();
    assert_eq!(tool.runtime().state, ToolState::Stopped);
    assert!(!tool.is_active());
    assert!(tool.start_due(5));
    assert_eq!(
        tool.handle_signal(Signal::Request(Control::Stop), 6),
        Action::StopProcess
    );
    assert!(!tool.begin_stop());
    assert!(!tool.start_due(u64::MAX));
    assert_eq!(tool.handle_signal(Signal::Timeout, 7), Action::Continue);
    assert_eq!(
        tool.handle_signal(Signal::Request(Control::Shutdown), 7),
        Action::StopProcessAndExit
    );
    assert_eq!(
        tool.handle_signal(Signal::Disconnected, 7),
        Action::StopProcessAndExit
    );
}

#[test]
fn memory_answers_count_for_their_process() {
    let mut runtime = Runtime::new();
    assert_eq!(runtime.begin_sample(), None);
    assert_eq!(runtime.memory, MemoryValue::Idle);
    runtime.state = ToolState::Running;
    runtime.pid = Some(7);
    assert_eq!(runtime.begin_sample(), Some(7));
    assert_eq!(runtime.memory, MemoryValue::Pending);
    runtime.finish_sample(6, Some(5));
    assert_eq!(runtime.memory, MemoryValue::Pending);
    runtime.finish_sample(7, None);
    assert_eq!(runtime.memory, MemoryValue::Unavailable);
    runtime.finish_sample(7, Some(5));
    assert_eq!(runtime.memory, MemoryValue::Bytes(5));
}

fn app_paths() -> AppPaths {
    AppPaths {
        config_file: b"/c/config.toml".to_vec(),
        log_directory: b"/l".to_vec(),
        state_directory: b"/s".to_vec(),
    }
}

fn supervisor(helper: bool) -> Supervisor {
    let mut admin = config("admin");
    admin.admin = true;
    admin.workdir = Some("/w".to_string());
    let mut manager = ManagerConfig::default();
    manager.lang = Some("zh".to_string());
    let config = AppConfig {
        manager,
        tools: vec![config("plain"), admin],
    };
    Supervisor::new(config, app_paths(), helper, 0)
}

#[test]
fn requests_wait_for_their_tools() {
    let mut supervisor = supervisor(false);
    assert_eq!(supervisor.tool_count(), 2);
    assert!(supervisor.minimize_to_tray());
    assert_eq!(supervisor.configured_chinese(), Some(true));
    assert_eq!(supervisor.config_path(), &b"/c/config.toml".to_vec());
    supervisor.start(0);
    supervisor.stop(1);
    supervisor.restart(2);
    supervisor.restart_all();
    supervisor.start_all();
    supervisor.stop_all();
    supervisor.shutdown();
    let mut drain = |index| {
        let mut requests = Vec::new();
        while let Some(request) = supervisor.take_request(index) {
            requests.push(request);
        }
        requests
    };
    let all = [Control::Restart, Control::Start, Control::Stop, Control::Shutdown];
    assert_eq!(drain(0), [vec![Control::Start], all.to_vec()].concat());
    assert_eq!(drain(1), [vec![Control::Stop], all.to_vec()].concat());
}

#[test]
fn tools_are_shown_as_they_are() {
    let mut supervisor = supervisor(false);
    supervisor.begin_start(0);
    supervisor.start_succeeded(0, 42, 9);
    let shown = supervisor.snapshots();
    assert_eq!(shown.len(), 2);
    assert_eq!(shown[0].name, "plain");
    assert_eq!(shown[0].state, ToolState::Running);
    assert_eq!(shown[0].pid, Some(42));
    assert_eq!(shown[0].started_at_unix_ms, Some(9));
    assert_eq!(shown[1].state, ToolState::Stopped);
    assert!(shown[0].same_as(&supervisor.snapshots()[0]));
    assert!(!shown[0].same_as(&shown[1]));
    assert_eq!(
        supervisor.process_exited(0, SECOND),
        ExitOutcome::Stopped
    );
    assert_eq!(supervisor.runtime(0).state, ToolState::Stopped);
}

#[test]
fn memory_is_asked_for_where_the_tools_run() {
    let mut supervisor = supervisor(true);
    assert!(!supervisor.is_elevated(0));
    assert!(supervisor.is_elevated(1));
    supervisor.start_succeeded(0, 42, 0);
    let mut away = Runtime::new();
    away.state = ToolState::Running;
    away.pid = Some(43);
    supervisor.set_runtime(1, away);
    assert_eq!(supervisor.sample_memory(), vec![(0, 42)]);
    assert_eq!(supervisor.take_request(1), Some(Control::SampleMemory));
    assert_eq!(supervisor.take_request(0), None);
    assert_eq!(supervisor.runtime(1).memory, MemoryValue::Pending);
    supervisor.finish_sample(0, 42, Some(5));
    supervisor.finish_manager_sample(None);
    assert_eq!(supervisor.runtime(0).memory, MemoryValue::Bytes(5));
    assert_eq!(supervisor.manager_memory(), MemoryValue::Unavailable);
}

#[test]
fn a_tool_has_a_directory_to_show() {
    let supervisor = supervisor(false);
    let shown = |index| supervisor.workdir(index, Platform::Linux);
    assert_eq!(shown(1), Some("/w".to_string()));
    assert_eq!(shown(0), Some("/bin".to_string()));
    assert_eq!(shown(2), None);
    let mut rootless = config("a");
    rootless.command = "/".to_string();
    let mut bare = config("b");
    bare.command = "tool.exe".to_string();
    let config = AppConfig {
        manager: ManagerConfig::default(),
        tools: vec![rootless, bare],
    };
    let supervisor = Supervisor::new(config, app_paths(), false, 0);
    assert_eq!(supervisor.workdir(0, Platform::Linux), Some(".".to_string()));
    assert_eq!(supervisor.workdir(1, Platform::Windows), Some(String::new()));
}

#[test]
fn directories_are_those_that_the_system_finds() {
    let mut paths = vec![String::new()];
    let mut from = 0;
    for _ in 0..7 {
        let upto = paths.len();
        for place in from..upto {
            for c in ['/', '.', 'a'] {
                paths.push(format!("{}{c}", paths[place]));
            }
        }
        from = upto;
    }
    for path in &paths {
        let parent = Path::new(path)
            .parent()
            .map(|parent| parent.to_str().unwrap().to_string());
        assert_eq!(command_directory(path, Platform::Linux), parent, "{path}");
    }
}

#[test]
fn directories_on_windows_keep_their_drive() {
    let found = |path: &str| command_directory(path, Platform::Windows);
    let some = |path: &str| Some(path.to_string());
    assert_eq!(found("C:\\Tools\\worker.exe"), some("C:\\Tools"));
    assert_eq!(found("C:/Tools\\worker.exe"), some("C:/Tools"));
    assert_eq!(found("C:\\worker.exe"), some("C:\\"));
    assert_eq!(found("C:worker.exe"), some("C:"));
    assert_eq!(found("C:\\"), None);
    assert_eq!(found("C:"), None);
    assert_eq!(found("worker.exe"), some(""));
    assert_eq!(found(".\\worker.exe"), some("."));
    assert_eq!(found("\\\\server\\share\\x\\y"), some("\\\\server\\share\\x"));
    assert_eq!(found("\\\\server\\share\\x"), some("\\\\server\\share\\"));
    assert_eq!(found("\\\\server\\share\\"), None);
    assert_eq!(found("\\\\server\\share"), None);
    assert_eq!(found("\\x"), some("\\"));
    assert_eq!(found(""), None);
    assert_eq!(command_directory("a\\b", Platform::Linux), some(""));
}

#[test]
fn stops_wait_until_their_deadline() {
    assert_eq!(deadline(5, 2), 2_000_005);
    assert_eq!(plan_stop(true, 5, 2), StopStart::WaitUntil(2_000_005));
    assert_eq!(plan_stop(false, 5, 2), StopStart::Look);
    assert_eq!(poll_stop(10, 9, false), Poll::Sleep(50));
    assert_eq!(poll_stop(10, 9, true), Poll::Ended);
    assert_eq!(poll_stop(10, 10, true), Poll::TimedOut);
    assert_eq!(end_stop(true), StopEnd::Done);
    assert_eq!(end_stop(false), StopEnd::Force);
    assert_eq!(poll_child(10, 9, ChildStatus::Running), Poll::Sleep(20));
    assert_eq!(poll_child(10, 10, ChildStatus::Running), Poll::TimedOut);
    assert_eq!(poll_child(10, 99, ChildStatus::Exited), Poll::Ended);
    assert_eq!(poll_child(10, 9, ChildStatus::Unknown), Poll::TimedOut);
    assert_eq!(poll_scope(10, 9, false), Poll::Sleep(25));
    assert_eq!(poll_scope(10, 99, true), Poll::Ended);
    assert_eq!(poll_scope(10, 10, false), Poll::TimedOut);
    assert_eq!(answer_time(10, 10), None);
    assert_eq!(answer_time(10, 4), Some(6));
    assert_eq!(answer_time(u128::MAX, 4), Some(2_000_000_000));
}

fn environment(config_home: Option<&str>, state_home: Option<&str>) -> Environment {
    Environment {
        home: Some(b"/home/u".to_vec()),
        config_home: config_home.map(|path| path.as_bytes().to_vec()),
        state_home: state_home.map(|path| path.as_bytes().to_vec()),
    }
}

#[test]
fn paths_follow_the_environment() {
    let usual = paths(&environment(None, None), None).unwrap_or_else(|_| panic!("no home"));
    assert_eq!(
        usual.config_file,
        b"/home/u/.config/winkeeper/config.toml".to_vec()
    );
    assert_eq!(
        usual.state_directory,
        b"/home/u/.local/state/winkeeper".to_vec()
    );
    assert_eq!(
        usual.log_directory,
        b"/home/u/.local/state/winkeeper/logs".to_vec()
    );
    let moved = paths(
        &environment(Some("/c/"), Some("/s")),
        Some(b"/own.toml".to_vec()),
    )
    .unwrap_or_else(|_| panic!("no home"));
    assert_eq!(moved.config_file, b"/own.toml".to_vec());
    assert_eq!(moved.state_directory, b"/s/winkeeper".to_vec());
    let (directory, file) = autostart_paths(&environment(Some("/c/"), None)).unwrap();
    assert_eq!(directory, b"/c/autostart".to_vec());
    assert_eq!(file, b"/c/autostart/winkeeper.desktop".to_vec());
    let nowhere = Environment {
        home: None,
        config_home: Some(b"/c".to_vec()),
        state_home: None,
    };
    assert!(matches!(paths(&nowhere, None), Err(HomeMissing)));
    assert!(matches!(autostart_paths(&nowhere), Err(HomeMissing)));
    assert!(is_own_directory("WinKeeper"));
    assert!(!is_own_directory("winkeeper2"));
}

#[test]
fn one_manager_runs_at_a_time() {
    assert_eq!(startup(LockAttempt::Taken), Startup::Run);
    assert_eq!(startup(LockAttempt::Held), Startup::Yield);
    assert_eq!(startup(LockAttempt::Failed), Startup::Fail);
    assert_eq!(lock_text(42), "42\n");
    assert_eq!(
        activation_text(42, u128::MAX),
        "42 340282366920938463463374607431768211455\n"
    );
}

#[test]
fn answers_of_windows_are_understood() {
    assert!(WindowsAdapter.autostart_is_set(true, 0));
    assert!(WindowsAdapter.autostart_is_set(false, 2));
    assert!(!WindowsAdapter.autostart_is_set(true, 2));
    assert!(!WindowsAdapter.autostart_is_set(false, 5));
    assert!(WindowsAdapter.is_opened(33));
    assert!(!WindowsAdapter.is_opened(32));
    assert!(WindowsAdapter.is_chinese(0x0804));
    assert!(WindowsAdapter.is_chinese(0x0404));
    assert!(!WindowsAdapter.is_chinese(0x0409));
}

#[test]
fn paths_on_windows_lie_below_the_application_data() {
    let found = |appdata: &str, file: Option<&str>| {
        let paths = windows_paths(
            &Some(appdata.as_bytes().to_vec()),
            file.map(|file| file.as_bytes().to_vec()),
        )
        .unwrap();
        [paths.config_file, paths.log_directory, paths.state_directory]
            .map(|path| String::from_utf8(path).unwrap())
    };
    assert_eq!(
        found("C:\\Users\\u\\AppData\\Roaming", None),
        [
            "C:\\Users\\u\\AppData\\Roaming\\WinKeeper\\config.toml",
            "C:\\Users\\u\\AppData\\Roaming\\WinKeeper\\logs",
            "C:\\Users\\u\\AppData\\Roaming\\WinKeeper"
        ]
    );
    assert_eq!(found("D:/", Some("own.toml"))[0], "own.toml");
    assert_eq!(found("D:/", None)[2], "D:/WinKeeper");
    assert_eq!(found("D:\\", None)[2], "D:\\WinKeeper");
    assert_eq!(found("D:", None)[2], "D:WinKeeper");
    assert_eq!(found("1:", None)[2], "1:\\WinKeeper");
    assert_eq!(found("", None)[2], "WinKeeper");
    assert!(matches!(windows_paths(&None, None), Err(AppDataMissing)));
}

#[test]
fn a_run_keeps_the_restart_limit() {
    let config = config("a");
    let mut tool = Tool::new(true, 0);
    let mut restarts = Vec::new();
    for second in 0..500 {
        let now = second * SECOND;
        if second == 250 {
            tool.handle_signal(Signal::Request(Control::Start), now);
            restarts.clear();
        }
        if !tool.start_due(now) {
            continue;
        }
        tool.begin_start();
        let before = tool.runtime().restart_count;
        if second % 2 == 0 {
            tool.start_failed(&config, now);
        } else {
            tool.start_succeeded(7, 0);
            tool.process_exited(&config, now);
        }
        if tool.runtime().restart_count > before {
            restarts.push(now);
        }
        assert_eq!(tool.runtime().restart_count, restarts.len());
    }
    assert_eq!(restarts.len(), 2);
    let patient = ToolConfig {
        restart_delay_ms: 40_000,
        ..config
    };
    let mut tool = Tool::new(true, 0);
    let mut restarts = Vec::new();
    for second in 0..500 {
        let now = second * SECOND;
        if tool.start_due(now) {
            tool.begin_start();
            tool.start_failed(&patient, now);
            restarts.push(now);
        }
    }
    assert_eq!(restarts.len(), 13);
    for pair in restarts.windows(3) {
        assert!(pair[2] - pair[0] > 60 * SECOND);
    }
}
