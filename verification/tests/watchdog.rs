use win_keeper::cli::{parse_args, parse_words, shows_window, ArgumentError, Invocation};
use win_keeper::watchdog::{
    cgroup_arguments, farewell, health_message, health_step, keep_output, managed_tree_running, ready_message, signal_arguments, signal_name,
    signal_outcome, tree_running, watchdog_arguments, watchdog_step, watched_scope, CgroupReport,
    ControlRead, Farewell, GroupProbe, GroupSignal, HealthStep, ReadyRead, ScopeSignal, SignalOutcome,
    StopSignal, WatchScope, WatchdogFault, WatchdogStatus, WatchdogStep,
};

fn args(words: &[&str]) -> Vec<Vec<u8>> {
    words.iter().map(|word| word.as_bytes().to_vec()).collect()
}

fn scope() -> Option<WatchScope> {
    Some(WatchScope {
        unit: "u.scope".to_string(),
        cgroup: b"/sys/\xff".to_vec(),
        systemctl: b"/bin/systemctl".to_vec(),
    })
}

#[test]
fn the_manager_is_started_with_options() {
    match parse_args(&args(&["--config", "/c", "--check-config", "--show", "--autostart"])) {
        Ok(Invocation::Run(run)) => {
            assert_eq!(run.config, Some(b"/c".to_vec()));
            assert!(run.check_only);
            assert!(run.show_window);
            assert!(run.autostart);
        }
        _ => panic!("not understood"),
    }
    match parse_args(&Vec::new()) {
        Ok(Invocation::Run(run)) => {
            assert_eq!(run.config, None);
            assert!(!run.check_only);
            assert!(!run.show_window);
            assert!(!run.autostart);
        }
        _ => panic!("not understood"),
    }
    match parse_args(&args(&["--config", "/a", "--config", "/b"])) {
        Ok(Invocation::Run(run)) => assert_eq!(run.config, Some(b"/b".to_vec())),
        _ => panic!("not understood"),
    }
    match parse_args(&vec![b"--config".to_vec(), b"/\xff".to_vec()]) {
        Ok(Invocation::Run(run)) => assert_eq!(run.config, Some(b"/\xff".to_vec())),
        _ => panic!("not understood"),
    }
}

#[test]
fn version_and_help_come_first() {
    assert!(matches!(
        parse_args(&args(&["--version", "--bad"])),
        Ok(Invocation::Version)
    ));
    assert!(matches!(parse_args(&args(&["-V"])), Ok(Invocation::Version)));
    assert!(matches!(parse_args(&args(&["-h"])), Ok(Invocation::Help)));
    assert!(matches!(
        parse_args(&args(&["--show", "--help"])),
        Ok(Invocation::Help)
    ));
    assert!(parse_args(&args(&["--bad", "--version"])).is_err());
}

fn refusal(words: &[&str]) -> String {
    match parse_args(&args(words)) {
        Err(error) => error.message(),
        Ok(_) => panic!("understood"),
    }
}

#[test]
fn wrong_arguments_are_refused() {
    assert_eq!(refusal(&["--show", "--config"]), "--config requires a path");
    assert_eq!(refusal(&["--shown"]), "unknown argument: --shown");
    assert_eq!(
        refusal(&["--process-watchdog", "1"]),
        "--process-watchdog requires a process group and a timeout"
    );
    assert_eq!(
        refusal(&["--process-watchdog", "x", "1"]),
        "--process-watchdog requires a process group and a timeout"
    );
    assert_eq!(
        refusal(&["--process-watchdog", "1", "2", "--scope-unit"]),
        "scope options require a value"
    );
    match parse_args(&vec![b"-\xff".to_vec()]) {
        Err(ArgumentError::Unknown(text)) => assert_eq!(text, "-\u{fffd}"),
        _ => panic!("understood"),
    }
    let words = vec!["--config".to_string()];
    assert!(parse_words(&words, &args(&["--config"])).is_err());
}

#[test]
fn scope_options_belong_to_a_watchdog() {
    assert_eq!(
        refusal(&["--show", "--scope-unit", "u", "--scope-cgroup", "c"]),
        "unknown argument: --scope-unit"
    );
    assert_eq!(
        refusal(&["--scope-cgroup", "c", "--process-watchdog", "1", "2"]),
        "unknown argument: --scope-cgroup"
    );
    assert_eq!(
        refusal(&["--scope-systemctl"]),
        "unknown argument: --scope-systemctl"
    );
    assert_eq!(
        refusal(&["--show", "--process-watchdog", "1", "2"]),
        "unknown argument: --process-watchdog"
    );
    assert_eq!(
        refusal(&["--process-watchdog", "1", "2", "--show"]),
        "unknown argument: --show"
    );
    assert_eq!(
        refusal(&["--process-watchdog", "1", "2", "--scope-unit", "u", "--version"]),
        "unknown argument: --version"
    );
}

#[test]
fn watchdog_arguments_are_understood() {
    let plain = watchdog_arguments(-5, 250, &None);
    assert_eq!(plain, args(&["--process-watchdog", "-5", "250"]));
    match parse_args(&plain) {
        Ok(Invocation::Watch(watch)) => {
            assert_eq!(watch.pgid, -5);
            assert_eq!(watch.timeout_ms, 250);
            assert_eq!(watch.unit, None);
            assert_eq!(watch.cgroup, None);
            assert_eq!(watch.systemctl, None);
        }
        _ => panic!("not understood"),
    }
    match parse_args(&watchdog_arguments(i32::MIN, u64::MAX, &scope())) {
        Ok(Invocation::Watch(watch)) => {
            assert_eq!(watch.pgid, i32::MIN);
            assert_eq!(watch.timeout_ms, u64::MAX);
            assert_eq!(watch.unit, Some("u.scope".to_string()));
            assert_eq!(watch.cgroup, Some(b"/sys/\xff".to_vec()));
            assert_eq!(watch.systemctl, Some(b"/bin/systemctl".to_vec()));
        }
        _ => panic!("not understood"),
    }
}

#[test]
fn a_watchdog_needs_a_group_and_a_whole_scope() {
    let fault = |pgid, unit: Option<&str>| {
        watched_scope(pgid, unit.map(String::from), None, None)
            .err()
            .unwrap()
    };
    assert_eq!(fault(0, None), WatchdogFault::NoGroup);
    assert_eq!(
        fault(-1, None).message(),
        "process watchdog requires a positive process group id"
    );
    assert_eq!(
        fault(1, Some("u")).message(),
        "process watchdog scope arguments must be provided together"
    );
    assert!(matches!(watched_scope(1, None, None, None), Ok(None)));
    match watched_scope(1, Some("u".to_string()), Some(vec![1]), Some(vec![2])) {
        Ok(Some(scope)) => {
            assert_eq!(scope.unit, "u");
            assert_eq!(scope.cgroup, vec![1]);
            assert_eq!(scope.systemctl, vec![2]);
        }
        _ => panic!("refused"),
    }
}

#[test]
fn a_watchdog_leaves_only_when_it_is_told() {
    assert_eq!(watchdog_step(ControlRead::Byte(b'D')), WatchdogStep::Leave);
    assert_eq!(
        watchdog_step(ControlRead::Byte(b'R')),
        WatchdogStep::StopProcesses
    );
    assert_eq!(watchdog_step(ControlRead::End), WatchdogStep::StopProcesses);
    assert_eq!(
        watchdog_step(ControlRead::Failed),
        WatchdogStep::StopProcesses
    );
    assert_eq!(watchdog_step(ControlRead::Interrupted), WatchdogStep::Wait);
}

#[test]
fn processes_are_looked_for_in_scope_and_group() {
    let gone = GroupProbe::Gone;
    assert!(!managed_tree_running(CgroupReport::NoCgroup, gone));
    assert!(!managed_tree_running(CgroupReport::Populated(false), GroupProbe::Failed));
    assert!(managed_tree_running(CgroupReport::Populated(true), gone));
    assert!(managed_tree_running(CgroupReport::Unreadable, gone));
    assert!(managed_tree_running(CgroupReport::NoCgroup, GroupProbe::Exists));
    assert!(managed_tree_running(CgroupReport::NoCgroup, GroupProbe::Forbidden));
    assert_eq!(tree_running(CgroupReport::Unreadable, 1, gone), None);
    assert_eq!(tree_running(CgroupReport::Populated(true), 0, gone), Some(true));
    assert_eq!(tree_running(CgroupReport::NoCgroup, 0, GroupProbe::Exists), Some(false));
    assert_eq!(tree_running(CgroupReport::NoCgroup, 1, GroupProbe::Forbidden), Some(true));
    assert_eq!(tree_running(CgroupReport::NoCgroup, 1, gone), Some(false));
    assert_eq!(tree_running(CgroupReport::NoCgroup, 1, GroupProbe::Failed), None);
}

#[test]
fn watchdogs_are_replaced_while_processes_may_be_there() {
    let (absent, exited, running) = (
        WatchdogStatus::Absent,
        WatchdogStatus::Exited,
        WatchdogStatus::Running,
    );
    assert_eq!(health_step(running, None), HealthStep::Healthy);
    assert_eq!(health_step(absent, Some(false)), HealthStep::Healthy);
    assert_eq!(health_step(absent, None), HealthStep::Recreate);
    assert_eq!(health_step(exited, Some(true)), HealthStep::Restart);
    assert_eq!(health_step(exited, Some(false)), HealthStep::Report);
    assert_eq!(farewell(Some(false)), Farewell::Disarm);
    assert_eq!(farewell(Some(true)), Farewell::LetGo);
    assert_eq!(farewell(None), Farewell::LetGo);
}

#[test]
fn signals_have_names() {
    assert_eq!(signal_name(StopSignal::Terminate), "SIGTERM");
    assert_eq!(signal_name(StopSignal::Kill), "SIGKILL");
    assert_eq!(
        signal_arguments("u.scope", StopSignal::Kill),
        args(&[
            "--user",
            "--no-ask-password",
            "kill",
            "--kill-whom=all",
            "--signal=SIGKILL",
            "u.scope"
        ])
    );
    assert_eq!(
        cgroup_arguments("u.scope"),
        args(&[
            "--user",
            "--no-ask-password",
            "show",
            "--property=ControlGroup",
            "--value",
            "u.scope"
        ])
    );
}

#[test]
fn one_delivered_signal_is_enough() {
    let failed = || GroupSignal::Failed("EPERM".to_string());
    let broken = || ScopeSignal::Failed("gone".to_string());
    let message = |group, scope| match signal_outcome(7, "u", group, scope) {
        SignalOutcome::Done => None,
        SignalOutcome::FailedIfRunning(message) => Some(message),
    };
    assert_eq!(message(GroupSignal::Delivered, broken()), None);
    assert_eq!(message(failed(), ScopeSignal::Delivered), None);
    assert_eq!(message(GroupSignal::Gone, ScopeSignal::NotTried), None);
    assert_eq!(
        message(failed(), broken()).unwrap(),
        "failed to signal managed process tree: process group 7: EPERM; scope u: gone"
    );
    assert_eq!(
        message(failed(), ScopeSignal::NotTried).unwrap(),
        "failed to signal managed process tree: process group 7: EPERM"
    );
    assert_eq!(
        message(GroupSignal::NotTried, broken()).unwrap(),
        "failed to signal managed process tree: scope u: gone"
    );
}

#[test]
fn output_is_kept_up_to_a_bound() {
    let mut kept = Vec::new();
    keep_output(&mut kept, b"abc", 5);
    keep_output(&mut kept, b"defg", 5);
    keep_output(&mut kept, b"h", 5);
    assert_eq!(kept, b"abcde");
}

#[test]
fn the_window_is_shown_unless_it_starts_hidden() {
    assert!(shows_window(true, true));
    assert!(shows_window(false, false));
    assert!(!shows_window(false, true));
}

#[test]
fn the_state_of_a_watchdog_is_reported() {
    assert_eq!(health_message(HealthStep::Healthy, "x"), None);
    assert_eq!(
        health_message(HealthStep::Recreate, "x").unwrap(),
        "process watchdog was unavailable and was recreated"
    );
    assert_eq!(
        health_message(HealthStep::Restart, "exit status: 1").unwrap(),
        "process watchdog exited with exit status: 1 and was restarted"
    );
    assert_eq!(
        health_message(HealthStep::Report, "exit status: 1").unwrap(),
        "process watchdog exited with exit status: 1"
    );
    assert_eq!(ready_message(ReadyRead::Byte(b'R')), None);
    assert_eq!(
        ready_message(ReadyRead::Byte(b'D')).unwrap(),
        "process watchdog failed to become ready"
    );
    assert_eq!(
        ready_message(ReadyRead::Failed).unwrap(),
        "process watchdog failed to become ready"
    );
    assert_eq!(
        ready_message(ReadyRead::TimedOut).unwrap(),
        "process watchdog readiness timed out"
    );
}
