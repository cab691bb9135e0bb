use win_keeper::autostart::{
    autostart_entry, autostart_text, entry_step, run_key_command, EntryStep,
};
use win_keeper::config::ToolConfig;
use win_keeper::launch::{
    is_tool_scope, launch_spec, next_scope_unit, wrap_command_in_scope, LaunchFault, LaunchSpec,
    Platform,
};
use win_keeper::linux::{
    cgroup_populated, is_cgroup_of, is_executable, kilobytes_to_bytes, managed_cgroup,
    memory_kilobytes, parse_proc_stat, path_name, process_cgroup, process_name, process_tree,
    scope_cgroup, LinuxAdapter, MemoryFault, ProcessRecord,
};

fn strings(arguments: &[Vec<u8>]) -> Vec<String> {
    arguments
        .iter()
        .map(|value| String::from_utf8_lossy(value).into_owned())
        .collect()
}

fn tool() -> ToolConfig {
    ToolConfig {
        name: "test tool".to_string(),
        command: "/opt/example tool".to_string(),
        args: vec!["--flag".to_string(), "value with spaces".to_string()],
        workdir: Some("/tmp".to_string()),
        ..ToolConfig::default()
    }
}

#[test]
fn autostart_entry_checks_the_executable_before_launching() {
    let entry = autostart_entry(
        "/opt/Win Keeper/win-keeper".as_bytes(),
        "/home/example/.config/winkeeper/config.toml".as_bytes(),
    );

    assert!(entry.contains("TryExec=/opt/Win Keeper/win-keeper\n"));
    assert!(entry.contains(
        "Exec=\"/opt/Win Keeper/win-keeper\" --config \"/home/example/.config/winkeeper/config.toml\" --autostart\n"
    ));
}

#[test]
fn autostart_entry_is_a_desktop_entry() {
    assert_eq!(
        autostart_text("/a\\b\n\"c", "/x\"y"),
        "[Desktop Entry]\nType=Application\nName=WinKeeper\nComment=Cross-platform process supervisor\nTryExec=/a\\\\b\\n\"c\nExec=\"/a\\b\n\\\"c\" --config \"/x\\\"y\" --autostart\nIcon=win-keeper\nStartupWMClass=win-keeper\nTerminal=false\nStartupNotify=false\nX-GNOME-Autostart-enabled=true\n"
    );
    assert!(autostart_entry(b"/a\xff", b"/c").contains("TryExec=/a\u{fffd}\n"));
    assert!(autostart_text("a\tb\rc", "d").contains("TryExec=a\\tb\\rc\n"));
}

#[test]
fn autostart_entry_is_written_only_when_it_differs() {
    let current = Some("x".to_string());
    assert_eq!(entry_step(true, true, &current, "x"), EntryStep::Keep);
    assert_eq!(entry_step(true, true, &current, "y"), EntryStep::Write);
    assert_eq!(entry_step(true, false, &None, "y"), EntryStep::Write);
    assert_eq!(entry_step(false, true, &current, "x"), EntryStep::Remove);
    assert_eq!(entry_step(false, false, &None, "x"), EntryStep::Keep);
    assert_eq!(
        run_key_command("C:\\k.exe", "C:\\c.toml"),
        "\"C:\\k.exe\" --config \"C:\\c.toml\""
    );
}

#[test]
fn a_scope_keeps_the_launch_specification() {
    let launch = LaunchSpec {
        program: b"/opt/example tool".to_vec(),
        arguments: vec![b"--flag".to_vec(), b"value with spaces".to_vec()],
        directory: Some(b"/tmp".to_vec()),
        environment: vec![(b"WINKEEPER_TEST_ENV".to_vec(), Some(b"present".to_vec()))],
    };
    let wrapped = wrap_command_in_scope(
        launch,
        b"/usr/bin/systemd-run",
        "winkeeper-tool-test.scope",
        "test tool",
    );

    assert_eq!(wrapped.program, b"/usr/bin/systemd-run");
    assert_eq!(
        strings(&wrapped.arguments),
        vec![
            "--user",
            "--scope",
            "--quiet",
            "--unit=winkeeper-tool-test.scope",
            "--description=test tool",
            "--property=KillMode=control-group",
            "--",
            "/opt/example tool",
            "--flag",
            "value with spaces"
        ]
    );
    assert_eq!(wrapped.directory, Some(b"/tmp".to_vec()));
    assert_eq!(
        wrapped.environment,
        vec![(b"WINKEEPER_TEST_ENV".to_vec(), Some(b"present".to_vec()))]
    );
}

#[test]
fn a_tool_is_launched_as_it_is_configured() {
    let launch = launch_spec(&tool(), true).unwrap_or_else(|_| panic!("refused"));
    assert_eq!(launch.program, b"/opt/example tool");
    assert_eq!(
        strings(&launch.arguments),
        vec!["--flag", "value with spaces"]
    );
    assert_eq!(launch.directory, Some(b"/tmp".to_vec()));
    assert!(launch.environment.is_empty());
}

#[test]
fn a_tool_that_cannot_be_launched_is_refused() {
    let fault = launch_spec(&tool(), false).err().unwrap();
    assert_eq!(fault, LaunchFault::DirectoryMissing);
    assert_eq!(
        fault.message(&tool(), Platform::Linux),
        "working directory does not exist: /tmp"
    );
    let admin = ToolConfig {
        admin: true,
        workdir: None,
        ..tool()
    };
    let fault = launch_spec(&admin, false).err().unwrap();
    assert_eq!(fault, LaunchFault::NeedsElevation);
    assert_eq!(
        fault.message(&admin, Platform::Linux),
        "admin=true requires Polkit support, which is outside the first-stage Linux MVP"
    );
    assert_eq!(
        fault.message(&admin, Platform::Windows),
        "admin=true requires the elevated helper, which is outside the first-stage Windows MVP"
    );
}

#[test]
fn scopes_have_names_of_their_own() {
    let unit = next_scope_unit("tool", 12, 3);
    assert_eq!(unit, "winkeeper-tool-12-3.scope");
    assert!(is_tool_scope(&unit));
    assert!(!is_tool_scope(&next_scope_unit("watchdog", 12, 3)));
    assert!(!is_tool_scope("winkeeper-tool-1.service"));
}

#[test]
fn tools_run_in_scopes_until_one_fails() {
    let run = || Some(b"/bin/run".to_vec());
    let ctl = || Some(b"/bin/ctl".to_vec());
    assert!(LinuxAdapter::new(false, run(), ctl(), true).systemd.is_none());
    assert!(LinuxAdapter::new(true, None, ctl(), true).systemd.is_none());
    assert!(LinuxAdapter::new(true, run(), None, true).systemd.is_none());
    assert!(LinuxAdapter::new(true, run(), ctl(), false).systemd.is_none());
    let mut adapter = LinuxAdapter::new(true, run(), ctl(), true);
    let launch = || launch_spec(&tool(), true).unwrap_or_else(|_| panic!("refused"));
    let (wrapped, unit) = adapter.prepare_command(launch(), "n", 7, 8);
    assert_eq!(wrapped.program, b"/bin/run");
    assert_eq!(unit, Some("winkeeper-tool-7-8.scope".to_string()));
    adapter.disable_scopes();
    let (plain, unit) = adapter.prepare_command(launch(), "n", 7, 9);
    assert_eq!(plain.program, b"/opt/example tool");
    assert_eq!(unit, None);
}

#[test]
fn process_state_is_read() {
    assert_eq!(
        parse_proc_stat("42 (a (b) c) S 7 99 1 2"),
        Some(("a (b) c".to_string(), 7, 99))
    );
    assert_eq!(parse_proc_stat("42 (x) S 7"), None);
    assert_eq!(parse_proc_stat("42 (x) S -1 3"), None);
    assert_eq!(parse_proc_stat("42 x) S 7 3"), None);
    assert_eq!(parse_proc_stat("42 (x S 7 3"), None);
    assert_eq!(parse_proc_stat("(x) S 4294967296 3"), None);
}

#[test]
fn memory_is_read_in_kilobytes() {
    let report = "Rss:  10 kB\nPss:            1234 kB\nPss: 9 kB\n";
    assert_eq!(memory_kilobytes(report, "Pss:"), Ok(1234));
    assert_eq!(
        memory_kilobytes("VmPeak: 1 kB\nVmRSS:\t  55 kB\n", "VmRSS:"),
        Ok(55)
    );
    let missing = memory_kilobytes("Rss: 1", "Pss:").unwrap_err();
    assert_eq!(missing, MemoryFault::Missing);
    assert_eq!(missing.message("Pss"), "Pss is missing");
    let empty = memory_kilobytes("Pss:  ", "Pss:").unwrap_err();
    assert_eq!(empty, MemoryFault::Empty);
    assert_eq!(empty.message("Pss"), "Pss is empty");
    let invalid = memory_kilobytes("Pss: x kB", "Pss:").unwrap_err();
    assert_eq!(invalid, MemoryFault::Invalid);
    assert_eq!(invalid.message("Pss"), "invalid Pss");
    assert_eq!(kilobytes_to_bytes(3), 3072);
}

#[test]
fn control_groups_are_found() {
    assert_eq!(
        process_cgroup("1:name=x:/a\n0::/user.slice/x.scope\n").unwrap(),
        "/sys/fs/cgroup/user.slice/x.scope"
    );
    assert_eq!(process_cgroup("1:name=x:/a\n"), None);
    assert_eq!(
        scope_cgroup(" //a/b.scope \n").unwrap(),
        "/sys/fs/cgroup/a/b.scope"
    );
    assert_eq!(scope_cgroup(" \n"), None);
    assert!(cgroup_populated("frozen 0\npopulated  1\n"));
    assert!(!cgroup_populated("populated 0\nfrozen 1\n"));
    assert!(!cgroup_populated("populated 1 1\n"));
    assert_eq!(path_name("/a/b/"), Some("b".to_string()));
    assert_eq!(path_name("/a/./b//."), Some("b".to_string()));
    assert_eq!(path_name("/a/.."), None);
    assert_eq!(path_name("/"), None);
    assert!(is_cgroup_of("/sys/fs/cgroup/x.scope", "x.scope"));
    assert!(!is_cgroup_of("/sys/fs/cgroup/x.scope/y", "x.scope"));
    let own = Some("/sys/fs/cgroup/winkeeper-tool-1-2.scope".to_string());
    assert_eq!(managed_cgroup(own.clone()), own);
    assert_eq!(managed_cgroup(Some("/sys/fs/cgroup/other".to_string())), None);
    assert_eq!(managed_cgroup(None), None);
}

#[test]
fn processes_are_shown_by_their_command_lines() {
    let name = |raw: &str| process_name("prog".to_string(), Some(raw.to_string()));
    assert_eq!(name("a\0b c\0\0"), "a b c");
    assert_eq!(name("\0a\0"), " a");
    assert_eq!(name("\0\0"), "prog");
    assert_eq!(name(""), "prog");
    assert_eq!(process_name("prog".to_string(), None), "prog");
}

fn record(pid: u32, parent_pid: u32, group: u32, cgroup: &str) -> ProcessRecord {
    ProcessRecord {
        pid,
        parent_pid,
        program: format!("p{pid}"),
        group,
        cgroup: Some(cgroup.to_string()),
        command_line: Some(format!("/bin/p{pid}\0--x\0").into_bytes()),
    }
}

#[test]
fn members_of_the_group_and_the_scope_are_shown() {
    let scope = "/sys/fs/cgroup/winkeeper-tool-1-1.scope";
    let mut records = vec![
        record(10, 1, 10, scope),
        record(11, 10, 55, "/elsewhere"),
        record(12, 1, 10, "/elsewhere"),
        record(13, 1, 77, "/sys/fs/cgroup/winkeeper-tool-1-1.scope/inner"),
        record(14, 1, 77, "/sys/fs/cgroup/winkeeper-tool-1-1.scope2"),
    ];
    records[1].command_line = None;
    let shape = |cgroup: Option<String>| {
        process_tree(10, 10, &cgroup, &records)
            .iter()
            .map(|info| (info.pid, info.depth, info.name.clone()))
            .collect::<Vec<_>>()
    };
    let named = |pid: u32, depth: usize| (pid, depth, format!("/bin/p{pid} --x"));
    assert_eq!(
        shape(Some(scope.to_string())),
        vec![
            named(10, 0),
            (11, 1, "p11".to_string()),
            named(12, 1),
            named(13, 1)
        ]
    );
    assert_eq!(
        shape(None),
        vec![named(10, 0), (11, 1, "p11".to_string()), named(12, 1)]
    );
}

#[test]
fn files_that_can_be_run_are_told_by_their_mode() {
    assert!(is_executable(true, 0o100755));
    assert!(is_executable(true, 0o001));
    assert!(!is_executable(true, 0o644));
    assert!(!is_executable(false, 0o755));
}
