use win_keeper::launch::Platform;
use win_keeper::process::ProcessInfo;
use win_keeper::supervisor::ToolSnapshot;
use win_keeper::tool::{MemoryValue, ToolState};
use win_keeper::ui::{
    fault_panel, format_memory, format_process_tree, format_tool_timing, format_uptime, is_chinese_locale,
    locale_is_chinese, manager_row, memory_refreshing, process_tree_title, row_from_snapshot, rows,
    select_hint, selected_tool, summary, timing_text, tr, tree_panel, waiting_panel, Color, Inspection,
    LogRefreshCache, StateRefreshCache,
};

#[test]
fn recognizes_chinese_locale_variants() {
    for locale in ["zh", "zh_CN", "zh-CN", "zh.UTF-8"] {
        assert!(locale_is_chinese(locale), "{locale}");
    }
    assert!(!locale_is_chinese("en_US.UTF-8"));
    assert!(!locale_is_chinese("C.UTF-8"));
}

#[test]
fn any_locale_of_the_environment_counts() {
    let values = |list: &[&str]| list.iter().map(|value| value.to_string()).collect();
    assert!(is_chinese_locale(&values(&["en:fr", "de: ZH_tw:en"])));
    assert!(!is_chinese_locale(&values(&["en:fr", "zhx"])));
    assert!(!is_chinese_locale(&Vec::new()));
    assert_eq!(tr(true, "a", "b"), "b");
    assert_eq!(tr(false, "a", "b"), "a");
}

/// What the formula gives in floating point.
fn in_floats(bytes: u64) -> String {
    let size = bytes as f64;
    if size >= 1073741824.0 {
        format!("{:.2} GB", size / 1073741824.0)
    } else if size >= 1048576.0 {
        format!("{:.1} MB", size / 1048576.0)
    } else if size >= 1024.0 {
        format!("{:.1} KB", size / 1024.0)
    } else {
        format!("{} B", size as u64)
    }
}

#[test]
fn memory_is_shown_in_the_largest_unit() {
    let shown = |bytes| format_memory(MemoryValue::Bytes(bytes), false);
    assert_eq!(shown(0), "0 B");
    assert_eq!(shown(1023), "1023 B");
    assert_eq!(shown(1024), "1.0 KB");
    assert_eq!(shown(1536), "1.5 KB");
    assert_eq!(shown(1048575), "1024.0 KB");
    assert_eq!(shown(1048576), "1.0 MB");
    assert_eq!(shown(1073741824), "1.00 GB");
    assert_eq!(shown(u64::MAX), "17179869184.00 GB");
    assert_eq!(format_memory(MemoryValue::Idle, true), "-");
    assert_eq!(format_memory(MemoryValue::Pending, false), "Querying...");
    assert_eq!(format_memory(MemoryValue::Pending, true), "查询中...");
    assert_eq!(format_memory(MemoryValue::Unavailable, false), "N/A");
    assert_eq!(format_memory(MemoryValue::Unavailable, true), "不可用");
}

#[test]
fn memory_is_rounded_as_floats_are() {
    let mut bytes: u64 = 0;
    while bytes < 4096 {
        assert_eq!(
            format_memory(MemoryValue::Bytes(bytes), false),
            in_floats(bytes)
        );
        bytes += 1;
    }
    let mut seed: u64 = 1;
    for shift in 0..64 {
        for _ in 0..200 {
            seed = seed
                .wrapping_mul(6364136223846793005)
                .wrapping_add(1442695040888963407);
            let bytes = seed >> shift;
            assert_eq!(
                format_memory(MemoryValue::Bytes(bytes), false),
                in_floats(bytes),
                "{bytes}"
            );
        }
    }
    for unit in [1024_u64, 1048576, 1073741824] {
        for part in 0..400 {
            let bytes = unit + part * (unit / 256);
            assert_eq!(
                format_memory(MemoryValue::Bytes(bytes), false),
                in_floats(bytes),
                "{bytes}"
            );
        }
    }
    for power in 53..64 {
        for near in [-3_i64, -2, -1, 0, 1, 2, 3] {
            for base in [1_u64 << power, 3 << (power - 1)] {
                let bytes = base.wrapping_add_signed(near);
                assert_eq!(
                    format_memory(MemoryValue::Bytes(bytes), false),
                    in_floats(bytes),
                    "{bytes}"
                );
            }
        }
    }
}

fn process(pid: u32, parent_pid: u32, depth: usize, memory: Option<u64>) -> ProcessInfo {
    ProcessInfo {
        pid,
        parent_pid,
        depth,
        name: format!("p{pid}"),
        memory_bytes: memory,
    }
}

#[test]
fn process_trees_are_shown_as_text() {
    let tree = vec![
        process(10, 1, 0, Some(2048)),
        process(1234567, 10, 1, None),
        process(12345678, 1234567, 3, Some(1048576)),
    ];
    assert_eq!(
        format_process_tree(&tree, false, Platform::Linux),
        "Processes: 3    Total PSS: 1.0 MB\n\n\
         PID     PPID    PSS         PROCESS\n\
         10      1           2.0 KB    p10\n\
         1234567 10             N/A    └─ p1234567\n\
         12345678 1234567     1.0 MB          └─ p12345678\n"
    );
    let heading = format_process_tree(&tree, true, Platform::Windows);
    assert!(heading.starts_with("进程数：3    Private 合计：1.0 MB\n\nPID     PPID    Private     进程\n"));
    assert!(heading.contains("       不可用    └─ p1234567\n"));
    let none = Vec::new();
    assert_eq!(
        format_process_tree(&none, false, Platform::Linux),
        "The process has exited."
    );
    assert_eq!(
        format_process_tree(&none, true, Platform::Linux),
        "进程已退出。"
    );
    assert_eq!(process_tree_title("a", false), "a — Process Tree");
    assert_eq!(process_tree_title("a", true), "a — 进程树");
}

#[test]
fn times_are_shown_as_text() {
    assert_eq!(format_uptime(59, false), "0m");
    assert_eq!(format_uptime(3_600, false), "1h 0m");
    assert_eq!(format_uptime(86_399, false), "23h 59m");
    assert_eq!(format_uptime(86_400 + 61, false), "1d 0h 1m");
    assert_eq!(format_uptime(90_061, true), "1天 1小时 1分钟");
    assert_eq!(
        timing_text("T", 60, false),
        "Started: T  ·  Uptime: 1m"
    );
    assert_eq!(
        format_tool_timing(1_700_000_000_500, 1_700_000_060_499, 3_600, true),
        "启动：2023-11-14 23:13:20  ·  运行：0分钟"
    );
    assert_eq!(
        format_tool_timing(1_700_000_000_500, 1_700_000_060_500, 0, false),
        "Started: 2023-11-14 22:13:20  ·  Uptime: 1m"
    );
    assert!(format_tool_timing(5, 0, 0, false).ends_with("Uptime: 0m"));
}

fn snapshot(state: ToolState) -> ToolSnapshot {
    let mut snapshot = ToolSnapshot::stopped("t".to_string());
    snapshot.state = state;
    snapshot
}

#[test]
fn rows_show_tools() {
    let states = [
        (ToolState::Stopped, "Stopped", "已停止", (116, 131, 145)),
        (ToolState::Starting, "Starting", "启动中", (241, 167, 58)),
        (ToolState::Running, "Running", "运行中", (55, 190, 142)),
        (ToolState::Stopping, "Stopping", "停止中", (241, 167, 58)),
        (ToolState::Restarting, "Restarting", "重启中", (241, 167, 58)),
        (ToolState::Crashed, "Crashed", "已崩溃", (239, 93, 89)),
    ];
    for (state, english, chinese, (red, green, blue)) in states {
        let row = row_from_snapshot(&snapshot(state), false);
        assert_eq!(row.status, english);
        assert_eq!(row.accent, Color { red, green, blue });
        assert_eq!(row_from_snapshot(&snapshot(state), true).status, chinese);
    }
    let mut shown = snapshot(ToolState::Running);
    shown.pid = Some(u32::MAX);
    shown.restart_count = 3;
    shown.memory = MemoryValue::Bytes(5);
    let row = row_from_snapshot(&shown, false);
    assert_eq!(row.name, "t");
    assert_eq!(row.pid, -1);
    assert_eq!(row.restart_count, 3);
    assert_eq!(row.memory, "5 B");
    assert!(!row.manager);
    assert_eq!(row_from_snapshot(&snapshot(ToolState::Stopped), false).pid, 0);
    let own = manager_row(MemoryValue::Pending, 9, true);
    assert_eq!(own.name, "工具管理器");
    assert_eq!(own.status, "运行中");
    assert_eq!(own.memory, "查询中...");
    assert_eq!(own.pid, 9);
    assert!(own.manager);
    assert_eq!(manager_row(MemoryValue::Idle, 9, false).name, "Tool Manager");
    let mut other = snapshot(ToolState::Crashed);
    other.name = "u".to_string();
    let table = rows(&vec![shown, other], MemoryValue::Idle, 9, false);
    let names: Vec<&str> = table.iter().map(|row| row.name.as_str()).collect();
    assert_eq!(names, ["t", "u", "Tool Manager"]);
    assert!(table[2].manager && !table[1].manager);
    assert_eq!(table[1].status, "Crashed");
}

#[test]
fn tools_are_counted() {
    let tools = vec![
        snapshot(ToolState::Running),
        snapshot(ToolState::Crashed),
        snapshot(ToolState::Running),
    ];
    assert_eq!(summary(&tools, false), "2 running  /  3 total  /  1 attention");
    assert_eq!(summary(&tools, true), "2 个运行中  /  共 3 个  /  1 个需关注");
    assert!(!memory_refreshing(&tools, MemoryValue::Idle));
    assert!(memory_refreshing(&tools, MemoryValue::Pending));
    let mut asked = tools;
    asked[1].memory = MemoryValue::Pending;
    assert!(memory_refreshing(&asked, MemoryValue::Idle));
}

#[test]
fn the_table_is_shown_anew_when_it_changes() {
    let tools = || vec![snapshot(ToolState::Running)];
    let mut cache = StateRefreshCache::new();
    assert!(cache.is_stale(&Vec::new(), MemoryValue::Idle));
    cache.store(tools(), MemoryValue::Idle);
    assert!(!cache.is_stale(&tools(), MemoryValue::Idle));
    assert!(cache.is_stale(&tools(), MemoryValue::Pending));
    assert!(cache.is_stale(&vec![snapshot(ToolState::Crashed)], MemoryValue::Idle));
}

#[test]
fn the_log_is_shown_anew_when_it_changes() {
    let mut cache = LogRefreshCache::new();
    let mut shown = |selected, started, text: &str| {
        let refresh = cache.refresh(selected, started, text);
        (refresh.timing, refresh.text)
    };
    assert_eq!(shown(-1, None, ""), (true, true));
    assert_eq!(shown(-1, None, ""), (false, false));
    assert_eq!(shown(-1, None, "x"), (false, true));
    assert_eq!(shown(0, None, "x"), (true, true));
    assert_eq!(shown(0, Some(1), "x"), (true, false));
    assert_eq!(shown(0, Some(1), "x"), (false, false));
}

#[test]
fn a_selection_names_a_tool() {
    assert_eq!(selected_tool(-1, 3), None);
    assert_eq!(selected_tool(0, 0), None);
    assert_eq!(selected_tool(2, 3), Some(2));
    assert_eq!(selected_tool(3, 3), None);
    assert_eq!(
        select_hint(false),
        "Select a tool to inspect its live output."
    );
    assert_eq!(select_hint(true), "选择一个工具以查看实时输出。");
}

#[test]
fn only_the_last_look_is_answered() {
    let mut inspection = Inspection::new();
    assert_eq!(inspection.begin(-1), None);
    assert_eq!(inspection.begin(3), Some((3, 1)));
    assert!(inspection.is_current(1));
    assert_eq!(inspection.begin(0), Some((0, 2)));
    assert!(!inspection.is_current(1));
    let waiting = waiting_panel(true);
    assert_eq!(waiting.title, "进程树");
    assert_eq!(waiting.text, "");
    assert!(waiting.loading && waiting.visible);
    let shown = tree_panel("a", &Vec::new(), false, Platform::Linux, true);
    assert_eq!(shown.title, "a — Process Tree");
    assert_eq!(shown.text, "The process has exited.");
    assert!(!shown.loading && shown.visible);
    assert!(!tree_panel("a", &Vec::new(), false, Platform::Linux, false).visible);
    let fault = fault_panel("gone", false, false);
    assert_eq!(fault.title, "Process tree unavailable");
    assert_eq!(fault.text, "gone");
    assert!(!fault.loading && !fault.visible);
    assert!(fault_panel("gone", false, true).visible);
}
