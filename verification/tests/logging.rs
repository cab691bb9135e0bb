use win_keeper::launch::Platform;
use win_keeper::logging::{
    backup_file_name, format_line, legacy_tool_log_file_name, line_text, output_line,
    tool_log_file_name, FileStep, ToolLog,
};
use win_keeper::text::truncate_utf8;
use win_keeper::time::{short_stamp, stamp, MAX_UNIX_MS, MIN_UNIX_MS};

fn log() -> ToolLog {
    ToolLog::new(Platform::Linux, "/logs".as_bytes(), "worker", 10, 48, 120, 16, 0)
}

/// Writes a line as a file that is never refused would take it.
fn write(log: &mut ToolLog, file: &mut u64, backups: &mut usize, line: &str) {
    let mut step = log.write(line);
    loop {
        match step {
            FileStep::Open => step = log.opened(*file, line),
            FileStep::Rotate => {
                log.closed();
                *file = 0;
                *backups += 1;
                step = log.rotated(0, true);
            }
            FileStep::Write => {
                *file += line.len() as u64 + 1;
                log.written(line);
                break;
            }
            FileStep::GiveUp => panic!("nothing fails here"),
        }
    }
    log.push(line.to_string());
}

#[test]
fn distinct_names_cannot_share_a_log_file() {
    assert_ne!(tool_log_file_name("中文"), tool_log_file_name("??"));
    assert_ne!(
        tool_log_file_name("win-keeper-manager"),
        "win-keeper-manager.log"
    );
}

#[test]
fn plain_names_are_kept() {
    assert_eq!(tool_log_file_name("Work-er_1"), "Work-er_1.log");
    assert_eq!(tool_log_file_name(""), "tool-cbf29ce484222325.log");
    assert!(tool_log_file_name("WIN-Keeper-manager").starts_with("win-keeper-manager-"));
    let long = tool_log_file_name(&" ".repeat(100));
    assert_eq!(long.len(), 64 + 1 + 16 + 4);
    assert_eq!(legacy_tool_log_file_name("a? ü"), "a___.log");
    assert_eq!(backup_file_name("a.log"), "a.log.1");
}

#[test]
fn only_unambiguous_former_logs_get_new_names() {
    let names = ["Unique Name", "a?", "a!", "plain", "<manager>"].map(String::from);
    let renames = ToolLog::migrate_legacy_logs(&names.to_vec());
    assert_eq!(
        renames,
        vec![(
            "Unique_Name.log".to_string(),
            tool_log_file_name("Unique Name")
        )]
    );
    let manager = vec!["win-keeper-manager".to_string()];
    assert!(ToolLog::migrate_legacy_logs(&manager).is_empty());
}

#[test]
fn long_lines_are_cut_between_characters() {
    assert_eq!(truncate_utf8("abc", 3), ("abc".to_string(), false));
    assert_eq!(truncate_utf8("abcd", 3), ("abc".to_string(), true));
    assert_eq!(truncate_utf8("aü…😀", 2), ("a".to_string(), true));
    assert_eq!(truncate_utf8("aü…😀", 3), ("aü".to_string(), true));
    assert_eq!(truncate_utf8("aü…😀", 9), ("aü…".to_string(), true));
    assert_eq!(truncate_utf8("aü…😀", 10), ("aü…😀".to_string(), false));
    assert_eq!(truncate_utf8("ü", 0), (String::new(), true));
}

#[test]
fn lines_are_stamped_and_marked() {
    assert_eq!(
        format_line("T", "stdout", "abcdef", 4),
        "T [stdout] abcd …[truncated]"
    );
    assert_eq!(format_line("T", "stderr", "", 4), "T [stderr] ");
    assert_eq!(
        log().line(1_700_000_000_123, 3_600, "stdout", "x"),
        "2023-11-14 23:13:20.123 [stdout] x"
    );
}

#[test]
fn stamps_are_in_local_time() {
    assert_eq!(stamp(0, 0), "1970-01-01 00:00:00.000");
    assert_eq!(stamp(-1, 0), "1969-12-31 23:59:59.999");
    assert_eq!(stamp(1_700_000_000_007, -5 * 3_600), "2023-11-14 17:13:20.007");
    assert_eq!(short_stamp(1_700_000_000_999, 0), "2023-11-14 22:13:20");
}

#[test]
fn stamps_exist_for_all_dates() {
    assert_eq!(stamp(MAX_UNIX_MS, 0), "+262142-12-31 23:59:59.999");
    assert_eq!(stamp(MIN_UNIX_MS, 0), "-262143-01-01 00:00:00.000");
    assert!(!stamp(MAX_UNIX_MS, 86_399).is_empty());
    assert!(!stamp(MIN_UNIX_MS, -86_399).is_empty());
}

#[test]
fn output_is_read_line_by_line() {
    assert_eq!(output_line(b"abc\r\n"), "abc");
    assert_eq!(output_line(b"a\n\r\r\n"), "a");
    assert_eq!(output_line(b"a\xff\n"), "a\u{fffd}");
    assert_eq!(line_text("\n"), "");
    assert_eq!(
        ToolLog::source_lines("a\r\nb\n\nc"),
        vec!["a", "b", "", "c"]
    );
    assert!(ToolLog::source_lines("").is_empty());
}

#[test]
fn memory_and_file_stay_within_their_bounds() {
    let mut log = log();
    let mut file = 0;
    let mut backups = 0;
    assert_eq!(log.max_line_bytes(), 16);
    assert_eq!(log.path(), &b"/logs/worker.log".to_vec());
    let first = log.line(0, 0, "stdout", "abcdefghijklmnopqrstuvwxyz");
    assert_eq!(
        first,
        "1970-01-01 00:00:00.000 [stdout] abcdefghijklmnop …[truncated]"
    );
    write(&mut log, &mut file, &mut backups, &first);
    assert_eq!(log.snapshot(), "");
    for index in 0..8 {
        let line = log.line(0, 0, "stdout", &format!("message-{index}"));
        write(&mut log, &mut file, &mut backups, &line);
        assert!(file <= 120);
        assert!(log.snapshot().len() <= 48);
    }
    assert!(backups > 0);
    assert_eq!(
        log.snapshot(),
        "1970-01-01 00:00:00.000 [stdout] message-7"
    );
}

#[test]
fn the_oldest_lines_leave_first() {
    let mut log = ToolLog::new_manager(Platform::Linux, b"/l", 3, 100, 1_000, 100, 0);
    assert_eq!(log.path(), &b"/l/win-keeper-manager.log".to_vec());
    for line in ["a", "b", "c", "d"] {
        log.push(line.to_string());
    }
    assert_eq!(log.snapshot(), "b\nc\nd");
    log.push("x".repeat(98));
    assert_eq!(log.snapshot(), format!("c\nd\n{}", "x".repeat(98)));
    log.push("y".repeat(101));
    assert_eq!(log.snapshot(), "");
}

#[test]
fn a_failure_is_reported_once() {
    let mut log = log();
    assert!(log.failed());
    assert!(!log.failed());
    log.written("x");
    assert!(log.failed());
}

#[test]
fn a_file_that_cannot_be_set_aside_is_not_written() {
    let mut log = ToolLog::new(Platform::Linux, b"/l", "a", 10, 100, 20, 100, 19);
    assert_eq!(log.write("xy"), FileStep::Rotate);
    log.closed();
    assert_eq!(log.write("xy"), FileStep::Open);
    assert_eq!(log.opened(17, "xy"), FileStep::Write);
    assert_eq!(log.opened(18, "xy"), FileStep::Rotate);
    assert_eq!(log.rotated(18, false), FileStep::GiveUp);
    assert_eq!(log.rotated(0, true), FileStep::Write);
}

#[test]
fn the_end_of_a_foreign_file_is_shown() {
    let mut log = ToolLog::new(Platform::Linux, b"/l", "a", 2, 100, 20, 100, 0);
    assert_eq!(log.snapshot_external(10), Some(0));
    log.external_read(10, 0, b"one\ntwo\r\nthree\n");
    assert_eq!(log.snapshot(), "two\nthree");
    assert_eq!(log.snapshot_external(10), None);
    assert_eq!(log.snapshot_external(11), Some(0));
    assert_eq!(
        log.snapshot_external(2 * 1024 * 1024 + 5),
        Some(5)
    );
    log.external_text(11, 5, "rest of a line\nfour\nfive");
    assert_eq!(log.snapshot(), "four\nfive");
    log.external_text(12, 5, "no whole line");
    assert_eq!(log.snapshot(), "");
    log.rotated(0, true);
    assert_eq!(log.snapshot_external(12), Some(0));
}

#[test]
fn a_file_without_a_bound_is_never_set_aside() {
    let mut log = ToolLog::new(Platform::Linux, b"/l", "a", 10, 100, u64::MAX, 100, u64::MAX - 1);
    assert_eq!(log.write("xy"), FileStep::Write);
    log.written("xy");
    assert_eq!(log.write("xy"), FileStep::Write);
    let mut bounded = ToolLog::new(Platform::Linux, b"/l", "a", 10, 100, u64::MAX - 1, 100, u64::MAX - 1);
    assert_eq!(bounded.write("xy"), FileStep::Rotate);
    bounded.closed();
    assert_eq!(bounded.rotated(0, true), FileStep::Write);
}

#[test]
fn a_log_lies_in_its_directory() {
    let path = |platform, directory: &[u8]| {
        let log = ToolLog::new(platform, directory, "a", 1, 1, 1, 1, 0);
        String::from_utf8(log.path().clone()).unwrap()
    };
    assert_eq!(path(Platform::Linux, b"/l"), "/l/a.log");
    assert_eq!(path(Platform::Windows, b"C:\\l"), "C:\\l\\a.log");
    assert_eq!(path(Platform::Windows, b"C:\\"), "C:\\a.log");
}

#[test]
fn no_line_is_longer_than_its_room() {
    let log = log();
    for time in [MIN_UNIX_MS, 0, MAX_UNIX_MS] {
        for offset in [-86_399, 86_399] {
            assert!(stamp(time, offset).len() <= 26);
            assert!(short_stamp(time, offset).len() <= 26);
        }
        let line = log.line(time, 0, &"c".repeat(210), &"x".repeat(99));
        assert!(line.len() < 16 + 256);
    }
    assert_eq!(stamp(MAX_UNIX_MS, 0).len(), 26);
}
