use win_keeper::config::{configured_chinese, AppConfig, ConfigError, ManagerConfig, ToolConfig};

fn tool(name: &str, command: &str) -> ToolConfig {
    ToolConfig {
        name: name.to_string(),
        command: command.to_string(),
        ..ToolConfig::default()
    }
}

fn with_tools(tools: Vec<ToolConfig>) -> AppConfig {
    AppConfig {
        manager: ManagerConfig::default(),
        tools,
    }
}

fn refusal(config: &AppConfig) -> String {
    let verdict: Result<(), ConfigError> = config.validate();
    verdict.unwrap_err().message()
}

#[test]
fn configured_language_accepts_common_locales() {
    assert_eq!(configured_chinese("zh_CN"), Some(true));
    assert_eq!(configured_chinese("zh-CN"), Some(true));
    assert_eq!(configured_chinese("en_US"), Some(false));
    assert_eq!(configured_chinese("en-US"), Some(false));
    assert_eq!(configured_chinese("C.UTF-8"), None);
}

#[test]
fn configured_language_ignores_case_and_blanks() {
    assert_eq!(configured_chinese("  ZH.utf8\n"), Some(true));
    assert_eq!(configured_chinese("EN"), Some(false));
    assert_eq!(configured_chinese("zho"), None);
    assert_eq!(configured_chinese(""), None);
    assert_eq!(configured_chinese("_zh"), None);
}

#[test]
fn rejects_unbounded_resource_and_restart_values() {
    let mut config = AppConfig::default();
    config.manager.log_buffer_bytes = 0;
    assert!(config.validate().is_err());

    let mut config = AppConfig::default();
    config.manager.stop_timeout_ms = u64::MAX;
    assert!(config.validate().is_err());

    let mut config = AppConfig::default();
    config.tools.push(ToolConfig {
        name: "worker".into(),
        command: "worker".into(),
        restart_window_seconds: 0,
        ..ToolConfig::default()
    });
    assert!(config.validate().is_err());
}

#[test]
fn default_values_are_the_documented_ones() {
    let manager = ManagerConfig::default();
    assert_eq!(manager.lang, None);
    assert!(manager.start_with_system);
    assert!(manager.minimize_to_tray);
    assert_eq!(manager.log_buffer_lines, 10_000);
    assert_eq!(manager.log_buffer_bytes, 2 * 1024 * 1024);
    assert_eq!(manager.log_file_max_bytes, 10 * 1024 * 1024);
    assert_eq!(manager.log_line_max_bytes, 64 * 1024);
    assert_eq!(manager.stop_timeout_ms, 30_000);
    let worker = ToolConfig::default();
    assert!(worker.auto_restart);
    assert!(!worker.auto_start);
    assert!(!worker.admin);
    assert_eq!(worker.restart_delay_ms, 3_000);
    assert_eq!(worker.max_restart_count, 5);
    assert_eq!(worker.restart_window_seconds, 60);
    assert!(AppConfig::default().tools.is_empty());
    assert!(AppConfig::default().validate().is_ok());
}

#[test]
fn every_manager_fault_is_named() {
    let mut config = AppConfig::default();
    config.manager.lang = Some("fr_FR".to_string());
    assert_eq!(
        refusal(&config),
        "manager.lang must be an English or Chinese locale, such as 'en' or 'zh_CN'"
    );
    let mut config = AppConfig::default();
    config.manager.log_buffer_lines = 100_001;
    assert_eq!(
        refusal(&config),
        "manager.log_buffer_lines must be between 1 and 100000"
    );
    let mut config = AppConfig::default();
    config.manager.log_buffer_bytes = 64 * 1024 * 1024 + 1;
    assert_eq!(
        refusal(&config),
        "manager.log_buffer_bytes must be between 1 and 67108864"
    );
    let mut config = AppConfig::default();
    config.manager.log_file_max_bytes = 0;
    assert_eq!(
        refusal(&config),
        "manager.log_file_max_bytes must be between 1 and 1073741824"
    );
    let mut config = AppConfig::default();
    config.manager.log_line_max_bytes = 1024 * 1024 + 1;
    assert_eq!(
        refusal(&config),
        "manager.log_line_max_bytes must be between 1 and 1048576"
    );
    let mut config = AppConfig::default();
    config.manager.log_line_max_bytes = 1_000;
    config.manager.log_file_max_bytes = 1_255;
    assert_eq!(
        refusal(&config),
        "manager.log_file_max_bytes must be at least log_line_max_bytes + 256"
    );
    config.manager.log_file_max_bytes = 1_256;
    assert!(config.validate().is_ok());
    let mut config = AppConfig::default();
    config.manager.stop_timeout_ms = 99;
    assert_eq!(
        refusal(&config),
        "manager.stop_timeout_ms must be between 100 and 300000"
    );
}

#[test]
fn every_tool_fault_is_named() {
    assert_eq!(
        refusal(&with_tools(vec![tool(" \t", "x")])),
        "tool name cannot be empty"
    );
    assert_eq!(
        refusal(&with_tools(vec![tool("a", "  ")])),
        "tool 'a' command cannot be empty"
    );
    let mut quiet = tool("a", "x");
    quiet.graceful_stop_command = Some(" ".to_string());
    assert_eq!(
        refusal(&with_tools(vec![quiet])),
        "tool 'a' graceful_stop_command cannot be empty"
    );
    let mut alone = tool("a", "x");
    alone.graceful_stop_args = vec!["-q".to_string()];
    assert_eq!(
        refusal(&with_tools(vec![alone])),
        "tool 'a' graceful_stop_args requires graceful_stop_command"
    );
    assert_eq!(
        refusal(&with_tools(vec![tool("Ärger", "x"), tool("äRGER", "y")])),
        "duplicate tool name: äRGER"
    );
    let mut many = tool("a", "x");
    many.max_restart_count = 1_001;
    assert_eq!(
        refusal(&with_tools(vec![many])),
        "tool 'a' max_restart_count must be between 1 and 1000"
    );
    let mut slow = tool("a", "x");
    slow.restart_delay_ms = 86_400_001;
    assert_eq!(
        refusal(&with_tools(vec![slow])),
        "tool 'a' restart_delay_ms cannot exceed 86400000"
    );
    let mut wide = tool("a", "x");
    wide.restart_window_seconds = 86_401;
    assert_eq!(
        refusal(&with_tools(vec![wide])),
        "tool 'a' restart_window_seconds must be between 1 and 86400"
    );
}

#[test]
fn tools_with_different_names_are_accepted() {
    assert!(with_tools(vec![tool("a", "x"), tool("b", "x")]).validate().is_ok());
}

#[test]
fn folded_names_decide_on_duplicates() {
    let config = with_tools(vec![tool("a", "x"), tool("b", "x")]);
    let same = vec!["same".to_string(), "same".to_string()];
    assert_eq!(
        config.validate_folded(&same).unwrap_err().message(),
        "duplicate tool name: b"
    );
    let own = vec!["a".to_string(), "b".to_string()];
    assert!(config.validate_folded(&own).is_ok());
}

#[test]
fn the_elevated_helper_gets_its_tools_idle() {
    let mut first = tool("first", "x");
    first.admin = true;
    first.auto_start = true;
    let config = with_tools(vec![tool("plain", "x"), first]);
    let helper = config.for_elevated_helper().unwrap();
    assert_eq!(helper.tools.len(), 1);
    assert_eq!(helper.tools[0].name, "first");
    assert!(!helper.tools[0].admin);
    assert!(!helper.tools[0].auto_start);
    assert!(with_tools(vec![tool("plain", "x")])
        .for_elevated_helper()
        .is_none());
}

#[test]
fn tools_can_be_taken_out_and_put_in_another_order() {
    assert!(with_tools(vec![tool("a", "x"), tool("b", "y"), tool("c", "z")])
        .validate()
        .is_ok());
    assert!(with_tools(vec![tool("c", "z"), tool("a", "x")]).validate().is_ok());
}
