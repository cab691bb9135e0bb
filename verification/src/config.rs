//! The configuration of the manager and of the tools that it keeps running.
use vstd::prelude::*;
use vstd::slice::slice_subrange;
use crate::text::{chars_of, lower_of, same_text, text_of, trimmed};
#[allow(unused_imports)]
use crate::text::{ascii_lowercase, first_where, lemma_first_where_is, lowercase, texts, trim};

verus! {

pub const MAX_LOG_BUFFER_LINES: usize = 100_000;

pub const MAX_LOG_BUFFER_BYTES: usize = 64 * 1024 * 1024;

pub const MAX_LOG_FILE_BYTES: u64 = 1024 * 1024 * 1024;

pub const MAX_LOG_LINE_BYTES: usize = 1024 * 1024;

/// The room that a log file keeps beside its longest line.
pub const LOG_LINE_OVERHEAD: u64 = 256;

pub const MIN_STOP_TIMEOUT_MS: u64 = 100;

pub const MAX_STOP_TIMEOUT_MS: u64 = 5 * 60 * 1_000;

pub const MAX_RESTART_DELAY_MS: u64 = 24 * 60 * 60 * 1_000;

pub const MAX_RESTART_WINDOW_SECONDS: u64 = 24 * 60 * 60;

pub const MAX_RESTART_COUNT: usize = 1_000;

/// The whole configuration.
#[derive(Clone, Debug)]
pub struct AppConfig {
    pub manager: ManagerConfig,
    pub tools: Vec<ToolConfig>,
}

/// The settings of the manager itself.
#[derive(Clone, Debug)]
pub struct ManagerConfig {
    pub lang: Option<String>,
    pub start_with_system: bool,
    pub minimize_to_tray: bool,
    pub log_buffer_lines: usize,
    pub log_buffer_bytes: usize,
    pub log_file_max_bytes: u64,
    pub log_line_max_bytes: usize,
    pub stop_timeout_ms: u64,
}

/// The settings of one tool.
#[derive(Clone, Debug)]
pub struct ToolConfig {
    pub name: String,
    pub command: String,
    pub args: Vec<String>,
    pub workdir: Option<String>,
    pub graceful_stop_command: Option<String>,
    pub graceful_stop_args: Vec<String>,
    pub admin: bool,
    pub auto_start: bool,
    pub auto_restart: bool,
    pub restart_delay_ms: u64,
    pub max_restart_count: usize,
    pub restart_window_seconds: u64,
}

impl Default for AppConfig {
    fn default() -> (config: Self)
        ensures
            is_default_manager(config.manager),
            config.tools@.len() == 0,
    {
        AppConfig { manager: ManagerConfig::default(), tools: Vec::new() }
    }
}

/// The settings of a manager that nobody has configured.
pub open spec fn is_default_manager(config: ManagerConfig) -> bool {
    &&& config.lang is None
    &&& config.start_with_system
    &&& config.minimize_to_tray
    &&& config.log_buffer_lines == 10_000
    &&& config.log_buffer_bytes == 2 * 1024 * 1024
    &&& config.log_file_max_bytes == 10 * 1024 * 1024
    &&& config.log_line_max_bytes == 64 * 1024
    &&& config.stop_timeout_ms == 30_000
}

impl Default for ManagerConfig {
    fn default() -> (config: Self)
        ensures
            is_default_manager(config),
    {
        ManagerConfig {
            lang: None,
            start_with_system: true,
            minimize_to_tray: true,
            log_buffer_lines: 10_000,
            log_buffer_bytes: 2 * 1024 * 1024,
            log_file_max_bytes: 10 * 1024 * 1024,
            log_line_max_bytes: 64 * 1024,
            stop_timeout_ms: 30_000,
        }
    }
}

impl Default for ToolConfig {
    fn default() -> (config: Self)
        ensures
            config.name@.len() == 0,
            config.command@.len() == 0,
            config.args@.len() == 0,
            config.workdir is None,
            config.graceful_stop_command is None,
            config.graceful_stop_args@.len() == 0,
            !config.admin,
            !config.auto_start,
            config.auto_restart,
            config.restart_delay_ms == 3_000,
            config.max_restart_count == 5,
            config.restart_window_seconds == 60,
    {
        ToolConfig {
            name: String::new(),
            command: String::new(),
            args: Vec::new(),
            workdir: None,
            graceful_stop_command: None,
            graceful_stop_args: Vec::new(),
            admin: false,
            auto_start: false,
            auto_restart: true,
            restart_delay_ms: 3_000,
            max_restart_count: 5,
            restart_window_seconds: 60,
        }
    }
}

// ---------------------------------------------------------------------------
// Language
// ---------------------------------------------------------------------------

/// The property of ending the language part of a locale.
pub open spec fn ends_language() -> spec_fn(char) -> bool {
    |c: char| c == '_' || c == '-' || c == '.'
}

/// The language part of a locale, in lower case: what stands before the first underscore,
/// hyphen or full stop.
pub open spec fn language_of(locale: Seq<char>) -> Seq<char> {
    let inner = trim(locale);
    ascii_lowercase(inner.take(first_where(inner, ends_language())))
}

/// Whether a locale asks for Chinese (`Some(true)`), for English (`Some(false)`) or for
/// neither.
pub open spec fn chinese_choice(locale: Seq<char>) -> Option<bool> {
    if language_of(locale) == "zh"@ {
        Some(true)
    } else if language_of(locale) == "en"@ {
        Some(false)
    } else {
        None
    }
}

/// Whether a configured language is Chinese, is English, or is none that is known.
pub fn configured_chinese(lang: &str) -> (choice: Option<bool>)
    ensures
        choice == chinese_choice(lang@),
{
    let chars = chars_of(lang);
    let inner = trimmed(chars.as_slice());
    let mut end: usize = 0;
    while end < inner.len() && inner[end] != '_' && inner[end] != '-' && inner[end] != '.'
        invariant
            end <= inner@.len(),
            forall|j: int| 0 <= j < end ==> !ends_language()(#[trigger] inner@[j]),
        decreases inner@.len() - end,
    {
        end += 1;
    }
    proof {
        lemma_first_where_is(inner@, ends_language(), end as int);
        assert(inner@.subrange(0, end as int) =~= inner@.take(end as int));
    }
    let lower = lower_of(slice_subrange(inner, 0, end));
    let language = text_of(lower.as_slice());
    if same_text(language.as_str(), "zh") {
        Some(true)
    } else if same_text(language.as_str(), "en") {
        Some(false)
    } else {
        None
    }
}

// ---------------------------------------------------------------------------
// Validation
// ---------------------------------------------------------------------------

/// What can be wrong with the settings of the manager.
#[derive(Clone, Copy, Debug, PartialEq, Eq, Structural)]
pub enum ManagerFault {
    Language,
    LogBufferLines,
    LogBufferBytes,
    LogFileMaxBytes,
    LogLineMaxBytes,
    LogFileBelowLine,
    StopTimeout,
}

/// What can be wrong with the settings of a tool.
#[derive(Clone, Copy, Debug, PartialEq, Eq, Structural)]
pub enum ToolFault {
    EmptyName,
    EmptyCommand,
    EmptyGracefulStopCommand,
    GracefulStopArgsAlone,
    DuplicateName,
    MaxRestartCount,
    RestartDelay,
    RestartWindow,
}

/// Why a configuration is refused.
#[derive(Clone, Debug)]
pub enum ConfigError {
    Manager(ManagerFault),
    Tool { name: String, fault: ToolFault },
}

/// The first fault in the settings of the manager.
pub open spec fn manager_fault(config: ManagerConfig) -> Option<ManagerFault> {
    if config.lang is Some && chinese_choice(config.lang->0@) is None {
        Some(ManagerFault::Language)
    } else if !(1 <= config.log_buffer_lines <= MAX_LOG_BUFFER_LINES) {
        Some(ManagerFault::LogBufferLines)
    } else if !(1 <= config.log_buffer_bytes <= MAX_LOG_BUFFER_BYTES) {
        Some(ManagerFault::LogBufferBytes)
    } else if !(1 <= config.log_file_max_bytes <= MAX_LOG_FILE_BYTES) {
        Some(ManagerFault::LogFileMaxBytes)
    } else if !(1 <= config.log_line_max_bytes <= MAX_LOG_LINE_BYTES) {
        Some(ManagerFault::LogLineMaxBytes)
    } else if config.log_file_max_bytes < config.log_line_max_bytes + LOG_LINE_OVERHEAD {
        Some(ManagerFault::LogFileBelowLine)
    } else if !(MIN_STOP_TIMEOUT_MS <= config.stop_timeout_ms <= MAX_STOP_TIMEOUT_MS) {
        Some(ManagerFault::StopTimeout)
    } else {
        None
    }
}

/// Whether a text holds nothing but white space.
pub open spec fn is_blank(s: Seq<char>) -> bool {
    trim(s).len() == 0
}

/// The first fault in the settings of the tool at `index`, where `folded` holds the names of
/// the tools in the form in which they must differ.
pub open spec fn tool_fault(
    tools: Seq<ToolConfig>,
    folded: Seq<Seq<char>>,
    index: int,
) -> Option<ToolFault> {
    let tool = tools[index];
    if is_blank(tool.name@) {
        Some(ToolFault::EmptyName)
    } else if is_blank(tool.command@) {
        Some(ToolFault::EmptyCommand)
    } else if tool.graceful_stop_command is Some && is_blank(tool.graceful_stop_command->0@) {
        Some(ToolFault::EmptyGracefulStopCommand)
    } else if tool.graceful_stop_command is None && tool.graceful_stop_args@.len() > 0 {
        Some(ToolFault::GracefulStopArgsAlone)
    } else if exists|j: int| 0 <= j < index && #[trigger] folded[j] == folded[index] {
        Some(ToolFault::DuplicateName)
    } else if !(1 <= tool.max_restart_count <= MAX_RESTART_COUNT) {
        Some(ToolFault::MaxRestartCount)
    } else if tool.restart_delay_ms > MAX_RESTART_DELAY_MS {
        Some(ToolFault::RestartDelay)
    } else if !(1 <= tool.restart_window_seconds <= MAX_RESTART_WINDOW_SECONDS) {
        Some(ToolFault::RestartWindow)
    } else {
        None
    }
}

/// The names of the tools in lower case.
pub open spec fn folded_names(tools: Seq<ToolConfig>) -> Seq<Seq<char>> {
    Seq::new(tools.len(), |i: int| lowercase(tools[i].name@))
}

/// Whether the tools before `index` are all without fault.
pub open spec fn tools_pass(
    tools: Seq<ToolConfig>,
    folded: Seq<Seq<char>>,
    index: int,
) -> bool {
    forall|i: int| 0 <= i < index ==> tool_fault(tools, folded, i) is None
}

/// What the validation of a configuration comes to: the first fault of the manager, or else
/// the first fault of the first faulty tool, or else none.
pub open spec fn is_verdict(
    config: AppConfig,
    folded: Seq<Seq<char>>,
    verdict: Result<(), ConfigError>,
) -> bool {
    match verdict {
        Ok(()) => {
            &&& manager_fault(config.manager) is None
            &&& tools_pass(config.tools@, folded, config.tools@.len() as int)
        },
        Err(ConfigError::Manager(fault)) => manager_fault(config.manager) == Some(fault),
        Err(ConfigError::Tool { name, fault }) => {
            &&& manager_fault(config.manager) is None
            &&& exists|i: int|
                0 <= i < config.tools@.len() && tools_pass(config.tools@, folded, i)
                    && #[trigger] tool_fault(config.tools@, folded, i) == Some(fault) && name@
                    == config.tools@[i].name@
        },
    }
}

fn blank(text: &str) -> (yes: bool)
    ensures
        yes == is_blank(text@),
{
    let chars = chars_of(text);
    trimmed(chars.as_slice()).len() == 0
}

/// Whether the text at `index` stands in the list before it.
fn seen_before(list: &Vec<String>, index: usize) -> (seen: bool)
    requires
        index < list@.len(),
    ensures
        seen == exists|j: int|
            0 <= j < index && #[trigger] texts(list@)[j] == texts(list@)[index as int],
{
    let ghost names = texts(list@);
    let mut j: usize = 0;
    while j < index
        invariant
            j <= index < list@.len(),
            names == texts(list@),
            forall|k: int| 0 <= k < j ==> #[trigger] names[k] != names[index as int],
        decreases index - j,
    {
        if list[j] == list[index] {
            assert(names[j as int] == names[index as int]);
            return true;
        }
        j += 1;
    }
    false
}

impl ManagerConfig {
    /// The first fault in these settings.
    fn fault(&self) -> (fault: Option<ManagerFault>)
        ensures
            fault == manager_fault(*self),
    {
        if let Some(lang) = &self.lang {
            if configured_chinese(lang.as_str()).is_none() {
                return Some(ManagerFault::Language);
            }
        }
        if self.log_buffer_lines < 1 || self.log_buffer_lines > MAX_LOG_BUFFER_LINES {
            Some(ManagerFault::LogBufferLines)
        } else if self.log_buffer_bytes < 1 || self.log_buffer_bytes > MAX_LOG_BUFFER_BYTES {
            Some(ManagerFault::LogBufferBytes)
        } else if self.log_file_max_bytes < 1 || self.log_file_max_bytes > MAX_LOG_FILE_BYTES {
            Some(ManagerFault::LogFileMaxBytes)
        } else if self.log_line_max_bytes < 1 || self.log_line_max_bytes > MAX_LOG_LINE_BYTES {
            Some(ManagerFault::LogLineMaxBytes)
        } else if self.log_file_max_bytes < self.log_line_max_bytes as u64 + LOG_LINE_OVERHEAD {
            Some(ManagerFault::LogFileBelowLine)
        } else if self.stop_timeout_ms < MIN_STOP_TIMEOUT_MS || self.stop_timeout_ms
            > MAX_STOP_TIMEOUT_MS {
            Some(ManagerFault::StopTimeout)
        } else {
            None
        }
    }
}

impl AppConfig {
    /// Whether the configuration can be used. The names of the tools must differ also where
    /// only upper and lower case tell them apart.
    pub fn validate(&self) -> (verdict: Result<(), ConfigError>)
        ensures
            is_verdict(*self, folded_names(self.tools@), verdict),
            verdict is Ok <==> is_valid(*self),
    {
        let mut folded: Vec<String> = Vec::new();
        for i in 0..self.tools.len()
            invariant
                folded@.len() == i,
                forall|j: int| 0 <= j < i ==> (#[trigger] folded@[j])@ == lowercase(
                    self.tools@[j].name@,
                ),
        {
            folded.push(self.tools[i].name.as_str().to_lowercase());
        }
        assert(texts(folded@) =~= folded_names(self.tools@));
        self.validate_folded(&folded)
    }

    /// Whether the configuration can be used, where `folded` holds the names of the tools in
    /// the form in which they must differ.
    pub fn validate_folded(&self, folded: &Vec<String>) -> (verdict: Result<(), ConfigError>)
        requires
            folded@.len() == self.tools@.len(),
        ensures
            is_verdict(*self, texts(folded@), verdict),
    {
        if let Some(fault) = self.manager.fault() {
            return Err(ConfigError::Manager(fault));
        }
        let mut i: usize = 0;
        while i < self.tools.len()
            invariant
                i <= self.tools@.len(),
                folded@.len() == self.tools@.len(),
                manager_fault(self.manager) is None,
                tools_pass(self.tools@, texts(folded@), i as int),
            decreases self.tools@.len() - i,
        {
            if let Some(fault) = self.tool_fault_at(folded, i) {
                return Err(ConfigError::Tool { name: self.tools[i].name.clone(), fault });
            }
            i += 1;
        }
        Ok(())
    }

    /// The first fault of the tool at `index`.
    fn tool_fault_at(&self, folded: &Vec<String>, index: usize) -> (fault: Option<ToolFault>)
        requires
            index < self.tools@.len(),
            folded@.len() == self.tools@.len(),
        ensures
            fault == tool_fault(self.tools@, texts(folded@), index as int),
    {
        let tool = &self.tools[index];
        if blank(tool.name.as_str()) {
            return Some(ToolFault::EmptyName);
        }
        if blank(tool.command.as_str()) {
            return Some(ToolFault::EmptyCommand);
        }
        match &tool.graceful_stop_command {
            Some(command) => {
                if blank(command.as_str()) {
                    return Some(ToolFault::EmptyGracefulStopCommand);
                }
            },
            None => {
                if tool.graceful_stop_args.len() > 0 {
                    return Some(ToolFault::GracefulStopArgsAlone);
                }
            },
        }
        if seen_before(folded, index) {
            return Some(ToolFault::DuplicateName);
        }
        if tool.max_restart_count < 1 || tool.max_restart_count > MAX_RESTART_COUNT {
            Some(ToolFault::MaxRestartCount)
        } else if tool.restart_delay_ms > MAX_RESTART_DELAY_MS {
            Some(ToolFault::RestartDelay)
        } else if tool.restart_window_seconds < 1 || tool.restart_window_seconds
            > MAX_RESTART_WINDOW_SECONDS {
            Some(ToolFault::RestartWindow)
        } else {
            None
        }
    }
}

// ---------------------------------------------------------------------------
// Messages
// ---------------------------------------------------------------------------

/// What is said of a fault of the manager.
pub open spec fn manager_message(fault: ManagerFault) -> Seq<char> {
    match fault {
        ManagerFault::Language => "manager.lang must be an English or Chinese locale, such as 'en' or 'zh_CN'"@,
        ManagerFault::LogBufferLines => "manager.log_buffer_lines must be between 1 and 100000"@,
        ManagerFault::LogBufferBytes => "manager.log_buffer_bytes must be between 1 and 67108864"@,
        ManagerFault::LogFileMaxBytes => "manager.log_file_max_bytes must be between 1 and 1073741824"@,
        ManagerFault::LogLineMaxBytes => "manager.log_line_max_bytes must be between 1 and 1048576"@,
        ManagerFault::LogFileBelowLine => "manager.log_file_max_bytes must be at least log_line_max_bytes + 256"@,
        ManagerFault::StopTimeout => "manager.stop_timeout_ms must be between 100 and 300000"@,
    }
}

/// What is said of a fault of the tool with the given name.
pub open spec fn tool_message(name: Seq<char>, fault: ToolFault) -> Seq<char> {
    match fault {
        ToolFault::EmptyName => "tool name cannot be empty"@,
        ToolFault::EmptyCommand => "tool '"@ + name + "' command cannot be empty"@,
        ToolFault::EmptyGracefulStopCommand => "tool '"@ + name
            + "' graceful_stop_command cannot be empty"@,
        ToolFault::GracefulStopArgsAlone => "tool '"@ + name
            + "' graceful_stop_args requires graceful_stop_command"@,
        ToolFault::DuplicateName => "duplicate tool name: "@ + name,
        ToolFault::MaxRestartCount => "tool '"@ + name
            + "' max_restart_count must be between 1 and 1000"@,
        ToolFault::RestartDelay => "tool '"@ + name + "' restart_delay_ms cannot exceed 86400000"@,
        ToolFault::RestartWindow => "tool '"@ + name
            + "' restart_window_seconds must be between 1 and 86400"@,
    }
}

impl ConfigError {
    /// The reason in words.
    pub open spec fn text(&self) -> Seq<char> {
        match self {
            ConfigError::Manager(fault) => manager_message(*fault),
            ConfigError::Tool { name, fault } => tool_message(name@, *fault),
        }
    }

    /// The reason in words.
    pub fn message(&self) -> (message: String)
        ensures
            message@ == self.text(),
    {
        match self {
            ConfigError::Manager(fault) => {
                let text = match fault {
                    ManagerFault::Language => "manager.lang must be an English or Chinese locale, such as 'en' or 'zh_CN'",
                    ManagerFault::LogBufferLines => "manager.log_buffer_lines must be between 1 and 100000",
                    ManagerFault::LogBufferBytes => "manager.log_buffer_bytes must be between 1 and 67108864",
                    ManagerFault::LogFileMaxBytes => "manager.log_file_max_bytes must be between 1 and 1073741824",
                    ManagerFault::LogLineMaxBytes => "manager.log_line_max_bytes must be between 1 and 1048576",
                    ManagerFault::LogFileBelowLine => "manager.log_file_max_bytes must be at least log_line_max_bytes + 256",
                    ManagerFault::StopTimeout => "manager.stop_timeout_ms must be between 100 and 300000",
                };
                text.to_owned()
            },
            ConfigError::Tool { name, fault } => {
                let name = name.as_str();
                match fault {
                    ToolFault::EmptyName => "tool name cannot be empty".to_owned(),
                    ToolFault::EmptyCommand => "tool '".to_owned().concat(name).concat(
                        "' command cannot be empty",
                    ),
                    ToolFault::EmptyGracefulStopCommand => "tool '".to_owned().concat(name).concat(
                        "' graceful_stop_command cannot be empty",
                    ),
                    ToolFault::GracefulStopArgsAlone => "tool '".to_owned().concat(name).concat(
                        "' graceful_stop_args requires graceful_stop_command",
                    ),
                    ToolFault::DuplicateName => "duplicate tool name: ".to_owned().concat(name),
                    ToolFault::MaxRestartCount => "tool '".to_owned().concat(name).concat(
                        "' max_restart_count must be between 1 and 1000",
                    ),
                    ToolFault::RestartDelay => "tool '".to_owned().concat(name).concat(
                        "' restart_delay_ms cannot exceed 86400000",
                    ),
                    ToolFault::RestartWindow => "tool '".to_owned().concat(name).concat(
                        "' restart_window_seconds must be between 1 and 86400",
                    ),
                }
            },
        }
    }
}

// ---------------------------------------------------------------------------
// The tools of the elevated helper
// ---------------------------------------------------------------------------

/// The tools that run elevated, as the elevated helper runs them: without asking for further
/// rights, and only when told to start.
pub open spec fn elevated_tools(tools: Seq<ToolConfig>) -> Seq<ToolConfig>
    decreases tools.len(),
{
    if tools.len() == 0 {
        Seq::empty()
    } else if tools.last().admin {
        elevated_tools(tools.drop_last()).push(
            ToolConfig { admin: false, auto_start: false, ..tools.last() },
        )
    } else {
        elevated_tools(tools.drop_last())
    }
}

impl AppConfig {
    /// The configuration under which the elevated helper runs, or nothing when no tool runs
    /// elevated.
    pub fn for_elevated_helper(self) -> (config: Option<AppConfig>)
        ensures
            match config {
                Some(config) => config.manager == self.manager && config.tools@ == elevated_tools(
                    self.tools@,
                ) && config.tools@.len() > 0,
                None => elevated_tools(self.tools@).len() == 0,
            },
    {
        let mut tools: Vec<ToolConfig> = Vec::new();
        let ghost all = self.tools@;
        let AppConfig { manager, tools: listed } = self;
        for tool in iter: listed
            invariant
                iter.seq() == all,
                tools@ == elevated_tools(all.take(iter.index())),
        {
            assert(all.take(iter.index() + 1).drop_last() =~= all.take(iter.index()));
            if tool.admin {
                let mut tool = tool;
                tool.admin = false;
                tool.auto_start = false;
                tools.push(tool);
            }
        }
        assert(all.take(all.len() as int) =~= all);
        if tools.len() == 0 {
            None
        } else {
            Some(AppConfig { manager, tools })
        }
    }
}

// ---------------------------------------------------------------------------
// What holds of every valid configuration
// ---------------------------------------------------------------------------

/// Whether a configuration passes validation.
pub open spec fn is_valid(config: AppConfig) -> bool {
    &&& manager_fault(config.manager) is None
    &&& tools_pass(config.tools@, folded_names(config.tools@), config.tools@.len() as int)
}

/// A configuration is valid exactly if its language, where it names one, is known; every setting
/// of the manager lies within its bounds, and a log file has room for the longest line; every tool
/// has a name and a command that are not blank, a command to stop it, where it has one, that is
/// not blank, and arguments for that only beside it; every setting of a tool lies within its
/// bounds; and no two tools have the same name in lower case.
pub proof fn law_configuration_is_valid_within_bounds(config: AppConfig)
    ensures
        is_valid(config) <==> {
            let manager = config.manager;
            let tools = config.tools@;
            &&& manager.lang is None || chinese_choice(manager.lang->0@) is Some
            &&& 1 <= manager.log_buffer_lines <= 100_000
            &&& 1 <= manager.log_buffer_bytes <= 67_108_864
            &&& 1 <= manager.log_line_max_bytes <= 1_048_576
            &&& manager.log_line_max_bytes + 256 <= manager.log_file_max_bytes <= 1_073_741_824
            &&& 100 <= manager.stop_timeout_ms <= 300_000
            &&& forall|i: int|
                0 <= i < tools.len() ==> {
                    &&& trim((#[trigger] tools[i]).name@).len() > 0
                    &&& trim(tools[i].command@).len() > 0
                    &&& tools[i].graceful_stop_command is Some ==> trim(
                        tools[i].graceful_stop_command->0@,
                    ).len() > 0
                    &&& tools[i].graceful_stop_args@.len() > 0
                        ==> tools[i].graceful_stop_command is Some
                    &&& 1 <= tools[i].max_restart_count <= 1_000
                    &&& tools[i].restart_delay_ms <= 86_400_000
                    &&& 1 <= tools[i].restart_window_seconds <= 86_400
                }
            &&& forall|i: int, j: int|
                0 <= i < j < tools.len() ==> lowercase((#[trigger] tools[i]).name@) != lowercase(
                    (#[trigger] tools[j]).name@,
                )
        },
{
    let tools = config.tools@;
    let folded = folded_names(tools);
    if is_valid(config) {
        assert forall|i: int, j: int| 0 <= i < j < tools.len() implies lowercase(
            (#[trigger] tools[i]).name@,
        ) != lowercase((#[trigger] tools[j]).name@) by {
            law_tool_names_differ(config, i, j);
        }
        assert forall|i: int| 0 <= i < tools.len() implies {
                &&& trim((#[trigger] tools[i]).name@).len() > 0
                &&& trim(tools[i].command@).len() > 0
                &&& tools[i].graceful_stop_command is Some ==> trim(
                    tools[i].graceful_stop_command->0@,
                ).len() > 0
                &&& tools[i].graceful_stop_args@.len() > 0
                    ==> tools[i].graceful_stop_command is Some
                &&& 1 <= tools[i].max_restart_count <= 1_000
                &&& tools[i].restart_delay_ms <= 86_400_000
                &&& 1 <= tools[i].restart_window_seconds <= 86_400
            } by {
            assert(tool_fault(tools, folded, i) is None);
        }
    }
    if (forall|i: int| 0 <= i < tools.len() ==> {
                &&& trim((#[trigger] tools[i]).name@).len() > 0
                &&& trim(tools[i].command@).len() > 0
                &&& tools[i].graceful_stop_command is Some ==> trim(
                    tools[i].graceful_stop_command->0@,
                ).len() > 0
                &&& tools[i].graceful_stop_args@.len() > 0
                    ==> tools[i].graceful_stop_command is Some
                &&& 1 <= tools[i].max_restart_count <= 1_000
                &&& tools[i].restart_delay_ms <= 86_400_000
                &&& 1 <= tools[i].restart_window_seconds <= 86_400
            }) && (forall|i: int, j: int|
        0 <= i < j < tools.len() ==> lowercase((#[trigger] tools[i]).name@) != lowercase(
            (#[trigger] tools[j]).name@,
        )) {
        assert forall|i: int| 0 <= i < tools.len() implies tool_fault(tools, folded, i) is None by {
            assert(trim(tools[i].name@).len() > 0);
            assert forall|j: int| 0 <= j < i implies #[trigger] folded[j] != folded[i] by {
                assert(lowercase(tools[j].name@) != lowercase(tools[i].name@));
            }
        }
    }
}

/// A fault of the manager names a setting that is out of its bounds.
pub proof fn law_manager_fault_names_a_wrong_setting(config: ManagerConfig)
    ensures
        match manager_fault(config) {
            None => true,
            Some(ManagerFault::Language) => config.lang is Some && chinese_choice(
                config.lang->0@,
            ) is None,
            Some(ManagerFault::LogBufferLines) => config.log_buffer_lines < 1
                || config.log_buffer_lines > 100_000,
            Some(ManagerFault::LogBufferBytes) => config.log_buffer_bytes < 1
                || config.log_buffer_bytes > 67_108_864,
            Some(ManagerFault::LogFileMaxBytes) => config.log_file_max_bytes < 1
                || config.log_file_max_bytes > 1_073_741_824,
            Some(ManagerFault::LogLineMaxBytes) => config.log_line_max_bytes < 1
                || config.log_line_max_bytes > 1_048_576,
            Some(ManagerFault::LogFileBelowLine) => config.log_file_max_bytes
                < config.log_line_max_bytes + 256,
            Some(ManagerFault::StopTimeout) => config.stop_timeout_ms < 100
                || config.stop_timeout_ms > 300_000,
        },
{
}

/// A fault of a tool names what is wrong with it.
pub proof fn law_tool_fault_names_a_wrong_setting(
    tools: Seq<ToolConfig>,
    folded: Seq<Seq<char>>,
    index: int,
)
    requires
        0 <= index < tools.len(),
        folded.len() == tools.len(),
    ensures
        ({
            let tool = tools[index];
            match tool_fault(tools, folded, index) {
                None => true,
                Some(ToolFault::EmptyName) => trim(tool.name@).len() == 0,
                Some(ToolFault::EmptyCommand) => trim(tool.command@).len() == 0,
                Some(ToolFault::EmptyGracefulStopCommand) => tool.graceful_stop_command is Some
                    && trim(tool.graceful_stop_command->0@).len() == 0,
                Some(ToolFault::GracefulStopArgsAlone) => tool.graceful_stop_command is None
                    && tool.graceful_stop_args@.len() > 0,
                Some(ToolFault::DuplicateName) => folded.take(index).contains(folded[index]),
                Some(ToolFault::MaxRestartCount) => tool.max_restart_count < 1
                    || tool.max_restart_count > 1_000,
                Some(ToolFault::RestartDelay) => tool.restart_delay_ms > 86_400_000,
                Some(ToolFault::RestartWindow) => tool.restart_window_seconds < 1
                    || tool.restart_window_seconds > 86_400,
            }
        }),
{
    if exists|j: int| 0 <= j < index && #[trigger] folded[j] == folded[index] {
        let j = choose|j: int| 0 <= j < index && #[trigger] folded[j] == folded[index];
        assert(folded.take(index)[j] == folded[index]);
    }
}

/// A locale is a Chinese one exactly if its trimmed text is `zh`, in whatever case, alone or with
/// an underscore, a hyphen or a full stop behind it; an English one so with `en`.
pub proof fn law_language_of_a_locale(locale: Seq<char>)
    ensures
        ({
            let name = trim(locale);
            let ends = name.len() == 2 || (name.len() > 2 && (name[2] == '_' || name[2] == '-'
                || name[2] == '.'));
            &&& chinese_choice(locale) == Some(true) <==> ends && (name[0] == 'z' || name[0] == 'Z')
                && (name[1] == 'h' || name[1] == 'H')
            &&& chinese_choice(locale) == Some(false) <==> ends && (name[0] == 'e' || name[0]
                == 'E') && (name[1] == 'n' || name[1] == 'N')
        }),
{
    reveal_strlit("zh");
    reveal_strlit("en");
    let name = trim(locale);
    let n = first_where(name, ends_language());
    crate::text::lemma_first_where(name, ends_language());
    let language = language_of(locale);
    assert(language.len() == n);
    if n == 2 {
        assert(language[0] == crate::text::ascii_lower(name[0]));
        assert(language[1] == crate::text::ascii_lower(name[1]));
        assert(name.len() > 2 ==> ends_language()(name[2]));
        assert(language =~= seq![language[0], language[1]]);
        assert("zh"@ =~= seq!['z', 'h']);
        assert("en"@ =~= seq!['e', 'n']);
        assert(language == "zh"@ <==> language[0] == 'z' && language[1] == 'h') by {
            if language == "zh"@ {
                assert(language[0] == "zh"@[0]);
                assert(language[1] == "zh"@[1]);
            }
        }
        assert(language == "en"@ <==> language[0] == 'e' && language[1] == 'n') by {
            if language == "en"@ {
                assert(language[0] == "en"@[0]);
                assert(language[1] == "en"@[1]);
            }
        }
        lemma_lower(name[0]);
        lemma_lower(name[1]);
    } else {
        assert(language != "zh"@ && language != "en"@);
        if name.len() >= 2 {
            if n == 0 {
                assert(ends_language()(name[0]));
            } else if n == 1 {
                assert(ends_language()(name[1]));
            } else if name.len() > 2 {
                assert(!ends_language()(name[2]));
            }
        }
    }
}

proof fn lemma_lower(c: char)
    ensures
        crate::text::ascii_lower(c) == 'z' <==> c == 'z' || c == 'Z',
        crate::text::ascii_lower(c) == 'h' <==> c == 'h' || c == 'H',
        crate::text::ascii_lower(c) == 'e' <==> c == 'e' || c == 'E',
        crate::text::ascii_lower(c) == 'n' <==> c == 'n' || c == 'N',
{
    if 'A' <= c <= 'Z' {
        let d = crate::text::ascii_lower(c);
        assert(d as u32 == c as u32 + 32);
    }
}

/// A manager that nobody has configured starts with the session, hidden, holds ten thousand lines
/// and two mebibytes of each log, keeps a log file below ten mebibytes and a line below 64
/// kibibytes, and gives a tool thirty seconds to stop.
pub proof fn law_default_settings(config: ManagerConfig)
    requires
        is_default_manager(config),
    ensures
        config.lang is None,
        config.start_with_system && config.minimize_to_tray,
        config.log_buffer_lines == 10_000,
        config.log_buffer_bytes == 2_097_152,
        config.log_file_max_bytes == 10_485_760,
        config.log_line_max_bytes == 65_536,
        config.stop_timeout_ms == 30_000,
{
}

/// The helper gets exactly the tools that need elevated rights, in order, each as it is
/// configured but for the rights and the start by itself.
pub proof fn law_helper_gets_the_elevated_tools(tools: Seq<ToolConfig>, tool: ToolConfig)
    ensures
        elevated_tools(Seq::empty()) == Seq::<ToolConfig>::empty(),
        tool.admin ==> elevated_tools(tools.push(tool)) == elevated_tools(tools).push(
            ToolConfig { admin: false, auto_start: false, ..tool },
        ),
        !tool.admin ==> elevated_tools(tools.push(tool)) == elevated_tools(tools),
{
    assert(tools.push(tool).drop_last() =~= tools);
}

/// In a valid configuration a line of the longest length, with the room that every line
/// needs beside its text, fits in a log file.
pub proof fn law_log_line_fits_in_file(config: AppConfig)
    requires
        is_valid(config),
    ensures
        config.manager.log_line_max_bytes + LOG_LINE_OVERHEAD <= config.manager.log_file_max_bytes,
{
}

/// In a valid configuration the names of two tools differ in lower case too.
pub proof fn law_tool_names_differ(config: AppConfig, i: int, j: int)
    requires
        is_valid(config),
        0 <= i < j < config.tools@.len(),
    ensures
        lowercase(config.tools@[i].name@) != lowercase(config.tools@[j].name@),
{
    let folded = folded_names(config.tools@);
    assert(tool_fault(config.tools@, folded, j) is None);
    assert(folded[i] == lowercase(config.tools@[i].name@));
}

/// A valid configuration stays valid when tools are taken out or put in another order: `places`
/// tells where those that are left stood.
pub proof fn law_fewer_tools_stay_valid(config: AppConfig, other: AppConfig, places: Seq<int>)
    requires
        is_valid(config),
        other.manager == config.manager,
        other.tools@.len() == places.len(),
        forall|i: int|
            0 <= i < places.len() ==> 0 <= #[trigger] places[i] < config.tools@.len()
                && other.tools@[i] == config.tools@[places[i]],
        forall|i: int, j: int| 0 <= i < j < places.len() ==> places[i] != places[j],
    ensures
        is_valid(other),
{
    let folded = folded_names(config.tools@);
    let names = folded_names(other.tools@);
    assert forall|i: int| 0 <= i < other.tools@.len() implies tool_fault(
        other.tools@,
        names,
        i,
    ) is None by {
        let place = places[i];
        assert(tool_fault(config.tools@, folded, place) is None);
        assert forall|j: int| 0 <= j < i implies #[trigger] names[j] != names[i] by {
            let former = places[j];
            if former < place {
                law_tool_names_differ(config, former, place);
            } else {
                law_tool_names_differ(config, place, former);
            }
        }
    }
}

/// A configuration that nobody has written is valid.
pub proof fn law_default_configuration_is_valid(config: AppConfig)
    requires
        is_default_manager(config.manager),
        config.tools@.len() == 0,
    ensures
        is_valid(config),
{
}

/// The elevated helper starts no tool by itself and asks for no further rights.
pub proof fn law_elevated_tools_wait(tools: Seq<ToolConfig>)
    ensures
        forall|i: int|
            0 <= i < elevated_tools(tools).len() ==> !(#[trigger] elevated_tools(tools)[i]).admin
                && !elevated_tools(tools)[i].auto_start,
    decreases tools.len(),
{
    if tools.len() > 0 {
        law_elevated_tools_wait(tools.drop_last());
    }
}

/// Of the wrong settings of the manager the first is named, in the order of the settings.
pub proof fn law_first_wrong_setting_is_named(config: ManagerConfig)
    ensures
        ({
            let language = config.lang is None || chinese_choice(config.lang->0@) is Some;
            let lines = 1 <= config.log_buffer_lines <= 100_000;
            let buffer = 1 <= config.log_buffer_bytes <= 67_108_864;
            let file = 1 <= config.log_file_max_bytes <= 1_073_741_824;
            let line = 1 <= config.log_line_max_bytes <= 1_048_576;
            let room = config.log_file_max_bytes >= config.log_line_max_bytes + 256;
            let stop = 100 <= config.stop_timeout_ms <= 300_000;
            let fault = manager_fault(config);
            &&& !language ==> fault == Some(ManagerFault::Language)
            &&& language && !lines ==> fault == Some(ManagerFault::LogBufferLines)
            &&& language && lines && !buffer ==> fault == Some(ManagerFault::LogBufferBytes)
            &&& language && lines && buffer && !file ==> fault == Some(
                ManagerFault::LogFileMaxBytes,
            )
            &&& language && lines && buffer && file && !line ==> fault == Some(
                ManagerFault::LogLineMaxBytes,
            )
            &&& language && lines && buffer && file && line && !room ==> fault == Some(
                ManagerFault::LogFileBelowLine,
            )
            &&& language && lines && buffer && file && line && room && !stop ==> fault == Some(
                ManagerFault::StopTimeout,
            )
            &&& language && lines && buffer && file && line && room && stop ==> fault is None
        }),
{
}

/// Of the wrong settings of a tool the first is named, in the order in which they are looked at.
pub proof fn law_first_wrong_setting_of_a_tool_is_named(
    tools: Seq<ToolConfig>,
    folded: Seq<Seq<char>>,
    index: int,
)
    requires
        0 <= index < tools.len(),
        folded.len() == tools.len(),
    ensures
        ({
            let tool = tools[index];
            let name = trim(tool.name@).len() > 0;
            let command = trim(tool.command@).len() > 0;
            let graceful = tool.graceful_stop_command is None || trim(
                tool.graceful_stop_command->0@,
            ).len() > 0;
            let arguments = tool.graceful_stop_command is Some || tool.graceful_stop_args@.len()
                == 0;
            let single = !folded.take(index).contains(folded[index]);
            let count = 1 <= tool.max_restart_count <= 1_000;
            let delay = tool.restart_delay_ms <= 86_400_000;
            let window = 1 <= tool.restart_window_seconds <= 86_400;
            let fault = tool_fault(tools, folded, index);
            &&& !name ==> fault == Some(ToolFault::EmptyName)
            &&& name && !command ==> fault == Some(ToolFault::EmptyCommand)
            &&& name && command && !graceful ==> fault == Some(ToolFault::EmptyGracefulStopCommand)
            &&& name && command && graceful && !arguments ==> fault == Some(
                ToolFault::GracefulStopArgsAlone,
            )
            &&& name && command && graceful && arguments && !single ==> fault == Some(
                ToolFault::DuplicateName,
            )
            &&& name && command && graceful && arguments && single && !count ==> fault == Some(
                ToolFault::MaxRestartCount,
            )
            &&& name && command && graceful && arguments && single && count && !delay ==> fault
                == Some(ToolFault::RestartDelay)
            &&& name && command && graceful && arguments && single && count && delay && !window
                ==> fault == Some(ToolFault::RestartWindow)
            &&& name && command && graceful && arguments && single && count && delay && window
                ==> fault is None
        }),
{
    let before = folded.take(index);
    if before.contains(folded[index]) {
        let j = choose|j: int| 0 <= j < before.len() && before[j] == folded[index];
        assert(folded[j] == folded[index]);
    }
    if exists|j: int| 0 <= j < index && #[trigger] folded[j] == folded[index] {
        let j = choose|j: int| 0 <= j < index && #[trigger] folded[j] == folded[index];
        assert(before[j] == folded[index]);
    }
}

/// A configuration is refused for its manager's settings before those of its tools, and for those
/// of the first tool that has a wrong one, by the name of that tool.
pub proof fn law_first_wrong_tool_is_named(
    config: AppConfig,
    folded: Seq<Seq<char>>,
    verdict: Result<(), ConfigError>,
)
    requires
        is_verdict(config, folded, verdict),
    ensures
        match verdict {
            Ok(_) => manager_fault(config.manager) is None && (forall|i: int|
                0 <= i < config.tools@.len() ==> #[trigger] tool_fault(config.tools@, folded, i)
                    is None),
            Err(ConfigError::Manager(fault)) => manager_fault(config.manager) == Some(fault),
            Err(ConfigError::Tool { name, fault }) => manager_fault(config.manager) is None && (
            exists|i: int|
                {
                    &&& 0 <= i < config.tools@.len()
                    &&& #[trigger] tool_fault(config.tools@, folded, i) == Some(fault)
                    &&& name@ == config.tools@[i].name@
                    &&& forall|j: int|
                        0 <= j < i ==> #[trigger] tool_fault(config.tools@, folded, j) is None
                }),
        },
{
}

/// What is said of a wrong setting names the setting and its bounds, and the tool that has it.
pub proof fn law_faults_are_told(name: String)
    ensures
        ConfigError::Manager(ManagerFault::Language).text()
            == "manager.lang must be an English or Chinese locale, such as 'en' or 'zh_CN'"@,
        ConfigError::Manager(ManagerFault::LogBufferLines).text()
            == "manager.log_buffer_lines must be between 1 and 100000"@,
        ConfigError::Manager(ManagerFault::LogBufferBytes).text()
            == "manager.log_buffer_bytes must be between 1 and 67108864"@,
        ConfigError::Manager(ManagerFault::LogFileMaxBytes).text()
            == "manager.log_file_max_bytes must be between 1 and 1073741824"@,
        ConfigError::Manager(ManagerFault::LogLineMaxBytes).text()
            == "manager.log_line_max_bytes must be between 1 and 1048576"@,
        ConfigError::Manager(ManagerFault::LogFileBelowLine).text()
            == "manager.log_file_max_bytes must be at least log_line_max_bytes + 256"@,
        ConfigError::Manager(ManagerFault::StopTimeout).text()
            == "manager.stop_timeout_ms must be between 100 and 300000"@,
        (ConfigError::Tool { name, fault: ToolFault::EmptyName }).text()
            == "tool name cannot be empty"@,
        (ConfigError::Tool { name, fault: ToolFault::EmptyCommand }).text() == "tool '"@ + name@
            + "' command cannot be empty"@,
        (ConfigError::Tool { name, fault: ToolFault::EmptyGracefulStopCommand }).text() == "tool '"@
            + name@ + "' graceful_stop_command cannot be empty"@,
        (ConfigError::Tool { name, fault: ToolFault::GracefulStopArgsAlone }).text() == "tool '"@
            + name@ + "' graceful_stop_args requires graceful_stop_command"@,
        (ConfigError::Tool { name, fault: ToolFault::DuplicateName }).text()
            == "duplicate tool name: "@ + name@,
        (ConfigError::Tool { name, fault: ToolFault::MaxRestartCount }).text() == "tool '"@ + name@
            + "' max_restart_count must be between 1 and 1000"@,
        (ConfigError::Tool { name, fault: ToolFault::RestartDelay }).text() == "tool '"@ + name@
            + "' restart_delay_ms cannot exceed 86400000"@,
        (ConfigError::Tool { name, fault: ToolFault::RestartWindow }).text() == "tool '"@ + name@
            + "' restart_window_seconds must be between 1 and 86400"@,
{
}

} // verus!
