//! The command line.
//!
//! Arguments are byte strings. An option is told by the text that its bytes stand for; the
//! value behind it is taken as it is.
use vstd::prelude::*;
use crate::launch::byte_strings;
use crate::number::{parse_i32_text, parse_u64_text};
use crate::paths::copy_of;
use crate::text::{lossy_text, same_text};
#[allow(unused_imports)]
use crate::launch::optional_bytes;
#[allow(unused_imports)]
use crate::number::{
    decimal, lemma_parse_decimal, lemma_parse_signed, parse_signed, parse_unsigned, signed_decimal,
};
#[allow(unused_imports)]
use crate::text::{texts, utf8_lossy};
#[allow(unused_imports)]
use crate::watchdog::{group_arguments, scope_arguments};

verus! {

/// What the manager is started for.
pub struct RunRequest {
    /// The file with the configuration, unless it is the usual one.
    pub config: Option<Vec<u8>>,
    /// Whether the configuration is only to be looked at.
    pub check_only: bool,
    /// Whether the window is to be shown at once.
    pub show_window: bool,
    /// Whether the manager is started with the user's session.
    pub autostart: bool,
}

/// What a watchdog is started for.
pub struct WatchRequest {
    pub pgid: i32,
    pub timeout_ms: u64,
    pub unit: Option<String>,
    pub cgroup: Option<Vec<u8>>,
    pub systemctl: Option<Vec<u8>>,
}

/// What the program is started for.
pub enum Invocation {
    Run(RunRequest),
    Watch(WatchRequest),
    Version,
    Help,
}

/// Why a command line is not understood.
#[derive(Debug)]
pub enum ArgumentError {
    /// No path stands behind `--config`.
    ConfigPathMissing,
    /// A group and a time do not stand behind `--process-watchdog`.
    WatchdogValuesMissing,
    /// Nothing stands behind an option for a scope.
    ScopeValueMissing,
    /// No option has this name.
    Unknown(String),
}

/// What is known after some arguments.
pub struct CommandLine {
    pub config: Option<Seq<u8>>,
    pub check_only: bool,
    pub show_window: bool,
    pub autostart: bool,
    pub watch: Option<(int, nat)>,
    pub unit: Option<Seq<char>>,
    pub cgroup: Option<Seq<u8>>,
    pub systemctl: Option<Seq<u8>>,
}

/// What a command line asks for.
pub enum Meaning {
    Run(CommandLine),
    Version,
    Help,
    ConfigPathMissing,
    WatchdogValuesMissing,
    ScopeValueMissing,
    Unknown(Seq<char>),
}

/// What is known before the first argument.
pub open spec fn nothing_known() -> CommandLine {
    CommandLine {
        config: None,
        check_only: false,
        show_window: false,
        autostart: false,
        watch: None,
        unit: None,
        cgroup: None,
        systemctl: None,
    }
}

/// The group and the time for a watchdog, by the two arguments behind the option at `i`.
pub open spec fn watch_values(words: Seq<Seq<char>>, i: int) -> Option<(int, nat)> {
    if i + 2 >= words.len() {
        None
    } else {
        match (parse_signed(words[i + 1]), parse_unsigned(words[i + 2], u64::MAX as nat)) {
            (Some(pgid), Some(timeout_ms)) => Some((pgid, timeout_ms)),
            _ => None,
        }
    }
}

/// What a command line asks for, from the argument at `i` on, where `words` are the texts of
/// the arguments `args` and `known` is what those before say. A watchdog is asked for by the
/// first argument, and behind it and its values only options for a scope may stand, which may
/// stand nowhere else.
pub open spec fn meaning(
    words: Seq<Seq<char>>,
    args: Seq<Seq<u8>>,
    i: int,
    known: CommandLine,
) -> Meaning
    decreases words.len() - i,
{
    if i >= words.len() {
        Meaning::Run(known)
    } else if known.watch is Some {
        if words[i] != "--scope-unit"@ && words[i] != "--scope-cgroup"@ && words[i]
            != "--scope-systemctl"@ {
            Meaning::Unknown(words[i])
        } else if i + 1 >= words.len() {
            Meaning::ScopeValueMissing
        } else if words[i] == "--scope-unit"@ {
            meaning(words, args, i + 2, CommandLine { unit: Some(words[i + 1]), ..known })
        } else if words[i] == "--scope-cgroup"@ {
            meaning(words, args, i + 2, CommandLine { cgroup: Some(args[i + 1]), ..known })
        } else {
            meaning(words, args, i + 2, CommandLine { systemctl: Some(args[i + 1]), ..known })
        }
    } else if words[i] == "--config"@ {
        if i + 1 >= words.len() {
            Meaning::ConfigPathMissing
        } else {
            meaning(words, args, i + 2, CommandLine { config: Some(args[i + 1]), ..known })
        }
    } else if words[i] == "--check-config"@ {
        meaning(words, args, i + 1, CommandLine { check_only: true, ..known })
    } else if words[i] == "--show"@ {
        meaning(words, args, i + 1, CommandLine { show_window: true, ..known })
    } else if words[i] == "--autostart"@ {
        meaning(words, args, i + 1, CommandLine { autostart: true, ..known })
    } else if words[i] == "--version"@ || words[i] == "-V"@ {
        Meaning::Version
    } else if words[i] == "--help"@ || words[i] == "-h"@ {
        Meaning::Help
    } else if words[i] == "--process-watchdog"@ && i == 0 {
        match watch_values(words, i) {
            Some(values) => meaning(
                words,
                args,
                i + 3,
                CommandLine { watch: Some(values), ..known },
            ),
            None => Meaning::WatchdogValuesMissing,
        }
    } else {
        Meaning::Unknown(words[i])
    }
}

/// The text in an optional string.
pub open spec fn optional_text(text: Option<String>) -> Option<Seq<char>> {
    match text {
        Some(text) => Some(text@),
        None => None,
    }
}

/// Whether `invocation` is what a command line asks for.
pub open spec fn is_meant(invocation: Result<Invocation, ArgumentError>, meant: Meaning) -> bool {
    match (invocation, meant) {
        (Ok(Invocation::Run(run)), Meaning::Run(known)) => {
            &&& known.watch is None
            &&& optional_bytes(run.config) == known.config
            &&& run.check_only == known.check_only
            &&& run.show_window == known.show_window
            &&& run.autostart == known.autostart
        },
        (Ok(Invocation::Watch(watch)), Meaning::Run(known)) => {
            &&& known.watch == Some((watch.pgid as int, watch.timeout_ms as nat))
            &&& optional_text(watch.unit) == known.unit
            &&& optional_bytes(watch.cgroup) == known.cgroup
            &&& optional_bytes(watch.systemctl) == known.systemctl
        },
        (Ok(Invocation::Version), Meaning::Version) => true,
        (Ok(Invocation::Help), Meaning::Help) => true,
        (Err(ArgumentError::ConfigPathMissing), Meaning::ConfigPathMissing) => true,
        (Err(ArgumentError::WatchdogValuesMissing), Meaning::WatchdogValuesMissing) => true,
        (Err(ArgumentError::ScopeValueMissing), Meaning::ScopeValueMissing) => true,
        (Err(ArgumentError::Unknown(text)), Meaning::Unknown(meant)) => text@ == meant,
        _ => false,
    }
}

struct Known {
    config: Option<Vec<u8>>,
    check_only: bool,
    show_window: bool,
    autostart: bool,
    watch: Option<(i32, u64)>,
    unit: Option<String>,
    cgroup: Option<Vec<u8>>,
    systemctl: Option<Vec<u8>>,
}

impl Known {
    spec fn model(self) -> CommandLine {
        CommandLine {
            config: optional_bytes(self.config),
            check_only: self.check_only,
            show_window: self.show_window,
            autostart: self.autostart,
            watch: match self.watch {
                Some((pgid, timeout_ms)) => Some((pgid as int, timeout_ms as nat)),
                None => None,
            },
            unit: optional_text(self.unit),
            cgroup: optional_bytes(self.cgroup),
            systemctl: optional_bytes(self.systemctl),
        }
    }

    fn invocation(self) -> (invocation: Invocation)
        ensures
            is_meant(Ok(invocation), Meaning::Run(self.model())),
    {
        match self.watch {
            Some((pgid, timeout_ms)) => Invocation::Watch(
                WatchRequest {
                    pgid,
                    timeout_ms,
                    unit: self.unit,
                    cgroup: self.cgroup,
                    systemctl: self.systemctl,
                },
            ),
            None => Invocation::Run(
                RunRequest {
                    config: self.config,
                    check_only: self.check_only,
                    show_window: self.show_window,
                    autostart: self.autostart,
                },
            ),
        }
    }
}

/// What a command line asks for, where `words` are the texts of the arguments `args`.
#[verifier::rlimit(50)]
pub fn parse_words(words: &Vec<String>, args: &Vec<Vec<u8>>) -> (invocation: Result<
    Invocation,
    ArgumentError,
>)
    requires
        words@.len() == args@.len(),
    ensures
        is_meant(
            invocation,
            meaning(texts(words@), byte_strings(args@), 0, nothing_known()),
        ),
{
    let ghost all = texts(words@);
    let ghost raw = byte_strings(args@);
    let mut known = Known {
        config: None,
        check_only: false,
        show_window: false,
        autostart: false,
        watch: None,
        unit: None,
        cgroup: None,
        systemctl: None,
    };
    let total: usize = words.len();
    let mut i: usize = 0;
    while i < total
        invariant
            i <= total,
            total == words@.len() == args@.len(),
            all == texts(words@),
            raw == byte_strings(args@),
            meaning(all, raw, 0, nothing_known()) == meaning(all, raw, i as int, known.model()),
        decreases total - i,
    {
        let word = words[i].as_str();
        let left: usize = total - i - 1;
        assert(all[i as int] == word@);
        if known.watch.is_some() {
            let unit = same_text(word, "--scope-unit");
            let cgroup = same_text(word, "--scope-cgroup");
            if !unit && !cgroup && !same_text(word, "--scope-systemctl") {
                return Err(ArgumentError::Unknown(word.to_owned()));
            }
            if left < 1 {
                return Err(ArgumentError::ScopeValueMissing);
            }
            assert(all[i + 1] == words@[i + 1]@);
            assert(raw[i + 1] == args@[i + 1]@);
            if unit {
                known.unit = Some(words[i + 1].clone());
            } else if cgroup {
                known.cgroup = Some(copy_of(args[i + 1].as_slice()));
            } else {
                known.systemctl = Some(copy_of(args[i + 1].as_slice()));
            }
            i += 2;
        } else if same_text(word, "--config") {
            if left < 1 {
                return Err(ArgumentError::ConfigPathMissing);
            }
            assert(raw[i + 1] == args@[i + 1]@);
            known.config = Some(copy_of(args[i + 1].as_slice()));
            i += 2;
        } else if same_text(word, "--check-config") {
            known.check_only = true;
            i += 1;
        } else if same_text(word, "--show") {
            known.show_window = true;
            i += 1;
        } else if same_text(word, "--autostart") {
            known.autostart = true;
            i += 1;
        } else if same_text(word, "--version") || same_text(word, "-V") {
            return Ok(Invocation::Version);
        } else if same_text(word, "--help") || same_text(word, "-h") {
            return Ok(Invocation::Help);
        } else if i == 0 && same_text(word, "--process-watchdog") {
            if left < 2 {
                return Err(ArgumentError::WatchdogValuesMissing);
            }
            assert(all[i + 1] == words@[i + 1]@);
            assert(all[i + 2] == words@[i + 2]@);
            let pgid = parse_i32_text(words[i + 1].as_str());
            let timeout_ms = parse_u64_text(words[i + 2].as_str());
            match (pgid, timeout_ms) {
                (Some(pgid), Some(timeout_ms)) => {
                    known.watch = Some((pgid, timeout_ms));
                },
                _ => {
                    return Err(ArgumentError::WatchdogValuesMissing);
                },
            }
            i += 3;
        } else {
            return Err(ArgumentError::Unknown(word.to_owned()));
        }
    }
    Ok(known.invocation())
}

/// The texts of some arguments.
pub open spec fn lossy_words(args: Seq<Seq<u8>>) -> Seq<Seq<char>> {
    args.map_values(|arg: Seq<u8>| utf8_lossy(arg))
}

/// What a command line, without the name of the program, asks for.
pub fn parse_args(args: &Vec<Vec<u8>>) -> (invocation: Result<Invocation, ArgumentError>)
    ensures
        is_meant(
            invocation,
            meaning(
                lossy_words(byte_strings(args@)),
                byte_strings(args@),
                0,
                nothing_known(),
            ),
        ),
{
    let mut words: Vec<String> = Vec::new();
    let mut i: usize = 0;
    while i < args.len()
        invariant
            i <= args@.len(),
            words@.len() == i,
            forall|j: int| 0 <= j < i ==> (#[trigger] words@[j])@ == utf8_lossy(args@[j]@),
        decreases args@.len() - i,
    {
        words.push(lossy_text(args[i].as_slice()));
        i += 1;
    }
    assert(texts(words@) =~= lossy_words(byte_strings(args@)));
    parse_words(&words, args)
}

impl ArgumentError {
    /// The error in words.
    pub open spec fn text(self) -> Seq<char> {
        match self {
            ArgumentError::ConfigPathMissing => "--config requires a path"@,
            ArgumentError::WatchdogValuesMissing =>
                "--process-watchdog requires a process group and a timeout"@,
            ArgumentError::ScopeValueMissing => "scope options require a value"@,
            ArgumentError::Unknown(option) => "unknown argument: "@ + option@,
        }
    }

    /// The error in words.
    pub fn message(&self) -> (text: String)
        ensures
            text@ == self.text(),
    {
        match self {
            ArgumentError::ConfigPathMissing => "--config requires a path".to_owned(),
            ArgumentError::WatchdogValuesMissing =>
                "--process-watchdog requires a process group and a timeout".to_owned(),
            ArgumentError::ScopeValueMissing => "scope options require a value".to_owned(),
            ArgumentError::Unknown(option) => {
                let mut text = "unknown argument: ".to_owned();
                text.append(option.as_str());
                text
            },
        }
    }
}

/// Whether the window is to be shown at the start: if that was asked for, or if the manager
/// does not start hidden.
pub fn shows_window(show_window: bool, minimize_to_tray: bool) -> (shows: bool)
    ensures
        shows == (show_window || !minimize_to_tray),
{
    show_window || !minimize_to_tray
}

/// The arguments that a watchdog is started with ask for that watchdog, with what they say of
/// its group, its time and its scope.
pub proof fn law_watchdog_arguments_are_understood(
    pgid: int,
    timeout_ms: nat,
    unit: Seq<char>,
    words: Seq<Seq<char>>,
    cgroup: Seq<u8>,
    systemctl: Seq<u8>,
)
    requires
        i32::MIN <= pgid <= i32::MAX,
        timeout_ms <= u64::MAX,
        words.len() == 9,
        words[0] == "--process-watchdog"@,
        words[1] == signed_decimal(pgid),
        words[2] == decimal(timeout_ms),
        words[3] == "--scope-unit"@,
        words[4] == unit,
        words[5] == "--scope-cgroup"@,
        words[7] == "--scope-systemctl"@,
    ensures
        ({
            let group = group_arguments(pgid, timeout_ms);
            let whole = group + scope_arguments(unit, cgroup, systemctl);
            let watch = CommandLine { watch: Some((pgid, timeout_ms)), ..nothing_known() };
            &&& meaning(words.take(3), group, 0, nothing_known()) == Meaning::Run(watch)
            &&& meaning(words, whole, 0, nothing_known()) == Meaning::Run(
                CommandLine {
                    unit: Some(unit),
                    cgroup: Some(cgroup),
                    systemctl: Some(systemctl),
                    ..watch
                },
            )
        }),
{
    lemma_parse_signed(pgid);
    lemma_parse_decimal(timeout_ms, u64::MAX as nat);
    lemma_options_differ();
    let group = group_arguments(pgid, timeout_ms);
    let whole = group + scope_arguments(unit, cgroup, systemctl);
    let first = words.take(3);
    assert(first[0] == words[0] && first[1] == words[1] && first[2] == words[2]);
    assert(watch_values(words, 0) == Some((pgid, timeout_ms)));
    assert(watch_values(first, 0) == Some((pgid, timeout_ms)));
    assert(whole[6] == cgroup);
    assert(whole[8] == systemctl);
    let start = nothing_known();
    let watch = CommandLine { watch: Some((pgid, timeout_ms)), ..start };
    let with_unit = CommandLine { unit: Some(unit), ..watch };
    let with_cgroup = CommandLine { cgroup: Some(cgroup), ..with_unit };
    let with_all = CommandLine { systemctl: Some(systemctl), ..with_cgroup };
    assert(meaning(first, group, 0, start) == meaning(first, group, 3, watch));
    assert(meaning(words, whole, 0, start) == meaning(words, whole, 3, watch));
    assert(meaning(words, whole, 3, watch) == meaning(words, whole, 5, with_unit));
    assert(meaning(words, whole, 5, with_unit) == meaning(words, whole, 7, with_cgroup));
    assert(meaning(words, whole, 7, with_cgroup) == meaning(words, whole, 9, with_all));
}

proof fn lemma_options_differ()
    ensures
        "--process-watchdog"@.len() == 18,
        "--scope-unit"@.len() == 12,
        "--scope-cgroup"@.len() == 14,
        "--scope-systemctl"@.len() == 17,
        "--config"@.len() == 8,
        "--check-config"@.len() == 14,
        "--scope-cgroup"@ != "--check-config"@,
        "--show"@.len() == 6,
        "--autostart"@.len() == 11,
        "--version"@.len() == 9,
        "-V"@.len() == 2,
        "--help"@.len() == 6,
        "-h"@.len() == 2,
        "--help"@ != "--show"@,
        "-h"@ != "-V"@,
{
    reveal_strlit("--process-watchdog");
    reveal_strlit("--scope-unit");
    reveal_strlit("--scope-cgroup");
    reveal_strlit("--scope-systemctl");
    reveal_strlit("--config");
    reveal_strlit("--check-config");
    reveal_strlit("--show");
    reveal_strlit("--autostart");
    reveal_strlit("--version");
    reveal_strlit("-V");
    reveal_strlit("--help");
    reveal_strlit("-h");
    assert("--help"@[2] == 'h' && "--help"@[3] == 'e');
    assert("--show"@[2] == 's');
    assert("-h"@[1] == 'h');
    assert("-V"@[1] == 'V');
    assert("--scope-cgroup"@[2] == 's');
    assert("--check-config"@[2] == 'c');
}

/// Before a watchdog is asked for, each option says what it says, and what follows says the rest;
/// a word that is no option is refused by its name. At the end of the words the manager is run.
pub proof fn law_options_of_the_manager(
    words: Seq<Seq<char>>,
    args: Seq<Seq<u8>>,
    i: int,
    known: CommandLine,
)
    requires
        0 <= i < words.len(),
        known.watch is None,
    ensures
        meaning(words, args, words.len() as int, known) == Meaning::Run(known),
        words[i] == "--config"@ && i + 1 < words.len() ==> meaning(words, args, i, known) == meaning(
            words,
            args,
            i + 2,
            CommandLine { config: Some(args[i + 1]), ..known },
        ),
        words[i] == "--config"@ && i + 1 == words.len() ==> meaning(words, args, i, known)
            == Meaning::ConfigPathMissing,
        words[i] == "--check-config"@ ==> meaning(words, args, i, known) == meaning(
            words,
            args,
            i + 1,
            CommandLine { check_only: true, ..known },
        ),
        words[i] == "--show"@ ==> meaning(words, args, i, known) == meaning(
            words,
            args,
            i + 1,
            CommandLine { show_window: true, ..known },
        ),
        words[i] == "--autostart"@ ==> meaning(words, args, i, known) == meaning(
            words,
            args,
            i + 1,
            CommandLine { autostart: true, ..known },
        ),
        words[i] == "--version"@ || words[i] == "-V"@ ==> meaning(words, args, i, known)
            == Meaning::Version,
        words[i] == "--help"@ || words[i] == "-h"@ ==> meaning(words, args, i, known)
            == Meaning::Help,
        words[i] == "--scope-unit"@ || words[i] == "--scope-cgroup"@ || words[i]
            == "--scope-systemctl"@ || (words[i] == "--process-watchdog"@ && i > 0) ==> meaning(
            words,
            args,
            i,
            known,
        ) == Meaning::Unknown(words[i]),
        words[i] != "--config"@ && words[i] != "--check-config"@ && words[i] != "--show"@ && words[i]
            != "--autostart"@ && words[i] != "--version"@ && words[i] != "-V"@ && words[i]
            != "--help"@ && words[i] != "-h"@ && words[i] != "--process-watchdog"@ ==> meaning(
            words,
            args,
            i,
            known,
        ) == Meaning::Unknown(words[i]),
{
    lemma_options_differ();
}

/// A watchdog is asked for by the first word, with a group and a time behind it; behind these each
/// option for a scope says what it says, and anything else is refused by its name.
pub proof fn law_options_of_a_watchdog(
    words: Seq<Seq<char>>,
    args: Seq<Seq<u8>>,
    i: int,
    known: CommandLine,
    pgid: int,
    timeout_ms: nat,
)
    requires
        0 <= i < words.len(),
        known.watch is Some,
    ensures
        words[0] == "--process-watchdog"@ && words.len() >= 3 && parse_signed(words[1]) == Some(pgid)
            && parse_unsigned(words[2], u64::MAX as nat) == Some(timeout_ms) ==> meaning(
            words,
            args,
            0,
            nothing_known(),
        ) == meaning(
            words,
            args,
            3,
            CommandLine { watch: Some((pgid, timeout_ms)), ..nothing_known() },
        ),
        words[0] == "--process-watchdog"@ && (words.len() < 3 || parse_signed(words[1]) is None
            || parse_unsigned(words[2], u64::MAX as nat) is None) ==> meaning(
            words,
            args,
            0,
            nothing_known(),
        ) == Meaning::WatchdogValuesMissing,
        words[i] == "--scope-unit"@ && i + 1 < words.len() ==> meaning(words, args, i, known)
            == meaning(words, args, i + 2, CommandLine { unit: Some(words[i + 1]), ..known }),
        words[i] == "--scope-cgroup"@ && i + 1 < words.len() ==> meaning(words, args, i, known)
            == meaning(words, args, i + 2, CommandLine { cgroup: Some(args[i + 1]), ..known }),
        words[i] == "--scope-systemctl"@ && i + 1 < words.len() ==> meaning(words, args, i, known)
            == meaning(words, args, i + 2, CommandLine { systemctl: Some(args[i + 1]), ..known }),
        words[i] != "--scope-unit"@ && words[i] != "--scope-cgroup"@ && words[i]
            != "--scope-systemctl"@ ==> meaning(words, args, i, known) == Meaning::Unknown(words[i]),
        nothing_known().config is None && nothing_known().watch is None && nothing_known().unit is None
            && nothing_known().cgroup is None && nothing_known().systemctl is None,
        !nothing_known().check_only && !nothing_known().show_window && !nothing_known().autostart,
{
    lemma_options_differ();
}

/// The manager is run with all that the options say, or the watchdog with all that its options say.
pub proof fn law_invocation_holds_what_is_said(
    run: RunRequest,
    watch: WatchRequest,
    known: CommandLine,
)
    ensures
        is_meant(Ok(Invocation::Run(run)), Meaning::Run(known)) <==> known.watch is None && (
        match run.config {
            Some(path) => known.config == Some(path@),
            None => known.config is None,
        }) && run.check_only == known.check_only && run.show_window == known.show_window
            && run.autostart == known.autostart,
        is_meant(Ok(Invocation::Watch(watch)), Meaning::Run(known)) ==> known.watch == Some(
            (watch.pgid as int, watch.timeout_ms as nat),
        ) && (match watch.unit {
            Some(unit) => known.unit == Some(unit@),
            None => known.unit is None,
        }) && (match watch.cgroup {
            Some(path) => known.cgroup == Some(path@),
            None => known.cgroup is None,
        }) && (match watch.systemctl {
            Some(path) => known.systemctl == Some(path@),
            None => known.systemctl is None,
        }),
        !is_meant(Ok(Invocation::Version), Meaning::Run(known)),
        !is_meant(Ok(Invocation::Help), Meaning::Run(known)),
        !is_meant(Err(ArgumentError::ConfigPathMissing), Meaning::Run(known)),
        !is_meant(Err(ArgumentError::WatchdogValuesMissing), Meaning::Run(known)),
        !is_meant(Err(ArgumentError::ScopeValueMissing), Meaning::Run(known)),
{
}

/// Where no argument is left, what is known is what is meant; an option of a scope that stands last
/// lacks its value.
pub proof fn law_end_of_the_arguments(
    words: Seq<Seq<char>>,
    args: Seq<Seq<u8>>,
    known: CommandLine,
)
    ensures
        meaning(words, args, words.len() as int, known) == Meaning::Run(known),
        known.watch is Some && words.len() > 0 && (words.last() == "--scope-unit"@ || words.last()
            == "--scope-cgroup"@ || words.last() == "--scope-systemctl"@) ==> meaning(
            words,
            args,
            words.len() - 1,
            known,
        ) == Meaning::ScopeValueMissing,
{
}

/// Each meaning has its own answer: no other answer is given for it.
pub proof fn law_answer_to_each_meaning(
    invocation: Result<Invocation, ArgumentError>,
    option: Seq<char>,
    known: CommandLine,
)
    ensures
        is_meant(invocation, Meaning::Version) <==> invocation == Ok::<Invocation, ArgumentError>(
            Invocation::Version,
        ),
        is_meant(invocation, Meaning::Help) <==> invocation == Ok::<Invocation, ArgumentError>(
            Invocation::Help,
        ),
        is_meant(invocation, Meaning::ConfigPathMissing) <==> invocation == Err::<
            Invocation,
            ArgumentError,
        >(ArgumentError::ConfigPathMissing),
        is_meant(invocation, Meaning::WatchdogValuesMissing) <==> invocation == Err::<
            Invocation,
            ArgumentError,
        >(ArgumentError::WatchdogValuesMissing),
        is_meant(invocation, Meaning::ScopeValueMissing) <==> invocation == Err::<
            Invocation,
            ArgumentError,
        >(ArgumentError::ScopeValueMissing),
        is_meant(invocation, Meaning::Unknown(option)) <==> match invocation {
            Err(ArgumentError::Unknown(text)) => text@ == option,
            _ => false,
        },
        is_meant(invocation, Meaning::Run(known)) ==> match invocation {
            Ok(Invocation::Run(_)) => known.watch is None,
            Ok(Invocation::Watch(_)) => known.watch is Some,
            _ => false,
        },
{
}

/// What is said of arguments that are not understood names what is wrong.
pub proof fn law_wrong_arguments_are_told(option: String)
    ensures
        ArgumentError::ConfigPathMissing.text() == "--config requires a path"@,
        ArgumentError::WatchdogValuesMissing.text()
            == "--process-watchdog requires a process group and a timeout"@,
        ArgumentError::ScopeValueMissing.text() == "scope options require a value"@,
        ArgumentError::Unknown(option).text() == "unknown argument: "@ + option@,
{
}

/// Arguments are read as text, each by itself.
pub proof fn law_arguments_as_text(args: Seq<Seq<u8>>, i: int)
    ensures
        lossy_words(args).len() == args.len(),
        0 <= i < args.len() ==> lossy_words(args)[i] == utf8_lossy(args[i]),
{
}

} // verus!
