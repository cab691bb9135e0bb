//! What is run for a tool: the command itself, the command within a scope of systemd, and the
//! watchdog that stops the processes of a tool when the manager is gone.
//!
//! Programs, arguments and paths are sequences of bytes.
use vstd::prelude::*;
use vstd::utf8::encode_utf8;
use crate::config::ToolConfig;
use crate::number::push_decimal;
use crate::paths::copy_of;
use crate::text::{chars_of, has_prefix, has_suffix};
#[allow(unused_imports)]
use crate::number::{decimal, is_digit, lemma_decimal_injective, lemma_decimal_round_trip};
#[allow(unused_imports)]
use crate::text::{ends_with, starts_with};

verus! {

/// The systems that the manager runs on.
#[derive(Clone, Copy, Debug, PartialEq, Eq, Structural)]
pub enum Platform {
    Linux,
    Windows,
}

/// A sequence of byte strings.
pub open spec fn byte_strings(strings: Seq<Vec<u8>>) -> Seq<Seq<u8>> {
    Seq::new(strings.len(), |i: int| strings[i]@)
}

/// What is to be run, and how.
pub struct LaunchSpec {
    pub program: Vec<u8>,
    pub arguments: Vec<Vec<u8>>,
    /// The directory to run it in, unless in that of the manager.
    pub directory: Option<Vec<u8>>,
    /// Variables of the environment that are set, or taken away.
    pub environment: Vec<(Vec<u8>, Option<Vec<u8>>)>,
}

/// `LaunchSpec` without its representation.
pub struct LaunchModel {
    pub program: Seq<u8>,
    pub arguments: Seq<Seq<u8>>,
    pub directory: Option<Seq<u8>>,
    pub environment: Seq<(Seq<u8>, Option<Seq<u8>>)>,
}

/// The bytes of an optional byte string.
pub open spec fn optional_bytes(bytes: Option<Vec<u8>>) -> Option<Seq<u8>> {
    match bytes {
        Some(bytes) => Some(bytes@),
        None => None,
    }
}

impl View for LaunchSpec {
    type V = LaunchModel;

    open spec fn view(&self) -> LaunchModel {
        LaunchModel {
            program: self.program@,
            arguments: byte_strings(self.arguments@),
            directory: optional_bytes(self.directory),
            environment: Seq::new(
                self.environment@.len(),
                |i: int| (self.environment@[i].0@, optional_bytes(self.environment@[i].1)),
            ),
        }
    }
}

/// Why a tool cannot be run.
#[derive(Clone, Copy, Debug, PartialEq, Eq, Structural)]
pub enum LaunchFault {
    /// The directory that it is to run in is not there.
    DirectoryMissing,
    /// It needs elevated rights, which the manager does not have.
    NeedsElevation,
}

/// The bytes of some texts.
pub open spec fn encoded(strings: Seq<String>) -> Seq<Seq<u8>> {
    Seq::new(strings.len(), |i: int| encode_utf8(strings[i]@))
}

/// What is to be run for a tool, where `directory_exists` says whether the directory that it is
/// to run in is there. A tool that needs elevated rights is not run without them.
pub fn launch_spec(config: &ToolConfig, directory_exists: bool) -> (launch: Result<
    LaunchSpec,
    LaunchFault,
>)
    ensures
        match launch {
            Ok(launch) => {
                &&& !config.admin
                &&& config.workdir is Some ==> directory_exists
                &&& launch@.program == encode_utf8(config.command@)
                &&& launch@.arguments == encoded(config.args@)
                &&& launch@.directory == match config.workdir {
                    Some(workdir) => Some(encode_utf8(workdir@)),
                    None => None,
                }
                &&& launch@.environment.len() == 0
            },
            Err(LaunchFault::DirectoryMissing) => config.workdir is Some && !directory_exists,
            Err(LaunchFault::NeedsElevation) => config.admin && (config.workdir is Some
                ==> directory_exists),
        },
{
    let directory: Option<Vec<u8>> = match &config.workdir {
        Some(workdir) => {
            if !directory_exists {
                return Err(LaunchFault::DirectoryMissing);
            }
            Some(copy_of(workdir.as_str().as_bytes()))
        },
        None => None,
    };
    if config.admin {
        return Err(LaunchFault::NeedsElevation);
    }
    let mut arguments: Vec<Vec<u8>> = Vec::new();
    let mut i: usize = 0;
    while i < config.args.len()
        invariant
            i <= config.args@.len(),
            arguments@.len() == i,
            forall|j: int|
                0 <= j < i ==> (#[trigger] arguments@[j])@ == encode_utf8(config.args@[j]@),
        decreases config.args@.len() - i,
    {
        arguments.push(copy_of(config.args[i].as_str().as_bytes()));
        i += 1;
    }
    let launch = LaunchSpec {
        program: copy_of(config.command.as_str().as_bytes()),
        arguments,
        directory,
        environment: Vec::new(),
    };
    assert(launch@.arguments =~= encoded(config.args@));
    Ok(launch)
}

impl LaunchFault {
    /// The fault of the tool `config` in words.
    pub open spec fn text(self, config: ToolConfig, platform: Platform) -> Seq<char> {
        match self {
            LaunchFault::DirectoryMissing => "working directory does not exist: "@ + (
            match config.workdir {
                Some(workdir) => workdir@,
                None => Seq::empty(),
            }),
            LaunchFault::NeedsElevation => match platform {
                Platform::Linux =>
                    "admin=true requires Polkit support, which is outside the first-stage Linux MVP"@,
                Platform::Windows =>
                    "admin=true requires the elevated helper, which is outside the first-stage Windows MVP"@,
            },
        }
    }

    /// The fault of the tool `config` in words.
    pub fn message(self, config: &ToolConfig, platform: Platform) -> (text: String)
        ensures
            text@ == self.text(*config, platform),
    {
        match self {
            LaunchFault::DirectoryMissing => {
                let mut text = "working directory does not exist: ".to_owned();
                match &config.workdir {
                    Some(workdir) => text.append(workdir.as_str()),
                    None => {},
                }
                assert(text@ =~= self.text(*config, platform));
                text
            },
            LaunchFault::NeedsElevation => match platform {
                Platform::Linux =>
                    "admin=true requires Polkit support, which is outside the first-stage Linux MVP".to_owned(),
                Platform::Windows =>
                    "admin=true requires the elevated helper, which is outside the first-stage Windows MVP".to_owned(),
            },
        }
    }
}

// ---------------------------------------------------------------------------
// Scopes
// ---------------------------------------------------------------------------

/// The name of a scope.
pub open spec fn scope_unit(kind: Seq<char>, pid: nat, sequence: nat) -> Seq<char> {
    "winkeeper-"@ + kind.push('-') + decimal(pid).push('-') + decimal(sequence) + ".scope"@
}

/// The name of a scope of the given kind, where `pid` is the manager's process and `sequence`
/// tells its scopes apart.
pub fn next_scope_unit(kind: &str, pid: u32, sequence: u64) -> (unit: String)
    ensures
        unit@ == scope_unit(kind@, pid as nat, sequence as nat),
{
    let mut unit = "winkeeper-".to_owned();
    unit.append(kind);
    unit.push('-');
    push_decimal(&mut unit, pid as u64);
    unit.push('-');
    push_decimal(&mut unit, sequence);
    unit.append(".scope");
    assert(unit@ =~= scope_unit(kind@, pid as nat, sequence as nat));
    unit
}

/// Whether a name is that of a scope of a tool.
pub open spec fn names_tool_scope(name: Seq<char>) -> bool {
    starts_with(name, "winkeeper-tool-"@) && ends_with(name, ".scope"@)
}

/// Whether `name` is that of a scope of a tool.
pub fn is_tool_scope(name: &str) -> (yes: bool)
    ensures
        yes == names_tool_scope(name@),
{
    let chars = chars_of(name);
    has_prefix(chars.as_slice(), "winkeeper-tool-") && has_suffix(chars.as_slice(), ".scope")
}

/// The scope of a tool can be told by its name.
pub proof fn law_tool_scope_is_recognized(pid: nat, sequence: nat)
    ensures
        names_tool_scope(scope_unit("tool"@, pid, sequence)),
{
    reveal_strlit("tool");
    reveal_strlit("winkeeper-");
    reveal_strlit("winkeeper-tool-");
    reveal_strlit(".scope");
    let unit = scope_unit("tool"@, pid, sequence);
    assert(unit.subrange(0, 15) =~= "winkeeper-tool-"@);
    assert(unit.subrange(unit.len() - 6, unit.len() as int) =~= ".scope"@);
}

/// The scope of a watchdog is not taken for one of a tool.
pub proof fn law_watchdog_scope_is_no_tool_scope(pid: nat, sequence: nat)
    ensures
        !names_tool_scope(scope_unit("watchdog"@, pid, sequence)),
{
    reveal_strlit("watchdog");
    reveal_strlit("winkeeper-");
    reveal_strlit("winkeeper-tool-");
    let unit = scope_unit("watchdog"@, pid, sequence);
    assert(unit[10] == 'w');
    assert("winkeeper-tool-"@[10] == 't');
    if starts_with(unit, "winkeeper-tool-"@) {
        assert(unit.subrange(0, 15)[10] == "winkeeper-tool-"@[10]);
    }
}

/// Two scopes of one kind have the same name only if they are the same scope of the same
/// process.
pub proof fn law_scopes_differ(kind: Seq<char>, pid: nat, sequence: nat, pid2: nat, sequence2: nat)
    requires
        scope_unit(kind, pid, sequence) == scope_unit(kind, pid2, sequence2),
    ensures
        pid == pid2,
        sequence == sequence2,
{
    let start = "winkeeper-"@ + kind.push('-');
    let n = start.len() as int;
    let a = decimal(pid);
    let b = decimal(pid2);
    let x = scope_unit(kind, pid, sequence);
    let y = scope_unit(kind, pid2, sequence2);
    lemma_decimal_round_trip(pid);
    lemma_decimal_round_trip(pid2);
    assert(x[n + a.len()] == '-');
    assert(y[n + b.len()] == '-');
    assert forall|i: int| 0 <= i < a.len() implies x[n + i] == a[i] && a[i] != '-' by {
        assert(is_digit(a[i]));
    }
    assert forall|i: int| 0 <= i < b.len() implies y[n + i] == b[i] && b[i] != '-' by {
        assert(is_digit(b[i]));
    }
    if a.len() < b.len() {
        assert(b[a.len() as int] != '-');
        assert(y[n + a.len()] == b[a.len() as int]);
    } else if b.len() < a.len() {
        assert(a[b.len() as int] != '-');
        assert(x[n + b.len()] == a[b.len() as int]);
    }
    assert(a =~= b) by {
        assert forall|i: int| 0 <= i < a.len() implies a[i] == b[i] by {
            assert(x[n + i] == a[i]);
            assert(y[n + i] == b[i]);
        }
    }
    lemma_decimal_injective(pid, pid2);
    let c = decimal(sequence);
    let d = decimal(sequence2);
    let m = n + a.len() + 1;
    let e = ".scope"@.len() as int;
    assert(x.len() == m + c.len() + e);
    assert(y.len() == m + d.len() + e);
    assert(c =~= x.subrange(m, m + c.len()));
    assert(d =~= y.subrange(m, m + d.len()));
    lemma_decimal_injective(sequence, sequence2);
}

/// The arguments that go before the command in a scope.
pub open spec fn scope_arguments(unit: Seq<char>, description: Seq<char>) -> Seq<Seq<u8>> {
    seq![
        encode_utf8("--user"@),
        encode_utf8("--scope"@),
        encode_utf8("--quiet"@),
        encode_utf8("--unit="@ + unit),
        encode_utf8("--description="@ + description),
        encode_utf8("--property=KillMode=control-group"@),
        encode_utf8("--"@),
    ]
}

/// What is to be run so that a command runs in a scope: another program, with arguments that
/// end with the command, in the same directory and with the same environment.
pub open spec fn scoped(
    launch: LaunchModel,
    run: Seq<u8>,
    unit: Seq<char>,
    description: Seq<char>,
) -> LaunchModel {
    LaunchModel {
        program: run,
        arguments: scope_arguments(unit, description).push(launch.program) + launch.arguments,
        ..launch
    }
}

fn literal(text: &str) -> (bytes: Vec<u8>)
    ensures
        bytes@ == encode_utf8(text@),
{
    copy_of(text.as_bytes())
}

/// What is to be run so that `launch` runs in the scope `unit`, where `run` is the program that
/// makes scopes.
pub fn wrap_command_in_scope(
    launch: LaunchSpec,
    run: &[u8],
    unit: &str,
    description: &str,
) -> (wrapped: LaunchSpec)
    ensures
        wrapped@ == scoped(launch@, run@, unit@, description@),
{
    let ghost before = launch@;
    let mut unit_argument = "--unit=".to_owned();
    unit_argument.append(unit);
    let mut description_argument = "--description=".to_owned();
    description_argument.append(description);
    let mut arguments: Vec<Vec<u8>> = Vec::new();
    arguments.push(literal("--user"));
    arguments.push(literal("--scope"));
    arguments.push(literal("--quiet"));
    arguments.push(literal(unit_argument.as_str()));
    arguments.push(literal(description_argument.as_str()));
    arguments.push(literal("--property=KillMode=control-group"));
    arguments.push(literal("--"));
    arguments.push(launch.program);
    let ghost start = byte_strings(arguments@);
    assert(start =~= scope_arguments(unit@, description@).push(before.program));
    let mut rest = launch.arguments;
    let ghost others = byte_strings(rest@);
    let ghost given = arguments@;
    arguments.append(&mut rest);
    assert(byte_strings(arguments@) =~= start + others);
    LaunchSpec {
        program: copy_of(run),
        arguments,
        directory: launch.directory,
        environment: launch.environment,
    }
}

/// A command in a scope is run as it would be without: it and its arguments stand, unchanged
/// and in order, behind the mark that ends the options, and its directory and environment are
/// the same.
pub proof fn law_scope_keeps_the_command(
    launch: LaunchModel,
    run: Seq<u8>,
    unit: Seq<char>,
    description: Seq<char>,
)
    ensures
        ({
            let wrapped = scoped(launch, run, unit, description);
            &&& wrapped.program == run
            &&& wrapped.arguments[6] == encode_utf8("--"@)
            &&& wrapped.arguments.skip(7) == seq![launch.program] + launch.arguments
            &&& wrapped.directory == launch.directory
            &&& wrapped.environment == launch.environment
        }),
{
    let wrapped = scoped(launch, run, unit, description);
    assert(wrapped.arguments.skip(7) =~= seq![launch.program] + launch.arguments);
}

/// A scope is called by its kind, the manager's process and its number; the name is that of a
/// tool's scope exactly if it starts and ends as such names do.
pub proof fn law_name_of_a_scope(kind: Seq<char>, pid: nat, sequence: nat, name: Seq<char>)
    ensures
        scope_unit(kind, pid, sequence) == "winkeeper-"@ + kind + "-"@ + decimal(pid) + "-"@ + decimal(
            sequence,
        ) + ".scope"@,
        names_tool_scope(name) <==> "winkeeper-tool-"@.is_prefix_of(name) && ".scope"@.is_suffix_of(
            name,
        ),
{
    reveal_strlit("-");
    assert(scope_unit(kind, pid, sequence) =~= "winkeeper-"@ + kind + "-"@ + decimal(pid) + "-"@
        + decimal(sequence) + ".scope"@);
}

/// The options before a command in a scope name the scope and its description, and have all its
/// processes stopped together.
pub proof fn law_options_of_a_scope(unit: Seq<char>, description: Seq<char>)
    ensures
        ({
            let options = scope_arguments(unit, description);
            &&& options.len() == 7
            &&& options[0] == encode_utf8("--user"@)
            &&& options[1] == encode_utf8("--scope"@)
            &&& options[2] == encode_utf8("--quiet"@)
            &&& options[3] == encode_utf8("--unit="@ + unit)
            &&& options[4] == encode_utf8("--description="@ + description)
            &&& options[5] == encode_utf8("--property=KillMode=control-group"@)
            &&& options[6] == encode_utf8("--"@)
        }),
{
}

/// A launch is taken byte for byte, its arguments and its variables one by one.
pub proof fn law_launch_is_taken_as_it_stands(
    launch: LaunchSpec,
    strings: Seq<String>,
    bytes: Vec<u8>,
    i: int,
)
    ensures
        launch@.program == launch.program@,
        launch@.arguments.len() == launch.arguments@.len(),
        0 <= i < launch.arguments@.len() ==> launch@.arguments[i] == launch.arguments@[i]@,
        launch.directory == Some(bytes) ==> launch@.directory == Some(bytes@),
        launch.directory is None ==> launch@.directory is None,
        launch@.environment.len() == launch.environment@.len(),
        0 <= i < launch.environment@.len() ==> launch@.environment[i].0
            == launch.environment@[i].0@,
        0 <= i < launch.environment@.len() && launch.environment@[i].1 == Some(bytes)
            ==> launch@.environment[i].1 == Some(bytes@),
        0 <= i < launch.environment@.len() && launch.environment@[i].1 is None
            ==> launch@.environment[i].1 is None,
        encoded(strings).len() == strings.len(),
        0 <= i < strings.len() ==> encoded(strings)[i] == encode_utf8(strings[i]@),
{
}

/// What is said of a tool that cannot be launched names the directory that it lacks, or what the
/// platform lacks.
pub proof fn law_refused_launch_is_told(config: ToolConfig, workdir: String, platform: Platform)
    ensures
        config.workdir == Some(workdir) ==> LaunchFault::DirectoryMissing.text(config, platform)
            == "working directory does not exist: "@ + workdir@,
        LaunchFault::NeedsElevation.text(config, Platform::Linux)
            == "admin=true requires Polkit support, which is outside the first-stage Linux MVP"@,
        LaunchFault::NeedsElevation.text(config, Platform::Windows)
            == "admin=true requires the elevated helper, which is outside the first-stage Windows MVP"@,
{
}

} // verus!
