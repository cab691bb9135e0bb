//! The watchdog of a tool's processes, and how these are told to stop.
//!
//! A watchdog is a process of its own that waits for the manager to let go of it. When the
//! manager is gone, it stops the processes; when the manager says so first, it ends without
//! doing anything.
use vstd::prelude::*;
use vstd::utf8::encode_utf8;
use crate::launch::byte_strings;
use crate::number::{push_decimal, push_signed};
use crate::paths::copy_of;
#[allow(unused_imports)]
use crate::number::{decimal, signed_decimal};
#[allow(unused_imports)]
use crate::text::joined;

verus! {

/// The scope of a tool, as a watchdog knows it.
pub struct WatchScope {
    pub unit: String,
    pub cgroup: Vec<u8>,
    pub systemctl: Vec<u8>,
}

/// The byte by which a watchdog says that it is ready.
pub const READY: u8 = 82;

/// The byte by which the manager lets a watchdog end without doing anything.
pub const DISARM: u8 = 68;

/// The arguments that make the manager's program a watchdog for a group of processes.
pub open spec fn group_arguments(pgid: int, timeout_ms: nat) -> Seq<Seq<u8>> {
    seq![
        encode_utf8("--process-watchdog"@),
        encode_utf8(signed_decimal(pgid)),
        encode_utf8(decimal(timeout_ms)),
    ]
}

/// The arguments that tell a watchdog of a scope.
pub open spec fn scope_arguments(unit: Seq<char>, cgroup: Seq<u8>, systemctl: Seq<u8>) -> Seq<
    Seq<u8>,
> {
    seq![
        encode_utf8("--scope-unit"@),
        encode_utf8(unit),
        encode_utf8("--scope-cgroup"@),
        cgroup,
        encode_utf8("--scope-systemctl"@),
        systemctl,
    ]
}

/// The arguments that make the manager's program a watchdog for the group `pgid`, and for a
/// scope if there is one.
pub fn watchdog_arguments(pgid: i32, timeout_ms: u64, scope: &Option<WatchScope>) -> (arguments:
    Vec<Vec<u8>>)
    ensures
        byte_strings(arguments@) == match *scope {
            Some(scope) => group_arguments(pgid as int, timeout_ms as nat) + scope_arguments(
                scope.unit@,
                scope.cgroup@,
                scope.systemctl@,
            ),
            None => group_arguments(pgid as int, timeout_ms as nat),
        },
{
    let mut group = String::new();
    push_signed(&mut group, pgid);
    let mut time = String::new();
    push_decimal(&mut time, timeout_ms);
    assert(group@ =~= signed_decimal(pgid as int));
    assert(time@ =~= decimal(timeout_ms as nat));
    let mut arguments: Vec<Vec<u8>> = Vec::new();
    arguments.push(copy_of("--process-watchdog".as_bytes()));
    arguments.push(copy_of(group.as_str().as_bytes()));
    arguments.push(copy_of(time.as_str().as_bytes()));
    match scope {
        Some(scope) => {
            arguments.push(copy_of("--scope-unit".as_bytes()));
            arguments.push(copy_of(scope.unit.as_str().as_bytes()));
            arguments.push(copy_of("--scope-cgroup".as_bytes()));
            arguments.push(copy_of(scope.cgroup.as_slice()));
            arguments.push(copy_of("--scope-systemctl".as_bytes()));
            arguments.push(copy_of(scope.systemctl.as_slice()));
            assert(byte_strings(arguments@) =~= group_arguments(pgid as int, timeout_ms as nat)
                + scope_arguments(scope.unit@, scope.cgroup@, scope.systemctl@));
        },
        None => {
            assert(byte_strings(arguments@) =~= group_arguments(pgid as int, timeout_ms as nat));
        },
    }
    arguments
}

/// Why a watchdog cannot do its work.
#[derive(Clone, Copy, Debug, PartialEq, Eq, Structural)]
pub enum WatchdogFault {
    /// The group is none.
    NoGroup,
    /// Something is said of a scope, but not everything.
    IncompleteScope,
}

impl WatchdogFault {
    /// The fault in words.
    pub open spec fn text(self) -> Seq<char> {
        match self {
            WatchdogFault::NoGroup => "process watchdog requires a positive process group id"@,
            WatchdogFault::IncompleteScope =>
                "process watchdog scope arguments must be provided together"@,
        }
    }

    /// The fault in words.
    pub fn message(self) -> (text: String)
        ensures
            text@ == self.text(),
    {
        match self {
            WatchdogFault::NoGroup =>
                "process watchdog requires a positive process group id".to_owned(),
            WatchdogFault::IncompleteScope =>
                "process watchdog scope arguments must be provided together".to_owned(),
        }
    }
}

/// The scope that a watchdog for the group `pgid` was told of, if it was told of one.
pub fn watched_scope(
    pgid: i32,
    unit: Option<String>,
    cgroup: Option<Vec<u8>>,
    systemctl: Option<Vec<u8>>,
) -> (scope: Result<Option<WatchScope>, WatchdogFault>)
    ensures
        match scope {
            Err(WatchdogFault::NoGroup) => pgid <= 0,
            Err(WatchdogFault::IncompleteScope) => {
                &&& pgid > 0
                &&& unit is Some || cgroup is Some || systemctl is Some
                &&& unit is None || cgroup is None || systemctl is None
            },
            Ok(None) => pgid > 0 && unit is None && cgroup is None && systemctl is None,
            Ok(Some(scope)) => {
                &&& pgid > 0
                &&& unit == Some(scope.unit)
                &&& cgroup == Some(scope.cgroup)
                &&& systemctl == Some(scope.systemctl)
            },
        },
{
    if pgid <= 0 {
        return Err(WatchdogFault::NoGroup);
    }
    match (unit, cgroup, systemctl) {
        (Some(unit), Some(cgroup), Some(systemctl)) => Ok(
            Some(WatchScope { unit, cgroup, systemctl }),
        ),
        (None, None, None) => Ok(None),
        _ => Err(WatchdogFault::IncompleteScope),
    }
}

/// What a watchdog has read from the manager.
#[derive(Clone, Copy, Debug, PartialEq, Eq, Structural)]
pub enum ControlRead {
    /// Nothing more comes.
    End,
    /// A byte.
    Byte(u8),
    /// Nothing yet: the read was interrupted.
    Interrupted,
    /// The manager cannot be heard.
    Failed,
}

/// What a watchdog does next.
#[derive(Clone, Copy, Debug, PartialEq, Eq, Structural)]
pub enum WatchdogStep {
    /// It reads on.
    Wait,
    /// It ends without doing anything.
    Leave,
    /// It stops the processes.
    StopProcesses,
}

/// What a watchdog does next after what it has read. It leaves the processes alone only if the
/// manager said so.
pub fn watchdog_step(read: ControlRead) -> (step: WatchdogStep)
    ensures
        step == WatchdogStep::Wait <==> read == ControlRead::Interrupted,
        step == WatchdogStep::Leave <==> read == ControlRead::Byte(DISARM),
{
    match read {
        ControlRead::Interrupted => WatchdogStep::Wait,
        ControlRead::Byte(byte) => if byte == DISARM {
            WatchdogStep::Leave
        } else {
            WatchdogStep::StopProcesses
        },
        ControlRead::End => WatchdogStep::StopProcesses,
        ControlRead::Failed => WatchdogStep::StopProcesses,
    }
}

// ---------------------------------------------------------------------------
// Whether processes are there
// ---------------------------------------------------------------------------

/// What a look at the control group of a scope showed.
#[derive(Clone, Copy, Debug, PartialEq, Eq, Structural)]
pub enum CgroupReport {
    /// There is no scope, or its control group is not known.
    NoCgroup,
    /// Whether it has processes.
    Populated(bool),
    /// It could not be looked at.
    Unreadable,
}

/// What a look at a group of processes showed.
#[derive(Clone, Copy, Debug, PartialEq, Eq, Structural)]
pub enum GroupProbe {
    /// It has processes.
    Exists,
    /// It has processes that may not be signalled.
    Forbidden,
    /// It has none.
    Gone,
    /// It could not be looked at.
    Failed,
}

/// Whether a group has processes, as far as is known.
pub open spec fn group_exists(probe: GroupProbe) -> bool {
    probe == GroupProbe::Exists || probe == GroupProbe::Forbidden
}

/// Whether any of a tool's processes is there. In doubt about the control group one is; in
/// doubt about the group none is.
pub fn managed_tree_running(report: CgroupReport, probe: GroupProbe) -> (running: bool)
    ensures
        running == (report == CgroupReport::Populated(true) || report == CgroupReport::Unreadable
            || group_exists(probe)),
{
    let in_scope = match report {
        CgroupReport::NoCgroup => false,
        CgroupReport::Populated(populated) => populated,
        CgroupReport::Unreadable => true,
    };
    in_scope || matches!(probe, GroupProbe::Exists | GroupProbe::Forbidden)
}

/// Whether any of a tool's processes is there, where `pgid` is their group if they have one, or
/// that it is not known.
pub fn tree_running(report: CgroupReport, pgid: i32, probe: GroupProbe) -> (running: Option<bool>)
    ensures
        running == if report == CgroupReport::Unreadable {
            None
        } else if report == CgroupReport::Populated(true) {
            Some(true)
        } else if pgid <= 0 {
            Some(false)
        } else if probe == GroupProbe::Failed {
            None
        } else {
            Some(group_exists(probe))
        },
{
    match report {
        CgroupReport::Unreadable => {
            return None;
        },
        CgroupReport::Populated(true) => {
            return Some(true);
        },
        _ => {},
    }
    if pgid <= 0 {
        return Some(false);
    }
    match probe {
        GroupProbe::Exists => Some(true),
        GroupProbe::Forbidden => Some(true),
        GroupProbe::Gone => Some(false),
        GroupProbe::Failed => None,
    }
}

// ---------------------------------------------------------------------------
// The health of a watchdog
// ---------------------------------------------------------------------------

/// What a look at a watchdog showed.
#[derive(Clone, Copy, Debug, PartialEq, Eq, Structural)]
pub enum WatchdogStatus {
    Absent,
    Running,
    Exited,
}

/// What is to be done about a watchdog.
#[derive(Clone, Copy, Debug, PartialEq, Eq, Structural)]
pub enum HealthStep {
    /// Nothing.
    Healthy,
    /// A new one is started, and it is reported that there was none.
    Recreate,
    /// A new one is started, and it is reported that the old one has ended.
    Restart,
    /// It is reported that it has ended.
    Report,
}

/// What is to be done about a watchdog, where `running` tells whether any of the processes that
/// it watches is there, as far as that is known. Processes that may be there are not left
/// without a watchdog.
pub fn health_step(status: WatchdogStatus, running: Option<bool>) -> (step: HealthStep)
    ensures
        step == match status {
            WatchdogStatus::Running => HealthStep::Healthy,
            WatchdogStatus::Absent => if running == Some(false) {
                HealthStep::Healthy
            } else {
                HealthStep::Recreate
            },
            WatchdogStatus::Exited => if running == Some(false) {
                HealthStep::Report
            } else {
                HealthStep::Restart
            },
        },
{
    let gone = match running {
        Some(running) => !running,
        None => false,
    };
    match status {
        WatchdogStatus::Running => HealthStep::Healthy,
        WatchdogStatus::Absent => if gone {
            HealthStep::Healthy
        } else {
            HealthStep::Recreate
        },
        WatchdogStatus::Exited => if gone {
            HealthStep::Report
        } else {
            HealthStep::Restart
        },
    }
}

/// What is reported of a watchdog, where `status` tells how it has ended.
pub open spec fn health_report(step: HealthStep, status: Seq<char>) -> Option<Seq<char>> {
    match step {
        HealthStep::Healthy => None,
        HealthStep::Recreate => Some("process watchdog was unavailable and was recreated"@),
        HealthStep::Restart => Some(
            "process watchdog exited with "@ + status + " and was restarted"@,
        ),
        HealthStep::Report => Some("process watchdog exited with "@ + status),
    }
}

/// What is reported of a watchdog, where `status` tells how it has ended.
pub fn health_message(step: HealthStep, status: &str) -> (message: Option<String>)
    ensures
        match message {
            Some(message) => health_report(step, status@) == Some(message@),
            None => health_report(step, status@) is None,
        },
{
    match step {
        HealthStep::Healthy => None,
        HealthStep::Recreate => Some(
            "process watchdog was unavailable and was recreated".to_owned(),
        ),
        HealthStep::Restart => {
            let mut message = "process watchdog exited with ".to_owned();
            message.append(status);
            message.append(" and was restarted");
            Some(message)
        },
        HealthStep::Report => {
            let mut message = "process watchdog exited with ".to_owned();
            message.append(status);
            Some(message)
        },
    }
}

/// What the manager has heard of a watchdog that it has started.
#[derive(Clone, Copy, Debug, PartialEq, Eq, Structural)]
pub enum ReadyRead {
    /// A byte.
    Byte(u8),
    /// Nothing: it cannot be heard.
    Failed,
    /// Nothing in time.
    TimedOut,
}

/// What is wrong with a watchdog that was started, unless it is ready.
pub open spec fn ready_fault(read: ReadyRead) -> Option<Seq<char>> {
    match read {
        ReadyRead::Byte(byte) => if byte == READY {
            None
        } else {
            Some("process watchdog failed to become ready"@)
        },
        ReadyRead::Failed => Some("process watchdog failed to become ready"@),
        ReadyRead::TimedOut => Some("process watchdog readiness timed out"@),
    }
}

/// What is wrong with a watchdog that was started, unless it is ready.
pub fn ready_message(read: ReadyRead) -> (message: Option<String>)
    ensures
        match message {
            Some(message) => ready_fault(read) == Some(message@),
            None => ready_fault(read) is None,
        },
{
    match read {
        ReadyRead::Byte(byte) => if byte == READY {
            None
        } else {
            Some("process watchdog failed to become ready".to_owned())
        },
        ReadyRead::Failed => Some("process watchdog failed to become ready".to_owned()),
        ReadyRead::TimedOut => Some("process watchdog readiness timed out".to_owned()),
    }
}

/// What is done with a watchdog that is no longer needed.
#[derive(Clone, Copy, Debug, PartialEq, Eq, Structural)]
pub enum Farewell {
    /// The manager lets go of it, and it stops the processes.
    LetGo,
    /// The manager lets it end without doing anything.
    Disarm,
}

/// What is done with a watchdog that is no longer needed: it is disarmed only if none of the
/// processes is there.
pub fn farewell(running: Option<bool>) -> (done: Farewell)
    ensures
        done == if running == Some(false) {
            Farewell::Disarm
        } else {
            Farewell::LetGo
        },
{
    match running {
        Some(false) => Farewell::Disarm,
        _ => Farewell::LetGo,
    }
}

// ---------------------------------------------------------------------------
// Signals
// ---------------------------------------------------------------------------

/// The signals by which processes are told to stop.
#[derive(Clone, Copy, Debug, PartialEq, Eq, Structural)]
pub enum StopSignal {
    /// They may finish what they do.
    Terminate,
    /// They end at once.
    Kill,
}

/// The name of a signal.
pub open spec fn name_of_signal(signal: StopSignal) -> Seq<char> {
    match signal {
        StopSignal::Terminate => "SIGTERM"@,
        StopSignal::Kill => "SIGKILL"@,
    }
}

/// The name of a signal.
pub fn signal_name(signal: StopSignal) -> (name: String)
    ensures
        name@ == name_of_signal(signal),
{
    match signal {
        StopSignal::Terminate => "SIGTERM".to_owned(),
        StopSignal::Kill => "SIGKILL".to_owned(),
    }
}

/// The arguments that make the service manager signal all processes of a scope.
pub fn signal_arguments(unit: &str, signal: StopSignal) -> (arguments: Vec<Vec<u8>>)
    ensures
        byte_strings(arguments@) == seq![
            encode_utf8("--user"@),
            encode_utf8("--no-ask-password"@),
            encode_utf8("kill"@),
            encode_utf8("--kill-whom=all"@),
            encode_utf8("--signal="@ + name_of_signal(signal)),
            encode_utf8(unit@),
        ],
{
    let name = signal_name(signal);
    let mut argument = "--signal=".to_owned();
    argument.append(name.as_str());
    let mut arguments: Vec<Vec<u8>> = Vec::new();
    arguments.push(copy_of("--user".as_bytes()));
    arguments.push(copy_of("--no-ask-password".as_bytes()));
    arguments.push(copy_of("kill".as_bytes()));
    arguments.push(copy_of("--kill-whom=all".as_bytes()));
    arguments.push(copy_of(argument.as_str().as_bytes()));
    arguments.push(copy_of(unit.as_bytes()));
    assert(byte_strings(arguments@) =~= seq![
        encode_utf8("--user"@),
        encode_utf8("--no-ask-password"@),
        encode_utf8("kill"@),
        encode_utf8("--kill-whom=all"@),
        encode_utf8("--signal="@ + name_of_signal(signal)),
        encode_utf8(unit@),
    ]);
    arguments
}

/// The arguments that make the service manager tell the control group of a scope.
pub fn cgroup_arguments(unit: &str) -> (arguments: Vec<Vec<u8>>)
    ensures
        byte_strings(arguments@) == seq![
            encode_utf8("--user"@),
            encode_utf8("--no-ask-password"@),
            encode_utf8("show"@),
            encode_utf8("--property=ControlGroup"@),
            encode_utf8("--value"@),
            encode_utf8(unit@),
        ],
{
    let mut arguments: Vec<Vec<u8>> = Vec::new();
    arguments.push(copy_of("--user".as_bytes()));
    arguments.push(copy_of("--no-ask-password".as_bytes()));
    arguments.push(copy_of("show".as_bytes()));
    arguments.push(copy_of("--property=ControlGroup".as_bytes()));
    arguments.push(copy_of("--value".as_bytes()));
    arguments.push(copy_of(unit.as_bytes()));
    assert(byte_strings(arguments@) =~= seq![
        encode_utf8("--user"@),
        encode_utf8("--no-ask-password"@),
        encode_utf8("show"@),
        encode_utf8("--property=ControlGroup"@),
        encode_utf8("--value"@),
        encode_utf8(unit@),
    ]);
    arguments
}

/// What came of signalling a group of processes.
pub enum GroupSignal {
    /// There is no group to signal.
    NotTried,
    Delivered,
    /// The group has no processes.
    Gone,
    /// It failed, as the text says.
    Failed(String),
}

/// What came of signalling a scope.
pub enum ScopeSignal {
    /// There is no scope to signal.
    NotTried,
    Delivered,
    /// It failed, as the text says.
    Failed(String),
}

/// What signalling a tool's processes came to.
pub enum SignalOutcome {
    /// It has been done, or there was nothing to do.
    Done,
    /// It has failed, with this message, if any of the processes is there.
    FailedIfRunning(String),
}

/// What failed in signalling the group `pgid`, and the scope `unit`.
pub open spec fn signal_errors(
    pgid: int,
    unit: Seq<char>,
    group: GroupSignal,
    scope: ScopeSignal,
) -> Seq<Seq<char>> {
    let first: Seq<Seq<char>> = match group {
        GroupSignal::Failed(error) => seq![
            "process group "@ + signed_decimal(pgid) + ": "@ + error@,
        ],
        _ => Seq::empty(),
    };
    let second: Seq<Seq<char>> = match scope {
        ScopeSignal::Failed(error) => seq!["scope "@ + unit + ": "@ + error@],
        _ => Seq::empty(),
    };
    first + second
}

/// What signalling a tool's processes came to, by what came of signalling their group `pgid`
/// and their scope `unit`. One signal that is delivered is enough.
pub fn signal_outcome(pgid: i32, unit: &str, group: GroupSignal, scope: ScopeSignal) -> (outcome:
    SignalOutcome)
    ensures
        ({
            let errors = signal_errors(pgid as int, unit@, group, scope);
            let delivered = group is Delivered || scope is Delivered;
            match outcome {
                SignalOutcome::Done => delivered || errors.len() == 0,
                SignalOutcome::FailedIfRunning(message) => {
                    &&& !delivered
                    &&& errors.len() > 0
                    &&& message@ == "failed to signal managed process tree: "@ + joined(
                        errors,
                        "; "@,
                    )
                },
            }
        }),
{
    let ghost errors = signal_errors(pgid as int, unit@, group, scope);
    let mut message = "failed to signal managed process tree: ".to_owned();
    let ghost start = message@;
    let mut delivered = false;
    let mut failed = false;
    match group {
        GroupSignal::Delivered => {
            delivered = true;
        },
        GroupSignal::Failed(error) => {
            failed = true;
            message.append("process group ");
            push_signed(&mut message, pgid);
            message.append(": ");
            message.append(error.as_str());
            assert(message@ =~= start + errors[0]);
        },
        _ => {},
    }
    match scope {
        ScopeSignal::Delivered => {
            delivered = true;
        },
        ScopeSignal::Failed(error) => {
            if failed {
                message.append("; ");
            }
            message.append("scope ");
            message.append(unit);
            message.append(": ");
            message.append(error.as_str());
            proof {
                if failed {
                    assert(errors.drop_last() =~= seq![errors[0]]);
                    assert(joined(seq![errors[0]], "; "@) == errors[0]);
                    assert(message@ =~= start + joined(errors, "; "@));
                } else {
                    assert(message@ =~= start + errors[0]);
                }
            }
            failed = true;
        },
        _ => {},
    }
    if delivered || !failed {
        SignalOutcome::Done
    } else {
        SignalOutcome::FailedIfRunning(message)
    }
}

// ---------------------------------------------------------------------------
// Output with a bound
// ---------------------------------------------------------------------------

/// How much of the output of a short command is kept, in bytes.
pub const MAX_OUTPUT_BYTES: usize = 64 * 1024;

/// As much of what was read as there is room for behind what was kept before.
pub open spec fn kept_output(kept: Seq<u8>, read: Seq<u8>, capacity: nat) -> Seq<u8> {
    let room = if kept.len() < capacity {
        capacity - kept.len()
    } else {
        0
    };
    if read.len() <= room {
        kept + read
    } else {
        kept + read.take(room)
    }
}

/// Keeps as much of what was read as there is room for.
pub fn keep_output(kept: &mut Vec<u8>, read: &[u8], capacity: usize)
    ensures
        final(kept)@ == kept_output(old(kept)@, read@, capacity as nat),
{
    let room: usize = if kept.len() < capacity {
        capacity - kept.len()
    } else {
        0
    };
    let count: usize = if read.len() <= room {
        read.len()
    } else {
        room
    };
    crate::paths::append(kept, vstd::slice::slice_subrange(read, 0, count));
    assert(read@.subrange(0, count as int) =~= read@.take(count as int));
    assert(read@.take(read@.len() as int) =~= read@);
}

/// However much is read, no more is kept than there is room for, and it is the start of what
/// was read.
pub proof fn law_output_is_bounded(kept: Seq<u8>, read: Seq<u8>, capacity: nat)
    requires
        kept.len() <= capacity,
    ensures
        kept_output(kept, read, capacity).len() <= capacity,
        kept_output(kept, read, capacity).is_prefix_of(kept + read),
        kept_output(kept, read, capacity).len() < capacity ==> kept_output(kept, read, capacity)
            == kept + read,
{
    let out = kept_output(kept, read, capacity);
    assert((kept + read).subrange(0, out.len() as int) =~= out);
}

// ---------------------------------------------------------------------------
// What is said and done
// ---------------------------------------------------------------------------

/// A watchdog is told the group of the processes and how long they have to stop, and, where they
/// have a scope, its name, its control group and the program that signals it.
pub proof fn law_what_a_watchdog_is_told(
    pgid: int,
    timeout_ms: nat,
    unit: Seq<char>,
    cgroup: Seq<u8>,
    systemctl: Seq<u8>,
)
    ensures
        group_arguments(pgid, timeout_ms) == seq![
            encode_utf8("--process-watchdog"@),
            encode_utf8(signed_decimal(pgid)),
            encode_utf8(decimal(timeout_ms)),
        ],
        scope_arguments(unit, cgroup, systemctl) == seq![
            encode_utf8("--scope-unit"@),
            encode_utf8(unit),
            encode_utf8("--scope-cgroup"@),
            cgroup,
            encode_utf8("--scope-systemctl"@),
            systemctl,
        ],
        READY == 82,
        DISARM == 68,
{
}

/// A group is there if it can be signalled, or may only not be. The two signals are told apart by
/// their names. A watchdog is ready exactly if it says so.
pub proof fn law_signs_of_life(byte: u8)
    ensures
        group_exists(GroupProbe::Exists) && group_exists(GroupProbe::Forbidden),
        !group_exists(GroupProbe::Gone) && !group_exists(GroupProbe::Failed),
        name_of_signal(StopSignal::Terminate) == "SIGTERM"@,
        name_of_signal(StopSignal::Kill) == "SIGKILL"@,
        ready_fault(ReadyRead::Byte(byte)) is None <==> byte == 82,
        ready_fault(ReadyRead::Failed) is Some,
        ready_fault(ReadyRead::TimedOut) is Some,
{
}

/// Every failure to signal is told, first that of the group and then that of the scope, and nothing
/// else is.
pub proof fn law_failed_signals_are_told(
    pgid: int,
    unit: Seq<char>,
    first: String,
    second: String,
    group: GroupSignal,
    scope: ScopeSignal,
)
    ensures
        ({
            let of_group = "process group "@ + signed_decimal(pgid) + ": "@ + first@;
            let of_scope = "scope "@ + unit + ": "@ + second@;
            &&& !(group is Failed) && !(scope is Failed) ==> signal_errors(
                pgid,
                unit,
                group,
                scope,
            ).len() == 0
            &&& group == GroupSignal::Failed(first) && !(scope is Failed) ==> signal_errors(
                pgid,
                unit,
                group,
                scope,
            ) == seq![of_group]
            &&& !(group is Failed) && scope == ScopeSignal::Failed(second) ==> signal_errors(
                pgid,
                unit,
                group,
                scope,
            ) == seq![of_scope]
            &&& group == GroupSignal::Failed(first) && scope == ScopeSignal::Failed(second)
                ==> signal_errors(pgid, unit, group, scope) == seq![of_group, of_scope]
        }),
{
    let of_group = "process group "@ + signed_decimal(pgid) + ": "@ + first@;
    let of_scope = "scope "@ + unit + ": "@ + second@;
    assert(Seq::<Seq<char>>::empty() + seq![of_scope] =~= seq![of_scope]);
    assert(seq![of_group] + Seq::<Seq<char>>::empty() =~= seq![of_group]);
    assert(seq![of_group] + seq![of_scope] =~= seq![of_group, of_scope]);
}

/// Nothing that was read is lost while there is room, and what was kept stays in front.
pub proof fn law_output_is_kept_while_there_is_room(kept: Seq<u8>, read: Seq<u8>, capacity: nat)
    ensures
        kept.len() + read.len() <= capacity ==> kept_output(kept, read, capacity) == kept + read,
        kept.len() <= capacity < kept.len() + read.len() ==> kept_output(kept, read, capacity) == (
        kept + read).take(capacity as int),
        kept.len() > capacity ==> kept_output(kept, read, capacity) == kept,
{
    if kept.len() <= capacity < kept.len() + read.len() {
        assert(kept_output(kept, read, capacity) =~= (kept + read).take(capacity as int));
    }
    assert(kept + read.take(0) =~= kept);
    if kept.len() > capacity && read.len() == 0 {
        assert(kept + read =~= kept);
    }
}

/// What is said of a watchdog tells what became of it.
pub proof fn law_what_is_said_of_a_watchdog(status: Seq<char>, byte: u8)
    ensures
        health_report(HealthStep::Healthy, status) is None,
        health_report(HealthStep::Recreate, status) == Some(
            "process watchdog was unavailable and was recreated"@,
        ),
        health_report(HealthStep::Restart, status) == Some(
            "process watchdog exited with "@ + status + " and was restarted"@,
        ),
        health_report(HealthStep::Report, status) == Some(
            "process watchdog exited with "@ + status,
        ),
        byte != 82 ==> ready_fault(ReadyRead::Byte(byte)) == Some(
            "process watchdog failed to become ready"@,
        ),
        ready_fault(ReadyRead::Failed) == Some("process watchdog failed to become ready"@),
        ready_fault(ReadyRead::TimedOut) == Some("process watchdog readiness timed out"@),
        WatchdogFault::NoGroup.text() == "process watchdog requires a positive process group id"@,
        WatchdogFault::IncompleteScope.text()
            == "process watchdog scope arguments must be provided together"@,
{
}

} // verus!
