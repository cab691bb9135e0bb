//! One supervised tool: what is known of it, what is wanted of it, and how the two change.
//!
//! Nothing here waits, starts or stops anything. A tool is told what has happened and says
//! what is to be done; moments are nanoseconds on a clock that never runs backwards.
use vstd::prelude::*;
use crate::config::ToolConfig;
use crate::restart::{RestartHistory, MILLISECOND};
#[allow(unused_imports)]
use crate::restart::{
    allowed, allows, in_order, law_restart_is_allowed_below_the_limit, law_restarts_are_limited,
    remember, remembered, window_of,
};

verus! {

/// The state of a tool, as it is shown.
#[derive(Clone, Copy, Debug, PartialEq, Eq, Structural)]
pub enum ToolState {
    Stopped,
    Starting,
    Running,
    Stopping,
    Restarting,
    Crashed,
}

/// What is known of the memory that a process takes up.
#[derive(Clone, Copy, Debug, PartialEq, Eq, Structural)]
pub enum MemoryValue {
    Idle,
    Pending,
    Bytes(u64),
    Unavailable,
}

/// What is known of a tool.
#[derive(Clone, Copy, Debug, PartialEq, Eq, Structural)]
pub struct Runtime {
    pub state: ToolState,
    pub pid: Option<u32>,
    pub memory: MemoryValue,
    pub restart_count: usize,
    pub started_at_unix_ms: Option<u64>,
}

/// What a tool is asked to do.
#[derive(Clone, Copy, Debug, PartialEq, Eq, Structural)]
pub enum Control {
    Start,
    Stop,
    Restart,
    SampleMemory,
    Shutdown,
}

/// What came out of waiting for the next request.
#[derive(Clone, Copy, Debug, PartialEq, Eq, Structural)]
pub enum Signal {
    Request(Control),
    Timeout,
    Disconnected,
}

/// What is to be done about a signal.
#[derive(Clone, Copy, Debug, PartialEq, Eq, Structural)]
pub enum Action {
    Continue,
    StopProcess,
    StopProcessAndExit,
}

/// What the end of a process came to.
#[derive(Clone, Copy, Debug, PartialEq, Eq, Structural)]
pub enum ExitOutcome {
    RestartScheduled,
    RestartLimitReached,
    Stopped,
}

impl ExitOutcome {
    /// What the log says of it.
    pub open spec fn text(self) -> Option<Seq<char>> {
        match self {
            ExitOutcome::RestartScheduled => Some("scheduled automatic restart"@),
            ExitOutcome::RestartLimitReached => Some(
                "automatic restart limit reached; tool marked Crashed"@,
            ),
            ExitOutcome::Stopped => None,
        }
    }

    /// What the log says of it.
    pub fn message(self) -> (message: Option<String>)
        ensures
            match message {
                Some(message) => self.text() == Some(message@),
                None => self.text() is None,
            },
    {
        match self {
            ExitOutcome::RestartScheduled => Some("scheduled automatic restart".to_owned()),
            ExitOutcome::RestartLimitReached => Some(
                "automatic restart limit reached; tool marked Crashed".to_owned(),
            ),
            ExitOutcome::Stopped => None,
        }
    }
}

/// What is known of a tool and what is wanted of it.
pub struct ToolModel {
    pub runtime: Runtime,
    /// Whether the tool is meant to run.
    pub desired: bool,
    /// The moment from which on the tool is to be started.
    pub next_start: Option<int>,
    /// The restarts that count towards the limit.
    pub restarts: Seq<u64>,
    /// Whether a process of the tool is under supervision.
    pub active: bool,
}

// ---------------------------------------------------------------------------
// The transitions
// ---------------------------------------------------------------------------

/// A tool of which nothing has been started.
pub open spec fn idle_runtime() -> Runtime {
    Runtime {
        state: ToolState::Stopped,
        pid: None,
        memory: MemoryValue::Idle,
        restart_count: 0,
        started_at_unix_ms: None,
    }
}

/// A tool at the moment `now`, before anything has happened.
pub open spec fn initial(auto_start: bool, now: u64) -> ToolModel {
    ToolModel {
        runtime: idle_runtime(),
        desired: auto_start,
        next_start: if auto_start {
            Some(now as int)
        } else {
            None
        },
        restarts: Seq::empty(),
        active: false,
    }
}

/// What is to be done about a signal.
pub open spec fn action_for(signal: Signal) -> Action {
    match signal {
        Signal::Request(Control::Stop) => Action::StopProcess,
        Signal::Request(Control::Restart) => Action::StopProcess,
        Signal::Request(Control::Shutdown) => Action::StopProcessAndExit,
        Signal::Disconnected => Action::StopProcessAndExit,
        _ => Action::Continue,
    }
}

/// A tool after a signal, before its process is stopped where that is to be done.
pub open spec fn signalled(tool: ToolModel, signal: Signal, now: u64) -> ToolModel {
    match signal {
        Signal::Request(Control::Start) => ToolModel {
            desired: true,
            next_start: Some(now as int),
            restarts: Seq::empty(),
            runtime: Runtime { restart_count: 0, ..tool.runtime },
            ..tool
        },
        Signal::Request(Control::Stop) => ToolModel { desired: false, next_start: None, ..tool },
        Signal::Request(Control::Restart) => ToolModel {
            desired: true,
            next_start: Some(now as int),
            runtime: Runtime { state: ToolState::Restarting, ..tool.runtime },
            ..tool
        },
        _ => tool,
    }
}

/// A tool without a process: nothing runs, nothing is known of its memory.
pub open spec fn without_process(tool: ToolModel, state: ToolState) -> ToolModel {
    ToolModel {
        active: false,
        runtime: Runtime {
            state,
            pid: None,
            memory: MemoryValue::Idle,
            started_at_unix_ms: None,
            ..tool.runtime
        },
        ..tool
    }
}

/// A tool whose process is about to be stopped.
pub open spec fn stopping(tool: ToolModel) -> ToolModel {
    if tool.active {
        ToolModel { runtime: Runtime { state: ToolState::Stopping, ..tool.runtime }, ..tool }
    } else {
        without_process(tool, ToolState::Stopped)
    }
}

/// A tool whose process has been stopped.
pub open spec fn stopped(tool: ToolModel) -> ToolModel {
    without_process(tool, ToolState::Stopped)
}

/// Whether a restart of the tool is allowed at `now`.
pub open spec fn may_restart(tool: ToolModel, config: ToolConfig, now: u64) -> bool {
    allows(
        tool.restarts,
        now,
        window_of(config.restart_window_seconds),
        config.max_restart_count as int,
    )
}

/// A tool that was to be restarted by itself at `now`: it waits for its next start, or has
/// crashed for good when the limit is reached.
pub open spec fn restarting(tool: ToolModel, config: ToolConfig, now: u64) -> ToolModel {
    let restarts = remember(
        tool.restarts,
        now,
        window_of(config.restart_window_seconds),
        config.max_restart_count as int,
    );
    if may_restart(tool, config, now) {
        ToolModel {
            restarts,
            next_start: Some(now + config.restart_delay_ms * MILLISECOND),
            runtime: Runtime {
                state: ToolState::Restarting,
                restart_count: (tool.runtime.restart_count + 1) as usize,
                ..tool.runtime
            },
            ..tool
        }
    } else {
        ToolModel {
            restarts,
            desired: false,
            runtime: Runtime { state: ToolState::Crashed, ..tool.runtime },
            ..tool
        }
    }
}

/// A tool whose process has ended by itself at `now`.
pub open spec fn exited(tool: ToolModel, config: ToolConfig, now: u64) -> ToolModel {
    let ended = without_process(tool, ToolState::Stopped);
    if tool.desired && config.auto_restart {
        restarting(ended, config, now)
    } else {
        ended
    }
}

/// What the end of a process at `now` comes to.
pub open spec fn exit_outcome(tool: ToolModel, config: ToolConfig, now: u64) -> ExitOutcome {
    if !(tool.desired && config.auto_restart) {
        ExitOutcome::Stopped
    } else if may_restart(tool, config, now) {
        ExitOutcome::RestartScheduled
    } else {
        ExitOutcome::RestartLimitReached
    }
}

/// Whether the tool is to be started at `now`.
pub open spec fn is_due(tool: ToolModel, now: u64) -> bool {
    !tool.active && tool.desired && tool.next_start is Some && now >= tool.next_start->0
}

/// A tool that is being started.
pub open spec fn starting(tool: ToolModel) -> ToolModel {
    ToolModel {
        next_start: None,
        runtime: Runtime { state: ToolState::Starting, ..tool.runtime },
        ..tool
    }
}

/// A tool whose process has been started.
pub open spec fn started(tool: ToolModel, pid: u32, unix_ms: u64) -> ToolModel {
    ToolModel {
        active: true,
        runtime: Runtime {
            state: ToolState::Running,
            pid: Some(pid),
            memory: MemoryValue::Idle,
            started_at_unix_ms: Some(unix_ms),
            ..tool.runtime
        },
        ..tool
    }
}

/// A tool whose process could not be started at `now`.
pub open spec fn start_failed(tool: ToolModel, config: ToolConfig, now: u64) -> ToolModel {
    if config.auto_restart {
        restarting(tool, config, now)
    } else {
        ToolModel {
            desired: false,
            runtime: Runtime { state: ToolState::Crashed, ..tool.runtime },
            ..tool
        }
    }
}

/// What is known of a tool once its memory is being asked for.
pub open spec fn sampling(runtime: Runtime) -> Runtime {
    Runtime {
        memory: if runtime.state == ToolState::Running {
            MemoryValue::Pending
        } else {
            MemoryValue::Idle
        },
        ..runtime
    }
}

/// The process whose memory is to be asked for.
pub open spec fn sampled_pid(runtime: Runtime) -> Option<u32> {
    if runtime.state == ToolState::Running {
        runtime.pid
    } else {
        None
    }
}

/// An answer about memory, where `None` says that there was none to be had.
pub open spec fn memory_answer(bytes: Option<u64>) -> MemoryValue {
    match bytes {
        Some(bytes) => MemoryValue::Bytes(bytes),
        None => MemoryValue::Unavailable,
    }
}

/// What is known of a tool once the memory of the process `pid` has been asked for. An answer
/// about a process that is no longer the tool's is dropped.
pub open spec fn sampled(runtime: Runtime, pid: u32, bytes: Option<u64>) -> Runtime {
    if runtime.pid == Some(pid) {
        Runtime { memory: memory_answer(bytes), ..runtime }
    } else {
        runtime
    }
}

// ---------------------------------------------------------------------------
// The tool
// ---------------------------------------------------------------------------

impl Runtime {
    /// What is known before anything has been started.
    pub fn new() -> (runtime: Self)
        ensures
            runtime == idle_runtime(),
    {
        Runtime {
            state: ToolState::Stopped,
            pid: None,
            memory: MemoryValue::Idle,
            restart_count: 0,
            started_at_unix_ms: None,
        }
    }

    /// Notes that the memory of the process is asked for, and says which process that is.
    pub fn begin_sample(&mut self) -> (pid: Option<u32>)
        ensures
            *final(self) == sampling(*old(self)),
            pid == sampled_pid(*old(self)),
    {
        if self.state == ToolState::Running {
            self.memory = MemoryValue::Pending;
            self.pid
        } else {
            self.memory = MemoryValue::Idle;
            None
        }
    }

    /// Notes the answer about the memory of the process `pid`.
    pub fn finish_sample(&mut self, pid: u32, bytes: Option<u64>)
        ensures
            *final(self) == sampled(*old(self), pid, bytes),
    {
        if let Some(current) = self.pid {
            if current == pid {
                self.memory = memory_value(bytes);
            }
        }
    }
}

/// An answer about memory, where `None` says that there was none to be had.
pub fn memory_value(bytes: Option<u64>) -> (value: MemoryValue)
    ensures
        value == memory_answer(bytes),
{
    match bytes {
        Some(bytes) => MemoryValue::Bytes(bytes),
        None => MemoryValue::Unavailable,
    }
}

/// One supervised tool.
pub struct Tool {
    runtime: Runtime,
    desired_running: bool,
    next_start: Option<u128>,
    restarts: RestartHistory,
    active: bool,
}

impl View for Tool {
    type V = ToolModel;

    closed spec fn view(&self) -> ToolModel {
        ToolModel {
            runtime: self.runtime,
            desired: self.desired_running,
            next_start: match self.next_start {
                Some(moment) => Some(moment as int),
                None => None,
            },
            restarts: self.restarts@,
            active: self.active,
        }
    }
}

impl Tool {
    /// A tool at the moment `now`, to be started at once if `auto_start` says so.
    pub fn new(auto_start: bool, now: u64) -> (tool: Self)
        ensures
            tool@ == initial(auto_start, now),
    {
        Tool {
            runtime: Runtime::new(),
            desired_running: auto_start,
            next_start: if auto_start {
                Some(now as u128)
            } else {
                None
            },
            restarts: RestartHistory::new(),
            active: false,
        }
    }

    /// What is known of the tool.
    pub fn runtime(&self) -> (runtime: Runtime)
        ensures
            runtime == self@.runtime,
    {
        self.runtime
    }

    /// Whether a process of the tool is under supervision.
    pub fn is_active(&self) -> (active: bool)
        ensures
            active == self@.active,
    {
        self.active
    }

    /// Notes what was learnt of the tool elsewhere.
    pub fn set_runtime(&mut self, runtime: Runtime)
        ensures
            final(self)@ == (ToolModel { runtime, ..old(self)@ }),
    {
        self.runtime = runtime;
    }

    /// Takes a signal and says what is to be done about it.
    pub fn handle_signal(&mut self, signal: Signal, now: u64) -> (action: Action)
        ensures
            final(self)@ == signalled(old(self)@, signal, now),
            action == action_for(signal),
    {
        match signal {
            Signal::Request(Control::Start) => {
                self.desired_running = true;
                self.next_start = Some(now as u128);
                self.restarts.clear();
                self.runtime.restart_count = 0;
                Action::Continue
            },
            Signal::Request(Control::Stop) => {
                self.desired_running = false;
                self.next_start = None;
                Action::StopProcess
            },
            Signal::Request(Control::Restart) => {
                self.desired_running = true;
                self.next_start = Some(now as u128);
                self.runtime.state = ToolState::Restarting;
                Action::StopProcess
            },
            Signal::Request(Control::SampleMemory) => Action::Continue,
            Signal::Request(Control::Shutdown) => Action::StopProcessAndExit,
            Signal::Disconnected => Action::StopProcessAndExit,
            Signal::Timeout => Action::Continue,
        }
    }

    /// Notes that the process is about to be stopped, and says whether there is one.
    pub fn begin_stop(&mut self) -> (active: bool)
        ensures
            final(self)@ == stopping(old(self)@),
            active == old(self)@.active,
    {
        if self.active {
            self.runtime.state = ToolState::Stopping;
            true
        } else {
            self.end_process();
            false
        }
    }

    /// Notes that the process has been stopped.
    pub fn finish_stop(&mut self)
        ensures
            final(self)@ == stopped(old(self)@),
    {
        self.end_process();
    }

    fn end_process(&mut self)
        ensures
            final(self)@ == without_process(old(self)@, ToolState::Stopped),
    {
        self.active = false;
        self.runtime.state = ToolState::Stopped;
        self.runtime.pid = None;
        self.runtime.memory = MemoryValue::Idle;
        self.runtime.started_at_unix_ms = None;
    }

    /// Notes that the process has ended by itself, and says what comes of it.
    pub fn process_exited(&mut self, config: &ToolConfig, now: u64) -> (outcome: ExitOutcome)
        requires
            old(self)@.runtime.restart_count < usize::MAX,
        ensures
            final(self)@ == exited(old(self)@, *config, now),
            outcome == exit_outcome(old(self)@, *config, now),
    {
        self.end_process();
        if self.desired_running && config.auto_restart {
            if self.schedule_restart(config, now) {
                ExitOutcome::RestartScheduled
            } else {
                ExitOutcome::RestartLimitReached
            }
        } else {
            ExitOutcome::Stopped
        }
    }

    fn schedule_restart(&mut self, config: &ToolConfig, now: u64) -> (scheduled: bool)
        requires
            old(self)@.runtime.restart_count < usize::MAX,
        ensures
            final(self)@ == restarting(old(self)@, *config, now),
            scheduled == may_restart(old(self)@, *config, now),
    {
        if self.restarts.request(now, config.restart_window_seconds, config.max_restart_count) {
            self.runtime.restart_count = self.runtime.restart_count + 1;
            self.runtime.state = ToolState::Restarting;
            self.next_start = Some(now as u128 + config.restart_delay_ms as u128 * MILLISECOND);
            true
        } else {
            self.runtime.state = ToolState::Crashed;
            self.desired_running = false;
            false
        }
    }

    /// Whether the tool is to be started now.
    pub fn start_due(&self, now: u64) -> (due: bool)
        ensures
            due == is_due(self@, now),
    {
        match self.next_start {
            Some(moment) => !self.active && self.desired_running && now as u128 >= moment,
            None => false,
        }
    }

    /// Notes that the tool is being started.
    pub fn begin_start(&mut self)
        ensures
            final(self)@ == starting(old(self)@),
    {
        self.next_start = None;
        self.runtime.state = ToolState::Starting;
    }

    /// Notes that the process `pid` has been started.
    pub fn start_succeeded(&mut self, pid: u32, unix_ms: u64)
        ensures
            final(self)@ == started(old(self)@, pid, unix_ms),
    {
        self.active = true;
        self.runtime.state = ToolState::Running;
        self.runtime.pid = Some(pid);
        self.runtime.memory = MemoryValue::Idle;
        self.runtime.started_at_unix_ms = Some(unix_ms);
    }

    /// Notes that no process could be started.
    pub fn start_failed(&mut self, config: &ToolConfig, now: u64)
        requires
            old(self)@.runtime.restart_count < usize::MAX,
        ensures
            final(self)@ == start_failed(old(self)@, *config, now),
    {
        if config.auto_restart {
            self.schedule_restart(config, now);
        } else {
            self.runtime.state = ToolState::Crashed;
            self.desired_running = false;
        }
    }

    /// Notes that the memory of the process is asked for, and says which process that is.
    pub fn begin_sample(&mut self) -> (pid: Option<u32>)
        ensures
            final(self)@ == (ToolModel { runtime: sampling(old(self)@.runtime), ..old(self)@ }),
            pid == sampled_pid(old(self)@.runtime),
    {
        self.runtime.begin_sample()
    }

    /// Notes the answer about the memory of the process `pid`.
    pub fn finish_sample(&mut self, pid: u32, bytes: Option<u64>)
        ensures
            final(self)@ == (ToolModel {
                runtime: sampled(old(self)@.runtime, pid, bytes),
                ..old(self)@
            }),
    {
        self.runtime.finish_sample(pid, bytes);
    }
}

// ---------------------------------------------------------------------------
// What holds of every tool
// ---------------------------------------------------------------------------

/// Everything that can happen to a tool.
pub enum Step {
    Signalled(Signal, u64),
    StopBegun,
    StopFinished,
    Exited(u64),
    StartBegun,
    Started(u32, u64),
    StartFailed(u64),
    SampleBegun,
    SampleFinished(u32, Option<u64>),
}

/// Whether a step can happen to the tool as it is: only a process under supervision ends, and
/// nothing is started beside it.
pub open spec fn can_happen(tool: ToolModel, step: Step) -> bool {
    match step {
        Step::Exited(_) => tool.active,
        Step::StartBegun => !tool.active,
        Step::Started(_, _) => !tool.active,
        Step::StartFailed(_) => !tool.active,
        _ => true,
    }
}

/// A tool after a step.
pub open spec fn after(tool: ToolModel, config: ToolConfig, step: Step) -> ToolModel {
    match step {
        Step::Signalled(signal, now) => signalled(tool, signal, now),
        Step::StopBegun => stopping(tool),
        Step::StopFinished => stopped(tool),
        Step::Exited(now) => exited(tool, config, now),
        Step::StartBegun => starting(tool),
        Step::Started(pid, unix_ms) => started(tool, pid, unix_ms),
        Step::StartFailed(now) => start_failed(tool, config, now),
        Step::SampleBegun => ToolModel { runtime: sampling(tool.runtime), ..tool },
        Step::SampleFinished(pid, bytes) => ToolModel {
            runtime: sampled(tool.runtime, pid, bytes),
            ..tool
        },
    }
}

/// A tool whose shown state agrees with its supervision: a process is named, with the moment
/// of its start, exactly while one is supervised; only such a tool runs; and memory is known
/// only of a process.
pub open spec fn is_consistent(tool: ToolModel) -> bool {
    &&& tool.active <==> tool.runtime.pid is Some
    &&& tool.active <==> tool.runtime.started_at_unix_ms is Some
    &&& tool.runtime.state == ToolState::Running ==> tool.active
    &&& !tool.active ==> tool.runtime.memory == MemoryValue::Idle
}

/// A new tool is consistent.
pub proof fn law_new_tool_is_consistent(auto_start: bool, now: u64)
    ensures
        is_consistent(initial(auto_start, now)),
{
}

/// A consistent tool stays consistent whatever happens to it.
pub proof fn law_tool_stays_consistent(tool: ToolModel, config: ToolConfig, step: Step)
    requires
        is_consistent(tool),
        can_happen(tool, step),
    ensures
        is_consistent(after(tool, config, step)),
{
}

/// A tool that is not meant to run is never started, and stays so until it is told to start
/// or to restart.
pub proof fn law_stopped_tool_is_not_started(
    tool: ToolModel,
    config: ToolConfig,
    step: Step,
    now: u64,
)
    requires
        !tool.desired,
        step matches Step::Signalled(signal, _) ==> signal != Signal::Request(Control::Start)
            && signal != Signal::Request(Control::Restart),
    ensures
        !is_due(tool, now),
        !after(tool, config, step).desired,
{
}

/// A stop ends with nothing running and nothing wanted, from whatever a tool was doing.
pub proof fn law_stop_stops(tool: ToolModel, now: u64)
    ensures
        ({
            let after = stopped(stopping(signalled(tool, Signal::Request(Control::Stop), now)));
            &&& !after.active
            &&& !after.desired
            &&& after.runtime.state == ToolState::Stopped
            &&& after.runtime.pid is None
            &&& after.runtime.memory == MemoryValue::Idle
        }),
{
}

/// A tool that is told to start, and has no process, is due at once, with its restarts
/// forgotten.
pub proof fn law_start_is_immediate(tool: ToolModel, now: u64)
    requires
        !tool.active,
    ensures
        is_due(signalled(tool, Signal::Request(Control::Start), now), now),
        signalled(tool, Signal::Request(Control::Start), now).runtime.restart_count == 0,
{
}

/// A tool that is told to restart is due as soon as its process has been stopped.
pub proof fn law_restart_starts_again(tool: ToolModel, now: u64)
    ensures
        is_due(stopped(stopping(signalled(tool, Signal::Request(Control::Restart), now))), now),
{
}

/// A tool that ended by itself is not started again before its delay has passed, and is due
/// from then on.
pub proof fn law_restart_waits_for_delay(
    tool: ToolModel,
    config: ToolConfig,
    now: u64,
    later: u64,
)
    requires
        tool.active,
        exit_outcome(tool, config, now) == ExitOutcome::RestartScheduled,
    ensures
        is_due(exited(tool, config, now), later) <==> later >= now + config.restart_delay_ms
            * MILLISECOND,
{
}

/// A tool that reached its restart limit has crashed and is not started again by itself.
pub proof fn law_limit_ends_restarts(tool: ToolModel, config: ToolConfig, now: u64, later: u64)
    requires
        exit_outcome(tool, config, now) == ExitOutcome::RestartLimitReached,
    ensures
        exited(tool, config, now).runtime.state == ToolState::Crashed,
        !is_due(exited(tool, config, now), later),
{
}

// ---------------------------------------------------------------------------
// What holds over any run
// ---------------------------------------------------------------------------

/// A tool after some steps.
pub open spec fn after_all(tool: ToolModel, config: ToolConfig, steps: Seq<Step>) -> ToolModel
    decreases steps.len(),
{
    if steps.len() == 0 {
        tool
    } else {
        after(after_all(tool, config, steps.drop_last()), config, steps.last())
    }
}

/// Whether a step is a request to start, with which the restarts before it are forgotten.
pub open spec fn forgets_restarts(step: Step) -> bool {
    step matches Step::Signalled(signal, _) && signal == Signal::Request(Control::Start)
}

/// The moment at which a step would restart a tool by itself, if it would.
pub open spec fn restart_request(tool: ToolModel, config: ToolConfig, step: Step) -> Option<u64> {
    match step {
        Step::Exited(now) => if tool.desired && config.auto_restart {
            Some(now)
        } else {
            None
        },
        Step::StartFailed(now) => if config.auto_restart {
            Some(now)
        } else {
            None
        },
        _ => None,
    }
}

/// The moments since the last request to start at which a restart was asked for.
pub open spec fn restart_requests(tool: ToolModel, config: ToolConfig, steps: Seq<Step>) -> Seq<u64>
    decreases steps.len(),
{
    if steps.len() == 0 || forgets_restarts(steps.last()) {
        Seq::empty()
    } else {
        let before = restart_requests(tool, config, steps.drop_last());
        match restart_request(
            after_all(tool, config, steps.drop_last()),
            config,
            steps.last(),
        ) {
            Some(now) => before.push(now),
            None => before,
        }
    }
}

/// The moments since the last request to start at which the tool restarted by itself.
pub open spec fn restarts_made(tool: ToolModel, config: ToolConfig, steps: Seq<Step>) -> Seq<u64>
    decreases steps.len(),
{
    if steps.len() == 0 || forgets_restarts(steps.last()) {
        Seq::empty()
    } else {
        let before = restarts_made(tool, config, steps.drop_last());
        let current = after_all(tool, config, steps.drop_last());
        match restart_request(current, config, steps.last()) {
            Some(now) => if may_restart(current, config, now) {
                before.push(now)
            } else {
                before
            },
            None => before,
        }
    }
}

/// The moment of a step with which a process ends or fails to start.
pub open spec fn end_moment(step: Step) -> Option<u64> {
    match step {
        Step::Exited(now) => Some(now),
        Step::StartFailed(now) => Some(now),
        _ => None,
    }
}

/// Whether the steps with which processes end come one after the other.
pub open spec fn ends_in_order(steps: Seq<Step>) -> bool {
    forall|i: int, j: int|
        0 <= i <= j < steps.len() && end_moment(#[trigger] steps[i]) is Some && end_moment(
            #[trigger] steps[j],
        ) is Some ==> end_moment(steps[i])->0 <= end_moment(steps[j])->0
}

proof fn lemma_requests_are_ends(tool: ToolModel, config: ToolConfig, steps: Seq<Step>, k: int)
    requires
        0 <= k < restart_requests(tool, config, steps).len(),
    ensures
        exists|i: int|
            0 <= i < steps.len() && end_moment(#[trigger] steps[i]) == Some(
                restart_requests(tool, config, steps)[k],
            ),
    decreases steps.len(),
{
    let front = steps.drop_last();
    let before = restart_requests(tool, config, front);
    if k < before.len() {
        lemma_requests_are_ends(tool, config, front, k);
        let i = choose|i: int|
            0 <= i < front.len() && end_moment(#[trigger] front[i]) == Some(before[k]);
        assert(steps[i] == front[i]);
    } else {
        assert(end_moment(steps[steps.len() - 1]) is Some);
    }
}

proof fn lemma_run(tool: ToolModel, config: ToolConfig, steps: Seq<Step>)
    requires
        tool.restarts.len() == 0,
        tool.runtime.restart_count == 0,
        ends_in_order(steps),
    ensures
        ({
            let window = window_of(config.restart_window_seconds);
            let max = config.max_restart_count as int;
            let requests = restart_requests(tool, config, steps);
            let made = restarts_made(tool, config, steps);
            &&& in_order(requests)
            &&& after_all(tool, config, steps).restarts == remembered(requests, window, max)
            &&& made == allowed(requests, window, max)
            &&& made.len() <= usize::MAX ==> after_all(tool, config, steps).runtime.restart_count
                == made.len()
        }),
    decreases steps.len(),
{
    let window = window_of(config.restart_window_seconds);
    let max = config.max_restart_count as int;
    if steps.len() == 0 {
        assert(tool.restarts =~= Seq::<u64>::empty());
    } else {
        let front = steps.drop_last();
        let step = steps.last();
        let current = after_all(tool, config, front);
        assert forall|i: int, j: int|
            0 <= i <= j < front.len() && end_moment(#[trigger] front[i]) is Some && end_moment(
                #[trigger] front[j],
            ) is Some implies end_moment(front[i])->0 <= end_moment(front[j])->0 by {
            assert(steps[i] == front[i]);
            assert(steps[j] == front[j]);
        }
        lemma_run(tool, config, front);
        let before = restart_requests(tool, config, front);
        let requests = restart_requests(tool, config, steps);
        if !forgets_restarts(step) {
            if let Some(now) = restart_request(current, config, step) {
                assert forall|k: int| 0 <= k < before.len() implies before[k] <= now by {
                    lemma_requests_are_ends(tool, config, front, k);
                    let i = choose|i: int|
                        0 <= i < front.len() && end_moment(#[trigger] front[i]) == Some(before[k]);
                    assert(steps[i] == front[i]);
                    assert(end_moment(steps[steps.len() - 1]) == Some(now));
                }
                assert(requests == before.push(now));
                assert(requests.drop_last() =~= before);
            }
        }
    }
}

/// Whatever happens to a tool, it never restarts by itself more often than its limit says: of
/// the restarts since it was last told to start, each lies further back than the window from
/// the one that comes as many places behind it as the limit allows, and from all behind that.
/// The count that is shown is theirs.
pub proof fn law_runs_keep_the_restart_limit(
    auto_start: bool,
    start: u64,
    config: ToolConfig,
    steps: Seq<Step>,
)
    requires
        ends_in_order(steps),
    ensures
        ({
            let tool = initial(auto_start, start);
            let made = restarts_made(tool, config, steps);
            &&& forall|i: int, j: int|
                0 <= i && i + config.max_restart_count <= j < made.len() ==> #[trigger] made[j]
                    - #[trigger] made[i] > window_of(config.restart_window_seconds)
            &&& made.len() <= usize::MAX ==> after_all(
                tool,
                config,
                steps,
            ).runtime.restart_count == made.len()
        }),
{
    let tool = initial(auto_start, start);
    let made = restarts_made(tool, config, steps);
    lemma_run(tool, config, steps);
    let requests = restart_requests(tool, config, steps);
    assert forall|i: int, j: int|
        0 <= i && i + config.max_restart_count <= j < made.len() implies #[trigger] made[j]
        - #[trigger] made[i] > window_of(config.restart_window_seconds) by {
        law_restarts_are_limited(
            requests,
            config.restart_window_seconds,
            config.max_restart_count,
            i,
            j,
        );
    }
}

// ---------------------------------------------------------------------------
// What each event does, and what it leaves alone
// ---------------------------------------------------------------------------

/// Whether a signal asks for nothing that concerns the life of a tool: it is neither a request
/// to start, nor one to stop, nor one to restart.
pub open spec fn is_idle(signal: Signal) -> bool {
    &&& signal != Signal::Request(Control::Start)
    &&& signal != Signal::Request(Control::Stop)
    &&& signal != Signal::Request(Control::Restart)
}

/// A signal that is no request to start, to stop or to restart leaves the whole tool as it was,
/// and a wait that times out or a request for memory calls for no action.
pub proof fn law_idle_signal_changes_nothing(tool: ToolModel, signal: Signal, now: u64)
    requires
        signal != Signal::Request(Control::Start),
        signal != Signal::Request(Control::Stop),
        signal != Signal::Request(Control::Restart),
    ensures
        signalled(tool, signal, now) == tool,
        signal == Signal::Timeout || signal == Signal::Request(Control::SampleMemory)
            ==> action_for(signal) == Action::Continue,
        signal == Signal::Disconnected || signal == Signal::Request(Control::Shutdown)
            ==> action_for(signal) == Action::StopProcessAndExit,
{
}

/// A request to start makes the tool wanted and due at once and forgets its restarts. What runs
/// and what is shown of it stay as they are.
pub proof fn law_start_request(tool: ToolModel, now: u64)
    ensures
        ({
            let after = signalled(tool, Signal::Request(Control::Start), now);
            &&& after.desired
            &&& after.next_start == Some(now as int)
            &&& after.restarts.len() == 0
            &&& after.active == tool.active
            &&& after.runtime.restart_count == 0
            &&& after.runtime.state == tool.runtime.state
            &&& after.runtime.pid == tool.runtime.pid
            &&& after.runtime.memory == tool.runtime.memory
            &&& after.runtime.started_at_unix_ms == tool.runtime.started_at_unix_ms
            &&& action_for(Signal::Request(Control::Start)) == Action::Continue
        }),
{
}

/// A request to stop makes the tool unwanted, takes back any start that was scheduled, and has
/// the process stopped. A request to restart makes it wanted and due at once, shows it as
/// restarting, and has the process stopped. Neither touches the restarts that count.
pub proof fn law_stop_and_restart_requests(tool: ToolModel, now: u64)
    ensures
        ({
            let stop = signalled(tool, Signal::Request(Control::Stop), now);
            let again = signalled(tool, Signal::Request(Control::Restart), now);
            &&& !stop.desired
            &&& stop.next_start is None
            &&& stop.restarts == tool.restarts
            &&& stop.active == tool.active
            &&& stop.runtime == tool.runtime
            &&& action_for(Signal::Request(Control::Stop)) == Action::StopProcess
            &&& again.desired
            &&& again.next_start == Some(now as int)
            &&& again.restarts == tool.restarts
            &&& again.active == tool.active
            &&& again.runtime.state == ToolState::Restarting
            &&& again.runtime.pid == tool.runtime.pid
            &&& again.runtime.memory == tool.runtime.memory
            &&& again.runtime.restart_count == tool.runtime.restart_count
            &&& again.runtime.started_at_unix_ms == tool.runtime.started_at_unix_ms
            &&& action_for(Signal::Request(Control::Restart)) == Action::StopProcess
        }),
{
}

/// A tool is due exactly from its scheduled moment on, while it is wanted and has no process.
pub proof fn law_due_from_the_scheduled_moment(tool: ToolModel, now: u64)
    ensures
        is_due(tool, now) <==> !tool.active && tool.desired && (exists|moment: int|
            tool.next_start == Some(moment) && moment <= now),
{
    if tool.next_start is Some {
        assert(tool.next_start == Some(tool.next_start->0));
    }
}

/// A new tool has nothing running and nothing behind it; it is wanted, from the first moment on,
/// exactly if it starts by itself.
pub proof fn law_new_tool(auto_start: bool, now: u64)
    ensures
        ({
            let tool = initial(auto_start, now);
            &&& tool.desired == auto_start
            &&& auto_start ==> tool.next_start == Some(now as int)
            &&& !auto_start ==> tool.next_start is None
            &&& tool.restarts.len() == 0
            &&& !tool.active
            &&& tool.runtime.state == ToolState::Stopped
            &&& tool.runtime.pid is None
            &&& tool.runtime.memory == MemoryValue::Idle
            &&& tool.runtime.restart_count == 0
            &&& tool.runtime.started_at_unix_ms is None
        }),
{
}

/// While a process is started the tool is shown as starting and no other start is scheduled;
/// once it runs, it is shown as running, with its number and the time of its start, and nothing
/// is known of its memory. Neither changes what is wanted or which restarts count.
pub proof fn law_start_of_a_process(tool: ToolModel, pid: u32, unix_ms: u64)
    ensures
        ({
            let before = starting(tool);
            let after = started(tool, pid, unix_ms);
            &&& before.runtime.state == ToolState::Starting
            &&& before.next_start is None
            &&& before.desired == tool.desired
            &&& before.active == tool.active
            &&& before.restarts == tool.restarts
            &&& before.runtime.pid == tool.runtime.pid
            &&& before.runtime.restart_count == tool.runtime.restart_count
            &&& before.runtime.memory == tool.runtime.memory
            &&& before.runtime.started_at_unix_ms == tool.runtime.started_at_unix_ms
            &&& after.active
            &&& after.runtime.state == ToolState::Running
            &&& after.runtime.pid == Some(pid)
            &&& after.runtime.started_at_unix_ms == Some(unix_ms)
            &&& after.runtime.memory == MemoryValue::Idle
            &&& after.runtime.restart_count == tool.runtime.restart_count
            &&& after.desired == tool.desired
            &&& after.next_start == tool.next_start
            &&& after.restarts == tool.restarts
        }),
{
}

/// A stop shows the tool as stopping while it has a process, and at its end leaves nothing
/// running. What is wanted, what is scheduled and the restarts stay as they are.
pub proof fn law_stop_of_a_process(tool: ToolModel)
    ensures
        ({
            let before = stopping(tool);
            let after = stopped(tool);
            &&& tool.active ==> before.runtime.state == ToolState::Stopping && before.active
                && before.runtime.pid == tool.runtime.pid && before.runtime.memory
                == tool.runtime.memory && before.runtime.restart_count == tool.runtime.restart_count
                && before.runtime.started_at_unix_ms == tool.runtime.started_at_unix_ms
            &&& !tool.active ==> before == after
            &&& !after.active
            &&& after.runtime.state == ToolState::Stopped
            &&& after.runtime.pid is None
            &&& after.runtime.started_at_unix_ms is None
            &&& after.runtime.memory == MemoryValue::Idle
            &&& after.runtime.restart_count == tool.runtime.restart_count
            &&& before.desired == tool.desired && after.desired == tool.desired
            &&& before.next_start == tool.next_start && after.next_start == tool.next_start
            &&& before.restarts == tool.restarts && after.restarts == tool.restarts
        }),
{
}

/// When the process of a tool ends by itself, nothing runs any more. Unless the tool is wanted
/// and restarts by itself, that is all. If it does, it is scheduled to start after its delay,
/// counted as one restart more, where fewer than its limit lie within its window; otherwise it
/// has crashed and is no longer wanted.
pub proof fn law_end_of_a_process(tool: ToolModel, config: ToolConfig, now: u64)
    requires
        forall|i: int, j: int|
            0 <= i <= j < tool.restarts.len() ==> tool.restarts[i] <= tool.restarts[j],
        tool.runtime.restart_count < usize::MAX,
    ensures
        ({
            let after = exited(tool, config, now);
            let outcome = exit_outcome(tool, config, now);
            let counting = tool.restarts.filter(
                |time: u64| now - time <= config.restart_window_seconds * 1_000_000_000,
            );
            &&& !after.active
            &&& after.runtime.pid is None
            &&& after.runtime.started_at_unix_ms is None
            &&& after.runtime.memory == MemoryValue::Idle
            &&& !tool.desired || !config.auto_restart ==> {
                &&& outcome == ExitOutcome::Stopped
                &&& after.runtime.state == ToolState::Stopped
                &&& after.desired == tool.desired
                &&& after.next_start == tool.next_start
                &&& after.restarts == tool.restarts
                &&& after.runtime.restart_count == tool.runtime.restart_count
            }
            &&& tool.desired && config.auto_restart && counting.len() < config.max_restart_count
                ==> {
                &&& outcome == ExitOutcome::RestartScheduled
                &&& after.runtime.state == ToolState::Restarting
                &&& after.desired
                &&& after.next_start == Some(now + config.restart_delay_ms * 1_000_000)
                &&& after.restarts == counting.push(now)
                &&& after.runtime.restart_count == tool.runtime.restart_count + 1
            }
            &&& tool.desired && config.auto_restart && counting.len() >= config.max_restart_count
                ==> {
                &&& outcome == ExitOutcome::RestartLimitReached
                &&& after.runtime.state == ToolState::Crashed
                &&& !after.desired
                &&& after.next_start == tool.next_start
                &&& after.restarts == counting
                &&& after.runtime.restart_count == tool.runtime.restart_count
            }
        }),
{
    law_restart_is_allowed_below_the_limit(
        tool.restarts,
        now,
        config.restart_window_seconds,
        config.max_restart_count as int,
    );
}

/// When a process cannot be started, the tool is scheduled to try again after its delay, counted
/// as one restart more, where it restarts by itself and fewer restarts than its limit lie within
/// its window; otherwise it has crashed and is no longer wanted.
pub proof fn law_failed_start(tool: ToolModel, config: ToolConfig, now: u64)
    requires
        forall|i: int, j: int|
            0 <= i <= j < tool.restarts.len() ==> tool.restarts[i] <= tool.restarts[j],
        tool.runtime.restart_count < usize::MAX,
    ensures
        ({
            let after = start_failed(tool, config, now);
            let counting = tool.restarts.filter(
                |time: u64| now - time <= config.restart_window_seconds * 1_000_000_000,
            );
            &&& after.active == tool.active
            &&& after.runtime.pid == tool.runtime.pid
            &&& after.runtime.memory == tool.runtime.memory
            &&& after.runtime.started_at_unix_ms == tool.runtime.started_at_unix_ms
            &&& config.auto_restart && counting.len() < config.max_restart_count ==> {
                &&& after.runtime.state == ToolState::Restarting
                &&& after.desired == tool.desired
                &&& after.next_start == Some(now + config.restart_delay_ms * 1_000_000)
                &&& after.restarts == counting.push(now)
                &&& after.runtime.restart_count == tool.runtime.restart_count + 1
            }
            &&& config.auto_restart && counting.len() >= config.max_restart_count
                ==> after.restarts == counting
            &&& !config.auto_restart ==> after.restarts == tool.restarts
            &&& !config.auto_restart || counting.len() >= config.max_restart_count ==> {
                &&& after.runtime.state == ToolState::Crashed
                &&& !after.desired
                &&& after.next_start == tool.next_start
                &&& after.runtime.restart_count == tool.runtime.restart_count
            }
        }),
{
    law_restart_is_allowed_below_the_limit(
        tool.restarts,
        now,
        config.restart_window_seconds,
        config.max_restart_count as int,
    );
}

/// Whether a step neither starts nor ends anything, nor asks for it: it is a signal that is no
/// request to start, to stop or to restart, or it has to do with memory.
pub open spec fn is_idle_step(step: Step) -> bool {
    match step {
        Step::Signalled(signal, _) => is_idle(signal),
        Step::SampleBegun => true,
        Step::SampleFinished(_, _) => true,
        _ => false,
    }
}

/// However many signals that ask for nothing a tool gets, and however often its memory is looked
/// at, it stays wanted or unwanted, scheduled for the same moment, and due from the same moment
/// on.
pub proof fn law_scheduled_start_stands(
    tool: ToolModel,
    config: ToolConfig,
    steps: Seq<Step>,
    later: u64,
)
    requires
        forall|i: int| 0 <= i < steps.len() ==> is_idle_step(#[trigger] steps[i]),
    ensures
        after_all(tool, config, steps).desired == tool.desired,
        after_all(tool, config, steps).next_start == tool.next_start,
        after_all(tool, config, steps).active == tool.active,
        after_all(tool, config, steps).restarts == tool.restarts,
        after_all(tool, config, steps).runtime.state == tool.runtime.state,
        after_all(tool, config, steps).runtime.pid == tool.runtime.pid,
        is_due(after_all(tool, config, steps), later) == is_due(tool, later),
    decreases steps.len(),
{
    if steps.len() > 0 {
        let front = steps.drop_last();
        assert forall|i: int| 0 <= i < front.len() implies is_idle_step(#[trigger] front[i]) by {
            assert(front[i] == steps[i]);
        }
        law_scheduled_start_stands(tool, config, front, later);
        assert(is_idle_step(steps[steps.len() - 1]));
    }
}

/// A wanted tool whose process ends by itself is started again exactly from its delay on, through
/// any number of waits that time out, where it restarts by itself and its limit is above the
/// restarts that are remembered.
pub proof fn law_tool_is_restarted_after_its_delay(
    tool: ToolModel,
    config: ToolConfig,
    now: u64,
    steps: Seq<Step>,
    later: u64,
)
    requires
        tool.desired,
        config.auto_restart,
        tool.restarts.len() < config.max_restart_count,
        forall|i: int| 0 <= i < steps.len() ==> is_idle_step(#[trigger] steps[i]),
    ensures
        is_due(after_all(exited(tool, config, now), config, steps), later) <==> later >= now
            + config.restart_delay_ms * 1_000_000,
{
    crate::restart::lemma_recent(tool.restarts, now, window_of(config.restart_window_seconds));
    law_scheduled_start_stands(exited(tool, config, now), config, steps, later);
}

/// A tool that starts by itself is started at once, through any number of waits that time out;
/// one that does not is not.
pub proof fn law_tool_starts_by_itself(
    auto_start: bool,
    start: u64,
    config: ToolConfig,
    steps: Seq<Step>,
    later: u64,
)
    requires
        forall|i: int| 0 <= i < steps.len() ==> is_idle_step(#[trigger] steps[i]),
    ensures
        is_due(after_all(initial(auto_start, start), config, steps), later) <==> auto_start && later
            >= start,
{
    law_scheduled_start_stands(initial(auto_start, start), config, steps, later);
}

/// While its memory is asked for, a running tool shows that, and its process is the one that is
/// asked about; another tool shows nothing and is not asked about. The answer is shown as the
/// bytes, or that there are none, for the process that it is about, and nothing else changes.
pub proof fn law_memory_is_asked_for_and_shown(runtime: Runtime, pid: u32, bytes: u64)
    ensures
        ({
            let asked = sampling(runtime);
            let known = sampled(runtime, pid, Some(bytes));
            let unknown = sampled(runtime, pid, None);
            &&& runtime.state == ToolState::Running ==> asked.memory == MemoryValue::Pending
                && sampled_pid(runtime) == runtime.pid
            &&& runtime.state != ToolState::Running ==> asked.memory == MemoryValue::Idle
                && sampled_pid(runtime) is None
            &&& asked == (Runtime { memory: asked.memory, ..runtime })
            &&& runtime.pid == Some(pid) ==> known == (Runtime {
                memory: MemoryValue::Bytes(bytes),
                ..runtime
            }) && unknown == (Runtime { memory: MemoryValue::Unavailable, ..runtime })
            &&& runtime.pid != Some(pid) ==> known == runtime && unknown == runtime
            &&& memory_answer(Some(bytes)) == MemoryValue::Bytes(bytes)
            &&& memory_answer(None) == MemoryValue::Unavailable
        }),
{
}

/// An answer about the memory of one process is never shown for another.
pub proof fn law_memory_is_of_the_shown_process(runtime: Runtime, pid: u32, bytes: Option<u64>)
    requires
        runtime.pid != Some(pid),
    ensures
        sampled(runtime, pid, bytes) == runtime,
{
}

/// What is noted of the end of a process says whether the tool is started again.
pub proof fn law_end_of_a_process_is_noted()
    ensures
        ExitOutcome::RestartScheduled.text() == Some("scheduled automatic restart"@),
        ExitOutcome::RestartLimitReached.text() == Some(
            "automatic restart limit reached; tool marked Crashed"@,
        ),
        ExitOutcome::Stopped.text() is None,
        idle_runtime() == (Runtime {
            state: ToolState::Stopped,
            pid: None,
            memory: MemoryValue::Idle,
            restart_count: 0,
            started_at_unix_ms: None,
        }),
{
}

} // verus!
