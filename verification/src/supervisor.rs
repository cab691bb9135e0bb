//! All supervised tools together.
use std::collections::VecDeque;
use vstd::prelude::*;
use crate::config::{configured_chinese, AppConfig};
#[allow(unused_imports)]
use crate::config::chinese_choice;
use crate::launch::Platform;
use crate::paths::{command_directory, AppPaths};
#[allow(unused_imports)]
use crate::paths::directory;
use crate::tool::{memory_value, Action, Control, ExitOutcome, MemoryValue, Runtime, Signal, Tool};
#[allow(unused_imports)]
use crate::tool::{
    action_for, exit_outcome, exited, initial, is_due, memory_answer, sampled, sampled_pid,
    sampling, signalled, start_failed, started, starting, stopped, stopping, ToolModel, ToolState,
};

verus! {

/// What is shown of a tool.
#[derive(Clone, Debug, PartialEq, Eq)]
pub struct ToolSnapshot {
    pub name: String,
    pub state: ToolState,
    pub pid: Option<u32>,
    pub memory: MemoryValue,
    pub restart_count: usize,
    pub started_at_unix_ms: Option<u64>,
}

/// Whether `snapshot` shows a tool with the given name of which `runtime` is known.
pub open spec fn is_snapshot(snapshot: ToolSnapshot, name: Seq<char>, runtime: Runtime) -> bool {
    &&& snapshot.name@ == name
    &&& snapshot.state == runtime.state
    &&& snapshot.pid == runtime.pid
    &&& snapshot.memory == runtime.memory
    &&& snapshot.restart_count == runtime.restart_count
    &&& snapshot.started_at_unix_ms == runtime.started_at_unix_ms
}

/// Whether two snapshots show the same.
pub open spec fn shows_same(left: ToolSnapshot, right: ToolSnapshot) -> bool {
    &&& left.name@ == right.name@
    &&& left.state == right.state
    &&& left.pid == right.pid
    &&& left.memory == right.memory
    &&& left.restart_count == right.restart_count
    &&& left.started_at_unix_ms == right.started_at_unix_ms
}

/// Whether two lists of snapshots show the same, one for one.
pub open spec fn all_show_same(left: Seq<ToolSnapshot>, right: Seq<ToolSnapshot>) -> bool {
    &&& left.len() == right.len()
    &&& forall|i: int| 0 <= i < left.len() ==> shows_same(#[trigger] left[i], right[i])
}

fn same_optional_u32(left: Option<u32>, right: Option<u32>) -> (same: bool)
    ensures
        same == (left == right),
{
    match (left, right) {
        (Some(left), Some(right)) => left == right,
        (None, None) => true,
        _ => false,
    }
}

/// Whether two optional numbers are the same.
pub fn same_optional_u64(left: Option<u64>, right: Option<u64>) -> (same: bool)
    ensures
        same == (left == right),
{
    match (left, right) {
        (Some(left), Some(right)) => left == right,
        (None, None) => true,
        _ => false,
    }
}

impl ToolSnapshot {
    /// What is shown of a tool that was never started.
    pub fn stopped(name: String) -> (snapshot: Self)
        ensures
            is_snapshot(snapshot, name@, crate::tool::idle_runtime()),
    {
        ToolSnapshot::new(name, Runtime::new())
    }

    /// What is shown of a tool of which `runtime` is known.
    pub fn new(name: String, runtime: Runtime) -> (snapshot: Self)
        ensures
            is_snapshot(snapshot, name@, runtime),
            snapshot == (ToolSnapshot {
                name,
                state: runtime.state,
                pid: runtime.pid,
                memory: runtime.memory,
                restart_count: runtime.restart_count,
                started_at_unix_ms: runtime.started_at_unix_ms,
            }),
    {
        ToolSnapshot {
            name,
            state: runtime.state,
            pid: runtime.pid,
            memory: runtime.memory,
            restart_count: runtime.restart_count,
            started_at_unix_ms: runtime.started_at_unix_ms,
        }
    }

    /// Whether another snapshot shows the same.
    pub fn same_as(&self, other: &ToolSnapshot) -> (same: bool)
        ensures
            same == shows_same(*self, *other),
    {
        self.name == other.name && self.state == other.state && same_optional_u32(
            self.pid,
            other.pid,
        ) && self.memory == other.memory && self.restart_count == other.restart_count
            && same_optional_u64(self.started_at_unix_ms, other.started_at_unix_ms)
    }
}

/// Whether two lists of snapshots show the same, one for one.
pub fn same_snapshots(left: &Vec<ToolSnapshot>, right: &Vec<ToolSnapshot>) -> (same: bool)
    ensures
        same == all_show_same(left@, right@),
{
    if left.len() != right.len() {
        return false;
    }
    let mut i: usize = 0;
    while i < left.len()
        invariant
            i <= left@.len() == right@.len(),
            forall|j: int| 0 <= j < i ==> shows_same(#[trigger] left@[j], right@[j]),
        decreases left@.len() - i,
    {
        if !left[i].same_as(&right[i]) {
            return false;
        }
        i += 1;
    }
    true
}

// ---------------------------------------------------------------------------
// The model
// ---------------------------------------------------------------------------

/// One tool among the others.
pub struct SlotModel {
    pub tool: ToolModel,
    /// What the tool was asked to do and has not come to yet, in order.
    pub requests: Seq<Control>,
    /// Whether the tool is run by the elevated helper.
    pub elevated: bool,
}

/// All tools, with the configuration that names them.
pub struct SupervisorModel {
    pub config: AppConfig,
    pub paths: AppPaths,
    pub slots: Seq<SlotModel>,
    pub manager_memory: MemoryValue,
}

impl SupervisorModel {
    /// Whether every configured tool has its place.
    pub open spec fn wf(self) -> bool {
        self.slots.len() == self.config.tools@.len()
    }

    /// The same with another tool at `index`.
    pub open spec fn with_tool(self, index: int, tool: ToolModel) -> SupervisorModel {
        SupervisorModel {
            slots: self.slots.update(index, SlotModel { tool, ..self.slots[index] }),
            ..self
        }
    }

    /// The same after the tool at `index`, if there is one, was asked to do something.
    pub open spec fn asked(self, index: int, control: Control) -> SupervisorModel {
        if 0 <= index < self.slots.len() {
            SupervisorModel {
                slots: self.slots.update(index, asked_slot(self.slots[index], control)),
                ..self
            }
        } else {
            self
        }
    }

    /// The same after every tool was asked to do something.
    pub open spec fn all_asked(self, control: Control) -> SupervisorModel {
        SupervisorModel {
            slots: self.slots.map_values(|slot: SlotModel| asked_slot(slot, control)),
            ..self
        }
    }
}

/// A tool that was asked to do one thing more.
pub open spec fn asked_slot(slot: SlotModel, control: Control) -> SlotModel {
    SlotModel { requests: slot.requests.push(control), ..slot }
}

/// A tool whose memory is asked for: of one that the elevated helper runs, by way of a
/// request to the helper if it is running.
pub open spec fn sampling_slot(slot: SlotModel) -> SlotModel {
    let tool = ToolModel { runtime: sampling(slot.tool.runtime), ..slot.tool };
    if slot.elevated && slot.tool.runtime.state == ToolState::Running {
        asked_slot(SlotModel { tool, ..slot }, Control::SampleMemory)
    } else {
        SlotModel { tool, ..slot }
    }
}

/// The processes whose memory is to be asked for, with the tools that they belong to.
pub open spec fn sampled_processes(slots: Seq<SlotModel>) -> Seq<(usize, u32)>
    decreases slots.len(),
{
    if slots.len() == 0 {
        Seq::empty()
    } else {
        let before = sampled_processes(slots.drop_last());
        let last = slots.last();
        if !last.elevated && sampled_pid(last.tool.runtime) is Some {
            before.push(((slots.len() - 1) as usize, sampled_pid(last.tool.runtime)->0))
        } else {
            before
        }
    }
}

// ---------------------------------------------------------------------------
// The supervisor
// ---------------------------------------------------------------------------

struct Slot {
    tool: Tool,
    requests: VecDeque<Control>,
    elevated: bool,
}

impl Slot {
    spec fn model(self) -> SlotModel {
        SlotModel { tool: self.tool@, requests: self.requests@, elevated: self.elevated }
    }
}

/// All supervised tools.
pub struct Supervisor {
    config: AppConfig,
    paths: AppPaths,
    slots: Vec<Slot>,
    manager_memory: MemoryValue,
}

impl View for Supervisor {
    type V = SupervisorModel;

    closed spec fn view(&self) -> SupervisorModel {
        SupervisorModel {
            config: self.config,
            paths: self.paths,
            slots: Seq::new(self.slots@.len(), |i: int| self.slots@[i].model()),
            manager_memory: self.manager_memory,
        }
    }
}

impl Supervisor {
    /// Puts the configured tools under supervision at the moment `now`. With `helper`, the
    /// tools that need elevated rights are run by the elevated helper.
    pub fn new(config: AppConfig, paths: AppPaths, helper: bool, now: u64) -> (supervisor: Self)
        ensures
            supervisor@.wf(),
            supervisor@.config == config,
            supervisor@.paths == paths,
            supervisor@.manager_memory == MemoryValue::Idle,
            forall|i: int|
                0 <= i < config.tools@.len() ==> #[trigger] supervisor@.slots[i] == (SlotModel {
                    tool: initial(config.tools@[i].auto_start, now),
                    requests: Seq::empty(),
                    elevated: helper && config.tools@[i].admin,
                }),
    {
        let mut slots: Vec<Slot> = Vec::new();
        let mut i: usize = 0;
        while i < config.tools.len()
            invariant
                i <= config.tools@.len(),
                slots@.len() == i,
                forall|j: int|
                    0 <= j < i ==> (#[trigger] slots@[j]).model() == (SlotModel {
                        tool: initial(config.tools@[j].auto_start, now),
                        requests: Seq::empty(),
                        elevated: helper && config.tools@[j].admin,
                    }),
            decreases config.tools@.len() - i,
        {
            let tool = &config.tools[i];
            let slot = Slot {
                tool: Tool::new(tool.auto_start, now),
                requests: VecDeque::new(),
                elevated: helper && tool.admin,
            };
            slots.push(slot);
            i += 1;
        }
        Supervisor { config, paths, slots, manager_memory: MemoryValue::Idle }
    }

    /// What is shown of the tools.
    pub fn snapshots(&self) -> (snapshots: Vec<ToolSnapshot>)
        requires
            self@.wf(),
        ensures
            snapshots@.len() == self@.slots.len(),
            forall|i: int|
                0 <= i < snapshots@.len() ==> is_snapshot(
                    #[trigger] snapshots@[i],
                    self@.config.tools@[i].name@,
                    self@.slots[i].tool.runtime,
                ),
    {
        let mut snapshots: Vec<ToolSnapshot> = Vec::new();
        let mut i: usize = 0;
        while i < self.slots.len()
            invariant
                self@.wf(),
                i <= self.slots@.len(),
                snapshots@.len() == i,
                forall|j: int|
                    0 <= j < i ==> is_snapshot(
                        #[trigger] snapshots@[j],
                        self@.config.tools@[j].name@,
                        self@.slots[j].tool.runtime,
                    ),
            decreases self.slots@.len() - i,
        {
            snapshots.push(
                ToolSnapshot::new(self.config.tools[i].name.clone(), self.slots[i].tool.runtime()),
            );
            i += 1;
        }
        snapshots
    }

    /// What is known of the memory of the manager itself.
    pub fn manager_memory(&self) -> (memory: MemoryValue)
        ensures
            memory == self@.manager_memory,
    {
        self.manager_memory
    }

    /// The file that holds the configuration.
    pub fn config_path(&self) -> (path: &Vec<u8>)
        ensures
            *path == self@.paths.config_file,
    {
        &self.paths.config_file
    }

    /// How many tools there are.
    pub fn tool_count(&self) -> (count: usize)
        ensures
            count == self@.slots.len(),
    {
        self.slots.len()
    }

    /// Whether the manager starts without a window.
    pub fn minimize_to_tray(&self) -> (minimize: bool)
        ensures
            minimize == self@.config.manager.minimize_to_tray,
    {
        self.config.manager.minimize_to_tray
    }

    /// Whether the configuration asks for Chinese, if it asks for a language.
    pub fn configured_chinese(&self) -> (choice: Option<bool>)
        ensures
            choice == (match self@.config.manager.lang {
                Some(lang) => chinese_choice(lang@),
                None => None,
            }),
    {
        match &self.config.manager.lang {
            Some(lang) => configured_chinese(lang.as_str()),
            None => None,
        }
    }

    fn send(&mut self, index: usize, control: Control)
        ensures
            final(self)@ == old(self)@.asked(index as int, control),
    {
        if index < self.slots.len() {
            self.slots[index].requests.push_back(control);
        }
        assert(self@.slots =~= old(self)@.asked(index as int, control).slots);
    }

    fn send_all(&mut self, control: Control)
        ensures
            final(self)@ == old(self)@.all_asked(control),
    {
        let ghost before = self@;
        let mut i: usize = 0;
        while i < self.slots.len()
            invariant
                i <= self.slots@.len() == before.slots.len(),
                self@.config == before.config,
                self@.paths == before.paths,
                self@.manager_memory == before.manager_memory,
                forall|j: int|
                    0 <= j < i ==> #[trigger] self@.slots[j] == asked_slot(
                        before.slots[j],
                        control,
                    ),
                forall|j: int| i <= j < before.slots.len() ==> #[trigger] self@.slots[j]
                    == before.slots[j],
            decreases self.slots@.len() - i,
        {
            let ghost mid = self@.slots;
            self.slots[i].requests.push_back(control);
            assert(self@.slots =~= mid.update(i as int, asked_slot(mid[i as int], control)));
            i += 1;
        }
        assert(self@.slots =~= before.all_asked(control).slots);
    }

    /// Asks a tool to start.
    pub fn start(&mut self, index: usize)
        ensures
            final(self)@ == old(self)@.asked(index as int, Control::Start),
    {
        self.send(index, Control::Start);
    }

    /// Asks a tool to stop.
    pub fn stop(&mut self, index: usize)
        ensures
            final(self)@ == old(self)@.asked(index as int, Control::Stop),
    {
        self.send(index, Control::Stop);
    }

    /// Asks a tool to restart.
    pub fn restart(&mut self, index: usize)
        ensures
            final(self)@ == old(self)@.asked(index as int, Control::Restart),
    {
        self.send(index, Control::Restart);
    }

    /// Asks all tools to start.
    pub fn start_all(&mut self)
        ensures
            final(self)@ == old(self)@.all_asked(Control::Start),
    {
        self.send_all(Control::Start);
    }

    /// Asks all tools to stop.
    pub fn stop_all(&mut self)
        ensures
            final(self)@ == old(self)@.all_asked(Control::Stop),
    {
        self.send_all(Control::Stop);
    }

    /// Asks all tools to restart.
    pub fn restart_all(&mut self)
        ensures
            final(self)@ == old(self)@.all_asked(Control::Restart),
    {
        self.send_all(Control::Restart);
    }

    /// Asks all tools to stop for good.
    pub fn shutdown(&mut self)
        ensures
            final(self)@ == old(self)@.all_asked(Control::Shutdown),
    {
        self.send_all(Control::Shutdown);
    }
}

impl Supervisor {
    /// What a tool was asked to do first and has not come to yet.
    pub fn take_request(&mut self, index: usize) -> (request: Option<Control>)
        requires
            old(self)@.wf(),
            index < old(self)@.slots.len(),
        ensures
            final(self)@.wf(),
            ({
                let slot = old(self)@.slots[index as int];
                if slot.requests.len() == 0 {
                    &&& request is None
                    &&& final(self)@ == old(self)@
                } else {
                    &&& request == Some(slot.requests[0])
                    &&& final(self)@ == (SupervisorModel {
                        slots: old(self)@.slots.update(
                            index as int,
                            SlotModel { requests: slot.requests.drop_first(), ..slot },
                        ),
                        ..old(self)@
                    })
                }
            }),
    {
        let ghost slot = self@.slots[index as int];
        let request = self.slots[index].requests.pop_front();
        proof {
            if slot.requests.len() == 0 {
                assert(self@.slots =~= old(self)@.slots);
            } else {
                assert(self@.slots[index as int].requests =~= slot.requests.drop_first());
                assert(self@.slots =~= old(self)@.slots.update(
                    index as int,
                    SlotModel { requests: slot.requests.drop_first(), ..slot },
                ));
            }
        }
        request
    }

    /// What is known of a tool.
    pub fn runtime(&self, index: usize) -> (runtime: Runtime)
        requires
            index < self@.slots.len(),
        ensures
            runtime == self@.slots[index as int].tool.runtime,
    {
        self.slots[index].tool.runtime()
    }

    /// Whether a tool is run by the elevated helper, and so logs elsewhere.
    pub fn is_elevated(&self, index: usize) -> (elevated: bool)
        requires
            index < self@.slots.len(),
        ensures
            elevated == self@.slots[index as int].elevated,
    {
        self.slots[index].elevated
    }

    /// Whether a tool is to be started now.
    pub fn start_due(&self, index: usize, now: u64) -> (due: bool)
        requires
            index < self@.slots.len(),
        ensures
            due == is_due(self@.slots[index as int].tool, now),
    {
        self.slots[index].tool.start_due(now)
    }

    /// Takes a signal for a tool and says what is to be done about it.
    pub fn handle_signal(&mut self, index: usize, signal: Signal, now: u64) -> (action: Action)
        requires
            old(self)@.wf(),
            index < old(self)@.slots.len(),
        ensures
            final(self)@.wf(),
            final(self)@ == old(self)@.with_tool(
                index as int,
                signalled(old(self)@.slots[index as int].tool, signal, now),
            ),
            action == action_for(signal),
    {
        let action = self.slots[index].tool.handle_signal(signal, now);
        assert(self@.slots =~= old(self)@.with_tool(index as int, self@.slots[index as int].tool).slots);
        action
    }

    /// Notes that the process of a tool is about to be stopped, and says whether there is one.
    pub fn begin_stop(&mut self, index: usize) -> (active: bool)
        requires
            old(self)@.wf(),
            index < old(self)@.slots.len(),
        ensures
            final(self)@.wf(),
            final(self)@ == old(self)@.with_tool(
                index as int,
                stopping(old(self)@.slots[index as int].tool),
            ),
            active == old(self)@.slots[index as int].tool.active,
    {
        let active = self.slots[index].tool.begin_stop();
        assert(self@.slots =~= old(self)@.with_tool(index as int, self@.slots[index as int].tool).slots);
        active
    }

    /// Notes that the process of a tool has been stopped.
    pub fn finish_stop(&mut self, index: usize)
        requires
            old(self)@.wf(),
            index < old(self)@.slots.len(),
        ensures
            final(self)@.wf(),
            final(self)@ == old(self)@.with_tool(
                index as int,
                stopped(old(self)@.slots[index as int].tool),
            ),
    {
        self.slots[index].tool.finish_stop();
        assert(self@.slots =~= old(self)@.with_tool(index as int, self@.slots[index as int].tool).slots);
    }

    /// Notes that the process of a tool has ended by itself, and says what comes of it.
    pub fn process_exited(&mut self, index: usize, now: u64) -> (outcome: ExitOutcome)
        requires
            old(self)@.wf(),
            index < old(self)@.slots.len(),
            old(self)@.slots[index as int].tool.runtime.restart_count < usize::MAX,
        ensures
            final(self)@.wf(),
            final(self)@ == old(self)@.with_tool(
                index as int,
                exited(old(self)@.slots[index as int].tool, old(self)@.config.tools@[index as int], now),
            ),
            outcome == exit_outcome(old(self)@.slots[index as int].tool, old(self)@.config.tools@[index as int], now),
    {
        let outcome = self.slots[index].tool.process_exited(&self.config.tools[index], now);
        assert(self@.slots =~= old(self)@.with_tool(index as int, self@.slots[index as int].tool).slots);
        outcome
    }

    /// Notes that a tool is being started.
    pub fn begin_start(&mut self, index: usize)
        requires
            old(self)@.wf(),
            index < old(self)@.slots.len(),
        ensures
            final(self)@.wf(),
            final(self)@ == old(self)@.with_tool(
                index as int,
                starting(old(self)@.slots[index as int].tool),
            ),
    {
        self.slots[index].tool.begin_start();
        assert(self@.slots =~= old(self)@.with_tool(index as int, self@.slots[index as int].tool).slots);
    }

    /// Notes that the process `pid` of a tool has been started.
    pub fn start_succeeded(&mut self, index: usize, pid: u32, unix_ms: u64)
        requires
            old(self)@.wf(),
            index < old(self)@.slots.len(),
        ensures
            final(self)@.wf(),
            final(self)@ == old(self)@.with_tool(
                index as int,
                started(old(self)@.slots[index as int].tool, pid, unix_ms),
            ),
    {
        self.slots[index].tool.start_succeeded(pid, unix_ms);
        assert(self@.slots =~= old(self)@.with_tool(index as int, self@.slots[index as int].tool).slots);
    }

    /// Notes that no process of a tool could be started.
    pub fn start_failed(&mut self, index: usize, now: u64)
        requires
            old(self)@.wf(),
            index < old(self)@.slots.len(),
            old(self)@.slots[index as int].tool.runtime.restart_count < usize::MAX,
        ensures
            final(self)@.wf(),
            final(self)@ == old(self)@.with_tool(
                index as int,
                start_failed(old(self)@.slots[index as int].tool, old(self)@.config.tools@[index as int], now),
            ),
    {
        self.slots[index].tool.start_failed(&self.config.tools[index], now);
        assert(self@.slots =~= old(self)@.with_tool(index as int, self@.slots[index as int].tool).slots);
    }

    /// Notes what the elevated helper has told of a tool.
    pub fn set_runtime(&mut self, index: usize, runtime: Runtime)
        requires
            old(self)@.wf(),
            index < old(self)@.slots.len(),
        ensures
            final(self)@.wf(),
            final(self)@ == old(self)@.with_tool(
                index as int,
                ToolModel { runtime, ..old(self)@.slots[index as int].tool },
            ),
    {
        self.slots[index].tool.set_runtime(runtime);
        assert(self@.slots =~= old(self)@.with_tool(index as int, self@.slots[index as int].tool).slots);
    }

    /// Notes the answer about the memory of the process `pid` of a tool.
    pub fn finish_sample(&mut self, index: usize, pid: u32, bytes: Option<u64>)
        requires
            old(self)@.wf(),
            index < old(self)@.slots.len(),
        ensures
            final(self)@.wf(),
            final(self)@ == old(self)@.with_tool(
                index as int,
                ToolModel { runtime: sampled(old(self)@.slots[index as int].tool.runtime, pid, bytes), ..old(self)@.slots[index as int].tool },
            ),
    {
        self.slots[index].tool.finish_sample(pid, bytes);
        assert(self@.slots =~= old(self)@.with_tool(index as int, self@.slots[index as int].tool).slots);
    }

    /// Notes that all memory is asked for, and says of which processes, each with the tool
    /// that it belongs to. The memory of the manager is asked for too.
    pub fn sample_memory(&mut self) -> (processes: Vec<(usize, u32)>)
        ensures
            final(self)@ == (SupervisorModel {
                slots: old(self)@.slots.map_values(|slot: SlotModel| sampling_slot(slot)),
                manager_memory: MemoryValue::Pending,
                ..old(self)@
            }),
            processes@ == sampled_processes(old(self)@.slots),
            forall|i: usize, pid: u32|
                i < old(self)@.slots.len() ==> (#[trigger] processes@.contains((i, pid)) <==> !old(
                    self,
                )@.slots[i as int].elevated && old(self)@.slots[i as int].tool.runtime.state
                    == ToolState::Running && old(self)@.slots[i as int].tool.runtime.pid == Some(
                    pid,
                )),
    {
        let ghost before = self@;
        self.manager_memory = MemoryValue::Pending;
        let mut processes: Vec<(usize, u32)> = Vec::new();
        let mut i: usize = 0;
        assert(before.slots.take(0) =~= Seq::<SlotModel>::empty());
        while i < self.slots.len()
            invariant
                i <= self.slots@.len() == before.slots.len(),
                self@.config == before.config,
                self@.paths == before.paths,
                self@.manager_memory == MemoryValue::Pending,
                forall|j: int| 0 <= j < i ==> #[trigger] self@.slots[j] == sampling_slot(
                    before.slots[j],
                ),
                forall|j: int| i <= j < before.slots.len() ==> #[trigger] self@.slots[j]
                    == before.slots[j],
                processes@ == sampled_processes(before.slots.take(i as int)),
            decreases self.slots@.len() - i,
        {
            let ghost mid = self@.slots;
            assert(mid[i as int] == before.slots[i as int]);
            let elevated = self.slots[i].elevated;
            let running = self.slots[i].tool.runtime().state == ToolState::Running;
            let pid = self.slots[i].tool.begin_sample();
            if elevated && running {
                self.slots[i].requests.push_back(Control::SampleMemory);
            }
            if !elevated {
                if let Some(pid) = pid {
                    processes.push((i, pid));
                }
            }
            proof {
                assert(before.slots.take(i + 1).drop_last() =~= before.slots.take(i as int));
                assert(self@.slots =~= mid.update(i as int, sampling_slot(mid[i as int])));
            }
            i += 1;
        }
        proof {
            assert(before.slots.take(before.slots.len() as int) =~= before.slots);
            assert(self@.slots =~= before.slots.map_values(|slot: SlotModel| sampling_slot(slot)));
            law_every_running_tool_is_sampled(before.slots);
        }
        processes
    }

    /// Notes the answer about the memory of the manager.
    pub fn finish_manager_sample(&mut self, bytes: Option<u64>)
        ensures
            final(self)@ == (SupervisorModel {
                manager_memory: memory_answer(bytes),
                ..old(self)@
            }),
    {
        self.manager_memory = memory_value(bytes);
    }

    /// The directory to show for a tool: the one that it works in, or else the one that holds
    /// its command, or else the one that is current.
    pub fn workdir(&self, index: usize, platform: Platform) -> (shown: Option<String>)
        requires
            self@.wf(),
        ensures
            match shown {
                Some(shown) => index < self@.slots.len() && shown@ == (
                match self@.config.tools@[index as int].workdir {
                    Some(workdir) => workdir@,
                    None => match directory(
                        platform,
                        self@.config.tools@[index as int].command@,
                    ) {
                        Some(parent) => parent,
                        None => "."@,
                    },
                }),
                None => index >= self@.slots.len(),
            },
    {
        if index >= self.slots.len() {
            return None;
        }
        let tool = &self.config.tools[index];
        match &tool.workdir {
            Some(workdir) => Some(workdir.clone()),
            None => match command_directory(tool.command.as_str(), platform) {
                Some(parent) => Some(parent),
                None => Some(".".to_owned()),
            },
        }
    }
}

// ---------------------------------------------------------------------------
// What holds of all tools
// ---------------------------------------------------------------------------

/// A snapshot is one of a tool exactly if it has the tool's name and all that is known of the
/// tool, and two snapshots show the same exactly if they agree in all that they hold.
pub proof fn law_snapshots_show_everything(
    left: ToolSnapshot,
    right: ToolSnapshot,
    name: Seq<char>,
    runtime: Runtime,
)
    ensures
        is_snapshot(left, name, runtime) <==> left.name@ == name && left.state == runtime.state
            && left.pid == runtime.pid && left.memory == runtime.memory && left.restart_count
            == runtime.restart_count && left.started_at_unix_ms == runtime.started_at_unix_ms,
        shows_same(left, right) <==> left.name@ == right.name@ && left.state == right.state
            && left.pid == right.pid && left.memory == right.memory && left.restart_count
            == right.restart_count && left.started_at_unix_ms == right.started_at_unix_ms,
{
}

/// Two lists of snapshots show the same exactly if they are as long and agree place by place.
pub proof fn law_lists_show_the_same(left: Seq<ToolSnapshot>, right: Seq<ToolSnapshot>)
    ensures
        all_show_same(left, right) <==> left.len() == right.len() && (forall|i: int|
            0 <= i < left.len() ==> shows_same(#[trigger] left[i], right[i])),
{
}

/// When memory is asked for, every process of a running tool of the manager's own is asked about,
/// once, with its tool, in the order of the tools; and nothing else is.
pub proof fn law_every_running_tool_is_sampled(slots: Seq<SlotModel>)
    requires
        slots.len() <= usize::MAX,
    ensures
        ({
            let processes = sampled_processes(slots);
            &&& forall|i: usize, pid: u32|
                i < slots.len() ==> (#[trigger] processes.contains((i, pid)) <==> !slots[
                    i as int
                ].elevated && slots[i as int].tool.runtime.state == ToolState::Running
                    && slots[i as int].tool.runtime.pid == Some(pid))
            &&& forall|k: int|
                0 <= k < processes.len() ==> (#[trigger] processes[k]).0 < slots.len()
            &&& forall|k: int, l: int|
                0 <= k < l < processes.len() ==> (#[trigger] processes[k]).0 < (
                #[trigger] processes[l]).0
        }),
    decreases slots.len(),
{
    let processes = sampled_processes(slots);
    if slots.len() > 0 {
        let front = slots.drop_last();
        let before = sampled_processes(front);
        law_every_running_tool_is_sampled(front);
        let n = slots.len() - 1;
        assert forall|i: usize, pid: u32| i < slots.len() implies (#[trigger] processes.contains(
            (i, pid),
        ) <==> !slots[i as int].elevated && slots[i as int].tool.runtime.state == ToolState::Running
            && slots[i as int].tool.runtime.pid == Some(pid)) by {
            if i < n {
                assert(front[i as int] == slots[i as int]);
                if before.contains((i, pid)) {
                    let k = choose|k: int| 0 <= k < before.len() && before[k] == (i, pid);
                    assert(processes[k] == (i, pid));
                }
                if processes.contains((i, pid)) {
                    let k = choose|k: int| 0 <= k < processes.len() && processes[k] == (i, pid);
                    assert(k < before.len());
                    assert(before[k] == (i, pid));
                    assert(before.contains((i, pid)));
                }
            } else {
                if processes.contains((i, pid)) {
                    let k = choose|k: int| 0 <= k < processes.len() && processes[k] == (i, pid);
                    if k < before.len() {
                        assert(before[k].0 < front.len());
                    }
                }
                if !slots[i as int].elevated && slots[i as int].tool.runtime.state
                    == ToolState::Running && slots[i as int].tool.runtime.pid == Some(pid) {
                    assert(processes[processes.len() - 1] == (i, pid));
                }
            }
        }
    }
}

/// When memory is asked for, every running tool shows that its memory is being asked for, and is
/// among those that are asked about or, where the elevated helper runs it, gets the request for
/// it; another tool shows nothing and gets no request. Nothing else changes.
pub proof fn law_no_tool_waits_for_memory_in_vain(slot: SlotModel)
    ensures
        ({
            let after = sampling_slot(slot);
            let running = slot.tool.runtime.state == ToolState::Running;
            &&& running ==> after.tool.runtime.memory == MemoryValue::Pending
            &&& !running ==> after.tool.runtime.memory == MemoryValue::Idle
            &&& running && slot.elevated ==> after.requests == slot.requests.push(
                Control::SampleMemory,
            )
            &&& !(running && slot.elevated) ==> after.requests == slot.requests
            &&& after.elevated == slot.elevated
            &&& after.tool.desired == slot.tool.desired
            &&& after.tool.next_start == slot.tool.next_start
            &&& after.tool.active == slot.tool.active
            &&& after.tool.restarts == slot.tool.restarts
            &&& after.tool.runtime.state == slot.tool.runtime.state
            &&& after.tool.runtime.pid == slot.tool.runtime.pid
            &&& after.tool.runtime.restart_count == slot.tool.runtime.restart_count
            &&& after.tool.runtime.started_at_unix_ms == slot.tool.runtime.started_at_unix_ms
        }),
{
}

/// A request waits behind those that a tool has not come to, and changes nothing else; a request
/// to all tools does so for each.
pub proof fn law_requests_wait_in_order(
    supervisor: SupervisorModel,
    index: int,
    other: int,
    control: Control,
)
    requires
        0 <= index < supervisor.slots.len(),
        0 <= other < supervisor.slots.len(),
    ensures
        ({
            let one = supervisor.asked(index, control);
            let all = supervisor.all_asked(control);
            &&& one.slots.len() == supervisor.slots.len() == all.slots.len()
            &&& one.config == supervisor.config && all.config == supervisor.config
            &&& one.paths == supervisor.paths && all.paths == supervisor.paths
            &&& one.manager_memory == supervisor.manager_memory
            &&& all.manager_memory == supervisor.manager_memory
            &&& one.slots[index].requests == supervisor.slots[index].requests.push(control)
            &&& one.slots[index].tool == supervisor.slots[index].tool
            &&& one.slots[index].elevated == supervisor.slots[index].elevated
            &&& other != index ==> one.slots[other] == supervisor.slots[other]
            &&& all.slots[other].requests == supervisor.slots[other].requests.push(control)
            &&& all.slots[other].tool == supervisor.slots[other].tool
            &&& all.slots[other].elevated == supervisor.slots[other].elevated
        }),
{
}

/// What happens to one tool changes that tool alone, and none of its requests.
pub proof fn law_tools_are_apart(
    supervisor: SupervisorModel,
    index: int,
    other: int,
    tool: ToolModel,
)
    requires
        0 <= index < supervisor.slots.len(),
        0 <= other < supervisor.slots.len(),
    ensures
        ({
            let after = supervisor.with_tool(index, tool);
            &&& after.slots.len() == supervisor.slots.len()
            &&& after.slots[index].tool == tool
            &&& after.slots[index].requests == supervisor.slots[index].requests
            &&& after.slots[index].elevated == supervisor.slots[index].elevated
            &&& other != index ==> after.slots[other] == supervisor.slots[other]
            &&& after.config == supervisor.config
            &&& after.paths == supervisor.paths
            &&& after.manager_memory == supervisor.manager_memory
        }),
{
}

/// A request to a tool that is not there changes nothing.
pub proof fn law_unknown_tool_is_left_alone(supervisor: SupervisorModel, index: int, control: Control)
    requires
        index >= supervisor.slots.len(),
    ensures
        supervisor.asked(index, control) == supervisor,
{
}

/// A request to one tool leaves the others alone, and no request changes what is known of any
/// tool before it is taken.
pub proof fn law_request_reaches_one_tool(
    supervisor: SupervisorModel,
    index: int,
    other: int,
    control: Control,
)
    requires
        0 <= index < supervisor.slots.len(),
        0 <= other < supervisor.slots.len(),
    ensures
        supervisor.asked(index, control).slots[other].tool == supervisor.slots[other].tool,
        other != index ==> supervisor.asked(index, control).slots[other]
            == supervisor.slots[other],
        supervisor.asked(index, control).slots[index].requests.last() == control,
{
}

/// A request to all tools is the request to each of them.
pub proof fn law_request_reaches_all_tools(
    supervisor: SupervisorModel,
    index: int,
    control: Control,
)
    requires
        0 <= index < supervisor.slots.len(),
    ensures
        supervisor.all_asked(control).slots[index] == supervisor.asked(
            index,
            control,
        ).slots[index],
{
}

} // verus!
