//! The exchange between the manager and the helper that runs the tools with elevated rights.
//!
//! The manager leaves each command in a file of its own, whose name holds the key of the tool
//! and a number that grows from one command to the next. The helper claims the files in the
//! order of these numbers and notes for each tool the last number that it has come to. It
//! shows what is known of its tools in one file for each.
use vstd::prelude::*;
use vstd::slice::slice_subrange;
use crate::names::{extension_of, replace_extension, tool_key};
use crate::number::{parse_u64_text, push_decimal};
use crate::supervisor::{same_snapshots, Supervisor, ToolSnapshot};
use crate::text::{chars_of, find_char, has_prefix, same_text, split_of, text_of};
use crate::tool::{Control, MemoryValue, Runtime, Signal, ToolState};
#[allow(unused_imports)]
use crate::names::{extension, key, law_key_is_plain, lemma_extension, names_no_file, stem, with_extension};
#[allow(unused_imports)]
use crate::number::{
    decimal, is_digit, lemma_decimal_round_trip, lemma_parse_decimal, parse_unsigned,
};
#[allow(unused_imports)]
use crate::supervisor::{
    all_show_same, sampled_processes, sampling_slot, SlotModel, SupervisorModel,
};
#[allow(unused_imports)]
use crate::text::{
    first_where, is_char, lemma_first_where, lemma_first_where_is, split, starts_with, texts,
};

verus! {

/// The directory below that of the state in which the two leave their files.
pub const DIRECTORY: &'static str = "elevated";

/// The directory below `DIRECTORY` in which the manager leaves its commands.
pub const CONTROL_DIRECTORY: &'static str = "control";

/// The directory below `CONTROL_DIRECTORY` for the commands that were not understood.
pub const REJECTED_DIRECTORY: &'static str = "rejected";

/// The directory below `DIRECTORY` that one helper at a time holds.
pub const INSTANCE_DIRECTORY: &'static str = "helper-instance";

/// For how long what the helper shows stands for what is, in milliseconds.
pub const FRESH_MS: u64 = 8_000;

/// After what time without news of the helper its tools count as gone, in nanoseconds.
pub const PATIENCE: u64 = 8_000_000_000;

/// After what time the helper shows its tools again though nothing has changed, in
/// nanoseconds.
pub const PUBLISH_INTERVAL: u64 = 2_000_000_000;

/// What the helper is told to do with a tool.
#[derive(Clone, Copy, Debug, PartialEq, Eq, Structural)]
pub enum ElevatedCommand {
    Start,
    Stop,
    Restart,
    SampleMemory,
}

/// What the file of a command holds.
#[derive(Clone, Copy, Debug, PartialEq, Eq, Structural)]
pub struct CommandRequest {
    pub id: u64,
    pub command: ElevatedCommand,
}

/// What the helper shows of a tool.
#[derive(Clone, Debug, PartialEq, Eq)]
pub struct ElevatedState {
    pub snapshot: ToolSnapshot,
    pub acknowledged_command_id: u64,
    pub helper_started_unix_ms: u64,
    pub updated_unix_ms: u64,
}

impl ElevatedState {
    /// Whether what was shown at one time stands for what is at another.
    pub open spec fn fresh(self, now_unix_ms: u64) -> bool {
        now_unix_ms - self.updated_unix_ms <= FRESH_MS
    }

    /// Whether what was shown stands for what is at the time `now_unix_ms`. It does if the
    /// clock has been set back.
    pub fn is_fresh(&self, now_unix_ms: u64) -> (fresh: bool)
        ensures
            fresh == self.fresh(now_unix_ms),
    {
        now_unix_ms.saturating_sub(self.updated_unix_ms) <= FRESH_MS
    }
}

// ---------------------------------------------------------------------------
// Names of files
// ---------------------------------------------------------------------------

/// The name of the file with the command `id` for a tool.
pub open spec fn command_name(tool: Seq<char>, id: nat) -> Seq<char> {
    key(tool).push('.') + decimal(id) + ".command"@
}

/// The name of the file with the command `id` for the tool `tool_name`.
pub fn command_file_name(tool_name: &str, id: u64) -> (name: String)
    ensures
        name@ == command_name(tool_name@, id as nat),
{
    let mut name = tool_key(tool_name);
    name.push('.');
    push_decimal(&mut name, id);
    name.append(".command");
    name
}

/// The name under which the file of a command is written before it is complete.
pub fn temporary_command_file_name(tool_name: &str, id: u64, pid: u32) -> (name: String)
    ensures
        name@ == with_extension(
            command_name(tool_name@, id as nat),
            "tmp-"@ + decimal(pid as nat).push('-') + decimal(id as nat),
        ),
{
    let mut ending = "tmp-".to_owned();
    push_decimal(&mut ending, pid as u64);
    ending.push('-');
    push_decimal(&mut ending, id);
    assert(ending@ =~= "tmp-"@ + decimal(pid as nat).push('-') + decimal(id as nat));
    let whole = command_file_name(tool_name, id);
    replace_extension(whole.as_str(), ending.as_str())
}

/// The name of the file that shows a tool.
pub fn state_file_name(tool_name: &str) -> (name: String)
    ensures
        name@ == key(tool_name@) + ".state.toml"@,
{
    let mut name = tool_key(tool_name);
    name.append(".state.toml");
    name
}

/// The name under which the file that shows a tool is written before it is complete.
pub fn temporary_state_file_name(tool_name: &str, pid: u32) -> (name: String)
    ensures
        name@ == key(tool_name@) + ".state."@ + decimal(pid as nat) + ".tmp"@,
{
    let mut name = tool_key(tool_name);
    name.append(".state.");
    push_decimal(&mut name, pid as u64);
    name.append(".tmp");
    name
}

/// The number in the name of a command's file: what stands between its first and its second
/// dot.
pub open spec fn id_in(name: Seq<char>) -> Option<u64> {
    let pieces = split(name, '.');
    if pieces.len() < 2 {
        None
    } else {
        match parse_unsigned(pieces[1], u64::MAX as nat) {
            Some(id) => Some(id as u64),
            None => None,
        }
    }
}

/// The number in the name of a command's file.
pub fn command_file_id(name: &str) -> (id: Option<u64>)
    ensures
        id == id_in(name@),
{
    let chars = chars_of(name);
    let pieces = split_of(chars.as_slice(), '.');
    if pieces.len() < 2 {
        None
    } else {
        assert(texts(pieces@)[1] == pieces@[1]@);
        parse_u64_text(pieces[1].as_str())
    }
}

/// Whether a file holds a command, by its name.
pub open spec fn is_command(name: Seq<char>) -> bool {
    extension(name) == Some("command"@)
}

fn has_extension(name: &str, wanted: &str) -> (found: bool)
    ensures
        found == (extension(name@) == Some(wanted@)),
{
    match extension_of(name) {
        Some(found) => same_text(found.as_str(), wanted),
        None => false,
    }
}

/// The extension of a command's file while the process `pid` has claimed it.
pub open spec fn claimed_extension(pid: nat) -> Seq<char> {
    "processing-"@ + decimal(pid)
}

/// The name that the file of a command gets when the process `pid` claims it. A file whose
/// name has no dot holds no command.
pub fn claimed_name(name: &str, pid: u32) -> (claimed: Option<String>)
    ensures
        match claimed {
            Some(claimed) => name@.contains('.') && claimed@ == with_extension(
                name@,
                claimed_extension(pid as nat),
            ),
            None => !name@.contains('.'),
        },
{
    let chars = chars_of(name);
    let dot = find_char(chars.as_slice(), 0, '.');
    if dot == chars.len() {
        None
    } else {
        let mut ending = "processing-".to_owned();
        push_decimal(&mut ending, pid as u64);
        Some(replace_extension(name, ending.as_str()))
    }
}

/// The name that a file gets back of which a helper that is gone had claimed the command.
pub open spec fn recovered(name: Seq<char>) -> Option<Seq<char>> {
    match extension(name) {
        Some(ending) => if starts_with(ending, "processing-"@) {
            Some(with_extension(name, "command"@))
        } else {
            None
        },
        None => None,
    }
}

/// The name that a file gets back of which a helper that is gone had claimed the command.
pub fn recovered_name(name: &str) -> (command: Option<String>)
    ensures
        match command {
            Some(command) => recovered(name@) == Some(command@),
            None => recovered(name@) is None,
        },
{
    match extension_of(name) {
        Some(ending) => {
            let chars = chars_of(ending.as_str());
            if has_prefix(chars.as_slice(), "processing-") {
                Some(replace_extension(name, "command"))
            } else {
                None
            }
        },
        None => None,
    }
}

/// The digits of a number hold no dot.
proof fn lemma_no_dot_in_decimal(n: nat)
    ensures
        decimal(n).len() > 0,
        forall|i: int| 0 <= i < decimal(n).len() ==> decimal(n)[i] != '.',
{
    lemma_decimal_round_trip(n);
    assert forall|i: int| 0 <= i < decimal(n).len() implies decimal(n)[i] != '.' by {
        assert(is_digit(decimal(n)[i]));
    }
}

/// A text without the separator, the separator and another text split into the first text
/// and the pieces of the other.
proof fn lemma_split_head(head: Seq<char>, separator: char, tail: Seq<char>)
    requires
        forall|i: int| 0 <= i < head.len() ==> head[i] != separator,
    ensures
        split(head.push(separator) + tail, separator) == seq![head] + split(tail, separator),
{
    let whole = head.push(separator) + tail;
    let at = head.len() as int;
    assert(whole[at] == separator);
    assert forall|j: int| 0 <= j < at implies !is_char(separator)(#[trigger] whole[j]) by {
        assert(whole[j] == head[j]);
    }
    lemma_first_where_is(whole, is_char(separator), at);
    assert(whole.take(at) =~= head);
    assert(whole.skip(at + 1) =~= tail);
}

/// The number of a command can be read back from the name of its file, whatever the tool is
/// called, and the file counts as one that holds a command.
pub proof fn law_command_name_holds_id(tool: Seq<char>, id: nat)
    requires
        id <= u64::MAX,
    ensures
        id_in(command_name(tool, id)) == Some(id as u64),
        is_command(command_name(tool, id)),
        key_of_command(command_name(tool, id)) == Some(key(tool)),
{
    let name = command_name(tool, id);
    reveal_strlit(".command");
    reveal_strlit("command");
    law_key_is_plain(tool);
    lemma_no_dot_in_decimal(id);
    let rest = decimal(id).push('.') + "command"@;
    assert(name =~= key(tool).push('.') + rest);
    lemma_split_head(key(tool), '.', rest);
    lemma_split_head(decimal(id), '.', "command"@);
    assert(split(name, '.')[1] == split(rest, '.')[0]);
    lemma_parse_decimal(id, u64::MAX as nat);
    assert(name =~= (key(tool).push('.') + decimal(id)).push('.') + "command"@);
    lemma_extension(key(tool).push('.') + decimal(id), "command"@);
    assert forall|j: int| 0 <= j < key(tool).len() implies !is_char('.')(#[trigger] name[j]) by {
        assert(name[j] == key(tool)[j]);
    }
    lemma_first_where_is(name, is_char('.'), key(tool).len() as int);
    assert(name.take(key(tool).len() as int) =~= key(tool));
}

/// The file of a command that was claimed by a process that is gone gets the name back that
/// it had.
pub proof fn law_claimed_command_is_recovered(name: Seq<char>, pid: nat)
    requires
        is_command(name),
    ensures
        recovered(with_extension(name, claimed_extension(pid))) == Some(name),
{
    reveal_strlit("command");
    reveal_strlit("processing-");
    let ending = claimed_extension(pid);
    lemma_no_dot_in_decimal(pid);
    assert forall|i: int| 0 <= i < ending.len() implies ending[i] != '.' by {
        if i >= 11 {
            assert(ending[i] == decimal(pid)[i - 11]);
        } else {
            assert(ending[i] == "processing-"@[i]);
        }
    }
    crate::text::lemma_last_where(name, is_char('.'));
    let start = stem(name);
    assert(name.len() > start.len() > 0);
    assert(!names_no_file(name)) by {
        if name == seq!['.'] {
            assert(start.len() == 0);
        }
    }
    lemma_extension(start, ending);
    let claimed = start.push('.') + ending;
    assert(claimed == with_extension(name, ending));
    assert(starts_with(ending, "processing-"@)) by {
        assert(ending.take("processing-"@.len() as int) =~= "processing-"@);
    }
    assert(claimed.len() > 2);
    assert(name =~= start.push('.') + "command"@);
}

/// The key of the tool that a command is for: what stands before the first dot of the name of
/// its file.
pub open spec fn key_of_command(name: Seq<char>) -> Option<Seq<char>> {
    let dot = first_where(name, is_char('.'));
    if dot == name.len() {
        None
    } else {
        Some(name.take(dot))
    }
}

// ---------------------------------------------------------------------------
// Numbers of commands
// ---------------------------------------------------------------------------

/// A number for a command at some time, where `sequence` tells apart those of one
/// millisecond.
pub open spec fn id_at(unix_ms: u64, sequence: u64) -> int {
    let id = unix_ms * 1_000 + sequence % 1_000;
    if id > u64::MAX {
        u64::MAX as int
    } else {
        id
    }
}

/// A number for a command at some time, where `sequence` tells apart those of one
/// millisecond.
pub fn command_id(unix_ms: u64, sequence: u64) -> (id: u64)
    ensures
        id == id_at(unix_ms, sequence),
{
    let thousands: u64 = match unix_ms.checked_mul(1_000) {
        Some(product) => product,
        None => u64::MAX,
    };
    thousands.saturating_add(sequence % 1_000)
}

/// The last number that the helper has come to, by what it has shown.
pub open spec fn acknowledged_in(state: Option<ElevatedState>) -> u64 {
    match state {
        Some(state) => state.acknowledged_command_id,
        None => 0,
    }
}

/// The last number that the helper has come to, by what it has shown.
pub fn acknowledged_id(state: &Option<ElevatedState>) -> (id: u64)
    ensures
        id == acknowledged_in(*state),
{
    match state {
        Some(state) => state.acknowledged_command_id,
        None => 0,
    }
}

/// The number of a new command: that of the time, but one more at least than the helper has
/// come to.
pub open spec fn new_id(unix_ms: u64, sequence: u64, state: Option<ElevatedState>) -> int {
    let least = match state {
        Some(state) => if state.acknowledged_command_id == u64::MAX {
            u64::MAX as int
        } else {
            state.acknowledged_command_id + 1
        },
        None => 0,
    };
    if id_at(unix_ms, sequence) < least {
        least
    } else {
        id_at(unix_ms, sequence)
    }
}

/// The number of a new command.
pub fn next_command_id(unix_ms: u64, sequence: u64, state: &Option<ElevatedState>) -> (id: u64)
    ensures
        id == new_id(unix_ms, sequence, *state),
{
    let least: u64 = match state {
        Some(state) => state.acknowledged_command_id.saturating_add(1),
        None => 0,
    };
    let id = command_id(unix_ms, sequence);
    if id < least {
        least
    } else {
        id
    }
}

/// A new command is not mistaken for one that the helper has come to before, unless the
/// numbers have run out.
pub proof fn law_new_command_is_new(unix_ms: u64, sequence: u64, state: Option<ElevatedState>)
    requires
        acknowledged_in(state) < u64::MAX,
        state is None ==> id_at(unix_ms, sequence) > 0,
    ensures
        new_id(unix_ms, sequence, state) > acknowledged_in(state),
{
}

// ---------------------------------------------------------------------------
// The queue of commands
// ---------------------------------------------------------------------------

/// The number by which a command takes its place in the queue. What has none comes last.
pub open spec fn rank(name: Seq<char>) -> u64 {
    match id_in(name) {
        Some(id) => id,
        None => u64::MAX,
    }
}

/// A queue with one name more, behind all that do not come after it.
pub open spec fn queued(queue: Seq<Seq<char>>, name: Seq<char>) -> Seq<Seq<char>>
    decreases queue.len(),
{
    if queue.len() == 0 || rank(queue.last()) <= rank(name) {
        queue.push(name)
    } else {
        queued(queue.drop_last(), name).push(queue.last())
    }
}

/// The names of the commands among some names of files, in the order in which the helper
/// comes to them.
pub open spec fn queue_of(names: Seq<Seq<char>>) -> Seq<Seq<char>>
    decreases names.len(),
{
    if names.len() == 0 {
        Seq::empty()
    } else if is_command(names.last()) {
        queued(queue_of(names.drop_last()), names.last())
    } else {
        queue_of(names.drop_last())
    }
}

proof fn lemma_queued_at(queue: Seq<Seq<char>>, name: Seq<char>, at: int)
    requires
        0 <= at <= queue.len(),
        at > 0 ==> rank(queue[at - 1]) <= rank(name),
        forall|j: int| at <= j < queue.len() ==> rank(#[trigger] queue[j]) > rank(name),
    ensures
        queued(queue, name) == queue.insert(at, name),
    decreases queue.len(),
{
    if at == queue.len() {
        assert(queue.insert(at, name) =~= queue.push(name));
    } else {
        let rest = queue.drop_last();
        assert(rank(queue[queue.len() - 1]) > rank(name));
        lemma_queued_at(rest, name, at);
        assert(queue.insert(at, name) =~= rest.insert(at, name).push(queue.last()));
    }
}

/// The number by which the command in the file `name` takes its place in the queue.
pub fn command_rank(name: &str) -> (place: u64)
    ensures
        place == rank(name@),
{
    match command_file_id(name) {
        Some(id) => id,
        None => u64::MAX,
    }
}

fn enqueue(queue: &mut Vec<String>, name: String)
    ensures
        texts(final(queue)@) == queued(texts(old(queue)@), name@),
{
    let place = command_rank(name.as_str());
    let mut at: usize = queue.len();
    while at > 0 && command_rank(queue[at - 1].as_str()) > place
        invariant
            place == rank(name@),
            at <= queue@.len(),
            queue@ == old(queue)@,
            forall|j: int| at <= j < queue@.len() ==> rank(#[trigger] texts(queue@)[j]) > place,
        decreases at,
    {
        assert(texts(queue@)[at - 1] == queue@[at - 1]@);
        at -= 1;
    }
    proof {
        if at > 0 {
            assert(texts(queue@)[at - 1] == queue@[at - 1]@);
        }
        lemma_queued_at(texts(queue@), name@, at as int);
    }
    let ghost text = name@;
    queue.insert(at, name);
    assert(texts(queue@) =~= texts(old(queue)@).insert(at as int, text));
}

/// The names of the commands among some names of files, in the order in which the helper
/// comes to them: by their numbers, and those with the same number as they were given.
pub fn command_queue(names: Vec<String>) -> (queue: Vec<String>)
    ensures
        texts(queue@) == queue_of(texts(names@)),
{
    let mut queue: Vec<String> = Vec::new();
    assert(texts(queue@) =~= queue_of(texts(names@.take(0))));
    let mut i: usize = 0;
    while i < names.len()
        invariant
            i <= names@.len(),
            texts(queue@) == queue_of(texts(names@).take(i as int)),
        decreases names@.len() - i,
    {
        assert(texts(names@).take(i + 1).drop_last() =~= texts(names@).take(i as int));
        assert(texts(names@).take(i + 1).last() == names@[i as int]@);
        if has_extension(names[i].as_str(), "command") {
            enqueue(&mut queue, names[i].clone());
        }
        i += 1;
    }
    assert(texts(names@).take(names@.len() as int) =~= texts(names@));
    queue
}

proof fn lemma_queued_keeps_order(queue: Seq<Seq<char>>, name: Seq<char>)
    requires
        forall|i: int, j: int|
            0 <= i <= j < queue.len() ==> rank(#[trigger] queue[i]) <= rank(#[trigger] queue[j]),
    ensures
        forall|i: int, j: int|
            0 <= i <= j < queued(queue, name).len() ==> rank(#[trigger] queued(queue, name)[i])
                <= rank(#[trigger] queued(queue, name)[j]),
        queued(queue, name).to_multiset() == queue.to_multiset().insert(name),
        queued(queue, name).len() == queue.len() + 1,
        forall|i: int|
            0 <= i < queued(queue, name).len() ==> rank(#[trigger] queued(queue, name)[i]) <= rank(
                name,
            ) || (queue.len() > 0 && rank(queued(queue, name)[i]) <= rank(queue.last())),
    decreases queue.len(),
{
    broadcast use vstd::seq_lib::group_to_multiset_ensures;

    if queue.len() == 0 || rank(queue.last()) <= rank(name) {
    } else {
        let rest = queue.drop_last();
        lemma_queued_keeps_order(rest, name);
        let inner = queued(rest, name);
        assert(queue =~= rest.push(queue.last()));
        assert(queue.to_multiset().insert(name) =~= rest.to_multiset().insert(name).insert(
            queue.last(),
        ));
        assert forall|i: int, j: int| 0 <= i <= j < queued(queue, name).len() implies rank(
            #[trigger] queued(queue, name)[i],
        ) <= rank(#[trigger] queued(queue, name)[j]) by {
            if j == inner.len() {
                if i < j {
                    assert(queued(queue, name)[i] == inner[i]);
                    if rest.len() > 0 {
                        assert(rest.last() == queue[queue.len() - 2]);
                        assert(rank(queue[queue.len() - 2]) <= rank(queue[queue.len() - 1]));
                    }
                }
            } else {
                assert(queued(queue, name)[i] == inner[i]);
                assert(queued(queue, name)[j] == inner[j]);
            }
        }
    }
}

/// The helper comes to each command once, and to one with a lower number before one with a
/// higher.
pub proof fn law_commands_are_taken_in_order(names: Seq<Seq<char>>)
    ensures
        forall|i: int, j: int|
            0 <= i <= j < queue_of(names).len() ==> rank(#[trigger] queue_of(names)[i]) <= rank(
                #[trigger] queue_of(names)[j],
            ),
        queue_of(names).to_multiset() == names.filter(
            |name: Seq<char>| is_command(name),
        ).to_multiset(),
    decreases names.len(),
{
    broadcast use vstd::seq_lib::group_to_multiset_ensures;

    let p = |name: Seq<char>| is_command(name);
    reveal(Seq::filter);
    if names.len() > 0 {
        let rest = names.drop_last();
        law_commands_are_taken_in_order(rest);
        lemma_queued_keeps_order(queue_of(rest), names.last());
        if is_command(names.last()) {
            assert(names.filter(p) == rest.filter(p).push(names.last()));
        } else {
            assert(names.filter(p) == rest.filter(p));
        }
    } else {
        assert(queue_of(names) =~= names.filter(p));
    }
}

// ---------------------------------------------------------------------------
// The helper
// ---------------------------------------------------------------------------

/// Why a command is put aside.
#[derive(Clone, Copy, Debug, PartialEq, Eq, Structural)]
pub enum Rejection {
    Invalid,
    IdMismatch,
    UnknownTool,
}

impl Rejection {
    /// The reason, as it stands at the end of a file's name.
    pub open spec fn text(self) -> Seq<char> {
        match self {
            Rejection::Invalid => "invalid"@,
            Rejection::IdMismatch => "id-mismatch"@,
            Rejection::UnknownTool => "unknown-tool"@,
        }
    }

    /// The name that the claimed file of a command that is put aside gets.
    pub fn rejected_name(self, claimed: &str) -> (name: String)
        ensures
            name@ == claimed@.push('.') + self.text(),
    {
        let mut name = claimed.to_owned();
        name.push('.');
        match self {
            Rejection::Invalid => name.append("invalid"),
            Rejection::IdMismatch => name.append("id-mismatch"),
            Rejection::UnknownTool => name.append("unknown-tool"),
        }
        name
    }
}

/// What is to be done about a command.
#[derive(Clone, Copy, Debug, PartialEq, Eq, Structural)]
pub enum Verdict {
    /// It is put aside.
    Reject(Rejection),
    /// It is dropped: the helper has come to it, or to a later one, before.
    Discard,
    /// The tool at `index` is told.
    Dispatch { index: usize, command: ElevatedCommand },
}

/// The last place at which a key stands, or -1.
pub open spec fn last_place(keys: Seq<Seq<char>>, wanted: Seq<char>) -> int
    decreases keys.len(),
{
    if keys.len() == 0 {
        -1
    } else if keys.last() == wanted {
        keys.len() - 1
    } else {
        last_place(keys.drop_last(), wanted)
    }
}

/// The helper's tools by their keys, with the numbers of the commands that it has come to,
/// and what it has shown.
pub struct HelperModel {
    pub keys: Seq<Seq<char>>,
    pub acknowledged: Seq<u64>,
    /// Whether a number has changed since the tools were shown.
    pub changed: bool,
    /// What was shown last.
    pub shown: Seq<ToolSnapshot>,
    /// When the tools were shown last.
    pub published: Option<u64>,
}

impl HelperModel {
    /// Whether every tool has its number.
    pub open spec fn wf(self) -> bool {
        self.keys.len() == self.acknowledged.len() <= usize::MAX
    }

    /// The number that the helper has come to for the tool with the given key.
    pub open spec fn acknowledged_for(self, wanted: Seq<char>) -> u64 {
        let place = last_place(self.keys, wanted);
        if place < 0 {
            0
        } else {
            self.acknowledged[place]
        }
    }

    /// What is to be done about the command in the file `name`, whose contents were `request`.
    pub open spec fn verdict(self, name: Seq<char>, request: Option<CommandRequest>) -> Verdict {
        match request {
            None => Verdict::Reject(Rejection::Invalid),
            Some(request) => {
                let place = last_place(self.keys, name.take(first_where(name, is_char('.'))));
                if id_in(name) != Some(request.id) {
                    Verdict::Reject(Rejection::IdMismatch)
                } else if place < 0 {
                    Verdict::Reject(Rejection::UnknownTool)
                } else if request.id <= self.acknowledged[place] {
                    Verdict::Discard
                } else {
                    Verdict::Dispatch { index: place as usize, command: request.command }
                }
            },
        }
    }

    /// The helper after it has come to a command.
    pub open spec fn judged(self, name: Seq<char>, request: Option<CommandRequest>) -> HelperModel {
        match self.verdict(name, request) {
            Verdict::Dispatch { index, command } => HelperModel {
                acknowledged: self.acknowledged.update(index as int, request->0.id),
                changed: true,
                ..self
            },
            _ => self,
        }
    }

    /// Whether the tools are to be shown.
    pub open spec fn is_due(self, snapshots: Seq<ToolSnapshot>, now: u64) -> bool {
        ||| self.changed
        ||| !all_show_same(snapshots, self.shown)
        ||| match self.published {
            Some(time) => now - time >= PUBLISH_INTERVAL,
            None => true,
        }
    }
}

proof fn lemma_last_place(keys: Seq<Seq<char>>, wanted: Seq<char>)
    ensures
        -1 <= last_place(keys, wanted) < keys.len(),
        last_place(keys, wanted) >= 0 ==> keys[last_place(keys, wanted)] == wanted,
        forall|j: int| last_place(keys, wanted) < j < keys.len() ==> keys[j] != wanted,
    decreases keys.len(),
{
    if keys.len() > 0 && keys.last() != wanted {
        lemma_last_place(keys.drop_last(), wanted);
        assert forall|j: int| last_place(keys, wanted) < j < keys.len() implies keys[j]
            != wanted by {
            if j < keys.len() - 1 {
                assert(keys.drop_last()[j] == keys[j]);
            }
        }
    }
}

fn place_of(keys: &Vec<String>, wanted: &str) -> (place: Option<usize>)
    ensures
        match place {
            Some(place) => place < keys@.len() && place == last_place(texts(keys@), wanted@),
            None => last_place(texts(keys@), wanted@) == -1,
        },
{
    let mut i: usize = keys.len();
    while i > 0
        invariant
            i <= keys@.len(),
            forall|j: int| i <= j < keys@.len() ==> texts(keys@)[j] != wanted@,
        decreases i,
    {
        i -= 1;
        assert(texts(keys@)[i as int] == keys@[i as int]@);
        if same_text(keys[i].as_str(), wanted) {
            proof {
                lemma_last_place(texts(keys@), wanted@);
            }
            return Some(i);
        }
    }
    proof {
        lemma_last_place(texts(keys@), wanted@);
    }
    None
}

/// The helper's account of its tools and their commands.
pub struct Helper {
    keys: Vec<String>,
    acknowledged: Vec<u64>,
    changed: bool,
    shown: Vec<ToolSnapshot>,
    published: Option<u64>,
}

impl View for Helper {
    type V = HelperModel;

    closed spec fn view(&self) -> HelperModel {
        HelperModel {
            keys: texts(self.keys@),
            acknowledged: self.acknowledged@,
            changed: self.changed,
            shown: self.shown@,
            published: self.published,
        }
    }
}

impl Helper {
    /// A helper for the tools with the given names, of which an earlier one has shown
    /// `states`.
    pub fn new(names: &Vec<String>, states: &Vec<Option<ElevatedState>>) -> (helper: Self)
        requires
            names@.len() == states@.len(),
        ensures
            helper@.wf(),
            helper@.keys == texts(names@).map_values(|name: Seq<char>| key(name)),
            helper@.acknowledged == states@.map_values(
                |state: Option<ElevatedState>| acknowledged_in(state),
            ),
            !helper@.changed,
            helper@.shown == Seq::<ToolSnapshot>::empty(),
            helper@.published is None,
    {
        let mut keys: Vec<String> = Vec::new();
        let mut acknowledged: Vec<u64> = Vec::new();
        let mut i: usize = 0;
        while i < names.len()
            invariant
                names@.len() == states@.len(),
                i <= names@.len(),
                keys@.len() == i,
                acknowledged@.len() == i,
                forall|j: int| 0 <= j < i ==> (#[trigger] keys@[j])@ == key(names@[j]@),
                forall|j: int|
                    0 <= j < i ==> #[trigger] acknowledged@[j] == acknowledged_in(states@[j]),
            decreases names@.len() - i,
        {
            keys.push(tool_key(names[i].as_str()));
            acknowledged.push(acknowledged_id(&states[i]));
            i += 1;
        }
        let helper = Helper {
            keys,
            acknowledged,
            changed: false,
            shown: Vec::new(),
            published: None,
        };
        proof {
            assert(helper@.keys =~= texts(names@).map_values(|name: Seq<char>| key(name)));
            assert(helper@.acknowledged =~= states@.map_values(
                |state: Option<ElevatedState>| acknowledged_in(state),
            ));
        }
        helper
    }

    /// Comes to the command in the file `name`, whose contents were `request` if they could be
    /// understood, and says what is to be done about it.
    pub fn judge(&mut self, name: &str, request: Option<CommandRequest>) -> (verdict: Verdict)
        requires
            old(self)@.wf(),
        ensures
            final(self)@.wf(),
            verdict == old(self)@.verdict(name@, request),
            final(self)@ == old(self)@.judged(name@, request),
    {
        let request = match request {
            Some(request) => request,
            None => {
                return Verdict::Reject(Rejection::Invalid);
            },
        };
        let matches = match command_file_id(name) {
            Some(id) => id == request.id,
            None => false,
        };
        if !matches {
            return Verdict::Reject(Rejection::IdMismatch);
        }
        let chars = chars_of(name);
        let dot = find_char(chars.as_slice(), 0, '.');
        assert(chars@.skip(0) =~= chars@);
        assert(chars@.subrange(0, dot as int) =~= name@.take(dot as int));
        let wanted = text_of(slice_subrange(chars.as_slice(), 0, dot));
        match place_of(&self.keys, wanted.as_str()) {
            None => Verdict::Reject(Rejection::UnknownTool),
            Some(index) => {
                if request.id <= self.acknowledged[index] {
                    Verdict::Discard
                } else {
                    self.acknowledged.set(index, request.id);
                    self.changed = true;
                    Verdict::Dispatch { index, command: request.command }
                }
            },
        }
    }

    /// Whether the tools, of which `snapshots` are known, are to be shown at the moment `now`.
    pub fn publish_due(&self, snapshots: &Vec<ToolSnapshot>, now: u64) -> (due: bool)
        ensures
            due == self@.is_due(snapshots@, now),
    {
        if self.changed || !same_snapshots(snapshots, &self.shown) {
            return true;
        }
        match self.published {
            Some(time) => now.saturating_sub(time) >= PUBLISH_INTERVAL,
            None => true,
        }
    }

    /// What is shown of a tool.
    pub fn state(
        &self,
        snapshot: ToolSnapshot,
        helper_started_unix_ms: u64,
        now_unix_ms: u64,
    ) -> (state: ElevatedState)
        requires
            self@.wf(),
        ensures
            state == (ElevatedState {
                snapshot,
                acknowledged_command_id: self@.acknowledged_for(key(snapshot.name@)),
                helper_started_unix_ms,
                updated_unix_ms: now_unix_ms,
            }),
    {
        let wanted = tool_key(snapshot.name.as_str());
        let acknowledged_command_id: u64 = match place_of(&self.keys, wanted.as_str()) {
            Some(index) => self.acknowledged[index],
            None => 0,
        };
        ElevatedState {
            snapshot,
            acknowledged_command_id,
            helper_started_unix_ms,
            updated_unix_ms: now_unix_ms,
        }
    }

    /// Notes that the tools were shown.
    pub fn published(&mut self, snapshots: Vec<ToolSnapshot>, now: u64)
        ensures
            final(self)@ == (HelperModel {
                changed: false,
                shown: snapshots@,
                published: Some(now),
                ..old(self)@
            }),
    {
        self.changed = false;
        self.shown = snapshots;
        self.published = Some(now);
    }
}

/// The tools after the one at `index` was told what a command says. Memory is asked for of
/// all tools at once.
pub open spec fn commanded(
    supervisor: SupervisorModel,
    index: int,
    command: ElevatedCommand,
) -> SupervisorModel {
    match command {
        ElevatedCommand::Start => supervisor.asked(index, Control::Start),
        ElevatedCommand::Stop => supervisor.asked(index, Control::Stop),
        ElevatedCommand::Restart => supervisor.asked(index, Control::Restart),
        ElevatedCommand::SampleMemory => SupervisorModel {
            slots: supervisor.slots.map_values(|slot: SlotModel| sampling_slot(slot)),
            manager_memory: MemoryValue::Pending,
            ..supervisor
        },
    }
}

/// Tells the tool at `index` what a command says. The result holds the processes of which the
/// memory is to be asked for, each with its tool.
pub fn run_command(supervisor: &mut Supervisor, index: usize, command: ElevatedCommand) -> (processes:
    Vec<(usize, u32)>)
    ensures
        final(supervisor)@ == commanded(old(supervisor)@, index as int, command),
        processes@ == if command == ElevatedCommand::SampleMemory {
            sampled_processes(old(supervisor)@.slots)
        } else {
            Seq::empty()
        },
{
    match command {
        ElevatedCommand::Start => supervisor.start(index),
        ElevatedCommand::Stop => supervisor.stop(index),
        ElevatedCommand::Restart => supervisor.restart(index),
        ElevatedCommand::SampleMemory => {
            return supervisor.sample_memory();
        },
    }
    Vec::new()
}

/// A command is passed on once: when the helper comes to it again, it is dropped, and so is
/// any with a number that is not higher.
pub proof fn law_command_is_passed_on_once(
    helper: HelperModel,
    name: Seq<char>,
    request: CommandRequest,
    again: CommandRequest,
)
    requires
        helper.wf(),
        helper.verdict(name, Some(request)) is Dispatch,
        id_in(name) == Some(again.id),
    ensures
        helper.judged(name, Some(request)).verdict(name, Some(again)) == Verdict::Discard,
{
    lemma_last_place(helper.keys, name.take(first_where(name, is_char('.'))));
}

/// The number that the helper has come to for a tool never falls, and only a command for the
/// tool changes it.
pub proof fn law_acknowledged_numbers_grow(
    helper: HelperModel,
    name: Seq<char>,
    request: Option<CommandRequest>,
    tool: Seq<char>,
)
    requires
        helper.wf(),
    ensures
        helper.judged(name, request).wf(),
        helper.judged(name, request).acknowledged_for(tool) >= helper.acknowledged_for(tool),
        key_of_command(name) != Some(tool) ==> helper.judged(name, request).acknowledged_for(tool)
            == helper.acknowledged_for(tool),
{
    let wanted = name.take(first_where(name, is_char('.')));
    lemma_last_place(helper.keys, wanted);
    lemma_last_place(helper.keys, tool);
    if helper.verdict(name, request) is Dispatch {
        lemma_first_where(name, is_char('.'));
        if first_where(name, is_char('.')) == name.len() {
            assert(split(name, '.').len() == 1);
            assert(false);
        }
    }
}

/// A command that the manager sends to a tool of the helper is passed on to that tool, where
/// its number is higher than the one that the helper has come to and no other tool has the
/// key.
pub proof fn law_sent_command_is_passed_on(
    helper: HelperModel,
    index: int,
    tool: Seq<char>,
    request: CommandRequest,
)
    requires
        helper.wf(),
        0 <= index < helper.keys.len(),
        helper.keys[index] == key(tool),
        forall|j: int| 0 <= j < helper.keys.len() && j != index ==> helper.keys[j] != key(tool),
        request.id > helper.acknowledged[index],
    ensures
        helper.verdict(command_name(tool, request.id as nat), Some(request)) == (Verdict::Dispatch {
            index: index as usize,
            command: request.command,
        }),
{
    law_command_name_holds_id(tool, request.id as nat);
    lemma_last_place(helper.keys, key(tool));
}

/// A command that the manager sends, with the number that follows from what the helper shows
/// of the tool, is passed on to the tool, unless the numbers have run out or another tool has
/// the key.
pub proof fn law_new_command_reaches_its_tool(
    helper: HelperModel,
    index: int,
    tool: Seq<char>,
    shown: ElevatedState,
    unix_ms: u64,
    sequence: u64,
    command: ElevatedCommand,
)
    requires
        helper.wf(),
        0 <= index < helper.keys.len(),
        helper.keys[index] == key(tool),
        forall|j: int| 0 <= j < helper.keys.len() && j != index ==> helper.keys[j] != key(tool),
        shown.acknowledged_command_id == helper.acknowledged_for(key(tool)),
        shown.acknowledged_command_id < u64::MAX,
    ensures
        ({
            let id = new_id(unix_ms, sequence, Some(shown)) as u64;
            helper.verdict(command_name(tool, id as nat), Some(CommandRequest { id, command })) == (
            Verdict::Dispatch { index: index as usize, command })
        }),
{
    lemma_last_place(helper.keys, key(tool));
    law_new_command_is_new(unix_ms, sequence, Some(shown));
    let id = new_id(unix_ms, sequence, Some(shown)) as u64;
    law_sent_command_is_passed_on(helper, index, tool, CommandRequest { id, command });
}

// ---------------------------------------------------------------------------
// The manager's side
// ---------------------------------------------------------------------------

/// What the manager keeps of a tool that the helper runs.
pub struct Proxy {
    /// Whether the tool is meant to run.
    pub desired: bool,
    /// Since when nothing has been heard of the helper.
    pub unavailable_since: Option<u64>,
}

/// What is to be done about a signal for a tool that the helper runs.
#[derive(Clone, Copy, Debug, PartialEq, Eq, Structural)]
pub struct ProxyAction {
    /// What the helper is to be told.
    pub command: Option<ElevatedCommand>,
    /// Whether the tool is given up.
    pub exit: bool,
}

/// What is to be done about a signal for a tool that the helper runs.
pub open spec fn proxy_action(signal: Signal) -> ProxyAction {
    match signal {
        Signal::Request(Control::Start) => ProxyAction {
            command: Some(ElevatedCommand::Start),
            exit: false,
        },
        Signal::Request(Control::Stop) => ProxyAction {
            command: Some(ElevatedCommand::Stop),
            exit: false,
        },
        Signal::Request(Control::Restart) => ProxyAction {
            command: Some(ElevatedCommand::Restart),
            exit: false,
        },
        Signal::Request(Control::SampleMemory) => ProxyAction {
            command: Some(ElevatedCommand::SampleMemory),
            exit: false,
        },
        Signal::Request(Control::Shutdown) => ProxyAction {
            command: Some(ElevatedCommand::Stop),
            exit: true,
        },
        Signal::Disconnected => ProxyAction { command: Some(ElevatedCommand::Stop), exit: true },
        Signal::Timeout => ProxyAction { command: None, exit: false },
    }
}

/// The state that a tool is shown in after a signal, until the helper shows another.
pub open spec fn proxy_state(state: ToolState, signal: Signal) -> ToolState {
    match signal {
        Signal::Request(Control::Start) => ToolState::Starting,
        Signal::Request(Control::Stop) => ToolState::Stopping,
        Signal::Request(Control::Restart) => ToolState::Restarting,
        _ => state,
    }
}

/// Whether the tool is meant to run after a signal.
pub open spec fn proxy_desired(desired: bool, signal: Signal) -> bool {
    match signal {
        Signal::Request(Control::Start) => true,
        Signal::Request(Control::Stop) => false,
        Signal::Request(Control::Restart) => true,
        _ => desired,
    }
}

/// What is known of a tool of which the helper shows `snapshot`. The restarts that the helper
/// counts are its own.
pub open spec fn shown_runtime(runtime: Runtime, snapshot: ToolSnapshot) -> Runtime {
    Runtime {
        state: snapshot.state,
        pid: snapshot.pid,
        memory: snapshot.memory,
        started_at_unix_ms: snapshot.started_at_unix_ms,
        ..runtime
    }
}

/// What is known of a tool after the helper has not been heard of for too long.
pub open spec fn lost_runtime(runtime: Runtime, desired: bool) -> Runtime {
    Runtime {
        state: if desired {
            ToolState::Crashed
        } else {
            ToolState::Stopped
        },
        pid: None,
        memory: MemoryValue::Unavailable,
        started_at_unix_ms: None,
        ..runtime
    }
}

impl Proxy {
    /// A tool at the moment `now`, with what the helper is to be told of it at once.
    pub fn new(auto_start: bool, now: u64, runtime: &mut Runtime) -> (proxy: (Self, Option<
        ElevatedCommand,
    >))
        ensures
            proxy.0 == (Proxy { desired: auto_start, unavailable_since: Some(now) }),
            proxy.1 == if auto_start {
                Some(ElevatedCommand::Start)
            } else {
                None
            },
            *final(runtime) == if auto_start {
                Runtime { state: ToolState::Starting, ..*old(runtime) }
            } else {
                *old(runtime)
            },
    {
        let proxy = Proxy { desired: auto_start, unavailable_since: Some(now) };
        if auto_start {
            runtime.state = ToolState::Starting;
            (proxy, Some(ElevatedCommand::Start))
        } else {
            (proxy, None)
        }
    }

    /// Takes a signal for the tool and says what is to be done about it.
    pub fn handle_signal(&mut self, runtime: &mut Runtime, signal: Signal) -> (action: ProxyAction)
        ensures
            action == proxy_action(signal),
            *final(self) == (Proxy {
                desired: proxy_desired(old(self).desired, signal),
                ..*old(self)
            }),
            *final(runtime) == (Runtime {
                state: proxy_state(old(runtime).state, signal),
                ..*old(runtime)
            }),
    {
        match signal {
            Signal::Request(Control::Start) => {
                self.desired = true;
                runtime.state = ToolState::Starting;
                ProxyAction { command: Some(ElevatedCommand::Start), exit: false }
            },
            Signal::Request(Control::Stop) => {
                self.desired = false;
                runtime.state = ToolState::Stopping;
                ProxyAction { command: Some(ElevatedCommand::Stop), exit: false }
            },
            Signal::Request(Control::Restart) => {
                self.desired = true;
                runtime.state = ToolState::Restarting;
                ProxyAction { command: Some(ElevatedCommand::Restart), exit: false }
            },
            Signal::Request(Control::SampleMemory) => {
                ProxyAction { command: Some(ElevatedCommand::SampleMemory), exit: false }
            },
            Signal::Request(Control::Shutdown) => {
                ProxyAction { command: Some(ElevatedCommand::Stop), exit: true }
            },
            Signal::Disconnected => {
                ProxyAction { command: Some(ElevatedCommand::Stop), exit: true }
            },
            Signal::Timeout => ProxyAction { command: None, exit: false },
        }
    }

    /// Takes what the helper shows of the tool, if it could be read, at the moment `now` and
    /// the time `now_unix_ms`.
    pub fn observe(
        &mut self,
        runtime: &mut Runtime,
        state: &Option<ElevatedState>,
        now: u64,
        now_unix_ms: u64,
    )
        ensures
            ({
                let news = match *state {
                    Some(state) => state.fresh(now_unix_ms),
                    None => false,
                };
                let since = match old(self).unavailable_since {
                    Some(since) => since,
                    None => now,
                };
                if news {
                    &&& *final(self) == (Proxy { unavailable_since: None, ..*old(self) })
                    &&& *final(runtime) == shown_runtime(*old(runtime), state->0.snapshot)
                } else {
                    &&& *final(self) == (Proxy { unavailable_since: Some(since), ..*old(self) })
                    &&& *final(runtime) == if now - since >= 8_000_000_000 {
                        lost_runtime(*old(runtime), old(self).desired)
                    } else {
                        *old(runtime)
                    }
                }
            }),
    {
        if let Some(state) = state {
            if state.is_fresh(now_unix_ms) {
                self.unavailable_since = None;
                runtime.state = state.snapshot.state;
                runtime.pid = state.snapshot.pid;
                runtime.memory = state.snapshot.memory;
                runtime.started_at_unix_ms = state.snapshot.started_at_unix_ms;
                return ;
            }
        }
        let since: u64 = match self.unavailable_since {
            Some(since) => since,
            None => now,
        };
        self.unavailable_since = Some(since);
        if now.saturating_sub(since) >= PATIENCE {
            runtime.state = if self.desired {
                ToolState::Crashed
            } else {
                ToolState::Stopped
            };
            runtime.pid = None;
            runtime.memory = MemoryValue::Unavailable;
            runtime.started_at_unix_ms = None;
        }
    }
}

// ---------------------------------------------------------------------------
// What the exchange comes to
// ---------------------------------------------------------------------------

/// What the helper shows stands for what is for eight seconds, and as long as the clock has been
/// set back.
pub proof fn law_state_is_fresh_for_eight_seconds(state: ElevatedState, now_unix_ms: u64)
    ensures
        state.fresh(now_unix_ms) <==> now_unix_ms <= state.updated_unix_ms + 8_000,
{
}

/// The number of a command is the time in milliseconds times a thousand and the last three digits
/// of the sequence, where 64 bits can hold it; the number of a new command is that, or one more
/// than the helper has come to, whichever is higher.
pub proof fn law_numbers_of_commands(unix_ms: u64, sequence: u64, state: ElevatedState)
    ensures
        unix_ms * 1_000 + sequence % 1_000 <= u64::MAX ==> id_at(unix_ms, sequence) == unix_ms
            * 1_000 + sequence % 1_000,
        unix_ms * 1_000 + sequence % 1_000 > u64::MAX ==> id_at(unix_ms, sequence) == u64::MAX,
        new_id(unix_ms, sequence, None) == id_at(unix_ms, sequence),
        acknowledged_in(None) == 0,
        acknowledged_in(Some(state)) == state.acknowledged_command_id,
        state.acknowledged_command_id < u64::MAX ==> {
            let id = new_id(unix_ms, sequence, Some(state));
            &&& id >= id_at(unix_ms, sequence)
            &&& id >= state.acknowledged_command_id + 1
            &&& id == id_at(unix_ms, sequence) || id == state.acknowledged_command_id + 1
        },
        state.acknowledged_command_id == u64::MAX ==> new_id(unix_ms, sequence, Some(state))
            == u64::MAX,
{
}

/// The number in a file's name is what stands, as a number, between its first and its second dot;
/// the key is what stands before the first; and a file holds a command exactly if its extension
/// says so. What has no number comes last.
pub proof fn law_parts_of_a_command_name(start: Seq<char>, middle: Seq<char>, end: Seq<char>)
    requires
        forall|i: int| 0 <= i < start.len() ==> start[i] != '.',
        forall|i: int| 0 <= i < middle.len() ==> middle[i] != '.',
    ensures
        ({
            let name = start.push('.') + (middle.push('.') + end);
            &&& key_of_command(name) == Some(start)
            &&& key_of_command(start) is None
            &&& id_in(start) is None
            &&& match parse_unsigned(middle, u64::MAX as nat) {
                Some(n) => id_in(name) == Some(n as u64) && rank(name) == n,
                None => id_in(name) is None && rank(name) == u64::MAX,
            }
            &&& is_command(name) <==> extension(name) == Some("command"@)
        }),
{
    let name = start.push('.') + (middle.push('.') + end);
    lemma_split_head(start, '.', middle.push('.') + end);
    lemma_split_head(middle, '.', end);
    assert(split(name, '.')[1] == split(middle.push('.') + end, '.')[0]);
    let n = start.len() as int;
    assert(name[n] == '.');
    assert forall|j: int| 0 <= j < n implies !is_char('.')(#[trigger] name[j]) by {
        assert(name[j] == start[j]);
    }
    lemma_first_where_is(name, is_char('.'), n);
    assert(name.take(n) =~= start);
    assert forall|j: int| 0 <= j < n implies !is_char('.')(#[trigger] start[j]) by {}
    lemma_first_where_is(start, is_char('.'), n);
    assert(split(start, '.') =~= seq![start]);
}

/// A command that comes to a queue stands behind all that do not come after it, so those with the
/// same number stay as they were given, and the others keep their places.
pub proof fn law_command_is_queued_behind_its_equals(
    before: Seq<Seq<char>>,
    behind: Seq<Seq<char>>,
    name: Seq<char>,
)
    requires
        before.len() > 0 ==> rank(before.last()) <= rank(name),
        forall|j: int| 0 <= j < behind.len() ==> rank(#[trigger] behind[j]) > rank(name),
    ensures
        queued(before + behind, name) == before.push(name) + behind,
{
    let queue = before + behind;
    let at = before.len() as int;
    assert forall|j: int| at <= j < queue.len() implies rank(#[trigger] queue[j]) > rank(name) by {
        assert(queue[j] == behind[j - at]);
    }
    if at > 0 {
        assert(queue[at - 1] == before.last());
    }
    lemma_queued_at(queue, name, at);
    assert(queue.insert(at, name) =~= before.push(name) + behind);
}

/// What the helper does about a command: contents that are not understood, a number that is not
/// that of the file's name, and a key that is no tool's have it put aside, in this order; a number
/// that is not higher than the one that the helper has come to for the tool has it dropped; and
/// any other is passed on to the tool with the key, the last if there are several.
pub proof fn law_verdict_on_a_command(
    helper: HelperModel,
    name: Seq<char>,
    request: CommandRequest,
    index: int,
)
    requires
        helper.wf(),
    ensures
        helper.verdict(name, None) == Verdict::Reject(Rejection::Invalid),
        id_in(name) != Some(request.id) ==> helper.verdict(name, Some(request)) == Verdict::Reject(
            Rejection::IdMismatch,
        ),
        id_in(name) == Some(request.id) && (forall|j: int|
            0 <= j < helper.keys.len() ==> key_of_command(name) != Some(#[trigger] helper.keys[j]))
            ==> helper.verdict(name, Some(request)) == Verdict::Reject(Rejection::UnknownTool),
        id_in(name) == Some(request.id) && 0 <= index < helper.keys.len() && key_of_command(name)
            == Some(helper.keys[index]) && (forall|j: int|
            index < j < helper.keys.len() ==> helper.keys[j] != helper.keys[index]) ==> helper.verdict(
            name,
            Some(request),
        ) == if request.id <= helper.acknowledged[index] {
            Verdict::Discard
        } else {
            Verdict::Dispatch { index: index as usize, command: request.command }
        },
{
    let wanted = name.take(first_where(name, is_char('.')));
    lemma_last_place(helper.keys, wanted);
    lemma_first_where(name, is_char('.'));
    if first_where(name, is_char('.')) == name.len() {
        assert(split(name, '.').len() == 1);
        assert(id_in(name) is None);
    }
}

/// A command that is passed on makes its number the one that the helper has come to for the tool;
/// no other changes anything.
pub proof fn law_helper_notes_what_it_passes_on(
    helper: HelperModel,
    name: Seq<char>,
    request: Option<CommandRequest>,
)
    ensures
        match helper.verdict(name, request) {
            Verdict::Dispatch { index, command } => {
                let after = helper.judged(name, request);
                &&& after.acknowledged == helper.acknowledged.update(index as int, request->0.id)
                &&& after.changed
                &&& after.keys == helper.keys
                &&& after.shown == helper.shown
                &&& after.published == helper.published
                &&& command == request->0.command
            },
            _ => helper.judged(name, request) == helper,
        },
{
}

/// The tools are shown when a number has changed, when they show something else than before, when
/// they were never shown, and two seconds after they were shown last; and not else.
pub proof fn law_tools_are_shown_when_due(
    helper: HelperModel,
    snapshots: Seq<ToolSnapshot>,
    now: u64,
    time: u64,
)
    ensures
        helper.changed ==> helper.is_due(snapshots, now),
        !all_show_same(snapshots, helper.shown) ==> helper.is_due(snapshots, now),
        helper.published is None ==> helper.is_due(snapshots, now),
        !helper.changed && all_show_same(snapshots, helper.shown) && helper.published == Some(time)
            ==> (helper.is_due(snapshots, now) <==> now >= time + 2_000_000_000),
{
}

/// The number that the helper has come to for a tool is that of the last tool with its key, and 0
/// where it has none.
pub proof fn law_acknowledged_number_of_a_tool(helper: HelperModel, wanted: Seq<char>, index: int)
    requires
        helper.wf(),
    ensures
        !helper.keys.contains(wanted) ==> helper.acknowledged_for(wanted) == 0,
        0 <= index < helper.keys.len() && helper.keys[index] == wanted && (forall|j: int|
            index < j < helper.keys.len() ==> helper.keys[j] != wanted) ==> helper.acknowledged_for(
            wanted,
        ) == helper.acknowledged[index],
{
    lemma_last_place(helper.keys, wanted);
}

/// A command asks the tool for what it says; one for memory asks all tools, and the manager.
pub proof fn law_command_asks_for_what_it_says(supervisor: SupervisorModel, index: int, other: int)
    requires
        0 <= index < supervisor.slots.len(),
        0 <= other < supervisor.slots.len(),
    ensures
        commanded(supervisor, index, ElevatedCommand::Start).slots[index].requests
            == supervisor.slots[index].requests.push(Control::Start),
        commanded(supervisor, index, ElevatedCommand::Stop).slots[index].requests
            == supervisor.slots[index].requests.push(Control::Stop),
        commanded(supervisor, index, ElevatedCommand::Restart).slots[index].requests
            == supervisor.slots[index].requests.push(Control::Restart),
        commanded(supervisor, index, ElevatedCommand::SampleMemory).manager_memory
            == MemoryValue::Pending,
        supervisor.slots[other].tool.runtime.state == ToolState::Running ==> commanded(
            supervisor,
            index,
            ElevatedCommand::SampleMemory,
        ).slots[other].tool.runtime.memory == MemoryValue::Pending,
        other != index ==> {
            &&& commanded(supervisor, index, ElevatedCommand::Start).slots[other]
                == supervisor.slots[other]
            &&& commanded(supervisor, index, ElevatedCommand::Stop).slots[other]
                == supervisor.slots[other]
            &&& commanded(supervisor, index, ElevatedCommand::Restart).slots[other]
                == supervisor.slots[other]
        },
{
}

/// What the manager is asked to do with a tool that the helper runs, it tells the helper, and
/// shows it until the helper shows something else; when the manager gives the tool up, the helper
/// is told to stop it. A wait that times out does nothing.
pub proof fn law_helper_is_told_what_is_asked(state: ToolState, desired: bool)
    ensures
        proxy_action(Signal::Request(Control::Start)) == (ProxyAction {
            command: Some(ElevatedCommand::Start),
            exit: false,
        }),
        proxy_action(Signal::Request(Control::Stop)) == (ProxyAction {
            command: Some(ElevatedCommand::Stop),
            exit: false,
        }),
        proxy_action(Signal::Request(Control::Restart)) == (ProxyAction {
            command: Some(ElevatedCommand::Restart),
            exit: false,
        }),
        proxy_action(Signal::Request(Control::SampleMemory)) == (ProxyAction {
            command: Some(ElevatedCommand::SampleMemory),
            exit: false,
        }),
        proxy_action(Signal::Request(Control::Shutdown)) == (ProxyAction {
            command: Some(ElevatedCommand::Stop),
            exit: true,
        }),
        proxy_action(Signal::Disconnected) == proxy_action(Signal::Request(Control::Shutdown)),
        proxy_action(Signal::Timeout) == (ProxyAction { command: None, exit: false }),
        proxy_state(state, Signal::Request(Control::Start)) == ToolState::Starting,
        proxy_state(state, Signal::Request(Control::Stop)) == ToolState::Stopping,
        proxy_state(state, Signal::Request(Control::Restart)) == ToolState::Restarting,
        proxy_desired(desired, Signal::Request(Control::Start)),
        !proxy_desired(desired, Signal::Request(Control::Stop)),
        proxy_desired(desired, Signal::Request(Control::Restart)),
        forall|signal: Signal|
            signal != Signal::Request(Control::Start) && signal != Signal::Request(Control::Stop)
                && signal != Signal::Request(Control::Restart) ==> #[trigger] proxy_state(
                state,
                signal,
            ) == state && proxy_desired(desired, signal) == desired,
{
}

/// What the helper shows of a tool is shown; when the helper has not been heard of for too long,
/// the tool counts as crashed where it is wanted and as stopped where it is not, without a process
/// and with nothing to be known of its memory.
pub proof fn law_tool_of_the_helper_is_shown(runtime: Runtime, snapshot: ToolSnapshot, desired: bool)
    ensures
        ({
            let shown = shown_runtime(runtime, snapshot);
            let lost = lost_runtime(runtime, desired);
            &&& shown.state == snapshot.state
            &&& shown.pid == snapshot.pid
            &&& shown.memory == snapshot.memory
            &&& shown.started_at_unix_ms == snapshot.started_at_unix_ms
            &&& shown.restart_count == runtime.restart_count
            &&& desired ==> lost.state == ToolState::Crashed
            &&& !desired ==> lost.state == ToolState::Stopped
            &&& lost.pid is None
            &&& lost.memory == MemoryValue::Unavailable
            &&& lost.started_at_unix_ms is None
            &&& lost.restart_count == runtime.restart_count
        }),
{
}

/// The file of a command is named after the key of its tool and the number of the command; the file
/// of one that is being carried out ends in the process that does so.
pub proof fn law_names_of_command_files(tool: Seq<char>, id: nat, pid: nat, name: Seq<char>)
    ensures
        command_name(tool, id) == key(tool) + "."@ + decimal(id) + ".command"@,
        claimed_extension(pid) == "processing-"@ + decimal(pid),
        Rejection::Invalid.text() == "invalid"@,
        Rejection::IdMismatch.text() == "id-mismatch"@,
        Rejection::UnknownTool.text() == "unknown-tool"@,
        match extension(name) {
            Some(ending) => if "processing-"@.is_prefix_of(ending) {
                recovered(name) == Some(with_extension(name, "command"@))
            } else {
                recovered(name) is None
            },
            None => recovered(name) is None,
        },
{
    reveal_strlit(".");
    assert(command_name(tool, id) =~= key(tool) + "."@ + decimal(id) + ".command"@);
}

/// The number in a name of two parts is its second part.
pub proof fn law_number_at_the_end_of_a_name(start: Seq<char>, end: Seq<char>)
    requires
        forall|i: int| 0 <= i < start.len() ==> start[i] != '.',
        forall|i: int| 0 <= i < end.len() ==> end[i] != '.',
    ensures
        match parse_unsigned(end, u64::MAX as nat) {
            Some(n) => id_in(start.push('.') + end) == Some(n as u64),
            None => id_in(start.push('.') + end) is None,
        },
{
    lemma_split_head(start, '.', end);
    assert forall|j: int| 0 <= j < end.len() implies !is_char('.')(#[trigger] end[j]) by {}
    lemma_first_where_is(end, is_char('.'), end.len() as int);
    assert(split(end, '.') =~= seq![end]);
}

/// Commands are queued as their files are listed, and nothing else is.
pub proof fn law_commands_are_queued_as_listed(names: Seq<Seq<char>>, name: Seq<char>)
    ensures
        queue_of(Seq::empty()) == Seq::<Seq<char>>::empty(),
        extension(name) == Some("command"@) ==> queue_of(names.push(name)) == queued(
            queue_of(names),
            name,
        ),
        extension(name) != Some("command"@) ==> queue_of(names.push(name)) == queue_of(names),
{
    assert(names.push(name).drop_last() =~= names);
}

/// A command changes nothing but the tools: memory is asked for of all of them, and a request for a
/// tool that does not exist does nothing.
pub proof fn law_command_leaves_the_rest(
    supervisor: SupervisorModel,
    index: int,
    other: int,
    command: ElevatedCommand,
)
    ensures
        commanded(supervisor, index, command).slots.len() == supervisor.slots.len(),
        commanded(supervisor, index, command).config == supervisor.config,
        commanded(supervisor, index, command).paths == supervisor.paths,
        command != ElevatedCommand::SampleMemory ==> commanded(
            supervisor,
            index,
            command,
        ).manager_memory == supervisor.manager_memory,
        command != ElevatedCommand::SampleMemory && index >= supervisor.slots.len() ==> commanded(
            supervisor,
            index,
            command,
        ) == supervisor,
        0 <= other < supervisor.slots.len() ==> commanded(
            supervisor,
            index,
            ElevatedCommand::SampleMemory,
        ).slots[other] == sampling_slot(supervisor.slots[other]),
{
}

} // verus!
