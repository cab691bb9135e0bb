//! What Linux tells of processes, in the files that it shows them in, and what follows from it
//! for the processes of a tool.
use std::collections::HashSet;
use vstd::prelude::*;
use vstd::slice::slice_subrange;
use crate::launch::{is_tool_scope, next_scope_unit, wrap_command_in_scope, LaunchSpec};
use crate::number::{parse_u32_text, parse_u64_text};
use crate::process::{build_process_tree_with_members, ProcessEntry, ProcessInfo};
use crate::text::{
    chars_of, find_char, find_last_char, line_after_prefix, lines_of, lossy_text, replace_char,
    same_text, split_of, strip_leading, strip_trailing, text_of, trimmed, words_of,
};
#[allow(unused_imports)]
use crate::launch::{names_tool_scope, scope_unit, scoped};
#[allow(unused_imports)]
use crate::number::{
    decimal, is_digit, lemma_decimal_round_trip, lemma_parse_decimal, parse_unsigned,
};
#[allow(unused_imports)]
use crate::process::{is_shown, law_tree_shows_every_member, pids, shows_all, tree_walk};
#[allow(unused_imports)]
use crate::text::{
    after_prefix, first_where, is_char, is_white_space, last_where, law_first_line_with_prefix,
    law_replaced, law_words, lemma_first_where_is, lemma_last_where_is, lemma_replaced_concat, lines, neither,
    replaced, split, texts, trim, utf8_lossy, without_leading, without_trailing, words,
};

verus! {

broadcast use vstd::std_specs::hash::group_hash_axioms;

// ---------------------------------------------------------------------------
// The state of a process
// ---------------------------------------------------------------------------

/// Whether the name of a program in a process's state is closed behind its opening, or one of
/// the two is missing.
pub open spec fn name_is_delimited(stat: Seq<char>) -> bool {
    let open = first_where(stat, is_char('('));
    let close = last_where(stat, is_char(')'));
    open == stat.len() || close == -1 || open < close
}

/// The name of a process's program, its parent and its group, by its state: the name stands in
/// round brackets, and behind it a word, the parent and the group.
pub open spec fn stat_fields(stat: Seq<char>) -> Option<(Seq<char>, nat, nat)> {
    let open = first_where(stat, is_char('('));
    let close = last_where(stat, is_char(')'));
    let fields = words(stat.skip(close + 1));
    if open == stat.len() || close == -1 || fields.len() < 3 {
        None
    } else {
        match (
            parse_unsigned(fields[1], u32::MAX as nat),
            parse_unsigned(fields[2], u32::MAX as nat),
        ) {
            (Some(parent), Some(group)) => Some((stat.subrange(open + 1, close), parent, group)),
            _ => None,
        }
    }
}

/// The name of a process's program, its parent and its group, by its state.
pub fn parse_proc_stat(stat: &str) -> (fields: Option<(String, u32, u32)>)
    requires
        name_is_delimited(stat@),
    ensures
        match fields {
            Some((name, parent, group)) => stat_fields(stat@) == Some(
                (name@, parent as nat, group as nat),
            ),
            None => stat_fields(stat@) is None,
        },
{
    let chars = chars_of(stat);
    let total: usize = chars.len();
    let open = find_char(chars.as_slice(), 0, '(');
    assert(chars@.skip(0) =~= chars@);
    if open == total {
        return None;
    }
    let close: usize = match find_last_char(chars.as_slice(), ')') {
        Some(close) => close,
        None => {
            return None;
        },
    };
    let fields = words_of(slice_subrange(chars.as_slice(), close + 1, total));
    assert(chars@.subrange(close + 1, total as int) =~= stat@.skip(close + 1));
    if fields.len() < 3 {
        assert(texts(fields@).len() < 3);
        return None;
    }
    assert(texts(fields@)[1] == fields@[1]@);
    assert(texts(fields@)[2] == fields@[2]@);
    let parent = parse_u32_text(fields[1].as_str());
    let group = parse_u32_text(fields[2].as_str());
    match (parent, group) {
        (Some(parent), Some(group)) => {
            let name = text_of(slice_subrange(chars.as_slice(), open + 1, close));
            Some((name, parent, group))
        },
        _ => None,
    }
}

// ---------------------------------------------------------------------------
// Memory
// ---------------------------------------------------------------------------

/// Why a report does not tell how much memory a process takes up.
#[derive(Clone, Copy, Debug, PartialEq, Eq, Structural)]
pub enum MemoryFault {
    /// No line has the name of the field.
    Missing,
    /// Nothing follows the name.
    Empty,
    /// What follows is no number.
    Invalid,
}

/// The number behind the name of a field, in the first line that starts with the name.
pub open spec fn field_value(report: Seq<char>, field: Seq<char>) -> Result<u64, MemoryFault> {
    match after_prefix(lines(report), field) {
        None => Err(MemoryFault::Missing),
        Some(rest) => if words(rest).len() == 0 {
            Err(MemoryFault::Empty)
        } else {
            match parse_unsigned(words(rest)[0], u64::MAX as nat) {
                Some(value) => Ok(value as u64),
                None => Err(MemoryFault::Invalid),
            }
        },
    }
}

/// The number of kilobytes that a report on a process's memory gives for a field, such as
/// `Pss:`, the share of the process in the memory that it has in common with others.
pub fn memory_kilobytes(report: &str, field: &str) -> (kilobytes: Result<u64, MemoryFault>)
    ensures
        kilobytes == field_value(report@, field@),
{
    let rest = match line_after_prefix(report, field) {
        Some(rest) => rest,
        None => {
            return Err(MemoryFault::Missing);
        },
    };
    let found = words_of(rest.as_slice());
    if found.len() == 0 {
        assert(texts(found@).len() == 0);
        return Err(MemoryFault::Empty);
    }
    assert(texts(found@)[0] == found@[0]@);
    match parse_u64_text(found[0].as_str()) {
        Some(value) => Ok(value),
        None => Err(MemoryFault::Invalid),
    }
}

/// A number of kilobytes in bytes.
pub fn kilobytes_to_bytes(kilobytes: u64) -> (bytes: u64)
    requires
        kilobytes * 1024 <= u64::MAX,
    ensures
        bytes == kilobytes * 1024,
{
    kilobytes * 1024
}

impl MemoryFault {
    /// The fault in words.
    pub open spec fn text(self, name: Seq<char>) -> Seq<char> {
        match self {
            MemoryFault::Missing => name + " is missing"@,
            MemoryFault::Empty => name + " is empty"@,
            MemoryFault::Invalid => "invalid "@ + name,
        }
    }

    /// The fault in words, for the field `name`.
    pub fn message(self, name: &str) -> (text: String)
        ensures
            text@ == self.text(name@),
    {
        match self {
            MemoryFault::Missing => {
                let mut text = name.to_owned();
                text.append(" is missing");
                text
            },
            MemoryFault::Empty => {
                let mut text = name.to_owned();
                text.append(" is empty");
                text
            },
            MemoryFault::Invalid => {
                let mut text = "invalid ".to_owned();
                text.append(name);
                text
            },
        }
    }
}

// ---------------------------------------------------------------------------
// Control groups
// ---------------------------------------------------------------------------

/// The path of a control group, given from the root of the control groups on.
pub open spec fn cgroup_path(relative: Seq<char>) -> Seq<char> {
    "/sys/fs/cgroup/"@ + without_leading(relative, '/')
}

fn make_cgroup_path(relative: &[char]) -> (path: String)
    ensures
        path@ == cgroup_path(relative@),
{
    let rest = text_of(strip_leading(relative, '/'));
    let mut path = "/sys/fs/cgroup/".to_owned();
    path.append(rest.as_str());
    path
}

/// The path of a process's control group, by the list of its control groups.
pub fn process_cgroup(list: &str) -> (path: Option<String>)
    ensures
        match path {
            Some(path) => after_prefix(lines(list@), "0::"@) is Some && path@ == cgroup_path(
                after_prefix(lines(list@), "0::"@)->0,
            ),
            None => after_prefix(lines(list@), "0::"@) is None,
        },
{
    match line_after_prefix(list, "0::") {
        Some(relative) => Some(make_cgroup_path(relative.as_slice())),
        None => None,
    }
}

/// The path of a scope's control group, by what the service manager says of it, unless that is
/// nothing.
pub fn scope_cgroup(answer: &str) -> (path: Option<String>)
    ensures
        match path {
            Some(path) => trim(answer@).len() > 0 && path@ == cgroup_path(trim(answer@)),
            None => trim(answer@).len() == 0,
        },
{
    let chars = chars_of(answer);
    let relative = trimmed(chars.as_slice());
    if relative.len() == 0 {
        None
    } else {
        Some(make_cgroup_path(relative))
    }
}

/// Whether a line says that a control group has processes.
pub open spec fn says_populated(line: Seq<char>) -> bool {
    words(line) == seq!["populated"@, "1"@]
}

/// Whether a control group has processes, by the list of its events.
pub fn cgroup_populated(events: &str) -> (populated: bool)
    ensures
        populated == exists|i: int|
            0 <= i < lines(events@).len() && says_populated(#[trigger] lines(events@)[i]),
{
    let chars = chars_of(events);
    let found = lines_of(chars.as_slice());
    let mut i: usize = 0;
    while i < found.len()
        invariant
            i <= found@.len(),
            texts(found@) == lines(events@),
            forall|j: int| 0 <= j < i ==> !says_populated(#[trigger] lines(events@)[j]),
        decreases found@.len() - i,
    {
        let line = chars_of(found[i].as_str());
        let parts = words_of(line.as_slice());
        assert(lines(events@)[i as int] == texts(found@)[i as int]);
        proof {
            if parts@.len() == 2 {
                assert(texts(parts@)[0] == parts@[0]@);
                assert(texts(parts@)[1] == parts@[1]@);
                if parts@[0]@ == "populated"@ && parts@[1]@ == "1"@ {
                    assert(texts(parts@) =~= seq!["populated"@, "1"@]);
                }
            } else {
                assert(texts(parts@).len() != 2);
            }
        }
        if parts.len() == 2 && same_text(parts[0].as_str(), "populated") && same_text(
            parts[1].as_str(),
            "1",
        ) {
            return true;
        }
        i += 1;
    }
    false
}

/// The parts of a path that name something: neither empty nor the directory that they stand
/// in.
pub open spec fn kept_parts(pieces: Seq<Seq<char>>) -> Seq<Seq<char>>
    decreases pieces.len(),
{
    if pieces.len() == 0 {
        Seq::empty()
    } else {
        let before = kept_parts(pieces.drop_last());
        if pieces.last().len() == 0 || pieces.last() == "."@ {
            before
        } else {
            before.push(pieces.last())
        }
    }
}

/// The parts of an absolute path.
pub open spec fn parts(path: Seq<char>) -> Seq<Seq<char>> {
    kept_parts(split(path, '/'))
}

/// Whether an absolute path leads to a directory or below it.
pub open spec fn is_within(path: Seq<char>, directory: Seq<char>) -> bool {
    parts(directory).is_prefix_of(parts(path))
}

/// The last part of an absolute path, unless that leads upwards.
pub open spec fn last_part(path: Seq<char>) -> Option<Seq<char>> {
    if parts(path).len() == 0 || parts(path).last() == ".."@ {
        None
    } else {
        Some(parts(path).last())
    }
}

fn parts_of(path: &str) -> (found: Vec<String>)
    ensures
        texts(found@) == parts(path@),
{
    let chars = chars_of(path);
    let pieces = split_of(chars.as_slice(), '/');
    let ghost all = texts(pieces@);
    let mut found: Vec<String> = Vec::new();
    let mut i: usize = 0;
    assert(all.take(0) =~= Seq::<Seq<char>>::empty());
    assert(texts(found@) =~= kept_parts(all.take(0)));
    while i < pieces.len()
        invariant
            i <= pieces@.len(),
            all == texts(pieces@),
            texts(found@) == kept_parts(all.take(i as int)),
        decreases pieces@.len() - i,
    {
        let ghost before = texts(found@);
        proof {
            let upto = all.take(i + 1);
            assert(upto.drop_last() =~= all.take(i as int));
            assert(upto.last() == pieces@[i as int]@);
        }
        let piece = chars_of(pieces[i].as_str());
        if piece.len() != 0 && !same_text(pieces[i].as_str(), ".") {
            found.push(pieces[i].clone());
            assert(texts(found@) =~= before.push(pieces@[i as int]@));
        }
        i += 1;
    }
    assert(all.take(i as int) =~= all);
    found
}

fn path_is_within(path: &str, directory: &str) -> (within: bool)
    ensures
        within == is_within(path@, directory@),
{
    let outer = parts_of(directory);
    let inner = parts_of(path);
    if inner.len() < outer.len() {
        assert(texts(inner@).len() < texts(outer@).len());
        return false;
    }
    let mut i: usize = 0;
    while i < outer.len()
        invariant
            texts(outer@) == parts(directory@),
            texts(inner@) == parts(path@),
            outer@.len() <= inner@.len(),
            i <= outer@.len(),
            forall|j: int| 0 <= j < i ==> texts(inner@)[j] == texts(outer@)[j],
        decreases outer@.len() - i,
    {
        assert(texts(inner@)[i as int] == inner@[i as int]@);
        assert(texts(outer@)[i as int] == outer@[i as int]@);
        if !same_text(inner[i].as_str(), outer[i].as_str()) {
            assert(texts(inner@).subrange(0, outer@.len() as int)[i as int] != texts(
                outer@,
            )[i as int]);
            return false;
        }
        i += 1;
    }
    assert(texts(inner@).subrange(0, outer@.len() as int) =~= texts(outer@));
    true
}

/// The last part of an absolute path, unless that leads upwards.
pub fn path_name(path: &str) -> (name: Option<String>)
    ensures
        match name {
            Some(name) => last_part(path@) == Some(name@),
            None => last_part(path@) is None,
        },
{
    let found = parts_of(path);
    if found.len() == 0 {
        assert(texts(found@).len() == 0);
        return None;
    }
    let last: usize = found.len() - 1;
    assert(texts(found@).last() == found@[last as int]@);
    if same_text(found[last].as_str(), "..") {
        None
    } else {
        Some(found[last].clone())
    }
}

/// Whether a path is that of the control group of the scope `unit`.
pub fn is_cgroup_of(path: &str, unit: &str) -> (yes: bool)
    ensures
        yes == (last_part(path@) == Some(unit@)),
{
    match path_name(path) {
        Some(name) => same_text(name.as_str(), unit),
        None => false,
    }
}

/// Whether a path is that of the control group of a tool's scope.
pub open spec fn is_tool_cgroup(path: Seq<char>) -> bool {
    match last_part(path) {
        Some(name) => names_tool_scope(name),
        None => false,
    }
}

/// The control group of a tool's first process, if it is that of a scope of the tool's own.
pub fn managed_cgroup(cgroup: Option<String>) -> (managed: Option<String>)
    ensures
        match cgroup {
            Some(path) => if is_tool_cgroup(path@) {
                managed == Some(path)
            } else {
                managed is None
            },
            None => managed is None,
        },
{
    match cgroup {
        Some(path) => match path_name(path.as_str()) {
            Some(name) => if is_tool_scope(name.as_str()) {
                Some(path)
            } else {
                None
            },
            None => None,
        },
        None => None,
    }
}

// ---------------------------------------------------------------------------
// The processes of a tool
// ---------------------------------------------------------------------------

/// What is shown for a process with the given command line: the program and its arguments, each
/// with a null character behind it in the command line, with blanks between them.
pub open spec fn command_line(raw: Seq<char>) -> Seq<char> {
    replaced(without_trailing(raw, '\0', '\0'), '\0', " "@)
}

/// What is shown for a process: its command line if it has one, or else the name of its program.
pub open spec fn shown_name(program: Seq<char>, raw: Option<Seq<char>>) -> Seq<char> {
    match raw {
        Some(raw) => if command_line(raw).len() > 0 {
            command_line(raw)
        } else {
            program
        },
        None => program,
    }
}

/// What is shown for a process with the program `program` and the command line `raw`.
pub fn process_name(program: String, raw: Option<String>) -> (name: String)
    ensures
        name@ == shown_name(
            program@,
            match raw {
                Some(raw) => Some(raw@),
                None => None,
            },
        ),
{
    match raw {
        Some(raw) => {
            let chars = chars_of(raw.as_str());
            let cut = text_of(strip_trailing(chars.as_slice(), '\0', '\0'));
            let line = replace_char(cut.as_str(), '\0', " ");
            let count = chars_of(line.as_str());
            if count.len() > 0 {
                line
            } else {
                program
            }
        },
        None => program,
    }
}

/// A process, as the files that show it tell.
pub struct ProcessRecord {
    pub pid: u32,
    pub program: String,
    pub parent_pid: u32,
    pub group: u32,
    pub cgroup: Option<String>,
    pub command_line: Option<Vec<u8>>,
}

/// The command line of a process as a text.
pub open spec fn raw_line(record: ProcessRecord) -> Option<Seq<char>> {
    match record.command_line {
        Some(bytes) => Some(utf8_lossy(bytes@)),
        None => None,
    }
}

/// Whether a process belongs to the tool whose first process is in the group `group` and, if
/// the tool has a scope, in the control group `cgroup`.
pub open spec fn is_member(record: ProcessRecord, group: u32, cgroup: Option<String>) -> bool {
    ||| record.group == group
    ||| match (cgroup, record.cgroup) {
        (Some(outer), Some(inner)) => is_within(inner@, outer@),
        _ => false,
    }
}

/// The processes that belong to a tool.
pub open spec fn members(records: Seq<ProcessRecord>, group: u32, cgroup: Option<String>) -> Set<
    u32,
> {
    Set::new(
        |pid: u32|
            exists|i: int|
                0 <= i < records.len() && (#[trigger] records[i]).pid == pid && is_member(
                    records[i],
                    group,
                    cgroup,
                ),
    )
}

/// Whether `entries` list the processes of `records`, one for one.
pub open spec fn lists(entries: Seq<ProcessEntry>, records: Seq<ProcessRecord>) -> bool {
    &&& entries.len() == records.len()
    &&& forall|i: int|
        0 <= i < records.len() ==> {
            &&& (#[trigger] entries[i]).pid == records[i].pid
            &&& entries[i].parent_pid == records[i].parent_pid
            &&& entries[i].name@ == shown_name(records[i].program@, raw_line(records[i]))
            &&& entries[i].memory_bytes is None
        }
}

fn belongs(record: &ProcessRecord, group: u32, cgroup: &Option<String>) -> (yes: bool)
    ensures
        yes == is_member(*record, group, *cgroup),
{
    if record.group == group {
        return true;
    }
    match (cgroup, &record.cgroup) {
        (Some(outer), Some(inner)) => path_is_within(inner.as_str(), outer.as_str()),
        _ => false,
    }
}

fn entry_of(record: &ProcessRecord) -> (entry: ProcessEntry)
    ensures
        entry.pid == record.pid,
        entry.parent_pid == record.parent_pid,
        entry.name@ == shown_name(record.program@, raw_line(*record)),
        entry.memory_bytes is None,
{
    let raw: Option<String> = match &record.command_line {
        Some(bytes) => Some(lossy_text(bytes.as_slice())),
        None => None,
    };
    ProcessEntry {
        pid: record.pid,
        parent_pid: record.parent_pid,
        name: process_name(record.program.clone(), raw),
        memory_bytes: None,
    }
}

/// The processes of the tool whose first process is `root_pid`, in the group `group` and, if
/// the tool has a scope, in the control group `cgroup`: that process and its descendants, and
/// whatever else is in the group or the control group.
pub fn process_tree(
    root_pid: u32,
    group: u32,
    cgroup: &Option<String>,
    records: &Vec<ProcessRecord>,
) -> (tree: Vec<ProcessInfo>)
    requires
        records@.len() < usize::MAX,
    ensures
        exists|entries: Seq<ProcessEntry>| #[trigger]
            lists(entries, records@) && shows_all(
                entries,
                tree@,
                tree_walk(entries, root_pid, members(records@, group, *cgroup)).shown,
            ),
{
    let mut entries: Vec<ProcessEntry> = Vec::new();
    let mut chosen: HashSet<u32> = HashSet::new();
    let mut i: usize = 0;
    assert(chosen@ =~= members(records@.take(0), group, *cgroup));
    while i < records.len()
        invariant
            i <= records@.len(),
            lists(entries@, records@.take(i as int)),
            chosen@ == members(records@.take(i as int), group, *cgroup),
        decreases records@.len() - i,
    {
        let ghost before = records@.take(i as int);
        let ghost upto = records@.take(i + 1);
        let ghost earlier = chosen@;
        let record = &records[i];
        if belongs(record, group, cgroup) {
            chosen.insert(record.pid);
        }
        entries.push(entry_of(record));
        proof {
            assert(upto.last() == *record);
            assert forall|j: int| 0 <= j < i implies upto[j] == before[j] by {}
            assert forall|pid: u32| chosen@.contains(pid) == members(
                upto,
                group,
                *cgroup,
            ).contains(pid) by {
                if earlier.contains(pid) {
                    let k = choose|k: int|
                        0 <= k < before.len() && (#[trigger] before[k]).pid == pid && is_member(
                            before[k],
                            group,
                            *cgroup,
                        );
                    assert(upto[k] == before[k]);
                }
                if members(upto, group, *cgroup).contains(pid) {
                    let k = choose|k: int|
                        0 <= k < upto.len() && (#[trigger] upto[k]).pid == pid && is_member(
                            upto[k],
                            group,
                            *cgroup,
                        );
                    if k < i {
                        assert(before[k] == upto[k]);
                    }
                }
                if is_member(*record, group, *cgroup) && pid == record.pid {
                    assert(upto[i as int].pid == pid);
                }
            }
            assert(chosen@ =~= members(upto, group, *cgroup));
        }
        i += 1;
    }
    assert(records@.take(i as int) =~= records@);
    let ghost listed = entries@;
    let tree = build_process_tree_with_members(root_pid, entries, chosen);
    assert(lists(listed, records@));
    tree
}

/// Every process in the group or the control group of a tool is shown among the processes of
/// the tool, whatever has become of its parent.
pub proof fn law_processes_of_a_tool_are_shown(
    entries: Seq<ProcessEntry>,
    records: Seq<ProcessRecord>,
    root_pid: u32,
    group: u32,
    cgroup: Option<String>,
    i: int,
)
    requires
        lists(entries, records),
        0 <= i < records.len(),
        is_member(records[i], group, cgroup),
    ensures
        is_shown(tree_walk(entries, root_pid, members(records, group, cgroup)), records[i].pid),
{
    let listed = entries.map_values(|entry: ProcessEntry| entry.pid);
    assert(listed[i] == records[i].pid);
    assert(pids(entries).contains(records[i].pid));
    law_tree_shows_every_member(entries, root_pid, members(records, group, cgroup), records[i].pid);
}

// ---------------------------------------------------------------------------
// Scopes
// ---------------------------------------------------------------------------

/// The programs by which the service manager is asked for scopes.
pub struct SystemdSupport {
    pub run: Vec<u8>,
    pub ctl: Vec<u8>,
    /// Whether tools are to be started in scopes.
    pub enabled: bool,
}

/// Linux, as the manager finds it.
pub struct LinuxAdapter {
    pub systemd: Option<SystemdSupport>,
}

/// Whether a file can be run, where `mode` holds its permissions: one of its owner, its group
/// and the others may do so.
pub fn is_executable(is_file: bool, mode: u32) -> (yes: bool)
    ensures
        yes == (is_file && mode & 0o111 != 0),
{
    is_file && mode & 0o111 != 0
}

impl LinuxAdapter {
    /// Linux with scopes, if the user has a service manager (`runtime`), the programs by which
    /// it is asked for scopes were found, and it `answers`.
    pub fn new(runtime: bool, run: Option<Vec<u8>>, ctl: Option<Vec<u8>>, answers: bool) -> (adapter:
        Self)
        ensures
            match adapter.systemd {
                Some(support) => {
                    &&& runtime && answers
                    &&& run == Some(support.run)
                    &&& ctl == Some(support.ctl)
                    &&& support.enabled
                },
                None => !runtime || run is None || ctl is None || !answers,
            },
    {
        if !runtime || !answers {
            return LinuxAdapter { systemd: None };
        }
        match (run, ctl) {
            (Some(run), Some(ctl)) => LinuxAdapter {
                systemd: Some(SystemdSupport { run, ctl, enabled: true }),
            },
            _ => LinuxAdapter { systemd: None },
        }
    }

    /// Whether tools are to be started in scopes.
    pub open spec fn uses_scopes(self) -> bool {
        match self.systemd {
            Some(support) => support.enabled,
            None => false,
        }
    }

    /// What is to be run for the tool `name`, and the scope that it is run in, if tools are to
    /// be started in scopes. The manager is the process `pid`, and `sequence` tells its scopes
    /// apart.
    pub fn prepare_command(
        &self,
        launch: LaunchSpec,
        name: &str,
        pid: u32,
        sequence: u64,
    ) -> (prepared: (LaunchSpec, Option<String>))
        ensures
            if self.uses_scopes() {
                &&& prepared.1 is Some
                &&& prepared.1->0@ == scope_unit("tool"@, pid as nat, sequence as nat)
                &&& prepared.0@ == scoped(
                    launch@,
                    self.systemd->0.run@,
                    prepared.1->0@,
                    name@,
                )
            } else {
                prepared.0 == launch && prepared.1 is None
            },
    {
        match &self.systemd {
            Some(support) => if support.enabled {
                let unit = next_scope_unit("tool", pid, sequence);
                let wrapped = wrap_command_in_scope(
                    launch,
                    support.run.as_slice(),
                    unit.as_str(),
                    name,
                );
                (wrapped, Some(unit))
            } else {
                (launch, None)
            },
            None => (launch, None),
        }
    }

    /// Notes that a scope did not come to be: from now on tools are started without.
    pub fn disable_scopes(&mut self)
        ensures
            !final(self).uses_scopes(),
            final(self).systemd is Some <==> old(self).systemd is Some,
            final(self).systemd is Some ==> final(self).systemd->0 == (SystemdSupport {
                enabled: false,
                ..old(self).systemd->0
            }),
    {
        if let Some(support) = &mut self.systemd {
            support.enabled = false;
        }
    }
}

// ---------------------------------------------------------------------------
// What is read from the files that show processes
// ---------------------------------------------------------------------------

/// From the state of a process, as Linux writes it, come the name of its program, which may itself
/// hold brackets and blanks, its parent and its group, whatever stands before and behind.
pub proof fn law_state_of_a_process(
    start: Seq<char>,
    program: Seq<char>,
    state: Seq<char>,
    parent: nat,
    group: nat,
    rest: Seq<char>,
)
    requires
        forall|i: int| 0 <= i < start.len() ==> start[i] != '(',
        forall|i: int| 0 <= i < rest.len() ==> rest[i] != ')',
        state.len() > 0,
        forall|i: int|
            0 <= i < state.len() ==> !is_white_space(#[trigger] state[i]) && state[i] != ')',
        parent <= u32::MAX,
        group <= u32::MAX,
    ensures
        stat_fields(
            start.push('(') + program.push(')') + seq![' '] + state.push(' ') + decimal(parent).push(
                ' ',
            ) + decimal(group).push(' ') + rest,
        ) == Some((program, parent, group)),
        name_is_delimited(
            start.push('(') + program.push(')') + seq![' '] + state.push(' ') + decimal(parent).push(
                ' ',
            ) + decimal(group).push(' ') + rest,
        ),
{
    let fields = seq![' '] + (state.push(' ') + (decimal(parent).push(' ') + (decimal(group).push(
        ' ',
    ) + rest)));
    let stat = start.push('(') + program.push(')') + seq![' '] + state.push(' ') + decimal(
        parent,
    ).push(' ') + decimal(group).push(' ') + rest;
    assert(stat =~= start.push('(') + program.push(')') + fields);
    lemma_decimal_round_trip(parent);
    lemma_decimal_round_trip(group);
    let open = start.len() as int;
    let close = open + 1 + program.len();
    assert(stat[open] == '(');
    assert forall|j: int| 0 <= j < open implies !is_char('(')(#[trigger] stat[j]) by {
        assert(stat[j] == start[j]);
    }
    lemma_first_where_is(stat, is_char('('), open);
    assert(stat[close] == ')');
    assert forall|j: int| 0 <= j < fields.len() implies fields[j] != ')' by {
        let a = 1 + state.len() + 1;
        let b = a + decimal(parent).len() + 1;
        let c = b + decimal(group).len() + 1;
        if j == 0 {
        } else if j < a - 1 {
            assert(fields[j] == state[j - 1]);
        } else if j == a - 1 {
            assert(fields[j] == ' ');
        } else if j < b - 1 {
            assert(fields[j] == decimal(parent)[j - a]);
            assert(is_digit(decimal(parent)[j - a]));
        } else if j == b - 1 {
            assert(fields[j] == ' ');
        } else if j < c - 1 {
            assert(fields[j] == decimal(group)[j - b]);
            assert(is_digit(decimal(group)[j - b]));
        } else if j == c - 1 {
            assert(fields[j] == ' ');
        } else {
            assert(fields[j] == rest[j - c]);
        }
    }
    assert forall|j: int| close < j < stat.len() implies !is_char(')')(#[trigger] stat[j]) by {
        assert(stat[j] == fields[j - close - 1]);
    }
    lemma_last_where_is(stat, is_char(')'), close);
    assert(stat.skip(close + 1) =~= fields);
    assert(stat.subrange(open + 1, close) =~= program);
    lemma_digits_are_a_word(parent);
    lemma_digits_are_a_word(group);
    law_words(state, ' ', decimal(parent).push(' ') + (decimal(group).push(' ') + rest));
    law_words(decimal(parent), ' ', decimal(group).push(' ') + rest);
    law_words(decimal(group), ' ', rest);
    law_words(state, ' ', state.push(' ') + (decimal(parent).push(' ') + (decimal(group).push(' ')
        + rest)));
    assert(words(fields) =~= seq![state, decimal(parent), decimal(group)] + words(rest));
    lemma_parse_decimal(parent, u32::MAX as nat);
    lemma_parse_decimal(group, u32::MAX as nat);
}

proof fn lemma_digits_are_a_word(n: nat)
    ensures
        decimal(n).len() > 0,
        forall|i: int| 0 <= i < decimal(n).len() ==> !is_white_space(#[trigger] decimal(n)[i]),
{
    lemma_decimal_round_trip(n);
    assert forall|i: int| 0 <= i < decimal(n).len() implies !is_white_space(
        #[trigger] decimal(n)[i],
    ) by {
        assert(is_digit(decimal(n)[i]));
    }
}

/// The value of a field is the number that stands first behind its name, in the first line that
/// starts with the name; what stands behind the number, such as a unit, does not matter.
pub proof fn law_value_of_a_field(
    before: Seq<Seq<char>>,
    field: Seq<char>,
    value: nat,
    unit: Seq<char>,
    behind: Seq<Seq<char>>,
    report: Seq<char>,
)
    requires
        forall|i: int| 0 <= i < before.len() ==> !field.is_prefix_of(#[trigger] before[i]),
        value <= u64::MAX,
        lines(report) == before + seq![field + (seq![' '] + (decimal(value).push(' ') + unit))]
            + behind,
    ensures
        field_value(report, field) == Ok::<u64, MemoryFault>(value as u64),
{
    let rest = seq![' '] + (decimal(value).push(' ') + unit);
    law_first_line_with_prefix(before, rest, behind, field);
    lemma_digits_are_a_word(value);
    law_words(decimal(value), ' ', decimal(value).push(' ') + unit);
    law_words(decimal(value), ' ', unit);
    assert(words(rest)[0] == decimal(value));
    lemma_parse_decimal(value, u64::MAX as nat);
}

/// A report without the field, or with nothing behind its name, gives no value.
pub proof fn law_field_without_a_value(report: Seq<char>, field: Seq<char>)
    ensures
        (forall|i: int|
            0 <= i < lines(report).len() ==> !field.is_prefix_of(#[trigger] lines(report)[i]))
            ==> field_value(report, field) == Err::<u64, MemoryFault>(MemoryFault::Missing),
        after_prefix(lines(report), field) is Some && words(
            after_prefix(lines(report), field)->0,
        ).len() == 0 ==> field_value(report, field) == Err::<u64, MemoryFault>(MemoryFault::Empty),
{
    if forall|i: int|
        0 <= i < lines(report).len() ==> !field.is_prefix_of(#[trigger] lines(report)[i]) {
        law_first_line_with_prefix(lines(report), Seq::empty(), Seq::empty(), field);
    }
}

/// A control group lies below the root of the control groups, with one separator between them.
pub proof fn law_path_of_a_control_group(name: Seq<char>)
    requires
        name.len() > 0,
        name[0] != '/',
    ensures
        cgroup_path(name) == "/sys/fs/cgroup/"@ + name,
        cgroup_path(seq!['/'] + name) == "/sys/fs/cgroup/"@ + name,
{
    lemma_first_where_is(name, neither('/', '/'), 0);
    assert(name.skip(0) =~= name);
    let slashed = seq!['/'] + name;
    assert(slashed[1] == name[0]);
    lemma_first_where_is(slashed, neither('/', '/'), 1);
    assert(slashed.skip(1) =~= name);
}

/// A control group has processes exactly if a line of its events holds the two words that say so.
pub proof fn law_events_of_a_control_group(line: Seq<char>)
    ensures
        says_populated(line) <==> words(line).len() == 2 && words(line)[0] == "populated"@ && words(
            line,
        )[1] == "1"@,
{
    if words(line).len() == 2 && words(line)[0] == "populated"@ && words(line)[1] == "1"@ {
        assert(words(line) =~= seq!["populated"@, "1"@]);
    }
}

/// The parts of a path are its pieces between separators, without those that name nothing.
pub proof fn law_parts_of_a_path(pieces: Seq<Seq<char>>, piece: Seq<char>)
    ensures
        kept_parts(Seq::empty()) == Seq::<Seq<char>>::empty(),
        piece.len() == 0 || piece == "."@ ==> kept_parts(pieces.push(piece)) == kept_parts(pieces),
        piece.len() > 0 && piece != "."@ ==> kept_parts(pieces.push(piece)) == kept_parts(
            pieces,
        ).push(piece),
{
    assert(pieces.push(piece).drop_last() =~= pieces);
}

/// A path lies within a directory exactly if the parts of the directory are its first; its name is
/// its last part, unless that leads upwards.
pub proof fn law_places_of_paths(path: Seq<char>, directory: Seq<char>)
    ensures
        is_within(path, directory) <==> parts(directory).len() <= parts(path).len() && (forall|
            i: int,
        |
            0 <= i < parts(directory).len() ==> #[trigger] parts(path)[i] == parts(directory)[i]),
        is_within(path, path),
        parts(path) == kept_parts(split(path, '/')),
        parts(path).len() > 0 && parts(path).last() != ".."@ ==> last_part(path) == Some(
            parts(path).last(),
        ),
        parts(path).len() == 0 || parts(path).last() == ".."@ ==> last_part(path) is None,
{
    let inner = parts(path);
    let outer = parts(directory);
    if outer.len() <= inner.len() && (forall|i: int|
        0 <= i < outer.len() ==> #[trigger] inner[i] == outer[i]) {
        assert(inner.subrange(0, outer.len() as int) =~= outer);
    }
    if is_within(path, directory) {
        assert forall|i: int| 0 <= i < outer.len() implies #[trigger] inner[i] == outer[i] by {
            assert(inner.subrange(0, outer.len() as int)[i] == outer[i]);
        }
    }
    assert(inner.subrange(0, inner.len() as int) =~= inner);
}

/// A process is shown by its command line, with blanks for the null characters between its parts
/// and without those behind the last; without a command line, by its program.
pub proof fn law_shown_name(program: Seq<char>, first: Seq<char>, second: Seq<char>)
    requires
        first.len() > 0,
        second.len() > 0,
        forall|i: int| 0 <= i < first.len() ==> #[trigger] first[i] != '\0',
        forall|i: int| 0 <= i < second.len() ==> #[trigger] second[i] != '\0',
    ensures
        shown_name(program, Some(first.push('\0') + second.push('\0'))) == first.push(' ') + second,
        shown_name(program, Some(first.push('\0'))) == first,
        shown_name(program, Some(first)) == first,
        shown_name(program, Some(Seq::empty())) == program,
        shown_name(program, Some(seq!['\0'])) == program,
        shown_name(program, None) == program,
{
    reveal_strlit(" ");
    lemma_kept_text(first);
    lemma_kept_text(second);
    let one = first.push('\0');
    let two = first.push('\0') + second.push('\0');
    let bare = first.push('\0') + second;
    lemma_last_where_is(first, neither('\0', '\0'), first.len() - 1);
    assert(first.take(first.len() as int) =~= first);
    assert(one[first.len() - 1] == first[first.len() - 1]);
    lemma_last_where_is(one, neither('\0', '\0'), first.len() - 1);
    assert(one.take(first.len() as int) =~= first);
    assert(two[bare.len() - 1] == second[second.len() - 1]);
    lemma_last_where_is(two, neither('\0', '\0'), bare.len() - 1);
    assert(two.take(bare.len() as int) =~= bare);
    lemma_replaced_concat(first.push('\0'), second, '\0', " "@);
    law_replaced(first, '\0', '\0', " "@);
    assert(command_line(two) =~= first.push(' ') + second);
    let none = Seq::<char>::empty();
    lemma_last_where_is(none, neither('\0', '\0'), -1);
    assert(none.take(0) =~= none);
    lemma_last_where_is(seq!['\0'], neither('\0', '\0'), -1);
    assert(seq!['\0'].take(0) =~= none);
}

proof fn lemma_kept_text(s: Seq<char>)
    requires
        forall|i: int| 0 <= i < s.len() ==> #[trigger] s[i] != '\0',
    ensures
        replaced(s, '\0', " "@) == s,
    decreases s.len(),
{
    if s.len() > 0 {
        let front = s.drop_last();
        assert forall|i: int| 0 <= i < front.len() implies #[trigger] front[i] != '\0' by {
            assert(front[i] == s[i]);
        }
        lemma_kept_text(front);
        assert(s[s.len() - 1] != '\0');
        assert(replaced(s, '\0', " "@) =~= s);
    } else {
        assert(replaced(s, '\0', " "@) =~= s);
    }
}

/// A process belongs to a tool exactly if it is in the tool's group or, where the tool has a
/// control group of its own, in that or below it.
pub proof fn law_members_of_a_tool(
    records: Seq<ProcessRecord>,
    group: u32,
    outer: String,
    inner: String,
    i: int,
)
    requires
        0 <= i < records.len(),
    ensures
        records[i].group == group ==> is_member(records[i], group, None) && is_member(
            records[i],
            group,
            Some(outer),
        ),
        records[i].group != group ==> !is_member(records[i], group, None),
        records[i].group != group && records[i].cgroup == Some(inner) ==> (is_member(
            records[i],
            group,
            Some(outer),
        ) <==> is_within(inner@, outer@)),
        records[i].group != group && records[i].cgroup is None ==> !is_member(
            records[i],
            group,
            Some(outer),
        ),
        is_member(records[i], group, Some(outer)) ==> members(records, group, Some(outer)).contains(
            records[i].pid,
        ),
        forall|pid: u32| #[trigger]
            members(records, group, Some(outer)).contains(pid) ==> exists|k: int|
                0 <= k < records.len() && (#[trigger] records[k]).pid == pid && is_member(
                    records[k],
                    group,
                    Some(outer),
                ),
{
}

/// The state of a process is its name, from the first opening bracket to the last closing one, and
/// of the words behind that the second and the third, which have to be numbers; without the
/// brackets there is none.
pub proof fn law_parts_of_a_state(start: Seq<char>, program: Seq<char>, rest: Seq<char>)
    requires
        forall|i: int| 0 <= i < start.len() ==> start[i] != '(',
        forall|i: int| 0 <= i < rest.len() ==> rest[i] != ')',
    ensures
        ({
            let stat = start.push('(') + program.push(')') + rest;
            let parent = parse_unsigned(words(rest)[1], 4_294_967_295);
            let group = parse_unsigned(words(rest)[2], 4_294_967_295);
            &&& name_is_delimited(stat)
            &&& words(rest).len() < 3 ==> stat_fields(stat) is None
            &&& words(rest).len() >= 3 && (parent is None || group is None) ==> stat_fields(stat)
                is None
            &&& words(rest).len() >= 3 && parent is Some && group is Some ==> stat_fields(stat)
                == Some((program, parent->0, group->0))
        }),
        stat_fields(start) is None,
        stat_fields(rest) is None,
{
    let stat = start.push('(') + program.push(')') + rest;
    let open = start.len() as int;
    let close = open + 1 + program.len();
    assert(stat[open] == '(');
    assert forall|j: int| 0 <= j < open implies !is_char('(')(#[trigger] stat[j]) by {
        assert(stat[j] == start[j]);
    }
    lemma_first_where_is(stat, is_char('('), open);
    assert(stat[close] == ')');
    assert forall|j: int| close < j < stat.len() implies !is_char(')')(#[trigger] stat[j]) by {
        assert(stat[j] == rest[j - close - 1]);
    }
    lemma_last_where_is(stat, is_char(')'), close);
    assert(stat.skip(close + 1) =~= rest);
    assert(stat.subrange(open + 1, close) =~= program);
    assert forall|j: int| 0 <= j < start.len() implies !is_char('(')(#[trigger] start[j]) by {}
    lemma_first_where_is(start, is_char('('), start.len() as int);
    assert forall|j: int| 0 <= j < rest.len() implies !is_char(')')(#[trigger] rest[j]) by {}
    lemma_last_where_is(rest, is_char(')'), -1);
}

/// The value of a field is the first word behind the field, which has to be a number.
pub proof fn law_word_behind_a_field(report: Seq<char>, field: Seq<char>, rest: Seq<char>)
    requires
        after_prefix(lines(report), field) == Some(rest),
    ensures
        words(rest).len() == 0 ==> field_value(report, field) == Err::<u64, MemoryFault>(
            MemoryFault::Empty,
        ),
        words(rest).len() > 0 ==> match parse_unsigned(
            words(rest)[0],
            18_446_744_073_709_551_615,
        ) {
            Some(value) => field_value(report, field) == Ok::<u64, MemoryFault>(value as u64),
            None => field_value(report, field) == Err::<u64, MemoryFault>(MemoryFault::Invalid),
        },
{
}

/// What is said of a value that could not be read names it.
pub proof fn law_unread_values_are_told(name: Seq<char>)
    ensures
        MemoryFault::Missing.text(name) == name + " is missing"@,
        MemoryFault::Empty.text(name) == name + " is empty"@,
        MemoryFault::Invalid.text(name) == "invalid "@ + name,
{
}

/// The separators that a control group begins with do not count.
pub proof fn law_separators_before_a_control_group(name: Seq<char>)
    ensures
        cgroup_path(Seq::empty()) == "/sys/fs/cgroup/"@,
        cgroup_path(seq!['/'] + name) == cgroup_path(name),
{
    let none = Seq::<char>::empty();
    lemma_first_where_is(none, neither('/', '/'), 0);
    assert(none.skip(0) =~= none);
    assert("/sys/fs/cgroup/"@ + none =~= "/sys/fs/cgroup/"@);
    let p = neither('/', '/');
    let slashed = seq!['/'] + name;
    crate::text::lemma_first_where(name, p);
    let f = first_where(name, p);
    assert forall|j: int| 0 <= j < f + 1 implies !p(#[trigger] slashed[j]) by {
        if j > 0 {
            assert(slashed[j] == name[j - 1]);
        }
    }
    if f < name.len() {
        assert(slashed[f + 1] == name[f]);
    }
    lemma_first_where_is(slashed, p, f + 1);
    assert(slashed.skip(f + 1) =~= name.skip(f));
}

/// A control group is that of a tool exactly if its last part is the name of a scope of a tool.
pub proof fn law_control_group_of_a_tool(path: Seq<char>)
    ensures
        is_tool_cgroup(path) <==> parts(path).len() > 0 && parts(path).last() != ".."@
            && names_tool_scope(parts(path).last()),
{
}

/// The command line is shown character by character, up to the null characters at its end, with a
/// blank for each null character before.
pub proof fn law_command_line_is_shown(program: Seq<char>, raw: Seq<char>, end: int)
    requires
        0 <= end <= raw.len(),
        forall|i: int| end <= i < raw.len() ==> #[trigger] raw[i] == '\0',
        end > 0 ==> raw[end - 1] != '\0',
    ensures
        end == 0 ==> shown_name(program, Some(raw)) == program,
        end > 0 ==> shown_name(program, Some(raw)).len() == end && (forall|i: int|
            0 <= i < end ==> #[trigger] shown_name(program, Some(raw))[i] == if raw[i] == '\0' {
                ' '
            } else {
                raw[i]
            }),
{
    let p = neither('\0', '\0');
    assert forall|j: int| end - 1 < j < raw.len() implies !p(#[trigger] raw[j]) by {}
    lemma_last_where_is(raw, p, end - 1);
    lemma_one_for_one(raw.take(end));
    assert(command_line(raw) == replaced(raw.take(end), '\0', " "@));
    assert forall|i: int| 0 <= i < end implies #[trigger] command_line(raw)[i] == (if raw[i]
        == '\0' {
        ' '
    } else {
        raw[i]
    }) by {
        assert(raw.take(end)[i] == raw[i]);
    }
}

proof fn lemma_one_for_one(s: Seq<char>)
    ensures
        replaced(s, '\0', " "@).len() == s.len(),
        forall|i: int|
            0 <= i < s.len() ==> #[trigger] replaced(s, '\0', " "@)[i] == if s[i] == '\0' {
                ' '
            } else {
                s[i]
            },
    decreases s.len(),
{
    reveal_strlit(" ");
    if s.len() > 0 {
        let front = s.drop_last();
        lemma_one_for_one(front);
        assert forall|i: int| 0 <= i < s.len() implies #[trigger] replaced(s, '\0', " "@)[i] == (
        if s[i] == '\0' {
            ' '
        } else {
            s[i]
        }) by {
            if i < front.len() {
                assert(replaced(s, '\0', " "@)[i] == replaced(front, '\0', " "@)[i]);
                assert(front[i] == s[i]);
            }
        }
    }
}

/// Processes are listed as they were found, one for one, without their memory.
pub proof fn law_processes_are_listed_as_found(
    entries: Seq<ProcessEntry>,
    records: Seq<ProcessRecord>,
    bytes: Vec<u8>,
    i: int,
)
    requires
        lists(entries, records),
        0 <= i < records.len(),
    ensures
        entries.len() == records.len(),
        entries[i].pid == records[i].pid,
        entries[i].parent_pid == records[i].parent_pid,
        entries[i].memory_bytes is None,
        records[i].command_line is None ==> entries[i].name@ == records[i].program@,
        records[i].command_line == Some(bytes) ==> entries[i].name@ == shown_name(
            records[i].program@,
            Some(utf8_lossy(bytes@)),
        ),
{
}

/// Scopes are used exactly where systemd is there for it and has not been given up.
pub proof fn law_scopes_are_used(adapter: LinuxAdapter, support: SystemdSupport)
    ensures
        adapter.systemd is None ==> !adapter.uses_scopes(),
        adapter.systemd == Some(support) ==> adapter.uses_scopes() == support.enabled,
{
}

} // verus!
