//! The processes of a managed tree, in the order in which they are shown.
use std::collections::{HashMap, HashSet};
use vstd::prelude::*;

verus! {

broadcast use vstd::std_specs::hash::group_hash_axioms;

/// One process of a managed tree, with its distance from the root of the tree.
#[derive(Clone, Debug)]
pub struct ProcessInfo {
    pub pid: u32,
    pub parent_pid: u32,
    pub depth: usize,
    pub name: String,
    pub memory_bytes: Option<u64>,
}

/// One process as the system lists it.
pub struct ProcessEntry {
    pub pid: u32,
    pub parent_pid: u32,
    pub name: String,
    pub memory_bytes: Option<u64>,
}

// ---------------------------------------------------------------------------
// The listing
// ---------------------------------------------------------------------------

/// The process identifiers that a listing holds.
pub open spec fn pids(entries: Seq<ProcessEntry>) -> Set<u32> {
    entries.map_values(|entry: ProcessEntry| entry.pid).to_set()
}

/// The index of the entry that stands for `pid`: the last one listed under it, or -1.
pub open spec fn entry_index(entries: Seq<ProcessEntry>, pid: u32) -> int
    decreases entries.len(),
{
    if entries.len() == 0 {
        -1
    } else if entries.last().pid == pid {
        entries.len() - 1
    } else {
        entry_index(entries.drop_last(), pid)
    }
}

/// Whether every identifier is smaller than the ones behind it.
pub open spec fn is_ascending(s: Seq<u32>) -> bool {
    forall|i: int, j: int| 0 <= i < j < s.len() ==> s[i] < s[j]
}

/// An ascending sequence with `pid` put at its place, unless it is there already.
pub open spec fn insert_ascending(s: Seq<u32>, pid: u32) -> Seq<u32>
    decreases s.len(),
{
    if s.len() == 0 || s.last() < pid {
        s.push(pid)
    } else if s.last() == pid {
        s
    } else {
        insert_ascending(s.drop_last(), pid).push(s.last())
    }
}

/// The listed identifiers whose entries satisfy `chosen`, in ascending order.
pub open spec fn ascending_pids(
    entries: Seq<ProcessEntry>,
    chosen: spec_fn(ProcessEntry) -> bool,
) -> Seq<u32>
    decreases entries.len(),
{
    if entries.len() == 0 {
        Seq::empty()
    } else if chosen(entries.last()) {
        insert_ascending(ascending_pids(entries.drop_last(), chosen), entries.last().pid)
    } else {
        ascending_pids(entries.drop_last(), chosen)
    }
}

/// The property of being listed with the parent `pid`.
pub open spec fn has_parent(pid: u32) -> spec_fn(ProcessEntry) -> bool {
    |entry: ProcessEntry| entry.parent_pid == pid
}

/// The children of a process, in ascending order.
pub open spec fn children(entries: Seq<ProcessEntry>, pid: u32) -> Seq<u32> {
    ascending_pids(entries, has_parent(pid))
}

/// A process and the depth at which it is shown.
pub struct Node {
    pub pid: u32,
    pub depth: nat,
}

/// Processes that wait to be shown at one depth.
pub open spec fn at_depth(pids: Seq<u32>, depth: nat) -> Seq<Node> {
    Seq::new(pids.len(), |i: int| Node { pid: pids[i], depth })
}

/// The listed processes that no walk has come to yet.
pub open spec fn unseen(entries: Seq<ProcessEntry>, visited: Set<u32>) -> Set<u32> {
    pids(entries).difference(visited)
}

/// Where a walk has been and what it has shown.
pub struct Walk {
    pub visited: Set<u32>,
    pub shown: Seq<Node>,
}

/// The walk that goes on from `walk` with the processes in `waiting`. Each process is shown
/// once, before its children; its children come before the processes that waited behind it.
pub open spec fn walk_from(entries: Seq<ProcessEntry>, waiting: Seq<Node>, walk: Walk) -> Walk
    decreases unseen(entries, walk.visited).len(), waiting.len(),
{
    if waiting.len() == 0 {
        walk
    } else {
        let node = waiting[0];
        let rest = waiting.drop_first();
        let visited = walk.visited.insert(node.pid);
        proof {
            lemma_unseen(entries, walk.visited, node.pid);
        }
        if walk.visited.contains(node.pid) {
            walk_from(entries, rest, walk)
        } else if !pids(entries).contains(node.pid) {
            walk_from(entries, rest, Walk { visited, shown: walk.shown })
        } else {
            walk_from(
                entries,
                at_depth(children(entries, node.pid), node.depth + 1) + rest,
                Walk { visited, shown: walk.shown.push(node) },
            )
        }
    }
}

/// A visit takes one process out of the unseen ones, when it was among them.
pub proof fn lemma_unseen(entries: Seq<ProcessEntry>, visited: Set<u32>, pid: u32)
    ensures
        unseen(entries, visited).finite(),
        unseen(entries, visited.insert(pid)).len() == unseen(entries, visited).len() - (if unseen(
            entries,
            visited,
        ).contains(pid) {
            1int
        } else {
            0int
        }),
{
    let all = entries.map_values(|entry: ProcessEntry| entry.pid);
    vstd::seq_lib::seq_to_set_is_finite(all);
    assert(unseen(entries, visited.insert(pid)) =~= unseen(entries, visited).remove(pid));
}

/// The parent under which `pid` is listed, by the entry that stands for it.
pub open spec fn parent_of(entries: Seq<ProcessEntry>, pid: u32) -> u32 {
    entries[entry_index(entries, pid)].parent_pid
}

/// The property of being a member of the tree that no walk has come to and whose parent is
/// no member.
pub open spec fn is_detached(
    entries: Seq<ProcessEntry>,
    members: Set<u32>,
    visited: Set<u32>,
) -> spec_fn(ProcessEntry) -> bool {
    |entry: ProcessEntry|
        members.contains(entry.pid) && !visited.contains(entry.pid) && !members.contains(
            parent_of(entries, entry.pid),
        )
}

/// The property of being a member of the tree that no walk has come to.
pub open spec fn is_missing(members: Set<u32>, visited: Set<u32>) -> spec_fn(ProcessEntry) -> bool {
    |entry: ProcessEntry| members.contains(entry.pid) && !visited.contains(entry.pid)
}

/// The walk from the root alone.
pub open spec fn root_walk(entries: Seq<ProcessEntry>, root_pid: u32) -> Walk {
    walk_from(
        entries,
        seq![Node { pid: root_pid, depth: 0 }],
        Walk { visited: Set::empty(), shown: Seq::empty() },
    )
}

/// The walk from the root and then from the members that have come loose from it.
pub open spec fn detached_walk(
    entries: Seq<ProcessEntry>,
    root_pid: u32,
    members: Set<u32>,
) -> Walk {
    let walk = root_walk(entries, root_pid);
    let detached = ascending_pids(
        entries,
        is_detached(entries, members.insert(root_pid), walk.visited),
    );
    walk_from(entries, at_depth(detached, 1), walk)
}

/// The whole walk: from the root, from the members that have come loose from it, and at last
/// from the members that nothing else has led to.
pub open spec fn tree_walk(
    entries: Seq<ProcessEntry>,
    root_pid: u32,
    members: Set<u32>,
) -> Walk {
    let walk = detached_walk(entries, root_pid, members);
    let missing = ascending_pids(entries, is_missing(members.insert(root_pid), walk.visited));
    walk_from(entries, at_depth(missing, 1), walk)
}

/// Whether `info` shows `node` with what the listing says of it.
pub open spec fn shows(entries: Seq<ProcessEntry>, info: ProcessInfo, node: Node) -> bool {
    let entry = entries[entry_index(entries, node.pid)];
    &&& info.pid == node.pid
    &&& info.depth == node.depth
    &&& info.parent_pid == entry.parent_pid
    &&& info.name@ == entry.name@
    &&& info.memory_bytes == entry.memory_bytes
}

/// Whether `infos` shows the given nodes, one for one.
pub open spec fn shows_all(
    entries: Seq<ProcessEntry>,
    infos: Seq<ProcessInfo>,
    nodes: Seq<Node>,
) -> bool {
    &&& infos.len() == nodes.len()
    &&& forall|i: int| 0 <= i < infos.len() ==> shows(entries, #[trigger] infos[i], nodes[i])
}

// ---------------------------------------------------------------------------
// Facts about the listing
// ---------------------------------------------------------------------------

/// The entry that stands for an identifier is the last one listed under it.
pub proof fn lemma_entry_index(entries: Seq<ProcessEntry>, pid: u32)
    ensures
        -1 <= entry_index(entries, pid) < entries.len(),
        entry_index(entries, pid) >= 0 <==> pids(entries).contains(pid),
        entry_index(entries, pid) >= 0 ==> entries[entry_index(entries, pid)].pid == pid,
        forall|i: int|
            entry_index(entries, pid) < i < entries.len() ==> (#[trigger] entries[i]).pid != pid,
    decreases entries.len(),
{
    let all = entries.map_values(|entry: ProcessEntry| entry.pid);
    if entries.len() > 0 {
        let front = entries.drop_last();
        let front_all = front.map_values(|entry: ProcessEntry| entry.pid);
        lemma_entry_index(front, pid);
        assert(all =~= front_all.push(entries.last().pid));
        if entries.last().pid == pid {
            assert(all[entries.len() - 1] == pid);
        } else {
            if pids(front).contains(pid) {
                let i = choose|i: int| 0 <= i < front_all.len() && front_all[i] == pid;
                assert(all[i] == pid);
            }
            if pids(entries).contains(pid) {
                let i = choose|i: int| 0 <= i < all.len() && all[i] == pid;
                assert(front_all[i] == pid);
            }
            assert forall|i: int| entry_index(entries, pid) < i < entries.len() implies (
            #[trigger] entries[i]).pid != pid by {
                if i < entries.len() - 1 {
                    assert(front[i] == entries[i]);
                }
            }
        }
    }
}

/// An identifier is listed exactly when an entry has it.
pub proof fn lemma_pids(entries: Seq<ProcessEntry>, pid: u32)
    ensures
        pids(entries).contains(pid) <==> exists|i: int|
            0 <= i < entries.len() && (#[trigger] entries[i]).pid == pid,
{
    let all = entries.map_values(|entry: ProcessEntry| entry.pid);
    if pids(entries).contains(pid) {
        let i = choose|i: int| 0 <= i < all.len() && all[i] == pid;
        assert(entries[i].pid == pid);
    }
    if exists|i: int| 0 <= i < entries.len() && (#[trigger] entries[i]).pid == pid {
        let i = choose|i: int| 0 <= i < entries.len() && (#[trigger] entries[i]).pid == pid;
        assert(all[i] == pid);
    }
}

proof fn lemma_insert_ascending(s: Seq<u32>, pid: u32)
    requires
        is_ascending(s),
    ensures
        is_ascending(insert_ascending(s, pid)),
        forall|x: u32|
            #[trigger] insert_ascending(s, pid).contains(x) <==> s.contains(x) || x == pid,
    decreases s.len(),
{
    let t = insert_ascending(s, pid);
    if s.len() == 0 || s.last() < pid {
        assert forall|x: u32| #[trigger] t.contains(x) <==> s.contains(x) || x == pid by {
            if s.contains(x) {
                let i = choose|i: int| 0 <= i < s.len() && s[i] == x;
                assert(t[i] == x);
            }
            assert(t[s.len() as int] == pid);
        }
    } else if s.last() == pid {
        assert(s[s.len() - 1] == pid);
    } else {
        let front = s.drop_last();
        lemma_insert_ascending(front, pid);
        let u = insert_ascending(front, pid);
        assert forall|i: int, j: int| 0 <= i < j < t.len() implies t[i] < t[j] by {
            if j == t.len() - 1 {
                assert(u.contains(u[i]));
                if front.contains(u[i]) {
                    let k = choose|k: int| 0 <= k < front.len() && front[k] == u[i];
                    assert(s[k] < s[s.len() - 1]);
                }
            }
        }
        assert forall|x: u32| #[trigger] t.contains(x) <==> s.contains(x) || x == pid by {
            if t.contains(x) {
                let i = choose|i: int| 0 <= i < t.len() && t[i] == x;
                if i < u.len() {
                    assert(u.contains(x));
                    if front.contains(x) {
                        let k = choose|k: int| 0 <= k < front.len() && front[k] == x;
                        assert(s[k] == x);
                    }
                } else {
                    assert(s[s.len() - 1] == x);
                }
            }
            if s.contains(x) {
                let k = choose|k: int| 0 <= k < s.len() && s[k] == x;
                if k < front.len() {
                    assert(front[k] == x);
                    assert(u.contains(x));
                    let i = choose|i: int| 0 <= i < u.len() && u[i] == x;
                    assert(t[i] == x);
                } else {
                    assert(t[t.len() - 1] == x);
                }
            }
            if x == pid {
                assert(u.contains(x));
                let i = choose|i: int| 0 <= i < u.len() && u[i] == x;
                assert(t[i] == x);
            }
        }
    }
}

/// `ascending_pids` holds the chosen identifiers and no others, in ascending order.
pub proof fn lemma_ascending_pids(
    entries: Seq<ProcessEntry>,
    chosen: spec_fn(ProcessEntry) -> bool,
)
    ensures
        is_ascending(ascending_pids(entries, chosen)),
        forall|x: u32|
            #[trigger] ascending_pids(entries, chosen).contains(x) <==> exists|i: int|
                0 <= i < entries.len() && (#[trigger] entries[i]).pid == x && chosen(entries[i]),
    decreases entries.len(),
{
    if entries.len() > 0 {
        let front = entries.drop_last();
        lemma_ascending_pids(front, chosen);
        lemma_insert_ascending(ascending_pids(front, chosen), entries.last().pid);
        assert forall|x: u32|
            #[trigger] ascending_pids(entries, chosen).contains(x) <==> exists|i: int|
                0 <= i < entries.len() && (#[trigger] entries[i]).pid == x && chosen(
                    entries[i],
                ) by {
            if ascending_pids(front, chosen).contains(x) {
                let i = choose|i: int|
                    0 <= i < front.len() && (#[trigger] front[i]).pid == x && chosen(front[i]);
                assert(entries[i].pid == x && chosen(entries[i]));
            }
            if exists|i: int|
                0 <= i < entries.len() && (#[trigger] entries[i]).pid == x && chosen(entries[i]) {
                let i = choose|i: int|
                    0 <= i < entries.len() && (#[trigger] entries[i]).pid == x && chosen(
                        entries[i],
                    );
                if i < front.len() {
                    assert(front[i].pid == x && chosen(front[i]));
                }
            }
            assert(entries[entries.len() - 1] == entries.last());
        }
    }
}

/// Puts `pid` at its place in an ascending list, unless it is there already.
fn insert_pid(list: &mut Vec<u32>, pid: u32)
    ensures
        final(list)@ == insert_ascending(old(list)@, pid),
{
    let ghost s = list@;
    let mut i: usize = list.len();
    assert(s.take(i as int) =~= s);
    assert(insert_ascending(s, pid) =~= insert_ascending(s.take(i as int), pid) + s.skip(i as int));
    while i > 0 && list[i - 1] > pid
        invariant
            i <= list@.len(),
            list@ == s,
            insert_ascending(s, pid) == insert_ascending(s.take(i as int), pid) + s.skip(i as int),
        decreases i,
    {
        proof {
            let t = s.take(i as int);
            assert(t.drop_last() =~= s.take(i - 1));
            assert(insert_ascending(t, pid) == insert_ascending(t.drop_last(), pid).push(t.last()));
            assert(insert_ascending(t, pid) + s.skip(i as int) =~= insert_ascending(
                s.take(i - 1),
                pid,
            ) + s.skip(i - 1));
        }
        i -= 1;
    }
    let ghost t = s.take(i as int);
    if i > 0 && list[i - 1] == pid {
        assert(t.last() == pid);
        assert(t + s.skip(i as int) =~= s);
        return;
    }
    assert(insert_ascending(t, pid) == t.push(pid));
    list.insert(i, pid);
    assert(list@ =~= t.push(pid) + s.skip(i as int));
}

// ---------------------------------------------------------------------------
// Walking
// ---------------------------------------------------------------------------

/// A listing, with its processes found by identifier and by parent.
struct Listing {
    entries: Vec<ProcessEntry>,
    by_pid: HashMap<u32, usize>,
    by_parent: HashMap<u32, Vec<u32>>,
}

impl Listing {
    spec fn indexes(&self, count: int) -> bool {
        let listed = self.entries@.take(count);
        &&& forall|pid: u32| #[trigger]
            self.by_pid@.contains_key(pid) <==> entry_index(listed, pid) >= 0
        &&& forall|pid: u32| #[trigger]
            self.by_pid@.contains_key(pid) ==> self.by_pid@[pid] == entry_index(listed, pid)
        &&& forall|pid: u32| #[trigger]
            self.by_parent@.contains_key(pid) ==> self.by_parent@[pid]@ == children(listed, pid)
        &&& forall|pid: u32|
            !#[trigger] self.by_parent@.contains_key(pid) ==> children(listed, pid).len() == 0
    }

    spec fn wf(&self) -> bool {
        self.indexes(self.entries@.len() as int)
    }

    fn new(entries: Vec<ProcessEntry>) -> (listing: Self)
        ensures
            listing.wf(),
            listing.entries == entries,
    {
        let mut listing = Listing { entries, by_pid: HashMap::new(), by_parent: HashMap::new() };
        let mut i: usize = 0;
        while i < listing.entries.len()
            invariant
                i <= listing.entries@.len(),
                listing.entries == entries,
                listing.indexes(i as int),
            decreases listing.entries@.len() - i,
        {
            let pid = listing.entries[i].pid;
            let parent_pid = listing.entries[i].parent_pid;
            let ghost before = listing.entries@.take(i as int);
            let ghost after = listing.entries@.take(i + 1);
            let mut siblings = match listing.by_parent.remove(&parent_pid) {
                Some(found) => found,
                None => Vec::new(),
            };
            assert(siblings@ =~= children(before, parent_pid));
            insert_pid(&mut siblings, pid);
            listing.by_parent.insert(parent_pid, siblings);
            listing.by_pid.insert(pid, i);
            proof {
                assert(after.drop_last() =~= before);
                assert(after.last() == listing.entries@[i as int]);
                assert forall|p: u32| #[trigger]
                    listing.by_parent@.contains_key(p) implies listing.by_parent@[p]@ == children(
                    after,
                    p,
                ) by {}
                assert forall|p: u32|
                    !#[trigger] listing.by_parent@.contains_key(p) implies children(
                    after,
                    p,
                ).len() == 0 by {}
            }
            i += 1;
        }
        assert(listing.entries@.take(listing.entries@.len() as int) =~= listing.entries@);
        listing
    }

    /// Goes on with the given processes, in order, at the given depth.
    fn walk(
        &self,
        start: &Vec<u32>,
        depth: usize,
        visited: &mut HashSet<u32>,
        output: &mut Vec<ProcessInfo>,
        Ghost(shown): Ghost<Seq<Node>>,
    )
        requires
            self.wf(),
            self.entries@.len() < usize::MAX,
            shows_all(self.entries@, old(output)@, shown),
            shown.len() + unseen(self.entries@, old(visited)@).len() <= pids(self.entries@).len(),
            depth <= 1,
        ensures
            ({
                let walk = walk_from(
                    self.entries@,
                    at_depth(start@, depth as nat),
                    Walk { visited: old(visited)@, shown },
                );
                &&& final(visited)@ == walk.visited
                &&& shows_all(self.entries@, final(output)@, walk.shown)
                &&& walk.shown.len() + unseen(self.entries@, walk.visited).len() <= pids(
                    self.entries@,
                ).len()
            }),
    {
        let ghost entries = self.entries@;
        let ghost goal = walk_from(
            entries,
            at_depth(start@, depth as nat),
            Walk { visited: visited@, shown },
        );
        let ghost mut nodes = shown;
        let mut waiting: Vec<(u32, usize)> = Vec::new();
        Self::push_all(&mut waiting, start, depth);
        assert(entries.take(entries.len() as int) =~= entries);
        assert(top_first(waiting@) =~= at_depth(start@, depth as nat));
        proof {
            entries.map_values(|entry: ProcessEntry| entry.pid).lemma_cardinality_of_set();
        }
        while waiting.len() > 0
            invariant
                self.wf(),
                entries == self.entries@,
                entries.take(entries.len() as int) == entries,
                entries.len() < usize::MAX,
                pids(entries).len() <= entries.len(),
                shows_all(entries, output@, nodes),
                nodes.len() + unseen(entries, visited@).len() <= pids(entries).len(),
                forall|i: int| 0 <= i < waiting@.len() ==> (#[trigger] waiting@[i]).1 <= nodes.len() + 1,
                goal == walk_from(
                    entries,
                    top_first(waiting@),
                    Walk { visited: visited@, shown: nodes },
                ),
            decreases unseen(entries, visited@).len(), waiting@.len(),
        {
            let ghost stacked = waiting@;
            let ghost seen = visited@;
            let (pid, depth) = match waiting.pop() {
                Some(top) => top,
                None => (0, 0),
            };
            proof {
                lemma_unseen(entries, seen, pid);
                lemma_entry_index(entries, pid);
                assert(top_first(stacked).drop_first() =~= top_first(waiting@));
                assert(top_first(stacked)[0] == Node { pid, depth: depth as nat });
            }
            if visited.insert(pid) {
                if let Some(index) = self.by_pid.get(&pid) {
                    let entry = &self.entries[*index];
                    output.push(
                        ProcessInfo {
                            pid: entry.pid,
                            parent_pid: entry.parent_pid,
                            depth,
                            name: entry.name.clone(),
                            memory_bytes: entry.memory_bytes,
                        },
                    );
                    proof {
                        let node = Node { pid, depth: depth as nat };
                        assert(shows(entries, output@.last(), node));
                        nodes = nodes.push(node);
                    }
                    let ghost rest = waiting@;
                    if let Some(child_pids) = self.by_parent.get(&pid) {
                        Self::push_all(&mut waiting, child_pids, depth + 1);
                    }
                    proof {
                        let kin = at_depth(children(entries, pid), (depth + 1) as nat);
                        assert(top_first(waiting@) =~= kin + top_first(rest));
                    }
                }
            } else {
                assert(seen.insert(pid) =~= seen);
            }
        }
        assert(top_first(waiting@) =~= Seq::<Node>::empty());
    }

    /// Stacks `pids` so that the first of them is on top.
    fn push_all(waiting: &mut Vec<(u32, usize)>, pids: &Vec<u32>, depth: usize)
        ensures
            top_first(final(waiting)@) == at_depth(pids@, depth as nat) + top_first(old(waiting)@),
            forall|i: int|
                0 <= i < final(waiting)@.len() ==> i < old(waiting)@.len() && (
                #[trigger] final(waiting)@[i]) == old(waiting)@[i] || final(waiting)@[i].1 == depth,
    {
        let ghost below = waiting@;
        let mut i: usize = pids.len();
        while i > 0
            invariant
                i <= pids@.len(),
                waiting@.len() == below.len() + (pids@.len() - i),
                forall|j: int| 0 <= j < below.len() ==> (#[trigger] waiting@[j]) == below[j],
                forall|j: int|
                    below.len() <= j < waiting@.len() ==> (#[trigger] waiting@[j]) == (
                        pids@[pids@.len() - 1 - (j - below.len())],
                        depth,
                    ),
            decreases i,
        {
            i -= 1;
            waiting.push((pids[i], depth));
        }
        assert(top_first(waiting@) =~= at_depth(pids@, depth as nat) + top_first(below));
    }
}

/// What a stack holds, from its top down.
spec fn top_first(stack: Seq<(u32, usize)>) -> Seq<Node> {
    Seq::new(
        stack.len(),
        |i: int|
            Node {
                pid: stack[stack.len() - 1 - i].0,
                depth: stack[stack.len() - 1 - i].1 as nat,
            },
    )
}

/// The tree below a process: the process itself and its descendants.
pub fn build_process_tree(root_pid: u32, entries: Vec<ProcessEntry>) -> (tree: Vec<ProcessInfo>)
    requires
        entries@.len() < usize::MAX,
    ensures
        shows_all(entries@, tree@, tree_walk(entries@, root_pid, Set::empty()).shown),
{
    build_process_tree_with_members(root_pid, entries, HashSet::new())
}

/// The tree below a process together with the other members of its group: those that have
/// lost the way to the root are shown one level below it, each with its own descendants.
pub fn build_process_tree_with_members(
    root_pid: u32,
    entries: Vec<ProcessEntry>,
    member_pids: HashSet<u32>,
) -> (tree: Vec<ProcessInfo>)
    requires
        entries@.len() < usize::MAX,
    ensures
        shows_all(entries@, tree@, tree_walk(entries@, root_pid, member_pids@).shown),
{
    let listing = Listing::new(entries);
    let mut output: Vec<ProcessInfo> = Vec::new();
    let mut visited: HashSet<u32> = HashSet::new();
    let mut roots: Vec<u32> = Vec::new();
    roots.push(root_pid);
    proof {
        assert(unseen(entries@, Set::empty()) =~= pids(entries@));
        assert(at_depth(roots@, 0) =~= seq![Node { pid: root_pid, depth: 0 }]);
    }
    listing.walk(&roots, 0, &mut visited, &mut output, Ghost(Seq::empty()));
    let ghost first = root_walk(entries@, root_pid);

    let mut members = member_pids;
    members.insert(root_pid);
    let detached = listing.select(&members, &visited, true);
    listing.walk(&detached, 1, &mut visited, &mut output, Ghost(first.shown));
    let ghost second = detached_walk(entries@, root_pid, member_pids@);

    let missing = listing.select(&members, &visited, false);
    listing.walk(&missing, 1, &mut visited, &mut output, Ghost(second.shown));
    output
}

impl Listing {
    /// The members that no walk has come to, in ascending order; with `detached`, only those
    /// whose parent is no member.
    fn select(
        &self,
        members: &HashSet<u32>,
        visited: &HashSet<u32>,
        detached: bool,
    ) -> (chosen: Vec<u32>)
        requires
            self.wf(),
        ensures
            detached ==> chosen@ == ascending_pids(
                self.entries@,
                is_detached(self.entries@, members@, visited@),
            ),
            !detached ==> chosen@ == ascending_pids(
                self.entries@,
                is_missing(members@, visited@),
            ),
    {
        let mut chosen: Vec<u32> = Vec::new();
        let ghost rule = if detached {
            is_detached(self.entries@, members@, visited@)
        } else {
            is_missing(members@, visited@)
        };
        let mut i: usize = 0;
        assert(self.entries@.take(self.entries@.len() as int) =~= self.entries@);
        assert(self.entries@.take(0) =~= Seq::<ProcessEntry>::empty());
        while i < self.entries.len()
            invariant
                i <= self.entries@.len(),
                self.wf(),
                self.entries@.take(self.entries@.len() as int) == self.entries@,
                rule == (if detached {
                    is_detached(self.entries@, members@, visited@)
                } else {
                    is_missing(members@, visited@)
                }),
                chosen@ == ascending_pids(self.entries@.take(i as int), rule),
            decreases self.entries@.len() - i,
        {
            let pid = self.entries[i].pid;
            proof {
                let listed = self.entries@.take(i + 1);
                assert(listed.drop_last() =~= self.entries@.take(i as int));
                lemma_pids(self.entries@, pid);
                lemma_entry_index(self.entries@, pid);
                assert(self.entries@[i as int].pid == pid);
            }
            let loose = match self.by_pid.get(&pid) {
                Some(index) => !members.contains(&self.entries[*index].parent_pid),
                None => false,
            };
            if members.contains(&pid) && !visited.contains(&pid) && (!detached || loose) {
                insert_pid(&mut chosen, pid);
            }
            i += 1;
        }
        chosen
    }
}

// ---------------------------------------------------------------------------
// What holds of every tree
// ---------------------------------------------------------------------------

/// Whether a set of processes holds the children of each listed process in it.
pub open spec fn is_closed(entries: Seq<ProcessEntry>, set: Set<u32>) -> bool {
    forall|parent: u32, child: u32|
        set.contains(parent) && pids(entries).contains(parent) && #[trigger] children(
            entries,
            parent,
        ).contains(child) ==> set.contains(child)
}

/// Whether `walk` shows `pid`.
pub open spec fn is_shown(walk: Walk, pid: u32) -> bool {
    exists|i: int| 0 <= i < walk.shown.len() && (#[trigger] walk.shown[i]).pid == pid
}

/// Whether a node one level up, shown before, is listed as the parent of `node`.
pub open spec fn has_parent_before(
    entries: Seq<ProcessEntry>,
    shown: Seq<Node>,
    node: Node,
) -> bool {
    exists|j: int|
        0 <= j < shown.len() && shown[j].depth + 1 == node.depth && children(
            entries,
            (#[trigger] shown[j]).pid,
        ).contains(node.pid)
}

/// A walk that shows each listed process it has come to, and shows it once.
spec fn is_faithful(entries: Seq<ProcessEntry>, walk: Walk) -> bool {
    &&& forall|i: int|
        0 <= i < walk.shown.len() ==> walk.visited.contains((#[trigger] walk.shown[i]).pid) && pids(
            entries,
        ).contains(walk.shown[i].pid)
    &&& forall|i: int, j: int|
        0 <= i < j < walk.shown.len() ==> walk.shown[i].pid != walk.shown[j].pid
    &&& forall|pid: u32| #[trigger]
        walk.visited.contains(pid) && pids(entries).contains(pid) ==> is_shown(walk, pid)
}

/// A walk whose deeper nodes all come below their parents.
spec fn is_layered(entries: Seq<ProcessEntry>, walk: Walk) -> bool {
    forall|i: int|
        0 <= i < walk.shown.len() && (#[trigger] walk.shown[i]).depth >= 2 ==> has_parent_before(
            entries,
            walk.shown.take(i),
            walk.shown[i],
        )
}

spec fn waits_for(waiting: Seq<Node>, pid: u32) -> bool {
    exists|i: int| 0 <= i < waiting.len() && (#[trigger] waiting[i]).pid == pid
}

/// The children of what is shown have been visited, or wait.
spec fn leads_on(entries: Seq<ProcessEntry>, waiting: Seq<Node>, walk: Walk) -> bool {
    forall|parent: u32, child: u32|
        is_shown(walk, parent) && #[trigger] children(entries, parent).contains(child)
            ==> walk.visited.contains(child) || waits_for(waiting, child)
}

proof fn lemma_push_shown(walk: Walk, node: Node, visited: Set<u32>, pid: u32)
    ensures
        is_shown(Walk { visited, shown: walk.shown.push(node) }, pid) <==> is_shown(walk, pid)
            || pid == node.pid,
{
    let next = Walk { visited, shown: walk.shown.push(node) };
    if is_shown(walk, pid) {
        let i = choose|i: int| 0 <= i < walk.shown.len() && (#[trigger] walk.shown[i]).pid == pid;
        assert(next.shown[i].pid == pid);
    }
    if pid == node.pid {
        assert(next.shown[walk.shown.len() as int].pid == pid);
    }
    if is_shown(next, pid) && pid != node.pid {
        let i = choose|i: int| 0 <= i < next.shown.len() && (#[trigger] next.shown[i]).pid == pid;
        assert(walk.shown[i].pid == pid);
    }
}

proof fn lemma_waits_for(kin: Seq<Node>, rest: Seq<Node>, pid: u32)
    ensures
        waits_for(kin + rest, pid) <==> waits_for(kin, pid) || waits_for(rest, pid),
{
    let all = kin + rest;
    if waits_for(kin, pid) {
        let i = choose|i: int| 0 <= i < kin.len() && (#[trigger] kin[i]).pid == pid;
        assert(all[i].pid == pid);
    }
    if waits_for(rest, pid) {
        let i = choose|i: int| 0 <= i < rest.len() && (#[trigger] rest[i]).pid == pid;
        assert(all[kin.len() + i].pid == pid);
    }
    if waits_for(all, pid) {
        let i = choose|i: int| 0 <= i < all.len() && (#[trigger] all[i]).pid == pid;
        if i < kin.len() {
            assert(kin[i].pid == pid);
        } else {
            assert(rest[i - kin.len()].pid == pid);
        }
    }
}

proof fn lemma_waits_for_rest(waiting: Seq<Node>, pid: u32)
    requires
        waiting.len() > 0,
    ensures
        waits_for(waiting, pid) <==> waiting[0].pid == pid || waits_for(waiting.drop_first(), pid),
{
    let first = seq![waiting[0]];
    assert(waiting =~= first + waiting.drop_first());
    lemma_waits_for(first, waiting.drop_first(), pid);
    if waits_for(first, pid) {
        let i = choose|i: int| 0 <= i < first.len() && (#[trigger] first[i]).pid == pid;
    }
    assert(first[0] == waiting[0]);
}

proof fn lemma_at_depth_waits(list: Seq<u32>, depth: nat, pid: u32)
    ensures
        waits_for(at_depth(list, depth), pid) <==> list.contains(pid),
{
    let nodes = at_depth(list, depth);
    if waits_for(nodes, pid) {
        let i = choose|i: int| 0 <= i < nodes.len() && (#[trigger] nodes[i]).pid == pid;
        assert(list[i] == pid);
    }
    if list.contains(pid) {
        let i = choose|i: int| 0 <= i < list.len() && list[i] == pid;
        assert(nodes[i].pid == pid);
    }
}

/// A walk that goes on stays faithful, visits what waited and keeps what it had.
proof fn lemma_walk_faithful(entries: Seq<ProcessEntry>, waiting: Seq<Node>, walk: Walk)
    requires
        is_faithful(entries, walk),
    ensures
        is_faithful(entries, walk_from(entries, waiting, walk)),
        walk.visited.subset_of(walk_from(entries, waiting, walk).visited),
        walk.shown.is_prefix_of(walk_from(entries, waiting, walk).shown),
        forall|pid: u32| #[trigger]
            waits_for(waiting, pid) ==> walk_from(entries, waiting, walk).visited.contains(pid),
    decreases unseen(entries, walk.visited).len(), waiting.len(),
{
    let end = walk_from(entries, waiting, walk);
    if waiting.len() > 0 {
        let node = waiting[0];
        let rest = waiting.drop_first();
        let visited = walk.visited.insert(node.pid);
        lemma_unseen(entries, walk.visited, node.pid);
        if walk.visited.contains(node.pid) {
            lemma_walk_faithful(entries, rest, walk);
        } else if !pids(entries).contains(node.pid) {
            let next = Walk { visited, shown: walk.shown };
            assert forall|pid: u32| #[trigger]
                next.visited.contains(pid) && pids(entries).contains(pid) implies is_shown(
                next,
                pid,
            ) by {
                assert(walk.visited.contains(pid));
                let i = choose|i: int|
                    0 <= i < walk.shown.len() && (#[trigger] walk.shown[i]).pid == pid;
                assert(next.shown[i].pid == pid);
            }
            lemma_walk_faithful(entries, rest, next);
        } else {
            let next = Walk { visited, shown: walk.shown.push(node) };
            let kin = at_depth(children(entries, node.pid), node.depth + 1);
            assert forall|pid: u32| #[trigger]
                next.visited.contains(pid) && pids(entries).contains(pid) implies is_shown(
                next,
                pid,
            ) by {
                lemma_push_shown(walk, node, visited, pid);
                if pid != node.pid {
                    assert(walk.visited.contains(pid));
                }
            }
            lemma_walk_faithful(entries, kin + rest, next);
            assert(walk.shown.is_prefix_of(end.shown)) by {
                assert(end.shown.subrange(0, next.shown.len() as int) =~= next.shown);
                assert(end.shown.subrange(0, walk.shown.len() as int) =~= walk.shown) by {
                    assert forall|i: int| 0 <= i < walk.shown.len() implies end.shown[i]
                        == walk.shown[i] by {
                        assert(end.shown.subrange(0, next.shown.len() as int)[i] == next.shown[i]);
                    }
                }
            }
            assert forall|pid: u32| #[trigger] waits_for(rest, pid) implies end.visited.contains(
                pid,
            ) by {
                lemma_waits_for(kin, rest, pid);
            }
        }
        assert forall|pid: u32| #[trigger] waits_for(waiting, pid) implies end.visited.contains(
            pid,
        ) by {
            lemma_waits_for_rest(waiting, pid);
            if waits_for(rest, pid) {
                assert(end.visited.contains(pid));
            }
        }
    }
}

/// Where a walk ends, the children of what it shows have been visited.
proof fn lemma_walk_leads_on(entries: Seq<ProcessEntry>, waiting: Seq<Node>, walk: Walk)
    requires
        leads_on(entries, waiting, walk),
    ensures
        leads_on(entries, Seq::empty(), walk_from(entries, waiting, walk)),
    decreases unseen(entries, walk.visited).len(), waiting.len(),
{
    if waiting.len() == 0 {
        assert(waiting =~= Seq::<Node>::empty());
    } else {
        let node = waiting[0];
        let rest = waiting.drop_first();
        let visited = walk.visited.insert(node.pid);
        lemma_unseen(entries, walk.visited, node.pid);
        if walk.visited.contains(node.pid) {
            assert forall|parent: u32, child: u32|
                is_shown(walk, parent) && #[trigger] children(entries, parent).contains(
                    child,
                ) implies walk.visited.contains(child) || waits_for(rest, child) by {
                lemma_waits_for_rest(waiting, child);
            }
            lemma_walk_leads_on(entries, rest, walk);
        } else if !pids(entries).contains(node.pid) {
            let next = Walk { visited, shown: walk.shown };
            assert forall|parent: u32, child: u32|
                is_shown(next, parent) && #[trigger] children(entries, parent).contains(
                    child,
                ) implies next.visited.contains(child) || waits_for(rest, child) by {
                assert(is_shown(walk, parent));
                lemma_waits_for_rest(waiting, child);
            }
            lemma_walk_leads_on(entries, rest, next);
        } else {
            let next = Walk { visited, shown: walk.shown.push(node) };
            let kin = at_depth(children(entries, node.pid), node.depth + 1);
            assert forall|parent: u32, child: u32|
                is_shown(next, parent) && #[trigger] children(entries, parent).contains(
                    child,
                ) implies next.visited.contains(child) || waits_for(kin + rest, child) by {
                lemma_push_shown(walk, node, visited, parent);
                lemma_waits_for_rest(waiting, child);
                lemma_waits_for(kin, rest, child);
                lemma_at_depth_waits(children(entries, node.pid), node.depth + 1, child);
            }
            lemma_walk_leads_on(entries, kin + rest, next);
        }
    }
}

/// A walk stays within any closed set that holds what it has shown and what waits.
proof fn lemma_walk_within(
    entries: Seq<ProcessEntry>,
    waiting: Seq<Node>,
    walk: Walk,
    set: Set<u32>,
)
    requires
        is_closed(entries, set),
        forall|pid: u32| #[trigger] waits_for(waiting, pid) ==> set.contains(pid),
        forall|pid: u32| #[trigger] is_shown(walk, pid) ==> set.contains(pid),
    ensures
        forall|pid: u32| #[trigger]
            is_shown(walk_from(entries, waiting, walk), pid) ==> set.contains(pid),
    decreases unseen(entries, walk.visited).len(), waiting.len(),
{
    if waiting.len() > 0 {
        let node = waiting[0];
        let rest = waiting.drop_first();
        let visited = walk.visited.insert(node.pid);
        lemma_unseen(entries, walk.visited, node.pid);
        lemma_waits_for_rest(waiting, node.pid);
        assert forall|pid: u32| #[trigger] waits_for(rest, pid) implies set.contains(pid) by {
            lemma_waits_for_rest(waiting, pid);
        }
        if walk.visited.contains(node.pid) {
            lemma_walk_within(entries, rest, walk, set);
            assert(walk_from(entries, waiting, walk) == walk_from(entries, rest, walk));
        } else if !pids(entries).contains(node.pid) {
            let next = Walk { visited, shown: walk.shown };
            assert forall|pid: u32| #[trigger] is_shown(next, pid) implies set.contains(pid) by {
                assert(is_shown(walk, pid));
            }
            lemma_walk_within(entries, rest, next, set);
            assert(walk_from(entries, waiting, walk) == walk_from(entries, rest, next));
        } else {
            let next = Walk { visited, shown: walk.shown.push(node) };
            let kin = at_depth(children(entries, node.pid), node.depth + 1);
            assert forall|pid: u32| #[trigger] is_shown(next, pid) implies set.contains(pid) by {
                lemma_push_shown(walk, node, visited, pid);
            }
            assert forall|pid: u32| #[trigger] waits_for(kin + rest, pid) implies set.contains(
                pid,
            ) by {
                lemma_waits_for(kin, rest, pid);
                lemma_at_depth_waits(children(entries, node.pid), node.depth + 1, pid);
            }
            lemma_walk_within(entries, kin + rest, next, set);
            assert(walk_from(entries, waiting, walk) == walk_from(entries, kin + rest, next));
        }
    }
}

/// A walk whose waiting nodes are shallow or below their parents stays layered.
proof fn lemma_walk_layered(entries: Seq<ProcessEntry>, waiting: Seq<Node>, walk: Walk)
    requires
        is_layered(entries, walk),
        forall|i: int|
            0 <= i < waiting.len() && (#[trigger] waiting[i]).depth >= 2 ==> has_parent_before(
                entries,
                walk.shown,
                waiting[i],
            ),
    ensures
        is_layered(entries, walk_from(entries, waiting, walk)),
    decreases unseen(entries, walk.visited).len(), waiting.len(),
{
    if waiting.len() > 0 {
        let node = waiting[0];
        let rest = waiting.drop_first();
        let visited = walk.visited.insert(node.pid);
        lemma_unseen(entries, walk.visited, node.pid);
        assert forall|i: int| 0 <= i < rest.len() && (#[trigger] rest[i]).depth >= 2 implies
            has_parent_before(entries, walk.shown, rest[i]) by {
            assert(rest[i] == waiting[i + 1]);
        }
        if walk.visited.contains(node.pid) {
            lemma_walk_layered(entries, rest, walk);
        } else if !pids(entries).contains(node.pid) {
            lemma_walk_layered(entries, rest, Walk { visited, shown: walk.shown });
        } else {
            let next = Walk { visited, shown: walk.shown.push(node) };
            let kin = at_depth(children(entries, node.pid), node.depth + 1);
            let all = kin + rest;
            assert forall|i: int|
                0 <= i < next.shown.len() && (#[trigger] next.shown[i]).depth >= 2 implies
                has_parent_before(entries, next.shown.take(i), next.shown[i]) by {
                assert(next.shown.take(i) =~= walk.shown.take(i));
                if i == walk.shown.len() {
                    assert(walk.shown.take(i) =~= walk.shown);
                } else {
                    assert(walk.shown[i].depth >= 2);
                }
            }
            assert forall|i: int| 0 <= i < all.len() && (#[trigger] all[i]).depth >= 2 implies
                has_parent_before(entries, next.shown, all[i]) by {
                if i < kin.len() {
                    let j = walk.shown.len() as int;
                    assert(next.shown[j] == node);
                    assert(children(entries, node.pid)[i] == all[i].pid);
                    assert(children(entries, next.shown[j].pid).contains(all[i].pid));
                } else {
                    let r = rest[i - kin.len()];
                    assert(has_parent_before(entries, walk.shown, r));
                    let j = choose|j: int|
                        0 <= j < walk.shown.len() && walk.shown[j].depth + 1 == r.depth && children(
                            entries,
                            (#[trigger] walk.shown[j]).pid,
                        ).contains(r.pid);
                    assert(next.shown[j] == walk.shown[j]);
                }
            }
            lemma_walk_layered(entries, all, next);
        }
    }
}

proof fn lemma_tree_walk(entries: Seq<ProcessEntry>, root_pid: u32, members: Set<u32>)
    ensures
        is_faithful(entries, root_walk(entries, root_pid)),
        is_faithful(entries, detached_walk(entries, root_pid, members)),
        is_faithful(entries, tree_walk(entries, root_pid, members)),
        root_walk(entries, root_pid).visited.contains(root_pid),
        root_walk(entries, root_pid).visited.subset_of(
            tree_walk(entries, root_pid, members).visited,
        ),
        root_walk(entries, root_pid).shown.is_prefix_of(
            tree_walk(entries, root_pid, members).shown,
        ),
{
    let none = Walk { visited: Set::empty(), shown: Seq::empty() };
    let roots = seq![Node { pid: root_pid, depth: 0 }];
    let first = root_walk(entries, root_pid);
    let all = members.insert(root_pid);
    let detached = ascending_pids(entries, is_detached(entries, all, first.visited));
    let second = detached_walk(entries, root_pid, members);
    let missing = ascending_pids(entries, is_missing(all, second.visited));
    let third = tree_walk(entries, root_pid, members);
    lemma_walk_faithful(entries, roots, none);
    assert(roots[0].pid == root_pid);
    assert(waits_for(roots, root_pid));
    lemma_walk_faithful(entries, at_depth(detached, 1), first);
    lemma_walk_faithful(entries, at_depth(missing, 1), second);
    assert(third.shown.subrange(0, first.shown.len() as int) =~= first.shown) by {
        assert forall|i: int| 0 <= i < first.shown.len() implies third.shown[i] == first.shown[i] by {
            assert(third.shown.subrange(0, second.shown.len() as int)[i] == second.shown[i]);
            assert(second.shown.subrange(0, first.shown.len() as int)[i] == first.shown[i]);
        }
    }
}

/// A tree shows a process at most once, and only processes that are listed.
pub proof fn law_tree_shows_each_process_once(
    entries: Seq<ProcessEntry>,
    root_pid: u32,
    members: Set<u32>,
)
    ensures
        ({
            let shown = tree_walk(entries, root_pid, members).shown;
            &&& forall|i: int|
                0 <= i < shown.len() ==> pids(entries).contains((#[trigger] shown[i]).pid)
            &&& forall|i: int, j: int| 0 <= i < j < shown.len() ==> shown[i].pid != shown[j].pid
        }),
{
    lemma_tree_walk(entries, root_pid, members);
}

/// The root of a tree and every member of its group are shown, if they are listed.
pub proof fn law_tree_shows_every_member(
    entries: Seq<ProcessEntry>,
    root_pid: u32,
    members: Set<u32>,
    pid: u32,
)
    requires
        pid == root_pid || members.contains(pid),
        pids(entries).contains(pid),
    ensures
        is_shown(tree_walk(entries, root_pid, members), pid),
{
    lemma_tree_walk(entries, root_pid, members);
    let all = members.insert(root_pid);
    let second = detached_walk(entries, root_pid, members);
    let missing = ascending_pids(entries, is_missing(all, second.visited));
    let third = tree_walk(entries, root_pid, members);
    lemma_walk_faithful(entries, at_depth(missing, 1), second);
    if !second.visited.contains(pid) {
        lemma_ascending_pids(entries, is_missing(all, second.visited));
        lemma_pids(entries, pid);
        let i = choose|i: int| 0 <= i < entries.len() && (#[trigger] entries[i]).pid == pid;
        assert(is_missing(all, second.visited)(entries[i]));
        assert(missing.contains(pid));
        lemma_at_depth_waits(missing, 1, pid);
        assert(waits_for(at_depth(missing, 1), pid));
    }
    assert(third.visited.contains(pid));
}

/// A tree shows the children of every process that it shows.
pub proof fn law_tree_shows_children(
    entries: Seq<ProcessEntry>,
    root_pid: u32,
    members: Set<u32>,
    parent: u32,
    child: u32,
)
    requires
        is_shown(tree_walk(entries, root_pid, members), parent),
        children(entries, parent).contains(child),
    ensures
        is_shown(tree_walk(entries, root_pid, members), child),
{
    lemma_tree_walk(entries, root_pid, members);
    let none = Walk { visited: Set::empty(), shown: Seq::empty() };
    let roots = seq![Node { pid: root_pid, depth: 0 }];
    let first = root_walk(entries, root_pid);
    let all = members.insert(root_pid);
    let detached = ascending_pids(entries, is_detached(entries, all, first.visited));
    let second = detached_walk(entries, root_pid, members);
    let missing = ascending_pids(entries, is_missing(all, second.visited));
    let third = tree_walk(entries, root_pid, members);
    lemma_walk_leads_on(entries, roots, none);
    lemma_leads_on_with(entries, at_depth(detached, 1), first);
    lemma_walk_leads_on(entries, at_depth(detached, 1), first);
    lemma_leads_on_with(entries, at_depth(missing, 1), second);
    lemma_walk_leads_on(entries, at_depth(missing, 1), second);
    assert(third.visited.contains(child));
    lemma_ascending_pids(entries, has_parent(parent));
    lemma_pids(entries, child);
}

proof fn lemma_leads_on_with(entries: Seq<ProcessEntry>, waiting: Seq<Node>, walk: Walk)
    requires
        leads_on(entries, Seq::empty(), walk),
    ensures
        leads_on(entries, waiting, walk),
{
    assert forall|parent: u32, child: u32|
        is_shown(walk, parent) && #[trigger] children(entries, parent).contains(child) implies
        walk.visited.contains(child) || waits_for(waiting, child) by {
        assert(!waits_for(Seq::empty(), child));
    }
}

/// A walk comes to the children of a process in the order of their identifiers.
pub proof fn law_children_are_in_order(entries: Seq<ProcessEntry>, pid: u32)
    ensures
        is_ascending(children(entries, pid)),
{
    lemma_ascending_pids(entries, has_parent(pid));
}

/// A tree shows nothing but the root, the members of its group and their descendants: what it
/// shows lies in every set that holds the root and the members and, with each listed process,
/// its children. Without members that is the root and its descendants. Of a root or a member
/// that is not listed, no children follow.
pub proof fn law_tree_shows_only_descendants(
    entries: Seq<ProcessEntry>,
    root_pid: u32,
    members: Set<u32>,
    set: Set<u32>,
    pid: u32,
)
    requires
        set.contains(root_pid),
        members.subset_of(set),
        is_closed(entries, set),
        is_shown(tree_walk(entries, root_pid, members), pid),
    ensures
        set.contains(pid),
{
    let none = Walk { visited: Set::empty(), shown: Seq::empty() };
    let roots = seq![Node { pid: root_pid, depth: 0 }];
    let first = root_walk(entries, root_pid);
    let all = members.insert(root_pid);
    let detached = ascending_pids(entries, is_detached(entries, all, first.visited));
    let second = detached_walk(entries, root_pid, members);
    let missing = ascending_pids(entries, is_missing(all, second.visited));
    assert forall|p: u32| #[trigger] waits_for(roots, p) implies set.contains(p) by {
        lemma_waits_for_rest(roots, p);
        assert(roots.drop_first() =~= Seq::<Node>::empty());
    }
    lemma_walk_within(entries, roots, none, set);
    lemma_ascending_pids(entries, is_detached(entries, all, first.visited));
    assert forall|p: u32| #[trigger] waits_for(at_depth(detached, 1), p) implies set.contains(p) by {
        lemma_at_depth_waits(detached, 1, p);
    }
    lemma_walk_within(entries, at_depth(detached, 1), first, set);
    lemma_ascending_pids(entries, is_missing(all, second.visited));
    assert forall|p: u32| #[trigger] waits_for(at_depth(missing, 1), p) implies set.contains(p) by {
        lemma_at_depth_waits(missing, 1, p);
    }
    lemma_walk_within(entries, at_depth(missing, 1), second, set);
}

/// A listed root comes first, at depth zero, and every process at depth two or more comes
/// somewhere behind a process one level up that is its parent.
pub proof fn law_tree_is_layered(entries: Seq<ProcessEntry>, root_pid: u32, members: Set<u32>)
    ensures
        ({
            let shown = tree_walk(entries, root_pid, members).shown;
            &&& pids(entries).contains(root_pid) ==> shown.len() > 0 && shown[0] == (Node {
                pid: root_pid,
                depth: 0,
            })
            &&& forall|i: int|
                0 <= i < shown.len() && (#[trigger] shown[i]).depth >= 2 ==> has_parent_before(
                    entries,
                    shown.take(i),
                    shown[i],
                )
        }),
{
    let none = Walk { visited: Set::empty(), shown: Seq::empty() };
    let root = Node { pid: root_pid, depth: 0 };
    let roots = seq![root];
    let first = root_walk(entries, root_pid);
    let all = members.insert(root_pid);
    let detached = ascending_pids(entries, is_detached(entries, all, first.visited));
    let second = detached_walk(entries, root_pid, members);
    let missing = ascending_pids(entries, is_missing(all, second.visited));
    let third = tree_walk(entries, root_pid, members);
    lemma_walk_layered(entries, roots, none);
    lemma_walk_layered(entries, at_depth(detached, 1), first);
    lemma_walk_layered(entries, at_depth(missing, 1), second);
    if pids(entries).contains(root_pid) {
        lemma_tree_walk(entries, root_pid, members);
        let next = Walk { visited: none.visited.insert(root_pid), shown: none.shown.push(root) };
        let kin = at_depth(children(entries, root_pid), 1) + roots.drop_first();
        assert(first == walk_from(entries, kin, next));
        lemma_push_faithful(entries, root_pid);
        lemma_walk_faithful(entries, kin, next);
        assert(first.shown.subrange(0, 1)[0] == next.shown[0]);
        assert(third.shown.subrange(0, first.shown.len() as int)[0] == first.shown[0]);
    }
}

proof fn lemma_push_faithful(entries: Seq<ProcessEntry>, root_pid: u32)
    requires
        pids(entries).contains(root_pid),
    ensures
        is_faithful(
            entries,
            Walk {
                visited: Set::empty().insert(root_pid),
                shown: Seq::empty().push(Node { pid: root_pid, depth: 0 }),
            },
        ),
{
    let next = Walk {
        visited: Set::empty().insert(root_pid),
        shown: Seq::empty().push(Node { pid: root_pid, depth: 0 }),
    };
    assert(next.shown[0].pid == root_pid);
}

// ---------------------------------------------------------------------------
// Memory
// ---------------------------------------------------------------------------

/// The memory of all processes of a tree of which it is known.
pub open spec fn memory_sum(tree: Seq<ProcessInfo>) -> nat
    decreases tree.len(),
{
    if tree.len() == 0 {
        0
    } else {
        memory_sum(tree.drop_last()) + match tree.last().memory_bytes {
            Some(bytes) => bytes as nat,
            None => 0,
        }
    }
}

/// Whether the memory of any process of a tree is known.
pub open spec fn knows_memory(tree: Seq<ProcessInfo>) -> bool {
    exists|i: int| 0 <= i < tree.len() && (#[trigger] tree[i]).memory_bytes is Some
}

proof fn lemma_memory_sum_grows(tree: Seq<ProcessInfo>, n: int)
    requires
        0 <= n <= tree.len(),
    ensures
        memory_sum(tree.take(n)) <= memory_sum(tree),
    decreases tree.len(),
{
    if n < tree.len() {
        lemma_memory_sum_grows(tree.drop_last(), n);
        assert(tree.drop_last().take(n) =~= tree.take(n));
    } else {
        assert(tree.take(n) =~= tree);
    }
}

/// The memory of all processes of a tree of which it is known, if that is not beyond 64 bits.
pub fn total_memory(tree: &Vec<ProcessInfo>) -> (total: Option<u64>)
    ensures
        match total {
            Some(total) => total == memory_sum(tree@),
            None => memory_sum(tree@) > u64::MAX,
        },
{
    let mut total: u64 = 0;
    let mut i: usize = 0;
    assert(tree@.take(0) =~= Seq::<ProcessInfo>::empty());
    while i < tree.len()
        invariant
            i <= tree@.len(),
            total == memory_sum(tree@.take(i as int)),
        decreases tree@.len() - i,
    {
        proof {
            let upto = tree@.take(i + 1);
            assert(upto.drop_last() =~= tree@.take(i as int));
            assert(upto.last() == tree@[i as int]);
            lemma_memory_sum_grows(tree@, i + 1);
        }
        match tree[i].memory_bytes {
            Some(bytes) => match total.checked_add(bytes) {
                Some(sum) => {
                    total = sum;
                },
                None => {
                    return None;
                },
            },
            None => {},
        }
        i += 1;
    }
    assert(tree@.take(i as int) =~= tree@);
    Some(total)
}

/// The memory of a tree, as far as it is known, or the most that 64 bits can hold. Nothing is
/// said where it is known of no process.
pub fn process_tree_memory_usage(tree: &Vec<ProcessInfo>) -> (usage: Option<u64>)
    ensures
        usage == if !knows_memory(tree@) {
            None
        } else if memory_sum(tree@) > u64::MAX {
            Some(u64::MAX)
        } else {
            Some(memory_sum(tree@) as u64)
        },
{
    let mut i: usize = 0;
    while i < tree.len()
        invariant
            i <= tree@.len(),
            forall|j: int| 0 <= j < i ==> (#[trigger] tree@[j]).memory_bytes is None,
        decreases tree@.len() - i,
    {
        if tree[i].memory_bytes.is_some() {
            assert(tree@[i as int].memory_bytes is Some);
            return match total_memory(tree) {
                Some(total) => Some(total),
                None => Some(u64::MAX),
            };
        }
        i += 1;
    }
    None
}

// ---------------------------------------------------------------------------
// The order of a tree
// ---------------------------------------------------------------------------

/// A walk that comes to a listed process for the first time shows it, at its depth, and goes on
/// with its children, one level deeper, before what waits behind it. A process that it has been to
/// it passes by, and one that is not listed it does not show.
pub proof fn law_walk_takes_children_first(
    entries: Seq<ProcessEntry>,
    pid: u32,
    depth: nat,
    rest: Seq<Node>,
    visited: Set<u32>,
    shown: Seq<Node>,
)
    ensures
        ({
            let node = Node { pid, depth };
            let waiting = seq![node] + rest;
            let below = Seq::new(
                children(entries, pid).len(),
                |i: int| Node { pid: children(entries, pid)[i], depth: depth + 1 },
            );
            let walk = Walk { visited, shown };
            &&& visited.contains(pid) ==> walk_from(entries, waiting, walk) == walk_from(
                entries,
                rest,
                walk,
            )
            &&& !visited.contains(pid) && !pids(entries).contains(pid) ==> walk_from(
                entries,
                waiting,
                walk,
            ) == walk_from(entries, rest, Walk { visited: visited.insert(pid), shown })
            &&& !visited.contains(pid) && pids(entries).contains(pid) ==> walk_from(
                entries,
                waiting,
                walk,
            ) == walk_from(
                entries,
                below + rest,
                Walk { visited: visited.insert(pid), shown: shown.push(node) },
            )
            &&& walk_from(entries, Seq::empty(), walk) == walk
        }),
{
    let node = Node { pid, depth };
    let waiting = seq![node] + rest;
    assert(waiting[0] == node);
    assert(waiting.drop_first() =~= rest);
    let below = Seq::new(
        children(entries, pid).len(),
        |i: int| Node { pid: children(entries, pid)[i], depth: depth + 1 },
    );
    assert(at_depth(children(entries, pid), depth + 1) =~= below);
}

/// The children of a process are the listed ones that name it as their parent, in ascending order.
pub proof fn law_children_name_their_parent(entries: Seq<ProcessEntry>, parent: u32, child: u32)
    ensures
        children(entries, parent).contains(child) <==> exists|i: int|
            0 <= i < entries.len() && (#[trigger] entries[i]).pid == child && entries[i].parent_pid
                == parent,
        forall|i: int, j: int|
            0 <= i < j < children(entries, parent).len() ==> children(entries, parent)[i]
                < children(entries, parent)[j],
{
    lemma_ascending_pids(entries, has_parent(parent));
    if children(entries, parent).contains(child) {
        let i = choose|i: int|
            0 <= i < entries.len() && (#[trigger] entries[i]).pid == child && has_parent(parent)(
                entries[i],
            );
        assert(entries[i].parent_pid == parent);
    }
    if exists|i: int|
        0 <= i < entries.len() && (#[trigger] entries[i]).pid == child && entries[i].parent_pid
            == parent {
        let i = choose|i: int|
            0 <= i < entries.len() && (#[trigger] entries[i]).pid == child && entries[i].parent_pid
                == parent;
        assert(has_parent(parent)(entries[i]));
    }
}

proof fn lemma_same_ascending(a: Seq<u32>, b: Seq<u32>)
    requires
        is_ascending(a),
        is_ascending(b),
        forall|x: u32| a.contains(x) <==> b.contains(x),
    ensures
        a == b,
    decreases a.len(),
{
    if a.len() == 0 {
        if b.len() > 0 {
            assert(b.contains(b[0]));
        }
        assert(a =~= b);
    } else {
        assert(a.contains(a[a.len() - 1]));
        assert(b.contains(a.last()));
        assert(b.len() > 0);
        assert(b.contains(b[b.len() - 1]));
        assert(a.contains(b.last()));
        let i = choose|i: int| 0 <= i < b.len() && b[i] == a.last();
        let j = choose|j: int| 0 <= j < a.len() && a[j] == b.last();
        if i < b.len() - 1 {
            assert(b[i] < b[b.len() - 1]);
        }
        if j < a.len() - 1 {
            assert(a[j] < a[a.len() - 1]);
        }
        assert(a.last() == b.last());
        let c = a.drop_last();
        let d = b.drop_last();
        assert forall|x: u32| c.contains(x) <==> d.contains(x) by {
            if c.contains(x) {
                let k = choose|k: int| 0 <= k < c.len() && c[k] == x;
                assert(a[k] == x && a[k] < a[a.len() - 1]);
                assert(a.contains(x));
                let l = choose|l: int| 0 <= l < b.len() && b[l] == x;
                assert(d[l] == x);
            }
            if d.contains(x) {
                let k = choose|k: int| 0 <= k < d.len() && d[k] == x;
                assert(b[k] == x && b[k] < b[b.len() - 1]);
                assert(b.contains(x));
                let l = choose|l: int| 0 <= l < a.len() && a[l] == x;
                assert(c[l] == x);
            }
        }
        lemma_same_ascending(c, d);
        assert(a =~= c.push(a.last()));
        assert(b =~= d.push(b.last()));
    }
}

/// A tree starts with its root; behind what that leads to come, one level below it and in ascending
/// order, the members that nothing has led to and whose parent is no member, each with what it
/// leads to; and behind these, likewise, the members that still nothing has led to.
pub proof fn law_tree_has_its_parts_in_order(
    entries: Seq<ProcessEntry>,
    root_pid: u32,
    members: Set<u32>,
    loose: Seq<u32>,
    missing: Seq<u32>,
)
    requires
        forall|i: int, j: int| 0 <= i < j < loose.len() ==> loose[i] < loose[j],
        forall|i: int, j: int| 0 <= i < j < missing.len() ==> missing[i] < missing[j],
        forall|pid: u32| #[trigger]
            loose.contains(pid) <==> pids(entries).contains(pid) && (pid == root_pid
                || members.contains(pid)) && !root_walk(entries, root_pid).visited.contains(pid)
                && parent_of(entries, pid) != root_pid && !members.contains(
                parent_of(entries, pid),
            ),
        forall|pid: u32| #[trigger]
            missing.contains(pid) <==> pids(entries).contains(pid) && (pid == root_pid
                || members.contains(pid)) && !detached_walk(
                entries,
                root_pid,
                members,
            ).visited.contains(pid),
    ensures
        root_walk(entries, root_pid) == walk_from(
            entries,
            seq![Node { pid: root_pid, depth: 0 }],
            Walk { visited: Set::empty(), shown: Seq::empty() },
        ),
        detached_walk(entries, root_pid, members) == walk_from(
            entries,
            Seq::new(loose.len(), |i: int| Node { pid: loose[i], depth: 1 }),
            root_walk(entries, root_pid),
        ),
        tree_walk(entries, root_pid, members) == walk_from(
            entries,
            Seq::new(missing.len(), |i: int| Node { pid: missing[i], depth: 1 }),
            detached_walk(entries, root_pid, members),
        ),
{
    let all = members.insert(root_pid);
    let first = root_walk(entries, root_pid);
    let second = detached_walk(entries, root_pid, members);
    let p = is_detached(entries, all, first.visited);
    let q = is_missing(all, second.visited);
    lemma_ascending_pids(entries, p);
    lemma_ascending_pids(entries, q);
    assert forall|pid: u32| ascending_pids(entries, p).contains(pid) <==> loose.contains(pid) by {
        lemma_pids(entries, pid);
        if ascending_pids(entries, p).contains(pid) {
            let i = choose|i: int|
                0 <= i < entries.len() && (#[trigger] entries[i]).pid == pid && p(entries[i]);
            assert(entries[i].pid == pid);
        }
        if loose.contains(pid) {
            let i = choose|i: int| 0 <= i < entries.len() && (#[trigger] entries[i]).pid == pid;
            assert(p(entries[i]));
        }
    }
    lemma_same_ascending(ascending_pids(entries, p), loose);
    assert forall|pid: u32| ascending_pids(entries, q).contains(pid) <==> missing.contains(pid) by {
        lemma_pids(entries, pid);
        if ascending_pids(entries, q).contains(pid) {
            let i = choose|i: int|
                0 <= i < entries.len() && (#[trigger] entries[i]).pid == pid && q(entries[i]);
            assert(entries[i].pid == pid);
        }
        if missing.contains(pid) {
            let i = choose|i: int| 0 <= i < entries.len() && (#[trigger] entries[i]).pid == pid;
            assert(q(entries[i]));
        }
    }
    lemma_same_ascending(ascending_pids(entries, q), missing);
    assert(at_depth(loose, 1) =~= Seq::new(
        loose.len(),
        |i: int| Node { pid: loose[i], depth: 1 },
    ));
    assert(at_depth(missing, 1) =~= Seq::new(
        missing.len(),
        |i: int| Node { pid: missing[i], depth: 1 },
    ));
}

/// A process is shown as the last entry under its identifier lists it, with its depth.
pub proof fn law_process_is_shown_as_listed(
    entries: Seq<ProcessEntry>,
    info: ProcessInfo,
    node: Node,
    i: int,
)
    requires
        0 <= i < entries.len(),
        entries[i].pid == node.pid,
        forall|j: int| i < j < entries.len() ==> (#[trigger] entries[j]).pid != node.pid,
    ensures
        parent_of(entries, node.pid) == entries[i].parent_pid,
        shows(entries, info, node) <==> info.pid == node.pid && info.depth == node.depth
            && info.parent_pid == entries[i].parent_pid && info.name@ == entries[i].name@
            && info.memory_bytes == entries[i].memory_bytes,
{
    lemma_index_of_last(entries, node.pid, i);
}

proof fn lemma_index_of_last(entries: Seq<ProcessEntry>, pid: u32, i: int)
    requires
        0 <= i < entries.len(),
        entries[i].pid == pid,
        forall|j: int| i < j < entries.len() ==> (#[trigger] entries[j]).pid != pid,
    ensures
        entry_index(entries, pid) == i,
    decreases entries.len(),
{
    if i < entries.len() - 1 {
        let front = entries.drop_last();
        assert(entries[entries.len() - 1].pid != pid);
        assert forall|j: int| i < j < front.len() implies (#[trigger] front[j]).pid != pid by {
            assert(front[j] == entries[j]);
        }
        lemma_index_of_last(front, pid, i);
    }
}

/// The memory of processes adds up, as far as it is known.
pub proof fn law_memory_adds_up(tree: Seq<ProcessInfo>, info: ProcessInfo, bytes: u64)
    ensures
        memory_sum(Seq::empty()) == 0,
        !knows_memory(Seq::empty()),
        info.memory_bytes == Some(bytes) ==> memory_sum(tree.push(info)) == memory_sum(tree) + bytes
            && knows_memory(tree.push(info)),
        info.memory_bytes is None ==> memory_sum(tree.push(info)) == memory_sum(tree) && (
        knows_memory(tree.push(info)) <==> knows_memory(tree)),
{
    let longer = tree.push(info);
    assert(longer.drop_last() =~= tree);
    assert(longer[tree.len() as int] == info);
    if knows_memory(tree) {
        let i = choose|i: int| 0 <= i < tree.len() && (#[trigger] tree[i]).memory_bytes is Some;
        assert(longer[i].memory_bytes is Some);
    }
    if knows_memory(longer) && info.memory_bytes is None {
        let i = choose|i: int|
            0 <= i < longer.len() && (#[trigger] longer[i]).memory_bytes is Some;
        assert(tree[i].memory_bytes is Some);
    }
}

} // verus!
