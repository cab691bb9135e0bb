use std::collections::HashSet;
use win_keeper::process::{
    build_process_tree, build_process_tree_with_members, process_tree_memory_usage, total_memory,
    ProcessEntry, ProcessInfo,
};

fn entry(pid: u32, parent_pid: u32, name: &str, memory: Option<u64>) -> ProcessEntry {
    ProcessEntry {
        pid,
        parent_pid,
        name: name.into(),
        memory_bytes: memory,
    }
}

#[test]
fn process_tree_contains_only_root_and_descendants() {
    let entries = vec![
        ProcessEntry {
            pid: 10,
            parent_pid: 1,
            name: "root".into(),
            memory_bytes: Some(100),
        },
        ProcessEntry {
            pid: 11,
            parent_pid: 10,
            name: "child".into(),
            memory_bytes: Some(50),
        },
        ProcessEntry {
            pid: 12,
            parent_pid: 11,
            name: "grandchild".into(),
            memory_bytes: Some(25),
        },
        ProcessEntry {
            pid: 20,
            parent_pid: 1,
            name: "unrelated".into(),
            memory_bytes: Some(200),
        },
    ];
    let tree = build_process_tree(10, entries);
    assert_eq!(
        tree.iter()
            .map(|process| (process.pid, process.depth))
            .collect::<Vec<_>>(),
        vec![(10, 0), (11, 1), (12, 2)]
    );
}

#[test]
fn process_tree_can_include_reparented_group_members() {
    let entries = vec![
        ProcessEntry {
            pid: 10,
            parent_pid: 1,
            name: "root".into(),
            memory_bytes: Some(100),
        },
        ProcessEntry {
            pid: 11,
            parent_pid: 10,
            name: "child".into(),
            memory_bytes: Some(50),
        },
        ProcessEntry {
            pid: 12,
            parent_pid: 1,
            name: "reparented".into(),
            memory_bytes: Some(25),
        },
        ProcessEntry {
            pid: 20,
            parent_pid: 1,
            name: "unrelated".into(),
            memory_bytes: Some(200),
        },
    ];
    let tree = build_process_tree_with_members(10, entries, HashSet::from([10, 11, 12]));
    assert_eq!(
        tree.iter()
            .map(|process| (process.pid, process.depth))
            .collect::<Vec<_>>(),
        vec![(10, 0), (11, 1), (12, 1)]
    );
}

fn shape(tree: &[ProcessInfo]) -> Vec<(u32, usize)> {
    tree.iter().map(|info| (info.pid, info.depth)).collect()
}

#[test]
fn cycles_are_shown_once() {
    let entries = vec![
        entry(10, 11, "a", None),
        entry(11, 10, "b", None),
        entry(12, 12, "c", None),
    ];
    assert_eq!(shape(&build_process_tree(10, entries)), vec![(10, 0), (11, 1)]);
    let entries = vec![
        entry(10, 1, "a", None),
        entry(20, 21, "b", None),
        entry(21, 20, "c", None),
    ];
    let tree = build_process_tree_with_members(10, entries, HashSet::from([20, 21, 99]));
    assert_eq!(shape(&tree), vec![(10, 0), (20, 1), (21, 2)]);
}

#[test]
fn children_are_in_order_and_the_last_listing_counts() {
    let entries = vec![
        entry(10, 1, "old", None),
        entry(13, 10, "c", None),
        entry(11, 10, "b", None),
        entry(10, 2, "new", Some(5)),
    ];
    let tree = build_process_tree(10, entries);
    assert_eq!(shape(&tree), vec![(10, 0), (11, 1), (13, 1)]);
    assert_eq!(tree[0].name, "new");
    assert_eq!(tree[0].parent_pid, 2);
    assert_eq!(tree[0].memory_bytes, Some(5));
}

#[test]
fn a_root_that_is_gone_shows_nothing() {
    assert!(build_process_tree(10, vec![entry(11, 10, "b", None)]).is_empty());
}

#[test]
fn memory_is_added_up() {
    let entries = vec![entry(1, 0, "a", Some(5)), entry(2, 1, "b", None), entry(3, 1, "c", Some(7))];
    let tree = build_process_tree(1, entries);
    assert_eq!(total_memory(&tree), Some(12));
    assert_eq!(process_tree_memory_usage(&tree), Some(12));
    let unknown = build_process_tree(2, vec![entry(2, 1, "b", None)]);
    assert_eq!(total_memory(&unknown), Some(0));
    assert_eq!(process_tree_memory_usage(&unknown), None);
    let entries = vec![entry(1, 0, "a", Some(u64::MAX)), entry(2, 1, "b", Some(1))];
    let large = build_process_tree(1, entries);
    assert_eq!(total_memory(&large), None);
    assert_eq!(process_tree_memory_usage(&large), Some(u64::MAX));
}
