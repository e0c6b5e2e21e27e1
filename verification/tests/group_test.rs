use lsoff_rs::group::{FoldState, flatten_groups};
use lsoff_rs::model::{Entry, Proto, SortKey};
use std::collections::HashMap;

#[test]
fn test_flatten_groups_collapses_same_pid() {
    let entries = vec![
        Entry {
            proto: Proto::Tcp,
            port: 80,
            addr: "0.0.0.0".to_string(),
            pid: 1,
            name: "nginx".to_string(),
            path: "/bin/nginx".to_string(),
            cmdline: "nginx".to_string(),
            cwd: "/".to_string(),
            project: String::new(),
            start: 0,
        },
        Entry {
            proto: Proto::Tcp,
            port: 443,
            addr: "0.0.0.0".to_string(),
            pid: 1,
            name: "nginx".to_string(),
            path: "/bin/nginx".to_string(),
            cmdline: "nginx".to_string(),
            cwd: "/".to_string(),
            project: String::new(),
            start: 0,
        },
        Entry {
            proto: Proto::Tcp,
            port: 8080,
            addr: "127.0.0.1".to_string(),
            pid: 2,
            name: "node".to_string(),
            path: "/bin/node".to_string(),
            cmdline: "node".to_string(),
            cwd: "/app".to_string(),
            project: "app".to_string(),
            start: 0,
        },
    ];

    let mut exp_map = HashMap::new();
    let rows = flatten_groups(&entries, SortKey::Port, false, &exp_map);

    assert_eq!(rows.len(), 2);
    assert_eq!(rows[0].entry.pid, 1);
    assert_eq!(rows[0].fold, FoldState::Collapsed);
    assert_eq!(rows[0].hidden, 1);
    assert_eq!(rows[1].entry.pid, 2);
    assert_eq!(rows[1].fold, FoldState::Leaf);
    assert_eq!(rows[1].hidden, 0);

    // Expand PID 1
    exp_map.insert(1, true);
    let rows = flatten_groups(&entries, SortKey::Port, false, &exp_map);
    assert_eq!(rows.len(), 3);

    let has_exp = rows
        .iter()
        .any(|r| r.entry.pid == 1 && r.fold == FoldState::Expanded);
    let has_child = rows
        .iter()
        .any(|r| r.entry.pid == 1 && r.fold == FoldState::Child);
    let has_leaf = rows
        .iter()
        .any(|r| r.entry.pid == 2 && r.fold == FoldState::Leaf);

    assert!(has_exp);
    assert!(has_child);
    assert!(has_leaf);
}

fn e(port: u16, pid: i32) -> Entry {
    Entry {
        proto: Proto::Tcp,
        port,
        addr: "0.0.0.0".to_string(),
        pid,
        name: format!("p{pid}"),
        path: String::new(),
        cmdline: String::new(),
        cwd: String::new(),
        project: String::new(),
        start: 0,
    }
}

#[test]
fn expanded_group_lists_children_in_order() {
    let entries = vec![e(9000, 3), e(22, 3), e(500, 3), e(100, 0)];
    let mut exp = HashMap::new();
    exp.insert(3, true);
    let rows = flatten_groups(&entries, SortKey::Port, false, &exp);
    let got: Vec<(u16, FoldState)> = rows.iter().map(|r| (r.entry.port, r.fold)).collect();
    assert_eq!(
        got,
        vec![
            (22, FoldState::Expanded),
            (500, FoldState::Child),
            (9000, FoldState::Child),
            (100, FoldState::Leaf),
        ]
    );
    assert_eq!(rows[0].id(), "p/3");
    assert_eq!(rows[1].id(), "tcp:500:0.0.0.0:3");
    assert_eq!(rows[3].id(), "tcp:100:0.0.0.0:0");
    assert_eq!(rows[0].mark(), "\u{25be}");
    assert_eq!(rows[1].mark(), " ");
}

#[test]
fn descending_order_reverses_groups() {
    let entries = vec![e(80, 1), e(443, 2), e(22, 0)];
    let rows = flatten_groups(&entries, SortKey::Port, true, &HashMap::new());
    let ports: Vec<u16> = rows.iter().map(|r| r.entry.port).collect();
    assert_eq!(ports, vec![443, 80, 22]);
    assert!(flatten_groups(&[], SortKey::Port, false, &HashMap::new()).is_empty());
}

#[test]
fn collapsed_group_counts_hidden() {
    let entries = vec![e(1, 7), e(2, 7), e(3, 7)];
    let rows = flatten_groups(&entries, SortKey::Pid, false, &HashMap::new());
    assert_eq!(rows.len(), 1);
    assert_eq!(rows[0].hidden, 2);
    assert_eq!(rows[0].mark(), "\u{25b8}");
}
