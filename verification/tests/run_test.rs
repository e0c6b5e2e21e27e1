use lsoff_rs::cli::parse_args;
use lsoff_rs::filter::{unique_idents, unique_pids};
use lsoff_rs::model::{Entry, Ident, Proto, SortKey};
use lsoff_rs::services::search_terms;
use lsoff_rs::sort::sort_entries_by;
use lsoff_rs::{kill_targets, listing_error, run_mode, select_entries, RunMode};

fn entry(proto: Proto, port: u16, pid: i32, name: &str, start: u64) -> Entry {
    Entry {
        proto,
        port,
        addr: "0.0.0.0".to_string(),
        pid,
        name: name.to_string(),
        path: String::new(),
        cmdline: String::new(),
        cwd: String::new(),
        project: String::new(),
        start,
    }
}

#[test]
fn modes_of_command_lines() {
    let cfg = |args: &[&str]| parse_args(args).unwrap();
    assert_eq!(run_mode(&cfg(&["-h"]), true), RunMode::Help);
    assert_eq!(run_mode(&cfg(&["--version"]), true), RunMode::Version);
    assert_eq!(run_mode(&cfg(&[]), true), RunMode::Interactive);
    assert_eq!(run_mode(&cfg(&["nginx"]), true), RunMode::Interactive);
    assert_eq!(run_mode(&cfg(&[]), false), RunMode::Batch);
    assert_eq!(run_mode(&cfg(&["8080"]), true), RunMode::Batch);
    assert_eq!(run_mode(&cfg(&["--json"]), true), RunMode::Batch);
    assert_eq!(run_mode(&cfg(&["-k", "8080"]), true), RunMode::Batch);
}

#[test]
fn selection_by_protocol_port_and_query() {
    let all = vec![
        entry(Proto::Tcp, 8080, 10, "web", 1),
        entry(Proto::Udp, 8080, 11, "dns", 1),
        entry(Proto::Tcp, 22, 12, "sshd", 1),
    ];
    let pick = |args: &[&str]| -> Vec<u16> {
        select_entries(&all, &parse_args(args).unwrap())
            .iter()
            .map(|e| e.port)
            .collect()
    };
    assert_eq!(pick(&[]), vec![8080, 8080, 22]);
    assert_eq!(pick(&["-t"]), vec![8080, 22]);
    assert_eq!(pick(&["8080"]), vec![8080, 8080]);
    assert_eq!(pick(&["-u", "8080"]), vec![8080]);
    assert_eq!(pick(&["sshd"]), vec![22]);
    assert_eq!(pick(&["-t", "dns"]), Vec::<u16>::new());
}

#[test]
fn empty_listings_and_kill_targets() {
    let cfg = parse_args(&["8080"]).unwrap();
    let e = listing_error(&cfg, 0).unwrap();
    assert_eq!(e.code, 1);
    assert_eq!(e.msg, "no listeners on port 8080");
    assert!(listing_error(&cfg, 2).is_none());
    assert!(listing_error(&parse_args(&[]).unwrap(), 0).is_none());

    let err = kill_targets(&[entry(Proto::Tcp, 80, 0, "", 0)]).unwrap_err();
    assert_eq!(err.code, 1);
    assert_eq!(err.msg, "no process ids to kill (try as root)");
    let ids = kill_targets(&[
        entry(Proto::Tcp, 80, 7, "a", 3),
        entry(Proto::Udp, 81, 7, "a", 3),
        entry(Proto::Tcp, 82, 9, "b", 4),
    ])
    .unwrap();
    assert_eq!(ids, vec![Ident { pid: 7, start: 3 }, Ident { pid: 9, start: 4 }]);
}

#[test]
fn descending_sort_reverses_ascending() {
    let all = vec![
        entry(Proto::Tcp, 8080, 10, "web", 1),
        entry(Proto::Udp, 8080, 11, "web", 1),
        entry(Proto::Tcp, 22, 12, "sshd", 1),
        entry(Proto::Tcp, 22, 13, "sshd", 1),
    ];
    for key in [SortKey::Port, SortKey::Name, SortKey::Proto, SortKey::Pid] {
        let mut asc = all.clone();
        let mut desc = all.clone();
        sort_entries_by(&mut asc, key, false);
        sort_entries_by(&mut desc, key, true);
        asc.reverse();
        assert_eq!(asc, desc);
    }
}

#[test]
fn idents_follow_unique_pids() {
    let all = vec![
        entry(Proto::Tcp, 1, 5, "a", 50),
        entry(Proto::Tcp, 2, 0, "b", 9),
        entry(Proto::Tcp, 3, 5, "a", 51),
        entry(Proto::Tcp, 4, 6, "c", 60),
    ];
    let ids = unique_idents(&all);
    let pids: Vec<i32> = ids.iter().map(|i| i.pid).collect();
    assert_eq!(pids, unique_pids(&all));
    assert_eq!(ids[0].start, 50);
    assert_eq!(ids[1].start, 60);
}

#[test]
fn search_aliases_are_lowercase() {
    for port in 0..=u16::MAX {
        for proto in [Proto::Tcp, Proto::Udp] {
            for a in search_terms(proto, port) {
                assert!(!a.is_empty());
                assert_eq!(*a, a.to_lowercase());
            }
        }
    }
}
