use lsoff_rs::format::{format_table, json_service};
use lsoff_rs::model::{endpoint, normalize_addr, project_name, short_cwd, Entry, Proto};
use lsoff_rs::sort::sort_entries;

#[test]
fn test_endpoint() {
    assert_eq!(endpoint("127.0.0.1", 80), "127.0.0.1:80");
    assert_eq!(endpoint("::", 8080), "[::]:8080");
    assert_eq!(endpoint("::1", 3000), "[::1]:3000");
}

#[test]
fn test_normalize_addr() {
    assert_eq!(normalize_addr(""), "*");
    assert_eq!(normalize_addr("0.0.0.0"), "0.0.0.0");
    assert_eq!(normalize_addr("::"), "::");
    assert_eq!(normalize_addr("::ffff:127.0.0.1"), "127.0.0.1");
}

#[test]
fn test_project_name() {
    assert_eq!(project_name("/Users/alex/projects/lsoff", None), "lsoff");
    assert_eq!(project_name("/", None), "");
}

#[test]
fn test_sort_and_format_table() {
    let mut entries = vec![
        Entry {
            proto: Proto::Tcp,
            port: 8080,
            addr: "127.0.0.1".to_string(),
            pid: 200,
            name: "node".to_string(),
            path: "/bin/node".to_string(),
            cmdline: "node app.js".to_string(),
            cwd: "/app".to_string(),
            project: "app".to_string(),
            start: 0,
        },
        Entry {
            proto: Proto::Tcp,
            port: 80,
            addr: "0.0.0.0".to_string(),
            pid: 100,
            name: "nginx".to_string(),
            path: "/bin/nginx".to_string(),
            cmdline: "nginx -g".to_string(),
            cwd: "/".to_string(),
            project: String::new(),
            start: 0,
        },
    ];

    sort_entries(&mut entries);
    assert_eq!(entries[0].port, 80);
    assert_eq!(entries[1].port, 8080);

    let s = format_table(&entries, None);
    assert!(s.contains("PROTO"));
    assert!(s.contains("nginx"));
    assert!(s.contains("node"));
}


fn entry(port: u16, addr: &str, pid: i32, name: &str, cwd: &str) -> Entry {
    Entry {
        proto: Proto::Tcp,
        port,
        addr: addr.to_string(),
        pid,
        name: name.to_string(),
        path: String::new(),
        cmdline: String::new(),
        cwd: cwd.to_string(),
        project: String::new(),
        start: 0,
    }
}

#[test]
fn table_layout_is_exact() {
    let entries = vec![entry(80, "0.0.0.0", 1, "nginx", "/")];
    let s = format_table(&entries, None);
    assert_eq!(
        s,
        "PROTO  PORT  ADDRESS  PID  PROJECT  PROCESS  PATH  CMD  CWD\n\
         tcp    80    0.0.0.0  1    -        nginx    -     -    /\n"
    );
}

#[test]
fn table_widths_follow_the_longest_cell() {
    let entries = vec![entry(8080, "127.0.0.1", 0, "a-very-long-name", "")];
    let s = format_table(&entries, None);
    let lines: Vec<&str> = s.lines().collect();
    assert_eq!(lines.len(), 2);
    assert!(lines[0].starts_with("PROTO  PORT  ADDRESS    PID  PROJECT  PROCESS           PATH"));
    assert!(lines[1].starts_with("tcp    8080  127.0.0.1  -    -        a-very-long-name  -"));
}

#[test]
fn empty_table_has_only_titles() {
    assert_eq!(
        format_table(&[], None),
        "PROTO  PORT  ADDRESS  PID  PROJECT  PROCESS  PATH  CMD  CWD\n"
    );
}

#[test]
fn short_cwd_relative_to_home() {
    assert_eq!(short_cwd("/home/u/work", Some("/home/u")), "~/work");
    assert_eq!(short_cwd("/home/u", Some("/home/u")), "~");
    assert_eq!(short_cwd("/home/user2", Some("/home/u")), "/home/user2");
    assert_eq!(short_cwd("", Some("/home/u")), "");
    assert_eq!(project_name("/home/u", Some("/home/u")), "");
    assert_eq!(project_name("/home/u/proj/", Some("/home/u")), "proj");
}

#[test]
fn json_service_field() {
    assert_eq!(json_service(Proto::Tcp, 80), Some("http"));
    assert_eq!(json_service(Proto::Tcp, 9999), None);
}

#[test]
fn normalize_addr_more() {
    assert_eq!(normalize_addr("  fe80:0:0:0:0:0:0:1%eth0 "), "fe80::1%eth0");
    assert_eq!(normalize_addr("0:0:0:0:0:0:0:0"), "::");
    assert_eq!(normalize_addr("localhost"), "localhost");
    assert_eq!(normalize_addr("::ffff:10.1.2.3%eth0"), "10.1.2.3");
    assert_eq!(endpoint("*", 53), "*:53");
}
