use lsoff_rs::filter::{filter_port, filter_proto, filter_query, unique_idents, unique_pids};
use lsoff_rs::model::{parse_clean_ip, Cidr, Entry, Ident, Proto};

#[test]
fn test_cidr_matching() {
    let ip = |s: &str| parse_clean_ip(s).unwrap();
    let cidr_v4 = Cidr::parse("127.0.0.0/8").unwrap();
    assert!(cidr_v4.contains(ip("127.0.0.1")));
    assert!(cidr_v4.contains(ip("127.255.255.254")));
    assert!(!cidr_v4.contains(ip("192.168.1.1")));

    let cidr_v6 = Cidr::parse("fe80::/10").unwrap();
    assert!(cidr_v6.contains(ip("fe80::1")));
    assert!(cidr_v6.contains(ip("febf::ffff")));
    assert!(!cidr_v6.contains(ip("2001:db8::1")));

    let cidr_single = Cidr::parse("::1/128").unwrap();
    assert!(cidr_single.contains(ip("::1")));
    assert!(!cidr_single.contains(ip("::2")));
}

#[test]
fn test_filter_query_cidr() {
    let entries = vec![
        Entry {
            proto: Proto::Tcp,
            port: 8080,
            addr: "127.0.0.1".to_string(),
            pid: 100,
            name: "web".to_string(),
            path: String::new(),
            cmdline: String::new(),
            cwd: String::new(),
            project: String::new(),
            start: 0,
        },
        Entry {
            proto: Proto::Tcp,
            port: 9000,
            addr: "192.168.1.50".to_string(),
            pid: 101,
            name: "api".to_string(),
            path: String::new(),
            cmdline: String::new(),
            cwd: String::new(),
            project: String::new(),
            start: 0,
        },
        Entry {
            proto: Proto::Udp,
            port: 5353,
            addr: "fe80::1%en0".to_string(),
            pid: 102,
            name: "mdns".to_string(),
            path: String::new(),
            cmdline: String::new(),
            cwd: String::new(),
            project: String::new(),
            start: 0,
        },
    ];

    let v4_match = filter_query(&entries, "127.0.0.0/8");
    assert_eq!(v4_match.len(), 1);
    assert_eq!(v4_match[0].name, "web");

    let v6_match = filter_query(&entries, "fe80::/10");
    assert_eq!(v6_match.len(), 1);
    assert_eq!(v6_match[0].name, "mdns");

    let no_match = filter_query(&entries, "10.0.0.0/8");
    assert_eq!(no_match.len(), 0);
}

#[test]
fn test_filter_port() {
    let entries = vec![
        Entry {
            proto: Proto::Tcp,
            port: 80,
            addr: "0.0.0.0".to_string(),
            pid: 1,
            name: "nginx".to_string(),
            path: String::new(),
            cmdline: String::new(),
            cwd: String::new(),
            project: String::new(),
            start: 0,
        },
        Entry {
            proto: Proto::Tcp,
            port: 443,
            addr: "0.0.0.0".to_string(),
            pid: 1,
            name: "nginx".to_string(),
            path: String::new(),
            cmdline: String::new(),
            cwd: String::new(),
            project: String::new(),
            start: 0,
        },
        Entry {
            proto: Proto::Udp,
            port: 80,
            addr: "127.0.0.1".to_string(),
            pid: 2,
            name: "app".to_string(),
            path: String::new(),
            cmdline: String::new(),
            cwd: String::new(),
            project: String::new(),
            start: 0,
        },
    ];

    let got = filter_port(&entries, 80);
    assert_eq!(got.len(), 2);
}

#[test]
fn test_filter_proto() {
    let entries = vec![
        Entry {
            proto: Proto::Tcp,
            port: 80,
            addr: String::new(),
            pid: 0,
            name: String::new(),
            path: String::new(),
            cmdline: String::new(),
            cwd: String::new(),
            project: String::new(),
            start: 0,
        },
        Entry {
            proto: Proto::Udp,
            port: 53,
            addr: String::new(),
            pid: 0,
            name: String::new(),
            path: String::new(),
            cmdline: String::new(),
            cwd: String::new(),
            project: String::new(),
            start: 0,
        },
        Entry {
            proto: Proto::Tcp,
            port: 443,
            addr: String::new(),
            pid: 0,
            name: String::new(),
            path: String::new(),
            cmdline: String::new(),
            cwd: String::new(),
            project: String::new(),
            start: 0,
        },
    ];

    let tcp = filter_proto(&entries, true, false);
    assert_eq!(tcp.len(), 2);
    assert_eq!(tcp[0].proto, Proto::Tcp);
    assert_eq!(tcp[1].proto, Proto::Tcp);

    let udp = filter_proto(&entries, false, true);
    assert_eq!(udp.len(), 1);
    assert_eq!(udp[0].proto, Proto::Udp);

    let all = filter_proto(&entries, false, false);
    assert_eq!(all.len(), 3);
}

#[test]
fn test_unique_pids() {
    let entries = vec![
        Entry {
            proto: Proto::Tcp,
            port: 80,
            addr: String::new(),
            pid: 10,
            name: String::new(),
            path: String::new(),
            cmdline: String::new(),
            cwd: String::new(),
            project: String::new(),
            start: 0,
        },
        Entry {
            proto: Proto::Tcp,
            port: 81,
            addr: String::new(),
            pid: 0,
            name: String::new(),
            path: String::new(),
            cmdline: String::new(),
            cwd: String::new(),
            project: String::new(),
            start: 0,
        },
        Entry {
            proto: Proto::Tcp,
            port: 82,
            addr: String::new(),
            pid: 10,
            name: String::new(),
            path: String::new(),
            cmdline: String::new(),
            cwd: String::new(),
            project: String::new(),
            start: 0,
        },
        Entry {
            proto: Proto::Tcp,
            port: 83,
            addr: String::new(),
            pid: 11,
            name: String::new(),
            path: String::new(),
            cmdline: String::new(),
            cwd: String::new(),
            project: String::new(),
            start: 0,
        },
    ];

    let pids = unique_pids(&entries);
    assert_eq!(pids, vec![10, 11]);
}

#[test]
fn test_filter_query() {
    let mut entries = vec![
        Entry {
            proto: Proto::Tcp,
            port: 8080,
            addr: "127.0.0.1".to_string(),
            pid: 99,
            name: "node".to_string(),
            path: "/usr/bin/node".to_string(),
            cmdline: String::new(),
            cwd: String::new(),
            project: String::new(),
            start: 0,
        },
        Entry {
            proto: Proto::Udp,
            port: 53,
            addr: "::".to_string(),
            pid: 12,
            name: "named".to_string(),
            path: "/usr/sbin/named".to_string(),
            cmdline: String::new(),
            cwd: String::new(),
            project: String::new(),
            start: 0,
        },
    ];

    let got = filter_query(&entries, "8080");
    assert_eq!(got.len(), 1);
    assert_eq!(got[0].name, "node");

    let got = filter_query(&entries, "NAMED");
    assert_eq!(got.len(), 1);
    assert_eq!(got[0].port, 53);

    let got = filter_query(&entries, "node 8080");
    assert_eq!(got.len(), 1);
    assert_eq!(got[0].name, "node");

    let got = filter_query(&entries, "node named");
    assert_eq!(got.len(), 0);

    entries[0].cmdline = "/usr/bin/node server.js".to_string();
    let got = filter_query(&entries, "server.js");
    assert_eq!(got.len(), 1);
    assert_eq!(got[0].name, "node");

    entries[0].project = "lsoff".to_string();
    entries[0].cwd = "/Users/me/lsoff".to_string();
    let got = filter_query(&entries, "lsoff");
    assert_eq!(got.len(), 1);
    assert_eq!(got[0].name, "node");
}

fn entry(proto: Proto, port: u16, addr: &str, pid: i32, name: &str) -> Entry {
    Entry {
        proto,
        port,
        addr: addr.to_string(),
        pid,
        name: name.to_string(),
        path: String::new(),
        cmdline: String::new(),
        cwd: String::new(),
        project: String::new(),
        start: 0,
    }
}

#[test]
fn blank_query_keeps_everything() {
    let entries = vec![entry(Proto::Tcp, 80, "0.0.0.0", 1, "a"), entry(Proto::Udp, 53, "::", 2, "b")];
    assert_eq!(filter_query(&entries, "").len(), 2);
    assert_eq!(filter_query(&entries, "   ").len(), 2);
}

#[test]
fn query_terms_are_anded_and_lowercased() {
    let entries = vec![entry(Proto::Tcp, 8080, "127.0.0.1", 5, "Node"), entry(Proto::Tcp, 9090, "127.0.0.1", 6, "deno")];
    assert_eq!(filter_query(&entries, "NODE").len(), 1);
    assert_eq!(filter_query(&entries, "no 80").len(), 1);
    assert_eq!(filter_query(&entries, "no 90").len(), 1);
    assert_eq!(filter_query(&entries, "node 90").len(), 0);
    // pid substring
    assert_eq!(filter_query(&entries, "6").len(), 1);
}

#[test]
fn cidr_query_does_not_fall_back_to_text() {
    let entries = vec![entry(Proto::Tcp, 80, "10.1.2.3", 7, "x"), entry(Proto::Tcp, 81, "*", 8, "y")];
    assert_eq!(filter_query(&entries, "10.0.0.0/8").len(), 1);
    assert_eq!(filter_query(&entries, "11.0.0.0/8").len(), 0);
    // an IPv4-mapped address is matched as IPv4
    let mapped = vec![entry(Proto::Tcp, 80, "::ffff:10.1.2.3", 9, "z")];
    assert_eq!(filter_query(&mapped, "10.0.0.0/8").len(), 1);
}

#[test]
fn unique_idents_first_start_wins() {
    let mut a = entry(Proto::Tcp, 80, "", 10, "");
    a.start = 5;
    let mut b = entry(Proto::Tcp, 81, "", 10, "");
    b.start = 6;
    let c = entry(Proto::Tcp, 82, "", 0, "");
    let ids = unique_idents(&[a, b, c]);
    assert_eq!(ids, vec![Ident { pid: 10, start: 5 }]);
}
