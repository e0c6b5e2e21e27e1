use lsoff_rs::kill::{
    check_kill_pid, is_esrch, kill_all, kill_next, require_ident, same_process, verify_start,
    KillAction, KillError, KillEvent, KillPhase,
};
use lsoff_rs::model::{Entry, Ident, Proto};
use lsoff_rs::sys::darwin::parse_procargs2;
use lsoff_rs::sys::dedup_and_sort;
use lsoff_rs::sys::ebpf::EbpfSocketEngine;
use lsoff_rs::sys::freebsd::{
    cwd_buffer_ok, parse_kinfo_socket, pids_from_procs, proc_cwd_from_buf, record_walk_ok,
    sockets_from_filedesc,
};
use lsoff_rs::sys::linux::{
    cmdline_from_bytes, ipv6_hex_ok, parse_ipv6_hex, parse_proc_net_line, proc_net_line_ok,
    process_name, socket_inode, start_token_from_stat, stat_ok,
};
use lsoff_rs::sys::other;
use lsoff_rs::sys::windows::{ipv4_of_row, make_entry, port_of_row, row_socket, ProcInfo, TableRow};

#[test]
fn proc_net_tcp_line() {
    let line = "   0: 0100007F:1F90 00000000:0000 0A 00000000:00000000 00:00000000 00000000  1000        0 12345 1 0000000000000000 100 0 0 10 0";
    let (port, addr, inode, listening) = parse_proc_net_line(line, Proto::Tcp, true, true).unwrap();
    assert_eq!(port, 8080);
    assert_eq!(addr, "127.0.0.1");
    assert_eq!(inode, 12345);
    assert!(listening);
    let established = line.replace(" 0A ", " 01 ");
    assert!(!parse_proc_net_line(&established, Proto::Tcp, true, true).unwrap().3);
    assert!(parse_proc_net_line("  sl  local_address", Proto::Tcp, true, true).is_none());
    let zero_port = line.replace(":1F90", ":0000");
    assert!(parse_proc_net_line(&zero_port, Proto::Tcp, true, true).is_none());
}

#[test]
fn proc_net_udp6_line() {
    let line = "  0: 00000000000000000000000000000000:14E9 00000000000000000000000000000000:0000 07 00000000:00000000 00:00000000 00000000   110        0 777 2 0000000000000000 0";
    let (port, addr, inode, listening) = parse_proc_net_line(line, Proto::Udp, false, true).unwrap();
    assert_eq!(port, 5353);
    assert_eq!(addr, "::");
    assert_eq!(inode, 777);
    assert!(listening);
}

#[test]
fn ipv6_hex_words() {
    assert_eq!(parse_ipv6_hex("00000000000000000000000001000000", true).unwrap(), "::1");
    assert_eq!(parse_ipv6_hex("0000000000000000FFFF00000100007F", true).unwrap(), "::ffff:127.0.0.1");
    assert_eq!(parse_ipv6_hex("000080FE00000000FF005A5A3412FEFE", true).unwrap(), "fe80::5a5a:ff:fefe:1234");
    assert!(parse_ipv6_hex("0000", true).is_none());
    assert!(parse_ipv6_hex("0000000000000000000000000100000G", true).is_none());
}

#[test]
fn stat_start_tokens() {
    let stat = "1234 (my (odd) prog) S 1 1234 1234 0 -1 4194560 100 0 0 0 1 2 0 0 20 0 1 0 987654 1000 10";
    assert_eq!(start_token_from_stat(stat).unwrap(), 987654);
    assert!(matches!(start_token_from_stat("1234 (x) S 1 2"), Err(KillError::MissingIdentity)));
    assert!(matches!(start_token_from_stat("no paren"), Err(KillError::MissingIdentity)));
    let zero = "1 (x) S 1 1 1 0 -1 0 0 0 0 0 0 0 0 0 20 0 1 0 0 0 0";
    assert!(matches!(start_token_from_stat(zero), Err(KillError::MissingIdentity)));
}

#[test]
fn socket_links_and_cmdlines() {
    assert_eq!(socket_inode("socket:[4242]"), Some(4242));
    assert_eq!(socket_inode("pipe:[4242]"), None);
    assert_eq!(socket_inode("socket:[]"), None);
    assert_eq!(cmdline_from_bytes(b"node\0server.js\0\0--port\0"), "node server.js --port");
    assert_eq!(cmdline_from_bytes(b""), "");
    assert_eq!(cmdline_from_bytes(b"a\xffb\0c"), "a\u{fffd}b c");
    assert_eq!(process_name("/usr/bin/node", Some("ignored")), "node");
    assert_eq!(process_name("", Some(" comm\n")), "comm");
    assert_eq!(process_name("", None), "");
}

#[test]
fn procargs2_buffer() {
    let mut buf = vec![2u8, 0, 0, 0];
    buf.extend_from_slice(b"/usr/bin/node\0\0\0\0node\0app.js\0PATH=/bin\0");
    assert_eq!(parse_procargs2(&buf, true), "node app.js");
    assert_eq!(parse_procargs2(&[0, 0, 0, 0], true), "");
    assert_eq!(parse_procargs2(&[1, 0], true), "");
    let mut unterminated = vec![1u8, 0, 0, 0];
    unterminated.extend_from_slice(b"/bin/x\0 tail ");
    assert_eq!(parse_procargs2(&unterminated, true), "tail");
}

#[test]
fn kinfo_socket_record() {
    let mut buf = vec![0u8; 320];
    buf[40] = 6; // IPPROTO_TCP
    buf[48] = 16; // sockaddr_in length
    buf[49] = 2; // AF_INET
    buf[50] = 0x1f;
    buf[51] = 0x90; // port 8080
    buf[52..56].copy_from_slice(&[127, 0, 0, 1]);
    buf[304] = 1; // TCPS_LISTEN
    assert_eq!(parse_kinfo_socket(&buf, true), Some((Proto::Tcp, 8080, "127.0.0.1".to_string())));
    buf[304] = 4;
    assert_eq!(parse_kinfo_socket(&buf, true), None);
    assert_eq!(parse_kinfo_socket(&[0u8; 10], true), None);
}

#[test]
fn kill_checks() {
    assert!(matches!(check_kill_pid(0, 500), Err(KillError::InvalidPid(0))));
    assert!(matches!(check_kill_pid(1, 500), Err(KillError::RefusePid1)));
    assert!(matches!(check_kill_pid(500, 500), Err(KillError::RefuseSelf)));
    assert!(check_kill_pid(42, 500).is_ok());
    assert!(matches!(require_ident(Ident { pid: 42, start: 0 }, 500), Err(KillError::MissingIdentity)));
    assert!(require_ident(Ident { pid: 42, start: 9 }, 500).is_ok());
    assert!(matches!(verify_start(Ident { pid: 42, start: 9 }, Ok(10)), Err(KillError::IdentityMismatch)));
    assert!(verify_start(Ident { pid: 42, start: 9 }, Ok(9)).is_ok());
    assert!(is_esrch(&KillError::System("No such process (os error 3)".to_string())));
    assert!(!is_esrch(&KillError::RefuseSelf));
    assert_eq!(KillError::InvalidPid(-3).message(), "invalid pid -3");
}

#[test]
fn kill_all_joins_failures() {
    let ids = [Ident { pid: 10, start: 1 }, Ident { pid: 11, start: 2 }, Ident { pid: 12, start: 3 }];
    assert!(kill_all(&ids, &[Ok(()), Ok(()), Ok(())]).is_ok());
    let r = kill_all(
        &ids,
        &[Err(KillError::RefusePid1), Ok(()), Err(KillError::System("boom".to_string()))],
    );
    assert_eq!(r.unwrap_err(), "pid 10: refusing to kill pid 1\npid 12: boom");
}

fn e(port: u16, addr: &str, pid: i32, name: &str) -> Entry {
    Entry {
        proto: Proto::Tcp,
        port,
        addr: addr.to_string(),
        pid,
        name: name.to_string(),
        path: String::new(),
        cmdline: String::new(),
        cwd: String::new(),
        project: String::new(),
        start: 0,
    }
}

#[test]
fn dedup_keeps_first_and_sorts() {
    let got = dedup_and_sort(vec![
        e(8080, "::", 5, "first"),
        e(80, "0.0.0.0", 1, "web"),
        e(8080, "::", 5, "second"),
        e(8080, "::", 6, "other"),
    ]);
    let names: Vec<&str> = got.iter().map(|x| x.name.as_str()).collect();
    assert_eq!(names, vec!["web", "first", "other"]);
}

#[test]
fn windows_rows() {
    let info = ProcInfo {
        name: "svc.exe".to_string(),
        path: "C:\\svc.exe".to_string(),
        cmdline: String::new(),
        cwd: "/srv/app".to_string(),
        start: 5,
    };
    let entry = make_entry(Proto::Udp, "::ffff:10.0.0.1", 53, 4, info, None);
    assert_eq!(entry.addr, "10.0.0.1");
    assert_eq!(entry.pid, 4);
    assert_eq!(entry.project, "app");
    assert_eq!(port_of_row(0x5000, true), 80);
    assert_eq!(ipv4_of_row(0x0100007f, true), 0x7f000001);
    assert_eq!(ProcInfo::default().start, 0);
}

#[test]
fn fallbacks_and_tracer() {
    assert!(other::list_listeners().unwrap().is_empty());
    assert!(matches!(other::proc_start_token(1), Err(KillError::System(_))));
    assert!(matches!(other::kill_process(Ident { pid: 2, start: 1 }), Err(KillError::System(_))));
    let mut engine = EbpfSocketEngine::new();
    assert!(!engine.is_active());
    let refused = "eBPF requires elevated kernel permissions (CAP_BPF / root)".to_string();
    assert_eq!(engine.try_attach(Err(refused.clone())), Err(refused));
    assert!(!engine.is_active());
    assert_eq!(engine.try_attach(Ok(())), Ok(()));
    assert!(engine.is_active());
    assert!(engine.drain_events().is_empty());
    assert!(!EbpfSocketEngine::default().is_active());
}

fn le32(buf: &mut [u8], at: usize, v: i32) {
    buf[at..at + 4].copy_from_slice(&v.to_le_bytes());
}

#[test]
fn proc_records_pids() {
    let mut buf = vec![0u8; 3 * 80];
    for (k, pid) in [(0usize, 10), (1, -3), (2, 7)] {
        le32(&mut buf, k * 80, 80);
        le32(&mut buf, k * 80 + 72, pid);
    }
    assert!(record_walk_ok(&buf, 76, true));
    assert_eq!(pids_from_procs(&buf, true, 7), vec![10, 7]);
    assert_eq!(pids_from_procs(&buf, true, 99), vec![10, 7, 99]);
    // A record size of zero ends the walk.
    le32(&mut buf, 80, 0);
    assert_eq!(pids_from_procs(&buf, true, 10), vec![10]);
    // A negative size after the first record would overflow the offset.
    le32(&mut buf, 80, -1);
    assert!(!record_walk_ok(&buf, 76, true));
    assert_eq!(pids_from_procs(&[], true, 5), vec![5]);
}

fn socket_record(size: usize) -> Vec<u8> {
    let mut rec = vec![0u8; size];
    le32(&mut rec, 0, size as i32);
    le32(&mut rec, 4, 2); // socket
    rec[40] = 17; // IPPROTO_UDP
    rec[48] = 16;
    rec[49] = 2;
    rec[50] = 0x00;
    rec[51] = 0x35; // port 53
    rec[52..56].copy_from_slice(&[0, 0, 0, 0]);
    rec
}

#[test]
fn filedesc_sockets_and_cwd() {
    let mut cwd = vec![0u8; 48];
    le32(&mut cwd, 0, 48);
    le32(&mut cwd, 8, -1); // the working directory
    cwd[32..41].copy_from_slice(b"/srv/app\0");
    let mut buf = cwd.clone();
    buf.extend(socket_record(64));
    let mut other = socket_record(64);
    le32(&mut other, 4, 1); // a vnode, not a socket
    buf.extend(other);
    assert!(record_walk_ok(&buf, 4, true));
    assert_eq!(
        sockets_from_filedesc(&buf, true),
        vec![(Proto::Udp, 53, "0.0.0.0".to_string())]
    );
    assert!(cwd_buffer_ok(&buf, true));
    assert_eq!(proc_cwd_from_buf(&buf, true), "/srv/app");
    // Without a NUL the path is not taken.
    let mut no_nul = buf.clone();
    for b in &mut no_nul[32..48] {
        *b = b'x';
    }
    assert_eq!(proc_cwd_from_buf(&no_nul, true), "");
    // A working-directory record shorter than 32 bytes cannot hold a path.
    let mut short = vec![0u8; 16];
    le32(&mut short, 0, 16);
    le32(&mut short, 8, -1);
    assert!(!cwd_buffer_ok(&short, true));
}

#[test]
fn windows_table_rows() {
    let tcp = TableRow::Tcp4 { state: 2, addr: 0x0100007f, port: 0x901f, pid: 12 };
    assert_eq!(row_socket(&tcp, true), Some((Proto::Tcp, 8080, "127.0.0.1".to_string(), 12)));
    let closed = TableRow::Tcp4 { state: 5, addr: 0x0100007f, port: 0x901f, pid: 12 };
    assert_eq!(row_socket(&closed, true), None);
    let mut v6 = [0u8; 16];
    v6[15] = 1;
    let udp6 = TableRow::Udp6 { addr6: v6, port: 0x3500, pid: 0 };
    assert_eq!(row_socket(&udp6, true), Some((Proto::Udp, 53, "::1".to_string(), 0)));
    let unbound = TableRow::Udp4 { addr: 0, port: 0, pid: 1 };
    assert_eq!(row_socket(&unbound, true), None);
    let tcp6 = TableRow::Tcp6 { state: 2, addr6: [0; 16], port: 0x1600, pid: 9 };
    assert_eq!(row_socket(&tcp6, true), Some((Proto::Tcp, 22, "::".to_string(), 9)));
}

/// Drives the kill sequence with scripted reports; returns the actions.
fn drive(id: Ident, reports: Vec<KillEvent>) -> (Vec<&'static str>, Option<Result<(), KillError>>) {
    let mut phase = KillPhase::Start;
    let mut names = Vec::new();
    let mut events = vec![KillEvent::Begin];
    events.extend(reports);
    for event in events {
        let (next, action) = kill_next(id, 999_999, phase, event);
        phase = next;
        names.push(match action {
            KillAction::ReadToken => "read",
            KillAction::SendTerm => "term",
            KillAction::PollToken => "poll",
            KillAction::Sleep => "sleep",
            KillAction::SendKill => "kill",
            KillAction::Nothing => "nothing",
            KillAction::Finish(r) => return (names, Some(r)),
        });
    }
    (names, None)
}

#[test]
fn kill_sequence_steps() {
    let id = Ident { pid: 4242, start: 7 };
    // Gone during the grace period.
    let (steps, end) = drive(
        id,
        vec![
            KillEvent::Token(Ok(7)),
            KillEvent::Signalled(Ok(())),
            KillEvent::Polled(Some(Ok(7))),
            KillEvent::Slept,
            KillEvent::Polled(Some(Err(KillError::System("gone".to_string())))),
        ],
    );
    assert_eq!(steps, vec!["read", "term", "poll", "sleep", "poll"]);
    assert!(matches!(end, Some(Ok(()))));
    // Still there after two seconds: checked again, then SIGKILL.
    let (steps, end) = drive(
        id,
        vec![
            KillEvent::Token(Ok(7)),
            KillEvent::Signalled(Ok(())),
            KillEvent::Polled(None),
            KillEvent::Token(Ok(7)),
            KillEvent::Signalled(Ok(())),
        ],
    );
    assert_eq!(steps, vec!["read", "term", "poll", "read", "kill"]);
    assert!(matches!(end, Some(Ok(()))));
    // A reused pid is never signalled.
    let (steps, end) = drive(id, vec![KillEvent::Token(Ok(8))]);
    assert_eq!(steps, vec!["read"]);
    assert!(matches!(end, Some(Err(KillError::IdentityMismatch))));
    // A process already gone at SIGTERM counts as killed.
    let (_, end) = drive(
        id,
        vec![
            KillEvent::Token(Ok(7)),
            KillEvent::Signalled(Err(KillError::System("No such process (os error 3)".to_string()))),
        ],
    );
    assert!(matches!(end, Some(Ok(()))));
    // Refusals come before anything is read.
    let (steps, end) = drive(Ident { pid: 1, start: 7 }, vec![]);
    assert!(steps.is_empty());
    assert!(matches!(end, Some(Err(KillError::RefusePid1))));
    let (_, end) = drive(Ident { pid: 5, start: 0 }, vec![]);
    assert!(matches!(end, Some(Err(KillError::MissingIdentity))));
    // An event that is not awaited asks for nothing.
    let (next, action) = kill_next(id, 1, KillPhase::Sleeping, KillEvent::Begin);
    assert_eq!(next, KillPhase::Sleeping);
    assert!(matches!(action, KillAction::Nothing));
    assert!(same_process(id, Ok(7)).is_ok());
    assert!(matches!(same_process(id, Ok(6)), Err(KillError::IdentityMismatch)));
    assert!(matches!(same_process(id, Err(KillError::RefuseSelf)), Err(KillError::IdentityMismatch)));
}

#[test]
fn guards_before_parsing() {
    assert!(ipv6_hex_ok("00000000000000000000000001000000"));
    assert!(ipv6_hex_ok("short"));
    // 32 bytes, but a two-byte character straddles byte 8.
    assert!(!ipv6_hex_ok("0000000\u{e9}00000000000000000000000"));
    let line = "   0: 00000000000000000000000001000000:0016 00000000000000000000000000000000:0000 0A 00000000:00000000 00:00000000 00000000     0        0 999 1";
    assert!(proc_net_line_ok(line, false));
    let bad = line.replace("0000000000000000000000000100", "0000000\u{e9}0000000000000000000");
    assert!(!proc_net_line_ok(&bad, false));
    assert!(proc_net_line_ok(&bad, true));
    assert!(stat_ok("12 (bash) S 1 2"));
    assert!(!stat_ok("12 (bash)"));
    assert!(!stat_ok("12 (bash)\u{e9}S"));
    assert!(stat_ok("no parenthesis"));
}
