//! Building listener entries from the rows of the Windows socket tables.
use vstd::prelude::*;
use crate::format::home_view;
use crate::model::{normalize_addr, normalized_addr, project_name, project_name_text, Entry, EntryView, Proto};
use crate::net::{ipv4_text, ipv6_text, push_ipv4, push_ipv6};
use crate::sys::freebsd::{be_value, read_be};
use crate::sys::linux::network_word;
use crate::text::string_of;

verus! {

/// What is known of a process: name, executable path, command line, working
/// directory and start token.
pub struct ProcInfo {
    pub name: String,
    pub path: String,
    pub cmdline: String,
    pub cwd: String,
    pub start: u64,
}

impl Default for ProcInfo {
    fn default() -> (r: Self)
        ensures
            r.name@.len() == 0 && r.path@.len() == 0 && r.cmdline@.len() == 0 && r.cwd@.len() == 0
                && r.start == 0,
    {
        ProcInfo {
            name: String::new(),
            path: String::new(),
            cmdline: String::new(),
            cwd: String::new(),
            start: 0,
        }
    }
}

impl Clone for ProcInfo {
    fn clone(&self) -> (r: Self)
        ensures
            r.name@ == self.name@ && r.path@ == self.path@ && r.cmdline@ == self.cmdline@
                && r.cwd@ == self.cwd@ && r.start == self.start,
    {
        ProcInfo {
            name: self.name.clone(),
            path: self.path.clone(),
            cmdline: self.cmdline.clone(),
            cwd: self.cwd.clone(),
            start: self.start,
        }
    }
}

/// The entry for a socket row: the address normalized, the pid taken as a
/// signed number, the process facts, and the project named after the
/// working directory.
pub open spec fn row_entry(
    proto: Proto,
    addr: Seq<char>,
    port: u16,
    pid: u32,
    info: ProcInfo,
    home: Option<Seq<char>>,
) -> EntryView {
    EntryView {
        proto,
        port,
        addr: normalized_addr(addr),
        pid: pid as i32,
        name: info.name@,
        path: info.path@,
        cmdline: info.cmdline@,
        cwd: info.cwd@,
        project: project_name_text(info.cwd@, home),
        start: info.start,
    }
}

/// The entry for a socket row of the system tables.
pub fn make_entry(
    proto: Proto,
    addr: &str,
    port: u16,
    pid: u32,
    info: ProcInfo,
    home: Option<&str>,
) -> (r: Entry)
    ensures
        r@ == row_entry(proto, addr@, port, pid, info, home_view(home)),
{
    let project = project_name(info.cwd.as_str(), home);
    Entry {
        proto,
        port,
        addr: normalize_addr(addr),
        pid: pid as i32,
        name: info.name,
        path: info.path,
        cmdline: info.cmdline,
        cwd: info.cwd,
        project,
        start: info.start,
    }
}

/// The port in the low 16 bits of a table field, stored in network byte
/// order.
pub open spec fn table_port(raw: u32, little_endian: bool) -> nat {
    let v = raw % 0x10000;
    if little_endian {
        ((v % 256) * 256 + v / 256) as nat
    } else {
        v as nat
    }
}

/// The port of a socket table row.
pub fn port_of_row(raw: u32, little_endian: bool) -> (r: u16)
    ensures
        r as nat == table_port(raw, little_endian),
{
    let v = raw % 0x10000;
    if little_endian {
        ((v % 256) * 256 + v / 256) as u16
    } else {
        v as u16
    }
}

/// The IPv4 address of a socket table row (stored in network byte order),
/// as a number whose most significant byte is the first octet.
pub fn ipv4_of_row(raw: u32, little_endian: bool) -> (r: u32)
    ensures
        r as nat == network_word(raw as nat, little_endian),
{
    if little_endian {
        let x = raw as u64;
        ((x % 256) * 0x1000000 + ((x / 256) % 256) * 0x10000 + ((x / 0x10000) % 256) * 256 + (x
            / 0x1000000) % 256) as u32
    } else {
        raw
    }
}

/// A row of one of the four socket tables (TCP or UDP, IPv4 or IPv6), its
/// fields as the system stores them.
pub enum TableRow {
    Tcp4 { state: u32, addr: u32, port: u32, pid: u32 },
    Tcp6 { state: u32, addr6: [u8; 16], port: u32, pid: u32 },
    Udp4 { addr: u32, port: u32, pid: u32 },
    Udp6 { addr6: [u8; 16], port: u32, pid: u32 },
}

/// The listening socket of a table row: TCP rows in state LISTEN (2), UDP
/// rows bound to a nonzero port; with the port, the text of the local
/// address and the owning pid.
pub open spec fn row_socket_of(row: TableRow, little_endian: bool) -> Option<
    (Proto, u16, Seq<char>, u32),
> {
    match row {
        TableRow::Tcp4 { state, addr, port, pid } => if state == 2 {
            Some(
                (
                    Proto::Tcp,
                    table_port(port, little_endian) as u16,
                    ipv4_text(network_word(addr as nat, little_endian) as u32),
                    pid,
                ),
            )
        } else {
            None
        },
        TableRow::Tcp6 { state, addr6, port, pid } => if state == 2 {
            Some(
                (
                    Proto::Tcp,
                    table_port(port, little_endian) as u16,
                    ipv6_text(be_value(addr6@, 0, 16) as u128),
                    pid,
                ),
            )
        } else {
            None
        },
        TableRow::Udp4 { addr, port, pid } => if table_port(port, little_endian) == 0 {
            None
        } else {
            Some(
                (
                    Proto::Udp,
                    table_port(port, little_endian) as u16,
                    ipv4_text(network_word(addr as nat, little_endian) as u32),
                    pid,
                ),
            )
        },
        TableRow::Udp6 { addr6, port, pid } => if table_port(port, little_endian) == 0 {
            None
        } else {
            Some(
                (
                    Proto::Udp,
                    table_port(port, little_endian) as u16,
                    ipv6_text(be_value(addr6@, 0, 16) as u128),
                    pid,
                ),
            )
        },
    }
}

fn ipv4_row_text(raw: u32, little_endian: bool) -> (r: String)
    ensures
        r@ == ipv4_text(network_word(raw as nat, little_endian) as u32),
{
    let mut out: Vec<char> = Vec::new();
    push_ipv4(&mut out, ipv4_of_row(raw, little_endian));
    string_of(out.as_slice())
}

fn ipv6_row_text(addr: &[u8; 16]) -> (r: String)
    ensures
        r@ == ipv6_text(be_value(addr@, 0, 16) as u128),
{
    let mut out: Vec<char> = Vec::new();
    push_ipv6(&mut out, read_be(addr, 0, 16));
    string_of(out.as_slice())
}

/// The protocol, port, local address text and owning pid of a table row
/// that is a listening socket.
pub fn row_socket(row: &TableRow, little_endian: bool) -> (r: Option<(Proto, u16, String, u32)>)
    ensures
        match row_socket_of(*row, little_endian) {
            Some((proto, port, addr, pid)) => r matches Some(x) && x.0 == proto && x.1 == port
                && x.2@ == addr && x.3 == pid,
            None => r is None,
        },
{
    match row {
        TableRow::Tcp4 { state, addr, port, pid } => {
            if *state != 2 {
                return None;
            }
            Some((Proto::Tcp, port_of_row(*port, little_endian), ipv4_row_text(*addr, little_endian), *pid))
        },
        TableRow::Tcp6 { state, addr6, port, pid } => {
            if *state != 2 {
                return None;
            }
            Some((Proto::Tcp, port_of_row(*port, little_endian), ipv6_row_text(addr6), *pid))
        },
        TableRow::Udp4 { addr, port, pid } => {
            let p = port_of_row(*port, little_endian);
            if p == 0 {
                return None;
            }
            Some((Proto::Udp, p, ipv4_row_text(*addr, little_endian), *pid))
        },
        TableRow::Udp6 { addr6, port, pid } => {
            let p = port_of_row(*port, little_endian);
            if p == 0 {
                return None;
            }
            Some((Proto::Udp, p, ipv6_row_text(addr6), *pid))
        },
    }
}

} // verus!
