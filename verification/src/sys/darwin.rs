//! Reading the argument area of a process on macOS (`KERN_PROCARGS2`).
use vstd::prelude::*;
use crate::sanitize::{from_utf8_lossy, utf8_lossy};
use crate::sys::linux::{copy_bytes, find_nul, join_spaces, lemma_next_nul, next_nul, space_joined, texts_of};
use crate::kill::KillError;
use crate::model::{normalize_addr, normalized_addr, Proto};
use crate::net::{ipv4_text, ipv6_text, push_ipv4, push_ipv6};
use crate::sys::freebsd::{be_value, read_be};
use crate::text::{chars_of, dec_u64, push_all, string_of, trim, trim_str};

verus! {

/// The 32-bit word stored at `o` in host byte order, as an unsigned value.
pub open spec fn host_u32(b: Seq<u8>, o: int, little_endian: bool) -> nat {
    if little_endian {
        (b[o] + b[o + 1] * 0x100 + b[o + 2] * 0x10000 + b[o + 3] * 0x1000000) as nat
    } else {
        (b[o + 3] + b[o + 2] * 0x100 + b[o + 1] * 0x10000 + b[o] * 0x1000000) as nat
    }
}

/// The signed value of a 32-bit word.
pub open spec fn as_signed32(u: nat) -> int {
    if u >= 0x8000_0000 {
        u - 0x1_0000_0000
    } else {
        u as int
    }
}

/// The first position from `i` on that holds a non-NUL byte, or the length.
pub open spec fn skip_nuls(b: Seq<u8>, i: int) -> int
    decreases b.len() - i,
{
    if i < 0 || i >= b.len() {
        b.len() as int
    } else if b[i] != 0 {
        i
    } else {
        skip_nuls(b, i + 1)
    }
}

/// Where the arguments start: after the executable path (when it ends with
/// a NUL) and the NULs that pad it.
pub open spec fn args_start(b: Seq<u8>) -> int {
    let e = next_nul(b, 4);
    let p = if e < b.len() {
        e + 1
    } else {
        4
    };
    skip_nuls(b, p)
}

/// Up to `count` arguments from position `i` on, each ended by a NUL (an
/// unterminated last one included), the empty ones left out, decoded
/// leniently.
pub open spec fn procargs_from(b: Seq<u8>, i: int, count: int) -> Seq<Seq<char>>
    decreases b.len() - i,
{
    if count <= 0 || i < 0 || i >= b.len() {
        seq![]
    } else {
        proof {
            lemma_next_nul(b, i);
        }
        let n = next_nul(b, i);
        if n >= b.len() {
            seq![utf8_lossy(b.subrange(i, b.len() as int))]
        } else {
            (if n > i {
                seq![utf8_lossy(b.subrange(i, n))]
            } else {
                seq![]
            }) + procargs_from(b, n + 1, count - 1)
        }
    }
}

/// The command line in a `KERN_PROCARGS2` buffer: the argument count, the
/// executable path, then the arguments; they are joined with spaces and
/// trimmed. Nothing for a buffer shorter than the count or a count that is
/// not positive.
pub open spec fn procargs_text(b: Seq<u8>, little_endian: bool) -> Seq<char> {
    if b.len() < 4 {
        seq![]
    } else {
        let argc = as_signed32(host_u32(b, 0, little_endian));
        if argc <= 0 {
            seq![]
        } else {
            trim(space_joined(procargs_from(b, args_start(b), argc)))
        }
    }
}

/// Reads the 32-bit word at `o` in host byte order.
pub fn read_host_u32(buf: &[u8], o: usize, little_endian: bool) -> (r: u32)
    requires
        o + 4 <= buf@.len(),
    ensures
        r as nat == host_u32(buf@, o as int, little_endian),
{
    let b0 = buf[o] as u32;
    let b1 = buf[o + 1] as u32;
    let b2 = buf[o + 2] as u32;
    let b3 = buf[o + 3] as u32;
    if little_endian {
        b0 + b1 * 0x100 + b2 * 0x10000 + b3 * 0x1000000
    } else {
        b3 + b2 * 0x100 + b1 * 0x10000 + b0 * 0x1000000
    }
}

/// The first position from `i` on that holds a non-NUL byte.
fn skip_nul_bytes(buf: &[u8], i: usize) -> (r: usize)
    requires
        i <= buf@.len(),
    ensures
        r as int == skip_nuls(buf@, i as int),
        i <= r <= buf@.len(),
{
    let mut j = i;
    while j < buf.len() && buf[j] == 0
        invariant
            i <= j <= buf@.len(),
            skip_nuls(buf@, i as int) == skip_nuls(buf@, j as int),
        decreases buf.len() - j,
    {
        j = j + 1;
    }
    j
}

/// The arguments of a `KERN_PROCARGS2` buffer.
fn procargs_list(buf: &[u8], start: usize, argc: u32) -> (r: Vec<String>)
    requires
        start <= buf@.len(),
        argc < 0x8000_0000,
    ensures
        texts_of(r@) == procargs_from(buf@, start as int, argc as int),
{
    let ghost b = buf@;
    let mut args: Vec<String> = Vec::new();
    let mut pos = start;
    let mut count: u32 = 0;
    while count < argc && pos < buf.len()
        invariant
            start <= pos <= buf@.len(),
            count <= argc,
            b == buf@,
            procargs_from(b, start as int, argc as int) == texts_of(args@) + procargs_from(
                b,
                pos as int,
                argc - count,
            ),
        decreases buf.len() - pos,
    {
        let n = find_nul(buf, pos);
        let ghost before = texts_of(args@);
        if n < buf.len() {
            if n > pos {
                let piece = copy_bytes(buf, pos, n);
                args.push(from_utf8_lossy(piece.as_slice()));
                assert(texts_of(args@) =~= before.push(utf8_lossy(b.subrange(pos as int, n as int))));
            }
            assert(procargs_from(b, pos as int, argc - count) =~= (if n > pos {
                seq![utf8_lossy(b.subrange(pos as int, n as int))]
            } else {
                seq![]
            }) + procargs_from(b, n + 1, argc - (count + 1)));
            assert(procargs_from(b, start as int, argc as int) =~= texts_of(args@) + procargs_from(
                b,
                n + 1,
                argc - (count + 1),
            ));
            pos = n + 1;
            count = count + 1;
        } else {
            let piece = copy_bytes(buf, pos, buf.len());
            args.push(from_utf8_lossy(piece.as_slice()));
            assert(texts_of(args@) =~= before.push(utf8_lossy(b.subrange(pos as int, b.len() as int))));
            assert(procargs_from(b, start as int, argc as int) =~= texts_of(args@));
            return args;
        }
    }
    assert(procargs_from(b, pos as int, argc - count) =~= Seq::<Seq<char>>::empty());
    assert(texts_of(args@) =~= procargs_from(b, start as int, argc as int));
    args
}

/// The command line of a process from its `KERN_PROCARGS2` buffer.
pub fn parse_procargs2(buf: &[u8], little_endian: bool) -> (r: String)
    ensures
        r@ == procargs_text(buf@, little_endian),
{
    if buf.len() < 4 {
        return String::new();
    }
    let raw = read_host_u32(buf, 0, little_endian);
    if raw == 0 || raw >= 0x8000_0000 {
        return String::new();
    }
    let e = find_nul(buf, 4);
    let p = if e < buf.len() {
        e + 1
    } else {
        4
    };
    let start = skip_nul_bytes(buf, p);
    let args = procargs_list(buf, start, raw);
    let joined = join_spaces(&args);
    string_of(trim_str(joined.as_str()).as_slice())
}

// ---------------------------------------------------------------------------
// Socket descriptors
// ---------------------------------------------------------------------------

/// The address part of a socket descriptor: ports as stored (network order
/// in the low 16 bits), the version flag, and the IPv4 and IPv6 address
/// bytes.
pub struct InFacts {
    pub fport: u32,
    pub lport: u32,
    pub vflag: u8,
    pub addr4: [u8; 4],
    pub addr6: [u8; 16],
}

/// The fields of a socket descriptor that tell whether it listens: family,
/// kind, protocol and type, the TCP state, and the address part read as TCP
/// and as plain Internet socket.
pub struct SocketFacts {
    pub family: i32,
    pub kind: i32,
    pub protocol: i32,
    pub sock_type: i32,
    pub tcp_state: i32,
    pub tcp: InFacts,
    pub inet: InFacts,
}

/// A 16-bit port stored in network byte order, read on the host.
pub open spec fn net_port(raw: u32, little_endian: bool) -> nat {
    let v = raw % 0x10000;
    if little_endian {
        ((v % 256) * 256 + v / 256) as nat
    } else {
        v as nat
    }
}

/// The text of the local address: IPv4 when the version flag says so,
/// IPv6 otherwise.
pub open spec fn in_addr_text(i: InFacts) -> Seq<char> {
    if i.vflag % 2 == 1 {
        ipv4_text(be_value(i.addr4@, 0, 4) as u32)
    } else {
        ipv6_text(be_value(i.addr6@, 0, 16) as u128)
    }
}

/// What a socket descriptor gives: a listening TCP socket (family 2 or 30,
/// kind 2, state 1, nonzero port), or a UDP socket (protocol 17 or datagram
/// type) bound to a nonzero port with no remote port; with its normalized
/// local address.
pub open spec fn listen_socket_of(f: SocketFacts, little_endian: bool) -> Option<(Proto, u16, Seq<char>)> {
    if f.family != 2 && f.family != 30 {
        None
    } else if f.kind == 2 {
        let port = net_port(f.tcp.lport, little_endian);
        if f.tcp_state != 1 || port == 0 {
            None
        } else {
            Some((Proto::Tcp, port as u16, normalized_addr(in_addr_text(f.tcp))))
        }
    } else if f.protocol == 17 || f.sock_type == 2 {
        let port = net_port(f.inet.lport, little_endian);
        if port == 0 || net_port(f.inet.fport, little_endian) != 0 {
            None
        } else {
            Some((Proto::Udp, port as u16, normalized_addr(in_addr_text(f.inet))))
        }
    } else {
        None
    }
}

fn net_port_exec(raw: u32, little_endian: bool) -> (r: u16)
    ensures
        r as nat == net_port(raw, little_endian),
{
    let v = raw % 0x10000;
    if little_endian {
        ((v % 256) * 256 + v / 256) as u16
    } else {
        v as u16
    }
}

/// The text of the local address of a socket descriptor.
fn format_in_addr(i: &InFacts) -> (r: String)
    ensures
        r@ == in_addr_text(*i),
{
    let mut out: Vec<char> = Vec::new();
    if i.vflag % 2 == 1 {
        let v = read_be(&i.addr4, 0, 4);
        push_ipv4(&mut out, v as u32);
    } else {
        let v = read_be(&i.addr6, 0, 16);
        push_ipv6(&mut out, v);
    }
    string_of(out.as_slice())
}

/// The protocol, port and normalized address of a listening socket.
pub fn parse_listen_socket(f: &SocketFacts, little_endian: bool) -> (r: Option<(Proto, u16, String)>)
    ensures
        match listen_socket_of(*f, little_endian) {
            Some((proto, port, addr)) => r matches Some(x) && x.0 == proto && x.1 == port && x.2@
                == addr,
            None => r is None,
        },
{
    if f.family != 2 && f.family != 30 {
        return None;
    }
    if f.kind == 2 {
        if f.tcp_state != 1 {
            return None;
        }
        let port = net_port_exec(f.tcp.lport, little_endian);
        if port == 0 {
            return None;
        }
        let addr = format_in_addr(&f.tcp);
        return Some((Proto::Tcp, port, normalize_addr(addr.as_str())));
    }
    if f.protocol == 17 || f.sock_type == 2 {
        let port = net_port_exec(f.inet.lport, little_endian);
        let fport = net_port_exec(f.inet.fport, little_endian);
        if port == 0 || fport != 0 {
            return None;
        }
        let addr = format_in_addr(&f.inet);
        return Some((Proto::Udp, port, normalize_addr(addr.as_str())));
    }
    None
}

// ---------------------------------------------------------------------------
// Start tokens
// ---------------------------------------------------------------------------

/// The start token from the start time of a process, in microseconds: the
/// microseconds must be below a second, and a zero token is no identity.
pub fn start_token_from_time(sec: u64, usec: u64) -> (r: Result<u64, KillError>)
    requires
        usec < 1_000_000 ==> sec * 1_000_000 + usec <= u64::MAX,
    ensures
        usec >= 1_000_000 ==> (r matches Err(KillError::System(m)) && m@ == "bad start usec "@
            + crate::text::dec_nat(usec as nat)),
        usec < 1_000_000 && sec * 1_000_000 + usec == 0 ==> r matches Err(
            KillError::MissingIdentity,
        ),
        usec < 1_000_000 && sec * 1_000_000 + usec > 0 ==> r == Ok::<u64, KillError>(
            (sec * 1_000_000 + usec) as u64,
        ),
{
    if usec >= 1_000_000 {
        let mut v = chars_of("bad start usec ");
        let d = dec_u64(usec);
        push_all(&mut v, &d);
        return Err(KillError::System(string_of(v.as_slice())));
    }
    let token = sec * 1_000_000 + usec;
    if token == 0 {
        return Err(KillError::MissingIdentity);
    }
    Ok(token)
}

} // verus!
