//! Reading the socket records of `KERN_PROC_FILEDESC` on FreeBSD.
use vstd::prelude::*;
use crate::model::{normalize_addr, normalized_addr, Proto};
use crate::net::{ipv4_text, ipv6_text, push_ipv4, push_ipv6};
use crate::sanitize::{from_utf8_lossy, utf8_lossy};
use crate::sys::darwin::{as_signed32, host_u32, read_host_u32};
use crate::sys::linux::{find_nul, next_nul};
use crate::text::{chars_of, string_of};
use vstd::arithmetic::power2::{lemma2_to64, lemma_pow2_adds, lemma_pow2_strictly_increases, pow2};

verus! {

/// The protocol of a socket record from its protocol number, or else its
/// socket type: TCP (6, or stream sockets) or UDP (17, or datagram sockets).
pub open spec fn kinfo_proto(proto_num: int, sock_type: int) -> Option<Proto> {
    if proto_num == 6 {
        Some(Proto::Tcp)
    } else if proto_num == 17 {
        Some(Proto::Udp)
    } else if sock_type == 1 {
        Some(Proto::Tcp)
    } else if sock_type == 2 {
        Some(Proto::Udp)
    } else {
        None
    }
}

/// The port at `o + 2`, in network byte order.
pub open spec fn sa_port(b: Seq<u8>, o: int) -> nat {
    (b[o + 2] * 256 + b[o + 3]) as nat
}

/// The big-endian number in the bytes `b[o..o + n]`.
pub open spec fn be_value(b: Seq<u8>, o: int, n: nat) -> nat
    decreases n,
{
    if n == 0 {
        0
    } else {
        be_value(b, o, (n - 1) as nat) * 256 + b[o + n - 1] as nat
    }
}

/// The local address and port of a socket address at offset `o`, if it is
/// an IPv4 address (family 2 with length 16 or 0, or family 0) or an IPv6
/// address (family 28 with length 28 or 0, with its 24 bytes present) with
/// a nonzero port.
pub open spec fn sa_at(b: Seq<u8>, o: int) -> Option<(Seq<char>, nat)> {
    if b.len() < o + 16 {
        None
    } else {
        let sa_len = b[o];
        let family = b[o + 1];
        if (family == 2 && (sa_len == 16 || sa_len == 0)) || family == 0 {
            if sa_port(b, o) > 0 {
                Some((ipv4_text(be_value(b, o + 4, 4) as u32), sa_port(b, o)))
            } else {
                None
            }
        } else if family == 28 && (sa_len == 28 || sa_len == 0) && b.len() >= o + 24 {
            if sa_port(b, o) > 0 {
                Some((ipv6_text(be_value(b, o + 8, 16) as u128), sa_port(b, o)))
            } else {
                None
            }
        } else {
            None
        }
    }
}

/// The offsets where the local socket address is looked for, in order.
pub open spec fn sa_offsets() -> Seq<int> {
    seq![48int, 44, 52, 56]
}

/// The first socket address found at the offsets from index `k` on.
pub open spec fn first_sa(b: Seq<u8>, k: int) -> Option<(Seq<char>, nat)>
    decreases 4 - k,
{
    if k < 0 || k >= 4 {
        None
    } else {
        match sa_at(b, sa_offsets()[k]) {
            Some(found) => Some(found),
            None => first_sa(b, k + 1),
        }
    }
}

/// The TCP state word that is checked: the first of offsets 304, 300 and
/// 308 that lies within the record.
pub open spec fn tcp_state(b: Seq<u8>, little_endian: bool) -> Option<int> {
    if b.len() >= 308 {
        Some(as_signed32(host_u32(b, 304, little_endian)))
    } else if b.len() >= 304 {
        Some(as_signed32(host_u32(b, 300, little_endian)))
    } else {
        None
    }
}

/// What a socket record gives: its protocol, local port and normalized local
/// address; none for a short record, an unknown protocol, no local address,
/// or a TCP socket whose state is known and neither listening nor unset.
pub open spec fn kinfo_socket(b: Seq<u8>, little_endian: bool) -> Option<(Proto, u16, Seq<char>)> {
    if b.len() < 44 {
        None
    } else {
        let proto_num = as_signed32(host_u32(b, 40, little_endian));
        let sock_type = as_signed32(host_u32(b, 36, little_endian));
        match kinfo_proto(proto_num, sock_type) {
            None => None,
            Some(proto) => match first_sa(b, 0) {
                None => None,
                Some((addr, port)) => {
                    let refused = proto == Proto::Tcp && match tcp_state(b, little_endian) {
                        Some(st) => st != 1 && st != 0,
                        None => false,
                    };
                    if refused {
                        None
                    } else {
                        Some((proto, port as u16, normalized_addr(addr)))
                    }
                },
            },
        }
    }
}

/// Reads the big-endian number in `buf[o..o + n]`.
pub(crate) fn read_be(buf: &[u8], o: usize, n: usize) -> (r: u128)
    requires
        n <= 16,
        o + n <= buf@.len(),
    ensures
        r as nat == be_value(buf@, o as int, n as nat),
{
    let mut v: u128 = 0;
    let mut k: usize = 0;
    proof {
        lemma2_to64();
    }
    while k < n
        invariant
            k <= n <= 16,
            o + n <= buf.len(),
            v as nat == be_value(buf@, o as int, k as nat),
            (v as nat) < pow2((8 * k) as nat),
        decreases n - k,
    {
        proof {
            let e = (8 * k) as nat;
            let e1 = (8 * (k + 1)) as nat;
            lemma_pow2_adds(e, 8);
            lemma2_to64();
            lemma_pow2_adds(64, 64);
            if e1 < 128 {
                lemma_pow2_strictly_increases(e1, 128);
            }
            assert(e + 8 == e1);
            let b = buf@[(o + k) as int];
            assert(v * 256 + b < pow2(e1)) by (nonlinear_arith)
                requires
                    (v as nat) < pow2(e),
                    pow2(e1) == pow2(e) * 256,
                    b < 256,
            ;
            assert(pow2(128) == 0x1_0000_0000_0000_0000 * 0x1_0000_0000_0000_0000);
            assert(pow2(e1) <= pow2(128));
            assert(v * 256 + b < 0x1_0000_0000_0000_0000_0000_0000_0000_0000);
        }
        let byte = buf[o + k] as u128;
        assert(byte == buf@[(o + k) as int]);
        let t = v * 256;
        v = t + byte;
        k = k + 1;
    }
    v
}

/// The local address and port at offset `o`.
fn sa_at_exec(buf: &[u8], o: usize) -> (r: Option<(String, u16)>)
    requires
        o <= 56,
    ensures
        match sa_at(buf@, o as int) {
            Some((a, p)) => r matches Some(x) && x.0@ == a && x.1 as nat == p,
            None => r is None,
        },
{
    if buf.len() < o + 16 {
        return None;
    }
    let sa_len = buf[o];
    let family = buf[o + 1];
    let port: u16 = buf[o + 2] as u16 * 256 + buf[o + 3] as u16;
    if (family == 2 && (sa_len == 16 || sa_len == 0)) || family == 0 {
        if port > 0 {
            let v = read_be(buf, o + 4, 4);
            let mut out: Vec<char> = Vec::new();
            push_ipv4(&mut out, v as u32);
            return Some((string_of(out.as_slice()), port));
        }
        return None;
    } else if family == 28 && (sa_len == 28 || sa_len == 0) && buf.len() >= o + 24 {
        if port > 0 {
            let v = read_be(buf, o + 8, 16);
            let mut out: Vec<char> = Vec::new();
            push_ipv6(&mut out, v);
            return Some((string_of(out.as_slice()), port));
        }
        return None;
    }
    None
}

/// Parses a socket record of `KERN_PROC_FILEDESC` into its protocol, local
/// port and normalized local address.
pub fn parse_kinfo_socket(buf: &[u8], little_endian: bool) -> (r: Option<(Proto, u16, String)>)
    ensures
        match kinfo_socket(buf@, little_endian) {
            Some((proto, port, addr)) => r matches Some(x) && x.0 == proto && x.1 == port && x.2@
                == addr,
            None => r is None,
        },
{
    if buf.len() < 44 {
        return None;
    }
    let proto_raw = read_host_u32(buf, 40, little_endian);
    let type_raw = read_host_u32(buf, 36, little_endian);
    let proto = if proto_raw == 6 {
        Proto::Tcp
    } else if proto_raw == 17 {
        Proto::Udp
    } else if type_raw == 1 {
        Proto::Tcp
    } else if type_raw == 2 {
        Proto::Udp
    } else {
        return None;
    };
    let offsets: [usize; 4] = [48, 44, 52, 56];
    let mut found: Option<(String, u16)> = None;
    let mut k: usize = 0;
    while k < 4
        invariant_except_break
            found is None,
        invariant
            k <= 4,
            offsets@ == seq![48usize, 44, 52, 56],
            first_sa(buf@, 0) == first_sa(buf@, k as int),
        ensures
            match first_sa(buf@, 0) {
                Some((a, p)) => found matches Some(x) && x.0@ == a && x.1 as nat == p,
                None => found is None,
            },
        decreases 4 - k,
    {
        let o = offsets[k];
        assert(o as int == sa_offsets()[k as int]);
        match sa_at_exec(buf, o) {
            Some(x) => {
                found = Some(x);
                break;
            },
            None => {},
        }
        k = k + 1;
    }
    let (addr, port) = match found {
        Some(x) => x,
        None => {
            return None;
        },
    };
    if proto == Proto::Tcp {
        let state_at: usize = if buf.len() >= 308 {
            304
        } else if buf.len() >= 304 {
            300
        } else {
            0
        };
        if state_at > 0 {
            let st = read_host_u32(buf, state_at, little_endian);
            if st != 1 && st != 0 {
                return None;
            }
        }
    }
    Some((proto, port, normalize_addr(addr.as_str())))
}

/// The start token from the start time of a process, in microseconds; a
/// zero token is no identity.
pub fn start_token_from_time(sec: u64, usec: u64) -> (r: Result<u64, crate::kill::KillError>)
    requires
        sec * 1_000_000 + usec <= u64::MAX,
    ensures
        sec * 1_000_000 + usec == 0 ==> r matches Err(crate::kill::KillError::MissingIdentity),
        sec * 1_000_000 + usec > 0 ==> r == Ok::<u64, crate::kill::KillError>(
            (sec * 1_000_000 + usec) as u64,
        ),
{
    let token = sec * 1_000_000 + usec;
    if token == 0 {
        return Err(crate::kill::KillError::MissingIdentity);
    }
    Ok(token)
}

// ---------------------------------------------------------------------------
// Record buffers
// ---------------------------------------------------------------------------

/// The signed 32-bit number stored at `o` in host byte order.
pub open spec fn host_i32(b: Seq<u8>, o: int, little_endian: bool) -> int {
    as_signed32(host_u32(b, o, little_endian))
}

/// The 32-bit field number `k` of the record at `o`; 0 when it lies past
/// the end of the buffer.
pub open spec fn record_field(b: Seq<u8>, o: int, k: int, little_endian: bool) -> int {
    if o + 4 * k + 4 <= b.len() {
        host_i32(b, o + 4 * k, little_endian)
    } else {
        0
    }
}

/// The offsets of the records of a buffer, from `off` on. Each record starts
/// with its size; the walk ends where fewer than `min` bytes are left, at a
/// size of zero or less, or at a record that runs past the end.
pub open spec fn record_offsets(b: Seq<u8>, off: nat, min: nat, little_endian: bool) -> Seq<nat>
    decreases b.len() - off,
{
    if min < 4 || off + min > b.len() {
        seq![]
    } else {
        let size = host_i32(b, off as int, little_endian);
        if size <= 0 || off + size > b.len() {
            seq![]
        } else {
            seq![off] + record_offsets(b, (off + size) as nat, min, little_endian)
        }
    }
}

/// Walking the records from `off` on reaches a negative size no larger in
/// magnitude than its offset: adding it, as an unsigned machine word, to the
/// offset overflows.
pub open spec fn record_walk_overflows(b: Seq<u8>, off: nat, min: nat, little_endian: bool) -> bool
    decreases b.len() - off,
{
    if min < 4 || off + min > b.len() {
        false
    } else {
        let size = host_i32(b, off as int, little_endian);
        if size < 0 {
            off + size >= 0
        } else if size == 0 || off + size > b.len() {
            false
        } else {
            record_walk_overflows(b, (off + size) as nat, min, little_endian)
        }
    }
}

/// The bytes of the record at `o`.
pub open spec fn record_bytes(b: Seq<u8>, o: nat, little_endian: bool) -> Seq<u8> {
    b.subrange(o as int, o + host_i32(b, o as int, little_endian))
}

proof fn lemma_record_offsets(b: Seq<u8>, off: nat, min: nat, little_endian: bool)
    ensures
        forall|k: int|
            0 <= k < record_offsets(b, off, min, little_endian).len() ==> {
                let o = #[trigger] record_offsets(b, off, min, little_endian)[k];
                &&& off <= o
                &&& o + min <= b.len()
                &&& min >= 4
                &&& 0 < host_i32(b, o as int, little_endian)
                &&& o + host_i32(b, o as int, little_endian) <= b.len()
            },
    decreases b.len() - off,
{
    if min >= 4 && off + min <= b.len() {
        let size = host_i32(b, off as int, little_endian);
        if size > 0 && off + size <= b.len() {
            let next = (off + size) as nat;
            lemma_record_offsets(b, next, min, little_endian);
            let r = record_offsets(b, next, min, little_endian);
            assert(record_offsets(b, off, min, little_endian) == seq![off] + r);
            assert forall|k: int| 0 < k < 1 + r.len() implies (seq![off] + r)[k] == r[k - 1] by {}
        }
    }
}

spec fn nats(s: Seq<usize>) -> Seq<nat> {
    s.map_values(|x: usize| x as nat)
}

fn record_offsets_exec(buf: &[u8], min: usize, little_endian: bool) -> (r: Vec<usize>)
    requires
        4 <= min,
    ensures
        nats(r@) == record_offsets(buf@, 0, min as nat, little_endian),
{
    let ghost b = buf@;
    let ghost total = record_offsets(b, 0, min as nat, little_endian);
    let mut out: Vec<usize> = Vec::new();
    let mut off: usize = 0;
    assert(nats(out@) =~= Seq::<nat>::empty());
    loop
        invariant
            4 <= min,
            b == buf@,
            off <= b.len(),
            total == record_offsets(b, 0, min as nat, little_endian),
            nats(out@) + record_offsets(b, off as nat, min as nat, little_endian) == total,
        ensures
            nats(out@) == total,
        decreases b.len() - off,
    {
        if buf.len() - off < min {
            assert(nats(out@) + Seq::<nat>::empty() =~= nats(out@));
            break;
        }
        let raw = read_host_u32(buf, off, little_endian);
        if raw == 0 || raw >= 0x8000_0000 || (raw as usize) > buf.len() - off {
            assert(nats(out@) + Seq::<nat>::empty() =~= nats(out@));
            break;
        }
        let ghost before = nats(out@);
        let ghost rest = record_offsets(b, (off + raw) as nat, min as nat, little_endian);
        assert(record_offsets(b, off as nat, min as nat, little_endian) == seq![off as nat] + rest);
        out.push(off);
        assert(nats(out@) =~= before.push(off as nat));
        assert(before + (seq![off as nat] + rest) =~= before.push(off as nat) + rest);
        off = off + raw as usize;
    }
    out
}

/// Whether the records of a buffer can be walked without overflowing.
pub fn record_walk_ok(buf: &[u8], min: usize, little_endian: bool) -> (r: bool)
    requires
        4 <= min,
    ensures
        r == !record_walk_overflows(buf@, 0, min as nat, little_endian),
{
    let mut off: usize = 0;
    loop
        invariant
            4 <= min,
            off <= buf@.len(),
            record_walk_overflows(buf@, 0, min as nat, little_endian) == record_walk_overflows(
                buf@,
                off as nat,
                min as nat,
                little_endian,
            ),
        decreases buf@.len() - off,
    {
        if buf.len() - off < min {
            return true;
        }
        let raw = read_host_u32(buf, off, little_endian);
        if raw >= 0x8000_0000 {
            return (off as u64) < 0x1_0000_0000u64 - (raw as u64);
        }
        if raw == 0 || (raw as usize) > buf.len() - off {
            return true;
        }
        off = off + raw as usize;
    }
}

/// The positive pids of the process records at `offs` (the `c_int` at
/// byte 72 of each record), in order.
pub open spec fn positive_pids(b: Seq<u8>, offs: Seq<nat>, little_endian: bool) -> Seq<i32>
    decreases offs.len(),
{
    if offs.len() == 0 {
        seq![]
    } else {
        let rest = positive_pids(b, offs.drop_last(), little_endian);
        let p = host_i32(b, offs.last() as int + 72, little_endian);
        if p > 0 {
            rest.push(p as i32)
        } else {
            rest
        }
    }
}

/// The pids of a `KERN_PROC_ALL` buffer: the positive pids of its process
/// records, followed by `self_pid` when it is not among them.
pub open spec fn procs_pids(b: Seq<u8>, little_endian: bool, self_pid: i32) -> Seq<i32> {
    let pids = positive_pids(b, record_offsets(b, 0, 76, little_endian), little_endian);
    if pids.contains(self_pid) {
        pids
    } else {
        pids.push(self_pid)
    }
}

/// The pids listed in a `KERN_PROC_ALL` buffer, with this process's own.
pub fn pids_from_procs(buf: &[u8], little_endian: bool, self_pid: i32) -> (r: Vec<i32>)
    requires
        !record_walk_overflows(buf@, 0, 76, little_endian),
    ensures
        r@ == procs_pids(buf@, little_endian, self_pid),
{
    let offs = record_offsets_exec(buf, 76, little_endian);
    let ghost ns = nats(offs@);
    proof {
        lemma_record_offsets(buf@, 0, 76, little_endian);
    }
    let mut pids: Vec<i32> = Vec::new();
    let mut i: usize = 0;
    while i < offs.len()
        invariant
            i <= offs@.len(),
            ns == nats(offs@),
            ns == record_offsets(buf@, 0, 76, little_endian),
            forall|k: int| #![trigger ns[k]] 0 <= k < ns.len() ==> ns[k] + 76 <= buf@.len(),
            pids@ == positive_pids(buf@, ns.take(i as int), little_endian),
        decreases offs.len() - i,
    {
        let o = offs[i];
        assert(ns[i as int] == o as nat);
        assert(ns.take(i + 1).drop_last() =~= ns.take(i as int));
        let n = buf.len();
        assert(ns[i as int] + 76 <= n);
        let raw = read_host_u32(buf, o + 72, little_endian);
        if 0 < raw && raw < 0x8000_0000 {
            pids.push(raw as i32);
        }
        i = i + 1;
    }
    assert(ns.take(offs.len() as int) =~= ns);
    let mut found = false;
    let mut j: usize = 0;
    while j < pids.len()
        invariant
            j <= pids@.len(),
            found == (exists|k: int| 0 <= k < j && pids@[k] == self_pid),
        decreases pids.len() - j,
    {
        if pids[j] == self_pid {
            found = true;
        }
        j = j + 1;
    }
    if !found {
        pids.push(self_pid);
    }
    pids
}

/// The record at `o` describes a socket: its type (field 1) is 2.
pub open spec fn is_socket_record(b: Seq<u8>, o: nat, little_endian: bool) -> bool {
    record_field(b, o as int, 1, little_endian) == 2
}

/// The listening sockets described by the socket records at `offs`, in
/// order.
pub open spec fn sockets_in(b: Seq<u8>, offs: Seq<nat>, little_endian: bool) -> Seq<(Proto, u16, Seq<char>)>
    decreases offs.len(),
{
    if offs.len() == 0 {
        seq![]
    } else {
        let rest = sockets_in(b, offs.drop_last(), little_endian);
        let o = offs.last();
        if is_socket_record(b, o, little_endian) {
            match kinfo_socket(record_bytes(b, o, little_endian), little_endian) {
                Some(x) => rest.push(x),
                None => rest,
            }
        } else {
            rest
        }
    }
}

/// The listening sockets of a `KERN_PROC_FILEDESC` buffer.
pub open spec fn filedesc_sockets(b: Seq<u8>, little_endian: bool) -> Seq<(Proto, u16, Seq<char>)> {
    sockets_in(b, record_offsets(b, 0, 4, little_endian), little_endian)
}

/// The value of a socket found in a record.
pub open spec fn socket_view(x: (Proto, u16, String)) -> (Proto, u16, Seq<char>) {
    (x.0, x.1, x.2@)
}

/// The listening sockets described by the file records of a process.
pub fn sockets_from_filedesc(buf: &[u8], little_endian: bool) -> (r: Vec<(Proto, u16, String)>)
    requires
        !record_walk_overflows(buf@, 0, 4, little_endian),
    ensures
        r@.map_values(|x: (Proto, u16, String)| socket_view(x)) == filedesc_sockets(buf@, little_endian),
{
    let offs = record_offsets_exec(buf, 4, little_endian);
    let ghost ns = nats(offs@);
    proof {
        lemma_record_offsets(buf@, 0, 4, little_endian);
    }
    let mut out: Vec<(Proto, u16, String)> = Vec::new();
    let mut i: usize = 0;
    while i < offs.len()
        invariant
            i <= offs@.len(),
            ns == nats(offs@),
            ns == record_offsets(buf@, 0, 4, little_endian),
            forall|k: int|
                #![trigger ns[k]]
                0 <= k < ns.len() ==> ns[k] + 4 <= buf@.len() && 0 < host_i32(
                    buf@,
                    ns[k] as int,
                    little_endian,
                ) && ns[k] + host_i32(buf@, ns[k] as int, little_endian) <= buf@.len(),
            out@.map_values(|x: (Proto, u16, String)| socket_view(x)) == sockets_in(
                buf@,
                ns.take(i as int),
                little_endian,
            ),
        decreases offs.len() - i,
    {
        let o = offs[i];
        assert(ns[i as int] == o as nat);
        assert(ns.take(i + 1).drop_last() =~= ns.take(i as int));
        let size = read_host_u32(buf, o, little_endian) as usize;
        let kind: u32 = if buf.len() - o >= 8 {
            read_host_u32(buf, o + 4, little_endian)
        } else {
            0
        };
        let ghost before = out@;
        if kind == 2 {
            let rec = vstd::slice::slice_subrange(buf, o, o + size);
            match parse_kinfo_socket(rec, little_endian) {
                Some(x) => {
                    out.push(x);
                    assert(out@.map_values(|x: (Proto, u16, String)| socket_view(x)) =~= before.map_values(
                        |x: (Proto, u16, String)| socket_view(x),
                    ).push(socket_view(x)));
                },
                None => {},
            }
        }
        i = i + 1;
    }
    assert(ns.take(offs.len() as int) =~= ns);
    out
}

/// The record at `o` is that of the working directory: its descriptor
/// number (field 2) is -1.
pub open spec fn is_cwd_record(b: Seq<u8>, o: nat, little_endian: bool) -> bool {
    record_field(b, o as int, 2, little_endian) == -1
}

/// The path of a working-directory record: its bytes from 32 on, up to the
/// first NUL, decoded; none when no NUL follows or the text is empty.
pub open spec fn cwd_path(r: Seq<u8>) -> Option<Seq<char>> {
    let p = r.skip(32);
    let n = next_nul(p, 0);
    if n < p.len() && utf8_lossy(p.take(n)).len() > 0 {
        Some(utf8_lossy(p.take(n)))
    } else {
        None
    }
}

/// The path of the first working-directory record among `offs` that has
/// one; empty when none has.
pub open spec fn cwd_in(b: Seq<u8>, offs: Seq<nat>, little_endian: bool) -> Seq<char>
    decreases offs.len(),
{
    if offs.len() == 0 {
        seq![]
    } else {
        let o = offs[0];
        if is_cwd_record(b, o, little_endian) {
            match cwd_path(record_bytes(b, o, little_endian)) {
                Some(s) => s,
                None => cwd_in(b, offs.drop_first(), little_endian),
            }
        } else {
            cwd_in(b, offs.drop_first(), little_endian)
        }
    }
}

/// Looking for the working directory among `offs` reaches a
/// working-directory record shorter than 32 bytes before one with a path.
pub open spec fn cwd_scan_breaks(b: Seq<u8>, offs: Seq<nat>, little_endian: bool) -> bool
    decreases offs.len(),
{
    if offs.len() == 0 {
        false
    } else {
        let o = offs[0];
        if is_cwd_record(b, o, little_endian) {
            if host_i32(b, o as int, little_endian) < 32 {
                true
            } else if cwd_path(record_bytes(b, o, little_endian)) is Some {
                false
            } else {
                cwd_scan_breaks(b, offs.drop_first(), little_endian)
            }
        } else {
            cwd_scan_breaks(b, offs.drop_first(), little_endian)
        }
    }
}

/// The working directory of a `KERN_PROC_FILEDESC` buffer, or none when
/// the search reaches a working-directory record too short for a path.
fn cwd_scan(buf: &[u8], little_endian: bool) -> (r: Option<String>)
    ensures
        ({
            let offs = record_offsets(buf@, 0, 4, little_endian);
            match r {
                Some(s) => !cwd_scan_breaks(buf@, offs, little_endian) && s@ == cwd_in(buf@, offs, little_endian),
                None => cwd_scan_breaks(buf@, offs, little_endian),
            }
        }),
{
    let offs = record_offsets_exec(buf, 4, little_endian);
    let ghost ns = nats(offs@);
    proof {
        lemma_record_offsets(buf@, 0, 4, little_endian);
        assert(ns.skip(0) =~= ns);
    }
    let mut i: usize = 0;
    while i < offs.len()
        invariant
            i <= offs@.len(),
            ns == nats(offs@),
            ns == record_offsets(buf@, 0, 4, little_endian),
            forall|k: int|
                #![trigger ns[k]]
                0 <= k < ns.len() ==> ns[k] + 4 <= buf@.len() && 0 < host_i32(
                    buf@,
                    ns[k] as int,
                    little_endian,
                ) && ns[k] + host_i32(buf@, ns[k] as int, little_endian) <= buf@.len(),
            cwd_in(buf@, ns, little_endian) == cwd_in(buf@, ns.skip(i as int), little_endian),
            cwd_scan_breaks(buf@, ns, little_endian) == cwd_scan_breaks(buf@, ns.skip(i as int), little_endian),
        decreases offs.len() - i,
    {
        let o = offs[i];
        assert(ns[i as int] == o as nat);
        assert(ns.skip(i as int)[0] == ns[i as int]);
        assert(ns.skip(i as int).drop_first() =~= ns.skip(i + 1));
        let n = buf.len();
        let size = read_host_u32(buf, o, little_endian) as usize;
        let fd: u32 = if n - o >= 12 {
            read_host_u32(buf, o + 8, little_endian)
        } else {
            0
        };
        if fd == 0xffff_ffff {
            if size < 32 {
                return None;
            }
            let rec = vstd::slice::slice_subrange(buf, o + 32, o + size);
            assert(rec@ =~= record_bytes(buf@, o as nat, little_endian).skip(32));
            let end = find_nul(rec, 0);
            if end < rec.len() {
                let text = vstd::slice::slice_subrange(rec, 0, end);
                assert(text@ =~= rec@.take(end as int));
                let s = from_utf8_lossy(text);
                if chars_of(s.as_str()).len() > 0 {
                    return Some(s);
                }
            }
        }
        i = i + 1;
    }
    assert(ns.skip(offs.len() as int) =~= Seq::<nat>::empty());
    Some(String::new())
}

/// Whether the working directory can be read from a `KERN_PROC_FILEDESC`
/// buffer: no working-directory record too short for a path comes first.
pub fn cwd_buffer_ok(buf: &[u8], little_endian: bool) -> (r: bool)
    ensures
        r == !cwd_scan_breaks(buf@, record_offsets(buf@, 0, 4, little_endian), little_endian),
{
    cwd_scan(buf, little_endian).is_some()
}

/// The working directory of a process from its `KERN_PROC_FILEDESC`
/// buffer: the path of the first working-directory record that has one.
pub fn proc_cwd_from_buf(buf: &[u8], little_endian: bool) -> (r: String)
    requires
        !record_walk_overflows(buf@, 0, 4, little_endian),
        !cwd_scan_breaks(buf@, record_offsets(buf@, 0, 4, little_endian), little_endian),
    ensures
        r@ == cwd_in(buf@, record_offsets(buf@, 0, 4, little_endian), little_endian),
{
    match cwd_scan(buf, little_endian) {
        Some(s) => s,
        None => String::new(),
    }
}

} // verus!
