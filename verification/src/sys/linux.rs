//! Reading the kernel's text tables on Linux: the socket lines of
//! `/proc/net/{tcp,udp}[6]`, the start time in `/proc/<pid>/stat`, socket
//! links of `/proc/<pid>/fd`, and command lines.
//!
//! Words in `/proc` tables are hexadecimal renderings of native-endian
//! integers; `little_endian` tells how the host stores them.
use vstd::prelude::*;
use vstd::utf8::{encode_utf8, is_ascii_chars};
use crate::kill::KillError;
use crate::model::{file_name, file_name_exec, normalize_addr, normalized_addr, Proto};
use crate::text::{push_str, starts_with, starts_with_str};
use crate::net::{ipv4_text, ipv6_text, push_ipv4, push_ipv6};
use crate::sanitize::{from_utf8_lossy, utf8_lossy};
use crate::text::{chars_eq_str, chars_of, first_index, has_char, last_index, last_index_exec, lemma_first_index, lemma_last_index, parse_unsigned, parse_unsigned_chars, split_words, string_of, sub_chars, trim, trim_str, utf8_len, utf8_len_seq, words, find_char};

verus! {

/// The byte order of a 32-bit word reversed.
pub open spec fn swap32(v: nat) -> nat {
    (v % 256) * 0x1000000 + ((v / 256) % 256) * 0x10000 + ((v / 0x10000) % 256) * 256 + (v
        / 0x1000000) % 256
}

/// The value of a word written by the kernel in host byte order, read as
/// network (big-endian) order.
pub open spec fn network_word(v: nat, little_endian: bool) -> nat {
    if little_endian {
        swap32(v)
    } else {
        v
    }
}

/// The length in bytes of a text (`str::len`).
pub open spec fn text_bytes(s: Seq<char>) -> nat {
    encode_utf8(s).len()
}

/// Byte offset `b` of the UTF-8 text `s` falls between two characters.
pub open spec fn byte_boundary(s: Seq<char>, b: nat) -> bool {
    exists|k: int| 0 <= k <= s.len() && utf8_len_seq(#[trigger] s.take(k)) == b
}

/// A 32-byte hexadecimal text can be cut into four 8-byte pieces (`&s[..]`
/// would stop the program otherwise).
pub open spec fn ipv6_hex_safe(hex: Seq<char>) -> bool {
    text_bytes(hex) == 32 ==> byte_boundary(hex, 8) && byte_boundary(hex, 16) && byte_boundary(
        hex,
        24,
    )
}

/// The `i`-th 8-character piece of `hex`.
pub open spec fn hex_piece(hex: Seq<char>, i: int) -> Seq<char> {
    hex.subrange(8 * i, 8 * i + 8)
}

/// The IPv6 address written as 32 hex digits, four host-order 32-bit words.
pub open spec fn ipv6_hex_value(hex: Seq<char>, little_endian: bool) -> Option<u128> {
    if text_bytes(hex) != 32 || !is_ascii_chars(hex) {
        None
    } else {
        match (
            parse_unsigned(hex_piece(hex, 0), 16, 0xffff_ffff),
            parse_unsigned(hex_piece(hex, 1), 16, 0xffff_ffff),
            parse_unsigned(hex_piece(hex, 2), 16, 0xffff_ffff),
            parse_unsigned(hex_piece(hex, 3), 16, 0xffff_ffff),
        ) {
            (Some(a), Some(b), Some(c), Some(d)) => Some(
                (network_word(a, little_endian) * 0x1_0000_0000_0000_0000_0000_0000
                    + network_word(b, little_endian) * 0x1_0000_0000_0000_0000
                    + network_word(c, little_endian) * 0x1_0000_0000 + network_word(
                    d,
                    little_endian,
                )) as u128,
            ),
            _ => None,
        }
    }
}

/// The text of the IPv6 address written as 32 hex digits.
pub open spec fn ipv6_hex_text(hex: Seq<char>, little_endian: bool) -> Option<Seq<char>> {
    match ipv6_hex_value(hex, little_endian) {
        Some(v) => Some(ipv6_text(v)),
        None => None,
    }
}

/// What comes before the first `:` of `s`.
pub open spec fn before_colon(s: Seq<char>) -> Seq<char> {
    s.take(first_index(s, ':'))
}

/// What comes after the first `:` of `s`.
pub open spec fn after_colon(s: Seq<char>) -> Seq<char> {
    s.skip(first_index(s, ':') + 1)
}

/// The local port of a socket line, when the line has its ten fields, its
/// inode and a nonzero port.
pub open spec fn line_port(f: Seq<Seq<char>>) -> Option<nat> {
    if f.len() < 10 || parse_unsigned(f[9], 10, 0xffff_ffff_ffff_ffff) is None || !has_char(
        f[1],
        ':',
    ) {
        None
    } else {
        match parse_unsigned(after_colon(f[1]), 16, 0xffff) {
            Some(p) => if p == 0 {
                None
            } else {
                Some(p)
            },
            None => None,
        }
    }
}

/// A socket line can be read without stopping the program: its IPv6
/// address, when it is reached, can be cut into pieces.
pub open spec fn proc_net_line_safe(line: Seq<char>, is_v4: bool) -> bool {
    let f = words(line);
    !is_v4 && line_port(f) is Some ==> ipv6_hex_safe(before_colon(f[1]))
}

/// The socket is listening: TCP in state `0A`, UDP with no remote end.
pub open spec fn line_listens(f: Seq<Seq<char>>, proto: Proto) -> bool {
    match proto {
        Proto::Tcp => f[3] == "0A"@,
        Proto::Udp => f[2] == "00000000:0000"@ || f[2] == "00000000000000000000000000000000:0000"@,
    }
}

/// What a line of `/proc/net/{tcp,udp}[6]` gives: the local port, the
/// normalized local address, the inode and whether the socket listens; none
/// for a short line, an unreadable number or address, or port 0.
pub open spec fn proc_net_entry(line: Seq<char>, proto: Proto, is_v4: bool, little_endian: bool) -> Option<
    (u16, Seq<char>, u64, bool),
> {
    let f = words(line);
    match line_port(f) {
        None => None,
        Some(port) => {
            let inode = parse_unsigned(f[9], 10, 0xffff_ffff_ffff_ffff).unwrap();
            let ip_hex = before_colon(f[1]);
            let addr: Option<Seq<char>> = if is_v4 {
                match parse_unsigned(ip_hex, 16, 0xffff_ffff) {
                    Some(n) => Some(ipv4_text(network_word(n, little_endian) as u32)),
                    None => None,
                }
            } else {
                ipv6_hex_text(ip_hex, little_endian)
            };
            match addr {
                Some(a) => Some(
                    (port as u16, normalized_addr(a), inode as u64, line_listens(f, proto)),
                ),
                None => None,
            }
        },
    }
}

/// A socket line read from `/proc/net` counts as listening exactly when a
/// TCP socket is in state LISTEN (`0A`), or a UDP socket has no remote end:
/// its remote field is the null IPv4 endpoint `00000000:0000` or the null
/// IPv6 endpoint.
pub proof fn law_listening_sockets(line: Seq<char>, proto: Proto, is_v4: bool, little_endian: bool)
    ensures
        match proc_net_entry(line, proto, is_v4, little_endian) {
            Some(x) => x.3 <==> match proto {
                Proto::Tcp => words(line)[3] == "0A"@,
                Proto::Udp => words(line)[2] == "00000000:0000"@ || words(line)[2]
                    == "00000000000000000000000000000000:0000"@,
            },
            None => true,
        },
{
}

/// Every character is at least NUL.
proof fn lemma_char_nonneg(c: char)
    ensures
        '\0' <= c,
{
}

// ---------------------------------------------------------------------------
// Executable parsing
// ---------------------------------------------------------------------------

fn swap32_exec(v: u32) -> (r: u32)
    ensures
        r as nat == swap32(v as nat),
{
    let x = v as u64;
    let r = (x % 256) * 0x1000000 + ((x / 256) % 256) * 0x10000 + ((x / 0x10000) % 256) * 256 + (x
        / 0x1000000) % 256;
    r as u32
}

fn network_word_exec(v: u32, little_endian: bool) -> (r: u32)
    ensures
        r as nat == network_word(v as nat, little_endian),
{
    if little_endian {
        swap32_exec(v)
    } else {
        v
    }
}

/// The number of UTF-8 bytes of a string.
fn byte_len(s: &str) -> (r: usize)
    ensures
        r as nat == text_bytes(s@),
{
    s.as_bytes().len()
}

fn utf8_len_of(c: char) -> (r: u128)
    ensures
        r == utf8_len(c),
{
    let u = c as u32;
    if u < 0x80 {
        1
    } else if u < 0x800 {
        2
    } else if u < 0x10000 {
        3
    } else {
        4
    }
}

/// Whether a text can be given to [`parse_ipv6_hex`]: a 32-byte text must
/// have character boundaries at bytes 8, 16 and 24.
pub fn ipv6_hex_ok(hex_str: &str) -> (r: bool)
    ensures
        r == ipv6_hex_safe(hex_str@),
{
    if byte_len(hex_str) != 32 {
        return true;
    }
    let cs = chars_of(hex_str);
    let ghost s = cs@;
    let mut n: u128 = 0;
    let mut hit8 = false;
    let mut hit16 = false;
    let mut hit24 = false;
    let mut k: usize = 0;
    assert(s.take(0) =~= Seq::<char>::empty());
    loop
        invariant_except_break
            hit8 == (exists|j: int| 0 <= j < k && utf8_len_seq(#[trigger] s.take(j)) == 8),
            hit16 == (exists|j: int| 0 <= j < k && utf8_len_seq(#[trigger] s.take(j)) == 16),
            hit24 == (exists|j: int| 0 <= j < k && utf8_len_seq(#[trigger] s.take(j)) == 24),
        invariant
            k <= s.len(),
            s == cs@,
            s == hex_str@,
            n == utf8_len_seq(s.take(k as int)),
            n <= 4 * k,
        ensures
            hit8 == byte_boundary(s, 8),
            hit16 == byte_boundary(s, 16),
            hit24 == byte_boundary(s, 24),
        decreases s.len() - k,
    {
        if n == 8 {
            hit8 = true;
        }
        if n == 16 {
            hit16 = true;
        }
        if n == 24 {
            hit24 = true;
        }
        if k == cs.len() {
            break;
        }
        assert(s.take(k + 1).drop_last() =~= s.take(k as int));
        n = n + utf8_len_of(cs[k]);
        k = k + 1;
    }
    hit8 && hit16 && hit24
}

/// Parses 32 hex digits (four host-order words) into the text of an IPv6
/// address.
pub fn parse_ipv6_hex(hex_str: &str, little_endian: bool) -> (r: Option<String>)
    requires
        ipv6_hex_safe(hex_str@),
    ensures
        match ipv6_hex_text(hex_str@, little_endian) {
            Some(t) => r matches Some(s) && s@ == t,
            None => r is None,
        },
{
    if byte_len(hex_str) != 32 {
        return None;
    }
    let cs = chars_of(hex_str);
    let mut k: usize = 0;
    while k < cs.len()
        invariant
            k <= cs@.len(),
            cs@ == hex_str@,
            forall|j: int| 0 <= j < k ==> '\0' <= #[trigger] cs@[j] <= '\u{7f}',
        decreases cs.len() - k,
    {
        if cs[k] > '\u{7f}' {
            assert(!is_ascii_chars(hex_str@)) by {
                assert(!('\0' <= hex_str@[k as int] <= '\u{7f}'));
            }
            return None;
        }
        proof {
            lemma_char_nonneg(cs@[k as int]);
        }
        k = k + 1;
    }
    proof {
        assert(is_ascii_chars(cs@));
        vstd::utf8::is_ascii_chars_encode_utf8(cs@);
    }
    assert(cs.len() == 32);
    let mut words_v: Vec<u32> = Vec::new();
    let mut i: usize = 0;
    while i < 4
        invariant
            i <= 4,
            cs@ == hex_str@,
            cs@.len() == 32,
            words_v@.len() == i,
            forall|j: int|
                0 <= j < i ==> parse_unsigned(hex_piece(cs@, j), 16, 0xffff_ffff) == Some(
                    #[trigger] words_v@[j] as nat,
                ),
        decreases 4 - i,
    {
        let piece = sub_chars(&cs, 8 * i, 8 * i + 8);
        assert(piece@ == hex_piece(cs@, i as int));
        match parse_unsigned_chars(&piece, 16, 0xffff_ffff) {
            Some(v) => {
                words_v.push(v as u32);
            },
            None => {
                return None;
            },
        }
        i = i + 1;
    }
    let a = network_word_exec(words_v[0], little_endian) as u128;
    let b = network_word_exec(words_v[1], little_endian) as u128;
    let c = network_word_exec(words_v[2], little_endian) as u128;
    let d = network_word_exec(words_v[3], little_endian) as u128;
    let value: u128 = a * 0x1_0000_0000_0000_0000_0000_0000 + b * 0x1_0000_0000_0000_0000 + c
        * 0x1_0000_0000 + d;
    let mut out: Vec<char> = Vec::new();
    push_ipv6(&mut out, value);
    Some(string_of(out.as_slice()))
}

/// Whether a line can be given to [`parse_proc_net_line`]: when an IPv6
/// line has its fields, inode and a nonzero port, its address can be cut into
/// its four pieces.
pub fn proc_net_line_ok(line: &str, is_v4: bool) -> (r: bool)
    ensures
        r == proc_net_line_safe(line@, is_v4),
{
    if is_v4 {
        return true;
    }
    let lc = chars_of(line);
    let fields = split_words(&lc);
    let ghost f = words(line@);
    if fields.len() < 10 {
        return true;
    }
    assert(fields@[1]@ == f[1] && fields@[9]@ == f[9]);
    if parse_unsigned_chars(&fields[9], 10, 0xffff_ffff_ffff_ffff).is_none() {
        return true;
    }
    let local = &fields[1];
    let colon = match find_char(local, ':') {
        Some(k) => k,
        None => {
            return true;
        },
    };
    proof {
        lemma_first_index(local@, ':');
        assert(first_index(local@, ':') == colon as int);
    }
    let ip_hex = sub_chars(local, 0, colon);
    let port_hex = sub_chars(local, colon + 1, local.len());
    assert(ip_hex@ =~= before_colon(local@));
    assert(port_hex@ =~= after_colon(local@));
    match parse_unsigned_chars(&port_hex, 16, 0xffff) {
        Some(p) => {
            if p == 0 {
                return true;
            }
        },
        None => {
            return true;
        },
    }
    let ip = string_of(ip_hex.as_slice());
    ipv6_hex_ok(ip.as_str())
}

/// Parses one line of `/proc/net/{tcp,udp}[6]` into its local port,
/// normalized local address, socket inode and whether the socket listens.
pub fn parse_proc_net_line(line: &str, proto: Proto, is_v4: bool, little_endian: bool) -> (r:
    Option<(u16, String, u64, bool)>)
    requires
        proc_net_line_safe(line@, is_v4),
    ensures
        match proc_net_entry(line@, proto, is_v4, little_endian) {
            Some((port, addr, inode, listening)) => r matches Some(x) && x.0 == port && x.1@ == addr
                && x.2 == inode && x.3 == listening,
            None => r is None,
        },
{
    let lc = chars_of(line);
    let fields = split_words(&lc);
    let ghost f = words(line@);
    if fields.len() < 10 {
        return None;
    }
    assert(fields@[1]@ == f[1] && fields@[2]@ == f[2] && fields@[3]@ == f[3] && fields@[9]@ == f[9]);
    let inode = match parse_unsigned_chars(&fields[9], 10, 0xffff_ffff_ffff_ffff) {
        Some(v) => v,
        None => {
            return None;
        },
    };
    let local = &fields[1];
    let colon = match find_char(local, ':') {
        Some(k) => k,
        None => {
            return None;
        },
    };
    proof {
        lemma_first_index(local@, ':');
        assert(first_index(local@, ':') == colon as int);
    }
    let ip_hex = sub_chars(local, 0, colon);
    let port_hex = sub_chars(local, colon + 1, local.len());
    assert(ip_hex@ =~= before_colon(local@));
    assert(port_hex@ =~= after_colon(local@));
    let port = match parse_unsigned_chars(&port_hex, 16, 0xffff) {
        Some(p) => p as u16,
        None => {
            return None;
        },
    };
    if port == 0 {
        return None;
    }
    let is_listen = match proto {
        Proto::Tcp => chars_eq_str(&fields[3], "0A"),
        Proto::Udp => chars_eq_str(&fields[2], "00000000:0000") || chars_eq_str(
            &fields[2],
            "00000000000000000000000000000000:0000",
        ),
    };
    let addr: String = if is_v4 {
        match parse_unsigned_chars(&ip_hex, 16, 0xffff_ffff) {
            Some(n) => {
                let mut out: Vec<char> = Vec::new();
                push_ipv4(&mut out, network_word_exec(n as u32, little_endian));
                string_of(out.as_slice())
            },
            None => {
                return None;
            },
        }
    } else {
        let hex = string_of(ip_hex.as_slice());
        match parse_ipv6_hex(hex.as_str(), little_endian) {
            Some(t) => t,
            None => {
                return None;
            },
        }
    };
    Some((port, normalize_addr(addr.as_str()), inode, is_listen))
}

// ---------------------------------------------------------------------------
// /proc/<pid>/stat
// ---------------------------------------------------------------------------

/// The text after the last `)` of a stat line can be taken from two bytes
/// on (`&s[k + 2..]` would stop the program otherwise): a one-byte character
/// follows that `)`.
pub open spec fn stat_safe(s: Seq<char>) -> bool {
    let k = last_index(s, ')');
    k >= 0 ==> k + 1 < s.len() && utf8_len(s[k + 1]) == 1
}

/// The start time in a `/proc/<pid>/stat` line: field 22, the twentieth
/// word after the `) ` that ends the command name; none when missing,
/// unreadable or zero.
pub open spec fn stat_start_token(s: Seq<char>) -> Option<nat> {
    let k = last_index(s, ')');
    if k < 0 {
        None
    } else {
        let f = words(s.skip(k + 2));
        if f.len() > 19 {
            match parse_unsigned(f[19], 10, 0xffff_ffff_ffff_ffff) {
                Some(t) => if t == 0 {
                    None
                } else {
                    Some(t)
                },
                None => None,
            }
        } else {
            None
        }
    }
}

/// Whether a `/proc/<pid>/stat` line can be given to
/// [`start_token_from_stat`]: after its last `)` comes a one-byte character.
pub fn stat_ok(content: &str) -> (r: bool)
    ensures
        r == stat_safe(content@),
{
    let cs = chars_of(content);
    proof {
        lemma_last_index(cs@, ')');
    }
    match last_index_exec(&cs, ')') {
        None => true,
        Some(k) => k + 1 < cs.len() && (cs[k + 1] as u32) < 0x80,
    }
}

/// The start token of a process from the text of its `/proc/<pid>/stat`;
/// a missing, unreadable or zero start time is a missing identity.
pub fn start_token_from_stat(content: &str) -> (r: Result<u64, KillError>)
    requires
        stat_safe(content@),
    ensures
        match stat_start_token(content@) {
            Some(t) => r matches Ok(v) && v as nat == t,
            None => r matches Err(e) && e == KillError::MissingIdentity,
        },
{
    let cs = chars_of(content);
    let close = match last_index_exec(&cs, ')') {
        Some(k) => k,
        None => {
            return Err(KillError::MissingIdentity);
        },
    };
    let rest = sub_chars(&cs, close + 2, cs.len());
    assert(rest@ =~= cs@.skip(close + 2));
    let fields = split_words(&rest);
    if fields.len() > 19 {
        assert(fields@[19]@ == words(rest@)[19]);
        match parse_unsigned_chars(&fields[19], 10, 0xffff_ffff_ffff_ffff) {
            Some(token) => {
                if token == 0 {
                    return Err(KillError::MissingIdentity);
                }
                return Ok(token);
            },
            None => {
                return Err(KillError::MissingIdentity);
            },
        }
    }
    Err(KillError::MissingIdentity)
}

// ---------------------------------------------------------------------------
// Socket links and command lines
// ---------------------------------------------------------------------------

/// The inode of a file descriptor link `socket:[<inode>]`.
pub open spec fn socket_link_inode(t: Seq<char>) -> Option<nat> {
    let rest = t.skip("socket:["@.len() as int);
    if starts_with(t, "socket:["@) && rest.len() > 0 && rest.last() == ']' {
        parse_unsigned(rest.drop_last(), 10, 0xffff_ffff_ffff_ffff)
    } else {
        None
    }
}

/// The socket inode that a file descriptor link points to, if it is a
/// socket.
pub fn socket_inode(target: &str) -> (r: Option<u64>)
    ensures
        match socket_link_inode(target@) {
            Some(n) => r == Some(n as u64),
            None => r is None,
        },
{
    let t = chars_of(target);
    if !starts_with_str(&t, "socket:[") {
        return None;
    }
    let skip = chars_of("socket:[").len();
    if t.len() <= skip || t[t.len() - 1] != ']' {
        return None;
    }
    let inner = sub_chars(&t, skip, t.len() - 1);
    assert(inner@ =~= t@.skip("socket:["@.len() as int).drop_last());
    match parse_unsigned_chars(&inner, 10, 0xffff_ffff_ffff_ffff) {
        Some(v) => Some(v),
        None => None,
    }
}

/// The position of the first NUL byte of `b` from `i` on, or its length.
pub open spec fn next_nul(b: Seq<u8>, i: int) -> int
    decreases b.len() - i,
{
    if i < 0 || i >= b.len() {
        b.len() as int
    } else if b[i] == 0 {
        i
    } else {
        next_nul(b, i + 1)
    }
}

pub proof fn lemma_next_nul(b: Seq<u8>, i: int)
    requires
        0 <= i <= b.len(),
    ensures
        i <= next_nul(b, i) <= b.len(),
        next_nul(b, i) < b.len() ==> b[next_nul(b, i)] == 0,
    decreases b.len() - i,
{
    if i < b.len() && b[i] != 0 {
        lemma_next_nul(b, i + 1);
    }
}

/// The non-empty NUL-separated pieces of `b` from position `i` on.
pub open spec fn nul_pieces(b: Seq<u8>, i: int) -> Seq<Seq<u8>>
    decreases b.len() - i,
{
    if i < 0 || i >= b.len() {
        seq![]
    } else {
        proof {
            lemma_next_nul(b, i);
        }
        let j = next_nul(b, i);
        let head: Seq<Seq<u8>> = if j > i {
            seq![b.subrange(i, j)]
        } else {
            seq![]
        };
        if j >= b.len() {
            head
        } else {
            head + nul_pieces(b, j + 1)
        }
    }
}

/// Texts joined with single spaces.
pub open spec fn space_joined(items: Seq<Seq<char>>) -> Seq<char>
    decreases items.len(),
{
    if items.len() == 0 {
        seq![]
    } else if items.len() == 1 {
        items[0]
    } else {
        space_joined(items.drop_last()) + seq![' '] + items.last()
    }
}

/// A command line stored as NUL-terminated arguments: the non-empty
/// arguments, each decoded leniently, joined with spaces.
pub open spec fn cmdline_text(b: Seq<u8>) -> Seq<char> {
    space_joined(lossy_pieces(nul_pieces(b, 0)))
}

/// Copies `bytes[lo..hi]`.
pub(crate) fn copy_bytes(bytes: &[u8], lo: usize, hi: usize) -> (r: Vec<u8>)
    requires
        lo <= hi <= bytes@.len(),
    ensures
        r@ == bytes@.subrange(lo as int, hi as int),
{
    let mut piece: Vec<u8> = Vec::new();
    let mut k = lo;
    while k < hi
        invariant
            lo <= k <= hi <= bytes@.len(),
            piece@ == bytes@.subrange(lo as int, k as int),
        decreases hi - k,
    {
        piece.push(bytes[k]);
        k = k + 1;
        assert(piece@ =~= bytes@.subrange(lo as int, k as int));
    }
    piece
}

/// The position of the first NUL byte from `start` on, or the length.
pub(crate) fn find_nul(bytes: &[u8], start: usize) -> (r: usize)
    requires
        start <= bytes@.len(),
    ensures
        r as int == next_nul(bytes@, start as int),
        start <= r <= bytes@.len(),
{
    proof {
        lemma_next_nul(bytes@, start as int);
    }
    let mut j = start;
    while j < bytes.len() && bytes[j] != 0
        invariant
            start <= j <= bytes@.len(),
            next_nul(bytes@, start as int) == next_nul(bytes@, j as int),
        decreases bytes.len() - j,
    {
        j = j + 1;
    }
    j
}

/// The views of strings.
pub open spec fn texts_of(v: Seq<String>) -> Seq<Seq<char>> {
    v.map_values(|t: String| t@)
}

/// The pieces decoded leniently.
pub open spec fn lossy_pieces(ps: Seq<Seq<u8>>) -> Seq<Seq<char>> {
    ps.map_values(|p: Seq<u8>| utf8_lossy(p))
}

/// The non-empty NUL-separated arguments, each decoded leniently.
fn decode_args(bytes: &[u8]) -> (r: Vec<String>)
    ensures
        texts_of(r@) == lossy_pieces(nul_pieces(bytes@, 0)),
{
    let ghost b = bytes@;
    let mut texts: Vec<String> = Vec::new();
    let mut start: usize = 0;
    while start < bytes.len()
        invariant
            start <= bytes@.len(),
            b == bytes@,
            lossy_pieces(nul_pieces(b, 0)) == texts_of(texts@) + lossy_pieces(nul_pieces(b, start as int)),
        decreases bytes.len() - start,
    {
        let j = find_nul(bytes, start);
        let ghost before = texts_of(texts@);
        if j > start {
            let piece = copy_bytes(bytes, start, j);
            let t = from_utf8_lossy(piece.as_slice());
            texts.push(t);
            assert(texts_of(texts@) =~= before.push(utf8_lossy(b.subrange(start as int, j as int))));
        }
        if j >= bytes.len() {
            assert(lossy_pieces(nul_pieces(b, start as int)) =~= (if j > start {
                seq![utf8_lossy(b.subrange(start as int, j as int))]
            } else {
                seq![]
            }));
            assert(nul_pieces(b, bytes.len() as int) =~= Seq::<Seq<u8>>::empty());
            start = bytes.len();
        } else {
            assert(lossy_pieces(nul_pieces(b, start as int)) =~= (if j > start {
                seq![utf8_lossy(b.subrange(start as int, j as int))]
            } else {
                seq![]
            }) + lossy_pieces(nul_pieces(b, j + 1)));
            start = j + 1;
        }
        assert(lossy_pieces(nul_pieces(b, 0)) =~= texts_of(texts@) + lossy_pieces(
            nul_pieces(b, start as int),
        ));
    }
    assert(nul_pieces(b, start as int) =~= Seq::<Seq<u8>>::empty());
    assert(texts_of(texts@) =~= lossy_pieces(nul_pieces(b, 0)));
    texts
}

/// Texts joined with single spaces.
pub fn join_spaces(texts: &Vec<String>) -> (r: String)
    ensures
        r@ == space_joined(texts_of(texts@)),
{
    let ghost all = texts_of(texts@);
    let mut out: Vec<char> = Vec::new();
    let mut i: usize = 0;
    while i < texts.len()
        invariant
            i <= texts@.len(),
            all == texts_of(texts@),
            out@ == space_joined(all.take(i as int)),
        decreases texts.len() - i,
    {
        assert(all.take(i + 1).drop_last() =~= all.take(i as int));
        if i > 0 {
            out.push(' ');
        }
        push_str(&mut out, texts[i].as_str());
        i = i + 1;
    }
    assert(all.take(texts.len() as int) =~= all);
    string_of(out.as_slice())
}

/// The command line from the NUL-separated arguments of a process.
pub fn cmdline_from_bytes(bytes: &[u8]) -> (r: String)
    ensures
        r@ == cmdline_text(bytes@),
{
    let texts = decode_args(bytes);
    join_spaces(&texts)
}

/// The name of a process: the file name of its executable's path, or else
/// its trimmed `comm` name, or nothing.
pub open spec fn process_name_text(path: Seq<char>, comm: Option<Seq<char>>) -> Seq<char> {
    match file_name(path) {
        Some(n) => n,
        None => match comm {
            Some(c) => trim(c),
            None => seq![],
        },
    }
}

/// The name of a process from the path of its executable and, read only
/// when the path has no file name, its `comm` name.
pub fn process_name(path: &str, comm: Option<&str>) -> (r: String)
    ensures
        r@ == process_name_text(
            path@,
            match comm {
                Some(c) => Some(c@),
                None => None,
            },
        ),
{
    let p = chars_of(path);
    match file_name_exec(&p) {
        Some(n) => string_of(n.as_slice()),
        None => match comm {
            Some(c) => string_of(trim_str(c).as_slice()),
            None => String::new(),
        },
    }
}

/// Whether the path of an executable has a file name (the `comm` name is
/// needed otherwise).
pub fn has_file_name(path: &str) -> (r: bool)
    ensures
        r == (file_name(path@) is Some),
{
    let p = chars_of(path);
    file_name_exec(&p).is_some()
}

} // verus!
