//! The listener model: protocols, socket entries, process identities, CIDR
//! subnets, sort keys, and the address and path helpers used to display them.
use vstd::prelude::*;
use crate::net::{Ip, ipv4_mapped, ipv4_text, ipv6_text, parse_ip, parse_ip_chars, push_ipv4, push_ipv6, ipv4_mapped_exec};
use crate::text::{chars_eq, chars_of, dec_int, dec_nat, first_index, first_index_exec, has_char, last_index, last_index_exec, lemma_first_index, parse_unsigned, parse_unsigned_chars, push_all, push_dec, push_str, starts_with, starts_with_chars, string_of, sub_chars, trim, trim_chars, find_char};

verus! {

/// Transport layer protocol.
#[derive(Debug, Clone, Copy, PartialEq, Eq, Structural, Hash, PartialOrd, Ord)]
pub enum Proto {
    Tcp,
    Udp,
}

/// Lowercase protocol name.
pub open spec fn proto_name(p: Proto) -> Seq<char> {
    match p {
        Proto::Tcp => seq!['t', 'c', 'p'],
        Proto::Udp => seq!['u', 'd', 'p'],
    }
}

impl Proto {
    /// Lowercase protocol name (`"tcp"` or `"udp"`).
    pub fn as_str(self) -> (r: &'static str)
        ensures
            r@ == proto_name(self),
    {
        match self {
            Proto::Tcp => {
                proof {
                    reveal_strlit("tcp");
                }
                "tcp"
            },
            Proto::Udp => {
                proof {
                    reveal_strlit("udp");
                }
                "udp"
            },
        }
    }
}

/// A listening or bound network socket and its owning process metadata.
#[derive(Debug, PartialEq, Eq)]
pub struct Entry {
    pub proto: Proto,
    pub port: u16,
    pub addr: String,
    pub pid: i32,
    pub name: String,
    pub path: String,
    pub cmdline: String,
    pub cwd: String,
    pub project: String,
    pub start: u64,
}

/// The mathematical value of an [`Entry`]: its text fields as character
/// sequences.
pub ghost struct EntryView {
    pub proto: Proto,
    pub port: u16,
    pub addr: Seq<char>,
    pub pid: i32,
    pub name: Seq<char>,
    pub path: Seq<char>,
    pub cmdline: Seq<char>,
    pub cwd: Seq<char>,
    pub project: Seq<char>,
    pub start: u64,
}

impl View for Entry {
    type V = EntryView;

    open spec fn view(&self) -> EntryView {
        EntryView {
            proto: self.proto,
            port: self.port,
            addr: self.addr@,
            pid: self.pid,
            name: self.name@,
            path: self.path@,
            cmdline: self.cmdline@,
            cwd: self.cwd@,
            project: self.project@,
            start: self.start,
        }
    }
}

impl Clone for Entry {
    fn clone(&self) -> (r: Self)
        ensures
            r@ == self@,
    {
        Entry {
            proto: self.proto,
            port: self.port,
            addr: self.addr.clone(),
            pid: self.pid,
            name: self.name.clone(),
            path: self.path.clone(),
            cmdline: self.cmdline.clone(),
            cwd: self.cwd.clone(),
            project: self.project.clone(),
            start: self.start,
        }
    }
}

/// The views of a sequence of entries.
pub open spec fn views(s: Seq<Entry>) -> Seq<EntryView> {
    s.map_values(|e: Entry| e@)
}

/// The unique key of an endpoint: `proto:port:addr:pid`.
pub open spec fn entry_key(e: EntryView) -> Seq<char> {
    proto_name(e.proto) + seq![':'] + dec_nat(e.port as nat) + seq![':'] + e.addr + seq![':']
        + dec_int(e.pid as int)
}

/// Identity token used for safe process termination.
#[derive(Debug, Clone, Copy, PartialEq, Eq, Structural, Hash)]
pub struct Ident {
    pub pid: i32,
    pub start: u64,
}

impl Entry {
    /// Produces a unique key representing this endpoint.
    pub fn key(&self) -> (r: String)
        ensures
            r@ == entry_key(self@),
    {
        let v = key_chars(self);
        string_of(v.as_slice())
    }

    /// Returns the process identification token.
    pub fn ident(&self) -> (r: Ident)
        ensures
            r.pid == self.pid,
            r.start == self.start,
    {
        Ident { pid: self.pid, start: self.start }
    }

    /// Parses the address into an IP address, ignoring any `%scope` zone.
    pub fn parse_ip(&self) -> (r: Option<Ip>)
        ensures
            r == clean_ip(self.addr@),
    {
        parse_clean_ip(self.addr.as_str())
    }
}

/// The key of an entry, as characters.
pub fn key_chars(e: &Entry) -> (r: Vec<char>)
    ensures
        r@ == entry_key(e@),
{
    let mut v: Vec<char> = Vec::new();
    push_str(&mut v, e.proto.as_str());
    v.push(':');
    push_dec(&mut v, e.port as u64);
    v.push(':');
    push_str(&mut v, e.addr.as_str());
    v.push(':');
    let d = crate::text::dec_i64(e.pid as i64);
    push_all(&mut v, &d);
    assert(v@ =~= entry_key(e@));
    v
}

// ---------------------------------------------------------------------------
// CIDR subnets
// ---------------------------------------------------------------------------

/// Parsed CIDR subnet for IP range matching.
#[derive(Debug, Clone, Copy, PartialEq, Eq, Structural)]
pub struct Cidr {
    pub ip: Ip,
    pub prefix_len: u8,
}

/// Number of bits of an address of the family of `ip`.
pub open spec fn addr_bits(ip: Ip) -> nat {
    match ip {
        Ip::V4(_) => 32,
        Ip::V6(_) => 128,
    }
}

/// The prefix length fits the address family.
pub open spec fn cidr_wf(c: Cidr) -> bool {
    c.prefix_len as nat <= addr_bits(c.ip)
}

/// The first `len` bits of two IPv4 addresses agree.
pub open spec fn same_prefix_v4(a: u32, b: u32, len: u8) -> bool {
    len == 0 || (a >> ((32 - len) as u32)) == (b >> ((32 - len) as u32))
}

/// The first `len` bits of two IPv6 addresses agree.
pub open spec fn same_prefix_v6(a: u128, b: u128, len: u8) -> bool {
    len == 0 || (a >> ((128 - len) as u128)) == (b >> ((128 - len) as u128))
}

/// `net/len` contains `t`: the leading `len` bits agree; an IPv4-mapped IPv6
/// subnet is compared to an IPv4 address on its IPv4 part (with `len - 96`
/// bits, at most 32), and an IPv4-mapped IPv6 address is compared to an IPv4
/// subnet by its IPv4 part; other mixes of families never match.
pub open spec fn cidr_contains(net: Ip, len: u8, t: Ip) -> bool {
    match (net, t) {
        (Ip::V4(n), Ip::V4(x)) => same_prefix_v4(n, x, len),
        (Ip::V6(n), Ip::V6(x)) => same_prefix_v6(n, x, len),
        (Ip::V6(n), Ip::V4(x)) => match ipv4_mapped(n) {
            Some(m) => same_prefix_v4(m, x, mapped_len(len)),
            None => false,
        },
        (Ip::V4(n), Ip::V6(x)) => match ipv4_mapped(x) {
            Some(m) => same_prefix_v4(n, m, len),
            None => false,
        },
    }
}

/// A subnet contains its own address.
pub proof fn law_cidr_contains_own_address(c: Cidr)
    ensures
        cidr_contains(c.ip, c.prefix_len, c.ip),
{
}

/// A subnet with an empty prefix contains every address of its family, and
/// one with a full-length prefix exactly its own address.
pub proof fn law_cidr_prefix_extremes(n: Ip, t: Ip)
    ensures
        (n is V4 && t is V4) || (n is V6 && t is V6) ==> cidr_contains(n, 0, t),
        n is V4 && t is V4 ==> (cidr_contains(n, 32, t) <==> n == t),
        n is V6 && t is V6 ==> (cidr_contains(n, 128, t) <==> n == t),
{
    match (n, t) {
        (Ip::V4(a), Ip::V4(b)) => {
            assert((a >> 0u32) == a && (b >> 0u32) == b) by (bit_vector);
        },
        (Ip::V6(a), Ip::V6(b)) => {
            assert((a >> 0u128) == a && (b >> 0u128) == b) by (bit_vector);
        },
        _ => {},
    }
}

/// The IPv4 prefix length that an IPv6 prefix length gives on mapped
/// addresses: `len - 96`, saturating at 0, at most 32.
pub open spec fn mapped_len(len: u8) -> u8 {
    if len <= 96 {
        0
    } else if len - 96 > 32 {
        32
    } else {
        (len - 96) as u8
    }
}

/// What `Cidr::parse` gives: `ip/len` split at the first `/`, the address
/// parsed as an IP address, the length as a `u8` not above the family's bits.
pub open spec fn parse_cidr(s: Seq<char>) -> Option<Cidr> {
    let i = first_index(s, '/');
    if i >= s.len() {
        None
    } else {
        match parse_ip(s.take(i)) {
            None => None,
            Some(ip) => match parse_unsigned(s.skip(i + 1), 10, 255) {
                None => None,
                Some(n) => if n <= addr_bits(ip) {
                    Some(Cidr { ip, prefix_len: n as u8 })
                } else {
                    None
                },
            },
        }
    }
}

fn prefix_match_v4(a: u32, b: u32, len: u8) -> (r: bool)
    requires
        len <= 32,
    ensures
        r == same_prefix_v4(a, b, len),
{
    if len == 0 {
        return true;
    }
    let sh: u32 = (32 - len) as u32;
    let mask: u32 = !0u32 << sh;
    let r = (a & mask) == (b & mask);
    assert(((a & (!0u32 << sh)) == (b & (!0u32 << sh))) == ((a >> sh) == (b >> sh)))
        by (bit_vector)
        requires
            sh < 32,
    ;
    r
}

fn prefix_match_v6(a: u128, b: u128, len: u8) -> (r: bool)
    requires
        len <= 128,
    ensures
        r == same_prefix_v6(a, b, len),
{
    if len == 0 {
        return true;
    }
    let sh: u128 = (128 - len) as u128;
    (a >> sh) == (b >> sh)
}

impl Cidr {
    /// Attempts to parse a CIDR string (e.g. "127.0.0.0/8" or "fe80::/10").
    pub fn parse(s: &str) -> (r: Option<Cidr>)
        ensures
            r == parse_cidr(s@),
            r matches Some(c) ==> cidr_wf(c),
    {
        let v = chars_of(s);
        Self::parse_chars(&v)
    }

    /// [`Cidr::parse`] on characters.
    pub fn parse_chars(v: &Vec<char>) -> (r: Option<Cidr>)
        ensures
            r == parse_cidr(v@),
            r matches Some(c) ==> cidr_wf(c),
    {
        let i = first_index_exec(v, '/');
        if i >= v.len() {
            return None;
        }
        let ip_part = sub_chars(v, 0, i);
        let len_part = sub_chars(v, i + 1, v.len());
        assert(ip_part@ =~= v@.take(i as int));
        assert(len_part@ =~= v@.skip(i + 1));
        let ip = match parse_ip_chars(&ip_part) {
            Some(ip) => ip,
            None => return None,
        };
        let n = match parse_unsigned_chars(&len_part, 10, 255) {
            Some(n) => n,
            None => return None,
        };
        let max: u64 = match ip {
            Ip::V4(_) => 32,
            Ip::V6(_) => 128,
        };
        if n > max {
            return None;
        }
        Some(Cidr { ip, prefix_len: n as u8 })
    }

    /// Checks if a given IP address belongs to this CIDR subnet.
    pub fn contains(&self, target: Ip) -> (r: bool)
        requires
            cidr_wf(*self),
        ensures
            r == cidr_contains(self.ip, self.prefix_len, target),
    {
        match (self.ip, target) {
            (Ip::V4(n), Ip::V4(x)) => prefix_match_v4(n, x, self.prefix_len),
            (Ip::V6(n), Ip::V6(x)) => prefix_match_v6(n, x, self.prefix_len),
            (Ip::V6(n), Ip::V4(x)) => match ipv4_mapped_exec(n) {
                Some(m) => {
                    let l = self.prefix_len;
                    let ml: u8 = if l <= 96 {
                        0
                    } else if l - 96 > 32 {
                        32
                    } else {
                        l - 96
                    };
                    prefix_match_v4(m, x, ml)
                },
                None => false,
            },
            (Ip::V4(n), Ip::V6(x)) => match ipv4_mapped_exec(x) {
                Some(m) => prefix_match_v4(n, m, self.prefix_len),
                None => false,
            },
        }
    }
}

// ---------------------------------------------------------------------------
// Sort keys
// ---------------------------------------------------------------------------

/// Column sort key in TUI / table output.
#[derive(Debug, Clone, Copy, PartialEq, Eq, Structural)]
pub enum SortKey {
    Port,
    Proto,
    Addr,
    Pid,
    Name,
    Project,
}

impl Default for SortKey {
    fn default() -> (r: Self)
        ensures
            r == SortKey::Port,
    {
        SortKey::Port
    }
}

/// Name of a sort key as shown in the TUI.
pub open spec fn sort_key_name(k: SortKey) -> Seq<char> {
    match k {
        SortKey::Port => seq!['p', 'o', 'r', 't'],
        SortKey::Proto => seq!['p', 'r', 'o', 't', 'o'],
        SortKey::Addr => seq!['a', 'd', 'd', 'r'],
        SortKey::Pid => seq!['p', 'i', 'd'],
        SortKey::Name => seq!['p', 'r', 'o', 'c', 'e', 's', 's'],
        SortKey::Project => seq!['p', 'r', 'o', 'j', 'e', 'c', 't'],
    }
}

/// The sort key that follows `k` in the cycle port, proto, addr, pid, process,
/// project, port.
pub open spec fn sort_key_next(k: SortKey) -> SortKey {
    match k {
        SortKey::Port => SortKey::Proto,
        SortKey::Proto => SortKey::Addr,
        SortKey::Addr => SortKey::Pid,
        SortKey::Pid => SortKey::Name,
        SortKey::Name => SortKey::Project,
        SortKey::Project => SortKey::Port,
    }
}

impl SortKey {
    /// Name of the key as shown in the TUI.
    pub fn as_str(self) -> (r: &'static str)
        ensures
            r@ == sort_key_name(self),
    {
        match self {
            SortKey::Port => {
                proof {
                    reveal_strlit("port");
                }
                "port"
            },
            SortKey::Proto => {
                proof {
                    reveal_strlit("proto");
                }
                "proto"
            },
            SortKey::Addr => {
                proof {
                    reveal_strlit("addr");
                }
                "addr"
            },
            SortKey::Pid => {
                proof {
                    reveal_strlit("pid");
                }
                "pid"
            },
            SortKey::Name => {
                proof {
                    reveal_strlit("process");
                }
                "process"
            },
            SortKey::Project => {
                proof {
                    reveal_strlit("project");
                }
                "project"
            },
        }
    }

    /// The next key in the cycle.
    pub fn next(self) -> (r: SortKey)
        ensures
            r == sort_key_next(self),
    {
        match self {
            SortKey::Port => SortKey::Proto,
            SortKey::Proto => SortKey::Addr,
            SortKey::Addr => SortKey::Pid,
            SortKey::Pid => SortKey::Name,
            SortKey::Name => SortKey::Project,
            SortKey::Project => SortKey::Port,
        }
    }
}

// ---------------------------------------------------------------------------
// Addresses and paths
// ---------------------------------------------------------------------------

/// `addr:port`, with the address in brackets when it holds a `:`.
pub open spec fn endpoint_text(addr: Seq<char>, port: u16) -> Seq<char> {
    if has_char(addr, ':') {
        seq!['['] + addr + seq![']', ':'] + dec_nat(port as nat)
    } else {
        addr + seq![':'] + dec_nat(port as nat)
    }
}

/// Formats address and port as standard endpoint (e.g. `127.0.0.1:8080` or `[::1]:8080`).
pub fn endpoint(addr: &str, port: u16) -> (r: String)
    ensures
        r@ == endpoint_text(addr@, port),
{
    let a = chars_of(addr);
    let mut v: Vec<char> = Vec::new();
    match find_char(&a, ':') {
        Some(_) => {
            v.push('[');
            push_all(&mut v, &a);
            v.push(']');
            v.push(':');
        },
        None => {
            push_all(&mut v, &a);
            v.push(':');
        },
    }
    push_dec(&mut v, port as u64);
    assert(v@ =~= endpoint_text(addr@, port));
    string_of(v.as_slice())
}

/// The address part of `clean`: what comes before the first `%`.
pub open spec fn before_percent(clean: Seq<char>) -> Seq<char> {
    clean.take(first_index(clean, '%'))
}

/// What `normalize_addr` gives: `*` for a blank address; otherwise the trimmed
/// address, and when (before any `%scope`) it parses as an IP address, its
/// canonical text instead: IPv4-mapped IPv6 addresses as plain IPv4, and other
/// IPv6 addresses keep their `%scope`.
pub open spec fn normalized_addr(addr: Seq<char>) -> Seq<char> {
    let clean = trim(addr);
    if clean.len() == 0 {
        seq!['*']
    } else {
        let i = first_index(clean, '%');
        let ip_part = clean.take(i);
        match parse_ip(ip_part) {
            Some(Ip::V4(a)) => ipv4_text(a),
            Some(Ip::V6(v)) => match ipv4_mapped(v) {
                Some(m) => ipv4_text(m),
                None => if i < clean.len() {
                    ipv6_text(v) + seq!['%'] + clean.skip(i + 1)
                } else {
                    ipv6_text(v)
                },
            },
            None => clean,
        }
    }
}

/// An IPv4-mapped IPv6 address (such as `::ffff:127.0.0.1`), with or
/// without a `%scope`, is normalized to the plain IPv4 address.
pub proof fn law_mapped_ipv6_normalizes_to_ipv4(s: Seq<char>, v: u128)
    requires
        trim(s) == s,
        parse_ip(s.take(first_index(s, '%'))) == Some(Ip::V6(v)),
        ipv4_mapped(v) is Some,
    ensures
        normalized_addr(s) == ipv4_text(ipv4_mapped(v)->0),
{
    if s.len() == 0 {
        assert(s.take(first_index(s, '%')) =~= s);
    }
}

/// Normalizes raw IP addresses, converting IPv4-mapped IPv6 addresses
/// (`::ffff:127.0.0.1`) to clean IPv4 notation.
pub fn normalize_addr(addr: &str) -> (r: String)
    ensures
        r@ == normalized_addr(addr@),
{
    let v = normalize_addr_chars(addr);
    string_of(v.as_slice())
}

/// [`normalize_addr`] giving characters.
pub fn normalize_addr_chars(addr: &str) -> (r: Vec<char>)
    ensures
        r@ == normalized_addr(addr@),
{
    let raw = chars_of(addr);
    let clean = trim_chars(&raw);
    let mut out: Vec<char> = Vec::new();
    if clean.len() == 0 {
        out.push('*');
        assert(out@ =~= seq!['*']);
        return out;
    }
    let i = first_index_exec(&clean, '%');
    proof {
        lemma_first_index(clean@, '%');
    }
    let ip_part = sub_chars(&clean, 0, i);
    assert(ip_part@ =~= clean@.take(i as int));
    match parse_ip_chars(&ip_part) {
        Some(Ip::V4(a)) => {
            push_ipv4(&mut out, a);
        },
        Some(Ip::V6(v6)) => match ipv4_mapped_exec(v6) {
            Some(m) => {
                push_ipv4(&mut out, m);
            },
            None => {
                push_ipv6(&mut out, v6);
                if i < clean.len() {
                    out.push('%');
                    let scope = sub_chars(&clean, i + 1, clean.len());
                    assert(scope@ =~= clean@.skip(i + 1));
                    push_all(&mut out, &scope);
                }
            },
        },
        None => {
            return clean;
        },
    }
    assert(out@ =~= normalized_addr(addr@));
    out
}

/// What `parse_clean_ip` gives: the trimmed address before any `%`, parsed.
pub open spec fn clean_ip(addr: Seq<char>) -> Option<Ip> {
    parse_ip(before_percent(trim(addr)))
}

/// Parses an IP address from string, ignoring any trailing `%scope` zone.
pub fn parse_clean_ip(addr: &str) -> (r: Option<Ip>)
    ensures
        r == clean_ip(addr@),
{
    let raw = chars_of(addr);
    let clean = trim_chars(&raw);
    let i = first_index_exec(&clean, '%');
    proof {
        lemma_first_index(clean@, '%');
    }
    let ip_part = sub_chars(&clean, 0, i);
    assert(ip_part@ =~= before_percent(clean@));
    parse_ip_chars(&ip_part)
}

/// What `short_cwd` gives: the home directory itself as `~`, paths under it
/// as `~/rest`, anything else unchanged.
pub open spec fn short_cwd_text(cwd: Seq<char>, home: Option<Seq<char>>) -> Seq<char> {
    if cwd.len() == 0 {
        seq![]
    } else {
        match home {
            Some(h) => if cwd == h {
                seq!['~']
            } else if starts_with(cwd, h.push('/')) {
                seq!['~', '/'] + cwd.skip(h.len() + 1int)
            } else {
                cwd
            },
            None => cwd,
        }
    }
}

/// Shortens absolute directory paths by replacing the user's home directory
/// (`home`, when known) with `~`.
pub fn short_cwd(cwd: &str, home: Option<&str>) -> (r: String)
    ensures
        r@ == short_cwd_text(
            cwd@,
            match home {
                Some(h) => Some(h@),
                None => None,
            },
        ),
{
    let c = chars_of(cwd);
    if c.len() == 0 {
        return string_of(c.as_slice());
    }
    match home {
        Some(h) => {
            let hv = chars_of(h);
            if chars_eq(&c, &hv) {
                let mut v: Vec<char> = Vec::new();
                v.push('~');
                assert(v@ =~= seq!['~']);
                return string_of(v.as_slice());
            }
            let mut prefix = hv.clone();
            assert(prefix@ == hv@);
            prefix.push('/');
            if starts_with_chars(&c, &prefix) {
                let mut v: Vec<char> = Vec::new();
                v.push('~');
                v.push('/');
                let rest = sub_chars(&c, prefix.len(), c.len());
                push_all(&mut v, &rest);
                assert(v@ =~= seq!['~', '/'] + c@.skip(hv@.len() + 1int));
                return string_of(v.as_slice());
            }
            string_of(c.as_slice())
        },
        None => string_of(c.as_slice()),
    }
}

/// `p` without trailing separators and trailing `.` components.
pub open spec fn trim_path_end(p: Seq<char>) -> Seq<char>
    decreases p.len(),
{
    if p.len() > 0 && p.last() == '/' {
        trim_path_end(p.drop_last())
    } else if p.len() == 1 && p[0] == '.' {
        seq![]
    } else if p.len() >= 2 && p.last() == '.' && p[p.len() - 2] == '/' {
        trim_path_end(p.drop_last())
    } else {
        p
    }
}

/// The final component of a Unix path (`Path::file_name`): none for an empty
/// path, the root, or a path that ends in `..`.
pub open spec fn file_name(p: Seq<char>) -> Option<Seq<char>> {
    let t = trim_path_end(p);
    let comp = t.skip(last_index(t, '/') + 1);
    if comp.len() == 0 || comp == seq!['.', '.'] {
        None
    } else {
        Some(comp)
    }
}

/// What `project_name` gives: the final component of the working directory,
/// or nothing for an empty directory, the home directory, a directory without
/// a final component, or one whose final component is a lone separator.
pub open spec fn project_name_text(cwd: Seq<char>, home: Option<Seq<char>>) -> Seq<char> {
    if cwd.len() == 0 {
        seq![]
    } else {
        let name = match file_name(cwd) {
            Some(n) => n,
            None => seq![],
        };
        if home is Some && (cwd == home->0 || name.len() == 0) {
            seq![]
        } else if name == seq!['/'] || name == seq!['\\'] {
            seq![]
        } else {
            name
        }
    }
}

fn trim_path_end_exec(p: &Vec<char>) -> (r: usize)
    ensures
        r <= p.len(),
        trim_path_end(p@) == p@.take(r as int),
{
    let mut n = p.len();
    assert(p@.take(n as int) =~= p@);
    loop
        invariant
            n <= p.len(),
            trim_path_end(p@) == trim_path_end(p@.take(n as int)),
        decreases n,
    {
        let ghost t = p@.take(n as int);
        if n > 0 && p[n - 1] == '/' {
            assert(t.drop_last() =~= p@.take(n - 1));
            n = n - 1;
        } else if n == 1 && p[0] == '.' {
            assert(trim_path_end(t) =~= p@.take(0));
            return 0;
        } else if n >= 2 && p[n - 1] == '.' && p[n - 2] == '/' {
            assert(t.drop_last() =~= p@.take(n - 1));
            n = n - 1;
        } else {
            return n;
        }
    }
}

/// The final component of a Unix path, if any.
pub fn file_name_exec(p: &Vec<char>) -> (r: Option<Vec<char>>)
    ensures
        match r {
            Some(v) => file_name(p@) == Some(v@),
            None => file_name(p@) is None,
        },
{
    let n = trim_path_end_exec(p);
    let t = sub_chars(p, 0, n);
    assert(t@ =~= p@.take(n as int));
    proof {
        crate::text::lemma_last_index(t@, '/');
    }
    let start = match last_index_exec(&t, '/') {
        Some(i) => i + 1,
        None => 0,
    };
    let comp = sub_chars(&t, start, t.len());
    assert(comp@ =~= t@.skip(last_index(t@, '/') + 1));
    if comp.len() == 0 || (comp.len() == 2 && comp[0] == '.' && comp[1] == '.') {
        assert(comp.len() == 2 && comp[0] == '.' && comp[1] == '.' ==> comp@ =~= seq!['.', '.']);
        return None;
    }
    assert(comp@ != seq!['.', '.']) by {
        if comp@ == seq!['.', '.'] {
            assert(comp@[0] == '.' && comp@[1] == '.');
        }
    }
    Some(comp)
}

/// Infers the project name from working directory path; `home` is the user's
/// home directory when known.
pub fn project_name(cwd: &str, home: Option<&str>) -> (r: String)
    ensures
        r@ == project_name_text(
            cwd@,
            match home {
                Some(h) => Some(h@),
                None => None,
            },
        ),
{
    let c = chars_of(cwd);
    let empty: Vec<char> = Vec::new();
    if c.len() == 0 {
        assert(empty@ =~= seq![]);
        return string_of(empty.as_slice());
    }
    let name = match file_name_exec(&c) {
        Some(n) => n,
        None => Vec::new(),
    };
    assert(empty@ =~= seq![]);
    assert(name@ == match file_name(c@) {
        Some(n) => n,
        None => seq![],
    });
    match home {
        Some(h) => {
            let hv = chars_of(h);
            if chars_eq(&c, &hv) || name.len() == 0 {
                return string_of(empty.as_slice());
            }
        },
        None => {},
    }
    if name.len() == 1 && (name[0] == '/' || name[0] == '\\') {
        assert(name@ =~= seq!['/'] || name@ =~= seq!['\\']);
        return string_of(empty.as_slice());
    }
    assert(name@ != seq!['/'] && name@ != seq!['\\']) by {
        if name@ == seq!['/'] || name@ == seq!['\\'] {
            assert(name@.len() == 1);
        }
    }
    string_of(name.as_slice())
}

} // verus!
