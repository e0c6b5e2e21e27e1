//! IP addresses: parsing and rendering in the textual forms that the
//! standard library's `IpAddr` uses, and the IPv4-mapped IPv6 relation.
//!
//! Parsing follows the grammar of `core::net`'s address parser: dotted-quad
//! IPv4 (one to three decimal digits per octet, no leading zero, at most 255),
//! and IPv6 as colon-separated groups of one to four hex digits with at most
//! one `::` standing for at least one zero group, optionally ending in an
//! embedded dotted-quad.
use vstd::prelude::*;
use crate::text::{dec_nat, digit_value, digit_value_exec, digits_value, push_dec, push_str};

verus! {

/// An IP address by its numeric value: IPv4 as a `u32`, IPv6 as a `u128`
/// (most significant bits first, as in network order).
#[derive(Debug, Clone, Copy, PartialEq, Eq, Structural)]
pub enum Ip {
    V4(u32),
    V6(u128),
}

// ---------------------------------------------------------------------------
// Parsing: specification
// ---------------------------------------------------------------------------

/// Length of the run of `radix` digits of `s` that starts at `pos`.
pub open spec fn digit_run(s: Seq<char>, pos: int, radix: nat) -> nat
    decreases s.len() - pos,
{
    if 0 <= pos < s.len() && digit_value(s[pos], radix) is Some {
        1 + digit_run(s, pos + 1, radix)
    } else {
        0
    }
}

/// Reads a number at `pos`: the whole run of digits is read, and it must have
/// between one and `max_digits` digits, a value of at most `max_val`, and (unless
/// `zero_prefix` allows it) no leading zero. Gives the value and the position
/// after it.
pub open spec fn read_number(
    s: Seq<char>,
    pos: int,
    radix: nat,
    max_digits: nat,
    zero_prefix: bool,
    max_val: nat,
) -> Option<(nat, int)> {
    let n = digit_run(s, pos, radix);
    let v = digits_value(s.subrange(pos, pos + n), radix);
    if n == 0 || n > max_digits || v > max_val {
        None
    } else if !zero_prefix && s[pos] == '0' && n > 1 {
        None
    } else {
        Some((v, pos + n))
    }
}

/// Reads one decimal IPv4 octet at `pos`.
pub open spec fn read_octet(s: Seq<char>, pos: int) -> Option<(nat, int)> {
    read_number(s, pos, 10, 3, false, 255)
}

/// Reads `.` and then an octet at `pos`.
pub open spec fn read_dot_octet(s: Seq<char>, pos: int) -> Option<(nat, int)> {
    if 0 <= pos < s.len() && s[pos] == '.' {
        read_octet(s, pos + 1)
    } else {
        None
    }
}

/// Reads a dotted-quad IPv4 address at `pos`.
pub open spec fn read_ipv4(s: Seq<char>, pos: int) -> Option<(u32, int)> {
    match read_octet(s, pos) {
        None => None,
        Some((a, p1)) => match read_dot_octet(s, p1) {
            None => None,
            Some((b, p2)) => match read_dot_octet(s, p2) {
                None => None,
                Some((c, p3)) => match read_dot_octet(s, p3) {
                    None => None,
                    Some((d, p4)) => Some(((((a * 256 + b) * 256 + c) * 256 + d) as u32, p4)),
                },
            },
        },
    }
}

/// The separator before the `i`-th group: none for the first, `:` otherwise.
pub open spec fn read_sep(s: Seq<char>, pos: int, i: nat) -> Option<int> {
    if i == 0 {
        Some(pos)
    } else if 0 <= pos < s.len() && s[pos] == ':' {
        Some(pos + 1)
    } else {
        None
    }
}

/// Reads groups `i..limit` of an IPv6 address from `pos`: before each group a
/// trailing embedded IPv4 address is tried when at least two groups are left.
/// Gives the groups read, the position after them, and whether the last was
/// an embedded IPv4 address.
pub open spec fn read_groups(s: Seq<char>, pos: int, i: nat, limit: nat) -> (Seq<nat>, int, bool)
    decreases limit - i,
{
    if i >= limit {
        (seq![], pos, false)
    } else {
        let v4 = if i + 1 < limit {
            match read_sep(s, pos, i) {
                Some(p) => read_ipv4(s, p),
                None => None,
            }
        } else {
            None
        };
        match v4 {
            Some((a, p)) => (seq![(a / 65536) as nat, (a % 65536) as nat], p, true),
            None => {
                let g = match read_sep(s, pos, i) {
                    Some(p) => read_number(s, p, 16, 4, true, 65535),
                    None => None,
                };
                match g {
                    Some((v, p)) => {
                        let rest = read_groups(s, p, i + 1, limit);
                        (seq![v] + rest.0, rest.1, rest.2)
                    },
                    None => (seq![], pos, false),
                }
            },
        }
    }
}

/// `n` zero groups.
pub open spec fn zeros(n: nat) -> Seq<nat> {
    Seq::new(n, |k: int| 0nat)
}

/// The 128-bit value of big-endian 16-bit groups.
pub open spec fn groups_value(gs: Seq<nat>) -> nat
    decreases gs.len(),
{
    if gs.len() == 0 {
        0
    } else {
        groups_value(gs.drop_last()) * 65536 + gs.last()
    }
}

/// Reads an IPv6 address at `pos`.
pub open spec fn read_ipv6(s: Seq<char>, pos: int) -> Option<(u128, int)> {
    let (head, p, head_v4) = read_groups(s, pos, 0, 8);
    if head.len() == 8 {
        Some((groups_value(head) as u128, p))
    } else if head_v4 {
        None
    } else if 0 <= p && p + 1 < s.len() && s[p] == ':' && s[p + 1] == ':' {
        let (tail, p2, t4) = read_groups(s, p + 2, 0, (7 - head.len()) as nat);
        Some(
            (
                groups_value(head + zeros((8 - head.len() - tail.len()) as nat) + tail) as u128,
                p2,
            ),
        )
    } else {
        None
    }
}

/// What parsing the whole of `s` as an `IpAddr` gives.
pub open spec fn parse_ip(s: Seq<char>) -> Option<Ip> {
    match read_ipv4(s, 0) {
        Some((a, p)) => if p == s.len() {
            Some(Ip::V4(a))
        } else {
            None
        },
        None => match read_ipv6(s, 0) {
            Some((v, p)) => if p == s.len() {
                Some(Ip::V6(v))
            } else {
                None
            },
            None => None,
        },
    }
}

// ---------------------------------------------------------------------------
// Rendering: specification
// ---------------------------------------------------------------------------

/// The lowercase hex digit for `d < 16`.
pub open spec fn hex_digit_char(d: nat) -> char {
    if d < 10 {
        ((d + 48) as u32) as char
    } else {
        ((d + 87) as u32) as char
    }
}

/// Lowercase hexadecimal rendering without leading zeros (`{:x}`).
pub open spec fn hex_nat(n: nat) -> Seq<char>
    decreases n,
{
    if n < 16 {
        seq![hex_digit_char(n)]
    } else {
        hex_nat(n / 16).push(hex_digit_char(n % 16))
    }
}

/// Dotted-quad rendering of an IPv4 address.
pub open spec fn ipv4_text(a: u32) -> Seq<char> {
    dec_nat((a / 16777216) as nat) + seq!['.'] + dec_nat(((a / 65536) % 256) as nat) + seq!['.']
        + dec_nat(((a / 256) % 256) as nat) + seq!['.'] + dec_nat((a % 256) as nat)
}

/// The embedded IPv4 address of an IPv4-mapped IPv6 address `::ffff:a.b.c.d`
/// (`Ipv6Addr::to_ipv4_mapped`).
pub open spec fn ipv4_mapped(v: u128) -> Option<u32> {
    if v / 0x1_0000_0000 == 0xffff {
        Some((v % 0x1_0000_0000) as u32)
    } else {
        None
    }
}

/// The last `n` big-endian 16-bit groups of `v`.
pub open spec fn segs(v: nat, n: nat) -> Seq<nat>
    decreases n,
{
    if n == 0 {
        seq![]
    } else {
        segs(v / 65536, (n - 1) as nat).push(v % 65536)
    }
}

/// The eight groups of an IPv6 address.
pub open spec fn segments(v: u128) -> Seq<nat> {
    segs(v as nat, 8)
}

/// Scans `g[i..]` for the first longest run of zero groups; `cur` is the run
/// being scanned and `best` the longest so far, each as (start, length).
pub open spec fn zero_span(g: Seq<nat>, i: int, cur: (int, int), best: (int, int)) -> (int, int)
    decreases g.len() - i,
{
    if i < 0 || i >= g.len() {
        best
    } else if g[i] == 0 {
        let c = (if cur.1 == 0 {
            i
        } else {
            cur.0
        }, cur.1 + 1);
        zero_span(g, i + 1, c, if c.1 > best.1 {
            c
        } else {
            best
        })
    } else {
        zero_span(g, i + 1, (0, 0), best)
    }
}

/// Groups `g[lo..hi]` in hex, separated by `:`.
pub open spec fn join_hex(g: Seq<nat>, lo: int, hi: int) -> Seq<char>
    decreases hi - lo,
{
    if hi <= lo {
        seq![]
    } else if hi == lo + 1 {
        hex_nat(g[lo])
    } else {
        join_hex(g, lo, hi - 1) + seq![':'] + hex_nat(g[hi - 1])
    }
}

/// Textual form of an IPv6 address (`Ipv6Addr`'s `Display`): IPv4-mapped
/// addresses as `::ffff:a.b.c.d`; otherwise the first longest run of two or
/// more zero groups is replaced by `::`.
pub open spec fn ipv6_text(v: u128) -> Seq<char> {
    match ipv4_mapped(v) {
        Some(a) => seq![':', ':', 'f', 'f', 'f', 'f', ':'] + ipv4_text(a),
        None => {
            let g = segments(v);
            let z = zero_span(g, 0, (0, 0), (0, 0));
            if z.1 > 1 {
                join_hex(g, 0, z.0) + seq![':', ':'] + join_hex(g, z.0 + z.1, 8)
            } else {
                join_hex(g, 0, 8)
            }
        },
    }
}

// ---------------------------------------------------------------------------
// Lemmas
// ---------------------------------------------------------------------------

proof fn lemma_digit_run_bound(s: Seq<char>, pos: int, radix: nat)
    requires
        0 <= pos,
    ensures
        pos + digit_run(s, pos, radix) <= s.len() || digit_run(s, pos, radix) == 0,
        forall|k: int|
            pos <= k < pos + digit_run(s, pos, radix) ==> (#[trigger] digit_value(s[k], radix))
                is Some,
    decreases s.len() - pos,
{
    if 0 <= pos < s.len() && digit_value(s[pos], radix) is Some {
        lemma_digit_run_bound(s, pos + 1, radix);
    }
}

proof fn lemma_read_groups_len(s: Seq<char>, pos: int, i: nat, limit: nat)
    ensures
        read_groups(s, pos, i, limit).0.len() + i <= limit || i >= limit,
        i >= limit ==> read_groups(s, pos, i, limit).0.len() == 0,
        forall|k: int|
            0 <= k < read_groups(s, pos, i, limit).0.len() ==> #[trigger] read_groups(
                s,
                pos,
                i,
                limit,
            ).0[k] < 65536,
    decreases limit - i,
{
    if i < limit {
        lemma_read_groups_len(s, pos, i + 1, limit);
        let g = match read_sep(s, pos, i) {
            Some(p) => read_number(s, p, 16, 4, true, 65535),
            None => None,
        };
        match g {
            Some((v, p)) => {
                lemma_read_groups_len(s, p, i + 1, limit);
            },
            None => {},
        }
    }
}

proof fn lemma_groups_value_bound(gs: Seq<nat>)
    requires
        forall|k: int| 0 <= k < gs.len() ==> #[trigger] gs[k] < 65536,
    ensures
        groups_value(gs) < pow65536(gs.len()),
    decreases gs.len(),
{
    if gs.len() > 0 {
        lemma_groups_value_bound(gs.drop_last());
        let a = groups_value(gs.drop_last());
        let b = pow65536((gs.len() - 1) as nat);
        assert(gs.last() < 65536);
        assert(a * 65536 + gs.last() < b * 65536) by (nonlinear_arith)
            requires
                a < b,
                gs.last() < 65536,
        ;
    }
}

/// `65536` to the power `n`.
pub open spec fn pow65536(n: nat) -> nat
    decreases n,
{
    if n == 0 {
        1
    } else {
        pow65536((n - 1) as nat) * 65536
    }
}

proof fn lemma_pow65536_8()
    ensures
        pow65536(8) == 0x1_0000_0000_0000_0000_0000_0000_0000_0000,
{
    reveal_with_fuel(pow65536, 9);
}

// ---------------------------------------------------------------------------
// Parsing: executable
// ---------------------------------------------------------------------------

/// Executable `read_number`.
fn read_number_exec(
    s: &Vec<char>,
    pos: usize,
    radix: u32,
    max_digits: usize,
    zero_prefix: bool,
    max_val: u32,
) -> (r: Option<(u32, usize)>)
    requires
        radix == 10 || radix == 16,
        pos <= s.len(),
        max_digits <= 4,
    ensures
        match r {
            Some((v, p)) => read_number(
                s@,
                pos as int,
                radix as nat,
                max_digits as nat,
                zero_prefix,
                max_val as nat,
            ) == Some((v as nat, p as int)) && p <= s.len(),
            None => read_number(
                s@,
                pos as int,
                radix as nat,
                max_digits as nat,
                zero_prefix,
                max_val as nat,
            ) is None,
        },
{
    let mut i = pos;
    let mut val: u64 = 0;
    let mut done = false;
    proof {
        lemma_digit_run_bound(s@, pos as int, radix as nat);
    }
    assert(s@.subrange(pos as int, pos as int) =~= Seq::<char>::empty());
    while i < s.len() && i - pos <= max_digits && !done
        invariant
            pos <= i <= s.len(),
            i - pos <= max_digits + 1,
            max_digits <= 4,
            radix == 10 || radix == 16,
            digit_run(s@, pos as int, radix as nat) == (i - pos) + digit_run(
                s@,
                i as int,
                radix as nat,
            ),
            val as nat == digits_value(s@.subrange(pos as int, i as int), radix as nat),
            val < pow16((i - pos) as nat),
            done ==> digit_run(s@, i as int, radix as nat) == 0,
        decreases s.len() - i + (if done {
            0int
        } else {
            1int
        }),
    {
        match digit_value_exec(s[i], radix) {
            None => {
                done = true;
            },
            Some(d) => {
                assert(s@.subrange(pos as int, i + 1).drop_last() =~= s@.subrange(
                    pos as int,
                    i as int,
                ));
                assert(val * radix + d < pow16((i - pos) as nat) * 16) by (nonlinear_arith)
                    requires
                        val < pow16((i - pos) as nat),
                        radix <= 16,
                        d < radix,
                ;
                assert(pow16((i - pos) as nat) * 16 <= pow16(5)) by {
                    lemma_pow16_mono((i - pos + 1) as nat, 5);
                }
                proof {
                    reveal_with_fuel(pow16, 6);
                }
                val = val * (radix as u64) + (d as u64);
                i = i + 1;
            },
        }
    }
    let n = i - pos;
    if n > max_digits {
        return None;
    }
    assert(digit_run(s@, i as int, radix as nat) == 0);
    if n == 0 || val > max_val as u64 {
        return None;
    }
    if !zero_prefix && s[pos] == '0' && n > 1 {
        return None;
    }
    Some((val as u32, i))
}

/// `16` to the power `n`.
pub open spec fn pow16(n: nat) -> nat
    decreases n,
{
    if n == 0 {
        1
    } else {
        pow16((n - 1) as nat) * 16
    }
}

proof fn lemma_pow16_mono(a: nat, b: nat)
    requires
        a <= b,
    ensures
        pow16(a) <= pow16(b),
    decreases b,
{
    if a < b {
        lemma_pow16_mono(a, (b - 1) as nat);
    }
}

fn read_octet_exec(s: &Vec<char>, pos: usize) -> (r: Option<(u32, usize)>)
    requires
        pos <= s.len(),
    ensures
        match r {
            Some((v, p)) => read_octet(s@, pos as int) == Some((v as nat, p as int)) && p
                <= s.len() && v < 256,
            None => read_octet(s@, pos as int) is None,
        },
{
    read_number_exec(s, pos, 10, 3, false, 255)
}

fn read_dot_octet_exec(s: &Vec<char>, pos: usize) -> (r: Option<(u32, usize)>)
    requires
        pos <= s.len(),
    ensures
        match r {
            Some((v, p)) => read_dot_octet(s@, pos as int) == Some((v as nat, p as int)) && p
                <= s.len() && v < 256,
            None => read_dot_octet(s@, pos as int) is None,
        },
{
    if pos < s.len() && s[pos] == '.' {
        read_octet_exec(s, pos + 1)
    } else {
        None
    }
}

fn read_ipv4_exec(s: &Vec<char>, pos: usize) -> (r: Option<(u32, usize)>)
    requires
        pos <= s.len(),
    ensures
        match r {
            Some((v, p)) => read_ipv4(s@, pos as int) == Some((v, p as int)) && p <= s.len(),
            None => read_ipv4(s@, pos as int) is None,
        },
{
    let (a, p1) = match read_octet_exec(s, pos) {
        Some(x) => x,
        None => return None,
    };
    let (b, p2) = match read_dot_octet_exec(s, p1) {
        Some(x) => x,
        None => return None,
    };
    let (c, p3) = match read_dot_octet_exec(s, p2) {
        Some(x) => x,
        None => return None,
    };
    let (d, p4) = match read_dot_octet_exec(s, p3) {
        Some(x) => x,
        None => return None,
    };
    let v = ((a * 256 + b) * 256 + c) * 256 + d;
    Some((v, p4))
}

fn read_sep_exec(s: &Vec<char>, pos: usize, i: usize) -> (r: Option<usize>)
    requires
        pos <= s.len(),
    ensures
        r == (match read_sep(s@, pos as int, i as nat) {
            Some(p) => Some(p as usize),
            None => None::<usize>,
        }),
        r matches Some(p) ==> p <= s.len(),
{
    if i == 0 {
        Some(pos)
    } else if pos < s.len() && s[pos] == ':' {
        Some(pos + 1)
    } else {
        None
    }
}

/// Executable `read_groups`, appending the groups to `out`.
fn read_groups_exec(s: &Vec<char>, pos: usize, i: usize, limit: usize, out: &mut Vec<u16>) -> (r: (
    usize,
    bool,
))
    requires
        pos <= s.len(),
        limit <= 8,
    ensures
        ({
            let spec = read_groups(s@, pos as int, i as nat, limit as nat);
            &&& final(out)@.len() == old(out)@.len() + spec.0.len()
            &&& forall|k: int| 0 <= k < old(out)@.len() ==> final(out)@[k] == old(out)@[k]
            &&& forall|k: int|
                0 <= k < spec.0.len() ==> final(out)@[old(out)@.len() + k] as nat == spec.0[k]
            &&& r.0 as int == spec.1
            &&& r.1 == spec.2
            &&& r.0 <= s.len()
        }),
    decreases limit - i,
{
    if i >= limit {
        return (pos, false);
    }
    if i + 1 < limit {
        match read_sep_exec(s, pos, i) {
            Some(p) => match read_ipv4_exec(s, p) {
                Some((a, p2)) => {
                    out.push((a / 65536) as u16);
                    out.push((a % 65536) as u16);
                    return (p2, true);
                },
                None => {},
            },
            None => {},
        }
    }
    let g = match read_sep_exec(s, pos, i) {
        Some(p) => read_number_exec(s, p, 16, 4, true, 65535),
        None => None,
    };
    match g {
        Some((v, p)) => {
            out.push(v as u16);
            let ghost mid = out@;
            let r = read_groups_exec(s, p, i + 1, limit, out);
            proof {
                let rest = read_groups(s@, p as int, (i + 1) as nat, limit as nat);
                assert forall|k: int|
                    0 <= k < (seq![v as nat] + rest.0).len() implies out@[old(out)@.len()
                    + k] as nat == (seq![v as nat] + rest.0)[k] by {
                    if k == 0 {
                        assert(out@[old(out)@.len() as int] == mid[old(out)@.len() as int]);
                    } else {
                        assert(out@[mid.len() + (k - 1)] as nat == rest.0[k - 1]);
                    }
                }
            }
            r
        },
        None => (pos, false),
    }
}

/// Executable `groups_value` over a vector of groups.
fn groups_value_exec(g: &Vec<u16>) -> (r: u128)
    requires
        g.len() <= 8,
    ensures
        r as nat == groups_value(g@.map_values(|x: u16| x as nat)),
{
    let ghost gn = g@.map_values(|x: u16| x as nat);
    let mut v: u128 = 0;
    let mut i: usize = 0;
    while i < g.len()
        invariant
            i <= g.len() <= 8,
            gn == g@.map_values(|x: u16| x as nat),
            v as nat == groups_value(gn.take(i as int)),
        decreases g.len() - i,
    {
        assert(gn.take(i + 1).drop_last() =~= gn.take(i as int));
        proof {
            lemma_groups_value_bound(gn.take(i + 1));
            lemma_pow65536_mono((i + 1) as nat, 8);
            lemma_pow65536_8();
        }
        v = v * 65536 + (g[i] as u128);
        i = i + 1;
    }
    assert(gn.take(g.len() as int) =~= gn);
    v
}

proof fn lemma_pow65536_mono(a: nat, b: nat)
    requires
        a <= b,
    ensures
        pow65536(a) <= pow65536(b),
    decreases b,
{
    if a < b {
        lemma_pow65536_mono(a, (b - 1) as nat);
    }
}

fn read_ipv6_exec(s: &Vec<char>, pos: usize) -> (r: Option<(u128, usize)>)
    requires
        pos <= s.len(),
    ensures
        match r {
            Some((v, p)) => read_ipv6(s@, pos as int) == Some((v, p as int)) && p <= s.len(),
            None => read_ipv6(s@, pos as int) is None,
        },
{
    let mut head: Vec<u16> = Vec::new();
    let (p, head_v4) = read_groups_exec(s, pos, 0, 8, &mut head);
    let ghost hs = read_groups(s@, pos as int, 0, 8);
    proof {
        lemma_read_groups_len(s@, pos as int, 0, 8);
        assert(head@.map_values(|x: u16| x as nat) =~= hs.0);
    }
    if head.len() == 8 {
        let v = groups_value_exec(&head);
        return Some((v, p));
    }
    if head_v4 {
        return None;
    }
    if s.len() > 1 && p < s.len() - 1 && s[p] == ':' && s[p + 1] == ':' {
        let limit = 7 - head.len();
        let mut tail: Vec<u16> = Vec::new();
        let (p2, _t4) = read_groups_exec(s, p + 2, 0, limit, &mut tail);
        let ghost ts = read_groups(s@, p + 2, 0, limit as nat);
        proof {
            lemma_read_groups_len(s@, p + 2, 0, limit as nat);
            assert(tail@.map_values(|x: u16| x as nat) =~= ts.0);
        }
        let fill = 8 - head.len() - tail.len();
        let mut all: Vec<u16> = Vec::new();
        let mut k: usize = 0;
        while k < head.len()
            invariant
                k <= head.len(),
                all@ =~= head@.take(k as int),
            decreases head.len() - k,
        {
            all.push(head[k]);
            k = k + 1;
        }
        k = 0;
        while k < fill
            invariant
                k <= fill,
                all@ =~= head@ + Seq::new(k as nat, |j: int| 0u16),
            decreases fill - k,
        {
            all.push(0);
            k = k + 1;
        }
        k = 0;
        while k < tail.len()
            invariant
                k <= tail.len(),
                all@ =~= head@ + Seq::new(fill as nat, |j: int| 0u16) + tail@.take(k as int),
            decreases tail.len() - k,
        {
            all.push(tail[k]);
            k = k + 1;
        }
        assert(tail@.take(tail.len() as int) =~= tail@);
        assert(all@.map_values(|x: u16| x as nat) =~= hs.0 + zeros(
            (8 - hs.0.len() - ts.0.len()) as nat,
        ) + ts.0);
        let v = groups_value_exec(&all);
        return Some((v, p2));
    }
    None
}

/// Parses the whole of `s` as an IP address.
pub fn parse_ip_chars(s: &Vec<char>) -> (r: Option<Ip>)
    ensures
        r == parse_ip(s@),
{
    match read_ipv4_exec(s, 0) {
        Some((a, p)) => {
            if p == s.len() {
                Some(Ip::V4(a))
            } else {
                None
            }
        },
        None => match read_ipv6_exec(s, 0) {
            Some((v, p)) => {
                if p == s.len() {
                    Some(Ip::V6(v))
                } else {
                    None
                }
            },
            None => None,
        },
    }
}

// ---------------------------------------------------------------------------
// Rendering: executable
// ---------------------------------------------------------------------------

fn hex_digit_exec(d: u32) -> (c: char)
    requires
        d < 16,
    ensures
        c == hex_digit_char(d as nat),
{
    match d {
        0 => '0',
        1 => '1',
        2 => '2',
        3 => '3',
        4 => '4',
        5 => '5',
        6 => '6',
        7 => '7',
        8 => '8',
        9 => '9',
        10 => 'a',
        11 => 'b',
        12 => 'c',
        13 => 'd',
        14 => 'e',
        _ => 'f',
    }
}

/// Appends the lowercase hex rendering of `n`.
pub fn push_hex(out: &mut Vec<char>, n: u32)
    ensures
        final(out)@ == old(out)@ + hex_nat(n as nat),
    decreases n,
{
    if n >= 16 {
        push_hex(out, n / 16);
    }
    out.push(hex_digit_exec(n % 16));
    proof {
        if n >= 16 {
            assert(hex_nat(n as nat) == hex_nat((n / 16) as nat).push(hex_digit_char((n % 16) as nat)));
        }
    }
}

/// Appends the dotted-quad rendering of an IPv4 address.
pub fn push_ipv4(out: &mut Vec<char>, a: u32)
    ensures
        final(out)@ == old(out)@ + ipv4_text(a),
{
    let ghost o = out@;
    push_dec(out, (a / 16777216) as u64);
    out.push('.');
    push_dec(out, ((a / 65536) % 256) as u64);
    out.push('.');
    push_dec(out, ((a / 256) % 256) as u64);
    out.push('.');
    push_dec(out, (a % 256) as u64);
    assert(out@ =~= o + ipv4_text(a));
}

/// Executable `ipv4_mapped`.
pub fn ipv4_mapped_exec(v: u128) -> (r: Option<u32>)
    ensures
        r == ipv4_mapped(v),
{
    if v / 0x1_0000_0000 == 0xffff {
        Some((v % 0x1_0000_0000) as u32)
    } else {
        None
    }
}

/// The eight groups of an IPv6 address.
fn segments_exec(v: u128) -> (r: Vec<u32>)
    ensures
        r@.len() == 8,
        r@.map_values(|x: u32| x as nat) == segments(v),
        forall|k: int| 0 <= k < 8 ==> #[trigger] r@[k] < 65536,
{
    let mut out: Vec<u32> = Vec::new();
    let mut k: usize = 0;
    let ghost x0 = (v as nat) / pow65536(8);
    proof {
        lemma_segs_zero(x0);
    }
    assert(out@.map_values(|x: u32| x as nat) =~= Seq::<nat>::empty());
    while k < 8
        invariant
            k <= 8,
            out@.len() == k,
            x0 == (v as nat) / pow65536(8),
            out@.map_values(|x: u32| x as nat) =~= segs(
                (v as nat) / pow65536((8 - k) as nat),
                k as nat,
            ),
            forall|j: int| 0 <= j < k ==> #[trigger] out@[j] < 65536,
        decreases 8 - k,
    {
        let sh = (8 - k - 1) as u32;
        let q = div_pow65536(v, sh);
        out.push((q % 65536) as u32);
        proof {
            let n = (8 - k - 1) as nat;
            assert(pow65536((8 - k) as nat) == pow65536(n) * 65536);
            let vn = v as nat;
            assert(vn / pow65536((8 - k) as nat) == (vn / pow65536(n)) / 65536) by {
                lemma_pow65536_pos(n);
                vstd::arithmetic::div_mod::lemma_div_denominator(vn as int, pow65536(n) as int, 65536);
            }
            assert(segs(vn / pow65536(n), (k + 1) as nat) =~= segs(
                (vn / pow65536(n)) / 65536,
                k as nat,
            ).push((vn / pow65536(n)) % 65536));
        }
        k = k + 1;
    }
    proof {
        assert(pow65536(0) == 1);
        assert((v as nat) / 1 == v as nat);
    }
    out
}

proof fn lemma_segs_zero(x: nat)
    ensures
        segs(x, 0) =~= Seq::<nat>::empty(),
{
}

proof fn lemma_pow65536_pos(n: nat)
    ensures
        pow65536(n) > 0,
    decreases n,
{
    if n > 0 {
        lemma_pow65536_pos((n - 1) as nat);
    }
}

/// `v / 65536^n` for `n < 8`.
fn div_pow65536(v: u128, n: u32) -> (r: u128)
    requires
        n < 8,
    ensures
        r as nat == (v as nat) / pow65536(n as nat),
{
    let mut r = v;
    let mut i: u32 = 0;
    assert(pow65536(0) == 1);
    assert((v as nat) / 1 == v as nat);
    while i < n
        invariant
            i <= n < 8,
            r as nat == (v as nat) / pow65536(i as nat),
        decreases n - i,
    {
        proof {
            lemma_pow65536_pos(i as nat);
            vstd::arithmetic::div_mod::lemma_div_denominator(
                v as int,
                pow65536(i as nat) as int,
                65536,
            );
            assert(pow65536((i + 1) as nat) == pow65536(i as nat) * 65536);
        }
        r = r / 65536;
        i = i + 1;
    }
    r
}

/// Executable `zero_span` over the eight groups.
fn zero_span_exec(g: &Vec<u32>) -> (r: (usize, usize))
    requires
        g@.len() == 8,
    ensures
        (r.0 as int, r.1 as int) == zero_span(
            g@.map_values(|x: u32| x as nat),
            0,
            (0, 0),
            (0, 0),
        ),
        r.0 + r.1 <= 8,
{
    let ghost gn = g@.map_values(|x: u32| x as nat);
    let mut cs: usize = 0;
    let mut cl: usize = 0;
    let mut bs: usize = 0;
    let mut bl: usize = 0;
    let mut i: usize = 0;
    while i < 8
        invariant
            i <= 8,
            g@.len() == 8,
            gn == g@.map_values(|x: u32| x as nat),
            zero_span(gn, 0, (0, 0), (0, 0)) == zero_span(
                gn,
                i as int,
                (cs as int, cl as int),
                (bs as int, bl as int),
            ),
            cs + cl == i || cl == 0,
            cl <= i,
            bs + bl <= i,
        decreases 8 - i,
    {
        if g[i] == 0 {
            if cl == 0 {
                cs = i;
            }
            cl = cl + 1;
            if cl > bl {
                bs = cs;
                bl = cl;
            }
        } else {
            cs = 0;
            cl = 0;
        }
        i = i + 1;
    }
    (bs, bl)
}

/// Appends groups `g[lo..hi]` in hex separated by `:`.
fn push_join_hex(out: &mut Vec<char>, g: &Vec<u32>, lo: usize, hi: usize)
    requires
        lo <= hi <= g@.len(),
        forall|k: int| 0 <= k < g@.len() ==> #[trigger] g@[k] < 65536,
    ensures
        final(out)@ == old(out)@ + join_hex(g@.map_values(|x: u32| x as nat), lo as int, hi as int),
    decreases hi - lo,
{
    let ghost gn = g@.map_values(|x: u32| x as nat);
    if hi <= lo {
        assert(join_hex(gn, lo as int, hi as int) =~= seq![]);
        assert(out@ =~= old(out)@ + seq![]);
        return;
    }
    if hi == lo + 1 {
        push_hex(out, g[lo]);
        return;
    }
    push_join_hex(out, g, lo, hi - 1);
    out.push(':');
    let ghost o = out@;
    push_hex(out, g[hi - 1]);
    assert(out@ =~= old(out)@ + join_hex(gn, lo as int, hi as int));
}

/// Appends the textual form of an IPv6 address.
pub fn push_ipv6(out: &mut Vec<char>, v: u128)
    ensures
        final(out)@ == old(out)@ + ipv6_text(v),
{
    let ghost o = out@;
    match ipv4_mapped_exec(v) {
        Some(a) => {
            push_str(out, "::ffff:");
            proof {
                reveal_strlit("::ffff:");
            }
            push_ipv4(out, a);
            assert(out@ =~= o + ipv6_text(v));
        },
        None => {
            let g = segments_exec(v);
            let (zs, zl) = zero_span_exec(&g);
            if zl > 1 {
                push_join_hex(out, &g, 0, zs);
                out.push(':');
                out.push(':');
                let ghost o2 = out@;
                push_join_hex(out, &g, zs + zl, 8);
                assert(out@ =~= o + ipv6_text(v));
            } else {
                push_join_hex(out, &g, 0, 8);
                assert(out@ =~= o + ipv6_text(v));
            }
        },
    }
}

} // verus!
