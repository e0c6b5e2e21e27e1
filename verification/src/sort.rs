//! Ordering listeners: by a chosen column, then by port, protocol, address
//! and pid; stable, ascending or descending.
use vstd::prelude::*;
use crate::model::{Entry, EntryView, Proto, SortKey, views};
use crate::sys::{keys_distinct, lemma_permutation_keeps_keys_distinct, same_socket};
use crate::text::{chars_of, lower_chars, spec_to_lowercase};

verus! {

/// Three-way comparison of integers: -1, 0 or 1.
pub open spec fn order_int(a: int, b: int) -> int {
    if a < b {
        -1
    } else if a > b {
        1
    } else {
        0
    }
}

/// Lexicographic comparison of texts by code point, which is how `String`s
/// compare (their UTF-8 bytes compare in code point order).
pub open spec fn order_text(a: Seq<char>, b: Seq<char>) -> int
    decreases a.len(),
{
    if a.len() == 0 && b.len() == 0 {
        0
    } else if a.len() == 0 {
        -1
    } else if b.len() == 0 {
        1
    } else if a[0] < b[0] {
        -1
    } else if a[0] > b[0] {
        1
    } else {
        order_text(a.drop_first(), b.drop_first())
    }
}

/// Rank of a protocol in its declared order: TCP before UDP.
pub open spec fn proto_rank(p: Proto) -> int {
    match p {
        Proto::Tcp => 0,
        Proto::Udp => 1,
    }
}

/// Comparison on the chosen column; names compare case-insensitively (by
/// their lowercase forms) and then by lowercased command line, projects
/// case-insensitively.
pub open spec fn order_column(a: EntryView, b: EntryView, key: SortKey) -> int {
    match key {
        SortKey::Proto => order_int(proto_rank(a.proto), proto_rank(b.proto)),
        SortKey::Addr => order_text(a.addr, b.addr),
        SortKey::Pid => order_int(a.pid as int, b.pid as int),
        SortKey::Name => {
            let c = order_text(spec_to_lowercase(a.name), spec_to_lowercase(b.name));
            if c != 0 {
                c
            } else {
                order_text(spec_to_lowercase(a.cmdline), spec_to_lowercase(b.cmdline))
            }
        },
        SortKey::Project => order_text(spec_to_lowercase(a.project), spec_to_lowercase(b.project)),
        SortKey::Port => order_int(a.port as int, b.port as int),
    }
}

/// The full ordering: the chosen column, then port, protocol, address and
/// pid; reversed when `desc`.
pub open spec fn order_entries(a: EntryView, b: EntryView, key: SortKey, desc: bool) -> int {
    let c0 = order_column(a, b, key);
    let c1 = if c0 != 0 {
        c0
    } else {
        order_int(a.port as int, b.port as int)
    };
    let c2 = if c1 != 0 {
        c1
    } else {
        order_int(proto_rank(a.proto), proto_rank(b.proto))
    };
    let c3 = if c2 != 0 {
        c2
    } else {
        order_text(a.addr, b.addr)
    };
    let c4 = if c3 != 0 {
        c3
    } else {
        order_int(a.pid as int, b.pid as int)
    };
    if desc {
        -c4
    } else {
        c4
    }
}

/// Inserts `x` into `s` after every element that is not greater than it.
pub open spec fn insert_sorted(s: Seq<EntryView>, x: EntryView, key: SortKey, desc: bool) -> Seq<
    EntryView,
>
    decreases s.len(),
{
    if s.len() == 0 {
        seq![x]
    } else if order_entries(x, s.last(), key, desc) < 0 {
        insert_sorted(s.drop_last(), x, key, desc).push(s.last())
    } else {
        s.push(x)
    }
}

/// The stable sort of `s` by `order_entries`: insertion of each element in turn.
pub open spec fn sorted_by(s: Seq<EntryView>, key: SortKey, desc: bool) -> Seq<EntryView>
    decreases s.len(),
{
    if s.len() == 0 {
        seq![]
    } else {
        insert_sorted(sorted_by(s.drop_last(), key, desc), s.last(), key, desc)
    }
}

/// Inserting at `j`, where everything from `j` on is greater than `x` and the
/// element before `j` is not, is `insert_sorted`.
pub proof fn lemma_insert_at(s: Seq<EntryView>, x: EntryView, key: SortKey, desc: bool, j: int)
    requires
        0 <= j <= s.len(),
        forall|k: int| j <= k < s.len() ==> order_entries(x, #[trigger] s[k], key, desc) < 0,
        j > 0 ==> order_entries(x, s[j - 1], key, desc) >= 0,
    ensures
        insert_sorted(s, x, key, desc) == s.take(j).push(x) + s.skip(j),
    decreases s.len(),
{
    if s.len() == 0 {
        assert(s.take(j).push(x) + s.skip(j) =~= seq![x]);
    } else if j == s.len() {
        assert(s.take(j).push(x) + s.skip(j) =~= s.push(x));
    } else {
        assert(order_entries(x, s[s.len() - 1], key, desc) < 0);
        lemma_insert_at(s.drop_last(), x, key, desc, j);
        assert(s.drop_last().take(j).push(x) + s.drop_last().skip(j) + seq![s.last()] =~= s.take(
            j,
        ).push(x) + s.skip(j));
    }
}

// ---------------------------------------------------------------------------
// The ordering is a total preorder
// ---------------------------------------------------------------------------

proof fn lemma_text_props(a: Seq<char>, b: Seq<char>)
    ensures
        -1 <= order_text(a, b) <= 1,
        order_text(a, b) == -order_text(b, a),
        order_text(a, b) == 0 ==> a == b,
    decreases a.len(),
{
    if a.len() > 0 && b.len() > 0 && a[0] == b[0] {
        lemma_text_props(a.drop_first(), b.drop_first());
        if order_text(a, b) == 0 {
            assert(a =~= seq![a[0]] + a.drop_first());
            assert(b =~= seq![b[0]] + b.drop_first());
        }
    }
    if a.len() == 0 && b.len() == 0 {
        assert(a =~= b);
    }
}

proof fn lemma_text_lt_trans(a: Seq<char>, b: Seq<char>, c: Seq<char>)
    requires
        order_text(a, b) < 0,
        order_text(b, c) < 0,
    ensures
        order_text(a, c) < 0,
    decreases a.len(),
{
    if a.len() > 0 && b.len() > 0 && c.len() > 0 && a[0] == b[0] && b[0] == c[0] {
        lemma_text_lt_trans(a.drop_first(), b.drop_first(), c.drop_first());
    }
}

/// The facts about one level of comparison for three values that the
/// transitivity of the whole ordering rests on.
pub open spec fn level_facts(x: int, y: int, z: int) -> bool {
    &&& -1 <= x <= 1 && -1 <= y <= 1 && -1 <= z <= 1
    &&& x == 0 ==> z == y
    &&& y == 0 ==> z == x
    &&& x < 0 && y < 0 ==> z < 0
    &&& x > 0 && y > 0 ==> z > 0
}

proof fn lemma_text_level(a: Seq<char>, b: Seq<char>, c: Seq<char>)
    ensures
        level_facts(order_text(a, b), order_text(b, c), order_text(a, c)),
{
    lemma_text_props(a, b);
    lemma_text_props(b, c);
    lemma_text_props(a, c);
    lemma_text_props(b, a);
    lemma_text_props(c, b);
    lemma_text_props(c, a);
    if order_text(a, b) < 0 && order_text(b, c) < 0 {
        lemma_text_lt_trans(a, b, c);
    }
    if order_text(a, b) > 0 && order_text(b, c) > 0 {
        lemma_text_lt_trans(c, b, a);
    }
}

proof fn lemma_column_level(a: EntryView, b: EntryView, c: EntryView, key: SortKey)
    ensures
        level_facts(order_column(a, b, key), order_column(b, c, key), order_column(a, c, key)),
        order_column(a, b, key) == -order_column(b, a, key),
{
    match key {
        SortKey::Addr => {
            lemma_text_level(a.addr, b.addr, c.addr);
            lemma_text_props(a.addr, b.addr);
        },
        SortKey::Name => {
            let (na, nb, nc) = (spec_to_lowercase(a.name), spec_to_lowercase(b.name), spec_to_lowercase(c.name));
            let (ca, cb, cc) = (spec_to_lowercase(a.cmdline), spec_to_lowercase(b.cmdline), spec_to_lowercase(c.cmdline));
            lemma_text_level(na, nb, nc);
            lemma_text_level(ca, cb, cc);
            lemma_text_props(na, nb);
            lemma_text_props(ca, cb);
        },
        SortKey::Project => {
            let (pa, pb, pc) = (spec_to_lowercase(a.project), spec_to_lowercase(b.project), spec_to_lowercase(c.project));
            lemma_text_level(pa, pb, pc);
            lemma_text_props(pa, pb);
        },
        _ => {},
    }
}

/// The ordering is antisymmetric and transitive, in both directions, so that
/// sorting by it is well defined.
pub proof fn law_order_preorder(a: EntryView, b: EntryView, c: EntryView, key: SortKey, desc: bool)
    ensures
        order_entries(a, b, key, desc) == -order_entries(b, a, key, desc),
        -1 <= order_entries(a, b, key, desc) <= 1,
        order_entries(a, b, key, desc) <= 0 && order_entries(b, c, key, desc) <= 0 ==> order_entries(
            a,
            c,
            key,
            desc,
        ) <= 0,
{
    lemma_column_level(a, b, c, key);
    lemma_text_level(a.addr, b.addr, c.addr);
    lemma_text_props(a.addr, b.addr);
}

/// Entries that the full ordering finds equal describe the same socket.
proof fn lemma_order_zero_same_socket(a: EntryView, b: EntryView, key: SortKey, desc: bool)
    requires
        order_entries(a, b, key, desc) == 0,
    ensures
        same_socket(a, b),
{
    lemma_text_props(a.addr, b.addr);
    assert(a.proto == b.proto) by {
        match (a.proto, b.proto) {
            (Proto::Tcp, Proto::Tcp) => {},
            (Proto::Udp, Proto::Udp) => {},
            _ => {},
        }
    }
}

/// The sequence is in order.
pub open spec fn in_order(s: Seq<EntryView>, key: SortKey, desc: bool) -> bool {
    forall|i: int, j: int| 0 <= i < j < s.len() ==> order_entries(s[i], s[j], key, desc) <= 0
}

/// Two sequences in order that hold the same entries, no two of which
/// describe the same socket, are equal.
proof fn lemma_sorted_unique(x: Seq<EntryView>, y: Seq<EntryView>, key: SortKey, desc: bool)
    requires
        in_order(x, key, desc),
        in_order(y, key, desc),
        x.to_multiset() == y.to_multiset(),
        keys_distinct(x),
    ensures
        x == y,
    decreases x.len(),
{
    broadcast use vstd::seq_lib::group_to_multiset_ensures;

    assert(x.len() == y.len()) by {
        vstd::seq_lib::to_multiset_len(x);
        vstd::seq_lib::to_multiset_len(y);
    }
    if x.len() == 0 {
        assert(x =~= y);
    } else {
        let n = x.len() as int;
        let a = x[n - 1];
        let b = y[n - 1];
        assert(y.to_multiset().count(b) > 0);
        assert(x.contains(b));
        let i = choose|i: int| 0 <= i < n && x[i] == b;
        assert(x.to_multiset().count(a) > 0);
        assert(y.contains(a));
        let j = choose|j: int| 0 <= j < n && y[j] == a;
        law_order_preorder(a, b, b, key, desc);
        if i < n - 1 {
            assert(order_entries(x[i], x[n - 1], key, desc) <= 0);
        }
        if j < n - 1 {
            assert(order_entries(y[j], y[n - 1], key, desc) <= 0);
        }
        if i != n - 1 {
            assert(order_entries(a, b, key, desc) == 0);
            lemma_order_zero_same_socket(a, b, key, desc);
            assert(same_socket(x[i], x[n - 1]));
            assert(false);
        }
        assert(a == b);
        let xs = x.drop_last();
        let ys = y.drop_last();
        assert(x =~= xs.push(a));
        assert(y =~= ys.push(a));
        assert(xs.to_multiset() =~= ys.to_multiset()) by {
            assert(xs.push(a).to_multiset() =~= xs.to_multiset().insert(a));
            assert(ys.push(a).to_multiset() =~= ys.to_multiset().insert(a));
            assert forall|v: EntryView| #[trigger] xs.to_multiset().count(v) == ys.to_multiset().count(v) by {
                assert(xs.to_multiset().insert(a).count(v) == ys.to_multiset().insert(a).count(v));
            }
        }
        assert forall|p: int, q: int| 0 <= p < xs.len() && 0 <= q < xs.len() && p != q implies !same_socket(
            #[trigger] xs[p],
            #[trigger] xs[q],
        ) by {
            assert(xs[p] == x[p] && xs[q] == x[q]);
        }
        assert forall|p: int, q: int| 0 <= p < q < xs.len() implies order_entries(xs[p], xs[q], key, desc) <= 0 by {
            assert(xs[p] == x[p] && xs[q] == x[q]);
        }
        assert forall|p: int, q: int| 0 <= p < q < ys.len() implies order_entries(ys[p], ys[q], key, desc) <= 0 by {
            assert(ys[p] == y[p] && ys[q] == y[q]);
        }
        lemma_sorted_unique(xs, ys, key, desc);
    }
}

/// When no two entries describe the same socket (protocol, port, address
/// and pid), sorting in descending order gives the ascending order reversed:
/// the tie-breaks are reversed too.
pub proof fn law_desc_reverses_asc(s: Seq<EntryView>, key: SortKey)
    requires
        keys_distinct(s),
    ensures
        sorted_by(s, key, true) == sorted_by(s, key, false).reverse(),
{
    law_sorted_by(s, key, false);
    law_sorted_by(s, key, true);
    let a = sorted_by(s, key, false);
    let r = a.reverse();
    let n = a.len() as int;
    a.lemma_reverse_to_multiset();
    assert forall|i: int, j: int| 0 <= i < j < r.len() implies order_entries(r[i], r[j], key, true) <= 0 by {
        assert(r[i] == a[n - 1 - i] && r[j] == a[n - 1 - j]);
        assert(order_entries(a[n - 1 - j], a[n - 1 - i], key, false) <= 0);
        law_order_preorder(r[i], r[j], r[j], key, false);
    }
    lemma_permutation_keeps_keys_distinct(s, r);
    lemma_sorted_unique(r, sorted_by(s, key, true), key, true);
}

/// Inserting into a sorted sequence keeps it sorted.
proof fn lemma_insert_sorted_ordered(s: Seq<EntryView>, x: EntryView, key: SortKey, desc: bool)
    requires
        forall|i: int, j: int| 0 <= i < j < s.len() ==> order_entries(s[i], s[j], key, desc) <= 0,
    ensures
        forall|i: int, j: int|
            0 <= i < j < insert_sorted(s, x, key, desc).len() ==> order_entries(
                insert_sorted(s, x, key, desc)[i],
                insert_sorted(s, x, key, desc)[j],
                key,
                desc,
            ) <= 0,
        insert_sorted(s, x, key, desc).to_multiset() == s.to_multiset().insert(x),
    decreases s.len(),
{
    broadcast use vstd::seq_lib::group_to_multiset_ensures;

    if s.len() == 0 {
        assert(seq![x] =~= Seq::<EntryView>::empty().push(x));
    } else if order_entries(x, s.last(), key, desc) < 0 {
        let t = s.drop_last();
        lemma_insert_sorted_ordered(t, x, key, desc);
        let u = insert_sorted(t, x, key, desc);
        let r = u.push(s.last());
        assert(s =~= t.push(s.last()));
        assert forall|k: int| 0 <= k < u.len() implies order_entries(u[k], s.last(), key, desc) <= 0 by {
            assert(u.to_multiset().count(u[k]) > 0);
            if u[k] == x {
                law_order_preorder(x, s.last(), s.last(), key, desc);
            } else {
                assert(t.to_multiset().count(u[k]) > 0);
                assert(t.contains(u[k]));
                let m = choose|m: int| 0 <= m < t.len() && t[m] == u[k];
                assert(s[m] == u[k]);
            }
        }
        assert forall|i: int, j: int| 0 <= i < j < r.len() implies order_entries(r[i], r[j], key, desc) <= 0 by {
            if j == r.len() - 1 {
                assert(r[j] == s.last());
                assert(r[i] == u[i]);
            } else {
                assert(r[i] == u[i] && r[j] == u[j]);
            }
        }
        assert(r.to_multiset() =~= s.to_multiset().insert(x));
    } else {
        let r = s.push(x);
        assert forall|i: int, j: int| 0 <= i < j < r.len() implies order_entries(r[i], r[j], key, desc) <= 0 by {
            if j == r.len() - 1 {
                law_order_preorder(x, s.last(), s.last(), key, desc);
                if i < s.len() - 1 {
                    law_order_preorder(s[i], s.last(), x, key, desc);
                }
            } else {
                assert(r[i] == s[i] && r[j] == s[j]);
            }
        }
    }
}

/// The rank of a protocol in the listing: TCP first.
pub open spec fn tcp_first(a: Proto, b: Proto) -> bool {
    a == Proto::Tcp || b == Proto::Udp
}

/// The comparison on a numeric column or the protocol puts the smaller
/// value first: an entry with a smaller port (pid) compares below one with a
/// larger port (pid), above it when larger, and equal when the same; a TCP
/// entry compares below a UDP one.
pub proof fn law_column_compares_values(a: EntryView, b: EntryView)
    ensures
        order_column(a, b, SortKey::Port) < 0 <==> a.port < b.port,
        order_column(a, b, SortKey::Port) > 0 <==> a.port > b.port,
        order_column(a, b, SortKey::Pid) < 0 <==> a.pid < b.pid,
        order_column(a, b, SortKey::Pid) > 0 <==> a.pid > b.pid,
        order_column(a, b, SortKey::Proto) < 0 <==> a.proto == Proto::Tcp && b.proto == Proto::Udp,
        order_column(a, b, SortKey::Proto) > 0 <==> a.proto == Proto::Udp && b.proto == Proto::Tcp,
{
}

/// Sorting by a column puts that column in order: ports, pids and
/// protocols (TCP first) ascending, addresses and the lowercase process
/// names and projects in text order; descending reverses each of these.
pub proof fn law_sorted_by_column(s: Seq<EntryView>, key: SortKey, desc: bool)
    ensures
        forall|i: int, j: int|
            0 <= i < j < sorted_by(s, key, desc).len() ==> {
                let a = #[trigger] sorted_by(s, key, desc)[i];
                let b = #[trigger] sorted_by(s, key, desc)[j];
                &&& key == SortKey::Port ==> (if desc { a.port >= b.port } else { a.port <= b.port })
                &&& key == SortKey::Pid ==> (if desc { a.pid >= b.pid } else { a.pid <= b.pid })
                &&& key == SortKey::Proto ==> (if desc { tcp_first(b.proto, a.proto) } else {
                    tcp_first(a.proto, b.proto)
                })
                &&& key == SortKey::Addr ==> (if desc { order_text(a.addr, b.addr) >= 0 } else {
                    order_text(a.addr, b.addr) <= 0
                })
                &&& key == SortKey::Name ==> (if desc {
                    order_text(spec_to_lowercase(a.name), spec_to_lowercase(b.name)) >= 0
                } else {
                    order_text(spec_to_lowercase(a.name), spec_to_lowercase(b.name)) <= 0
                })
                &&& key == SortKey::Project ==> (if desc {
                    order_text(spec_to_lowercase(a.project), spec_to_lowercase(b.project)) >= 0
                } else {
                    order_text(spec_to_lowercase(a.project), spec_to_lowercase(b.project)) <= 0
                })
            },
{
    law_sorted_by(s, key, desc);
    assert forall|i: int, j: int|
            0 <= i < j < sorted_by(s, key, desc).len() implies {
                let a = #[trigger] sorted_by(s, key, desc)[i];
                let b = #[trigger] sorted_by(s, key, desc)[j];
                &&& key == SortKey::Port ==> (if desc { a.port >= b.port } else { a.port <= b.port })
                &&& key == SortKey::Pid ==> (if desc { a.pid >= b.pid } else { a.pid <= b.pid })
                &&& key == SortKey::Proto ==> (if desc { tcp_first(b.proto, a.proto) } else {
                    tcp_first(a.proto, b.proto)
                })
                &&& key == SortKey::Addr ==> (if desc { order_text(a.addr, b.addr) >= 0 } else {
                    order_text(a.addr, b.addr) <= 0
                })
                &&& key == SortKey::Name ==> (if desc {
                    order_text(spec_to_lowercase(a.name), spec_to_lowercase(b.name)) >= 0
                } else {
                    order_text(spec_to_lowercase(a.name), spec_to_lowercase(b.name)) <= 0
                })
                &&& key == SortKey::Project ==> (if desc {
                    order_text(spec_to_lowercase(a.project), spec_to_lowercase(b.project)) >= 0
                } else {
                    order_text(spec_to_lowercase(a.project), spec_to_lowercase(b.project)) <= 0
                })
            } by {
        let a = sorted_by(s, key, desc)[i];
        let b = sorted_by(s, key, desc)[j];
        assert(order_entries(a, b, key, desc) <= 0);
    }
}

/// Entries equal in the chosen column follow the tie-breaks: by port (by
/// protocol, TCP first, when sorting by port), reversed when descending.
pub proof fn law_sorted_by_ties(s: Seq<EntryView>, key: SortKey, desc: bool)
    ensures
        forall|i: int, j: int|
            0 <= i < j < sorted_by(s, key, desc).len() ==> {
                let a = #[trigger] sorted_by(s, key, desc)[i];
                let b = #[trigger] sorted_by(s, key, desc)[j];
                &&& (key == SortKey::Pid && a.pid == b.pid) || (key == SortKey::Proto && a.proto
                    == b.proto) || (key == SortKey::Addr && a.addr == b.addr) || (key
                    == SortKey::Project && spec_to_lowercase(a.project) == spec_to_lowercase(
                    b.project,
                )) ==> (if desc { a.port >= b.port } else { a.port <= b.port })
                &&& key == SortKey::Port && a.port == b.port ==> (if desc { tcp_first(b.proto, a.proto) } else {
                    tcp_first(a.proto, b.proto)
                })
            },
{
    law_sorted_by(s, key, desc);
    assert forall|i: int, j: int| 0 <= i < j < sorted_by(s, key, desc).len() implies {
        let a = #[trigger] sorted_by(s, key, desc)[i];
        let b = #[trigger] sorted_by(s, key, desc)[j];
        &&& (key == SortKey::Pid && a.pid == b.pid) || (key == SortKey::Proto && a.proto == b.proto)
            || (key == SortKey::Addr && a.addr == b.addr) || (key == SortKey::Project
            && spec_to_lowercase(a.project) == spec_to_lowercase(b.project)) ==> (if desc {
            a.port >= b.port
        } else {
            a.port <= b.port
        })
        &&& key == SortKey::Port && a.port == b.port ==> (if desc { tcp_first(b.proto, a.proto) } else {
            tcp_first(a.proto, b.proto)
        })
    } by {
        let a = sorted_by(s, key, desc)[i];
        let b = sorted_by(s, key, desc)[j];
        assert(order_entries(a, b, key, desc) <= 0);
        lemma_text_props(a.addr, b.addr);
        lemma_text_props(spec_to_lowercase(a.project), spec_to_lowercase(b.project));
        if a.addr == b.addr {
            lemma_text_refl(a.addr);
        }
        if spec_to_lowercase(a.project) == spec_to_lowercase(b.project) {
            lemma_text_refl(spec_to_lowercase(a.project));
        }
    }
}

proof fn lemma_text_refl(a: Seq<char>)
    ensures
        order_text(a, a) == 0,
    decreases a.len(),
{
    if a.len() > 0 {
        lemma_text_refl(a.drop_first());
    }
}

/// Sorting gives a sequence in order that holds the same entries, each as
/// often as before.
pub proof fn law_sorted_by(s: Seq<EntryView>, key: SortKey, desc: bool)
    ensures
        forall|i: int, j: int|
            0 <= i < j < sorted_by(s, key, desc).len() ==> order_entries(
                sorted_by(s, key, desc)[i],
                sorted_by(s, key, desc)[j],
                key,
                desc,
            ) <= 0,
        sorted_by(s, key, desc).to_multiset() == s.to_multiset(),
        sorted_by(s, key, desc).len() == s.len(),
    decreases s.len(),
{
    broadcast use vstd::seq_lib::group_to_multiset_ensures;

    if s.len() == 0 {
        assert(s.to_multiset() =~= vstd::multiset::Multiset::<EntryView>::empty());
        assert(sorted_by(s, key, desc).to_multiset() =~= vstd::multiset::Multiset::<EntryView>::empty());
    } else {
        let t = s.drop_last();
        law_sorted_by(t, key, desc);
        lemma_insert_sorted_ordered(sorted_by(t, key, desc), s.last(), key, desc);
        assert(s =~= t.push(s.last()));
        assert(sorted_by(s, key, desc).to_multiset().len() == s.to_multiset().len());
    }
}

fn order_int_exec(a: i64, b: i64) -> (r: i8)
    ensures
        -1 <= r <= 1,
        r as int == order_int(a as int, b as int),
{
    if a < b {
        -1
    } else if a > b {
        1
    } else {
        0
    }
}

/// Lexicographic comparison of character sequences.
pub fn order_chars(a: &Vec<char>, b: &Vec<char>) -> (r: i8)
    ensures
        -1 <= r <= 1,
        r as int == order_text(a@, b@),
{
    let mut i: usize = 0;
    assert(a@.skip(0) =~= a@);
    assert(b@.skip(0) =~= b@);
    while i < a.len() && i < b.len() && a[i] == b[i]
        invariant
            i <= a.len(),
            i <= b.len(),
            order_text(a@, b@) == order_text(a@.skip(i as int), b@.skip(i as int)),
        decreases a.len() - i,
    {
        assert(a@.skip(i as int).drop_first() =~= a@.skip(i + 1));
        assert(b@.skip(i as int).drop_first() =~= b@.skip(i + 1));
        i = i + 1;
    }
    let ghost sa = a@.skip(i as int);
    let ghost sb = b@.skip(i as int);
    assert(sa.len() == a.len() - i);
    assert(sb.len() == b.len() - i);
    assert(i < a.len() ==> sa[0] == a@[i as int]);
    assert(i < b.len() ==> sb[0] == b@[i as int]);
    if i == a.len() && i == b.len() {
        0
    } else if i == a.len() {
        -1
    } else if i == b.len() {
        1
    } else if a[i] < b[i] {
        -1
    } else {
        1
    }
}

fn order_strings(a: &String, b: &String) -> (r: i8)
    ensures
        -1 <= r <= 1,
        r as int == order_text(a@, b@),
{
    let x = chars_of(a.as_str());
    let y = chars_of(b.as_str());
    order_chars(&x, &y)
}

fn order_lower(a: &String, b: &String) -> (r: i8)
    ensures
        -1 <= r <= 1,
        r as int == order_text(spec_to_lowercase(a@), spec_to_lowercase(b@)),
{
    let x = lower_chars(a.as_str());
    let y = lower_chars(b.as_str());
    order_chars(&x, &y)
}

fn proto_rank_exec(p: Proto) -> (r: i64)
    ensures
        r as int == proto_rank(p),
{
    match p {
        Proto::Tcp => 0,
        Proto::Udp => 1,
    }
}

fn compare_entries(a: &Entry, b: &Entry, key: SortKey) -> (r: i8)
    ensures
        -1 <= r <= 1,
        r as int == order_column(a@, b@, key),
{
    match key {
        SortKey::Proto => order_int_exec(proto_rank_exec(a.proto), proto_rank_exec(b.proto)),
        SortKey::Addr => order_strings(&a.addr, &b.addr),
        SortKey::Pid => order_int_exec(a.pid as i64, b.pid as i64),
        SortKey::Name => {
            let c = order_lower(&a.name, &b.name);
            if c != 0 {
                c
            } else {
                order_lower(&a.cmdline, &b.cmdline)
            }
        },
        SortKey::Project => order_lower(&a.project, &b.project),
        SortKey::Port => order_int_exec(a.port as i64, b.port as i64),
    }
}

/// The full comparison of two entries: negative, zero or positive.
pub fn order_full(a: &Entry, b: &Entry, key: SortKey, desc: bool) -> (r: i8)
    ensures
        -1 <= r <= 1,
        r as int == order_entries(a@, b@, key, desc),
{
    let mut ord = compare_entries(a, b, key);
    if ord == 0 {
        ord = order_int_exec(a.port as i64, b.port as i64);
    }
    if ord == 0 {
        ord = order_int_exec(proto_rank_exec(a.proto), proto_rank_exec(b.proto));
    }
    if ord == 0 {
        ord = order_strings(&a.addr, &b.addr);
    }
    if ord == 0 {
        ord = order_int_exec(a.pid as i64, b.pid as i64);
    }
    if desc {
        -ord
    } else {
        ord
    }
}

/// Orders listeners by port, protocol, address, then PID.
pub fn sort_entries(entries: &mut Vec<Entry>)
    ensures
        views(final(entries)@) == sorted_by(views(old(entries)@), SortKey::Port, false),
{
    sort_entries_by(entries, SortKey::Port, false);
}

/// Orders listeners by key with descending option and standard tie-breaking.
pub fn sort_entries_by(entries: &mut Vec<Entry>, key: SortKey, desc: bool)
    ensures
        views(final(entries)@) == sorted_by(views(old(entries)@), key, desc),
{
    let ghost orig = views(entries@);
    let mut out: Vec<Entry> = Vec::new();
    let mut i: usize = 0;
    while i < entries.len()
        invariant
            i <= entries.len(),
            orig == views(entries@),
            views(out@) == sorted_by(orig.take(i as int), key, desc),
        decreases entries.len() - i,
    {
        let x = entries[i].clone();
        let mut j = out.len();
        while j > 0 && order_full(&x, &out[j - 1], key, desc) < 0
            invariant
                j <= out.len(),
                forall|k: int| j <= k < out@.len() ==> order_entries(x@, #[trigger] views(out@)[k], key, desc) < 0,
            decreases j,
        {
            j = j - 1;
        }
        proof {
            let s = views(out@);
            assert(orig.take(i + 1).drop_last() =~= orig.take(i as int));
            assert(orig.take(i + 1).last() == x@);
            lemma_insert_at(s, x@, key, desc, j as int);
        }
        let ghost s0 = views(out@);
        out.insert(j, x);
        assert(views(out@) =~= s0.take(j as int).push(x@) + s0.skip(j as int));
        i = i + 1;
    }
    assert(orig.take(entries.len() as int) =~= orig);
    *entries = out;
}

} // verus!
