//! The platform-independent parts of reading sockets and processes from the
//! operating system: keeping one entry per socket, in order.
pub mod ebpf;
pub mod darwin;
pub mod freebsd;
pub mod linux;
pub mod other;
pub mod windows;

use vstd::prelude::*;
use crate::group::pidless_keys_distinct;
use crate::model::{Entry, EntryView, SortKey, views};
use crate::sort::{law_sorted_by, sort_entries, sorted_by};
use crate::text::chars_eq;

verus! {

/// Two entries describe the same socket of the same process: protocol,
/// port, address and pid agree (their keys are equal).
pub open spec fn same_socket(a: EntryView, b: EntryView) -> bool {
    a.proto == b.proto && a.port == b.port && a.addr == b.addr && a.pid == b.pid
}

/// No two entries describe the same socket.
pub open spec fn keys_distinct(s: Seq<EntryView>) -> bool {
    forall|i: int, j: int|
        0 <= i < s.len() && 0 <= j < s.len() && i != j ==> !same_socket(#[trigger] s[i], #[trigger] s[j])
}

/// Some entry of `p` describes the same socket as `x`.
pub open spec fn seen_in(p: Seq<EntryView>, x: EntryView) -> bool {
    exists|j: int| 0 <= j < p.len() && same_socket(#[trigger] p[j], x)
}

/// The first entry for each socket, in order.
pub open spec fn first_occurrences(s: Seq<EntryView>) -> Seq<EntryView>
    decreases s.len(),
{
    if s.len() == 0 {
        seq![]
    } else {
        let t = first_occurrences(s.drop_last());
        if seen_in(s.drop_last(), s.last()) {
            t
        } else {
            t.push(s.last())
        }
    }
}

/// The first occurrences are entries of `s`, cover every socket of `s`, and
/// describe distinct sockets.
pub proof fn lemma_first_occurrences(s: Seq<EntryView>)
    ensures
        forall|k: int|
            0 <= k < first_occurrences(s).len() ==> exists|j: int|
                0 <= j < s.len() && #[trigger] first_occurrences(s)[k] == s[j],
        forall|j: int| 0 <= j < s.len() ==> seen_in(first_occurrences(s), #[trigger] s[j]),
        keys_distinct(first_occurrences(s)),
    decreases s.len(),
{
    if s.len() > 0 {
        let p = s.drop_last();
        let x = s.last();
        lemma_first_occurrences(p);
        let t = first_occurrences(p);
        assert forall|k: int| 0 <= k < t.len() implies exists|j: int|
            0 <= j < s.len() && #[trigger] t[k] == s[j] by {
            let j = choose|j: int| 0 <= j < p.len() && t[k] == p[j];
            assert(s[j] == p[j]);
        }
        if seen_in(p, x) {
            assert forall|j: int| 0 <= j < s.len() implies seen_in(t, #[trigger] s[j]) by {
                if j < s.len() - 1 {
                    assert(s[j] == p[j]);
                } else {
                    let m = choose|m: int| 0 <= m < p.len() && same_socket(p[m], x);
                    assert(seen_in(t, p[m]));
                    let k = choose|k: int| 0 <= k < t.len() && same_socket(t[k], p[m]);
                    assert(same_socket(t[k], s[j]));
                }
            }
        } else {
            let u = t.push(x);
            assert forall|k: int| 0 <= k < u.len() implies exists|j: int|
                0 <= j < s.len() && #[trigger] u[k] == s[j] by {
                if k == t.len() {
                    assert(u[k] == s[s.len() - 1]);
                } else {
                    assert(u[k] == t[k]);
                }
            }
            assert forall|j: int| 0 <= j < s.len() implies seen_in(u, #[trigger] s[j]) by {
                if j < s.len() - 1 {
                    assert(s[j] == p[j]);
                    assert(seen_in(t, p[j]));
                    let k = choose|k: int| 0 <= k < t.len() && same_socket(t[k], p[j]);
                    assert(u[k] == t[k]);
                } else {
                    assert(u[t.len() as int] == x);
                }
            }
            assert forall|i: int, j: int|
                0 <= i < u.len() && 0 <= j < u.len() && i != j implies !same_socket(
                #[trigger] u[i],
                #[trigger] u[j],
            ) by {
                if i == t.len() || j == t.len() {
                    let other = if i == t.len() { j } else { i };
                    assert(u[other] == t[other]);
                    let m = choose|m: int| 0 <= m < p.len() && t[other] == p[m];
                    if same_socket(u[i], u[j]) {
                        assert(same_socket(p[m], x));
                    }
                } else {
                    assert(u[i] == t[i] && u[j] == t[j]);
                }
            }
        }
    }
}

/// Reordering entries keeps their sockets distinct.
pub proof fn lemma_permutation_keeps_keys_distinct(s: Seq<EntryView>, r: Seq<EntryView>)
    requires
        keys_distinct(s),
        r.to_multiset() == s.to_multiset(),
    ensures
        keys_distinct(r),
{
    broadcast use vstd::seq_lib::group_to_multiset_ensures;

    assert(s.no_duplicates()) by {
        assert forall|i: int, j: int| 0 <= i < s.len() && 0 <= j < s.len() && i != j implies s[i]
            != s[j] by {
            assert(!same_socket(s[i], s[j]));
        }
    }
    s.lemma_multiset_has_no_duplicates();
    r.lemma_multiset_has_no_duplicates_conv();
    assert forall|i: int, j: int|
        0 <= i < r.len() && 0 <= j < r.len() && i != j implies !same_socket(
        #[trigger] r[i],
        #[trigger] r[j],
    ) by {
        assert(r.to_multiset().count(r[i]) > 0);
        assert(r.to_multiset().count(r[j]) > 0);
        assert(s.contains(r[i]));
        assert(s.contains(r[j]));
        let p = choose|p: int| 0 <= p < s.len() && s[p] == r[i];
        let q = choose|q: int| 0 <= q < s.len() && s[q] == r[j];
        assert(r[i] != r[j]);
    }
}

/// Entries of distinct sockets never share the key of a pid-less one.
pub proof fn lemma_keys_distinct_pidless(s: Seq<EntryView>)
    requires
        keys_distinct(s),
    ensures
        pidless_keys_distinct(s),
{
    assert forall|i: int, j: int| 0 <= i < j < s.len() && s[i].pid <= 0 implies !(#[trigger] s[i].proto
        == #[trigger] s[j].proto && s[i].port == s[j].port && s[i].addr == s[j].addr && s[i].pid
        == s[j].pid) by {
        assert(!same_socket(s[i], s[j]));
    }
}

/// Whether some entry of `out` describes the same socket as `e`.
fn seen_socket(out: &Vec<Entry>, e: &Entry) -> (r: bool)
    ensures
        r == seen_in(views(out@), e@),
{
    let a = crate::text::chars_of(e.addr.as_str());
    let mut k: usize = 0;
    while k < out.len()
        invariant
            k <= out@.len(),
            a@ == e.addr@,
            forall|j: int| 0 <= j < k ==> !same_socket(#[trigger] views(out@)[j], e@),
        decreases out.len() - k,
    {
        let o = &out[k];
        assert(views(out@)[k as int] == o@);
        if o.proto == e.proto && o.port == e.port && o.pid == e.pid {
            let b = crate::text::chars_of(o.addr.as_str());
            if chars_eq(&b, &a) {
                return true;
            }
        }
        k = k + 1;
    }
    false
}

/// One entry per socket (the first met), ordered by port, protocol, address
/// and pid.
pub fn dedup_and_sort(entries: Vec<Entry>) -> (r: Vec<Entry>)
    ensures
        views(r@) == sorted_by(first_occurrences(views(entries@)), SortKey::Port, false),
        keys_distinct(views(r@)),
        pidless_keys_distinct(views(r@)),
{
    let ghost s = views(entries@);
    let mut out: Vec<Entry> = Vec::new();
    let mut i: usize = 0;
    while i < entries.len()
        invariant
            i <= entries@.len(),
            s == views(entries@),
            views(out@) == first_occurrences(s.take(i as int)),
        decreases entries.len() - i,
    {
        let ghost p = s.take(i as int);
        proof {
            lemma_first_occurrences(p);
            assert(s.take(i + 1).drop_last() =~= p);
            assert(s.take(i + 1).last() == entries@[i as int]@);
        }
        let seen = seen_socket(&out, &entries[i]);
        proof {
            let x = entries@[i as int]@;
            let fo = first_occurrences(p);
            if seen {
                let k = choose|k: int| 0 <= k < fo.len() && same_socket(#[trigger] fo[k], x);
                let j = choose|j: int| 0 <= j < p.len() && fo[k] == p[j];
                assert(seen_in(p, x));
            } else {
                if seen_in(p, x) {
                    let j = choose|j: int| 0 <= j < p.len() && same_socket(#[trigger] p[j], x);
                    assert(seen_in(fo, p[j]));
                    let k = choose|k: int| 0 <= k < fo.len() && same_socket(#[trigger] fo[k], p[j]);
                    assert(same_socket(fo[k], x));
                }
            }
        }
        if !seen {
            let c = entries[i].clone();
            out.push(c);
            assert(views(out@) =~= first_occurrences(p).push(entries@[i as int]@));
        }
        i = i + 1;
    }
    assert(s.take(entries.len() as int) =~= s);
    let ghost fo = views(out@);
    proof {
        lemma_first_occurrences(s);
        law_sorted_by(fo, SortKey::Port, false);
        lemma_permutation_keeps_keys_distinct(fo, sorted_by(fo, SortKey::Port, false));
        lemma_keys_distinct_pidless(sorted_by(fo, SortKey::Port, false));
    }
    sort_entries(&mut out);
    out
}

} // verus!
