//! Selecting entries: by protocol, by port, by free-text query (port and pid
//! substrings, CIDR subnets, process fields, service aliases), and collecting
//! distinct process ids.
use vstd::prelude::*;
use std::collections::HashSet;
use crate::group::lemma_unique_pids;
use crate::model::{
    clean_ip, cidr_contains, Cidr, Entry, EntryView, Ident, Proto, views, parse_cidr,
};
use crate::services::{alias_texts, search_terms, search_terms_of};
use crate::text::{
    chars_of, contains_chars, contains_seq, dec_int, dec_nat, dec_i64, dec_u64, lemma_single_word,
    lemma_words_are_words, lower_chars, spec_to_lowercase, split_words, words,
};

verus! {

broadcast use vstd::std_specs::hash::group_hash_axioms;

/// Entries of the given protocol are kept: only TCP with `tcp` alone, only
/// UDP with `udp` alone, all otherwise.
pub open spec fn proto_wanted(e: EntryView, tcp: bool, udp: bool) -> bool {
    if tcp && !udp {
        e.proto == Proto::Tcp
    } else if udp && !tcp {
        e.proto == Proto::Udp
    } else {
        true
    }
}

/// Filters entries by protocol.
pub fn filter_proto(entries: &[Entry], tcp: bool, udp: bool) -> (r: Vec<Entry>)
    ensures
        views(r@) == views(entries@).filter(|e: EntryView| proto_wanted(e, tcp, udp)),
{
    let ghost pred = |e: EntryView| proto_wanted(e, tcp, udp);
    let mut out: Vec<Entry> = Vec::new();
    let mut i: usize = 0;
    while i < entries.len()
        invariant
            i <= entries.len(),
            pred == (|e: EntryView| proto_wanted(e, tcp, udp)),
            views(out@) == views(entries@).take(i as int).filter(pred),
        decreases entries.len() - i,
    {
        proof {
            reveal_with_fuel(Seq::<_>::filter, 1);
            assert(views(entries@).take(i + 1).drop_last() =~= views(entries@).take(i as int));
        }
        let keep = if tcp && !udp {
            entries[i].proto == Proto::Tcp
        } else if udp && !tcp {
            entries[i].proto == Proto::Udp
        } else {
            true
        };
        if keep {
            let c = entries[i].clone();
            out.push(c);
            assert(views(out@) =~= views(entries@).take(i as int).filter(pred).push(entries@[i as int]@));
        } else {
            assert(views(out@) =~= views(entries@).take(i as int).filter(pred));
        }
        i = i + 1;
    }
    assert(views(entries@).take(entries.len() as int) =~= views(entries@));
    out
}

/// Filters entries by port.
pub fn filter_port(entries: &[Entry], port: u16) -> (r: Vec<Entry>)
    ensures
        views(r@) == views(entries@).filter(|e: EntryView| e.port == port),
{
    let ghost pred = |e: EntryView| e.port == port;
    let mut out: Vec<Entry> = Vec::new();
    let mut i: usize = 0;
    while i < entries.len()
        invariant
            i <= entries.len(),
            pred == (|e: EntryView| e.port == port),
            views(out@) == views(entries@).take(i as int).filter(pred),
        decreases entries.len() - i,
    {
        proof {
            reveal_with_fuel(Seq::<_>::filter, 1);
            assert(views(entries@).take(i + 1).drop_last() =~= views(entries@).take(i as int));
        }
        if entries[i].port == port {
            let c = entries[i].clone();
            out.push(c);
            assert(views(out@) =~= views(entries@).take(i as int).filter(pred).push(entries@[i as int]@));
        } else {
            assert(views(out@) =~= views(entries@).take(i as int).filter(pred));
        }
        i = i + 1;
    }
    assert(views(entries@).take(entries.len() as int) =~= views(entries@));
    out
}

/// The search terms of a query: its whitespace-separated words, lowercased.
pub open spec fn query_terms(query: Seq<char>) -> Seq<Seq<char>> {
    words(query).map_values(|w: Seq<char>| spec_to_lowercase(w))
}

/// One search term matches an entry. A term that parses as a CIDR subnet
/// matches exactly the entries whose address lies in it. Any other term
/// matches when it is a substring of the port, of the (positive) pid, of the
/// lowercased name, project, path, command line, working directory or
/// address, or of one of the service aliases of the entry's port.
pub open spec fn term_matches(e: EntryView, term: Seq<char>) -> bool {
    match parse_cidr(term) {
        Some(c) => match clean_ip(e.addr) {
            Some(ip) => cidr_contains(c.ip, c.prefix_len, ip),
            None => false,
        },
        None => {
            ||| contains_seq(dec_nat(e.port as nat), term)
            ||| (e.pid > 0 && contains_seq(dec_int(e.pid as int), term))
            ||| contains_seq(spec_to_lowercase(e.name), term)
            ||| contains_seq(spec_to_lowercase(e.project), term)
            ||| contains_seq(spec_to_lowercase(e.path), term)
            ||| contains_seq(spec_to_lowercase(e.cmdline), term)
            ||| contains_seq(spec_to_lowercase(e.cwd), term)
            ||| contains_seq(spec_to_lowercase(e.addr), term)
            ||| exists|k: int|
                0 <= k < alias_texts(e.proto, e.port).len() && contains_seq(
                    #[trigger] alias_texts(e.proto, e.port)[k],
                    term,
                )
        },
    }
}

/// Every term matches the entry.
pub open spec fn entry_matches(e: EntryView, terms: Seq<Seq<char>>) -> bool {
    forall|k: int| 0 <= k < terms.len() ==> term_matches(e, #[trigger] terms[k])
}

/// The entries kept by a query: all of them for a blank query, otherwise
/// those that every term matches.
pub open spec fn query_keeps(e: EntryView, query: Seq<char>) -> bool {
    query_terms(query).len() == 0 || entry_matches(e, query_terms(query))
}

/// A query without words keeps every entry, in order.
pub proof fn law_blank_query_keeps_all(s: Seq<EntryView>, query: Seq<char>)
    requires
        words(query).len() == 0,
    ensures
        s.filter(|e: EntryView| query_keeps(e, query)) == s,
    decreases s.len(),
{
    reveal_with_fuel(Seq::<_>::filter, 1);
    if s.len() > 0 {
        law_blank_query_keeps_all(s.drop_last(), query);
        assert(s.drop_last().push(s.last()) =~= s);
    }
}

/// Without a protocol flag, or with both, every entry is kept.
pub proof fn law_proto_filter_keeps_all(s: Seq<EntryView>, tcp: bool, udp: bool)
    requires
        tcp == udp,
    ensures
        s.filter(|e: EntryView| proto_wanted(e, tcp, udp)) == s,
    decreases s.len(),
{
    reveal_with_fuel(Seq::<_>::filter, 1);
    if s.len() > 0 {
        law_proto_filter_keeps_all(s.drop_last(), tcp, udp);
        assert(s.drop_last().push(s.last()) =~= s);
    }
}

/// A query keeps an entry exactly when each of its words, on its own, does.
pub proof fn law_query_words_are_anded(e: EntryView, query: Seq<char>)
    requires
        words(query).len() > 0,
    ensures
        query_keeps(e, query) <==> forall|k: int|
            0 <= k < words(query).len() ==> query_keeps(e, #[trigger] words(query)[k]),
{
    lemma_words_are_words(query);
    assert forall|k: int| 0 <= k < words(query).len() implies (query_keeps(
        e,
        #[trigger] words(query)[k],
    ) <==> term_matches(e, query_terms(query)[k])) by {
        let w = words(query)[k];
        lemma_single_word(w);
        assert(query_terms(w) =~= seq![spec_to_lowercase(w)]);
        assert(query_terms(query)[k] == spec_to_lowercase(w));
        assert(query_terms(w)[0] == spec_to_lowercase(w));
        assert(entry_matches(e, query_terms(w)) <==> term_matches(e, query_terms(w)[0]));
    }
    if query_keeps(e, query) {
        assert forall|k: int| 0 <= k < words(query).len() implies query_keeps(
            e,
            #[trigger] words(query)[k],
        ) by {
            assert(term_matches(e, query_terms(query)[k]));
        }
    } else {
        let k = choose|k: int| 0 <= k < query_terms(query).len() && !term_matches(
            e,
            #[trigger] query_terms(query)[k],
        );
        assert(!query_keeps(e, words(query)[k]));
    }
}

/// Filters entries by query.
///
/// Supports:
/// - Exact and substring port matching (e.g., `8080`)
/// - Subnet CIDR matching (e.g., `127.0.0.0/8`, `192.168.1.0/24`, `fe80::/10`, `::1/128`)
/// - Process name, project name, path, command line, working directory, and service aliases
/// - Multi-word AND matching (all space-separated terms must match)
pub fn filter_query(entries: &[Entry], query: &str) -> (r: Vec<Entry>)
    ensures
        views(r@) == views(entries@).filter(|e: EntryView| query_keeps(e, query@)),
{
    let q = chars_of(query);
    let ws = split_words(&q);
    let mut terms: Vec<Vec<char>> = Vec::new();
    let mut k: usize = 0;
    while k < ws.len()
        invariant
            k <= ws.len(),
            q@ == query@,
            ws@.len() == words(q@).len(),
            forall|j: int| 0 <= j < ws@.len() ==> (#[trigger] ws@[j])@ == words(q@)[j],
            terms@.len() == k,
            forall|j: int| 0 <= j < k ==> (#[trigger] terms@[j])@ == query_terms(query@)[j],
        decreases ws.len() - k,
    {
        let s = crate::text::string_of(ws[k].as_slice());
        let l = lower_chars(s.as_str());
        assert(l@ == query_terms(query@)[k as int]);
        terms.push(l);
        k = k + 1;
    }
    let ghost pred = |e: EntryView| query_keeps(e, query@);
    let mut out: Vec<Entry> = Vec::new();
    let mut i: usize = 0;
    while i < entries.len()
        invariant
            i <= entries.len(),
            pred == (|e: EntryView| query_keeps(e, query@)),
            terms@.len() == query_terms(query@).len(),
            forall|j: int| 0 <= j < terms@.len() ==> (#[trigger] terms@[j])@ == query_terms(query@)[j],
            views(out@) == views(entries@).take(i as int).filter(pred),
        decreases entries.len() - i,
    {
        proof {
            reveal_with_fuel(Seq::<_>::filter, 1);
            assert(views(entries@).take(i + 1).drop_last() =~= views(entries@).take(i as int));
        }
        let keep = terms.len() == 0 || match_entry(&entries[i], &terms);
        proof {
            let e = entries@[i as int]@;
            assert(views(entries@)[i as int] == e);
            let qt = query_terms(query@);
            if terms@.len() > 0 {
                if entry_matches(e, qt) {
                    assert forall|j: int| 0 <= j < terms@.len() implies term_matches(
                        e,
                        #[trigger] terms@[j]@,
                    ) by {
                        assert(term_matches(e, qt[j]));
                    }
                }
                if forall|j: int| 0 <= j < terms@.len() ==> term_matches(e, #[trigger] terms@[j]@) {
                    assert forall|j: int| 0 <= j < qt.len() implies term_matches(
                        e,
                        #[trigger] qt[j],
                    ) by {
                        assert(term_matches(e, terms@[j]@));
                    }
                }
            }
            assert(keep == pred(e));
        }
        if keep {
            let c = entries[i].clone();
            out.push(c);
            assert(views(out@) =~= views(entries@).take(i as int).filter(pred).push(entries@[i as int]@));
        } else {
            assert(views(out@) =~= views(entries@).take(i as int).filter(pred));
        }
        i = i + 1;
    }
    assert(views(entries@).take(entries.len() as int) =~= views(entries@));
    out
}

/// Whether every term matches the entry.
fn match_entry(e: &Entry, terms: &Vec<Vec<char>>) -> (r: bool)
    ensures
        r == (forall|k: int| 0 <= k < terms@.len() ==> term_matches(e@, #[trigger] terms@[k]@)),
{
    let pid_str = dec_i64(e.pid as i64);
    let port_str = dec_u64(e.port as u64);
    let name_low = lower_chars(e.name.as_str());
    let proj_low = lower_chars(e.project.as_str());
    let path_low = lower_chars(e.path.as_str());
    let cmd_low = lower_chars(e.cmdline.as_str());
    let cwd_low = lower_chars(e.cwd.as_str());
    let addr_low = lower_chars(e.addr.as_str());
    let aliases = search_terms(e.proto, e.port);
    let entry_ip = e.parse_ip();
    let mut k: usize = 0;
    while k < terms.len()
        invariant
            k <= terms.len(),
            pid_str@ == dec_int(e.pid as int),
            port_str@ == dec_nat(e.port as nat),
            name_low@ == spec_to_lowercase(e.name@),
            proj_low@ == spec_to_lowercase(e.project@),
            path_low@ == spec_to_lowercase(e.path@),
            cmd_low@ == spec_to_lowercase(e.cmdline@),
            cwd_low@ == spec_to_lowercase(e.cwd@),
            addr_low@ == spec_to_lowercase(e.addr@),
            aliases@ == search_terms_of(e.proto, e.port),
            entry_ip == clean_ip(e.addr@),
            forall|j: int| 0 <= j < k ==> term_matches(e@, #[trigger] terms@[j]@),
        decreases terms.len() - k,
    {
        let term = &terms[k];
        let ok = match Cidr::parse_chars(term) {
            Some(cidr) => match entry_ip {
                Some(ip) => cidr.contains(ip),
                None => false,
            },
            None => {
                contains_chars(&port_str, term) || (e.pid > 0 && contains_chars(&pid_str, term))
                    || contains_chars(&name_low, term) || contains_chars(&proj_low, term)
                    || contains_chars(&path_low, term) || contains_chars(&cmd_low, term)
                    || contains_chars(&cwd_low, term) || contains_chars(&addr_low, term)
                    || any_alias_contains(aliases, term)
            },
        };
        proof {
            let at = alias_texts(e.proto, e.port);
            assert(at.len() == aliases@.len());
            assert forall|j: int| 0 <= j < at.len() implies at[j] == aliases@[j]@ by {}
            let ex1 = exists|j: int| 0 <= j < aliases@.len() && contains_seq((#[trigger] aliases@[j])@, term@);
            let ex2 = exists|j: int| 0 <= j < at.len() && contains_seq(#[trigger] at[j], term@);
            if ex1 {
                let j = choose|j: int| 0 <= j < aliases@.len() && contains_seq((#[trigger] aliases@[j])@, term@);
                assert(at[j] == aliases@[j]@);
            }
            if ex2 {
                let j = choose|j: int| 0 <= j < at.len() && contains_seq(#[trigger] at[j], term@);
                assert(at[j] == aliases@[j]@);
            }
            assert(ex1 == ex2);
            assert(ok == term_matches(e@, term@));
        }
        if !ok {
            return false;
        }
        k = k + 1;
    }
    true
}

/// Whether some alias holds `term`.
fn any_alias_contains(aliases: &[&'static str], term: &Vec<char>) -> (r: bool)
    ensures
        r == exists|k: int|
            0 <= k < aliases@.len() && contains_seq((#[trigger] aliases@[k])@, term@),
{
    let mut k: usize = 0;
    while k < aliases.len()
        invariant
            k <= aliases.len(),
            forall|j: int| 0 <= j < k ==> !contains_seq((#[trigger] aliases@[j])@, term@),
        decreases aliases.len() - k,
    {
        let a = chars_of(aliases[k]);
        if contains_chars(&a, term) {
            return true;
        }
        k = k + 1;
    }
    false
}

/// The distinct positive process ids of the entries, in order of first
/// appearance.
pub open spec fn unique_pids_of(s: Seq<EntryView>) -> Seq<i32>
    decreases s.len(),
{
    if s.len() == 0 {
        seq![]
    } else {
        let u = unique_pids_of(s.drop_last());
        if s.last().pid > 0 && !u.contains(s.last().pid) {
            u.push(s.last().pid)
        } else {
            u
        }
    }
}

/// The process identities of the entries with distinct positive pids, each
/// from the first entry with that pid, in order of first appearance.
pub open spec fn unique_idents_of(s: Seq<EntryView>) -> Seq<Ident>
    decreases s.len(),
{
    if s.len() == 0 {
        seq![]
    } else {
        let u = unique_idents_of(s.drop_last());
        if s.last().pid > 0 && !u.map_values(|d: Ident| d.pid).contains(s.last().pid) {
            u.push(Ident { pid: s.last().pid, start: s.last().start })
        } else {
            u
        }
    }
}

/// The identities that `unique_idents` gives name exactly the pids that
/// `unique_pids` gives, in the same order, each with the start token of the
/// first entry that has its pid.
pub proof fn law_idents_match_pids(s: Seq<EntryView>)
    ensures
        unique_idents_of(s).map_values(|d: Ident| d.pid) == unique_pids_of(s),
        forall|k: int|
            0 <= k < unique_idents_of(s).len() ==> exists|i: int|
                0 <= i < s.len() && s[i].pid == (#[trigger] unique_idents_of(s)[k]).pid && s[i].start
                    == unique_idents_of(s)[k].start && forall|j: int| 0 <= j < i ==> s[j].pid != s[i].pid,
    decreases s.len(),
{
    if s.len() > 0 {
        let t = s.drop_last();
        law_idents_match_pids(t);
        lemma_unique_pids(t);
        let u = unique_idents_of(t);
        let last = s.last();
        assert forall|k: int| 0 <= k < u.len() implies exists|i: int|
            0 <= i < s.len() && s[i].pid == (#[trigger] u[k]).pid && s[i].start == u[k].start
                && forall|j: int| 0 <= j < i ==> s[j].pid != s[i].pid by {
            let i = choose|i: int|
                0 <= i < t.len() && t[i].pid == u[k].pid && t[i].start == u[k].start && forall|j: int|
                    0 <= j < i ==> t[j].pid != t[i].pid;
            assert(s[i] == t[i]);
            assert forall|j: int| 0 <= j < i implies s[j].pid != s[i].pid by {
                assert(s[j] == t[j]);
            }
        }
        if last.pid > 0 && !u.map_values(|d: Ident| d.pid).contains(last.pid) {
            let n = Ident { pid: last.pid, start: last.start };
            assert(u.push(n).map_values(|d: Ident| d.pid) =~= u.map_values(|d: Ident| d.pid).push(
                last.pid,
            ));
            assert forall|j: int| 0 <= j < s.len() - 1 implies (#[trigger] s[j]).pid != s[s.len() - 1].pid by {
                if s[j].pid == last.pid {
                    assert(t[j].pid == last.pid);
                }
            }
            assert forall|k: int| 0 <= k < u.push(n).len() implies exists|i: int|
                0 <= i < s.len() && s[i].pid == (#[trigger] u.push(n)[k]).pid && s[i].start
                    == u.push(n)[k].start && forall|j: int| 0 <= j < i ==> s[j].pid != s[i].pid by {
                if k == u.len() {
                    assert(s[s.len() - 1] == last);
                } else {
                    assert(u.push(n)[k] == u[k]);
                }
            }
        }
    }
}

/// Collects distinct positive process IDs in encounter order.
pub fn unique_pids(entries: &[Entry]) -> (r: Vec<i32>)
    ensures
        r@ == unique_pids_of(views(entries@)),
        forall|i: int| 0 <= i < r@.len() ==> r@[i] > 0,
        forall|i: int, j: int| 0 <= i < j < r@.len() ==> r@[i] != r@[j],
        forall|i: int|
            0 <= i < entries@.len() && (#[trigger] entries@[i]).pid > 0 ==> r@.contains(
                entries@[i].pid,
            ),
{
    let mut out: Vec<i32> = Vec::new();
    let mut seen: HashSet<i32> = HashSet::new();
    let mut i: usize = 0;
    while i < entries.len()
        invariant
            i <= entries.len(),
            out@ == unique_pids_of(views(entries@).take(i as int)),
            forall|p: i32| #[trigger] seen@.contains(p) <==> out@.contains(p),
            forall|a: int| 0 <= a < out@.len() ==> out@[a] > 0,
            forall|a: int, b: int| 0 <= a < b < out@.len() ==> out@[a] != out@[b],
            forall|a: int|
                0 <= a < i && (#[trigger] entries@[a]).pid > 0 ==> out@.contains(entries@[a].pid),
        decreases entries.len() - i,
    {
        assert(views(entries@).take(i + 1).drop_last() =~= views(entries@).take(i as int));
        let pid = entries[i].pid;
        let ghost old_out = out@;
        if pid > 0 && seen.insert(pid) {
            out.push(pid);
            assert(out@[out@.len() - 1] == pid);
            proof {
                assert forall|y: i32| old_out.contains(y) implies out@.contains(y) by {
                    let j = choose|j: int| 0 <= j < old_out.len() && old_out[j] == y;
                    assert(out@[j] == y);
                }
                assert forall|y: i32| out@.contains(y) implies old_out.contains(y) || y == pid by {
                    let j = choose|j: int| 0 <= j < out@.len() && out@[j] == y;
                    if j < old_out.len() {
                        assert(old_out[j] == y);
                    }
                }
            }
        }
        i = i + 1;
    }
    assert(views(entries@).take(entries.len() as int) =~= views(entries@));
    out
}

/// Collects distinct process identifiers (`pid` + `start` token) for safe termination.
pub fn unique_idents(entries: &[Entry]) -> (r: Vec<Ident>)
    ensures
        r@ == unique_idents_of(views(entries@)),
{
    let mut out: Vec<Ident> = Vec::new();
    let mut seen: HashSet<i32> = HashSet::new();
    let mut i: usize = 0;
    while i < entries.len()
        invariant
            i <= entries.len(),
            out@ == unique_idents_of(views(entries@).take(i as int)),
            forall|p: i32| #[trigger] seen@.contains(p) <==> out@.map_values(|d: Ident| d.pid).contains(p),
        decreases entries.len() - i,
    {
        assert(views(entries@).take(i + 1).drop_last() =~= views(entries@).take(i as int));
        let pid = entries[i].pid;
        let ghost old_pids = out@.map_values(|d: Ident| d.pid);
        if pid > 0 && seen.insert(pid) {
            out.push(Ident { pid, start: entries[i].start });
            assert(out@.map_values(|d: Ident| d.pid) =~= old_pids.push(pid));
            proof {
                let np = out@.map_values(|d: Ident| d.pid);
                assert forall|y: i32| old_pids.contains(y) implies np.contains(y) by {
                    let j = choose|j: int| 0 <= j < old_pids.len() && old_pids[j] == y;
                    assert(np[j] == y);
                }
                assert(np[np.len() - 1] == pid);
                assert forall|y: i32| np.contains(y) implies old_pids.contains(y) || y == pid by {
                    let j = choose|j: int| 0 <= j < np.len() && np[j] == y;
                    if j < old_pids.len() {
                        assert(old_pids[j] == y);
                    }
                }
            }
        }
        i = i + 1;
    }
    assert(views(entries@).take(entries.len() as int) =~= views(entries@));
    out
}

} // verus!
