//! Grouping the sockets of one process into a single foldable row of the TUI
//! table.
use vstd::prelude::*;
use std::collections::HashMap;
use crate::filter::unique_pids_of;
use crate::model::{Entry, EntryView, entry_key, views};
use crate::sort::{insert_sorted, law_sorted_by, order_entries, order_full, sort_entries_by, sorted_by};
use crate::model::SortKey;
use crate::text::{dec_nat, push_dec, string_of};

verus! {

broadcast use vstd::std_specs::hash::group_hash_axioms;

/// Folding state of a row in the TUI view.
#[derive(Debug, Clone, Copy, PartialEq, Eq, Structural)]
pub enum FoldState {
    Leaf,
    Collapsed,
    Expanded,
    Child,
}

impl Default for FoldState {
    fn default() -> (r: Self)
        ensures
            r == FoldState::Leaf,
    {
        FoldState::Leaf
    }
}

/// A rendered or selectable row in the TUI table.
#[derive(Debug, Clone, PartialEq, Eq)]
pub struct ViewRow {
    pub entry: Entry,
    pub fold: FoldState,
    pub hidden: usize,
}

/// The mathematical value of a [`ViewRow`].
pub ghost struct RowView {
    pub entry: EntryView,
    pub fold: FoldState,
    pub hidden: usize,
}

impl View for ViewRow {
    type V = RowView;

    open spec fn view(&self) -> RowView {
        RowView { entry: self.entry@, fold: self.fold, hidden: self.hidden }
    }
}

/// The views of a sequence of rows.
pub open spec fn row_views(s: Seq<ViewRow>) -> Seq<RowView> {
    s.map_values(|r: ViewRow| r@)
}

/// The persistent identifier of a row: a process row (collapsed or
/// expanded, with a positive pid) is `p/<pid>`; any other row is its entry's
/// key.
pub open spec fn row_id(r: RowView) -> Seq<char> {
    if r.fold == FoldState::Child {
        entry_key(r.entry)
    } else if r.entry.pid > 0 && (r.fold == FoldState::Collapsed || r.fold == FoldState::Expanded) {
        seq!['p', '/'] + dec_nat(r.entry.pid as nat)
    } else {
        entry_key(r.entry)
    }
}

/// The fold mark of a row.
pub open spec fn fold_mark(f: FoldState) -> Seq<char> {
    match f {
        FoldState::Collapsed => seq!['\u{25b8}'],
        FoldState::Expanded => seq!['\u{25be}'],
        FoldState::Leaf | FoldState::Child => seq![' '],
    }
}

impl ViewRow {
    /// Persistent identifier across reloads and filters.
    pub fn id(&self) -> (r: String)
        ensures
            r@ == row_id(self@),
    {
        if self.fold == FoldState::Child {
            return self.entry.key();
        }
        if self.entry.pid > 0 && (self.fold == FoldState::Collapsed || self.fold
            == FoldState::Expanded) {
            let mut v: Vec<char> = Vec::new();
            v.push('p');
            v.push('/');
            push_dec(&mut v, self.entry.pid as u64);
            assert(v@ =~= seq!['p', '/'] + dec_nat(self.entry.pid as nat));
            return string_of(v.as_slice());
        }
        self.entry.key()
    }

    /// Tree fold mark (`▸`, `▾`, or ` `).
    pub fn mark(&self) -> (r: &'static str)
        ensures
            r@ == fold_mark(self.fold),
    {
        match self.fold {
            FoldState::Collapsed => {
                proof {
                    reveal_strlit("\u{25b8}");
                }
                "\u{25b8}"
            },
            FoldState::Expanded => {
                proof {
                    reveal_strlit("\u{25be}");
                }
                "\u{25be}"
            },
            FoldState::Leaf | FoldState::Child => {
                proof {
                    reveal_strlit(" ");
                }
                " "
            },
        }
    }
}

// ---------------------------------------------------------------------------
// Specification of the grouping
// ---------------------------------------------------------------------------

/// The groups before ordering: one per positive pid, in order of first
/// appearance, holding that process's sockets sorted; then one per entry
/// without a pid.
pub open spec fn raw_groups(s: Seq<EntryView>, key: SortKey, desc: bool) -> Seq<Seq<EntryView>> {
    unique_pids_of(s).map_values(
        |p: i32| sorted_by(s.filter(|e: EntryView| e.pid == p), key, desc),
    ) + s.filter(|e: EntryView| e.pid <= 0).map_values(|e: EntryView| seq![e])
}

/// Inserts group `g` after every group whose first row is not greater.
pub open spec fn insert_group(
    gs: Seq<Seq<EntryView>>,
    g: Seq<EntryView>,
    key: SortKey,
    desc: bool,
) -> Seq<Seq<EntryView>>
    decreases gs.len(),
{
    if gs.len() == 0 {
        seq![g]
    } else if order_entries(g[0], gs.last()[0], key, desc) < 0 {
        insert_group(gs.drop_last(), g, key, desc).push(gs.last())
    } else {
        gs.push(g)
    }
}

/// Groups stably sorted by their first rows.
pub open spec fn sorted_groups(gs: Seq<Seq<EntryView>>, key: SortKey, desc: bool) -> Seq<
    Seq<EntryView>,
>
    decreases gs.len(),
{
    if gs.len() == 0 {
        seq![]
    } else {
        insert_group(sorted_groups(gs.drop_last(), key, desc), gs.last(), key, desc)
    }
}

/// The process with pid `pid` is marked expanded.
pub open spec fn is_expanded(expanded: Map<i32, bool>, pid: i32) -> bool {
    expanded.contains_key(pid) && expanded[pid]
}

/// The rows of one group: a single socket is a plain row; an expanded process
/// shows its first socket as the expanded head and the others as children; a
/// collapsed process shows its first socket with the number of hidden ones.
pub open spec fn group_rows(g: Seq<EntryView>, expanded: Map<i32, bool>) -> Seq<RowView> {
    if g.len() == 1 {
        seq![RowView { entry: g[0], fold: FoldState::Leaf, hidden: 0 }]
    } else if is_expanded(expanded, g[0].pid) {
        seq![RowView { entry: g[0], fold: FoldState::Expanded, hidden: 0 }] + g.skip(1).map_values(
            |e: EntryView| RowView { entry: e, fold: FoldState::Child, hidden: 0 },
        )
    } else {
        seq![RowView { entry: g[0], fold: FoldState::Collapsed, hidden: (g.len() - 1) as usize }]
    }
}

/// The rows of all groups, in order.
pub open spec fn rows_of(gs: Seq<Seq<EntryView>>, expanded: Map<i32, bool>) -> Seq<RowView>
    decreases gs.len(),
{
    if gs.len() == 0 {
        seq![]
    } else {
        rows_of(gs.drop_last(), expanded) + group_rows(gs.last(), expanded)
    }
}

/// The rows that `flatten_groups` produces.
pub open spec fn flattened(
    s: Seq<EntryView>,
    key: SortKey,
    desc: bool,
    expanded: Map<i32, bool>,
) -> Seq<RowView> {
    rows_of(sorted_groups(raw_groups(s, key, desc), key, desc), expanded)
}

/// No two entries without a pid share protocol, port, address and pid (the
/// grouping tells such groups apart by their key).
pub open spec fn pidless_keys_distinct(s: Seq<EntryView>) -> bool {
    forall|i: int, j: int|
        0 <= i < j < s.len() && s[i].pid <= 0 ==> !(#[trigger] s[i].proto == #[trigger] s[j].proto
            && s[i].port == s[j].port && s[i].addr == s[j].addr && s[i].pid == s[j].pid)
}

// ---------------------------------------------------------------------------
// Lemmas
// ---------------------------------------------------------------------------

/// Keeping some of the entries keeps the keys of the pid-less ones distinct.
pub proof fn lemma_filter_keeps_pidless_distinct(s: Seq<EntryView>, pred: spec_fn(EntryView) -> bool)
    requires
        pidless_keys_distinct(s),
    ensures
        pidless_keys_distinct(s.filter(pred)),
    decreases s.len(),
{
    reveal_with_fuel(Seq::<_>::filter, 1);
    if s.len() > 0 {
        let t = s.drop_last();
        assert forall|i: int, j: int|
            0 <= i < j < t.len() && t[i].pid <= 0 implies !(#[trigger] t[i].proto == #[trigger] t[j].proto
                && t[i].port == t[j].port && t[i].addr == t[j].addr && t[i].pid == t[j].pid) by {
            assert(t[i] == s[i] && t[j] == s[j]);
        }
        lemma_filter_keeps_pidless_distinct(t, pred);
        let ft = t.filter(pred);
        if pred(s.last()) {
            let fs = ft.push(s.last());
            assert(s.filter(pred) == fs);
            assert forall|i: int, j: int|
                0 <= i < j < fs.len() && fs[i].pid <= 0 implies !(#[trigger] fs[i].proto == #[trigger] fs[j].proto
                    && fs[i].port == fs[j].port && fs[i].addr == fs[j].addr && fs[i].pid == fs[j].pid) by {
                if j == fs.len() - 1 {
                    assert(ft.contains(fs[i]));
                    t.lemma_filter_contains_rev(pred, fs[i]);
                    let k = choose|k: int| 0 <= k < t.len() && t[k] == fs[i];
                    assert(s[k] == fs[i] && s[s.len() - 1] == fs[j]);
                } else {
                    assert(fs[i] == ft[i] && fs[j] == ft[j]);
                }
            }
        }
    }
}

/// Facts about `unique_pids_of`: positive, distinct, and exactly the
/// positive pids that occur.
pub proof fn lemma_unique_pids(s: Seq<EntryView>)
    ensures
        forall|k: int| 0 <= k < unique_pids_of(s).len() ==> #[trigger] unique_pids_of(s)[k] > 0,
        forall|a: int, b: int|
            0 <= a < b < unique_pids_of(s).len() ==> unique_pids_of(s)[a] != unique_pids_of(s)[b],
        forall|p: i32|
            p > 0 ==> (#[trigger] unique_pids_of(s).contains(p) <==> exists|j: int|
                0 <= j < s.len() && s[j].pid == p),
    decreases s.len(),
{
    if s.len() > 0 {
        let t = s.drop_last();
        lemma_unique_pids(t);
        let u = unique_pids_of(t);
        assert forall|p: i32| p > 0 implies (#[trigger] unique_pids_of(s).contains(p) <==> exists|
            j: int,
        | 0 <= j < s.len() && s[j].pid == p) by {
            if unique_pids_of(s).contains(p) {
                if u.contains(p) {
                    let j = choose|j: int| 0 <= j < t.len() && t[j].pid == p;
                    assert(s[j].pid == p);
                } else {
                    let k = choose|k: int|
                        0 <= k < unique_pids_of(s).len() && unique_pids_of(s)[k] == p;
                    if k < u.len() {
                        assert(u[k] == p);
                    }
                    assert(s[s.len() - 1].pid == p);
                }
            }
            if exists|j: int| 0 <= j < s.len() && s[j].pid == p {
                let j = choose|j: int| 0 <= j < s.len() && s[j].pid == p;
                if j < s.len() - 1 {
                    assert(t[j].pid == p);
                    assert(u.contains(p));
                    let k = choose|k: int| 0 <= k < u.len() && u[k] == p;
                    assert(unique_pids_of(s)[k] == p);
                } else {
                    if !u.contains(p) {
                        assert(unique_pids_of(s)[u.len() as int] == p);
                    } else {
                        let k = choose|k: int| 0 <= k < u.len() && u[k] == p;
                        assert(unique_pids_of(s)[k] == p);
                    }
                }
            }
        }
    }
}

proof fn lemma_filter_none(s: Seq<EntryView>, p: i32)
    requires
        forall|j: int| 0 <= j < s.len() ==> s[j].pid != p,
    ensures
        s.filter(|e: EntryView| e.pid == p) =~= Seq::<EntryView>::empty(),
    decreases s.len(),
{
    reveal_with_fuel(Seq::<_>::filter, 1);
    if s.len() > 0 {
        lemma_filter_none(s.drop_last(), p);
    }
}

proof fn lemma_insert_sorted_len(s: Seq<EntryView>, x: EntryView, key: SortKey, desc: bool)
    ensures
        insert_sorted(s, x, key, desc).len() == s.len() + 1,
    decreases s.len(),
{
    if s.len() > 0 {
        lemma_insert_sorted_len(s.drop_last(), x, key, desc);
    }
}

/// Sorting keeps the length.
pub proof fn lemma_sorted_by_len(s: Seq<EntryView>, key: SortKey, desc: bool)
    ensures
        sorted_by(s, key, desc).len() == s.len(),
    decreases s.len(),
{
    if s.len() > 0 {
        lemma_sorted_by_len(s.drop_last(), key, desc);
        lemma_insert_sorted_len(sorted_by(s.drop_last(), key, desc), s.last(), key, desc);
    }
}

proof fn lemma_insert_group_at(
    gs: Seq<Seq<EntryView>>,
    g: Seq<EntryView>,
    key: SortKey,
    desc: bool,
    j: int,
)
    requires
        0 <= j <= gs.len(),
        forall|k: int| j <= k < gs.len() ==> order_entries(g[0], #[trigger] gs[k][0], key, desc) < 0,
        j > 0 ==> order_entries(g[0], gs[j - 1][0], key, desc) >= 0,
    ensures
        insert_group(gs, g, key, desc) == gs.take(j).push(g) + gs.skip(j),
    decreases gs.len(),
{
    if gs.len() == 0 {
        assert(gs.take(j).push(g) + gs.skip(j) =~= seq![g]);
    } else if j == gs.len() {
        assert(gs.take(j).push(g) + gs.skip(j) =~= gs.push(g));
    } else {
        assert(order_entries(g[0], gs[gs.len() - 1][0], key, desc) < 0);
        lemma_insert_group_at(gs.drop_last(), g, key, desc, j);
        assert(gs.drop_last().take(j).push(g) + gs.drop_last().skip(j) + seq![gs.last()]
            =~= gs.take(j).push(g) + gs.skip(j));
    }
}

proof fn lemma_insert_group_len(gs: Seq<Seq<EntryView>>, g: Seq<EntryView>, key: SortKey, desc: bool)
    ensures
        insert_group(gs, g, key, desc).len() == gs.len() + 1,
    decreases gs.len(),
{
    if gs.len() > 0 {
        lemma_insert_group_len(gs.drop_last(), g, key, desc);
    }
}

proof fn lemma_sorted_groups_len(gs: Seq<Seq<EntryView>>, key: SortKey, desc: bool)
    ensures
        sorted_groups(gs, key, desc).len() == gs.len(),
    decreases gs.len(),
{
    if gs.len() > 0 {
        lemma_sorted_groups_len(gs.drop_last(), key, desc);
        lemma_insert_group_len(sorted_groups(gs.drop_last(), key, desc), gs.last(), key, desc);
    }
}

proof fn lemma_rows_of_collapsed_len(gs: Seq<Seq<EntryView>>, expanded: Map<i32, bool>)
    requires
        forall|k: int| 0 <= k < gs.len() && (#[trigger] gs[k]).len() != 1 ==> !is_expanded(expanded, gs[k][0].pid),
    ensures
        rows_of(gs, expanded).len() == gs.len(),
    decreases gs.len(),
{
    if gs.len() > 0 {
        assert forall|k: int| 0 <= k < gs.drop_last().len() && (#[trigger] gs.drop_last()[k]).len() != 1 implies !is_expanded(expanded, gs.drop_last()[k][0].pid) by {
            assert(gs.drop_last()[k] == gs[k]);
        }
        lemma_rows_of_collapsed_len(gs.drop_last(), expanded);
        assert(gs.last() == gs[gs.len() - 1]);
    }
}

/// With no process expanded, the view shows one row per process with a
/// known pid and one per socket without one.
pub proof fn law_collapsed_rows(s: Seq<EntryView>, key: SortKey, desc: bool)
    ensures
        flattened(s, key, desc, Map::empty()).len() == unique_pids_of(s).len() + s.filter(
            |e: EntryView| e.pid <= 0,
        ).len(),
{
    let raw = raw_groups(s, key, desc);
    lemma_sorted_groups_len(raw, key, desc);
    let sg = sorted_groups(raw, key, desc);
    lemma_rows_of_collapsed_len(sg, Map::empty());
}

/// The entries of `s` with pid `p`.
pub open spec fn with_pid(s: Seq<EntryView>, p: i32) -> Seq<EntryView> {
    s.filter(|e: EntryView| e.pid == p)
}

proof fn lemma_raw_group(s: Seq<EntryView>, key: SortKey, desc: bool, j: int)
    requires
        0 <= j < raw_groups(s, key, desc).len(),
    ensures
        raw_groups(s, key, desc)[j].len() >= 1,
        raw_groups(s, key, desc)[j][0].pid > 0 ==> raw_groups(s, key, desc)[j].len() == with_pid(
            s,
            raw_groups(s, key, desc)[j][0].pid,
        ).len(),
        raw_groups(s, key, desc)[j][0].pid <= 0 ==> raw_groups(s, key, desc)[j].len() == 1,
        raw_groups(s, key, desc)[j].len() <= s.len(),
        j < unique_pids_of(s).len() ==> raw_groups(s, key, desc)[j][0].pid == unique_pids_of(s)[j],
        j >= unique_pids_of(s).len() ==> raw_groups(s, key, desc)[j][0].pid <= 0,
        forall|m: int|
            0 <= m < raw_groups(s, key, desc)[j].len() ==> (#[trigger] raw_groups(s, key, desc)[j][m]).pid
                == raw_groups(s, key, desc)[j][0].pid,
{
    broadcast use vstd::seq_lib::group_to_multiset_ensures;

    let u = unique_pids_of(s);
    let z = s.filter(|e: EntryView| e.pid <= 0);
    let g = raw_groups(s, key, desc)[j];
    if j < u.len() {
        let p = u[j];
        assert(g == sorted_by(s.filter(|e: EntryView| e.pid == p), key, desc));
        lemma_unique_pids(s);
        assert(u[j] > 0);
        assert(u.contains(p));
        let i = choose|i: int| 0 <= i < s.len() && s[i].pid == p;
        let f = s.filter(|e: EntryView| e.pid == p);
        s.lemma_filter_contains(|e: EntryView| e.pid == p, i);
        law_sorted_by(f, key, desc);
        assert(f.len() > 0);
        assert(g.to_multiset().count(g[0]) > 0);
        assert(f.contains(g[0]));
        let m = choose|m: int| 0 <= m < f.len() && f[m] == g[0];
        s.filter_lemma(|e: EntryView| e.pid == p);
        s.lemma_filter_len(|e: EntryView| e.pid == p);
        assert(f[m].pid == p);
        assert forall|q: int| 0 <= q < g.len() implies (#[trigger] g[q]).pid == p by {
            assert(g.to_multiset().count(g[q]) > 0);
            assert(f.contains(g[q]));
            let n = choose|n: int| 0 <= n < f.len() && f[n] == g[q];
            assert(f[n].pid == p);
        }
    } else {
        let k = j - u.len();
        assert(g == seq![z[k]]);
        s.filter_lemma(|e: EntryView| e.pid <= 0);
        assert(z[k].pid <= 0);
    }
}

proof fn lemma_insert_group_from(gs: Seq<Seq<EntryView>>, g: Seq<EntryView>, key: SortKey, desc: bool)
    ensures
        forall|k: int|
            0 <= k < insert_group(gs, g, key, desc).len() ==> #[trigger] insert_group(gs, g, key, desc)[k]
                == g || gs.contains(insert_group(gs, g, key, desc)[k]),
    decreases gs.len(),
{
    lemma_insert_group_len(gs, g, key, desc);
    if gs.len() > 0 && order_entries(g[0], gs.last()[0], key, desc) < 0 {
        let t = gs.drop_last();
        lemma_insert_group_from(t, g, key, desc);
        let r = insert_group(t, g, key, desc);
        assert forall|k: int| 0 <= k < r.push(gs.last()).len() implies #[trigger] r.push(gs.last())[k] == g
            || gs.contains(r.push(gs.last())[k]) by {
            if k == r.len() {
                assert(gs[gs.len() - 1] == gs.last());
            } else {
                assert(r.push(gs.last())[k] == r[k]);
                if r[k] != g {
                    let j = choose|j: int| 0 <= j < t.len() && t[j] == r[k];
                    assert(gs[j] == t[j]);
                }
            }
        }
    } else if gs.len() > 0 {
        assert forall|k: int| 0 <= k < gs.push(g).len() implies #[trigger] gs.push(g)[k] == g || gs.contains(
            gs.push(g)[k],
        ) by {
            if k < gs.len() {
                assert(gs.push(g)[k] == gs[k]);
            }
        }
    }
}

proof fn lemma_sorted_groups_from(gs: Seq<Seq<EntryView>>, key: SortKey, desc: bool)
    ensures
        forall|k: int|
            0 <= k < sorted_groups(gs, key, desc).len() ==> gs.contains(
                #[trigger] sorted_groups(gs, key, desc)[k],
            ),
    decreases gs.len(),
{
    lemma_sorted_groups_len(gs, key, desc);
    if gs.len() > 0 {
        let t = gs.drop_last();
        lemma_sorted_groups_from(t, key, desc);
        let r = sorted_groups(t, key, desc);
        lemma_insert_group_from(r, gs.last(), key, desc);
        let q = insert_group(r, gs.last(), key, desc);
        assert forall|k: int| 0 <= k < q.len() implies gs.contains(#[trigger] q[k]) by {
            if q[k] == gs.last() {
                assert(gs[gs.len() - 1] == gs.last());
            } else {
                assert(r.contains(q[k]));
                let a = choose|a: int| 0 <= a < r.len() && r[a] == q[k];
                assert(t.contains(r[a]));
                let b = choose|b: int| 0 <= b < t.len() && t[b] == r[a];
                assert(gs[b] == t[b]);
            }
        }
    }
}

proof fn lemma_rows_of_collapsed(gs: Seq<Seq<EntryView>>)
    ensures
        rows_of(gs, Map::empty()).len() == gs.len(),
        forall|k: int|
            0 <= k < gs.len() ==> #[trigger] rows_of(gs, Map::empty())[k] == group_rows(
                gs[k],
                Map::empty(),
            )[0],
    decreases gs.len(),
{
    if gs.len() > 0 {
        let t = gs.drop_last();
        lemma_rows_of_collapsed(t);
        assert forall|k: int| 0 <= k < gs.len() implies #[trigger] rows_of(gs, Map::empty())[k]
            == group_rows(gs[k], Map::empty())[0] by {
            if k < t.len() {
                assert(gs[k] == t[k]);
            }
        }
    }
}

/// With no process expanded, each row stands for one process or one
/// socket: a row of a positive pid hides all the other sockets of that pid
/// (none when the pid has one socket, which shows as a plain row), and a
/// socket without a pid is a plain row of its own.
pub proof fn law_collapsed_row_counts(s: Seq<EntryView>, key: SortKey, desc: bool)
    requires
        s.len() <= usize::MAX,
    ensures
        forall|k: int|
            0 <= k < flattened(s, key, desc, Map::empty()).len() ==> {
                let r = #[trigger] flattened(s, key, desc, Map::empty())[k];
                &&& r.entry.pid > 0 ==> r.hidden + 1 == with_pid(s, r.entry.pid).len()
                &&& r.entry.pid <= 0 ==> r.hidden == 0
                &&& (r.fold == FoldState::Leaf <==> r.hidden == 0)
                &&& r.fold == FoldState::Leaf || r.fold == FoldState::Collapsed
            },
{
    let raw = raw_groups(s, key, desc);
    let sg = sorted_groups(raw, key, desc);
    lemma_sorted_groups_len(raw, key, desc);
    lemma_sorted_groups_from(raw, key, desc);
    lemma_rows_of_collapsed(sg);
    assert forall|k: int| 0 <= k < flattened(s, key, desc, Map::empty()).len() implies {
        let r = #[trigger] flattened(s, key, desc, Map::empty())[k];
        &&& r.entry.pid > 0 ==> r.hidden + 1 == with_pid(s, r.entry.pid).len()
        &&& r.entry.pid <= 0 ==> r.hidden == 0
        &&& (r.fold == FoldState::Leaf <==> r.hidden == 0)
        &&& r.fold == FoldState::Leaf || r.fold == FoldState::Collapsed
    } by {
        let g = sg[k];
        assert(raw.contains(g));
        let j = choose|j: int| 0 <= j < raw.len() && raw[j] == g;
        lemma_raw_group(s, key, desc, j);
        if g[0].pid > 0 {
            s.filter_lemma(|e: EntryView| e.pid == g[0].pid);
        }
        assert(flattened(s, key, desc, Map::empty())[k] == group_rows(g, Map::empty())[0]);
    }
}

/// Row `k` of the rows of `gs` is a row of one of the groups.
spec fn row_from_group(gs: Seq<Seq<EntryView>>, expanded: Map<i32, bool>, k: int) -> bool {
    exists|j: int, m: int|
        0 <= j < gs.len() && 0 <= m < group_rows(gs[j], expanded).len() && rows_of(gs, expanded)[k]
            == #[trigger] group_rows(gs[j], expanded)[m]
}

proof fn lemma_rows_from(gs: Seq<Seq<EntryView>>, expanded: Map<i32, bool>)
    ensures
        forall|k: int|
            0 <= k < rows_of(gs, expanded).len() ==> #[trigger] row_from_group(gs, expanded, k),
    decreases gs.len(),
{
    if gs.len() > 0 {
        let t = gs.drop_last();
        lemma_rows_from(t, expanded);
        let a = rows_of(t, expanded);
        let b = group_rows(gs.last(), expanded);
        assert forall|k: int| 0 <= k < rows_of(gs, expanded).len() implies #[trigger] row_from_group(
            gs,
            expanded,
            k,
        ) by {
            if k < a.len() {
                assert(rows_of(gs, expanded)[k] == a[k]);
                assert(row_from_group(t, expanded, k));
                let (j, m) = choose|j: int, m: int|
                    0 <= j < t.len() && 0 <= m < group_rows(t[j], expanded).len() && a[k]
                        == #[trigger] group_rows(t[j], expanded)[m];
                assert(gs[j] == t[j]);
                assert(0 <= j < gs.len() && 0 <= m < group_rows(gs[j], expanded).len() && rows_of(
                    gs,
                    expanded,
                )[k] == group_rows(gs[j], expanded)[m]);
            } else {
                let m = k - a.len();
                assert(rows_of(gs, expanded)[k] == b[m]);
                let j = gs.len() - 1;
                assert(gs[j] == gs.last());
                assert(0 <= j < gs.len() && 0 <= m < group_rows(gs[j], expanded).len() && rows_of(
                    gs,
                    expanded,
                )[k] == group_rows(gs[j], expanded)[m]);
            }
        }
    }
}

/// Whatever processes are expanded, a row hides exactly the sockets of its
/// process that are not shown: an expanded process shows all its sockets
/// (its head and children hide none), a collapsed one shows one row hiding
/// the others, a process with one socket shows a plain row, and a socket
/// without a pid is a plain row of its own.
pub proof fn law_rows_hide_unshown(s: Seq<EntryView>, key: SortKey, desc: bool, expanded: Map<i32, bool>)
    requires
        s.len() <= usize::MAX,
    ensures
        forall|k: int|
            0 <= k < flattened(s, key, desc, expanded).len() ==> {
                let r = #[trigger] flattened(s, key, desc, expanded)[k];
                &&& r.fold != FoldState::Collapsed ==> r.hidden == 0
                &&& r.fold == FoldState::Collapsed ==> r.entry.pid > 0 && !is_expanded(
                    expanded,
                    r.entry.pid,
                ) && r.hidden + 1 == with_pid(s, r.entry.pid).len() && r.hidden >= 1
                &&& r.fold == FoldState::Leaf && r.entry.pid > 0 ==> with_pid(s, r.entry.pid).len() == 1
                &&& (r.fold == FoldState::Expanded || r.fold == FoldState::Child) ==> r.entry.pid > 0
                    && is_expanded(expanded, r.entry.pid) && with_pid(s, r.entry.pid).len() >= 2
            },
{
    let raw = raw_groups(s, key, desc);
    let sg = sorted_groups(raw, key, desc);
    lemma_sorted_groups_from(raw, key, desc);
    lemma_rows_from(sg, expanded);
    assert forall|k: int| 0 <= k < flattened(s, key, desc, expanded).len() implies {
        let r = #[trigger] flattened(s, key, desc, expanded)[k];
        &&& r.fold != FoldState::Collapsed ==> r.hidden == 0
        &&& r.fold == FoldState::Collapsed ==> r.entry.pid > 0 && !is_expanded(expanded, r.entry.pid)
            && r.hidden + 1 == with_pid(s, r.entry.pid).len() && r.hidden >= 1
        &&& r.fold == FoldState::Leaf && r.entry.pid > 0 ==> with_pid(s, r.entry.pid).len() == 1
        &&& (r.fold == FoldState::Expanded || r.fold == FoldState::Child) ==> r.entry.pid > 0
            && is_expanded(expanded, r.entry.pid) && with_pid(s, r.entry.pid).len() >= 2
    } by {
        assert(flattened(s, key, desc, expanded)[k] == rows_of(sg, expanded)[k]);
        assert(row_from_group(sg, expanded, k));
        let (j, m) = choose|j: int, m: int|
            0 <= j < sg.len() && 0 <= m < group_rows(sg[j], expanded).len() && rows_of(sg, expanded)[k]
                == #[trigger] group_rows(sg[j], expanded)[m];
        let g = sg[j];
        assert(raw.contains(g));
        let i = choose|i: int| 0 <= i < raw.len() && raw[i] == g;
        lemma_raw_group(s, key, desc, i);
        let p = g[0].pid;
        if p > 0 {
            s.filter_lemma(|e: EntryView| e.pid == p);
        }
        if g.len() != 1 && is_expanded(expanded, p) && m > 0 {
            assert(g.skip(1)[m - 1] == g[m]);
            assert(g[m].pid == p);
        }
    }
}

/// How many sockets of process `p` the rows stand for: one for each row of
/// that process, plus the sockets that row hides.
pub open spec fn pid_weight(rows: Seq<RowView>, p: i32) -> int
    decreases rows.len(),
{
    if rows.len() == 0 {
        0
    } else {
        pid_weight(rows.drop_last(), p) + if rows.last().entry.pid == p {
            1 + rows.last().hidden
        } else {
            0
        }
    }
}

/// The number of sockets of process `p` in groups whose entries share a pid.
spec fn groups_weight(gs: Seq<Seq<EntryView>>, p: i32) -> int
    decreases gs.len(),
{
    if gs.len() == 0 {
        0
    } else {
        groups_weight(gs.drop_last(), p) + if gs.last()[0].pid == p {
            gs.last().len() as int
        } else {
            0
        }
    }
}

/// A non-empty group whose entries all have the pid of its first one.
spec fn uniform_group(g: Seq<EntryView>) -> bool {
    &&& 1 <= g.len() <= usize::MAX
    &&& forall|m: int| 0 <= m < g.len() ==> (#[trigger] g[m]).pid == g[0].pid
}

proof fn lemma_weight_concat(a: Seq<RowView>, b: Seq<RowView>, p: i32)
    ensures
        pid_weight(a + b, p) == pid_weight(a, p) + pid_weight(b, p),
    decreases b.len(),
{
    if b.len() > 0 {
        assert((a + b).drop_last() =~= a + b.drop_last());
        assert((a + b).last() == b.last());
        lemma_weight_concat(a, b.drop_last(), p);
    } else {
        assert(a + b =~= a);
    }
}

proof fn lemma_uniform_rows_weight(r: Seq<RowView>, q: i32, p: i32)
    requires
        forall|i: int| 0 <= i < r.len() ==> (#[trigger] r[i]).entry.pid == q && r[i].hidden == 0,
    ensures
        pid_weight(r, p) == if q == p {
            r.len() as int
        } else {
            0
        },
    decreases r.len(),
{
    if r.len() > 0 {
        let t = r.drop_last();
        assert forall|i: int| 0 <= i < t.len() implies (#[trigger] t[i]).entry.pid == q && t[i].hidden
            == 0 by {
            assert(t[i] == r[i]);
        }
        lemma_uniform_rows_weight(t, q, p);
        assert(r.last() == r[r.len() - 1]);
    }
}

proof fn lemma_group_rows_weight(g: Seq<EntryView>, expanded: Map<i32, bool>, p: i32)
    requires
        uniform_group(g),
    ensures
        pid_weight(group_rows(g, expanded), p) == if g[0].pid == p {
            g.len() as int
        } else {
            0
        },
{
    let r = group_rows(g, expanded);
    let q = g[0].pid;
    if g.len() == 1 {
        assert(r.drop_last() =~= Seq::<RowView>::empty());
        assert(pid_weight(r.drop_last(), p) == 0);
    } else if is_expanded(expanded, q) {
        assert(r.len() == g.len());
        assert forall|i: int| 0 <= i < r.len() implies (#[trigger] r[i]).entry.pid == q && r[i].hidden
            == 0 by {
            if i > 0 {
                assert(r[i].entry == g.skip(1)[i - 1]);
                assert(g.skip(1)[i - 1] == g[i]);
            }
        }
        lemma_uniform_rows_weight(r, q, p);
    } else {
        assert(r.drop_last() =~= Seq::<RowView>::empty());
        assert(pid_weight(r.drop_last(), p) == 0);
        assert(r.last().hidden == g.len() - 1);
    }
}

proof fn lemma_rows_of_weight(gs: Seq<Seq<EntryView>>, expanded: Map<i32, bool>, p: i32)
    requires
        forall|k: int| 0 <= k < gs.len() ==> uniform_group(#[trigger] gs[k]),
    ensures
        pid_weight(rows_of(gs, expanded), p) == groups_weight(gs, p),
    decreases gs.len(),
{
    if gs.len() > 0 {
        let t = gs.drop_last();
        assert forall|k: int| 0 <= k < t.len() implies uniform_group(#[trigger] t[k]) by {
            assert(t[k] == gs[k]);
        }
        lemma_rows_of_weight(t, expanded, p);
        assert(gs.last() == gs[gs.len() - 1]);
        lemma_group_rows_weight(gs.last(), expanded, p);
        lemma_weight_concat(rows_of(t, expanded), group_rows(gs.last(), expanded), p);
    }
}

proof fn lemma_insert_group_weight(
    gs: Seq<Seq<EntryView>>,
    g: Seq<EntryView>,
    key: SortKey,
    desc: bool,
    p: i32,
)
    ensures
        groups_weight(insert_group(gs, g, key, desc), p) == groups_weight(gs, p) + if g[0].pid == p {
            g.len() as int
        } else {
            0
        },
    decreases gs.len(),
{
    if gs.len() > 0 && order_entries(g[0], gs.last()[0], key, desc) < 0 {
        let t = gs.drop_last();
        lemma_insert_group_weight(t, g, key, desc, p);
        let r = insert_group(t, g, key, desc);
        assert(insert_group(gs, g, key, desc) == r.push(gs.last()));
        assert(r.push(gs.last()).drop_last() =~= r);
        assert(groups_weight(gs, p) == groups_weight(t, p) + if gs.last()[0].pid == p {
            gs.last().len() as int
        } else {
            0
        });
    } else if gs.len() > 0 {
        assert(insert_group(gs, g, key, desc) == gs.push(g));
        assert(gs.push(g).drop_last() =~= gs);
    } else {
        assert(insert_group(gs, g, key, desc) == seq![g]);
        assert(seq![g].drop_last() =~= Seq::<Seq<EntryView>>::empty());
        assert(groups_weight(seq![g].drop_last(), p) == 0);
    }
}

proof fn lemma_sorted_groups_weight(gs: Seq<Seq<EntryView>>, key: SortKey, desc: bool, p: i32)
    ensures
        groups_weight(sorted_groups(gs, key, desc), p) == groups_weight(gs, p),
    decreases gs.len(),
{
    if gs.len() > 0 {
        lemma_sorted_groups_weight(gs.drop_last(), key, desc, p);
        lemma_insert_group_weight(sorted_groups(gs.drop_last(), key, desc), gs.last(), key, desc, p);
    }
}

proof fn lemma_weight_none(gs: Seq<Seq<EntryView>>, p: i32)
    requires
        forall|k: int| 0 <= k < gs.len() ==> (#[trigger] gs[k])[0].pid != p,
    ensures
        groups_weight(gs, p) == 0,
    decreases gs.len(),
{
    if gs.len() > 0 {
        let t = gs.drop_last();
        assert forall|k: int| 0 <= k < t.len() implies (#[trigger] t[k])[0].pid != p by {
            assert(t[k] == gs[k]);
        }
        lemma_weight_none(t, p);
        assert(gs.last() == gs[gs.len() - 1]);
    }
}

proof fn lemma_weight_single(gs: Seq<Seq<EntryView>>, p: i32, j: int)
    requires
        0 <= j < gs.len(),
        gs[j][0].pid == p,
        forall|k: int| 0 <= k < gs.len() && k != j ==> (#[trigger] gs[k])[0].pid != p,
    ensures
        groups_weight(gs, p) == gs[j].len(),
    decreases gs.len(),
{
    let t = gs.drop_last();
    if j == gs.len() - 1 {
        assert forall|k: int| 0 <= k < t.len() implies (#[trigger] t[k])[0].pid != p by {
            assert(t[k] == gs[k]);
        }
        lemma_weight_none(t, p);
    } else {
        assert forall|k: int| 0 <= k < t.len() && k != j implies (#[trigger] t[k])[0].pid != p by {
            assert(t[k] == gs[k]);
        }
        assert(t[j] == gs[j]);
        lemma_weight_single(t, p, j);
        assert(gs.last() == gs[gs.len() - 1]);
    }
}

proof fn lemma_groups_weight_concat(a: Seq<Seq<EntryView>>, b: Seq<Seq<EntryView>>, p: i32)
    ensures
        groups_weight(a + b, p) == groups_weight(a, p) + groups_weight(b, p),
    decreases b.len(),
{
    if b.len() > 0 {
        assert((a + b).drop_last() =~= a + b.drop_last());
        assert((a + b).last() == b.last());
        lemma_groups_weight_concat(a, b.drop_last(), p);
    } else {
        assert(a + b =~= a);
    }
}

proof fn lemma_singletons_weight(z: Seq<EntryView>, p: i32)
    ensures
        groups_weight(z.map_values(|e: EntryView| seq![e]), p) == z.filter(|e: EntryView| e.pid == p).len(),
    decreases z.len(),
{
    reveal_with_fuel(Seq::<_>::filter, 1);
    if z.len() > 0 {
        let t = z.drop_last();
        lemma_singletons_weight(t, p);
        assert(z.map_values(|e: EntryView| seq![e]).drop_last() =~= t.map_values(|e: EntryView| seq![e]));
        assert(z.map_values(|e: EntryView| seq![e]).last() == seq![z.last()]);
    }
}

proof fn lemma_filter_pidless(s: Seq<EntryView>, p: i32)
    requires
        p <= 0,
    ensures
        s.filter(|e: EntryView| e.pid <= 0).filter(|e: EntryView| e.pid == p) == s.filter(
            |e: EntryView| e.pid == p,
        ),
    decreases s.len(),
{
    reveal_with_fuel(Seq::<_>::filter, 1);
    if s.len() > 0 {
        let t = s.drop_last();
        lemma_filter_pidless(t, p);
        let z = t.filter(|e: EntryView| e.pid <= 0);
        if s.last().pid <= 0 {
            assert(z.push(s.last()).drop_last() =~= z);
            assert(z.push(s.last()).filter(|e: EntryView| e.pid == p) == if s.last().pid == p {
                z.filter(|e: EntryView| e.pid == p).push(s.last())
            } else {
                z.filter(|e: EntryView| e.pid == p)
            });
        }
    }
}

/// Whatever processes are expanded, the rows of a process and the sockets
/// they hide add up to its number of sockets: each socket of the process is
/// either shown as a row or counted once in a row's hidden number. The same
/// holds of the sockets without a known pid (pid 0 or below), each of which
/// is a row of its own.
pub proof fn law_rows_account_for_sockets(
    s: Seq<EntryView>,
    key: SortKey,
    desc: bool,
    expanded: Map<i32, bool>,
    p: i32,
)
    requires
        s.len() <= usize::MAX,
    ensures
        pid_weight(flattened(s, key, desc, expanded), p) == with_pid(s, p).len(),
{
    let raw = raw_groups(s, key, desc);
    let sg = sorted_groups(raw, key, desc);
    let u = unique_pids_of(s);
    assert forall|j: int| 0 <= j < raw.len() implies uniform_group(#[trigger] raw[j]) by {
        lemma_raw_group(s, key, desc, j);
    }
    lemma_sorted_groups_from(raw, key, desc);
    assert forall|k: int| 0 <= k < sg.len() implies uniform_group(#[trigger] sg[k]) by {
        let j = choose|j: int| 0 <= j < raw.len() && raw[j] == sg[k];
        assert(uniform_group(raw[j]));
    }
    lemma_rows_of_weight(sg, expanded, p);
    lemma_sorted_groups_weight(raw, key, desc, p);
    lemma_unique_pids(s);
    if p <= 0 {
        let z = s.filter(|e: EntryView| e.pid <= 0);
        let a = u.map_values(
            |q: i32| sorted_by(s.filter(|e: EntryView| e.pid == q), key, desc),
        );
        let b = z.map_values(|e: EntryView| seq![e]);
        assert(raw == a + b);
        lemma_groups_weight_concat(a, b, p);
        assert forall|k: int| 0 <= k < a.len() implies (#[trigger] a[k])[0].pid != p by {
            lemma_raw_group(s, key, desc, k);
            assert(raw[k] == a[k]);
        }
        lemma_weight_none(a, p);
        lemma_singletons_weight(z, p);
        lemma_filter_pidless(s, p);
    } else if u.contains(p) {
        let j = choose|j: int| 0 <= j < u.len() && u[j] == p;
        lemma_raw_group(s, key, desc, j);
        assert forall|k: int| 0 <= k < raw.len() && k != j implies (#[trigger] raw[k])[0].pid != p by {
            lemma_raw_group(s, key, desc, k);
        }
        lemma_weight_single(raw, p, j);
    } else {
        assert forall|k: int| 0 <= k < raw.len() implies (#[trigger] raw[k])[0].pid != p by {
            lemma_raw_group(s, key, desc, k);
            if k < u.len() {
                assert(u[k] != p);
            }
        }
        lemma_weight_none(raw, p);
        assert forall|i: int| 0 <= i < s.len() implies s[i].pid != p by {
            if s[i].pid == p {
                assert(u.contains(p));
            }
        }
        lemma_filter_none(s, p);
    }
}

/// The views of a sequence of groups.
pub open spec fn group_views(gs: Seq<Vec<Entry>>) -> Seq<Seq<EntryView>> {
    gs.map_values(|g: Vec<Entry>| views(g@))
}

// ---------------------------------------------------------------------------
// Executable grouping
// ---------------------------------------------------------------------------

fn find_pid(pids: &Vec<i32>, pid: i32) -> (r: Option<usize>)
    ensures
        match r {
            Some(k) => k < pids.len() && pids@[k as int] == pid,
            None => !pids@.contains(pid),
        },
{
    let mut k: usize = 0;
    while k < pids.len()
        invariant
            k <= pids.len(),
            forall|j: int| 0 <= j < k ==> pids@[j] != pid,
        decreases pids.len() - k,
    {
        if pids[k] == pid {
            return Some(k);
        }
        k = k + 1;
    }
    None
}

/// Splits the entries into per-process buckets (in order of first pid
/// appearance) and pid-less entries.
fn bucket_entries(entries: &[Entry]) -> (r: (Vec<i32>, Vec<Vec<Entry>>, Vec<Entry>))
    ensures
        r.0@ == unique_pids_of(views(entries@)),
        r.1@.len() == r.0@.len(),
        forall|k: int|
            0 <= k < r.1@.len() ==> views((#[trigger] r.1@[k])@) == views(entries@).filter(
                |e: EntryView| e.pid == r.0@[k],
            ),
        views(r.2@) == views(entries@).filter(|e: EntryView| e.pid <= 0),
{
    let ghost s = views(entries@);
    let mut pids: Vec<i32> = Vec::new();
    let mut buckets: Vec<Vec<Entry>> = Vec::new();
    let mut zeros: Vec<Entry> = Vec::new();
    let mut i: usize = 0;
    while i < entries.len()
        invariant
            i <= entries.len(),
            s == views(entries@),
            pids@ == unique_pids_of(s.take(i as int)),
            buckets@.len() == pids@.len(),
            forall|k: int|
                0 <= k < buckets@.len() ==> views((#[trigger] buckets@[k])@) == s.take(
                    i as int,
                ).filter(|e: EntryView| e.pid == pids@[k]),
            views(zeros@) == s.take(i as int).filter(|e: EntryView| e.pid <= 0),
        decreases entries.len() - i,
    {
        let ghost t = s.take(i as int);
        let ghost t1 = s.take(i + 1);
        let ghost x = entries@[i as int]@;
        proof {
            assert(t1.drop_last() =~= t);
            assert(t1.last() == x);
            reveal_with_fuel(Seq::<_>::filter, 1);
            lemma_unique_pids(t);
        }
        let pid = entries[i].pid;
        let c = entries[i].clone();
        if pid <= 0 {
            zeros.push(c);
            assert(views(zeros@) =~= t.filter(|e: EntryView| e.pid <= 0).push(x));
            assert forall|k: int| 0 <= k < buckets@.len() implies views(
                (#[trigger] buckets@[k])@,
            ) == t1.filter(|e: EntryView| e.pid == pids@[k]) by {
                assert(pids@[k] > 0);
            }
        } else {
            assert(views(zeros@) =~= t1.filter(|e: EntryView| e.pid <= 0));
            match find_pid(&pids, pid) {
                Some(k) => {
                    let ghost old_buckets = buckets@;
                    let mut b = buckets.remove(k);
                    b.push(c);
                    buckets.insert(k, b);
                    assert forall|j: int| 0 <= j < buckets@.len() implies views(
                        (#[trigger] buckets@[j])@,
                    ) == t1.filter(|e: EntryView| e.pid == pids@[j]) by {
                        if j == k {
                            assert(views(buckets@[j]@) =~= views(old_buckets[j]@).push(x));
                        } else {
                            assert(buckets@[j] == old_buckets[j]);
                            assert(pids@[j] != pid);
                        }
                    }
                },
                None => {
                    proof {
                        assert forall|j: int| 0 <= j < t.len() implies t[j].pid != pid by {
                            if t[j].pid == pid {
                                assert(unique_pids_of(t).contains(pid));
                            }
                        }
                        lemma_filter_none(t, pid);
                    }
                    let ghost old_buckets = buckets@;
                    pids.push(pid);
                    let mut b: Vec<Entry> = Vec::new();
                    b.push(c);
                    buckets.push(b);
                    assert forall|j: int| 0 <= j < buckets@.len() implies views(
                        (#[trigger] buckets@[j])@,
                    ) == t1.filter(|e: EntryView| e.pid == pids@[j]) by {
                        if j == buckets@.len() - 1 {
                            assert(views(buckets@[j]@) =~= seq![x]);
                            assert(t.filter(|e: EntryView| e.pid == pid) =~= Seq::<
                                EntryView,
                            >::empty());
                            assert(t1.filter(|e: EntryView| e.pid == pid) =~= seq![x]);
                        } else {
                            assert(buckets@[j] == old_buckets[j]);
                            assert(pids@[j] != pid);
                        }
                    }
                },
            }
        }
        i = i + 1;
    }
    assert(s.take(entries.len() as int) =~= s);
    (pids, buckets, zeros)
}

/// Whether no two entries without a pid share protocol, port, address and
/// pid (what grouping the rows needs).
pub fn pidless_keys_unique(entries: &[Entry]) -> (r: bool)
    ensures
        r == pidless_keys_distinct(views(entries@)),
{
    let ghost s = views(entries@);
    let mut i: usize = 0;
    while i < entries.len()
        invariant
            i <= entries@.len(),
            s == views(entries@),
            forall|a: int, b: int|
                0 <= a < i && a < b < s.len() && s[a].pid <= 0 ==> !(#[trigger] s[a].proto
                    == #[trigger] s[b].proto && s[a].port == s[b].port && s[a].addr == s[b].addr
                    && s[a].pid == s[b].pid),
        decreases entries.len() - i,
    {
        if entries[i].pid <= 0 {
            let a = crate::text::chars_of(entries[i].addr.as_str());
            let mut j: usize = i + 1;
            while j < entries.len()
                invariant
                    i < entries@.len(),
                    i + 1 <= j <= entries@.len(),
                    s == views(entries@),
                    a@ == s[i as int].addr,
                    s[i as int].pid <= 0,
                    forall|b: int|
                        i < b < j ==> !(s[i as int].proto == #[trigger] s[b].proto && s[i as int].port
                            == s[b].port && s[i as int].addr == s[b].addr && s[i as int].pid
                            == s[b].pid),
                decreases entries.len() - j,
            {
                assert(s[j as int] == entries@[j as int]@);
                assert(s[i as int] == entries@[i as int]@);
                if entries[j].proto == entries[i].proto && entries[j].port == entries[i].port
                    && entries[j].pid == entries[i].pid {
                    let b = crate::text::chars_of(entries[j].addr.as_str());
                    if crate::text::chars_eq(&a, &b) {
                        assert(s[i as int].proto == s[j as int].proto && s[i as int].port
                            == s[j as int].port && s[i as int].addr == s[j as int].addr
                            && s[i as int].pid == s[j as int].pid);
                        return false;
                    }
                }
                j = j + 1;
            }
        }
        i = i + 1;
    }
    true
}

/// Groups multi-socket processes by PID and flattens them into view rows.
pub fn flatten_groups(
    entries: &[Entry],
    key: SortKey,
    desc: bool,
    expanded: &HashMap<i32, bool>,
) -> (r: Vec<ViewRow>)
    requires
        pidless_keys_distinct(views(entries@)),
    ensures
        row_views(r@) == flattened(views(entries@), key, desc, expanded@),
{
    let ghost s = views(entries@);
    let (pids, mut buckets, zeros) = bucket_entries(entries);
    proof {
        lemma_unique_pids(s);
    }
    // Sort each process's sockets.
    let mut groups: Vec<Vec<Entry>> = Vec::new();
    let ghost raw = raw_groups(s, key, desc);
    let ghost nb = buckets@.len();
    let ghost all_buckets = buckets@;
    let mut k: usize = 0;
    while k < pids.len()
        invariant
            k <= pids.len(),
            nb == pids@.len(),
            pids@ == unique_pids_of(s),
            buckets@ == all_buckets.skip(k as int),
            all_buckets.len() == nb,
            forall|j: int|
                0 <= j < nb ==> views((#[trigger] all_buckets[j])@) == s.filter(
                    |e: EntryView| e.pid == pids@[j],
                ),
            group_views(groups@) == raw.take(k as int),
            raw == raw_groups(s, key, desc),
            forall|j: int| 0 <= j < groups@.len() ==> (#[trigger] groups@[j])@.len() > 0,
            forall|a: int| 0 <= a < unique_pids_of(s).len() ==> #[trigger] unique_pids_of(s)[a] > 0,
            forall|p: i32|
                p > 0 ==> (#[trigger] unique_pids_of(s).contains(p) <==> exists|j: int|
                    0 <= j < s.len() && s[j].pid == p),
        decreases pids.len() - k,
    {
        let mut b = buckets.remove(0);
        assert(b == all_buckets[k as int]);
        let ghost bv = views(b@);
        sort_entries_by(&mut b, key, desc);
        proof {
            let p = pids@[k as int];
            assert(unique_pids_of(s)[k as int] == p);
            assert(unique_pids_of(s).contains(p));
            let w = choose|j: int| 0 <= j < s.len() && s[j].pid == p;
            reveal_with_fuel(Seq::<_>::filter, 1);
            s.lemma_filter_contains(|e: EntryView| e.pid == p, w);
            lemma_sorted_by_len(bv, key, desc);
            assert(raw[k as int] == sorted_by(bv, key, desc));
        }
        let ghost old_groups = groups@;
        let ghost bb = b;
        groups.push(b);
        assert(groups@ == old_groups.push(bb));
        assert(group_views(groups@) =~= group_views(old_groups).push(views(bb@)));
        assert(raw.take(k + 1) =~= raw.take(k as int).push(raw[k as int]));
        k = k + 1;
    }
    // One group per pid-less entry.
    let mut z: usize = 0;
    let ghost zs = s.filter(|e: EntryView| e.pid <= 0);
    while z < zeros.len()
        invariant
            z <= zeros.len(),
            views(zeros@) == zs,
            zs == s.filter(|e: EntryView| e.pid <= 0),
            raw == raw_groups(s, key, desc),
            raw.len() == nb + zs.len(),
            group_views(groups@) == raw.take(nb + z),
            forall|j: int| 0 <= j < groups@.len() ==> (#[trigger] groups@[j])@.len() > 0,
        decreases zeros.len() - z,
    {
        let mut g: Vec<Entry> = Vec::new();
        g.push(zeros[z].clone());
        assert(raw[nb + z] == seq![zs[z as int]]);
        assert(views(g@) =~= seq![zs[z as int]]);
        let ghost old_groups = groups@;
        let ghost gg = g;
        groups.push(g);
        assert(groups@ == old_groups.push(gg));
        assert(group_views(groups@) =~= group_views(old_groups).push(views(gg@)));
        assert(raw.take(nb + z + 1) =~= raw.take(nb + z).push(raw[nb + z]));
        z = z + 1;
    }
    assert(raw.take(nb + zeros.len()) =~= raw);
    // Order the groups by their first rows.
    let mut ordered: Vec<Vec<Entry>> = Vec::new();
    let ghost all_groups = groups@;
    let ng = groups.len();
    let mut i: usize = 0;
    while i < ng
        invariant
            i <= ng == all_groups.len(),
            groups@ == all_groups.skip(i as int),
            group_views(all_groups) == raw,
            group_views(ordered@) == sorted_groups(raw.take(i as int), key, desc),
            forall|j: int| 0 <= j < all_groups.len() ==> (#[trigger] all_groups[j])@.len() > 0,
            forall|j: int| 0 <= j < ordered@.len() ==> (#[trigger] ordered@[j])@.len() > 0,
        decreases ng - i,
    {
        let g = groups.remove(0);
        assert(g == all_groups[i as int]);
        let mut j = ordered.len();
        while j > 0 && order_full(&g[0], &ordered[j - 1][0], key, desc) < 0
            invariant
                j <= ordered@.len(),
                g@.len() > 0,
                forall|q: int| 0 <= q < ordered@.len() ==> (#[trigger] ordered@[q])@.len() > 0,
                forall|q: int|
                    j <= q < ordered@.len() ==> order_entries(
                        views(g@)[0],
                        #[trigger] group_views(ordered@)[q][0],
                        key,
                        desc,
                    ) < 0,
            decreases j,
        {
            j = j - 1;
        }
        proof {
            let gs = group_views(ordered@);
            assert(raw.take(i + 1).drop_last() =~= raw.take(i as int));
            assert(raw.take(i + 1).last() == views(g@));
            if j > 0 {
                assert(gs[j - 1][0] == ordered@[j - 1]@[0]@);
            }
            lemma_insert_group_at(gs, views(g@), key, desc, j as int);
        }
        let ghost before = group_views(ordered@);
        ordered.insert(j, g);
        assert(group_views(ordered@) =~= before.take(j as int).push(views(g@)) + before.skip(
            j as int,
        ));
        i = i + 1;
    }
    assert(raw.take(ng as int) =~= raw);
    // Emit the rows.
    let ghost sg = group_views(ordered@);
    let mut out: Vec<ViewRow> = Vec::new();
    let mut q: usize = 0;
    while q < ordered.len()
        invariant
            q <= ordered.len(),
            sg == group_views(ordered@),
            forall|j: int| 0 <= j < ordered@.len() ==> (#[trigger] ordered@[j])@.len() > 0,
            row_views(out@) == rows_of(sg.take(q as int), expanded@),
        decreases ordered.len() - q,
    {
        let g = &ordered[q];
        let ghost gv = views(g@);
        let ghost before = row_views(out@);
        if g.len() == 1 {
            out.push(ViewRow { entry: g[0].clone(), fold: FoldState::Leaf, hidden: 0 });
        } else {
            let pid = g[0].pid;
            let is_exp = match expanded.get(&pid) {
                Some(v) => *v,
                None => false,
            };
            if is_exp {
                out.push(ViewRow { entry: g[0].clone(), fold: FoldState::Expanded, hidden: 0 });
                let mut t: usize = 1;
                while t < g.len()
                    invariant
                        1 <= t <= g@.len(),
                        gv == views(g@),
                        row_views(out@) == before + seq![
                            RowView { entry: gv[0], fold: FoldState::Expanded, hidden: 0 },
                        ] + gv.skip(1).take(t - 1).map_values(
                            |e: EntryView| RowView { entry: e, fold: FoldState::Child, hidden: 0 },
                        ),
                    decreases g.len() - t,
                {
                    let ghost pre = out@;
                    let c = g[t].clone();
                    out.push(ViewRow { entry: c, fold: FoldState::Child, hidden: 0 });
                    assert(out@ == pre.push(ViewRow { entry: c, fold: FoldState::Child, hidden: 0 }));
                    assert(row_views(out@) =~= row_views(pre).push(
                        RowView { entry: gv[t as int], fold: FoldState::Child, hidden: 0 },
                    ));
                    assert(gv.skip(1).take((t + 1) - 1) =~= gv.skip(1).take(t - 1).push(gv[t as int]));
                    assert(row_views(out@) =~= before + seq![
                        RowView { entry: gv[0], fold: FoldState::Expanded, hidden: 0 },
                    ] + gv.skip(1).take((t + 1) - 1).map_values(
                        |e: EntryView| RowView { entry: e, fold: FoldState::Child, hidden: 0 },
                    ));
                    t = t + 1;
                }
                assert(gv.skip(1).take(g.len() - 1) =~= gv.skip(1));
            } else {
                out.push(
                    ViewRow { entry: g[0].clone(), fold: FoldState::Collapsed, hidden: g.len() - 1 },
                );
            }
        }
        proof {
            assert(sg.take(q + 1).drop_last() =~= sg.take(q as int));
            assert(sg.take(q + 1).last() == gv);
        }
        assert(row_views(out@) =~= before + group_rows(gv, expanded@));
        q = q + 1;
    }
    assert(sg.take(ordered.len() as int) =~= sg);
    out
}

} // verus!
