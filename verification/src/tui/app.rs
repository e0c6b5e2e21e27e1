//! The state of the interactive view: the listeners, the rows shown, the
//! cursor and scroll position, the search, and the messages.
//!
//! Reading the listeners, killing a process and using the clipboard are done
//! by the caller: the state says which of them is due (an [`Action`]) and is
//! told what came of it.
use vstd::prelude::*;
use std::collections::HashMap;
use crate::filter::{filter_proto, filter_query, proto_wanted, query_keeps};
use crate::group::{
    flatten_groups, flattened, lemma_filter_keeps_pidless_distinct, pidless_keys_distinct,
    row_id, row_views, RowView, ViewRow,
};
use crate::model::{entry_key, Entry, EntryView, Ident, SortKey, views};
use crate::text::{chars_eq, chars_of, dec_nat, dec_u64, push_all, push_dec, push_str, string_of};

verus! {

broadcast use vstd::std_specs::hash::group_hash_axioms;

/// Work that the caller performs for the view.
pub enum Action {
    /// Nothing to do.
    Nothing,
    /// Read the listeners again ([`App::begin_reload`], then
    /// [`App::finish_reload`]).
    Reload,
    /// Kill the process, then report with [`App::finish_kill`].
    Kill(Ident),
    /// Put the text on the clipboard, then report with [`App::finish_copy`].
    Copy(String),
}

/// The mathematical value of an [`Action`].
pub ghost enum ActionView {
    Nothing,
    Reload,
    Kill(Ident),
    Copy(Seq<char>),
}

impl View for Action {
    type V = ActionView;

    open spec fn view(&self) -> ActionView {
        match self {
            Action::Nothing => ActionView::Nothing,
            Action::Reload => ActionView::Reload,
            Action::Kill(id) => ActionView::Kill(*id),
            Action::Copy(s) => ActionView::Copy(s@),
        }
    }
}

/// The state of the interactive view.
pub struct App {
    pub all: Vec<Entry>,
    pub rows: Vec<ViewRow>,
    pub cursor: usize,
    pub offset: usize,
    pub query: String,
    pub filtering: bool,
    pub confirm: bool,
    pub status: String,
    pub err: Option<String>,
    pub loading: bool,
    pub load_gen: usize,
    pub want_tcp: bool,
    pub want_udp: bool,
    pub auto: bool,
    pub sort_key: SortKey,
    pub sort_desc: bool,
    pub expanded: HashMap<i32, bool>,
    pub should_quit: bool,
}

/// The mathematical value of an [`App`].
pub ghost struct AppView {
    pub all: Seq<EntryView>,
    pub rows: Seq<RowView>,
    pub cursor: nat,
    pub offset: nat,
    pub query: Seq<char>,
    pub filtering: bool,
    pub confirm: bool,
    pub status: Seq<char>,
    pub err: Option<Seq<char>>,
    pub loading: bool,
    pub load_gen: nat,
    pub want_tcp: bool,
    pub want_udp: bool,
    pub auto: bool,
    pub sort_key: SortKey,
    pub sort_desc: bool,
    pub expanded: Map<i32, bool>,
    pub should_quit: bool,
}

/// The views of character vectors.
pub open spec fn char_seqs(v: Seq<Vec<char>>) -> Seq<Seq<char>> {
    v.map_values(|x: Vec<char>| x@)
}

/// The view of an optional string.
pub open spec fn opt_text(s: Option<String>) -> Option<Seq<char>> {
    match s {
        Some(t) => Some(t@),
        None => None,
    }
}

impl View for App {
    type V = AppView;

    open spec fn view(&self) -> AppView {
        AppView {
            all: views(self.all@),
            rows: row_views(self.rows@),
            cursor: self.cursor as nat,
            offset: self.offset as nat,
            query: self.query@,
            filtering: self.filtering,
            confirm: self.confirm,
            status: self.status@,
            err: opt_text(self.err),
            loading: self.loading,
            load_gen: self.load_gen as nat,
            want_tcp: self.want_tcp,
            want_udp: self.want_udp,
            auto: self.auto,
            sort_key: self.sort_key,
            sort_desc: self.sort_desc,
            expanded: self.expanded@,
            should_quit: self.should_quit,
        }
    }
}

// ---------------------------------------------------------------------------
// Specification of the state changes
// ---------------------------------------------------------------------------

/// The listeners held never show two pid-less sockets with the same key
/// (what the grouping of rows needs).
pub open spec fn app_inv(v: AppView) -> bool {
    pidless_keys_distinct(v.all)
}

/// The cursor is on a row and the scroll position not past it; both are 0
/// when there are no rows.
pub open spec fn cursor_ok(v: AppView) -> bool {
    if v.rows.len() == 0 {
        v.cursor == 0 && v.offset == 0
    } else {
        v.offset <= v.cursor < v.rows.len()
    }
}

/// The number of table rows that fit in a terminal of `height` lines.
pub open spec fn page_size_of(height: u16) -> nat {
    if height > 12 {
        (height - 12) as nat
    } else {
        1
    }
}

/// The cursor moved onto the last row if past it, and the scroll position
/// moved so that the cursor is within the page.
pub open spec fn clamped(v: AppView, height: u16) -> AppView {
    let n = v.rows.len();
    if n == 0 {
        AppView { cursor: 0, offset: 0, ..v }
    } else {
        let c: nat = if v.cursor >= n {
            (n - 1) as nat
        } else {
            v.cursor
        };
        let o1: nat = if c < v.offset {
            c
        } else {
            v.offset
        };
        let ps = page_size_of(height);
        let o2: nat = if c >= o1 + ps {
            (c + 1 - ps) as nat
        } else {
            o1
        };
        AppView { cursor: c, offset: o2, ..v }
    }
}

/// The text `p/<pid>`.
pub open spec fn pid_id(pid: i32) -> Seq<char> {
    seq!['p', '/'] + dec_nat(pid as nat)
}

/// The identifiers that the selection is looked up by after the rows change:
/// the selected row's identifier, its entry's key and, for a known pid, the
/// identifier of its process row.
pub open spec fn keep_ids(v: AppView) -> Seq<Seq<char>> {
    if v.cursor < v.rows.len() {
        let r = v.rows[v.cursor as int];
        seq![row_id(r), entry_key(r.entry)] + if r.entry.pid > 0 {
            seq![pid_id(r.entry.pid)]
        } else {
            seq![]
        }
    } else {
        seq![]
    }
}

/// A row is known by `id`: its identifier or its entry's key.
pub open spec fn row_has_id(r: RowView, id: Seq<char>) -> bool {
    row_id(r) == id || entry_key(r.entry) == id
}

/// The first row from `i` on that is known by `id`, or the number of rows.
pub open spec fn first_with_id(rows: Seq<RowView>, id: Seq<char>, i: int) -> int
    decreases rows.len() - i,
{
    if i < 0 || i >= rows.len() {
        rows.len() as int
    } else if row_has_id(rows[i], id) {
        i
    } else {
        first_with_id(rows, id, i + 1)
    }
}

/// The row found by the first of the identifiers from `k` on that some row
/// is known by.
pub open spec fn kept_row(ids: Seq<Seq<char>>, rows: Seq<RowView>, k: int) -> Option<nat>
    decreases ids.len() - k,
{
    if k < 0 || k >= ids.len() {
        None
    } else if first_with_id(rows, ids[k], 0) < rows.len() {
        Some(first_with_id(rows, ids[k], 0) as nat)
    } else {
        kept_row(ids, rows, k + 1)
    }
}

/// The rows for the listeners, search, order and expanded processes.
pub open spec fn rows_for(v: AppView) -> Seq<RowView> {
    flattened(v.all.filter(|e: EntryView| query_keeps(e, v.query)), v.sort_key, v.sort_desc, v.expanded)
}

/// The state after the rows are rebuilt: the selection stays on the same
/// row where it can still be found, and the position is clamped for a page
/// of 24 lines.
#[verifier::opaque]
pub open spec fn refiltered(v: AppView) -> AppView {
    let rows = rows_for(v);
    let c: nat = match kept_row(keep_ids(v), rows, 0) {
        Some(j) => j,
        None => v.cursor,
    };
    clamped(AppView { rows, cursor: c, ..v }, 24)
}

/// The cursor one row up.
pub open spec fn moved_up(v: AppView, height: u16) -> AppView {
    if v.cursor > 0 {
        clamped(AppView { cursor: (v.cursor - 1) as nat, ..v }, height)
    } else {
        v
    }
}

/// The cursor one row down.
pub open spec fn moved_down(v: AppView, height: u16) -> AppView {
    if v.rows.len() > 0 && v.cursor < v.rows.len() - 1 {
        clamped(AppView { cursor: v.cursor + 1, ..v }, height)
    } else {
        v
    }
}

/// The selected row, if any.
pub open spec fn selected_of(v: AppView) -> Option<RowView> {
    if v.cursor < v.rows.len() {
        Some(v.rows[v.cursor as int])
    } else {
        None
    }
}

/// The number of listeners followed by ` listening sockets`.
pub open spec fn count_status(n: nat) -> Seq<char> {
    dec_nat(n) + " listening sockets"@
}

/// The state after the listeners were read (when no newer reading was
/// started since): the protocol filter applied and the rows rebuilt, or the
/// error shown.
pub open spec fn reloaded(v: AppView, gen: nat, result: Result<Seq<EntryView>, Seq<char>>) -> AppView {
    if v.load_gen != gen {
        v
    } else {
        match result {
            Ok(entries) => {
                let all = entries.filter(|e: EntryView| proto_wanted(e, v.want_tcp, v.want_udp));
                let w = refiltered(AppView { loading: false, err: None, all, ..v });
                AppView { status: count_status(all.len()), ..w }
            },
            Err(m) => AppView { loading: false, err: Some(m), ..v },
        }
    }
}

/// The state after killing the process with id `id`, and what is due next:
/// a reading of the listeners after a kill, the error otherwise.
pub open spec fn killed(v: AppView, pid: i32, outcome: Result<(), Seq<char>>) -> (AppView, ActionView) {
    match outcome {
        Ok(_) => (
            AppView { err: None, status: "killed pid "@ + crate::text::dec_int(pid as int), ..v },
            ActionView::Reload,
        ),
        Err(m) => (AppView { status: seq![], err: Some(m), ..v }, ActionView::Nothing),
    }
}

// ---------------------------------------------------------------------------
// Executable state changes
// ---------------------------------------------------------------------------

impl App {
    /// A new view with no listeners yet; the caller reads them at once
    /// ([`Action::Reload`]).
    pub fn new(want_tcp: bool, want_udp: bool, initial_query: &str) -> (r: Self)
        ensures
            r@ == (AppView {
                all: seq![],
                rows: seq![],
                cursor: 0,
                offset: 0,
                query: initial_query@,
                filtering: initial_query@.len() > 0,
                confirm: false,
                status: seq![],
                err: None,
                loading: true,
                load_gen: 1,
                want_tcp,
                want_udp,
                auto: false,
                sort_key: SortKey::Port,
                sort_desc: false,
                expanded: Map::empty(),
                should_quit: false,
            }),
            app_inv(r@),
            cursor_ok(r@),
    {
        let q = chars_of(initial_query);
        let r = App {
            all: Vec::new(),
            rows: Vec::new(),
            cursor: 0,
            offset: 0,
            query: string_of(q.as_slice()),
            filtering: q.len() > 0,
            confirm: false,
            status: String::new(),
            err: None,
            loading: true,
            load_gen: 1,
            want_tcp,
            want_udp,
            auto: false,
            sort_key: SortKey::Port,
            sort_desc: false,
            expanded: HashMap::new(),
            should_quit: false,
        };
        assert(views(r.all@) =~= Seq::<EntryView>::empty());
        assert(row_views(r.rows@) =~= Seq::<RowView>::empty());
        r
    }

    /// The number of table rows that fit in a terminal of `height` lines.
    pub fn page_size(&self, height: u16) -> (r: usize)
        ensures
            r as nat == page_size_of(height),
    {
        let h = height as usize;
        if h > 12 {
            h - 12
        } else {
            1
        }
    }

    /// The entry of the selected row.
    pub fn selected(&self) -> (r: Option<Entry>)
        ensures
            match selected_of(self@) {
                Some(row) => r matches Some(e) && e@ == row.entry,
                None => r is None,
            },
    {
        if self.cursor < self.rows.len() {
            Some(self.rows[self.cursor].entry.clone())
        } else {
            None
        }
    }

    /// The selected row.
    pub fn selected_row(&self) -> (r: Option<&ViewRow>)
        ensures
            match selected_of(self@) {
                Some(row) => r matches Some(x) && x@ == row,
                None => r is None,
            },
    {
        if self.cursor < self.rows.len() {
            Some(&self.rows[self.cursor])
        } else {
            None
        }
    }

    /// Moves the cursor onto the rows and the scroll position so that the
    /// cursor is within the page.
    pub fn clamp(&mut self, height: u16)
        ensures
            final(self)@ == clamped(old(self)@, height),
    {
        let n = self.rows.len();
        if n == 0 {
            self.cursor = 0;
            self.offset = 0;
            return;
        }
        if self.cursor >= n {
            self.cursor = n - 1;
        }
        let ps = self.page_size(height);
        if self.cursor < self.offset {
            self.offset = self.cursor;
        }
        if self.offset <= self.cursor && self.cursor - self.offset >= ps {
            self.offset = self.cursor + 1 - ps;
        }
    }

    /// The identifiers to find the selection by.
    fn keep_list(&self) -> (r: Vec<Vec<char>>)
        ensures
            char_seqs(r@) == keep_ids(self@),
    {
        let mut keep: Vec<Vec<char>> = Vec::new();
        if self.cursor < self.rows.len() {
            let r = &self.rows[self.cursor];
            keep.push(chars_of(r.id().as_str()));
            keep.push(chars_of(r.entry.key().as_str()));
            if r.entry.pid > 0 {
                let mut v: Vec<char> = Vec::new();
                v.push('p');
                v.push('/');
                push_dec(&mut v, r.entry.pid as u64);
                assert(v@ =~= pid_id(r.entry.pid));
                keep.push(v);
            }
        }
        assert(char_seqs(keep@) =~= keep_ids(self@));
        keep
    }

    /// The first row from `start` on known by `id`.
    fn find_row(rows: &Vec<ViewRow>, id: &Vec<char>) -> (r: usize)
        ensures
            r as int == first_with_id(row_views(rows@), id@, 0),
    {
        let ghost rv = row_views(rows@);
        let mut i: usize = 0;
        while i < rows.len()
            invariant
                i <= rows@.len(),
                rv == row_views(rows@),
                first_with_id(rv, id@, 0) == first_with_id(rv, id@, i as int),
            decreases rows.len() - i,
        {
            let rid = chars_of(rows[i].id().as_str());
            let key = chars_of(rows[i].entry.key().as_str());
            if chars_eq(&rid, id) || chars_eq(&key, id) {
                return i;
            }
            i = i + 1;
        }
        i
    }

    /// The row found by the first identifier that some row is known by.
    fn locate(keep: &Vec<Vec<char>>, rows: &Vec<ViewRow>) -> (r: Option<usize>)
        ensures
            match kept_row(char_seqs(keep@), row_views(rows@), 0) {
                Some(j) => j < rows@.len() && r == Some(j as usize),
                None => r is None,
            },
    {
        let ghost rv = row_views(rows@);
        let ghost ids = char_seqs(keep@);
        let mut k: usize = 0;
        while k < keep.len()
            invariant
                k <= keep@.len(),
                ids == char_seqs(keep@),
                rv == row_views(rows@),
                kept_row(ids, rv, 0) == kept_row(ids, rv, k as int),
            decreases keep.len() - k,
        {
            let j = Self::find_row(rows, &keep[k]);
            assert(ids[k as int] == keep@[k as int]@);
            if j < rows.len() {
                return Some(j);
            }
            k = k + 1;
        }
        None
    }

    /// Rebuilds the rows from the listeners, the search, the order and the
    /// expanded processes, keeping the selection on the same row where it
    /// can.
    #[verifier::rlimit(40)]
    pub fn apply_filter(&mut self)
        requires
            app_inv(old(self)@),
        ensures
            final(self)@ == refiltered(old(self)@),
            final(self)@.all == old(self)@.all,
            app_inv(final(self)@),
            cursor_ok(final(self)@),
    {
        let ghost v = self@;
        proof {
            reveal(refiltered);
        }
        let keep = self.keep_list();
        let filtered = filter_query(self.all.as_slice(), self.query.as_str());
        proof {
            lemma_filter_keeps_pidless_distinct(v.all, |e: EntryView| query_keeps(e, v.query));
        }
        let rows = flatten_groups(filtered.as_slice(), self.sort_key, self.sort_desc, &self.expanded);
        assert(char_seqs(keep@) == keep_ids(v));
        let found = Self::locate(&keep, &rows);
        let ghost rv = row_views(rows@);
        assert(match kept_row(keep_ids(v), rv, 0) {
            Some(j) => j < rv.len() && found == Some(j as usize),
            None => found is None,
        });
        assert(rv == rows_for(v));
        self.rows = rows;
        let n = self.rows.len();
        assert(rv.len() == n);
        match found {
            Some(j) => {
                self.cursor = j;
            },
            None => {},
        }
        assert(self@ == (AppView {
            rows: rv,
            cursor: match kept_row(keep_ids(v), rv, 0) {
                Some(j) => j,
                None => v.cursor,
            },
            ..v
        }));
        self.clamp(24);
    }

    /// Starts a reading of the listeners; returns its number, to hand to
    /// [`App::finish_reload`].
    pub fn begin_reload(&mut self) -> (gen: usize)
        requires
            old(self).load_gen < usize::MAX,
        ensures
            final(self)@ == (AppView { loading: true, load_gen: old(self)@.load_gen + 1, ..old(self)@ }),
            gen == final(self).load_gen,
    {
        self.loading = true;
        self.load_gen = self.load_gen + 1;
        self.load_gen
    }

    /// Takes the listeners read: the protocol filter applied, the rows
    /// rebuilt and their number shown.
    fn take_entries(&mut self, entries: Vec<Entry>)
        requires
            app_inv(old(self)@),
            pidless_keys_distinct(views(entries@)),
        ensures
            ({
                let v = old(self)@;
                let all = views(entries@).filter(|e: EntryView| proto_wanted(e, v.want_tcp, v.want_udp));
                final(self)@ == (AppView {
                    status: count_status(all.len()),
                    ..refiltered(AppView { loading: false, err: None, all, ..v })
                })
            }),
            app_inv(final(self)@),
            cursor_ok(final(self)@),
    {
        self.loading = false;
        self.err = None;
        self.all = filter_proto(entries.as_slice(), self.want_tcp, self.want_udp);
        proof {
            lemma_filter_keeps_pidless_distinct(
                views(entries@),
                |e: EntryView| proto_wanted(e, self.want_tcp, self.want_udp),
            );
        }
        self.apply_filter();
        let mut v = dec_u64(self.all.len() as u64);
        push_str(&mut v, " listening sockets");
        self.status = string_of(v.as_slice());
    }

    /// Takes the listeners read by the reading numbered `gen` (or the error
    /// that reading them gave).
    pub fn finish_reload(&mut self, gen: usize, result: Result<Vec<Entry>, String>)
        requires
            app_inv(old(self)@),
            result matches Ok(es) ==> pidless_keys_distinct(views(es@)),
        ensures
            final(self)@ == reloaded(
                old(self)@,
                gen as nat,
                match result {
                    Ok(es) => Ok(views(es@)),
                    Err(m) => Err(m@),
                },
            ),
            app_inv(final(self)@),
            cursor_ok(old(self)@) ==> cursor_ok(final(self)@),
    {
        if self.load_gen != gen {
            return;
        }
        match result {
            Ok(entries) => self.take_entries(entries),
            Err(m) => {
                self.loading = false;
                self.err = Some(m);
            },
        }
    }

    /// Whether a new reading is due after `elapsed_ms` milliseconds since
    /// the last one: auto-refresh is on, no kill is being confirmed, no
    /// reading is under way, and two seconds have passed.
    pub fn tick(&self, elapsed_ms: u64) -> (r: bool)
        ensures
            r == (self.auto && !self.confirm && !self.loading && elapsed_ms >= 2000),
    {
        self.auto && !self.confirm && !self.loading && elapsed_ms >= 2000
    }

    /// Takes what killing the process `id` gave.
    pub fn finish_kill(&mut self, id: Ident, outcome: Result<(), crate::kill::KillError>) -> (r: Action)
        ensures
            (final(self)@, r@) == killed(
                old(self)@,
                id.pid,
                match outcome {
                    Ok(_) => Ok(()),
                    Err(e) => Err(crate::kill::kill_error_text(e)),
                },
            ),
    {
        match outcome {
            Ok(()) => {
                self.err = None;
                let mut v: Vec<char> = Vec::new();
                push_str(&mut v, "killed pid ");
                let d = crate::text::dec_i64(id.pid as i64);
                push_all(&mut v, &d);
                self.status = string_of(v.as_slice());
                Action::Reload
            },
            Err(e) => {
                self.status = String::new();
                self.err = Some(e.message());
                Action::Nothing
            },
        }
    }
}

} // verus!
