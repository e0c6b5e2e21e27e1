//! Keys and mouse input of the interactive view: which command each input
//! means in each mode, and what each command does to the state.
use vstd::prelude::*;
use crate::group::FoldState;
use crate::model::{endpoint, endpoint_text, sort_key_next, Ident, SortKey};
use crate::text::{chars_of, owned, push_str, string_of};
use crate::tui::app::{app_inv, clamped, cursor_ok, moved_down, moved_up, page_size_of, refiltered, selected_of, Action, ActionView, App, AppView};

verus! {

broadcast use vstd::std_specs::hash::group_hash_axioms;

/// The key of a key press.
#[derive(Clone, Copy, PartialEq, Eq, Structural, Debug)]
pub enum KeyCode {
    Char(char),
    Esc,
    Enter,
    Up,
    Down,
    PageUp,
    PageDown,
    Home,
    End,
    Backspace,
    Other,
}

/// A key press: the key and whether Control was held.
#[derive(Clone, Copy, PartialEq, Eq, Structural, Debug)]
pub struct KeyInput {
    pub code: KeyCode,
    pub ctrl: bool,
}

/// A mouse event: a left-button press at a column and line, or a wheel turn.
#[derive(Clone, Copy, PartialEq, Eq, Structural, Debug)]
pub enum MouseInput {
    LeftDown { column: u16, row: u16 },
    ScrollUp,
    ScrollDown,
    Other,
}

/// The commands of the table.
pub enum TableCommand {
    Quit,
    Search,
    ClearSearch,
    Up,
    Down,
    PageUp,
    PageDown,
    Top,
    Bottom,
    Refresh,
    ToggleAuto,
    NextSort,
    ReverseSort,
    Toggle,
    Expand,
    Collapse,
    Copy,
    Kill,
    Ignore,
}

/// The commands while typing a search.
pub enum FilterCommand {
    Cancel,
    Done,
    Up,
    Down,
    Erase,
    Type(char),
    Ignore,
}

/// The answers to the kill question.
pub enum ConfirmCommand {
    Yes,
    No,
    Ignore,
}

/// The key is the character `c`.
pub open spec fn is_char(k: KeyInput, c: char) -> bool {
    k.code == KeyCode::Char(c)
}

/// The key is Control and the character `c`.
pub open spec fn is_ctrl(k: KeyInput, c: char) -> bool {
    k.ctrl && k.code == KeyCode::Char(c)
}

/// What a key means in the table: `q` quits; `/` or Ctrl-F searches; Esc
/// or Ctrl-C clears the search; `k`, Up or Ctrl-P and `j`, Down or
/// Ctrl-N move; Page Up/Down page; Home or `g` and End or `G` jump; `r` or
/// Ctrl-R refreshes; `a` toggles auto-refresh; `s` and `S` change the order;
/// Enter or space, `l` and `h` fold; `y` copies; `x` kills.
pub open spec fn table_command(k: KeyInput) -> TableCommand {
    if is_char(k, 'q') {
        TableCommand::Quit
    } else if is_char(k, '/') || is_ctrl(k, 'f') {
        TableCommand::Search
    } else if k.code == KeyCode::Esc || is_ctrl(k, 'c') {
        TableCommand::ClearSearch
    } else if is_char(k, 'k') || k.code == KeyCode::Up || is_ctrl(k, 'p') {
        TableCommand::Up
    } else if is_char(k, 'j') || k.code == KeyCode::Down || is_ctrl(k, 'n') {
        TableCommand::Down
    } else if k.code == KeyCode::PageUp {
        TableCommand::PageUp
    } else if k.code == KeyCode::PageDown {
        TableCommand::PageDown
    } else if k.code == KeyCode::Home || is_char(k, 'g') {
        TableCommand::Top
    } else if k.code == KeyCode::End || is_char(k, 'G') {
        TableCommand::Bottom
    } else if is_char(k, 'r') || is_ctrl(k, 'r') {
        TableCommand::Refresh
    } else if is_char(k, 'a') {
        TableCommand::ToggleAuto
    } else if is_char(k, 's') {
        TableCommand::NextSort
    } else if is_char(k, 'S') {
        TableCommand::ReverseSort
    } else if k.code == KeyCode::Enter || is_char(k, ' ') {
        TableCommand::Toggle
    } else if is_char(k, 'l') {
        TableCommand::Expand
    } else if is_char(k, 'h') {
        TableCommand::Collapse
    } else if is_char(k, 'y') {
        TableCommand::Copy
    } else if is_char(k, 'x') {
        TableCommand::Kill
    } else {
        TableCommand::Ignore
    }
}

/// What a key means while typing a search: Esc or Ctrl-C cancels it, Enter
/// ends it, Up or Ctrl-P and Down or Ctrl-N move, Backspace erases, any
/// other character is typed.
pub open spec fn filter_command(k: KeyInput) -> FilterCommand {
    if is_ctrl(k, 'c') || k.code == KeyCode::Esc {
        FilterCommand::Cancel
    } else if k.code == KeyCode::Enter {
        FilterCommand::Done
    } else if k.code == KeyCode::Up || is_ctrl(k, 'p') {
        FilterCommand::Up
    } else if k.code == KeyCode::Down || is_ctrl(k, 'n') {
        FilterCommand::Down
    } else if k.code == KeyCode::Backspace {
        FilterCommand::Erase
    } else {
        match k.code {
            KeyCode::Char(c) => FilterCommand::Type(c),
            _ => FilterCommand::Ignore,
        }
    }
}

/// What a key means at the kill question.
pub open spec fn confirm_command(k: KeyInput) -> ConfirmCommand {
    match k.code {
        KeyCode::Char(c) => if c == 'y' || c == 'Y' {
            ConfirmCommand::Yes
        } else if c == 'n' || c == 'N' || c == 'q' {
            ConfirmCommand::No
        } else {
            ConfirmCommand::Ignore
        },
        KeyCode::Esc => ConfirmCommand::No,
        _ => ConfirmCommand::Ignore,
    }
}

/// The rows rebuilt with the process `pid` expanded or not.
pub open spec fn with_expanded(v: AppView, pid: i32, expand: bool) -> AppView {
    refiltered(
        AppView {
            expanded: if expand {
                v.expanded.insert(pid, true)
            } else {
                v.expanded.remove(pid)
            },
            ..v
        },
    )
}

/// Enter on the selection: a collapsed process opens, an open process (or
/// one of its sockets) closes.
pub open spec fn toggled(v: AppView) -> AppView {
    match selected_of(v) {
        Some(r) => if r.entry.pid <= 0 {
            v
        } else {
            match r.fold {
                FoldState::Collapsed => with_expanded(v, r.entry.pid, true),
                FoldState::Expanded | FoldState::Child => with_expanded(v, r.entry.pid, false),
                FoldState::Leaf => v,
            }
        },
        None => v,
    }
}

/// `l` on the selection: a collapsed process opens.
pub open spec fn opened(v: AppView) -> AppView {
    match selected_of(v) {
        Some(r) => if r.entry.pid > 0 && r.fold == FoldState::Collapsed {
            with_expanded(v, r.entry.pid, true)
        } else {
            v
        },
        None => v,
    }
}

/// `h` on the selection: an open process (or one of its sockets) closes.
pub open spec fn closed(v: AppView) -> AppView {
    match selected_of(v) {
        Some(r) => if r.entry.pid > 0 && (r.fold == FoldState::Expanded || r.fold
            == FoldState::Child) {
            with_expanded(v, r.entry.pid, false)
        } else {
            v
        },
        None => v,
    }
}

/// The cursor a page up.
pub open spec fn paged_up(v: AppView, height: u16) -> AppView {
    let ps = page_size_of(height);
    clamped(
        AppView {
            cursor: if v.cursor > ps {
                (v.cursor - ps) as nat
            } else {
                0
            },
            ..v
        },
        height,
    )
}

/// The cursor a page down, not past the last row.
pub open spec fn paged_down(v: AppView, height: u16) -> AppView {
    let ps = page_size_of(height);
    let n = v.rows.len();
    if n > 0 {
        clamped(
            AppView {
                cursor: if v.cursor + ps < n - 1 {
                    v.cursor + ps
                } else {
                    (n - 1) as nat
                },
                ..v
            },
            height,
        )
    } else {
        v
    }
}

/// The effect of a table command.
pub open spec fn table_effect(v: AppView, cmd: TableCommand, height: u16) -> (AppView, ActionView) {
    match cmd {
        TableCommand::Quit => (AppView { should_quit: true, ..v }, ActionView::Nothing),
        TableCommand::Search => (AppView { filtering: true, ..v }, ActionView::Nothing),
        TableCommand::ClearSearch => (
            if v.query.len() > 0 {
                refiltered(AppView { query: seq![], ..v })
            } else {
                v
            },
            ActionView::Nothing,
        ),
        TableCommand::Up => (moved_up(v, height), ActionView::Nothing),
        TableCommand::Down => (moved_down(v, height), ActionView::Nothing),
        TableCommand::PageUp => (paged_up(v, height), ActionView::Nothing),
        TableCommand::PageDown => (paged_down(v, height), ActionView::Nothing),
        TableCommand::Top => (clamped(AppView { cursor: 0, ..v }, height), ActionView::Nothing),
        TableCommand::Bottom => (
            if v.rows.len() > 0 {
                clamped(AppView { cursor: (v.rows.len() - 1) as nat, ..v }, height)
            } else {
                v
            },
            ActionView::Nothing,
        ),
        TableCommand::Refresh => (v, ActionView::Reload),
        TableCommand::ToggleAuto => (
            AppView {
                auto: !v.auto,
                status: if !v.auto {
                    "auto-refresh on (2s)"@
                } else {
                    "auto-refresh off"@
                },
                ..v
            },
            ActionView::Nothing,
        ),
        TableCommand::NextSort => (
            refiltered(AppView { sort_key: sort_key_next(v.sort_key), ..v }),
            ActionView::Nothing,
        ),
        TableCommand::ReverseSort => (
            refiltered(AppView { sort_desc: !v.sort_desc, ..v }),
            ActionView::Nothing,
        ),
        TableCommand::Toggle => (toggled(v), ActionView::Nothing),
        TableCommand::Expand => (opened(v), ActionView::Nothing),
        TableCommand::Collapse => (closed(v), ActionView::Nothing),
        TableCommand::Copy => match selected_of(v) {
            Some(r) => (v, ActionView::Copy(endpoint_text(r.entry.addr, r.entry.port))),
            None => (v, ActionView::Nothing),
        },
        TableCommand::Kill => match selected_of(v) {
            Some(r) => if r.entry.pid > 0 {
                (AppView { confirm: true, ..v }, ActionView::Nothing)
            } else {
                (AppView { status: "no process to kill (pid unknown)"@, ..v }, ActionView::Nothing)
            },
            None => (v, ActionView::Nothing),
        },
        TableCommand::Ignore => (v, ActionView::Nothing),
    }
}

/// The effect of a command while typing a search.
pub open spec fn filter_effect(v: AppView, cmd: FilterCommand, height: u16) -> AppView {
    match cmd {
        FilterCommand::Cancel => refiltered(AppView { filtering: false, query: seq![], ..v }),
        FilterCommand::Done => AppView { filtering: false, ..v },
        FilterCommand::Up => moved_up(v, height),
        FilterCommand::Down => moved_down(v, height),
        FilterCommand::Erase => refiltered(
            AppView {
                query: if v.query.len() > 0 {
                    v.query.drop_last()
                } else {
                    v.query
                },
                ..v
            },
        ),
        FilterCommand::Type(c) => refiltered(AppView { query: v.query.push(c), ..v }),
        FilterCommand::Ignore => v,
    }
}

/// The effect of an answer to the kill question: yes kills the selected
/// process when its pid and start are known; no cancels.
pub open spec fn confirm_effect(v: AppView, cmd: ConfirmCommand) -> (AppView, ActionView) {
    match cmd {
        ConfirmCommand::Yes => {
            let w = AppView { confirm: false, ..v };
            match selected_of(w) {
                Some(r) => if r.entry.pid <= 0 {
                    (AppView { status: "no process to kill"@, ..w }, ActionView::Nothing)
                } else if r.entry.start == 0 {
                    (
                        AppView { status: "process identity unknown (refusing to kill)"@, ..w },
                        ActionView::Nothing,
                    )
                } else {
                    (w, ActionView::Kill(Ident { pid: r.entry.pid, start: r.entry.start }))
                },
                None => (w, ActionView::Nothing),
            }
        },
        ConfirmCommand::No => (
            AppView { confirm: false, status: "cancelled"@, ..v },
            ActionView::Nothing,
        ),
        ConfirmCommand::Ignore => (v, ActionView::Nothing),
    }
}

/// What a key press does: the kill question, the search being typed and the
/// table each read keys their own way.
pub open spec fn key_step(v: AppView, k: KeyInput, height: u16) -> (AppView, ActionView) {
    if v.confirm {
        confirm_effect(v, confirm_command(k))
    } else if v.filtering {
        (filter_effect(v, filter_command(k), height), ActionView::Nothing)
    } else {
        table_effect(v, table_command(k), height)
    }
}

/// The sort column of a header click at `col`.
pub open spec fn header_key(col: u16) -> SortKey {
    if col < 9 {
        SortKey::Proto
    } else if col < 15 {
        SortKey::Port
    } else if col < 38 {
        SortKey::Addr
    } else if col < 43 {
        SortKey::Pid
    } else if col < 59 {
        SortKey::Project
    } else {
        SortKey::Name
    }
}

/// A click on the header: the same column reverses the order, another one
/// sorts by it ascending.
pub open spec fn header_clicked(v: AppView, col: u16) -> AppView {
    let key = header_key(col);
    if v.sort_key == key {
        refiltered(AppView { sort_desc: !v.sort_desc, ..v })
    } else {
        refiltered(AppView { sort_key: key, sort_desc: false, ..v })
    }
}

/// A left click at (`col`, `row`): line 1 starts a search, line 2 sorts,
/// a table row is selected (or folded when already selected). Nothing
/// happens while the kill question is asked.
pub open spec fn clicked(v: AppView, col: u16, row: u16, height: u16) -> AppView {
    if v.confirm {
        v
    } else if row == 1 {
        AppView { filtering: true, ..v }
    } else if row == 2 {
        header_clicked(v, col)
    } else {
        let ps = page_size_of(height);
        if 3 <= row && row <= 3 + ps - 1 {
            let idx = v.offset + (row - 3);
            if idx < v.rows.len() {
                if v.cursor == idx {
                    toggled(v)
                } else {
                    clamped(AppView { cursor: idx as nat, ..v }, height)
                }
            } else {
                v
            }
        } else {
            v
        }
    }
}

/// What a mouse event does.
pub open spec fn mouse_step(v: AppView, m: MouseInput, height: u16) -> AppView {
    match m {
        MouseInput::LeftDown { column, row } => clicked(v, column, row, height),
        MouseInput::ScrollUp => moved_up(v, height),
        MouseInput::ScrollDown => moved_down(v, height),
        MouseInput::Other => v,
    }
}

/// Clamping puts the cursor on a row and the page over it.
pub proof fn lemma_clamped_ok(v: AppView, height: u16)
    ensures
        cursor_ok(clamped(v, height)),
        clamped(v, height).rows == v.rows,
        clamped(v, height).all == v.all,
{
}

/// What came of putting a text on the clipboard.
#[derive(Clone, Copy, PartialEq, Eq, Structural, Debug)]
pub enum CopyOutcome {
    Copied,
    Failed,
    Unavailable,
}

/// The status after copying the endpoint `ep`.
pub open spec fn copy_status(ep: Seq<char>, outcome: CopyOutcome) -> Seq<char> {
    match outcome {
        CopyOutcome::Copied => "copied "@ + ep,
        CopyOutcome::Failed => "failed to copy "@ + ep,
        CopyOutcome::Unavailable => "clipboard not available: "@ + ep,
    }
}

/// The table command that a key means.
pub fn table_command_of(k: KeyInput) -> (c: TableCommand)
    ensures
        c == table_command(k),
{
    let ctrl_c = k.ctrl && k.code == KeyCode::Char('c');
    let ctrl_f = k.ctrl && k.code == KeyCode::Char('f');
    let ctrl_p = k.ctrl && k.code == KeyCode::Char('p');
    let ctrl_n = k.ctrl && k.code == KeyCode::Char('n');
    let ctrl_r = k.ctrl && k.code == KeyCode::Char('r');
    if k.code == KeyCode::Char('q') {
        TableCommand::Quit
    } else if k.code == KeyCode::Char('/') || ctrl_f {
        TableCommand::Search
    } else if k.code == KeyCode::Esc || ctrl_c {
        TableCommand::ClearSearch
    } else if k.code == KeyCode::Char('k') || k.code == KeyCode::Up || ctrl_p {
        TableCommand::Up
    } else if k.code == KeyCode::Char('j') || k.code == KeyCode::Down || ctrl_n {
        TableCommand::Down
    } else if k.code == KeyCode::PageUp {
        TableCommand::PageUp
    } else if k.code == KeyCode::PageDown {
        TableCommand::PageDown
    } else if k.code == KeyCode::Home || k.code == KeyCode::Char('g') {
        TableCommand::Top
    } else if k.code == KeyCode::End || k.code == KeyCode::Char('G') {
        TableCommand::Bottom
    } else if k.code == KeyCode::Char('r') || ctrl_r {
        TableCommand::Refresh
    } else if k.code == KeyCode::Char('a') {
        TableCommand::ToggleAuto
    } else if k.code == KeyCode::Char('s') {
        TableCommand::NextSort
    } else if k.code == KeyCode::Char('S') {
        TableCommand::ReverseSort
    } else if k.code == KeyCode::Enter || k.code == KeyCode::Char(' ') {
        TableCommand::Toggle
    } else if k.code == KeyCode::Char('l') {
        TableCommand::Expand
    } else if k.code == KeyCode::Char('h') {
        TableCommand::Collapse
    } else if k.code == KeyCode::Char('y') {
        TableCommand::Copy
    } else if k.code == KeyCode::Char('x') {
        TableCommand::Kill
    } else {
        TableCommand::Ignore
    }
}

impl App {
    /// Handles a key press; returns the work due for the caller.
    pub fn handle_key(&mut self, key: KeyInput, height: u16) -> (r: Action)
        requires
            app_inv(old(self)@),
        ensures
            (final(self)@, r@) == key_step(old(self)@, key, height),
            app_inv(final(self)@),
            cursor_ok(old(self)@) ==> cursor_ok(final(self)@),
    {
        if self.confirm {
            self.handle_key_confirm(key)
        } else if self.filtering {
            self.handle_key_filter(key, height);
            Action::Nothing
        } else {
            self.handle_key_table(key, height)
        }
    }

    /// Moves the cursor one row up.
    fn move_up(&mut self, height: u16)
        ensures
            final(self)@ == moved_up(old(self)@, height),
            cursor_ok(old(self)@) ==> cursor_ok(final(self)@),
    {
        proof {
            lemma_clamped_ok(AppView { cursor: (old(self)@.cursor - 1) as nat, ..old(self)@ }, height);
        }
        if self.cursor > 0 {
            self.cursor = self.cursor - 1;
            self.clamp(height);
        }
    }

    /// Moves the cursor one row down.
    fn move_down(&mut self, height: u16)
        ensures
            final(self)@ == moved_down(old(self)@, height),
            cursor_ok(old(self)@) ==> cursor_ok(final(self)@),
    {
        proof {
            lemma_clamped_ok(AppView { cursor: old(self)@.cursor + 1, ..old(self)@ }, height);
        }
        if self.rows.len() > 0 && self.cursor < self.rows.len() - 1 {
            self.cursor = self.cursor + 1;
            self.clamp(height);
        }
    }

    fn handle_key_confirm(&mut self, key: KeyInput) -> (r: Action)
        requires
            app_inv(old(self)@),
        ensures
            (final(self)@, r@) == confirm_effect(old(self)@, confirm_command(key)),
            app_inv(final(self)@),
            cursor_ok(old(self)@) ==> cursor_ok(final(self)@),
    {
        let (yes, no) = match key.code {
            KeyCode::Char(c) => (c == 'y' || c == 'Y', c == 'n' || c == 'N' || c == 'q'),
            KeyCode::Esc => (false, true),
            _ => (false, false),
        };
        if yes {
            self.confirm = false;
            match self.selected() {
                Some(e) => {
                    if e.pid <= 0 {
                        self.status = owned("no process to kill");
                        return Action::Nothing;
                    }
                    if e.start == 0 {
                        self.status = owned("process identity unknown (refusing to kill)");
                        return Action::Nothing;
                    }
                    Action::Kill(e.ident())
                },
                None => Action::Nothing,
            }
        } else if no {
            self.confirm = false;
            self.status = owned("cancelled");
            Action::Nothing
        } else {
            Action::Nothing
        }
    }

    /// Rebuilds the rows after the search text changed.
    fn set_query(&mut self, q: Vec<char>)
        requires
            app_inv(old(self)@),
        ensures
            final(self)@ == refiltered(AppView { query: q@, ..old(self)@ }),
            app_inv(final(self)@),
            cursor_ok(final(self)@),
    {
        self.query = string_of(q.as_slice());
        self.apply_filter();
    }

    fn handle_key_filter(&mut self, key: KeyInput, height: u16)
        requires
            app_inv(old(self)@),
        ensures
            final(self)@ == filter_effect(old(self)@, filter_command(key), height),
            app_inv(final(self)@),
            cursor_ok(old(self)@) ==> cursor_ok(final(self)@),
    {
        let is_ctrl_c = key.code == KeyCode::Char('c') && key.ctrl;
        let is_ctrl_p = key.code == KeyCode::Char('p') && key.ctrl;
        let is_ctrl_n = key.code == KeyCode::Char('n') && key.ctrl;
        if is_ctrl_c || key.code == KeyCode::Esc {
            self.filtering = false;
            self.set_query(Vec::new());
            return;
        }
        if key.code == KeyCode::Enter {
            self.filtering = false;
            return;
        }
        if key.code == KeyCode::Up || is_ctrl_p {
            self.move_up(height);
            return;
        }
        if key.code == KeyCode::Down || is_ctrl_n {
            self.move_down(height);
            return;
        }
        if key.code == KeyCode::Backspace {
            let mut q = chars_of(self.query.as_str());
            if q.len() > 0 {
                q.pop();
            }
            self.set_query(q);
            return;
        }
        match key.code {
            KeyCode::Char(c) => {
                let mut q = chars_of(self.query.as_str());
                q.push(c);
                self.set_query(q);
            },
            _ => {},
        }
    }

    /// Opens or closes the process `pid` and rebuilds the rows.
    fn set_expanded(&mut self, pid: i32, expand: bool)
        requires
            app_inv(old(self)@),
        ensures
            final(self)@ == with_expanded(old(self)@, pid, expand),
            app_inv(final(self)@),
            cursor_ok(final(self)@),
    {
        if expand {
            self.expanded.insert(pid, true);
        } else {
            self.expanded.remove(&pid);
        }
        self.apply_filter();
    }

    fn toggle_expand(&mut self)
        requires
            app_inv(old(self)@),
        ensures
            final(self)@ == toggled(old(self)@),
            app_inv(final(self)@),
            cursor_ok(old(self)@) ==> cursor_ok(final(self)@),
    {
        if self.cursor < self.rows.len() {
            let pid = self.rows[self.cursor].entry.pid;
            let fold = self.rows[self.cursor].fold;
            if pid <= 0 {
                return;
            }
            match fold {
                FoldState::Collapsed => self.set_expanded(pid, true),
                FoldState::Expanded | FoldState::Child => self.set_expanded(pid, false),
                FoldState::Leaf => {},
            }
        }
    }

    fn expand_current(&mut self)
        requires
            app_inv(old(self)@),
        ensures
            final(self)@ == opened(old(self)@),
            app_inv(final(self)@),
            cursor_ok(old(self)@) ==> cursor_ok(final(self)@),
    {
        if self.cursor < self.rows.len() {
            let pid = self.rows[self.cursor].entry.pid;
            if pid > 0 && self.rows[self.cursor].fold == FoldState::Collapsed {
                self.set_expanded(pid, true);
            }
        }
    }

    fn collapse_current(&mut self)
        requires
            app_inv(old(self)@),
        ensures
            final(self)@ == closed(old(self)@),
            app_inv(final(self)@),
            cursor_ok(old(self)@) ==> cursor_ok(final(self)@),
    {
        if self.cursor < self.rows.len() {
            let pid = self.rows[self.cursor].entry.pid;
            let fold = self.rows[self.cursor].fold;
            if pid > 0 && (fold == FoldState::Expanded || fold == FoldState::Child) {
                self.set_expanded(pid, false);
            }
        }
    }

    /// The endpoint of the selection, to put on the clipboard.
    fn copy_endpoint(&self) -> (r: Action)
        ensures
            r@ == match selected_of(self@) {
                Some(row) => ActionView::Copy(endpoint_text(row.entry.addr, row.entry.port)),
                None => ActionView::Nothing,
            },
    {
        if self.cursor < self.rows.len() {
            let e = &self.rows[self.cursor].entry;
            Action::Copy(endpoint(e.addr.as_str(), e.port))
        } else {
            Action::Nothing
        }
    }

    /// Takes what putting the endpoint `ep` on the clipboard gave.
    pub fn finish_copy(&mut self, ep: &str, outcome: CopyOutcome)
        ensures
            final(self)@ == (AppView { status: copy_status(ep@, outcome), ..old(self)@ }),
    {
        let mut v: Vec<char> = Vec::new();
        match outcome {
            CopyOutcome::Copied => push_str(&mut v, "copied "),
            CopyOutcome::Failed => push_str(&mut v, "failed to copy "),
            CopyOutcome::Unavailable => push_str(&mut v, "clipboard not available: "),
        }
        push_str(&mut v, ep);
        self.status = string_of(v.as_slice());
    }

    /// Moves the cursor a page up.
    fn page_up(&mut self, height: u16)
        ensures
            final(self)@ == paged_up(old(self)@, height),
            cursor_ok(final(self)@),
    {
        let ghost v = self@;
        let ps = self.page_size(height);
        proof {
            lemma_clamped_ok(
                AppView { cursor: if v.cursor > ps { (v.cursor - ps) as nat } else { 0 }, ..v },
                height,
            );
        }
        if self.cursor > ps {
            self.cursor = self.cursor - ps;
        } else {
            self.cursor = 0;
        }
        self.clamp(height);
    }

    /// Moves the cursor a page down.
    fn page_down(&mut self, height: u16)
        ensures
            final(self)@ == paged_down(old(self)@, height),
            cursor_ok(old(self)@) ==> cursor_ok(final(self)@),
    {
        let ghost v = self@;
        let ps = self.page_size(height);
        if self.rows.len() > 0 {
            let last = self.rows.len() - 1;
            proof {
                lemma_clamped_ok(
                    AppView {
                        cursor: if v.cursor + ps < last { (v.cursor + ps) as nat } else { last as nat },
                        ..v
                    },
                    height,
                );
            }
            if self.cursor < last && ps < last - self.cursor {
                self.cursor = self.cursor + ps;
            } else {
                self.cursor = last;
            }
            self.clamp(height);
        }
    }

    /// Moves the cursor to the first row.
    fn go_top(&mut self, height: u16)
        ensures
            final(self)@ == clamped(AppView { cursor: 0, ..old(self)@ }, height),
            cursor_ok(final(self)@),
    {
        proof {
            lemma_clamped_ok(AppView { cursor: 0, ..old(self)@ }, height);
        }
        self.cursor = 0;
        self.clamp(height);
    }

    /// Moves the cursor to the last row.
    fn go_bottom(&mut self, height: u16)
        ensures
            final(self)@ == (if old(self)@.rows.len() > 0 {
                clamped(AppView { cursor: (old(self)@.rows.len() - 1) as nat, ..old(self)@ }, height)
            } else {
                old(self)@
            }),
            cursor_ok(old(self)@) ==> cursor_ok(final(self)@),
    {
        if self.rows.len() > 0 {
            proof {
                lemma_clamped_ok(
                    AppView { cursor: (old(self)@.rows.len() - 1) as nat, ..old(self)@ },
                    height,
                );
            }
            self.cursor = self.rows.len() - 1;
            self.clamp(height);
        }
    }

    /// Turns auto-refresh on or off.
    fn toggle_auto(&mut self)
        ensures
            final(self)@ == (AppView {
                auto: !old(self)@.auto,
                status: if !old(self)@.auto {
                    "auto-refresh on (2s)"@
                } else {
                    "auto-refresh off"@
                },
                ..old(self)@
            }),
    {
        self.auto = !self.auto;
        self.status = if self.auto {
            owned("auto-refresh on (2s)")
        } else {
            owned("auto-refresh off")
        };
    }

    /// Asks whether to kill the selected process, when its pid is known.
    fn ask_kill(&mut self)
        ensures
            final(self)@ == match selected_of(old(self)@) {
                Some(r) => if r.entry.pid > 0 {
                    AppView { confirm: true, ..old(self)@ }
                } else {
                    AppView { status: "no process to kill (pid unknown)"@, ..old(self)@ }
                },
                None => old(self)@,
            },
    {
        if self.cursor < self.rows.len() {
            if self.rows[self.cursor].entry.pid > 0 {
                self.confirm = true;
            } else {
                self.status = owned("no process to kill (pid unknown)");
            }
        }
    }

    #[verifier::rlimit(30)]
    fn handle_key_table(&mut self, key: KeyInput, height: u16) -> (r: Action)
        requires
            app_inv(old(self)@),
        ensures
            (final(self)@, r@) == table_effect(old(self)@, table_command(key), height),
            app_inv(final(self)@),
            cursor_ok(old(self)@) ==> cursor_ok(final(self)@),
    {
        match table_command_of(key) {
            TableCommand::Quit => {
                self.should_quit = true;
            },
            TableCommand::Search => {
                self.filtering = true;
            },
            TableCommand::ClearSearch => {
                if chars_of(self.query.as_str()).len() > 0 {
                    self.set_query(Vec::new());
                }
            },
            TableCommand::Up => self.move_up(height),
            TableCommand::Down => self.move_down(height),
            TableCommand::PageUp => self.page_up(height),
            TableCommand::PageDown => self.page_down(height),
            TableCommand::Top => self.go_top(height),
            TableCommand::Bottom => self.go_bottom(height),
            TableCommand::Refresh => {
                return Action::Reload;
            },
            TableCommand::ToggleAuto => self.toggle_auto(),
            TableCommand::NextSort => {
                self.sort_key = self.sort_key.next();
                self.apply_filter();
            },
            TableCommand::ReverseSort => {
                self.sort_desc = !self.sort_desc;
                self.apply_filter();
            },
            TableCommand::Toggle => self.toggle_expand(),
            TableCommand::Expand => self.expand_current(),
            TableCommand::Collapse => self.collapse_current(),
            TableCommand::Copy => {
                return self.copy_endpoint();
            },
            TableCommand::Kill => self.ask_kill(),
            TableCommand::Ignore => {},
        }
        Action::Nothing
    }

    /// Handles a mouse event.
    pub fn handle_mouse(&mut self, mouse: MouseInput, height: u16)
        requires
            app_inv(old(self)@),
        ensures
            final(self)@ == mouse_step(old(self)@, mouse, height),
            app_inv(final(self)@),
            cursor_ok(old(self)@) ==> cursor_ok(final(self)@),
    {
        match mouse {
            MouseInput::LeftDown { column, row } => self.handle_click(column, row, height),
            MouseInput::ScrollUp => self.move_up(height),
            MouseInput::ScrollDown => self.move_down(height),
            MouseInput::Other => {},
        }
    }

    fn handle_click(&mut self, col: u16, row: u16, height: u16)
        requires
            app_inv(old(self)@),
        ensures
            final(self)@ == clicked(old(self)@, col, row, height),
            app_inv(final(self)@),
            cursor_ok(old(self)@) ==> cursor_ok(final(self)@),
    {
        let ghost v = self@;
        if self.confirm {
            return;
        }
        if row == 1 {
            self.filtering = true;
            return;
        }
        if row == 2 {
            self.handle_header_click(col);
            return;
        }
        let ps = self.page_size(height);
        let first_row: u16 = 3;
        let last_row: u16 = first_row + (ps as u16) - 1;
        if row >= first_row && row <= last_row {
            let d = (row - first_row) as usize;
            if self.offset < self.rows.len() && d < self.rows.len() - self.offset {
                let idx = self.offset + d;
                if self.cursor == idx {
                    self.toggle_expand();
                } else {
                    proof {
                        lemma_clamped_ok(AppView { cursor: idx as nat, ..v }, height);
                    }
                    self.cursor = idx;
                    self.clamp(height);
                }
            }
        }
    }

    fn handle_header_click(&mut self, col: u16)
        requires
            app_inv(old(self)@),
        ensures
            final(self)@ == header_clicked(old(self)@, col),
            app_inv(final(self)@),
            cursor_ok(final(self)@),
    {
        let key = if col < 9 {
            SortKey::Proto
        } else if col < 15 {
            SortKey::Port
        } else if col < 38 {
            SortKey::Addr
        } else if col < 43 {
            SortKey::Pid
        } else if col < 59 {
            SortKey::Project
        } else {
            SortKey::Name
        };
        if self.sort_key == key {
            self.sort_desc = !self.sort_desc;
        } else {
            self.sort_key = key;
            self.sort_desc = false;
        }
        self.apply_filter();
    }
}

} // verus!
