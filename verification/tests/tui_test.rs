use lsoff_rs::group::FoldState;
use lsoff_rs::kill::KillError;
use lsoff_rs::model::{Entry, Ident, Proto, SortKey};
use lsoff_rs::tui::app::{Action, App};
use lsoff_rs::tui::event::{CopyOutcome, KeyCode, KeyInput, MouseInput};
use lsoff_rs::tui::view::{
    confirm_text, detail_lines, pad_right, row_line, selected_line, shortcut_choice, title_meta,
    truncate_width,
};

fn entry(port: u16, pid: i32, name: &str) -> Entry {
    Entry {
        proto: Proto::Tcp,
        port,
        addr: "127.0.0.1".to_string(),
        pid,
        name: name.to_string(),
        path: format!("/bin/{name}"),
        cmdline: name.to_string(),
        cwd: "/".to_string(),
        project: String::new(),
        start: 77,
    }
}

fn key(c: char) -> KeyInput {
    KeyInput { code: KeyCode::Char(c), ctrl: false }
}

fn code(k: KeyCode) -> KeyInput {
    KeyInput { code: k, ctrl: false }
}

fn loaded(entries: Vec<Entry>) -> App {
    let mut app = App::new(false, false, "");
    let gen = app.begin_reload();
    app.finish_reload(gen, Ok(entries));
    app
}

#[test]
fn new_app_waits_for_listeners() {
    let app = App::new(true, false, "node");
    assert!(app.loading);
    assert!(app.filtering);
    assert_eq!(app.query, "node");
    assert_eq!(app.load_gen, 1);
    assert!(app.rows.is_empty());
}

#[test]
fn reload_fills_rows_and_status() {
    let app = loaded(vec![entry(80, 1, "nginx"), entry(443, 1, "nginx"), entry(8080, 2, "node")]);
    assert!(!app.loading);
    assert_eq!(app.all.len(), 3);
    assert_eq!(app.rows.len(), 2);
    assert_eq!(app.status, "3 listening sockets");
    assert_eq!(app.cursor, 0);
}

#[test]
fn stale_reload_is_ignored() {
    let mut app = App::new(false, false, "");
    let old = app.begin_reload();
    let _newer = app.begin_reload();
    app.finish_reload(old, Ok(vec![entry(80, 1, "a")]));
    assert!(app.all.is_empty());
    assert!(app.loading);
}

#[test]
fn reload_error_is_shown() {
    let mut app = App::new(false, false, "");
    let gen = app.begin_reload();
    app.finish_reload(gen, Err("permission denied".to_string()));
    assert_eq!(app.err, Some("permission denied".to_string()));
    assert!(!app.loading);
}

#[test]
fn cursor_moves_and_stays_in_range() {
    let mut app = loaded(vec![entry(1, 1, "a"), entry(2, 2, "b"), entry(3, 3, "c")]);
    app.handle_key(key('j'), 40);
    assert_eq!(app.cursor, 1);
    app.handle_key(code(KeyCode::Down), 40);
    app.handle_key(code(KeyCode::Down), 40);
    assert_eq!(app.cursor, 2);
    app.handle_key(code(KeyCode::Home), 40);
    assert_eq!(app.cursor, 0);
    app.handle_key(key('k'), 40);
    assert_eq!(app.cursor, 0);
    app.handle_key(key('G'), 40);
    assert_eq!(app.cursor, 2);
    app.handle_key(code(KeyCode::PageUp), 40);
    assert_eq!(app.cursor, 0);
    app.handle_key(code(KeyCode::PageDown), 40);
    assert_eq!(app.cursor, 2);
}

#[test]
fn scrolling_keeps_cursor_on_page() {
    let entries: Vec<Entry> = (1..=30).map(|p| entry(p, p as i32, "x")).collect();
    let mut app = loaded(entries);
    // height 15 gives a page of 3 rows
    for _ in 0..5 {
        app.handle_key(key('j'), 15);
    }
    assert_eq!(app.cursor, 5);
    assert_eq!(app.offset, 3);
    assert_eq!(app.page_size(15), 3);
    assert_eq!(app.page_size(5), 1);
}

#[test]
fn quit_search_and_typing() {
    let mut app = loaded(vec![entry(80, 1, "nginx"), entry(8080, 2, "node")]);
    assert!(matches!(app.handle_key(key('/'), 40), Action::Nothing));
    assert!(app.filtering);
    app.handle_key(key('n'), 40);
    app.handle_key(key('o'), 40);
    assert_eq!(app.query, "no");
    assert_eq!(app.rows.len(), 1);
    app.handle_key(code(KeyCode::Backspace), 40);
    assert_eq!(app.query, "n");
    app.handle_key(code(KeyCode::Enter), 40);
    assert!(!app.filtering);
    app.handle_key(code(KeyCode::Esc), 40);
    assert_eq!(app.query, "");
    assert_eq!(app.rows.len(), 2);
    app.handle_key(key('/'), 40);
    for c in "ngi".chars() {
        app.handle_key(key(c), 40);
    }
    app.handle_key(code(KeyCode::Enter), 40);
    assert_eq!(app.query, "ngi");
    assert_eq!(app.rows.len(), 1);
    app.handle_key(KeyInput { code: KeyCode::Char('c'), ctrl: true }, 40);
    assert_eq!(app.query, "");
    assert_eq!(app.rows.len(), 2);
    assert!(!app.should_quit);
    app.handle_key(key('q'), 40);
    assert!(app.should_quit);
}

#[test]
fn sort_keys_and_auto_refresh() {
    let mut app = loaded(vec![entry(80, 2, "b"), entry(81, 1, "a")]);
    app.handle_key(key('s'), 40);
    assert_eq!(app.sort_key, SortKey::Proto);
    app.handle_key(key('S'), 40);
    assert!(app.sort_desc);
    app.handle_key(key('a'), 40);
    assert!(app.auto);
    assert_eq!(app.status, "auto-refresh on (2s)");
    assert!(app.tick(2000));
    assert!(!app.tick(1999));
    app.handle_key(key('a'), 40);
    assert_eq!(app.status, "auto-refresh off");
    assert!(matches!(app.handle_key(key('r'), 40), Action::Reload));
}

#[test]
fn expand_and_collapse_keep_selection() {
    let mut app = loaded(vec![entry(80, 1, "nginx"), entry(443, 1, "nginx"), entry(8080, 2, "node")]);
    assert_eq!(app.rows[0].fold, FoldState::Collapsed);
    app.handle_key(code(KeyCode::Enter), 40);
    assert_eq!(app.rows.len(), 3);
    assert_eq!(app.rows[0].fold, FoldState::Expanded);
    assert_eq!(app.cursor, 0);
    app.handle_key(key('j'), 40);
    assert_eq!(app.rows[1].fold, FoldState::Child);
    app.handle_key(key('h'), 40);
    assert_eq!(app.rows.len(), 2);
    assert_eq!(app.cursor, 0);
    app.handle_key(key('l'), 40);
    assert_eq!(app.rows.len(), 3);
}

#[test]
fn kill_confirmation_flow() {
    let mut app = loaded(vec![entry(80, 5, "nginx")]);
    app.handle_key(key('x'), 40);
    assert!(app.confirm);
    let act = app.handle_key(key('y'), 40);
    assert!(!app.confirm);
    match act {
        Action::Kill(id) => assert_eq!(id, Ident { pid: 5, start: 77 }),
        _ => panic!("expected a kill"),
    }
    let next = app.finish_kill(Ident { pid: 5, start: 77 }, Ok(()));
    assert!(matches!(next, Action::Reload));
    assert_eq!(app.status, "killed pid 5");

    app.handle_key(key('x'), 40);
    app.handle_key(code(KeyCode::Esc), 40);
    assert_eq!(app.status, "cancelled");

    let after = app.finish_kill(Ident { pid: 5, start: 77 }, Err(KillError::IdentityMismatch));
    assert!(matches!(after, Action::Nothing));
    assert_eq!(app.err, Some("process identity changed (pid reused?)".to_string()));
    assert_eq!(app.status, "");
}

#[test]
fn kill_refused_without_pid_or_start() {
    let mut nopid = entry(80, 0, "x");
    nopid.start = 0;
    let mut app = loaded(vec![nopid]);
    app.handle_key(key('x'), 40);
    assert!(!app.confirm);
    assert_eq!(app.status, "no process to kill (pid unknown)");

    let mut nostart = entry(81, 9, "y");
    nostart.start = 0;
    let mut app = loaded(vec![nostart]);
    app.handle_key(key('x'), 40);
    assert!(app.confirm);
    assert!(matches!(app.handle_key(key('Y'), 40), Action::Nothing));
    assert_eq!(app.status, "process identity unknown (refusing to kill)");
}

#[test]
fn copy_asks_for_clipboard() {
    let mut app = loaded(vec![entry(8080, 3, "web")]);
    match app.handle_key(key('y'), 40) {
        Action::Copy(ep) => {
            assert_eq!(ep, "127.0.0.1:8080");
            app.finish_copy(&ep, CopyOutcome::Copied);
            assert_eq!(app.status, "copied 127.0.0.1:8080");
            app.finish_copy(&ep, CopyOutcome::Unavailable);
            assert_eq!(app.status, "clipboard not available: 127.0.0.1:8080");
        }
        _ => panic!("expected a copy"),
    }
}

#[test]
fn mouse_clicks_select_sort_and_search() {
    let mut app = loaded(vec![entry(1, 1, "a"), entry(2, 2, "b"), entry(3, 3, "c")]);
    app.handle_mouse(MouseInput::LeftDown { column: 5, row: 4 }, 40);
    assert_eq!(app.cursor, 1);
    app.handle_mouse(MouseInput::ScrollDown, 40);
    assert_eq!(app.cursor, 2);
    app.handle_mouse(MouseInput::ScrollUp, 40);
    assert_eq!(app.cursor, 1);
    app.handle_mouse(MouseInput::LeftDown { column: 40, row: 2 }, 40);
    assert_eq!(app.sort_key, SortKey::Pid);
    app.handle_mouse(MouseInput::LeftDown { column: 40, row: 2 }, 40);
    assert!(app.sort_desc);
    app.handle_mouse(MouseInput::LeftDown { column: 0, row: 1 }, 40);
    assert!(app.filtering);
}

#[test]
fn truncation_and_padding() {
    assert_eq!(truncate_width("hello", 0), "");
    assert_eq!(truncate_width("hello", 10), "hello");
    assert_eq!(truncate_width("hello", 1), "h");
    assert_eq!(truncate_width("\u{65e5}\u{672c}", 1), " ");
    assert_eq!(truncate_width("\u{301}ab", 1), "\u{301}");
    assert_eq!(truncate_width("hello world", 6), "hello\u{2026}");
    assert_eq!(truncate_width("\u{65e5}\u{672c}\u{8a9e}", 4), "\u{65e5}\u{2026}");
    assert_eq!(pad_right("ab", 5), "ab   ");
    assert_eq!(pad_right("abcdef", 3), "abcdef");
    assert_eq!(pad_right("\u{65e5}", 4), "\u{65e5}  ");
}

#[test]
fn shortcut_bar_drops_items_when_narrow() {
    assert_eq!(shortcut_choice(200), vec![0, 1, 2, 3, 4, 5, 6, 7]);
    assert_eq!(shortcut_choice(40), vec![0, 1, 6, 7]);
    assert_eq!(shortcut_choice(10), vec![0, 6, 7]);
}

#[test]
fn row_and_detail_texts() {
    let app = loaded(vec![entry(80, 1, "nginx"), entry(443, 1, "nginx")]);
    let row = &app.rows[0];
    let parts = row_line(row, 100);
    assert_eq!(parts.lead, " \u{25b8} ");
    assert_eq!(parts.proto, "tcp ");
    assert_eq!(
        parts.rest,
        "     80  127.0.0.1                    1  -               nginx  +1"
    );
    let sel = selected_line(row, 80);
    assert_eq!(sel.chars().count(), 80);
    let details = detail_lines(&app.rows[0].entry, 100, None);
    assert_eq!(details[0], "SVC   http");
    assert_eq!(details[1], "PATH  /bin/nginx");
    assert_eq!(details[2], "CMD   nginx");
    assert_eq!(details[3], "CWD   /");
    assert_eq!(title_meta(2, 3, true, false, SortKey::Port, false), "  2/3  tcp  port\u{2191}");
    assert_eq!(confirm_text(&app.rows[0].entry), "\u{256d}\u{2500} Kill nginx (pid 1)?  y / n \u{2500}\u{256e}");
}
