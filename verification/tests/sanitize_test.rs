use lsoff_rs::format::format_table;
use lsoff_rs::model::{Entry, Proto};
use lsoff_rs::sanitize::{dash, display_cell, sanitize_display};

#[test]
fn test_sanitize_display() {
    assert_eq!(sanitize_display("hello"), "hello");
    assert_eq!(sanitize_display("hello\x1b[31mworld\x1b[0m"), "helloworld");
    assert_eq!(sanitize_display("hello\x07world\t!"), "hello world !");
    assert_eq!(sanitize_display(""), "");
}

#[test]
fn test_table_strips_ansi() {
    let entries = vec![Entry {
        proto: Proto::Tcp,
        port: 8080,
        addr: "127.0.0.1".to_string(),
        pid: 10,
        name: "malicious\x1b[31m\x1b[2J".to_string(),
        path: "/bin/test".to_string(),
        cmdline: "test --arg\x07".to_string(),
        cwd: "/".to_string(),
        project: String::new(),
        start: 0,
    }];

    let s = format_table(&entries, None);
    assert!(!s.contains("\x1b["));
    assert!(!s.contains('\x07'));
    assert!(s.contains("malicious"));
}


#[test]
fn sanitize_strips_other_escapes() {
    // OSC ended by BEL, then by ST
    assert_eq!(sanitize_display("a\x1b]0;title\x07b"), "ab");
    assert_eq!(sanitize_display("a\x1b]0;title\x1b\\b"), "ab");
    // DCS ended by ST
    assert_eq!(sanitize_display("a\x1bPdata\x1b\\b"), "ab");
    // an escape with an intermediate byte and a final byte
    assert_eq!(sanitize_display("a\x1b(Bb"), "ab");
    // the byte after ESC is skipped and the next one is taken as the final byte
    assert_eq!(sanitize_display("a\x1b7b"), "a");
    // ESC at the end is dropped
    assert_eq!(sanitize_display("abc\x1b"), "abc");
    // C1 control and DEL become spaces
    assert_eq!(sanitize_display("a\u{85}b\x7fc"), "a b c");
    // non-ASCII text is kept
    assert_eq!(sanitize_display("caf\u{e9} \u{1F600}"), "caf\u{e9} \u{1F600}");
}

#[test]
fn display_cell_and_dash() {
    assert_eq!(display_cell("  x  "), "x");
    assert_eq!(display_cell(" \x1b[0m "), "-");
    assert_eq!(display_cell(""), "-");
    assert_eq!(dash(""), "-");
    assert_eq!(dash("a"), "a");
}
