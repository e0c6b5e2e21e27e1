//! Listing the processes that listen on TCP and UDP ports: the socket model,
//! filtering, sorting, grouping, the table and the command line, with the
//! decisions of the interactive view and of killing processes.
pub mod text;
pub mod net;
pub mod model;
pub mod services;
pub mod filter;
pub mod sort;
pub mod group;
pub mod sanitize;
pub mod cli;
pub mod format;
pub mod kill;
pub mod sys;
pub mod tui;

use vstd::prelude::*;
use crate::cli::{Config, ConfigView};
use crate::filter::{
    filter_port, filter_proto, filter_query, proto_wanted, query_keeps, unique_idents,
    unique_idents_of,
};
use crate::model::{views, Entry, EntryView, Ident};
use crate::text::{
    chars_of, dec_i64, dec_int, dec_nat, dec_u64, push_all, push_str, spec_to_lowercase,
    string_of, to_lowercase, trim, trim_str,
};

verus! {

/// An error that ends the program, with its exit code and message.
#[derive(Debug)]
pub struct ExitError {
    pub code: i32,
    pub msg: String,
}

impl ExitError {
    /// An exit error with the given code and message.
    pub fn new(code: i32, msg: &str) -> (r: Self)
        ensures
            r.code == code,
            r.msg@ == msg@,
    {
        ExitError { code, msg: string_of(chars_of(msg).as_slice()) }
    }
}

/// What `{:?}` prints for a string: the text quoted, with quotes,
/// backslashes and unprintable characters escaped.
pub uninterp spec fn str_debug(s: Seq<char>) -> Seq<char>;

/// A printable ASCII character that `{:?}` prints as itself.
pub open spec fn debug_plain(c: char) -> bool {
    0x20 <= (c as u32) <= 0x7e && c != '"' && c != '\\'
}

/// Formats a string with `{:?}` (`<str as Debug>::fmt`). The result is a
/// function of the text alone; text made only of printable ASCII characters
/// other than `"` and `\` comes back between double quotes, unchanged.
#[verifier::external_body]
fn debug_str(s: &str) -> (r: String)
    ensures
        r@ == str_debug(s@),
        (forall|k: int| 0 <= k < s@.len() ==> debug_plain(#[trigger] s@[k])) ==> r@ == seq!['"']
            + s@ + seq!['"'],
{
    format!("{:?}", s)
}

/// The message when nothing matched the port and/or query asked for.
pub open spec fn none_found_text(port: Option<u16>, query: Seq<char>) -> Seq<char> {
    match port {
        Some(p) => if query.len() > 0 {
            "no listeners on port "@ + dec_nat(p as nat) + " matching "@ + str_debug(query)
        } else {
            "no listeners on port "@ + dec_nat(p as nat)
        },
        None => if query.len() > 0 {
            "no listeners matching "@ + str_debug(query)
        } else {
            "no listeners"@
        },
    }
}

/// The message when nothing matched the port and/or query of `cfg`.
pub fn none_found(cfg: &Config) -> (r: String)
    ensures
        r@ == none_found_text(cfg.port, cfg.query@),
{
    let has_query = chars_of(cfg.query.as_str()).len() > 0;
    let mut v: Vec<char> = Vec::new();
    match cfg.port {
        Some(p) => {
            push_str(&mut v, "no listeners on port ");
            let d = dec_u64(p as u64);
            push_all(&mut v, &d);
            if has_query {
                push_str(&mut v, " matching ");
                let q = debug_str(cfg.query.as_str());
                push_str(&mut v, q.as_str());
            }
        },
        None => {
            if has_query {
                push_str(&mut v, "no listeners matching ");
                let q = debug_str(cfg.query.as_str());
                push_str(&mut v, q.as_str());
            } else {
                push_str(&mut v, "no listeners");
            }
        },
    }
    string_of(v.as_slice())
}

/// Decimal pids separated by `, `.
pub open spec fn pid_list(pids: Seq<i32>) -> Seq<char>
    decreases pids.len(),
{
    if pids.len() == 0 {
        seq![]
    } else if pids.len() == 1 {
        dec_int(pids[0] as int)
    } else {
        pid_list(pids.drop_last()) + ", "@ + dec_int(pids.last() as int)
    }
}

/// The question asked before killing: `Kill <n> process[es] [<pids>]? [y/N] `.
pub open spec fn kill_prompt_text(pids: Seq<i32>) -> Seq<char> {
    "Kill "@ + dec_nat(pids.len()) + " "@ + (if pids.len() == 1 {
        "process"@
    } else {
        "processes"@
    }) + " ["@ + pid_list(pids) + "]? [y/N] "@
}

/// The question asked before killing the processes `pids`.
pub fn kill_prompt(pids: &[i32]) -> (r: String)
    ensures
        r@ == kill_prompt_text(pids@),
{
    let mut list: Vec<char> = Vec::new();
    let mut i: usize = 0;
    while i < pids.len()
        invariant
            i <= pids@.len(),
            list@ == pid_list(pids@.take(i as int)),
        decreases pids.len() - i,
    {
        assert(pids@.take(i + 1).drop_last() =~= pids@.take(i as int));
        if i > 0 {
            push_str(&mut list, ", ");
        }
        let d = dec_i64(pids[i] as i64);
        push_all(&mut list, &d);
        i = i + 1;
    }
    assert(pids@.take(pids.len() as int) =~= pids@);
    let mut v: Vec<char> = Vec::new();
    push_str(&mut v, "Kill ");
    let n = dec_u64(pids.len() as u64);
    push_all(&mut v, &n);
    push_str(&mut v, " ");
    if pids.len() == 1 {
        push_str(&mut v, "process");
    } else {
        push_str(&mut v, "processes");
    }
    push_str(&mut v, " [");
    push_all(&mut v, &list);
    push_str(&mut v, "]? [y/N] ");
    string_of(v.as_slice())
}

/// The answer accepts: trimmed and lowercased, it is `y` or `yes`.
pub open spec fn answer_accepts(line: Seq<char>) -> bool {
    let t = spec_to_lowercase(trim(line));
    t == "y"@ || t == "yes"@
}

/// Whether the line typed at the kill question confirms it.
pub fn is_confirmed(line: &str) -> (r: bool)
    ensures
        r == answer_accepts(line@),
{
    let t = trim_str(line);
    let s = string_of(t.as_slice());
    let low = chars_of(to_lowercase(s.as_str()).as_str());
    crate::text::chars_eq_str(&low, "y") || crate::text::chars_eq_str(&low, "yes")
}

/// What the program does for a command line.
#[derive(Clone, Copy, PartialEq, Eq, Structural, Debug)]
pub enum RunMode {
    /// Print the usage.
    Help,
    /// Print the version.
    Version,
    /// Run the interactive view.
    Interactive,
    /// List the matching listeners, as a table or JSON, or kill them.
    Batch,
}

/// The mode of a command line: help and version first; the interactive view
/// when no port, JSON or kill was asked for and the output is a terminal.
pub open spec fn run_mode_of(cfg: ConfigView, stdout_tty: bool) -> RunMode {
    if cfg.help {
        RunMode::Help
    } else if cfg.version {
        RunMode::Version
    } else if cfg.port is None && !cfg.json && !cfg.kill && stdout_tty {
        RunMode::Interactive
    } else {
        RunMode::Batch
    }
}

/// What the program does for the command line `cfg`; `stdout_tty` tells
/// whether the standard output is a terminal.
pub fn run_mode(cfg: &Config, stdout_tty: bool) -> (r: RunMode)
    ensures
        r == run_mode_of(cfg@, stdout_tty),
{
    if cfg.help {
        RunMode::Help
    } else if cfg.version {
        RunMode::Version
    } else if cfg.port.is_none() && !cfg.json && !cfg.kill && stdout_tty {
        RunMode::Interactive
    } else {
        RunMode::Batch
    }
}

/// The entries that a command line asks for: those of its protocols, then
/// those on its port, then those matching its query.
pub open spec fn selected_entries(s: Seq<EntryView>, cfg: ConfigView) -> Seq<EntryView> {
    let a = s.filter(|e: EntryView| proto_wanted(e, cfg.tcp, cfg.udp));
    let b = match cfg.port {
        Some(p) => a.filter(|e: EntryView| e.port == p),
        None => a,
    };
    if cfg.query.len() > 0 {
        b.filter(|e: EntryView| query_keeps(e, cfg.query))
    } else {
        b
    }
}

/// The entries that the command line `cfg` asks for.
pub fn select_entries(entries: &[Entry], cfg: &Config) -> (r: Vec<Entry>)
    ensures
        views(r@) == selected_entries(views(entries@), cfg@),
{
    let a = filter_proto(entries, cfg.tcp, cfg.udp);
    let b = match cfg.port {
        Some(p) => filter_port(a.as_slice(), p),
        None => a,
    };
    if chars_of(cfg.query.as_str()).len() > 0 {
        filter_query(b.as_slice(), cfg.query.as_str())
    } else {
        b
    }
}

/// A listing that found nothing although a port or a query was given ends
/// with code 1 and the message of [`none_found`].
pub fn listing_error(cfg: &Config, found: usize) -> (r: Option<ExitError>)
    ensures
        found == 0 && (cfg.port is Some || cfg.query@.len() > 0) ==> (r matches Some(e) && e.code
            == 1 && e.msg@ == none_found_text(cfg.port, cfg.query@)),
        !(found == 0 && (cfg.port is Some || cfg.query@.len() > 0)) ==> r is None,
{
    if found == 0 && (cfg.port.is_some() || chars_of(cfg.query.as_str()).len() > 0) {
        Some(ExitError { code: 1, msg: none_found(cfg) })
    } else {
        None
    }
}

/// The processes to kill among the matching entries: their distinct
/// identities, in order; an error with code 1 when no entry has a process.
pub fn kill_targets(entries: &[Entry]) -> (r: Result<Vec<Ident>, ExitError>)
    ensures
        unique_idents_of(views(entries@)).len() > 0 ==> (r matches Ok(ids) && ids@
            == unique_idents_of(views(entries@))),
        unique_idents_of(views(entries@)).len() == 0 ==> (r matches Err(e) && e.code == 1 && e.msg@
            == "no process ids to kill (try as root)"@),
{
    let ids = unique_idents(entries);
    if ids.len() == 0 {
        Err(ExitError::new(1, "no process ids to kill (try as root)"))
    } else {
        Ok(ids)
    }
}

} // verus!
