//! Command-line arguments.
use vstd::prelude::*;
use crate::text::{
    chars_eq_str, chars_of, parse_unsigned, parse_unsigned_chars, push_all, push_str,
    starts_with, starts_with_str, string_of,
};

verus! {

/// The program's version.
pub const VERSION: &'static str = "0.1.3";

/// The help text.
pub const USAGE: &'static str = "lsoff-rs - list listening TCP/UDP ports\n\n\
Usage:\n  \
  lsoff-rs              interactive TUI (table if stdout is not a TTY)\n  \
  lsoff-rs <port>       show processes listening on port\n  \
  lsoff-rs <query>      search by name, project, path, pid, or port substring\n  \
  lsoff-rs -k <port>    kill those processes (asks for confirmation)\n  \
  lsoff-rs -h           help\n  \
  lsoff-rs -v           version\n\n\
Flags:\n  \
  -t, --tcp          TCP only\n  \
  -u, --udp          UDP only\n  \
  -q, --query <str>  search (name, project, path, pid, port); words are AND\n  \
  -j, --json         JSON output\n  \
  -k, --kill         kill processes on <port>\n  \
  -y, --yes          do not ask before -k (required if stdin is not a TTY)\n\n\
TUI:\n  \
  / or click Search      filter as you type\n  \
  \u{2191}/\u{2193} / j/k / wheel      move\n  \
  click header           sort by column\n  \
  y                      copy addr:port\n  \
  a                      auto-refresh\n  \
  s / S                  sort / reverse\n  \
  enter / space          expand or collapse a process\n  \
  h / l                  collapse / expand\n  \
  esc / ctrl+c           clear search\n  \
  r                      refresh\n  \
  x                      kill selected process (asks for confirmation)\n  \
  q                      quit\n";

/// Parsed command-line options.
#[derive(Debug, Clone, PartialEq, Eq)]
pub struct Config {
    pub tcp: bool,
    pub udp: bool,
    pub json: bool,
    pub kill: bool,
    pub yes: bool,
    pub help: bool,
    pub version: bool,
    pub port: Option<u16>,
    pub query: String,
}

/// The mathematical value of a [`Config`].
pub ghost struct ConfigView {
    pub tcp: bool,
    pub udp: bool,
    pub json: bool,
    pub kill: bool,
    pub yes: bool,
    pub help: bool,
    pub version: bool,
    pub port: Option<u16>,
    pub query: Seq<char>,
}

impl View for Config {
    type V = ConfigView;

    open spec fn view(&self) -> ConfigView {
        ConfigView {
            tcp: self.tcp,
            udp: self.udp,
            json: self.json,
            kill: self.kill,
            yes: self.yes,
            help: self.help,
            version: self.version,
            port: self.port,
            query: self.query@,
        }
    }
}

/// The options when no argument is given.
pub open spec fn default_config() -> ConfigView {
    ConfigView {
        tcp: false,
        udp: false,
        json: false,
        kill: false,
        yes: false,
        help: false,
        version: false,
        port: None,
        query: seq![],
    }
}

impl Default for Config {
    fn default() -> (r: Self)
        ensures
            r@ == default_config(),
    {
        Config {
            tcp: false,
            udp: false,
            json: false,
            kill: false,
            yes: false,
            help: false,
            version: false,
            port: None,
            query: String::new(),
        }
    }
}

/// The help text.
pub open spec fn usage_text() -> Seq<char> {
    USAGE@
}

/// A message followed by a blank line and the help text.
pub open spec fn with_usage(msg: Seq<char>) -> Seq<char> {
    msg + "\n\n"@ + usage_text()
}

/// Where the left-to-right reading of the arguments stops.
pub ghost enum Scan {
    /// Help or version was asked for: the options read so far.
    Stop(ConfigView),
    /// A flag was wrong: the message.
    Fail(Seq<char>),
    /// All arguments were read: the options and the positional arguments.
    Done(ConfigView, Seq<Seq<char>>),
}

/// Reads the arguments from position `i` on, with the options `cfg` and the
/// positional arguments `pos` read before it.
pub open spec fn scan_args(
    args: Seq<Seq<char>>,
    i: int,
    cfg: ConfigView,
    pos: Seq<Seq<char>>,
) -> Scan
    decreases args.len() - i,
{
    if i < 0 || i >= args.len() {
        Scan::Done(cfg, pos)
    } else {
        let a = args[i];
        if a == "-h"@ || a == "--help"@ {
            Scan::Stop(ConfigView { help: true, ..cfg })
        } else if a == "-v"@ || a == "--version"@ {
            Scan::Stop(ConfigView { version: true, ..cfg })
        } else if a == "-t"@ || a == "--tcp"@ {
            scan_args(args, i + 1, ConfigView { tcp: true, ..cfg }, pos)
        } else if a == "-u"@ || a == "--udp"@ {
            scan_args(args, i + 1, ConfigView { udp: true, ..cfg }, pos)
        } else if a == "-j"@ || a == "--json"@ {
            scan_args(args, i + 1, ConfigView { json: true, ..cfg }, pos)
        } else if a == "-k"@ || a == "--kill"@ {
            scan_args(args, i + 1, ConfigView { kill: true, ..cfg }, pos)
        } else if a == "-y"@ || a == "--yes"@ {
            scan_args(args, i + 1, ConfigView { yes: true, ..cfg }, pos)
        } else if a == "-q"@ || a == "--query"@ {
            if i + 1 >= args.len() {
                Scan::Fail(with_usage(a + " requires a value"@))
            } else {
                scan_args(args, i + 2, ConfigView { query: args[i + 1], ..cfg }, pos)
            }
        } else if starts_with(a, "--query="@) {
            scan_args(
                args,
                i + 1,
                ConfigView { query: a.skip("--query="@.len() as int), ..cfg },
                pos,
            )
        } else if starts_with(a, "-q="@) {
            scan_args(args, i + 1, ConfigView { query: a.skip("-q="@.len() as int), ..cfg }, pos)
        } else if a.len() > 0 && a[0] == '-' {
            Scan::Fail(with_usage("unknown flag "@ + a))
        } else {
            scan_args(args, i + 1, cfg, pos.push(a))
        }
    }
}

/// The checks after all arguments were read: at most one positional
/// argument, which is a port when it parses as one and a query otherwise;
/// `-k` needs a port and excludes `--json`; `-y` needs `-k`.
pub open spec fn finish_args(cfg: ConfigView, pos: Seq<Seq<char>>) -> Result<ConfigView, Seq<char>> {
    if pos.len() > 1 {
        Err(with_usage("too many arguments"@))
    } else {
        let placed: Result<ConfigView, Seq<char>> = if pos.len() == 1 {
            match parse_unsigned(pos[0], 10, 65535) {
                Some(p) => Ok(ConfigView { port: Some(p as u16), ..cfg }),
                None => if cfg.query.len() > 0 {
                    Err(
                        with_usage(
                            "too many search terms (use quotes: \""@ + cfg.query + " "@ + pos[0]
                                + "\")"@,
                        ),
                    )
                } else {
                    Ok(ConfigView { query: pos[0], ..cfg })
                },
            }
        } else {
            Ok(cfg)
        };
        match placed {
            Err(m) => Err(m),
            Ok(c) => if c.kill && c.port is None {
                Err(with_usage("-k requires a port"@))
            } else if c.kill && c.json {
                Err(with_usage("cannot combine -k and --json"@))
            } else if c.yes && !c.kill {
                Err(with_usage("-y can only be used with -k"@))
            } else {
                Ok(c)
            },
        }
    }
}

/// What `parse_args` gives for the arguments.
pub open spec fn parsed_args(args: Seq<Seq<char>>) -> Result<ConfigView, Seq<char>> {
    match scan_args(args, 0, default_config(), seq![]) {
        Scan::Stop(c) => Ok(c),
        Scan::Fail(m) => Err(m),
        Scan::Done(c, pos) => finish_args(c, pos),
    }
}

/// The option that flag number `f` sets: 0 TCP only, 1 UDP only, 2 JSON,
/// 3 kill, 4 kill without asking.
pub open spec fn option_set(c: ConfigView, f: int) -> bool {
    if f == 0 {
        c.tcp
    } else if f == 1 {
        c.udp
    } else if f == 2 {
        c.json
    } else if f == 3 {
        c.kill
    } else {
        c.yes
    }
}

/// The argument `a` is flag number `f`, in its short or its long spelling.
pub open spec fn is_flag_arg(a: Seq<char>, f: int) -> bool {
    if f == 0 {
        a == "-t"@ || a == "--tcp"@
    } else if f == 1 {
        a == "-u"@ || a == "--udp"@
    } else if f == 2 {
        a == "-j"@ || a == "--json"@
    } else if f == 3 {
        a == "-k"@ || a == "--kill"@
    } else {
        a == "-y"@ || a == "--yes"@
    }
}

proof fn lemma_flag_from(args: Seq<Seq<char>>, i: int, f: int)
    requires
        0 <= i < args.len(),
    ensures
        (exists|j: int| i <= j < args.len() && is_flag_arg(#[trigger] args[j], f)) <==> (is_flag_arg(
            args[i],
            f,
        ) || exists|j: int| i + 1 <= j < args.len() && is_flag_arg(#[trigger] args[j], f)),
{
    if exists|j: int| i <= j < args.len() && is_flag_arg(#[trigger] args[j], f) {
        let j = choose|j: int| i <= j < args.len() && is_flag_arg(#[trigger] args[j], f);
        if j != i {
            assert(i + 1 <= j < args.len() && is_flag_arg(args[j], f));
        }
    }
    if is_flag_arg(args[i], f) {
        assert(i <= i < args.len() && is_flag_arg(args[i], f));
    }
}

proof fn lemma_flag_chars(a: Seq<char>)
    ensures
        a == "-h"@ ==> a.len() == 2 && a[1] == 'h',
        a == "--help"@ ==> a.len() == 6 && a[1] == '-' && a[2] == 'h',
        a == "-v"@ ==> a.len() == 2 && a[1] == 'v',
        a == "--version"@ ==> a.len() == 9 && a[1] == '-' && a[2] == 'v',
        a == "-t"@ ==> a.len() == 2 && a[1] == 't',
        a == "--tcp"@ ==> a.len() == 5 && a[1] == '-' && a[2] == 't',
        a == "-u"@ ==> a.len() == 2 && a[1] == 'u',
        a == "--udp"@ ==> a.len() == 5 && a[1] == '-' && a[2] == 'u',
        a == "-j"@ ==> a.len() == 2 && a[1] == 'j',
        a == "--json"@ ==> a.len() == 6 && a[1] == '-' && a[2] == 'j',
        a == "-k"@ ==> a.len() == 2 && a[1] == 'k',
        a == "--kill"@ ==> a.len() == 6 && a[1] == '-' && a[2] == 'k',
        a == "-y"@ ==> a.len() == 2 && a[1] == 'y',
        a == "--yes"@ ==> a.len() == 5 && a[1] == '-' && a[2] == 'y',
        a == "-q"@ ==> a.len() == 2 && a[1] == 'q',
        a == "--query"@ ==> a.len() == 7 && a[1] == '-' && a[2] == 'q',
        starts_with(a, "--query="@) ==> a.len() >= 8 && a[1] == '-' && a[2] == 'q',
        starts_with(a, "-q="@) ==> a.len() >= 3 && a[1] == 'q' && a[2] == '=',
{
    reveal_strlit("-h");
    reveal_strlit("--help");
    reveal_strlit("-v");
    reveal_strlit("--version");
    reveal_strlit("-t");
    reveal_strlit("--tcp");
    reveal_strlit("-u");
    reveal_strlit("--udp");
    reveal_strlit("-j");
    reveal_strlit("--json");
    reveal_strlit("-k");
    reveal_strlit("--kill");
    reveal_strlit("-y");
    reveal_strlit("--yes");
    reveal_strlit("-q");
    reveal_strlit("--query");
    reveal_strlit("--query=");
    reveal_strlit("-q=");
    if starts_with(a, "--query="@) {
        assert(a.take(8)[1] == a[1] && a.take(8)[2] == a[2]);
    }
    if starts_with(a, "-q="@) {
        assert(a.take(3)[1] == a[1] && a.take(3)[2] == a[2]);
    }
}

proof fn lemma_scan_flag(args: Seq<Seq<char>>, i: int, cfg: ConfigView, pos: Seq<Seq<char>>, f: int)
    requires
        0 <= f < 5,
        0 <= i,
        forall|j: int| 0 <= j < args.len() ==> args[j] != "-q"@ && args[j] != "--query"@,
    ensures
        scan_args(args, i, cfg, pos) matches Scan::Done(c, _) ==> (option_set(c, f) <==> (option_set(
            cfg,
            f,
        ) || exists|j: int| i <= j < args.len() && is_flag_arg(#[trigger] args[j], f))),
        scan_args(args, i, cfg, pos) matches Scan::Stop(c) ==> c.help || c.version,
    decreases args.len() - i,
{
    reveal_strlit("-h");
    reveal_strlit("--help");
    reveal_strlit("-v");
    reveal_strlit("--version");
    reveal_strlit("-t");
    reveal_strlit("--tcp");
    reveal_strlit("-u");
    reveal_strlit("--udp");
    reveal_strlit("-j");
    reveal_strlit("--json");
    reveal_strlit("-k");
    reveal_strlit("--kill");
    reveal_strlit("-y");
    reveal_strlit("--yes");
    reveal_strlit("-q");
    reveal_strlit("--query");
    reveal_strlit("--query=");
    reveal_strlit("-q=");
    if i < args.len() {
        lemma_flag_from(args, i, f);
        let a = args[i];
        lemma_flag_chars(a);
        if a == "-h"@ || a == "--help"@ || a == "-v"@ || a == "--version"@ {
        } else if a == "-t"@ || a == "--tcp"@ {
            lemma_scan_flag(args, i + 1, ConfigView { tcp: true, ..cfg }, pos, f);
        } else if a == "-u"@ || a == "--udp"@ {
            lemma_scan_flag(args, i + 1, ConfigView { udp: true, ..cfg }, pos, f);
        } else if a == "-j"@ || a == "--json"@ {
            lemma_scan_flag(args, i + 1, ConfigView { json: true, ..cfg }, pos, f);
        } else if a == "-k"@ || a == "--kill"@ {
            lemma_scan_flag(args, i + 1, ConfigView { kill: true, ..cfg }, pos, f);
        } else if a == "-y"@ || a == "--yes"@ {
            lemma_scan_flag(args, i + 1, ConfigView { yes: true, ..cfg }, pos, f);
        } else if starts_with(a, "--query="@) {
            lemma_scan_flag(
                args,
                i + 1,
                ConfigView { query: a.skip("--query="@.len() as int), ..cfg },
                pos,
                f,
            );
        } else if starts_with(a, "-q="@) {
            lemma_scan_flag(args, i + 1, ConfigView { query: a.skip("-q="@.len() as int), ..cfg }, pos, f);
        } else {
            lemma_scan_flag(args, i + 1, cfg, pos.push(a), f);
        }
    }
}

/// Each of `-t`/`--tcp`, `-u`/`--udp`, `-j`/`--json`, `-k`/`--kill` and
/// `-y`/`--yes` sets its own option, in either spelling, and nothing else
/// does: when the arguments are accepted (and ask for neither help nor the
/// version), an option is on exactly when one of its two spellings was given.
/// (A query given with `-q`/`--query` is left out: its value is taken as it
/// is, even when it looks like a flag.)
pub proof fn law_flags_set_options(args: Seq<Seq<char>>)
    requires
        forall|j: int| 0 <= j < args.len() ==> args[j] != "-q"@ && args[j] != "--query"@,
    ensures
        match parsed_args(args) {
            Ok(c) => !c.help && !c.version ==> {
            &&& c.tcp <==> exists|j: int|
                0 <= j < args.len() && (args[j] == "-t"@ || args[j] == "--tcp"@)
            &&& c.udp <==> exists|j: int|
                0 <= j < args.len() && (args[j] == "-u"@ || args[j] == "--udp"@)
            &&& c.json <==> exists|j: int|
                0 <= j < args.len() && (args[j] == "-j"@ || args[j] == "--json"@)
            &&& c.kill <==> exists|j: int|
                0 <= j < args.len() && (args[j] == "-k"@ || args[j] == "--kill"@)
            &&& c.yes <==> exists|j: int|
                0 <= j < args.len() && (args[j] == "-y"@ || args[j] == "--yes"@)
            },
            Err(_) => true,
        },
{
    let (c0, p0) = (default_config(), Seq::<Seq<char>>::empty());
    lemma_scan_flag(args, 0, c0, p0, 0);
    lemma_scan_flag(args, 0, c0, p0, 1);
    lemma_scan_flag(args, 0, c0, p0, 2);
    lemma_scan_flag(args, 0, c0, p0, 3);
    lemma_scan_flag(args, 0, c0, p0, 4);
    match scan_args(args, 0, c0, p0) {
        Scan::Done(c, pos) => {
            match finish_args(c, pos) {
                Ok(d) => {
                    assert(d.tcp == c.tcp && d.udp == c.udp && d.json == c.json && d.kill == c.kill
                        && d.yes == c.yes);
                },
                Err(_) => {},
            }
        },
        _ => {},
    }
}

proof fn lemma_scan_swap(
    args: Seq<Seq<char>>,
    b: Seq<Seq<char>>,
    j: int,
    f: int,
    i: int,
    cfg: ConfigView,
    pos: Seq<Seq<char>>,
)
    requires
        0 <= j < args.len(),
        b.len() == args.len(),
        0 <= f < 5,
        forall|k: int| 0 <= k < args.len() && k != j ==> b[k] == args[k],
        is_flag_arg(args[j], f),
        is_flag_arg(b[j], f),
        j == 0 || (args[j - 1] != "-q"@ && args[j - 1] != "--query"@),
        0 <= i,
    ensures
        scan_args(b, i, cfg, pos) == scan_args(args, i, cfg, pos),
    decreases args.len() - i,
{
    reveal_strlit("-h");
    reveal_strlit("--help");
    reveal_strlit("-v");
    reveal_strlit("--version");
    reveal_strlit("-t");
    reveal_strlit("--tcp");
    reveal_strlit("-u");
    reveal_strlit("--udp");
    reveal_strlit("-j");
    reveal_strlit("--json");
    reveal_strlit("-k");
    reveal_strlit("--kill");
    reveal_strlit("-y");
    reveal_strlit("--yes");
    reveal_strlit("-q");
    reveal_strlit("--query");
    reveal_strlit("--query=");
    reveal_strlit("-q=");
    if i < args.len() {
        let a = args[i];
        lemma_flag_chars(a);
        lemma_flag_chars(b[i]);
        if i == j {
            if f == 0 {
                lemma_scan_swap(args, b, j, f, i + 1, ConfigView { tcp: true, ..cfg }, pos);
            } else if f == 1 {
                lemma_scan_swap(args, b, j, f, i + 1, ConfigView { udp: true, ..cfg }, pos);
            } else if f == 2 {
                lemma_scan_swap(args, b, j, f, i + 1, ConfigView { json: true, ..cfg }, pos);
            } else if f == 3 {
                lemma_scan_swap(args, b, j, f, i + 1, ConfigView { kill: true, ..cfg }, pos);
            } else {
                lemma_scan_swap(args, b, j, f, i + 1, ConfigView { yes: true, ..cfg }, pos);
            }
        } else {
            assert(b[i] == a);
            if a == "-h"@ || a == "--help"@ || a == "-v"@ || a == "--version"@ {
            } else if a == "-t"@ || a == "--tcp"@ {
                lemma_scan_swap(args, b, j, f, i + 1, ConfigView { tcp: true, ..cfg }, pos);
            } else if a == "-u"@ || a == "--udp"@ {
                lemma_scan_swap(args, b, j, f, i + 1, ConfigView { udp: true, ..cfg }, pos);
            } else if a == "-j"@ || a == "--json"@ {
                lemma_scan_swap(args, b, j, f, i + 1, ConfigView { json: true, ..cfg }, pos);
            } else if a == "-k"@ || a == "--kill"@ {
                lemma_scan_swap(args, b, j, f, i + 1, ConfigView { kill: true, ..cfg }, pos);
            } else if a == "-y"@ || a == "--yes"@ {
                lemma_scan_swap(args, b, j, f, i + 1, ConfigView { yes: true, ..cfg }, pos);
            } else if a == "-q"@ || a == "--query"@ {
                if i + 1 < args.len() {
                    assert(i + 1 != j);
                    assert(b[i + 1] == args[i + 1]);
                    lemma_scan_swap(args, b, j, f, i + 2, ConfigView { query: args[i + 1], ..cfg }, pos);
                }
            } else if starts_with(a, "--query="@) {
                lemma_scan_swap(
                    args,
                    b,
                    j,
                    f,
                    i + 1,
                    ConfigView { query: a.skip("--query="@.len() as int), ..cfg },
                    pos,
                );
            } else if starts_with(a, "-q="@) {
                lemma_scan_swap(
                    args,
                    b,
                    j,
                    f,
                    i + 1,
                    ConfigView { query: a.skip("-q="@.len() as int), ..cfg },
                    pos,
                );
            } else if a.len() > 0 && a[0] == '-' {
            } else {
                lemma_scan_swap(args, b, j, f, i + 1, cfg, pos.push(a));
            }
        }
    }
}

/// The two spellings of a flag mean the same: writing `--tcp`, `--udp`,
/// `--json`, `--kill` or `--yes` in place of `-t`, `-u`, `-j`, `-k` or `-y`
/// (or the other way round) leaves the result of the parse unchanged, for
/// any argument that does not follow `-q`/`--query` (whose value is taken as
/// it is).
pub proof fn law_flag_spellings_agree(args: Seq<Seq<char>>, j: int, other: Seq<char>, f: int)
    requires
        0 <= j < args.len(),
        0 <= f < 5,
        is_flag_arg(args[j], f),
        is_flag_arg(other, f),
        j == 0 || (args[j - 1] != "-q"@ && args[j - 1] != "--query"@),
    ensures
        parsed_args(args.update(j, other)) == parsed_args(args),
{
    lemma_scan_swap(args, args.update(j, other), j, f, 0, default_config(), seq![]);
}

/// The views of a sequence of string slices.
pub open spec fn arg_views(args: Seq<&str>) -> Seq<Seq<char>> {
    args.map_values(|a: &str| a@)
}

/// Builds an error message from characters.
fn message(v: &Vec<char>) -> (r: String)
    ensures
        r@ == v@,
{
    string_of(v.as_slice())
}

/// `msg`, a blank line and the help text.
fn usage_message(msg: &Vec<char>) -> (r: String)
    ensures
        r@ == with_usage(msg@),
{
    let mut v: Vec<char> = Vec::new();
    push_all(&mut v, msg);
    push_str(&mut v, "\n\n");
    push_str(&mut v, USAGE);
    assert(v@ =~= with_usage(msg@));
    message(&v)
}

/// Whether `a` is one of the two spellings of a flag.
fn is_flag(a: &Vec<char>, short: &str, long: &str) -> (r: bool)
    ensures
        r == (a@ == short@ || a@ == long@),
{
    chars_eq_str(a, short) || chars_eq_str(a, long)
}

/// Parses CLI arguments following lsoff conventions.
///
/// Returns an error message, followed by a blank line and the usage text,
/// if the arguments are invalid.
pub fn parse_args(args: &[&str]) -> (r: Result<Config, String>)
    ensures
        match r {
            Ok(c) => parsed_args(arg_views(args@)) == Ok::<ConfigView, Seq<char>>(c@),
            Err(m) => parsed_args(arg_views(args@)) == Err::<ConfigView, Seq<char>>(m@),
        },
        r matches Ok(c) ==> (!c.help && !c.version ==> (c.kill ==> c.port is Some) && !(c.kill
            && c.json) && (c.yes ==> c.kill)),
{
    let ghost av = arg_views(args@);
    let mut cfg = Config::default();
    let mut positional: Vec<Vec<char>> = Vec::new();
    let mut i: usize = 0;
    assert(cfg@ == default_config());
    assert(positional@.map_values(|p: Vec<char>| p@) =~= Seq::<Seq<char>>::empty());
    while i < args.len()
        invariant
            i <= args.len(),
            av == arg_views(args@),
            av.len() == args.len(),
            scan_args(av, 0, default_config(), seq![]) == scan_args(
                av,
                i as int,
                cfg@,
                positional@.map_values(|p: Vec<char>| p@),
            ),
        decreases args.len() - i,
    {
        let ghost pv = positional@.map_values(|p: Vec<char>| p@);
        let a = chars_of(args[i]);
        assert(av[i as int] == a@);
        if is_flag(&a, "-h", "--help") {
            cfg.help = true;
            return Ok(cfg);
        }
        if is_flag(&a, "-v", "--version") {
            cfg.version = true;
            return Ok(cfg);
        }
        if is_flag(&a, "-t", "--tcp") {
            cfg.tcp = true;
        } else if is_flag(&a, "-u", "--udp") {
            cfg.udp = true;
        } else if is_flag(&a, "-j", "--json") {
            cfg.json = true;
        } else if is_flag(&a, "-k", "--kill") {
            cfg.kill = true;
        } else if is_flag(&a, "-y", "--yes") {
            cfg.yes = true;
        } else if is_flag(&a, "-q", "--query") {
            if i + 1 >= args.len() {
                let mut m = a.clone();
                push_str(&mut m, " requires a value");
                return Err(usage_message(&m));
            }
            i = i + 1;
            cfg.query = string_of(chars_of(args[i]).as_slice());
        } else if starts_with_str(&a, "--query=") {
            let skip = chars_of("--query=").len();
            let mut q: Vec<char> = Vec::new();
            let mut k = skip;
            while k < a.len()
                invariant
                    skip <= k <= a.len(),
                    q@ == a@.subrange(skip as int, k as int),
                decreases a.len() - k,
            {
                q.push(a[k]);
                k = k + 1;
                assert(q@ =~= a@.subrange(skip as int, k as int));
            }
            assert(q@ =~= a@.skip("--query="@.len() as int));
            cfg.query = string_of(q.as_slice());
        } else if starts_with_str(&a, "-q=") {
            let skip = chars_of("-q=").len();
            let mut q: Vec<char> = Vec::new();
            let mut k = skip;
            while k < a.len()
                invariant
                    skip <= k <= a.len(),
                    q@ == a@.subrange(skip as int, k as int),
                decreases a.len() - k,
            {
                q.push(a[k]);
                k = k + 1;
                assert(q@ =~= a@.subrange(skip as int, k as int));
            }
            assert(q@ =~= a@.skip("-q="@.len() as int));
            cfg.query = string_of(q.as_slice());
        } else if a.len() > 0 && a[0] == '-' {
            let mut m: Vec<char> = Vec::new();
            push_str(&mut m, "unknown flag ");
            push_all(&mut m, &a);
            return Err(usage_message(&m));
        } else {
            positional.push(a);
            assert(positional@.map_values(|p: Vec<char>| p@) =~= pv.push(av[i as int]));
        }
        i = i + 1;
    }
    let ghost pv = positional@.map_values(|p: Vec<char>| p@);
    if positional.len() > 1 {
        let m = chars_of("too many arguments");
        return Err(usage_message(&m));
    }
    if positional.len() == 1 {
        let arg = &positional[0];
        assert(pv[0] == arg@);
        match parse_unsigned_chars(arg, 10, 65535) {
            Some(p) => {
                cfg.port = Some(p as u16);
            },
            None => {
                if chars_of(cfg.query.as_str()).len() > 0 {
                    let mut m: Vec<char> = Vec::new();
                    push_str(&mut m, "too many search terms (use quotes: \"");
                    push_str(&mut m, cfg.query.as_str());
                    push_str(&mut m, " ");
                    push_all(&mut m, arg);
                    push_str(&mut m, "\")");
                    assert(m@ =~= "too many search terms (use quotes: \""@ + cfg.query@ + " "@
                        + arg@ + "\")"@);
                    return Err(usage_message(&m));
                }
                cfg.query = string_of(arg.as_slice());
            },
        }
    }
    if cfg.kill && cfg.port.is_none() {
        let m = chars_of("-k requires a port");
        return Err(usage_message(&m));
    }
    if cfg.kill && cfg.json {
        return Err(usage_message(&chars_of("cannot combine -k and --json")));
    }
    if cfg.yes && !cfg.kill {
        return Err(usage_message(&chars_of("-y can only be used with -k")));
    }
    Ok(cfg)
}

/// The help text.
pub fn usage() -> (r: &'static str)
    ensures
        r@ == usage_text(),
{
    USAGE
}

} // verus!
