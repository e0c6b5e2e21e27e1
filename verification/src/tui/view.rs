//! The text of the interactive view: display widths, truncation and padding,
//! the table rows, the details of the selection, the title and the shortcut
//! bar. Colours and drawing are left to the caller.
use vstd::prelude::*;
use crate::format::{home_view, padded, spaces};
use crate::group::{fold_mark, RowView, ViewRow};
use crate::model::{proto_name, short_cwd, short_cwd_text, sort_key_name, Entry, EntryView, SortKey};
use crate::sanitize::{dash, dash_text, sanitize_display, sanitized};
use crate::services::{alias_texts, search_terms, service_name, service_name_of};
use crate::text::{chars_of, dec_int, dec_nat, dec_u64, dec_i64, owned, push_all, push_str, string_of};

verus! {

// ---------------------------------------------------------------------------
// Display widths
// ---------------------------------------------------------------------------

/// The display width of a character (`UnicodeWidthChar::width`), `None` for
/// control characters.
pub uninterp spec fn char_width(c: char) -> Option<nat>;

/// The display width of a text (`UnicodeWidthStr::width`), which accounts
/// for sequences that join into one glyph.
pub uninterp spec fn str_width(s: Seq<char>) -> nat;

/// The width of one character as counted when truncating: 0 for control
/// characters.
pub open spec fn char_cols(c: char) -> nat {
    match char_width(c) {
        Some(w) => w,
        None => 0,
    }
}

/// A printable ASCII character.
pub open spec fn is_printable_ascii(c: char) -> bool {
    0x20 <= (c as u32) < 0x7f
}

/// The display width of a character (`UnicodeWidthChar::width` of
/// unicode-width). Characters below U+0020 and from U+007F to U+009F have
/// none; printable ASCII is one column; any other character has a width of
/// at most 3 columns, from the crate's tables.
#[verifier::external_body]
fn char_width_of(c: char) -> (r: Option<usize>)
    ensures
        match r {
            Some(w) => char_width(c) == Some(w as nat),
            None => char_width(c) is None,
        },
        (c as u32) < 0x20 ==> r is None,
        is_printable_ascii(c) ==> r == Some(1usize),
        0x7f <= (c as u32) < 0xa0 ==> r is None,
        (c as u32) >= 0xa0 ==> r is Some,
        r matches Some(w) ==> w <= 3,
{
    unicode_width::UnicodeWidthChar::width(c)
}

/// The display width of a text (`UnicodeWidthStr::width` of unicode-width).
/// Printable ASCII text is as wide as it is long; a single character is at
/// most 3 columns wide.
#[verifier::external_body]
fn str_width_of(s: &str) -> (r: usize)
    ensures
        r == str_width(s@),
        (forall|k: int| 0 <= k < s@.len() ==> is_printable_ascii(#[trigger] s@[k])) ==> r
            == s@.len(),
        s@.len() == 1 ==> r <= 3,
{
    unicode_width::UnicodeWidthStr::width(s)
}

/// The number of leading characters, from `i` on, that fit in `budget`
/// columns when `used` columns are taken already.
pub open spec fn fit_len(s: Seq<char>, i: int, used: nat, budget: nat) -> int
    decreases s.len() - i,
{
    if i < 0 || i >= s.len() {
        i
    } else if used + char_cols(s[i]) > budget {
        i
    } else {
        fit_len(s, i + 1, used + char_cols(s[i]), budget)
    }
}

/// A text cut to `max` columns: unchanged when it fits; when only one
/// column is available, its first character unless that is wider than one
/// column, and a space then; else the characters that fit in one column less
/// followed by `…`.
pub open spec fn truncated(s: Seq<char>, max: nat) -> Seq<char> {
    if max == 0 {
        seq![]
    } else if str_width(s) <= max {
        s
    } else if max <= 1 {
        if s.len() > 0 && char_cols(s[0]) <= 1 {
            seq![s[0]]
        } else {
            seq![' ']
        }
    } else {
        s.take(fit_len(s, 0, 0, (max - 1) as nat)) + seq!['\u{2026}']
    }
}

/// The columns that a text takes when its characters are counted one by
/// one, as truncation counts them.
pub open spec fn cols(s: Seq<char>) -> nat
    decreases s.len(),
{
    if s.len() == 0 {
        0
    } else {
        cols(s.drop_last()) + char_cols(s.last())
    }
}

proof fn lemma_fit_len(s: Seq<char>, i: int, used: nat, budget: nat)
    requires
        0 <= i <= s.len(),
        used == cols(s.take(i)),
        used <= budget,
    ensures
        i <= fit_len(s, i, used, budget) <= s.len(),
        cols(s.take(fit_len(s, i, used, budget))) <= budget,
    decreases s.len() - i,
{
    if i < s.len() && used + char_cols(s[i]) <= budget {
        assert(s.take(i + 1).drop_last() =~= s.take(i));
        lemma_fit_len(s, i + 1, used + char_cols(s[i]), budget);
    }
}

/// A text too wide for `max` columns (at least two) is cut to a prefix
/// whose characters take at most `max - 1` columns, followed by `…`.
pub proof fn law_truncated_fits(s: Seq<char>, max: nat)
    requires
        max >= 2,
        str_width(s) > max,
    ensures
        truncated(s, max).last() == '\u{2026}',
        s.take(truncated(s, max).len() - 1) == truncated(s, max).drop_last(),
        cols(truncated(s, max).drop_last()) <= max - 1,
{
    assert(s.take(0) =~= Seq::<char>::empty());
    lemma_fit_len(s, 0, 0, (max - 1) as nat);
    let k = fit_len(s, 0, 0, (max - 1) as nat);
    assert((s.take(k) + seq!['\u{2026}']).drop_last() =~= s.take(k));
}

/// A text too wide for one column is cut to one character that takes at
/// most one column, or to a space.
pub proof fn law_truncated_to_one_column(s: Seq<char>)
    requires
        str_width(s) > 1,
    ensures
        truncated(s, 1).len() == 1,
        truncated(s, 1)[0] == ' ' || char_cols(truncated(s, 1)[0]) <= 1,
{
}

/// A text followed by spaces up to `target` columns.
pub open spec fn padded_right(s: Seq<char>, target: nat) -> Seq<char> {
    if str_width(s) >= target {
        s
    } else {
        s + spaces((target - str_width(s)) as nat)
    }
}

/// Truncates string to fit within `max_width` display columns, adding `…` if truncated.
pub fn truncate_width(s: &str, max_width: usize) -> (r: String)
    ensures
        r@ == truncated(s@, max_width as nat),
        max_width > 0 && str_width(s@) <= max_width ==> r@ == s@,
        max_width == 1 && str_width(s@) > 1 ==> r@.len() == 1 && (r@[0] == ' ' || char_cols(r@[0])
            <= 1),
        max_width >= 2 && str_width(s@) > max_width ==> r@.last() == '\u{2026}' && cols(r@.drop_last())
            <= max_width - 1 && s@.take(r@.len() - 1) == r@.drop_last(),
{
    if max_width == 0 {
        return String::new();
    }
    if str_width_of(s) <= max_width {
        return owned(s);
    }
    let cs = chars_of(s);
    if max_width <= 1 {
        let mut v: Vec<char> = Vec::new();
        let first_fits = cs.len() > 0 && match char_width_of(cs[0]) {
            Some(w) => w <= 1,
            None => true,
        };
        if first_fits {
            v.push(cs[0]);
        } else {
            v.push(' ');
        }
        return string_of(v.as_slice());
    }
    let target = max_width - 1;
    let mut current: usize = 0;
    let mut out: Vec<char> = Vec::new();
    let mut i: usize = 0;
    while i < cs.len()
        invariant
            i <= cs@.len(),
            current <= target,
            out@ == cs@.take(i as int),
            fit_len(cs@, 0, 0, target as nat) == fit_len(cs@, i as int, current as nat, target as nat),
        ensures
            i <= cs@.len(),
            out@ == cs@.take(i as int),
            fit_len(cs@, 0, 0, target as nat) == i,
        decreases cs.len() - i,
    {
        let c = cs[i];
        let cw: usize = match char_width_of(c) {
            Some(w) => w,
            None => 0,
        };
        if cw > target - current {
            break;
        }
        out.push(c);
        current = current + cw;
        i = i + 1;
        assert(out@ =~= cs@.take(i as int));
    }
    out.push('\u{2026}');
    proof {
        law_truncated_fits(s@, max_width as nat);
    }
    string_of(out.as_slice())
}

/// Pads a string with spaces on the right until its display width reaches `target_width`.
pub fn pad_right(s: &str, target_width: usize) -> (r: String)
    ensures
        r@ == padded_right(s@, target_width as nat),
        r@.take(s@.len() as int) == s@,
        str_width(s@) >= target_width ==> r@ == s@,
        str_width(s@) < target_width ==> r@.len() == s@.len() + (target_width - str_width(s@))
            && forall|k: int| s@.len() <= k < r@.len() ==> #[trigger] r@[k] == ' ',
{
    let w = str_width_of(s);
    if w >= target_width {
        return owned(s);
    }
    let mut v = chars_of(s);
    let ghost base = v@;
    let mut k: usize = 0;
    while k < target_width - w
        invariant
            w < target_width,
            k <= target_width - w,
            v@ == base + spaces(k as nat),
        decreases target_width - w - k,
    {
        v.push(' ');
        k = k + 1;
        assert(v@ =~= base + spaces(k as nat));
    }
    string_of(v.as_slice())
}

// ---------------------------------------------------------------------------
// The shortcut bar
// ---------------------------------------------------------------------------

/// One entry of the shortcut bar.
pub struct ShortcutItem {
    pub key: &'static str,
    pub label: &'static str,
    pub danger: bool,
}

/// The key names of the shortcut bar; Enter is shown as `↵` below 100
/// columns.
pub open spec fn shortcut_keys(width: nat) -> Seq<Seq<char>> {
    seq![
        "/"@,
        "j/k"@,
        if width < 100 {
            "\u{21b5}"@
        } else {
            "enter"@
        },
        "y"@,
        "a"@,
        "s"@,
        "x"@,
        "q"@,
    ]
}

/// The labels of the shortcut bar.
pub open spec fn shortcut_labels() -> Seq<Seq<char>> {
    seq!["search"@, "move"@, "expand"@, "copy"@, "auto"@, "sort"@, "kill"@, "quit"@]
}

/// The selections of shortcuts tried, from all of them down to the fewest.
pub open spec fn shortcut_variants() -> Seq<Seq<int>> {
    seq![
        seq![0int, 1, 2, 3, 4, 5, 6, 7],
        seq![0int, 1, 2, 3, 4, 6, 7],
        seq![0int, 1, 2, 3, 6, 7],
        seq![0int, 1, 2, 6, 7],
        seq![0int, 1, 6, 7],
        seq![0int, 6, 7],
    ]
}

/// The width of the shortcuts `idx` of `keys` and `labels`: a leading
/// space, each shortcut as key, space and label, and ` · ` between them.
pub open spec fn shortcuts_width(keys: Seq<Seq<char>>, labels: Seq<Seq<char>>, idx: Seq<int>) -> nat
    decreases idx.len(),
{
    if idx.len() == 0 {
        1
    } else {
        let k = idx.last();
        shortcuts_width(keys, labels, idx.drop_last()) + (if idx.len() > 1 {
            3nat
        } else {
            0nat
        }) + str_width(keys[k]) + 1 + str_width(labels[k])
    }
}

/// The first selection, from index `v` on, that fits in `width` columns
/// with two to spare; the smallest one when none does.
pub open spec fn chosen_from(width: nat, v: int) -> Seq<int>
    decreases 6 - v,
{
    if v < 0 || v >= 6 {
        shortcut_variants()[5]
    } else if shortcuts_width(shortcut_keys(width), shortcut_labels(), shortcut_variants()[v]) + 2
        <= width {
        shortcut_variants()[v]
    } else {
        chosen_from(width, v + 1)
    }
}

/// The items of the shortcut bar for a terminal `width` columns wide.
pub fn shortcut_items(width: usize) -> (r: Vec<ShortcutItem>)
    ensures
        r@.len() == 8,
        forall|k: int| 0 <= k < 8 ==> (#[trigger] r@[k]).key@ == shortcut_keys(width as nat)[k]
            && r@[k].label@ == shortcut_labels()[k] && r@[k].danger == (k == 6),
{
    let enter_key = if width < 100 {
        "\u{21b5}"
    } else {
        "enter"
    };
    let mut r: Vec<ShortcutItem> = Vec::new();
    r.push(ShortcutItem { key: "/", label: "search", danger: false });
    r.push(ShortcutItem { key: "j/k", label: "move", danger: false });
    r.push(ShortcutItem { key: enter_key, label: "expand", danger: false });
    r.push(ShortcutItem { key: "y", label: "copy", danger: false });
    r.push(ShortcutItem { key: "a", label: "auto", danger: false });
    r.push(ShortcutItem { key: "s", label: "sort", danger: false });
    r.push(ShortcutItem { key: "x", label: "kill", danger: true });
    r.push(ShortcutItem { key: "q", label: "quit", danger: false });
    r
}

/// A short key or label: up to eight printable ASCII characters, or a single
/// character.
pub open spec fn short_text(s: Seq<char>) -> bool {
    (s.len() <= 8 && forall|k: int| 0 <= k < s.len() ==> is_printable_ascii(#[trigger] s[k]))
        || s.len() == 1
}

/// The keys of shortcut items.
pub open spec fn item_keys(all: Seq<ShortcutItem>) -> Seq<Seq<char>> {
    all.map_values(|it: ShortcutItem| it.key@)
}

/// The labels of shortcut items.
pub open spec fn item_labels(all: Seq<ShortcutItem>) -> Seq<Seq<char>> {
    all.map_values(|it: ShortcutItem| it.label@)
}

/// Indices as integers.
pub open spec fn index_ints(v: Seq<usize>) -> Seq<int> {
    v.map_values(|x: usize| x as int)
}

/// The width of the shortcuts `indices` of `all`.
fn calculate_shortcuts_width(all: &Vec<ShortcutItem>, indices: &Vec<usize>) -> (r: usize)
    requires
        indices@.len() <= 8,
        forall|k: int| 0 <= k < indices@.len() ==> #[trigger] indices@[k] < all@.len(),
        forall|k: int|
            0 <= k < all@.len() ==> short_text((#[trigger] all@[k]).key@) && short_text(
                all@[k].label@,
            ),
    ensures
        r as nat == shortcuts_width(item_keys(all@), item_labels(all@), index_ints(indices@)),
{
    let ghost keys = item_keys(all@);
    let ghost labels = item_labels(all@);
    let ghost idx = index_ints(indices@);
    let mut w: usize = 1;
    let mut i: usize = 0;
    while i < indices.len()
        invariant
            i <= indices@.len() <= 8,
            keys == item_keys(all@),
            labels == item_labels(all@),
            idx == index_ints(indices@),
            forall|k: int| 0 <= k < indices@.len() ==> #[trigger] indices@[k] < all@.len(),
            forall|k: int|
                0 <= k < all@.len() ==> short_text((#[trigger] all@[k]).key@) && short_text(
                    all@[k].label@,
                ),
            w as nat == shortcuts_width(keys, labels, idx.take(i as int)),
            w <= 1 + 20 * i,
        decreases indices.len() - i,
    {
        assert(idx.take(i + 1).drop_last() =~= idx.take(i as int));
        if i > 0 {
            w = w + 3;
        }
        let item = &all[indices[i]];
        assert(keys[indices@[i as int] as int] == item.key@);
        assert(labels[indices@[i as int] as int] == item.label@);
        let kw = str_width_of(item.key);
        let lw = str_width_of(item.label);
        w = w + kw + 1 + lw;
        i = i + 1;
    }
    assert(idx.take(indices.len() as int) =~= idx);
    w
}

/// The `v`-th selection of shortcuts.
fn variant(v: usize) -> (r: Vec<usize>)
    requires
        v < 6,
    ensures
        index_ints(r@) == shortcut_variants()[v as int],
        r@.len() <= 8,
        forall|k: int| 0 <= k < r@.len() ==> #[trigger] r@[k] < 8,
{
    let r: Vec<usize> = if v == 0 {
        vec![0, 1, 2, 3, 4, 5, 6, 7]
    } else if v == 1 {
        vec![0, 1, 2, 3, 4, 6, 7]
    } else if v == 2 {
        vec![0, 1, 2, 3, 6, 7]
    } else if v == 3 {
        vec![0, 1, 2, 6, 7]
    } else if v == 4 {
        vec![0, 1, 6, 7]
    } else {
        vec![0, 6, 7]
    };
    assert(index_ints(r@) =~= shortcut_variants()[v as int]);
    r
}

/// The shortcuts shown in a terminal `width` columns wide: all of them if
/// they fit, otherwise the first of the shorter selections that fits.
pub fn shortcut_choice(width: usize) -> (r: Vec<usize>)
    ensures
        index_ints(r@) == chosen_from(width as nat, 0),
{
    let all = shortcut_items(width);
    proof {
        reveal_strlit("/");
        reveal_strlit("j/k");
        reveal_strlit("\u{21b5}");
        reveal_strlit("enter");
        reveal_strlit("y");
        reveal_strlit("a");
        reveal_strlit("s");
        reveal_strlit("x");
        reveal_strlit("q");
        reveal_strlit("search");
        reveal_strlit("move");
        reveal_strlit("expand");
        reveal_strlit("copy");
        reveal_strlit("auto");
        reveal_strlit("sort");
        reveal_strlit("kill");
        reveal_strlit("quit");
        assert(item_keys(all@) =~= shortcut_keys(width as nat));
        assert(item_labels(all@) =~= shortcut_labels());
        assert forall|k: int| 0 <= k < all@.len() implies short_text((#[trigger] all@[k]).key@)
            && short_text(all@[k].label@) by {
            assert(all@[k].key@ == shortcut_keys(width as nat)[k]);
            assert(all@[k].label@ == shortcut_labels()[k]);
        }
    }
    let mut v: usize = 0;
    while v < 6
        invariant
            v <= 6,
            all@.len() == 8,
            item_keys(all@) == shortcut_keys(width as nat),
            item_labels(all@) == shortcut_labels(),
            forall|k: int|
                0 <= k < all@.len() ==> short_text((#[trigger] all@[k]).key@) && short_text(
                    all@[k].label@,
                ),
            chosen_from(width as nat, 0) == chosen_from(width as nat, v as int),
        decreases 6 - v,
    {
        let idx = variant(v);
        let total = calculate_shortcuts_width(&all, &idx);
        if total <= width && 2 <= width - total {
            return idx;
        }
        v = v + 1;
    }
    variant(5)
}

// ---------------------------------------------------------------------------
// Table rows, details, title
// ---------------------------------------------------------------------------

/// A text right-aligned in `width` characters.
pub open spec fn left_padded(s: Seq<char>, width: nat) -> Seq<char> {
    if s.len() < width {
        spaces((width - s.len()) as nat) + s
    } else {
        s
    }
}

/// A displayed text, or `-` when it is empty after sanitizing.
pub open spec fn shown_or_dash(s: Seq<char>) -> Seq<char> {
    dash_text(sanitized(s))
}

/// The process column of a row: the name (or `-`), followed by the number
/// of hidden sockets of a collapsed process.
pub open spec fn row_name(r: RowView) -> Seq<char> {
    let n = shown_or_dash(r.entry.name);
    if r.hidden > 0 {
        n + "  +"@ + dec_nat(r.hidden as nat)
    } else {
        n
    }
}

/// The columns left for the process name in a terminal `width` wide.
pub open spec fn name_room(width: nat) -> nat {
    if width > 64 {
        (width - 64) as nat
    } else {
        8
    }
}

/// The pid column: `-` when unknown.
pub open spec fn pid_text(pid: i32) -> Seq<char> {
    if pid <= 0 {
        seq!['-']
    } else {
        dec_int(pid as int)
    }
}

/// The text of a row after its protocol: port, address, pid, project and
/// process, aligned in columns.
pub open spec fn row_rest(r: RowView, width: nat) -> Seq<char> {
    "  "@ + left_padded(dec_nat(r.entry.port as nat), 5) + "  "@ + padded(
        truncated(sanitized(r.entry.addr), 21),
        21,
    ) + "  "@ + left_padded(pid_text(r.entry.pid), 7) + "  "@ + padded(
        truncated(shown_or_dash(r.entry.project), 14),
        14,
    ) + "  "@ + truncated(row_name(r), name_room(width))
}

/// The protocol column of a row.
pub open spec fn row_proto(r: RowView) -> Seq<char> {
    padded(proto_name(r.entry.proto), 4)
}

/// The text of the selected row, padded to the terminal width.
pub open spec fn selected_text(r: RowView, width: nat) -> Seq<char> {
    padded_right(seq![' '] + fold_mark(r.fold) + seq![' '] + row_proto(r) + row_rest(r, width), width)
}

/// The parts of a table row: the fold mark between spaces, the protocol,
/// and the rest.
pub struct RowLine {
    pub lead: String,
    pub proto: String,
    pub rest: String,
}

fn pad_left_chars(v: &Vec<char>, width: usize) -> (r: Vec<char>)
    ensures
        r@ == left_padded(v@, width as nat),
{
    let mut r: Vec<char> = Vec::new();
    let mut k: usize = v.len();
    while k < width
        invariant
            v@.len() <= k <= width || (k == v@.len() && width < v@.len()),
            r@ == spaces((k - v@.len()) as nat),
        decreases width - k,
    {
        r.push(' ');
        k = k + 1;
        assert(r@ =~= spaces((k - v@.len()) as nat));
    }
    push_all(&mut r, v);
    assert(r@ =~= left_padded(v@, width as nat)) by {
        if v@.len() >= width {
            assert(spaces(0) =~= Seq::<char>::empty());
        }
    }
    r
}

fn pad_right_chars(v: &Vec<char>, width: usize) -> (r: Vec<char>)
    ensures
        r@ == padded(v@, width as nat),
{
    let mut r: Vec<char> = Vec::new();
    push_all(&mut r, v);
    let mut k: usize = v.len();
    while k < width
        invariant
            v@.len() <= k <= width || (k == v@.len() && width < v@.len()),
            r@ == v@ + spaces((k - v@.len()) as nat),
        decreases width - k,
    {
        r.push(' ');
        k = k + 1;
        assert(r@ =~= v@ + spaces((k - v@.len()) as nat));
    }
    assert(r@ =~= padded(v@, width as nat)) by {
        if v@.len() >= width {
            assert(spaces(0) =~= Seq::<char>::empty());
        }
    }
    r
}

/// The sanitized text, or `-`.
fn display_or_dash(s: &str) -> (r: String)
    ensures
        r@ == shown_or_dash(s@),
{
    let san = sanitize_display(s);
    owned(dash(san.as_str()))
}

/// The row text after the protocol.
fn row_rest_text(row: &ViewRow, width: usize) -> (r: Vec<char>)
    ensures
        r@ == row_rest(row@, width as nat),
{
    let e = &row.entry;
    let mut name = chars_of(display_or_dash(e.name.as_str()).as_str());
    if row.hidden > 0 {
        push_str(&mut name, "  +");
        let d = dec_u64(row.hidden as u64);
        push_all(&mut name, &d);
    }
    assert(name@ == row_name(row@));
    let max_name: usize = if width > 64 {
        width - 64
    } else {
        8
    };
    let name_t = chars_of(truncate_width(string_of(name.as_slice()).as_str(), max_name).as_str());
    let addr_s = sanitize_display(e.addr.as_str());
    let addr_t = chars_of(truncate_width(addr_s.as_str(), 21).as_str());
    let proj = display_or_dash(e.project.as_str());
    let proj_t = chars_of(truncate_width(proj.as_str(), 14).as_str());
    let pid_v: Vec<char> = if e.pid <= 0 {
        let mut v: Vec<char> = Vec::new();
        v.push('-');
        v
    } else {
        dec_i64(e.pid as i64)
    };
    let mut r: Vec<char> = Vec::new();
    push_str(&mut r, "  ");
    let port_v = dec_u64(e.port as u64);
    let a = pad_left_chars(&port_v, 5);
    push_all(&mut r, &a);
    push_str(&mut r, "  ");
    let b = pad_right_chars(&addr_t, 21);
    push_all(&mut r, &b);
    push_str(&mut r, "  ");
    let c = pad_left_chars(&pid_v, 7);
    push_all(&mut r, &c);
    push_str(&mut r, "  ");
    let d = pad_right_chars(&proj_t, 14);
    push_all(&mut r, &d);
    push_str(&mut r, "  ");
    push_all(&mut r, &name_t);
    r
}

/// The parts of the line of an unselected row.
pub fn row_line(row: &ViewRow, width: usize) -> (r: RowLine)
    ensures
        r.lead@ == seq![' '] + fold_mark(row.fold) + seq![' '],
        r.proto@ == row_proto(row@),
        r.rest@ == row_rest(row@, width as nat),
{
    let mut lead: Vec<char> = Vec::new();
    lead.push(' ');
    push_str(&mut lead, row.mark());
    lead.push(' ');
    let p = chars_of(row.entry.proto.as_str());
    let proto = pad_right_chars(&p, 4);
    let rest = row_rest_text(row, width);
    RowLine {
        lead: string_of(lead.as_slice()),
        proto: string_of(proto.as_slice()),
        rest: string_of(rest.as_slice()),
    }
}

/// The line of the selected row, padded to the terminal width.
pub fn selected_line(row: &ViewRow, width: usize) -> (r: String)
    ensures
        r@ == selected_text(row@, width as nat),
{
    let parts = row_line(row, width);
    let mut v = chars_of(parts.lead.as_str());
    push_str(&mut v, parts.proto.as_str());
    push_str(&mut v, parts.rest.as_str());
    assert(v@ =~= seq![' '] + fold_mark(row.fold) + seq![' '] + row_proto(row@) + row_rest(row@, width as nat));
    pad_right(string_of(v.as_slice()).as_str(), width)
}

/// Texts joined with `, `.
pub open spec fn comma_joined(items: Seq<Seq<char>>) -> Seq<char>
    decreases items.len(),
{
    if items.len() == 0 {
        seq![]
    } else if items.len() == 1 {
        items[0]
    } else {
        comma_joined(items.drop_last()) + ", "@ + items.last()
    }
}

/// The service line's text: the service name, or its search aliases.
pub open spec fn service_text(e: EntryView) -> Seq<char> {
    let name = service_name_of(e.proto, e.port)@;
    if name.len() == 0 {
        comma_joined(alias_texts(e.proto, e.port))
    } else {
        name
    }
}

/// The columns for the command line and working directory.
pub open spec fn detail_room(width: nat) -> nat {
    if width > 6 {
        (width - 6) as nat
    } else {
        8
    }
}

/// The four lines of details of the selection: service, path, command line
/// and working directory (shown relative to `home`).
pub open spec fn detail_texts(e: EntryView, width: nat, home: Option<Seq<char>>) -> Seq<Seq<char>> {
    seq![
        "SVC   "@ + dash_text(service_text(e)),
        "PATH  "@ + dash_text(sanitized(e.path)),
        "CMD   "@ + dash_text(truncated(sanitized(e.cmdline), detail_room(width))),
        "CWD   "@ + dash_text(truncated(sanitized(short_cwd_text(e.cwd, home)), detail_room(width))),
    ]
}

/// The four lines of details of an entry.
pub fn detail_lines(e: &Entry, width: usize, home: Option<&str>) -> (r: Vec<String>)
    ensures
        r@.len() == 4,
        forall|k: int| 0 <= k < 4 ==> (#[trigger] r@[k])@ == detail_texts(e@, width as nat, home_view(home))[k],
{
    let name = service_name(e.proto, e.port);
    let mut svc: Vec<char> = Vec::new();
    if name.is_empty() {
        let aliases = search_terms(e.proto, e.port);
        let mut i: usize = 0;
        while i < aliases.len()
            invariant
                i <= aliases@.len(),
                aliases@ == crate::services::search_terms_of(e.proto, e.port),
                svc@ == comma_joined(alias_texts(e.proto, e.port).take(i as int)),
            decreases aliases.len() - i,
        {
            assert(alias_texts(e.proto, e.port).take(i + 1).drop_last() =~= alias_texts(
                e.proto,
                e.port,
            ).take(i as int));
            assert(alias_texts(e.proto, e.port)[i as int] == aliases@[i as int]@);
            if i > 0 {
                push_str(&mut svc, ", ");
            }
            push_str(&mut svc, aliases[i]);
            i = i + 1;
        }
        assert(alias_texts(e.proto, e.port).take(aliases.len() as int) =~= alias_texts(
            e.proto,
            e.port,
        ));
    } else {
        push_str(&mut svc, name);
    }
    let svc_s = string_of(svc.as_slice());
    let room: usize = if width > 6 {
        width - 6
    } else {
        8
    };
    let mut out: Vec<String> = Vec::new();
    let mut l0 = chars_of("SVC   ");
    push_str(&mut l0, dash(svc_s.as_str()));
    out.push(string_of(l0.as_slice()));
    let mut l1 = chars_of("PATH  ");
    push_str(&mut l1, display_or_dash(e.path.as_str()).as_str());
    out.push(string_of(l1.as_slice()));
    let cmd = truncate_width(sanitize_display(e.cmdline.as_str()).as_str(), room);
    let mut l2 = chars_of("CMD   ");
    push_str(&mut l2, dash(cmd.as_str()));
    out.push(string_of(l2.as_slice()));
    let cwd_short = short_cwd(e.cwd.as_str(), home);
    let cwd = truncate_width(sanitize_display(cwd_short.as_str()).as_str(), room);
    let mut l3 = chars_of("CWD   ");
    push_str(&mut l3, dash(cwd.as_str()));
    out.push(string_of(l3.as_slice()));
    out
}

/// The title's summary: rows shown out of listeners held, the protocol
/// shown when only one is, and the sort column with its direction.
pub open spec fn title_meta_text(
    shown: nat,
    total: nat,
    want_tcp: bool,
    want_udp: bool,
    key: SortKey,
    desc: bool,
) -> Seq<char> {
    "  "@ + dec_nat(shown) + "/"@ + dec_nat(total) + (if want_tcp && !want_udp {
        "  tcp"@
    } else if want_udp && !want_tcp {
        "  udp"@
    } else {
        seq![]
    }) + "  "@ + sort_key_name(key) + (if desc {
        "\u{2193}"@
    } else {
        "\u{2191}"@
    })
}

/// The title's summary.
pub fn title_meta(
    shown: usize,
    total: usize,
    want_tcp: bool,
    want_udp: bool,
    key: SortKey,
    desc: bool,
) -> (r: String)
    ensures
        r@ == title_meta_text(shown as nat, total as nat, want_tcp, want_udp, key, desc),
{
    let mut v = chars_of("  ");
    let a = dec_u64(shown as u64);
    push_all(&mut v, &a);
    push_str(&mut v, "/");
    let b = dec_u64(total as u64);
    push_all(&mut v, &b);
    if want_tcp && !want_udp {
        push_str(&mut v, "  tcp");
    } else if want_udp && !want_tcp {
        push_str(&mut v, "  udp");
    }
    push_str(&mut v, "  ");
    push_str(&mut v, key.as_str());
    if desc {
        push_str(&mut v, "\u{2193}");
    } else {
        push_str(&mut v, "\u{2191}");
    }
    string_of(v.as_slice())
}

/// The kill question of the view for the selected entry.
pub open spec fn confirm_question(e: EntryView) -> Seq<char> {
    "\u{256d}\u{2500} Kill "@ + shown_or_dash(e.name) + " (pid "@ + dec_int(e.pid as int)
        + ")?  y / n \u{2500}\u{256e}"@
}

/// The kill question for an entry.
pub fn confirm_text(e: &Entry) -> (r: String)
    ensures
        r@ == confirm_question(e@),
{
    let mut v = chars_of("\u{256d}\u{2500} Kill ");
    push_str(&mut v, display_or_dash(e.name.as_str()).as_str());
    push_str(&mut v, " (pid ");
    let d = dec_i64(e.pid as i64);
    push_all(&mut v, &d);
    push_str(&mut v, ")?  y / n \u{2500}\u{256e}");
    string_of(v.as_slice())
}

} // verus!
