//! The script-friendly aligned table of listeners, and the fields of the JSON
//! rows.
use vstd::prelude::*;
use vstd::utf8::encode_utf8;
use crate::model::{Entry, EntryView, Proto, proto_name, short_cwd, short_cwd_text, views};
use crate::sanitize::{cell_text, display_cell};
use crate::services::{service_name, service_name_of};
use crate::text::{chars_of, dec_i64, dec_int, dec_nat, dec_u64, string_of};

verus! {

/// The column titles of the table.
pub open spec fn header_cells() -> Seq<Seq<char>> {
    seq![
        "PROTO"@,
        "PORT"@,
        "ADDRESS"@,
        "PID"@,
        "PROJECT"@,
        "PROCESS"@,
        "PATH"@,
        "CMD"@,
        "CWD"@,
    ]
}

/// The home directory as a plain value.
pub open spec fn home_view(home: Option<&str>) -> Option<Seq<char>> {
    match home {
        Some(h) => Some(h@),
        None => None,
    }
}

/// The cells of one row: protocol, port, address, pid (`-` when unknown),
/// project, process name, path, command line and shortened working
/// directory; the texts from the process are shown as table cells.
pub open spec fn row_cells(e: EntryView, home: Option<Seq<char>>) -> Seq<Seq<char>> {
    seq![
        proto_name(e.proto),
        dec_nat(e.port as nat),
        cell_text(e.addr),
        if e.pid <= 0 {
            seq!['-']
        } else {
            dec_int(e.pid as int)
        },
        cell_text(e.project),
        cell_text(e.name),
        cell_text(e.path),
        cell_text(e.cmdline),
        cell_text(short_cwd_text(e.cwd, home)),
    ]
}

/// The length in bytes of a text (`str::len`).
pub open spec fn byte_len(s: Seq<char>) -> nat {
    encode_utf8(s).len()
}

/// The larger of two numbers.
pub open spec fn max_nat(a: nat, b: nat) -> nat {
    if a < b {
        b
    } else {
        a
    }
}

/// The width of column `i`: the byte length of its longest cell, the title
/// included.
pub open spec fn col_width(title: Seq<char>, rows: Seq<Seq<Seq<char>>>, i: int) -> nat
    decreases rows.len(),
{
    if rows.len() == 0 {
        byte_len(title)
    } else {
        max_nat(col_width(title, rows.drop_last(), i), byte_len(rows.last()[i]))
    }
}

/// `n` spaces.
pub open spec fn spaces(n: nat) -> Seq<char> {
    Seq::new(n, |k: int| ' ')
}

/// A cell left-aligned in `width` characters.
pub open spec fn padded(cell: Seq<char>, width: nat) -> Seq<char> {
    if cell.len() < width {
        cell + spaces((width - cell.len()) as nat)
    } else {
        cell
    }
}

/// The line of cells from column `k` on: each but the last padded to its
/// column's width and followed by two spaces; the last followed by a newline.
pub open spec fn line_from(cells: Seq<Seq<char>>, widths: Seq<nat>, k: int) -> Seq<char>
    decreases cells.len() - k,
{
    if k < 0 || k >= cells.len() {
        seq![]
    } else if k == cells.len() - 1 {
        cells[k] + seq!['\n']
    } else {
        padded(cells[k], widths[k]) + seq![' ', ' '] + line_from(cells, widths, k + 1)
    }
}

/// The lines of all rows.
pub open spec fn lines(rows: Seq<Seq<Seq<char>>>, widths: Seq<nat>) -> Seq<char>
    decreases rows.len(),
{
    if rows.len() == 0 {
        seq![]
    } else {
        lines(rows.drop_last(), widths) + line_from(rows.last(), widths, 0)
    }
}

/// The rows of the table.
pub open spec fn table_rows(s: Seq<EntryView>, home: Option<Seq<char>>) -> Seq<Seq<Seq<char>>> {
    s.map_values(|e: EntryView| row_cells(e, home))
}

/// The column widths of the table.
pub open spec fn table_widths(s: Seq<EntryView>, home: Option<Seq<char>>) -> Seq<nat> {
    Seq::new(9, |i: int| col_width(header_cells()[i], table_rows(s, home), i))
}

/// The whole table: the title line, then one line per entry.
pub open spec fn table_text(s: Seq<EntryView>, home: Option<Seq<char>>) -> Seq<char> {
    line_from(header_cells(), table_widths(s, home), 0) + lines(
        table_rows(s, home),
        table_widths(s, home),
    )
}

/// The `service` field of a JSON row: the well-known service name, or none.
pub open spec fn json_service_of(proto: Proto, port: u16) -> Option<&'static str> {
    if service_name_of(proto, port)@.len() == 0 {
        None
    } else {
        Some(service_name_of(proto, port))
    }
}

// ---------------------------------------------------------------------------
// Executable formatting
// ---------------------------------------------------------------------------

/// The byte length of a string.
fn str_bytes(s: &String) -> (r: usize)
    ensures
        r == byte_len(s@),
{
    s.as_str().as_bytes().len()
}

/// The cells of one row.
fn make_row(e: &Entry, home: Option<&str>) -> (r: Vec<String>)
    ensures
        r@.len() == 9,
        forall|i: int| 0 <= i < 9 ==> (#[trigger] r@[i])@ == row_cells(e@, home_view(home))[i],
{
    let mut r: Vec<String> = Vec::new();
    r.push(string_of(chars_of(e.proto.as_str()).as_slice()));
    r.push(string_of(dec_u64(e.port as u64).as_slice()));
    r.push(display_cell(e.addr.as_str()));
    if e.pid <= 0 {
        let mut v: Vec<char> = Vec::new();
        v.push('-');
        r.push(string_of(v.as_slice()));
    } else {
        r.push(string_of(dec_i64(e.pid as i64).as_slice()));
    }
    r.push(display_cell(e.project.as_str()));
    r.push(display_cell(e.name.as_str()));
    r.push(display_cell(e.path.as_str()));
    r.push(display_cell(e.cmdline.as_str()));
    let cwd = short_cwd(e.cwd.as_str(), home);
    r.push(display_cell(cwd.as_str()));
    r
}

/// The column titles.
fn make_headers() -> (r: Vec<String>)
    ensures
        r@.len() == 9,
        forall|i: int| 0 <= i < 9 ==> (#[trigger] r@[i])@ == header_cells()[i],
{
    let mut r: Vec<String> = Vec::new();
    r.push(string_of(chars_of("PROTO").as_slice()));
    r.push(string_of(chars_of("PORT").as_slice()));
    r.push(string_of(chars_of("ADDRESS").as_slice()));
    r.push(string_of(chars_of("PID").as_slice()));
    r.push(string_of(chars_of("PROJECT").as_slice()));
    r.push(string_of(chars_of("PROCESS").as_slice()));
    r.push(string_of(chars_of("PATH").as_slice()));
    r.push(string_of(chars_of("CMD").as_slice()));
    r.push(string_of(chars_of("CWD").as_slice()));
    r
}

/// The views of the cells of a row.
pub open spec fn cell_views(row: Seq<String>) -> Seq<Seq<char>> {
    row.map_values(|c: String| c@)
}

/// Appends the line of a row of nine cells.
fn push_line(out: &mut Vec<char>, row: &Vec<String>, widths: &Vec<usize>)
    requires
        row@.len() == 9,
        widths@.len() == 9,
    ensures
        final(out)@ == old(out)@ + line_from(
            cell_views(row@),
            widths@.map_values(|w: usize| w as nat),
            0,
        ),
{
    let ghost cells = cell_views(row@);
    let ghost ws = widths@.map_values(|w: usize| w as nat);
    let ghost start = out@;
    let mut k: usize = 0;
    while k < 9
        invariant
            k <= 9,
            row@.len() == 9,
            widths@.len() == 9,
            cells == cell_views(row@),
            ws == widths@.map_values(|w: usize| w as nat),
            start + line_from(cells, ws, 0) == out@ + line_from(cells, ws, k as int),
        decreases 9 - k,
    {
        let cell = chars_of(row[k].as_str());
        assert(cell@ == cells[k as int]);
        if k == 8 {
            let ghost before = out@;
            let mut t: usize = 0;
            while t < cell.len()
                invariant
                    t <= cell.len(),
                    out@ == before + cell@.take(t as int),
                decreases cell.len() - t,
            {
                out.push(cell[t]);
                t = t + 1;
                assert(out@ =~= before + cell@.take(t as int));
            }
            out.push('\n');
            assert(cell@.take(cell.len() as int) =~= cell@);
            assert(line_from(cells, ws, 9) =~= Seq::<char>::empty());
            assert(out@ + line_from(cells, ws, 9) =~= before + line_from(cells, ws, 8));
        } else {
            let ghost before = out@;
            let mut t: usize = 0;
            while t < cell.len()
                invariant
                    t <= cell.len(),
                    out@ == before + cell@.take(t as int),
                decreases cell.len() - t,
            {
                out.push(cell[t]);
                t = t + 1;
                assert(out@ =~= before + cell@.take(t as int));
            }
            assert(cell@.take(cell.len() as int) =~= cell@);
            let w = widths[k];
            assert(ws[k as int] == w as nat);
            let mut n = cell.len();
            while n < w
                invariant
                    cell.len() <= n <= w || (n == cell.len() && w < cell.len()),
                    out@ == before + cell@ + spaces((n - cell.len()) as nat),
                decreases w - n,
            {
                out.push(' ');
                n = n + 1;
                assert(out@ =~= before + cell@ + spaces((n - cell.len()) as nat));
            }
            assert(out@ =~= before + padded(cell@, w as nat)) by {
                if cell.len() < w {
                    assert(n == w);
                } else {
                    assert(spaces(0) =~= Seq::<char>::empty());
                }
            }
            out.push(' ');
            out.push(' ');
            assert(out@ + line_from(cells, ws, k + 1) =~= before + line_from(cells, ws, k as int));
        }
        k = k + 1;
    }
}

/// The rows of cells of the entries.
fn build_rows(entries: &[Entry], home: Option<&str>) -> (rows: Vec<Vec<String>>)
    ensures
        rows@.len() == entries@.len(),
        forall|j: int| 0 <= j < rows@.len() ==> (#[trigger] rows@[j])@.len() == 9,
        forall|j: int|
            0 <= j < rows@.len() ==> cell_views((#[trigger] rows@[j])@) == table_rows(
                views(entries@),
                home_view(home),
            )[j],
{
    let ghost s = views(entries@);
    let ghost hv = home_view(home);
    let ghost trows = table_rows(s, hv);
    let mut rows: Vec<Vec<String>> = Vec::new();
    let mut i: usize = 0;
    while i < entries.len()
        invariant
            i <= entries.len(),
            s == views(entries@),
            hv == home_view(home),
            trows == table_rows(s, hv),
            rows@.len() == i,
            forall|j: int| 0 <= j < i ==> (#[trigger] rows@[j])@.len() == 9,
            forall|j: int| 0 <= j < i ==> cell_views((#[trigger] rows@[j])@) == trows[j],
        decreases entries.len() - i,
    {
        let row = make_row(&entries[i], home);
        assert(s[i as int] == entries@[i as int]@);
        assert(trows[i as int] == row_cells(s[i as int], hv));
        assert(cell_views(row@) =~= trows[i as int]);
        rows.push(row);
        i = i + 1;
    }
    rows
}

/// The width of column `c`.
fn column_width(title: &String, rows: &Vec<Vec<String>>, c: usize, trows: Ghost<Seq<Seq<Seq<char>>>>) -> (w: usize)
    requires
        c < 9,
        rows@.len() == trows@.len(),
        forall|q: int| 0 <= q < rows@.len() ==> (#[trigger] rows@[q])@.len() == 9,
        forall|q: int| 0 <= q < rows@.len() ==> cell_views((#[trigger] rows@[q])@) == trows@[q],
    ensures
        w as nat == col_width(title@, trows@, c as int),
{
    let mut w = str_bytes(title);
    let mut j: usize = 0;
    while j < rows.len()
        invariant
            c < 9,
            j <= rows@.len(),
            rows@.len() == trows@.len(),
            forall|q: int| 0 <= q < rows@.len() ==> (#[trigger] rows@[q])@.len() == 9,
            forall|q: int| 0 <= q < rows@.len() ==> cell_views((#[trigger] rows@[q])@) == trows@[q],
            w as nat == col_width(title@, trows@.take(j as int), c as int),
        decreases rows.len() - j,
    {
        let b = str_bytes(&rows[j][c]);
        assert(cell_views(rows@[j as int]@)[c as int] == rows@[j as int]@[c as int]@);
        assert(trows@.take(j + 1).drop_last() =~= trows@.take(j as int));
        if b > w {
            w = b;
        }
        j = j + 1;
    }
    assert(trows@.take(rows.len() as int) =~= trows@);
    w
}

/// Formats listeners as a clean, script-friendly aligned table; `home` is the
/// home directory that working directories are shown relative to.
pub fn format_table(entries: &[Entry], home: Option<&str>) -> (r: String)
    ensures
        r@ == table_text(views(entries@), home_view(home)),
{
    let ghost s = views(entries@);
    let ghost hv = home_view(home);
    let ghost trows = table_rows(s, hv);
    let headers = make_headers();
    let rows = build_rows(entries, home);
    // Column widths.
    let mut widths: Vec<usize> = Vec::new();
    let mut c: usize = 0;
    while c < 9
        invariant
            c <= 9,
            headers@.len() == 9,
            forall|k: int| 0 <= k < 9 ==> (#[trigger] headers@[k])@ == header_cells()[k],
            rows@.len() == trows.len(),
            forall|j: int| 0 <= j < rows@.len() ==> (#[trigger] rows@[j])@.len() == 9,
            forall|j: int| 0 <= j < rows@.len() ==> cell_views((#[trigger] rows@[j])@) == trows[j],
            widths@.len() == c,
            forall|k: int| 0 <= k < c ==> (#[trigger] widths@[k]) as nat == col_width(
                header_cells()[k],
                trows,
                k,
            ),
        decreases 9 - c,
    {
        let w = column_width(&headers[c], &rows, c, Ghost(trows));
        widths.push(w);
        c = c + 1;
    }
    let ghost ws = widths@.map_values(|w: usize| w as nat);
    assert(ws =~= table_widths(s, hv));
    // The text.
    let mut out: Vec<char> = Vec::new();
    push_line(&mut out, &headers, &widths);
    assert(cell_views(headers@) =~= header_cells());
    let ghost head = out@;
    let mut j: usize = 0;
    while j < rows.len()
        invariant
            j <= rows@.len(),
            widths@.len() == 9,
            ws == widths@.map_values(|w: usize| w as nat),
            rows@.len() == trows.len(),
            forall|q: int| 0 <= q < rows@.len() ==> (#[trigger] rows@[q])@.len() == 9,
            forall|q: int| 0 <= q < rows@.len() ==> cell_views((#[trigger] rows@[q])@) == trows[q],
            out@ == head + lines(trows.take(j as int), ws),
        decreases rows.len() - j,
    {
        push_line(&mut out, &rows[j], &widths);
        assert(trows.take(j + 1).drop_last() =~= trows.take(j as int));
        j = j + 1;
    }
    assert(trows.take(rows.len() as int) =~= trows);
    string_of(out.as_slice())
}

/// The `service` field of a JSON row: the well-known service name, or none
/// when the port has no well-known service.
pub fn json_service(proto: Proto, port: u16) -> (r: Option<&'static str>)
    ensures
        r == json_service_of(proto, port),
{
    let svc = service_name(proto, port);
    if svc.is_empty() {
        None
    } else {
        Some(svc)
    }
}

} // verus!
