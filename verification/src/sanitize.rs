//! Making process-controlled text safe to print in a table: terminal escape
//! sequences are removed and control characters become spaces.
use vstd::prelude::*;
use vstd::utf8::{
    decode_utf8, encode_scalar, encode_utf8, encode_utf8_decode_utf8, encode_utf8_valid_utf8,
    has_width_1_encoding, valid_utf8,
};
use crate::text::{chars_of, string_of, trim, trim_str};

verus! {

// ---------------------------------------------------------------------------
// The escape scanner, over the UTF-8 bytes of the text
// ---------------------------------------------------------------------------

/// A byte that ends a CSI sequence.
pub open spec fn is_csi_final(c: u8) -> bool {
    0x40 <= c <= 0x7e
}

/// The position just past the first CSI final byte at or after `i`, or the
/// end of the bytes.
pub open spec fn csi_end(b: Seq<u8>, i: int) -> int
    decreases b.len() - i,
{
    if i >= b.len() {
        i
    } else if is_csi_final(b[i]) {
        i + 1
    } else {
        csi_end(b, i + 1)
    }
}

/// `ESC \` (the string terminator) starts at `i`.
pub open spec fn st_at(b: Seq<u8>, i: int) -> bool {
    0 <= i && i + 1 < b.len() && b[i] == 0x1b && b[i + 1] == 0x5c
}

/// The position just past the first string terminator at or after `i`, or
/// the end of the bytes.
pub open spec fn st_end(b: Seq<u8>, i: int) -> int
    decreases b.len() - i,
{
    if i >= b.len() {
        i
    } else if st_at(b, i) {
        i + 2
    } else {
        st_end(b, i + 1)
    }
}

/// The position just past the first BEL or string terminator at or after
/// `i`, or the end of the bytes.
pub open spec fn osc_end(b: Seq<u8>, i: int) -> int
    decreases b.len() - i,
{
    if i >= b.len() {
        i
    } else if b[i] == 0x07 {
        i + 1
    } else if st_at(b, i) {
        i + 2
    } else {
        osc_end(b, i + 1)
    }
}

/// The position of the first byte at or after `j` that is not an
/// intermediate byte (0x20..=0x2f), or the end of the bytes.
pub open spec fn intermediates_end(b: Seq<u8>, j: int) -> int
    decreases b.len() - j,
{
    if j >= b.len() {
        j
    } else if 0x20 <= b[j] <= 0x2f {
        intermediates_end(b, j + 1)
    } else {
        j
    }
}

/// The end of a two-character escape (with optional intermediates) that
/// starts at `i`: its final byte is included when it is in 0x30..=0x7e.
pub open spec fn esc_end(b: Seq<u8>, i: int) -> int {
    let j = intermediates_end(b, i + 2);
    if j < b.len() && 0x30 <= b[j] <= 0x7e {
        j + 1
    } else {
        j
    }
}

/// The end of the escape sequence whose ESC is at `i` (with a byte after it):
/// CSI `ESC [`, OSC `ESC ]`, string commands `ESC P`, `ESC X`, `ESC ^`,
/// `ESC _`, a stray `ESC \`, or any other escape.
pub open spec fn escape_end(b: Seq<u8>, i: int) -> int {
    let c = b[i + 1];
    if c == 0x5b {
        csi_end(b, i + 2)
    } else if c == 0x5d {
        osc_end(b, i + 2)
    } else if c == 0x50 || c == 0x58 || c == 0x5e || c == 0x5f {
        st_end(b, i + 2)
    } else if c == 0x5c {
        i + 2
    } else {
        esc_end(b, i)
    }
}

/// The bytes from position `i` on that survive escape stripping: every byte
/// outside an escape sequence; an ESC that ends the text is dropped.
pub open spec fn strip_from(b: Seq<u8>, i: int) -> Seq<u8>
    decreases b.len() - i,
{
    if i < 0 || i >= b.len() {
        seq![]
    } else if b[i] != 0x1b {
        seq![b[i]] + strip_from(b, i + 1)
    } else if i + 1 >= b.len() {
        seq![]
    } else {
        proof {
            lemma_escape_end(b, i);
        }
        strip_from(b, escape_end(b, i))
    }
}

/// The bytes of `b` without its terminal escape sequences.
pub open spec fn stripped(b: Seq<u8>) -> Seq<u8> {
    strip_from(b, 0)
}

/// What `String::from_utf8_lossy` makes of a byte sequence: the decoded text,
/// with each invalid sequence replaced by U+FFFD.
pub uninterp spec fn utf8_lossy(bytes: Seq<u8>) -> Seq<char>;

/// A character that would move the cursor or change the terminal: C0
/// controls, DEL and C1 controls.
pub open spec fn is_control(c: char) -> bool {
    let u = c as u32;
    u < 32 || u == 127 || (0x80 <= u && u <= 0x9f)
}

/// Each control character replaced by a space.
pub open spec fn blank_controls(s: Seq<char>) -> Seq<char> {
    s.map_values(|c: char| if is_control(c) { ' ' } else { c })
}

/// The display form of a text: escapes stripped from its UTF-8 bytes, the
/// bytes decoded leniently, and control characters blanked.
pub open spec fn sanitized(s: Seq<char>) -> Seq<char> {
    if s.len() == 0 {
        seq![]
    } else {
        blank_controls(utf8_lossy(stripped(encode_utf8(s))))
    }
}

/// A table cell: the trimmed display form, or `-` when nothing is left.
pub open spec fn cell_text(s: Seq<char>) -> Seq<char> {
    let t = trim(sanitized(s));
    if t.len() == 0 {
        seq!['-']
    } else {
        t
    }
}

/// The text, or `-` when it is empty.
pub open spec fn dash_text(s: Seq<char>) -> Seq<char> {
    if s.len() == 0 {
        seq!['-']
    } else {
        s
    }
}

// ---------------------------------------------------------------------------
// Lemmas on the scanner
// ---------------------------------------------------------------------------

proof fn lemma_csi_end(b: Seq<u8>, i: int)
    requires
        0 <= i <= b.len(),
    ensures
        i <= csi_end(b, i) <= b.len(),
    decreases b.len() - i,
{
    if i < b.len() && !is_csi_final(b[i]) {
        lemma_csi_end(b, i + 1);
    }
}

proof fn lemma_st_end(b: Seq<u8>, i: int)
    requires
        0 <= i <= b.len(),
    ensures
        i <= st_end(b, i) <= b.len(),
    decreases b.len() - i,
{
    if i < b.len() && !st_at(b, i) {
        lemma_st_end(b, i + 1);
    }
}

proof fn lemma_osc_end(b: Seq<u8>, i: int)
    requires
        0 <= i <= b.len(),
    ensures
        i <= osc_end(b, i) <= b.len(),
    decreases b.len() - i,
{
    if i < b.len() && b[i] != 0x07 && !st_at(b, i) {
        lemma_osc_end(b, i + 1);
    }
}

proof fn lemma_intermediates_end(b: Seq<u8>, j: int)
    requires
        0 <= j <= b.len(),
    ensures
        j <= intermediates_end(b, j) <= b.len(),
    decreases b.len() - j,
{
    if j < b.len() && 0x20 <= b[j] <= 0x2f {
        lemma_intermediates_end(b, j + 1);
    }
}

/// An escape sequence ends after its first two bytes and within the text.
pub proof fn lemma_escape_end(b: Seq<u8>, i: int)
    requires
        0 <= i,
        i + 1 < b.len(),
    ensures
        i + 2 <= escape_end(b, i) <= b.len(),
{
    lemma_csi_end(b, i + 2);
    lemma_osc_end(b, i + 2);
    lemma_st_end(b, i + 2);
    lemma_intermediates_end(b, i + 2);
}

/// A scalar other than ESC encodes to bytes that hold no ESC byte: ASCII
/// encodes to itself and every byte of a longer encoding is at least 0x80.
proof fn lemma_scalar_no_esc(c: char)
    requires
        c != '\x1b',
    ensures
        forall|k: int| 0 <= k < encode_scalar(c as u32).len() ==> #[trigger] encode_scalar(
            c as u32,
        )[k] != 0x1b,
{
    let u = c as u32;
    if has_width_1_encoding(u) {
        assert(u != 0x1b);
        assert(u <= 0x7f ==> (u & 0x7f) as u8 == u as u8) by (bit_vector);
        assert(u <= 0x7f && u != 0x1b ==> u as u8 != 0x1b) by (bit_vector);
    } else {
        assert(forall|x: u8| #[trigger] (0xC0u8 | x) >= 0x80) by (bit_vector);
        assert(forall|x: u8| #[trigger] (0xE0u8 | x) >= 0x80) by (bit_vector);
        assert(forall|x: u8| #[trigger] (0xF0u8 | x) >= 0x80) by (bit_vector);
        assert(forall|x: u8| #[trigger] (0x80u8 | x) >= 0x80) by (bit_vector);
    }
}

/// Text without an ESC character encodes to bytes without an ESC byte.
proof fn lemma_encode_no_esc(s: Seq<char>)
    requires
        forall|k: int| 0 <= k < s.len() ==> s[k] != '\x1b',
    ensures
        forall|k: int| 0 <= k < encode_utf8(s).len() ==> #[trigger] encode_utf8(s)[k] != 0x1b,
    decreases s.len(),
{
    if s.len() > 0 {
        lemma_scalar_no_esc(s[0]);
        lemma_encode_no_esc(s.drop_first());
        let head = encode_scalar(s[0] as u32);
        let tail = encode_utf8(s.drop_first());
        assert(encode_utf8(s) == head + tail);
        assert forall|k: int| 0 <= k < encode_utf8(s).len() implies #[trigger] encode_utf8(s)[k]
            != 0x1b by {
            if k < head.len() {
                assert(encode_utf8(s)[k] == head[k]);
            } else {
                assert(encode_utf8(s)[k] == tail[k - head.len()]);
            }
        }
    }
}

/// Escape stripping keeps bytes that hold no ESC unchanged.
proof fn lemma_strip_plain(b: Seq<u8>, i: int)
    requires
        0 <= i <= b.len(),
        forall|k: int| i <= k < b.len() ==> b[k] != 0x1b,
    ensures
        strip_from(b, i) == b.subrange(i, b.len() as int),
    decreases b.len() - i,
{
    if i < b.len() {
        lemma_strip_plain(b, i + 1);
        assert(b.subrange(i, b.len() as int) =~= seq![b[i]] + b.subrange(i + 1, b.len() as int));
    } else {
        assert(b.subrange(i, b.len() as int) =~= Seq::<u8>::empty());
    }
}

/// The display form holds no control character.
pub proof fn law_sanitized_has_no_controls(s: Seq<char>)
    ensures
        forall|k: int| 0 <= k < sanitized(s).len() ==> !is_control(#[trigger] sanitized(s)[k]),
{
}

// ---------------------------------------------------------------------------
// Executable scanner
// ---------------------------------------------------------------------------

/// Skips to just past the first CSI final byte at or after `start`.
fn skip_until(bytes: &[u8], start: usize) -> (r: usize)
    requires
        start <= bytes@.len(),
    ensures
        r as int == csi_end(bytes@, start as int),
{
    let mut i = start;
    while i < bytes.len()
        invariant
            start <= i <= bytes@.len(),
            csi_end(bytes@, i as int) == csi_end(bytes@, start as int),
        decreases bytes.len() - i,
    {
        let c = bytes[i];
        if 0x40 <= c && c <= 0x7e {
            return i + 1;
        }
        i = i + 1;
    }
    i
}

/// Skips an OSC body: just past the first BEL or `ESC \` at or after `start`.
fn skip_osc(bytes: &[u8], start: usize) -> (r: usize)
    requires
        start <= bytes@.len(),
    ensures
        r as int == osc_end(bytes@, start as int),
{
    let mut i = start;
    while i < bytes.len()
        invariant
            start <= i <= bytes@.len(),
            osc_end(bytes@, i as int) == osc_end(bytes@, start as int),
        decreases bytes.len() - i,
    {
        if bytes[i] == 0x07 {
            return i + 1;
        }
        if bytes[i] == 0x1b && i + 1 < bytes.len() && bytes[i + 1] == 0x5c {
            return i + 2;
        }
        i = i + 1;
    }
    i
}

/// Skips a string command body: just past the first `ESC \` at or after
/// `start`.
fn skip_st(bytes: &[u8], start: usize) -> (r: usize)
    requires
        start <= bytes@.len(),
    ensures
        r as int == st_end(bytes@, start as int),
{
    let mut i = start;
    while i < bytes.len()
        invariant
            start <= i <= bytes@.len(),
            st_end(bytes@, i as int) == st_end(bytes@, start as int),
        decreases bytes.len() - i,
    {
        if bytes[i] == 0x1b && i + 1 < bytes.len() && bytes[i + 1] == 0x5c {
            return i + 2;
        }
        i = i + 1;
    }
    i
}

/// Removes the escape sequences from a byte string.
pub fn strip_escape_bytes(bytes: &[u8]) -> (r: Vec<u8>)
    ensures
        r@ == stripped(bytes@),
{
    let ghost b = bytes@;
    let mut out: Vec<u8> = Vec::new();
    let mut i: usize = 0;
    while i < bytes.len()
        invariant
            i <= bytes@.len(),
            b == bytes@,
            stripped(b) == out@ + strip_from(b, i as int),
        decreases bytes.len() - i,
    {
        if bytes[i] != 0x1b {
            out.push(bytes[i]);
            assert(strip_from(b, i as int) == seq![b[i as int]] + strip_from(b, i + 1));
            assert(out@ + strip_from(b, i + 1) =~= (out@.drop_last() + seq![b[i as int]])
                + strip_from(b, i + 1));
            i = i + 1;
            continue;
        }
        if i + 1 >= bytes.len() {
            assert(strip_from(b, i as int) =~= Seq::<u8>::empty());
            assert(out@ + strip_from(b, i as int) =~= out@);
            assert(out@ + strip_from(b, bytes.len() as int) =~= out@);
            i = bytes.len();
            continue;
        }
        proof {
            lemma_escape_end(b, i as int);
        }
        let c = bytes[i + 1];
        let next = if c == 0x5b {
            skip_until(bytes, i + 2)
        } else if c == 0x5d {
            skip_osc(bytes, i + 2)
        } else if c == 0x50 || c == 0x58 || c == 0x5e || c == 0x5f {
            skip_st(bytes, i + 2)
        } else if c == 0x5c {
            i + 2
        } else {
            let mut j = i + 2;
            while j < bytes.len() && 0x20 <= bytes[j] && bytes[j] <= 0x2f
                invariant
                    i + 2 <= j <= bytes@.len(),
                    b == bytes@,
                    intermediates_end(b, j as int) == intermediates_end(b, i + 2),
                decreases bytes.len() - j,
            {
                j = j + 1;
            }
            if j < bytes.len() && 0x30 <= bytes[j] && bytes[j] <= 0x7e {
                j + 1
            } else {
                j
            }
        };
        assert(next as int == escape_end(b, i as int));
        i = next;
    }
    assert(strip_from(b, i as int) =~= Seq::<u8>::empty());
    assert(out@ + strip_from(b, i as int) =~= out@);
    out
}

/// Decodes bytes as UTF-8, replacing each invalid sequence with U+FFFD
/// (`String::from_utf8_lossy`). The result is a function of the bytes alone;
/// on valid UTF-8 it is the decoded text.
#[verifier::external_body]
pub(crate) fn from_utf8_lossy(bytes: &[u8]) -> (r: String)
    ensures
        r@ == utf8_lossy(bytes@),
        valid_utf8(bytes@) ==> r@ == decode_utf8(bytes@),
{
    String::from_utf8_lossy(bytes).into_owned()
}

fn strip_escapes(s: &str) -> (r: String)
    ensures
        r@ == utf8_lossy(stripped(encode_utf8(s@))),
        valid_utf8(stripped(encode_utf8(s@))) ==> r@ == decode_utf8(stripped(encode_utf8(s@))),
{
    let out = strip_escape_bytes(s.as_bytes());
    from_utf8_lossy(out.as_slice())
}

/// Tests [`is_control`].
pub fn is_control_char(c: char) -> (r: bool)
    ensures
        r == is_control(c),
{
    let u = c as u32;
    u < 32 || u == 127 || (0x80 <= u && u <= 0x9f)
}

/// Strips terminal escapes and replaces control characters so
/// process-controlled strings cannot break a table or hijack the TTY.
/// JSON output keeps the text as it is. When the bytes left after stripping
/// are valid UTF-8 (they are unless an escape cut a character in two), the
/// result is their text with controls blanked.
pub fn sanitize_display(s: &str) -> (r: String)
    ensures
        r@ == sanitized(s@),
        s@.len() > 0 && valid_utf8(stripped(encode_utf8(s@))) ==> r@ == blank_controls(
            decode_utf8(stripped(encode_utf8(s@))),
        ),
        (forall|k: int| 0 <= k < s@.len() ==> !is_control(#[trigger] s@[k])) ==> r@ == s@,
{
    if s.is_empty() {
        return String::new();
    }
    let stripped_text = strip_escapes(s);
    proof {
        if forall|k: int| 0 <= k < s@.len() ==> !is_control(#[trigger] s@[k]) {
            assert forall|k: int| 0 <= k < s@.len() implies s@[k] != '\x1b' by {
                assert(!is_control(s@[k]));
            }
            lemma_encode_no_esc(s@);
            let b = encode_utf8(s@);
            lemma_strip_plain(b, 0);
            assert(b.subrange(0, b.len() as int) =~= b);
            encode_utf8_valid_utf8(s@);
            encode_utf8_decode_utf8(s@);
            assert(stripped_text@ == s@);
            assert(blank_controls(s@) =~= s@);
        }
    }
    let cs = chars_of(stripped_text.as_str());
    let mut out: Vec<char> = Vec::new();
    let mut i: usize = 0;
    while i < cs.len()
        invariant
            i <= cs.len(),
            out@ == blank_controls(cs@.take(i as int)),
        decreases cs.len() - i,
    {
        let c = cs[i];
        if is_control_char(c) {
            out.push(' ');
        } else {
            out.push(c);
        }
        assert(blank_controls(cs@.take(i + 1)) =~= blank_controls(cs@.take(i as int)).push(
            if is_control(c) { ' ' } else { c },
        ));
        i = i + 1;
    }
    assert(cs@.take(cs.len() as int) =~= cs@);
    string_of(out.as_slice())
}

/// Helper for CLI table formatting that displays `-` if empty after sanitizing.
pub fn display_cell(s: &str) -> (r: String)
    ensures
        r@ == cell_text(s@),
{
    let sanitized_text = sanitize_display(s);
    let trimmed = trim_str(sanitized_text.as_str());
    if trimmed.len() == 0 {
        let mut v: Vec<char> = Vec::new();
        v.push('-');
        string_of(v.as_slice())
    } else {
        string_of(trimmed.as_slice())
    }
}

/// Helper to display `-` for an empty string.
pub fn dash(s: &str) -> (r: &str)
    ensures
        r@ == dash_text(s@),
{
    if s.is_empty() {
        proof {
            reveal_strlit("-");
        }
        "-"
    } else {
        s
    }
}

} // verus!
