//! Clickable links in text written to the terminal: OSC 8 hyperlinks around
//! URLs, leaving existing escape sequences alone.

use vstd::prelude::*;
use vstd::utf8::{encode_utf8, is_char_boundary};
use crate::env_context::hex_val;
use crate::text::{
    chars_of, decimal, decimal_exec, is_whitespace, is_ws, push_char, push_chars, push_str, slice,
    starts_with, starts_with_exec, string_of, trim, trim_bounds,
};

verus! {

pub open spec fn esc() -> char {
    '\u{1b}'
}

pub open spec fn is_ascii_alpha(c: char) -> bool {
    ('a' <= c && c <= 'z') || ('A' <= c && c <= 'Z')
}

/// End of a run of ASCII letters starting at `j`.
pub open spec fn alpha_run_end(t: Seq<char>, j: int) -> int
    decreases t.len() - j,
{
    if 0 <= j < t.len() && is_ascii_alpha(t[j]) {
        alpha_run_end(t, j + 1)
    } else {
        j
    }
}

/// Index of the terminator of an OSC sequence whose body starts at `j`: a BEL, or
/// the backslash of ESC `\\`.
pub open spec fn osc_end(t: Seq<char>, j: int) -> Option<int>
    decreases t.len() - j,
{
    if j < 0 || j >= t.len() {
        None
    } else if t[j] == '\u{7}' {
        Some(j)
    } else if t[j] == esc() && j + 1 < t.len() && t[j + 1] == '\\' {
        Some(j + 1)
    } else {
        osc_end(t, j + 1)
    }
}

/// Last index of the escape sequence starting with ESC at `i`: an OSC sequence up to
/// its terminator, or ESC followed by ASCII letters.
pub open spec fn escape_end(t: Seq<char>, i: int) -> Option<int> {
    if i + 1 < t.len() && t[i + 1] == ']' {
        osc_end(t, i + 2)
    } else {
        let j = alpha_run_end(t, i + 1);
        if j > i + 1 {
            Some(j - 1)
        } else {
            None
        }
    }
}

pub proof fn lemma_alpha_run_end(t: Seq<char>, j: int)
    requires
        0 <= j,
    ensures
        j <= alpha_run_end(t, j) <= if j > t.len() { j } else { t.len() as int },
    decreases t.len() - j,
{
    if 0 <= j < t.len() && is_ascii_alpha(t[j]) {
        lemma_alpha_run_end(t, j + 1);
    }
}

pub proof fn lemma_osc_end(t: Seq<char>, j: int)
    ensures
        osc_end(t, j) matches Some(e) ==> j <= e < t.len(),
    decreases t.len() - j,
{
    if j >= 0 && j < t.len() && t[j] != '\u{7}' && !(t[j] == esc() && j + 1 < t.len() && t[j + 1]
        == '\\') {
        lemma_osc_end(t, j + 1);
    }
}

pub proof fn lemma_escape_end(t: Seq<char>, i: int)
    requires
        0 <= i < t.len(),
    ensures
        escape_end(t, i) matches Some(e) ==> i < e < t.len(),
{
    lemma_osc_end(t, i + 2);
    lemma_alpha_run_end(t, i + 1);
}

/// Characters that may appear in a URL.
pub open spec fn url_char(c: char) -> bool {
    ||| ('a' <= c && c <= 'z')
    ||| ('A' <= c && c <= 'Z')
    ||| ('0' <= c && c <= '9')
    ||| c == '-' || c == '+' || c == '&' || c == '@' || c == '#' || c == '/' || c == '%'
    ||| c == '?' || c == '=' || c == '~' || c == '_' || c == '.' || c == ',' || c == ';'
    ||| c == ':' || c == '!' || c == '|'
}

/// Characters dropped from the end of a URL.
pub open spec fn trailing_punct(c: char) -> bool {
    c == '.' || c == ',' || c == ';' || c == ':' || c == '!' || c == '?' || c == ')' || c == ']'
        || c == '>' || c == '"' || c == '\''
}

/// Characters after which a URL may start (besides whitespace).
pub open spec fn url_opener(c: char) -> bool {
    c == '"' || c == '\'' || c == '(' || c == '[' || c == '<' || c == '{' || c == '|'
}

/// Length of the URL scheme (or `www.`) that `r` starts with; 0 for none.
pub open spec fn url_prefix_len(r: Seq<char>) -> int {
    if starts_with(r, "http://"@) {
        7
    } else if starts_with(r, "https://"@) {
        8
    } else if starts_with(r, "ftp://"@) {
        6
    } else if starts_with(r, "file://"@) {
        7
    } else if starts_with(r, "www."@) {
        4
    } else {
        0
    }
}

pub open spec fn url_run_end(t: Seq<char>, j: int) -> int
    decreases t.len() - j,
{
    if 0 <= j < t.len() && url_char(t[j]) {
        url_run_end(t, j + 1)
    } else {
        j
    }
}

pub open spec fn punct_trim_end(t: Seq<char>, lo: int, e: int) -> int
    decreases e - lo,
{
    if e > lo && 0 < e <= t.len() && trailing_punct(t[e - 1]) {
        punct_trim_end(t, lo, e - 1)
    } else {
        e
    }
}

/// The end of a URL starting at `start`, if one starts there: a scheme (or
/// `www.`) at a word start, URL characters after it, trailing punctuation dropped,
/// and something left after the scheme.
pub open spec fn url_at(t: Seq<char>, start: int) -> Option<int> {
    let skip = url_prefix_len(t.skip(start));
    if skip == 0 {
        None
    } else if start > 0 && !(is_ws(t[start - 1]) || url_opener(t[start - 1])) {
        None
    } else {
        let e = punct_trim_end(t, start + skip, url_run_end(t, start + skip));
        if e <= start + skip {
            None
        } else {
            Some(e)
        }
    }
}

pub proof fn lemma_url_run_end(t: Seq<char>, j: int)
    requires
        0 <= j <= t.len(),
    ensures
        j <= url_run_end(t, j) <= t.len(),
    decreases t.len() - j,
{
    if j < t.len() && url_char(t[j]) {
        lemma_url_run_end(t, j + 1);
    }
}

pub proof fn lemma_punct_trim_end(t: Seq<char>, lo: int, e: int)
    requires
        lo <= e,
    ensures
        lo <= punct_trim_end(t, lo, e) <= e,
    decreases e - lo,
{
    if e > lo && 0 < e <= t.len() && trailing_punct(t[e - 1]) {
        lemma_punct_trim_end(t, lo, e - 1);
    }
}

pub proof fn lemma_url_at(t: Seq<char>, start: int)
    requires
        0 <= start < t.len(),
    ensures
        url_at(t, start) matches Some(e) ==> start < e <= t.len(),
{
    let skip = url_prefix_len(t.skip(start));
    reveal_strlit("http://");
    reveal_strlit("https://");
    reveal_strlit("ftp://");
    reveal_strlit("file://");
    reveal_strlit("www.");
    if skip > 0 {
        assert(skip <= t.skip(start).len());
        lemma_url_run_end(t, start + skip);
        lemma_punct_trim_end(t, start + skip, url_run_end(t, start + skip));
    }
}

/// `text.trim()`, with `https://` put before a `www.` address.
pub open spec fn normalized_uri(text: Seq<char>) -> Seq<char> {
    let t = trim(text);
    if starts_with(t, "www."@) {
        "https://"@ + t
    } else {
        t
    }
}

/// The hyperlinked, underlined, coloured form of a URL.
pub open spec fn link_markup(url: Seq<char>, r: u8, g: u8, b: u8) -> Seq<char> {
    "\u{1b}]8;;"@ + normalized_uri(url) + "\u{1b}\\\u{1b}[4m\u{1b}[38;2;"@ + decimal(r as nat) + seq![';']
        + decimal(g as nat) + seq![';'] + decimal(b as nat) + seq!['m'] + url
        + "\u{1b}[0m\u{1b}]8;;\u{1b}\\"@
}

/// The text from index `i` on with each URL wrapped in link markup and each escape
/// sequence copied as it is.
pub open spec fn linkify_from(t: Seq<char>, i: int, r: u8, g: u8, b: u8) -> Seq<char>
    decreases t.len() - i,
{
    if i < 0 || i >= t.len() {
        Seq::empty()
    } else if t[i] == esc() && escape_end(t, i) is Some {
        let e = escape_end(t, i)->Some_0;
        proof {
            lemma_escape_end(t, i);
        }
        t.subrange(i, e + 1) + linkify_from(t, e + 1, r, g, b)
    } else {
        match url_at(t, i) {
            Some(e) => {
                proof {
                    lemma_url_at(t, i);
                }
                link_markup(t.subrange(i, e), r, g, b) + linkify_from(t, e, r, g, b)
            },
            None => seq![t[i]] + linkify_from(t, i + 1, r, g, b),
        }
    }
}

/// `s` without its leading `#` characters (`trim_start_matches('#')`).
pub open spec fn strip_hashes(s: Seq<char>) -> Seq<char>
    decreases s.len(),
{
    if s.len() > 0 && s[0] == '#' {
        strip_hashes(s.drop_first())
    } else {
        s
    }
}

/// The hex digits of a colour: trimmed, without leading `#`.
pub open spec fn hex_part(color: Seq<char>) -> Seq<char> {
    strip_hashes(trim(color))
}

/// `u8::from_str_radix(s, 16)` for the UTF-8 bytes `b` of one or two characters'
/// worth of text: an optional `+`, then hex digits.
pub open spec fn radix16(b: Seq<u8>) -> Option<u8> {
    let d = if b.len() > 0 && b[0] == 43 {
        b.skip(1)
    } else {
        b
    };
    if b.len() == 1 && b[0] == 43 {
        None
    } else if d.len() == 1 {
        hex_val(d[0])
    } else if d.len() == 2 {
        match (hex_val(d[0]), hex_val(d[1])) {
            (Some(h), Some(l)) => Some((h * 16 + l) as u8),
            _ => None,
        }
    } else {
        None
    }
}

pub open spec fn or_default(o: Option<u8>, d: u8) -> u8 {
    match o {
        Some(v) => v,
        None => d,
    }
}

/// The RGB value of a `#rrggbb` or `#rgb` colour; a component that does not parse
/// takes the default link colour's, another length gives the default link colour.
pub open spec fn rgb_of(color: Seq<char>) -> (u8, u8, u8) {
    let hb = encode_utf8(hex_part(color));
    if hb.len() == 6 {
        (
            or_default(radix16(hb.subrange(0, 2)), 108),
            or_default(radix16(hb.subrange(2, 4)), 182),
            or_default(radix16(hb.subrange(4, 6)), 255),
        )
    } else if hb.len() == 3 {
        (
            (or_default(radix16(hb.subrange(0, 1)), 6) * 17) as u8,
            (or_default(radix16(hb.subrange(1, 2)), 6) * 17) as u8,
            (or_default(radix16(hb.subrange(2, 3)), 6) * 17) as u8,
        )
    } else {
        (108, 182, 255)
    }
}

/// The colour's digit groups start at character boundaries, so that slicing them
/// out of the text does not panic.
pub open spec fn color_slices_ok(color: Seq<char>) -> bool {
    let hb = encode_utf8(hex_part(color));
    &&& hb.len() == 6 ==> is_char_boundary(hb, 2) && is_char_boundary(hb, 4)
    &&& hb.len() == 3 ==> is_char_boundary(hb, 1) && is_char_boundary(hb, 2)
}

fn hex_part_exec(color: &str) -> (r: String)
    ensures
        r@ == hex_part(color@),
{
    let v = chars_of(color);
    let (a, b) = trim_bounds(&v, 0, v.len());
    assert(v@.subrange(0, v@.len() as int) =~= v@);
    let mut i = a;
    while i < b && v[i] == '#'
        invariant
            a <= i <= b <= v@.len(),
            strip_hashes(v@.subrange(i as int, b as int)) == hex_part(color@),
        decreases b - i,
    {
        assert(v@.subrange(i as int, b as int).drop_first() =~= v@.subrange(i + 1, b as int));
        i += 1;
    }
    let h = slice(&v, i, b);
    string_of(&h)
}

fn radix16_exec(b: &[u8], lo: usize, hi: usize) -> (r: Option<u8>)
    requires
        lo < hi <= b@.len(),
        hi - lo <= 2,
    ensures
        r == radix16(b@.subrange(lo as int, hi as int)),
{
    let ghost s = b@.subrange(lo as int, hi as int);
    let mut d = lo;
    if b[lo] == 43 {
        if hi - lo == 1 {
            return None;
        }
        d = lo + 1;
        assert(s.skip(1) =~= b@.subrange(d as int, hi as int));
    } else {
        assert(s =~= b@.subrange(d as int, hi as int));
    }
    if hi - d == 1 {
        crate::env_context::from_hex(b[d])
    } else {
        match (crate::env_context::from_hex(b[d]), crate::env_context::from_hex(b[d + 1])) {
            (Some(h), Some(l)) => Some(h * 16 + l),
            _ => None,
        }
    }
}

/// Whether slicing the colour's digit groups stays on character boundaries.
pub fn color_slices_valid(color: &str) -> (r: bool)
    ensures
        r == color_slices_ok(color@),
{
    let h = hex_part_exec(color);
    let hs = h.as_str();
    let n = hs.as_bytes().len();
    if n == 6 {
        hs.is_char_boundary(2) && hs.is_char_boundary(4)
    } else if n == 3 {
        hs.is_char_boundary(1) && hs.is_char_boundary(2)
    } else {
        true
    }
}

/// The RGB value of a hex colour (see `rgb_of`).
pub fn parse_hex_rgb(color: &str) -> (r: (u8, u8, u8))
    requires
        color_slices_ok(color@),
    ensures
        r == rgb_of(color@),
{
    let h = hex_part_exec(color);
    let b = h.as_str().as_bytes();
    if b.len() == 6 {
        let r = match radix16_exec(b, 0, 2) {
            Some(v) => v,
            None => 108,
        };
        let g = match radix16_exec(b, 2, 4) {
            Some(v) => v,
            None => 182,
        };
        let bl = match radix16_exec(b, 4, 6) {
            Some(v) => v,
            None => 255,
        };
        (r, g, bl)
    } else if b.len() == 3 {
        let r = match radix16_exec(b, 0, 1) {
            Some(v) => v,
            None => 6,
        };
        let g = match radix16_exec(b, 1, 2) {
            Some(v) => v,
            None => 6,
        };
        let bl = match radix16_exec(b, 2, 3) {
            Some(v) => v,
            None => 6,
        };
        (r * 17, g * 17, bl * 17)
    } else {
        (108, 182, 255)
    }
}

/// `str::trim` of a URL, with `https://` before a `www.` address.
pub fn normalize_uri(text: &str) -> (r: String)
    ensures
        r@ == normalized_uri(text@),
{
    let v = chars_of(text);
    let (a, b) = trim_bounds(&v, 0, v.len());
    assert(v@.subrange(0, v@.len() as int) =~= v@);
    let t = slice(&v, a, b);
    let www = chars_of("www.");
    if starts_with_exec(&t, &www) {
        let mut s = String::from_str("https://");
        push_chars(&mut s, &t, 0, t.len());
        assert(t@.subrange(0, t@.len() as int) =~= t@);
        s
    } else {
        string_of(&t)
    }
}

fn is_ascii_alpha_exec(c: char) -> (r: bool)
    ensures
        r == is_ascii_alpha(c),
{
    ('a' <= c && c <= 'z') || ('A' <= c && c <= 'Z')
}

/// Index of the last character of the escape sequence starting at `start`.
pub fn find_escape_end(t: &Vec<char>, start: usize) -> (r: Option<usize>)
    requires
        start < t@.len(),
        t@[start as int] == esc(),
    ensures
        match r {
            Some(e) => escape_end(t@, start as int) == Some(e as int),
            None => escape_end(t@, start as int) is None,
        },
{
    let n = t.len();
    if n - start > 1 && t[start + 1] == ']' {
        let mut j = start + 2;
        while j < n
            invariant
                n == t@.len(),
                start + 2 <= j,
                start + 1 < n,
                t@[start + 1] == ']',
                osc_end(t@, j as int) == osc_end(t@, start + 2),
            decreases n - j,
        {
            if t[j] == '\u{7}' {
                assert(osc_end(t@, j as int) == Some(j as int));
                return Some(j);
            }
            if t[j] == '\u{1b}' && n - j > 1 && t[j + 1] == '\\' {
                return Some(j + 1);
            }
            j += 1;
        }
        return None;
    }
    let mut j = start + 1;
    while j < n && is_ascii_alpha_exec(t[j])
        invariant
            n == t@.len(),
            start + 1 <= j <= n,
            alpha_run_end(t@, j as int) == alpha_run_end(t@, start + 1),
        decreases n - j,
    {
        j += 1;
    }
    if j > start + 1 {
        Some(j - 1)
    } else {
        None
    }
}

pub fn is_url_char(c: char) -> (r: bool)
    ensures
        r == url_char(c),
{
    ('a' <= c && c <= 'z') || ('A' <= c && c <= 'Z') || ('0' <= c && c <= '9') || c == '-' || c
        == '+' || c == '&' || c == '@' || c == '#' || c == '/' || c == '%' || c == '?' || c == '='
        || c == '~' || c == '_' || c == '.' || c == ',' || c == ';' || c == ':' || c == '!' || c
        == '|'
}

fn is_trailing_punct(c: char) -> (r: bool)
    ensures
        r == trailing_punct(c),
{
    c == '.' || c == ',' || c == ';' || c == ':' || c == '!' || c == '?' || c == ')' || c == ']'
        || c == '>' || c == '"' || c == '\''
}

fn url_prefix_len_exec(t: &Vec<char>, start: usize) -> (r: usize)
    requires
        start <= t@.len(),
    ensures
        r as int == url_prefix_len(t@.skip(start as int)),
{
    let rest = slice(t, start, t.len());
    assert(rest@ =~= t@.skip(start as int));
    if starts_with_exec(&rest, &chars_of("http://")) {
        7
    } else if starts_with_exec(&rest, &chars_of("https://")) {
        8
    } else if starts_with_exec(&rest, &chars_of("ftp://")) {
        6
    } else if starts_with_exec(&rest, &chars_of("file://")) {
        7
    } else if starts_with_exec(&rest, &chars_of("www.")) {
        4
    } else {
        0
    }
}

/// The end of the URL starting at `start`, if one does (see `url_at`).
pub fn scan_url(t: &Vec<char>, start: usize) -> (r: Option<usize>)
    requires
        start < t@.len(),
    ensures
        match r {
            Some(e) => url_at(t@, start as int) == Some(e as int),
            None => url_at(t@, start as int) is None,
        },
{
    let skip = url_prefix_len_exec(t, start);
    if skip == 0 {
        return None;
    }
    proof {
        reveal_strlit("http://");
        reveal_strlit("https://");
        reveal_strlit("ftp://");
        reveal_strlit("file://");
        reveal_strlit("www.");
        assert(skip <= t@.skip(start as int).len());
    }
    if start > 0 {
        let prev = t[start - 1];
        if !(is_whitespace(prev) || prev == '"' || prev == '\'' || prev == '(' || prev == '['
            || prev == '<' || prev == '{' || prev == '|') {
            return None;
        }
    }
    let n = t.len();
    assert(start + skip <= n);
    let lo = start + skip;
    let mut end = lo;
    while end < t.len() && is_url_char(t[end])
        invariant
            lo <= end <= t@.len(),
            url_run_end(t@, end as int) == url_run_end(t@, lo as int),
        decreases t@.len() - end,
    {
        end += 1;
    }
    let ghost run = end;
    while end > lo && is_trailing_punct(t[end - 1])
        invariant
            lo <= end <= run <= t@.len(),
            punct_trim_end(t@, lo as int, end as int) == punct_trim_end(t@, lo as int, run as int),
        decreases end - lo,
    {
        end -= 1;
    }
    if end <= lo {
        None
    } else {
        Some(end)
    }
}

fn push_link(out: &mut String, t: &Vec<char>, lo: usize, hi: usize, r: u8, g: u8, b: u8)
    requires
        lo <= hi <= t@.len(),
    ensures
        final(out)@ == old(out)@ + link_markup(t@.subrange(lo as int, hi as int), r, g, b),
{
    let url = slice(t, lo, hi);
    let us = string_of(&url);
    let uri = normalize_uri(us.as_str());
    let mut m = String::from_str("\u{1b}]8;;");
    push_str(&mut m, uri.as_str());
    push_str(&mut m, "\u{1b}\\\u{1b}[4m\u{1b}[38;2;");
    let dr = string_of(&decimal_exec(r as u64));
    push_str(&mut m, dr.as_str());
    push_char(&mut m, ';');
    let dg = string_of(&decimal_exec(g as u64));
    push_str(&mut m, dg.as_str());
    push_char(&mut m, ';');
    let db = string_of(&decimal_exec(b as u64));
    push_str(&mut m, db.as_str());
    push_char(&mut m, 'm');
    push_str(&mut m, us.as_str());
    push_str(&mut m, "\u{1b}[0m\u{1b}]8;;\u{1b}\\");
    proof {
        assert(seq![';'] =~= Seq::<char>::empty().push(';'));
        assert(seq!['m'] =~= Seq::<char>::empty().push('m'));
        assert(m@ =~= link_markup(t@.subrange(lo as int, hi as int), r, g, b));
    }
    push_str(out, m.as_str());
}

/// Wrap each URL of `text` in an OSC 8 hyperlink, underlined in `link_color`;
/// escape sequences already in the text are copied unchanged.
pub fn linkify(text: &str, link_color: &str) -> (r: String)
    requires
        color_slices_ok(link_color@),
    ensures
        r@ == linkify_from(text@, 0, rgb_of(link_color@).0, rgb_of(link_color@).1, rgb_of(link_color@).2),
{
    let (r, g, b) = parse_hex_rgb(link_color);
    let t = chars_of(text);
    let mut out = String::new();
    let mut i: usize = 0;
    while i < t.len()
        invariant
            i <= t@.len(),
            out@ + linkify_from(t@, i as int, r, g, b) == linkify_from(t@, 0, r, g, b),
        decreases t@.len() - i,
    {
        let ghost before = out@;
        if t[i] == '\u{1b}' {
            match find_escape_end(&t, i) {
                Some(end) => {
                    proof {
                        lemma_escape_end(t@, i as int);
                    }
                    push_chars(&mut out, &t, i, end + 1);
                    assert(out@ + linkify_from(t@, end + 1, r, g, b) =~= before + linkify_from(t@, i as int, r, g, b));
                    i = end + 1;
                    continue;
                },
                None => {},
            }
        }
        match scan_url(&t, i) {
            Some(end) => {
                proof {
                    lemma_url_at(t@, i as int);
                }
                push_link(&mut out, &t, i, end, r, g, b);
                assert(out@ + linkify_from(t@, end as int, r, g, b) =~= before + linkify_from(t@, i as int, r, g, b));
                i = end;
            },
            None => {
                push_char(&mut out, t[i]);
                assert(out@ + linkify_from(t@, i + 1, r, g, b) =~= before + linkify_from(t@, i as int, r, g, b));
                i += 1;
            },
        }
    }
    assert(linkify_from(t@, i as int, r, g, b) =~= Seq::<char>::empty());
    out
}

/// Text with no escape character and no link in it comes back unchanged.
pub proof fn lemma_linkify_plain(t: Seq<char>, i: int, r: u8, g: u8, b: u8)
    requires
        0 <= i <= t.len(),
        forall|k: int| i <= k < t.len() ==> t[k] != esc() && url_at(t, k) is None,
    ensures
        linkify_from(t, i, r, g, b) == t.skip(i),
    decreases t.len() - i,
{
    if i < t.len() {
        lemma_linkify_plain(t, i + 1, r, g, b);
        assert(seq![t[i]] + t.skip(i + 1) =~= t.skip(i));
    } else {
        assert(t.skip(i) =~= Seq::<char>::empty());
    }
}

proof fn lemma_run_chars(t: Seq<char>, j: int)
    requires
        0 <= j <= t.len(),
    ensures
        forall|k: int| j <= k < url_run_end(t, j) ==> url_char(#[trigger] t[k]),
    decreases t.len() - j,
{
    if j < t.len() && url_char(t[j]) {
        lemma_run_chars(t, j + 1);
    }
}

proof fn lemma_trim_keeps(t: Seq<char>, lo: int, e: int, m: int)
    requires
        0 <= lo < m <= e <= t.len(),
        !trailing_punct(t[m - 1]),
    ensures
        m <= punct_trim_end(t, lo, e),
        !trailing_punct(t[punct_trim_end(t, lo, e) - 1]),
    decreases e - lo,
{
    if trailing_punct(t[e - 1]) {
        assert(e > m);
        assert(punct_trim_end(t, lo, e) == punct_trim_end(t, lo, e - 1));
        lemma_trim_keeps(t, lo, e - 1, m);
    } else {
        assert(punct_trim_end(t, lo, e) == e);
    }
}

proof fn lemma_not_starts(r: Seq<char>, p: Seq<char>, j: int)
    requires
        0 <= j < p.len(),
        j < r.len(),
        r[j] != p[j],
    ensures
        !starts_with(r, p),
{
    if starts_with(r, p) {
        assert(r.subrange(0, p.len() as int)[j] == r[j]);
    }
}

/// A link scheme (`http://`, `https://`, `ftp://`, `file://`) or `www.`, at a
/// word start (the text's start, after whitespace or an opening bracket or
/// quote) and followed by a letter or digit, starts a URL. The URL runs past
/// the scheme over URL characters and does not end in trailing punctuation,
/// so `linkify` wraps it in hyperlink markup.
pub proof fn lemma_scheme_starts_url(t: Seq<char>, i: int, scheme: Seq<char>)
    requires
        scheme == "http://"@ || scheme == "https://"@ || scheme == "ftp://"@ || scheme == "file://"@
            || scheme == "www."@,
        0 <= i,
        i + scheme.len() < t.len(),
        t.subrange(i, i + scheme.len()) == scheme,
        i == 0 || is_ws(t[i - 1]) || url_opener(t[i - 1]),
        is_ascii_alpha(t[i + scheme.len()]) || ('0' <= t[i + scheme.len()] && t[i + scheme.len()] <= '9'),
    ensures
        url_at(t, i) matches Some(e) && i + scheme.len() < e <= t.len() && (forall|k: int|
            i + scheme.len() <= k < e ==> url_char(#[trigger] t[k])) && !trailing_punct(t[e - 1]),
{
    reveal_strlit("http://");
    reveal_strlit("https://");
    reveal_strlit("ftp://");
    reveal_strlit("file://");
    reveal_strlit("www.");
    let r = t.skip(i);
    let k = scheme.len() as int;
    assert(r.subrange(0, k) =~= t.subrange(i, i + k));
    assert forall|j: int| 0 <= j < k implies r[j] == scheme[j] by {
        assert(r.subrange(0, k)[j] == r[j]);
    }
    if scheme == "http://"@ {
        assert(starts_with(r, "http://"@));
    } else if scheme == "https://"@ {
        lemma_not_starts(r, "http://"@, 4);
        assert(r.subrange(0, 8) =~= "https://"@);
    } else if scheme == "ftp://"@ {
        lemma_not_starts(r, "http://"@, 0);
        lemma_not_starts(r, "https://"@, 0);
        assert(r.subrange(0, 6) =~= "ftp://"@);
    } else if scheme == "file://"@ {
        lemma_not_starts(r, "http://"@, 0);
        lemma_not_starts(r, "https://"@, 0);
        lemma_not_starts(r, "ftp://"@, 1);
        assert(r.subrange(0, 7) =~= "file://"@);
    } else {
        lemma_not_starts(r, "http://"@, 0);
        lemma_not_starts(r, "https://"@, 0);
        lemma_not_starts(r, "ftp://"@, 0);
        lemma_not_starts(r, "file://"@, 0);
        assert(r.subrange(0, 4) =~= "www."@);
    }
    assert(url_prefix_len(r) == k);
    let lo = i + k;
    assert(url_char(t[lo]));
    lemma_url_run_end(t, lo + 1);
    assert(url_run_end(t, lo) == url_run_end(t, lo + 1));
    lemma_run_chars(t, lo);
    lemma_trim_keeps(t, lo, url_run_end(t, lo), lo + 1);
    lemma_punct_trim_end(t, lo, url_run_end(t, lo));
}

} // verus!
