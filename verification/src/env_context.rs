//! What the active terminal is running, and the environment pre-prompt built
//! from it for Ask.

use vstd::prelude::*;
use vstd::utf8::{decode_utf8, valid_utf8};
use crate::text::{
    ascii_lower, ascii_lower_exec, chars_of, contains, contains_exec, push_char, push_chars,
    opt_chars, push_str, slice, string_of, string_views, trim, trim_bounds, trim_end,
};

verus! {

/// High-level guess of what the active terminal pane is running.
#[derive(Debug, Clone, Copy, PartialEq, Eq, Structural)]
pub enum EnvKind {
    Shell,
    Postgres,
    Mysql,
    Sqlite,
    Mongo,
    Redis,
    Python,
    Node,
    Ruby,
    Docker,
    /// Could not classify beyond "a terminal".
    Unknown,
}

impl Default for EnvKind {
    fn default() -> (r: Self)
        ensures
            r == EnvKind::Unknown,
    {
        EnvKind::Unknown
    }
}

pub open spec fn kind_label(k: EnvKind) -> Seq<char> {
    match k {
        EnvKind::Shell => "interactive shell"@,
        EnvKind::Postgres => "PostgreSQL (psql)"@,
        EnvKind::Mysql => "MySQL / MariaDB client"@,
        EnvKind::Sqlite => "SQLite shell"@,
        EnvKind::Mongo => "MongoDB shell"@,
        EnvKind::Redis => "Redis CLI"@,
        EnvKind::Python => "Python REPL"@,
        EnvKind::Node => "Node.js REPL"@,
        EnvKind::Ruby => "Ruby / IRB"@,
        EnvKind::Docker => "Docker-related session"@,
        EnvKind::Unknown => "generic Linux terminal"@,
    }
}

impl EnvKind {
    pub fn label(self) -> (r: &'static str)
        ensures
            r@ == kind_label(self),
    {
        match self {
            EnvKind::Shell => "interactive shell",
            EnvKind::Postgres => "PostgreSQL (psql)",
            EnvKind::Mysql => "MySQL / MariaDB client",
            EnvKind::Sqlite => "SQLite shell",
            EnvKind::Mongo => "MongoDB shell",
            EnvKind::Redis => "Redis CLI",
            EnvKind::Python => "Python REPL",
            EnvKind::Node => "Node.js REPL",
            EnvKind::Ruby => "Ruby / IRB",
            EnvKind::Docker => "Docker-related session",
            EnvKind::Unknown => "generic Linux terminal",
        }
    }
}

/// Snapshot of the active terminal used to build an Ask environment pre-prompt.
#[derive(Debug, Clone, Default)]
pub struct TerminalContext {
    pub shell: String,
    pub cwd: Option<String>,
    pub title: Option<String>,
    pub recent_output: Option<String>,
    pub kind: EnvKind,
}

/// What `Path::new(p).file_name()` gives for a path, as text.
pub uninterp spec fn path_file_name(p: Seq<char>) -> Option<Seq<char>>;

/// `std::path::Path::new(path).file_name()`, read back as text. Claimed: the
/// result is `path_file_name` of the path.
#[verifier::external_body]
pub(crate) fn file_name_of(path: &str) -> (r: Option<String>)
    ensures
        match r {
            Some(n) => path_file_name(path@) == Some(n@),
            None => path_file_name(path@) is None,
        },
{
    std::path::Path::new(path).file_name().and_then(|n| n.to_str()).map(|n| n.to_string())
}

/// The shell's file name, or the whole path when it has none.
pub open spec fn shell_name(shell: Seq<char>) -> Seq<char> {
    match path_file_name(shell) {
        Some(n) => n,
        None => shell,
    }
}

fn shell_basename(shell: &str) -> (r: String)
    ensures
        r@ == shell_name(shell@),
{
    match file_name_of(shell) {
        Some(n) => n,
        None => String::from_str(shell),
    }
}

/// `text` without trailing whitespace, cut to its last `max` characters behind an ellipsis.
pub open spec fn clipped(text: Seq<char>, max: nat) -> Seq<char> {
    let t = trim_end(text);
    if t.len() <= max {
        t
    } else {
        seq!['\u{2026}'] + t.skip(t.len() - max)
    }
}

pub fn clip_output(text: &str, max_chars: usize) -> (r: String)
    ensures
        r@ == clipped(text@, max_chars as nat),
{
    let v = chars_of(text);
    let mut b = v.len();
    assert(v@.take(v@.len() as int) =~= v@);
    while b > 0 && crate::text::is_whitespace(v[b - 1])
        invariant
            b <= v@.len(),
            trim_end(v@.take(b as int)) == trim_end(v@),
        decreases b,
    {
        assert(v@.take(b as int).drop_last() =~= v@.take(b - 1));
        b -= 1;
    }
    assert(v@.take(v@.len() as int) =~= v@);
    assert(trim_end(v@.take(b as int)) == v@.take(b as int));
    if b <= max_chars {
        let t = slice(&v, 0, b);
        assert(t@ =~= v@.take(b as int));
        string_of(&t)
    } else {
        let mut s = String::new();
        push_char(&mut s, '\u{2026}');
        push_chars(&mut s, &v, b - max_chars, b);
        assert(s@ =~= seq!['\u{2026}'] + v@.take(b as int).skip(b - max_chars));
        s
    }
}

/// One lower-case text of the title (with a line break after it) and the recent output.
pub open spec fn haystack(title: Option<Seq<char>>, output: Option<Seq<char>>) -> Seq<char> {
    let t = match title {
        Some(t) => t + seq!['\n'],
        None => Seq::empty(),
    };
    let o = match output {
        Some(o) => o,
        None => Seq::empty(),
    };
    ascii_lower(t + o)
}

pub open spec fn contains_any(hay: Seq<char>, needles: Seq<Seq<char>>) -> bool {
    exists|i: int| 0 <= i < needles.len() && contains(hay, #[trigger] needles[i])
}

/// Session kind from title and recent output, with the shell as a weak signal.
pub open spec fn kind_of(shell: Seq<char>, title: Option<Seq<char>>, output: Option<Seq<char>>) -> EnvKind {
    let h = haystack(title, output);
    let fallback = if shell.len() > 0 {
        EnvKind::Shell
    } else {
        EnvKind::Unknown
    };
    if h.len() == 0 {
        fallback
    } else if contains_any(h, seq!["psql"@, "postgres=#"@, "postgres=>"@, "postgres-#"@]) {
        EnvKind::Postgres
    } else if contains_any(h, seq!["mysql>"@, "mariadb>"@, "mysql "@, "mariadb "@]) {
        EnvKind::Mysql
    } else if contains_any(h, seq!["sqlite>"@, "sqlite3"@]) {
        EnvKind::Sqlite
    } else if contains_any(h, seq!["mongosh"@, "mongo>"@, "mongodb"@]) {
        EnvKind::Mongo
    } else if contains_any(h, seq!["redis-cli"@, "redis>"@]) {
        EnvKind::Redis
    } else if (contains(h, ">>>"@) || contains(h, "ipython"@)) && !contains(h, "node>"@) {
        EnvKind::Python
    } else if contains_any(h, seq!["node>"@, "nodejs"@]) {
        EnvKind::Node
    } else if contains_any(h, seq!["irb("@, "irb>"@]) {
        EnvKind::Ruby
    } else if contains_any(h, seq!["docker"@, "container"@]) {
        EnvKind::Docker
    } else {
        fallback
    }
}

/// Whether `hay` contains one of the string literals `needles`.
fn contains_any_exec(hay: &Vec<char>, needles: &[&str]) -> (r: bool)
    ensures
        r == exists|i: int| 0 <= i < needles@.len() && contains(hay@, #[trigger] needles@[i]@),
{
    let mut i: usize = 0;
    while i < needles.len()
        invariant
            i <= needles@.len(),
            forall|k: int| 0 <= k < i ==> !contains(hay@, #[trigger] needles@[k]@),
        decreases needles@.len() - i,
    {
        let n = chars_of(needles[i]);
        if contains_exec(hay, &n) {
            return true;
        }
        i += 1;
    }
    false
}

/// Detect session kind from title + recent output (+ shell name as weak signal).
pub fn detect_kind(ctx: &TerminalContext) -> (r: EnvKind)
    ensures
        r == kind_of(ctx.shell@, opt_chars(ctx.title), opt_chars(ctx.recent_output)),
{
    let mut s = String::new();
    match &ctx.title {
        Some(t) => {
            push_str(&mut s, t.as_str());
            push_char(&mut s, '\n');
        },
        None => {},
    }
    match &ctx.recent_output {
        Some(o) => push_str(&mut s, o.as_str()),
        None => {},
    }
    let raw = chars_of(s.as_str());
    let h = ascii_lower_exec(&raw);
    proof {
        let t = match opt_chars(ctx.title) {
            Some(t) => t + seq!['\n'],
            None => Seq::empty(),
        };
        let o = match opt_chars(ctx.recent_output) {
            Some(o) => o,
            None => Seq::empty(),
        };
        assert(raw@ =~= t + o);
    }
    let shell_known = ctx.shell.as_str().unicode_len() > 0;
    let fallback = if shell_known {
        EnvKind::Shell
    } else {
        EnvKind::Unknown
    };
    if h.len() == 0 {
        return fallback;
    }
    let a = ["psql", "postgres=#", "postgres=>", "postgres-#"];
    assert(a@ =~= seq!["psql", "postgres=#", "postgres=>", "postgres-#"]);
    if contains_any_exec(&h, &a) {
        assert(contains_any(h@, seq!["psql"@, "postgres=#"@, "postgres=>"@, "postgres-#"@]));
        return EnvKind::Postgres;
    }
    assert(!contains_any(h@, seq!["psql"@, "postgres=#"@, "postgres=>"@, "postgres-#"@]));
    let b = ["mysql>", "mariadb>", "mysql ", "mariadb "];
    if contains_any_exec(&h, &b) {
        assert(contains_any(h@, seq!["mysql>"@, "mariadb>"@, "mysql "@, "mariadb "@]));
        return EnvKind::Mysql;
    }
    assert(!contains_any(h@, seq!["mysql>"@, "mariadb>"@, "mysql "@, "mariadb "@]));
    let c = ["sqlite>", "sqlite3"];
    if contains_any_exec(&h, &c) {
        assert(contains_any(h@, seq!["sqlite>"@, "sqlite3"@]));
        return EnvKind::Sqlite;
    }
    assert(!contains_any(h@, seq!["sqlite>"@, "sqlite3"@]));
    let d = ["mongosh", "mongo>", "mongodb"];
    if contains_any_exec(&h, &d) {
        assert(contains_any(h@, seq!["mongosh"@, "mongo>"@, "mongodb"@]));
        return EnvKind::Mongo;
    }
    assert(!contains_any(h@, seq!["mongosh"@, "mongo>"@, "mongodb"@]));
    let e = ["redis-cli", "redis>"];
    if contains_any_exec(&h, &e) {
        assert(contains_any(h@, seq!["redis-cli"@, "redis>"@]));
        return EnvKind::Redis;
    }
    assert(!contains_any(h@, seq!["redis-cli"@, "redis>"@]));
    let p1 = chars_of(">>>");
    let p2 = chars_of("ipython");
    let p3 = chars_of("node>");
    if (contains_exec(&h, &p1) || contains_exec(&h, &p2)) && !contains_exec(&h, &p3) {
        return EnvKind::Python;
    }
    let f = ["node>", "nodejs"];
    if contains_any_exec(&h, &f) {
        assert(contains_any(h@, seq!["node>"@, "nodejs"@]));
        return EnvKind::Node;
    }
    assert(!contains_any(h@, seq!["node>"@, "nodejs"@]));
    let g = ["irb(", "irb>"];
    if contains_any_exec(&h, &g) {
        assert(contains_any(h@, seq!["irb("@, "irb>"@]));
        return EnvKind::Ruby;
    }
    assert(!contains_any(h@, seq!["irb("@, "irb>"@]));
    let k = ["docker", "container"];
    if contains_any_exec(&h, &k) {
        assert(contains_any(h@, seq!["docker"@, "container"@]));
        return EnvKind::Docker;
    }
    assert(!contains_any(h@, seq!["docker"@, "container"@]));
    fallback
}

/// The lines of `ls` with a line break between each two.
pub open spec fn join_lines(ls: Seq<Seq<char>>) -> Seq<char>
    decreases ls.len(),
{
    if ls.len() == 0 {
        Seq::empty()
    } else if ls.len() == 1 {
        ls[0]
    } else {
        join_lines(ls.drop_last()) + seq!['\n'] + ls.last()
    }
}

pub open spec fn kind_lines(kind: EnvKind) -> Seq<Seq<char>> {
    match kind {
        EnvKind::Unknown => seq![
            "- Detected session: could not identify a specific REPL or DB client."@,
            "- Assume a general Linux terminal. Prefer portable shell commands for this shell."@,
        ],
        other => seq![
            "- Detected session: "@ + kind_label(other),
            "- Tailor answers for "@ + kind_label(other)
                + ". If this is a DB/REPL prompt, prefer that language's statements over outer-shell wrappers unless the user asks for shell."@,
        ],
    }
}

pub open spec fn output_lines(output: Option<Seq<char>>) -> Seq<Seq<char>> {
    match output {
        Some(out) => {
            let c = clipped(out, 1200);
            if trim(c).len() > 0 {
                seq![
                    "- Recent visible terminal text (may include prompts/output):"@,
                    "```"@,
                    c,
                    "```"@,
                ]
            } else {
                Seq::empty()
            }
        },
        None => Seq::empty(),
    }
}

/// The lines of the environment pre-prompt.
pub open spec fn pre_prompt_lines(
    shell: Seq<char>,
    cwd: Option<Seq<char>>,
    title: Option<Seq<char>>,
    output: Option<Seq<char>>,
    kind: EnvKind,
) -> Seq<Seq<char>> {
    seq!["## Active terminal environment"@, "- Host shell: "@ + shell_name(shell) + " ("@ + shell + ")"@]
        + seq![
        match cwd {
            Some(c) => "- Working directory: "@ + c,
            None => "- Working directory: unknown"@,
        },
    ] + match title {
        Some(t) => seq!["- Window / tab title: "@ + t],
        None => Seq::empty(),
    } + kind_lines(kind) + output_lines(output) + seq![
        "- Treat this block as a mandatory pre-prompt for the user's question."@,
    ]
}

fn concat2(a: &str, b: &str) -> (r: String)
    ensures
        r@ == a@ + b@,
{
    let mut s = String::from_str(a);
    push_str(&mut s, b);
    s
}

fn push_line(ls: &mut Vec<String>, l: String)
    ensures
        string_views(final(ls)@) == string_views(old(ls)@).push(l@),
{
    ls.push(l);
    assert(string_views(ls@) =~= string_views(old(ls)@).push(l@));
}

/// Joins lines with line breaks.
fn join(ls: &Vec<String>) -> (r: String)
    ensures
        r@ == join_lines(string_views(ls@)),
{
    let mut s = String::new();
    let mut i: usize = 0;
    while i < ls.len()
        invariant
            i <= ls@.len(),
            s@ == join_lines(string_views(ls@).take(i as int)),
        decreases ls@.len() - i,
    {
        assert(string_views(ls@).take(i + 1).drop_last() =~= string_views(ls@).take(i as int));
        if i > 0 {
            push_char(&mut s, '\n');
        }
        push_str(&mut s, ls[i].as_str());
        i += 1;
    }
    assert(string_views(ls@).take(i as int) =~= string_views(ls@));
    s
}

/// The environment pre-prompt of a terminal snapshot.
pub open spec fn context_pre_prompt(ctx: TerminalContext) -> Seq<char> {
    join_lines(
        pre_prompt_lines(
            ctx.shell@,
            opt_chars(ctx.cwd),
            opt_chars(ctx.title),
            opt_chars(ctx.recent_output),
            ctx.kind,
        ),
    )
}

impl TerminalContext {
    /// Build a context pre-prompt. Always includes at least a generic terminal baseline.
    pub fn build_pre_prompt(&self) -> (r: String)
        ensures
            r@ == join_lines(
                pre_prompt_lines(
                    self.shell@,
                    opt_chars(self.cwd),
                    opt_chars(self.title),
                    opt_chars(self.recent_output),
                    self.kind,
                ),
            ),
    {
        let shell_name = shell_basename(self.shell.as_str());
        let mut lines: Vec<String> = Vec::new();
        push_line(&mut lines, String::from_str("## Active terminal environment"));
        let mut l2 = concat2("- Host shell: ", shell_name.as_str());
        push_str(&mut l2, " (");
        push_str(&mut l2, self.shell.as_str());
        push_str(&mut l2, ")");
        push_line(&mut lines, l2);
        match &self.cwd {
            Some(c) => push_line(&mut lines, concat2("- Working directory: ", c.as_str())),
            None => push_line(&mut lines, String::from_str("- Working directory: unknown")),
        }
        match &self.title {
            Some(t) => push_line(&mut lines, concat2("- Window / tab title: ", t.as_str())),
            None => {},
        }
        match self.kind {
            EnvKind::Unknown => {
                push_line(
                    &mut lines,
                    String::from_str("- Detected session: could not identify a specific REPL or DB client."),
                );
                push_line(
                    &mut lines,
                    String::from_str("- Assume a general Linux terminal. Prefer portable shell commands for this shell."),
                );
            },
            other => {
                push_line(&mut lines, concat2("- Detected session: ", other.label()));
                let mut t = concat2("- Tailor answers for ", other.label());
                push_str(
                    &mut t,
                    ". If this is a DB/REPL prompt, prefer that language's statements over outer-shell wrappers unless the user asks for shell.",
                );
                push_line(&mut lines, t);
            },
        }
        match &self.recent_output {
            Some(out) => {
                let c = clip_output(out.as_str(), 1200);
                let cv = chars_of(c.as_str());
                let (a, b) = trim_bounds(&cv, 0, cv.len());
                assert(cv@.subrange(0, cv@.len() as int) =~= cv@);
                if a < b {
                    push_line(
                        &mut lines,
                        String::from_str("- Recent visible terminal text (may include prompts/output):"),
                    );
                    push_line(&mut lines, String::from_str("```"));
                    push_line(&mut lines, c);
                    push_line(&mut lines, String::from_str("```"));
                }
            },
            None => {},
        }
        push_line(
            &mut lines,
            String::from_str("- Treat this block as a mandatory pre-prompt for the user's question."),
        );
        proof {
            assert(string_views(lines@) =~= pre_prompt_lines(
                self.shell@,
                opt_chars(self.cwd),
                opt_chars(self.title),
                opt_chars(self.recent_output),
                self.kind,
            ));
        }
        join(&lines)
    }
}

/// The value of an ASCII hex digit.
pub open spec fn hex_val(b: u8) -> Option<u8> {
    if 48 <= b && b <= 57 {
        Some((b - 48) as u8)
    } else if 97 <= b && b <= 102 {
        Some((b - 97 + 10) as u8)
    } else if 65 <= b && b <= 70 {
        Some((b - 65 + 10) as u8)
    } else {
        None
    }
}

pub fn from_hex(b: u8) -> (r: Option<u8>)
    ensures
        r == hex_val(b),
{
    if 48 <= b && b <= 57 {
        Some(b - 48)
    } else if 97 <= b && b <= 102 {
        Some(b - 97 + 10)
    } else if 65 <= b && b <= 70 {
        Some(b - 65 + 10)
    } else {
        None
    }
}

/// `%XX` escapes replaced by the byte they name; a `%` without two hex digits stays.
pub open spec fn pct_decode(b: Seq<u8>) -> Seq<u8>
    decreases b.len(),
{
    if b.len() == 0 {
        Seq::empty()
    } else if b[0] == 37 && b.len() >= 3 && hex_val(b[1]) is Some && hex_val(b[2]) is Some {
        seq![(hex_val(b[1])->Some_0 * 16 + hex_val(b[2])->Some_0) as u8] + pct_decode(b.skip(3))
    } else {
        seq![b[0]] + pct_decode(b.skip(1))
    }
}

/// What `String::from_utf8_lossy` gives for a byte sequence.
pub uninterp spec fn utf8_lossy(b: Seq<u8>) -> Seq<char>;

/// `String::from_utf8_lossy(bytes).into_owned()`. Claimed: the result is
/// `utf8_lossy` of the bytes, and valid UTF-8 comes back as the text it encodes.
#[verifier::external_body]
fn from_utf8_lossy(bytes: &Vec<u8>) -> (r: String)
    ensures
        r@ == utf8_lossy(bytes@),
        valid_utf8(bytes@) ==> r@ == decode_utf8(bytes@),
{
    String::from_utf8_lossy(bytes).into_owned()
}

/// The UTF-8 bytes of a text with no `%` hold no `%` byte: multi-byte
/// characters use only bytes of 0x80 and above.
proof fn lemma_no_percent_byte(s: Seq<char>)
    requires
        forall|i: int| 0 <= i < s.len() ==> s[i] != '%',
    ensures
        forall|k: int|
            0 <= k < vstd::utf8::encode_utf8(s).len() ==> vstd::utf8::encode_utf8(s)[k] != 37u8,
    decreases s.len(),
{
    if s.len() > 0 {
        let rest = s.drop_first();
        lemma_no_percent_byte(rest);
        let v = s[0] as u32;
        assert(v != 37) by {
            vstd::utf8::char_u32_cast(s[0], v);
            vstd::utf8::char_u32_cast('%', 37);
        }
        vstd::utf8::char_is_scalar(s[0]);
        let head = vstd::utf8::encode_scalar(v);
        assert forall|k: int| 0 <= k < head.len() implies head[k] != 37u8 by {
            if v <= 0x7F {
                assert((v & 0x7F) as u8 != 37u8) by (bit_vector)
                    requires
                        v <= 0x7F,
                        v != 37,
                ;
            } else {
                assert(forall|y: u8| #![auto] (0xC0u8 | y) != 37u8) by (bit_vector);
                assert(forall|y: u8| #![auto] (0xE0u8 | y) != 37u8) by (bit_vector);
                assert(forall|y: u8| #![auto] (0xF0u8 | y) != 37u8) by (bit_vector);
                assert(forall|y: u8| #![auto] (0x80u8 | y) != 37u8) by (bit_vector);
            }
        }
        assert(vstd::utf8::encode_utf8(s) == head + vstd::utf8::encode_utf8(rest));
    }
}

/// Bytes with no `%` decode to themselves.
proof fn lemma_pct_decode_plain(b: Seq<u8>)
    requires
        forall|k: int| 0 <= k < b.len() ==> b[k] != 37u8,
    ensures
        pct_decode(b) == b,
    decreases b.len(),
{
    if b.len() > 0 {
        lemma_pct_decode_plain(b.skip(1));
        assert(seq![b[0]] + b.skip(1) =~= b);
    }
}

/// The text of `input` with its `%XX` escapes decoded (invalid UTF-8 replaced).
pub open spec fn percent_decoded(input: Seq<char>) -> Seq<char> {
    utf8_lossy(pct_decode(vstd::utf8::encode_utf8(input)))
}

pub fn percent_decode(input: &str) -> (r: String)
    ensures
        r@ == percent_decoded(input@),
        (forall|i: int| 0 <= i < input@.len() ==> input@[i] != '%') ==> r@ == input@,
{
    let bytes = input.as_bytes();
    let mut out: Vec<u8> = Vec::new();
    let mut i: usize = 0;
    assert(bytes@.skip(0) =~= bytes@);
    while i < bytes.len()
        invariant
            i <= bytes@.len(),
            bytes@ == vstd::utf8::encode_utf8(input@),
            out@ + pct_decode(bytes@.skip(i as int)) == pct_decode(bytes@),
        decreases bytes@.len() - i,
    {
        let ghost rest = bytes@.skip(i as int);
        if bytes[i] == 37 && bytes.len() - i > 2 {
            match (from_hex(bytes[i + 1]), from_hex(bytes[i + 2])) {
                (Some(h), Some(l)) => {
                    out.push(h * 16 + l);
                    proof {
                        assert(rest.skip(3) =~= bytes@.skip(i + 3));
                        assert(out@ + pct_decode(bytes@.skip(i + 3)) =~= pct_decode(bytes@));
                    }
                    i += 3;
                    continue;
                },
                _ => {},
            }
        }
        out.push(bytes[i]);
        proof {
            assert(rest.skip(1) =~= bytes@.skip(i + 1));
            assert(out@ + pct_decode(bytes@.skip(i + 1)) =~= pct_decode(bytes@));
        }
        i += 1;
    }
    assert(bytes@.skip(i as int) =~= Seq::<u8>::empty());
    assert(out@ =~= pct_decode(bytes@));
    proof {
        if forall|k: int| 0 <= k < input@.len() ==> input@[k] != '%' {
            lemma_no_percent_byte(input@);
            lemma_pct_decode_plain(bytes@);
            vstd::utf8::encode_utf8_valid_utf8(input@);
            vstd::utf8::encode_utf8_decode_utf8(input@);
        }
    }
    from_utf8_lossy(&out)
}

/// The path a `file://` URI names, percent-decoded; none for other URIs or an empty path.
pub open spec fn uri_path(uri: Seq<char>) -> Option<Seq<char>> {
    if crate::text::starts_with(uri, "file://"@) {
        let d = percent_decoded(uri.skip(7));
        if d.len() == 0 {
            None
        } else {
            Some(d)
        }
    } else {
        None
    }
}

pub fn file_uri_to_path(uri: &str) -> (r: Option<String>)
    ensures
        match r {
            Some(p) => uri_path(uri@) == Some(p@),
            None => uri_path(uri@) is None,
        },
{
    let v = chars_of(uri);
    let pre = chars_of("file://");
    if !crate::text::starts_with_exec(&v, &pre) {
        return None;
    }
    proof {
        reveal_strlit("file://");
    }
    let rest = slice(&v, 7, v.len());
    let rs = string_of(&rest);
    assert(rs@ =~= uri@.skip(7));
    let d = percent_decode(rs.as_str());
    if d.as_str().unicode_len() == 0 {
        None
    } else {
        Some(d)
    }
}

/// None of `needles` occurs in `hay`.
proof fn lemma_none_of(hay: Seq<char>, needles: Seq<Seq<char>>)
    requires
        forall|i: int| 0 <= i < needles.len() ==> !contains(hay, #[trigger] needles[i]),
    ensures
        !contains_any(hay, needles),
{
}

/// A Python REPL is detected: when the lower-cased title and output show `>>>`
/// or `ipython`, with no `node>` and none of the PostgreSQL, MySQL, SQLite,
/// MongoDB or Redis markers that are checked before it, the session is Python.
pub proof fn lemma_python_prompt_detected(
    shell: Seq<char>,
    title: Option<Seq<char>>,
    output: Option<Seq<char>>,
    marker: Seq<char>,
)
    requires
        marker == ">>>"@ || marker == "ipython"@,
        contains(haystack(title, output), marker),
        !contains(haystack(title, output), "node>"@),
        forall|m: Seq<char>|
            #![trigger contains(haystack(title, output), m)]
            m == "psql"@ || m == "postgres=#"@ || m == "postgres=>"@ || m == "postgres-#"@
                || m == "mysql>"@ || m == "mariadb>"@ || m == "mysql "@ || m == "mariadb "@
                || m == "sqlite>"@ || m == "sqlite3"@ || m == "mongosh"@ || m == "mongo>"@
                || m == "mongodb"@ || m == "redis-cli"@ || m == "redis>"@
                ==> !contains(haystack(title, output), m),
    ensures
        kind_of(shell, title, output) == EnvKind::Python,
{
    let h = haystack(title, output);
    reveal_strlit(">>>");
    reveal_strlit("ipython");
    lemma_marker_nonempty(h, marker);
    lemma_none_of(h, seq!["psql"@, "postgres=#"@, "postgres=>"@, "postgres-#"@]);
    lemma_none_of(h, seq!["mysql>"@, "mariadb>"@, "mysql "@, "mariadb "@]);
    lemma_none_of(h, seq!["sqlite>"@, "sqlite3"@]);
    lemma_none_of(h, seq!["mongosh"@, "mongo>"@, "mongodb"@]);
    lemma_none_of(h, seq!["redis-cli"@, "redis>"@]);
}

/// A PostgreSQL client is detected: `psql` or one of the psql prompts in the
/// lower-cased title or output makes the session PostgreSQL, whatever else shows.
pub proof fn lemma_psql_detected(
    shell: Seq<char>,
    title: Option<Seq<char>>,
    output: Option<Seq<char>>,
    marker: Seq<char>,
)
    requires
        marker == "psql"@ || marker == "postgres=#"@ || marker == "postgres=>"@
            || marker == "postgres-#"@,
        contains(haystack(title, output), marker),
    ensures
        kind_of(shell, title, output) == EnvKind::Postgres,
{
    let h = haystack(title, output);
    reveal_strlit("psql");
    reveal_strlit("postgres=#");
    reveal_strlit("postgres=>");
    reveal_strlit("postgres-#");
    lemma_marker_nonempty(h, marker);
    let own = seq!["psql"@, "postgres=#"@, "postgres=>"@, "postgres-#"@];
    if marker == "psql"@ {
        lemma_one_of(h, own, 0);
    } else if marker == "postgres=#"@ {
        lemma_one_of(h, own, 1);
    } else if marker == "postgres=>"@ {
        lemma_one_of(h, own, 2);
    } else if marker == "postgres-#"@ {
        lemma_one_of(h, own, 3);
    }
}

/// Joining one more line adds a line break and that line.
proof fn lemma_join_push(ls: Seq<Seq<char>>, x: Seq<char>)
    requires
        ls.len() > 0,
    ensures
        join_lines(ls.push(x)) == join_lines(ls) + seq!['\n'] + x,
{
    assert(ls.push(x).drop_last() =~= ls);
}

/// The recent terminal text is shared: when the context holds output whose
/// clipped form is not blank, the pre-prompt ends with the recent-text header,
/// an opening fence, the clipped output, a closing fence and the closing
/// instruction, each on a line of its own. The result is what comes before.
pub proof fn lemma_pre_prompt_shares_output(ctx: TerminalContext) -> (pre: Seq<char>)
    requires
        ctx.recent_output is Some,
        trim(clipped(ctx.recent_output->0@, 1200)).len() > 0,
    ensures
        context_pre_prompt(ctx) == pre + seq!['\n']
            + "- Recent visible terminal text (may include prompts/output):"@ + seq!['\n'] + "```"@
            + seq!['\n'] + clipped(ctx.recent_output->0@, 1200) + seq!['\n'] + "```"@ + seq!['\n']
            + "- Treat this block as a mandatory pre-prompt for the user's question."@,
{
    let c = clipped(ctx.recent_output->0@, 1200);
    let h = "- Recent visible terminal text (may include prompts/output):"@;
    let f = "```"@;
    let t = "- Treat this block as a mandatory pre-prompt for the user's question."@;
    let l = pre_prompt_lines(
        ctx.shell@,
        opt_chars(ctx.cwd),
        opt_chars(ctx.title),
        opt_chars(ctx.recent_output),
        ctx.kind,
    );
    assert(output_lines(opt_chars(ctx.recent_output)) == seq![h, f, c, f]);
    let p = l.subrange(0, l.len() - 5);
    assert(l =~= p.push(h).push(f).push(c).push(f).push(t));
    assert(p.len() > 0);
    lemma_join_push(p, h);
    lemma_join_push(p.push(h), f);
    lemma_join_push(p.push(h).push(f), c);
    lemma_join_push(p.push(h).push(f).push(c), f);
    lemma_join_push(p.push(h).push(f).push(c).push(f), t);
    join_lines(p)
}

/// A haystack that holds a non-empty marker is not empty.
proof fn lemma_marker_nonempty(h: Seq<char>, m: Seq<char>)
    requires
        contains(h, m),
        m.len() > 0,
    ensures
        h.len() > 0,
{
    crate::text::lemma_find_from_bounds(h, m, 0);
}

/// One of `needles` occurs in `hay` when the one at `i` does.
proof fn lemma_one_of(hay: Seq<char>, needles: Seq<Seq<char>>, i: int)
    requires
        0 <= i < needles.len(),
        contains(hay, needles[i]),
    ensures
        contains_any(hay, needles),
{
}

/// A MySQL or MariaDB prompt is detected: when the lower-cased title and output
/// show one of its markers and none of the PostgreSQL markers tried before, the
/// session is MySQL.
pub proof fn lemma_mysql_detected(
    shell: Seq<char>,
    title: Option<Seq<char>>,
    output: Option<Seq<char>>,
    marker: Seq<char>,
)
    requires
        marker == "mysql>"@ || marker == "mariadb>"@ || marker == "mysql "@
            || marker == "mariadb "@,
        contains(haystack(title, output), marker),
        forall|m: Seq<char>|
            #![trigger contains(haystack(title, output), m)]
            m == "psql"@ || m == "postgres=#"@ || m == "postgres=>"@
                || m == "postgres-#"@ ==> !contains(haystack(title, output), m),
    ensures
        kind_of(shell, title, output) == EnvKind::Mysql,
{
    let h = haystack(title, output);
    reveal_strlit("mysql>");
    reveal_strlit("mariadb>");
    reveal_strlit("mysql ");
    reveal_strlit("mariadb ");
    lemma_marker_nonempty(h, marker);
    let own = seq!["mysql>"@, "mariadb>"@, "mysql "@, "mariadb "@];
    if marker == "mysql>"@ {
        lemma_one_of(h, own, 0);
    } else if marker == "mariadb>"@ {
        lemma_one_of(h, own, 1);
    } else if marker == "mysql "@ {
        lemma_one_of(h, own, 2);
    } else if marker == "mariadb "@ {
        lemma_one_of(h, own, 3);
    }
    lemma_none_of(h, seq!["psql"@, "postgres=#"@, "postgres=>"@, "postgres-#"@]);
}

/// An SQLite prompt is detected: one of its markers, and none of the PostgreSQL
/// or MySQL markers tried before, makes the session SQLite.
pub proof fn lemma_sqlite_detected(
    shell: Seq<char>,
    title: Option<Seq<char>>,
    output: Option<Seq<char>>,
    marker: Seq<char>,
)
    requires
        marker == "sqlite>"@ || marker == "sqlite3"@,
        contains(haystack(title, output), marker),
        forall|m: Seq<char>|
            #![trigger contains(haystack(title, output), m)]
            m == "psql"@ || m == "postgres=#"@ || m == "postgres=>"@ || m == "postgres-#"@
                || m == "mysql>"@ || m == "mariadb>"@ || m == "mysql "@
                || m == "mariadb "@ ==> !contains(haystack(title, output), m),
    ensures
        kind_of(shell, title, output) == EnvKind::Sqlite,
{
    let h = haystack(title, output);
    reveal_strlit("sqlite>");
    reveal_strlit("sqlite3");
    lemma_marker_nonempty(h, marker);
    let own = seq!["sqlite>"@, "sqlite3"@];
    if marker == "sqlite>"@ {
        lemma_one_of(h, own, 0);
    } else if marker == "sqlite3"@ {
        lemma_one_of(h, own, 1);
    }
    lemma_none_of(h, seq!["psql"@, "postgres=#"@, "postgres=>"@, "postgres-#"@]);
    lemma_none_of(h, seq!["mysql>"@, "mariadb>"@, "mysql "@, "mariadb "@]);
}

/// A MongoDB shell is detected: one of its markers, and none of the PostgreSQL,
/// MySQL or SQLite markers tried before, makes the session MongoDB.
pub proof fn lemma_mongo_detected(
    shell: Seq<char>,
    title: Option<Seq<char>>,
    output: Option<Seq<char>>,
    marker: Seq<char>,
)
    requires
        marker == "mongosh"@ || marker == "mongo>"@ || marker == "mongodb"@,
        contains(haystack(title, output), marker),
        forall|m: Seq<char>|
            #![trigger contains(haystack(title, output), m)]
            m == "psql"@ || m == "postgres=#"@ || m == "postgres=>"@ || m == "postgres-#"@
                || m == "mysql>"@ || m == "mariadb>"@ || m == "mysql "@ || m == "mariadb "@
                || m == "sqlite>"@ || m == "sqlite3"@ ==> !contains(haystack(title, output), m),
    ensures
        kind_of(shell, title, output) == EnvKind::Mongo,
{
    let h = haystack(title, output);
    reveal_strlit("mongosh");
    reveal_strlit("mongo>");
    reveal_strlit("mongodb");
    lemma_marker_nonempty(h, marker);
    let own = seq!["mongosh"@, "mongo>"@, "mongodb"@];
    if marker == "mongosh"@ {
        lemma_one_of(h, own, 0);
    } else if marker == "mongo>"@ {
        lemma_one_of(h, own, 1);
    } else if marker == "mongodb"@ {
        lemma_one_of(h, own, 2);
    }
    lemma_none_of(h, seq!["psql"@, "postgres=#"@, "postgres=>"@, "postgres-#"@]);
    lemma_none_of(h, seq!["mysql>"@, "mariadb>"@, "mysql "@, "mariadb "@]);
    lemma_none_of(h, seq!["sqlite>"@, "sqlite3"@]);
}

/// A Redis client is detected: one of its markers, and none of the database
/// markers tried before, makes the session Redis.
pub proof fn lemma_redis_detected(
    shell: Seq<char>,
    title: Option<Seq<char>>,
    output: Option<Seq<char>>,
    marker: Seq<char>,
)
    requires
        marker == "redis-cli"@ || marker == "redis>"@,
        contains(haystack(title, output), marker),
        forall|m: Seq<char>|
            #![trigger contains(haystack(title, output), m)]
            m == "psql"@ || m == "postgres=#"@ || m == "postgres=>"@ || m == "postgres-#"@
                || m == "mysql>"@ || m == "mariadb>"@ || m == "mysql "@ || m == "mariadb "@
                || m == "sqlite>"@ || m == "sqlite3"@ || m == "mongosh"@ || m == "mongo>"@
                || m == "mongodb"@ ==> !contains(haystack(title, output), m),
    ensures
        kind_of(shell, title, output) == EnvKind::Redis,
{
    let h = haystack(title, output);
    reveal_strlit("redis-cli");
    reveal_strlit("redis>");
    lemma_marker_nonempty(h, marker);
    let own = seq!["redis-cli"@, "redis>"@];
    if marker == "redis-cli"@ {
        lemma_one_of(h, own, 0);
    } else if marker == "redis>"@ {
        lemma_one_of(h, own, 1);
    }
    lemma_none_of(h, seq!["psql"@, "postgres=#"@, "postgres=>"@, "postgres-#"@]);
    lemma_none_of(h, seq!["mysql>"@, "mariadb>"@, "mysql "@, "mariadb "@]);
    lemma_none_of(h, seq!["sqlite>"@, "sqlite3"@]);
    lemma_none_of(h, seq!["mongosh"@, "mongo>"@, "mongodb"@]);
}

/// A Node REPL is detected: one of its markers, none of the database markers,
/// and either `node>` itself or no Python marker, makes the session Node.
pub proof fn lemma_node_detected(
    shell: Seq<char>,
    title: Option<Seq<char>>,
    output: Option<Seq<char>>,
    marker: Seq<char>,
)
    requires
        marker == "node>"@ || marker == "nodejs"@,
        contains(haystack(title, output), marker),
        forall|m: Seq<char>|
            #![trigger contains(haystack(title, output), m)]
            m == "psql"@ || m == "postgres=#"@ || m == "postgres=>"@ || m == "postgres-#"@
                || m == "mysql>"@ || m == "mariadb>"@ || m == "mysql "@ || m == "mariadb "@
                || m == "sqlite>"@ || m == "sqlite3"@ || m == "mongosh"@ || m == "mongo>"@
                || m == "mongodb"@ || m == "redis-cli"@
                || m == "redis>"@ ==> !contains(haystack(title, output), m),
        contains(haystack(title, output), "node>"@) || (!contains(haystack(title, output), ">>>"@)
            && !contains(haystack(title, output), "ipython"@)),
    ensures
        kind_of(shell, title, output) == EnvKind::Node,
{
    let h = haystack(title, output);
    reveal_strlit("node>");
    reveal_strlit("nodejs");
    lemma_marker_nonempty(h, marker);
    let own = seq!["node>"@, "nodejs"@];
    if marker == "node>"@ {
        lemma_one_of(h, own, 0);
    } else if marker == "nodejs"@ {
        lemma_one_of(h, own, 1);
    }
    lemma_none_of(h, seq!["psql"@, "postgres=#"@, "postgres=>"@, "postgres-#"@]);
    lemma_none_of(h, seq!["mysql>"@, "mariadb>"@, "mysql "@, "mariadb "@]);
    lemma_none_of(h, seq!["sqlite>"@, "sqlite3"@]);
    lemma_none_of(h, seq!["mongosh"@, "mongo>"@, "mongodb"@]);
    lemma_none_of(h, seq!["redis-cli"@, "redis>"@]);
}

/// An irb session is detected: one of its markers, and none of the database,
/// Python or Node markers tried before, makes the session Ruby.
pub proof fn lemma_ruby_detected(
    shell: Seq<char>,
    title: Option<Seq<char>>,
    output: Option<Seq<char>>,
    marker: Seq<char>,
)
    requires
        marker == "irb("@ || marker == "irb>"@,
        contains(haystack(title, output), marker),
        forall|m: Seq<char>|
            #![trigger contains(haystack(title, output), m)]
            m == "psql"@ || m == "postgres=#"@ || m == "postgres=>"@ || m == "postgres-#"@
                || m == "mysql>"@ || m == "mariadb>"@ || m == "mysql "@ || m == "mariadb "@
                || m == "sqlite>"@ || m == "sqlite3"@ || m == "mongosh"@ || m == "mongo>"@
                || m == "mongodb"@ || m == "redis-cli"@ || m == "redis>"@ || m == ">>>"@
                || m == "ipython"@ || m == "node>"@
                || m == "nodejs"@ ==> !contains(haystack(title, output), m),
    ensures
        kind_of(shell, title, output) == EnvKind::Ruby,
{
    let h = haystack(title, output);
    reveal_strlit("irb(");
    reveal_strlit("irb>");
    lemma_marker_nonempty(h, marker);
    let own = seq!["irb("@, "irb>"@];
    if marker == "irb("@ {
        lemma_one_of(h, own, 0);
    } else if marker == "irb>"@ {
        lemma_one_of(h, own, 1);
    }
    lemma_none_of(h, seq!["psql"@, "postgres=#"@, "postgres=>"@, "postgres-#"@]);
    lemma_none_of(h, seq!["mysql>"@, "mariadb>"@, "mysql "@, "mariadb "@]);
    lemma_none_of(h, seq!["sqlite>"@, "sqlite3"@]);
    lemma_none_of(h, seq!["mongosh"@, "mongo>"@, "mongodb"@]);
    lemma_none_of(h, seq!["redis-cli"@, "redis>"@]);
    lemma_none_of(h, seq!["node>"@, "nodejs"@]);
    assert(!contains(h, ">>>"@) && !contains(h, "ipython"@));
}

/// A container session is detected: one of its markers, and none of the
/// client or REPL markers tried before, makes the session Docker.
pub proof fn lemma_docker_detected(
    shell: Seq<char>,
    title: Option<Seq<char>>,
    output: Option<Seq<char>>,
    marker: Seq<char>,
)
    requires
        marker == "docker"@ || marker == "container"@,
        contains(haystack(title, output), marker),
        forall|m: Seq<char>|
            #![trigger contains(haystack(title, output), m)]
            m == "psql"@ || m == "postgres=#"@ || m == "postgres=>"@ || m == "postgres-#"@
                || m == "mysql>"@ || m == "mariadb>"@ || m == "mysql "@ || m == "mariadb "@
                || m == "sqlite>"@ || m == "sqlite3"@ || m == "mongosh"@ || m == "mongo>"@
                || m == "mongodb"@ || m == "redis-cli"@ || m == "redis>"@ || m == ">>>"@
                || m == "ipython"@ || m == "node>"@ || m == "nodejs"@ || m == "irb("@
                || m == "irb>"@ ==> !contains(haystack(title, output), m),
    ensures
        kind_of(shell, title, output) == EnvKind::Docker,
{
    let h = haystack(title, output);
    reveal_strlit("docker");
    reveal_strlit("container");
    lemma_marker_nonempty(h, marker);
    let own = seq!["docker"@, "container"@];
    if marker == "docker"@ {
        lemma_one_of(h, own, 0);
    } else if marker == "container"@ {
        lemma_one_of(h, own, 1);
    }
    lemma_none_of(h, seq!["psql"@, "postgres=#"@, "postgres=>"@, "postgres-#"@]);
    lemma_none_of(h, seq!["mysql>"@, "mariadb>"@, "mysql "@, "mariadb "@]);
    lemma_none_of(h, seq!["sqlite>"@, "sqlite3"@]);
    lemma_none_of(h, seq!["mongosh"@, "mongo>"@, "mongodb"@]);
    lemma_none_of(h, seq!["redis-cli"@, "redis>"@]);
    lemma_none_of(h, seq!["node>"@, "nodejs"@]);
    lemma_none_of(h, seq!["irb("@, "irb>"@]);
    assert(!contains(h, ">>>"@) && !contains(h, "ipython"@));
}

/// With none of the client or REPL markers in the lower-cased title and output,
/// the session is the plain shell, or unknown when no shell is known.
pub proof fn lemma_no_marker_fallback(shell: Seq<char>, title: Option<Seq<char>>, output: Option<Seq<char>>)
    requires
        forall|m: Seq<char>|
            #![trigger contains(haystack(title, output), m)]
            m == "psql"@ || m == "postgres=#"@ || m == "postgres=>"@ || m == "postgres-#"@
                || m == "mysql>"@ || m == "mariadb>"@ || m == "mysql "@ || m == "mariadb "@
                || m == "sqlite>"@ || m == "sqlite3"@ || m == "mongosh"@ || m == "mongo>"@
                || m == "mongodb"@ || m == "redis-cli"@ || m == "redis>"@ || m == ">>>"@
                || m == "ipython"@ || m == "node>"@ || m == "nodejs"@ || m == "irb("@
                || m == "irb>"@ || m == "docker"@
                || m == "container"@ ==> !contains(haystack(title, output), m),
    ensures
        kind_of(shell, title, output) == (if shell.len() > 0 {
            EnvKind::Shell
        } else {
            EnvKind::Unknown
        }),
{
    let h = haystack(title, output);
    lemma_none_of(h, seq!["psql"@, "postgres=#"@, "postgres=>"@, "postgres-#"@]);
    lemma_none_of(h, seq!["mysql>"@, "mariadb>"@, "mysql "@, "mariadb "@]);
    lemma_none_of(h, seq!["sqlite>"@, "sqlite3"@]);
    lemma_none_of(h, seq!["mongosh"@, "mongo>"@, "mongodb"@]);
    lemma_none_of(h, seq!["redis-cli"@, "redis>"@]);
    assert(!contains(h, ">>>"@) && !contains(h, "ipython"@));
    lemma_none_of(h, seq!["node>"@, "nodejs"@]);
    lemma_none_of(h, seq!["irb("@, "irb>"@]);
    lemma_none_of(h, seq!["docker"@, "container"@]);
}

} // verus!
