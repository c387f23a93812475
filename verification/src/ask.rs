//! Ask from the shell and from the side panel: recognising an in-shell Ask line,
//! the decisions before a request, and the text shown for a reply.

use vstd::prelude::*;
use crate::llm::{AskReply, ReplySegment, SegmentView, count_code, reply_blank, segment_views};
use crate::text::{
    chars_of, decimal, decimal_exec, find, find_exec, is_whitespace, is_ws, lemma_find_from_bounds,
    lines, lines_exec, matches_at, push_char, push_chars, push_str, slice, string_of, trim,
    trim_bounds, views,
};

verus! {

/// `s` without its trailing `\r` and `\n` characters.
pub open spec fn trim_end_newlines(s: Seq<char>) -> Seq<char>
    decreases s.len(),
{
    if s.len() > 0 && (s.last() == '\r' || s.last() == '\n') {
        trim_end_newlines(s.drop_last())
    } else {
        s
    }
}

/// The scan for the Ask prefix: from `from` on, each occurrence of `p` (after the
/// previous one) that starts the line or follows whitespace; the last such one wins.
pub open spec fn prefix_scan(line: Seq<char>, p: Seq<char>, from: int, found: Option<int>) -> Option<int>
    decreases line.len() + 1 - from,
{
    if p.len() == 0 || from < 0 || from > line.len() {
        found
    } else {
        let rel = find(line.skip(from), p);
        if rel < 0 {
            found
        } else {
            proof {
                lemma_find_from_bounds(line.skip(from), p, 0);
            }
            let abs = from + rel;
            let ok = abs == 0 || is_ws(line[abs - 1]);
            prefix_scan(line, p, abs + p.len(), if ok { Some(abs) } else { found })
        }
    }
}

/// The question of an in-shell Ask line: the text after the last prefix token, trimmed.
pub open spec fn ask_query(line: Seq<char>, prefix: Seq<char>) -> Option<Seq<char>> {
    let p = trim(prefix);
    let l = trim_end_newlines(line);
    if p.len() == 0 {
        None
    } else {
        match prefix_scan(l, p, 0, None) {
            None => None,
            Some(start) => {
                let rest = trim(l.skip(start + p.len()));
                if rest.len() == 0 {
                    None
                } else {
                    Some(rest)
                }
            },
        }
    }
}

/// A position the scan reports holds the prefix as its own token.
pub proof fn lemma_prefix_scan_token(line: Seq<char>, p: Seq<char>, from: int, found: Option<int>)
    requires
        found matches Some(f) ==> matches_at(line, p, f) && (f == 0 || is_ws(line[f - 1])),
    ensures
        prefix_scan(line, p, from, found) matches Some(f) ==> matches_at(line, p, f) && (f == 0
            || is_ws(line[f - 1])),
    decreases line.len() + 1 - from,
{
    if p.len() == 0 || from < 0 || from > line.len() {
    } else {
        let rel = find(line.skip(from), p);
        if rel >= 0 {
            lemma_find_from_bounds(line.skip(from), p, 0);
            let abs = from + rel;
            assert(line.skip(from).subrange(rel, rel + p.len()) =~= line.subrange(abs, abs + p.len()));
            let ok = abs == 0 || is_ws(line[abs - 1]);
            lemma_prefix_scan_token(line, p, abs + p.len(), if ok { Some(abs) } else { found });
        }
    }
}

/// If `line` is an Ask request using `prefix`, return the question text.
///
/// The prefix must be its own token: at the start of the line or after whitespace;
/// the last such occurrence is used.
pub fn extract_shell_ask_query(line: &str, prefix: &str) -> (r: Option<String>)
    ensures
        match r {
            Some(q) => ask_query(line@, prefix@) == Some(q@),
            None => ask_query(line@, prefix@) is None,
        },
        r matches Some(q) ==> exists|start: int|
            #![trigger matches_at(trim_end_newlines(line@), trim(prefix@), start)]
            matches_at(trim_end_newlines(line@), trim(prefix@), start) && (start == 0 || is_ws(
                trim_end_newlines(line@)[start - 1],
            )) && q@ == trim(trim_end_newlines(line@).skip(start + trim(prefix@).len())),
{
    let pv = chars_of(prefix);
    let (pa, pb) = trim_bounds(&pv, 0, pv.len());
    assert(pv@.subrange(0, pv@.len() as int) =~= pv@);
    let p = slice(&pv, pa, pb);
    if p.len() == 0 {
        return None;
    }
    let lv = chars_of(line);
    let mut n = lv.len();
    assert(lv@.take(lv@.len() as int) =~= lv@);
    while n > 0 && (lv[n - 1] == '\r' || lv[n - 1] == '\n')
        invariant
            n <= lv@.len(),
            trim_end_newlines(lv@.take(n as int)) == trim_end_newlines(lv@),
        decreases n,
    {
        assert(lv@.take(n as int).drop_last() =~= lv@.take(n - 1));
        n -= 1;
    }
    let l = slice(&lv, 0, n);
    assert(l@ =~= lv@.take(n as int));
    assert(l@ == trim_end_newlines(lv@));
    let mut found: Option<usize> = None;
    let mut from: usize = 0;
    while from <= l.len()
        invariant
            p@.len() > 0,
            p@ == trim(prefix@),
            l@ == trim_end_newlines(line@),
            prefix_scan(l@, p@, from as int, match found {
                Some(f) => Some(f as int),
                None => None,
            }) == prefix_scan(l@, p@, 0, None),
            found matches Some(f) ==> f + p@.len() <= l@.len(),
        ensures
            prefix_scan(l@, p@, 0, None) == match found {
                Some(f) => Some(f as int),
                None => None,
            },
            found matches Some(f) ==> f + p@.len() <= l@.len(),
        decreases l@.len() + 1 - from,
    {
        let rest = slice(&l, from, l.len());
        assert(rest@ =~= l@.skip(from as int));
        let rel = match find_exec(&rest, &p) {
            Some(k) => k,
            None => break,
        };
        proof {
            lemma_find_from_bounds(rest@, p@, 0);
        }
        let abs = from + rel;
        let before_ok = abs == 0 || is_whitespace(l[abs - 1]);
        if before_ok {
            found = Some(abs);
        }
        from = abs + p.len();
    }
    proof {
        lemma_prefix_scan_token(l@, p@, 0, None);
    }
    let start = match found {
        Some(s) => s,
        None => return None,
    };
    let (a, b) = trim_bounds(&l, start + p.len(), l.len());
    assert(l@.subrange(start + p@.len(), l@.len() as int) =~= l@.skip(start + p@.len()));
    if a == b {
        None
    } else {
        let q = slice(&l, a, b);
        Some(string_of(&q))
    }
}

/// Each line followed by CR LF, behind `indent`.
pub open spec fn crlf_lines(ls: Seq<Seq<char>>, indent: Seq<char>) -> Seq<char>
    decreases ls.len(),
{
    if ls.len() == 0 {
        Seq::empty()
    } else {
        crlf_lines(ls.drop_last(), indent) + indent + ls.last() + "\r\n"@
    }
}

/// How a segment reads in the terminal: prose line by line, code indented in green.
pub open spec fn terminal_segment(seg: SegmentView) -> Seq<char> {
    match seg {
        SegmentView::Text(t) => {
            let tt = trim(t);
            if tt.len() == 0 {
                Seq::empty()
            } else {
                crlf_lines(lines(tt), Seq::empty())
            }
        },
        SegmentView::Code(_, c) => "\x1b[32m"@ + crlf_lines(lines(c), "  "@) + "\x1b[0m"@,
    }
}

pub open spec fn terminal_segments(segs: Seq<SegmentView>) -> Seq<char>
    decreases segs.len(),
{
    if segs.len() == 0 {
        Seq::empty()
    } else {
        terminal_segments(segs.drop_last()) + terminal_segment(segs.last())
    }
}

/// A reply as written into the terminal below an in-shell Ask.
pub open spec fn terminal_reply(segs: Seq<SegmentView>) -> Seq<char> {
    if reply_blank(segs) {
        "\x1b[2m(empty reply)\x1b[0m\r\n"@
    } else {
        terminal_segments(segs)
    }
}

fn push_crlf_lines(out: &mut String, text: &Vec<char>, indent: &str)
    ensures
        final(out)@ == old(out)@ + crlf_lines(lines(text@), indent@),
{
    let ls = lines_exec(text);
    let ghost start = out@;
    let mut i: usize = 0;
    while i < ls.len()
        invariant
            i <= ls@.len(),
            views(ls@) == lines(text@),
            out@ == start + crlf_lines(views(ls@).take(i as int), indent@),
        decreases ls@.len() - i,
    {
        assert(views(ls@).take(i + 1).drop_last() =~= views(ls@).take(i as int));
        assert(views(ls@)[i as int] == ls@[i as int]@);
        push_str(out, indent);
        push_chars(out, &ls[i], 0, ls[i].len());
        push_str(out, "\r\n");
        assert(ls@[i as int]@.subrange(0, ls@[i as int]@.len() as int) =~= ls@[i as int]@);
        assert(out@ =~= start + crlf_lines(views(ls@).take(i + 1), indent@));
        i += 1;
    }
    assert(views(ls@).take(i as int) =~= views(ls@));
}

/// A reply as written into the terminal below an in-shell Ask.
pub fn format_reply_for_terminal(reply: &AskReply) -> (r: String)
    ensures
        r@ == terminal_reply(reply@),
{
    let mut out = String::new();
    if reply.is_empty() {
        push_str(&mut out, "\x1b[2m(empty reply)\x1b[0m\r\n");
        return out;
    }
    let mut i: usize = 0;
    while i < reply.segments.len()
        invariant
            i <= reply.segments@.len(),
            out@ == terminal_segments(segment_views(reply.segments@.take(i as int))),
        decreases reply.segments@.len() - i,
    {
        assert(segment_views(reply.segments@.take(i + 1)).drop_last() =~= segment_views(
            reply.segments@.take(i as int),
        ));
        assert(segment_views(reply.segments@.take(i + 1)).last() == reply.segments@[i as int]@);
        match &reply.segments[i] {
            ReplySegment::Text(text) => {
                let tv = chars_of(text.as_str());
                let (a, b) = trim_bounds(&tv, 0, tv.len());
                assert(tv@.subrange(0, tv@.len() as int) =~= tv@);
                if a < b {
                    let t = slice(&tv, a, b);
                    push_crlf_lines(&mut out, &t, "");
                    proof {
                        reveal_strlit("");
                        assert(""@ =~= Seq::<char>::empty());
                    }
                }
            },
            ReplySegment::Code { code, .. } => {
                push_str(&mut out, "\x1b[32m");
                let cv = chars_of(code.as_str());
                push_crlf_lines(&mut out, &cv, "  ");
                push_str(&mut out, "\x1b[0m");
            },
        }
        i += 1;
    }
    assert(reply.segments@.take(i as int) =~= reply.segments@);
    out
}

/// What the Ask panel and in-shell Ask say when terminal context goes out with a question.
pub const SHARING_NOTE: &'static str = "terminal context shared";

/// The panel's status line for a reply, followed by the sharing note when the
/// question carried terminal context.
pub open spec fn reply_status(segs: Seq<SegmentView>, share: bool) -> Seq<char> {
    let base = if reply_blank(segs) {
        "Empty reply."@
    } else if count_code(segs) == 0 {
        "No runnable code blocks \u{2014} Apply/Run only appears on shell fences."@
    } else {
        decimal(count_code(segs)) + " runnable block(s)"@
    };
    if share {
        base + " ("@ + SHARING_NOTE@ + ")"@
    } else {
        base
    }
}

/// The Ask panel's status line after a reply arrives; `share` is whether the
/// question carried terminal context.
pub fn reply_status_text(reply: &AskReply, share: bool) -> (r: String)
    ensures
        r@ == reply_status(reply@, share),
{
    let mut s = if reply.is_empty() {
        String::from_str("Empty reply.")
    } else {
        let runnable = reply.runnable_count();
        if runnable == 0 {
            String::from_str("No runnable code blocks \u{2014} Apply/Run only appears on shell fences.")
        } else {
            let d = decimal_exec(runnable as u64);
            let mut s = string_of(&d);
            push_str(&mut s, " runnable block(s)");
            s
        }
    };
    if share {
        push_str(&mut s, " (");
        push_str(&mut s, SHARING_NOTE);
        push_str(&mut s, ")");
    }
    s
}

/// What the Run button sends: the code, ending with a line break.
pub open spec fn run_text(code: Seq<char>) -> Seq<char> {
    if code.len() > 0 && code.last() == '\n' {
        code
    } else {
        code.push('\n')
    }
}

pub fn run_payload(code: &str) -> (r: String)
    ensures
        r@ == run_text(code@),
{
    let v = chars_of(code);
    let mut s = String::from_str(code);
    if v.len() == 0 || v[v.len() - 1] != '\n' {
        push_char(&mut s, '\n');
    }
    s
}

/// What the Ask panel does with a submitted prompt.
pub enum PanelAsk {
    /// Nothing to ask: show "Enter a prompt first."
    EmptyPrompt,
    /// Show the configuration hint and open Settings.
    NeedsSettings,
    /// A request is still running.
    Busy,
    /// Send this (trimmed) prompt; `share` is whether terminal context goes with it.
    Send { prompt: String, share: bool },
}

impl PanelAsk {
    /// The status line this outcome shows; a prompt sent with terminal context says so.
    pub fn status(&self) -> (r: &'static str)
        ensures
            r@ == match self {
                PanelAsk::EmptyPrompt => "Enter a prompt first."@,
                PanelAsk::NeedsSettings => "Configure endpoint and API key in Settings."@,
                PanelAsk::Busy => "Already waiting on a reply\u{2026}"@,
                PanelAsk::Send { share, .. } => if *share {
                    "Thinking\u{2026} (terminal context shared)"@
                } else {
                    "Thinking\u{2026}"@
                },
            },
    {
        match self {
            PanelAsk::EmptyPrompt => "Enter a prompt first.",
            PanelAsk::NeedsSettings => "Configure endpoint and API key in Settings.",
            PanelAsk::Busy => "Already waiting on a reply\u{2026}",
            PanelAsk::Send { share, .. } => if *share {
                "Thinking\u{2026} (terminal context shared)"
            } else {
                "Thinking\u{2026}"
            },
        }
    }
}

/// The decision for a panel prompt: blank prompts first, then missing settings,
/// then a running request; a prompt that goes out carries the sharing setting.
pub fn panel_ask(prompt: &str, configured: bool, busy: bool, share: bool) -> (r: PanelAsk)
    ensures
        trim(prompt@).len() == 0 ==> r is EmptyPrompt,
        trim(prompt@).len() > 0 && !configured ==> r is NeedsSettings,
        trim(prompt@).len() > 0 && configured && busy ==> r is Busy,
        trim(prompt@).len() > 0 && configured && !busy ==> (r matches PanelAsk::Send { prompt: p, share: s }
            && p@ == trim(prompt@) && s == share),
{
    let v = chars_of(prompt);
    let (a, b) = trim_bounds(&v, 0, v.len());
    assert(v@.subrange(0, v@.len() as int) =~= v@);
    if a == b {
        PanelAsk::EmptyPrompt
    } else if !configured {
        PanelAsk::NeedsSettings
    } else if busy {
        PanelAsk::Busy
    } else {
        let t = slice(&v, a, b);
        PanelAsk::Send { prompt: string_of(&t), share }
    }
}

/// What an in-shell Ask does with its question.
pub enum ShellAsk {
    /// Blank question: nothing happens.
    Ignore,
    /// Write this notice, redraw the prompt and open Settings.
    NeedsSettings(String),
    /// Echo `echo` into the terminal and send `question`.
    Send { question: String, echo: String },
}

/// The line an in-shell Ask writes under the question when terminal context goes with it.
pub open spec fn sharing_line(share: bool) -> Seq<char> {
    if share {
        "\x1b[2m("@ + SHARING_NOTE@ + ")\x1b[0m\r\n"@
    } else {
        Seq::empty()
    }
}

/// The decision for an in-shell Ask question, with the text it writes. The echo
/// says when terminal context is shared with the question.
pub fn shell_ask(question: &str, configured: bool, share: bool) -> (r: ShellAsk)
    ensures
        trim(question@).len() == 0 ==> r is Ignore,
        trim(question@).len() > 0 && !configured ==> (r matches ShellAsk::NeedsSettings(n) && n@
            == "\r\n\x1b[33mask:\x1b[0m set endpoint + API key in Settings first.\r\n"@),
        trim(question@).len() > 0 && configured ==> (r matches ShellAsk::Send { question: q, echo: e }
            && q@ == trim(question@) && e@ == "\r\n\x1b[1;36m??\x1b[0m "@ + trim(question@) + "\r\n"@
            + sharing_line(share) + "\x1b[2m\u{2026}\x1b[0m\r\n"@),
{
    let v = chars_of(question);
    let (a, b) = trim_bounds(&v, 0, v.len());
    assert(v@.subrange(0, v@.len() as int) =~= v@);
    if a == b {
        return ShellAsk::Ignore;
    }
    if !configured {
        return ShellAsk::NeedsSettings(
            String::from_str("\r\n\x1b[33mask:\x1b[0m set endpoint + API key in Settings first.\r\n"),
        );
    }
    let t = slice(&v, a, b);
    let mut echo = String::from_str("\r\n\x1b[1;36m??\x1b[0m ");
    push_chars(&mut echo, &t, 0, t.len());
    push_str(&mut echo, "\r\n");
    if share {
        push_str(&mut echo, "\x1b[2m(");
        push_str(&mut echo, SHARING_NOTE);
        push_str(&mut echo, ")\x1b[0m\r\n");
    } else {
        proof {
            assert(sharing_line(share) =~= Seq::<char>::empty());
        }
    }
    push_str(&mut echo, "\x1b[2m\u{2026}\x1b[0m\r\n");
    assert(t@.subrange(0, t@.len() as int) =~= t@);
    ShellAsk::Send { question: string_of(&t), echo }
}

/// The in-shell Ask question an Enter key press carries: on Enter, the question
/// after the Ask prefix in the typed line; `None` lets the key reach the shell.
pub fn shell_ask_on_key(enter: bool, line: Option<&str>, prefix: &str) -> (r: Option<String>)
    ensures
        match r {
            Some(q) => enter && (line matches Some(l) && ask_query(l@, prefix@) == Some(q@)),
            None => !enter || match line {
                Some(l) => ask_query(l@, prefix@) is None,
                None => true,
            },
        },
{
    if !enter {
        return None;
    }
    match line {
        Some(l) => extract_shell_ask_query(l, prefix),
        None => None,
    }
}

/// What an in-shell Ask writes when its request ends: the reply, or the error in red.
pub open spec fn shell_result_text(r: Result<Seq<SegmentView>, Seq<char>>) -> Seq<char> {
    match r {
        Ok(segs) => terminal_reply(segs),
        Err(e) => "\x1b[31mask error:\x1b[0m "@ + e + "\r\n"@,
    }
}

pub fn shell_ask_result_text(result: &Result<AskReply, String>) -> (r: String)
    ensures
        r@ == shell_result_text(
            match result {
                Ok(a) => Ok(a@),
                Err(e) => Err(e@),
            },
        ),
{
    match result {
        Ok(reply) => format_reply_for_terminal(reply),
        Err(e) => {
            let mut s = String::from_str("\x1b[31mask error:\x1b[0m ");
            push_str(&mut s, e.as_str());
            push_str(&mut s, "\r\n");
            s
        },
    }
}

} // verus!
