//! Ask replies: splitting assistant markdown / JSON into display text and
//! runnable shell code, and reading OpenAI-compatible chat responses.

use vstd::prelude::*;
use crate::text::{lemma_find_first, lemma_find_none, matches_at, trim, find, rfind, contains, starts_with, lines, ascii_lower, views, lemma_find_from_bounds, lemma_rfind_from_bounds, chars_of, push_char, push_chars, push_str, string_of, string_views, opt_chars, slice, trim_bounds, trimmed, find_exec, rfind_exec, contains_exec, starts_with_exec, ascii_lower_exec, lines_exec, eq_str};
use crate::env_context::{TerminalContext, context_pre_prompt};
use crate::settings::{AppSettings, strip_slashes};
use crate::json::{Json, deref_opt, json_parse_result, parse_json, member_lookup, json_get, json_str, json_get_opt, field_of, opt_string, member_get, get, get_opt, as_str, field, opt_string_exec};

verus! {

/// What a reply segment holds, as sequences of characters.
pub enum SegmentView {
    Text(Seq<char>),
    Code(Seq<char>, Seq<char>),
}

/// A piece of an Ask reply. Only shell `Code` blocks get Apply/Run.
#[derive(Debug, Clone, PartialEq, Eq)]
pub enum ReplySegment {
    /// Prose or non-shell content: display only.
    Text(String),
    /// Shell / terminal code the user can Apply/Run into the terminal.
    Code { language: String, code: String },
}

impl View for ReplySegment {
    type V = SegmentView;

    open spec fn view(&self) -> SegmentView {
        match self {
            ReplySegment::Text(t) => SegmentView::Text(t@),
            ReplySegment::Code { language, code } => SegmentView::Code(language@, code@),
        }
    }
}

/// A parsed Ask reply.
#[derive(Debug, Clone, Default, PartialEq, Eq)]
pub struct AskReply {
    pub segments: Vec<ReplySegment>,
}

pub open spec fn segment_views(segs: Seq<ReplySegment>) -> Seq<SegmentView> {
    segs.map_values(|s: ReplySegment| s@)
}

impl View for AskReply {
    type V = Seq<SegmentView>;

    open spec fn view(&self) -> Seq<SegmentView> {
        segment_views(self.segments@)
    }
}

pub open spec fn is_code(s: SegmentView) -> bool {
    s is Code
}

/// Number of runnable (code) segments.
pub open spec fn count_code(segs: Seq<SegmentView>) -> nat
    decreases segs.len(),
{
    if segs.len() == 0 {
        0
    } else {
        count_code(segs.drop_last()) + if is_code(segs.last()) {
            1nat
        } else {
            0nat
        }
    }
}

/// The text a segment shows: the prose, or the code.
pub open spec fn segment_body(s: SegmentView) -> Seq<char> {
    match s {
        SegmentView::Text(t) => t,
        SegmentView::Code(_, c) => c,
    }
}

/// A reply with nothing to show: no segments, or only blank ones.
pub open spec fn reply_blank(segs: Seq<SegmentView>) -> bool {
    forall|i: int| 0 <= i < segs.len() ==> #[trigger] trim(segment_body(segs[i])).len() == 0
}

impl ReplySegment {
    pub fn is_runnable(&self) -> (r: bool)
        ensures
            r == is_code(self@),
    {
        match self {
            ReplySegment::Code { .. } => true,
            ReplySegment::Text(_) => false,
        }
    }
}

impl AskReply {
    pub fn runnable_count(&self) -> (r: usize)
        ensures
            r == count_code(self@),
    {
        let mut n: usize = 0;
        let mut i: usize = 0;
        while i < self.segments.len()
            invariant
                i <= self.segments@.len(),
                n == count_code(segment_views(self.segments@.take(i as int))),
                n <= i,
            decreases self.segments@.len() - i,
        {
            proof {
                assert(segment_views(self.segments@.take(i + 1)).drop_last() =~= segment_views(
                    self.segments@.take(i as int),
                ));
            }
            if self.segments[i].is_runnable() {
                n += 1;
            }
            i += 1;
        }
        assert(self.segments@.take(i as int) =~= self.segments@);
        n
    }

    pub fn is_empty(&self) -> (r: bool)
        ensures
            r == reply_blank(self@),
    {
        let mut i: usize = 0;
        while i < self.segments.len()
            invariant
                i <= self.segments@.len(),
                forall|k: int| 0 <= k < i ==> #[trigger] trim(segment_body(self@[k])).len() == 0,
            decreases self.segments@.len() - i,
        {
            let body = match &self.segments[i] {
                ReplySegment::Text(t) => chars_of(t.as_str()),
                ReplySegment::Code { code, .. } => chars_of(code.as_str()),
            };
            let (a, b) = trim_bounds(&body, 0, body.len());
            proof {
                assert(body@.subrange(0, body@.len() as int) =~= body@);
                assert(body@ == segment_body(self@[i as int]));
            }
            if a < b {
                assert(trim(segment_body(self@[i as int])).len() > 0);
                return false;
            }
            i += 1;
        }
        true
    }
}

/// Fence languages whose blocks are runnable in the terminal.
pub open spec fn shell_language(lang: Seq<char>) -> bool {
    ||| lang.len() == 0
    ||| lang == "bash"@
    ||| lang == "sh"@
    ||| lang == "shell"@
    ||| lang == "zsh"@
    ||| lang == "fish"@
    ||| lang == "console"@
    ||| lang == "terminal"@
    ||| lang == "powershell"@
    ||| lang == "pwsh"@
    ||| lang == "cmd"@
}

pub fn is_shell_language(lang: &Vec<char>) -> (r: bool)
    ensures
        r == shell_language(lang@),
{
    lang.len() == 0 || eq_str(lang, "bash") || eq_str(lang, "sh") || eq_str(lang, "shell")
        || eq_str(lang, "zsh") || eq_str(lang, "fish") || eq_str(lang, "console") || eq_str(
        lang,
        "terminal",
    ) || eq_str(lang, "powershell") || eq_str(lang, "pwsh") || eq_str(lang, "cmd")
}

pub open spec fn fence() -> Seq<char> {
    seq!['`', '`', '`']
}

/// The segment a fenced block becomes: shell code, or display text that keeps the fence.
pub open spec fn code_or_text(lang: Seq<char>, code: Seq<char>) -> SegmentView {
    if shell_language(lang) {
        SegmentView::Code(if lang.len() == 0 { "bash"@ } else { lang }, code)
    } else if lang.len() == 0 {
        SegmentView::Text(code)
    } else {
        SegmentView::Text(fence() + lang + seq!['\n'] + code + seq!['\n'] + fence())
    }
}

/// One segment for a non-blank block, none for a blank one.
pub open spec fn block_segment(lang: Seq<char>, code: Seq<char>) -> Seq<SegmentView> {
    if code.len() > 0 {
        seq![code_or_text(lang, code)]
    } else {
        Seq::empty()
    }
}

/// A text segment for non-blank prose, none otherwise.
pub open spec fn text_segment(t: Seq<char>) -> Seq<SegmentView> {
    if t.len() > 0 {
        seq![SegmentView::Text(t)]
    } else {
        Seq::empty()
    }
}

/// The fence language after an opening fence: the trimmed, lower-cased first line.
pub open spec fn fence_lang(r: Seq<char>) -> Seq<char> {
    let nl = find(r, seq!['\n']);
    if nl >= 0 {
        ascii_lower(trim(r.take(nl)))
    } else {
        Seq::empty()
    }
}

/// The block body after an opening fence: what follows its first line.
pub open spec fn fence_body(r: Seq<char>) -> Seq<char> {
    let nl = find(r, seq!['\n']);
    if nl >= 0 {
        r.skip(nl + 1)
    } else {
        r
    }
}

/// Markdown split into prose and fenced blocks; an unclosed fence runs to the end.
pub open spec fn markdown_segments(rest: Seq<char>) -> Seq<SegmentView>
    decreases rest.len(),
{
    let start = find(rest, fence());
    if start < 0 {
        text_segment(trim(rest))
    } else {
        let pre = text_segment(trim(rest.take(start)));
        let r1 = rest.skip(start + 3);
        let lang = fence_lang(r1);
        let body = fence_body(r1);
        let end = find(body, fence());
        if end < 0 {
            pre + block_segment(lang, trim(body))
        } else {
            proof {
                lemma_find_from_bounds(rest, fence(), 0);
                lemma_find_from_bounds(r1, seq!['\n'], 0);
                lemma_find_from_bounds(body, fence(), 0);
            }
            pre + block_segment(lang, trim(body.take(end))) + markdown_segments(
                body.skip(end + 3),
            )
        }
    }
}

fn fence_vec() -> (v: Vec<char>)
    ensures
        v@ == fence(),
{
    let v = vec!['`', '`', '`'];
    assert(v@ =~= fence());
    v
}

/// Appends the segment for a fenced block of language `lang`.
fn push_code_or_text(segments: &mut Vec<ReplySegment>, lang: &Vec<char>, code: &Vec<char>)
    ensures
        segment_views(final(segments)@) == segment_views(old(segments)@).push(
            code_or_text(lang@, code@),
        ),
{
    let seg = if is_shell_language(lang) {
        let language = if lang.len() == 0 {
            String::from_str("bash")
        } else {
            string_of(lang)
        };
        ReplySegment::Code { language, code: string_of(code) }
    } else if lang.len() == 0 {
        ReplySegment::Text(string_of(code))
    } else {
        let mut s = String::new();
        push_str(&mut s, "```");
        push_chars(&mut s, lang, 0, lang.len());
        push_char(&mut s, '\n');
        push_chars(&mut s, code, 0, code.len());
        push_char(&mut s, '\n');
        push_str(&mut s, "```");
        proof {
            reveal_strlit("```");
            assert(lang@.subrange(0, lang@.len() as int) =~= lang@);
            assert(code@.subrange(0, code@.len() as int) =~= code@);
            assert(s@ =~= fence() + lang@ + seq!['\n'] + code@ + seq!['\n'] + fence());
        }
        ReplySegment::Text(s)
    };
    segments.push(seg);
    assert(segment_views(segments@) =~= segment_views(old(segments)@).push(code_or_text(lang@, code@)));
}

/// One choice of a chat response, as the logic reads it: the message's
/// content, the legacy `text`, and the stream delta's content.
pub struct ChoiceView {
    pub message: Option<Seq<char>>,
    pub text: Option<Seq<char>>,
    pub delta: Option<Seq<char>>,
}

/// A chat completions response: its choices and its error (with the error's message).
pub struct ResponseView {
    pub choices: Option<Seq<ChoiceView>>,
    pub error: Option<Option<Seq<char>>>,
}

/// An `Option<{content: Option<String>}>` field, read as its content.
pub open spec fn content_field(f: Option<Json>) -> Option<Option<Seq<char>>> {
    match f {
        None => Some(None),
        Some(Json::Null) => Some(None),
        Some(x) => match field_of(x, 1, 0, "content"@) {
            None => None,
            Some(c) => opt_string(c),
        },
    }
}

/// An `Option<{content: Option<String>, role: Option<String>}>` field, read as its content.
pub open spec fn delta_field(f: Option<Json>) -> Option<Option<Seq<char>>> {
    match f {
        None => Some(None),
        Some(Json::Null) => Some(None),
        Some(x) => match (field_of(x, 2, 0, "content"@), field_of(x, 2, 1, "role"@)) {
            (Some(c), Some(r)) => match (opt_string(c), opt_string(r)) {
                (Some(content), Some(_)) => Some(content),
                _ => None,
            },
            _ => None,
        },
    }
}

/// A choice `{message, text, delta}`, or `None` when `j` does not have that shape.
pub open spec fn choice_of(j: Json) -> Option<ChoiceView> {
    match (field_of(j, 3, 0, "message"@), field_of(j, 3, 1, "text"@), field_of(j, 3, 2, "delta"@)) {
        (Some(m), Some(t), Some(d)) => match (content_field(m), opt_string(t), delta_field(d)) {
            (Some(message), Some(text), Some(delta)) => Some(ChoiceView { message, text, delta }),
            _ => None,
        },
        _ => None,
    }
}

/// Every element of `items` as a choice, or `None` when one is not.
pub open spec fn choices_of(items: Seq<Json>) -> Option<Seq<ChoiceView>>
    decreases items.len(),
{
    if items.len() == 0 {
        Some(Seq::empty())
    } else {
        match (choices_of(items.drop_last()), choice_of(items.last())) {
            (Some(cs), Some(c)) => Some(cs.push(c)),
            _ => None,
        }
    }
}

/// An `Option<Vec<choice>>` field.
pub open spec fn choices_field(f: Option<Json>) -> Option<Option<Seq<ChoiceView>>> {
    match f {
        None => Some(None),
        Some(Json::Null) => Some(None),
        Some(Json::Array(items)) => match choices_of(items@) {
            Some(cs) => Some(Some(cs)),
            None => None,
        },
        _ => None,
    }
}

/// An `Option<{message: Option<String>}>` error field.
pub open spec fn error_field(f: Option<Json>) -> Option<Option<Option<Seq<char>>>> {
    match f {
        None => Some(None),
        Some(Json::Null) => Some(None),
        Some(x) => match field_of(x, 1, 0, "message"@) {
            None => None,
            Some(m) => match opt_string(m) {
                None => None,
                Some(msg) => Some(Some(msg)),
            },
        },
    }
}

/// A chat completions response `{choices, error}`, or `None` when `j` does not
/// have that shape.
pub open spec fn chat_response(j: Json) -> Option<ResponseView> {
    match (field_of(j, 2, 0, "choices"@), field_of(j, 2, 1, "error"@)) {
        (Some(c), Some(e)) => match (choices_field(c), error_field(e)) {
            (Some(choices), Some(error)) => Some(ResponseView { choices, error }),
            _ => None,
        },
        _ => None,
    }
}

struct ChatChoice {
    message: Option<String>,
    text: Option<String>,
    delta: Option<String>,
}

impl ChatChoice {
    spec fn view_of(self) -> ChoiceView {
        ChoiceView { message: opt_chars(self.message), text: opt_chars(self.text), delta: opt_chars(self.delta) }
    }
}

struct ChatResponse {
    choices: Option<Vec<ChatChoice>>,
    error: Option<Option<String>>,
}

spec fn choice_views(cs: Seq<ChatChoice>) -> Seq<ChoiceView> {
    cs.map_values(|c: ChatChoice| c.view_of())
}

impl ChatResponse {
    spec fn view_of(self) -> ResponseView {
        ResponseView {
            choices: match self.choices {
                Some(cs) => Some(choice_views(cs@)),
                None => None,
            },
            error: match self.error {
                Some(e) => Some(opt_chars(e)),
                None => None,
            },
        }
    }
}

fn content_field_exec(f: Option<&Json>) -> (r: Option<Option<String>>)
    ensures
        match r {
            None => content_field(deref_opt(f)) is None,
            Some(c) => content_field(deref_opt(f)) == Some(opt_chars(c)),
        },
{
    match f {
        None => Some(None),
        Some(Json::Null) => Some(None),
        Some(x) => {
            let name = chars_of("content");
            match field(x, 1, 0, &name) {
                None => None,
                Some(c) => opt_string_exec(c),
            }
        },
    }
}

fn delta_field_exec(f: Option<&Json>) -> (r: Option<Option<String>>)
    ensures
        match r {
            None => delta_field(deref_opt(f)) is None,
            Some(c) => delta_field(deref_opt(f)) == Some(opt_chars(c)),
        },
{
    match f {
        None => Some(None),
        Some(Json::Null) => Some(None),
        Some(x) => {
            let n0 = chars_of("content");
            let n1 = chars_of("role");
            match (field(x, 2, 0, &n0), field(x, 2, 1, &n1)) {
                (Some(c), Some(r)) => match (opt_string_exec(c), opt_string_exec(r)) {
                    (Some(content), Some(_)) => Some(content),
                    _ => None,
                },
                _ => None,
            }
        },
    }
}

fn choice_exec(j: &Json) -> (r: Option<ChatChoice>)
    ensures
        match r {
            None => choice_of(*j) is None,
            Some(c) => choice_of(*j) == Some(c.view_of()),
        },
{
    let n0 = chars_of("message");
    let n1 = chars_of("text");
    let n2 = chars_of("delta");
    match (field(j, 3, 0, &n0), field(j, 3, 1, &n1), field(j, 3, 2, &n2)) {
        (Some(m), Some(t), Some(d)) => match (content_field_exec(m), opt_string_exec(t), delta_field_exec(d)) {
            (Some(message), Some(text), Some(delta)) => Some(ChatChoice { message, text, delta }),
            _ => None,
        },
        _ => None,
    }
}

fn choices_exec(items: &Vec<Json>) -> (r: Option<Vec<ChatChoice>>)
    ensures
        match r {
            None => choices_of(items@) is None,
            Some(cs) => choices_of(items@) == Some(choice_views(cs@)),
        },
{
    let mut out: Vec<ChatChoice> = Vec::new();
    let mut i: usize = 0;
    while i < items.len()
        invariant
            i <= items@.len(),
            choices_of(items@.take(i as int)) == Some(choice_views(out@)),
        decreases items@.len() - i,
    {
        assert(items@.take(i + 1).drop_last() =~= items@.take(i as int));
        match choice_exec(&items[i]) {
            None => {
                proof {
                    lemma_choices_prefix_none(items@, i + 1);
                }
                return None;
            },
            Some(c) => {
                out.push(c);
                assert(choice_views(out@) =~= choice_views(out@.drop_last()).push(out@.last().view_of()));
            },
        }
        i += 1;
    }
    assert(items@.take(i as int) =~= items@);
    Some(out)
}

/// Once a prefix fails to read as choices, so does the whole sequence.
proof fn lemma_choices_prefix_none(items: Seq<Json>, n: int)
    requires
        0 <= n <= items.len(),
        choices_of(items.take(n)) is None,
    ensures
        choices_of(items) is None,
    decreases items.len() - n,
{
    if n < items.len() {
        assert(items.take(n + 1).drop_last() =~= items.take(n));
        lemma_choices_prefix_none(items, n + 1);
    } else {
        assert(items.take(n) =~= items);
    }
}

fn chat_response_exec(j: &Json) -> (r: Option<ChatResponse>)
    ensures
        match r {
            None => chat_response(*j) is None,
            Some(c) => chat_response(*j) == Some(c.view_of()),
        },
{
    let n0 = chars_of("choices");
    let n1 = chars_of("error");
    match (field(j, 2, 0, &n0), field(j, 2, 1, &n1)) {
        (Some(c), Some(e)) => {
            let choices = match c {
                None => Some(None),
                Some(Json::Null) => Some(None),
                Some(Json::Array(items)) => match choices_exec(items) {
                    Some(cs) => Some(Some(cs)),
                    None => None,
                },
                _ => None,
            };
            let error = match e {
                None => Some(None),
                Some(Json::Null) => Some(None),
                Some(x) => {
                    let m = chars_of("message");
                    match field(x, 1, 0, &m) {
                        None => None,
                        Some(mv) => match opt_string_exec(mv) {
                            None => None,
                            Some(msg) => Some(Some(msg)),
                        },
                    }
                },
            };
            match (choices, error) {
                (Some(choices), Some(error)) => Some(ChatResponse { choices, error }),
                _ => None,
            }
        },
        _ => None,
    }
}

/// Appends a text segment when `v[lo..hi]` trims to something.
fn push_trimmed_text(segments: &mut Vec<ReplySegment>, v: &Vec<char>, lo: usize, hi: usize)
    requires
        lo <= hi <= v@.len(),
    ensures
        segment_views(final(segments)@) == segment_views(old(segments)@) + text_segment(
            trim(v@.subrange(lo as int, hi as int)),
        ),
{
    let (a, b) = trim_bounds(v, lo, hi);
    if a < b {
        let t = slice(v, a, b);
        segments.push(ReplySegment::Text(string_of(&t)));
        assert(segment_views(segments@) =~= segment_views(old(segments)@) + text_segment(
            trim(v@.subrange(lo as int, hi as int)),
        ));
    } else {
        assert(segment_views(segments@) =~= segment_views(old(segments)@) + text_segment(
            trim(v@.subrange(lo as int, hi as int)),
        ));
    }
}

/// Split markdown into text and fenced blocks. Only shell-language fences are runnable.
pub fn split_markdown_segments(text: &Vec<char>) -> (r: Vec<ReplySegment>)
    ensures
        segment_views(r@) == markdown_segments(text@),
{
    let fv = fence_vec();
    let nl: Vec<char> = vec!['\n'];
    assert(nl@ =~= seq!['\n']);
    let mut segments: Vec<ReplySegment> = Vec::new();
    let mut rest = slice(text, 0, text.len());
    assert(rest@ =~= text@);
    assert(segment_views(segments@) =~= Seq::<SegmentView>::empty());
    loop
        invariant
            fv@ == fence(),
            nl@ == seq!['\n'],
            segment_views(segments@) + markdown_segments(rest@) == markdown_segments(text@),
        decreases rest@.len(),
    {
        let ghost old_segs = segment_views(segments@);
        let ghost old_rest = rest@;
        match find_exec(&rest, &fv) {
            None => {
                push_trimmed_text(&mut segments, &rest, 0, rest.len());
                assert(rest@.subrange(0, rest@.len() as int) =~= rest@);
                return segments;
            },
            Some(start) => {
                proof {
                    lemma_find_from_bounds(rest@, fv@, 0);
                }
                push_trimmed_text(&mut segments, &rest, 0, start);
                assert(rest@.subrange(0, start as int) =~= rest@.take(start as int));
                let rl = rest.len();
                assert(start + 3 <= rl);
                let r1 = slice(&rest, start + 3, rl);
                assert(r1@ =~= rest@.skip(start + 3));
                let (lang, body) = match find_exec(&r1, &nl) {
                    Some(k) => {
                        proof {
                            lemma_find_from_bounds(r1@, nl@, 0);
                        }
                        let (x, y) = trim_bounds(&r1, 0, k);
                        let first = slice(&r1, x, y);
                        let lang = ascii_lower_exec(&first);
                        let body = slice(&r1, k + 1, r1.len());
                        assert(r1@.subrange(0, k as int) =~= r1@.take(k as int));
                        assert(body@ =~= r1@.skip(k + 1));
                        (lang, body)
                    },
                    None => (Vec::new(), r1),
                };
                assert(lang@ =~= fence_lang(r1@));
                assert(body@ == fence_body(r1@));
                match find_exec(&body, &fv) {
                    None => {
                        let (x, y) = trim_bounds(&body, 0, body.len());
                        assert(body@.subrange(0, body@.len() as int) =~= body@);
                        if x < y {
                            let code = slice(&body, x, y);
                            push_code_or_text(&mut segments, &lang, &code);
                        }
                        proof {
                            assert(markdown_segments(old_rest) == text_segment(trim(old_rest.take(start as int)))
                                + block_segment(fence_lang(r1@), trim(fence_body(r1@))));
                            assert(segment_views(segments@) =~= old_segs + markdown_segments(old_rest));
                        }
                        return segments;
                    },
                    Some(end) => {
                        proof {
                            lemma_find_from_bounds(body@, fv@, 0);
                        }
                        let (x, y) = trim_bounds(&body, 0, end);
                        assert(body@.subrange(0, end as int) =~= body@.take(end as int));
                        let ghost mid = segment_views(segments@);
                        if x < y {
                            let code = slice(&body, x, y);
                            push_code_or_text(&mut segments, &lang, &code);
                        }
                        let next = slice(&body, end + 3, body.len());
                        proof {
                            assert(next@ =~= body@.skip(end + 3));
                            assert(segment_views(segments@) =~= mid + block_segment(lang@, trim(body@.take(end as int))));
                            assert(markdown_segments(old_rest) == text_segment(trim(old_rest.take(start as int)))
                                + block_segment(fence_lang(r1@), trim(fence_body(r1@).take(end as int)))
                                + markdown_segments(next@));
                            assert(segment_views(segments@) + markdown_segments(next@) =~= old_segs + markdown_segments(old_rest));
                        }
                        rest = next;
                    },
                }
            },
        }
    }
}

/// Every element of `items` as a string, or `None` when one is not (`Vec<String>`).
pub open spec fn strings_of(items: Seq<Json>) -> Option<Seq<Seq<char>>>
    decreases items.len(),
{
    if items.len() == 0 {
        Some(Seq::empty())
    } else {
        match (strings_of(items.drop_last()), items.last()) {
            (Some(ss), Json::Str(s)) => Some(ss.push(s@)),
            _ => None,
        }
    }
}

/// `{commands: Vec<String>}` as a derived `Deserialize` reads it.
pub open spec fn commands_payload(j: Json) -> Option<Seq<Seq<char>>> {
    match field_of(j, 1, 0, "commands"@) {
        Some(Some(Json::Array(items))) => strings_of(items@),
        _ => None,
    }
}

/// The trimmed, non-blank entries of `ss`, in order.
pub open spec fn nonblank_trimmed(ss: Seq<Seq<char>>) -> Seq<Seq<char>>
    decreases ss.len(),
{
    if ss.len() == 0 {
        Seq::empty()
    } else {
        let rest = nonblank_trimmed(ss.drop_last());
        let t = trim(ss.last());
        if t.len() > 0 {
            rest.push(t)
        } else {
            rest
        }
    }
}

/// The command an entry of a `commands` array names: a string, or the string
/// under `command` (else `cmd`) of an object.
pub open spec fn item_command(j: Json) -> Option<Seq<char>> {
    match j {
        Json::Str(s) => Some(s@),
        Json::Object(ms) => {
            let c = match member_lookup(ms@, "command"@) {
                Some(x) => Some(x),
                None => member_lookup(ms@, "cmd"@),
            };
            json_str(c)
        },
        _ => None,
    }
}

/// The trimmed, non-blank commands named by the entries of `items`.
pub open spec fn item_commands(items: Seq<Json>) -> Seq<Seq<char>>
    decreases items.len(),
{
    if items.len() == 0 {
        Seq::empty()
    } else {
        let rest = item_commands(items.drop_last());
        match item_command(items.last()) {
            Some(c) => if trim(c).len() > 0 {
                rest.push(trim(c))
            } else {
                rest
            },
            None => rest,
        }
    }
}

/// The commands of a JSON reply `{"commands": ...}`: the typed payload first,
/// then a looser reading of the `commands` member (array entries, or the lines of a string).
pub open spec fn json_commands(parsed: Result<Json, Seq<char>>) -> Result<Seq<Seq<char>>, Seq<char>> {
    match parsed {
        Err(e) => Err(e),
        Ok(j) => match commands_payload(j) {
            Some(cmds) => {
                let c = nonblank_trimmed(cmds);
                if c.len() == 0 {
                    Err("No commands in JSON"@)
                } else {
                    Ok(c)
                }
            },
            None => match json_get(j, "commands"@) {
                None => Err("Missing commands field"@),
                Some(v) => {
                    let out = match v {
                        Json::Array(items) => item_commands(items@),
                        Json::Str(s) => nonblank_trimmed(lines(s@)),
                        _ => Seq::empty(),
                    };
                    if out.len() == 0 {
                        Err("No commands in JSON"@)
                    } else {
                        Ok(out)
                    }
                },
            },
        },
    }
}

fn strings_exec(items: &Vec<Json>) -> (r: Option<Vec<String>>)
    ensures
        match r {
            None => strings_of(items@) is None,
            Some(ss) => strings_of(items@) == Some(string_views(ss@)),
        },
{
    let mut out: Vec<String> = Vec::new();
    let mut i: usize = 0;
    while i < items.len()
        invariant
            i <= items@.len(),
            strings_of(items@.take(i as int)) == Some(string_views(out@)),
        decreases items@.len() - i,
    {
        assert(items@.take(i + 1).drop_last() =~= items@.take(i as int));
        match &items[i] {
            Json::Str(s) => {
                out.push(s.clone());
                assert(string_views(out@) =~= string_views(out@.drop_last()).push(out@.last()@));
            },
            _ => {
                proof {
                    lemma_strings_prefix_none(items@, i + 1);
                }
                return None;
            },
        }
        i += 1;
    }
    assert(items@.take(i as int) =~= items@);
    Some(out)
}

proof fn lemma_strings_prefix_none(items: Seq<Json>, n: int)
    requires
        0 <= n <= items.len(),
        strings_of(items.take(n)) is None,
    ensures
        strings_of(items) is None,
    decreases items.len() - n,
{
    if n < items.len() {
        assert(items.take(n + 1).drop_last() =~= items.take(n));
        lemma_strings_prefix_none(items, n + 1);
    } else {
        assert(items.take(n) =~= items);
    }
}

/// Appends `trim(c)` when it is not blank.
fn push_nonblank(out: &mut Vec<String>, c: &Vec<char>)
    ensures
        string_views(final(out)@) == if trim(c@).len() > 0 {
            string_views(old(out)@).push(trim(c@))
        } else {
            string_views(old(out)@)
        },
{
    let t = trimmed(c);
    if t.len() > 0 {
        out.push(string_of(&t));
        assert(string_views(out@) =~= string_views(old(out)@).push(trim(c@)));
    }
}

fn nonblank_trimmed_exec(ss: &Vec<Vec<char>>) -> (r: Vec<String>)
    ensures
        string_views(r@) == nonblank_trimmed(views(ss@)),
{
    let mut out: Vec<String> = Vec::new();
    let mut i: usize = 0;
    while i < ss.len()
        invariant
            i <= ss@.len(),
            string_views(out@) == nonblank_trimmed(views(ss@.take(i as int))),
        decreases ss@.len() - i,
    {
        assert(views(ss@.take(i + 1)).drop_last() =~= views(ss@.take(i as int)));
        assert(views(ss@.take(i + 1)).last() == ss@[i as int]@);
        push_nonblank(&mut out, &ss[i]);
        i += 1;
    }
    assert(ss@.take(i as int) =~= ss@);
    out
}

fn item_command_exec(j: &Json) -> (r: Option<Vec<char>>)
    ensures
        match r {
            None => item_command(*j) is None,
            Some(c) => item_command(*j) == Some(c@),
        },
{
    match j {
        Json::Str(s) => Some(chars_of(s.as_str())),
        Json::Object(ms) => {
            let k1 = chars_of("command");
            let k2 = chars_of("cmd");
            let c = match member_get(ms, &k1) {
                Some(x) => Some(x),
                None => member_get(ms, &k2),
            };
            as_str(c)
        },
        _ => None,
    }
}

fn item_commands_exec(items: &Vec<Json>) -> (r: Vec<String>)
    ensures
        string_views(r@) == item_commands(items@),
{
    let mut out: Vec<String> = Vec::new();
    let mut i: usize = 0;
    while i < items.len()
        invariant
            i <= items@.len(),
            string_views(out@) == item_commands(items@.take(i as int)),
        decreases items@.len() - i,
    {
        assert(items@.take(i + 1).drop_last() =~= items@.take(i as int));
        match item_command_exec(&items[i]) {
            Some(c) => push_nonblank(&mut out, &c),
            None => {},
        }
        i += 1;
    }
    assert(items@.take(i as int) =~= items@);
    out
}

/// The commands of a parsed JSON reply (see `json_commands`).
pub fn commands_from_json(parsed: &Result<Json, String>) -> (r: Result<Vec<String>, String>)
    ensures
        match r {
            Ok(c) => json_commands(parse_view(parsed)) == Ok::<Seq<Seq<char>>, Seq<char>>(string_views(c@)),
            Err(e) => json_commands(parse_view(parsed)) == Err::<Seq<Seq<char>>, Seq<char>>(e@),
        },
{
    match parsed {
        Err(e) => Err(e.clone()),
        Ok(j) => {
            let key = chars_of("commands");
            let typed = match field(j, 1, 0, &key) {
                Some(Some(Json::Array(items))) => strings_exec(items),
                _ => None,
            };
            match typed {
                Some(cmds) => {
                    let mut vs: Vec<Vec<char>> = Vec::new();
                    let mut i: usize = 0;
                    while i < cmds.len()
                        invariant
                            i <= cmds@.len(),
                            views(vs@) == string_views(cmds@.take(i as int)),
                        decreases cmds@.len() - i,
                    {
                        let c = chars_of(cmds[i].as_str());
                        assert(c@ == cmds@[i as int]@);
                        let ghost before = views(vs@);
                        vs.push(c);
                        assert(views(vs@) =~= before.push(c@));
                        assert(string_views(cmds@.take(i + 1)) =~= string_views(cmds@.take(i as int)).push(cmds@[i as int]@));
                        i += 1;
                    }
                    assert(cmds@.take(i as int) =~= cmds@);
                    let c = nonblank_trimmed_exec(&vs);
                    if c.len() == 0 {
                        Err(String::from_str("No commands in JSON"))
                    } else {
                        Ok(c)
                    }
                },
                None => match get(j, &key) {
                    None => Err(String::from_str("Missing commands field")),
                    Some(v) => {
                        let out = match v {
                            Json::Array(items) => item_commands_exec(items),
                            Json::Str(s) => {
                                let sv = chars_of(s.as_str());
                                let ls = lines_exec(&sv);
                                nonblank_trimmed_exec(&ls)
                            },
                            _ => Vec::new(),
                        };
                        if out.len() == 0 {
                            Err(String::from_str("No commands in JSON"))
                        } else {
                            Ok(out)
                        }
                    },
                },
            }
        },
    }
}

/// The body of a reply wrapped in one fence: from after the first line to the
/// last fence, trimmed.
pub open spec fn strip_fence(text: Seq<char>) -> Option<Seq<char>> {
    let t = trim(text);
    if !starts_with(t, fence()) {
        None
    } else {
        let nl = find(t, seq!['\n']);
        let end = rfind(t, fence());
        if nl < 0 || end < 0 || end <= nl + 1 {
            None
        } else {
            Some(trim(t.subrange(nl + 1, end)))
        }
    }
}

/// The commands of `raw` read as JSON.
pub open spec fn try_json_commands(raw: Seq<char>) -> Result<Seq<Seq<char>>, Seq<char>> {
    json_commands(json_parse_result(raw))
}

/// Each command as a runnable `bash` block.
pub open spec fn command_segments(cmds: Seq<Seq<char>>) -> Seq<SegmentView> {
    cmds.map_values(|c: Seq<char>| SegmentView::Code("bash"@, c))
}

/// An assistant reply read as segments: a JSON command list (whole, inside one
/// fence, or between the first `{` and the last `}` with prose around it), else markdown.
pub open spec fn reply_segments(content: Seq<char>) -> Result<Seq<SegmentView>, Seq<char>> {
    let t = trim(content);
    if t.len() == 0 {
        Err("Model returned an empty reply"@)
    } else if try_json_commands(t) is Ok {
        Ok(command_segments(try_json_commands(t)->Ok_0))
    } else if strip_fence(t) is Some && try_json_commands(strip_fence(t)->Some_0) is Ok {
        Ok(command_segments(try_json_commands(strip_fence(t)->Some_0)->Ok_0))
    } else {
        let start = find(t, seq!['{']);
        let end = rfind(t, seq!['}']);
        if start >= 0 && end >= 0 && end > start && try_json_commands(t.subrange(start, end + 1)) is Ok {
            Ok(text_segment(trim(t.take(start))) + command_segments(
                try_json_commands(t.subrange(start, end + 1))->Ok_0,
            ) + text_segment(trim(t.skip(end + 1))))
        } else {
            Ok(markdown_segments(t))
        }
    }
}

/// The code of each runnable segment, in order.
pub open spec fn code_bodies(segs: Seq<SegmentView>) -> Seq<Seq<char>>
    decreases segs.len(),
{
    if segs.len() == 0 {
        Seq::empty()
    } else {
        let rest = code_bodies(segs.drop_last());
        match segs.last() {
            SegmentView::Code(_, c) => rest.push(c),
            SegmentView::Text(_) => rest,
        }
    }
}

/// The runnable commands of a reply, or why there are none.
pub open spec fn reply_commands(content: Seq<char>) -> Result<Seq<Seq<char>>, Seq<char>> {
    match reply_segments(content) {
        Err(e) => Err(e),
        Ok(segs) => if code_bodies(segs).len() == 0 {
            Err("No runnable commands in reply"@)
        } else {
            Ok(code_bodies(segs))
        },
    }
}

fn try_parse_json_commands(raw: &Vec<char>) -> (r: Result<Vec<String>, String>)
    ensures
        match r {
            Ok(c) => try_json_commands(raw@) == Ok::<Seq<Seq<char>>, Seq<char>>(string_views(c@)),
            Err(e) => try_json_commands(raw@) == Err::<Seq<Seq<char>>, Seq<char>>(e@),
        },
{
    let s = string_of(raw);
    let parsed = parse_json(s.as_str());
    commands_from_json(&parsed)
}

fn strip_fence_if_json(text: &Vec<char>) -> (r: Option<Vec<char>>)
    ensures
        match r {
            Some(v) => strip_fence(text@) == Some(v@),
            None => strip_fence(text@) is None,
        },
{
    let t = trimmed(text);
    let f = fence_vec();
    if !starts_with_exec(&t, &f) {
        return None;
    }
    let nl: Vec<char> = vec!['\n'];
    assert(nl@ =~= seq!['\n']);
    let after = match find_exec(&t, &nl) {
        Some(k) => k,
        None => return None,
    };
    let end = match rfind_exec(&t, &f) {
        Some(e) => e,
        None => return None,
    };
    proof {
        lemma_rfind_from_bounds(t@, f@, t@.len() - f@.len());
        lemma_find_from_bounds(t@, nl@, 0);
        assert(matches_at(t@, nl@, after as int));
    }
    let tl = t.len();
    assert(after < tl);
    if end <= after + 1 {
        None
    } else {
        let (a, b) = trim_bounds(&t, after + 1, end);
        Some(slice(&t, a, b))
    }
}

fn push_commands(segments: &mut Vec<ReplySegment>, cmds: &Vec<String>)
    ensures
        segment_views(final(segments)@) == segment_views(old(segments)@) + command_segments(
            string_views(cmds@),
        ),
{
    let mut i: usize = 0;
    while i < cmds.len()
        invariant
            i <= cmds@.len(),
            segment_views(segments@) == segment_views(old(segments)@) + command_segments(
                string_views(cmds@.take(i as int)),
            ),
        decreases cmds@.len() - i,
    {
        let ghost before = segment_views(segments@);
        segments.push(ReplySegment::Code { language: String::from_str("bash"), code: cmds[i].clone() });
        proof {
            assert(segment_views(segments@) =~= before.push(SegmentView::Code("bash"@, cmds@[i as int]@)));
            assert(string_views(cmds@.take(i + 1)) =~= string_views(cmds@.take(i as int)).push(cmds@[i as int]@));
            assert(command_segments(string_views(cmds@.take(i + 1))) =~= command_segments(
                string_views(cmds@.take(i as int)),
            ).push(SegmentView::Code("bash"@, cmds@[i as int]@)));
        }
        i += 1;
    }
    assert(cmds@.take(i as int) =~= cmds@);
}

/// Parse assistant markdown/JSON into text + runnable shell code segments.
pub fn parse_reply(content: &str) -> (r: Result<AskReply, String>)
    ensures
        match r {
            Ok(reply) => reply_segments(content@) == Ok::<Seq<SegmentView>, Seq<char>>(reply@),
            Err(e) => reply_segments(content@) == Err::<Seq<SegmentView>, Seq<char>>(e@),
        },
{
    let cv = chars_of(content);
    let t = trimmed(&cv);
    if t.len() == 0 {
        return Err(String::from_str("Model returned an empty reply"));
    }
    match try_parse_json_commands(&t) {
        Ok(cmds) => {
            let mut segments: Vec<ReplySegment> = Vec::new();
            push_commands(&mut segments, &cmds);
            assert(segment_views(segments@) =~= command_segments(string_views(cmds@)));
            return Ok(AskReply { segments });
        },
        Err(_) => {},
    }
    match strip_fence_if_json(&t) {
        Some(inner) => match try_parse_json_commands(&inner) {
            Ok(cmds) => {
                let mut segments: Vec<ReplySegment> = Vec::new();
                push_commands(&mut segments, &cmds);
                assert(segment_views(segments@) =~= command_segments(string_views(cmds@)));
                return Ok(AskReply { segments });
            },
            Err(_) => {},
        },
        None => {},
    }
    let open: Vec<char> = vec!['{'];
    let close: Vec<char> = vec!['}'];
    assert(open@ =~= seq!['{']);
    assert(close@ =~= seq!['}']);
    match find_exec(&t, &open) {
        Some(start) => match rfind_exec(&t, &close) {
            Some(end) => {
                proof {
                    lemma_rfind_from_bounds(t@, close@, t@.len() - close@.len());
                }
                if end > start {
                    let candidate = slice(&t, start, end + 1);
                    match try_parse_json_commands(&candidate) {
                        Ok(cmds) => {
                            let mut segments: Vec<ReplySegment> = Vec::new();
                            push_trimmed_text(&mut segments, &t, 0, start);
                            push_commands(&mut segments, &cmds);
                            push_trimmed_text(&mut segments, &t, end + 1, t.len());
                            proof {
                                assert(t@.subrange(0, start as int) =~= t@.take(start as int));
                                assert(t@.subrange(end + 1, t@.len() as int) =~= t@.skip(end + 1));
                                assert(segment_views(segments@) =~= text_segment(trim(t@.take(start as int)))
                                    + command_segments(string_views(cmds@)) + text_segment(trim(t@.skip(end + 1))));
                            }
                            return Ok(AskReply { segments });
                        },
                        Err(_) => {},
                    }
                }
            },
            None => {},
        },
        None => {},
    }
    Ok(AskReply { segments: split_markdown_segments(&t) })
}

/// Runnable command strings of a reply.
pub fn parse_commands(content: &str) -> (r: Result<Vec<String>, String>)
    ensures
        match r {
            Ok(c) => reply_commands(content@) == Ok::<Seq<Seq<char>>, Seq<char>>(string_views(c@)),
            Err(e) => reply_commands(content@) == Err::<Seq<Seq<char>>, Seq<char>>(e@),
        },
{
    let reply = parse_reply(content)?;
    let mut cmds: Vec<String> = Vec::new();
    let mut i: usize = 0;
    while i < reply.segments.len()
        invariant
            i <= reply.segments@.len(),
            string_views(cmds@) == code_bodies(segment_views(reply.segments@.take(i as int))),
        decreases reply.segments@.len() - i,
    {
        assert(segment_views(reply.segments@.take(i + 1)).drop_last() =~= segment_views(reply.segments@.take(i as int)));
        match &reply.segments[i] {
            ReplySegment::Code { code, .. } => {
                cmds.push(code.clone());
                assert(string_views(cmds@) =~= string_views(cmds@.drop_last()).push(code@));
            },
            ReplySegment::Text(_) => {},
        }
        i += 1;
    }
    assert(reply.segments@.take(i as int) =~= reply.segments@);
    if cmds.len() == 0 {
        Err(String::from_str("No runnable commands in reply"))
    } else {
        Ok(cmds)
    }
}

/// This library's fixed message for a JSON document that is not a chat response.
/// It is not serde's message, which also names the value found and its line and
/// column; the document is read through `serde_json::Value`, which keeps none of that.
pub open spec fn shape_error() -> Seq<char> {
    "invalid type: expected struct ChatResponse"@
}

/// The text of a choice: the message's content, else `text`, else the delta's content.
pub open spec fn choice_text(c: ChoiceView) -> Option<Seq<char>> {
    match c.message {
        Some(m) => Some(m),
        None => match c.text {
            Some(t) => Some(t),
            None => c.delta,
        },
    }
}

/// The assistant content of a non-streaming response: the first choice's text,
/// or the API's error.
pub open spec fn json_message_content(parsed: Result<Json, Seq<char>>) -> Result<Seq<char>, Seq<char>> {
    match parsed {
        Err(e) => Err("Invalid API JSON: "@ + e),
        Ok(j) => match chat_response(j) {
            None => Err("Invalid API JSON: "@ + shape_error()),
            Some(resp) => match resp.error {
                Some(m) => Err(
                    match m {
                        Some(msg) => msg,
                        None => "Unknown API error"@,
                    },
                ),
                None => Ok(
                    match resp.choices {
                        Some(cs) => if cs.len() > 0 {
                            match choice_text(cs[0]) {
                                Some(t) => t,
                                None => Seq::empty(),
                            }
                        } else {
                            Seq::empty()
                        },
                        None => Seq::empty(),
                    },
                ),
            },
        },
    }
}

/// A string literal's characters, copied into a `String`.
fn lit(s: &str) -> (r: String)
    ensures
        r@ == s@,
{
    String::from_str(s)
}

/// `a + b` as a new string.
fn concat(a: &str, b: &str) -> (r: String)
    ensures
        r@ == a@ + b@,
{
    let mut s = String::from_str(a);
    push_str(&mut s, b);
    s
}

/// The assistant content of a parsed non-streaming response (see `json_message_content`).
pub fn message_content_from_json(parsed: &Result<Json, String>) -> (r: Result<String, String>)
    ensures
        match r {
            Ok(c) => json_message_content(parse_view(parsed)) == Ok::<Seq<char>, Seq<char>>(c@),
            Err(e) => json_message_content(parse_view(parsed)) == Err::<Seq<char>, Seq<char>>(e@),
        },
{
    match parsed {
        Err(e) => Err(concat("Invalid API JSON: ", e.as_str())),
        Ok(j) => match chat_response_exec(j) {
            None => Err(concat("Invalid API JSON: ", "invalid type: expected struct ChatResponse")),
            Some(resp) => match resp.error {
                Some(m) => Err(
                    match m {
                        Some(msg) => msg,
                        None => lit("Unknown API error"),
                    },
                ),
                None => Ok(
                    match resp.choices {
                        Some(cs) => if cs.len() > 0 {
                            assert(choice_views(cs@)[0] == cs@[0].view_of());
                            let c = &cs[0];
                            match &c.message {
                                Some(m) => m.clone(),
                                None => match &c.text {
                                    Some(t) => t.clone(),
                                    None => match &c.delta {
                                        Some(d) => d.clone(),
                                        None => String::new(),
                                    },
                                },
                            }
                        } else {
                            String::new()
                        },
                        None => String::new(),
                    },
                ),
            },
        },
    }
}

fn extract_json_message_content(text: &Vec<char>) -> (r: Result<String, String>)
    ensures
        match r {
            Ok(c) => json_message_content(json_parse_result(text@)) == Ok::<Seq<char>, Seq<char>>(c@),
            Err(e) => json_message_content(json_parse_result(text@)) == Err::<Seq<char>, Seq<char>>(e@),
        },
{
    let s = string_of(text);
    let parsed = parse_json(s.as_str());
    message_content_from_json(&parsed)
}

/// Progress through a server-sent event stream.
pub struct SseView {
    pub content: Seq<char>,
    pub saw_chunk: bool,
    pub last_error: Option<Seq<char>>,
}

pub open spec fn sse_start() -> SseView {
    SseView { content: Seq::empty(), saw_chunk: false, last_error: None }
}

pub open spec fn add_piece(st: SseView, piece: Option<Seq<char>>) -> SseView {
    match piece {
        Some(p) => SseView { content: st.content + p, saw_chunk: true, last_error: st.last_error },
        None => st,
    }
}

/// Typed choices appended in order.
pub open spec fn typed_choices(st: SseView, cs: Seq<ChoiceView>) -> SseView
    decreases cs.len(),
{
    if cs.len() == 0 {
        st
    } else {
        add_piece(typed_choices(st, cs.drop_last()), choice_text(cs.last()))
    }
}

/// The text of a loosely read choice: `delta.content`, else `message.content`, else `text`.
pub open spec fn value_choice_text(c: Json) -> Option<Seq<char>> {
    match json_str(json_get_opt(json_get(c, "delta"@), "content"@)) {
        Some(t) => Some(t),
        None => match json_str(json_get_opt(json_get(c, "message"@), "content"@)) {
            Some(t) => Some(t),
            None => json_str(json_get(c, "text"@)),
        },
    }
}

/// Loosely read choices appended in order.
pub open spec fn value_choices(st: SseView, items: Seq<Json>) -> SseView
    decreases items.len(),
{
    if items.len() == 0 {
        st
    } else {
        add_piece(value_choices(st, items.drop_last()), value_choice_text(items.last()))
    }
}

/// One `data:` payload of the stream applied to the progress so far.
pub open spec fn sse_apply(st: SseView, parsed: Result<Json, Seq<char>>) -> SseView {
    match parsed {
        Err(_) => st,
        Ok(j) => match chat_response(j) {
            Some(resp) => match resp.error {
                Some(m) => SseView {
                    last_error: Some(
                        match m {
                            Some(msg) => msg,
                            None => "Unknown API error"@,
                        },
                    ),
                    ..st
                },
                None => match resp.choices {
                    Some(cs) => typed_choices(st, cs),
                    None => st,
                },
            },
            None => match json_get(j, "error"@) {
                Some(err) => SseView {
                    last_error: Some(
                        match json_str(json_get(err, "message"@)) {
                            Some(msg) => msg,
                            None => "Unknown API error"@,
                        },
                    ),
                    ..st
                },
                None => match json_get(j, "choices"@) {
                    Some(Json::Array(items)) => value_choices(st, items@),
                    _ => st,
                },
            },
        },
    }
}

pub open spec fn data_prefix() -> Seq<char> {
    seq!['d', 'a', 't', 'a', ':']
}

/// The payload of a stream line: what follows `data:`, trimmed; none for blank
/// lines, comments, other fields and `[DONE]`.
pub open spec fn sse_payload(raw: Seq<char>) -> Option<Seq<char>> {
    let line = trim(raw);
    if line.len() == 0 || starts_with(line, seq![':']) || !starts_with(line, data_prefix()) {
        None
    } else {
        let p = trim(line.skip(5));
        if p.len() == 0 || p == "[DONE]"@ {
            None
        } else {
            Some(p)
        }
    }
}

/// The stream's lines applied in order.
pub open spec fn sse_lines(ls: Seq<Seq<char>>) -> SseView
    decreases ls.len(),
{
    if ls.len() == 0 {
        sse_start()
    } else {
        let st = sse_lines(ls.drop_last());
        match sse_payload(ls.last()) {
            Some(p) => sse_apply(st, json_parse_result(p)),
            None => st,
        }
    }
}

/// The assistant content of a streamed response; without any chunk, the body
/// read as one JSON response, else the last error.
pub open spec fn sse_content(body: Seq<char>) -> Result<Seq<char>, Seq<char>> {
    let st = sse_lines(lines(body));
    if st.saw_chunk {
        Ok(st.content)
    } else {
        let fb = json_message_content(json_parse_result(trim(body)));
        if fb is Ok && fb->Ok_0.len() > 0 {
            fb
        } else {
            match st.last_error {
                Some(e) => Err(e),
                None => Err("Stream ended with no content"@),
            }
        }
    }
}

/// Progress through a server-sent event stream.
pub struct SseState {
    pub content: String,
    pub saw_chunk: bool,
    pub last_error: Option<String>,
}

impl SseState {
    pub open spec fn view_of(self) -> SseView {
        SseView { content: self.content@, saw_chunk: self.saw_chunk, last_error: opt_chars(self.last_error) }
    }

    pub fn new() -> (r: SseState)
        ensures
            r.view_of() == sse_start(),
    {
        SseState { content: String::new(), saw_chunk: false, last_error: None }
    }

    fn add(&mut self, piece: Option<Vec<char>>)
        ensures
            final(self).view_of() == add_piece(old(self).view_of(), match piece {
                Some(p) => Some(p@),
                None => None,
            }),
    {
        match piece {
            Some(p) => {
                push_chars(&mut self.content, &p, 0, p.len());
                assert(p@.subrange(0, p@.len() as int) =~= p@);
                self.saw_chunk = true;
            },
            None => {},
        }
    }

    /// Applies one parsed `data:` payload (see `sse_apply`).
    pub fn apply_payload(&mut self, parsed: &Result<Json, String>)
        ensures
            final(self).view_of() == sse_apply(old(self).view_of(), parse_view(parsed)),
    {
        let j = match parsed {
            Err(_) => return,
            Ok(j) => j,
        };
        match chat_response_exec(j) {
            Some(resp) => match resp.error {
                Some(m) => {
                    self.last_error = Some(
                        match m {
                            Some(msg) => msg,
                            None => lit("Unknown API error"),
                        },
                    );
                },
                None => match &resp.choices {
                    Some(cs) => {
                        let ghost start = self.view_of();
                        let mut i: usize = 0;
                        while i < cs.len()
                            invariant
                                i <= cs@.len(),
                                self.view_of() == typed_choices(start, choice_views(cs@.take(i as int))),
                            decreases cs@.len() - i,
                        {
                            assert(choice_views(cs@.take(i + 1)).drop_last() =~= choice_views(cs@.take(i as int)));
                            let c = &cs[i];
                            let piece = match &c.message {
                                Some(m) => Some(chars_of(m.as_str())),
                                None => match &c.text {
                                    Some(t) => Some(chars_of(t.as_str())),
                                    None => match &c.delta {
                                        Some(d) => Some(chars_of(d.as_str())),
                                        None => None,
                                    },
                                },
                            };
                            self.add(piece);
                            i += 1;
                        }
                        assert(cs@.take(i as int) =~= cs@);
                    },
                    None => {},
                },
            },
            None => {
                let ke = chars_of("error");
                let km = chars_of("message");
                let kc = chars_of("choices");
                match get(j, &ke) {
                    Some(err) => {
                        let msg = as_str(get(err, &km));
                        self.last_error = Some(
                            match msg {
                                Some(m) => string_of(&m),
                                None => lit("Unknown API error"),
                            },
                        );
                    },
                    None => match get(j, &kc) {
                        Some(Json::Array(items)) => {
                            let ghost start = self.view_of();
                            let kd = chars_of("delta");
                            let kt = chars_of("text");
                            let kn = chars_of("content");
                            let mut i: usize = 0;
                            while i < items.len()
                                invariant
                                    i <= items@.len(),
                                    self.view_of() == value_choices(start, items@.take(i as int)),
                                    kd@ == "delta"@,
                                    km@ == "message"@,
                                    kt@ == "text"@,
                                    kn@ == "content"@,
                                decreases items@.len() - i,
                            {
                                assert(items@.take(i + 1).drop_last() =~= items@.take(i as int));
                                let c = &items[i];
                                let piece = match as_str(get_opt(get(c, &kd), &kn)) {
                                    Some(t) => Some(t),
                                    None => match as_str(get_opt(get(c, &km), &kn)) {
                                        Some(t) => Some(t),
                                        None => as_str(get(c, &kt)),
                                    },
                                };
                                self.add(piece);
                                i += 1;
                            }
                            assert(items@.take(i as int) =~= items@);
                        },
                        _ => {},
                    },
                }
            },
        }
    }
}

fn data_prefix_vec() -> (v: Vec<char>)
    ensures
        v@ == data_prefix(),
{
    let v = vec!['d', 'a', 't', 'a', ':'];
    assert(v@ =~= data_prefix());
    v
}

fn sse_payload_exec(raw: &Vec<char>) -> (r: Option<Vec<char>>)
    ensures
        match r {
            Some(p) => sse_payload(raw@) == Some(p@),
            None => sse_payload(raw@) is None,
        },
{
    let line = trimmed(raw);
    let colon: Vec<char> = vec![':'];
    assert(colon@ =~= seq![':']);
    let data = data_prefix_vec();
    if line.len() == 0 || starts_with_exec(&line, &colon) || !starts_with_exec(&line, &data) {
        return None;
    }
    let (a, b) = trim_bounds(&line, 5, line.len());
    assert(line@.subrange(5, line@.len() as int) =~= line@.skip(5));
    let p = slice(&line, a, b);
    if p.len() == 0 || eq_str(&p, "[DONE]") {
        None
    } else {
        Some(p)
    }
}

fn assemble_sse_content(body: &Vec<char>) -> (r: Result<String, String>)
    ensures
        match r {
            Ok(c) => sse_content(body@) == Ok::<Seq<char>, Seq<char>>(c@),
            Err(e) => sse_content(body@) == Err::<Seq<char>, Seq<char>>(e@),
        },
{
    let ls = lines_exec(body);
    let mut st = SseState::new();
    let mut i: usize = 0;
    while i < ls.len()
        invariant
            i <= ls@.len(),
            st.view_of() == sse_lines(views(ls@).take(i as int)),
        decreases ls@.len() - i,
    {
        assert(views(ls@).take(i + 1).drop_last() =~= views(ls@).take(i as int));
        assert(views(ls@).take(i + 1).last() == ls@[i as int]@);
        match sse_payload_exec(&ls[i]) {
            Some(p) => {
                let s = string_of(&p);
                let parsed = parse_json(s.as_str());
                st.apply_payload(&parsed);
            },
            None => {},
        }
        i += 1;
    }
    assert(views(ls@).take(i as int) =~= views(ls@));
    if st.saw_chunk {
        return Ok(st.content);
    }
    let t = trimmed(body);
    match extract_json_message_content(&t) {
        Ok(f) => {
            if f.as_str().unicode_len() > 0 {
                return Ok(f);
            }
        },
        Err(_) => {},
    }
    match st.last_error {
        Some(e) => Err(e),
        None => Err(lit("Stream ended with no content")),
    }
}

/// Some line of `ls`, trimmed, starts with `data:`.
pub open spec fn any_data_line(ls: Seq<Seq<char>>) -> bool {
    exists|i: int| 0 <= i < ls.len() && #[trigger] starts_with(trim(ls[i]), data_prefix())
}

/// The assistant content of an API response body: a stream when the content type
/// or a `data:` line says so, else one JSON response.
pub open spec fn assistant_content(body: Seq<char>, content_type: Seq<char>) -> Result<Seq<char>, Seq<char>> {
    let t = trim(body);
    if t.len() == 0 {
        Err("Empty API response"@)
    } else if contains(content_type, "text/event-stream"@) || any_data_line(lines(t)) {
        sse_content(t)
    } else {
        json_message_content(json_parse_result(t))
    }
}

fn has_data_line(t: &Vec<char>) -> (r: bool)
    ensures
        r == any_data_line(lines(t@)),
{
    let ls = lines_exec(t);
    let data = data_prefix_vec();
    let mut i: usize = 0;
    while i < ls.len()
        invariant
            i <= ls@.len(),
            data@ == data_prefix(),
            views(ls@) == lines(t@),
            forall|k: int| 0 <= k < i ==> !#[trigger] starts_with(trim(lines(t@)[k]), data_prefix()),
        decreases ls@.len() - i,
    {
        let l = trimmed(&ls[i]);
        assert(views(ls@)[i as int] == ls@[i as int]@);
        if starts_with_exec(&l, &data) {
            assert(starts_with(trim(lines(t@)[i as int]), data_prefix()));
            return true;
        }
        i += 1;
    }
    false
}

/// The assistant content of an API response body (see `assistant_content`).
pub fn extract_assistant_content(body: &str, content_type: &str) -> (r: Result<String, String>)
    ensures
        match r {
            Ok(c) => assistant_content(body@, content_type@) == Ok::<Seq<char>, Seq<char>>(c@),
            Err(e) => assistant_content(body@, content_type@) == Err::<Seq<char>, Seq<char>>(e@),
        },
{
    let bv = chars_of(body);
    let t = trimmed(&bv);
    if t.len() == 0 {
        return Err(lit("Empty API response"));
    }
    let ct = chars_of(content_type);
    let es = chars_of("text/event-stream");
    let looks = contains_exec(&ct, &es) || has_data_line(&t);
    if looks {
        assemble_sse_content(&t)
    } else {
        extract_json_message_content(&t)
    }
}

/// The system prompt every Ask request starts with.
pub const SYSTEM_PROMPT: &'static str = "You are a shell / terminal assistant for a Linux terminal emulator.
An \"Active terminal environment\" section is appended to this system prompt. Always respect it.

Answer briefly in plain text when helpful.
Put every runnable command or statement inside a fenced code block so the user can Apply/Run it, for example:

```bash
ls -la
```

Rules:
- Prefer commands that fit the detected session (SQL in psql/mysql, Python in a REPL, shell otherwise).
- If the environment could not be identified, assume a general Linux terminal and use portable shell commands for the listed shell.
- Prefer safe, non-destructive commands unless the user clearly asks otherwise.
- Do not put explanations inside code fences.
- You may also reply with JSON {\"commands\":[\"...\"]} instead of prose; each entry is a runnable command.
- Always follow the Active terminal environment section when present.";

/// The system message: the system prompt, then the terminal's pre-prompt when
/// sharing is on, else a note that no context was shared.
pub open spec fn system_text(share: bool, pre_prompt: Seq<char>) -> Seq<char> {
    if share {
        SYSTEM_PROMPT@ + "\n\n"@ + pre_prompt
    } else {
        SYSTEM_PROMPT@ + "\n\n## Active terminal environment\n- No live terminal context was shared for this request.\n- Assume a general Linux terminal and portable shell commands."@
    }
}

/// A chat completions request, ready to send (streaming, temperature 0.2).
pub struct AskRequest {
    pub url: String,
    pub authorization: String,
    pub model: String,
    pub system: String,
    pub prompt: String,
}

/// Build the request for an Ask, or say why none can be sent.
pub fn prepare_ask(settings: &AppSettings, prompt: &str, context: &TerminalContext) -> (r: Result<AskRequest, String>)
    ensures
        trim(prompt@).len() == 0 ==> (r matches Err(e) && e@ == "Prompt is empty"@),
        trim(prompt@).len() > 0 && trim(settings.llm_api_key@).len() == 0 ==> (r matches Err(e) && e@
            == "Set an API key in Settings"@),
        trim(prompt@).len() > 0 && trim(settings.llm_api_key@).len() > 0 ==> (r matches Ok(req) && {
            &&& req.url@ == strip_slashes(settings.llm_endpoint@) + "/chat/completions"@
            &&& req.authorization@ == "Bearer "@ + trim(settings.llm_api_key@)
            &&& req.model@ == settings.llm_model@
            &&& req.system@ == system_text(settings.ask_share_terminal_context, context_pre_prompt(*context))
            &&& req.prompt@ == trim(prompt@)
        }),
{
    let pv = chars_of(prompt);
    let p = trimmed(&pv);
    if p.len() == 0 {
        return Err(lit("Prompt is empty"));
    }
    let kv = chars_of(settings.llm_api_key.as_str());
    let key = trimmed(&kv);
    if key.len() == 0 {
        return Err(lit("Set an API key in Settings"));
    }
    let ev = chars_of(settings.llm_endpoint.as_str());
    let mut n = ev.len();
    assert(ev@.take(ev@.len() as int) =~= ev@);
    while n > 0 && ev[n - 1] == '/'
        invariant
            n <= ev@.len(),
            strip_slashes(ev@.take(n as int)) == strip_slashes(ev@),
        decreases n,
    {
        assert(ev@.take(n as int).drop_last() =~= ev@.take(n - 1));
        n -= 1;
    }
    let base = slice(&ev, 0, n);
    assert(base@ =~= ev@.take(n as int));
    let mut url = string_of(&base);
    push_str(&mut url, "/chat/completions");
    let system = if settings.ask_share_terminal_context {
        let mut s = lit(SYSTEM_PROMPT);
        push_str(&mut s, "\n\n");
        let pre = context.build_pre_prompt();
        push_str(&mut s, pre.as_str());
        s
    } else {
        concat(
            SYSTEM_PROMPT,
            "\n\n## Active terminal environment\n- No live terminal context was shared for this request.\n- Assume a general Linux terminal and portable shell commands.",
        )
    };
    let mut authorization = lit("Bearer ");
    push_chars(&mut authorization, &key, 0, key.len());
    assert(key@.subrange(0, key@.len() as int) =~= key@);
    Ok(AskRequest {
        url,
        authorization,
        model: settings.llm_model.clone(),
        system,
        prompt: string_of(&p),
    })
}

/// The message for a failed HTTP status: the API's error message when the body
/// carries one, else the body.
pub open spec fn api_error_text(status: u16, text: Seq<char>, parsed: Result<Json, Seq<char>>) -> Seq<char> {
    let head = "API error ("@ + crate::text::decimal(status as nat) + "): "@;
    match parsed {
        Ok(j) => match chat_response(j) {
            Some(resp) => match resp.error {
                Some(Some(msg)) => head + msg,
                _ => head + text,
            },
            None => head + text,
        },
        Err(_) => head + text,
    }
}

/// The message for a failed HTTP status, given the body read as JSON.
pub fn api_error_message(status: u16, text: &str, parsed: &Result<Json, String>) -> (r: String)
    ensures
        r@ == api_error_text(status, text@, parse_view(parsed)),
{
    let mut s = lit("API error (");
    let d = string_of(&crate::text::decimal_exec(status as u64));
    push_str(&mut s, d.as_str());
    push_str(&mut s, "): ");
    let msg = match parsed {
        Ok(j) => match chat_response_exec(j) {
            Some(resp) => match resp.error {
                Some(Some(m)) => Some(m),
                _ => None,
            },
            None => None,
        },
        Err(_) => None,
    };
    match msg {
        Some(m) => push_str(&mut s, m.as_str()),
        None => push_str(&mut s, text),
    }
    s
}

/// The message for a failed HTTP status.
pub fn format_api_error(status: u16, text: &str) -> (r: String)
    ensures
        r@ == api_error_text(status, text@, json_parse_result(text@)),
{
    let parsed = parse_json(text);
    api_error_message(status, text, &parsed)
}

/// What an Ask ends with once the HTTP response is in: an API error for a
/// non-2xx status, else the reply read from the body.
pub open spec fn ask_outcome(status: u16, content_type: Seq<char>, body: Seq<char>) -> Result<Seq<SegmentView>, Seq<char>> {
    if !(200 <= status && status <= 299) {
        Err(api_error_text(status, body, json_parse_result(body)))
    } else {
        match assistant_content(body, ascii_lower(content_type)) {
            Err(e) => Err(e),
            Ok(c) => reply_segments(c),
        }
    }
}

/// Read an HTTP response into the Ask reply (see `ask_outcome`).
pub fn finish_ask(status: u16, content_type: &str, body: &str) -> (r: Result<AskReply, String>)
    ensures
        match r {
            Ok(reply) => ask_outcome(status, content_type@, body@) == Ok::<Seq<SegmentView>, Seq<char>>(reply@),
            Err(e) => ask_outcome(status, content_type@, body@) == Err::<Seq<SegmentView>, Seq<char>>(e@),
        },
{
    if !(200 <= status && status <= 299) {
        return Err(format_api_error(status, body));
    }
    let cv = chars_of(content_type);
    let lower = string_of(&ascii_lower_exec(&cv));
    let content = extract_assistant_content(body, lower.as_str())?;
    parse_reply(content.as_str())
}

/// A parse result in spec terms.
pub open spec fn parse_view(p: &Result<Json, String>) -> Result<Json, Seq<char>> {
    match p {
        Ok(j) => Ok(*j),
        Err(e) => Err(e@),
    }
}

/// With sharing off, the system message is the same whatever the terminal's
/// context: nothing of the context goes into the request.
pub proof fn lemma_context_only_when_shared(a: TerminalContext, b: TerminalContext)
    ensures
        system_text(false, context_pre_prompt(a)) == system_text(false, context_pre_prompt(b)),
{
}

/// The commands of a reply are the code of its runnable blocks: as many as the
/// Apply/Run count shows.
pub proof fn lemma_commands_are_runnable_blocks(segs: Seq<SegmentView>)
    ensures
        code_bodies(segs).len() == count_code(segs),
    decreases segs.len(),
{
    if segs.len() > 0 {
        lemma_commands_are_runnable_blocks(segs.drop_last());
    }
}

/// A JSON command list becomes one runnable block per command, in order, whose
/// code is the command.
pub proof fn lemma_json_commands_round_trip(cmds: Seq<Seq<char>>)
    ensures
        code_bodies(command_segments(cmds)) == cmds,
        count_code(command_segments(cmds)) == cmds.len(),
    decreases cmds.len(),
{
    if cmds.len() > 0 {
        let rest = cmds.drop_last();
        lemma_json_commands_round_trip(rest);
        assert(command_segments(cmds).drop_last() =~= command_segments(rest));
        assert(cmds =~= rest.push(cmds.last()));
    } else {
        assert(command_segments(cmds) =~= Seq::<SegmentView>::empty());
    }
}

/// Every code segment is in a shell language: only shell blocks offer Apply / Run.
pub open spec fn all_shell(segs: Seq<SegmentView>) -> bool {
    forall|i: int| 0 <= i < segs.len() ==> (#[trigger] segs[i] matches SegmentView::Code(l, _) ==> shell_language(l))
}

proof fn lemma_all_shell_concat(a: Seq<SegmentView>, b: Seq<SegmentView>)
    requires
        all_shell(a),
        all_shell(b),
    ensures
        all_shell(a + b),
{
    assert forall|i: int| 0 <= i < (a + b).len() implies ((#[trigger] (a + b)[i]) matches SegmentView::Code(l, _) ==> shell_language(l)) by {
        if i < a.len() {
            assert((a + b)[i] == a[i]);
        } else {
            assert((a + b)[i] == b[i - a.len()]);
        }
    }
}

proof fn lemma_markdown_all_shell(rest: Seq<char>)
    ensures
        all_shell(markdown_segments(rest)),
    decreases rest.len(),
{
    reveal_strlit("bash");
    assert(shell_language("bash"@));
    let start = find(rest, fence());
    if start >= 0 {
        lemma_find_from_bounds(rest, fence(), 0);
        let r1 = rest.skip(start + 3);
        lemma_find_from_bounds(r1, seq!['\n'], 0);
        let lang = fence_lang(r1);
        let body = fence_body(r1);
        let end = find(body, fence());
        let pre = text_segment(trim(rest.take(start)));
        assert(all_shell(pre));
        if end < 0 {
            assert(all_shell(block_segment(lang, trim(body))));
            lemma_all_shell_concat(pre, block_segment(lang, trim(body)));
        } else {
            lemma_find_from_bounds(body, fence(), 0);
            let blk = block_segment(lang, trim(body.take(end)));
            assert(all_shell(blk));
            lemma_markdown_all_shell(body.skip(end + 3));
            lemma_all_shell_concat(pre, blk);
            lemma_all_shell_concat(pre + blk, markdown_segments(body.skip(end + 3)));
        }
    } else {
        assert(all_shell(text_segment(trim(rest))));
    }
}

/// Only shell code is offered to run: every code segment of a parsed reply has
/// a shell language (JSON commands come as `bash` blocks, other fences as text).
pub proof fn lemma_only_shell_code_runs(content: Seq<char>)
    ensures
        reply_segments(content) matches Ok(segs) ==> all_shell(segs),
{
    reveal_strlit("bash");
    assert(shell_language("bash"@));
    let t = trim(content);
    assert forall|cmds: Seq<Seq<char>>| all_shell(#[trigger] command_segments(cmds)) by {
        assert forall|i: int| 0 <= i < command_segments(cmds).len() implies ((#[trigger] command_segments(cmds)[i]) matches SegmentView::Code(l, _) ==> shell_language(l)) by {
            assert(command_segments(cmds)[i] == SegmentView::Code("bash"@, cmds[i]));
        }
    }
    if t.len() > 0 && !(try_json_commands(t) is Ok) && !(strip_fence(t) is Some && try_json_commands(strip_fence(t)->Some_0) is Ok) {
        let start = find(t, seq!['{']);
        let end = rfind(t, seq!['}']);
        if start >= 0 && end >= 0 && end > start && try_json_commands(t.subrange(start, end + 1)) is Ok {
            let a = text_segment(trim(t.take(start)));
            let b = command_segments(try_json_commands(t.subrange(start, end + 1))->Ok_0);
            let c = text_segment(trim(t.skip(end + 1)));
            assert(all_shell(a));
            assert(all_shell(c));
            lemma_all_shell_concat(a, b);
            lemma_all_shell_concat(a + b, c);
        } else {
            lemma_markdown_all_shell(t);
        }
    }
}

/// The value of the only member of object `j`, when that member is named `key`.
pub open spec fn sole_member(j: Json, key: Seq<char>) -> Option<Json> {
    match j {
        Json::Object(ms) => if ms@.len() == 1 && ms@[0].key@ == key {
            Some(ms@[0].value)
        } else {
            None
        },
        _ => None,
    }
}

/// `j` is the stream chunk `{"choices":[{"delta":{"content": p}}]}`.
pub open spec fn delta_chunk(j: Json, p: Seq<char>) -> bool {
    &&& sole_member(j, "choices"@) matches Some(Json::Array(items))
    &&& items@.len() == 1
    &&& sole_member(items@[0], "delta"@) matches Some(d)
    &&& sole_member(d, "content"@) matches Some(Json::Str(s))
    &&& s@ == p
}

proof fn lemma_sole_member(j: Json, key: Seq<char>, other: Seq<char>, n: nat, idx: int)
    requires
        sole_member(j, key) is Some,
        other != key,
    ensures
        json_get(j, key) == sole_member(j, key),
        json_get(j, other) is None,
        field_of(j, n, idx, key) == Some(sole_member(j, key)),
        field_of(j, n, idx, other) == Some(None::<Json>),
{
    match j {
        Json::Object(ms) => {
            assert(ms@.drop_first().len() == 0);
            assert(member_lookup(ms@.drop_first(), other) is None);
        },
        _ => {},
    }
}

/// The progress after each parsed payload of `js`, in order.
pub open spec fn sse_applied(st: SseView, js: Seq<Json>) -> SseView
    decreases js.len(),
{
    if js.len() == 0 {
        st
    } else {
        sse_apply(sse_applied(st, js.drop_last()), Ok(js.last()))
    }
}

/// A delta chunk appends its content, unchanged, to what the stream gave so far.
pub proof fn lemma_delta_chunk_appends(st: SseView, j: Json, p: Seq<char>)
    requires
        delta_chunk(j, p),
    ensures
        sse_apply(st, Ok(j)) == (SseView { content: st.content + p, saw_chunk: true, last_error: st.last_error }),
{
    reveal_strlit("choices");
    reveal_strlit("error");
    reveal_strlit("delta");
    reveal_strlit("message");
    reveal_strlit("text");
    reveal_strlit("content");
    reveal_strlit("role");
    let items = match sole_member(j, "choices"@) {
        Some(Json::Array(items)) => items,
        _ => { assert(false); arbitrary() },
    };
    let c = items@[0];
    let d = sole_member(c, "delta"@)->Some_0;
    assert("choices"@ != "error"@) by { assert("choices"@.len() != "error"@.len()); }
    assert("delta"@ != "message"@) by { assert("delta"@.len() != "message"@.len()); }
    assert("delta"@ != "text"@) by { assert("delta"@.len() != "text"@.len()); }
    assert("content"@ != "role"@) by { assert("content"@.len() != "role"@.len()); }
    lemma_sole_member(j, "choices"@, "error"@, 2, 0);
    lemma_sole_member(j, "choices"@, "error"@, 2, 1);
    lemma_sole_member(c, "delta"@, "message"@, 3, 0);
    lemma_sole_member(c, "delta"@, "text"@, 3, 1);
    lemma_sole_member(c, "delta"@, "message"@, 3, 2);
    lemma_sole_member(d, "content"@, "role"@, 2, 0);
    lemma_sole_member(d, "content"@, "role"@, 2, 1);
    let cv = ChoiceView { message: None, text: None, delta: Some(p) };
    assert(delta_field(Some(d)) == Some(Some(p)));
    assert(choice_of(c) == Some(cv));
    assert(items@.drop_last().len() == 0);
    assert(choices_of(items@) == Some(seq![cv])) by {
        assert(choices_of(items@.drop_last()) == Some(Seq::<ChoiceView>::empty()));
        assert(Seq::<ChoiceView>::empty().push(cv) =~= seq![cv]);
    }
    assert(chat_response(j) == Some(ResponseView { choices: Some(seq![cv]), error: None }));
    assert(seq![cv].drop_last() =~= Seq::<ChoiceView>::empty());
    assert(seq![cv].last() == cv);
    assert(typed_choices(st, seq![cv].drop_last()) == st);
    assert(typed_choices(st, seq![cv]) == add_piece(st, choice_text(cv)));
}

/// A stream of delta chunks carrying `p1 .. pn` assembles to `p1 + ... + pn`:
/// each piece is appended unchanged and in order.
pub proof fn lemma_sse_deltas_concatenate(js: Seq<Json>, ps: Seq<Seq<char>>)
    requires
        js.len() == ps.len(),
        forall|k: int| 0 <= k < js.len() ==> delta_chunk(#[trigger] js[k], ps[k]),
    ensures
        sse_applied(sse_start(), js).content == ps.flatten(),
        sse_applied(sse_start(), js).saw_chunk == (js.len() > 0),
        sse_applied(sse_start(), js).last_error is None,
    decreases js.len(),
{
    ps.lemma_flatten_and_flatten_alt_are_equivalent();
    if js.len() > 0 {
        let js2 = js.drop_last();
        let ps2 = ps.drop_last();
        assert forall|k: int| 0 <= k < js2.len() implies delta_chunk(#[trigger] js2[k], ps2[k]) by {
            assert(js2[k] == js[k]);
        }
        lemma_sse_deltas_concatenate(js2, ps2);
        ps2.lemma_flatten_and_flatten_alt_are_equivalent();
        assert(delta_chunk(js[js.len() - 1], ps[ps.len() - 1]));
        lemma_delta_chunk_appends(sse_applied(sse_start(), js2), js.last(), ps.last());
    } else {
        assert(ps.flatten_alt() =~= Seq::<char>::empty());
    }
}

/// The lines of a stream that carry a `data:` payload, in order: comments,
/// blank lines, other fields and the `[DONE]` marker are left out.
pub open spec fn data_lines(ls: Seq<Seq<char>>) -> Seq<Seq<char>>
    decreases ls.len(),
{
    if ls.len() == 0 {
        ls
    } else if sse_payload(ls.last()) is Some {
        data_lines(ls.drop_last()).push(ls.last())
    } else {
        data_lines(ls.drop_last())
    }
}

/// Lines without a payload leave the stream's state as it was.
proof fn lemma_sse_data_lines(ls: Seq<Seq<char>>)
    ensures
        sse_lines(ls) == sse_lines(data_lines(ls)),
    decreases ls.len(),
{
    if ls.len() > 0 {
        lemma_sse_data_lines(ls.drop_last());
        if sse_payload(ls.last()) is Some {
            let d = data_lines(ls.drop_last()).push(ls.last());
            assert(d.drop_last() =~= data_lines(ls.drop_last()));
        }
    }
}

/// A stream whose data lines parse, in order, to delta chunks carrying
/// `p1 .. pn` (n > 0) is read as the content `p1 + ... + pn`: each piece is
/// appended as it came, whatever blank lines, comments or `[DONE]` stand
/// between them.
pub proof fn lemma_sse_stream_content(body: Seq<char>, js: Seq<Json>, ps: Seq<Seq<char>>)
    requires
        data_lines(lines(body)).len() == js.len(),
        js.len() == ps.len(),
        ps.len() > 0,
        forall|k: int|
            0 <= k < js.len() ==> payload_parses_to(#[trigger] data_lines(lines(body))[k], js[k]),
        forall|k: int| 0 <= k < js.len() ==> delta_chunk(#[trigger] js[k], ps[k]),
    ensures
        sse_content(body) == Ok::<Seq<char>, Seq<char>>(ps.flatten()),
{
    lemma_sse_data_lines(lines(body));
    lemma_sse_lines_applied(data_lines(lines(body)), js);
    lemma_sse_deltas_concatenate(js, ps);
}

/// Stream line `line` is a `data:` line whose payload parses to `j`.
pub open spec fn payload_parses_to(line: Seq<char>, j: Json) -> bool {
    &&& sse_payload(line) is Some
    &&& json_parse_result(sse_payload(line)->Some_0) == Ok::<Json, Seq<char>>(j)
}

proof fn lemma_sse_lines_applied(ls: Seq<Seq<char>>, js: Seq<Json>)
    requires
        ls.len() == js.len(),
        forall|k: int| 0 <= k < js.len() ==> payload_parses_to(#[trigger] ls[k], js[k]),
    ensures
        sse_lines(ls) == sse_applied(sse_start(), js),
    decreases ls.len(),
{
    if ls.len() > 0 {
        let ls2 = ls.drop_last();
        let js2 = js.drop_last();
        assert forall|k: int| 0 <= k < js2.len() implies payload_parses_to(#[trigger] ls2[k], js2[k]) by {
            assert(ls2[k] == ls[k]);
            assert(js2[k] == js[k]);
        }
        lemma_sse_lines_applied(ls2, js2);
        assert(payload_parses_to(ls[ls.len() - 1], js[js.len() - 1]));
        assert(ls[ls.len() - 1] == ls.last());
        assert(js[js.len() - 1] == js.last());
    }
}

/// A fenced block with no language tag is shell code: prose `a` then a fence,
/// a line break, body `b` and a closing fence (neither holding a backquote)
/// read as the prose, then a runnable `bash` block of the trimmed body.
pub proof fn lemma_untagged_fence_runs(a: Seq<char>, b: Seq<char>)
    requires
        forall|j: int| 0 <= j < a.len() ==> a[j] != '`',
        forall|j: int| 0 <= j < b.len() ==> b[j] != '`',
        trim(b).len() > 0,
    ensures
        markdown_segments(a + fence() + seq!['\n'] + b + fence()) == text_segment(trim(a)) + seq![
            SegmentView::Code("bash"@, trim(b)),
        ],
{
    reveal_strlit("bash");
    let f = fence();
    let rest = a + f + seq!['\n'] + b + f;
    assert forall|j: int| 0 <= j < a.len() implies !matches_at(rest, f, j) by {
        assert(rest[j] == a[j]);
        if matches_at(rest, f, j) {
            assert(rest.subrange(j, j + 3)[0] == f[0]);
        }
    }
    assert(matches_at(rest, f, a.len() as int)) by {
        assert(rest.subrange(a.len() as int, a.len() as int + 3) =~= f);
    }
    lemma_find_first(rest, f, 0, a.len() as int);
    let start = a.len() as int;
    assert(rest.take(start) =~= a);
    let r1 = rest.skip(start + 3);
    assert(r1 =~= seq!['\n'] + b + f);
    assert(matches_at(r1, seq!['\n'], 0)) by {
        assert(r1.subrange(0, 1) =~= seq!['\n']);
    }
    lemma_find_first(r1, seq!['\n'], 0, 0);
    assert(r1.take(0) =~= Seq::<char>::empty());
    assert(trim(Seq::<char>::empty()) =~= Seq::<char>::empty());
    assert(ascii_lower(Seq::<char>::empty()) =~= Seq::<char>::empty());
    let body = r1.skip(1);
    assert(body =~= b + f);
    assert forall|j: int| 0 <= j < b.len() implies !matches_at(body, f, j) by {
        assert(body[j] == b[j]);
        if matches_at(body, f, j) {
            assert(body.subrange(j, j + 3)[0] == f[0]);
        }
    }
    assert(matches_at(body, f, b.len() as int)) by {
        assert(body.subrange(b.len() as int, b.len() as int + 3) =~= f);
    }
    lemma_find_first(body, f, 0, b.len() as int);
    assert(body.take(b.len() as int) =~= b);
    let tail = body.skip(b.len() as int + 3);
    assert(tail =~= Seq::<char>::empty());
    lemma_find_none(tail, f, 0);
    assert(markdown_segments(tail) =~= Seq::<SegmentView>::empty());
    assert(shell_language(Seq::<char>::empty()));
    assert(code_or_text(Seq::<char>::empty(), trim(b)) == SegmentView::Code("bash"@, trim(b)));
    assert(fence_lang(r1) =~= Seq::<char>::empty());
    assert(fence_body(r1) =~= body);
}

} // verus!
