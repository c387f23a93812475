//! Tab titles: the shell's window title, else the working directory written
//! short (`~` for the home directory, `~/...` below it, else its last part).

use vstd::prelude::*;
use crate::env_context::{file_name_of, path_file_name};
use crate::text::push_str;

verus! {

/// What `Path::new(path).strip_prefix(base)` gives, as text.
pub uninterp spec fn path_strip_prefix(path: Seq<char>, base: Seq<char>) -> Option<Seq<char>>;

/// `std::path::Path::new(path).strip_prefix(base)`, read back as text. Claimed:
/// the result is `path_strip_prefix` of the two paths.
#[verifier::external_body]
fn strip_path_prefix(path: &str, base: &str) -> (r: Option<String>)
    ensures
        match r {
            Some(s) => path_strip_prefix(path@, base@) == Some(s@),
            None => path_strip_prefix(path@, base@) is None,
        },
{
    std::path::Path::new(path).strip_prefix(base).ok().map(|p| p.to_string_lossy().into_owned())
}

/// The last part of `path`, or the whole path when it has none.
pub open spec fn last_part(path: Seq<char>) -> Seq<char> {
    match path_file_name(path) {
        Some(n) => n,
        None => path,
    }
}

/// `path` written short: relative to `home` when it lies there, else its last part.
pub open spec fn short_path(path: Seq<char>, home: Option<Seq<char>>) -> Seq<char> {
    match home {
        Some(h) => match path_strip_prefix(path, h) {
            Some(rest) => if rest.len() == 0 {
                "~"@
            } else {
                "~/"@ + rest
            },
            None => last_part(path),
        },
        None => last_part(path),
    }
}

/// See `short_path`; `home` is the value of `HOME`, if set.
pub fn shorten_path(path: &str, home: Option<&str>) -> (r: String)
    ensures
        r@ == short_path(
            path@,
            match home {
                Some(h) => Some(h@),
                None => None,
            },
        ),
{
    match home {
        Some(h) => match strip_path_prefix(path, h) {
            Some(rest) => {
                if rest.as_str().unicode_len() == 0 {
                    return String::from_str("~");
                }
                let mut s = String::from_str("~/");
                push_str(&mut s, rest.as_str());
                return s;
            },
            None => {},
        },
        None => {},
    }
    match file_name_of(path) {
        Some(n) => n,
        None => String::from_str(path),
    }
}

/// A tab's title: the shell's window title when it set a non-empty one, else `fallback`.
pub fn title_or(window_title: Option<&str>, fallback: String) -> (r: String)
    ensures
        r@ == (match window_title {
            Some(t) => if t@.len() > 0 {
                t@
            } else {
                fallback@
            },
            None => fallback@,
        }),
{
    match window_title {
        Some(t) => {
            if t.unicode_len() > 0 {
                String::from_str(t)
            } else {
                fallback
            }
        },
        None => fallback,
    }
}

} // verus!
