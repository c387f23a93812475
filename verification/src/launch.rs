//! Startup options (`--working-directory` / `--dir`, `--command` / `-e`,
//! `--new-window`), kept once for the first window.

use vstd::prelude::*;
use crate::text::{chars_of, slice, string_of};

verus! {

#[derive(Debug)]
pub struct LaunchOptions {
    /// Absolute (or best-effort absolute) directory for the first PTY.
    pub working_directory: Option<String>,
    pub command: Option<String>,
    /// Accepted for CLI compatibility; every launch is already a new window.
    pub new_window: bool,
}

impl LaunchOptions {
    pub open spec fn none() -> LaunchOptions {
        LaunchOptions { working_directory: None, command: None, new_window: false }
    }

    /// No directory, no command.
    pub fn empty() -> (r: LaunchOptions)
        ensures
            r == LaunchOptions::none(),
    {
        LaunchOptions { working_directory: None, command: None, new_window: false }
    }

    /// A field-by-field copy.
    pub fn copy(&self) -> (r: LaunchOptions)
        ensures
            r == *self,
    {
        LaunchOptions {
            working_directory: match &self.working_directory {
                Some(d) => Some(d.clone()),
                None => None,
            },
            command: match &self.command {
                Some(c) => Some(c.clone()),
                None => None,
            },
            new_window: self.new_window,
        }
    }
}

impl Default for LaunchOptions {
    fn default() -> (r: Self)
        ensures
            r == LaunchOptions::none(),
    {
        LaunchOptions::empty()
    }
}

/// The set-once slot that holds the options of this launch.
pub struct LaunchSlot {
    pub stored: Option<LaunchOptions>,
}

impl LaunchSlot {
    pub fn new() -> (r: LaunchSlot)
        ensures
            r.stored is None,
    {
        LaunchSlot { stored: None }
    }
}

/// The slot after a store: the first stored options stay.
pub open spec fn after_store(stored: Option<LaunchOptions>, opts: LaunchOptions) -> Option<LaunchOptions> {
    match stored {
        Some(o) => Some(o),
        None => Some(opts),
    }
}

/// What a take gives: the stored options, else none.
pub open spec fn taken(stored: Option<LaunchOptions>) -> LaunchOptions {
    match stored {
        Some(o) => o,
        None => LaunchOptions::none(),
    }
}

/// Keep `opts` unless options were already stored.
pub fn store(slot: &mut LaunchSlot, opts: LaunchOptions)
    ensures
        final(slot).stored == after_store(old(slot).stored, opts),
{
    if slot.stored.is_none() {
        slot.stored = Some(opts);
    }
}

/// The stored options, or none when nothing was stored.
pub fn take(slot: &LaunchSlot) -> (r: LaunchOptions)
    ensures
        r == taken(slot.stored),
{
    match &slot.stored {
        Some(o) => o.copy(),
        None => LaunchOptions::empty(),
    }
}

/// Storing twice keeps the first options: a take afterwards gives them.
pub proof fn lemma_first_store_wins(a: LaunchOptions, b: LaunchOptions)
    ensures
        taken(after_store(after_store(None, a), b)) == a,
{
}

/// `s` without its trailing NUL characters.
pub open spec fn strip_nuls(s: Seq<char>) -> Seq<char>
    decreases s.len(),
{
    if s.len() > 0 && s.last() == '\0' {
        strip_nuls(s.drop_last())
    } else {
        s
    }
}

/// `G_OPTION_ARG_FILENAME` values are often NUL-terminated byte strings.
pub fn trim_c_string(s: String) -> (r: String)
    ensures
        r@ == strip_nuls(s@),
{
    let v = chars_of(s.as_str());
    let mut n = v.len();
    assert(v@.take(v@.len() as int) =~= v@);
    while n > 0 && v[n - 1] == '\0'
        invariant
            n <= v@.len(),
            strip_nuls(v@.take(n as int)) == strip_nuls(v@),
        decreases n,
    {
        assert(v@.take(n as int).drop_last() =~= v@.take(n - 1));
        n -= 1;
    }
    let t = slice(&v, 0, n);
    assert(t@ =~= v@.take(n as int));
    string_of(&t)
}

} // verus!
