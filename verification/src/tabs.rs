//! The window's tabs and split panes: which tab is active, which pane of each
//! tab has focus, and how tabs and panes open and close. Widgets live with the
//! application; this model holds the ids and names it acts on.

use vstd::prelude::*;
use crate::text::{
    chars_of, decimal, decimal_exec, lemma_decimal_injective, push_str, same_chars, string_of,
};

verus! {

/// Accent CSS classes cycling across tabs (green / blue / purple).
pub const ACCENT_CLASSES: [&'static str; 3] = ["green", "blue", "purple"];

/// The accent class of a tab opened with id `id`.
pub fn accent_class(id: u32) -> (r: &'static str)
    ensures
        r@ == (if id % 3 == 0 {
            "green"@
        } else if id % 3 == 1 {
            "blue"@
        } else {
            "purple"@
        }),
{
    let k = id % 3;
    if k == 0 {
        "green"
    } else if k == 1 {
        "blue"
    } else {
        "purple"
    }
}

/// One tab: its stack name, its panes (by id) and the focused pane.
pub struct Tab {
    pub name: String,
    pub panes: Vec<u32>,
    pub focused: u32,
}

pub struct TabView {
    pub name: Seq<char>,
    pub panes: Seq<u32>,
    pub focused: u32,
}

impl View for Tab {
    type V = TabView;

    open spec fn view(&self) -> TabView {
        TabView { name: self.name@, panes: self.panes@, focused: self.focused }
    }
}

pub open spec fn tab_views(ts: Seq<Tab>) -> Seq<TabView> {
    ts.map_values(|t: Tab| t@)
}

/// The tabs of a window, the active one, and the next id to hand out.
pub struct TabModel {
    pub tabs: Vec<Tab>,
    pub active: usize,
    pub next_id: u32,
}

/// The stack name of the tab opened with id `id`.
pub open spec fn tab_name(id: nat) -> Seq<char> {
    "tab-"@ + decimal(id)
}

/// Index of the first tab at or after `i` named `name`, or -1.
pub open spec fn tab_index_from(ts: Seq<TabView>, name: Seq<char>, i: int) -> int
    decreases ts.len() - i,
{
    if i < 0 || i >= ts.len() {
        -1
    } else if ts[i].name == name {
        i
    } else {
        tab_index_from(ts, name, i + 1)
    }
}

/// Index of the first tab named `name`, or -1.
pub open spec fn tab_index(ts: Seq<TabView>, name: Seq<char>) -> int {
    tab_index_from(ts, name, 0)
}

pub proof fn lemma_tab_index_from(ts: Seq<TabView>, name: Seq<char>, i: int)
    requires
        0 <= i,
    ensures
        tab_index_from(ts, name, i) == -1 || (i <= tab_index_from(ts, name, i) < ts.len()
            && ts[tab_index_from(ts, name, i)].name == name),
        tab_index_from(ts, name, i) == -1 ==> forall|k: int| i <= k < ts.len() ==> ts[k].name != name,
        tab_index_from(ts, name, i) >= 0 ==> forall|k: int| i <= k < tab_index_from(ts, name, i) ==> ts[k].name != name,
    decreases ts.len() - i,
{
    if i < ts.len() && ts[i].name != name {
        lemma_tab_index_from(ts, name, i + 1);
    }
}

/// When tab `i` is named `name` and no earlier tab is, the lookup finds `i`.
pub proof fn lemma_tab_first_match(ts: Seq<TabView>, name: Seq<char>, i: int, j: int)
    requires
        0 <= j <= i < ts.len(),
        ts[i].name == name,
        forall|k: int| j <= k < i ==> ts[k].name != name,
    ensures
        tab_index_from(ts, name, j) == i,
    decreases i - j,
{
    if j < i {
        lemma_tab_first_match(ts, name, i, j + 1);
    }
}

/// No two tabs share a name.
pub open spec fn unique_names(ts: Seq<TabView>) -> bool {
    forall|i: int, j: int| 0 <= i < j < ts.len() ==> ts[i].name != ts[j].name
}

/// With distinct names, looking up the name of tab `i` finds `i`.
pub proof fn lemma_unique_lookup(ts: Seq<TabView>, i: int)
    requires
        unique_names(ts),
        0 <= i < ts.len(),
    ensures
        tab_index(ts, ts[i].name) == i,
{
    lemma_tab_first_match(ts, ts[i].name, i, 0);
}

/// Whether `panes` holds `id`.
pub open spec fn has_pane(panes: Seq<u32>, id: u32) -> bool {
    exists|k: int| 0 <= k < panes.len() && panes[k] == id
}

/// `panes` without `id` (`Vec::retain`).
pub open spec fn without(panes: Seq<u32>, id: u32) -> Seq<u32>
    decreases panes.len(),
{
    if panes.len() == 0 {
        Seq::empty()
    } else if panes.last() == id {
        without(panes.drop_last(), id)
    } else {
        without(panes.drop_last(), id).push(panes.last())
    }
}

proof fn lemma_has_pane_push(s: Seq<u32>, v: u32, x: u32)
    ensures
        has_pane(s.push(v), x) <==> (has_pane(s, x) || v == x),
{
    if has_pane(s.push(v), x) {
        let k = choose|k: int| 0 <= k < s.push(v).len() && s.push(v)[k] == x;
        if k < s.len() {
            assert(s[k] == x);
        }
    }
    if has_pane(s, x) {
        let k = choose|k: int| 0 <= k < s.len() && s[k] == x;
        assert(s.push(v)[k] == x);
    }
    if v == x {
        assert(s.push(v)[s.len() as int] == x);
    }
}

pub proof fn lemma_without(panes: Seq<u32>, id: u32)
    ensures
        !has_pane(without(panes, id), id),
        forall|x: u32| x != id ==> (has_pane(without(panes, id), x) <==> has_pane(panes, x)),
        has_pane(panes, id) ==> without(panes, id).len() < panes.len(),
        without(panes, id).len() <= panes.len(),
    decreases panes.len(),
{
    if panes.len() > 0 {
        let rest = panes.drop_last();
        let l = panes.last();
        lemma_without(rest, id);
        assert(panes =~= rest.push(l));
        assert forall|x: u32| #![auto] has_pane(panes, x) <==> (has_pane(rest, x) || l == x) by {
            lemma_has_pane_push(rest, l, x);
        }
        if l != id {
            assert forall|x: u32| #![auto] has_pane(without(panes, id), x) <==> (has_pane(without(rest, id), x) || l == x) by {
                lemma_has_pane_push(without(rest, id), l, x);
            }
        }
    } else {
        assert(!has_pane(panes, id));
    }
}

fn has_pane_exec(panes: &Vec<u32>, id: u32) -> (r: bool)
    ensures
        r == has_pane(panes@, id),
{
    let mut i: usize = 0;
    while i < panes.len()
        invariant
            i <= panes@.len(),
            forall|k: int| 0 <= k < i ==> panes@[k] != id,
        decreases panes@.len() - i,
    {
        if panes[i] == id {
            return true;
        }
        i += 1;
    }
    false
}

fn without_exec(panes: &Vec<u32>, id: u32) -> (r: Vec<u32>)
    ensures
        r@ == without(panes@, id),
{
    let mut out: Vec<u32> = Vec::new();
    let mut i: usize = 0;
    while i < panes.len()
        invariant
            i <= panes@.len(),
            out@ == without(panes@.take(i as int), id),
        decreases panes@.len() - i,
    {
        assert(panes@.take(i + 1).drop_last() =~= panes@.take(i as int));
        if panes[i] != id {
            out.push(panes[i]);
        }
        i += 1;
    }
    assert(panes@.take(i as int) =~= panes@);
    out
}

/// What happened to a tab when it was asked to close.
pub enum TabClose {
    /// No tab has that name.
    NotFound,
    /// It is the only tab: keep it, collapse its splits and respawn its shell.
    ResetLast,
    /// Tab `index` was removed; tab `select` (if any) became active.
    Removed { index: usize, select: Option<usize> },
}

/// What closing a pane takes.
pub enum PaneClose {
    /// No tab has that name.
    NoTab,
    /// The pane is its tab's only one: close the tab instead.
    CloseTab,
    /// The tab has no such pane.
    NoPane,
    /// Detach the pane's widget, then remove it from the model.
    Detach,
}

/// A newly opened tab.
pub struct NewTab {
    pub name: String,
    pub pane_id: u32,
    pub accent: &'static str,
}

/// The pane kept when the last tab is reset.
pub struct Reset {
    pub keep: u32,
    /// Whether splits were collapsed (the tab had more than one pane).
    pub collapsed: bool,
}

/// Index of the first tab at or after `i` holding pane `pane`, or -1.
pub open spec fn pane_tab_from(ts: Seq<TabView>, pane: u32, i: int) -> int
    decreases ts.len() - i,
{
    if i < 0 || i >= ts.len() {
        -1
    } else if has_pane(ts[i].panes, pane) {
        i
    } else {
        pane_tab_from(ts, pane, i + 1)
    }
}

/// Where cycling by `delta` from tab `active` lands: the first tab named like
/// the one `delta` steps on, wrapping around.
pub open spec fn cycle_target(ts: Seq<TabView>, active: int, delta: int) -> int {
    tab_index(ts, ts[(active + delta) % (ts.len() as int)].name)
}

/// The tabs after asking to close the one named `name`: unchanged when there is
/// no such tab or it is the only one, else without it.
pub open spec fn after_close(ts: Seq<TabView>, name: Seq<char>) -> Seq<TabView> {
    let i = tab_index(ts, name);
    if i < 0 || ts.len() == 1 {
        ts
    } else {
        ts.remove(i)
    }
}

/// The pane that has focus once `pane` left tab `t`: the first remaining pane
/// when `pane` had focus, else the same one.
pub open spec fn focus_after_remove(t: TabView, pane: u32) -> u32 {
    let rest = without(t.panes, pane);
    if t.focused == pane && rest.len() > 0 {
        rest[0]
    } else {
        t.focused
    }
}

/// Every tab name was handed out before `next_id`: each is `tab-<k>` for some `k < next_id`.
pub open spec fn names_issued(ts: Seq<TabView>, next_id: nat) -> bool {
    forall|i: int| 0 <= i < ts.len() ==> exists|k: nat| k < next_id && #[trigger] ts[i].name == tab_name(k)
}

impl TabModel {
    pub open spec fn tabs_v(&self) -> Seq<TabView> {
        tab_views(self.tabs@)
    }

    /// No tabs yet; ids start at 0.
    pub fn new() -> (r: TabModel)
        ensures
            r.tabs@.len() == 0,
            r.active == 0,
            r.next_id == 0,
    {
        TabModel { tabs: Vec::new(), active: 0, next_id: 0 }
    }

    /// Hand out the next id.
    pub fn next_id(&mut self) -> (r: u32)
        requires
            old(self).next_id < u32::MAX,
        ensures
            r == old(self).next_id,
            final(self).next_id == old(self).next_id + 1,
            final(self).tabs == old(self).tabs,
            final(self).active == old(self).active,
    {
        let id = self.next_id;
        self.next_id = id + 1;
        id
    }

    fn find_tab(&self, name: &Vec<char>) -> (r: Option<usize>)
        ensures
            match r {
                Some(i) => tab_index(self.tabs_v(), name@) == i as int && i < self.tabs@.len(),
                None => tab_index(self.tabs_v(), name@) == -1,
            },
    {
        let mut i: usize = 0;
        while i < self.tabs.len()
            invariant
                i <= self.tabs@.len(),
                tab_index_from(self.tabs_v(), name@, i as int) == tab_index(self.tabs_v(), name@),
            decreases self.tabs@.len() - i,
        {
            let k = chars_of(self.tabs[i].name.as_str());
            if same_chars(&k, name) {
                return Some(i);
            }
            i += 1;
        }
        None
    }

    /// Make the tab named `name` active; its index, or `None` when there is none.
    pub fn select_tab_by_name(&mut self, name: &str) -> (r: Option<usize>)
        ensures
            final(self).tabs == old(self).tabs,
            final(self).next_id == old(self).next_id,
            match r {
                Some(i) => i as int == tab_index(old(self).tabs_v(), name@) && final(self).active == i,
                None => tab_index(old(self).tabs_v(), name@) == -1 && final(self).active == old(self).active,
            },
    {
        let nv = chars_of(name);
        match self.find_tab(&nv) {
            Some(i) => {
                self.active = i;
                Some(i)
            },
            None => None,
        }
    }

    /// Open a tab: a tab id and a pane id are handed out; the tab (named
    /// `tab-<id>`, one focused pane) goes last and becomes active.
    pub fn add_tab(&mut self) -> (r: NewTab)
        requires
            old(self).next_id < u32::MAX - 1,
        ensures
            r.name@ == tab_name(old(self).next_id as nat),
            r.pane_id == old(self).next_id + 1,
            final(self).next_id == old(self).next_id + 2,
            final(self).tabs_v() == old(self).tabs_v().push(
                TabView { name: r.name@, panes: seq![r.pane_id], focused: r.pane_id },
            ),
            final(self).active as int == tab_index(final(self).tabs_v(), r.name@),
            r.accent@ == (if old(self).next_id % 3 == 0 {
                "green"@
            } else if old(self).next_id % 3 == 1 {
                "blue"@
            } else {
                "purple"@
            }),
    {
        let id = self.next_id();
        let mut name = String::from_str("tab-");
        let d = string_of(&decimal_exec(id as u64));
        push_str(&mut name, d.as_str());
        let accent = accent_class(id);
        let pane_id = self.next_id();
        let ghost before = self.tabs_v();
        let panes = vec![pane_id];
        proof {
            assert(seq![pane_id] =~= panes@);
        }
        self.tabs.push(Tab { name: name.clone(), panes, focused: pane_id });
        proof {
            assert(self.tabs_v() =~= before.push(
                TabView { name: name@, panes: seq![pane_id], focused: pane_id },
            ));
        }
        let sel = self.select_tab_by_name(name.as_str());
        proof {
            lemma_tab_index_from(self.tabs_v(), name@, 0);
        }
        match sel {
            Some(_) => {},
            None => {
                assert(self.tabs_v()[self.tabs_v().len() - 1].name == name@);
            },
        }
        NewTab { name, pane_id, accent }
    }

    /// Step the active tab by `delta`, wrapping around; nothing with one tab or none.
    pub fn cycle_tab(&mut self, delta: isize) -> (r: Option<usize>)
        requires
            old(self).tabs@.len() > 1 ==> isize::MIN <= (old(self).active as isize) + delta <= isize::MAX,
        ensures
            final(self).tabs == old(self).tabs,
            final(self).next_id == old(self).next_id,
            old(self).tabs@.len() <= 1 ==> r is None && final(self).active == old(self).active,
            old(self).tabs@.len() > 1 ==> (r matches Some(i) && i as int == cycle_target(
                old(self).tabs_v(),
                (old(self).active as isize) as int,
                delta as int,
            ) && final(self).active == i),
    {
        let n = self.tabs.len();
        if n <= 1 {
            return None;
        }
        let a = self.active as isize + delta;
        let next: usize = if a >= 0 {
            (a as usize) % n
        } else {
            let m = ((-(a + 1)) as usize) % n;
            n - 1 - m
        };
        proof {
            let ni = n as int;
            if a < 0 {
                let b = (-(a + 1)) as int;
                let q = b / ni;
                let m = b % ni;
                vstd::arithmetic::div_mod::lemma_fundamental_div_mod(b, ni);
                assert(0 <= m < ni);
                assert(a as int == (-q - 1) * ni + (ni - 1 - m)) by (nonlinear_arith)
                    requires
                        b == ni * q + m,
                        a as int == -b - 1,
                ;
                vstd::arithmetic::div_mod::lemma_fundamental_div_mod_converse(a as int, ni, -q - 1, ni - 1 - m);
            }
        }
        assert(next < n);
        let name = self.tabs[next].name.clone();
        assert(tab_views(self.tabs@)[next as int].name == name@);
        proof {
            lemma_tab_index_from(self.tabs_v(), name@, 0);
        }
        self.select_tab_by_name(name.as_str())
    }

    /// The focused pane of the active tab, if it is one of that tab's panes.
    pub fn active_pane(&self) -> (r: Option<u32>)
        ensures
            match r {
                Some(p) => self.active < self.tabs@.len() && p == self.tabs@[self.active as int].focused
                    && has_pane(self.tabs@[self.active as int].panes@, p),
                None => !(self.active < self.tabs@.len() && has_pane(
                    self.tabs@[self.active as int].panes@,
                    self.tabs@[self.active as int].focused,
                )),
            },
    {
        if self.active >= self.tabs.len() {
            return None;
        }
        let t = &self.tabs[self.active];
        if has_pane_exec(&t.panes, t.focused) {
            Some(t.focused)
        } else {
            None
        }
    }

    /// The active tab's name and focused pane (what Close Pane acts on).
    pub fn active_target(&self) -> (r: Option<(String, u32)>)
        ensures
            match r {
                Some((n, p)) => self.active < self.tabs@.len() && n@ == self.tabs@[self.active as int].name@
                    && p == self.tabs@[self.active as int].focused,
                None => self.active >= self.tabs@.len(),
            },
    {
        if self.active >= self.tabs.len() {
            return None;
        }
        let t = &self.tabs[self.active];
        Some((t.name.clone(), t.focused))
    }

    /// Record that pane `pane_id` of tab `name` has focus. Returns whether the
    /// tab holds such a pane.
    pub fn focus_pane_in_tab(&mut self, name: &str, pane_id: u32) -> (r: bool)
        ensures
            final(self).active == old(self).active,
            final(self).next_id == old(self).next_id,
            ({
                let i = tab_index(old(self).tabs_v(), name@);
                if i >= 0 {
                    &&& final(self).tabs_v() == old(self).tabs_v().update(
                        i,
                        TabView { focused: pane_id, ..old(self).tabs_v()[i] },
                    )
                    &&& r == has_pane(old(self).tabs_v()[i].panes, pane_id)
                } else {
                    final(self).tabs_v() == old(self).tabs_v() && !r
                }
            }),
    {
        let nv = chars_of(name);
        match self.find_tab(&nv) {
            Some(i) => {
                let ghost before = self.tabs_v();
                let mut t = self.tabs.remove(i);
                t.focused = pane_id;
                let has = has_pane_exec(&t.panes, pane_id);
                self.tabs.insert(i, t);
                proof {
                    assert(self.tabs_v() =~= before.update(
                        i as int,
                        TabView { focused: pane_id, ..before[i as int] },
                    ));
                }
                has
            },
            None => false,
        }
    }

    /// The tab and pane that splitting acts on: the active tab and its focused pane.
    pub fn split_target(&self) -> (r: Option<(String, u32)>)
        ensures
            match r {
                Some((n, p)) => self.active < self.tabs@.len() && n@ == self.tabs@[self.active as int].name@
                    && p == self.tabs@[self.active as int].focused && has_pane(
                    self.tabs@[self.active as int].panes@,
                    p,
                ),
                None => !(self.active < self.tabs@.len() && has_pane(
                    self.tabs@[self.active as int].panes@,
                    self.tabs@[self.active as int].focused,
                )),
            },
    {
        match self.active_pane() {
            Some(p) => Some((self.tabs[self.active].name.clone(), p)),
            None => None,
        }
    }

    /// Add the new pane of a split to tab `name` and give it focus.
    pub fn add_split_pane(&mut self, name: &str, pane_id: u32)
        ensures
            final(self).active == old(self).active,
            final(self).next_id == old(self).next_id,
            ({
                let i = tab_index(old(self).tabs_v(), name@);
                if i >= 0 {
                    final(self).tabs_v() == old(self).tabs_v().update(
                        i,
                        TabView {
                            panes: old(self).tabs_v()[i].panes.push(pane_id),
                            focused: pane_id,
                            ..old(self).tabs_v()[i]
                        },
                    )
                } else {
                    final(self).tabs_v() == old(self).tabs_v()
                }
            }),
    {
        let nv = chars_of(name);
        match self.find_tab(&nv) {
            Some(i) => {
                let ghost before = self.tabs_v();
                let mut t = self.tabs.remove(i);
                t.panes.push(pane_id);
                t.focused = pane_id;
                self.tabs.insert(i, t);
                proof {
                    assert(self.tabs_v() =~= before.update(
                        i as int,
                        TabView { panes: before[i as int].panes.push(pane_id), focused: pane_id, ..before[i as int] },
                    ));
                }
            },
            None => {},
        }
    }

    /// What closing pane `pane_id` of tab `name` takes (see `PaneClose`).
    pub fn close_pane_plan(&self, name: &str, pane_id: u32) -> (r: PaneClose)
        ensures
            ({
                let i = tab_index(self.tabs_v(), name@);
                if i < 0 {
                    r is NoTab
                } else if self.tabs_v()[i].panes.len() <= 1 {
                    r is CloseTab
                } else if !has_pane(self.tabs_v()[i].panes, pane_id) {
                    r is NoPane
                } else {
                    r is Detach
                }
            }),
    {
        let nv = chars_of(name);
        match self.find_tab(&nv) {
            None => PaneClose::NoTab,
            Some(i) => {
                let t = &self.tabs[i];
                if t.panes.len() <= 1 {
                    PaneClose::CloseTab
                } else if !has_pane_exec(&t.panes, pane_id) {
                    PaneClose::NoPane
                } else {
                    PaneClose::Detach
                }
            },
        }
    }

    /// Remove pane `pane_id` from tab `name`. When it had focus, the first
    /// remaining pane gets it. Returns the pane that now has focus, if any.
    pub fn remove_pane(&mut self, name: &str, pane_id: u32) -> (r: Option<u32>)
        ensures
            final(self).active == old(self).active,
            final(self).next_id == old(self).next_id,
            ({
                let i = tab_index(old(self).tabs_v(), name@);
                let t = old(self).tabs_v()[i];
                let rest = without(t.panes, pane_id);
                let f = focus_after_remove(t, pane_id);
                if i >= 0 {
                    &&& final(self).tabs_v() == old(self).tabs_v().update(
                        i,
                        TabView { panes: rest, focused: f, ..t },
                    )
                    &&& r == if has_pane(rest, f) {
                        Some(f)
                    } else {
                        None::<u32>
                    }
                } else {
                    final(self).tabs_v() == old(self).tabs_v() && r is None
                }
            }),
    {
        let nv = chars_of(name);
        match self.find_tab(&nv) {
            Some(i) => {
                let ghost before = self.tabs_v();
                let mut t = self.tabs.remove(i);
                let rest = without_exec(&t.panes, pane_id);
                if t.focused == pane_id && rest.len() > 0 {
                    t.focused = rest[0];
                }
                let f = t.focused;
                t.panes = rest;
                let has = has_pane_exec(&t.panes, f);
                self.tabs.insert(i, t);
                proof {
                    assert(self.tabs_v() =~= before.update(
                        i as int,
                        TabView { panes: without(before[i as int].panes, pane_id), focused: f, ..before[i as int] },
                    ));
                }
                if has {
                    Some(f)
                } else {
                    None
                }
            },
            None => None,
        }
    }

    /// Close the tab named `name` (see `TabClose`): the last tab is kept; otherwise
    /// the tab at its index, else the new last one, becomes active.
    pub fn close_tab(&mut self, name: &str) -> (r: TabClose)
        ensures
            final(self).next_id == old(self).next_id,
            final(self).tabs_v() == after_close(old(self).tabs_v(), name@),
            ({
                let i = tab_index(old(self).tabs_v(), name@);
                let n = old(self).tabs@.len();
                if i < 0 {
                    r is NotFound && final(self).active == old(self).active
                } else if n == 1 {
                    r is ResetLast && final(self).active == old(self).active
                } else {
                    let rest = old(self).tabs_v().remove(i);
                    let ni = if i >= rest.len() {
                        rest.len() - 1
                    } else {
                        i
                    };
                    &&& r matches TabClose::Removed { index, select }
                    &&& index == i
                    &&& select == Some(final(self).active)
                    &&& final(self).active as int == tab_index(rest, rest[ni].name)
                    &&& final(self).active < final(self).tabs@.len()
                }
            }),
    {
        let nv = chars_of(name);
        let index = match self.find_tab(&nv) {
            Some(i) => i,
            None => return TabClose::NotFound,
        };
        if self.tabs.len() == 1 {
            return TabClose::ResetLast;
        }
        let ghost before = self.tabs_v();
        let _removed = self.tabs.remove(index);
        assert(self.tabs_v() =~= before.remove(index as int));
        let len = self.tabs.len();
        let new_index = if index >= len {
            len - 1
        } else {
            index
        };
        let next_name = self.tabs[new_index].name.clone();
        let sel = self.select_tab_by_name(next_name.as_str());
        proof {
            lemma_tab_index_from(self.tabs_v(), next_name@, 0);
            if sel is None {
                assert(self.tabs_v()[new_index as int].name == next_name@);
            }
        }
        TabClose::Removed { index, select: sel }
    }

    /// Reset the last remaining tab: keep its focused pane (else its first) and drop
    /// the others. `None` when there is no tab or it has no pane.
    pub fn reset_last_tab(&mut self) -> (r: Option<Reset>)
        ensures
            final(self).active == old(self).active,
            final(self).next_id == old(self).next_id,
            old(self).tabs@.len() == 0 ==> r is None && final(self).tabs_v() == old(self).tabs_v(),
            old(self).tabs@.len() > 0 ==> ({
                let t = old(self).tabs_v()[0];
                let keep = if has_pane(t.panes, t.focused) {
                    t.focused
                } else {
                    t.panes[0]
                };
                if t.panes.len() == 0 {
                    r is None && final(self).tabs_v() == old(self).tabs_v()
                } else if t.panes.len() == 1 {
                    r matches Some(x) && x.keep == keep && !x.collapsed && final(self).tabs_v()
                        == old(self).tabs_v()
                } else {
                    r matches Some(x) && x.keep == keep && x.collapsed && final(self).tabs_v()
                        == old(self).tabs_v().update(
                        0,
                        TabView { panes: seq![keep], focused: keep, ..t },
                    )
                }
            }),
    {
        if self.tabs.len() == 0 {
            return None;
        }
        let ghost before = self.tabs_v();
        let t0 = &self.tabs[0];
        if t0.panes.len() == 0 {
            return None;
        }
        let keep = if has_pane_exec(&t0.panes, t0.focused) {
            t0.focused
        } else {
            t0.panes[0]
        };
        if t0.panes.len() == 1 {
            return Some(Reset { keep, collapsed: false });
        }
        let mut t = self.tabs.remove(0);
        let kept = vec![keep];
        proof {
            assert(kept@ =~= seq![keep]);
        }
        t.panes = kept;
        t.focused = keep;
        self.tabs.insert(0, t);
        proof {
            assert(self.tabs_v() =~= before.update(
                0,
                TabView { panes: seq![keep], focused: keep, ..before[0] },
            ));
        }
        Some(Reset { keep, collapsed: true })
    }

    /// The shell of pane `pane_id` was the window's last session: one tab, whose
    /// only pane it is.
    pub fn is_last_session(&self, pane_id: u32) -> (r: bool)
        ensures
            r == (self.tabs@.len() == 1 && self.tabs@[0].panes@.len() == 1 && self.tabs@[0].panes@[0]
                == pane_id),
    {
        self.tabs.len() == 1 && self.tabs[0].panes.len() == 1 && self.tabs[0].panes[0] == pane_id
    }

    /// The first tab holding pane `pane`, if any.
    pub fn tab_of_pane(&self, pane: u32) -> (r: Option<usize>)
        ensures
            match r {
                Some(i) => i as int == pane_tab_from(self.tabs_v(), pane, 0) && i < self.tabs@.len(),
                None => pane_tab_from(self.tabs_v(), pane, 0) == -1,
            },
    {
        let mut i: usize = 0;
        while i < self.tabs.len()
            invariant
                i <= self.tabs@.len(),
                pane_tab_from(self.tabs_v(), pane, i as int) == pane_tab_from(self.tabs_v(), pane, 0),
            decreases self.tabs@.len() - i,
        {
            assert(self.tabs_v()[i as int].panes == self.tabs@[i as int].panes@);
            if has_pane_exec(&self.tabs[i].panes, pane) {
                return Some(i);
            }
            i += 1;
        }
        None
    }

    /// The focused pane of the tab named `name`, if there is such a tab.
    pub fn focused_in(&self, name: &str) -> (r: Option<u32>)
        ensures
            ({
                let i = tab_index(self.tabs_v(), name@);
                if i >= 0 {
                    r == Some(self.tabs_v()[i].focused)
                } else {
                    r is None
                }
            }),
    {
        let nv = chars_of(name);
        match self.find_tab(&nv) {
            Some(i) => Some(self.tabs[i].focused),
            None => None,
        }
    }

    /// The tab strip shows when there is more than one tab.
    pub fn tab_strip_visible(&self) -> (r: bool)
        ensures
            r == (self.tabs@.len() > 1),
    {
        self.tabs.len() > 1
    }
}

/// Tabs opened one after another get different names.
pub proof fn lemma_tab_name_injective(a: nat, b: nat)
    requires
        tab_name(a) == tab_name(b),
    ensures
        a == b,
{
    let p = "tab-"@;
    assert(tab_name(a).skip(p.len() as int) =~= decimal(a));
    assert(tab_name(b).skip(p.len() as int) =~= decimal(b));
    lemma_decimal_injective(a, b);
}

/// Opening a tab keeps the tab names distinct and all of them issued: the new
/// tab's name `tab-<next_id>` was never handed out before.
pub proof fn lemma_add_tab_keeps_names_unique(ts: Seq<TabView>, next_id: nat, pane: u32)
    requires
        unique_names(ts),
        names_issued(ts, next_id),
    ensures
        ({
            let ts2 = ts.push(TabView { name: tab_name(next_id), panes: seq![pane], focused: pane });
            unique_names(ts2) && names_issued(ts2, next_id + 2)
        }),
{
    let t = TabView { name: tab_name(next_id), panes: seq![pane], focused: pane };
    let ts2 = ts.push(t);
    assert forall|i: int, j: int| 0 <= i < j < ts2.len() implies ts2[i].name != ts2[j].name by {
        if j == ts.len() {
            assert(ts2[i] == ts[i]);
            let k = choose|k: nat| k < next_id && #[trigger] ts[i].name == tab_name(k);
            if ts[i].name == tab_name(next_id) {
                lemma_tab_name_injective(k, next_id);
            }
        }
    }
    assert forall|i: int| 0 <= i < ts2.len() implies exists|k: nat| k < next_id + 2 && #[trigger] ts2[i].name
        == tab_name(k) by {
        if i < ts.len() {
            assert(ts2[i] == ts[i]);
            let k = choose|k: nat| k < next_id && #[trigger] ts[i].name == tab_name(k);
            assert(k < next_id + 2 && ts2[i].name == tab_name(k));
        } else {
            assert(ts2[i].name == tab_name(next_id));
        }
    }
}

/// With distinct tab names, cycling lands exactly `delta` steps away, wrapping around.
pub proof fn lemma_cycle_target(ts: Seq<TabView>, active: int, delta: int)
    requires
        unique_names(ts),
        ts.len() > 0,
    ensures
        cycle_target(ts, active, delta) == (active + delta) % (ts.len() as int),
{
    let n = ts.len() as int;
    let k = (active + delta) % n;
    lemma_unique_lookup(ts, k);
}

/// Stepping to the next tab and then back to the previous one returns to the
/// tab one started from.
pub proof fn lemma_cycle_round_trip(ts: Seq<TabView>, active: int)
    requires
        unique_names(ts),
        ts.len() > 1,
        0 <= active < ts.len(),
    ensures
        cycle_target(ts, cycle_target(ts, active, 1), -1) == active,
{
    let n = ts.len() as int;
    lemma_cycle_target(ts, active, 1);
    let b = (active + 1) % n;
    lemma_cycle_target(ts, b, -1);
    if active + 1 < n {
        vstd::arithmetic::div_mod::lemma_small_mod((active + 1) as nat, n as nat);
        vstd::arithmetic::div_mod::lemma_small_mod(active as nat, n as nat);
    } else {
        vstd::arithmetic::div_mod::lemma_fundamental_div_mod_converse(active + 1, n, 1, 0);
        vstd::arithmetic::div_mod::lemma_fundamental_div_mod_converse(-1, n, -1, n - 1);
    }
}

/// Closing a tab never leaves the window without one.
pub proof fn lemma_close_keeps_a_tab(ts: Seq<TabView>, name: Seq<char>)
    requires
        ts.len() >= 1,
    ensures
        after_close(ts, name).len() >= 1,
{
    lemma_tab_index_from(ts, name, 0);
}

/// Closing tabs keeps the tab names distinct.
pub proof fn lemma_close_keeps_names_unique(ts: Seq<TabView>, name: Seq<char>)
    requires
        unique_names(ts),
    ensures
        unique_names(after_close(ts, name)),
{
    lemma_tab_index_from(ts, name, 0);
    let i = tab_index(ts, name);
    if i >= 0 && ts.len() != 1 {
        let r = ts.remove(i);
        assert forall|a: int, b: int| 0 <= a < b < r.len() implies r[a].name != r[b].name by {
            let a2 = if a < i { a } else { a + 1 };
            let b2 = if b < i { b } else { b + 1 };
            assert(r[a] == ts[a2]);
            assert(r[b] == ts[b2]);
        }
    }
}

/// Removing a pane drops exactly that pane, and when the tab had a valid focus
/// and panes are left, the focus stays on one of them.
pub proof fn lemma_remove_pane(t: TabView, pane: u32)
    ensures
        !has_pane(without(t.panes, pane), pane),
        forall|x: u32| x != pane ==> (has_pane(without(t.panes, pane), x) <==> has_pane(t.panes, x)),
        has_pane(t.panes, t.focused) && without(t.panes, pane).len() > 0 ==> has_pane(
            without(t.panes, pane),
            focus_after_remove(t, pane),
        ),
{
    let rest = without(t.panes, pane);
    lemma_without(t.panes, pane);
    if has_pane(t.panes, t.focused) && rest.len() > 0 {
        if t.focused == pane {
            assert(has_pane(rest, rest[0]));
        }
    }
}

/// No pane id occurs twice in `panes`.
pub open spec fn distinct_panes(panes: Seq<u32>) -> bool {
    forall|a: int, b: int| 0 <= a < b < panes.len() ==> panes[a] != panes[b]
}

/// What the window keeps of its tabs: at least one tab, distinct names, and in
/// each tab distinct panes, one of which has focus.
pub open spec fn tabs_ok(ts: Seq<TabView>) -> bool {
    &&& ts.len() >= 1
    &&& unique_names(ts)
    &&& forall|i: int| 0 <= i < ts.len() ==> has_pane(#[trigger] ts[i].panes, ts[i].focused)
    &&& forall|i: int| 0 <= i < ts.len() ==> distinct_panes(#[trigger] ts[i].panes)
}

/// The tabs after closing pane `pane` of the tab named `name`
/// (`close_pane_plan`, then `remove_pane` or `close_tab`; when that tab is the
/// only one, `reset_last_tab` keeps its single pane as it is).
pub open spec fn pane_closed(ts: Seq<TabView>, name: Seq<char>, pane: u32) -> Seq<TabView> {
    let i = tab_index(ts, name);
    if i < 0 {
        ts
    } else if ts[i].panes.len() <= 1 {
        after_close(ts, name)
    } else if !has_pane(ts[i].panes, pane) {
        ts
    } else {
        ts.update(
            i,
            TabView {
                panes: without(ts[i].panes, pane),
                focused: focus_after_remove(ts[i], pane),
                ..ts[i]
            },
        )
    }
}

proof fn lemma_without_filter(panes: Seq<u32>, id: u32)
    ensures
        without(panes, id) == panes.filter(|x: u32| x != id),
    decreases panes.len(),
{
    reveal(Seq::filter);
    if panes.len() > 0 {
        lemma_without_filter(panes.drop_last(), id);
    }
}

proof fn lemma_without_distinct(panes: Seq<u32>, id: u32)
    requires
        distinct_panes(panes),
    ensures
        distinct_panes(without(panes, id)),
    decreases panes.len(),
{
    if panes.len() > 0 {
        let dl = panes.drop_last();
        let x = panes.last();
        assert(distinct_panes(dl));
        lemma_without_distinct(dl, id);
        lemma_without(dl, id);
        if x != id {
            let w = without(dl, id);
            if has_pane(dl, x) {
                let k = choose|k: int| 0 <= k < dl.len() && dl[k] == x;
                assert(panes[k] == panes[panes.len() - 1]);
            }
            assert(!has_pane(w, x));
            assert forall|a: int, b: int| 0 <= a < b < w.push(x).len() implies w.push(x)[a] != w.push(x)[b] by {
                if b == w.len() {
                    assert(w.push(x)[a] == w[a]);
                }
            }
        }
    }
}

proof fn lemma_without_keeps_one(panes: Seq<u32>, id: u32)
    requires
        distinct_panes(panes),
        panes.len() >= 2,
    ensures
        without(panes, id).len() > 0,
{
    lemma_without(panes, id);
    let x = if panes[0] != id { panes[0] } else { panes[1] };
    assert(panes[0] != panes[1]);
    assert(has_pane(panes, x));
    assert(has_pane(without(panes, id), x));
}

/// Closing a pane: in a tab of two or more panes the tab loses exactly that
/// pane, the others keeping their order, and focus moves to the first remaining
/// pane when the closed one had it; a tab of one pane goes when there are other
/// tabs; the only tab with one pane stays as it is. At least one tab always
/// remains, and the window keeps its invariant.
pub proof fn lemma_close_pane(ts: Seq<TabView>, name: Seq<char>, pane: u32)
    requires
        tabs_ok(ts),
        tab_index(ts, name) >= 0,
        has_pane(ts[tab_index(ts, name)].panes, pane),
    ensures
        ({
            let i = tab_index(ts, name);
            let t = ts[i];
            let r = pane_closed(ts, name, pane);
            &&& tabs_ok(r)
            &&& t.panes.len() >= 2 ==> {
                &&& r.len() == ts.len()
                &&& r[i].name == t.name
                &&& r[i].panes == t.panes.filter(|x: u32| x != pane)
                &&& r[i].focused == (if t.focused == pane {
                    r[i].panes[0]
                } else {
                    t.focused
                })
                &&& forall|j: int| 0 <= j < ts.len() && j != i ==> r[j] == ts[j]
            }
            &&& t.panes.len() == 1 && ts.len() >= 2 ==> r == ts.remove(i) && r.len() == ts.len() - 1
            &&& t.panes.len() == 1 && ts.len() == 1 ==> r == ts && r[0].panes.len() == 1
        }),
{
    let i = tab_index(ts, name);
    lemma_tab_index_from(ts, name, 0);
    let t = ts[i];
    let r = pane_closed(ts, name, pane);
    assert(has_pane(ts[i].panes, ts[i].focused));
    assert(distinct_panes(ts[i].panes));
    if t.panes.len() >= 2 {
        lemma_without_filter(t.panes, pane);
        lemma_without_distinct(t.panes, pane);
        lemma_without_keeps_one(t.panes, pane);
        lemma_remove_pane(t, pane);
        assert forall|a: int, b: int| 0 <= a < b < r.len() implies r[a].name != r[b].name by {
            assert(ts[a].name != ts[b].name);
        }
        assert forall|j: int| 0 <= j < r.len() implies has_pane(#[trigger] r[j].panes, r[j].focused) by {
            if j != i {
                assert(has_pane(ts[j].panes, ts[j].focused));
            }
        }
        assert forall|j: int| 0 <= j < r.len() implies distinct_panes(#[trigger] r[j].panes) by {
            if j != i {
                assert(distinct_panes(ts[j].panes));
            }
        }
    } else if ts.len() >= 2 {
        lemma_close_keeps_names_unique(ts, name);
        assert(r == ts.remove(i));
        assert forall|j: int| 0 <= j < r.len() implies has_pane(#[trigger] r[j].panes, r[j].focused) by {
            let j2 = if j < i { j } else { j + 1 };
            assert(r[j] == ts[j2]);
            assert(has_pane(ts[j2].panes, ts[j2].focused));
        }
        assert forall|j: int| 0 <= j < r.len() implies distinct_panes(#[trigger] r[j].panes) by {
            let j2 = if j < i { j } else { j + 1 };
            assert(r[j] == ts[j2]);
            assert(distinct_panes(ts[j2].panes));
        }
    } else {
        assert(r == ts);
        assert(i == 0);
        if t.panes.len() == 0 {
            let k = choose|k: int| 0 <= k < t.panes.len() && t.panes[k] == pane;
        }
    }
}

} // verus!
