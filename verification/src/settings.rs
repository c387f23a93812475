//! Persisted settings and the theme catalog, apart from the theme's appearance
//! values (which the application keeps beside them).

use vstd::prelude::*;
use crate::text::{
    chars_of, decimal, decimal_exec, lemma_trim_idem, opt_chars, push_str, same_chars, slice, string_of, string_views, trim,
    trim_bounds, trim_end, trim_start,
    trimmed,
};

verus! {

pub const FONT_SIZE_MIN: u32 = 8;

pub const FONT_SIZE_MAX: u32 = 32;

pub const FONT_SIZE_DEFAULT: u32 = 11;

/// Default in-shell Ask prefix. Type `?? how do I …` then Enter.
pub const ASK_PREFIX_DEFAULT: &'static str = "??";

pub fn default_ask_prefix() -> (r: String)
    ensures
        r@ == ASK_PREFIX_DEFAULT@,
{
    String::from_str(ASK_PREFIX_DEFAULT)
}

pub fn default_ask_share_terminal_context() -> (r: bool)
    ensures
        !r,
{
    false
}

/// A named theme pack; `style` holds its appearance values.
pub struct ThemePreset<S> {
    pub id: String,
    pub label: String,
    /// When true, this preset is the fallback/default theme.
    pub default: bool,
    pub style: S,
}

/// Index of the first preset at or after `i` with id `id`, or -1.
pub open spec fn preset_index_from<S>(ps: Seq<ThemePreset<S>>, id: Seq<char>, i: int) -> int
    decreases ps.len() - i,
{
    if i < 0 || i >= ps.len() {
        -1
    } else if ps[i].id@ == id {
        i
    } else {
        preset_index_from(ps, id, i + 1)
    }
}

/// Index of the first preset with id `id`, or -1.
pub open spec fn preset_index<S>(ps: Seq<ThemePreset<S>>, id: Seq<char>) -> int {
    preset_index_from(ps, id, 0)
}

/// Index of the first preset at or after `i` marked default, or -1.
pub open spec fn default_index_from<S>(ps: Seq<ThemePreset<S>>, i: int) -> int
    decreases ps.len() - i,
{
    if i < 0 || i >= ps.len() {
        -1
    } else if ps[i].default {
        i
    } else {
        default_index_from(ps, i + 1)
    }
}

/// Index of the first preset marked default, or -1.
pub open spec fn default_index<S>(ps: Seq<ThemePreset<S>>) -> int {
    default_index_from(ps, 0)
}

/// Id of the theme marked default, else of the first theme.
pub open spec fn default_id<S>(ps: Seq<ThemePreset<S>>) -> Seq<char> {
    let i = default_index(ps);
    if i >= 0 {
        ps[i].id@
    } else {
        ps[0].id@
    }
}

/// No two presets share an id.
pub open spec fn unique_ids<S>(ps: Seq<ThemePreset<S>>) -> bool {
    forall|i: int, j: int| 0 <= i < j < ps.len() ==> ps[i].id@ != ps[j].id@
}

pub proof fn lemma_preset_index_from<S>(ps: Seq<ThemePreset<S>>, id: Seq<char>, i: int)
    requires
        0 <= i,
    ensures
        preset_index_from(ps, id, i) == -1 || (i <= preset_index_from(ps, id, i) < ps.len()
            && ps[preset_index_from(ps, id, i)].id@ == id),
        preset_index_from(ps, id, i) == -1 ==> forall|k: int| i <= k < ps.len() ==> ps[k].id@ != id,
        preset_index_from(ps, id, i) >= 0 ==> forall|k: int| i <= k < preset_index_from(ps, id, i) ==> ps[k].id@ != id,
    decreases ps.len() - i,
{
    if i < ps.len() && ps[i].id@ != id {
        lemma_preset_index_from(ps, id, i + 1);
    }
}

pub proof fn lemma_default_index_from<S>(ps: Seq<ThemePreset<S>>, i: int)
    requires
        0 <= i,
    ensures
        default_index_from(ps, i) == -1 || (i <= default_index_from(ps, i) < ps.len()
            && ps[default_index_from(ps, i)].default),
    decreases ps.len() - i,
{
    if i < ps.len() && !ps[i].default {
        lemma_default_index_from(ps, i + 1);
    }
}

fn find_preset<S>(catalog: &Vec<ThemePreset<S>>, id: &Vec<char>) -> (r: Option<usize>)
    ensures
        match r {
            Some(i) => preset_index(catalog@, id@) == i as int && i < catalog@.len(),
            None => preset_index(catalog@, id@) == -1,
        },
{
    let mut i: usize = 0;
    while i < catalog.len()
        invariant
            i <= catalog@.len(),
            preset_index_from(catalog@, id@, i as int) == preset_index(catalog@, id@),
        decreases catalog@.len() - i,
    {
        let k = chars_of(catalog[i].id.as_str());
        if same_chars(&k, id) {
            return Some(i);
        }
        i += 1;
    }
    None
}

/// The preset with id `theme_id`, if the catalog has one.
pub fn theme_by_id<'a, S>(catalog: &'a Vec<ThemePreset<S>>, theme_id: &str) -> (r: Option<&'a ThemePreset<S>>)
    ensures
        match r {
            Some(p) => preset_index(catalog@, theme_id@) >= 0 && *p == catalog@[preset_index(catalog@, theme_id@)],
            None => preset_index(catalog@, theme_id@) == -1,
        },
{
    let id = chars_of(theme_id);
    match find_preset(catalog, &id) {
        Some(i) => Some(&catalog[i]),
        None => None,
    }
}

/// Id of the theme marked `"default": true`, else the first loaded theme.
pub fn default_theme_id<S>(catalog: &Vec<ThemePreset<S>>) -> (r: String)
    requires
        catalog@.len() > 0,
    ensures
        r@ == default_id(catalog@),
{
    let mut i: usize = 0;
    while i < catalog.len()
        invariant
            i <= catalog@.len(),
            default_index_from(catalog@, i as int) == default_index(catalog@),
        decreases catalog@.len() - i,
    {
        if catalog[i].default {
            return catalog[i].id.clone();
        }
        i += 1;
    }
    catalog[0].id.clone()
}

pub open spec fn preset_ids<S>(ps: Seq<ThemePreset<S>>) -> Seq<Seq<char>> {
    ps.map_values(|p: ThemePreset<S>| p.id@)
}

pub open spec fn preset_labels<S>(ps: Seq<ThemePreset<S>>) -> Seq<Seq<char>> {
    ps.map_values(|p: ThemePreset<S>| p.label@)
}

/// The ids of the catalog, in order.
pub fn theme_ids<S>(catalog: &Vec<ThemePreset<S>>) -> (r: Vec<String>)
    ensures
        string_views(r@) == preset_ids(catalog@),
{
    let mut out: Vec<String> = Vec::new();
    let mut i: usize = 0;
    while i < catalog.len()
        invariant
            i <= catalog@.len(),
            string_views(out@) == preset_ids(catalog@.take(i as int)),
        decreases catalog@.len() - i,
    {
        let ghost before = string_views(out@);
        out.push(catalog[i].id.clone());
        assert(string_views(out@) =~= before.push(catalog@[i as int].id@));
        assert(preset_ids(catalog@.take(i + 1)) =~= preset_ids(catalog@.take(i as int)).push(catalog@[i as int].id@));
        i += 1;
    }
    assert(catalog@.take(i as int) =~= catalog@);
    out
}

/// The labels of the catalog, in order.
pub fn theme_labels<S>(catalog: &Vec<ThemePreset<S>>) -> (r: Vec<String>)
    ensures
        string_views(r@) == preset_labels(catalog@),
{
    let mut out: Vec<String> = Vec::new();
    let mut i: usize = 0;
    while i < catalog.len()
        invariant
            i <= catalog@.len(),
            string_views(out@) == preset_labels(catalog@.take(i as int)),
        decreases catalog@.len() - i,
    {
        let ghost before = string_views(out@);
        out.push(catalog[i].label.clone());
        assert(string_views(out@) =~= before.push(catalog@[i as int].label@));
        assert(preset_labels(catalog@.take(i + 1)) =~= preset_labels(catalog@.take(i as int)).push(catalog@[i as int].label@));
        i += 1;
    }
    assert(catalog@.take(i as int) =~= catalog@);
    out
}

/// `v.swap(i, j)` (`<[T]>::swap`). Claimed: the two elements trade places.
#[verifier::external_body]
fn vec_swap<T>(v: &mut Vec<T>, i: usize, j: usize)
    requires
        i < old(v)@.len(),
        j < old(v)@.len(),
    ensures
        final(v)@ == old(v)@.update(i as int, old(v)@[j as int]).update(j as int, old(v)@[i as int]),
{
    v.swap(i, j);
}

/// The catalog after adding `p`: it replaces the preset with its id, else goes last.
pub open spec fn upserted<S>(ps: Seq<ThemePreset<S>>, p: ThemePreset<S>) -> Seq<ThemePreset<S>> {
    let i = preset_index(ps, p.id@);
    if i >= 0 {
        ps.update(i, p)
    } else {
        ps.push(p)
    }
}

/// Add a preset, replacing the one with the same id (a later file overrides an earlier one).
pub fn upsert_theme<S>(presets: &mut Vec<ThemePreset<S>>, preset: ThemePreset<S>)
    ensures
        final(presets)@ == upserted(old(presets)@, preset),
{
    let id = chars_of(preset.id.as_str());
    match find_preset(presets, &id) {
        Some(i) => {
            presets.set(i, preset);
        },
        None => {
            presets.push(preset);
        },
    }
}

/// The catalog with its first default-marked preset moved to the front.
pub open spec fn default_first<S>(ps: Seq<ThemePreset<S>>) -> Seq<ThemePreset<S>> {
    let d = default_index(ps);
    if d >= 0 {
        ps.update(0, ps[d]).update(d, ps[0])
    } else {
        ps
    }
}

/// Put the default-marked theme first, for a stable dropdown order.
pub fn order_catalog<S>(presets: &mut Vec<ThemePreset<S>>)
    ensures
        final(presets)@ == default_first(old(presets)@),
{
    let mut i: usize = 0;
    while i < presets.len()
        invariant
            i <= presets@.len(),
            presets@ == old(presets)@,
            default_index_from(presets@, i as int) == default_index(presets@),
        decreases presets@.len() - i,
    {
        if presets[i].default {
            proof {
                lemma_default_index_from(presets@, 0);
            }
            vec_swap(presets, 0, i);
            return;
        }
        i += 1;
    }
}

/// A preset loaded from a file: a blank id becomes the file's stem (or `theme`),
/// a blank label becomes the id.
pub open spec fn completed_ids(id: Seq<char>, label: Seq<char>, stem: Option<Seq<char>>) -> (Seq<char>, Seq<char>) {
    let new_id = if trim(id).len() == 0 {
        match stem {
            Some(s) => s,
            None => "theme"@,
        }
    } else {
        id
    };
    let new_label = if trim(label).len() == 0 {
        new_id
    } else {
        label
    };
    (new_id, new_label)
}

fn is_blank(s: &str) -> (r: bool)
    ensures
        r == (trim(s@).len() == 0),
{
    let v = chars_of(s);
    let t = trimmed(&v);
    t.len() == 0
}

/// Fill a blank id from the file stem and a blank label from the id.
pub fn complete_preset<S>(preset: &mut ThemePreset<S>, stem: Option<&str>)
    ensures
        (final(preset).id@, final(preset).label@) == completed_ids(
            old(preset).id@,
            old(preset).label@,
            match stem {
                Some(s) => Some(s@),
                None => None,
            },
        ),
        final(preset).default == old(preset).default,
        final(preset).style == old(preset).style,
{
    if is_blank(preset.id.as_str()) {
        preset.id = match stem {
            Some(s) => String::from_str(s),
            None => String::from_str("theme"),
        };
    }
    if is_blank(preset.label.as_str()) {
        preset.label = preset.id.clone();
    }
}

/// A theme file as read: its preset and the file's stem.
pub struct ThemeFile<S> {
    pub preset: ThemePreset<S>,
    pub stem: Option<String>,
}

/// `p` is the preset of file `f` with a blank id and label filled in.
pub open spec fn completed_from<S>(p: ThemePreset<S>, f: ThemeFile<S>) -> bool {
    &&& (p.id@, p.label@) == completed_ids(f.preset.id@, f.preset.label@, opt_chars(f.stem))
    &&& p.default == f.preset.default
    &&& p.style == f.preset.style
}

/// Complete the preset of each theme file (see `complete_preset`), in order.
pub fn complete_presets<S>(files: Vec<ThemeFile<S>>) -> (r: Vec<ThemePreset<S>>)
    ensures
        r@.len() == files@.len(),
        forall|k: int| 0 <= k < files@.len() ==> completed_from(#[trigger] r@[k], files@[k]),
{
    let ghost orig = files@;
    let mut files = files;
    let mut out: Vec<ThemePreset<S>> = Vec::new();
    while files.len() > 0
        invariant
            out@.len() + files@.len() == orig.len(),
            files@ == orig.skip(out@.len() as int),
            forall|k: int| 0 <= k < out@.len() ==> completed_from(#[trigger] out@[k], orig[k]),
        decreases files@.len(),
    {
        let ghost n = out@.len();
        assert(orig[n as int] == files@[0]);
        let ThemeFile { preset, stem } = files.remove(0);
        let mut p = preset;
        let st: Option<&str> = match &stem {
            Some(x) => Some(x.as_str()),
            None => None,
        };
        complete_preset(&mut p, st);
        out.push(p);
        assert(files@ =~= orig.skip(out@.len() as int));
    }
    out
}

/// The catalog after adding the presets one by one: a later preset replaces
/// an earlier one with the same id.
pub open spec fn catalog_fold<S>(ps: Seq<ThemePreset<S>>) -> Seq<ThemePreset<S>>
    decreases ps.len(),
{
    if ps.len() == 0 {
        Seq::empty()
    } else {
        upserted(catalog_fold(ps.drop_last()), ps.last())
    }
}

/// The catalog built from presets read in order, the default-marked one first.
pub open spec fn assembled<S>(ps: Seq<ThemePreset<S>>) -> Seq<ThemePreset<S>> {
    default_first(catalog_fold(ps))
}

/// Build the catalog from presets read in order (see `assembled`).
pub fn assemble_catalog<S>(presets: Vec<ThemePreset<S>>) -> (r: Vec<ThemePreset<S>>)
    ensures
        r@ == assembled(presets@),
{
    let ghost orig = presets@;
    let mut presets = presets;
    let mut out: Vec<ThemePreset<S>> = Vec::new();
    let mut i: usize = 0;
    let total = presets.len();
    assert(orig.take(0) =~= Seq::<ThemePreset<S>>::empty());
    while presets.len() > 0
        invariant
            i + presets@.len() == total,
            total == orig.len(),
            presets@ == orig.skip(i as int),
            out@ == catalog_fold(orig.take(i as int)),
        decreases presets@.len(),
    {
        assert(orig[i as int] == presets@[0]);
        let p = presets.remove(0);
        upsert_theme(&mut out, p);
        assert(orig.take(i + 1).drop_last() =~= orig.take(i as int));
        i += 1;
        assert(presets@ =~= orig.skip(i as int));
    }
    assert(orig.take(i as int) =~= orig);
    order_catalog(&mut out);
    out
}

proof fn lemma_catalog_fold_unique<S>(ps: Seq<ThemePreset<S>>)
    ensures
        unique_ids(catalog_fold(ps)),
    decreases ps.len(),
{
    if ps.len() > 0 {
        lemma_catalog_fold_unique(ps.drop_last());
        lemma_upsert_unique(catalog_fold(ps.drop_last()), ps.last());
    }
}

/// The loaded catalog never holds two themes with one id: a later file with the
/// same id replaced the earlier entry.
pub proof fn lemma_catalog_ids_unique<S>(ps: Seq<ThemePreset<S>>)
    ensures
        unique_ids(assembled(ps)),
{
    lemma_catalog_fold_unique(ps);
    if catalog_fold(ps).len() > 0 {
        lemma_default_first(catalog_fold(ps));
    }
}

/// Every preset of the catalog has a non-empty label.
pub open spec fn labels_present<S>(ps: Seq<ThemePreset<S>>) -> bool {
    forall|i: int| 0 <= i < ps.len() ==> (#[trigger] ps[i]).label@.len() > 0
}

proof fn lemma_catalog_fold_labels<S>(ps: Seq<ThemePreset<S>>)
    requires
        labels_present(ps),
    ensures
        labels_present(catalog_fold(ps)),
    decreases ps.len(),
{
    if ps.len() > 0 {
        assert(labels_present(ps.drop_last()));
        lemma_catalog_fold_labels(ps.drop_last());
        assert(ps.last() == ps[ps.len() - 1]);
        let q = catalog_fold(ps.drop_last());
        lemma_preset_index_from(q, ps.last().id@, 0);
    }
}

/// When every preset read has a label, so does every theme of the catalog.
pub proof fn lemma_catalog_labels_present<S>(ps: Seq<ThemePreset<S>>)
    requires
        labels_present(ps),
    ensures
        labels_present(assembled(ps)),
{
    lemma_catalog_fold_labels(ps);
    let q = catalog_fold(ps);
    lemma_default_index_from(q, 0);
    let d = default_index(q);
    if d >= 0 {
        let r = default_first(q);
        assert forall|i: int| 0 <= i < r.len() implies (#[trigger] r[i]).label@.len() > 0 by {
            if i == d {
                assert(r[i] == q[0]);
            } else if i == 0 {
                assert(r[i] == q[d]);
            } else {
                assert(r[i] == q[i]);
            }
        }
    }
}

/// A completed preset has a label whenever the file's stem, if any, is not empty
/// (the stem of a file name never is).
pub proof fn lemma_completed_label<S>(p: ThemePreset<S>, f: ThemeFile<S>)
    requires
        completed_from(p, f),
        f.stem matches Some(st) ==> st@.len() > 0,
    ensures
        p.label@.len() > 0,
{
    reveal_strlit("theme");
    let id = f.preset.id@;
    let label = f.preset.label@;
    if id.len() == 0 {
        assert(trim(id) =~= id);
    }
    if label.len() == 0 {
        assert(trim(label) =~= label);
    }
}

/// The catalog keeps the preset read last.
pub proof fn lemma_catalog_keeps_last<S>(ps: Seq<ThemePreset<S>>)
    requires
        ps.len() > 0,
    ensures
        assembled(ps).contains(ps.last()),
{
    let q = catalog_fold(ps);
    assert(q == upserted(catalog_fold(ps.drop_last()), ps.last()));
    lemma_upsert_then_lookup(catalog_fold(ps.drop_last()), ps.last());
    let i = preset_index(q, ps.last().id@);
    lemma_preset_index_from(q, ps.last().id@, 0);
    assert(0 <= i < q.len());
    assert(q[i] == ps.last());
    assert(q.contains(ps.last()));
    lemma_default_first(q);
    broadcast use vstd::seq_lib::group_to_multiset_ensures;
    assert(q.to_multiset().count(ps.last()) > 0);
    assert(assembled(ps).to_multiset().count(ps.last()) > 0);
}

/// After adding a preset, looking its id up finds it.
pub proof fn lemma_upsert_then_lookup<S>(ps: Seq<ThemePreset<S>>, p: ThemePreset<S>)
    ensures
        preset_index(upserted(ps, p), p.id@) >= 0,
        upserted(ps, p)[preset_index(upserted(ps, p), p.id@)] == p,
{
    let q = upserted(ps, p);
    lemma_preset_index_from(ps, p.id@, 0);
    lemma_preset_index_from(q, p.id@, 0);
    let i = preset_index(ps, p.id@);
    if i >= 0 {
        assert(q[i].id@ == p.id@);
        assert(forall|k: int| 0 <= k < i ==> q[k] == ps[k]);
        lemma_first_match(q, p.id@, i);
    } else {
        assert(q[ps.len() as int].id@ == p.id@);
        assert(forall|k: int| 0 <= k < ps.len() ==> q[k] == ps[k]);
        lemma_first_match(q, p.id@, ps.len() as int);
    }
}

/// When `i` holds `id` and no earlier preset does, the lookup finds `i`.
pub proof fn lemma_first_match<S>(ps: Seq<ThemePreset<S>>, id: Seq<char>, i: int)
    requires
        0 <= i < ps.len(),
        ps[i].id@ == id,
        forall|k: int| 0 <= k < i ==> ps[k].id@ != id,
    ensures
        preset_index(ps, id) == i,
{
    lemma_first_match_from(ps, id, i, 0);
}

proof fn lemma_first_match_from<S>(ps: Seq<ThemePreset<S>>, id: Seq<char>, i: int, j: int)
    requires
        0 <= j <= i < ps.len(),
        ps[i].id@ == id,
        forall|k: int| j <= k < i ==> ps[k].id@ != id,
    ensures
        preset_index_from(ps, id, j) == i,
    decreases i - j,
{
    if j < i {
        lemma_first_match_from(ps, id, i, j + 1);
    }
}

/// Adding a preset keeps the ids of the catalog distinct.
pub proof fn lemma_upsert_unique<S>(ps: Seq<ThemePreset<S>>, p: ThemePreset<S>)
    requires
        unique_ids(ps),
    ensures
        unique_ids(upserted(ps, p)),
{
    lemma_preset_index_from(ps, p.id@, 0);
}

/// Putting the default first keeps the presets (as a multiset) and puts a default one in front.
pub proof fn lemma_default_first<S>(ps: Seq<ThemePreset<S>>)
    requires
        ps.len() > 0,
    ensures
        default_first(ps).to_multiset() == ps.to_multiset(),
        default_index(ps) >= 0 ==> default_first(ps)[0].default,
        unique_ids(ps) ==> unique_ids(default_first(ps)),
{
    lemma_default_index_from(ps, 0);
    let d = default_index(ps);
    if d >= 0 {
        let p1 = ps.update(0, ps[d]);
        let q = p1.update(d, ps[0]);
        if d == 0 {
            assert(q =~= ps);
        } else {
            broadcast use vstd::multiset::group_multiset_properties, vstd::seq_lib::group_to_multiset_ensures;
            vstd::seq_lib::to_multiset_update(ps, 0, ps[d]);
            vstd::seq_lib::to_multiset_update(p1, d, ps[0]);
            assert(p1[d] == ps[d]);
            assert(ps.contains(ps[0]));
            assert(ps.contains(ps[d]));
            let m = ps.to_multiset();
            assert(m.count(ps[0]) > 0);
            assert(m.count(ps[d]) > 0);
            assert(q.to_multiset() =~= m.insert(ps[d]).remove(ps[0]).insert(ps[0]).remove(ps[d]));
            assert(q.to_multiset() =~= m);
        }
    }
}

/// `s` without its trailing `/` characters (`trim_end_matches('/')`).
pub open spec fn strip_slashes(s: Seq<char>) -> Seq<char>
    decreases s.len(),
{
    if s.len() > 0 && s.last() == '/' {
        strip_slashes(s.drop_last())
    } else {
        s
    }
}

pub open spec fn clamp(v: int, lo: int, hi: int) -> int {
    if v < lo {
        lo
    } else if v > hi {
        hi
    } else {
        v
    }
}

/// Persisted settings (the theme's appearance values are kept beside them).
#[derive(Debug, Clone)]
pub struct AppSettings {
    pub theme: String,
    pub font_size: u32,
    pub font_family: String,
    pub llm_endpoint: String,
    pub llm_api_key: String,
    pub llm_model: String,
    /// Prefix typed in the shell to Ask AI (e.g. `??` or `#?`).
    pub ask_prefix: String,
    /// When true, Ask includes cwd / recent output / session hints in the LLM request.
    pub ask_share_terminal_context: bool,
}

/// The settings as values.
pub struct SettingsView {
    pub theme: Seq<char>,
    pub font_size: u32,
    pub font_family: Seq<char>,
    pub llm_endpoint: Seq<char>,
    pub llm_api_key: Seq<char>,
    pub llm_model: Seq<char>,
    pub ask_prefix: Seq<char>,
    pub ask_share_terminal_context: bool,
}

impl View for AppSettings {
    type V = SettingsView;

    open spec fn view(&self) -> SettingsView {
        SettingsView {
            theme: self.theme@,
            font_size: self.font_size,
            font_family: self.font_family@,
            llm_endpoint: self.llm_endpoint@,
            llm_api_key: self.llm_api_key@,
            llm_model: self.llm_model@,
            ask_prefix: self.ask_prefix@,
            ask_share_terminal_context: self.ask_share_terminal_context,
        }
    }
}

/// The settings with every field brought into range: a known theme, a font size
/// in bounds, non-blank family / endpoint / model / prefix, no trailing `/` on the
/// endpoint, a trimmed prefix.
pub open spec fn normalized<S>(v: SettingsView, catalog: Seq<ThemePreset<S>>) -> SettingsView {
    let e = strip_slashes(v.llm_endpoint);
    let p = trim(v.ask_prefix);
    SettingsView {
        theme: if preset_index(catalog, v.theme) >= 0 {
            v.theme
        } else {
            default_id(catalog)
        },
        font_size: clamp(v.font_size as int, FONT_SIZE_MIN as int, FONT_SIZE_MAX as int) as u32,
        font_family: if trim(v.font_family).len() == 0 {
            "JetBrains Mono"@
        } else {
            v.font_family
        },
        llm_endpoint: if e.len() == 0 {
            "https://api.openai.com/v1"@
        } else {
            e
        },
        llm_api_key: v.llm_api_key,
        llm_model: if trim(v.llm_model).len() == 0 {
            "gpt-4o-mini"@
        } else {
            v.llm_model
        },
        ask_prefix: if p.len() == 0 {
            ASK_PREFIX_DEFAULT@
        } else {
            p
        },
        ask_share_terminal_context: v.ask_share_terminal_context,
    }
}

/// The text Pango reads as the terminal font: the family, then fallbacks, all at the size.
pub open spec fn font_desc(family: Seq<char>, size: u32) -> Seq<char> {
    let n = crate::text::decimal(size as nat);
    trim(family) + " "@ + n + ", Fira Code "@ + n + ", Cascadia Code "@ + n + ", monospace "@ + n
}

fn strip_slashes_exec(s: &str) -> (r: String)
    ensures
        r@ == strip_slashes(s@),
{
    let v = chars_of(s);
    let mut n = v.len();
    assert(v@.take(v@.len() as int) =~= v@);
    while n > 0 && v[n - 1] == '/'
        invariant
            n <= v@.len(),
            strip_slashes(v@.take(n as int)) == strip_slashes(v@),
        decreases n,
    {
        assert(v@.take(n as int).drop_last() =~= v@.take(n - 1));
        n -= 1;
    }
    let t = slice(&v, 0, n);
    assert(t@ =~= v@.take(n as int));
    string_of(&t)
}

impl AppSettings {
    pub fn clamp_font_size(size: u32) -> (r: u32)
        ensures
            r as int == clamp(size as int, FONT_SIZE_MIN as int, FONT_SIZE_MAX as int),
    {
        if size < FONT_SIZE_MIN {
            FONT_SIZE_MIN
        } else if size > FONT_SIZE_MAX {
            FONT_SIZE_MAX
        } else {
            size
        }
    }

    /// The settings a fresh install starts with.
    pub fn default_for<S>(catalog: &Vec<ThemePreset<S>>) -> (r: AppSettings)
        requires
            catalog@.len() > 0,
        ensures
            r@ == (SettingsView {
                theme: default_id(catalog@),
                font_size: FONT_SIZE_DEFAULT,
                font_family: "JetBrains Mono"@,
                llm_endpoint: "https://api.openai.com/v1"@,
                llm_api_key: Seq::empty(),
                llm_model: "gpt-4o-mini"@,
                ask_prefix: ASK_PREFIX_DEFAULT@,
                ask_share_terminal_context: false,
            }),
    {
        AppSettings {
            theme: default_theme_id(catalog),
            font_size: FONT_SIZE_DEFAULT,
            font_family: String::from_str("JetBrains Mono"),
            llm_endpoint: String::from_str("https://api.openai.com/v1"),
            llm_api_key: String::new(),
            llm_model: String::from_str("gpt-4o-mini"),
            ask_prefix: String::from_str(ASK_PREFIX_DEFAULT),
            ask_share_terminal_context: false,
        }
    }

    /// Bring every field into range (see `normalized`).
    pub fn normalize<S>(&mut self, catalog: &Vec<ThemePreset<S>>)
        requires
            catalog@.len() > 0,
        ensures
            final(self)@ == normalized(old(self)@, catalog@),
    {
        self.font_size = Self::clamp_font_size(self.font_size);
        if theme_by_id(catalog, self.theme.as_str()).is_none() {
            self.theme = default_theme_id(catalog);
        }
        if is_blank(self.font_family.as_str()) {
            self.font_family = String::from_str("JetBrains Mono");
        }
        self.llm_endpoint = strip_slashes_exec(self.llm_endpoint.as_str());
        if self.llm_endpoint.as_str().unicode_len() == 0 {
            self.llm_endpoint = String::from_str("https://api.openai.com/v1");
        }
        if is_blank(self.llm_model.as_str()) {
            self.llm_model = String::from_str("gpt-4o-mini");
        }
        let pv = chars_of(self.ask_prefix.as_str());
        let p = trimmed(&pv);
        if p.len() == 0 {
            self.ask_prefix = String::from_str(ASK_PREFIX_DEFAULT);
        } else {
            self.ask_prefix = string_of(&p);
        }
    }

    /// Switch to the theme `theme_id` (the default theme when it is unknown).
    /// Returns the index of the chosen preset, whose style the caller applies.
    pub fn apply_theme_preset<S>(&mut self, catalog: &Vec<ThemePreset<S>>, theme_id: &str) -> (r: usize)
        requires
            catalog@.len() > 0,
        ensures
            final(self)@ == (SettingsView {
                theme: if preset_index(catalog@, theme_id@) >= 0 {
                    theme_id@
                } else {
                    default_id(catalog@)
                },
                ..old(self)@
            }),
            r < catalog@.len(),
            r as int == preset_index(catalog@, final(self)@.theme),
    {
        let known = theme_by_id(catalog, theme_id).is_some();
        let id = if known {
            String::from_str(theme_id)
        } else {
            default_theme_id(catalog)
        };
        proof {
            lemma_default_id_known(catalog@);
        }
        self.theme = id;
        let ids = chars_of(self.theme.as_str());
        match find_preset(catalog, &ids) {
            Some(i) => i,
            None => {
                assert(false);
                0
            },
        }
    }

    /// The Pango font description for the terminal.
    pub fn font_description(&self) -> (r: String)
        ensures
            r@ == font_desc(self.font_family@, self.font_size),
    {
        let fv = chars_of(self.font_family.as_str());
        let family = trimmed(&fv);
        let n = string_of(&decimal_exec(self.font_size as u64));
        let mut s = string_of(&family);
        push_str(&mut s, " ");
        push_str(&mut s, n.as_str());
        push_str(&mut s, ", Fira Code ");
        push_str(&mut s, n.as_str());
        push_str(&mut s, ", Cascadia Code ");
        push_str(&mut s, n.as_str());
        push_str(&mut s, ", monospace ");
        push_str(&mut s, n.as_str());
        s
    }

    /// Ask can be used: an endpoint and a non-blank API key are set.
    pub fn llm_configured(&self) -> (r: bool)
        ensures
            r == (self.llm_endpoint@.len() > 0 && trim(self.llm_api_key@).len() > 0),
    {
        self.llm_endpoint.as_str().unicode_len() > 0 && !is_blank(self.llm_api_key.as_str())
    }
}

/// The default theme's id names a preset of the catalog.
pub proof fn lemma_default_id_known<S>(catalog: Seq<ThemePreset<S>>)
    requires
        catalog.len() > 0,
    ensures
        preset_index(catalog, default_id(catalog)) >= 0,
{
    lemma_default_index_from(catalog, 0);
    let d = default_index(catalog);
    let i = if d >= 0 { d } else { 0 };
    lemma_preset_index_from(catalog, catalog[i].id@, 0);
    if preset_index(catalog, catalog[i].id@) < 0 {
        assert(catalog[i].id@ != catalog[i].id@);
    }
}

proof fn lemma_strip_slashes(s: Seq<char>)
    ensures
        strip_slashes(strip_slashes(s)) == strip_slashes(s),
        strip_slashes(s).len() > 0 ==> strip_slashes(s).last() != '/',
    decreases s.len(),
{
    if s.len() > 0 && s.last() == '/' {
        lemma_strip_slashes(s.drop_last());
    }
}

/// Normalizing settings that were already normalized changes nothing.
pub proof fn lemma_normalize_idempotent<S>(v: SettingsView, catalog: Seq<ThemePreset<S>>)
    requires
        catalog.len() > 0,
    ensures
        normalized(normalized(v, catalog), catalog) == normalized(v, catalog),
{
    let n = normalized(v, catalog);
    lemma_default_id_known(catalog);
    lemma_strip_slashes(v.llm_endpoint);
    lemma_trim_idem(v.ask_prefix);
    reveal_strlit("JetBrains Mono");
    reveal_strlit("https://api.openai.com/v1");
    reveal_strlit("gpt-4o-mini");
    reveal_strlit("??");
    assert(trim_start("JetBrains Mono"@) == "JetBrains Mono"@);
    assert(trim_end("JetBrains Mono"@) == "JetBrains Mono"@);
    assert(trim_start("gpt-4o-mini"@) == "gpt-4o-mini"@);
    assert(trim_end("gpt-4o-mini"@) == "gpt-4o-mini"@);
    assert(trim_start("??"@) == "??"@);
    assert(trim_end("??"@) == "??"@);
    assert(strip_slashes("https://api.openai.com/v1"@) == "https://api.openai.com/v1"@);
    assert(normalized(n, catalog) =~= n);
}

/// Where the theme `theme` stands in the catalog's list (the first entry when
/// it is not there): the entry the theme list opens on.
pub fn theme_position<S>(catalog: &Vec<ThemePreset<S>>, theme: &str) -> (r: usize)
    ensures
        r as int == (if preset_index(catalog@, theme@) >= 0 {
            preset_index(catalog@, theme@)
        } else {
            0
        }),
{
    let tv = chars_of(theme);
    match find_preset(catalog, &tv) {
        Some(i) => i,
        None => 0,
    }
}

/// The id of the theme at entry `index` of the list, or the default theme's
/// when there is no such entry.
pub fn theme_at<S>(catalog: &Vec<ThemePreset<S>>, index: usize) -> (r: String)
    requires
        catalog@.len() > 0,
    ensures
        r@ == (if index < catalog@.len() {
            catalog@[index as int].id@
        } else {
            default_id(catalog@)
        }),
{
    if index < catalog.len() {
        catalog[index].id.clone()
    } else {
        default_theme_id(catalog)
    }
}

/// The step a mouse-wheel notch takes in the theme list of `n` entries: one
/// down (`down`) or up (`up`) while the list has room; `None` leaves it.
pub fn theme_wheel_step(selected: u32, n: u32, down: bool, up: bool) -> (r: Option<u32>)
    ensures
        r == (if n == 0 {
            None
        } else if down && selected + 1 < n {
            Some((selected + 1) as u32)
        } else if up && selected > 0 {
            Some((selected - 1) as u32)
        } else {
            None::<u32>
        }),
{
    if n == 0 {
        return None;
    }
    if down && selected < n - 1 {
        return Some(selected + 1);
    }
    if up && selected > 0 {
        return Some(selected - 1);
    }
    None
}

/// What the settings form gives back: the settings to save, and the catalog
/// entry whose style replaces the current one when the theme changed.
pub struct FormOutcome {
    pub settings: AppSettings,
    pub preset: Option<usize>,
}

/// The values typed into the settings form.
pub struct FormValues {
    pub theme_index: usize,
    pub font_size: u32,
    pub font_family: String,
    pub llm_endpoint: String,
    pub llm_api_key: String,
    pub llm_model: String,
    pub ask_prefix: String,
    pub ask_share_terminal_context: bool,
}

/// The theme chosen in the form: the entry at the chosen index, else the default theme.
pub open spec fn form_theme<S>(catalog: Seq<ThemePreset<S>>, f: FormValues) -> Seq<char> {
    if f.theme_index < catalog.len() {
        catalog[f.theme_index as int].id@
    } else {
        default_id(catalog)
    }
}

/// The settings view after a save: the chosen theme, the typed fields, normalized.
pub open spec fn saved_view<S>(previous: SettingsView, catalog: Seq<ThemePreset<S>>, f: FormValues) -> SettingsView {
    let theme = form_theme(catalog, f);
    normalized(
        SettingsView {
            theme: if theme != previous.theme {
                theme
            } else {
                previous.theme
            },
            font_size: f.font_size,
            font_family: f.font_family@,
            llm_endpoint: f.llm_endpoint@,
            llm_api_key: f.llm_api_key@,
            llm_model: f.llm_model@,
            ask_prefix: f.ask_prefix@,
            ask_share_terminal_context: f.ask_share_terminal_context,
        },
        catalog,
    )
}

/// Saving the same form twice gives the same settings, and the second save
/// finds the chosen theme already set, so the theme's style is replaced at most once.
pub proof fn lemma_save_twice<S>(previous: SettingsView, catalog: Seq<ThemePreset<S>>, f: FormValues)
    requires
        catalog.len() > 0,
    ensures
        saved_view(previous, catalog, f).theme == form_theme(catalog, f),
        saved_view(saved_view(previous, catalog, f), catalog, f) == saved_view(previous, catalog, f),
{
    lemma_default_id_known(catalog);
    if f.theme_index < catalog.len() {
        lemma_preset_index_from(catalog, form_theme(catalog, f), 0);
        if preset_index(catalog, form_theme(catalog, f)) < 0 {
            assert(catalog[f.theme_index as int].id@ == form_theme(catalog, f));
        }
    }
}

impl AppSettings {
    /// A field-by-field copy.
    pub fn copy(&self) -> (r: AppSettings)
        ensures
            r@ == self@,
    {
        AppSettings {
            theme: self.theme.clone(),
            font_size: self.font_size,
            font_family: self.font_family.clone(),
            llm_endpoint: self.llm_endpoint.clone(),
            llm_api_key: self.llm_api_key.clone(),
            llm_model: self.llm_model.clone(),
            ask_prefix: self.ask_prefix.clone(),
            ask_share_terminal_context: self.ask_share_terminal_context,
        }
    }

    /// Save the settings form: the theme at the chosen entry (its preset applied
    /// only when it differs from the current theme), then the typed fields, then
    /// `normalize`.
    pub fn from_form<S>(&self, catalog: &Vec<ThemePreset<S>>, form: FormValues) -> (r: FormOutcome)
        requires
            catalog@.len() > 0,
        ensures
            r.settings@ == saved_view(self@, catalog@, form),
            ({
                let theme = form_theme(catalog@, form);
                match r.preset {
                    Some(i) => theme != self@.theme && i < catalog@.len() && i as int == preset_index(
                        catalog@,
                        theme,
                    ),
                    None => theme == self@.theme,
                }
            }),
    {
        let theme = theme_at(catalog, form.theme_index);
        let mut settings = self.copy();
        let tv = chars_of(theme.as_str());
        let cv = chars_of(settings.theme.as_str());
        let mut preset: Option<usize> = None;
        if !same_chars(&tv, &cv) {
            proof {
                lemma_default_id_known(catalog@);
                if form.theme_index < catalog@.len() {
                    lemma_preset_index_from(catalog@, theme@, 0);
                    if preset_index(catalog@, theme@) < 0 {
                        assert(catalog@[form.theme_index as int].id@ == theme@);
                    }
                }
            }
            preset = Some(settings.apply_theme_preset(catalog, theme.as_str()));
        }
        settings.font_size = form.font_size;
        settings.font_family = form.font_family;
        settings.llm_endpoint = form.llm_endpoint;
        settings.llm_api_key = form.llm_api_key;
        settings.llm_model = form.llm_model;
        settings.ask_prefix = form.ask_prefix;
        settings.ask_share_terminal_context = form.ask_share_terminal_context;
        settings.normalize(catalog);
        FormOutcome { settings, preset }
    }
}

/// What happens in the settings dialog.
pub enum DialogEvent {
    /// Another theme was chosen in the list (at this entry).
    Choose(usize),
    /// The Cancel button.
    Cancel,
    /// The Save button, with the form's values.
    Save(FormValues),
    /// The window is asked to close.
    CloseRequest,
}

/// What the dialog does about it.
pub enum DialogAction {
    /// Show these settings live, with the style of catalog entry `preset`.
    Preview { settings: AppSettings, preset: usize },
    /// Put back the settings (and style) the dialog opened with.
    Revert,
    /// Put them back, then close the dialog.
    RevertAndClose,
    /// Close the dialog.
    Close,
    /// Save these settings, then close the dialog.
    Commit(FormOutcome),
    /// Nothing to do.
    Nothing,
}

/// A dialog action as values.
pub enum ActionView {
    Preview { settings: SettingsView, preset: usize },
    Revert,
    RevertAndClose,
    Close,
    Commit { settings: SettingsView, preset: Option<usize> },
    Nothing,
}

/// The values of a dialog action.
pub open spec fn action_view(a: DialogAction) -> ActionView {
    match a {
        DialogAction::Preview { settings, preset } => ActionView::Preview { settings: settings@, preset },
        DialogAction::Revert => ActionView::Revert,
        DialogAction::RevertAndClose => ActionView::RevertAndClose,
        DialogAction::Close => ActionView::Close,
        DialogAction::Commit(o) => ActionView::Commit { settings: o.settings@, preset: o.preset },
        DialogAction::Nothing => ActionView::Nothing,
    }
}

/// The theme a choice of list entry `index` stands for.
pub open spec fn chosen_theme<S>(catalog: Seq<ThemePreset<S>>, index: usize) -> Seq<char> {
    if index < catalog.len() {
        catalog[index as int].id@
    } else {
        default_id(catalog)
    }
}

/// What the dialog opened with `previous`, saved (`committed`) or not, does about `event`.
pub open spec fn dialog_action<S>(
    previous: SettingsView,
    committed: bool,
    catalog: Seq<ThemePreset<S>>,
    event: DialogEvent,
) -> ActionView {
    match event {
        DialogEvent::Choose(index) => {
            let chosen = chosen_theme(catalog, index);
            ActionView::Preview {
                settings: SettingsView { theme: chosen, ..previous },
                preset: preset_index(catalog, chosen) as usize,
            }
        },
        DialogEvent::Cancel => if committed {
            ActionView::Close
        } else {
            ActionView::RevertAndClose
        },
        DialogEvent::CloseRequest => if committed {
            ActionView::Nothing
        } else {
            ActionView::Revert
        },
        DialogEvent::Save(form) => {
            let theme = form_theme(catalog, form);
            ActionView::Commit {
                settings: saved_view(previous, catalog, form),
                preset: if theme != previous.theme {
                    Some(preset_index(catalog, theme) as usize)
                } else {
                    None
                },
            }
        },
    }
}

/// Whether the dialog is saved after `event`.
pub open spec fn dialog_committed(committed: bool, event: DialogEvent) -> bool {
    committed || event is Save
}

/// The actions of a run of events, from a dialog in state `committed`.
pub open spec fn dialog_run<S>(
    previous: SettingsView,
    committed: bool,
    catalog: Seq<ThemePreset<S>>,
    events: Seq<DialogEvent>,
) -> Seq<ActionView>
    decreases events.len(),
{
    if events.len() == 0 {
        Seq::empty()
    } else {
        seq![dialog_action(previous, committed, catalog, events[0])] + dialog_run(
            previous,
            dialog_committed(committed, events[0]),
            catalog,
            events.skip(1),
        )
    }
}

/// Theme choices in the list, as events.
pub open spec fn choices(indices: Seq<usize>) -> Seq<DialogEvent> {
    indices.map_values(|i: usize| DialogEvent::Choose(i))
}

proof fn lemma_choices_run<S>(
    previous: SettingsView,
    catalog: Seq<ThemePreset<S>>,
    indices: Seq<usize>,
    last: DialogEvent,
)
    ensures
        dialog_run(previous, false, catalog, choices(indices).push(last)).len() == indices.len() + 1,
        forall|k: int|
            0 <= k < indices.len() ==> #[trigger] dialog_run(previous, false, catalog, choices(indices).push(last))[k]
                is Preview,
        dialog_run(previous, false, catalog, choices(indices).push(last))[indices.len() as int]
            == dialog_action(previous, false, catalog, last),
    decreases indices.len(),
{
    let evs = choices(indices).push(last);
    if indices.len() > 0 {
        let rest = indices.skip(1);
        assert(evs.skip(1) =~= choices(rest).push(last));
        assert(evs[0] == DialogEvent::Choose(indices[0]));
        assert(!dialog_committed(false, evs[0]));
        lemma_choices_run(previous, catalog, rest, last);
        let tail = dialog_run(previous, false, catalog, evs.skip(1));
        assert(dialog_run(previous, false, catalog, evs) == seq![dialog_action(previous, false, catalog, evs[0])] + tail);
        assert forall|k: int| 0 <= k < indices.len() implies #[trigger] dialog_run(previous, false, catalog, evs)[k] is Preview by {
            if k > 0 {
                assert(dialog_run(previous, false, catalog, evs)[k] == tail[k - 1]);
            }
        }
    } else {
        assert(evs =~= seq![last]);
        assert(evs.skip(1) =~= Seq::<DialogEvent>::empty());
        let tail = dialog_run(previous, dialog_committed(false, evs[0]), catalog, evs.skip(1));
        assert(tail.len() == 0);
        assert(dialog_run(previous, false, catalog, evs) == seq![dialog_action(previous, false, catalog, evs[0])] + tail);
    }
}

/// The settings dialog's protocol. After opening, any run of theme choices
/// previews each choice. Ending it with Cancel or closing saves nothing and
/// puts the opening settings back. Ending it with Save commits exactly once,
/// with settings that normalizing leaves unchanged.
pub proof fn lemma_dialog_protocol<S>(
    previous: SettingsView,
    catalog: Seq<ThemePreset<S>>,
    indices: Seq<usize>,
    last: DialogEvent,
)
    requires
        catalog.len() > 0,
    ensures
        ({
            let run = dialog_run(previous, false, catalog, choices(indices).push(last));
            &&& run.len() == indices.len() + 1
            &&& forall|k: int| 0 <= k < indices.len() ==> #[trigger] run[k] is Preview
            &&& (last is Cancel || last is CloseRequest) ==> {
                &&& forall|k: int| 0 <= k < run.len() ==> !(#[trigger] run[k] is Commit)
                &&& (run.last() is Revert || run.last() is RevertAndClose)
            }
            &&& last is Save ==> {
                &&& forall|k: int| 0 <= k < indices.len() ==> !(#[trigger] run[k] is Commit)
                &&& run.last() matches ActionView::Commit { settings, .. } && normalized(settings, catalog)
                    == settings
            }
        }),
{
    lemma_choices_run(previous, catalog, indices, last);
    let run = dialog_run(previous, false, catalog, choices(indices).push(last));
    assert(run.last() == dialog_action(previous, false, catalog, last));
    match last {
        DialogEvent::Save(form) => {
            let t = form_theme(catalog, form);
            lemma_normalize_idempotent(
                SettingsView {
                    theme: if t != previous.theme { t } else { previous.theme },
                    font_size: form.font_size,
                    font_family: form.font_family@,
                    llm_endpoint: form.llm_endpoint@,
                    llm_api_key: form.llm_api_key@,
                    llm_model: form.llm_model@,
                    ask_prefix: form.ask_prefix@,
                    ask_share_terminal_context: form.ask_share_terminal_context,
                },
                catalog,
            );
        },
        _ => {},
    }
}

/// An open settings dialog: the settings it opened with, and whether they were saved.
pub struct SettingsDialog {
    pub previous: AppSettings,
    pub committed: bool,
}

impl SettingsDialog {
    pub fn open(current: &AppSettings) -> (r: SettingsDialog)
        ensures
            r.previous@ == current@,
            !r.committed,
    {
        SettingsDialog { previous: current.copy(), committed: false }
    }

    /// React to `event`: a choice previews its theme over the opening settings;
    /// Cancel and closing put those back unless the form was saved; Save
    /// commits the form (see `from_form`).
    pub fn step<S>(&mut self, catalog: &Vec<ThemePreset<S>>, event: DialogEvent) -> (r: DialogAction)
        requires
            catalog@.len() > 0,
        ensures
            final(self).previous@ == old(self).previous@,
            final(self).committed == dialog_committed(old(self).committed, event),
            action_view(r) == dialog_action(old(self).previous@, old(self).committed, catalog@, event),
            r matches DialogAction::Preview { preset, .. } ==> preset < catalog@.len(),
            r matches DialogAction::Commit(o) ==> (o.preset matches Some(i) ==> i < catalog@.len()),
    {
        match event {
            DialogEvent::Choose(index) => {
                let theme = theme_at(catalog, index);
                let mut settings = self.previous.copy();
                proof {
                    lemma_default_id_known(catalog@);
                    if index < catalog@.len() {
                        lemma_preset_index_from(catalog@, theme@, 0);
                        if preset_index(catalog@, theme@) < 0 {
                            assert(catalog@[index as int].id@ == theme@);
                        }
                    }
                }
                let preset = settings.apply_theme_preset(catalog, theme.as_str());
                DialogAction::Preview { settings, preset }
            },
            DialogEvent::Cancel => {
                if self.committed {
                    DialogAction::Close
                } else {
                    DialogAction::RevertAndClose
                }
            },
            DialogEvent::CloseRequest => {
                if self.committed {
                    DialogAction::Nothing
                } else {
                    DialogAction::Revert
                }
            },
            DialogEvent::Save(form) => {
                let outcome = self.previous.from_form(catalog, form);
                self.committed = true;
                DialogAction::Commit(outcome)
            },
        }
    }
}

/// The font size after a Ctrl+scroll step: the size (read as an `i32`) plus
/// `delta`, clamped to the bounds; `None` when it does not change.
pub fn adjusted_font_size(current: u32, delta: i32) -> (r: Option<u32>)
    requires
        i32::MIN <= (current as i32) + delta <= i32::MAX,
    ensures
        match r {
            Some(n) => n as int == clamp((current as i32) + delta, FONT_SIZE_MIN as int, FONT_SIZE_MAX as int)
                && n != current,
            None => clamp((current as i32) + delta, FONT_SIZE_MIN as int, FONT_SIZE_MAX as int) == current,
        },
{
    let v = current as i32 + delta;
    let next: u32 = if v < 8 {
        8
    } else if v > 32 {
        32
    } else {
        v as u32
    };
    if next == current {
        None
    } else {
        Some(next)
    }
}

} // verus!
