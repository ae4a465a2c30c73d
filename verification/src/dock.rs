//! The dock's model: which windows belong to which application, the items
//! the dock shows (pinned applications first, then running ones), launch
//! feedback, and how a new window snapshot or a pins reload is applied.
use vstd::prelude::*;

use crate::catalog::{
    catalog_wf, law_resolve_catalog_id, law_resolve_lands_in_catalog, lookup_app, resolve, AppCatalog,
    AppRecord, AppRecordView, CatalogView,
};
use crate::model::{clone_windows, windows_eq, windows_view, WindowState, WindowStateView};
use crate::pins::{pin_position, position_of, str_views};
use crate::model::opt_str_view;
use crate::order::{is_stable_order, keys_view, sorted_order, stable_order, SortKey};
use crate::text::{chars_of, concat_str, decimal, lex_lt, lowercased, str_eq, str_lt, to_lowercase, u64_to_decimal};

verus! {

broadcast use vstd::seq_lib::group_seq_properties;

// ---------------------------------------------------------------------------
// Grouping windows by application
// ---------------------------------------------------------------------------

/// A group of windows sharing a key.
pub struct WindowGroup {
    pub key: String,
    pub windows: Vec<WindowState>,
}

/// View of a group: its key and its windows.
pub type GroupView = (Seq<char>, Seq<WindowStateView>);

/// The views of a list of groups.
pub open spec fn groups_view(g: Seq<WindowGroup>) -> Seq<GroupView> {
    g.map_values(|e: WindowGroup| (e.key@, windows_view(e.windows@)))
}

/// The keys of a list of groups.
pub open spec fn group_keys(g: Seq<GroupView>) -> Seq<Seq<char>> {
    g.map_values(|e: GroupView| e.0)
}

/// The canonical catalog id of a window's application, if it has one.
pub open spec fn canonical_of(v: CatalogView, w: WindowStateView) -> Option<Seq<char>> {
    match w.app_id {
        Some(a) => resolve(v, a),
        None => None,
    }
}

/// The key of a window that belongs to no catalog application: its
/// application id, else its title, else its window id.
pub open spec fn fallback_key(w: WindowStateView) -> Seq<char> {
    match w.app_id {
        Some(a) => a,
        None => match w.title {
            Some(t) => t,
            None => w.id,
        },
    }
}

/// Where a new key goes among sorted group keys.
pub open spec fn group_insert_pos(g: Seq<GroupView>, key: Seq<char>) -> int
    decreases g.len(),
{
    if g.len() == 0 {
        0
    } else if lex_lt(key, g[0].0) {
        0
    } else {
        1 + group_insert_pos(g.drop_first(), key)
    }
}

/// Adds a window under `key`: appended to that key's group, or in a new
/// group placed in key order.
pub open spec fn group_add(g: Seq<GroupView>, key: Seq<char>, w: WindowStateView) -> Seq<GroupView> {
    let i = position_of(group_keys(g), key);
    if i >= 0 {
        g.update(i, (key, g[i].1.push(w)))
    } else {
        g.insert(group_insert_pos(g, key), (key, seq![w]))
    }
}

/// The windows grouped in key order (a sorted map from key to windows):
/// with `known`, the windows of catalog applications keyed by canonical id;
/// otherwise the other windows keyed by [`fallback_key`].
pub open spec fn grouped(v: CatalogView, known: bool, ws: Seq<WindowStateView>) -> Seq<GroupView>
    decreases ws.len(),
{
    if ws.len() == 0 {
        Seq::empty()
    } else {
        let g = grouped(v, known, ws.drop_last());
        let w = ws.last();
        match canonical_of(v, w) {
            Some(k) => if known {
                group_add(g, k, w)
            } else {
                g
            },
            None => if known {
                g
            } else {
                group_add(g, fallback_key(w), w)
            },
        }
    }
}

fn group_position(groups: &Vec<WindowGroup>, key: &str) -> (r: Option<usize>)
    ensures
        match r {
            Some(i) => i < groups.len() && i as int == position_of(group_keys(groups_view(groups@)), key@),
            None => position_of(group_keys(groups_view(groups@)), key@) == -1,
        },
{
    let ghost v = group_keys(groups_view(groups@));
    let mut i: usize = 0;
    while i < groups.len()
        invariant
            i <= groups.len(),
            v == group_keys(groups_view(groups@)),
            forall|j: int| 0 <= j < i ==> v[j] != key@,
        decreases groups.len() - i,
    {
        if str_eq(groups[i].key.as_str(), key) {
            proof {
                crate::pins::lemma_position_of_first(v, key@, i as int);
            }
            return Some(i);
        }
        i = i + 1;
    }
    proof {
        crate::pins::lemma_position_of_absent(v, key@);
    }
    None
}

fn insert_position(groups: &Vec<WindowGroup>, key: &str) -> (p: usize)
    ensures
        p as int == group_insert_pos(groups_view(groups@), key@),
        p <= groups.len(),
{
    let ghost g = groups_view(groups@);
    let k = chars_of(key);
    let mut p: usize = 0;
    assert(g.skip(0) == g);
    while p < groups.len() && !str_lt(&k, &chars_of(groups[p].key.as_str()))
        invariant
            p <= groups.len(),
            g == groups_view(groups@),
            k@ == key@,
            group_insert_pos(g, key@) == p + group_insert_pos(g.skip(p as int), key@),
        decreases groups.len() - p,
    {
        assert(g.skip(p as int).drop_first() == g.skip(p + 1));
        p = p + 1;
    }
    proof {
        if p < groups.len() {
            assert(g.skip(p as int)[0] == g[p as int]);
        }
    }
    p
}

/// Adds a window under `key` (see [`group_add`]).
fn add_to_groups(groups: &mut Vec<WindowGroup>, key: String, w: WindowState)
    ensures
        groups_view(final(groups)@) == group_add(groups_view(old(groups)@), key@, w@),
{
    let ghost before = groups_view(groups@);
    match group_position(groups, key.as_str()) {
        Some(i) => {
            proof {
                crate::pins::lemma_position_of_bounds(group_keys(before), key@);
                assert(group_keys(before)[i as int] == before[i as int].0);
            }
            let mut group = groups.remove(i);
            let ghost gw = windows_view(group.windows@);
            group.windows.push(w);
            assert(windows_view(group.windows@) == gw.push(w@));
            groups.insert(i, group);
            assert(groups_view(groups@) =~= before.update(i as int, (key@, before[i as int].1.push(w@))));
        },
        None => {
            let p = insert_position(groups, key.as_str());
            let mut ws: Vec<WindowState> = Vec::new();
            ws.push(w);
            let ghost wv = windows_view(ws@);
            assert(wv =~= seq![w@]);
            groups.insert(p, WindowGroup { key, windows: ws });
            assert(groups_view(groups@) =~= before.insert(p as int, (key@, seq![w@])));
        },
    }
}

/// Groups the windows: those of catalog applications by canonical id, the
/// others by [`fallback_key`]; each list in key order.
pub fn group_windows(windows: &Vec<WindowState>, catalog: &AppCatalog) -> (r: (Vec<WindowGroup>, Vec<WindowGroup>))
    ensures
        groups_view(r.0@) == grouped(catalog@, true, windows_view(windows@)),
        groups_view(r.1@) == grouped(catalog@, false, windows_view(windows@)),
{
    let ghost wv = windows_view(windows@);
    let mut known: Vec<WindowGroup> = Vec::new();
    let mut unknown: Vec<WindowGroup> = Vec::new();
    let mut i: usize = 0;
    assert(wv.take(0) =~= Seq::<WindowStateView>::empty());
    while i < windows.len()
        invariant
            i <= windows.len(),
            wv == windows_view(windows@),
            groups_view(known@) == grouped(catalog@, true, wv.take(i as int)),
            groups_view(unknown@) == grouped(catalog@, false, wv.take(i as int)),
        decreases windows.len() - i,
    {
        let window = &windows[i];
        assert(wv.take(i + 1).drop_last() == wv.take(i as int));
        assert(wv.take(i + 1).last() == window@);
        let canonical = match &window.app_id {
            Some(a) => catalog.resolve_id(a.as_str()),
            None => None,
        };
        match canonical {
            Some(c) => {
                add_to_groups(&mut known, c, window.clone());
            },
            None => {
                let key = match &window.app_id {
                    Some(a) => a.clone(),
                    None => match &window.title {
                        Some(t) => t.clone(),
                        None => window.id.clone(),
                    },
                };
                add_to_groups(&mut unknown, key, window.clone());
            },
        }
        i = i + 1;
    }
    assert(wv.take(windows.len() as int) == wv);
    (known, unknown)
}

// ---------------------------------------------------------------------------
// Dock items
// ---------------------------------------------------------------------------

/// One entry of the dock: a pinned or running application, or a group of
/// windows of an application the catalog does not know.
pub struct DockItem {
    pub label: String,
    pub tooltip: String,
    pub app: Option<AppRecord>,
    pub windows: Vec<WindowState>,
    pub pinned: bool,
    pub active: bool,
    pub launching: bool,
    pub badge_count: Option<u32>,
}

/// View of a [`DockItem`].
pub struct DockItemView {
    pub label: Seq<char>,
    pub tooltip: Seq<char>,
    pub app: Option<AppRecordView>,
    pub windows: Seq<WindowStateView>,
    pub pinned: bool,
    pub active: bool,
    pub launching: bool,
    pub badge_count: Option<u32>,
}

/// The view of an optional record.
pub open spec fn opt_record_view(a: Option<AppRecord>) -> Option<AppRecordView> {
    match a {
        Some(r) => Some(r@),
        None => None,
    }
}

impl View for DockItem {
    type V = DockItemView;

    open spec fn view(&self) -> DockItemView {
        DockItemView {
            label: self.label@,
            tooltip: self.tooltip@,
            app: opt_record_view(self.app),
            windows: windows_view(self.windows@),
            pinned: self.pinned,
            active: self.active,
            launching: self.launching,
            badge_count: self.badge_count,
        }
    }
}

/// The views of a list of items.
pub open spec fn items_view(items: Seq<DockItem>) -> Seq<DockItemView> {
    items.map_values(|i: DockItem| i@)
}

/// Whether any of the windows is the focused one.
pub open spec fn any_active(ws: Seq<WindowStateView>) -> bool {
    exists|i: int| 0 <= i < ws.len() && (#[trigger] ws[i]).active
}

/// The sum of the windows' badge counts.
pub open spec fn badge_total(ws: Seq<WindowStateView>) -> nat
    decreases ws.len(),
{
    if ws.len() == 0 {
        0
    } else {
        badge_total(ws.drop_last()) + match ws.last().badge_count {
            Some(c) => c as nat,
            None => 0nat,
        }
    }
}

/// The badge of a group of windows: the sum of their counts, shown only
/// when positive.
pub open spec fn aggregated_badge(ws: Seq<WindowStateView>) -> Option<u32> {
    if badge_total(ws) > 0 {
        Some(badge_total(ws) as u32)
    } else {
        None
    }
}

/// The tooltip of an item: its label, then on a second line `Launching...`
/// or `Launch` for an item without windows, the title of its only window
/// (`Running` when untitled), or the number of its windows.
pub open spec fn tooltip_text(label: Seq<char>, ws: Seq<WindowStateView>, launching: bool) -> Seq<char> {
    if ws.len() == 0 {
        if launching {
            label + "\nLaunching..."@
        } else {
            label + "\nLaunch"@
        }
    } else if ws.len() == 1 {
        label + "\n"@ + match ws[0].title {
            Some(t) => t,
            None => "Running"@,
        }
    } else {
        label + "\n"@ + decimal(ws.len()) + " windows"@
    }
}

/// The item of a catalog application.
pub open spec fn known_item(app: AppRecordView, ws: Seq<WindowStateView>, pinned: bool, launching: bool) -> DockItemView {
    DockItemView {
        label: app.name,
        tooltip: tooltip_text(app.name, ws, launching),
        app: Some(app),
        windows: ws,
        pinned,
        active: any_active(ws),
        launching,
        badge_count: aggregated_badge(ws),
    }
}

/// The item of windows that belong to no catalog application.
pub open spec fn unknown_item(label: Seq<char>, ws: Seq<WindowStateView>) -> DockItemView {
    DockItemView {
        label,
        tooltip: tooltip_text(label, ws, false),
        app: None,
        windows: ws,
        pinned: false,
        active: any_active(ws),
        launching: false,
        badge_count: aggregated_badge(ws),
    }
}

proof fn lemma_badge_total_prefix(ws: Seq<WindowStateView>, k: int)
    requires
        0 <= k <= ws.len(),
    ensures
        badge_total(ws.take(k)) <= badge_total(ws),
    decreases ws.len() - k,
{
    if k < ws.len() {
        lemma_badge_total_prefix(ws, k + 1);
        assert(ws.take(k + 1).drop_last() == ws.take(k));
    } else {
        assert(ws.take(k) == ws);
    }
}

/// The badge of a group of windows (see [`aggregated_badge`]).
pub fn aggregate_badges(windows: &Vec<WindowState>) -> (r: Option<u32>)
    requires
        badge_total(windows_view(windows@)) <= u32::MAX,
    ensures
        r == aggregated_badge(windows_view(windows@)),
{
    let ghost wv = windows_view(windows@);
    let mut total: u32 = 0;
    let mut i: usize = 0;
    while i < windows.len()
        invariant
            i <= windows.len(),
            wv == windows_view(windows@),
            badge_total(wv) <= u32::MAX,
            total as nat == badge_total(wv.take(i as int)),
        decreases windows.len() - i,
    {
        proof {
            lemma_badge_total_prefix(wv, i + 1);
            assert(wv.take(i + 1).drop_last() == wv.take(i as int));
            assert(wv.take(i + 1).last() == windows@[i as int]@);
        }
        match windows[i].badge_count {
            Some(c) => {
                total = total + c;
            },
            None => {},
        }
        i = i + 1;
    }
    assert(wv.take(windows.len() as int) == wv);
    if total > 0 {
        Some(total)
    } else {
        None
    }
}

/// Whether any window is the focused one.
pub fn has_active(windows: &Vec<WindowState>) -> (r: bool)
    ensures
        r == any_active(windows_view(windows@)),
{
    let ghost wv = windows_view(windows@);
    let mut i: usize = 0;
    while i < windows.len()
        invariant
            i <= windows.len(),
            wv == windows_view(windows@),
            forall|j: int| 0 <= j < i ==> !(#[trigger] wv[j]).active,
        decreases windows.len() - i,
    {
        if windows[i].active {
            assert(wv[i as int].active);
            return true;
        }
        i = i + 1;
    }
    false
}

/// The tooltip of an item (see [`tooltip_text`]).
pub fn tooltip_for(label: &str, windows: &Vec<WindowState>, launching: bool) -> (r: String)
    ensures
        r@ == tooltip_text(label@, windows_view(windows@), launching),
{
    let n = windows.len();
    if n == 0 {
        if launching {
            concat_str(label, "\nLaunching...")
        } else {
            concat_str(label, "\nLaunch")
        }
    } else if n == 1 {
        let head = concat_str(label, "\n");
        match &windows[0].title {
            Some(t) => concat_str(head.as_str(), t.as_str()),
            None => concat_str(head.as_str(), "Running"),
        }
    } else {
        let head = concat_str(label, "\n");
        let count = u64_to_decimal(n as u64);
        let with_count = concat_str(head.as_str(), count.as_str());
        concat_str(with_count.as_str(), " windows")
    }
}

/// The item of a catalog application (see [`known_item`]).
pub fn build_known_item(app: AppRecord, windows: Vec<WindowState>, pinned: bool, launching: bool) -> (r: DockItem)
    requires
        badge_total(windows_view(windows@)) <= u32::MAX,
    ensures
        r@ == known_item(app@, windows_view(windows@), pinned, launching),
{
    let active = has_active(&windows);
    let tooltip = tooltip_for(app.name.as_str(), &windows, launching);
    let badge_count = aggregate_badges(&windows);
    DockItem { label: app.name.clone(), tooltip, app: Some(app), windows, pinned, active, launching, badge_count }
}

/// The item of windows that belong to no catalog application (see
/// [`unknown_item`]).
pub fn build_unknown_item(label: String, windows: Vec<WindowState>) -> (r: DockItem)
    requires
        badge_total(windows_view(windows@)) <= u32::MAX,
    ensures
        r@ == unknown_item(label@, windows_view(windows@)),
{
    let active = has_active(&windows);
    let tooltip = tooltip_for(label.as_str(), &windows, false);
    let badge_count = aggregate_badges(&windows);
    DockItem { label, tooltip, app: None, windows, pinned: false, active, launching: false, badge_count }
}

// ---------------------------------------------------------------------------
// Pins
// ---------------------------------------------------------------------------

/// The stored pins made canonical: each resolved to its catalog id, those
/// that resolve to nothing dropped, and only the first of several pins that
/// resolve to the same application kept.
pub open spec fn sanitized(v: CatalogView, pins: Seq<Seq<char>>) -> Seq<Seq<char>>
    decreases pins.len(),
{
    if pins.len() == 0 {
        Seq::empty()
    } else {
        let s = sanitized(v, pins.drop_last());
        match resolve(v, pins.last()) {
            Some(c) => if s.contains(c) {
                s
            } else {
                s.push(c)
            },
            None => s,
        }
    }
}

/// Makes stored pins canonical (see [`sanitized`]).
pub fn sanitize_pins(catalog: &AppCatalog, pins: Vec<String>) -> (r: Vec<String>)
    ensures
        str_views(r@) == sanitized(catalog@, str_views(pins@)),
{
    let ghost pv = str_views(pins@);
    let mut out: Vec<String> = Vec::new();
    let mut i: usize = 0;
    assert(pv.take(0) =~= Seq::<Seq<char>>::empty());
    while i < pins.len()
        invariant
            i <= pins.len(),
            pv == str_views(pins@),
            str_views(out@) == sanitized(catalog@, pv.take(i as int)),
        decreases pins.len() - i,
    {
        assert(pv.take(i + 1).drop_last() == pv.take(i as int));
        assert(pv.take(i + 1).last() == pins@[i as int]@);
        match catalog.resolve_id(pins[i].as_str()) {
            Some(id) => {
                proof {
                    crate::pins::lemma_position_of_bounds(str_views(out@), id@);
                }
                if pin_position(&out, id.as_str()).is_none() {
                    let ghost before = out@;
                    out.push(id);
                    assert(str_views(out@) == str_views(before).push(out@.last()@));
                }
            },
            None => {},
        }
        i = i + 1;
    }
    assert(pv.take(pins.len() as int) == pv);
    out
}

/// Sanitized pins name distinct catalog applications.
pub proof fn law_sanitized_pins_are_distinct_catalog_ids(v: CatalogView, pins: Seq<Seq<char>>)
    requires
        catalog_wf(v),
    ensures
        sanitized(v, pins).no_duplicates(),
        forall|i: int|
            0 <= i < sanitized(v, pins).len() ==> resolve(v, #[trigger] sanitized(v, pins)[i]) == Some(
                sanitized(v, pins)[i],
            ),
    decreases pins.len(),
{
    if pins.len() > 0 {
        law_sanitized_pins_are_distinct_catalog_ids(v, pins.drop_last());
        if let Some(c) = resolve(v, pins.last()) {
            law_resolve_lands_in_catalog(v, pins.last());
            law_resolve_catalog_id(v, c);
        }
    }
}

proof fn lemma_sanitized_fixed_point(v: CatalogView, pins: Seq<Seq<char>>)
    requires
        pins.no_duplicates(),
        forall|i: int| 0 <= i < pins.len() ==> resolve(v, #[trigger] pins[i]) == Some(pins[i]),
    ensures
        sanitized(v, pins) == pins,
    decreases pins.len(),
{
    if pins.len() > 0 {
        let init = pins.drop_last();
        assert forall|i: int| 0 <= i < init.len() implies resolve(v, #[trigger] init[i]) == Some(init[i]) by {
            assert(init[i] == pins[i]);
        }
        lemma_sanitized_fixed_point(v, init);
        assert(resolve(v, pins.last()) == Some(pins[pins.len() - 1]));
        assert(!init.contains(pins.last()));
        assert(init.push(pins.last()) == pins);
    }
}

/// Sanitizing is idempotent: sanitized pins are already sanitized.
pub proof fn law_sanitize_idempotent(v: CatalogView, pins: Seq<Seq<char>>)
    requires
        catalog_wf(v),
    ensures
        sanitized(v, sanitized(v, pins)) == sanitized(v, pins),
{
    law_sanitized_pins_are_distinct_catalog_ids(v, pins);
    lemma_sanitized_fixed_point(v, sanitized(v, pins));
}

// ---------------------------------------------------------------------------
// Launch feedback and the dock state
// ---------------------------------------------------------------------------

#[verifier::external_type_specification]
#[verifier::external_body]
pub struct ExInstant(std::time::Instant);

/// `Instant::now`: a reading of the monotonic clock; nothing is claimed of
/// its value.
#[verifier::external_body]
fn instant_now() -> std::time::Instant {
    std::time::Instant::now()
}

/// `Instant::elapsed`, in whole milliseconds: the time since `start`;
/// nothing is claimed of its value.
#[verifier::external_body]
fn elapsed_millis(start: &std::time::Instant) -> u128 {
    start.elapsed().as_millis()
}

/// How long an application counts as launching, in milliseconds.
pub const LAUNCH_TIMEOUT_MS: u128 = 6000;

/// The elements of `es` whose flag in `keep` is set, in order.
pub open spec fn kept_where<A>(es: Seq<A>, keep: Seq<bool>) -> Seq<A>
    decreases es.len(),
{
    if es.len() == 0 {
        Seq::empty()
    } else {
        let rest = kept_where(es.drop_last(), keep.take(es.len() - 1));
        if keep[es.len() - 1] {
            rest.push(es.last())
        } else {
            rest
        }
    }
}

/// The flags of the readings below the launch timeout.
pub open spec fn below_timeout(elapsed: Seq<u128>) -> Seq<bool> {
    Seq::new(elapsed.len(), |i: int| elapsed[i] < LAUNCH_TIMEOUT_MS)
}

/// The launch entries (or ids) that stay, given how long each has run:
/// those below the launch timeout, in order.
pub open spec fn still_launching<A>(es: Seq<A>, elapsed: Seq<u128>) -> Seq<A> {
    kept_where(es, below_timeout(elapsed))
}

/// The flags of the launching ids with no open window.
pub open spec fn without_window(v: CatalogView, ws: Seq<WindowStateView>, ids: Seq<Seq<char>>) -> Seq<bool> {
    Seq::new(ids.len(), |i: int| !has_window_of(v, ws, ids[i]))
}

/// An element stays exactly when it is at a flagged place.
pub proof fn lemma_kept_where_contains<A>(es: Seq<A>, keep: Seq<bool>, x: A)
    requires
        keep.len() == es.len(),
    ensures
        kept_where(es, keep).contains(x) <==> exists|i: int| 0 <= i < es.len() && keep[i] && es[i] == x,
    decreases es.len(),
{
    if es.len() > 0 {
        let n = es.len() - 1;
        let init = es.drop_last();
        let k = keep.take(n);
        let r = kept_where(init, k);
        lemma_kept_where_contains(init, k, x);
        if kept_where(es, keep).contains(x) {
            let j = choose|j: int| 0 <= j < kept_where(es, keep).len() && kept_where(es, keep)[j] == x;
            if j < r.len() {
                assert(r[j] == x);
                let m = choose|m: int| 0 <= m < init.len() && k[m] && init[m] == x;
                assert(es[m] == x && keep[m]);
            } else {
                assert(keep[n] && es[n] == x);
            }
        }
        if exists|i: int| 0 <= i < es.len() && keep[i] && es[i] == x {
            let i = choose|i: int| 0 <= i < es.len() && keep[i] && es[i] == x;
            if i < n {
                assert(k[i] && init[i] == x);
                let j = choose|j: int| 0 <= j < r.len() && r[j] == x;
                if keep[n] {
                    assert(r.push(es.last())[j] == x);
                }
            } else {
                assert(r.push(es.last())[r.len() as int] == x);
            }
        }
    }
}

/// Keeping some elements of a list without duplicates leaves none.
pub proof fn lemma_kept_where_no_duplicates<A>(es: Seq<A>, keep: Seq<bool>)
    requires
        keep.len() == es.len(),
        es.no_duplicates(),
    ensures
        kept_where(es, keep).no_duplicates(),
    decreases es.len(),
{
    if es.len() > 0 {
        let n = es.len() - 1;
        let init = es.drop_last();
        let k = keep.take(n);
        lemma_kept_where_no_duplicates(init, k);
        if keep[n] {
            let r = kept_where(init, k);
            lemma_kept_where_contains(init, k, es[n]);
            if r.contains(es[n]) {
                let m = choose|m: int| 0 <= m < init.len() && k[m] && init[m] == es[n];
                assert(es[m] == es[n]);
            }
            assert forall|i: int, j: int| 0 <= i < j < r.push(es[n]).len() implies r.push(es[n])[i] != r.push(
                es[n],
            )[j] by {
                if j == r.len() {
                    assert(r[i] != es[n]);
                }
            }
        }
    }
}

/// An application launched from the dock whose window has not appeared yet.
pub struct LaunchEntry {
    pub app_id: String,
    pub started_at: std::time::Instant,
}

/// The ids of a list of launch entries.
pub open spec fn launch_ids(l: Seq<LaunchEntry>) -> Seq<Seq<char>> {
    l.map_values(|e: LaunchEntry| e.app_id@)
}

/// The launch entries as values: each id with its start time.
pub open spec fn launch_views(l: Seq<LaunchEntry>) -> Seq<(Seq<char>, std::time::Instant)> {
    l.map_values(|e: LaunchEntry| (e.app_id@, e.started_at))
}

/// The ids of launch entries given as values.
pub open spec fn entry_ids(es: Seq<(Seq<char>, std::time::Instant)>) -> Seq<Seq<char>> {
    es.map_values(|e: (Seq<char>, std::time::Instant)| e.0)
}

proof fn lemma_entry_ids(l: Seq<LaunchEntry>)
    ensures
        entry_ids(launch_views(l)) == launch_ids(l),
{
    assert(entry_ids(launch_views(l)) =~= launch_ids(l));
}

/// Whether some open window belongs to the catalog application `id`.
pub open spec fn has_window_of(v: CatalogView, ws: Seq<WindowStateView>, id: Seq<char>) -> bool {
    exists|i: int| 0 <= i < ws.len() && canonical_of(v, #[trigger] ws[i]) == Some(id)
}

/// The applications being launched, in the order they were first launched,
/// each with its start time; no id occurs twice.
pub struct Launches {
    entries: Vec<LaunchEntry>,
}

impl View for Launches {
    type V = Seq<(Seq<char>, std::time::Instant)>;

    closed spec fn view(&self) -> Seq<(Seq<char>, std::time::Instant)> {
        launch_views(self.entries@)
    }
}

impl Launches {
    /// No id is launching twice.
    #[verifier::type_invariant]
    spec fn ids_distinct(self) -> bool {
        launch_ids(self.entries@).no_duplicates()
    }

    /// Nothing launching.
    pub fn new() -> (r: Self)
        ensures
            r@ == Seq::<(Seq<char>, std::time::Instant)>::empty(),
    {
        let r = Launches { entries: Vec::new() };
        assert(r@ =~= Seq::<(Seq<char>, std::time::Instant)>::empty());
        r
    }

    /// The ids never repeat.
    pub fn ids_are_distinct(&self)
        ensures
            entry_ids(self@).no_duplicates(),
    {
        proof {
            use_type_invariant(self);
            lemma_entry_ids(self.entries@);
        }
    }

    /// The number of entries.
    pub fn len(&self) -> (r: usize)
        ensures
            r == self@.len(),
    {
        self.entries.len()
    }

    /// The entry at `i`.
    pub fn entry(&self, i: usize) -> (r: &LaunchEntry)
        requires
            i < self@.len(),
        ensures
            (r.app_id@, r.started_at) == self@[i as int],
    {
        &self.entries[i]
    }

    /// Where `app_id` is, if it is launching.
    fn position(&self, app_id: &str) -> (r: Option<usize>)
        ensures
            match r {
                Some(i) => i < self@.len() && i as int == position_of(entry_ids(self@), app_id@),
                None => !entry_ids(self@).contains(app_id@),
            },
    {
        let ghost v = entry_ids(self@);
        proof {
            lemma_entry_ids(self.entries@);
        }
        let mut i: usize = 0;
        while i < self.entries.len()
            invariant
                i <= self.entries.len(),
                v == entry_ids(self@),
                v == launch_ids(self.entries@),
                forall|j: int| 0 <= j < i ==> v[j] != app_id@,
            decreases self.entries.len() - i,
        {
            if str_eq(self.entries[i].app_id.as_str(), app_id) {
                proof {
                    crate::pins::lemma_position_of_first(v, app_id@, i as int);
                }
                return Some(i);
            }
            i = i + 1;
        }
        None
    }

    /// Starts `app_id`'s timer at `now`: in place when it is launching,
    /// otherwise as a new entry at the end.
    fn mark(&mut self, app_id: &str, now: std::time::Instant)
        ensures
            ({
                let i = position_of(entry_ids(old(self)@), app_id@);
                let o = old(self)@;
                let f = final(self)@;
                &&& i >= 0 ==> f == o.update(i, (app_id@, now))
                &&& i < 0 ==> f == o.push((app_id@, now))
            }),
    {
        proof {
            use_type_invariant(&*self);
            lemma_entry_ids(self.entries@);
        }
        let ghost before = launch_ids(self.entries@);
        let ghost entries = self@;
        match self.position(app_id) {
            Some(i) => {
                proof {
                    crate::pins::lemma_position_of_bounds(before, app_id@);
                }
                let mut es: Vec<LaunchEntry> = Vec::new();
                std::mem::swap(&mut es, &mut self.entries);
                let id = es[i].app_id.clone();
                es.set(i, LaunchEntry { app_id: id, started_at: now });
                assert(launch_ids(es@) =~= before);
                assert(launch_views(es@) =~= entries.update(i as int, (app_id@, now)));
                self.entries = es;
            },
            None => {
                proof {
                    crate::pins::lemma_position_of_absent(before, app_id@);
                    let n = before.push(app_id@);
                    assert forall|x: int, y: int| 0 <= x < y < n.len() implies n[x] != n[y] by {
                        if y == before.len() {
                            assert(n[x] == before[x]);
                        }
                    }
                }
                let mut es: Vec<LaunchEntry> = Vec::new();
                std::mem::swap(&mut es, &mut self.entries);
                es.push(LaunchEntry { app_id: crate::text::owned(app_id), started_at: now });
                assert(launch_ids(es@) =~= before.push(app_id@));
                assert(launch_views(es@) =~= entries.push((app_id@, now)));
                self.entries = es;
            },
        }
    }

    /// Removes the entry at `i`.
    fn remove_at(&mut self, i: usize)
        requires
            i < old(self)@.len(),
        ensures
            final(self)@ == old(self)@.remove(i as int),
    {
        proof {
            use_type_invariant(&*self);
        }
        let ghost before = launch_ids(self.entries@);
        let ghost entries = self@;
        proof {
            let r = before.remove(i as int);
            assert forall|x: int, y: int| 0 <= x < y < r.len() implies r[x] != r[y] by {
                let xo = if x < i { x } else { x + 1 };
                let yo = if y < i { y } else { y + 1 };
                assert(r[x] == before[xo] && r[y] == before[yo]);
            }
        }
        let mut es: Vec<LaunchEntry> = Vec::new();
        std::mem::swap(&mut es, &mut self.entries);
        es.remove(i);
        assert(launch_ids(es@) =~= before.remove(i as int));
        assert(launch_views(es@) =~= entries.remove(i as int));
        self.entries = es;
    }

    /// Keeps the entries whose flag is set, in order.
    fn retain(&mut self, keep: &Vec<bool>)
        requires
            keep.len() == old(self)@.len(),
        ensures
            final(self)@ == kept_where(old(self)@, keep@),
            entry_ids(final(self)@) == kept_where(entry_ids(old(self)@), keep@),
    {
        proof {
            use_type_invariant(&*self);
            lemma_entry_ids(self.entries@);
        }
        let ghost orig = launch_ids(self.entries@);
        let ghost ents = self@;
        let ghost kf = keep@;
        let mut es: Vec<LaunchEntry> = Vec::new();
        std::mem::swap(&mut es, &mut self.entries);
        let mut i: usize = 0;
        let mut k: usize = 0;
        assert(orig.take(0) =~= Seq::<Seq<char>>::empty());
        assert(orig.skip(0) =~= orig);
        assert(ents.take(0) =~= Seq::<(Seq<char>, std::time::Instant)>::empty());
        assert(ents.skip(0) =~= ents);
        while k < keep.len()
            invariant
                k <= keep.len(),
                kf == keep@,
                keep.len() == orig.len(),
                ents.len() == orig.len(),
                kept_where(orig.take(k as int), kf.take(k as int)).len() == i,
                kept_where(ents.take(k as int), kf.take(k as int)).len() == i,
                es.len() == i + (orig.len() - k),
                launch_ids(es@) == kept_where(orig.take(k as int), kf.take(k as int)) + orig.skip(k as int),
                launch_views(es@) == kept_where(ents.take(k as int), kf.take(k as int)) + ents.skip(k as int),
            decreases keep.len() - k,
        {
            let ghost kept = kept_where(orig.take(k as int), kf.take(k as int));
            let ghost kept_e = kept_where(ents.take(k as int), kf.take(k as int));
            let ghost cur = launch_ids(es@);
            let ghost cur_e = launch_views(es@);
            let ghost before = es@;
            assert(orig.take(k + 1).drop_last() =~= orig.take(k as int));
            assert(ents.take(k + 1).drop_last() =~= ents.take(k as int));
            assert(kf.take(k + 1).take(k as int) =~= kf.take(k as int));
            assert(orig.take(k + 1).last() == orig[k as int]);
            assert(ents.take(k + 1).last() == ents[k as int]);
            assert(cur[i as int] == orig[k as int]);
            assert(cur_e[i as int] == ents[k as int]);
            if !keep[k] {
                es.remove(i);
                assert(launch_ids(es@) =~= launch_ids(before).remove(i as int));
                assert(launch_views(es@) =~= launch_views(before).remove(i as int));
                assert(cur.remove(i as int) =~= kept + orig.skip(k + 1));
                assert(cur_e.remove(i as int) =~= kept_e + ents.skip(k + 1));
            } else {
                i = i + 1;
                assert(cur =~= kept.push(orig[k as int]) + orig.skip(k + 1));
                assert(cur_e =~= kept_e.push(ents[k as int]) + ents.skip(k + 1));
            }
            k = k + 1;
        }
        assert(orig.take(orig.len() as int) =~= orig);
        assert(ents.take(ents.len() as int) =~= ents);
        assert(kf.take(kf.len() as int) =~= kf);
        assert(orig.skip(orig.len() as int) =~= Seq::<Seq<char>>::empty());
        assert(ents.skip(ents.len() as int) =~= Seq::<(Seq<char>, std::time::Instant)>::empty());
        assert(launch_ids(es@) =~= kept_where(orig, kf));
        assert(launch_views(es@) =~= kept_where(ents, kf));
        proof {
            lemma_kept_where_no_duplicates(orig, kf);
            lemma_entry_ids(es@);
        }
        self.entries = es;
    }
}

/// What the dock knows: the catalog, the pins, the open windows, the
/// applications being launched, and the icon size.
pub struct DockState {
    pub catalog: AppCatalog,
    pub pins: Vec<String>,
    pub windows: Vec<WindowState>,
    pub launching: Launches,
    pub icon_size: i32,
}

impl DockState {
    /// The ids of the applications being launched.
    pub open spec fn launching_ids(&self) -> Seq<Seq<char>> {
        entry_ids(self.launching@)
    }

    /// The applications being launched, each with its start time.
    pub open spec fn launch_entries(&self) -> Seq<(Seq<char>, std::time::Instant)> {
        self.launching@
    }

    /// A dock with these pins, no windows and nothing launching.
    pub fn new(catalog: AppCatalog, pins: Vec<String>, icon_size: i32) -> (r: Self)
        ensures
            r.catalog@ == catalog@,
            r.pins@ == pins@,
            r.windows@.len() == 0,
            r.launching_ids().len() == 0,
            r.icon_size == icon_size,
    {
        DockState { catalog, pins, windows: Vec::new(), launching: Launches::new(), icon_size }
    }

    /// Records that `app_id` was just launched: when it was already
    /// launching its entry restarts its timer in place, otherwise a new entry
    /// is added at the end. The other entries are unchanged.
    pub fn mark_launching(&mut self, app_id: &str)
        ensures
            final(self).launching_ids().to_set() == old(self).launching_ids().to_set().insert(app_id@),
            ({
                let i = position_of(old(self).launching_ids(), app_id@);
                let o = old(self).launch_entries();
                let f = final(self).launch_entries();
                &&& i >= 0 ==> f.len() == o.len() && f[i].0 == app_id@ && forall|j: int|
                    0 <= j < o.len() && j != i ==> #[trigger] f[j] == o[j]
                &&& i < 0 ==> f.len() == o.len() + 1 && f.drop_last() == o && f.last().0 == app_id@
            }),
            final(self).launching_ids().no_duplicates(),
            final(self).catalog@ == old(self).catalog@,
            final(self).pins@ == old(self).pins@,
            final(self).windows@ == old(self).windows@,
    {
        let now = instant_now();
        let ghost before = self.launching_ids();
        let ghost o = self.launch_entries();
        proof {
            crate::pins::lemma_position_of_bounds(before, app_id@);
        }
        self.launching.mark(app_id, now);
        proof {
            let i = position_of(before, app_id@);
            if i >= 0 {
                assert(self.launching_ids() =~= before);
                assert(before.to_set().insert(app_id@) =~= before.to_set());
            } else {
                assert(self.launching_ids() =~= before.push(app_id@));
                assert(before.push(app_id@).to_set() =~= before.to_set().insert(app_id@));
                assert(self.launch_entries().drop_last() =~= o);
            }
        }
        self.launching.ids_are_distinct();
    }

    /// Whether `app_id` is being launched.
    pub fn is_launching(&self, app_id: &str) -> (r: bool)
        ensures
            r == self.launching_ids().contains(app_id@),
    {
        let r = self.launching.position(app_id);
        proof {
            crate::pins::lemma_position_of_bounds(self.launching_ids(), app_id@);
        }
        r.is_some()
    }

    /// Stops the launch feedback of `app_id`; returns whether it was
    /// launching. Its entry goes; the others stay as they were.
    pub fn expire_launch(&mut self, app_id: &str) -> (removed: bool)
        ensures
            removed == old(self).launching_ids().contains(app_id@),
            removed ==> final(self).launch_entries() == old(self).launch_entries().remove(
                position_of(old(self).launching_ids(), app_id@),
            ),
            removed ==> final(self).launching_ids() == old(self).launching_ids().remove(
                position_of(old(self).launching_ids(), app_id@),
            ),
            !removed ==> final(self).launch_entries() == old(self).launch_entries(),
            !final(self).launching_ids().contains(app_id@),
            final(self).launching_ids().no_duplicates(),
            final(self).catalog@ == old(self).catalog@,
            final(self).pins@ == old(self).pins@,
            final(self).windows@ == old(self).windows@,
    {
        let ghost before = self.launching_ids();
        let ghost entries = self.launch_entries();
        self.launching.ids_are_distinct();
        match self.launching.position(app_id) {
            Some(i) => {
                proof {
                    crate::pins::lemma_position_of_bounds(before, app_id@);
                }
                self.launching.remove_at(i);
                assert(self.launching_ids() =~= before.remove(i as int));
                proof {
                    let r = before.remove(i as int);
                    if r.contains(app_id@) {
                        let j = choose|j: int| 0 <= j < r.len() && r[j] == app_id@;
                        let jo = if j < i { j } else { j + 1 };
                        assert(before[jo] == app_id@);
                    }
                }
                self.launching.ids_are_distinct();
                true
            },
            None => false,
        }
    }

    /// Keeps the launch entries whose flag is set, in order, each with its
    /// start time.
    fn retain_launching(&mut self, keep: &Vec<bool>)
        requires
            keep.len() == old(self).launch_entries().len(),
        ensures
            final(self).launch_entries() == kept_where(old(self).launch_entries(), keep@),
            final(self).launching_ids() == kept_where(old(self).launching_ids(), keep@),
            final(self).launching_ids().no_duplicates(),
            final(self).catalog@ == old(self).catalog@,
            final(self).pins@ == old(self).pins@,
            final(self).windows@ == old(self).windows@,
    {
        self.launching.retain(keep);
        self.launching.ids_are_distinct();
    }

    /// Drops the launch feedback that has run for the launch timeout, given
    /// the time each entry has been running (`elapsed_ms[i]` for entry `i`):
    /// the entries below the timeout stay, in order, with their start times.
    pub fn drop_expired(&mut self, elapsed_ms: &Vec<u128>)
        requires
            elapsed_ms.len() == old(self).launch_entries().len(),
        ensures
            final(self).launch_entries() == still_launching(old(self).launch_entries(), elapsed_ms@),
            final(self).launching_ids() == still_launching(old(self).launching_ids(), elapsed_ms@),
            final(self).launching_ids().no_duplicates(),
            final(self).catalog@ == old(self).catalog@,
            final(self).pins@ == old(self).pins@,
            final(self).windows@ == old(self).windows@,
    {
        let mut keep: Vec<bool> = Vec::new();
        let mut k: usize = 0;
        while k < elapsed_ms.len()
            invariant
                k <= elapsed_ms.len(),
                keep@ == below_timeout(elapsed_ms@).take(k as int),
            decreases elapsed_ms.len() - k,
        {
            keep.push(elapsed_ms[k] < LAUNCH_TIMEOUT_MS);
            k = k + 1;
            assert(keep@ =~= below_timeout(elapsed_ms@).take(k as int));
        }
        assert(keep@ =~= below_timeout(elapsed_ms@));
        self.retain_launching(&keep);
    }

    /// Drops the launch feedback that has run for the launch timeout. How
    /// long each entry has run is read from the clock, so which entries go
    /// is not stated: whatever it reads, the result is what
    /// [`DockState::drop_expired`] leaves for some reading per entry.
    pub fn prune_launching(&mut self)
        ensures
            exists|el: Seq<u128>|
                el.len() == old(self).launch_entries().len() && #[trigger] still_launching(
                    old(self).launch_entries(),
                    el,
                ) == final(self).launch_entries() && still_launching(old(self).launching_ids(), el)
                    == final(self).launching_ids(),
            forall|x: Seq<char>| final(self).launching_ids().contains(x) ==> old(self).launching_ids().contains(x),
            final(self).launching_ids().no_duplicates(),
            final(self).catalog@ == old(self).catalog@,
            final(self).pins@ == old(self).pins@,
            final(self).windows@ == old(self).windows@,
    {
        let mut elapsed: Vec<u128> = Vec::new();
        let mut i: usize = 0;
        let n = self.launching.len();
        while i < n
            invariant
                i <= n,
                n == self.launch_entries().len(),
                elapsed.len() == i,
            decreases n - i,
        {
            elapsed.push(elapsed_millis(&self.launching.entry(i).started_at));
            i = i + 1;
        }
        let ghost before = self.launching_ids();
        self.drop_expired(&elapsed);
        proof {
            assert forall|x: Seq<char>| self.launching_ids().contains(x) implies before.contains(x) by {
                lemma_kept_where_contains(before, below_timeout(elapsed@), x);
            }
        }
    }

    /// Whether some open window belongs to the catalog application `id`.
    fn window_open_for(&self, id: &str) -> (r: bool)
        ensures
            r == has_window_of(self.catalog@, windows_view(self.windows@), id@),
    {
        let ghost wv = windows_view(self.windows@);
        let mut i: usize = 0;
        while i < self.windows.len()
            invariant
                i <= self.windows.len(),
                wv == windows_view(self.windows@),
                forall|j: int| 0 <= j < i ==> canonical_of(self.catalog@, #[trigger] wv[j]) != Some(id@),
            decreases self.windows.len() - i,
        {
            let canonical = match &self.windows[i].app_id {
                Some(a) => self.catalog.resolve_id(a.as_str()),
                None => None,
            };
            match canonical {
                Some(c) => {
                    if str_eq(c.as_str(), id) {
                        assert(canonical_of(self.catalog@, wv[i as int]) == Some(id@));
                        return true;
                    }
                },
                None => {},
            }
            i = i + 1;
        }
        false
    }

    /// Ends the launch feedback of every application that now has a window.
    pub fn reconcile_launching(&mut self)
        ensures
            final(self).launch_entries() == kept_where(
                old(self).launch_entries(),
                without_window(old(self).catalog@, windows_view(old(self).windows@), old(self).launching_ids()),
            ),
            forall|x: Seq<char>|
                final(self).launching_ids().contains(x) <==> old(self).launching_ids().contains(x) && !has_window_of(
                    old(self).catalog@,
                    windows_view(old(self).windows@),
                    x,
                ),
            final(self).launching_ids().no_duplicates(),
            final(self).catalog@ == old(self).catalog@,
            final(self).pins@ == old(self).pins@,
            final(self).windows@ == old(self).windows@,
    {
        let ghost before = self.launching_ids();
        let ghost cat = self.catalog@;
        let ghost wv = windows_view(self.windows@);
        let ghost flags = without_window(cat, wv, before);
        let mut keep: Vec<bool> = Vec::new();
        let mut k: usize = 0;
        let n = self.launching.len();
        while k < n
            invariant
                k <= n,
                n == self.launch_entries().len(),
                before == self.launching_ids(),
                cat == self.catalog@,
                wv == windows_view(self.windows@),
                flags == without_window(cat, wv, before),
                keep@ == flags.take(k as int),
            decreases n - k,
        {
            let open = self.window_open_for(self.launching.entry(k).app_id.as_str());
            keep.push(!open);
            k = k + 1;
            assert(keep@ =~= flags.take(k as int));
        }
        assert(keep@ =~= flags);
        self.retain_launching(&keep);
        proof {
            assert forall|x: Seq<char>|
                self.launching_ids().contains(x) <==> before.contains(x) && !has_window_of(cat, wv, x) by {
                lemma_kept_where_contains(before, flags, x);
                if before.contains(x) && !has_window_of(cat, wv, x) {
                    let j = choose|j: int| 0 <= j < before.len() && before[j] == x;
                    assert(flags[j]);
                }
            }
        }
    }
}

// ---------------------------------------------------------------------------
// Collecting the dock's items
// ---------------------------------------------------------------------------

/// The windows of the group with this key (none when there is no such group).
pub open spec fn group_lookup(g: Seq<GroupView>, key: Seq<char>) -> Seq<WindowStateView> {
    let i = position_of(group_keys(g), key);
    if i < 0 {
        Seq::empty()
    } else {
        g[i].1
    }
}

/// The groups without the one with this key.
pub open spec fn group_remove(g: Seq<GroupView>, key: Seq<char>) -> Seq<GroupView> {
    let i = position_of(group_keys(g), key);
    if i < 0 {
        g
    } else {
        g.remove(i)
    }
}

/// The record of the application that `id` stands for.
pub open spec fn app_for(v: CatalogView, id: Seq<char>) -> Option<AppRecordView> {
    match resolve(v, id) {
        Some(c) => lookup_app(v, c),
        None => None,
    }
}

/// The pinned items, one per pin that stands for a catalog application, in
/// pin order; each takes the windows grouped under the pin itself. Returns
/// the items and the groups no pin took.
pub open spec fn pinned_pass(
    v: CatalogView,
    launching: Seq<Seq<char>>,
    pins: Seq<Seq<char>>,
    groups: Seq<GroupView>,
) -> (Seq<DockItemView>, Seq<GroupView>)
    decreases pins.len(),
{
    if pins.len() == 0 {
        (Seq::empty(), groups)
    } else {
        let prev = pinned_pass(v, launching, pins.drop_last(), groups);
        let p = pins.last();
        match app_for(v, p) {
            Some(app) => (
                prev.0.push(known_item(app, group_lookup(prev.1, p), true, launching.contains(app.id))),
                group_remove(prev.1, p),
            ),
            None => prev,
        }
    }
}

/// The items of running catalog applications that are not pinned, in key order.
pub open spec fn running_known(v: CatalogView, launching: Seq<Seq<char>>, g: Seq<GroupView>) -> Seq<DockItemView> {
    g.filter_map(
        |e: GroupView|
            match app_for(v, e.0) {
                Some(app) => Some(known_item(app, e.1, false, launching.contains(app.id))),
                None => None,
            },
    )
}

/// The items of windows that belong to no catalog application, in key order.
pub open spec fn unknown_items(g: Seq<GroupView>) -> Seq<DockItemView> {
    g.map_values(|e: GroupView| unknown_item(e.0, e.1))
}

/// The sort keys of items: active items first, then by lowercase label.
pub open spec fn item_keys(items: Seq<DockItemView>) -> Seq<(bool, Seq<char>)> {
    items.map_values(|i: DockItemView| (!i.active, lowercased(i.label)))
}

/// The items stably sorted by [`item_keys`].
pub open spec fn sort_items(items: Seq<DockItemView>) -> Seq<DockItemView> {
    sorted_order(item_keys(items), items.len()).map_values(|k: usize| items[k as int])
}

/// What the dock shows: the pinned items, then the running items (catalog
/// applications first, unknown ones after, each part sorted with active
/// items first and then by lowercase label).
pub open spec fn collected(
    v: CatalogView,
    launching: Seq<Seq<char>>,
    pins: Seq<Seq<char>>,
    ws: Seq<WindowStateView>,
) -> (Seq<DockItemView>, Seq<DockItemView>) {
    let pass = pinned_pass(v, launching, pins, grouped(v, true, ws));
    (pass.0, sort_items(running_known(v, launching, pass.1)) + sort_items(unknown_items(grouped(v, false, ws))))
}

/// Every group's badge total is at most `t`.
pub open spec fn groups_bounded(g: Seq<GroupView>, t: nat) -> bool {
    forall|i: int| 0 <= i < g.len() ==> badge_total(#[trigger] g[i].1) <= t
}

proof fn lemma_badge_total_push(ws: Seq<WindowStateView>, w: WindowStateView)
    ensures
        badge_total(ws.push(w)) == badge_total(ws) + match w.badge_count {
            Some(c) => c as nat,
            None => 0nat,
        },
{
    assert(ws.push(w).drop_last() == ws);
}

/// No group holds more badges than all the windows together.
proof fn lemma_grouped_bounded(v: CatalogView, known: bool, ws: Seq<WindowStateView>)
    ensures
        groups_bounded(grouped(v, known, ws), badge_total(ws)),
    decreases ws.len(),
{
    if ws.len() > 0 {
        let init = ws.drop_last();
        let w = ws.last();
        lemma_grouped_bounded(v, known, init);
        lemma_badge_total_push(init, w);
        assert(init.push(w) == ws);
        let g = grouped(v, known, init);
        let add = match canonical_of(v, w) {
            Some(k) => known,
            None => !known,
        };
        if add {
            let key = match canonical_of(v, w) {
                Some(k) => k,
                None => fallback_key(w),
            };
            let i = position_of(group_keys(g), key);
            crate::pins::lemma_position_of_bounds(group_keys(g), key);
            let n = group_add(g, key, w);
            assert forall|j: int| 0 <= j < n.len() implies badge_total(#[trigger] n[j].1) <= badge_total(ws) by {
                if i >= 0 {
                    if j == i {
                        lemma_badge_total_push(g[i].1, w);
                    } else {
                        assert(n[j] == g[j]);
                    }
                } else {
                    let p = group_insert_pos(g, key);
                    lemma_group_insert_pos_bounds(g, key);
                    if j < p {
                        assert(n[j] == g[j]);
                    } else if j == p {
                        lemma_badge_total_push(Seq::empty(), w);
                        assert(seq![w] == Seq::<WindowStateView>::empty().push(w));
                    } else {
                        assert(n[j] == g[j - 1]);
                    }
                }
            }
        }
    }
}

proof fn lemma_group_insert_pos_bounds(g: Seq<GroupView>, key: Seq<char>)
    ensures
        0 <= group_insert_pos(g, key) <= g.len(),
    decreases g.len(),
{
    if g.len() > 0 && !lex_lt(key, g[0].0) {
        lemma_group_insert_pos_bounds(g.drop_first(), key);
    }
}

proof fn lemma_pinned_pass_bounded(
    v: CatalogView,
    launching: Seq<Seq<char>>,
    pins: Seq<Seq<char>>,
    groups: Seq<GroupView>,
    t: nat,
)
    requires
        groups_bounded(groups, t),
    ensures
        groups_bounded(pinned_pass(v, launching, pins, groups).1, t),
    decreases pins.len(),
{
    if pins.len() > 0 {
        lemma_pinned_pass_bounded(v, launching, pins.drop_last(), groups, t);
        let g = pinned_pass(v, launching, pins.drop_last(), groups).1;
        let i = position_of(group_keys(g), pins.last());
        crate::pins::lemma_position_of_bounds(group_keys(g), pins.last());
        if i >= 0 {
            assert forall|j: int| 0 <= j < g.remove(i).len() implies badge_total(#[trigger] g.remove(i)[j].1) <= t by {
                if j < i {
                    assert(g.remove(i)[j] == g[j]);
                } else {
                    assert(g.remove(i)[j] == g[j + 1]);
                }
            }
        }
    }
}

impl Clone for DockItem {
    fn clone(&self) -> (r: Self)
        ensures
            r@ == self@,
    {
        DockItem {
            label: self.label.clone(),
            tooltip: self.tooltip.clone(),
            app: match &self.app {
                Some(a) => Some(a.clone()),
                None => None,
            },
            windows: clone_windows(&self.windows),
            pinned: self.pinned,
            active: self.active,
            launching: self.launching,
            badge_count: self.badge_count,
        }
    }
}

/// Sorts items stably: active items first, then by lowercase label.
pub fn sort_dock_items(items: Vec<DockItem>) -> (r: Vec<DockItem>)
    ensures
        items_view(r@) == sort_items(items_view(items@)),
{
    let ghost iv = items_view(items@);
    let mut keys: Vec<SortKey> = Vec::new();
    let mut k: usize = 0;
    while k < items.len()
        invariant
            k <= items.len(),
            iv == items_view(items@),
            keys_view(keys@) == item_keys(iv).take(k as int),
        decreases items.len() - k,
    {
        let lower = to_lowercase(items[k].label.as_str());
        let ghost before = keys@;
        keys.push(SortKey { late: !items[k].active, text: chars_of(lower.as_str()) });
        assert(keys_view(keys@) == keys_view(before).push((!iv[k as int].active, lowercased(iv[k as int].label))));
        k = k + 1;
        assert(item_keys(iv).take(k as int) == item_keys(iv).take(k - 1).push(item_keys(iv)[k - 1]));
    }
    assert(item_keys(iv).take(items.len() as int) == item_keys(iv));
    let order = stable_order(&keys);
    let ghost target = sort_items(iv);
    let mut out: Vec<DockItem> = Vec::new();
    let mut n: usize = 0;
    while n < order.len()
        invariant
            n <= order.len(),
            order.len() == items.len(),
            iv == items_view(items@),
            order@ == sorted_order(item_keys(iv), iv.len()),
            is_stable_order(item_keys(iv), order@),
            target == sort_items(iv),
            items_view(out@) == target.take(n as int),
        decreases order.len() - n,
    {
        let idx = order[n];
        assert(idx < items.len());
        let ghost before = out@;
        out.push(items[idx].clone());
        assert(items_view(out@) == items_view(before).push(iv[idx as int]));
        n = n + 1;
        assert(target.take(n as int) == target.take(n - 1).push(target[n - 1]));
    }
    assert(target.take(order.len() as int) == target);
    out
}

/// Whether the dock shows a separator between pinned and running items.
pub fn show_separator(pinned: &Vec<DockItem>, running: &Vec<DockItem>) -> (r: bool)
    ensures
        r == (pinned.len() > 0 && running.len() > 0),
{
    !pinned.is_empty() && !running.is_empty()
}

impl DockState {
    /// The items the dock shows (see [`collected`]): pinned items, and
    /// running items.
    pub fn collect_items(&self) -> (r: (Vec<DockItem>, Vec<DockItem>))
        requires
            badge_total(windows_view(self.windows@)) <= u32::MAX,
        ensures
            items_view(r.0@) == collected(
                self.catalog@,
                self.launching_ids(),
                str_views(self.pins@),
                windows_view(self.windows@),
            ).0,
            items_view(r.1@) == collected(
                self.catalog@,
                self.launching_ids(),
                str_views(self.pins@),
                windows_view(self.windows@),
            ).1,
    {
        let ghost v = self.catalog@;
        let ghost l = self.launching_ids();
        let ghost pv = str_views(self.pins@);
        let ghost wv = windows_view(self.windows@);
        let ghost t = badge_total(wv);
        let (mut known, unknown) = group_windows(&self.windows, &self.catalog);
        proof {
            lemma_grouped_bounded(v, true, wv);
            lemma_grouped_bounded(v, false, wv);
        }
        let mut pinned: Vec<DockItem> = Vec::new();
        let mut i: usize = 0;
        assert(pv.take(0) =~= Seq::<Seq<char>>::empty());
        while i < self.pins.len()
            invariant
                i <= self.pins.len(),
                v == self.catalog@,
                l == self.launching_ids(),
                pv == str_views(self.pins@),
                wv == windows_view(self.windows@),
                t == badge_total(wv),
                t <= u32::MAX,
                groups_bounded(grouped(v, true, wv), t),
                groups_bounded(groups_view(known@), t),
                items_view(pinned@) == pinned_pass(v, l, pv.take(i as int), grouped(v, true, wv)).0,
                groups_view(known@) == pinned_pass(v, l, pv.take(i as int), grouped(v, true, wv)).1,
            decreases self.pins.len() - i,
        {
            let pin = &self.pins[i];
            assert(pv.take(i + 1).drop_last() == pv.take(i as int));
            assert(pv.take(i + 1).last() == pin@);
            match self.catalog.app(pin.as_str()) {
                Some(app) => {
                    let ghost g = groups_view(known@);
                    proof {
                        crate::pins::lemma_position_of_bounds(group_keys(g), pin@);
                    }
                    let windows = match group_position(&known, pin.as_str()) {
                        Some(k) => {
                            let group = known.remove(k);
                            assert(groups_view(known@) == g.remove(k as int));
                            assert(g[k as int].1 == windows_view(group.windows@));
                            group.windows
                        },
                        None => Vec::new(),
                    };
                    assert(windows_view(windows@) == group_lookup(g, pin@));
                    assert(badge_total(windows_view(windows@)) <= t) by {
                        if position_of(group_keys(g), pin@) < 0 {
                            assert(windows_view(windows@) =~= Seq::<WindowStateView>::empty());
                        }
                    }
                    let launching = self.is_launching(app.id.as_str());
                    let item = build_known_item(app.clone(), windows, true, launching);
                    let ghost before = pinned@;
                    pinned.push(item);
                    assert(items_view(pinned@) == items_view(before).push(item@));
                    proof {
                        lemma_pinned_pass_bounded(v, l, pv.take(i + 1), grouped(v, true, wv), t);
                    }
                },
                None => {},
            }
            i = i + 1;
        }
        assert(pv.take(self.pins.len() as int) == pv);
        let ghost rest = groups_view(known@);
        let mut running: Vec<DockItem> = Vec::new();
        let mut j: usize = 0;
        while j < known.len()
            invariant
                j <= known.len(),
                v == self.catalog@,
                l == self.launching_ids(),
                rest == groups_view(known@),
                t <= u32::MAX,
                groups_bounded(rest, t),
                items_view(running@) == running_known(v, l, rest.take(j as int)),
            decreases known.len() - j,
        {
            let group = &known[j];
            assert(rest.take(j + 1).drop_last() == rest.take(j as int));
            assert(rest.take(j + 1).last() == rest[j as int]);
            assert(badge_total(rest[j as int].1) <= t);
            match self.catalog.app(group.key.as_str()) {
                Some(app) => {
                    let launching = self.is_launching(app.id.as_str());
                    let item = build_known_item(app.clone(), clone_windows(&group.windows), false, launching);
                    let ghost before = running@;
                    running.push(item);
                    assert(items_view(running@) == items_view(before).push(item@));
                },
                None => {},
            }
            j = j + 1;
        }
        assert(rest.take(known.len() as int) == rest);
        let ghost ug = groups_view(unknown@);
        let mut others: Vec<DockItem> = Vec::new();
        let mut k: usize = 0;
        while k < unknown.len()
            invariant
                k <= unknown.len(),
                ug == groups_view(unknown@),
                t <= u32::MAX,
                groups_bounded(ug, t),
                items_view(others@) == unknown_items(ug.take(k as int)),
            decreases unknown.len() - k,
        {
            let group = &unknown[k];
            assert(badge_total(ug[k as int].1) <= t);
            let item = build_unknown_item(group.key.clone(), clone_windows(&group.windows));
            let ghost before = others@;
            others.push(item);
            assert(items_view(others@) == items_view(before).push(item@));
            k = k + 1;
            assert(unknown_items(ug.take(k as int)) =~= unknown_items(ug.take(k - 1)).push(unknown_item(ug[k - 1].0, ug[k - 1].1)));
        }
        assert(ug.take(unknown.len() as int) == ug);
        let mut sorted_running = sort_dock_items(running);
        let sorted_others = sort_dock_items(others);
        let ghost a = items_view(sorted_running@);
        let mut m: usize = 0;
        while m < sorted_others.len()
            invariant
                m <= sorted_others.len(),
                items_view(sorted_running@) == a + items_view(sorted_others@).take(m as int),
            decreases sorted_others.len() - m,
        {
            let ghost before = sorted_running@;
            sorted_running.push(sorted_others[m].clone());
            assert(items_view(sorted_running@) == items_view(before).push(sorted_others@[m as int]@));
            m = m + 1;
            assert(items_view(sorted_others@).take(m as int) == items_view(sorted_others@).take(m - 1).push(sorted_others@[m - 1]@));
        }
        assert(items_view(sorted_others@).take(sorted_others.len() as int) == items_view(sorted_others@));
        (pinned, sorted_running)
    }
}

/// Whether two lists of strings are equal.
pub fn strings_eq(a: &Vec<String>, b: &Vec<String>) -> (r: bool)
    ensures
        r == (str_views(a@) == str_views(b@)),
{
    if a.len() != b.len() {
        assert(str_views(a@).len() != str_views(b@).len());
        return false;
    }
    let mut i: usize = 0;
    while i < a.len()
        invariant
            a.len() == b.len(),
            i <= a.len(),
            forall|j: int| 0 <= j < i ==> a@[j]@ == b@[j]@,
        decreases a.len() - i,
    {
        if a[i] != b[i] {
            assert(str_views(a@)[i as int] != str_views(b@)[i as int]);
            return false;
        }
        i = i + 1;
    }
    assert(str_views(a@) =~= str_views(b@));
    true
}

/// How many applications the picker offers at most.
pub const PICKER_LIMIT: usize = 40;

impl DockState {
    /// Takes a new window snapshot from the backend. When it differs from
    /// the current windows it replaces them, launch feedback ends for every
    /// application that now has a window, and `true` is returned (the dock
    /// must be redrawn); otherwise nothing changes.
    pub fn apply_snapshot(&mut self, snapshot: Vec<WindowState>) -> (changed: bool)
        ensures
            changed == (windows_view(snapshot@) != windows_view(old(self).windows@)),
            changed ==> final(self).windows@ == snapshot@,
            changed ==> forall|x: Seq<char>|
                final(self).launching_ids().contains(x) <==> old(self).launching_ids().contains(x)
                    && !has_window_of(old(self).catalog@, windows_view(snapshot@), x),
            changed ==> final(self).launch_entries() == kept_where(
                old(self).launch_entries(),
                without_window(old(self).catalog@, windows_view(snapshot@), old(self).launching_ids()),
            ),
            !changed ==> final(self).windows@ == old(self).windows@ && final(self).launch_entries() == old(
                self,
            ).launch_entries(),
            final(self).catalog@ == old(self).catalog@,
            final(self).pins@ == old(self).pins@,
    {
        if windows_eq(&self.windows, &snapshot) {
            return false;
        }
        self.windows = snapshot;
        self.reconcile_launching();
        true
    }

    /// Takes a reloaded pin list: it is sanitized, and replaces the current
    /// pins when it differs from them (returning `true`).
    pub fn apply_loaded_pins(&mut self, pins: Vec<String>) -> (changed: bool)
        ensures
            changed == (sanitized(old(self).catalog@, str_views(pins@)) != str_views(old(self).pins@)),
            str_views(final(self).pins@) == if changed {
                sanitized(old(self).catalog@, str_views(pins@))
            } else {
                str_views(old(self).pins@)
            },
            final(self).catalog@ == old(self).catalog@,
            final(self).windows@ == old(self).windows@,
            final(self).launching_ids() == old(self).launching_ids(),
    {
        let pins = sanitize_pins(&self.catalog, pins);
        if strings_eq(&self.pins, &pins) {
            return false;
        }
        self.pins = pins;
        true
    }

    /// The applications the picker offers for `query`: at most
    /// [`PICKER_LIMIT`], none of them pinned.
    pub fn picker_matches(&self, query: &str) -> (r: Vec<&AppRecord>)
        ensures
            crate::catalog::refs_view(r@) == crate::catalog::search_spec(
                self.catalog@,
                query@,
                PICKER_LIMIT as nat,
                str_views(self.pins@),
            ),
    {
        self.catalog.search(query, PICKER_LIMIT, &self.pins)
    }
}

/// Group keys are in strictly increasing order, so each key names one group.
pub open spec fn keys_sorted(g: Seq<GroupView>) -> bool {
    forall|i: int, j: int| 0 <= i < j < g.len() ==> lex_lt(#[trigger] g[i].0, #[trigger] g[j].0)
}

proof fn lemma_group_insert_pos_order(g: Seq<GroupView>, key: Seq<char>)
    requires
        keys_sorted(g),
        !group_keys(g).contains(key),
    ensures
        0 <= group_insert_pos(g, key) <= g.len(),
        forall|i: int| 0 <= i < group_insert_pos(g, key) ==> lex_lt(#[trigger] g[i].0, key),
        forall|i: int| group_insert_pos(g, key) <= i < g.len() ==> lex_lt(key, #[trigger] g[i].0),
    decreases g.len(),
{
    lemma_group_insert_pos_bounds(g, key);
    if g.len() > 0 {
        assert(group_keys(g)[0] == g[0].0);
        crate::order::lemma_lex_lt_total(key, g[0].0);
        if lex_lt(key, g[0].0) {
            assert forall|i: int| 0 <= i < g.len() implies lex_lt(key, #[trigger] g[i].0) by {
                if i > 0 {
                    crate::order::lemma_lex_lt_transitive(key, g[0].0, g[i].0);
                }
            }
        } else {
            let t = g.drop_first();
            assert forall|i: int| 0 <= i < t.len() implies t[i].0 != key by {
                assert(group_keys(g)[i + 1] == t[i].0);
            }
            assert(!group_keys(t).contains(key)) by {
                if group_keys(t).contains(key) {
                    let i = choose|i: int| 0 <= i < group_keys(t).len() && group_keys(t)[i] == key;
                    assert(t[i].0 == key);
                }
            }
            lemma_group_insert_pos_order(t, key);
            assert forall|i: int| 0 <= i < group_insert_pos(g, key) implies lex_lt(#[trigger] g[i].0, key) by {
                if i > 0 {
                    assert(g[i] == t[i - 1]);
                }
            }
            assert forall|i: int| group_insert_pos(g, key) <= i < g.len() implies lex_lt(key, #[trigger] g[i].0) by {
                assert(g[i] == t[i - 1]);
            }
        }
    }
}

/// Grouping keeps the groups in strictly increasing key order and puts
/// every window into the group of its key (for the catalog grouping, its
/// application's canonical id; otherwise its fallback key).
#[verifier::spinoff_prover]
pub proof fn law_grouping_sorted_and_complete(v: CatalogView, known: bool, ws: Seq<WindowStateView>)
    ensures
        keys_sorted(grouped(v, known, ws)),
        forall|j: int|
            0 <= j < ws.len() && (canonical_of(v, ws[j]) is Some) == known ==> group_lookup(
                grouped(v, known, ws),
                match canonical_of(v, #[trigger] ws[j]) {
                    Some(k) => k,
                    None => fallback_key(ws[j]),
                },
            ).contains(ws[j]),
    decreases ws.len(),
{
    if ws.len() > 0 {
        let init = ws.drop_last();
        let w = ws.last();
        law_grouping_sorted_and_complete(v, known, init);
        let g = grouped(v, known, init);
        let add = match canonical_of(v, w) {
            Some(k) => known,
            None => !known,
        };
        let key = match canonical_of(v, w) {
            Some(k) => k,
            None => fallback_key(w),
        };
        let n = grouped(v, known, ws);
        crate::pins::lemma_position_of_bounds(group_keys(g), key);
        let i = position_of(group_keys(g), key);
        if add {
            if i >= 0 {
                assert(group_keys(g)[i] == g[i].0);
                assert(n == g.update(i, (key, g[i].1.push(w))));
                assert forall|a: int, b: int| 0 <= a < b < n.len() implies lex_lt(#[trigger] n[a].0, #[trigger] n[b].0) by {
                    assert(n[a].0 == g[a].0 && n[b].0 == g[b].0);
                }
            } else {
                lemma_group_insert_pos_order(g, key);
                let p = group_insert_pos(g, key);
                assert(n == g.insert(p, (key, seq![w])));
                assert forall|a: int, b: int| 0 <= a < b < n.len() implies lex_lt(#[trigger] n[a].0, #[trigger] n[b].0) by {
                    if b < p {
                        assert(n[a] == g[a] && n[b] == g[b]);
                    } else if b == p {
                        assert(n[a] == g[a]);
                    } else if a == p {
                        assert(n[b] == g[b - 1]);
                    } else if a < p {
                        assert(n[a] == g[a] && n[b] == g[b - 1]);
                        crate::order::lemma_lex_lt_transitive(g[a].0, key, g[b - 1].0);
                    } else {
                        assert(n[a] == g[a - 1] && n[b] == g[b - 1]);
                    }
                }
            }
        }
        assert forall|j: int|
            0 <= j < ws.len() && (canonical_of(v, ws[j]) is Some) == known implies group_lookup(
            n,
            match canonical_of(v, #[trigger] ws[j]) {
                Some(k) => k,
                None => fallback_key(ws[j]),
            },
        ).contains(ws[j]) by {
            let kj = match canonical_of(v, ws[j]) {
                Some(k) => k,
                None => fallback_key(ws[j]),
            };
            lemma_group_lookup_after_add(g, key, w, kj, add);
            if j < init.len() {
                assert(ws[j] == init[j]);
                assert(group_lookup(g, kj).contains(ws[j]));
            } else {
                assert(ws[j] == w);
            }
        }
    }
}

#[verifier::spinoff_prover]
proof fn lemma_group_lookup_after_add(g: Seq<GroupView>, key: Seq<char>, w: WindowStateView, k: Seq<char>, add: bool)
    requires
        keys_sorted(g),
    ensures
        ({
            let n = if add { group_add(g, key, w) } else { g };
            &&& forall|x: WindowStateView| group_lookup(g, k).contains(x) ==> group_lookup(n, k).contains(x)
            &&& add && k == key ==> group_lookup(n, k).contains(w)
        }),
{
    if add {
        let n = group_add(g, key, w);
        crate::pins::lemma_position_of_bounds(group_keys(g), key);
        crate::pins::lemma_position_of_bounds(group_keys(g), k);
        let i = position_of(group_keys(g), key);
        let ik = position_of(group_keys(g), k);
        if i >= 0 {
            assert(group_keys(n) =~= group_keys(g)) by {
                assert(group_keys(g)[i] == key);
            }
            if ik >= 0 {
                if ik == i {
                    assert(n[i].1 == g[i].1.push(w));
                    assert forall|x: WindowStateView| g[i].1.contains(x) implies n[i].1.contains(x) by {
                        let q = choose|q: int| 0 <= q < g[i].1.len() && g[i].1[q] == x;
                        assert(n[i].1[q] == x);
                    }
                    assert(n[i].1[g[i].1.len() as int] == w);
                }
            }
        } else {
            lemma_group_insert_pos_bounds(g, key);
            let p = group_insert_pos(g, key);
            assert(n == g.insert(p, (key, seq![w])));
            let nk = group_keys(n);
            assert(nk == group_keys(g).insert(p, key));
            if k == key {
                assert forall|q: int| 0 <= q < p implies nk[q] != key by {
                    assert(nk[q] == group_keys(g)[q]);
                }
                crate::pins::lemma_position_of_first(nk, key, p);
                assert(n[p].1 == seq![w]);
                assert(n[p].1[0] == w);
            } else if ik >= 0 {
                let target = if ik < p { ik } else { ik + 1 };
                assert(nk[target] == k);
                assert forall|q: int| 0 <= q < target implies nk[q] != k by {
                    if q < p {
                        assert(nk[q] == group_keys(g)[q]);
                    } else if q == p {
                        assert(nk[q] == key);
                    } else {
                        assert(nk[q] == group_keys(g)[q - 1]);
                    }
                }
                crate::pins::lemma_position_of_first(nk, k, target);
                assert(n[target] == g[ik]);
            }
        }
    }
}

proof fn lemma_sort_items_from(items: Seq<DockItemView>)
    ensures
        forall|k: int|
            0 <= k < sort_items(items).len() ==> exists|j: int|
                0 <= j < items.len() && #[trigger] sort_items(items)[k] == items[j],
{
    let keys = item_keys(items);
    let n = items.len();
    let order = sorted_order(keys, n);
    assert(keys.len() == n);
    if n <= usize::MAX {
        crate::order::lemma_sorted_order(keys, n);
    }
    assert forall|k: int| 0 <= k < sort_items(items).len() implies exists|j: int|
        0 <= j < items.len() && #[trigger] sort_items(items)[k] == items[j] by {
        let j = order[k] as int;
        assert(j < n);
        assert(sort_items(items)[k] == items[j]);
    }
}

proof fn lemma_running_known_have_apps(v: CatalogView, launching: Seq<Seq<char>>, g: Seq<GroupView>)
    ensures
        forall|k: int|
            0 <= k < running_known(v, launching, g).len() ==> (#[trigger] running_known(v, launching, g)[k]).app is Some,
    decreases g.len(),
{
    if g.len() > 0 {
        lemma_running_known_have_apps(v, launching, g.drop_last());
        let prev = running_known(v, launching, g.drop_last());
        let r = running_known(v, launching, g);
        assert forall|k: int| 0 <= k < r.len() implies (#[trigger] r[k]).app is Some by {
            if k < prev.len() {
                assert(r[k] == prev[k]);
            }
        }
    }
}

/// Among the running items, those of catalog applications come before
/// the windows of unknown applications: an item without an application is
/// never followed by one with an application.
pub proof fn law_running_items_catalog_first(
    v: CatalogView,
    launching: Seq<Seq<char>>,
    pins: Seq<Seq<char>>,
    ws: Seq<WindowStateView>,
)
    ensures
        forall|i: int, j: int|
            0 <= i < j < collected(v, launching, pins, ws).1.len() && (#[trigger] collected(
                v,
                launching,
                pins,
                ws,
            ).1[j]).app is Some ==> (#[trigger] collected(v, launching, pins, ws).1[i]).app is Some,
{
    let pass = pinned_pass(v, launching, pins, grouped(v, true, ws));
    let known = running_known(v, launching, pass.1);
    let unknown = unknown_items(grouped(v, false, ws));
    let a = sort_items(known);
    let b = sort_items(unknown);
    let r = collected(v, launching, pins, ws).1;
    assert(r == a + b);
    lemma_sort_items_from(known);
    lemma_sort_items_from(unknown);
    lemma_running_known_have_apps(v, launching, pass.1);
    assert forall|i: int, j: int| 0 <= i < j < r.len() && (#[trigger] r[j]).app is Some implies (#[trigger] r[i]).app is Some by {
        if j >= a.len() {
            assert(r[j] == b[j - a.len()]);
            let m = choose|m: int| 0 <= m < unknown.len() && b[j - a.len()] == unknown[m];
            assert(unknown[m].app is None);
        } else {
            assert(r[i] == a[i]);
            let m = choose|m: int| 0 <= m < known.len() && a[i] == known[m];
            assert(known[m].app is Some);
        }
    }
}

} // verus!
