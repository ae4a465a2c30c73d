//! Decisions behind a dock item's widget: which window a click acts on,
//! what a left click does, the badge text, and the entries of the item's
//! context menu.
use vstd::prelude::*;

use crate::dock::{DockItem, DockItemView, DockState};
use crate::model::{windows_view, WindowState, WindowStateView};
use crate::pins::str_views;
use crate::text::{concat_str, decimal, owned, u64_to_decimal};

verus! {

/// Whether window `i` is the one a click on an item acts on: the first
/// focused window, or the first window when none is focused.
pub open spec fn is_target(ws: Seq<WindowStateView>, i: int) -> bool {
    &&& 0 <= i < ws.len()
    &&& (ws[i].active && forall|j: int| 0 <= j < i ==> !(#[trigger] ws[j]).active) || (i == 0 && forall|j: int|
        0 <= j < ws.len() ==> !(#[trigger] ws[j]).active)
}

/// The index of the first focused window, else of the first window.
pub fn target_window(windows: &Vec<WindowState>) -> (r: Option<usize>)
    ensures
        match r {
            Some(i) => is_target(windows_view(windows@), i as int),
            None => windows.len() == 0,
        },
{
    let ghost wv = windows_view(windows@);
    let mut i: usize = 0;
    while i < windows.len()
        invariant
            i <= windows.len(),
            wv == windows_view(windows@),
            forall|j: int| 0 <= j < i ==> !(#[trigger] wv[j]).active,
        decreases windows.len() - i,
    {
        if windows[i].active {
            assert(wv[i as int].active);
            return Some(i);
        }
        i = i + 1;
    }
    if windows.len() > 0 {
        Some(0)
    } else {
        None
    }
}

/// What a left click on an item does.
#[derive(PartialEq, Eq, Structural, Clone, Copy, Debug)]
pub enum ClickKind {
    /// Focus the window with this index among the item's windows.
    Activate(usize),
    /// Launch the item's application.
    Launch,
    /// Nothing: the application is already launching, or the item has
    /// neither windows nor an application.
    Ignore,
}

/// There is at most one target window.
proof fn lemma_target_unique(ws: Seq<WindowStateView>, i: int, j: int)
    requires
        is_target(ws, i),
        is_target(ws, j),
    ensures
        i == j,
{
    if i < j {
        if ws[j].active {
            assert(!ws[i].active);
            assert(!ws[0].active);
        }
    } else if j < i {
        if ws[i].active {
            assert(!ws[j].active);
            assert(!ws[0].active);
        }
    }
}

/// The target window of a non-empty window list.
pub open spec fn target_index(ws: Seq<WindowStateView>) -> int {
    choose|i: int| is_target(ws, i)
}

/// What a left click on an item does, given the applications being
/// launched: focus the target window when the item has windows; otherwise
/// launch its application unless that is already launching.
pub open spec fn click_outcome(launching: Seq<Seq<char>>, windows: Seq<WindowStateView>, app_id: Option<Seq<char>>) -> ClickKind {
    if windows.len() > 0 {
        ClickKind::Activate(target_index(windows) as usize)
    } else {
        match app_id {
            Some(id) => if launching.contains(id) {
                ClickKind::Ignore
            } else {
                ClickKind::Launch
            },
            None => ClickKind::Ignore,
        }
    }
}

/// The application id of an item, if it has an application.
pub open spec fn app_id_of(item: DockItemView) -> Option<Seq<char>> {
    match item.app {
        Some(a) => Some(a.id),
        None => None,
    }
}

/// A left click focuses the target window when the item has windows;
/// otherwise it launches the item's application unless that is already
/// launching (see [`click_outcome`]).
pub fn click_action(state: &DockState, item: &DockItem) -> (r: ClickKind)
    ensures
        r == click_outcome(state.launching_ids(), windows_view(item.windows@), app_id_of(item@)),
        item.windows.len() > 0 ==> (r matches ClickKind::Activate(i) && is_target(windows_view(item.windows@), i as int)),
{
    match target_window(&item.windows) {
        Some(i) => {
            proof {
                let ws = windows_view(item.windows@);
                lemma_target_unique(ws, i as int, target_index(ws));
            }
            ClickKind::Activate(i)
        },
        None => match &item.app {
            Some(app) => if state.is_launching(app.id.as_str()) {
                ClickKind::Ignore
            } else {
                ClickKind::Launch
            },
            None => ClickKind::Ignore,
        },
    }
}

/// Launch feedback stops repeated launches: once an application was marked
/// as launching (its id joined the launching set), a click on an item of
/// it that has no window yet does nothing.
pub proof fn law_launch_feedback_blocks_relaunch(
    before: Seq<Seq<char>>,
    after: Seq<Seq<char>>,
    id: Seq<char>,
)
    requires
        after.to_set() == before.to_set().insert(id),
    ensures
        click_outcome(after, Seq::<WindowStateView>::empty(), Some(id)) == ClickKind::Ignore,
{
    assert(after.to_set().contains(id));
}

/// The badge text: none for no count or zero, `99+` above 99, else the count.
pub open spec fn badge_text(count: Option<u32>) -> Option<Seq<char>> {
    match count {
        Some(c) => if c == 0 {
            None
        } else if c > 99 {
            Some("99+"@)
        } else {
            Some(decimal(c as nat))
        },
        None => None,
    }
}

/// The badge text of an item (see [`badge_text`]).
pub fn badge_label(count: Option<u32>) -> (r: Option<String>)
    ensures
        match r {
            Some(s) => badge_text(count) == Some(s@),
            None => badge_text(count) is None,
        },
{
    match count {
        Some(c) => if c == 0 {
            None
        } else if c > 99 {
            Some(owned("99+"))
        } else {
            Some(u64_to_decimal(c as u64))
        },
        None => None,
    }
}

/// The label of a window's entry in an item's context menu: `Focus Window`
/// for the only, unfocused window; otherwise `Focus ` and the title
/// (`Untitled Window` when there is none), marked ` (active)` when focused.
pub open spec fn window_menu_text(w: WindowStateView, multiple: bool) -> Seq<char> {
    let title = match w.title {
        Some(t) => t,
        None => "Untitled Window"@,
    };
    let suffix = if w.active { " (active)"@ } else { ""@ };
    if multiple || w.active {
        "Focus "@ + title + suffix
    } else {
        "Focus Window"@
    }
}

/// The label of a window's entry in an item's context menu.
pub fn window_menu_label(window: &WindowState, multiple: bool) -> (r: String)
    ensures
        r@ == window_menu_text(window@, multiple),
{
    let title = match &window.title {
        Some(t) => t.clone(),
        None => owned("Untitled Window"),
    };
    let suffix = if window.active { " (active)" } else { "" };
    if multiple || window.active {
        let head = concat_str("Focus ", title.as_str());
        concat_str(head.as_str(), suffix)
    } else {
        owned("Focus Window")
    }
}

/// The number of windows a context menu lists.
pub const MENU_WINDOW_LIMIT: usize = 8;

/// An entry of an item's context menu.
#[derive(Debug, PartialEq, Eq)]
pub enum MenuEntry {
    /// The item's label, as the menu's title.
    Title(String),
    /// The application id under the title.
    Subtitle(String),
    Separator,
    /// The heading of the window list.
    Section(String),
    /// Focuses a window.
    FocusWindow { label: String, window_id: String, active: bool },
    /// Launches the application again.
    OpenNewWindow,
    /// Pins or unpins the application.
    TogglePin { label: String },
    /// Closes the focused window.
    CloseFocused { window_id: String },
    /// Closes every window of the item.
    CloseAll { label: String, window_ids: Vec<String> },
}

/// View of a [`MenuEntry`].
pub enum MenuEntryView {
    Title(Seq<char>),
    Subtitle(Seq<char>),
    Separator,
    Section(Seq<char>),
    FocusWindow { label: Seq<char>, window_id: Seq<char>, active: bool },
    OpenNewWindow,
    TogglePin { label: Seq<char> },
    CloseFocused { window_id: Seq<char> },
    CloseAll { label: Seq<char>, window_ids: Seq<Seq<char>> },
}

impl View for MenuEntry {
    type V = MenuEntryView;

    open spec fn view(&self) -> MenuEntryView {
        match self {
            MenuEntry::Title(t) => MenuEntryView::Title(t@),
            MenuEntry::Subtitle(t) => MenuEntryView::Subtitle(t@),
            MenuEntry::Separator => MenuEntryView::Separator,
            MenuEntry::Section(t) => MenuEntryView::Section(t@),
            MenuEntry::FocusWindow { label, window_id, active } => MenuEntryView::FocusWindow {
                label: label@,
                window_id: window_id@,
                active: *active,
            },
            MenuEntry::OpenNewWindow => MenuEntryView::OpenNewWindow,
            MenuEntry::TogglePin { label } => MenuEntryView::TogglePin { label: label@ },
            MenuEntry::CloseFocused { window_id } => MenuEntryView::CloseFocused { window_id: window_id@ },
            MenuEntry::CloseAll { label, window_ids } => MenuEntryView::CloseAll {
                label: label@,
                window_ids: str_views(window_ids@),
            },
        }
    }
}

/// The views of a list of menu entries.
pub open spec fn entries_view(es: Seq<MenuEntry>) -> Seq<MenuEntryView> {
    es.map_values(|e: MenuEntry| e@)
}

/// The window entries of a menu: one focus entry per window.
pub open spec fn focus_entries(ws: Seq<WindowStateView>, multiple: bool) -> Seq<MenuEntryView> {
    ws.map_values(
        |w: WindowStateView|
            MenuEntryView::FocusWindow { label: window_menu_text(w, multiple), window_id: w.id, active: w.active },
    )
}

/// The title part of an item's menu: the label, and the application id
/// when the item has an application.
pub open spec fn menu_head(item: DockItemView) -> Seq<MenuEntryView> {
    match item.app {
        Some(a) => seq![MenuEntryView::Title(item.label), MenuEntryView::Subtitle(a.id)],
        None => seq![MenuEntryView::Title(item.label)],
    }
}

/// The window part of an item's menu: for an item with windows, a
/// separator, the `Windows` heading, and a focus entry for each of its first
/// [`MENU_WINDOW_LIMIT`] windows.
pub open spec fn menu_windows(item: DockItemView) -> Seq<MenuEntryView> {
    let ws = item.windows;
    if ws.len() == 0 {
        Seq::empty()
    } else {
        let shown = if ws.len() <= MENU_WINDOW_LIMIT { ws } else { ws.take(MENU_WINDOW_LIMIT as int) };
        seq![MenuEntryView::Separator, MenuEntryView::Section("Windows"@)] + focus_entries(shown, ws.len() > 1)
    }
}

/// The application part of an item's menu: a separator, `Open New Window`,
/// and the pin toggle (`Unpin from Dock` for a pinned item, else `Pin to
/// Dock`).
pub open spec fn menu_app(item: DockItemView) -> Seq<MenuEntryView> {
    match item.app {
        Some(a) => seq![
            MenuEntryView::Separator,
            MenuEntryView::OpenNewWindow,
            MenuEntryView::TogglePin {
                label: if item.pinned { "Unpin from Dock"@ } else { "Pin to Dock"@ },
            },
        ],
        None => Seq::empty(),
    }
}

/// The closing part of an item's menu: for an item with windows, `Close
/// Focused Window` when one is focused (the first focused one), then
/// `Close All Windows` (`Close Window` for a single window) for all of them.
pub open spec fn menu_close(item: DockItemView) -> Seq<MenuEntryView> {
    let ws = item.windows;
    if ws.len() == 0 {
        Seq::empty()
    } else {
        let all = MenuEntryView::CloseAll {
            label: if ws.len() > 1 { "Close All Windows"@ } else { "Close Window"@ },
            window_ids: ws.map_values(|w: WindowStateView| w.id),
        };
        if ws[target_index(ws)].active {
            seq![MenuEntryView::CloseFocused { window_id: ws[target_index(ws)].id }, all]
        } else {
            seq![all]
        }
    }
}

/// The entries of an item's context menu, in order.
pub open spec fn context_menu_spec(item: DockItemView) -> Seq<MenuEntryView> {
    menu_head(item) + menu_windows(item) + menu_app(item) + menu_close(item)
}

/// The entries of an item's context menu (see [`context_menu_spec`]).
pub fn context_menu_entries(item: &DockItem) -> (r: Vec<MenuEntry>)
    ensures
        entries_view(r@) == context_menu_spec(item@),
{
    let ghost iv = item@;
    let ghost ws = iv.windows;
    let mut r: Vec<MenuEntry> = Vec::new();
    r.push(MenuEntry::Title(owned(item.label.as_str())));
    match &item.app {
        Some(app) => {
            r.push(MenuEntry::Subtitle(owned(app.id.as_str())));
        },
        None => {},
    }
    assert(entries_view(r@) =~= menu_head(iv));

    let n = item.windows.len();
    if n > 0 {
        let ghost base = entries_view(r@);
        r.push(MenuEntry::Separator);
        r.push(MenuEntry::Section(owned("Windows")));
        let ghost head = entries_view(r@);
        assert(head =~= base + seq![MenuEntryView::Separator, MenuEntryView::Section("Windows"@)]);
        let shown = if n <= MENU_WINDOW_LIMIT { n } else { MENU_WINDOW_LIMIT };
        let multiple = n > 1;
        let mut k: usize = 0;
        while k < shown
            invariant
                k <= shown,
                shown <= n,
                n == item.windows.len(),
                ws == windows_view(item.windows@),
                multiple == (n > 1),
                entries_view(r@) == head + focus_entries(ws.take(k as int), multiple),
            decreases shown - k,
        {
            let w = &item.windows[k];
            let ghost before = entries_view(r@);
            let entry = MenuEntry::FocusWindow {
                label: window_menu_label(w, multiple),
                window_id: owned(w.id.as_str()),
                active: w.active,
            };
            assert(ws[k as int] == w@);
            assert(ws.take(k + 1)[k as int] == w@);
            assert(entry@ == focus_entries(ws.take(k + 1), multiple)[k as int]);
            r.push(entry);
            assert(entries_view(r@) =~= before.push(entry@));
            assert(focus_entries(ws.take(k + 1), multiple) =~= focus_entries(ws.take(k as int), multiple).push(
                focus_entries(ws.take(k + 1), multiple)[k as int],
            ));
            k = k + 1;
            assert(entries_view(r@) =~= head + focus_entries(ws.take(k as int), multiple));
        }
        let ghost shown_ws = if ws.len() <= MENU_WINDOW_LIMIT { ws } else { ws.take(MENU_WINDOW_LIMIT as int) };
        assert(ws.take(shown as int) =~= shown_ws);
        assert(entries_view(r@) =~= menu_head(iv) + menu_windows(iv));
    } else {
        assert(entries_view(r@) =~= menu_head(iv) + menu_windows(iv));
    }

    let ghost after_windows = entries_view(r@);
    match &item.app {
        Some(_) => {
            r.push(MenuEntry::Separator);
            r.push(MenuEntry::OpenNewWindow);
            let label = if item.pinned { owned("Unpin from Dock") } else { owned("Pin to Dock") };
            r.push(MenuEntry::TogglePin { label });
        },
        None => {},
    }
    assert(entries_view(r@) =~= after_windows + menu_app(iv));

    let ghost after_app = entries_view(r@);
    if n > 0 {
        let t = target_window(&item.windows);
        match t {
            Some(i) => {
                proof {
                    lemma_target_unique(ws, i as int, target_index(ws));
                }
                if item.windows[i].active {
                    r.push(MenuEntry::CloseFocused { window_id: owned(item.windows[i].id.as_str()) });
                }
            },
            None => {},
        }
        let mut ids: Vec<String> = Vec::new();
        let mut j: usize = 0;
        while j < n
            invariant
                j <= n,
                n == item.windows.len(),
                ws == windows_view(item.windows@),
                str_views(ids@) == ws.take(j as int).map_values(|w: WindowStateView| w.id),
            decreases n - j,
        {
            let ghost before = ids@;
            ids.push(owned(item.windows[j].id.as_str()));
            assert(str_views(ids@) =~= str_views(before).push(ws[j as int].id));
            assert(ws.take(j + 1).map_values(|w: WindowStateView| w.id) =~= ws.take(j as int).map_values(
                |w: WindowStateView| w.id,
            ).push(ws[j as int].id));
            j = j + 1;
        }
        assert(ws.take(n as int) =~= ws);
        let label = if n > 1 { owned("Close All Windows") } else { owned("Close Window") };
        r.push(MenuEntry::CloseAll { label, window_ids: ids });
    }
    assert(entries_view(r@) =~= after_app + menu_close(iv));
    r
}

/// Whether window `j` is the first focused one.
pub open spec fn first_active(ws: Seq<WindowStateView>, j: int) -> bool {
    &&& 0 <= j < ws.len()
    &&& ws[j].active
    &&& forall|l: int| 0 <= l < j ==> !(#[trigger] ws[l]).active
}

proof fn lemma_first_active_exists(ws: Seq<WindowStateView>)
    requires
        exists|i: int| 0 <= i < ws.len() && ws[i].active,
    ensures
        exists|j: int| first_active(ws, j),
    decreases ws.len(),
{
    let init = ws.drop_last();
    if exists|i: int| 0 <= i < init.len() && init[i].active {
        lemma_first_active_exists(init);
        let j = choose|j: int| first_active(init, j);
        assert forall|l: int| 0 <= l < j implies !(#[trigger] ws[l]).active by {
            assert(ws[l] == init[l]);
        }
        assert(first_active(ws, j));
    } else {
        let n = ws.len() - 1;
        assert forall|l: int| 0 <= l < n implies !(#[trigger] ws[l]).active by {
            assert(ws[l] == init[l]);
        }
        let i = choose|i: int| 0 <= i < ws.len() && ws[i].active;
        if i < n {
            assert(init[i] == ws[i]);
        }
        assert(first_active(ws, n));
    }
}

/// The context menu offers `Close Focused Window` exactly when one of the
/// item's windows is focused, however many windows it has, and that entry
/// closes the first focused window.
pub proof fn law_close_focused_entry(item: DockItemView)
    ensures
        (exists|k: int|
            0 <= k < context_menu_spec(item).len() && (#[trigger] context_menu_spec(item)[k]) is CloseFocused)
            <==> (exists|i: int| 0 <= i < item.windows.len() && (#[trigger] item.windows[i]).active),
        forall|k: int, j: int|
            0 <= k < context_menu_spec(item).len() && (#[trigger] context_menu_spec(item)[k]) is CloseFocused
                && #[trigger] first_active(item.windows, j) ==> context_menu_spec(item)[k] == (MenuEntryView::CloseFocused {
                window_id: item.windows[j].id,
            }),
{
    let ws = item.windows;
    let h = menu_head(item);
    let w = menu_windows(item);
    let p = menu_app(item);
    let c = menu_close(item);
    let m = context_menu_spec(item);
    let before = h + w + p;
    assert(m == before + c);
    assert forall|k: int| 0 <= k < before.len() implies !(#[trigger] before[k] is CloseFocused) by {
        if k < h.len() {
            assert(before[k] == h[k]);
        } else if k < h.len() + w.len() {
            assert(before[k] == w[k - h.len()]);
            if ws.len() > 0 {
                let shown = if ws.len() <= MENU_WINDOW_LIMIT { ws } else { ws.take(MENU_WINDOW_LIMIT as int) };
                let f = focus_entries(shown, ws.len() > 1);
                let t = k - h.len();
                if t >= 2 {
                    assert(w[t] == f[t - 2]);
                }
            }
        } else {
            assert(before[k] == p[k - h.len() - w.len()]);
        }
    }
    assert forall|k: int| 0 <= k < m.len() && (#[trigger] m[k]) is CloseFocused implies k == before.len() && ws.len() > 0
        && ws[target_index(ws)].active && m[k] == (MenuEntryView::CloseFocused {
        window_id: ws[target_index(ws)].id,
    }) by {
        if k < before.len() {
            assert(m[k] == before[k]);
        } else {
            assert(m[k] == c[k - before.len()]);
        }
    }
    if exists|i: int| 0 <= i < ws.len() && (#[trigger] ws[i]).active {
        lemma_first_active_exists(ws);
        let j = choose|j: int| first_active(ws, j);
        assert(is_target(ws, j));
        lemma_target_unique(ws, j, target_index(ws));
        assert(m[before.len() as int] == c[0]);
        assert(m[before.len() as int] is CloseFocused);
    } else if ws.len() > 0 {
        assert(is_target(ws, 0));
        lemma_target_unique(ws, 0, target_index(ws));
    }
    assert forall|k: int, j: int|
        0 <= k < m.len() && (#[trigger] m[k]) is CloseFocused && #[trigger] first_active(ws, j) implies m[k]
        == (MenuEntryView::CloseFocused { window_id: ws[j].id }) by {
        assert(is_target(ws, j));
        lemma_target_unique(ws, j, target_index(ws));
    }
}

} // verus!
