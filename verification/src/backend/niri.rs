//! The Niri backend's window model: the windows of the event stream kept
//! in id order, the snapshot published from them, and the decoding of a
//! dock request into a Niri action.
use vstd::prelude::*;

use crate::catalog::clone_opt_string;
use crate::model::{opt_str_view, windows_view, BackendRequest, WindowState, WindowStateView};
use crate::pins::{position_of, lemma_position_of_bounds, lemma_position_of_first, lemma_position_of_absent};
use crate::text::{
    chars_of, concat_str, decimal, has_prefix, lemma_parse_decimal, parse_u64, parse_u64_spec, starts_with,
    string_from_chars, u64_to_decimal,
};

verus! {

broadcast use vstd::seq_lib::group_seq_properties;

/// A window as Niri's event stream describes it.
pub struct NiriWindow {
    pub id: u64,
    pub title: Option<String>,
    pub app_id: Option<String>,
    pub is_focused: bool,
}

/// View of a [`NiriWindow`].
pub struct NiriWindowView {
    pub id: u64,
    pub title: Option<Seq<char>>,
    pub app_id: Option<Seq<char>>,
    pub is_focused: bool,
}

impl View for NiriWindow {
    type V = NiriWindowView;

    open spec fn view(&self) -> NiriWindowView {
        NiriWindowView {
            id: self.id,
            title: opt_str_view(self.title),
            app_id: opt_str_view(self.app_id),
            is_focused: self.is_focused,
        }
    }
}

/// The views of a list of Niri windows.
pub open spec fn niri_views(s: Seq<NiriWindow>) -> Seq<NiriWindowView> {
    s.map_values(|w: NiriWindow| w@)
}

/// An event of Niri's event stream that the dock cares about.
pub enum NiriEvent {
    /// The full list of windows.
    WindowsChanged { windows: Vec<NiriWindow> },
    /// A window opened or changed.
    WindowOpenedOrChanged { window: NiriWindow },
    WindowClosed { id: u64 },
    /// The focus moved to this window, or to none.
    WindowFocusChanged { id: Option<u64> },
    /// Any other event.
    Other,
}

/// The ids of a list of windows.
pub open spec fn niri_ids(s: Seq<NiriWindowView>) -> Seq<u64> {
    s.map_values(|w: NiriWindowView| w.id)
}

/// Windows in strictly increasing id order (one entry per id).
pub open spec fn ids_sorted(s: Seq<NiriWindowView>) -> bool {
    forall|i: int, j: int| 0 <= i < j < s.len() ==> (#[trigger] s[i]).id < (#[trigger] s[j]).id
}

/// Where a new id goes: before the first window with a greater id.
pub open spec fn insert_pos(s: Seq<NiriWindowView>, id: u64) -> int
    decreases s.len(),
{
    if s.len() == 0 {
        0
    } else if id < s[0].id {
        0
    } else {
        1 + insert_pos(s.drop_first(), id)
    }
}

/// The windows with `w` stored under its id: replacing the window with
/// that id, or inserted in id order.
pub open spec fn upsert(s: Seq<NiriWindowView>, w: NiriWindowView) -> Seq<NiriWindowView> {
    let i = position_of(niri_ids(s), w.id);
    if i >= 0 {
        s.update(i, w)
    } else {
        s.insert(insert_pos(s, w.id), w)
    }
}

/// The windows without the one with this id.
pub open spec fn remove_window(s: Seq<NiriWindowView>, id: u64) -> Seq<NiriWindowView> {
    let i = position_of(niri_ids(s), id);
    if i >= 0 {
        s.remove(i)
    } else {
        s
    }
}

/// A window with its focus set.
pub open spec fn with_focus(w: NiriWindowView, focused: bool) -> NiriWindowView {
    NiriWindowView { is_focused: focused, ..w }
}

/// Every window focused exactly when its id is `id`.
pub open spec fn focus_only(s: Seq<NiriWindowView>, id: Option<u64>) -> Seq<NiriWindowView> {
    s.map_values(|w: NiriWindowView| with_focus(w, Some(w.id) == id))
}

/// Every window unfocused.
pub open spec fn unfocus_all(s: Seq<NiriWindowView>) -> Seq<NiriWindowView> {
    s.map_values(|w: NiriWindowView| with_focus(w, false))
}

/// The windows of a full window list: stored one by one, so that a later
/// window with the same id replaces an earlier one.
pub open spec fn from_list(list: Seq<NiriWindowView>) -> Seq<NiriWindowView>
    decreases list.len(),
{
    if list.len() == 0 {
        Seq::empty()
    } else {
        upsert(from_list(list.drop_last()), list.last())
    }
}

/// What the dock shows of a Niri window: its id prefixed with `niri-`.
pub open spec fn niri_window_state(w: NiriWindowView) -> WindowStateView {
    WindowStateView {
        id: "niri-"@ + decimal(w.id as nat),
        app_id: w.app_id,
        title: w.title,
        active: w.is_focused,
        badge_count: None,
    }
}

/// The windows the Niri event stream has reported, kept in id order.
pub struct NiriWindows {
    entries: Vec<NiriWindow>,
}

impl View for NiriWindows {
    type V = Seq<NiriWindowView>;

    closed spec fn view(&self) -> Seq<NiriWindowView> {
        niri_views(self.entries@)
    }
}

proof fn lemma_insert_pos(s: Seq<NiriWindowView>, id: u64)
    requires
        ids_sorted(s),
    ensures
        0 <= insert_pos(s, id) <= s.len(),
        forall|i: int| 0 <= i < insert_pos(s, id) ==> (#[trigger] s[i]).id <= id,
        forall|i: int| insert_pos(s, id) <= i < s.len() ==> id < (#[trigger] s[i]).id,
    decreases s.len(),
{
    if s.len() > 0 && !(id < s[0].id) {
        lemma_insert_pos(s.drop_first(), id);
        assert forall|i: int| 0 <= i < insert_pos(s, id) implies (#[trigger] s[i]).id <= id by {
            if i > 0 {
                assert(s[i] == s.drop_first()[i - 1]);
            }
        }
        assert forall|i: int| insert_pos(s, id) <= i < s.len() implies id < (#[trigger] s[i]).id by {
            assert(s[i] == s.drop_first()[i - 1]);
        }
    }
}

/// Storing a window keeps the windows in id order.
pub proof fn lemma_upsert_sorted(s: Seq<NiriWindowView>, w: NiriWindowView)
    requires
        ids_sorted(s),
    ensures
        ids_sorted(upsert(s, w)),
{
    lemma_position_of_bounds(niri_ids(s), w.id);
    let i = position_of(niri_ids(s), w.id);
    let n = upsert(s, w);
    if i >= 0 {
        assert(niri_ids(s)[i] == s[i].id);
        assert forall|a: int, b: int| 0 <= a < b < n.len() implies (#[trigger] n[a]).id < (#[trigger] n[b]).id by {
            assert(n[a].id == s[a].id && n[b].id == s[b].id);
        }
    } else {
        lemma_insert_pos(s, w.id);
        let p = insert_pos(s, w.id);
        assert forall|k: int| 0 <= k < s.len() implies s[k].id != w.id by {
            assert(niri_ids(s)[k] == s[k].id);
        }
        assert forall|a: int, b: int| 0 <= a < b < n.len() implies (#[trigger] n[a]).id < (#[trigger] n[b]).id by {
            if b < p {
                assert(n[a] == s[a] && n[b] == s[b]);
            } else if b == p {
                assert(n[a] == s[a]);
            } else if a == p {
                assert(n[b] == s[b - 1]);
            } else if a < p {
                assert(n[a] == s[a] && n[b] == s[b - 1]);
            } else {
                assert(n[a] == s[a - 1] && n[b] == s[b - 1]);
            }
        }
    }
}

proof fn lemma_from_list_sorted(list: Seq<NiriWindowView>)
    ensures
        ids_sorted(from_list(list)),
    decreases list.len(),
{
    if list.len() > 0 {
        lemma_from_list_sorted(list.drop_last());
        lemma_upsert_sorted(from_list(list.drop_last()), list.last());
    }
}

impl Clone for NiriWindow {
    fn clone(&self) -> (r: Self)
        ensures
            r@ == self@,
    {
        NiriWindow {
            id: self.id,
            title: clone_opt_string(&self.title),
            app_id: clone_opt_string(&self.app_id),
            is_focused: self.is_focused,
        }
    }
}

impl NiriWindows {
    /// One window per id, in increasing id order.
    #[verifier::type_invariant]
    spec fn inv(self) -> bool {
        ids_sorted(self@)
    }

    /// No windows.
    pub fn new() -> (r: Self)
        ensures
            r@ == Seq::<NiriWindowView>::empty(),
    {
        let r = NiriWindows { entries: Vec::new() };
        assert(r@ =~= Seq::<NiriWindowView>::empty());
        r
    }

    fn position(entries: &Vec<NiriWindow>, id: u64) -> (r: Option<usize>)
        ensures
            match r {
                Some(i) => i < entries.len() && i as int == position_of(niri_ids(niri_views(entries@)), id),
                None => position_of(niri_ids(niri_views(entries@)), id) == -1,
            },
    {
        let ghost v = niri_ids(niri_views(entries@));
        let mut i: usize = 0;
        while i < entries.len()
            invariant
                i <= entries.len(),
                v == niri_ids(niri_views(entries@)),
                forall|j: int| 0 <= j < i ==> v[j] != id,
            decreases entries.len() - i,
        {
            if entries[i].id == id {
                proof {
                    lemma_position_of_first(v, id, i as int);
                }
                return Some(i);
            }
            i = i + 1;
        }
        proof {
            lemma_position_of_absent(v, id);
        }
        None
    }

    fn store(entries: &mut Vec<NiriWindow>, w: NiriWindow)
        requires
            ids_sorted(niri_views(old(entries)@)),
        ensures
            niri_views(final(entries)@) == upsert(niri_views(old(entries)@), w@),
            ids_sorted(niri_views(final(entries)@)),
    {
        let ghost before = niri_views(entries@);
        let ghost wv = w@;
        proof {
            lemma_upsert_sorted(before, wv);
        }
        match Self::position(entries, w.id) {
            Some(i) => {
                entries.set(i, w);
                assert(niri_views(entries@) =~= before.update(i as int, wv));
            },
            None => {
                let mut p: usize = 0;
                assert(before.skip(0) == before);
                while p < entries.len() && !(w.id < entries[p].id)
                    invariant
                        p <= entries.len(),
                        before == niri_views(entries@),
                        wv == w@,
                        insert_pos(before, w.id) == p + insert_pos(before.skip(p as int), w.id),
                    decreases entries.len() - p,
                {
                    assert(before.skip(p as int).drop_first() == before.skip(p + 1));
                    p = p + 1;
                }
                entries.insert(p, w);
                assert(niri_views(entries@) =~= before.insert(p as int, wv));
            },
        }
    }

    /// Marks each window focused exactly when its id is `id`.
    fn refocus(entries: &mut Vec<NiriWindow>, id: Option<u64>)
        ensures
            niri_views(final(entries)@) == focus_only(niri_views(old(entries)@), id),
    {
        let ghost before = niri_views(entries@);
        let mut i: usize = 0;
        while i < entries.len()
            invariant
                i <= entries.len(),
                entries.len() == before.len(),
                forall|k: int| 0 <= k < i ==> niri_views(entries@)[k] == with_focus(before[k], Some(before[k].id) == id),
                forall|k: int| i <= k < entries.len() ==> niri_views(entries@)[k] == before[k],
            decreases entries.len() - i,
        {
            let ghost prev = entries@;
            let w = entries.remove(i);
            let focused = match id {
                Some(f) => w.id == f,
                None => false,
            };
            let ghost wv = w@;
            entries.insert(i, NiriWindow { id: w.id, title: w.title, app_id: w.app_id, is_focused: focused });
            assert(niri_views(entries@)[i as int] == with_focus(before[i as int], Some(before[i as int].id) == id));
            assert forall|k: int| 0 <= k < entries.len() && k != i implies entries@[k] == prev[k] by {}
            assert forall|k: int| 0 <= k <= i implies niri_views(entries@)[k] == with_focus(before[k], Some(before[k].id) == id) by {
                if k < i {
                    assert(entries@[k] == prev[k]);
                    assert(niri_views(prev)[k] == prev[k]@);
                }
            }
            assert forall|k: int| i < k < entries.len() implies niri_views(entries@)[k] == before[k] by {
                assert(entries@[k] == prev[k]);
                assert(niri_views(prev)[k] == prev[k]@);
            }
            i = i + 1;
        }
        assert(niri_views(entries@) =~= focus_only(before, id));
    }

    /// Applies an event; returns whether the dock must get a new snapshot
    /// (every event but `Other`).
    pub fn apply_event(&mut self, event: NiriEvent) -> (publish: bool)
        ensures
            match event {
                NiriEvent::WindowsChanged { windows } => final(self)@ == from_list(niri_views(windows@)) && publish,
                NiriEvent::WindowOpenedOrChanged { window } => final(self)@ == upsert(
                    if window.is_focused {
                        unfocus_all(old(self)@)
                    } else {
                        old(self)@
                    },
                    window@,
                ) && publish,
                NiriEvent::WindowClosed { id } => final(self)@ == remove_window(old(self)@, id) && publish,
                NiriEvent::WindowFocusChanged { id } => final(self)@ == focus_only(old(self)@, id) && publish,
                NiriEvent::Other => final(self)@ == old(self)@ && !publish,
            },
    {
        proof {
            use_type_invariant(&*self);
        }
        let ghost old_view = self@;
        match event {
            NiriEvent::WindowsChanged { windows } => {
                let ghost lv = niri_views(windows@);
                let mut entries: Vec<NiriWindow> = Vec::new();
                let mut i: usize = 0;
                assert(niri_views(entries@) =~= from_list(lv.take(0)));
                while i < windows.len()
                    invariant
                        i <= windows.len(),
                        lv == niri_views(windows@),
                        niri_views(entries@) == from_list(lv.take(i as int)),
                        ids_sorted(niri_views(entries@)),
                    decreases windows.len() - i,
                {
                    assert(lv.take(i + 1).drop_last() == lv.take(i as int));
                    assert(lv.take(i + 1).last() == windows@[i as int]@);
                    Self::store(&mut entries, windows[i].clone());
                    i = i + 1;
                }
                assert(lv.take(windows.len() as int) == lv);
                self.entries = entries;
                true
            },
            NiriEvent::WindowOpenedOrChanged { window } => {
                let mut entries: Vec<NiriWindow> = Vec::new();
                std::mem::swap(&mut entries, &mut self.entries);
                if window.is_focused {
                    Self::refocus(&mut entries, None);
                    assert(focus_only(old_view, None) =~= unfocus_all(old_view));
                    assert forall|a: int, b: int| 0 <= a < b < unfocus_all(old_view).len() implies (#[trigger] unfocus_all(old_view)[a]).id
                        < (#[trigger] unfocus_all(old_view)[b]).id by {
                        assert(old_view[a].id < old_view[b].id);
                    }
                } else {
                    assert(niri_views(entries@) == old_view);
                }
                Self::store(&mut entries, window);
                self.entries = entries;
                true
            },
            NiriEvent::WindowClosed { id } => {
                let mut entries: Vec<NiriWindow> = Vec::new();
                std::mem::swap(&mut entries, &mut self.entries);
                match Self::position(&entries, id) {
                    Some(i) => {
                        entries.remove(i);
                        let ghost n = niri_views(entries@);
                        assert(n =~= old_view.remove(i as int));
                        assert forall|a: int, b: int| 0 <= a < b < n.len() implies (#[trigger] n[a]).id
                            < (#[trigger] n[b]).id by {
                            if a < i as int && b >= i as int {
                                assert(n[b] == old_view[b + 1]);
                            } else if a >= i as int {
                                assert(n[a] == old_view[a + 1] && n[b] == old_view[b + 1]);
                            }
                        }
                    },
                    None => {},
                }
                self.entries = entries;
                true
            },
            NiriEvent::WindowFocusChanged { id } => {
                let mut entries: Vec<NiriWindow> = Vec::new();
                std::mem::swap(&mut entries, &mut self.entries);
                Self::refocus(&mut entries, id);
                assert forall|a: int, b: int| 0 <= a < b < focus_only(old_view, id).len() implies (#[trigger] focus_only(old_view, id)[a]).id
                    < (#[trigger] focus_only(old_view, id)[b]).id by {
                    assert(old_view[a].id < old_view[b].id);
                }
                self.entries = entries;
                true
            },
            NiriEvent::Other => false,
        }
    }

    /// The snapshot published to the dock: each window in id order.
    pub fn snapshot(&self) -> (r: Vec<WindowState>)
        ensures
            windows_view(r@) == self@.map_values(|w: NiriWindowView| niri_window_state(w)),
            ids_sorted(self@),
    {
        proof {
            use_type_invariant(self);
        }
        let ghost target = self@.map_values(|w: NiriWindowView| niri_window_state(w));
        let mut out: Vec<WindowState> = Vec::new();
        let mut i: usize = 0;
        while i < self.entries.len()
            invariant
                i <= self.entries.len(),
                target == self@.map_values(|w: NiriWindowView| niri_window_state(w)),
                windows_view(out@) == target.take(i as int),
            decreases self.entries.len() - i,
        {
            let w = &self.entries[i];
            let number = u64_to_decimal(w.id);
            let id = concat_str("niri-", number.as_str());
            let state = WindowState {
                id,
                app_id: clone_opt_string(&w.app_id),
                title: clone_opt_string(&w.title),
                active: w.is_focused,
                badge_count: None,
            };
            let ghost before = out@;
            out.push(state);
            assert(windows_view(out@) == windows_view(before).push(state@));
            i = i + 1;
            assert(target.take(i as int) == target.take(i - 1).push(target[i - 1]));
        }
        assert(target.take(self.entries.len() as int) == target);
        out
    }
}

/// A window action sent to Niri.
#[derive(PartialEq, Eq, Structural, Clone, Copy, Debug)]
pub enum NiriAction {
    FocusWindow { id: u64 },
    CloseWindow { id: Option<u64> },
}

/// The Niri window id in a dock window id: the number after `niri-`.
pub open spec fn niri_window_id(dock_id: Seq<char>) -> Option<u64> {
    if has_prefix(dock_id, "niri-"@) {
        parse_u64_spec(dock_id.skip("niri-"@.len() as int))
    } else {
        None
    }
}

/// The Niri window id in a dock window id (see [`niri_window_id`]).
pub fn parse_window_id(dock_id: &str) -> (r: Option<u64>)
    ensures
        r == niri_window_id(dock_id@),
{
    let chars = chars_of(dock_id);
    let prefix = chars_of("niri-");
    if !starts_with(&chars, &prefix) {
        return None;
    }
    let mut rest: Vec<char> = Vec::new();
    let mut i: usize = prefix.len();
    while i < chars.len()
        invariant
            prefix.len() <= i <= chars.len(),
            chars@ == dock_id@,
            rest@ == chars@.subrange(prefix.len() as int, i as int),
        decreases chars.len() - i,
    {
        rest.push(chars[i]);
        i = i + 1;
    }
    assert(rest@ == dock_id@.skip("niri-"@.len() as int));
    let text = string_from_chars(rest.as_slice());
    parse_u64(text.as_str())
}

/// The Niri action for a dock request, or `None` for a window that is not
/// Niri's: focusing for `Activate`, closing for `Close`.
pub fn action_for(request: &BackendRequest) -> (r: Option<NiriAction>)
    ensures
        match request {
            BackendRequest::Activate(id) => r == match niri_window_id(id@) {
                Some(n) => Some(NiriAction::FocusWindow { id: n }),
                None => None::<NiriAction>,
            },
            BackendRequest::Close(id) => r == match niri_window_id(id@) {
                Some(n) => Some(NiriAction::CloseWindow { id: Some(n) }),
                None => None::<NiriAction>,
            },
        },
{
    match request {
        BackendRequest::Activate(id) => match parse_window_id(id.as_str()) {
            Some(n) => Some(NiriAction::FocusWindow { id: n }),
            None => None,
        },
        BackendRequest::Close(id) => match parse_window_id(id.as_str()) {
            Some(n) => Some(NiriAction::CloseWindow { id: Some(n) }),
            None => None,
        },
    }
}

/// A request about a window of the published snapshot reaches that very
/// Niri window: the dock id reads back as the window's id.
pub proof fn law_dock_id_round_trip(w: NiriWindowView)
    ensures
        niri_window_id(niri_window_state(w).id) == Some(w.id),
{
    let p = "niri-"@;
    let d = decimal(w.id as nat);
    let s = p + d;
    assert(s.take(p.len() as int) =~= p);
    assert(s.skip(p.len() as int) =~= d);
    lemma_parse_decimal(w.id);
}

/// A full window list yields one window per id, in increasing id order,
/// the last listed window winning for a repeated id.
pub proof fn law_windows_changed_sorted(list: Seq<NiriWindowView>)
    ensures
        ids_sorted(from_list(list)),
{
    lemma_from_list_sorted(list);
}

} // verus!
