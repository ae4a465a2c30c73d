use vstd::prelude::*;

verus! {

/// One toplevel window as reported by a compositor backend.
pub struct WindowState {
    pub id: String,
    pub app_id: Option<String>,
    pub title: Option<String>,
    pub active: bool,
    pub badge_count: Option<u32>,
}

/// Mathematical view of a [`WindowState`]: strings taken as character sequences.
pub struct WindowStateView {
    pub id: Seq<char>,
    pub app_id: Option<Seq<char>>,
    pub title: Option<Seq<char>>,
    pub active: bool,
    pub badge_count: Option<u32>,
}

pub open spec fn opt_str_view(s: Option<String>) -> Option<Seq<char>> {
    match s {
        Some(v) => Some(v@),
        None => None,
    }
}

impl View for WindowState {
    type V = WindowStateView;

    open spec fn view(&self) -> WindowStateView {
        WindowStateView {
            id: self.id@,
            app_id: opt_str_view(self.app_id),
            title: opt_str_view(self.title),
            active: self.active,
            badge_count: self.badge_count,
        }
    }
}

/// A request sent from the dock to the window backend.
pub enum BackendRequest {
    Activate(String),
    Close(String),
}

/// The views of a list of windows.
pub open spec fn windows_view(ws: Seq<WindowState>) -> Seq<WindowStateView> {
    ws.map_values(|w: WindowState| w@)
}

/// A copy of an optional string.
pub fn clone_opt_str(s: &Option<String>) -> (r: Option<String>)
    ensures
        opt_str_view(r) == opt_str_view(*s),
{
    match s {
        Some(v) => Some(v.clone()),
        None => None,
    }
}

impl Clone for WindowState {
    fn clone(&self) -> (r: Self)
        ensures
            r@ == self@,
    {
        WindowState {
            id: self.id.clone(),
            app_id: clone_opt_str(&self.app_id),
            title: clone_opt_str(&self.title),
            active: self.active,
            badge_count: self.badge_count,
        }
    }
}

/// A copy of a list of windows.
pub fn clone_windows(ws: &Vec<WindowState>) -> (r: Vec<WindowState>)
    ensures
        windows_view(r@) == windows_view(ws@),
{
    let mut r: Vec<WindowState> = Vec::new();
    let mut i: usize = 0;
    while i < ws.len()
        invariant
            i <= ws.len(),
            windows_view(r@) == windows_view(ws@).take(i as int),
        decreases ws.len() - i,
    {
        let ghost before = r@;
        r.push(ws[i].clone());
        assert(windows_view(r@) == windows_view(before).push(ws@[i as int]@));
        i = i + 1;
        assert(windows_view(ws@).take(i as int) == windows_view(ws@).take(i - 1).push(ws@[i - 1]@));
    }
    assert(windows_view(ws@).take(ws.len() as int) == windows_view(ws@));
    r
}

/// Whether two optional strings are equal.
pub fn opt_str_eq(a: &Option<String>, b: &Option<String>) -> (r: bool)
    ensures
        r == (opt_str_view(*a) == opt_str_view(*b)),
{
    match (a, b) {
        (Some(x), Some(y)) => *x == *y,
        (None, None) => true,
        _ => false,
    }
}

/// Whether two windows are equal, field by field.
pub fn window_eq(a: &WindowState, b: &WindowState) -> (r: bool)
    ensures
        r == (a@ == b@),
{
    let same_badge = match (a.badge_count, b.badge_count) {
        (Some(x), Some(y)) => x == y,
        (None, None) => true,
        _ => false,
    };
    a.id == b.id && opt_str_eq(&a.app_id, &b.app_id) && opt_str_eq(&a.title, &b.title) && a.active
        == b.active && same_badge
}

/// Whether two window lists are equal, element by element.
pub fn windows_eq(a: &Vec<WindowState>, b: &Vec<WindowState>) -> (r: bool)
    ensures
        r == (windows_view(a@) == windows_view(b@)),
{
    if a.len() != b.len() {
        assert(windows_view(a@).len() != windows_view(b@).len());
        return false;
    }
    let mut i: usize = 0;
    while i < a.len()
        invariant
            a.len() == b.len(),
            i <= a.len(),
            forall|j: int| 0 <= j < i ==> a@[j]@ == b@[j]@,
        decreases a.len() - i,
    {
        if !window_eq(&a[i], &b[i]) {
            assert(windows_view(a@)[i as int] != windows_view(b@)[i as int]);
            return false;
        }
        i = i + 1;
    }
    assert(windows_view(a@) =~= windows_view(b@));
    true
}

} // verus!
