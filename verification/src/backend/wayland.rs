//! The wlr-foreign-toplevel backend's window model: the toplevels the
//! compositor announced, keyed by their protocol object, the dock ids
//! handed out for them, and the snapshot published from them.
use vstd::prelude::*;

use crate::catalog::clone_opt_string;
use crate::model::{opt_str_view, windows_view, WindowState, WindowStateView};
use crate::pins::{lemma_position_of_absent, lemma_position_of_bounds, lemma_position_of_first, position_of};
use crate::text::{concat_str, decimal, u64_to_decimal};

verus! {

broadcast use vstd::seq_lib::group_seq_properties;

/// The value of a 4-byte chunk read little-endian.
pub open spec fn le_u32(b0: u8, b1: u8, b2: u8, b3: u8) -> int {
    b0 + 256 * b1 + 65536 * b2 + 16777216 * b3
}

/// `u32::from_ne_bytes`: the chunk read in the machine's byte order. That
/// order depends on the machine, so the contract says only that it is the
/// little-endian or the big-endian reading.
#[verifier::external_body]
fn u32_from_ne_bytes(b0: u8, b1: u8, b2: u8, b3: u8) -> (r: u32)
    ensures
        r == le_u32(b0, b1, b2, b3) || r == le_u32(b3, b2, b1, b0),
{
    u32::from_ne_bytes([b0, b1, b2, b3])
}

/// The chunk at `i` of `bytes` read little-endian.
pub open spec fn le_chunk(bytes: Seq<u8>, i: int) -> int {
    le_u32(bytes[4 * i], bytes[4 * i + 1], bytes[4 * i + 2], bytes[4 * i + 3])
}

/// The chunk at `i` of `bytes` read big-endian.
pub open spec fn be_chunk(bytes: Seq<u8>, i: int) -> int {
    le_u32(bytes[4 * i + 3], bytes[4 * i + 2], bytes[4 * i + 1], bytes[4 * i])
}

/// Four bytes read little-endian, or big-endian when `little` is false.
fn read_chunk(b0: u8, b1: u8, b2: u8, b3: u8, little: bool) -> (r: u32)
    ensures
        little ==> r == le_u32(b0, b1, b2, b3),
        !little ==> r == le_u32(b3, b2, b1, b0),
{
    if little {
        b0 as u32 + 256 * (b1 as u32) + 65536 * (b2 as u32) + 16777216 * (b3 as u32)
    } else {
        b3 as u32 + 256 * (b2 as u32) + 65536 * (b1 as u32) + 16777216 * (b0 as u32)
    }
}

/// The state values of a toplevel's `state` event: the array read as
/// 4-byte values, all in the machine's one byte order (found by reading
/// the bytes 1, 0, 0, 0 in it), a trailing partial chunk ignored. Which
/// order that is depends on the machine: every value is read
/// little-endian, or every value big-endian.
pub fn decode_states(bytes: &[u8]) -> (r: Vec<u32>)
    ensures
        r.len() == bytes.len() / 4,
        (forall|i: int| 0 <= i < r.len() ==> #[trigger] r@[i] == le_chunk(bytes@, i)) || (forall|i: int|
            0 <= i < r.len() ==> #[trigger] r@[i] == be_chunk(bytes@, i)),
{
    let little = u32_from_ne_bytes(1, 0, 0, 0) == 1;
    let n = bytes.len() / 4;
    let mut r: Vec<u32> = Vec::new();
    let mut i: usize = 0;
    while i < n
        invariant
            i <= n,
            n == bytes.len() / 4,
            r.len() == i,
            little ==> forall|k: int| 0 <= k < i ==> #[trigger] r@[k] == le_chunk(bytes@, k),
            !little ==> forall|k: int| 0 <= k < i ==> #[trigger] r@[k] == be_chunk(bytes@, k),
        decreases n - i,
    {
        let base = 4 * i;
        r.push(read_chunk(bytes[base], bytes[base + 1], bytes[base + 2], bytes[base + 3], little));
        i = i + 1;
    }
    r
}

/// The protocol's value of the `activated` toplevel state (2), taken from
/// the generated `zwlr_foreign_toplevel_handle_v1::State`.
#[verifier::external_body]
fn activated_state() -> (r: u32)
    ensures
        r == 2,
{
    wayland_protocols_wlr::foreign_toplevel::v1::client::zwlr_foreign_toplevel_handle_v1::State::Activated as u32
}

/// What the dock knows of a toplevel.
pub struct Toplevel {
    /// The key of the toplevel's protocol object.
    pub key: u32,
    pub dock_id: String,
    pub app_id: Option<String>,
    pub title: Option<String>,
    pub active: bool,
    pub badge_count: Option<u32>,
}

/// View of a [`Toplevel`].
pub struct ToplevelView {
    pub key: u32,
    pub dock_id: Seq<char>,
    pub app_id: Option<Seq<char>>,
    pub title: Option<Seq<char>>,
    pub active: bool,
    pub badge_count: Option<u32>,
}

impl View for Toplevel {
    type V = ToplevelView;

    open spec fn view(&self) -> ToplevelView {
        ToplevelView {
            key: self.key,
            dock_id: self.dock_id@,
            app_id: opt_str_view(self.app_id),
            title: opt_str_view(self.title),
            active: self.active,
            badge_count: self.badge_count,
        }
    }
}

/// The views of a list of toplevels.
pub open spec fn toplevels_view(s: Seq<Toplevel>) -> Seq<ToplevelView> {
    s.map_values(|t: Toplevel| t@)
}

/// The keys of a list of toplevels.
pub open spec fn toplevel_keys(s: Seq<ToplevelView>) -> Seq<u32> {
    s.map_values(|t: ToplevelView| t.key)
}

/// The dock id of the `n`-th announced toplevel.
pub open spec fn wlr_dock_id(n: u64) -> Seq<char> {
    "wlr-"@ + decimal(n as nat)
}

/// What the dock shows of a toplevel.
pub open spec fn toplevel_state(t: ToplevelView) -> WindowStateView {
    WindowStateView { id: t.dock_id, app_id: t.app_id, title: t.title, active: t.active, badge_count: t.badge_count }
}

/// The next counter value: one more, wrapping at the top.
pub open spec fn next_counter(n: u64) -> u64 {
    if n == u64::MAX {
        0
    } else {
        (n + 1) as u64
    }
}

/// The toplevels of a compositor session and the counter of dock ids,
/// which outlives sessions so that dock ids are not reused.
pub struct ToplevelTracker {
    entries: Vec<Toplevel>,
    next_id: u64,
}

impl View for ToplevelTracker {
    type V = (Seq<ToplevelView>, u64);

    closed spec fn view(&self) -> (Seq<ToplevelView>, u64) {
        (toplevels_view(self.entries@), self.next_id)
    }
}

impl ToplevelTracker {
    /// No toplevels; dock ids start at `wlr-1`.
    pub fn new() -> (r: Self)
        ensures
            r@.0 == Seq::<ToplevelView>::empty(),
            r@.1 == 1,
    {
        let r = ToplevelTracker { entries: Vec::new(), next_id: 1 };
        assert(r@.0 =~= Seq::<ToplevelView>::empty());
        r
    }

    fn position(&self, key: u32) -> (r: Option<usize>)
        ensures
            match r {
                Some(i) => i < self.entries.len() && i as int == position_of(toplevel_keys(self@.0), key),
                None => position_of(toplevel_keys(self@.0), key) == -1,
            },
    {
        let ghost v = toplevel_keys(self@.0);
        let mut i: usize = 0;
        while i < self.entries.len()
            invariant
                i <= self.entries.len(),
                v == toplevel_keys(self@.0),
                forall|j: int| 0 <= j < i ==> v[j] != key,
            decreases self.entries.len() - i,
        {
            if self.entries[i].key == key {
                proof {
                    lemma_position_of_first(v, key, i as int);
                }
                return Some(i);
            }
            i = i + 1;
        }
        proof {
            lemma_position_of_absent(v, key);
        }
        None
    }

    /// A new toplevel was announced: it gets the next dock id (returned),
    /// no title or application yet, and is not active. A toplevel already
    /// known under this key is replaced.
    pub fn toplevel_created(&mut self, key: u32) -> (dock_id: String)
        ensures
            dock_id@ == wlr_dock_id(old(self)@.1),
            final(self)@.1 == next_counter(old(self)@.1),
            ({
                let t = ToplevelView {
                    key,
                    dock_id: dock_id@,
                    app_id: None,
                    title: None,
                    active: false,
                    badge_count: None,
                };
                let i = position_of(toplevel_keys(old(self)@.0), key);
                final(self)@.0 == if i >= 0 {
                    old(self)@.0.update(i, t)
                } else {
                    old(self)@.0.push(t)
                }
            }),
    {
        let number = u64_to_decimal(self.next_id);
        let dock_id = concat_str("wlr-", number.as_str());
        self.next_id = self.next_id.wrapping_add(1);
        let t = Toplevel { key, dock_id: dock_id.clone(), app_id: None, title: None, active: false, badge_count: None };
        let ghost before = self@.0;
        match self.position(key) {
            Some(i) => {
                self.entries.set(i, t);
                assert(self@.0 =~= before.update(i as int, t@));
            },
            None => {
                self.entries.push(t);
                assert(self@.0 =~= before.push(t@));
            },
        }
        dock_id
    }

    /// Updates the known toplevel with this key; returns whether it is known.
    fn update(
        &mut self,
        key: u32,
        title: Option<Option<String>>,
        app_id: Option<Option<String>>,
        active: Option<bool>,
    ) -> (known: bool)
        ensures
            known == (position_of(toplevel_keys(old(self)@.0), key) >= 0),
            final(self)@.1 == old(self)@.1,
            ({
                let i = position_of(toplevel_keys(old(self)@.0), key);
                let o = old(self)@.0;
                final(self)@.0 == if i >= 0 {
                    o.update(
                        i,
                        ToplevelView {
                            title: match title {
                                Some(t) => opt_str_view(t),
                                None => o[i].title,
                            },
                            app_id: match app_id {
                                Some(a) => opt_str_view(a),
                                None => o[i].app_id,
                            },
                            active: match active {
                                Some(x) => x,
                                None => o[i].active,
                            },
                            ..o[i]
                        },
                    )
                } else {
                    o
                }
            }),
    {
        let ghost before = self@.0;
        match self.position(key) {
            Some(i) => {
                proof {
                    lemma_position_of_bounds(toplevel_keys(before), key);
                }
                let old_t = self.entries.remove(i);
                let t = Toplevel {
                    key: old_t.key,
                    dock_id: old_t.dock_id,
                    app_id: match app_id {
                        Some(a) => a,
                        None => old_t.app_id,
                    },
                    title: match title {
                        Some(x) => x,
                        None => old_t.title,
                    },
                    active: match active {
                        Some(x) => x,
                        None => old_t.active,
                    },
                    badge_count: old_t.badge_count,
                };
                self.entries.insert(i, t);
                assert(self@.0 =~= before.update(
                    i as int,
                    ToplevelView {
                        title: opt_str_view(t.title),
                        app_id: opt_str_view(t.app_id),
                        active: t.active,
                        ..before[i as int]
                    },
                ));
                true
            },
            None => false,
        }
    }

    /// The toplevel's title changed.
    pub fn set_title(&mut self, key: u32, title: String) -> (known: bool)
        ensures
            known == (position_of(toplevel_keys(old(self)@.0), key) >= 0),
            final(self)@.1 == old(self)@.1,
            ({
                let i = position_of(toplevel_keys(old(self)@.0), key);
                let o = old(self)@.0;
                final(self)@.0 == if i >= 0 {
                    o.update(i, ToplevelView { title: Some(title@), ..o[i] })
                } else {
                    o
                }
            }),
    {
        let ghost t = title@;
        let r = self.update(key, Some(Some(title)), None, None);
        proof {
            let i = position_of(toplevel_keys(old(self)@.0), key);
            let o = old(self)@.0;
            if i >= 0 {
                assert(self@.0 =~= o.update(i, ToplevelView { title: Some(t), ..o[i] }));
            }
        }
        r
    }

    /// The toplevel's application id changed.
    pub fn set_app_id(&mut self, key: u32, app_id: String) -> (known: bool)
        ensures
            known == (position_of(toplevel_keys(old(self)@.0), key) >= 0),
            final(self)@.1 == old(self)@.1,
            ({
                let i = position_of(toplevel_keys(old(self)@.0), key);
                let o = old(self)@.0;
                final(self)@.0 == if i >= 0 {
                    o.update(i, ToplevelView { app_id: Some(app_id@), ..o[i] })
                } else {
                    o
                }
            }),
    {
        let ghost a = app_id@;
        let r = self.update(key, None, Some(Some(app_id)), None);
        proof {
            let i = position_of(toplevel_keys(old(self)@.0), key);
            let o = old(self)@.0;
            if i >= 0 {
                assert(self@.0 =~= o.update(i, ToplevelView { app_id: Some(a), ..o[i] }));
            }
        }
        r
    }

    /// The toplevel's states changed: it is active exactly when the states
    /// include `activated`.
    pub fn set_states(&mut self, key: u32, states: &Vec<u32>) -> (known: bool)
        ensures
            known == (position_of(toplevel_keys(old(self)@.0), key) >= 0),
            final(self)@.1 == old(self)@.1,
            ({
                let i = position_of(toplevel_keys(old(self)@.0), key);
                let o = old(self)@.0;
                final(self)@.0 == if i >= 0 {
                    o.update(i, ToplevelView { active: states@.contains(2u32), ..o[i] })
                } else {
                    o
                }
            }),
    {
        let activated = activated_state();
        let mut active = false;
        let mut j: usize = 0;
        while j < states.len()
            invariant
                j <= states.len(),
                activated == 2,
                active == states@.take(j as int).contains(2u32),
            decreases states.len() - j,
        {
            assert(states@.take(j + 1) == states@.take(j as int).push(states@[j as int]));
            if states[j] == activated {
                active = true;
                assert(states@.take(j + 1)[j as int] == 2u32);
            } else {
                assert forall|q: int| 0 <= q < j + 1 && states@.take(j + 1)[q] == 2u32 implies states@.take(
                    j as int,
                )[q] == 2u32 by {}
            }
            j = j + 1;
        }
        assert(states@.take(states.len() as int) == states@);
        let r = self.update(key, None, None, Some(active));
        proof {
            let i = position_of(toplevel_keys(old(self)@.0), key);
            let o = old(self)@.0;
            if i >= 0 {
                assert(self@.0 =~= o.update(i, ToplevelView { active: states@.contains(2u32), ..o[i] }));
            }
        }
        r
    }

    /// The compositor finished describing a toplevel: publish a snapshot
    /// when the toplevel is known.
    pub fn done(&self, key: u32) -> (publish: bool)
        ensures
            publish == (position_of(toplevel_keys(self@.0), key) >= 0),
    {
        self.position(key).is_some()
    }

    /// The toplevel closed: it is forgotten, and its dock id is returned
    /// (the dock then publishes a snapshot) when it was known.
    pub fn closed(&mut self, key: u32) -> (removed: Option<String>)
        ensures
            final(self)@.1 == old(self)@.1,
            ({
                let i = position_of(toplevel_keys(old(self)@.0), key);
                &&& i >= 0 ==> removed is Some && removed->0@ == old(self)@.0[i].dock_id && final(self)@.0
                    == old(self)@.0.remove(i)
                &&& i < 0 ==> removed is None && final(self)@.0 == old(self)@.0
            }),
    {
        let ghost before = self@.0;
        match self.position(key) {
            Some(i) => {
                let t = self.entries.remove(i);
                assert(self@.0 =~= before.remove(i as int));
                Some(t.dock_id)
            },
            None => None,
        }
    }

    /// Forgets every toplevel (the manager finished, or the session ended);
    /// the dock-id counter carries on.
    pub fn clear(&mut self)
        ensures
            final(self)@.0 == Seq::<ToplevelView>::empty(),
            final(self)@.1 == old(self)@.1,
    {
        self.entries = Vec::new();
        assert(self@.0 =~= Seq::<ToplevelView>::empty());
    }

    /// The snapshot published to the dock, one window per known toplevel.
    pub fn snapshot(&self) -> (r: Vec<WindowState>)
        ensures
            windows_view(r@) == self@.0.map_values(|t: ToplevelView| toplevel_state(t)),
    {
        let ghost target = self@.0.map_values(|t: ToplevelView| toplevel_state(t));
        let mut out: Vec<WindowState> = Vec::new();
        let mut i: usize = 0;
        while i < self.entries.len()
            invariant
                i <= self.entries.len(),
                target == self@.0.map_values(|t: ToplevelView| toplevel_state(t)),
                windows_view(out@) == target.take(i as int),
            decreases self.entries.len() - i,
        {
            let t = &self.entries[i];
            let state = WindowState {
                id: t.dock_id.clone(),
                app_id: clone_opt_string(&t.app_id),
                title: clone_opt_string(&t.title),
                active: t.active,
                badge_count: t.badge_count,
            };
            let ghost before = out@;
            out.push(state);
            assert(windows_view(out@) == windows_view(before).push(state@));
            i = i + 1;
            assert(target.take(i as int) == target.take(i - 1).push(target[i - 1]));
        }
        assert(target.take(self.entries.len() as int) == target);
        out
    }
}

/// Distinct counter values give distinct dock ids, so no two toplevels
/// announced before the counter wraps share a dock id.
pub proof fn law_dock_ids_distinct(a: u64, b: u64)
    requires
        a != b,
    ensures
        wlr_dock_id(a) != wlr_dock_id(b),
{
    crate::text::lemma_parse_decimal(a);
    crate::text::lemma_parse_decimal(b);
    let p = "wlr-"@;
    if wlr_dock_id(a) == wlr_dock_id(b) {
        assert((p + decimal(a as nat)).skip(p.len() as int) =~= decimal(a as nat));
        assert((p + decimal(b as nat)).skip(p.len() as int) =~= decimal(b as nat));
    }
}

} // verus!
