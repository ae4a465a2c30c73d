//! Placement of the dock: its layout for each screen edge, the monitors
//! that get a dock, and which configuration files a change touched.
use vstd::prelude::*;

use crate::config::{OutputMode, Position};
use crate::text::str_eq;

verus! {

/// A screen edge.
#[derive(PartialEq, Eq, Structural, Clone, Copy, Debug)]
pub enum Edge {
    Top,
    Bottom,
    Left,
    Right,
}

/// A box's direction.
#[derive(PartialEq, Eq, Structural, Clone, Copy, Debug)]
pub enum Axis {
    Horizontal,
    Vertical,
}

/// Alignment within the available space.
#[derive(PartialEq, Eq, Structural, Clone, Copy, Debug)]
pub enum Align {
    Start,
    Center,
    End,
}

/// The direction the dock slides in when revealed.
#[derive(PartialEq, Eq, Structural, Clone, Copy, Debug)]
pub enum Slide {
    Up,
    Down,
    Left,
    Right,
}

/// How the dock is laid out on its edge.
#[derive(PartialEq, Eq, Structural, Clone, Copy, Debug)]
pub struct DockLayout {
    pub margin_edge: Edge,
    pub transition: Slide,
    pub orientation: Axis,
    pub items_orientation: Axis,
    pub halign: Align,
    pub valign: Align,
    pub strip_expand_horizontal: bool,
    pub strip_expand_vertical: bool,
}

/// The layout of a dock on each edge: anchored to it, sliding in from it,
/// centred along it, its items running along it, and its hover strip
/// stretching along it.
pub open spec fn layout_for(position: Position) -> DockLayout {
    match position {
        Position::Top => DockLayout {
            margin_edge: Edge::Top,
            transition: Slide::Down,
            orientation: Axis::Vertical,
            items_orientation: Axis::Horizontal,
            halign: Align::Center,
            valign: Align::Start,
            strip_expand_horizontal: true,
            strip_expand_vertical: false,
        },
        Position::Left => DockLayout {
            margin_edge: Edge::Left,
            transition: Slide::Right,
            orientation: Axis::Horizontal,
            items_orientation: Axis::Vertical,
            halign: Align::Start,
            valign: Align::Center,
            strip_expand_horizontal: false,
            strip_expand_vertical: true,
        },
        Position::Right => DockLayout {
            margin_edge: Edge::Right,
            transition: Slide::Left,
            orientation: Axis::Horizontal,
            items_orientation: Axis::Vertical,
            halign: Align::End,
            valign: Align::Center,
            strip_expand_horizontal: false,
            strip_expand_vertical: true,
        },
        Position::Bottom => DockLayout {
            margin_edge: Edge::Bottom,
            transition: Slide::Up,
            orientation: Axis::Vertical,
            items_orientation: Axis::Horizontal,
            halign: Align::Center,
            valign: Align::End,
            strip_expand_horizontal: true,
            strip_expand_vertical: false,
        },
    }
}

impl DockLayout {
    /// The layout for a screen edge (see [`layout_for`]).
    pub fn from_position(position: Position) -> (r: Self)
        ensures
            r == layout_for(position),
    {
        match position {
            Position::Top => DockLayout {
                margin_edge: Edge::Top,
                transition: Slide::Down,
                orientation: Axis::Vertical,
                items_orientation: Axis::Horizontal,
                halign: Align::Center,
                valign: Align::Start,
                strip_expand_horizontal: true,
                strip_expand_vertical: false,
            },
            Position::Left => DockLayout {
                margin_edge: Edge::Left,
                transition: Slide::Right,
                orientation: Axis::Horizontal,
                items_orientation: Axis::Vertical,
                halign: Align::Start,
                valign: Align::Center,
                strip_expand_horizontal: false,
                strip_expand_vertical: true,
            },
            Position::Right => DockLayout {
                margin_edge: Edge::Right,
                transition: Slide::Left,
                orientation: Axis::Horizontal,
                items_orientation: Axis::Vertical,
                halign: Align::End,
                valign: Align::Center,
                strip_expand_horizontal: false,
                strip_expand_vertical: true,
            },
            Position::Bottom => DockLayout {
                margin_edge: Edge::Bottom,
                transition: Slide::Up,
                orientation: Axis::Vertical,
                items_orientation: Axis::Horizontal,
                halign: Align::Center,
                valign: Align::End,
                strip_expand_horizontal: true,
                strip_expand_vertical: false,
            },
        }
    }
}

/// Items run along the dock's edge and the dock stacks across it; the hover
/// strip stretches along the edge.
pub proof fn law_layout_runs_along_edge(position: Position)
    ensures
        layout_for(position).items_orientation != layout_for(position).orientation,
        layout_for(position).strip_expand_horizontal == (layout_for(position).items_orientation == Axis::Horizontal),
        layout_for(position).strip_expand_vertical == (layout_for(position).items_orientation == Axis::Vertical),
{
}

/// The dock is anchored to the screen edge its position names.
pub proof fn law_anchor_edge_is_position(position: Position)
    ensures
        position == Position::Top ==> layout_for(position).margin_edge == Edge::Top,
        position == Position::Bottom ==> layout_for(position).margin_edge == Edge::Bottom,
        position == Position::Left ==> layout_for(position).margin_edge == Edge::Left,
        position == Position::Right ==> layout_for(position).margin_edge == Edge::Right,
{
}

/// The direction across a box's direction (that of the separator between
/// pinned and running items).
pub fn across(axis: Axis) -> (r: Axis)
    ensures
        r != axis,
{
    match axis {
        Axis::Horizontal => Axis::Vertical,
        Axis::Vertical => Axis::Horizontal,
    }
}

/// How many docks there are for `available` monitors: one per monitor with
/// `All` when the layer shell is supported, otherwise one; also one when no
/// monitor is known (a dock not bound to any).
pub open spec fn dock_count(available: nat, outputs: OutputMode, layer_shell: bool) -> nat {
    if available == 0 {
        1
    } else if outputs == OutputMode::First || !layer_shell {
        1
    } else {
        available
    }
}

/// The monitors that get a dock, by index among the available ones;
/// `None` stands for a dock not bound to a monitor.
pub fn monitor_targets(available: usize, outputs: OutputMode, layer_shell: bool) -> (r: Vec<Option<usize>>)
    ensures
        r.len() == dock_count(available as nat, outputs, layer_shell),
        available == 0 ==> r@ == seq![None::<usize>],
        available > 0 ==> forall|i: int| 0 <= i < r.len() ==> r@[i] == Some(i as usize),
{
    let mut targets: Vec<Option<usize>> = Vec::new();
    if available == 0 {
        targets.push(None);
        assert(targets@ =~= seq![None::<usize>]);
        return targets;
    }
    let count = if outputs == OutputMode::First || !layer_shell { 1 } else { available };
    let mut i: usize = 0;
    while i < count
        invariant
            i <= count,
            targets.len() == i,
            forall|k: int| 0 <= k < i ==> targets@[k] == Some(k as usize),
        decreases count - i,
    {
        targets.push(Some(i));
        i = i + 1;
    }
    targets
}

/// Which configuration files changed.
#[derive(PartialEq, Eq, Structural, Clone, Copy, Debug)]
pub struct ConfigChangeSet {
    pub pins: bool,
    pub settings: bool,
    pub style: bool,
}

/// The changes an event on these file names means: each known file name
/// marks its file; an event naming no path marks all of them.
pub open spec fn changes_for(names: Seq<Option<Seq<char>>>) -> ConfigChangeSet {
    if names.len() == 0 {
        ConfigChangeSet { pins: true, settings: true, style: true }
    } else {
        ConfigChangeSet {
            pins: names.contains(Some("pins.json"@)),
            settings: names.contains(Some("settings.json"@)),
            style: names.contains(Some("style.css"@)),
        }
    }
}

/// The file names of a list of paths, as optional character sequences.
pub open spec fn names_view(names: Seq<Option<String>>) -> Seq<Option<Seq<char>>> {
    names.map_values(|n: Option<String>| crate::model::opt_str_view(n))
}

proof fn lemma_push_contains<A>(s: Seq<A>, x: A, y: A)
    ensures
        s.push(x).contains(y) == (s.contains(y) || x == y),
{
    if s.contains(y) {
        let j = choose|j: int| 0 <= j < s.len() && s[j] == y;
        assert(s.push(x)[j] == y);
    }
    if x == y {
        assert(s.push(x)[s.len() as int] == y);
    }
    if s.push(x).contains(y) {
        let j = choose|j: int| 0 <= j < s.push(x).len() && s.push(x)[j] == y;
        if j < s.len() {
            assert(s[j] == y);
        }
    }
}

impl ConfigChangeSet {
    /// No change.
    pub fn none() -> (r: Self)
        ensures
            !r.pins && !r.settings && !r.style,
    {
        ConfigChangeSet { pins: false, settings: false, style: false }
    }

    /// Whether nothing changed.
    pub fn is_empty(&self) -> (r: bool)
        ensures
            r == (!self.pins && !self.settings && !self.style),
    {
        !self.pins && !self.settings && !self.style
    }

    /// The changes of a file-watcher event, given the file name of each of
    /// its paths (`None` for a path without a textual file name).
    pub fn from_event(names: &Vec<Option<String>>) -> (r: Self)
        ensures
            r == changes_for(names_view(names@)),
    {
        let ghost nv = names_view(names@);
        if names.len() == 0 {
            return ConfigChangeSet { pins: true, settings: true, style: true };
        }
        let mut r = ConfigChangeSet::none();
        let mut i: usize = 0;
        while i < names.len()
            invariant
                i <= names.len(),
                nv == names_view(names@),
                r.pins == nv.take(i as int).contains(Some("pins.json"@)),
                r.settings == nv.take(i as int).contains(Some("settings.json"@)),
                r.style == nv.take(i as int).contains(Some("style.css"@)),
            decreases names.len() - i,
        {
            let ghost prefix = nv.take(i as int);
            assert(nv.take(i + 1) == prefix.push(nv[i as int]));
            assert(nv[i as int] == crate::model::opt_str_view(names@[i as int]));
            proof {
                lemma_push_contains(prefix, nv[i as int], Some("pins.json"@));
                lemma_push_contains(prefix, nv[i as int], Some("settings.json"@));
                lemma_push_contains(prefix, nv[i as int], Some("style.css"@));
            }
            match &names[i] {
                Some(name) => {
                    if str_eq(name.as_str(), "pins.json") {
                        r.pins = true;
                    }
                    if str_eq(name.as_str(), "settings.json") {
                        r.settings = true;
                    }
                    if str_eq(name.as_str(), "style.css") {
                        r.style = true;
                    }
                },
                None => {},
            }
            i = i + 1;
        }
        assert(nv.take(names.len() as int) == nv);
        r
    }

    /// Both sets of changes.
    pub fn union(&self, other: &Self) -> (r: Self)
        ensures
            r.pins == (self.pins || other.pins),
            r.settings == (self.settings || other.settings),
            r.style == (self.style || other.style),
    {
        ConfigChangeSet {
            pins: self.pins || other.pins,
            settings: self.settings || other.settings,
            style: self.style || other.style,
        }
    }
}

/// No change, as a value.
pub open spec fn no_changes() -> ConfigChangeSet {
    ConfigChangeSet { pins: false, settings: false, style: false }
}

/// Both sets of changes, as a value.
pub open spec fn union_of(a: ConfigChangeSet, b: ConfigChangeSet) -> ConfigChangeSet {
    ConfigChangeSet { pins: a.pins || b.pins, settings: a.settings || b.settings, style: a.style || b.style }
}

/// The changes that watcher events (each given by the file names of its
/// paths) add to `start`, in order.
pub open spec fn accumulated(start: ConfigChangeSet, events: Seq<Seq<Option<Seq<char>>>>) -> ConfigChangeSet
    decreases events.len(),
{
    if events.len() == 0 {
        start
    } else {
        union_of(accumulated(start, events.drop_last()), changes_for(events.last()))
    }
}

/// The configuration changes reported by the file watcher and not yet
/// handled.
pub struct PendingChanges {
    pending: ConfigChangeSet,
}

impl View for PendingChanges {
    type V = ConfigChangeSet;

    closed spec fn view(&self) -> ConfigChangeSet {
        self.pending
    }
}

impl PendingChanges {
    /// Nothing pending.
    pub fn new() -> (r: Self)
        ensures
            r@ == no_changes(),
    {
        PendingChanges { pending: ConfigChangeSet::none() }
    }

    /// Adds the changes of a watcher event, given the file name of each of
    /// its paths.
    pub fn mark_event(&mut self, names: &Vec<Option<String>>)
        ensures
            final(self)@ == union_of(old(self)@, changes_for(names_view(names@))),
    {
        let changes = ConfigChangeSet::from_event(names);
        self.pending = self.pending.union(&changes);
    }

    /// Takes the pending changes, leaving none.
    pub fn take(&mut self) -> (r: ConfigChangeSet)
        ensures
            r == old(self)@,
            final(self)@ == no_changes(),
    {
        let r = self.pending;
        self.pending = ConfigChangeSet::none();
        r
    }
}

/// Marking a sequence of events from no changes accumulates, for each
/// file, whether some event marked it (an event that names no path marks
/// every file).
pub proof fn law_changes_accumulate(events: Seq<Seq<Option<Seq<char>>>>)
    ensures
        accumulated(no_changes(), events).pins == exists|i: int|
            0 <= i < events.len() && (#[trigger] changes_for(events[i])).pins,
        accumulated(no_changes(), events).settings == exists|i: int|
            0 <= i < events.len() && (#[trigger] changes_for(events[i])).settings,
        accumulated(no_changes(), events).style == exists|i: int|
            0 <= i < events.len() && (#[trigger] changes_for(events[i])).style,
    decreases events.len(),
{
    if events.len() > 0 {
        let init = events.drop_last();
        let n = events.len() - 1;
        law_changes_accumulate(init);
        assert forall|i: int| 0 <= i < init.len() implies #[trigger] changes_for(init[i]) == changes_for(
            events[i],
        ) by {
            assert(init[i] == events[i]);
        }
        assert(events.last() == events[n]);
        if accumulated(no_changes(), init).pins {
            let i = choose|i: int| 0 <= i < init.len() && (#[trigger] changes_for(init[i])).pins;
            assert(changes_for(events[i]).pins);
        }
        if accumulated(no_changes(), init).settings {
            let i = choose|i: int| 0 <= i < init.len() && (#[trigger] changes_for(init[i])).settings;
            assert(changes_for(events[i]).settings);
        }
        if accumulated(no_changes(), init).style {
            let i = choose|i: int| 0 <= i < init.len() && (#[trigger] changes_for(init[i])).style;
            assert(changes_for(events[i]).style);
        }
        if exists|i: int| 0 <= i < events.len() && (#[trigger] changes_for(events[i])).pins {
            let i = choose|i: int| 0 <= i < events.len() && (#[trigger] changes_for(events[i])).pins;
            if i < n {
                assert(changes_for(init[i]).pins);
            }
        }
        if exists|i: int| 0 <= i < events.len() && (#[trigger] changes_for(events[i])).settings {
            let i = choose|i: int| 0 <= i < events.len() && (#[trigger] changes_for(events[i])).settings;
            if i < n {
                assert(changes_for(init[i]).settings);
            }
        }
        if exists|i: int| 0 <= i < events.len() && (#[trigger] changes_for(events[i])).style {
            let i = choose|i: int| 0 <= i < events.len() && (#[trigger] changes_for(events[i])).style;
            if i < n {
                assert(changes_for(init[i]).style);
            }
        }
    }
}

/// Marking events one call at a time and then taking the changes: when
/// `states` are the pending changes of a new [`PendingChanges`] and after
/// each [`PendingChanges::mark_event`] call (each step as its contract
/// gives it), the last of them, which [`PendingChanges::take`] returns, is
/// the accumulated changes of the events; for each file, it is set exactly
/// when some event marked it. The take leaves no change behind.
pub proof fn law_marked_events_are_taken(events: Seq<Seq<Option<Seq<char>>>>, states: Seq<ConfigChangeSet>)
    requires
        states.len() == events.len() + 1,
        states[0] == no_changes(),
        forall|k: int| 0 <= k < events.len() ==> #[trigger] states[k + 1] == union_of(states[k], changes_for(events[k])),
    ensures
        states.last() == accumulated(no_changes(), events),
        states.last().pins == exists|i: int| 0 <= i < events.len() && (#[trigger] changes_for(events[i])).pins,
        states.last().settings == exists|i: int|
            0 <= i < events.len() && (#[trigger] changes_for(events[i])).settings,
        states.last().style == exists|i: int| 0 <= i < events.len() && (#[trigger] changes_for(events[i])).style,
    decreases events.len(),
{
    if events.len() > 0 {
        let n = events.len() - 1;
        let e = events.drop_last();
        let st = states.drop_last();
        assert forall|k: int| 0 <= k < e.len() implies #[trigger] st[k + 1] == union_of(st[k], changes_for(e[k])) by {
            assert(st[k + 1] == states[k + 1]);
            assert(states[k + 1] == union_of(states[k], changes_for(events[k])));
        }
        law_marked_events_are_taken(e, st);
        assert(states[n + 1] == union_of(states[n], changes_for(events[n])));
        assert(events.last() == events[n]);
    }
    law_changes_accumulate(events);
}

/// What the dock redraws after reloading changed files.
#[derive(PartialEq, Eq, Structural, Clone, Copy, Debug)]
pub enum Redraw {
    /// Rebuild every dock window (the settings changed).
    Rebuild,
    /// Render the items again (only the pins changed).
    Rerender,
    Nothing,
}

/// New settings rebuild the docks; otherwise new pins re-render them.
pub fn redraw_after_reload(pins_changed: bool, settings_changed: bool) -> (r: Redraw)
    ensures
        r == if settings_changed {
            Redraw::Rebuild
        } else if pins_changed {
            Redraw::Rerender
        } else {
            Redraw::Nothing
        },
{
    if settings_changed {
        Redraw::Rebuild
    } else if pins_changed {
        Redraw::Rerender
    } else {
        Redraw::Nothing
    }
}

} // verus!
