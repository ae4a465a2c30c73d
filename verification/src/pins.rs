//! The ordered list of pinned application ids: drag-and-drop reordering,
//! pinning from the picker, and the pin toggle of an item's context menu.
use vstd::prelude::*;

use crate::text::str_eq;

verus! {

broadcast use vstd::seq_lib::group_seq_properties;

/// The character sequences of a list of strings.
pub open spec fn str_views(v: Seq<String>) -> Seq<Seq<char>> {
    v.map_values(|s: String| s@)
}

/// Index of the first occurrence of `x` in `s`, or -1 when `x` is absent.
pub open spec fn position_of<A>(s: Seq<A>, x: A) -> int
    decreases s.len(),
{
    if s.len() == 0 {
        -1
    } else if s[0] == x {
        0
    } else {
        let r = position_of(s.drop_first(), x);
        if r < 0 {
            -1
        } else {
            r + 1
        }
    }
}

/// `position_of` finds the first occurrence.
pub proof fn lemma_position_of_first<A>(s: Seq<A>, x: A, i: int)
    requires
        0 <= i < s.len(),
        s[i] == x,
        forall|j: int| 0 <= j < i ==> s[j] != x,
    ensures
        position_of(s, x) == i,
    decreases i,
{
    if i > 0 {
        lemma_position_of_first(s.drop_first(), x, i - 1);
    }
}

/// `position_of` is -1 exactly for absent elements.
pub proof fn lemma_position_of_absent<A>(s: Seq<A>, x: A)
    requires
        !s.contains(x),
    ensures
        position_of(s, x) == -1,
    decreases s.len(),
{
    if s.len() > 0 {
        assert(s[0] != x);
        assert forall|j: int| 0 <= j < s.drop_first().len() implies s.drop_first()[j] != x by {
            assert(s.drop_first()[j] == s[j + 1]);
        }
        lemma_position_of_absent(s.drop_first(), x);
    }
}

/// Bounds of `position_of`.
pub proof fn lemma_position_of_bounds<A>(s: Seq<A>, x: A)
    ensures
        -1 <= position_of(s, x) < s.len(),
        position_of(s, x) >= 0 ==> s[position_of(s, x)] == x,
        position_of(s, x) >= 0 ==> forall|j: int| 0 <= j < position_of(s, x) ==> s[j] != x,
        position_of(s, x) < 0 ==> !s.contains(x),
    decreases s.len(),
{
    if s.len() > 0 {
        lemma_position_of_bounds(s.drop_first(), x);
        if s[0] != x && position_of(s.drop_first(), x) >= 0 {
            let r = position_of(s.drop_first(), x);
            assert(s[r + 1] == s.drop_first()[r]);
            assert forall|j: int| 0 <= j < r + 1 implies s[j] != x by {
                if j > 0 {
                    assert(s[j] == s.drop_first()[j - 1]);
                }
            }
        }
        if s[0] != x && position_of(s.drop_first(), x) < 0 {
            assert forall|j: int| 0 <= j < s.len() implies s[j] != x by {
                if j > 0 {
                    assert(s[j] == s.drop_first()[j - 1]);
                }
            }
        }
    }
}

/// Where the dragged element is reinserted: just before the target, or
/// just after it, counted in the list from which it was removed.
pub open spec fn drop_index(src: int, tgt: int, after: bool) -> int {
    let t = if src < tgt { tgt - 1 } else { tgt };
    if after { t + 1 } else { t }
}

/// The result of dropping `dragged` onto `target`: `None` when nothing
/// moves (the two are the same pin, or either is not pinned).
pub open spec fn reordered<A>(s: Seq<A>, dragged: A, target: A, after: bool) -> Option<Seq<A>> {
    let src = position_of(s, dragged);
    let tgt = position_of(s, target);
    if dragged == target || src < 0 || tgt < 0 {
        None
    } else {
        let rest = s.remove(src);
        let t = drop_index(src, tgt, after);
        Some(rest.insert(if t < rest.len() { t } else { rest.len() as int }, s[src]))
    }
}

/// Index of the first pin equal to `x`.
pub fn pin_position(pins: &Vec<String>, x: &str) -> (r: Option<usize>)
    ensures
        match r {
            Some(i) => i < pins.len() && i as int == position_of(str_views(pins@), x@),
            None => position_of(str_views(pins@), x@) == -1,
        },
{
    let ghost v = str_views(pins@);
    let mut i: usize = 0;
    while i < pins.len()
        invariant
            i <= pins.len(),
            v == str_views(pins@),
            forall|j: int| 0 <= j < i ==> v[j] != x@,
        decreases pins.len() - i,
    {
        if str_eq(pins[i].as_str(), x) {
            proof {
                lemma_position_of_first(v, x@, i as int);
            }
            return Some(i);
        }
        i = i + 1;
    }
    proof {
        lemma_position_of_absent(v, x@);
    }
    None
}

/// Moves `dragged_pin` next to `target_pin`: before it, or after it when
/// `insert_after` holds. Returns whether the list changed; it is left as it
/// was when the two are the same pin or either is not pinned.
pub fn reorder_pins(pins: &mut Vec<String>, dragged_pin: &str, target_pin: &str, insert_after: bool) -> (changed: bool)
    ensures
        match reordered(str_views(old(pins)@), dragged_pin@, target_pin@, insert_after) {
            Some(moved) => changed && str_views(final(pins)@) == moved,
            None => !changed && final(pins)@ == old(pins)@,
        },
{
    if str_eq(dragged_pin, target_pin) {
        return false;
    }
    let source_idx = match pin_position(pins, dragged_pin) {
        Some(i) => i,
        None => return false,
    };
    let mut target_idx = match pin_position(pins, target_pin) {
        Some(i) => i,
        None => return false,
    };
    let ghost before = pins@;
    let dragged = pins.remove(source_idx);
    if source_idx < target_idx {
        target_idx = target_idx - 1;
    }
    if insert_after {
        target_idx = target_idx + 1;
    }
    let at = if target_idx < pins.len() { target_idx } else { pins.len() };
    pins.insert(at, dragged);
    assert(str_views(before).remove(source_idx as int) == str_views(before.remove(source_idx as int)));
    assert(str_views(pins@) == str_views(before.remove(source_idx as int)).insert(at as int, dragged@));
    true
}

/// The pins after toggling `id`: without its first occurrence when it is
/// pinned, else with `id` added at the end.
pub open spec fn toggled(pins: Seq<Seq<char>>, id: Seq<char>) -> Seq<Seq<char>> {
    let i = position_of(pins, id);
    if i >= 0 {
        pins.remove(i)
    } else {
        pins.push(id)
    }
}

/// The pins after pinning `id` from the picker: unchanged when it is
/// pinned, else with `id` added at the end.
pub open spec fn with_pin(pins: Seq<Seq<char>>, id: Seq<char>) -> Seq<Seq<char>> {
    if pins.contains(id) {
        pins
    } else {
        pins.push(id)
    }
}

/// The pin toggle of an item's context menu: unpins the first pin equal to
/// `id` when there is one, and otherwise pins `id` at the end. Returns
/// whether `id` was pinned by this call.
pub fn toggle_pin(pins: &mut Vec<String>, id: &str) -> (pinned: bool)
    ensures
        str_views(final(pins)@) == toggled(str_views(old(pins)@), id@),
        pinned == (position_of(str_views(old(pins)@), id@) < 0),
        position_of(str_views(old(pins)@), id@) >= 0 ==> !pinned && final(pins)@ == old(pins)@.remove(
            position_of(str_views(old(pins)@), id@),
        ),
        position_of(str_views(old(pins)@), id@) < 0 ==> pinned && str_views(final(pins)@) == str_views(
            old(pins)@,
        ).push(id@),
{
    match pin_position(pins, id) {
        Some(i) => {
            let ghost before = pins@;
            pins.remove(i);
            assert(str_views(pins@) =~= str_views(before).remove(i as int));
            false
        },
        None => {
            let ghost before = pins@;
            pins.push(crate::text::owned(id));
            assert(str_views(pins@) == str_views(before).push(id@));
            true
        },
    }
}

/// Pins `id` at the end unless it is already pinned (the picker's action).
/// Returns whether the list changed.
pub fn pin_app(pins: &mut Vec<String>, id: &str) -> (added: bool)
    ensures
        str_views(final(pins)@) == with_pin(str_views(old(pins)@), id@),
        added == !str_views(old(pins)@).contains(id@),
        added ==> str_views(final(pins)@) == str_views(old(pins)@).push(id@),
        !added ==> final(pins)@ == old(pins)@,
{
    match pin_position(pins, id) {
        Some(i) => {
            proof {
                lemma_position_of_bounds(str_views(pins@), id@);
            }
            false
        },
        None => {
            proof {
                lemma_position_of_bounds(str_views(pins@), id@);
            }
            let ghost before = pins@;
            pins.push(crate::text::owned(id));
            assert(str_views(pins@) == str_views(before).push(id@));
            true
        },
    }
}

/// Toggling an unpinned application twice leaves the pins as they were.
pub proof fn law_toggle_twice_restores(pins: Seq<Seq<char>>, id: Seq<char>)
    requires
        !pins.contains(id),
    ensures
        toggled(toggled(pins, id), id) == pins,
{
    lemma_position_of_absent(pins, id);
    lemma_position_of_first(pins.push(id), id, pins.len() as int);
    assert(pins.push(id).remove(pins.len() as int) =~= pins);
}

/// Pinning from the picker is idempotent: pinning an application a second
/// time changes nothing.
pub proof fn law_pin_app_idempotent(pins: Seq<Seq<char>>, id: Seq<char>)
    ensures
        with_pin(with_pin(pins, id), id) == with_pin(pins, id),
{
    assert(pins.push(id)[pins.len() as int] == id);
}

/// Dropping a pin onto another only reorders the list: the result holds
/// the same pins, each as often as before.
pub proof fn law_reorder_is_permutation<A>(s: Seq<A>, dragged: A, target: A, after: bool)
    requires
        reordered(s, dragged, target, after) is Some,
    ensures
        reordered(s, dragged, target, after)->0.len() == s.len(),
        reordered(s, dragged, target, after)->0.to_multiset() == s.to_multiset(),
{
    broadcast use vstd::multiset::group_multiset_axioms;

    lemma_position_of_bounds(s, dragged);
    lemma_position_of_bounds(s, target);
    let src = position_of(s, dragged);
    let tgt = position_of(s, target);
    let rest = s.remove(src);
    let t = drop_index(src, tgt, after);
    let at = if t < rest.len() { t } else { rest.len() as int };
    vstd::seq_lib::to_multiset_remove(s, src);
    vstd::seq_lib::to_multiset_insert(rest, at, s[src]);
    vstd::seq_lib::to_multiset_contains(s, s[src]);
    assert(s.to_multiset().remove(s[src]).insert(s[src]) =~= s.to_multiset());
}

/// The dropped pin lands right before the target pin, or right after it
/// when dropped onto the target's second half; the reinsertion index never
/// needs clamping.
pub proof fn law_reorder_lands_next_to_target<A>(s: Seq<A>, dragged: A, target: A, after: bool)
    requires
        reordered(s, dragged, target, after) is Some,
    ensures
        ({
            let n = reordered(s, dragged, target, after)->0;
            let k = drop_index(position_of(s, dragged), position_of(s, target), after);
            &&& 0 <= k < n.len()
            &&& n[k] == dragged
            &&& after ==> k >= 1 && n[k - 1] == target
            &&& !after ==> k + 1 < n.len() && n[k + 1] == target
        }),
{
    lemma_position_of_bounds(s, dragged);
    lemma_position_of_bounds(s, target);
    let src = position_of(s, dragged);
    let tgt = position_of(s, target);
    let rest = s.remove(src);
    let t0 = if src < tgt { tgt - 1 } else { tgt };
    assert(rest[t0] == target);
}

/// Every pin other than the dragged one keeps its place relative to the
/// others: taking the dropped pin back out of the result gives the list
/// without it.
pub proof fn law_reorder_keeps_other_pins_in_order<A>(s: Seq<A>, dragged: A, target: A, after: bool)
    requires
        reordered(s, dragged, target, after) is Some,
    ensures
        reordered(s, dragged, target, after)->0.remove(
            drop_index(position_of(s, dragged), position_of(s, target), after),
        ) == s.remove(position_of(s, dragged)),
{
    lemma_position_of_bounds(s, dragged);
    lemma_position_of_bounds(s, target);
    let src = position_of(s, dragged);
    let tgt = position_of(s, target);
    let rest = s.remove(src);
    let k = drop_index(src, tgt, after);
    assert(rest.insert(k, s[src]).remove(k) =~= rest);
}

} // verus!
