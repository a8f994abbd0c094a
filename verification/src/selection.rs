//! The selection: a duplicate-free list of locations, changed only by toggling.
//!
//! The functions here work on a bare `Vec<Location>`; the store in
//! [`crate::state`] owns one and keeps it free of duplicates.

use crate::location::Location;
use vstd::prelude::*;

verus! {

/// The selection that results from toggling `loc` in `sel`: if `loc` occurs
/// in `sel`, its first occurrence is taken out and the rest keep their order;
/// otherwise `loc` is appended.
pub open spec fn toggled(sel: Seq<Location>, loc: Location) -> Seq<Location> {
    if sel.contains(loc) {
        sel.remove_value(loc)
    } else {
        sel.push(loc)
    }
}

/// The selection that results from toggling each element of `locs` in `sel`,
/// from the first to the last.
pub open spec fn toggled_all(sel: Seq<Location>, locs: Seq<Location>) -> Seq<Location>
    decreases locs.len(),
{
    if locs.len() == 0 {
        sel
    } else {
        toggled(toggled_all(sel, locs.drop_last()), locs.last())
    }
}

/// Toggling seen on the set of selected locations: a member leaves, a
/// non-member joins.
pub open spec fn flipped(selected: Set<Location>, loc: Location) -> Set<Location> {
    if selected.contains(loc) {
        selected.remove(loc)
    } else {
        selected.insert(loc)
    }
}

/// How often `loc` occurs in `locs`.
pub open spec fn occurrences(locs: Seq<Location>, loc: Location) -> nat {
    locs.to_multiset().count(loc)
}

/// The locations that occur in `locs` an odd number of times.
pub open spec fn odd_locations(locs: Seq<Location>) -> Set<Location> {
    Set::new(|loc: Location| occurrences(locs, loc) % 2 == 1)
}

/// The index of the first element of `sel` equal to `loc`, if there is one.
pub fn position(sel: &Vec<Location>, loc: Location) -> (found: Option<usize>)
    ensures
        match found {
            Some(index) => {
                &&& index < sel@.len()
                &&& sel@[index as int] == loc
                &&& forall|j: int| 0 <= j < index ==> sel@[j] != loc
            },
            None => !sel@.contains(loc),
        },
{
    let mut index: usize = 0;
    while index < sel.len()
        invariant
            index <= sel.len(),
            forall|j: int| 0 <= j < index ==> sel@[j] != loc,
        decreases sel.len() - index,
    {
        if sel[index].0 == loc.0 && sel[index].1 == loc.1 {
            return Some(index);
        }
        index = index + 1;
    }
    None
}

/// Toggles `loc` in `sel`: removes it if it is there, appends it otherwise.
pub fn toggle(sel: &mut Vec<Location>, loc: Location)
    ensures
        final(sel)@ == toggled(old(sel)@, loc),
{
    proof {
        sel@.index_of_first_ensures(loc);
    }
    match position(sel, loc) {
        Some(index) => {
            sel.remove(index);
        },
        None => {
            sel.push(loc);
        },
    }
}

/// Toggling keeps a selection free of duplicates.
pub proof fn lemma_toggle_keeps_distinct(sel: Seq<Location>, loc: Location)
    requires
        sel.no_duplicates(),
    ensures
        toggled(sel, loc).no_duplicates(),
{
    sel.index_of_first_ensures(loc);
}

/// Toggling a location that is not selected adds exactly that location;
/// toggling one that is selected takes exactly that location away.
pub proof fn lemma_toggle_adds_or_removes(sel: Seq<Location>, loc: Location)
    requires
        sel.no_duplicates(),
    ensures
        toggled(sel, loc).to_set() == flipped(sel.to_set(), loc),
        toggled(sel, loc).contains(loc) == !sel.contains(loc),
        sel.contains(loc) ==> toggled(sel, loc).len() == sel.len() - 1,
        !sel.contains(loc) ==> toggled(sel, loc).len() == sel.len() + 1,
{
    sel.index_of_first_ensures(loc);
    let after = toggled(sel, loc);
    if sel.contains(loc) {
        let index = sel.index_of_first(loc).unwrap();
        assert forall|a: Location| after.contains(a) <==> (sel.contains(a) && a != loc) by {
            if after.contains(a) {
                let k = choose|k: int| 0 <= k < after.len() && after[k] == a;
                if k < index {
                    assert(sel[k] == a);
                } else {
                    assert(sel[k + 1] == a);
                }
            }
            if sel.contains(a) && a != loc {
                let k = choose|k: int| 0 <= k < sel.len() && sel[k] == a;
                if k < index {
                    assert(after[k] == a);
                } else {
                    assert(after[k - 1] == a);
                }
            }
        }
        assert(after.to_set() =~= sel.to_set().remove(loc));
    } else {
        assert(after[sel.len() as int] == loc);
        assert forall|a: Location| after.contains(a) <==> (sel.contains(a) || a == loc) by {
            if sel.contains(a) {
                let k = choose|k: int| 0 <= k < sel.len() && sel[k] == a;
                assert(after[k] == a);
            }
        }
        assert(after.to_set() =~= sel.to_set().insert(loc));
    }
}

/// Toggling the same location twice in a row restores the selection: the
/// same locations are selected as before, each once, and the toggled
/// location is selected again if and only if it was. If it was not selected,
/// the list itself is as before; if it was, it has moved to the end.
pub proof fn lemma_toggle_twice(sel: Seq<Location>, loc: Location)
    requires
        sel.no_duplicates(),
    ensures
        toggled(toggled(sel, loc), loc).to_set() == sel.to_set(),
        toggled(toggled(sel, loc), loc).to_multiset() == sel.to_multiset(),
        toggled(toggled(sel, loc), loc).len() == sel.len(),
        toggled(toggled(sel, loc), loc).no_duplicates(),
        toggled(toggled(sel, loc), loc).contains(loc) == sel.contains(loc),
        !sel.contains(loc) ==> toggled(toggled(sel, loc), loc) == sel,
        sel.contains(loc) ==> toggled(toggled(sel, loc), loc) == sel.remove_value(loc).push(loc),
{
    broadcast use vstd::seq_lib::group_to_multiset_ensures;

    let once = toggled(sel, loc);
    let twice = toggled(once, loc);
    lemma_toggle_keeps_distinct(sel, loc);
    lemma_toggle_keeps_distinct(once, loc);
    lemma_toggle_adds_or_removes(sel, loc);
    lemma_toggle_adds_or_removes(once, loc);
    assert(twice.to_set() =~= sel.to_set());
    sel.index_of_first_ensures(loc);
    once.index_of_first_ensures(loc);
    if sel.contains(loc) {
        let index = sel.index_of_first(loc).unwrap();
        assert(once.to_multiset() =~= sel.to_multiset().remove(sel[index]));
        assert(twice.to_multiset() =~= once.to_multiset().insert(loc));
        assert(twice.to_multiset() =~= sel.to_multiset());
    } else {
        assert(once.index_of_first(loc) == Some(sel.len() as int));
        assert(twice =~= sel);
    }
}

/// Toggling a list of locations keeps a selection free of duplicates.
pub proof fn lemma_toggle_all_keeps_distinct(sel: Seq<Location>, locs: Seq<Location>)
    requires
        sel.no_duplicates(),
    ensures
        toggled_all(sel, locs).no_duplicates(),
    decreases locs.len(),
{
    if locs.len() > 0 {
        lemma_toggle_all_keeps_distinct(sel, locs.drop_last());
        lemma_toggle_keeps_distinct(toggled_all(sel, locs.drop_last()), locs.last());
    }
}

/// Toggling a list extended by one location is toggling the list and then
/// that location.
pub proof fn lemma_toggle_all_push(sel: Seq<Location>, locs: Seq<Location>, loc: Location)
    ensures
        toggled_all(sel, locs.push(loc)) == toggled(toggled_all(sel, locs), loc),
{
    assert(locs.push(loc).drop_last() =~= locs);
}

/// A location listed twice in a row cancels itself: against an empty
/// selection the two toggles leave nothing selected, and against any
/// selection they leave the same locations selected as before.
pub proof fn lemma_toggle_pair_cancels(sel: Seq<Location>, loc: Location)
    requires
        sel.no_duplicates(),
    ensures
        toggled_all(Seq::empty(), seq![loc, loc]) == Seq::<Location>::empty(),
        toggled_all(sel, seq![loc, loc]).to_set() == sel.to_set(),
        toggled_all(sel, seq![loc, loc]).len() == sel.len(),
{
    let pair = seq![loc, loc];
    assert(pair.drop_last() =~= seq![loc]);
    assert(seq![loc].drop_last() =~= Seq::<Location>::empty());
    reveal_with_fuel(toggled_all, 3);
    assert(toggled_all(sel, pair) == toggled(toggled(sel, loc), loc));
    assert(toggled_all(Seq::empty(), pair) == toggled(toggled(Seq::empty(), loc), loc));
    lemma_toggle_twice(sel, loc);
    lemma_toggle_twice(Seq::empty(), loc);
}

/// After toggling a list of locations, a location is selected if and only
/// if it was selected before and the list names it an even number of times,
/// or it was not and the list names it an odd number of times.
pub proof fn lemma_toggle_all_membership(sel: Seq<Location>, locs: Seq<Location>, loc: Location)
    requires
        sel.no_duplicates(),
    ensures
        toggled_all(sel, locs).contains(loc) <==> (sel.contains(loc) != (occurrences(locs, loc) % 2
            == 1)),
    decreases locs.len(),
{
    broadcast use vstd::seq_lib::group_to_multiset_ensures;

    if locs.len() == 0 {
        assert(locs.to_multiset().len() == 0);
    } else {
        let front = locs.drop_last();
        let before = toggled_all(sel, front);
        lemma_toggle_all_membership(sel, front, loc);
        lemma_toggle_all_keeps_distinct(sel, front);
        lemma_toggle_adds_or_removes(before, locs.last());
        assert(front.push(locs.last()) =~= locs);
        assert(locs.to_multiset() =~= front.to_multiset().insert(locs.last()));
        assert(toggled(before, locs.last()).to_set().contains(loc) == toggled(
            before,
            locs.last(),
        ).contains(loc));
        assert(before.to_set().contains(loc) == before.contains(loc));
    }
}

/// After toggling a list of locations against an empty selection, exactly
/// those locations are selected that the list names an odd number of times.
pub proof fn lemma_toggle_all_selects_odd(locs: Seq<Location>)
    ensures
        toggled_all(Seq::empty(), locs).to_set() == odd_locations(locs),
{
    let after = toggled_all(Seq::empty(), locs);
    assert forall|loc: Location| after.to_set().contains(loc) == odd_locations(locs).contains(
        loc,
    ) by {
        lemma_toggle_all_membership(Seq::empty(), locs, loc);
    }
    assert(after.to_set() =~= odd_locations(locs));
}

} // verus!
