//! What a round guarantees: notes follow their tabs and are never lost, and once the changes are
//! made the rounds come to rest.
use crate::collisions::{
    is_countable, is_misread, keys_are_own, law_collisions_are_resolved,
    law_renames_only_on_collision, lemma_collision_changes, new_name, shown_after,
};
use crate::icon::{clean_name, decorated, law_decoration_is_undone};
use crate::order::distinct_ids;
use crate::paths::note_key;
use crate::plan::{
    all_changes, changes_for, collision_renames, expected_name, is_renamed, is_settled, move_all,
    note_follows, round, tab_ids, tab_key, Change, Round, Tab,
};
use vstd::prelude::*;

verus! {

/// Everything is as it should be: each tab has a key of its own, is known under it, and shows
/// the icon exactly if it has a note; no other tab is known.
pub open spec fn in_step(
    icon: Seq<char>,
    known: Map<usize, Seq<char>>,
    tabs: Seq<Tab>,
    notes: Set<Seq<char>>,
) -> bool {
    &&& forall|a: Tab, b: Tab|
        #![trigger tabs.contains(a), tabs.contains(b)]
        tabs.contains(a) && tabs.contains(b) && a != b ==> tab_key(icon, a) != tab_key(icon, b)
    &&& forall|a: Tab| #[trigger]
        tabs.contains(a) ==> is_settled(icon, known, a) && a.name == expected_name(icon, notes, a)
    &&& known.dom() == tab_ids(tabs)
}

/// The ids of the changes for one tab are its own.
proof fn lemma_changes_for(
    icon: Seq<char>,
    notes: Set<Seq<char>>,
    tab: Tab,
    left: Option<Seq<char>>,
    before: Seq<Change>,
)
    ensures
        forall|id: usize|
            id != tab.id ==> #[trigger] new_name(
                before + changes_for(icon, notes, tab, left),
                id,
            ) == new_name(before, id),
        new_name(before, tab.id) is None ==> new_name(
            before + changes_for(icon, notes, tab, left),
            tab.id,
        ) == (if expected_name(icon, notes, tab) != tab.name {
            Some(expected_name(icon, notes, tab))
        } else {
            None
        }),
{
    let own = changes_for(icon, notes, tab, left);
    let all = before + own;
    let name = expected_name(icon, notes, tab);
    let moved = match left {
        Some(from) => before.push(
            Change::MoveNote { id: tab.id, from, to: tab_key(icon, tab) },
        ),
        None => before,
    };
    if left is Some {
        assert(moved.drop_last() =~= before);
    }
    assert forall|id: usize| #[trigger] new_name(moved, id) == new_name(before, id) by {}
    if name != tab.name {
        assert(all =~= moved.push(Change::RenameTab { id: tab.id, name }));
        assert(all.drop_last() =~= moved);
        assert forall|id: usize| id != tab.id implies #[trigger] new_name(all, id) == new_name(
            before,
            id,
        ) by {
            assert(new_name(moved, id) == new_name(before, id));
        }
    } else {
        assert(all =~= moved);
        assert(new_name(moved, tab.id) == new_name(before, tab.id));
    }
}

proof fn lemma_front_ids(tabs: Seq<Tab>)
    requires
        distinct_ids(tabs),
        tabs.len() > 0,
    ensures
        distinct_ids(tabs.drop_last()),
        forall|i: int| 0 <= i < tabs.len() - 1 ==> (#[trigger] tabs[i]).id != tabs.last().id,
{
    let front = tabs.drop_last();
    assert forall|i: int, j: int| 0 <= i < j < front.len() implies (#[trigger] front[i]).id != (
    #[trigger] front[j]).id by {
        assert(tabs[i].id != tabs[j].id);
    }
    assert forall|i: int| 0 <= i < tabs.len() - 1 implies (#[trigger] tabs[i]).id
        != tabs.last().id by {
        assert(tabs[i].id != tabs[tabs.len() - 1].id);
    }
}

/// Each tab is known under its key afterwards and the others are as before.
proof fn lemma_move_all(
    icon: Seq<char>,
    known: Map<usize, Seq<char>>,
    notes: Set<Seq<char>>,
    tabs: Seq<Tab>,
)
    requires
        distinct_ids(tabs),
    ensures
        ({
            let m = move_all(icon, known, notes, tabs);
            &&& m.left.len() == tabs.len()
            &&& forall|i: int|
                0 <= i < tabs.len() ==> m.known.contains_key((#[trigger] tabs[i]).id)
                    && m.known[tabs[i].id] == tab_key(icon, tabs[i])
            &&& forall|id: usize|
                (forall|i: int| 0 <= i < tabs.len() ==> (#[trigger] tabs[i]).id != id) ==> (
                #[trigger] m.known.contains_key(id) == known.contains_key(id)) && m.known[id]
                    == known[id]
        }),
    decreases tabs.len(),
{
    if tabs.len() > 0 {
        let front = tabs.drop_last();
        let tab = tabs.last();
        let n = front.len() as int;
        let m = move_all(icon, known, notes, tabs);
        let b = move_all(icon, known, notes, front);
        lemma_front_ids(tabs);
        lemma_move_all(icon, known, notes, front);
        assert(tabs[n] == tab);
        assert forall|i: int| 0 <= i < tabs.len() implies m.known.contains_key(
            (#[trigger] tabs[i]).id,
        ) && m.known[tabs[i].id] == tab_key(icon, tabs[i]) by {
            if i < n {
                assert(front[i] == tabs[i]);
            }
        }
        assert forall|id: usize|
            (forall|i: int| 0 <= i < tabs.len() ==> (#[trigger] tabs[i]).id != id) implies (
        #[trigger] m.known.contains_key(id) == known.contains_key(id)) && m.known[id]
            == known[id] by {
            assert(tabs[n].id != id);
            assert forall|i: int| 0 <= i < front.len() implies (#[trigger] front[i]).id != id by {
                assert(tabs[i].id != id);
            }
            assert(b.known.contains_key(id) == known.contains_key(id));
        }
    }
}

/// Each tab gets the name that is expected of it, if it has another; no other tab gets one.
proof fn lemma_names(
    icon: Seq<char>,
    notes: Set<Seq<char>>,
    tabs: Seq<Tab>,
    left: Seq<Option<Seq<char>>>,
)
    requires
        distinct_ids(tabs),
        left.len() == tabs.len(),
    ensures
        ({
            let changes = all_changes(icon, notes, tabs, left);
            &&& forall|id: usize|
                (forall|i: int| 0 <= i < tabs.len() ==> (#[trigger] tabs[i]).id != id)
                    ==> #[trigger] new_name(changes, id) is None
            &&& forall|i: int|
                0 <= i < tabs.len() ==> new_name(changes, (#[trigger] tabs[i]).id) == (
                if expected_name(icon, notes, tabs[i]) != tabs[i].name {
                    Some(expected_name(icon, notes, tabs[i]))
                } else {
                    None
                })
        }),
    decreases tabs.len(),
{
    if tabs.len() > 0 {
        let front = tabs.drop_last();
        let tab = tabs.last();
        let n = front.len() as int;
        let changes = all_changes(icon, notes, tabs, left);
        let b = all_changes(icon, notes, front, left.drop_last());
        lemma_front_ids(tabs);
        lemma_names(icon, notes, front, left.drop_last());
        lemma_changes_for(icon, notes, tab, left.last(), b);
        assert(tabs[n] == tab);
        assert forall|i: int| 0 <= i < front.len() implies (#[trigger] front[i]).id != tab.id by {
            assert(tabs[i].id != tab.id);
        }
        assert(new_name(b, tab.id) is None);
        assert forall|id: usize|
            (forall|i: int| 0 <= i < tabs.len() ==> (#[trigger] tabs[i]).id != id) implies
            #[trigger] new_name(changes, id) is None by {
            assert(tabs[n].id != id);
            assert forall|i: int| 0 <= i < front.len() implies (#[trigger] front[i]).id != id by {
                assert(tabs[i].id != id);
            }
            assert(new_name(b, id) is None);
        }
        assert forall|i: int| 0 <= i < tabs.len() implies new_name(
            changes,
            (#[trigger] tabs[i]).id,
        ) == (if expected_name(icon, notes, tabs[i]) != tabs[i].name {
            Some(expected_name(icon, notes, tabs[i]))
        } else {
            None
        }) by {
            if i < n {
                assert(front[i] == tabs[i]);
            }
        }
    }
}

/// The changes keep the ids and the keys of the tabs, and give each tab the name that is expected
/// of it.
proof fn lemma_shown(
    icon: Seq<char>,
    notes: Set<Seq<char>>,
    tabs: Seq<Tab>,
    left: Seq<Option<Seq<char>>>,
)
    requires
        distinct_ids(tabs),
        left.len() == tabs.len(),
    ensures
        ({
            let shown = shown_after(tabs, all_changes(icon, notes, tabs, left));
            &&& shown.len() == tabs.len()
            &&& distinct_ids(shown)
            &&& tab_ids(shown) == tab_ids(tabs)
            &&& forall|i: int|
                0 <= i < tabs.len() ==> (#[trigger] shown[i]).id == tabs[i].id && tab_key(
                    icon,
                    shown[i],
                ) == tab_key(icon, tabs[i]) && shown[i].name == expected_name(
                    icon,
                    notes,
                    shown[i],
                )
        }),
{
    let changes = all_changes(icon, notes, tabs, left);
    let shown = shown_after(tabs, changes);
    lemma_names(icon, notes, tabs, left);
    assert forall|i: int| 0 <= i < tabs.len() implies (#[trigger] shown[i]).id == tabs[i].id
        && tab_key(icon, shown[i]) == tab_key(icon, tabs[i]) && shown[i].name == expected_name(
        icon,
        notes,
        shown[i],
    ) by {
        law_decoration_is_undone(
            tabs[i].name,
            icon,
            notes.contains(tab_key(icon, tabs[i])),
        );
        assert(new_name(changes, tabs[i].id) == (if expected_name(icon, notes, tabs[i])
            != tabs[i].name {
            Some(expected_name(icon, notes, tabs[i]))
        } else {
            None
        }));
    }
    assert forall|i: int, j: int| 0 <= i < j < shown.len() implies (#[trigger] shown[i]).id != (
    #[trigger] shown[j]).id by {
        assert(tabs[i].id != tabs[j].id);
    }
    assert(shown.map_values(|t: Tab| t.id) =~= tabs.map_values(|t: Tab| t.id));
}

/// If every tab is settled, no note moves.
proof fn lemma_settled_moves(
    icon: Seq<char>,
    known: Map<usize, Seq<char>>,
    notes: Set<Seq<char>>,
    tabs: Seq<Tab>,
)
    requires
        forall|i: int| 0 <= i < tabs.len() ==> is_settled(icon, known, #[trigger] tabs[i]),
    ensures
        ({
            let m = move_all(icon, known, notes, tabs);
            &&& m.known == known
            &&& m.notes == notes
            &&& m.left.len() == tabs.len()
            &&& forall|i: int| 0 <= i < m.left.len() ==> (#[trigger] m.left[i]) is None
        }),
    decreases tabs.len(),
{
    if tabs.len() > 0 {
        let front = tabs.drop_last();
        let tab = tabs.last();
        assert(tab == tabs[tabs.len() - 1]);
        assert forall|i: int| 0 <= i < front.len() implies is_settled(
            icon,
            known,
            #[trigger] front[i],
        ) by {
            assert(front[i] == tabs[i]);
        }
        lemma_settled_moves(icon, known, notes, front);
        let b = move_all(icon, known, notes, front);
        assert(!note_follows(icon, notes, b, tab));
        assert(known.insert(tab.id, tab_key(icon, tab)) =~= known);
    }
}

/// If no note moves and every tab has the name that is expected of it, there is nothing to do.
proof fn lemma_no_changes(
    icon: Seq<char>,
    notes: Set<Seq<char>>,
    tabs: Seq<Tab>,
    left: Seq<Option<Seq<char>>>,
)
    requires
        left.len() == tabs.len(),
        forall|i: int| 0 <= i < left.len() ==> (#[trigger] left[i]) is None,
        forall|i: int|
            0 <= i < tabs.len() ==> (#[trigger] tabs[i]).name == expected_name(
                icon,
                notes,
                tabs[i],
            ),
    ensures
        all_changes(icon, notes, tabs, left) == Seq::<Change>::empty(),
    decreases tabs.len(),
{
    if tabs.len() > 0 {
        let n = tabs.len() - 1;
        assert(tabs.last() == tabs[n] && left.last() == left[n]);
        assert forall|i: int| 0 <= i < n implies (#[trigger] left.drop_last()[i]) is None by {
            assert(left[i] is None);
        }
        assert forall|i: int| 0 <= i < n implies (#[trigger] tabs.drop_last()[i]).name
            == expected_name(icon, notes, tabs.drop_last()[i]) by {
            assert(tabs[i].name == expected_name(icon, notes, tabs[i]));
        }
        lemma_no_changes(icon, notes, tabs.drop_last(), left.drop_last());
    }
}

/// Keys that differ between tabs, position by position.
proof fn lemma_own_keys_by_position(icon: Seq<char>, tabs: Seq<Tab>, i: int, j: int)
    requires
        distinct_ids(tabs),
        forall|a: Tab, b: Tab|
            #![trigger tabs.contains(a), tabs.contains(b)]
            tabs.contains(a) && tabs.contains(b) && a != b ==> tab_key(icon, a) != tab_key(
                icon,
                b,
            ),
        0 <= i < tabs.len(),
        0 <= j < tabs.len(),
        i != j,
    ensures
        tab_key(icon, tabs[i]) != tab_key(icon, tabs[j]),
{
    assert(tabs.contains(tabs[i]) && tabs.contains(tabs[j]));
    if i < j {
        assert(tabs[i].id != tabs[j].id);
    } else {
        assert(tabs[j].id != tabs[i].id);
    }
}

/// Feeding a round what is already in step produces nothing to do and changes nothing.
pub proof fn law_settled_state_needs_nothing(
    icon: Seq<char>,
    known: Map<usize, Seq<char>>,
    tabs: Seq<Tab>,
    notes: Set<Seq<char>>,
    occupied: Set<Seq<char>>,
)
    requires
        distinct_ids(tabs),
        is_countable(tabs, occupied),
        in_step(icon, known, tabs, notes),
    ensures
        round(icon, known, tabs, notes, occupied) == (Round {
            known,
            notes,
            changes: Seq::empty(),
        }),
{
    law_renames_only_on_collision(icon, known, tabs, occupied);
    assert(keys_are_own(icon, known, tabs, occupied));
    assert forall|i: int| 0 <= i < tabs.len() implies is_settled(icon, known, #[trigger] tabs[i])
        && tabs[i].name == expected_name(icon, notes, tabs[i]) by {
        assert(tabs.contains(tabs[i]));
    }
    lemma_settled_moves(icon, known, notes, tabs);
    let m = move_all(icon, known, notes, tabs);
    lemma_no_changes(icon, notes, tabs, m.left);
    assert(known.restrict(tab_ids(tabs)) =~= known);
}

/// Moving a tab looks like nothing at all: if everything is in step, it is so in whichever order
/// the tabs are shown.
pub proof fn law_moving_a_tab_changes_nothing(
    icon: Seq<char>,
    known: Map<usize, Seq<char>>,
    tabs: Seq<Tab>,
    other: Seq<Tab>,
    notes: Set<Seq<char>>,
    occupied: Set<Seq<char>>,
)
    requires
        distinct_ids(other),
        other.to_set() == tabs.to_set(),
        is_countable(other, occupied),
        in_step(icon, known, tabs, notes),
    ensures
        round(icon, known, other, notes, occupied) == (Round {
            known,
            notes,
            changes: Seq::empty(),
        }),
{
    assert forall|t: Tab| other.contains(t) <==> #[trigger] tabs.contains(t) by {
        assert(other.to_set().contains(t) == other.contains(t));
        assert(tabs.to_set().contains(t) == tabs.contains(t));
    }
    let ids = tabs.map_values(|t: Tab| t.id);
    let other_ids = other.map_values(|t: Tab| t.id);
    assert forall|id: usize| ids.to_set().contains(id) <==> #[trigger]
        other_ids.to_set().contains(id) by {
        if ids.contains(id) {
            let i = choose|i: int| 0 <= i < ids.len() && ids[i] == id;
            assert(tabs.contains(tabs[i]));
            let j = choose|j: int| 0 <= j < other.len() && other[j] == tabs[i];
            assert(other_ids[j] == id);
        }
        if other_ids.contains(id) {
            let i = choose|i: int| 0 <= i < other_ids.len() && other_ids[i] == id;
            assert(other.contains(other[i]));
            assert(tabs.contains(other[i]));
            let j = choose|j: int| 0 <= j < tabs.len() && tabs[j] == other[i];
            assert(ids[j] == id);
        }
    }
    assert(tab_ids(other) =~= tab_ids(tabs));
    assert forall|a: Tab, b: Tab|
        #![trigger other.contains(a), other.contains(b)]
        other.contains(a) && other.contains(b) && a != b implies tab_key(icon, a) != tab_key(
        icon,
        b,
    ) by {
        assert(tabs.contains(a) && tabs.contains(b));
    }
    assert forall|a: Tab| #[trigger] other.contains(a) implies is_settled(icon, known, a) && a.name
        == expected_name(icon, notes, a) by {
        assert(tabs.contains(a));
    }
    law_settled_state_needs_nothing(icon, known, other, notes, occupied);
}

/// After a round without collisions exactly the tabs that are there are known, each under its
/// key: closed tabs are forgotten.
pub proof fn law_known_tabs_are_the_open_ones(
    icon: Seq<char>,
    known: Map<usize, Seq<char>>,
    tabs: Seq<Tab>,
    notes: Set<Seq<char>>,
    occupied: Set<Seq<char>>,
)
    requires
        distinct_ids(tabs),
        collision_renames(icon, known, tabs, occupied).len() == 0,
    ensures
        round(icon, known, tabs, notes, occupied).known.dom() == tab_ids(tabs),
        forall|t: Tab| #[trigger]
            tabs.contains(t) ==> round(icon, known, tabs, notes, occupied).known[t.id] == tab_key(
                icon,
                t,
            ),
{
    lemma_move_all(icon, known, notes, tabs);
    let r = round(icon, known, tabs, notes, occupied);
    let ids = tabs.map_values(|t: Tab| t.id);
    assert forall|id: usize| #[trigger] r.known.dom().contains(id) <==> tab_ids(tabs).contains(
        id,
    ) by {
        if ids.contains(id) {
            let i = choose|i: int| 0 <= i < ids.len() && ids[i] == id;
            assert(tabs[i].id == id);
        }
    }
    assert(r.known.dom() =~= tab_ids(tabs));
    assert forall|t: Tab| #[trigger] tabs.contains(t) implies r.known[t.id] == tab_key(
        icon,
        t,
    ) by {
        let i = choose|i: int| 0 <= i < tabs.len() && tabs[i] == t;
        assert(ids[i] == t.id);
        assert(tab_ids(tabs).contains(t.id));
        assert(tabs[i].id == t.id);
    }
}

/// Before its turn comes, a tab is known as it was before the round.
proof fn lemma_known_before_turn(
    icon: Seq<char>,
    known: Map<usize, Seq<char>>,
    notes: Set<Seq<char>>,
    tabs: Seq<Tab>,
    j: int,
)
    requires
        distinct_ids(tabs),
        0 <= j < tabs.len(),
    ensures
        ({
            let b = move_all(icon, known, notes, tabs.take(j));
            &&& b.known.contains_key(tabs[j].id) == known.contains_key(tabs[j].id)
            &&& b.known[tabs[j].id] == known[tabs[j].id]
        }),
{
    let front = tabs.take(j);
    assert forall|i: int, k: int| 0 <= i < k < front.len() implies (#[trigger] front[i]).id != (
    #[trigger] front[k]).id by {
        assert(tabs[i].id != tabs[k].id);
    }
    lemma_move_all(icon, known, notes, front);
    assert forall|i: int| 0 <= i < front.len() implies (#[trigger] front[i]).id != tabs[j].id by {
        assert(tabs[i].id != tabs[j].id);
    }
    let b = move_all(icon, known, notes, front);
    assert(b.known.contains_key(tabs[j].id) == known.contains_key(tabs[j].id));
}

/// Whether the note of the tab at position `j` follows it in this round.
pub open spec fn follows_at(
    icon: Seq<char>,
    known: Map<usize, Seq<char>>,
    notes: Set<Seq<char>>,
    tabs: Seq<Tab>,
    j: int,
) -> bool {
    note_follows(icon, notes, move_all(icon, known, notes, tabs.take(j)), tabs[j])
}

/// Between two positions a key stays with or without a note, unless a tab arrives at it or a
/// note leaves it.
proof fn lemma_note_stays(
    icon: Seq<char>,
    known: Map<usize, Seq<char>>,
    notes: Set<Seq<char>>,
    tabs: Seq<Tab>,
    key: Seq<char>,
    m: int,
    n: int,
)
    requires
        distinct_ids(tabs),
        0 <= m <= n <= tabs.len(),
        forall|j: int| m <= j < n ==> tab_key(icon, #[trigger] tabs[j]) != key,
        forall|j: int|
            m <= j < n && #[trigger] follows_at(icon, known, notes, tabs, j) ==> known[tabs[j].id]
                != key,
    ensures
        move_all(icon, known, notes, tabs.take(m)).notes.contains(key) == move_all(
            icon,
            known,
            notes,
            tabs.take(n),
        ).notes.contains(key),
    decreases n - m,
{
    if m < n {
        let j = n - 1;
        lemma_note_stays(icon, known, notes, tabs, key, m, j);
        assert(tabs.take(n).drop_last() =~= tabs.take(j));
        assert(tabs.take(n).last() == tabs[j]);
        lemma_known_before_turn(icon, known, notes, tabs, j);
        if follows_at(icon, known, notes, tabs, j) {
            assert(known[tabs[j].id] != key);
        }
    }
}

/// A round without collisions brings everything in step once its changes are made, so that the
/// next round has nothing to do: no rename triggers another.
pub proof fn law_one_round_settles(
    icon: Seq<char>,
    known: Map<usize, Seq<char>>,
    tabs: Seq<Tab>,
    notes: Set<Seq<char>>,
    occupied: Set<Seq<char>>,
    next_occupied: Set<Seq<char>>,
)
    requires
        distinct_ids(tabs),
        is_countable(tabs, occupied),
        is_countable(tabs, next_occupied),
        collision_renames(icon, known, tabs, occupied).len() == 0,
    ensures
        ({
            let r = round(icon, known, tabs, notes, occupied);
            let shown = shown_after(tabs, r.changes);
            &&& in_step(icon, r.known, shown, r.notes)
            &&& round(icon, r.known, shown, r.notes, next_occupied) == (Round {
                known: r.known,
                notes: r.notes,
                changes: Seq::empty(),
            })
        }),
{
    let m = move_all(icon, known, notes, tabs);
    let r = round(icon, known, tabs, notes, occupied);
    let shown = shown_after(tabs, r.changes);
    law_renames_only_on_collision(icon, known, tabs, occupied);
    lemma_move_all(icon, known, notes, tabs);
    lemma_shown(icon, m.notes, tabs, m.left);
    law_known_tabs_are_the_open_ones(icon, known, tabs, notes, occupied);
    assert forall|i: int| 0 <= i < tabs.len() implies (#[trigger] shown[i]).name == expected_name(
        icon,
        r.notes,
        shown[i],
    ) && is_settled(icon, r.known, shown[i]) by {
        assert(tabs.contains(tabs[i]));
        assert(tab_ids(tabs).contains(tabs[i].id)) by {
            assert(tabs.map_values(|t: Tab| t.id)[i] == tabs[i].id);
        }
    }
    lemma_in_step(icon, r.known, tabs, shown, r.notes);
    law_settled_state_needs_nothing(icon, r.known, shown, r.notes, next_occupied);
}

/// Tabs with the keys of others that are all different, each settled and shown as it should be,
/// are in step.
proof fn lemma_in_step(
    icon: Seq<char>,
    known: Map<usize, Seq<char>>,
    tabs: Seq<Tab>,
    shown: Seq<Tab>,
    notes: Set<Seq<char>>,
)
    requires
        distinct_ids(tabs),
        forall|a: Tab, b: Tab|
            #![trigger tabs.contains(a), tabs.contains(b)]
            tabs.contains(a) && tabs.contains(b) && a != b ==> tab_key(icon, a) != tab_key(
                icon,
                b,
            ),
        shown.len() == tabs.len(),
        tab_ids(shown) == known.dom(),
        forall|i: int|
            0 <= i < tabs.len() ==> tab_key(icon, #[trigger] shown[i]) == tab_key(icon, tabs[i]),
        forall|i: int|
            0 <= i < tabs.len() ==> (#[trigger] shown[i]).name == expected_name(
                icon,
                notes,
                shown[i],
            ) && is_settled(icon, known, shown[i]),
    ensures
        in_step(icon, known, shown, notes),
{
    assert forall|a: Tab, b: Tab|
        #![trigger shown.contains(a), shown.contains(b)]
        shown.contains(a) && shown.contains(b) && a != b implies tab_key(icon, a) != tab_key(
        icon,
        b,
    ) by {
        let i = choose|i: int| 0 <= i < shown.len() && shown[i] == a;
        let j = choose|j: int| 0 <= j < shown.len() && shown[j] == b;
        lemma_own_keys_by_position(icon, tabs, i, j);
    }
    assert forall|a: Tab| #[trigger] shown.contains(a) implies is_settled(icon, known, a) && a.name
        == expected_name(icon, notes, a) by {
        let i = choose|i: int| 0 <= i < shown.len() && shown[i] == a;
        assert(shown[i] == a);
    }
}

/// From wherever it starts, everything is in step after two rounds at most, and then nothing is
/// left to do. Left out are names that are nothing but the icon and whose number alone is not
/// free.
pub proof fn law_any_start_comes_to_rest(
    icon: Seq<char>,
    known: Map<usize, Seq<char>>,
    tabs: Seq<Tab>,
    notes: Set<Seq<char>>,
    occupied: Set<Seq<char>>,
    next_occupied: Set<Seq<char>>,
)
    requires
        distinct_ids(tabs),
        is_countable(tabs, occupied),
        is_countable(tabs, next_occupied),
        forall|i: int| !#[trigger] is_misread(icon, known, tabs, occupied, i),
    ensures
        ({
            let r1 = round(icon, known, tabs, notes, occupied);
            let tabs2 = shown_after(tabs, r1.changes);
            let r2 = round(icon, r1.known, tabs2, r1.notes, occupied);
            let tabs3 = shown_after(tabs2, r2.changes);
            &&& in_step(icon, r2.known, tabs3, r2.notes)
            &&& round(icon, r2.known, tabs3, r2.notes, next_occupied) == (Round {
                known: r2.known,
                notes: r2.notes,
                changes: Seq::empty(),
            })
        }),
{
    let r1 = round(icon, known, tabs, notes, occupied);
    let tabs2 = shown_after(tabs, r1.changes);
    assert(distinct_ids(tabs2)) by {
        assert forall|i: int, j: int| 0 <= i < j < tabs2.len() implies (#[trigger] tabs2[i]).id != (
        #[trigger] tabs2[j]).id by {
            assert(tabs[i].id != tabs[j].id);
        }
    }
    if collision_renames(icon, known, tabs, occupied).len() > 0 {
        law_collisions_are_resolved(icon, known, tabs, occupied);
        law_one_round_settles(icon, known, tabs2, notes, occupied, next_occupied);
    } else {
        law_one_round_settles(icon, known, tabs, notes, occupied, occupied);
        assert(shown_after(tabs2, Seq::empty()) =~= tabs2);
        law_settled_state_needs_nothing(icon, r1.known, tabs2, r1.notes, next_occupied);
    }
}

/// No note is lost or made up in a round: there are as many as before.
pub proof fn law_no_note_is_lost(
    icon: Seq<char>,
    known: Map<usize, Seq<char>>,
    tabs: Seq<Tab>,
    notes: Set<Seq<char>>,
    occupied: Set<Seq<char>>,
)
    requires
        notes.finite(),
    ensures
        round(icon, known, tabs, notes, occupied).notes.finite(),
        round(icon, known, tabs, notes, occupied).notes.len() == notes.len(),
{
    lemma_notes_are_kept(icon, known, notes, tabs);
}

proof fn lemma_notes_are_kept(
    icon: Seq<char>,
    known: Map<usize, Seq<char>>,
    notes: Set<Seq<char>>,
    tabs: Seq<Tab>,
)
    requires
        notes.finite(),
    ensures
        move_all(icon, known, notes, tabs).notes.finite(),
        move_all(icon, known, notes, tabs).notes.len() == notes.len(),
    decreases tabs.len(),
{
    if tabs.len() > 0 {
        lemma_notes_are_kept(icon, known, notes, tabs.drop_last());
    }
}

/// Every move of a round belongs to a tab that was renamed, takes a note that was there before the
/// round from the key the tab was last seen with to the key it has now, and never lands on a file.
/// If the notes are among the files, it never lands on a note either.
pub proof fn law_moves_land_on_no_file(
    icon: Seq<char>,
    known: Map<usize, Seq<char>>,
    tabs: Seq<Tab>,
    notes: Set<Seq<char>>,
    occupied: Set<Seq<char>>,
    k: int,
)
    requires
        distinct_ids(tabs),
        is_countable(tabs, occupied),
        0 <= k < round(icon, known, tabs, notes, occupied).changes.len(),
    ensures
        round(icon, known, tabs, notes, occupied).changes[k] matches Change::MoveNote {
            id,
            from,
            to,
        } ==> {
            &&& exists|t: Tab| #[trigger]
                tabs.contains(t) && t.id == id && is_renamed(icon, known, t) && to == tab_key(
                    icon,
                    t,
                )
            &&& from == known[id]
            &&& from != to
            &&& notes.contains(from)
            &&& !occupied.contains(to)
            &&& notes.subset_of(occupied) ==> !notes.contains(to)
        },
{
    law_renames_only_on_collision(icon, known, tabs, occupied);
    if collision_renames(icon, known, tabs, occupied).len() > 0 {
        lemma_collision_changes(icon, known, tabs, occupied);
    } else {
        let m = move_all(icon, known, notes, tabs);
        assert(tabs.take(tabs.len() as int) =~= tabs);
        lemma_left(icon, known, notes, tabs, tabs.len() as int);
        lemma_moves(icon, m.notes, tabs, m.left, k);
        match round(icon, known, tabs, notes, occupied).changes[k] {
            Change::MoveNote { id, from, to } => {
                let i = choose|i: int|
                    0 <= i < tabs.len() && (#[trigger] tabs[i]).id == id && m.left[i] == Some(from)
                        && to == tab_key(icon, tabs[i]);
                assert(follows_at(icon, known, notes, tabs, i));
                lemma_known_before_turn(icon, known, notes, tabs, i);
                assert(tabs.contains(tabs[i]));
            },
            _ => {},
        }
    }
}

/// The key that the note of each tab leaves.
proof fn lemma_left(
    icon: Seq<char>,
    known: Map<usize, Seq<char>>,
    notes: Set<Seq<char>>,
    tabs: Seq<Tab>,
    n: int,
)
    requires
        distinct_ids(tabs),
        0 <= n <= tabs.len(),
    ensures
        ({
            let left = move_all(icon, known, notes, tabs.take(n)).left;
            &&& left.len() == n
            &&& forall|i: int|
                0 <= i < n ==> #[trigger] left[i] == (if follows_at(icon, known, notes, tabs, i) {
                    Some(known[tabs[i].id])
                } else {
                    None
                })
        }),
    decreases n,
{
    if n > 0 {
        lemma_left(icon, known, notes, tabs, n - 1);
        assert(tabs.take(n).drop_last() =~= tabs.take(n - 1));
        assert(tabs.take(n).last() == tabs[n - 1]);
        lemma_known_before_turn(icon, known, notes, tabs, n - 1);
    }
}

/// Every move among the changes takes the note of some tab from the key that it leaves.
proof fn lemma_moves(
    icon: Seq<char>,
    notes: Set<Seq<char>>,
    tabs: Seq<Tab>,
    left: Seq<Option<Seq<char>>>,
    k: int,
)
    requires
        left.len() == tabs.len(),
        0 <= k < all_changes(icon, notes, tabs, left).len(),
    ensures
        all_changes(icon, notes, tabs, left)[k] matches Change::MoveNote { id, from, to }
            ==> exists|i: int|
            0 <= i < tabs.len() && (#[trigger] tabs[i]).id == id && left[i] == Some(from) && to
                == tab_key(icon, tabs[i]),
    decreases tabs.len(),
{
    if tabs.len() > 0 {
        let n = tabs.len() - 1;
        let front = tabs.drop_last();
        let b = all_changes(icon, notes, front, left.drop_last());
        let own = changes_for(icon, notes, tabs.last(), left.last());
        assert(tabs[n] == tabs.last() && left[n] == left.last());
        if k < b.len() {
            lemma_moves(icon, notes, front, left.drop_last(), k);
            if let Change::MoveNote { id, from, to } = b[k] {
                let i = choose|i: int|
                    0 <= i < front.len() && (#[trigger] front[i]).id == id && left.drop_last()[i]
                        == Some(from) && to == tab_key(icon, front[i]);
                assert(tabs[i] == front[i] && left[i] == Some(from));
            }
        } else {
            assert(all_changes(icon, notes, tabs, left)[k] == own[k - b.len()]);
        }
    }
}

/// A note that leaves a key is among the changes.
proof fn lemma_move_is_asked(
    icon: Seq<char>,
    notes: Set<Seq<char>>,
    tabs: Seq<Tab>,
    left: Seq<Option<Seq<char>>>,
    i: int,
)
    requires
        left.len() == tabs.len(),
        0 <= i < tabs.len(),
        left[i] is Some,
    ensures
        all_changes(icon, notes, tabs, left).contains(
            Change::MoveNote { id: tabs[i].id, from: left[i]->0, to: tab_key(icon, tabs[i]) },
        ),
    decreases tabs.len(),
{
    let n = tabs.len() - 1;
    let all = all_changes(icon, notes, tabs, left);
    let b = all_changes(icon, notes, tabs.drop_last(), left.drop_last());
    let change = Change::MoveNote { id: tabs[i].id, from: left[i]->0, to: tab_key(icon, tabs[i]) };
    if i < n {
        lemma_move_is_asked(icon, notes, tabs.drop_last(), left.drop_last(), i);
        let k = choose|k: int| 0 <= k < b.len() && b[k] == change;
        assert(all[k] == change);
    } else {
        assert(changes_for(icon, notes, tabs[i], left[i])[0] == change);
        assert(all[b.len() as int] == change);
    }
}

/// The tab at position `j` takes the note of the tab at position `i` in the same round: it is shown
/// before it and was last seen with the same key.
pub open spec fn note_is_taken(
    icon: Seq<char>,
    known: Map<usize, Seq<char>>,
    notes: Set<Seq<char>>,
    tabs: Seq<Tab>,
    i: int,
    j: int,
) -> bool {
    &&& 0 <= j < i
    &&& follows_at(icon, known, notes, tabs, j)
    &&& known[tabs[j].id] == known[tabs[i].id]
}

/// A key that has no note has none until a tab arrives at it.
proof fn lemma_key_stays_free(
    icon: Seq<char>,
    known: Map<usize, Seq<char>>,
    notes: Set<Seq<char>>,
    tabs: Seq<Tab>,
    key: Seq<char>,
    m: int,
    n: int,
)
    requires
        0 <= m <= n <= tabs.len(),
        forall|j: int| m <= j < n ==> tab_key(icon, #[trigger] tabs[j]) != key,
        !move_all(icon, known, notes, tabs.take(m)).notes.contains(key),
    ensures
        !move_all(icon, known, notes, tabs.take(n)).notes.contains(key),
    decreases n - m,
{
    if m < n {
        lemma_key_stays_free(icon, known, notes, tabs, key, m, n - 1);
        assert(tabs.take(n).drop_last() =~= tabs.take(n - 1));
        assert(tabs.take(n).last() == tabs[n - 1]);
    }
}

/// A renamed tab takes its note with it, unless a tab that was last seen with the same key has
/// taken it before.
/// The key that it leaves has no note afterwards, unless another tab has come to it.
pub proof fn law_note_follows_its_tab(
    icon: Seq<char>,
    known: Map<usize, Seq<char>>,
    tabs: Seq<Tab>,
    notes: Set<Seq<char>>,
    occupied: Set<Seq<char>>,
    i: int,
)
    requires
        distinct_ids(tabs),
        is_countable(tabs, occupied),
        collision_renames(icon, known, tabs, occupied).len() == 0,
        0 <= i < tabs.len(),
        is_renamed(icon, known, tabs[i]),
        notes.contains(known[tabs[i].id]),
        !notes.contains(tab_key(icon, tabs[i])),
        forall|j: int| !#[trigger] note_is_taken(icon, known, notes, tabs, i, j),
    ensures
        ({
            let r = round(icon, known, tabs, notes, occupied);
            &&& r.notes.contains(tab_key(icon, tabs[i]))
            &&& (forall|j: int|
                0 <= j < tabs.len() ==> tab_key(icon, #[trigger] tabs[j]) != known[tabs[i].id])
                ==> !r.notes.contains(known[tabs[i].id])
            &&& r.changes.contains(
                Change::MoveNote {
                    id: tabs[i].id,
                    from: known[tabs[i].id],
                    to: tab_key(icon, tabs[i]),
                },
            )
        }),
{
    let tab = tabs[i];
    let from = known[tab.id];
    let to = tab_key(icon, tab);
    let n = tabs.len() as int;
    law_renames_only_on_collision(icon, known, tabs, occupied);
    lemma_known_before_turn(icon, known, notes, tabs, i);
    assert forall|j: int| 0 <= j < n && j != i implies tab_key(icon, #[trigger] tabs[j]) != to by {
        lemma_own_keys_by_position(icon, tabs, i, j);
    }
    assert forall|j: int|
        0 <= j < i && #[trigger] follows_at(icon, known, notes, tabs, j) implies known[tabs[j].id]
        != from by {
        assert(!note_is_taken(icon, known, notes, tabs, i, j));
    }
    assert forall|j: int|
        i < j < n && #[trigger] follows_at(icon, known, notes, tabs, j) implies known[tabs[j].id]
        != to by {
        lemma_known_before_turn(icon, known, notes, tabs, j);
    }
    assert(tabs.take(0) =~= Seq::<Tab>::empty());
    lemma_left_note(icon, known, notes, tabs, i, i);
    lemma_key_stays_free(icon, known, notes, tabs, to, 0, i);
    assert(follows_at(icon, known, notes, tabs, i));
    assert(tabs.take(i + 1).drop_last() =~= tabs.take(i));
    assert(tabs.take(i + 1).last() == tab);
    if forall|j: int| 0 <= j < n ==> tab_key(icon, #[trigger] tabs[j]) != from {
        lemma_key_stays_free(icon, known, notes, tabs, from, i + 1, n);
    }
    lemma_note_stays(icon, known, notes, tabs, to, i + 1, n);
    assert(tabs.take(n) =~= tabs);
    let m = move_all(icon, known, notes, tabs);
    lemma_left(icon, known, notes, tabs, n);
    assert(m.left[i] == Some(from));
    lemma_move_is_asked(icon, m.notes, tabs, m.left, i);
}

/// A note stays until the tab that was last seen with its key has its turn.
proof fn lemma_left_note(
    icon: Seq<char>,
    known: Map<usize, Seq<char>>,
    notes: Set<Seq<char>>,
    tabs: Seq<Tab>,
    i: int,
    n: int,
)
    requires
        distinct_ids(tabs),
        0 <= n <= i < tabs.len(),
        notes.contains(known[tabs[i].id]),
        forall|j: int|
            0 <= j < i && #[trigger] follows_at(icon, known, notes, tabs, j) ==> known[tabs[j].id]
                != known[tabs[i].id],
    ensures
        move_all(icon, known, notes, tabs.take(n)).notes.contains(known[tabs[i].id]),
    decreases n,
{
    if n > 0 {
        lemma_left_note(icon, known, notes, tabs, i, n - 1);
        assert(tabs.take(n).drop_last() =~= tabs.take(n - 1));
        assert(tabs.take(n).last() == tabs[n - 1]);
        lemma_known_before_turn(icon, known, notes, tabs, n - 1);
        if follows_at(icon, known, notes, tabs, n - 1) {
            assert(known[tabs[n - 1].id] != known[tabs[i].id]);
        }
    }
}

/// While tabs have to give way nothing else is done: no note is moved, no icon is put right, and
/// the tabs are known as before.
pub proof fn law_collisions_come_first(
    icon: Seq<char>,
    known: Map<usize, Seq<char>>,
    tabs: Seq<Tab>,
    notes: Set<Seq<char>>,
    occupied: Set<Seq<char>>,
)
    requires
        distinct_ids(tabs),
        is_countable(tabs, occupied),
        !keys_are_own(icon, known, tabs, occupied),
    ensures
        ({
            let r = round(icon, known, tabs, notes, occupied);
            &&& r.known == known
            &&& r.notes == notes
            &&& r.changes.len() > 0
            &&& r.changes == collision_renames(icon, known, tabs, occupied)
            &&& forall|i: int| 0 <= i < r.changes.len() ==> (#[trigger] r.changes[i]) is RenameTab
        }),
{
    law_renames_only_on_collision(icon, known, tabs, occupied);
    lemma_collision_changes(icon, known, tabs, occupied);
}

/// After a round without collisions a tab is shown with the icon and a space in front of its name
/// if it has a note by then, and under its bare name if it has none. Only tabs that are shown
/// otherwise are renamed.
pub proof fn law_round_puts_the_icons_right(
    icon: Seq<char>,
    known: Map<usize, Seq<char>>,
    tabs: Seq<Tab>,
    notes: Set<Seq<char>>,
    occupied: Set<Seq<char>>,
    i: int,
)
    requires
        distinct_ids(tabs),
        collision_renames(icon, known, tabs, occupied).len() == 0,
        0 <= i < tabs.len(),
    ensures
        ({
            let r = round(icon, known, tabs, notes, occupied);
            let clean = clean_name(tabs[i].name, icon);
            let name = if r.notes.contains(note_key(clean)) {
                icon + seq![' '] + clean
            } else {
                clean
            };
            new_name(r.changes, tabs[i].id) == if tabs[i].name == name {
                None
            } else {
                Some(name)
            }
        }),
{
    let m = move_all(icon, known, notes, tabs);
    let clean = clean_name(tabs[i].name, icon);
    lemma_move_all(icon, known, notes, tabs);
    lemma_names(icon, m.notes, tabs, m.left);
    assert(decorated(clean, icon, true) =~= icon + seq![' '] + clean);
}

/// The keys once the moves among the changes are made, one after the other.
pub open spec fn moved_keys(keys: Set<Seq<char>>, changes: Seq<Change>) -> Set<Seq<char>>
    decreases changes.len(),
{
    if changes.len() == 0 {
        keys
    } else {
        let front = moved_keys(keys, changes.drop_last());
        if let Change::MoveNote { id, from, to } = changes.last() {
            front.remove(from).insert(to)
        } else {
            front
        }
    }
}

proof fn lemma_moved_keys(
    icon: Seq<char>,
    known: Map<usize, Seq<char>>,
    notes: Set<Seq<char>>,
    last: Set<Seq<char>>,
    tabs: Seq<Tab>,
)
    ensures
        ({
            let m = move_all(icon, known, notes, tabs);
            &&& m.left.len() == tabs.len()
            &&& moved_keys(notes, all_changes(icon, last, tabs, m.left)) == m.notes
        }),
    decreases tabs.len(),
{
    if tabs.len() > 0 {
        let front = tabs.drop_last();
        let tab = tabs.last();
        let m = move_all(icon, known, notes, tabs);
        let b = move_all(icon, known, notes, front);
        lemma_moved_keys(icon, known, notes, last, front);
        assert(m.left.drop_last() =~= b.left);
        let changes = all_changes(icon, last, front, b.left);
        let own = changes_for(icon, last, tab, m.left.last());
        let moved = match m.left.last() {
            Some(from) => changes.push(
                Change::MoveNote { id: tab.id, from, to: tab_key(icon, tab) },
            ),
            None => changes,
        };
        if m.left.last() is Some {
            assert(moved.drop_last() =~= changes);
        }
        assert(moved_keys(notes, moved) == m.notes);
        let name = expected_name(icon, last, tab);
        if name != tab.name {
            let all = moved.push(Change::RenameTab { id: tab.id, name });
            assert(changes + own =~= all);
            assert(all.drop_last() =~= moved);
            assert(moved_keys(notes, all) == moved_keys(notes, moved));
        } else {
            assert(changes + own =~= moved);
        }
        assert(all_changes(icon, last, tabs, m.left) == changes + own);
    }
}

/// The notes are afterwards exactly where the moves of the round have taken them.
pub proof fn law_notes_are_where_they_were_moved(
    icon: Seq<char>,
    known: Map<usize, Seq<char>>,
    tabs: Seq<Tab>,
    notes: Set<Seq<char>>,
    occupied: Set<Seq<char>>,
)
    ensures
        ({
            let r = round(icon, known, tabs, notes, occupied);
            r.notes == moved_keys(notes, r.changes)
        }),
{
    if collision_renames(icon, known, tabs, occupied).len() > 0 {
        lemma_collision_changes(icon, known, tabs, occupied);
        lemma_renames_move_nothing(notes, collision_renames(icon, known, tabs, occupied));
    } else {
        let m = move_all(icon, known, notes, tabs);
        lemma_moved_keys(icon, known, notes, m.notes, tabs);
    }
}

proof fn lemma_renames_move_nothing(keys: Set<Seq<char>>, changes: Seq<Change>)
    requires
        forall|i: int| 0 <= i < changes.len() ==> (#[trigger] changes[i]) is RenameTab,
    ensures
        moved_keys(keys, changes) == keys,
    decreases changes.len(),
{
    if changes.len() > 0 {
        assert(changes[changes.len() - 1] is RenameTab);
        assert forall|i: int| 0 <= i < changes.len() - 1 implies (
        #[trigger] changes.drop_last()[i]) is RenameTab by {
            assert(changes[i] is RenameTab);
        }
        lemma_renames_move_nothing(keys, changes.drop_last());
    }
}

/// The id of the tab that a change is about.
pub open spec fn change_id(change: Change) -> usize {
    match change {
        Change::RenameTab { id, .. } => id,
        Change::MoveNote { id, .. } => id,
    }
}

/// Where a tab with this id is shown.
pub open spec fn is_shown_at(tabs: Seq<Tab>, id: usize, i: int) -> bool {
    0 <= i < tabs.len() && tabs[i].id == id
}

/// The changes of a round without collisions come in the order in which the tabs are shown, and the
/// note of a tab moves before the tab is renamed.
pub proof fn law_changes_come_in_order(
    icon: Seq<char>,
    known: Map<usize, Seq<char>>,
    tabs: Seq<Tab>,
    notes: Set<Seq<char>>,
    occupied: Set<Seq<char>>,
    a: int,
    b: int,
)
    requires
        distinct_ids(tabs),
        collision_renames(icon, known, tabs, occupied).len() == 0,
        0 <= a < b < round(icon, known, tabs, notes, occupied).changes.len(),
    ensures
        ({
            let changes = round(icon, known, tabs, notes, occupied).changes;
            exists|i: int, j: int|
                #![trigger is_shown_at(tabs, change_id(changes[a]), i), is_shown_at(
                    tabs,
                    change_id(changes[b]),
                    j,
                )]
                is_shown_at(tabs, change_id(changes[a]), i) && is_shown_at(
                    tabs,
                    change_id(changes[b]),
                    j,
                ) && (i < j || (i == j && changes[a] is MoveNote && changes[b] is RenameTab))
        }),
{
    let m = move_all(icon, known, notes, tabs);
    lemma_move_all(icon, known, notes, tabs);
    lemma_changes_in_order(icon, m.notes, tabs, m.left, a, b);
}

proof fn lemma_change_is_of_a_tab(
    icon: Seq<char>,
    notes: Set<Seq<char>>,
    tabs: Seq<Tab>,
    left: Seq<Option<Seq<char>>>,
    a: int,
)
    requires
        left.len() == tabs.len(),
        0 <= a < all_changes(icon, notes, tabs, left).len(),
    ensures
        exists|i: int| #[trigger]
            is_shown_at(tabs, change_id(all_changes(icon, notes, tabs, left)[a]), i),
    decreases tabs.len(),
{
    if tabs.len() > 0 {
        let n = tabs.len() - 1;
        let front = all_changes(icon, notes, tabs.drop_last(), left.drop_last());
        let id = change_id(all_changes(icon, notes, tabs, left)[a]);
        if a < front.len() {
            lemma_change_is_of_a_tab(icon, notes, tabs.drop_last(), left.drop_last(), a);
            let i = choose|i: int| #[trigger]
                is_shown_at(tabs.drop_last(), change_id(front[a]), i);
            assert(is_shown_at(tabs, id, i));
        } else {
            assert(is_shown_at(tabs, id, n));
        }
    }
}

proof fn lemma_changes_in_order(
    icon: Seq<char>,
    notes: Set<Seq<char>>,
    tabs: Seq<Tab>,
    left: Seq<Option<Seq<char>>>,
    a: int,
    b: int,
)
    requires
        left.len() == tabs.len(),
        0 <= a < b < all_changes(icon, notes, tabs, left).len(),
    ensures
        ({
            let changes = all_changes(icon, notes, tabs, left);
            exists|i: int, j: int|
                #![trigger is_shown_at(tabs, change_id(changes[a]), i), is_shown_at(
                    tabs,
                    change_id(changes[b]),
                    j,
                )]
                is_shown_at(tabs, change_id(changes[a]), i) && is_shown_at(
                    tabs,
                    change_id(changes[b]),
                    j,
                ) && (i < j || (i == j && changes[a] is MoveNote && changes[b] is RenameTab))
        }),
    decreases tabs.len(),
{
    if tabs.len() > 0 {
        let n = tabs.len() - 1;
        let t = tabs.drop_last();
        let l = left.drop_last();
        let changes = all_changes(icon, notes, tabs, left);
        let front = all_changes(icon, notes, t, l);
        if b < front.len() {
            lemma_changes_in_order(icon, notes, t, l, a, b);
            let (i, j) = choose|i: int, j: int|
                #![trigger is_shown_at(t, change_id(front[a]), i), is_shown_at(
                    t,
                    change_id(front[b]),
                    j,
                )]
                is_shown_at(t, change_id(front[a]), i) && is_shown_at(
                    t,
                    change_id(front[b]),
                    j,
                ) && (i < j || (i == j && front[a] is MoveNote && front[b] is RenameTab));
            assert(is_shown_at(tabs, change_id(changes[a]), i) && is_shown_at(
                tabs,
                change_id(changes[b]),
                j,
            ));
        } else {
            assert(is_shown_at(tabs, change_id(changes[b]), n));
            if a < front.len() {
                lemma_change_is_of_a_tab(icon, notes, t, l, a);
                let i = choose|i: int| #[trigger] is_shown_at(t, change_id(front[a]), i);
                assert(is_shown_at(tabs, change_id(changes[a]), i));
            } else {
                assert(is_shown_at(tabs, change_id(changes[a]), n));
            }
        }
    }
}

} // verus!
