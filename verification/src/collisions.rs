//! What choosing keys guarantees: every tab ends up with a key of its own, established owners
//! keep theirs, and new names are free.
use crate::icon::{clean_name, lemma_clean_name_is_clean, marker, starts_with};
use crate::numbering::{lemma_first_free, lemma_key_of_numbered, lemma_number_base};
use crate::order::{distinct_ids, law_line_ignores_display_order, lemma_id_tells, lemma_line_up};
use crate::paths::{note_key, MAX_KEY_BYTES};
use crate::plan::{
    choose_all, collision_renames, first_free, free_name, goes_before, is_renamed, is_settled,
    is_taken, line_up, number_base, number_suffix, numbered, reserved_keys, tab_key, tab_keys,
    Change, Tab,
};
use crate::text::{byte_len, decimal, lemma_decimal_digits, lemma_decimal_injective};
use vstd::prelude::*;

verus! {

/// The last name that the changes give to the tab with this id.
pub open spec fn new_name(changes: Seq<Change>, id: usize) -> Option<Seq<char>>
    decreases changes.len(),
{
    if changes.len() == 0 {
        None
    } else {
        match changes.last() {
            Change::RenameTab { id: renamed, name } if renamed == id => Some(name),
            _ => new_name(changes.drop_last(), id),
        }
    }
}

/// The tabs as they are shown after the changes.
pub open spec fn shown_after(tabs: Seq<Tab>, changes: Seq<Change>) -> Seq<Tab> {
    tabs.map_values(
        |t: Tab|
            match new_name(changes, t.id) {
                Some(name) => Tab { id: t.id, name },
                None => t,
            },
    )
}

/// The key that the tab has chosen.
pub open spec fn chosen_key(icon: Seq<char>, changes: Seq<Change>, tab: Tab) -> Seq<char> {
    match new_name(changes, tab.id) {
        Some(name) => note_key(name),
        None => tab_key(icon, tab),
    }
}

/// The sets and lists are of a size that memory can hold.
pub open spec fn is_countable(tabs: Seq<Tab>, occupied: Set<Seq<char>>) -> bool {
    &&& occupied.finite() && occupied.len() <= usize::MAX
    &&& tabs.len() <= usize::MAX
}

/// There are only so many ids. So the tabs that are known are finitely many, whichever they are.
pub proof fn lemma_ids_are_finite(ids: Set<usize>)
    ensures
        ids.finite(),
        ids.len() <= usize::MAX + 1,
{
    let range = vstd::set_lib::set_int_range(0, usize::MAX + 1);
    let f = |i: int| i as usize;
    vstd::set_lib::lemma_int_range(0, usize::MAX + 1);
    vstd::set_lib::lemma_map_size_bound(range, range.map(f), f);
    assert forall|id: usize| ids.contains(id) implies #[trigger] range.map(f).contains(id) by {
        assert(range.contains(id as int) && f(id as int) == id);
    }
    vstd::set_lib::lemma_len_subset(ids, range.map(f));
}

/// Every tab has a key of its own, and no tab comes from another name onto a file.
pub open spec fn keys_are_own(
    icon: Seq<char>,
    known: Map<usize, Seq<char>>,
    tabs: Seq<Tab>,
    occupied: Set<Seq<char>>,
) -> bool {
    &&& forall|a: Tab, b: Tab|
        #![trigger tabs.contains(a), tabs.contains(b)]
        tabs.contains(a) && tabs.contains(b) && a != b ==> tab_key(icon, a) != tab_key(icon, b)
    &&& forall|a: Tab| #[trigger]
        tabs.contains(a) ==> !(is_renamed(icon, known, a) && occupied.contains(tab_key(icon, a)))
}

proof fn lemma_reserved_is_finite(
    icon: Seq<char>,
    known: Map<usize, Seq<char>>,
    tabs: Seq<Tab>,
    occupied: Set<Seq<char>>,
)
    requires
        is_countable(tabs, occupied),
    ensures
        reserved_keys(icon, known, tabs, occupied).finite(),
        reserved_keys(icon, known, tabs, occupied).len() <= 3 * usize::MAX + 1,
        occupied.subset_of(reserved_keys(icon, known, tabs, occupied)),
        forall|id: usize| #[trigger]
            known.contains_key(id) ==> reserved_keys(icon, known, tabs, occupied).contains(
                known[id],
            ),
        forall|t: Tab| #[trigger]
            tabs.contains(t) ==> reserved_keys(icon, known, tabs, occupied).contains(
                tab_key(icon, t),
            ),
{
    let keys = tabs.map_values(|t: Tab| tab_key(icon, t));
    vstd::seq_lib::seq_to_set_is_finite(keys);
    keys.lemma_cardinality_of_set();
    let f = |id: usize| known[id];
    assert(known.values() =~= known.dom().map(f)) by {
        assert forall|k: Seq<char>| #[trigger] known.values().contains(k) implies known.dom().map(
            f,
        ).contains(k) by {
            let id = choose|id: usize| #[trigger] known.contains_key(id) && known[id] == k;
            assert(known.dom().contains(id) && f(id) == k);
        }
        assert forall|k: Seq<char>| #[trigger] known.dom().map(f).contains(k) implies known
            .values().contains(k) by {
            let id = choose|id: usize| known.dom().contains(id) && k == f(id);
            assert(known.contains_key(id) && known[id] == k);
        }
    }
    lemma_ids_are_finite(known.dom());
    vstd::set_lib::lemma_map_size_bound(known.dom(), known.values(), f);
    vstd::set_lib::lemma_len_union(occupied, known.values());
    vstd::set_lib::lemma_len_union(occupied.union(known.values()), tab_keys(icon, tabs));
    assert forall|t: Tab| #[trigger] tabs.contains(t) implies reserved_keys(
        icon,
        known,
        tabs,
        occupied,
    ).contains(tab_key(icon, t)) by {
        let i = choose|i: int| 0 <= i < tabs.len() && tabs[i] == t;
        assert(keys[i] == tab_key(icon, t));
    }
}

/// What holds after the tabs of a line have chosen their keys.
pub open spec fn choice_is_sound(
    icon: Seq<char>,
    known: Map<usize, Seq<char>>,
    occupied: Set<Seq<char>>,
    reserved: Set<Seq<char>>,
    line: Seq<Tab>,
) -> bool {
    let c = choose_all(icon, known, occupied, reserved, line);
    // Nothing reserved is given up, and every chosen key is reserved.
    &&& reserved.subset_of(c.reserved)
    &&& c.reserved.finite()
    &&& c.reserved.len() <= reserved.len() + line.len()
    &&& c.used.subset_of(c.reserved)
    // The chosen keys are the used ones, and they are all different.
    &&& forall|i: int|
        0 <= i < line.len() ==> c.used.contains(chosen_key(icon, c.changes, #[trigger] line[i]))
    &&& forall|k: Seq<char>| #[trigger]
        c.used.contains(k) ==> exists|i: int|
            0 <= i < line.len() && chosen_key(icon, c.changes, #[trigger] line[i]) == k
    &&& forall|i: int, j: int|
        0 <= i < j < line.len() ==> chosen_key(icon, c.changes, #[trigger] line[i]) != chosen_key(
            icon,
            c.changes,
            #[trigger] line[j],
        )
    // A new name is free, and a tab without one may have the key of its name.
    &&& forall|i: int|
        0 <= i < line.len() ==> match new_name(c.changes, (#[trigger] line[i]).id) {
            Some(name) => {
                &&& !reserved.contains(note_key(name))
                &&& byte_len(name) <= MAX_KEY_BYTES
                &&& exists|n: nat|
                    n >= 2 && name == #[trigger] numbered(
                        number_base(clean_name(line[i].name, icon)),
                        n,
                    )
            },
            None => !(is_renamed(icon, known, line[i]) && occupied.contains(
                tab_key(icon, line[i]),
            )),
        }
    // Only tabs of the line get a new name.
    &&& forall|id: usize|
        (forall|i: int| 0 <= i < line.len() ==> (#[trigger] line[i]).id != id)
            ==> #[trigger] new_name(c.changes, id) is None
    &&& forall|i: int| 0 <= i < c.changes.len() ==> (#[trigger] c.changes[i]) is RenameTab
}

/// Appending a rename for one id leaves the names of the other ids.
proof fn lemma_new_name_push(changes: Seq<Change>, id: usize, name: Seq<char>)
    ensures
        new_name(changes.push(Change::RenameTab { id, name }), id) == Some(name),
        forall|other: usize|
            other != id ==> #[trigger] new_name(
                changes.push(Change::RenameTab { id, name }),
                other,
            ) == new_name(changes, other),
{
    let longer = changes.push(Change::RenameTab { id, name });
    assert(longer.drop_last() =~= changes);
    assert(longer.last() == Change::RenameTab { id, name });
}

proof fn lemma_choice(
    icon: Seq<char>,
    known: Map<usize, Seq<char>>,
    occupied: Set<Seq<char>>,
    reserved: Set<Seq<char>>,
    line: Seq<Tab>,
)
    requires
        reserved.finite(),
        reserved.len() + line.len() + 3 <= u128::MAX,
        distinct_ids(line),
        forall|i: int| 0 <= i < line.len() ==> reserved.contains(tab_key(icon, #[trigger] line[i])),
    ensures
        choice_is_sound(icon, known, occupied, reserved, line),
    decreases line.len(),
{
    let c = choose_all(icon, known, occupied, reserved, line);
    if line.len() == 0 {
    } else {
        let front = line.drop_last();
        let tab = line.last();
        let n = front.len() as int;
        assert(distinct_ids(front)) by {
            assert forall|i: int, j: int| 0 <= i < j < front.len() implies (
            #[trigger] front[i]).id != (#[trigger] front[j]).id by {
                assert(line[i].id != line[j].id);
            }
        }
        assert forall|i: int| 0 <= i < front.len() implies reserved.contains(
            tab_key(icon, #[trigger] front[i]),
        ) by {
            assert(front[i] == line[i]);
        }
        lemma_choice(icon, known, occupied, reserved, front);
        let b = choose_all(icon, known, occupied, reserved, front);
        assert(line[n] == tab);
        assert forall|i: int| 0 <= i < n implies (#[trigger] front[i]).id != tab.id && front[i]
            == line[i] by {
            assert(line[i].id != line[n].id);
        }
        assert(new_name(b.changes, tab.id) is None);
        if is_taken(icon, known, occupied, b.used, tab) {
            let clean = clean_name(tab.name, icon);
            let base = number_base(clean);
            lemma_number_base(clean);
            lemma_first_free(base, b.reserved);
            let m = first_free(base, b.reserved);
            let name = numbered(base, m);
            lemma_key_of_numbered(base, m);
            assert(name == free_name(clean, b.reserved));
            assert(!b.reserved.contains(note_key(name)));
            lemma_new_name_push(b.changes, tab.id, name);
            assert(c.changes == b.changes.push(Change::RenameTab { id: tab.id, name }));
            assert(chosen_key(icon, c.changes, tab) == note_key(name));
            assert forall|i: int| 0 <= i < n implies chosen_key(
                icon,
                c.changes,
                #[trigger] line[i],
            ) == chosen_key(icon, b.changes, front[i]) by {
                assert(front[i].id != tab.id);
            }
        } else {
            assert(c.changes == b.changes);
            assert(chosen_key(icon, c.changes, tab) == tab_key(icon, tab));
        }
        let key = chosen_key(icon, c.changes, tab);
        assert(c.used == b.used.insert(key));
        assert(!b.used.contains(key));
        assert forall|i: int| 0 <= i < n implies chosen_key(icon, c.changes, #[trigger] line[i])
            == chosen_key(icon, b.changes, front[i]) && new_name(c.changes, line[i].id) == new_name(
            b.changes,
            front[i].id,
        ) by {
            assert(front[i].id != tab.id);
        }
        assert forall|i: int| 0 <= i < line.len() implies c.used.contains(
            chosen_key(icon, c.changes, #[trigger] line[i]),
        ) by {
            if i < n {
                assert(b.used.contains(chosen_key(icon, b.changes, front[i])));
            }
        }
        assert forall|k: Seq<char>| #[trigger] c.used.contains(k) implies exists|i: int|
            0 <= i < line.len() && chosen_key(icon, c.changes, #[trigger] line[i]) == k by {
            if k == key {
                assert(chosen_key(icon, c.changes, line[n]) == k);
            } else {
                assert(b.used.contains(k));
                let i = choose|i: int|
                    0 <= i < front.len() && chosen_key(icon, b.changes, #[trigger] front[i]) == k;
                assert(chosen_key(icon, c.changes, line[i]) == k);
            }
        }
        assert forall|i: int, j: int| 0 <= i < j < line.len() implies chosen_key(
            icon,
            c.changes,
            #[trigger] line[i],
        ) != chosen_key(icon, c.changes, #[trigger] line[j]) by {
            if j < n {
                assert(chosen_key(icon, b.changes, front[i]) != chosen_key(
                    icon,
                    b.changes,
                    front[j],
                ));
            } else {
                assert(b.used.contains(chosen_key(icon, b.changes, front[i])));
            }
        }
        assert forall|id: usize|
            (forall|i: int| 0 <= i < line.len() ==> (#[trigger] line[i]).id != id) implies
            #[trigger] new_name(c.changes, id) is None by {
            assert(line[n].id != id);
            assert forall|i: int| 0 <= i < front.len() implies (#[trigger] front[i]).id != id by {
                assert(line[i].id != id);
            }
            assert(new_name(b.changes, id) is None);
        }
    }
}

/// The line of tabs with different ids has different ids too.
proof fn lemma_line_ids(icon: Seq<char>, known: Map<usize, Seq<char>>, tabs: Seq<Tab>)
    requires
        distinct_ids(tabs),
    ensures
        distinct_ids(line_up(icon, known, tabs)),
{
    let line = line_up(icon, known, tabs);
    lemma_line_up(icon, known, tabs);
    assert forall|i: int, j: int| 0 <= i < j < line.len() implies (#[trigger] line[i]).id != (
    #[trigger] line[j]).id by {
        assert(line.contains(line[i]) && line.contains(line[j]));
        if line[i].id == line[j].id {
            lemma_id_tells(tabs, line[i], line[j]);
        }
    }
}

/// The keys that the tabs of a round choose are sound.
proof fn lemma_round_choice(
    icon: Seq<char>,
    known: Map<usize, Seq<char>>,
    tabs: Seq<Tab>,
    occupied: Set<Seq<char>>,
)
    requires
        distinct_ids(tabs),
        is_countable(tabs, occupied),
    ensures
        choice_is_sound(
            icon,
            known,
            occupied,
            reserved_keys(icon, known, tabs, occupied),
            line_up(icon, known, tabs),
        ),
        distinct_ids(line_up(icon, known, tabs)),
{
    let line = line_up(icon, known, tabs);
    lemma_line_ids(icon, known, tabs);
    lemma_line_up(icon, known, tabs);
    lemma_reserved_is_finite(icon, known, tabs, occupied);
    let reserved = reserved_keys(icon, known, tabs, occupied);
    assert forall|i: int| 0 <= i < line.len() implies reserved.contains(
        tab_key(icon, #[trigger] line[i]),
    ) by {
        assert(line.contains(line[i]));
        assert(tabs.contains(line[i]));
    }
    lemma_choice(icon, known, occupied, reserved, line);
}

/// Choosing keys only renames tabs.
pub proof fn lemma_collision_changes(
    icon: Seq<char>,
    known: Map<usize, Seq<char>>,
    tabs: Seq<Tab>,
    occupied: Set<Seq<char>>,
)
    ensures
        forall|i: int|
            0 <= i < collision_renames(icon, known, tabs, occupied).len() ==> (
            #[trigger] collision_renames(icon, known, tabs, occupied)[i]) is RenameTab,
{
    lemma_choices_only_rename(
        icon,
        known,
        occupied,
        reserved_keys(icon, known, tabs, occupied),
        line_up(icon, known, tabs),
    );
}

proof fn lemma_choices_only_rename(
    icon: Seq<char>,
    known: Map<usize, Seq<char>>,
    occupied: Set<Seq<char>>,
    reserved: Set<Seq<char>>,
    line: Seq<Tab>,
)
    ensures
        forall|i: int|
            0 <= i < choose_all(icon, known, occupied, reserved, line).changes.len() ==> (
            #[trigger] choose_all(icon, known, occupied, reserved, line).changes[i]) is RenameTab,
    decreases line.len(),
{
    if line.len() > 0 {
        lemma_choices_only_rename(icon, known, occupied, reserved, line.drop_last());
    }
}

/// Where a tab stands in the line.
proof fn lemma_place_in_line(
    icon: Seq<char>,
    known: Map<usize, Seq<char>>,
    tabs: Seq<Tab>,
    t: Tab,
) -> (p: int)
    requires
        tabs.contains(t),
    ensures
        0 <= p < line_up(icon, known, tabs).len(),
        line_up(icon, known, tabs)[p] == t,
{
    let line = line_up(icon, known, tabs);
    lemma_line_up(icon, known, tabs);
    assert(line.contains(t));
    choose|p: int| 0 <= p < line.len() && line[p] == t
}

/// If no key is taken, no tab gets another name, and the used keys are those of the line.
proof fn lemma_own_keys_need_no_change(
    icon: Seq<char>,
    known: Map<usize, Seq<char>>,
    occupied: Set<Seq<char>>,
    reserved: Set<Seq<char>>,
    line: Seq<Tab>,
)
    requires
        forall|i: int, j: int|
            0 <= i < j < line.len() ==> tab_key(icon, #[trigger] line[i]) != tab_key(
                icon,
                #[trigger] line[j],
            ),
        forall|i: int|
            0 <= i < line.len() ==> !(is_renamed(icon, known, #[trigger] line[i])
                && occupied.contains(tab_key(icon, line[i]))),
    ensures
        choose_all(icon, known, occupied, reserved, line).changes.len() == 0,
        forall|k: Seq<char>| #[trigger]
            choose_all(icon, known, occupied, reserved, line).used.contains(k) ==> exists|i: int|
                0 <= i < line.len() && tab_key(icon, #[trigger] line[i]) == k,
    decreases line.len(),
{
    let c = choose_all(icon, known, occupied, reserved, line);
    if line.len() > 0 {
        let front = line.drop_last();
        let tab = line.last();
        let n = front.len() as int;
        assert(line[n] == tab);
        assert forall|i: int, j: int| 0 <= i < j < front.len() implies tab_key(
            icon,
            #[trigger] front[i],
        ) != tab_key(icon, #[trigger] front[j]) by {
            assert(tab_key(icon, line[i]) != tab_key(icon, line[j]));
        }
        assert forall|i: int| 0 <= i < front.len() implies !(is_renamed(
            icon,
            known,
            #[trigger] front[i],
        ) && occupied.contains(tab_key(icon, front[i]))) by {
            assert(front[i] == line[i]);
        }
        lemma_own_keys_need_no_change(icon, known, occupied, reserved, front);
        let b = choose_all(icon, known, occupied, reserved, front);
        assert(!b.used.contains(tab_key(icon, tab))) by {
            if b.used.contains(tab_key(icon, tab)) {
                let i = choose|i: int|
                    0 <= i < front.len() && tab_key(icon, #[trigger] front[i]) == tab_key(
                        icon,
                        tab,
                    );
                assert(tab_key(icon, line[i]) != tab_key(icon, line[n]));
            }
        }
        assert(!is_taken(icon, known, occupied, b.used, tab));
        assert forall|k: Seq<char>| #[trigger] c.used.contains(k) implies exists|i: int|
            0 <= i < line.len() && tab_key(icon, #[trigger] line[i]) == k by {
            if k == tab_key(icon, tab) {
                assert(tab_key(icon, line[n]) == k);
            } else {
                let i = choose|i: int|
                    0 <= i < front.len() && tab_key(icon, #[trigger] front[i]) == k;
                assert(tab_key(icon, line[i]) == k);
            }
        }
    }
}

/// No tab is asked to give way exactly when every tab has a key of its own and none comes from
/// another name onto a file.
pub proof fn law_renames_only_on_collision(
    icon: Seq<char>,
    known: Map<usize, Seq<char>>,
    tabs: Seq<Tab>,
    occupied: Set<Seq<char>>,
)
    requires
        distinct_ids(tabs),
        is_countable(tabs, occupied),
    ensures
        collision_renames(icon, known, tabs, occupied).len() == 0 <==> keys_are_own(
            icon,
            known,
            tabs,
            occupied,
        ),
{
    let line = line_up(icon, known, tabs);
    let reserved = reserved_keys(icon, known, tabs, occupied);
    let c = choose_all(icon, known, occupied, reserved, line);
    lemma_round_choice(icon, known, tabs, occupied);
    lemma_line_up(icon, known, tabs);
    if c.changes.len() == 0 {
        assert forall|a: Tab, b: Tab|
            #![trigger tabs.contains(a), tabs.contains(b)]
            tabs.contains(a) && tabs.contains(b) && a != b implies tab_key(icon, a) != tab_key(
            icon,
            b,
        ) by {
            let p = lemma_place_in_line(icon, known, tabs, a);
            let q = lemma_place_in_line(icon, known, tabs, b);
            assert(chosen_key(icon, c.changes, line[p]) == tab_key(icon, a));
            assert(chosen_key(icon, c.changes, line[q]) == tab_key(icon, b));
        }
        assert forall|a: Tab| #[trigger] tabs.contains(a) implies !(is_renamed(icon, known, a)
            && occupied.contains(tab_key(icon, a))) by {
            let p = lemma_place_in_line(icon, known, tabs, a);
            assert(new_name(c.changes, line[p].id) is None);
        }
    }
    if keys_are_own(icon, known, tabs, occupied) {
        assert forall|i: int, j: int| 0 <= i < j < line.len() implies tab_key(
            icon,
            #[trigger] line[i],
        ) != tab_key(icon, #[trigger] line[j]) by {
            assert(line.contains(line[i]) && line.contains(line[j]));
            assert(tabs.contains(line[i]) && tabs.contains(line[j]));
            assert(line[i].id != line[j].id);
        }
        assert forall|i: int| 0 <= i < line.len() implies !(is_renamed(
            icon,
            known,
            #[trigger] line[i],
        ) && occupied.contains(tab_key(icon, line[i]))) by {
            assert(line.contains(line[i]));
            assert(tabs.contains(line[i]));
        }
        lemma_own_keys_need_no_change(icon, known, occupied, reserved, line);
    }
}

/// A tab that has to give way gets the name it has, with a number behind it, whose key belongs
/// to no file, to no tab as last seen and to no tab as it is now, and is short enough to be a
/// file name without being cut. No two tabs end up with the same key.
pub proof fn law_new_names_are_free(
    icon: Seq<char>,
    known: Map<usize, Seq<char>>,
    tabs: Seq<Tab>,
    occupied: Set<Seq<char>>,
    a: Tab,
    b: Tab,
)
    requires
        distinct_ids(tabs),
        is_countable(tabs, occupied),
        tabs.contains(a),
        tabs.contains(b),
    ensures
        new_name(collision_renames(icon, known, tabs, occupied), a.id) matches Some(name) ==> {
            &&& exists|n: nat|
                n >= 2 && name == #[trigger] numbered(number_base(clean_name(a.name, icon)), n)
            &&& !occupied.contains(note_key(name))
            &&& !known.values().contains(note_key(name))
            &&& !tab_keys(icon, tabs).contains(note_key(name))
            &&& byte_len(name) <= MAX_KEY_BYTES
        },
        a != b ==> chosen_key(icon, collision_renames(icon, known, tabs, occupied), a)
            != chosen_key(icon, collision_renames(icon, known, tabs, occupied), b),
{
    let line = line_up(icon, known, tabs);
    lemma_round_choice(icon, known, tabs, occupied);
    let p = lemma_place_in_line(icon, known, tabs, a);
    let q = lemma_place_in_line(icon, known, tabs, b);
    let changes = collision_renames(icon, known, tabs, occupied);
    assert(line[p] == a && line[q] == b);
    if a != b {
        if p < q {
            assert(chosen_key(icon, changes, line[p]) != chosen_key(icon, changes, line[q]));
        } else {
            assert(chosen_key(icon, changes, line[q]) != chosen_key(icon, changes, line[p]));
        }
    }
}

/// A numbered name has no marker in front, unless its base is the icon itself.
proof fn lemma_numbered_is_clean(icon: Seq<char>, name: Seq<char>, n: nat)
    requires
        number_base(clean_name(name, icon)) != icon,
    ensures
        clean_name(numbered(number_base(clean_name(name, icon)), n), icon) == numbered(
            number_base(clean_name(name, icon)),
            n,
        ),
{
    let clean = clean_name(name, icon);
    let base = number_base(clean);
    let full = numbered(base, n);
    let mark = marker(icon);
    lemma_clean_name_is_clean(name, icon);
    lemma_number_base(clean);
    lemma_decimal_digits(n);
    let k = icon.len() as int;
    if starts_with(full, mark) {
        assert(full.take(mark.len() as int)[k] == ' ');
        assert(full[k] == ' ');
        assert forall|i: int| 0 <= i < k implies full[i] == icon[i] by {
            assert(full.take(mark.len() as int)[i] == mark[i]);
        }
        if k < base.len() {
            assert(clean.take(mark.len() as int) =~= mark) by {
                assert forall|i: int| 0 <= i < mark.len() implies clean[i] == mark[i] by {
                    assert(base[i] == clean[i]);
                    assert(full[i] == base[i]);
                }
            }
        } else if k == base.len() {
            assert(base =~= icon) by {
                assert forall|i: int| 0 <= i < k implies base[i] == icon[i] by {
                    assert(full[i] == base[i]);
                }
            }
        } else {
            let suffix = number_suffix(n);
            let j = k - base.len();
            assert(full[k] == suffix[j]);
            if 2 <= j < decimal(n).len() + 2 {
                assert(suffix[j] == decimal(n)[j - 2]);
            }
        }
    }
}

/// The tab at position `i` has nothing but the icon for a name. With a number behind it the icon
/// counts as a marker again, so the number alone is the name, and as such it is not free.
pub open spec fn is_misread(
    icon: Seq<char>,
    known: Map<usize, Seq<char>>,
    tabs: Seq<Tab>,
    occupied: Set<Seq<char>>,
    i: int,
) -> bool {
    let changes = collision_renames(icon, known, tabs, occupied);
    let shown = shown_after(tabs, changes);
    &&& 0 <= i < tabs.len()
    &&& new_name(changes, tabs[i].id) is Some
    &&& number_base(clean_name(tabs[i].name, icon)) == icon
    &&& {
        ||| is_renamed(icon, known, shown[i]) && occupied.contains(tab_key(icon, shown[i]))
        ||| exists|j: int|
            0 <= j < tabs.len() && j != i && tab_key(icon, #[trigger] shown[j]) == tab_key(
                icon,
                shown[i],
            )
    }
}

/// Once the new names are shown, no tab has to give way any more. Left out are names that are
/// nothing but the icon and whose number alone is not free.
pub proof fn law_collisions_are_resolved(
    icon: Seq<char>,
    known: Map<usize, Seq<char>>,
    tabs: Seq<Tab>,
    occupied: Set<Seq<char>>,
)
    requires
        distinct_ids(tabs),
        is_countable(tabs, occupied),
        forall|i: int| !#[trigger] is_misread(icon, known, tabs, occupied, i),
    ensures
        collision_renames(
            icon,
            known,
            shown_after(tabs, collision_renames(icon, known, tabs, occupied)),
            occupied,
        ).len() == 0,
{
    let changes = collision_renames(icon, known, tabs, occupied);
    let shown = shown_after(tabs, changes);
    let line = line_up(icon, known, tabs);
    let bare = |i: int|
        new_name(changes, tabs[i].id) is Some && number_base(clean_name(tabs[i].name, icon))
            == icon;
    lemma_round_choice(icon, known, tabs, occupied);
    lemma_reserved_is_finite(icon, known, tabs, occupied);
    assert forall|i: int| 0 <= i < tabs.len() implies (!bare(i) ==> tab_key(
        icon,
        #[trigger] shown[i],
    ) == chosen_key(icon, changes, tabs[i])) && shown[i].id == tabs[i].id && (is_renamed(
        icon,
        known,
        shown[i],
    ) ==> !occupied.contains(tab_key(icon, shown[i]))) by {
        let t = tabs[i];
        assert(tabs.contains(t));
        let p = lemma_place_in_line(icon, known, tabs, t);
        assert(line[p] == t);
        assert(!is_misread(icon, known, tabs, occupied, i));
        match new_name(changes, t.id) {
            Some(name) => {
                let n = choose|n: nat|
                    n >= 2 && name == #[trigger] numbered(number_base(clean_name(t.name, icon)), n);
                if !bare(i) {
                    lemma_numbered_is_clean(icon, t.name, n);
                }
            },
            None => {},
        }
    }
    assert(distinct_ids(shown)) by {
        assert forall|i: int, j: int| 0 <= i < j < shown.len() implies (#[trigger] shown[i]).id
            != (#[trigger] shown[j]).id by {
            assert(tabs[i].id != tabs[j].id);
        }
    }
    assert(keys_are_own(icon, known, shown, occupied)) by {
        assert forall|a: Tab, b: Tab|
            #![trigger shown.contains(a), shown.contains(b)]
            shown.contains(a) && shown.contains(b) && a != b implies tab_key(icon, a) != tab_key(
            icon,
            b,
        ) by {
            let i = choose|i: int| 0 <= i < shown.len() && shown[i] == a;
            let j = choose|j: int| 0 <= j < shown.len() && shown[j] == b;
            assert(tabs.contains(tabs[i]) && tabs.contains(tabs[j]));
            if i < j {
                assert(tabs[i].id != tabs[j].id);
            } else {
                assert(tabs[j].id != tabs[i].id);
            }
            assert(!is_misread(icon, known, tabs, occupied, i));
            assert(!is_misread(icon, known, tabs, occupied, j));
            if !bare(i) && !bare(j) {
                law_new_names_are_free(icon, known, tabs, occupied, tabs[i], tabs[j]);
            }
        }
        assert forall|a: Tab| #[trigger] shown.contains(a) implies !(is_renamed(icon, known, a)
            && occupied.contains(tab_key(icon, a))) by {
            let i = choose|i: int| 0 <= i < shown.len() && shown[i] == a;
            assert(shown[i] == a);
        }
    }
    law_renames_only_on_collision(icon, known, shown, occupied);
}

/// Later tabs do not change what an earlier one was given.
proof fn lemma_names_last(
    icon: Seq<char>,
    known: Map<usize, Seq<char>>,
    occupied: Set<Seq<char>>,
    reserved: Set<Seq<char>>,
    line: Seq<Tab>,
    p: int,
)
    requires
        distinct_ids(line),
        0 <= p < line.len(),
    ensures
        new_name(choose_all(icon, known, occupied, reserved, line).changes, line[p].id)
            == new_name(
            choose_all(icon, known, occupied, reserved, line.take(p + 1)).changes,
            line[p].id,
        ),
    decreases line.len(),
{
    if p == line.len() - 1 {
        assert(line.take(p + 1) =~= line);
    } else {
        let front = line.drop_last();
        let tab = line.last();
        assert(distinct_ids(front)) by {
            assert forall|i: int, j: int| 0 <= i < j < front.len() implies (
            #[trigger] front[i]).id != (#[trigger] front[j]).id by {
                assert(line[i].id != line[j].id);
            }
        }
        lemma_names_last(icon, known, occupied, reserved, front, p);
        assert(front.take(p + 1) =~= line.take(p + 1));
        assert(line[p].id != line[line.len() - 1].id);
        let b = choose_all(icon, known, occupied, reserved, front);
        if is_taken(icon, known, occupied, b.used, tab) {
            lemma_new_name_push(
                b.changes,
                tab.id,
                free_name(clean_name(tab.name, icon), b.reserved),
            );
        }
    }
}

/// A tab that still has the key it was last seen with keeps its name, whoever else comes for
/// that key, and every other tab with that key gets a new one. Among several such tabs with the
/// same key, the one with the lowest id is the owner.
pub proof fn law_established_owner_keeps_its_name(
    icon: Seq<char>,
    known: Map<usize, Seq<char>>,
    tabs: Seq<Tab>,
    occupied: Set<Seq<char>>,
    owner: Tab,
)
    requires
        distinct_ids(tabs),
        is_countable(tabs, occupied),
        tabs.contains(owner),
        is_settled(icon, known, owner),
        forall|t: Tab| #[trigger]
            tabs.contains(t) && t != owner && is_settled(icon, known, t) && tab_key(icon, t)
                == tab_key(icon, owner) ==> owner.id < t.id,
    ensures
        new_name(collision_renames(icon, known, tabs, occupied), owner.id) is None,
        forall|t: Tab| #[trigger]
            tabs.contains(t) && t != owner && tab_key(icon, t) == tab_key(icon, owner) ==> new_name(
                collision_renames(icon, known, tabs, occupied),
                t.id,
            ) is Some,
{
    let line = line_up(icon, known, tabs);
    let reserved = reserved_keys(icon, known, tabs, occupied);
    lemma_line_up(icon, known, tabs);
    lemma_line_ids(icon, known, tabs);
    lemma_reserved_is_finite(icon, known, tabs, occupied);
    let p = lemma_place_in_line(icon, known, tabs, owner);
    let front = line.take(p);
    assert(distinct_ids(front)) by {
        assert forall|i: int, j: int| 0 <= i < j < front.len() implies (#[trigger] front[i]).id
            != (#[trigger] front[j]).id by {
            assert(line[i].id != line[j].id);
        }
    }
    assert forall|i: int| 0 <= i < front.len() implies reserved.contains(
        tab_key(icon, #[trigger] front[i]),
    ) by {
        assert(line.contains(line[i]));
        assert(tabs.contains(line[i]));
    }
    lemma_choice(icon, known, occupied, reserved, front);
    let b = choose_all(icon, known, occupied, reserved, front);
    let key = tab_key(icon, owner);
    if b.used.contains(key) {
        let i = choose|i: int|
            0 <= i < front.len() && chosen_key(icon, b.changes, #[trigger] front[i]) == key;
        let t = front[i];
        assert(line[i] == t && line[p] == owner);
        assert(line.contains(line[i]));
        assert(tabs.contains(t));
        assert(!goes_before(icon, known, line[p], line[i]));
        assert(line[i].id != line[p].id);
        assert(reserved.contains(key));
        match new_name(b.changes, t.id) {
            Some(name) => {
                assert(!reserved.contains(note_key(name)));
            },
            None => {
                assert(is_settled(icon, known, t));
            },
        }
    }
    assert(!is_taken(icon, known, occupied, b.used, owner));
    assert(line.take(p + 1).drop_last() =~= front);
    assert(line.take(p + 1).last() == owner);
    assert forall|i: int| 0 <= i < front.len() implies (#[trigger] front[i]).id != owner.id by {
        assert(line[i].id != line[p].id);
    }
    lemma_names_last(icon, known, occupied, reserved, line, p);
    let changes = collision_renames(icon, known, tabs, occupied);
    assert forall|t: Tab| #[trigger]
        tabs.contains(t) && t != owner && tab_key(icon, t) == key implies new_name(changes, t.id)
        is Some by {
        law_new_names_are_free(icon, known, tabs, occupied, t, owner);
    }
}

/// Which tabs give way, and to which names, does not depend on the order in which the tabs are
/// shown: stable ids break ties.
pub proof fn law_collisions_ignore_display_order(
    icon: Seq<char>,
    known: Map<usize, Seq<char>>,
    tabs: Seq<Tab>,
    shuffled: Seq<Tab>,
    occupied: Set<Seq<char>>,
)
    requires
        distinct_ids(tabs),
        distinct_ids(shuffled),
        tabs.len() == shuffled.len(),
        forall|t: Tab| #[trigger] tabs.contains(t) <==> shuffled.contains(t),
    ensures
        collision_renames(icon, known, tabs, occupied) == collision_renames(
            icon,
            known,
            shuffled,
            occupied,
        ),
{
    law_line_ignores_display_order(icon, known, tabs, shuffled);
    let a = tabs.map_values(|t: Tab| tab_key(icon, t));
    let b = shuffled.map_values(|t: Tab| tab_key(icon, t));
    assert forall|k: Seq<char>| #[trigger] a.to_set().contains(k) <==> b.to_set().contains(k) by {
        if a.contains(k) {
            let i = choose|i: int| 0 <= i < a.len() && a[i] == k;
            assert(tabs.contains(tabs[i]));
            assert(shuffled.contains(tabs[i]));
            let j = choose|j: int| 0 <= j < shuffled.len() && shuffled[j] == tabs[i];
            assert(b[j] == k);
        }
        if b.contains(k) {
            let j = choose|j: int| 0 <= j < b.len() && b[j] == k;
            assert(shuffled.contains(shuffled[j]));
            assert(tabs.contains(shuffled[j]));
            let i = choose|i: int| 0 <= i < tabs.len() && tabs[i] == shuffled[j];
            assert(a[i] == k);
        }
    }
    assert(tab_keys(icon, tabs) =~= tab_keys(icon, shuffled));
}

/// A tab's key is that of its name without markers. A tab is settled if it was last seen with that
/// key, and renamed if it was last seen with another; a tab that was not seen is neither.
pub proof fn law_settled_and_renamed(icon: Seq<char>, known: Map<usize, Seq<char>>, tab: Tab)
    ensures
        tab_key(icon, tab) == note_key(clean_name(tab.name, icon)),
        is_settled(icon, known, tab) <==> known.contains_key(tab.id) && known[tab.id] == note_key(
            clean_name(tab.name, icon),
        ),
        is_renamed(icon, known, tab) <==> known.contains_key(tab.id) && known[tab.id] != note_key(
            clean_name(tab.name, icon),
        ),
{
}

/// A tab that comes from another name onto a file gets a new name, whoever the file belongs to.
pub proof fn law_renamed_tab_gives_way_to_a_file(
    icon: Seq<char>,
    known: Map<usize, Seq<char>>,
    tabs: Seq<Tab>,
    occupied: Set<Seq<char>>,
    tab: Tab,
)
    requires
        distinct_ids(tabs),
        is_countable(tabs, occupied),
        tabs.contains(tab),
        is_renamed(icon, known, tab),
        occupied.contains(tab_key(icon, tab)),
    ensures
        new_name(collision_renames(icon, known, tabs, occupied), tab.id) is Some,
{
    let line = line_up(icon, known, tabs);
    lemma_round_choice(icon, known, tabs, occupied);
    let p = lemma_place_in_line(icon, known, tabs, tab);
    assert(line[p] == tab);
}

/// Of the tabs with one key the first in line keeps its name, and the others get new ones: a
/// settled tab comes before one that is not, and otherwise the lower id comes first. Left out is a
/// tab that comes from another name onto a file.
pub proof fn law_first_in_line_keeps_its_name(
    icon: Seq<char>,
    known: Map<usize, Seq<char>>,
    tabs: Seq<Tab>,
    occupied: Set<Seq<char>>,
    first: Tab,
)
    requires
        distinct_ids(tabs),
        is_countable(tabs, occupied),
        tabs.contains(first),
        !(is_renamed(icon, known, first) && occupied.contains(tab_key(icon, first))),
        forall|t: Tab| #[trigger]
            tabs.contains(t) && t != first && tab_key(icon, t) == tab_key(icon, first) ==> (
            is_settled(icon, known, first) && !is_settled(icon, known, t)) || (is_settled(
                icon,
                known,
                first,
            ) == is_settled(icon, known, t) && first.id < t.id),
    ensures
        new_name(collision_renames(icon, known, tabs, occupied), first.id) is None,
        forall|t: Tab| #[trigger]
            tabs.contains(t) && t != first && tab_key(icon, t) == tab_key(icon, first) ==> new_name(
                collision_renames(icon, known, tabs, occupied),
                t.id,
            ) is Some,
{
    let line = line_up(icon, known, tabs);
    let reserved = reserved_keys(icon, known, tabs, occupied);
    lemma_line_up(icon, known, tabs);
    lemma_line_ids(icon, known, tabs);
    lemma_reserved_is_finite(icon, known, tabs, occupied);
    let p = lemma_place_in_line(icon, known, tabs, first);
    let front = line.take(p);
    lemma_front_of_line(icon, known, tabs, occupied, p);
    let b = choose_all(icon, known, occupied, reserved, front);
    let key = tab_key(icon, first);
    if b.used.contains(key) {
        let i = choose|i: int|
            0 <= i < front.len() && chosen_key(icon, b.changes, #[trigger] front[i]) == key;
        let t = front[i];
        assert(line[i] == t && line[p] == first);
        assert(line.contains(line[i]));
        assert(tabs.contains(t));
        assert(!goes_before(icon, known, line[p], line[i]));
        assert(line[i].id != line[p].id);
        assert(reserved.contains(key));
        if let Some(name) = new_name(b.changes, t.id) {
            assert(!reserved.contains(note_key(name)));
        }
    }
    assert(!is_taken(icon, known, occupied, b.used, first));
    assert(line.take(p + 1).drop_last() =~= front);
    assert(line.take(p + 1).last() == first);
    assert forall|i: int| 0 <= i < front.len() implies (#[trigger] front[i]).id != first.id by {
        assert(line[i].id != line[p].id);
    }
    lemma_names_last(icon, known, occupied, reserved, line, p);
    let changes = collision_renames(icon, known, tabs, occupied);
    assert forall|t: Tab| #[trigger]
        tabs.contains(t) && t != first && tab_key(icon, t) == key implies new_name(changes, t.id)
        is Some by {
        law_new_names_are_free(icon, known, tabs, occupied, t, first);
    }
}

/// The keys that the tabs in front of a place in the line choose are sound.
proof fn lemma_front_of_line(
    icon: Seq<char>,
    known: Map<usize, Seq<char>>,
    tabs: Seq<Tab>,
    occupied: Set<Seq<char>>,
    p: int,
)
    requires
        distinct_ids(tabs),
        is_countable(tabs, occupied),
        0 <= p <= tabs.len(),
    ensures
        distinct_ids(line_up(icon, known, tabs).take(p)),
        choice_is_sound(
            icon,
            known,
            occupied,
            reserved_keys(icon, known, tabs, occupied),
            line_up(icon, known, tabs).take(p),
        ),
{
    let line = line_up(icon, known, tabs);
    let reserved = reserved_keys(icon, known, tabs, occupied);
    let front = line.take(p);
    lemma_line_up(icon, known, tabs);
    lemma_line_ids(icon, known, tabs);
    lemma_reserved_is_finite(icon, known, tabs, occupied);
    assert forall|i: int, j: int| 0 <= i < j < front.len() implies (#[trigger] front[i]).id != (
    #[trigger] front[j]).id by {
        assert(line[i].id != line[j].id);
    }
    assert forall|i: int| 0 <= i < front.len() implies reserved.contains(
        tab_key(icon, #[trigger] front[i]),
    ) by {
        assert(line.contains(line[i]));
        assert(tabs.contains(line[i]));
    }
    lemma_choice(icon, known, occupied, reserved, front);
}

/// Only what new names have been given comes to be reserved.
proof fn lemma_reserved_grows(
    icon: Seq<char>,
    known: Map<usize, Seq<char>>,
    occupied: Set<Seq<char>>,
    reserved: Set<Seq<char>>,
    line: Seq<Tab>,
    key: Seq<char>,
)
    requires
        distinct_ids(line),
        choose_all(icon, known, occupied, reserved, line).reserved.contains(key),
    ensures
        reserved.contains(key) || exists|i: int|
            0 <= i < line.len() && (new_name(
                choose_all(icon, known, occupied, reserved, line).changes,
                (#[trigger] line[i]).id,
            ) matches Some(name) && note_key(name) == key),
    decreases line.len(),
{
    if line.len() > 0 {
        let front = line.drop_last();
        let tab = line.last();
        let n = front.len() as int;
        let b = choose_all(icon, known, occupied, reserved, front);
        let c = choose_all(icon, known, occupied, reserved, line);
        assert(line[n] == tab);
        assert forall|i: int, j: int| 0 <= i < j < front.len() implies (#[trigger] front[i]).id != (
        #[trigger] front[j]).id by {
            assert(line[i].id != line[j].id);
        }
        let taken = is_taken(icon, known, occupied, b.used, tab);
        let name = free_name(clean_name(tab.name, icon), b.reserved);
        if taken {
            lemma_new_name_push(b.changes, tab.id, name);
        }
        if taken && key == note_key(name) {
            assert(new_name(c.changes, line[n].id) == Some(name));
        } else {
            lemma_reserved_grows(icon, known, occupied, reserved, front, key);
            if !reserved.contains(key) {
                let i = choose|i: int|
                    0 <= i < front.len() && (new_name(b.changes, (#[trigger] front[i]).id) matches
                        Some(x) && note_key(x) == key);
                assert(line[i] == front[i]);
                assert(line[i].id != line[n].id);
                assert(new_name(c.changes, line[i].id) == new_name(b.changes, front[i].id));
            }
        }
    }
}

/// A new name has the lowest number that is free: the key with any lower one, from two up, belongs
/// to a file, to a tab as last seen, to a tab as it is now, or to the new name of another tab.
pub proof fn law_numbers_are_the_lowest(
    icon: Seq<char>,
    known: Map<usize, Seq<char>>,
    tabs: Seq<Tab>,
    occupied: Set<Seq<char>>,
    a: Tab,
    n: nat,
    m: nat,
)
    requires
        distinct_ids(tabs),
        is_countable(tabs, occupied),
        tabs.contains(a),
        new_name(collision_renames(icon, known, tabs, occupied), a.id) == Some(
            numbered(number_base(clean_name(a.name, icon)), n),
        ),
        2 <= m < n,
    ensures
        ({
            let key = note_key(numbered(number_base(clean_name(a.name, icon)), m));
            ||| occupied.contains(key)
            ||| known.values().contains(key)
            ||| exists|t: Tab| #[trigger] tabs.contains(t) && tab_key(icon, t) == key
            ||| exists|t: Tab| #[trigger]
                tabs.contains(t) && t != a && (new_name(
                    collision_renames(icon, known, tabs, occupied),
                    t.id,
                ) matches Some(name) && note_key(name) == key)
        }),
{
    let line = line_up(icon, known, tabs);
    let reserved = reserved_keys(icon, known, tabs, occupied);
    let changes = collision_renames(icon, known, tabs, occupied);
    let base = number_base(clean_name(a.name, icon));
    let key = note_key(numbered(base, m));
    lemma_line_up(icon, known, tabs);
    lemma_line_ids(icon, known, tabs);
    lemma_reserved_is_finite(icon, known, tabs, occupied);
    let p = lemma_place_in_line(icon, known, tabs, a);
    let front = line.take(p);
    lemma_front_of_line(icon, known, tabs, occupied, p);
    let b = choose_all(icon, known, occupied, reserved, front);
    assert(line.take(p + 1).drop_last() =~= front);
    assert(line.take(p + 1).last() == a);
    lemma_names_last(icon, known, occupied, reserved, line, p);
    assert forall|i: int| 0 <= i < front.len() implies (#[trigger] front[i]).id != a.id by {
        assert(line[i].id != line[p].id);
    }
    assert(new_name(b.changes, a.id) is None);
    assert(is_taken(icon, known, occupied, b.used, a));
    let k = first_free(base, b.reserved);
    lemma_new_name_push(b.changes, a.id, numbered(base, k));
    assert(numbered(base, k) == numbered(base, n));
    lemma_number_base(clean_name(a.name, icon));
    lemma_first_free(base, b.reserved);
    assert(k == n) by {
        let x = numbered(base, k);
        let l = base.len() as int;
        assert(x.subrange(l + 2, x.len() - 1) =~= decimal(k));
        assert(x.subrange(l + 2, x.len() - 1) =~= decimal(n));
        lemma_decimal_injective(k, n);
    }
    assert(b.reserved.contains(note_key(numbered(base, m))));
    lemma_reserved_grows(icon, known, occupied, reserved, front, key);
    if reserved.contains(key) {
        let keys = tabs.map_values(|t: Tab| tab_key(icon, t));
        if tab_keys(icon, tabs).contains(key) {
            let i = choose|i: int| 0 <= i < keys.len() && keys[i] == key;
            assert(tabs.contains(tabs[i]));
        }
    } else {
        let i = choose|i: int|
            0 <= i < front.len() && (new_name(b.changes, (#[trigger] front[i]).id) matches Some(x)
                && note_key(x) == key);
        let t = line[i];
        assert(front[i] == t);
        assert(line.contains(line[i]));
        assert(tabs.contains(t));
        assert(line[i].id != line[p].id);
        lemma_names_last(icon, known, occupied, reserved, line, i);
        lemma_names_last(icon, known, occupied, reserved, front, i);
        assert(front.take(i + 1) =~= line.take(i + 1));
        assert(new_name(changes, t.id) == new_name(b.changes, t.id));
    }
}

} // verus!
