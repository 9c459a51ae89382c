//! Keeps tab names in step with the set of tabs that have notes.
use crate::icon::{decorate, strip_icon};
use crate::note_set::NoteSet;
use crate::numbering::{lemma_first_free_is, lemma_number_base, lemma_taken_numbers};
use crate::paths::{note_key, sanitize_tab_name};
use crate::plan::{
    all_changes, changes_for, choose_all, choose_one, collision_renames, free_name, goes_before,
    is_first_free, is_renamed, is_settled, line_up, line_up_one, move_all, move_one, number_base,
    numbered, reserved_keys, round, tab_ids, tab_key, Change, Choice, Moves, Round, Tab,
    MAX_BASE_BYTES,
};
use crate::text::{
    chars_of, copy_of, decimal_text, fit_len, joined, optional, same_text, text_between,
    trimmed_len,
};
use std::collections::BTreeMap;
use vstd::prelude::*;

verus! {

broadcast use vstd::std_specs::btree::group_btree_axioms;

/// A tab as the session shows it.
#[derive(Debug, Clone, PartialEq, Eq)]
pub struct TabView {
    pub id: usize,
    pub name: String,
}

impl View for TabView {
    type V = Tab;

    open spec fn view(&self) -> Tab {
        Tab { id: self.id, name: self.name@ }
    }
}

/// One thing to do to bring the session in step.
#[derive(Debug, Clone, PartialEq, Eq)]
pub enum Action {
    /// Rename the tab with this `id` so its name matches whether it has a note.
    ///
    /// The id, not the position: a position is taken as 1-based user input, so a 0-based one
    /// would rename the tab before the intended one, and never converge.
    RenameTab { id: usize, name: String },
    /// Move a note file because its tab was renamed. Both values are **note keys**, not display
    /// names, so they must be turned into paths with `note_path_from_key`.
    MoveNote { id: usize, from: String, to: String },
}

impl View for Action {
    type V = Change;

    open spec fn view(&self) -> Change {
        match self {
            Action::RenameTab { id, name } => Change::RenameTab { id: *id, name: name@ },
            Action::MoveNote { id, from, to } => Change::MoveNote {
                id: *id,
                from: from@,
                to: to@,
            },
        }
    }
}

/// The tabs, as plain values.
pub open spec fn tabs_of(tabs: Seq<TabView>) -> Seq<Tab> {
    tabs.map_values(|t: TabView| t@)
}

/// The actions, as plain values.
pub open spec fn changes_of(actions: Seq<Action>) -> Seq<Change> {
    actions.map_values(|a: Action| a@)
}

/// The tabs at the given positions.
pub open spec fn picked(tabs: Seq<Tab>, positions: Seq<usize>) -> Seq<Tab> {
    positions.map_values(|i: usize| tabs[i as int])
}

/// The keys behind the ids, as plain values.
pub open spec fn keys_of(known: Map<usize, String>) -> Map<usize, Seq<char>> {
    known.map_values(|k: String| k@)
}

/// The keys that notes leave, as plain values.
pub open spec fn keys_left(left: Seq<Option<String>>) -> Seq<Option<Seq<char>>> {
    left.map_values(|k: Option<String>| optional(k))
}

/// Listing the values id by id lists exactly the values.
proof fn lemma_listed_values(known: Map<usize, String>, ids: Seq<usize>, listed: Seq<Seq<char>>)
    requires
        ids.to_set() == known.dom(),
        listed.len() == ids.len(),
        forall|i: int| 0 <= i < ids.len() ==> #[trigger] listed[i] == known[ids[i]]@,
    ensures
        listed.to_set() == keys_of(known).values(),
{
    let keys = keys_of(known);
    assert forall|k: Seq<char>| listed.to_set().contains(k) <==> #[trigger]
        keys.values().contains(k) by {
        if listed.contains(k) {
            let i = choose|i: int| 0 <= i < listed.len() && listed[i] == k;
            assert(ids.to_set().contains(ids[i]));
            assert(keys.contains_key(ids[i]) && keys[ids[i]] == k);
        }
        if keys.values().contains(k) {
            let id = choose|id: usize| keys.contains_key(id) && keys[id] == k;
            assert(ids.to_set().contains(id));
            let i = choose|i: int| 0 <= i < ids.len() && ids[i] == id;
            assert(listed[i] == k);
        }
    }
    assert(listed.to_set() =~= keys.values());
}

/// Keeps tab names in step with the set of tabs that have notes.
///
/// Two namespaces meet here and must not be confused:
///
/// - the **display name** is the user's tab name with the icon stripped, and is what goes back
///   to the session in `Action::RenameTab`;
/// - the **note key** is `sanitize_tab_name` of the display name, and is what the sets of notes
///   hold, because those are read from file names.
///
/// `reconcile` is idempotent: feeding it a settled state produces no actions, which is what
/// stops a rename from re-triggering itself.
pub struct Reconciler {
    icon: String,
    /// tab id -> last seen note key. The id is stable when tabs are moved and when other tabs
    /// are closed, which is what makes rename detection trustworthy.
    known: BTreeMap<usize, String>,
}

/// Finds the lowest number that gives the name a free key, and reserves that key.
fn take_free_name(clean: &str, reserved: &mut NoteSet) -> (name: String)
    ensures
        name@ == free_name(clean@, old(reserved)@),
        final(reserved)@ == old(reserved)@.insert(note_key(name@)),
{
    let v = chars_of(clean);
    // Leave room for the number, with long names too.
    let cut: usize = fit_len(&v, MAX_BASE_BYTES);
    let end: usize = trimmed_len(&v, cut);
    let base = text_between(&v, 0, end);
    proof {
        assert(v@.subrange(0, end as int) =~= v@.take(end as int));
        lemma_number_base(clean@);
    }
    let count: usize = reserved.len();
    let ghost taken = reserved@;
    let mut n: u128 = 2;
    loop
        invariant
            base@ == number_base(clean@),
            crate::text::byte_len(base@) <= MAX_BASE_BYTES,
            reserved@ == taken,
            taken == old(reserved)@,
            taken.finite(),
            taken.len() == count,
            2 <= n <= count + 2,
            forall|m: nat|
                2 <= m < n ==> taken.contains(note_key(#[trigger] numbered(base@, m))),
        decreases count + 2 - n,
    {
        let name = numbered_name(base.as_str(), n);
        let key = sanitize_tab_name(name.as_str());
        if reserved.insert(key.as_str()) {
            proof {
                assert(is_first_free(base@, taken, n as nat));
                lemma_first_free_is(base@, taken, n as nat);
            }
            return name;
        }
        proof {
            assert(taken.insert(key@) =~= taken);
            lemma_taken_numbers(base@, taken, (n + 1) as nat);
        }
        n += 1;
    }
}

/// The base with a number behind it.
fn numbered_name(base: &str, n: u128) -> (name: String)
    ensures
        name@ == numbered(base@, n as nat),
{
    let mut name = copy_of(base);
    name.push(' ');
    name.push('(');
    let mut name = joined(name.as_str(), decimal_text(n).as_str());
    name.push(')');
    assert(name@ =~= numbered(base@, n as nat));
    name
}

impl Reconciler {
    /// The icon that marks tabs with a note.
    pub closed spec fn icon(&self) -> Seq<char> {
        self.icon@
    }

    /// The key that each tab was last seen with.
    pub closed spec fn known(&self) -> Map<usize, Seq<char>> {
        keys_of(self.known@)
    }

    /// A reconciler that has seen no tab yet.
    pub fn new(icon: &str) -> (r: Reconciler)
        ensures
            r.icon() == icon@,
            r.known() == Map::<usize, Seq<char>>::empty(),
    {
        let r = Reconciler { icon: copy_of(icon), known: BTreeMap::new() };
        assert(r.known() =~= Map::<usize, Seq<char>>::empty());
        r
    }

    /// A failed move must keep its original owner for the retry.
    pub fn restore_note_key(&mut self, id: usize, key: String)
        ensures
            final(self).icon() == old(self).icon(),
            final(self).known() == old(self).known().insert(id, key@),
    {
        let _ = self.known.insert(id, key);
        assert(self.known() =~= old(self).known().insert(id, key@));
    }

    /// The note key of the tab.
    fn key_of(&self, tab: &TabView) -> (key: String)
        ensures
            key@ == tab_key(self.icon(), tab@),
    {
        sanitize_tab_name(strip_icon(tab.name.as_str(), self.icon.as_str()))
    }

    /// The key that the tab was last seen with.
    fn last_key(&self, id: usize) -> (key: Option<&String>)
        ensures
            match key {
                Some(k) => self.known().contains_key(id) && self.known()[id] == k@,
                None => !self.known().contains_key(id),
            },
    {
        self.known.get(&id)
    }

    /// Whether the tab still has the key it was last seen with.
    fn settled(&self, tab: &TabView) -> (r: bool)
        ensures
            r == is_settled(self.icon(), self.known(), tab@),
    {
        let key = self.key_of(tab);
        match self.last_key(tab.id) {
            Some(old_key) => same_text(old_key.as_str(), key.as_str()),
            None => false,
        }
    }

    /// Whether the tab was last seen with another key.
    fn renamed(&self, tab: &TabView) -> (r: bool)
        ensures
            r == is_renamed(self.icon(), self.known(), tab@),
    {
        let key = self.key_of(tab);
        match self.last_key(tab.id) {
            Some(old_key) => !same_text(old_key.as_str(), key.as_str()),
            None => false,
        }
    }

    /// Whether `a` chooses its key before `b` does.
    fn before(&self, a: &TabView, b: &TabView) -> (r: bool)
        ensures
            r == goes_before(self.icon(), self.known(), a@, b@),
    {
        let settled_a: bool = self.settled(a);
        let settled_b: bool = self.settled(b);
        if settled_a == settled_b {
            a.id < b.id
        } else {
            settled_a
        }
    }

    /// The tabs in the order in which they choose their keys, as positions in `tabs`.
    fn lined_up(&self, tabs: &[TabView]) -> (line: Vec<usize>)
        ensures
            forall|i: int| 0 <= i < line@.len() ==> #[trigger] line@[i] < tabs@.len(),
            picked(tabs_of(tabs@), line@) == line_up(self.icon(), self.known(), tabs_of(tabs@)),
    {
        let ghost all = tabs_of(tabs@);
        let ghost icon = self.icon();
        let ghost known = self.known();
        let mut line: Vec<usize> = Vec::new();
        let mut i: usize = 0;
        assert(picked(all, line@) =~= line_up(icon, known, all.take(0)));
        while i < tabs.len()
            invariant
                i <= tabs@.len(),
                all == tabs_of(tabs@),
                icon == self.icon(),
                known == self.known(),
                forall|j: int| 0 <= j < line@.len() ==> #[trigger] line@[j] < tabs@.len(),
                picked(all, line@) == line_up(icon, known, all.take(i as int)),
            decreases tabs@.len() - i,
        {
            let ghost so_far = picked(all, line@);
            let ghost tab = all[i as int];
            let mut p: usize = line.len();
            assert(so_far.take(p as int) =~= so_far);
            assert(so_far.skip(p as int) =~= Seq::<Tab>::empty());
            assert(line_up_one(icon, known, so_far, tab) =~= line_up_one(
                icon,
                known,
                so_far.take(p as int),
                tab,
            ) + so_far.skip(p as int));
            while p > 0 && self.before(&tabs[i], &tabs[line[p - 1]])
                invariant
                    i < tabs@.len(),
                    p <= line@.len(),
                    all == tabs_of(tabs@),
                    icon == self.icon(),
                    known == self.known(),
                    so_far == picked(all, line@),
                    tab == all[i as int],
                    forall|j: int| 0 <= j < line@.len() ==> #[trigger] line@[j] < tabs@.len(),
                    line_up_one(icon, known, so_far, tab) == line_up_one(
                        icon,
                        known,
                        so_far.take(p as int),
                        tab,
                    ) + so_far.skip(p as int),
                ensures
                    p > 0 ==> !goes_before(icon, known, tab, so_far[p - 1]),
                decreases p,
            {
                proof {
                    let front = so_far.take(p as int);
                    assert(front.last() == so_far[p - 1]);
                    assert(front.drop_last() =~= so_far.take(p - 1));
                    let shorter = line_up_one(icon, known, so_far.take(p - 1), tab);
                    assert(shorter.push(so_far[p - 1]) + so_far.skip(p as int) =~= shorter
                        + so_far.skip(p - 1));
                }
                p -= 1;
            }
            proof {
                let front = so_far.take(p as int);
                assert(p > 0 ==> front.last() == so_far[p - 1]);
                assert(line_up_one(icon, known, front, tab) =~= front.push(tab));
                assert(all.take(i + 1).drop_last() =~= all.take(i as int));
                assert(all.take(i + 1).last() == tab);
            }
            let ghost before = line@;
            line.insert(p, i);
            assert(picked(all, line@) =~= so_far.take(p as int).push(tab) + so_far.skip(
                p as int,
            ));
            i += 1;
        }
        assert(all.take(i as int) =~= all);
        line
    }

    /// The keys that no numbered name may have.
    fn reserved(&self, tabs: &[TabView], occupied: &NoteSet) -> (reserved: NoteSet)
        ensures
            reserved@ == reserved_keys(
                self.icon(),
                self.known(),
                tabs_of(tabs@),
                occupied@,
            ),
    {
        let mut reserved = occupied.copy();
        let values = self.known.values();
        let ghost listed = vstd::std_specs::iter::IteratorSpec::remaining(&values).map_values(
            |k: &String| k@,
        );
        proof {
            let ids = choose|ids: Seq<usize>|
                {
                    &&& vstd::std_specs::btree::increasing_seq(ids)
                    &&& ids.to_set() == self.known@.dom()
                    &&& ids.no_duplicates()
                    &&& vstd::std_specs::iter::IteratorSpec::remaining(&values) == ids.map(
                        |i: int, id: usize| &self.known@[id],
                    )
                };
            lemma_listed_values(self.known@, ids, listed);
        }
        assert(listed.take(0).to_set() =~= Set::<Seq<char>>::empty());
        assert(reserved@ =~= occupied@.union(listed.take(0).to_set()));
        for key in it: values
            invariant
                listed == it.seq().map_values(|k: &String| k@),
                reserved@ == occupied@.union(listed.take(it.index()).to_set()),
        {
            let _ = reserved.insert(key.as_str());
            proof {
                let n = it.index();
                assert(listed.take(n + 1) =~= listed.take(n).push(key@));
                listed.take(n).lemma_push_to_set_commute(key@);
                assert(reserved@ =~= occupied@.union(listed.take(n + 1).to_set()));
            }
        }
        proof {
            assert(listed.take(listed.len() as int) =~= listed);
        }
        let ghost keys = tabs_of(tabs@).map_values(|t: Tab| tab_key(self.icon(), t));
        let ghost start = reserved@;
        let mut i: usize = 0;
        assert(keys.take(0).to_set() =~= Set::<Seq<char>>::empty());
        assert(reserved@ =~= start.union(keys.take(0).to_set()));
        while i < tabs.len()
            invariant
                i <= tabs@.len(),
                keys == tabs_of(tabs@).map_values(|t: Tab| tab_key(self.icon(), t)),
                reserved@ == start.union(keys.take(i as int).to_set()),
            decreases tabs@.len() - i,
        {
            let key = self.key_of(&tabs[i]);
            let _ = reserved.insert(key.as_str());
            proof {
                assert(keys.take(i + 1) =~= keys.take(i as int).push(key@));
                keys.take(i as int).lemma_push_to_set_commute(key@);
                assert(reserved@ =~= start.union(keys.take(i + 1).to_set()));
            }
            i += 1;
        }
        assert(keys.take(i as int) =~= keys);
        reserved
    }

    /// The renames that give every tab a key of its own.
    fn collisions(&self, tabs: &[TabView], occupied: &NoteSet) -> (actions: Vec<Action>)
        ensures
            changes_of(actions@) == collision_renames(
                self.icon(),
                self.known(),
                tabs_of(tabs@),
                occupied@,
            ),
    {
        let line = self.lined_up(tabs);
        let mut reserved = self.reserved(tabs, occupied);
        let mut used = NoteSet::new();
        let mut actions: Vec<Action> = Vec::new();
        let ghost icon = self.icon();
        let ghost known = self.known();
        let ghost all = tabs_of(tabs@);
        let ghost order = picked(all, line@);
        let ghost first = reserved@;
        let mut i: usize = 0;
        assert(order.take(0) =~= Seq::<Tab>::empty());
        assert(changes_of(actions@) =~= Seq::<Change>::empty());
        while i < line.len()
            invariant
                i <= line@.len(),
                icon == self.icon(),
                known == self.known(),
                all == tabs_of(tabs@),
                order == picked(all, line@),
                forall|j: int| 0 <= j < line@.len() ==> #[trigger] line@[j] < tabs@.len(),
                (Choice { reserved: reserved@, used: used@, changes: changes_of(actions@) })
                    == choose_all(icon, known, occupied@, first, order.take(i as int)),
            decreases line@.len() - i,
        {
            let ghost before = Choice {
                reserved: reserved@,
                used: used@,
                changes: changes_of(actions@),
            };
            let tab = &tabs[line[i]];
            let clean = strip_icon(tab.name.as_str(), self.icon.as_str());
            let key = sanitize_tab_name(clean);
            if used.contains(key.as_str()) || (self.renamed(tab) && occupied.contains(
                key.as_str(),
            )) {
                let name = take_free_name(clean, &mut reserved);
                let new_key = sanitize_tab_name(name.as_str());
                let _ = used.insert(new_key.as_str());
                let ghost earlier = actions@;
                actions.push(Action::RenameTab { id: tab.id, name });
                assert(changes_of(actions@) =~= changes_of(earlier).push(
                    Change::RenameTab { id: tab.id, name: name@ },
                ));
            } else {
                let _ = used.insert(key.as_str());
            }
            proof {
                assert(order.take(i + 1).drop_last() =~= order.take(i as int));
                assert(order.take(i + 1).last() == tab@);
                assert((Choice { reserved: reserved@, used: used@, changes: changes_of(actions@) })
                    == choose_one(icon, known, occupied@, before, tab@));
            }
            i += 1;
        }
        assert(order.take(i as int) =~= order);
        actions
    }

    /// Takes the tab's note along, and notes down the key that it leaves.
    fn take_along(
        &mut self,
        tab: &TabView,
        before: &NoteSet,
        notes: &mut NoteSet,
        left: &mut Vec<Option<String>>,
    )
        ensures
            final(self).icon() == old(self).icon(),
            (Moves {
                known: final(self).known(),
                notes: final(notes)@,
                left: keys_left(final(left)@),
            }) == move_one(
                old(self).icon(),
                before@,
                Moves {
                    known: old(self).known(),
                    notes: old(notes)@,
                    left: keys_left(old(left)@),
                },
                tab@,
            ),
    {
        let key = self.key_of(tab);
        let mut from: Option<String> = None;
        if let Some(previous) = self.last_key(tab.id) {
            if !same_text(previous.as_str(), key.as_str()) && before.contains(previous.as_str())
                && notes.contains(previous.as_str()) && !notes.contains(key.as_str()) {
                let _ = notes.remove(previous.as_str());
                let _ = notes.insert(key.as_str());
                from = Some(copy_of(previous.as_str()));
            }
        }
        let ghost so_far = keys_left(left@);
        left.push(from);
        assert(keys_left(left@) =~= so_far.push(optional(from)));
        self.restore_note_key(tab.id, key);
    }

    /// Says what is to be done about one tab, now that all notes have moved.
    fn change_tab(
        &self,
        tab: &TabView,
        notes: &NoteSet,
        left: &Option<String>,
        actions: &mut Vec<Action>,
    )
        ensures
            changes_of(final(actions)@) == changes_of(old(actions)@) + changes_for(
                self.icon(),
                notes@,
                tab@,
                optional(*left),
            ),
    {
        let ghost start = changes_of(actions@);
        let ghost mut moved = Seq::<Change>::empty();
        let clean = strip_icon(tab.name.as_str(), self.icon.as_str());
        let key = sanitize_tab_name(clean);
        let expected = decorate(clean, self.icon.as_str(), notes.contains(key.as_str()));
        assert(changes_of(actions@) =~= start + moved);
        if let Some(from) = left {
            actions.push(Action::MoveNote { id: tab.id, from: copy_of(from.as_str()), to: key });
            proof {
                moved = seq![Change::MoveNote { id: tab.id, from: from@, to: key@ }];
            }
            assert(changes_of(actions@) =~= start + moved);
        }
        if !same_text(expected.as_str(), tab.name.as_str()) {
            let ghost so_far = actions@;
            actions.push(Action::RenameTab { id: tab.id, name: expected });
            assert(changes_of(actions@) =~= changes_of(so_far).push(
                Change::RenameTab { id: tab.id, name: expected@ },
            ));
        }
        assert(changes_of(actions@) =~= start + changes_for(
            self.icon(),
            notes@,
            tab@,
            optional(*left),
        ));
    }

    /// Forgets the tabs that are not there any more.
    fn forget_closed(&mut self, tabs: &[TabView])
        ensures
            final(self).icon() == old(self).icon(),
            final(self).known() == old(self).known().restrict(tab_ids(tabs_of(tabs@))),
    {
        let ghost all = tabs_of(tabs@);
        let ghost ids = all.map_values(|t: Tab| t.id);
        let mut kept: BTreeMap<usize, String> = BTreeMap::new();
        let mut i: usize = 0;
        assert(keys_of(kept@) =~= self.known().restrict(ids.take(0).to_set()));
        while i < tabs.len()
            invariant
                i <= tabs@.len(),
                all == tabs_of(tabs@),
                ids == all.map_values(|t: Tab| t.id),
                keys_of(kept@) == self.known().restrict(ids.take(i as int).to_set()),
            decreases tabs@.len() - i,
        {
            let id: usize = tabs[i].id;
            let ghost so_far = kept@;
            if let Some(key) = self.last_key(id) {
                let _ = kept.insert(id, copy_of(key.as_str()));
                assert(keys_of(kept@) =~= keys_of(so_far).insert(id, key@));
            }
            proof {
                assert(ids.take(i + 1) =~= ids.take(i as int).push(id));
                ids.take(i as int).lemma_push_to_set_commute(id);
                assert(keys_of(kept@) =~= self.known().restrict(ids.take(i + 1).to_set()));
            }
            i += 1;
        }
        assert(ids.take(i as int) =~= ids);
        self.known = kept;
    }

    /// One round in which the files are exactly the notes.
    pub fn reconcile(&mut self, tabs: &[TabView], notes: &mut NoteSet) -> (actions: Vec<Action>)
        ensures
            final(self).icon() == old(self).icon(),
            (Round {
                known: final(self).known(),
                notes: final(notes)@,
                changes: changes_of(actions@),
            }) == round(
                old(self).icon(),
                old(self).known(),
                tabs_of(tabs@),
                old(notes)@,
                old(notes)@,
            ),
    {
        let occupied = notes.copy();
        self.reconcile_with_occupied(tabs, notes, &occupied)
    }

    /// One round. `occupied` holds the keys of all files, `notes` those that count as notes.
    pub fn reconcile_with_occupied(
        &mut self,
        tabs: &[TabView],
        notes: &mut NoteSet,
        occupied: &NoteSet,
    ) -> (actions: Vec<Action>)
        ensures
            final(self).icon() == old(self).icon(),
            (Round {
                known: final(self).known(),
                notes: final(notes)@,
                changes: changes_of(actions@),
            }) == round(
                old(self).icon(),
                old(self).known(),
                tabs_of(tabs@),
                old(notes)@,
                occupied@,
            ),
    {
        // Ownership is settled before anything moves. Established owners win over incoming
        // renames; stable ids break ties independently of display order.
        let renames = self.collisions(tabs, occupied);
        if renames.len() > 0 {
            return renames;
        }
        let ghost icon = self.icon();
        let ghost known = self.known();
        let ghost all = tabs_of(tabs@);
        // A note that has just come to a key is not taken for one that was there: which notes
        // move is decided on the notes as they stood before the round.
        let before = notes.copy();
        let mut left: Vec<Option<String>> = Vec::new();
        let mut i: usize = 0;
        assert(all.take(0) =~= Seq::<Tab>::empty());
        assert(keys_left(left@) =~= Seq::<Option<Seq<char>>>::empty());
        while i < tabs.len()
            invariant
                i <= tabs@.len(),
                i == keys_left(left@).len(),
                all == tabs_of(tabs@),
                self.icon() == icon,
                (Moves { known: self.known(), notes: notes@, left: keys_left(left@) })
                    == move_all(icon, known, before@, all.take(i as int)),
            decreases tabs@.len() - i,
        {
            self.take_along(&tabs[i], &before, notes, &mut left);
            proof {
                assert(all.take(i + 1).drop_last() =~= all.take(i as int));
                assert(all.take(i + 1).last() == tabs@[i as int]@);
            }
            i += 1;
        }
        assert(all.take(i as int) =~= all);
        // The icons go by where the notes are in the end.
        let ghost keys = keys_left(left@);
        let mut actions: Vec<Action> = Vec::new();
        let mut j: usize = 0;
        assert(changes_of(actions@) =~= Seq::<Change>::empty());
        while j < tabs.len()
            invariant
                j <= tabs@.len(),
                tabs@.len() == left@.len(),
                all == tabs_of(tabs@),
                keys == keys_left(left@),
                self.icon() == icon,
                changes_of(actions@) == all_changes(
                    icon,
                    notes@,
                    all.take(j as int),
                    keys.take(j as int),
                ),
            decreases tabs@.len() - j,
        {
            self.change_tab(&tabs[j], notes, &left[j], &mut actions);
            proof {
                assert(all.take(j + 1).drop_last() =~= all.take(j as int));
                assert(all.take(j + 1).last() == tabs@[j as int]@);
                assert(keys.take(j + 1).drop_last() =~= keys.take(j as int));
                assert(keys.take(j + 1).last() == optional(left@[j as int]));
            }
            j += 1;
        }
        assert(all.take(j as int) =~= all);
        assert(keys.take(j as int) =~= keys);
        self.forget_closed(tabs);
        actions
    }
}

} // verus!
