//! What keeping tab names and notes in step means, as functions on plain values.
//!
//! One round goes in two halves. The first gives every tab a note key of its own: a tab whose
//! key is taken gets a numbered name. The second runs only if the first had nothing to do: it
//! lets notes follow their tabs, and puts the icon on exactly the tabs that have a note.
use crate::icon::{clean_name, decorated};
use crate::paths::note_key;
use crate::text::{decimal, fit, trim_end};
use vstd::prelude::*;

verus! {

/// A tab: its stable id and the name it is shown under.
pub struct Tab {
    pub id: usize,
    pub name: Seq<char>,
}

/// One thing to do to bring the session in step.
pub enum Change {
    /// Give the tab another name.
    RenameTab { id: usize, name: Seq<char> },
    /// Move a note file from one key to another, because the tab was renamed.
    MoveNote { id: usize, from: Seq<char>, to: Seq<char> },
}

/// How many bytes of a name are kept in front of a number.
pub const MAX_BASE_BYTES: usize = 180;

/// The note key of a tab.
pub open spec fn tab_key(icon: Seq<char>, tab: Tab) -> Seq<char> {
    note_key(clean_name(tab.name, icon))
}

/// The tab still has the key it was last seen with.
pub open spec fn is_settled(icon: Seq<char>, known: Map<usize, Seq<char>>, tab: Tab) -> bool {
    known.contains_key(tab.id) && known[tab.id] == tab_key(icon, tab)
}

/// The tab was seen before, with another key.
pub open spec fn is_renamed(icon: Seq<char>, known: Map<usize, Seq<char>>, tab: Tab) -> bool {
    known.contains_key(tab.id) && known[tab.id] != tab_key(icon, tab)
}

/// `a` chooses its key before `b` does: settled tabs go first, then the lower id.
pub open spec fn goes_before(
    icon: Seq<char>,
    known: Map<usize, Seq<char>>,
    a: Tab,
    b: Tab,
) -> bool {
    if is_settled(icon, known, a) == is_settled(icon, known, b) {
        a.id < b.id
    } else {
        is_settled(icon, known, a)
    }
}

/// `tab` put behind the last tab that it does not go before.
pub open spec fn line_up_one(
    icon: Seq<char>,
    known: Map<usize, Seq<char>>,
    line: Seq<Tab>,
    tab: Tab,
) -> Seq<Tab>
    decreases line.len(),
{
    if line.len() == 0 || !goes_before(icon, known, tab, line.last()) {
        line.push(tab)
    } else {
        line_up_one(icon, known, line.drop_last(), tab).push(line.last())
    }
}

/// The tabs in the order in which they choose their keys.
pub open spec fn line_up(
    icon: Seq<char>,
    known: Map<usize, Seq<char>>,
    tabs: Seq<Tab>,
) -> Seq<Tab>
    decreases tabs.len(),
{
    if tabs.len() == 0 {
        Seq::empty()
    } else {
        line_up_one(icon, known, line_up(icon, known, tabs.drop_last()), tabs.last())
    }
}

/// The keys of the tabs.
pub open spec fn tab_keys(icon: Seq<char>, tabs: Seq<Tab>) -> Set<Seq<char>> {
    tabs.map_values(|t: Tab| tab_key(icon, t)).to_set()
}

/// The keys that no numbered name may have: those of files, of tabs as last seen, and of tabs
/// as they are now.
pub open spec fn reserved_keys(
    icon: Seq<char>,
    known: Map<usize, Seq<char>>,
    tabs: Seq<Tab>,
    occupied: Set<Seq<char>>,
) -> Set<Seq<char>> {
    occupied.union(known.values()).union(tab_keys(icon, tabs))
}

/// The part of a clean name that is kept in front of a number.
pub open spec fn number_base(clean: Seq<char>) -> Seq<char> {
    trim_end(fit(clean, MAX_BASE_BYTES as nat))
}

/// ` (n)`
pub open spec fn number_suffix(n: nat) -> Seq<char> {
    seq![' ', '('] + decimal(n) + seq![')']
}

/// The base with a number behind it.
pub open spec fn numbered(base: Seq<char>, n: nat) -> Seq<char> {
    base + number_suffix(n)
}

/// `n` is the lowest number from two up that gives a key which is not reserved.
pub open spec fn is_first_free(base: Seq<char>, reserved: Set<Seq<char>>, n: nat) -> bool {
    &&& n >= 2
    &&& !reserved.contains(note_key(numbered(base, n)))
    &&& forall|m: nat| 2 <= m < n ==> reserved.contains(note_key(#[trigger] numbered(base, m)))
}

/// The lowest free number.
pub open spec fn first_free(base: Seq<char>, reserved: Set<Seq<char>>) -> nat {
    choose|n: nat| is_first_free(base, reserved, n)
}

/// The numbered name that a tab gets when its key is taken.
pub open spec fn free_name(clean: Seq<char>, reserved: Set<Seq<char>>) -> Seq<char> {
    numbered(number_base(clean), first_free(number_base(clean), reserved))
}

/// How far the choosing of keys has come.
pub struct Choice {
    /// Keys that no numbered name may have.
    pub reserved: Set<Seq<char>>,
    /// Keys that a tab has chosen.
    pub used: Set<Seq<char>>,
    /// The tabs that need another name.
    pub changes: Seq<Change>,
}

/// The tab cannot have the key of its name: another tab has chosen it, or the tab comes from
/// another name onto a file that is not its own.
pub open spec fn is_taken(
    icon: Seq<char>,
    known: Map<usize, Seq<char>>,
    occupied: Set<Seq<char>>,
    used: Set<Seq<char>>,
    tab: Tab,
) -> bool {
    ||| used.contains(tab_key(icon, tab))
    ||| is_renamed(icon, known, tab) && occupied.contains(tab_key(icon, tab))
}

/// One tab chooses its key.
pub open spec fn choose_one(
    icon: Seq<char>,
    known: Map<usize, Seq<char>>,
    occupied: Set<Seq<char>>,
    c: Choice,
    tab: Tab,
) -> Choice {
    if is_taken(icon, known, occupied, c.used, tab) {
        let name = free_name(clean_name(tab.name, icon), c.reserved);
        Choice {
            reserved: c.reserved.insert(note_key(name)),
            used: c.used.insert(note_key(name)),
            changes: c.changes.push(Change::RenameTab { id: tab.id, name }),
        }
    } else {
        Choice { used: c.used.insert(tab_key(icon, tab)), ..c }
    }
}

/// The tabs of a line choose their keys, one after the other.
pub open spec fn choose_all(
    icon: Seq<char>,
    known: Map<usize, Seq<char>>,
    occupied: Set<Seq<char>>,
    reserved: Set<Seq<char>>,
    line: Seq<Tab>,
) -> Choice
    decreases line.len(),
{
    if line.len() == 0 {
        Choice { reserved, used: Set::empty(), changes: Seq::empty() }
    } else {
        choose_one(
            icon,
            known,
            occupied,
            choose_all(icon, known, occupied, reserved, line.drop_last()),
            line.last(),
        )
    }
}

/// The renames that give every tab a key of its own.
pub open spec fn collision_renames(
    icon: Seq<char>,
    known: Map<usize, Seq<char>>,
    tabs: Seq<Tab>,
    occupied: Set<Seq<char>>,
) -> Seq<Change> {
    choose_all(
        icon,
        known,
        occupied,
        reserved_keys(icon, known, tabs, occupied),
        line_up(icon, known, tabs),
    ).changes
}

/// What a round leaves behind.
pub struct Round {
    /// The key that each tab was last seen with.
    pub known: Map<usize, Seq<char>>,
    /// The keys that have a note.
    pub notes: Set<Seq<char>>,
    /// What is to be done, in order.
    pub changes: Seq<Change>,
}

/// How far the moving of notes has come.
pub struct Moves {
    /// The key that each tab was last seen with.
    pub known: Map<usize, Seq<char>>,
    /// The keys that have a note.
    pub notes: Set<Seq<char>>,
    /// For each tab so far the key that its note leaves, if it leaves one.
    pub left: Seq<Option<Seq<char>>>,
}

/// The tab's note has to follow it to its new key. A tab has a note only if it had one before the
/// round: one that has just come to the key it leaves belongs to another tab.
pub open spec fn note_follows(
    icon: Seq<char>,
    before: Set<Seq<char>>,
    m: Moves,
    tab: Tab,
) -> bool {
    &&& is_renamed(icon, m.known, tab)
    &&& before.contains(m.known[tab.id])
    &&& m.notes.contains(m.known[tab.id])
    &&& !m.notes.contains(tab_key(icon, tab))
}

/// One tab takes its note along.
pub open spec fn move_one(
    icon: Seq<char>,
    before: Set<Seq<char>>,
    m: Moves,
    tab: Tab,
) -> Moves {
    let known = m.known.insert(tab.id, tab_key(icon, tab));
    if note_follows(icon, before, m, tab) {
        let from = m.known[tab.id];
        Moves {
            known,
            notes: m.notes.remove(from).insert(tab_key(icon, tab)),
            left: m.left.push(Some(from)),
        }
    } else {
        Moves { known, notes: m.notes, left: m.left.push(None) }
    }
}

/// The tabs take their notes along, in the order in which they are shown.
pub open spec fn move_all(
    icon: Seq<char>,
    known: Map<usize, Seq<char>>,
    notes: Set<Seq<char>>,
    tabs: Seq<Tab>,
) -> Moves
    decreases tabs.len(),
{
    if tabs.len() == 0 {
        Moves { known, notes, left: Seq::empty() }
    } else {
        move_one(icon, notes, move_all(icon, known, notes, tabs.drop_last()), tabs.last())
    }
}

/// The name that the tab has to be shown under.
pub open spec fn expected_name(icon: Seq<char>, notes: Set<Seq<char>>, tab: Tab) -> Seq<char> {
    decorated(clean_name(tab.name, icon), icon, notes.contains(tab_key(icon, tab)))
}

/// What is to be done about one tab, if its note leaves the key `left` and these are the notes
/// once all have moved.
pub open spec fn changes_for(
    icon: Seq<char>,
    notes: Set<Seq<char>>,
    tab: Tab,
    left: Option<Seq<char>>,
) -> Seq<Change> {
    let moves = match left {
        Some(from) => seq![Change::MoveNote { id: tab.id, from, to: tab_key(icon, tab) }],
        None => Seq::empty(),
    };
    let name = expected_name(icon, notes, tab);
    if name != tab.name {
        moves.push(Change::RenameTab { id: tab.id, name })
    } else {
        moves
    }
}

/// What is to be done about the tabs, in the order in which they are shown.
pub open spec fn all_changes(
    icon: Seq<char>,
    notes: Set<Seq<char>>,
    tabs: Seq<Tab>,
    left: Seq<Option<Seq<char>>>,
) -> Seq<Change>
    decreases tabs.len(),
{
    if tabs.len() == 0 {
        Seq::empty()
    } else {
        all_changes(icon, notes, tabs.drop_last(), left.drop_last()) + changes_for(
            icon,
            notes,
            tabs.last(),
            left.last(),
        )
    }
}

/// The ids of the tabs.
pub open spec fn tab_ids(tabs: Seq<Tab>) -> Set<usize> {
    tabs.map_values(|t: Tab| t.id).to_set()
}

/// One whole round.
pub open spec fn round(
    icon: Seq<char>,
    known: Map<usize, Seq<char>>,
    tabs: Seq<Tab>,
    notes: Set<Seq<char>>,
    occupied: Set<Seq<char>>,
) -> Round {
    let renames = collision_renames(icon, known, tabs, occupied);
    if renames.len() > 0 {
        Round { known, notes, changes: renames }
    } else {
        let m = move_all(icon, known, notes, tabs);
        Round {
            known: m.known.restrict(tab_ids(tabs)),
            notes: m.notes,
            changes: all_changes(icon, m.notes, tabs, m.left),
        }
    }
}

} // verus!
