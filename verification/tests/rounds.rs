use tab_notes::note_set::NoteSet;
use tab_notes::reconcile::{Action, Reconciler, TabView};

const ICON: &str = "📝";

fn tab(id: usize, name: &str) -> TabView {
    TabView { id, name: name.to_string() }
}

fn keys(names: &[&str]) -> NoteSet {
    let mut set = NoteSet::new();
    for name in names {
        set.insert(name);
    }
    set
}

fn rename(id: usize, name: &str) -> Action {
    Action::RenameTab { id, name: name.to_string() }
}

fn moved(id: usize, from: &str, to: &str) -> Action {
    Action::MoveNote { id, from: from.to_string(), to: to.to_string() }
}

/// The tabs as they are shown once the renames have been made.
fn shown(tabs: &[TabView], actions: &[Action]) -> Vec<TabView> {
    tabs.iter()
        .map(|t| {
            let name = actions.iter().rev().find_map(|a| match a {
                Action::RenameTab { id, name } if *id == t.id => Some(name.clone()),
                _ => None,
            });
            TabView { id: t.id, name: name.unwrap_or(t.name.clone()) }
        })
        .collect()
}

#[test]
fn tabs_with_keys_of_their_own_keep_their_names() {
    let mut r = Reconciler::new(ICON);
    let mut n = keys(&[]);
    let tabs = [tab(1, "a"), tab(2, "b"), tab(3, "c/d")];
    assert_eq!(r.reconcile_with_occupied(&tabs, &mut n, &keys(&["x"])), vec![]);
}

#[test]
fn new_names_avoid_files_tabs_and_last_seen_keys() {
    let mut r = Reconciler::new(ICON);
    let mut n = keys(&[]);
    r.restore_note_key(9, "a (3)".to_string());
    let tabs = [tab(1, "a"), tab(2, "a"), tab(3, "a (4)")];
    let actions = r.reconcile_with_occupied(&tabs, &mut n, &keys(&["a (2)"]));
    assert_eq!(actions, vec![rename(2, "a (5)")]);
}

#[test]
fn collisions_are_gone_once_the_new_names_are_shown() {
    let mut r = Reconciler::new(ICON);
    let mut n = keys(&[]);
    let tabs = vec![tab(3, "a"), tab(1, "a"), tab(2, "a")];
    let actions = r.reconcile(&tabs, &mut n);
    assert_eq!(actions, vec![rename(2, "a (2)"), rename(3, "a (3)")]);
    assert_eq!(r.reconcile(&shown(&tabs, &actions), &mut n), vec![]);
}

#[test]
fn a_name_that_is_the_icon_may_take_one_round_more() {
    let mut r = Reconciler::new(ICON);
    let mut n = keys(&[]);
    let tabs = vec![tab(1, ICON), tab(2, ICON), tab(3, "(2)")];
    let first = r.reconcile(&tabs, &mut n);
    assert_eq!(first, vec![rename(2, "📝 (2)")]);
    // With a number behind it the icon counts as a marker, and the rest is the name of tab 3.
    let second = r.reconcile(&shown(&tabs, &first), &mut n);
    assert_eq!(second, vec![rename(3, "(2) (2)")]);
}

#[test]
fn established_owner_keeps_its_name() {
    let mut r = Reconciler::new(ICON);
    let mut n = keys(&[]);
    r.reconcile(&[tab(1, "b"), tab(2, "a")], &mut n);
    assert_eq!(
        r.reconcile(&[tab(1, "a"), tab(2, "a"), tab(3, "a")], &mut n),
        vec![rename(1, "a (2)"), rename(3, "a (3)")]
    );
}

#[test]
fn collisions_do_not_depend_on_the_order_of_the_tabs() {
    let orders: [[usize; 3]; 3] = [[1, 2, 3], [3, 1, 2], [2, 3, 1]];
    for order in orders {
        let mut r = Reconciler::new(ICON);
        let mut n = keys(&[]);
        let tabs: Vec<TabView> = order.iter().map(|id| tab(*id, "a")).collect();
        assert_eq!(r.reconcile(&tabs, &mut n), vec![rename(2, "a (2)"), rename(3, "a (3)")]);
    }
}

#[test]
fn one_round_settles_a_rename() {
    let mut r = Reconciler::new(ICON);
    let mut n = keys(&["old", "b"]);
    r.reconcile(&[tab(1, "📝 old"), tab(2, "📝 b")], &mut n);
    let tabs = vec![tab(1, "new"), tab(2, "b")];
    let actions = r.reconcile(&tabs, &mut n);
    assert_eq!(
        actions,
        vec![moved(1, "old", "new"), rename(1, "📝 new"), rename(2, "📝 b")]
    );
    assert_eq!(r.reconcile(&shown(&tabs, &actions), &mut n), vec![]);
    assert_eq!(n, keys(&["new", "b"]));
}

#[test]
fn the_icons_go_by_where_the_notes_are_in_the_end() {
    let mut r = Reconciler::new(ICON);
    let mut n = keys(&["a"]);
    r.reconcile(&[tab(2, "📝 a")], &mut n);
    // A new tab "a" is shown in front of tab 2, which takes the note from there to "b".
    let tabs = vec![tab(1, "a"), tab(2, "b")];
    let actions = r.reconcile(&tabs, &mut n);
    assert_eq!(actions, vec![moved(2, "a", "b"), rename(2, "📝 b")]);
    assert_eq!(n, keys(&["b"]));
    assert_eq!(r.reconcile(&shown(&tabs, &actions), &mut n), vec![]);
}

#[test]
fn the_icons_do_not_depend_on_which_tab_is_shown_first() {
    let mut r = Reconciler::new(ICON);
    let mut n = keys(&["a"]);
    r.reconcile(&[tab(1, "x"), tab(2, "📝 a")], &mut n);
    // The files are as yet unknown to the round, so tab 1 may come to "a" at once.
    let tabs = vec![tab(1, "a"), tab(2, "b")];
    let actions = r.reconcile_with_occupied(&tabs, &mut n, &keys(&[]));
    assert_eq!(actions, vec![moved(2, "a", "b"), rename(2, "📝 b")]);
    assert_eq!(r.reconcile(&shown(&tabs, &actions), &mut n), vec![]);
}

#[test]
fn a_round_keeps_the_number_of_notes() {
    let mut r = Reconciler::new(ICON);
    let mut n = keys(&["a", "b", "orphan"]);
    r.reconcile(&[tab(1, "a"), tab(2, "b")], &mut n);
    r.reconcile(&[tab(1, "c"), tab(2, "d")], &mut n);
    assert_eq!(n.len(), 3);
    assert_eq!(n, keys(&["c", "d", "orphan"]));
}

#[test]
fn a_move_never_lands_on_a_file() {
    let mut r = Reconciler::new(ICON);
    let mut n = keys(&["a"]);
    r.reconcile(&[tab(1, "📝 a")], &mut n);
    // "b" is the name of an empty file, which is no note.
    let actions = r.reconcile_with_occupied(&[tab(1, "b")], &mut n, &keys(&["a", "b"]));
    assert_eq!(actions, vec![rename(1, "b (2)")]);
    let actions = r.reconcile_with_occupied(&[tab(1, "b (2)")], &mut n, &keys(&["a", "b"]));
    assert_eq!(actions, vec![moved(1, "a", "b (2)"), rename(1, "📝 b (2)")]);
}

#[test]
fn a_note_stays_with_its_tab_when_two_tabs_are_renamed_at_once() {
    let mut r = Reconciler::new(ICON);
    let mut n = keys(&["a"]);
    r.reconcile(&[tab(1, "a"), tab(2, "b")], &mut n);
    let actions = r.reconcile(&[tab(1, "b"), tab(2, "c")], &mut n);
    assert_eq!(actions, vec![moved(1, "a", "b"), rename(1, "📝 b")]);
    assert_eq!(n, keys(&["b"]));
    assert_eq!(r.reconcile(&[tab(1, "📝 b"), tab(2, "c")], &mut n), vec![]);
}

#[test]
fn of_two_tabs_last_seen_with_one_key_the_first_takes_the_note() {
    let mut r = Reconciler::new(ICON);
    let mut n = keys(&["a"]);
    r.restore_note_key(1, "a".to_string());
    r.restore_note_key(2, "a".to_string());
    let actions = r.reconcile(&[tab(2, "c"), tab(1, "b")], &mut n);
    assert_eq!(actions, vec![moved(2, "a", "c"), rename(2, "📝 c")]);
    assert_eq!(n, keys(&["c"]));
}

#[test]
fn a_restored_key_is_the_one_that_is_left() {
    let mut r = Reconciler::new(ICON);
    let mut n = keys(&["old"]);
    r.reconcile(&[tab(1, "📝 new")], &mut n);
    r.restore_note_key(1, "old".to_string());
    let actions = r.reconcile(&[tab(1, "📝 new")], &mut n);
    assert_eq!(actions, vec![moved(1, "old", "new")]);
}

#[test]
fn no_tabs_need_nothing() {
    let mut r = Reconciler::new(ICON);
    let mut n = keys(&["a"]);
    assert_eq!(r.reconcile(&[], &mut n), vec![]);
    assert_eq!(n, keys(&["a"]));
}

#[test]
fn two_rounds_bring_everything_in_step() {
    let mut r = Reconciler::new(ICON);
    let mut n = keys(&["a", "b"]);
    r.restore_note_key(2, "a".to_string());
    let mut tabs = vec![tab(1, "b"), tab(2, "📝 📝 b"), tab(3, "📝 c"), tab(4, "c")];
    for _ in 0..2 {
        let actions = r.reconcile(&tabs, &mut n);
        tabs = shown(&tabs, &actions);
    }
    assert_eq!(r.reconcile(&tabs, &mut n), vec![]);
    assert_eq!(n, keys(&["b", "b (2)"]));
    assert_eq!(
        tabs,
        vec![tab(1, "📝 b"), tab(2, "📝 b (2)"), tab(3, "c"), tab(4, "c (2)")]
    );
}
