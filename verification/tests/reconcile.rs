use tab_notes::note_set::NoteSet;
use tab_notes::paths::sanitize_tab_name;
use tab_notes::reconcile::{Action, Reconciler, TabView};

const ICON: &str = "📝";

fn tab(id: usize, name: &str) -> TabView {
    TabView { id, name: name.to_string() }
}

fn notes(names: &[&str]) -> NoteSet {
    let mut set = NoteSet::new();
    for name in names {
        set.insert(name);
    }
    set
}

#[test]
fn adds_the_icon_to_a_tab_that_has_a_note() {
    let mut r = Reconciler::new(ICON);
    let mut n = notes(&["dotfiles"]);
    let actions = r.reconcile(&[tab(1, "dotfiles")], &mut n);
    assert_eq!(
        actions,
        vec![Action::RenameTab {
            id: 1,
            name: "📝 dotfiles".to_string()
        }]
    );
}

#[test]
fn leaves_a_tab_without_a_note_alone() {
    let mut r = Reconciler::new(ICON);
    let mut n = notes(&[]);
    assert_eq!(r.reconcile(&[tab(1, "dotfiles")], &mut n), vec![]);
}

#[test]
fn removes_a_stale_icon_when_the_note_is_gone() {
    let mut r = Reconciler::new(ICON);
    let mut n = notes(&[]);
    let actions = r.reconcile(&[tab(1, "📝 dotfiles")], &mut n);
    assert_eq!(
        actions,
        vec![Action::RenameTab {
            id: 1,
            name: "dotfiles".to_string()
        }]
    );
}

#[test]
fn is_idempotent() {
    let mut r = Reconciler::new(ICON);
    let mut n = notes(&["dotfiles"]);
    let first = r.reconcile(&[tab(1, "dotfiles")], &mut n);
    assert_eq!(first.len(), 1);
    // Zellij has now applied the rename; the tab comes back decorated.
    let second = r.reconcile(&[tab(1, "📝 dotfiles")], &mut n);
    assert_eq!(second, vec![], "a settled state must produce no actions");
    let third = r.reconcile(&[tab(1, "📝 dotfiles")], &mut n);
    assert_eq!(third, vec![]);
}

#[test]
fn follows_a_rename_by_tab_id() {
    let mut r = Reconciler::new(ICON);
    let mut n = notes(&["old"]);
    r.reconcile(&[tab(7, "old")], &mut n);
    let actions = r.reconcile(&[tab(7, "new")], &mut n);
    assert_eq!(
        actions,
        vec![
            Action::MoveNote {
                id: 7,
                from: "old".to_string(),
                to: "new".to_string()
            },
            Action::RenameTab {
                id: 7,
                name: "📝 new".to_string()
            },
        ]
    );
    assert_eq!(n, notes(&["new"]), "the note set must be updated in place");
}

#[test]
fn follows_a_rename_that_kept_the_icon_in_the_typed_name() {
    let mut r = Reconciler::new(ICON);
    let mut n = notes(&["old"]);
    r.reconcile(&[tab(7, "old")], &mut n);
    let actions = r.reconcile(&[tab(7, "📝 new")], &mut n);
    assert_eq!(
        actions,
        vec![Action::MoveNote {
            id: 7,
            from: "old".to_string(),
            to: "new".to_string()
        }],
        "the name is already correct, only the file moves"
    );
}

#[test]
fn does_not_move_a_note_for_a_tab_that_never_had_one() {
    let mut r = Reconciler::new(ICON);
    let mut n = notes(&[]);
    r.reconcile(&[tab(7, "old")], &mut n);
    assert_eq!(r.reconcile(&[tab(7, "new")], &mut n), vec![]);
}

#[test]
fn renames_by_tab_id_not_by_display_order() {
    let mut r = Reconciler::new(ICON);
    let mut n = notes(&["b"]);
    let actions = r.reconcile(&[tab(11, "a"), tab(22, "b")], &mut n);
    assert_eq!(
        actions,
        vec![Action::RenameTab {
            id: 22,
            name: "📝 b".to_string()
        }],
        "the action must carry the tab's own id, never its display position"
    );
}

#[test]
fn moving_a_tab_does_not_look_like_a_rename() {
    let mut r = Reconciler::new(ICON);
    let mut n = notes(&["a"]);
    r.reconcile(&[tab(1, "a"), tab(2, "b")], &mut n);
    // MoveTab reorders the tabs but leaves tab ids untouched.
    let actions = r.reconcile(&[tab(2, "b"), tab(1, "📝 a")], &mut n);
    assert_eq!(actions, vec![], "the order changed, the names did not");
}

#[test]
fn forgets_closed_tabs() {
    let mut r = Reconciler::new(ICON);
    let mut n = notes(&["a"]);
    r.reconcile(&[tab(1, "a")], &mut n);
    r.reconcile(&[], &mut n);
    // Tab id 1 is reused by a brand new tab named "b": no note must be moved.
    assert_eq!(r.reconcile(&[tab(1, "b")], &mut n), vec![]);
}

#[test]
fn does_not_move_a_note_onto_another_open_tabs_note() {
    let mut r = Reconciler::new(ICON);
    let mut n = notes(&["old", "y"]);
    // Settle with two tabs and two notes
    r.reconcile(&[tab(1, "old"), tab(2, "y")], &mut n);
    // Rename tab 1 from "old" to "y" — destination has a note
    let actions = r.reconcile(&[tab(1, "y"), tab(2, "📝 y")], &mut n);
    // Should not emit MoveNote, but may emit RenameTab
    let has_move_note = actions.iter().any(|a| matches!(a, Action::MoveNote { .. }));
    assert!(
        !has_move_note,
        "must not emit MoveNote when destination has a note"
    );
    // Note set must be unchanged
    assert_eq!(n, notes(&["old", "y"]), "both notes must survive");
}

#[test]
fn does_not_move_a_note_onto_an_orphan_note_file() {
    let mut r = Reconciler::new(ICON);
    let mut n = notes(&["old", "z"]);
    // Settle with one tab; "z" has no tab
    r.reconcile(&[tab(1, "old")], &mut n);
    // Rename tab 1 from "old" to "z" — destination has an orphan note
    let actions = r.reconcile(&[tab(1, "z")], &mut n);
    // Should not emit MoveNote
    let has_move_note = actions.iter().any(|a| matches!(a, Action::MoveNote { .. }));
    assert!(
        !has_move_note,
        "must not emit MoveNote when destination has an orphan note"
    );
    // Note set must be unchanged
    assert_eq!(n, notes(&["old", "z"]), "both notes must survive");
}

#[test]
fn decorates_a_tab_whose_name_sanitizes_to_the_note_key() {
    let mut r = Reconciler::new(ICON);
    // The note set comes from filenames, so it holds the sanitized key.
    let mut n = notes(&["feature-login"]);
    let actions = r.reconcile(&[tab(1, "feature/login")], &mut n);
    assert_eq!(
        actions,
        vec![Action::RenameTab {
            id: 1,
            name: "📝 feature/login".to_string()
        }],
        "the icon must follow the note key, the displayed name stays unsanitized"
    );
}

#[test]
fn does_not_move_a_note_onto_a_name_that_shares_a_sanitized_key() {
    let mut r = Reconciler::new(ICON);
    let mut n = notes(&["scratch", "notes-todo"]);
    r.reconcile(&[tab(1, "scratch")], &mut n);
    // "notes/todo" sanitizes to "notes-todo", which already has a note file.
    let actions = r.reconcile(&[tab(1, "notes/todo")], &mut n);
    let has_move_note = actions.iter().any(|a| matches!(a, Action::MoveNote { .. }));
    assert!(
        !has_move_note,
        "the guard must compare keys, not raw display names"
    );
    assert_eq!(
        n,
        notes(&["scratch", "notes-todo"]),
        "both notes must survive"
    );
}

#[test]
fn a_move_carries_note_keys_not_display_names() {
    let mut r = Reconciler::new(ICON);
    let mut n = notes(&["old"]);
    r.reconcile(&[tab(7, "old")], &mut n);
    let actions = r.reconcile(&[tab(7, "feature/login")], &mut n);
    assert_eq!(
        actions,
        vec![
            Action::MoveNote {
                id: 7,
                from: "old".to_string(),
                to: "feature-login".to_string()
            },
            Action::RenameTab {
                id: 7,
                name: "📝 feature/login".to_string()
            },
        ]
    );
    assert_eq!(n, notes(&["feature-login"]));
}
#[test]
fn duplicate_names_get_distinct_persistent_names_before_reading() {
    let mut r = Reconciler::new(ICON);
    let mut n = notes(&["review"]);
    assert_eq!(
        r.reconcile(&[tab(2, "review"), tab(1, "review")], &mut n),
        vec![Action::RenameTab {
            id: 2,
            name: "review (2)".into()
        }]
    );
    let actions = r.reconcile(&[tab(2, "review (2)"), tab(1, "review")], &mut n);
    assert_eq!(
        actions,
        vec![Action::RenameTab {
            id: 1,
            name: "📝 review".into()
        }]
    );
    assert_eq!(n, notes(&["review"]));
}

#[test]
fn incoming_rename_keeps_its_own_note_and_does_not_steal_owner() {
    let mut r = Reconciler::new(ICON);
    let mut n = notes(&["mine", "review"]);
    r.reconcile(&[tab(1, "mine"), tab(2, "review")], &mut n);
    assert_eq!(
        r.reconcile(&[tab(1, "review"), tab(2, "📝 review")], &mut n),
        vec![Action::RenameTab {
            id: 1,
            name: "review (2)".into()
        }]
    );
    let actions = r.reconcile(&[tab(1, "review (2)"), tab(2, "📝 review")], &mut n);
    assert!(actions.contains(&Action::MoveNote {
        id: 1,
        from: "mine".into(),
        to: "review (2)".into()
    }));
    assert_eq!(n, notes(&["review", "review (2)"]));
}

#[test]
fn sanitization_collisions_are_disambiguated_too() {
    let mut r = Reconciler::new(ICON);
    let mut n = notes(&[]);
    assert_eq!(
        r.reconcile(&[tab(1, "feature/login"), tab(2, "feature-login")], &mut n),
        vec![Action::RenameTab {
            id: 2,
            name: "feature-login (2)".into()
        }]
    );
}

#[test]
fn suffix_reserves_empty_files_and_other_tabs_names() {
    let mut r = Reconciler::new(ICON);
    let mut n = notes(&["old"]);
    r.reconcile(&[tab(1, "old")], &mut n);
    let occupied = notes(&["old", "new", "new (2)"]);
    assert_eq!(
        r.reconcile_with_occupied(&[tab(1, "new"), tab(2, "new (3)")], &mut n, &occupied),
        vec![Action::RenameTab {
            id: 1,
            name: "new (4)".into()
        }]
    );
}

#[test]
fn long_names_leave_room_for_a_suffix_instead_of_looping() {
    let mut r = Reconciler::new(ICON);
    let mut n = notes(&[]);
    let long = "é".repeat(210);
    let actions = r.reconcile(&[tab(1, &long), tab(2, &long)], &mut n);
    let Action::RenameTab { name, .. } = &actions[0] else {
        panic!()
    };
    assert!(name.ends_with(" (2)"));
    assert!(name.len() < 200);
    assert_ne!(sanitize_tab_name(name), sanitize_tab_name(&long));
}

#[test]
fn failed_move_retries_original_note_under_a_free_name() {
    let mut r = Reconciler::new(ICON);
    let mut n = notes(&["old"]);
    r.reconcile(&[tab(1, "old")], &mut n);
    r.reconcile(&[tab(1, "new")], &mut n);
    r.restore_note_key(1, "old".into());
    n = notes(&["old", "new"]); // concurrent destination creation
    assert_eq!(
        r.reconcile(&[tab(1, "new")], &mut n),
        vec![Action::RenameTab {
            id: 1,
            name: "new (2)".into()
        }]
    );
    let actions = r.reconcile(&[tab(1, "new (2)")], &mut n);
    assert!(actions.contains(&Action::MoveNote {
        id: 1,
        from: "old".into(),
        to: "new (2)".into()
    }));
}
