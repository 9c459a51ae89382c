use tab_notes::fs_ops::{
    context, context_with_tab, delete_if_empty, delete_note, ensure_dir, list_notes,
    migrate_session, move_note, moved_note_of, op_of, read_note, session_context, Command,
    Context, FROM_KEY, LIST_NOTES, MOVE_NOTE, OP_CLEANUP, OP_DELETE, OP_EDIT, OP_ENSURE_DIR,
    OP_LIST, OP_MIGRATE, OP_MOVE, OP_READ, SESSION_KEY, TAB_KEY,
};
use tab_notes::session::{current_session, SessionView, MIGRATE_NOTES};

fn args(command: &Command) -> Vec<&str> {
    command.args.iter().map(|a| a.as_str()).collect()
}

#[test]
fn a_context_holds_the_last_value_of_each_name() {
    let mut c = Context::new();
    assert_eq!(c.get("a"), None);
    c.insert("a", "1");
    c.insert("b", "2");
    c.insert("a", "3");
    assert_eq!(c.get("a"), Some("3"));
    assert_eq!(c.get("b"), Some("2"));
    assert_eq!(c.get("c"), None);
    assert_eq!(c.len(), 3);
    assert_eq!(c.at(1), ("b", "2"));
}

#[test]
fn contexts_name_their_operation() {
    assert_eq!(op_of(&context(OP_LIST)), Some(OP_LIST));
    let c = context_with_tab(OP_EDIT, "dotfiles");
    assert_eq!(op_of(&c), Some("edit"));
    assert_eq!(c.get(TAB_KEY), Some("dotfiles"));
    let c = session_context(OP_LIST, "main");
    assert_eq!(c.get(SESSION_KEY), Some("main"));
    assert_eq!(op_of(&Context::new()), None);
}

#[test]
fn commands_are_recognised_by_their_results() {
    assert_eq!(op_of(&ensure_dir("/n").context), Some(OP_ENSURE_DIR));
    assert_eq!(op_of(&list_notes("/n", "s").context), Some(OP_LIST));
    assert_eq!(op_of(&read_note("/n/a.md").context), Some(OP_READ));
    assert_eq!(op_of(&delete_note("/n/a.md").context), Some(OP_DELETE));
    assert_eq!(op_of(&move_note("/a", "/b", 1, "a").context), Some(OP_MOVE));
    assert_eq!(op_of(&delete_if_empty("/n/a.md").context), Some(OP_CLEANUP));
    assert_eq!(op_of(&migrate_session("/a", "/b", "s").context), Some(OP_MIGRATE));
}

#[test]
fn commands_carry_paths_as_arguments() {
    assert_eq!(args(&ensure_dir("/n/$x")), vec!["mkdir", "-p", "/n/$x"]);
    assert_eq!(args(&read_note("/n/a.md")), vec!["head", "-c", "65536", "/n/a.md"]);
    assert_eq!(args(&delete_note("/n/a.md")), vec!["rm", "-f", "/n/a.md"]);
    assert_eq!(
        args(&delete_if_empty("/n/a.md")),
        vec!["find", "/n/a.md", "-maxdepth", "0", "-size", "0c", "-delete"]
    );
    assert_eq!(
        args(&list_notes("/n", "s")),
        vec!["sh", "-c", LIST_NOTES, "tab-notes-list", "/n"]
    );
    assert_eq!(
        args(&move_note("/a", "/b", 1, "a")),
        vec!["sh", "-c", MOVE_NOTE, "tab-notes-move", "/a", "/b"]
    );
    assert_eq!(
        args(&migrate_session("/a", "/b", "s")),
        vec!["sh", "-c", MIGRATE_NOTES, "tab-notes-migrate", "/a", "/b"]
    );
}

#[test]
fn a_session_comes_back_with_the_result() {
    assert_eq!(list_notes("/n", "main").context.get(SESSION_KEY), Some("main"));
    assert_eq!(migrate_session("/a", "/b", "main").context.get(SESSION_KEY), Some("main"));
}

#[test]
fn a_moved_note_comes_back_with_the_result() {
    let c = move_note("/n/old.md", "/n/new.md", 42, "old").context;
    assert_eq!(c.get(TAB_KEY), Some("42"));
    assert_eq!(c.get(FROM_KEY), Some("old"));
    assert_eq!(moved_note_of(&c), Some((42, "old")));
    assert_eq!(moved_note_of(&context(OP_MOVE)), None);
    let mut c = context_with_tab(OP_MOVE, "forty-two");
    c.insert(FROM_KEY, "old");
    assert_eq!(moved_note_of(&c), None);
}

#[test]
fn the_current_session_is_found() {
    let sessions = vec![
        SessionView { name: "a".to_string(), is_current: false },
        SessionView { name: "b".to_string(), is_current: true },
    ];
    assert_eq!(current_session(&sessions), Some("b"));
    assert_eq!(current_session(&vec![]), None);
}
