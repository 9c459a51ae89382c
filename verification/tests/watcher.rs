use tab_notes::config::Config;
use tab_notes::fs_ops::{
    context, ensure_dir, list_notes, migrate_session, move_note, session_context, Context,
    NOTES_CHANGED, OP_CLEANUP, OP_DELETE, OP_ENSURE_DIR, OP_LIST, OP_MIGRATE, OP_READ,
    SESSION_FAILED, SESSION_READY,
};
use tab_notes::reconcile::TabView;
use tab_notes::session::SessionView;
use tab_notes::watcher::{Watcher, WatcherEffect, WatcherEvent};

fn config() -> Result<Config, String> {
    Ok(Config { notes_dir: "/notes".to_string(), icon: "📝".to_string() })
}

fn sessions(name: &str) -> WatcherEvent {
    WatcherEvent::Sessions(vec![SessionView { name: name.to_string(), is_current: true }])
}

fn tabs(names: &[(usize, &str)]) -> WatcherEvent {
    WatcherEvent::Tabs(
        names.iter().map(|(id, name)| TabView { id: *id, name: name.to_string() }).collect(),
    )
}

fn result(exit_code: Option<i32>, stdout: &str, context: Context) -> WatcherEvent {
    WatcherEvent::CommandResult { exit_code, stdout: stdout.as_bytes().to_vec(), context }
}

fn listing(keys: &[&str]) -> String {
    keys.iter().map(|k| format!("P/notes/main/{k}.md\nN/notes/main/{k}.md\n")).collect()
}

fn rename(id: usize, name: &str) -> WatcherEffect {
    WatcherEffect::RenameTab { id, name: name.to_string() }
}

fn pipe(name: &str, payload: &str) -> WatcherEffect {
    WatcherEffect::Pipe { name: name.to_string(), payload: payload.to_string() }
}

fn list(session: &str) -> WatcherEffect {
    WatcherEffect::Run(list_notes(&format!("/notes/{session}"), session))
}

fn migrate(from: &str, to: &str) -> WatcherEffect {
    WatcherEffect::Run(migrate_session(&format!("/notes/{from}"), &format!("/notes/{to}"), to))
}

fn moving(id: usize, from: &str, to: &str) -> WatcherEffect {
    WatcherEffect::Run(move_note(
        &format!("/notes/main/{from}.md"),
        &format!("/notes/main/{to}.md"),
        id,
        from,
    ))
}

fn asked(r: (bool, Vec<WatcherEffect>)) -> Vec<String> {
    assert!(!r.0);
    r.1.iter().map(|e| format!("{e:?}")).collect()
}

fn these(effects: &[WatcherEffect]) -> Vec<String> {
    effects.iter().map(|e| format!("{e:?}")).collect()
}

fn nothing() -> Vec<String> {
    vec![]
}

/// A watcher in the session "main".
fn started() -> Watcher {
    let mut w = Watcher::new(config());
    w.update(sessions("main"));
    w.update(WatcherEvent::PermissionGranted);
    w
}

/// A watcher in the session "main" that knows these notes and tabs.
fn running(keys: &[&str], names: &[(usize, &str)]) -> Watcher {
    let mut w = started();
    w.update(tabs(names));
    w.update(result(Some(0), &listing(keys), session_context(OP_LIST, "main")));
    w
}

#[test]
fn the_directory_is_made_once_the_session_is_known_and_permission_is_given() {
    let made = these(&[WatcherEffect::Run(ensure_dir("/notes/main"))]);
    let mut w = Watcher::new(config());
    assert_eq!(asked(w.update(sessions("main"))), nothing());
    assert_eq!(asked(w.update(WatcherEvent::PermissionGranted)), made);
    let mut w = Watcher::new(config());
    assert_eq!(asked(w.update(WatcherEvent::PermissionGranted)), nothing());
    assert_eq!(asked(w.update(sessions("main"))), made);
    assert_eq!(asked(w.update(sessions("main"))), nothing());
    let done = result(Some(0), "", context(OP_ENSURE_DIR));
    assert_eq!(asked(w.update(done)), these(&[list("main")]));
}

#[test]
fn nothing_is_asked_without_permission() {
    let mut w = Watcher::new(config());
    assert_eq!(asked(w.update(sessions("main"))), nothing());
    assert_eq!(asked(w.update(tabs(&[(1, "a")]))), nothing());
    assert_eq!(asked(w.pipe(NOTES_CHANGED)), nothing());
    assert_eq!(these(&w.refresh()), nothing());
}

#[test]
fn nothing_is_renamed_before_the_first_listing() {
    let mut w = started();
    assert_eq!(asked(w.update(tabs(&[(1, "📝 a"), (2, "b")]))), nothing());
    let done = result(Some(0), &listing(&["a"]), session_context(OP_LIST, "main"));
    assert_eq!(asked(w.update(done)), these(&[pipe(SESSION_READY, "main")]));
    assert_eq!(
        asked(w.update(tabs(&[(1, "a"), (2, "📝 b")]))),
        these(&[rename(1, "📝 a"), rename(2, "b")])
    );
}

#[test]
fn a_listing_brings_tabs_and_notes_in_step() {
    let mut w = started();
    w.update(tabs(&[(1, "a"), (2, "b")]));
    let done = result(Some(0), &listing(&["b"]), session_context(OP_LIST, "main"));
    assert_eq!(
        asked(w.update(done)),
        these(&[rename(2, "📝 b"), pipe(SESSION_READY, "main")])
    );
    assert_eq!(asked(w.update(tabs(&[(1, "a"), (2, "📝 b")]))), nothing());
}

#[test]
fn a_failed_listing_means_no_notes() {
    let mut w = running(&["a"], &[(1, "📝 a")]);
    let failed = result(Some(1), &listing(&["a"]), session_context(OP_LIST, "main"));
    assert_eq!(asked(w.update(failed)), these(&[rename(1, "a")]));
}

#[test]
fn an_empty_file_reserves_its_name() {
    let mut w = started();
    w.update(tabs(&[(1, "📝 a")]));
    let output = format!("{}P/notes/main/b.md\n", listing(&["a"]));
    w.update(result(Some(0), &output, session_context(OP_LIST, "main")));
    assert_eq!(asked(w.update(tabs(&[(1, "b")]))), these(&[rename(1, "b (2)")]));
}

#[test]
fn a_listing_of_another_session_is_ignored() {
    let mut w = running(&["a"], &[(1, "📝 a")]);
    let stale = result(Some(0), "", session_context(OP_LIST, "old"));
    assert_eq!(asked(w.update(stale)), nothing());
    assert_eq!(asked(w.update(result(Some(0), "", context(OP_LIST)))), nothing());
    assert_eq!(asked(w.update(tabs(&[(1, "a")]))), these(&[rename(1, "📝 a")]));
}

#[test]
fn a_renamed_session_takes_its_notes_along() {
    let mut w = running(&["a"], &[(1, "📝 a")]);
    assert_eq!(asked(w.update(sessions("work"))), these(&[migrate("main", "work")]));
    // Nothing happens meanwhile.
    assert_eq!(asked(w.update(tabs(&[(1, "b")]))), nothing());
    let stale = result(Some(0), "", session_context(OP_LIST, "main"));
    assert_eq!(asked(w.update(stale)), nothing());
    assert_eq!(asked(w.pipe(NOTES_CHANGED)), nothing());
    assert_eq!(asked(w.update(sessions("play"))), nothing());
    assert_eq!(these(&w.refresh()), nothing());
    // It was renamed again meanwhile: the notes go on.
    let done = result(Some(0), "", session_context(OP_MIGRATE, "work"));
    assert_eq!(asked(w.update(done)), these(&[migrate("work", "play")]));
    let done = result(Some(0), "", session_context(OP_MIGRATE, "play"));
    assert_eq!(asked(w.update(done)), these(&[list("play")]));
}

#[test]
fn a_failed_migration_is_told() {
    let mut w = running(&["a"], &[(1, "📝 a")]);
    w.update(sessions("work"));
    let failed = result(Some(1), "", session_context(OP_MIGRATE, "work"));
    assert_eq!(asked(w.update(failed)), these(&[pipe(SESSION_FAILED, "work")]));
    // The notes are still those of the old session, so nothing is done with them.
    assert_eq!(asked(w.update(tabs(&[(1, "b")]))), nothing());
    assert_eq!(asked(w.pipe(NOTES_CHANGED)), these(&[migrate("main", "work")]));
    let failed = result(None, "", context(OP_MIGRATE));
    assert_eq!(asked(w.update(failed)), nothing());
}

#[test]
fn a_migration_waits_for_moves() {
    let mut w = running(&["a", "b"], &[(1, "📝 a"), (2, "📝 b")]);
    assert_eq!(
        asked(w.update(tabs(&[(1, "📝 c"), (2, "📝 d")]))),
        these(&[moving(1, "a", "c"), moving(2, "b", "d")])
    );
    assert_eq!(asked(w.update(sessions("work"))), nothing());
    let first = move_note("/notes/main/a.md", "/notes/main/c.md", 1, "a").context;
    assert_eq!(asked(w.update(result(Some(0), "", first))), nothing());
    let second = move_note("/notes/main/b.md", "/notes/main/d.md", 2, "b").context;
    assert_eq!(asked(w.update(result(Some(0), "", second))), these(&[migrate("main", "work")]));
}

#[test]
fn a_failed_move_is_tried_again_from_where_the_note_is() {
    let mut w = running(&["a"], &[(1, "📝 a")]);
    assert_eq!(asked(w.update(tabs(&[(1, "📝 c")]))), these(&[moving(1, "a", "c")]));
    let move_context = || move_note("/notes/main/a.md", "/notes/main/c.md", 1, "a").context;
    assert_eq!(asked(w.update(result(Some(17), "", move_context()))), these(&[list("main")]));
    // Something has appeared at the destination, and it is not this tab's note.
    let output = format!("{}P/notes/main/c.md\n", listing(&["a"]));
    assert_eq!(
        asked(w.update(result(Some(0), &output, session_context(OP_LIST, "main")))),
        these(&[rename(1, "c (2)"), pipe(SESSION_READY, "main")])
    );
    assert_eq!(
        asked(w.update(tabs(&[(1, "c (2)")]))),
        these(&[moving(1, "a", "c (2)"), rename(1, "📝 c (2)")])
    );
}

#[test]
fn a_finished_move_is_listed() {
    let mut w = running(&["a"], &[(1, "📝 a")]);
    w.update(tabs(&[(1, "📝 c")]));
    let done = move_note("/notes/main/a.md", "/notes/main/c.md", 1, "a").context;
    assert_eq!(asked(w.update(result(Some(0), "", done))), these(&[list("main")]));
}

#[test]
fn changes_of_the_notes_are_listed() {
    let mut w = running(&["a"], &[(1, "📝 a")]);
    assert_eq!(asked(w.pipe(NOTES_CHANGED)), these(&[list("main")]));
    assert_eq!(asked(w.pipe("something-else")), nothing());
    let deleted = result(Some(1), "", context(OP_DELETE));
    assert_eq!(asked(w.update(deleted)), these(&[list("main")]));
    let cleaned = result(Some(1), "", context(OP_CLEANUP));
    assert_eq!(asked(w.update(cleaned)), these(&[list("main")]));
    assert_eq!(these(&w.refresh()), these(&[list("main")]));
    let other = result(Some(0), "", context(OP_READ));
    assert_eq!(asked(w.update(other)), nothing());
    assert_eq!(asked(w.update(WatcherEvent::Other)), nothing());
    assert_eq!(asked(w.update(WatcherEvent::Sessions(vec![]))), nothing());
}

#[test]
fn without_a_configuration_a_watcher_is_inert() {
    let mut w = Watcher::new(Err("tab-notes: not configured".to_string()));
    assert_eq!(asked(w.update(WatcherEvent::PermissionGranted)), nothing());
    assert_eq!(asked(w.update(sessions("main"))), nothing());
    assert_eq!(asked(w.pipe(NOTES_CHANGED)), nothing());
}

#[test]
fn without_permissions_a_watcher_is_inert() {
    let mut w = running(&["a"], &[(1, "📝 a")]);
    assert_eq!(asked(w.update(WatcherEvent::PermissionDenied)), nothing());
    assert_eq!(asked(w.update(tabs(&[(1, "b")]))), nothing());
    assert_eq!(asked(w.pipe(NOTES_CHANGED)), nothing());
    assert_eq!(these(&w.refresh()), nothing());
}

#[test]
fn output_that_is_no_text_spoils_no_other_line() {
    let mut w = started();
    w.update(tabs(&[(1, "a"), (2, "\u{fffd}")]));
    let mut stdout = listing(&["a"]).into_bytes();
    stdout.extend_from_slice(b"N/notes/main/\xff.md\n");
    let done = WatcherEvent::CommandResult {
        exit_code: Some(0),
        stdout,
        context: session_context(OP_LIST, "main"),
    };
    assert_eq!(
        asked(w.update(done)),
        these(&[rename(1, "📝 a"), rename(2, "📝 \u{fffd}"), pipe(SESSION_READY, "main")])
    );
}

#[test]
fn a_decoded_result_has_the_same_effect() {
    let mut w = started();
    w.update(tabs(&[(1, "a")]));
    let effects = w.on_command_result(
        Some(0),
        &listing(&["a"]),
        &session_context(OP_LIST, "main"),
    );
    assert_eq!(these(&effects), these(&[rename(1, "📝 a"), pipe(SESSION_READY, "main")]));
}

#[test]
fn a_name_that_a_note_has_left_is_free_before_the_next_listing() {
    let mut w = running(&["a"], &[(1, "📝 a")]);
    assert_eq!(asked(w.update(tabs(&[(1, "📝 b")]))), these(&[moving(1, "a", "b")]));
    assert_eq!(
        asked(w.update(tabs(&[(1, "a")]))),
        these(&[moving(1, "b", "a"), rename(1, "📝 a")])
    );
    let mut w = running(&["a"], &[(1, "📝 a"), (2, "x")]);
    w.update(tabs(&[(1, "📝 b"), (2, "x")]));
    assert_eq!(asked(w.update(tabs(&[(1, "📝 b"), (2, "a")]))), nothing());
}

#[test]
fn a_name_that_a_note_has_come_to_is_taken_before_the_next_listing() {
    let mut w = running(&["a", "x"], &[(1, "📝 a"), (2, "📝 x")]);
    w.update(tabs(&[(1, "📝 b"), (2, "📝 x")]));
    // Tab 1 is closed; its note stays where it was moved to.
    assert_eq!(asked(w.update(tabs(&[(2, "📝 b")]))), these(&[rename(2, "b (2)")]));
}
