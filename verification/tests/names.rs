use tab_notes::config::{
    role_of, Config, Role, DEFAULT_ICON, NO_NOTES_DIR, RELATIVE_NOTES_DIR,
};
use tab_notes::icon::{decorate, strip_icon};
use tab_notes::listing::parse_note_listing;
use tab_notes::note_set::NoteSet;
use tab_notes::paths::{note_path, note_path_from_key, sanitize_tab_name, session_dir};
use tab_notes::text::{
    chars_of, decimal_text, fit_len, is_blank_text, joined, number_of, repeat_char, same_text,
    text_between, trimmed_len,
};
use tab_notes::viewport::clamp_scroll;

fn keys(names: &[&str]) -> NoteSet {
    let mut set = NoteSet::new();
    for name in names {
        set.insert(name);
    }
    set
}

#[test]
fn decoration_is_undone_by_stripping() {
    assert_eq!(decorate("dotfiles", "📝", true), "📝 dotfiles");
    assert_eq!(decorate("dotfiles", "📝", false), "dotfiles");
    assert_eq!(strip_icon(&decorate("dotfiles", "📝", true), "📝"), "dotfiles");
    assert_eq!(strip_icon(&decorate("", "📝", true), "📝"), "");
}

#[test]
fn only_a_marker_in_front_is_stripped() {
    assert_eq!(strip_icon("📝dotfiles", "📝"), "📝dotfiles");
    assert_eq!(strip_icon("a 📝 b", "📝"), "a 📝 b");
    assert_eq!(strip_icon("📝 📝 a", "📝"), "a");
}

#[test]
fn a_slash_becomes_part_of_the_file_name() {
    assert_eq!(sanitize_tab_name("feature/login"), "feature-login");
    assert_eq!(
        note_path("/notes", "main", "feature/login"),
        "/notes/main/feature-login.md"
    );
}

#[test]
fn a_key_is_used_as_it_is() {
    assert_eq!(note_path_from_key("/notes", "a/b", "c"), "/notes/a-b/c.md");
    assert_eq!(session_dir("/notes", "a/b"), "/notes/a-b");
}

#[test]
fn a_long_name_is_cut_at_a_whole_character() {
    let long = "é".repeat(200);
    let key = sanitize_tab_name(&long);
    assert_eq!(key, "é".repeat(126));
    assert_eq!(key.len(), 252);
}

#[test]
fn a_listing_tells_files_from_notes() {
    let listing = parse_note_listing(
        "P/notes/main/a.md\nN/notes/main/a.md\nP/notes/main/empty.md\nPother.txt\nX/b.md\n",
    );
    assert_eq!(listing.occupied, keys(&["a", "empty"]));
    assert_eq!(listing.notes, keys(&["a"]));
    let nothing = parse_note_listing("");
    assert_eq!(nothing.occupied, keys(&[]));
    assert_eq!(nothing.notes, keys(&[]));
}

#[test]
fn a_listed_file_has_the_key_that_named_it() {
    let path = note_path("/notes", "main", "feature/login");
    let listing = parse_note_listing(&format!("N{path}"));
    assert_eq!(listing.notes, keys(&["feature-login"]));
}

#[test]
fn a_configuration_needs_an_absolute_directory() {
    let config = Config::from_entries(Some("/notes".to_string()), Some("*".to_string())).unwrap();
    assert_eq!(config.notes_dir, "/notes");
    assert_eq!(config.icon, "*");
    let config = Config::from_entries(Some("/notes".to_string()), None).unwrap();
    assert_eq!(config.icon, DEFAULT_ICON);
    assert_eq!(Config::from_entries(None, None).unwrap_err(), NO_NOTES_DIR);
    for dir in ["~/notes", "notes", ""] {
        assert_eq!(
            Config::from_entries(Some(dir.to_string()), None).unwrap_err(),
            RELATIVE_NOTES_DIR
        );
    }
}

#[test]
fn everything_but_modal_is_the_watcher() {
    assert_eq!(role_of(Some("modal")), Role::Modal);
    assert_eq!(role_of(Some("watcher")), Role::Watcher);
    assert_eq!(role_of(Some("Modal")), Role::Watcher);
    assert_eq!(role_of(None), Role::Watcher);
}

#[test]
fn a_note_set_holds_each_key_once() {
    let mut set = NoteSet::new();
    assert!(set.insert("a"));
    assert!(!set.insert("a"));
    assert_eq!(set.len(), 1);
    assert!(set.contains("a"));
    assert!(!set.contains("b"));
    let mut other = set.copy();
    other.extend(&keys(&["a", "b"]));
    assert_eq!(other, keys(&["b", "a"]));
    assert_ne!(other, set);
    assert!(other.remove("a"));
    assert!(!other.remove("a"));
    assert_eq!(other, keys(&["b"]));
}

#[test]
fn the_view_is_moved_back_to_where_there_are_lines() {
    assert_eq!(clamp_scroll(0, 10, 4), 0);
    assert_eq!(clamp_scroll(5, 10, 4), 5);
    assert_eq!(clamp_scroll(7, 10, 4), 6);
    assert_eq!(clamp_scroll(7, 3, 4), 0);
    assert_eq!(clamp_scroll(7, 3, 0), 3);
}

#[test]
fn texts_are_taken_apart_and_put_together() {
    let v = chars_of("añb");
    assert_eq!(v, vec!['a', 'ñ', 'b']);
    assert_eq!(text_between(&v, 1, 3), "ñb");
    assert_eq!(joined("a", "ñ"), "añ");
    assert_eq!(repeat_char('─', 3), "───");
    assert!(same_text("añ", "añ"));
    assert!(!same_text("añ", "an"));
    assert_eq!(fit_len(&v, 2), 1);
    assert_eq!(fit_len(&v, 3), 2);
    let spaced = chars_of("a b\u{3000}\n ");
    assert_eq!(trimmed_len(&spaced, spaced.len()), 3);
}

#[test]
fn blank_text_is_no_note() {
    assert!(is_blank_text(""));
    assert!(is_blank_text(" \n\t\u{a0}"));
    assert!(!is_blank_text(" \n x"));
}

#[test]
fn numbers_come_back_from_their_decimal_form() {
    assert_eq!(decimal_text(0), "0");
    assert_eq!(decimal_text(1207), "1207");
    assert_eq!(number_of("1207"), Some(1207));
    assert_eq!(number_of("0"), Some(0));
    assert_eq!(number_of(&usize::MAX.to_string()), Some(usize::MAX));
    assert_eq!(number_of(&format!("{}0", usize::MAX)), None);
    assert_eq!(number_of("007"), None);
    assert_eq!(number_of("x"), None);
    assert_eq!(number_of(""), None);
}
