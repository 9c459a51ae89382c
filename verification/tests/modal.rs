use tab_notes::config::Config;
use tab_notes::fs_ops::{
    context, context_with_tab, delete_if_empty, delete_note, op_of, read_note, Context,
    NOTES_CHANGED, OP_CLEANUP, OP_DELETE, OP_EDIT, OP_LIST, OP_READ, TAB_KEY,
};
use tab_notes::markdown::{LineKind, RenderedLine};
use tab_notes::modal::{Modal, ModalEffect, ModalEvent, PaneView, TabPanes, TabSlot};
use tab_notes::modal_plan::{Key, DENIED};
use tab_notes::screen::Drawn;
use tab_notes::session::SessionView;
use zellij_tile::prelude::FloatingPaneCoordinates;
use zellij_tile::ui_components::Text;

const ME: u32 = 7;

fn config() -> Result<Config, String> {
    Ok(Config { notes_dir: "/notes".to_string(), icon: "📝".to_string() })
}

fn sessions(name: &str) -> ModalEvent {
    ModalEvent::Sessions(vec![
        SessionView { name: "other".to_string(), is_current: false },
        SessionView { name: name.to_string(), is_current: true },
    ])
}

fn tabs(names: &[(usize, usize, &str)]) -> ModalEvent {
    ModalEvent::Tabs(
        names
            .iter()
            .map(|(id, position, name)| TabSlot {
                id: *id,
                position: *position,
                name: name.to_string(),
            })
            .collect(),
    )
}

fn terminal(id: u32, is_focused: bool) -> PaneView {
    PaneView {
        id,
        is_plugin: false,
        is_focused,
        is_floating: false,
        is_suppressed: false,
        is_selectable: true,
        exited: false,
        x: 0,
        y: 0,
        columns: 80,
        rows: 24,
        plugin_url: None,
    }
}

fn plugin(id: u32, is_focused: bool) -> PaneView {
    PaneView {
        is_plugin: true,
        is_floating: true,
        x: 12,
        y: 3,
        columns: 60,
        rows: 20,
        plugin_url: Some("tab-notes".to_string()),
        ..terminal(id, is_focused)
    }
}

fn panes(groups: Vec<(usize, Vec<PaneView>)>) -> ModalEvent {
    ModalEvent::Panes {
        me: ME,
        groups: groups
            .into_iter()
            .map(|(position, panes)| TabPanes { position, panes })
            .collect(),
    }
}

fn result(exit_code: Option<i32>, stdout: &str, context: Context) -> ModalEvent {
    ModalEvent::CommandResult { exit_code, stdout: stdout.as_bytes().to_vec(), context }
}

fn key(c: char) -> ModalEvent {
    ModalEvent::Key(Key::Char(c))
}

fn described(effects: &[ModalEffect]) -> Vec<String> {
    effects.iter().map(|e| format!("{e:?}")).collect()
}

fn same_effects(a: &[ModalEffect], b: &[ModalEffect]) -> bool {
    described(a) == described(b)
}

fn reading(path: &str) -> Vec<ModalEffect> {
    vec![ModalEffect::Run(read_note(path))]
}

/// A modal in the tab with id 20, at position 1, of the session "main", with this note.
fn opened(content: &str) -> Modal {
    let mut m = Modal::new(config());
    m.update(sessions("main"));
    m.update(tabs(&[(10, 0, "first"), (20, 1, "📝 dotfiles")]));
    let (_, effects) = m.update(panes(vec![
        (0, vec![terminal(1, false)]),
        (1, vec![terminal(2, false), terminal(3, true), plugin(ME, true)]),
    ]));
    assert!(same_effects(&effects, &reading("/notes/main/dotfiles.md")));
    m.update(result(Some(0), content, read_note("/notes/main/dotfiles.md").context));
    m
}

fn text_lines(texts: &[&str]) -> Vec<RenderedLine> {
    texts
        .iter()
        .map(|t| RenderedLine { text: t.to_string(), kind: LineKind::Plain, spans: vec![] })
        .collect()
}

fn drawn(pieces: &[Drawn]) -> Vec<(String, usize, usize, usize)> {
    pieces.iter().map(|d| (d.text.serialize(), d.x, d.y, d.width)).collect()
}

const KEYS: &str = "e edit · d delete · m minimise · f terminal · j/k scroll · Esc close";

#[test]
fn a_modal_belongs_to_the_tab_in_which_it_was_opened() {
    let events = || {
        (
            tabs(&[(10, 0, "first"), (20, 1, "dotfiles")]),
            panes(vec![(1, vec![plugin(ME, false)])]),
        )
    };
    let mut m = Modal::new(config());
    m.update(sessions("main"));
    let (t, p) = events();
    m.update(t);
    assert!(same_effects(&m.update(p).1, &reading("/notes/main/dotfiles.md")));
    let mut m = Modal::new(config());
    m.update(sessions("main"));
    let (t, p) = events();
    m.update(p);
    assert!(same_effects(&m.update(t).1, &reading("/notes/main/dotfiles.md")));
}

#[test]
fn a_modal_never_follows_another_tab() {
    let mut m = opened("text");
    let (redraw, effects) = m.update(tabs(&[(20, 0, "📝 dotfiles"), (10, 1, "first")]));
    assert!(!redraw);
    assert!(effects.is_empty());
    m.update(panes(vec![(1, vec![plugin(ME, false)])]));
    let (_, effects) = m.update(tabs(&[(10, 1, "first")]));
    assert!(effects.is_empty());
    let (redraw, effects) = m.update(tabs(&[(10, 1, "first"), (20, 0, "renamed")]));
    assert!(redraw);
    assert!(same_effects(&effects, &reading("/notes/main/renamed.md")));
}

#[test]
fn nothing_about_a_note_survives_a_rename() {
    let mut m = opened("text");
    assert!(m.has_note());
    m.update(key('d'));
    m.update(tabs(&[(20, 1, "renamed")]));
    assert!(!m.has_note());
    let (redraw, effects) = m.update(key('y'));
    assert!(!redraw);
    assert!(effects.is_empty());
}

#[test]
fn nothing_about_a_note_survives_a_change_of_session() {
    let mut m = opened("text");
    m.update(key('d'));
    let (redraw, effects) = m.update(sessions("side"));
    assert!(redraw);
    assert!(same_effects(&effects, &reading("/notes/side/dotfiles.md")));
    assert!(!m.has_note());
    assert!(m.update(key('y')).1.is_empty());
    let (redraw, effects) = m.update(sessions("side"));
    assert!(redraw);
    assert!(effects.is_empty());
    let (redraw, _) = m.update(ModalEvent::Sessions(vec![]));
    assert!(!redraw);
}

#[test]
fn a_note_is_deleted_only_when_confirmed() {
    let mut m = opened("text");
    assert!(m.update(key('y')).1.is_empty());
    assert!(m.update(key('d')).1.is_empty());
    assert!(m.update(key('n')).1.is_empty());
    assert!(m.update(key('y')).1.is_empty());
    m.update(key('d'));
    let (redraw, effects) = m.update(key('y'));
    assert!(redraw);
    let expected = vec![ModalEffect::Run(delete_note("/notes/main/dotfiles.md"))];
    assert!(same_effects(&effects, &expected));
    assert!(m.update(key('y')).1.is_empty());
}

#[test]
fn a_note_that_is_not_there_cannot_be_deleted() {
    let mut m = opened(" \n");
    assert!(!m.has_note());
    assert!(!m.update(key('d')).0);
    assert!(m.update(key('y')).1.is_empty());
}

#[test]
fn a_deletion_is_told_when_it_is_done() {
    let mut m = opened("text");
    let (redraw, effects) = m.update(result(Some(1), "", context(OP_DELETE)));
    assert!(redraw);
    assert!(effects.is_empty());
    assert!(m.has_note());
    let (redraw, effects) = m.update(result(Some(0), "", context(OP_DELETE)));
    assert!(redraw);
    assert!(same_effects(&effects, &[ModalEffect::Pipe(NOTES_CHANGED.to_string())]));
    assert!(!m.has_note());
}

#[test]
fn a_failed_read_shows_no_note() {
    let mut m = opened("text");
    m.update(result(None, "text", context(OP_READ)));
    assert!(!m.has_note());
    m.update(result(Some(0), "text", context(OP_READ)));
    assert!(m.has_note());
    m.update(result(Some(1), "text", context(OP_READ)));
    assert!(!m.has_note());
    assert!(!m.update(result(Some(0), "text", context(OP_LIST))).0);
    assert!(!m.update(result(Some(0), "text", Context::new())).0);
}

#[test]
fn output_that_is_no_text_is_read_as_far_as_it_goes() {
    let mut m = opened("");
    assert!(!m.has_note());
    m.update(ModalEvent::CommandResult {
        exit_code: Some(0),
        stdout: vec![0xff],
        context: context(OP_READ),
    });
    assert!(m.has_note());
    m.update(ModalEvent::CommandResult {
        exit_code: Some(0),
        stdout: vec![0xe2, 0x80, 0x83],
        context: context(OP_READ),
    });
    assert!(!m.has_note());
}

#[test]
fn an_edit_is_cleaned_up_and_read_again() {
    let mut m = opened("text");
    let (redraw, effects) = m.update(key('e'));
    assert!(redraw);
    let expected = vec![ModalEffect::OpenEditor {
        path: "/notes/main/dotfiles.md".to_string(),
        context: context_with_tab(OP_EDIT, "dotfiles"),
    }];
    assert!(same_effects(&effects, &expected));
    let (redraw, effects) =
        m.update(ModalEvent::EditorClosed(context_with_tab(OP_EDIT, "dotfiles")));
    assert!(redraw);
    let expected = vec![ModalEffect::Run(delete_if_empty("/notes/main/dotfiles.md"))];
    assert!(same_effects(&effects, &expected));
    let (redraw, effects) = m.update(result(Some(1), "", context(OP_CLEANUP)));
    assert!(redraw);
    let expected = vec![
        ModalEffect::Run(read_note("/notes/main/dotfiles.md")),
        ModalEffect::Pipe(NOTES_CHANGED.to_string()),
    ];
    assert!(same_effects(&effects, &expected));
    let (redraw, effects) = m.update(ModalEvent::EditorClosed(context(OP_READ)));
    assert!(!redraw);
    assert!(effects.is_empty());
}

#[test]
fn without_a_tab_there_is_nothing_to_edit() {
    let mut m = Modal::new(config());
    let (redraw, effects) = m.update(key('e'));
    assert!(!redraw);
    assert!(effects.is_empty());
    assert!(!m.update(ModalEvent::EditorClosed(context(OP_EDIT))).0);
}

#[test]
fn a_younger_instance_hands_over_to_the_oldest() {
    let mut m = Modal::new(config());
    let mut suppressed = plugin(1, false);
    suppressed.is_suppressed = true;
    let mut watcher = plugin(2, false);
    watcher.plugin_url = Some("tab-notes-watcher".to_string());
    let (redraw, effects) = m.update(panes(vec![
        (0, vec![plugin(3, false)]),
        (1, vec![plugin(6, false), plugin(ME, true), plugin(5, false), suppressed, watcher]),
    ]));
    assert!(!redraw);
    assert!(same_effects(&effects, &[ModalEffect::FocusPlugin(5), ModalEffect::Close]));
    let (redraw, effects) = m.update(sessions("main"));
    assert!(!redraw);
    assert!(effects.is_empty());
    assert!(m.update(ModalEvent::Key(Key::Esc)).1.is_empty());
}

#[test]
fn the_oldest_instance_stays() {
    let mut m = Modal::new(config());
    let (_, effects) = m.update(panes(vec![
        (0, vec![plugin(3, false)]),
        (1, vec![plugin(ME, true), plugin(9, false)]),
    ]));
    assert!(effects.is_empty());
    assert!(same_effects(&m.update(ModalEvent::Key(Key::Esc)).1, &[ModalEffect::Close]));
    assert!(same_effects(&m.update(key('q')).1, &[ModalEffect::Close]));
}

#[test]
fn panes_without_the_own_one_say_nothing() {
    let mut m = opened("text");
    let (redraw, effects) = m.update(panes(vec![(1, vec![terminal(9, true)])]));
    assert!(!redraw);
    assert!(effects.is_empty());
    assert!(same_effects(&m.update(key('f')).1, &[ModalEffect::FocusTerminal(3)]));
}

#[test]
fn the_focus_goes_back_to_where_it_came_from() {
    let mut m = opened("text");
    assert!(same_effects(&m.update(key('f')).1, &[ModalEffect::FocusTerminal(3)]));
    let mut gone = terminal(4, true);
    gone.exited = true;
    let mut bar = terminal(5, false);
    bar.is_selectable = false;
    let (redraw, _) =
        m.update(panes(vec![(1, vec![gone, bar, terminal(6, false), plugin(ME, false)])]));
    assert!(redraw);
    assert!(same_effects(&m.update(key('f')).1, &[ModalEffect::FocusTerminal(6)]));
    m.update(panes(vec![(1, vec![plugin(ME, false)])]));
    assert!(m.update(key('f')).1.is_empty());
}

fn coordinates(x: &str, y: &str, width: &str, height: &str) -> FloatingPaneCoordinates {
    FloatingPaneCoordinates::new(
        Some(x.to_string()),
        Some(y.to_string()),
        Some(width.to_string()),
        Some(height.to_string()),
        None,
        None,
    )
    .unwrap()
}

#[test]
fn the_box_goes_back_to_the_size_it_had() {
    let mut m = opened("text");
    let (redraw, effects) = m.update(key('m'));
    assert!(redraw);
    let corner = vec![
        ModalEffect::Place(coordinates("72%", "0%", "28%", "32%")),
        ModalEffect::Pin(true),
    ];
    assert!(same_effects(&effects, &corner));
    // In the corner the size of the pane is no longer the one to go back to.
    let mut small = plugin(ME, true);
    small.x = 57;
    small.columns = 22;
    m.update(panes(vec![(1, vec![small])]));
    let (_, effects) = m.update(key('m'));
    let restored = vec![
        ModalEffect::Pin(false),
        ModalEffect::Place(coordinates("12", "3", "60", "20")),
    ];
    assert!(same_effects(&effects, &restored));
}

#[test]
fn a_box_that_has_not_seen_its_size_goes_back_to_a_guess() {
    let mut m = Modal::new(config());
    m.update(key('m'));
    let (_, effects) = m.update(key('m'));
    let guessed = vec![
        ModalEffect::Pin(false),
        ModalEffect::Place(coordinates("10%", "10%", "80%", "70%")),
    ];
    assert!(same_effects(&effects, &guessed));
}

#[test]
fn other_keys_do_nothing() {
    let mut m = opened("text");
    for key in [Key::Char('x'), Key::Other] {
        let (redraw, effects) = m.update(ModalEvent::Key(key));
        assert!(!redraw);
        assert!(effects.is_empty());
    }
    assert!(!m.update(ModalEvent::Other).0);
}

#[test]
fn without_a_configuration_a_modal_is_inert() {
    let mut m = Modal::new(Err("tab-notes: not configured".to_string()));
    assert!(!m.update(sessions("main")).0);
    assert!(m.update(ModalEvent::Key(Key::Esc)).1.is_empty());
    let pieces = m.render(10, 40, &text_lines(&[]));
    assert_eq!(
        drawn(&pieces),
        vec![(Text::new("tab-notes: not configured").serialize(), 0, 0, 40)]
    );
}

#[test]
fn without_permissions_a_modal_is_inert() {
    let mut m = opened("text");
    assert!(m.update(ModalEvent::PermissionDenied).0);
    assert!(m.update(ModalEvent::Key(Key::Esc)).1.is_empty());
    assert_eq!(
        drawn(&m.render(10, 40, &text_lines(&["text"]))),
        vec![(Text::new(DENIED).serialize(), 0, 0, 40)]
    );
}

#[test]
fn a_note_is_drawn_between_title_and_footer() {
    let mut m = opened("a\nb\nc");
    let body = |t: &str| Text::new(t).unbold_all().serialize();
    let pieces = m.render(5, 40, &text_lines(&["a", "b", "c"]));
    assert_eq!(
        drawn(&pieces),
        vec![
            (Text::new("Note · dotfiles").color_range(2, ..).serialize(), 0, 0, 40),
            (body("a"), 0, 2, 40),
            (body("b"), 0, 3, 40),
            (Text::new(KEYS).dim_all().serialize(), 0, 4, 40),
        ]
    );
    let pieces = m.render(2, 40, &text_lines(&["a", "b", "c"]));
    assert_eq!(pieces.len(), 2);
    assert_eq!(pieces[1].y, 1);
    let pieces = m.render(0, 40, &text_lines(&["a", "b", "c"]));
    assert_eq!(pieces[1].y, 0);
}

#[test]
fn the_view_stops_at_the_end_of_the_note() {
    let mut m = opened("a\nb\nc");
    let lines = text_lines(&["a", "b", "c"]);
    let body = |t: &str| Text::new(t).unbold_all().serialize();
    m.update(key('k'));
    m.update(key('j'));
    assert_eq!(m.render(5, 9, &lines)[1].text.serialize(), body("b"));
    m.update(ModalEvent::Key(Key::PageDown));
    let first = drawn(&m.render(5, 9, &lines));
    assert_eq!(first[1], (body("b"), 0, 2, 9));
    assert_eq!(first[2], (body("c"), 0, 3, 9));
    assert_eq!(drawn(&m.render(5, 9, &lines)), first);
    m.update(ModalEvent::Key(Key::Up));
    assert_eq!(m.render(5, 9, &lines)[1].text.serialize(), body("a"));
    m.update(ModalEvent::Key(Key::Down));
    m.update(ModalEvent::Key(Key::PageUp));
    assert_eq!(m.render(5, 9, &lines)[1].text.serialize(), body("a"));
}

#[test]
fn a_note_that_is_not_there_is_said_to_be_missing() {
    let mut m = Modal::new(config());
    let pieces = m.render(9, 40, &text_lines(&[]));
    assert_eq!(pieces[0].text.serialize(), Text::new("Note").color_range(2, ..).serialize());
    assert_eq!(
        drawn(&pieces)[1],
        (Text::new("Loading…").dim_all().serialize(), 0, 2, 40)
    );
    let mut m = opened("");
    assert_eq!(
        drawn(&m.render(9, 40, &text_lines(&[])))[1],
        (
            Text::new("No note for «dotfiles» — press e to create one").dim_all().serialize(),
            0,
            2,
            40
        )
    );
}

#[test]
fn the_footer_says_what_is_going_on() {
    let mut m = opened("text");
    let lines = text_lines(&["text"]);
    let mut footer = |m: &mut Modal| m.render(9, 40, &lines).pop().unwrap().text.serialize();
    let dim = |t: &str| Text::new(t).dim_all().serialize();
    assert_eq!(footer(&mut m), dim(KEYS));
    m.update(key('e'));
    assert_eq!(footer(&mut m), dim("editing in $EDITOR…"));
    m.update(key('d'));
    assert_eq!(footer(&mut m), dim("delete this note? y/n"));
    m.update(key('y'));
    assert_eq!(footer(&mut m), dim("deleting…"));
    m.update(result(Some(1), "", context(OP_DELETE)));
    assert_eq!(footer(&mut m), dim("delete failed — see the Zellij log"));
    m.update(result(Some(0), "", context(OP_DELETE)));
    assert_eq!(footer(&mut m), dim("note deleted"));
}

#[test]
fn a_box_in_the_corner_shows_keys_only_with_focus() {
    let mut m = opened("text");
    let lines = text_lines(&["text"]);
    m.update(key('m'));
    let pieces = m.render(3, 20, &lines);
    assert_eq!(pieces.len(), 2);
    let footer = m.render(9, 20, &lines).pop().unwrap().text.serialize();
    assert_eq!(footer, Text::new("m restore · f terminal").dim_all().serialize());
    m.update(panes(vec![(1, vec![plugin(ME, false)])]));
    let pieces = m.render(3, 20, &lines);
    assert_eq!(pieces.len(), 2);
    assert_eq!(pieces[1].y, 2);
    assert_eq!(pieces[1].text.serialize(), Text::new("text").unbold_all().serialize());
}

#[test]
fn the_context_of_an_edit_names_the_tab() {
    let c = context_with_tab(OP_EDIT, "dotfiles");
    assert_eq!(op_of(&c), Some(OP_EDIT));
    assert_eq!(c.get(TAB_KEY), Some("dotfiles"));
}
