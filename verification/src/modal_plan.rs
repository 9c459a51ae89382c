//! What the modal does with each event, as functions on plain values.
//!
//! A modal shows the note of one tab. It belongs to the tab in which it was opened, and state
//! about one note never survives a change of which note is shown.
use crate::config::Settings;
use crate::finding::{first_where, lowest};
use crate::fs_ops::{
    cleanup_run, delete_run, entry, op_context, read_run, Run, NOTES_CHANGED, OP_CLEANUP, OP_DELETE,
    OP_EDIT, OP_KEY, OP_READ, TAB_KEY,
};
use crate::icon::clean_name;
use crate::paths::{key_path, note_key};
use crate::session::{current_name, Session};
use crate::text::{decimal, is_blank};
use vstd::prelude::*;
use zellij_tile::prelude::FloatingPaneCoordinates;

verus! {

/// The place of a floating pane, in the form in which the host takes it.
#[verifier::external_type_specification]
#[verifier::external_body]
pub struct ExFloatingPaneCoordinates(zellij_tile::prelude::FloatingPaneCoordinates);

/// What `FloatingPaneCoordinates::new` makes of a position and a size, with nothing said about
/// pinning and borders.
pub uninterp spec fn floating_coordinates(
    x: Seq<char>,
    y: Seq<char>,
    width: Seq<char>,
    height: Seq<char>,
) -> Option<FloatingPaneCoordinates>;

/// Where a pane is and how large it is.
#[derive(Debug, Clone, Copy, PartialEq, Eq, Structural)]
pub struct Geometry {
    pub x: usize,
    pub y: usize,
    pub width: usize,
    pub height: usize,
    /// Percentages of the screen when true, terminal cells when false.
    pub percent: bool,
}

/// Only used until the modal has seen its own geometry: from then on it restores the exact size
/// it had, because a guessed percentage is visibly not the size the host gave it.
pub open spec fn fallback_size() -> Geometry {
    Geometry { x: 10, y: 10, width: 80, height: 70, percent: true }
}

/// The corner box.
pub open spec fn corner_size() -> Geometry {
    Geometry { x: 72, y: 0, width: 28, height: 32, percent: true }
}

/// One measure of a geometry as text.
pub open spec fn extent(n: usize, percent: bool) -> Seq<char> {
    if percent {
        decimal(n as nat).push('%')
    } else {
        decimal(n as nat)
    }
}

/// The geometry in the form in which the host takes it.
pub open spec fn coordinates_of(g: Geometry) -> Option<FloatingPaneCoordinates> {
    floating_coordinates(
        extent(g.x, g.percent),
        extent(g.y, g.percent),
        extent(g.width, g.percent),
        extent(g.height, g.percent),
    )
}

/// A tab of the session: its stable id, where it is shown, and the name it is shown under.
pub struct Slot {
    pub id: usize,
    pub position: usize,
    pub name: Seq<char>,
}

/// A pane of a tab.
pub struct Pane {
    pub id: u32,
    pub is_plugin: bool,
    pub is_focused: bool,
    pub is_floating: bool,
    pub is_suppressed: bool,
    pub is_selectable: bool,
    pub exited: bool,
    pub x: usize,
    pub y: usize,
    pub columns: usize,
    pub rows: usize,
    pub plugin_url: Option<Seq<char>>,
}

/// The panes of the tab at a position.
pub struct Group {
    pub position: usize,
    pub panes: Seq<Pane>,
}

/// A key press.
#[derive(Debug, Clone, Copy, PartialEq, Eq, Structural)]
pub enum Key {
    Esc,
    Down,
    Up,
    PageDown,
    PageUp,
    Char(char),
    Other,
}

/// What the modal knows.
pub struct State {
    pub config: Result<Settings, Seq<char>>,
    pub session: Option<Seq<char>>,
    pub tab_id: Option<usize>,
    pub tabs: Seq<Slot>,
    pub tab: Option<Seq<char>>,
    pub content: Option<Seq<char>>,
    pub status: Option<Seq<char>>,
    pub scroll: usize,
    pub confirming_delete: bool,
    pub minimized: bool,
    pub expanded: Option<Geometry>,
    pub focused: bool,
    pub tab_position: Option<usize>,
    pub terminal_pane: Option<u32>,
    pub closing_duplicate: bool,
}

/// What the modal asks of the host.
pub enum Request {
    Run(Run),
    OpenEditor { path: Seq<char>, context: Map<Seq<char>, Seq<char>> },
    FocusPlugin(u32),
    FocusTerminal(u32),
    Close,
    /// A message to every plugin of the session.
    Pipe(Seq<char>),
    Place(FloatingPaneCoordinates),
    Pin(bool),
}

/// What comes of an event.
pub struct Outcome {
    pub state: State,
    pub redraw: bool,
    pub requests: Seq<Request>,
}

/// Nothing comes of it.
pub open spec fn ignored(s: State) -> Outcome {
    Outcome { state: s, redraw: false, requests: Seq::empty() }
}

/// The state of a modal that has been told nothing yet.
pub open spec fn new_state(config: Result<Settings, Seq<char>>) -> State {
    State {
        config,
        session: None,
        tab_id: None,
        tabs: Seq::empty(),
        tab: None,
        content: None,
        status: None,
        scroll: 0,
        confirming_delete: false,
        minimized: false,
        expanded: None,
        focused: false,
        tab_position: None,
        terminal_pane: None,
        closing_duplicate: false,
    }
}

/// The file of the note that is shown.
pub open spec fn note_file(s: State) -> Option<Seq<char>> {
    match (s.config, s.session, s.tab) {
        (Ok(config), Some(session), Some(tab)) => Some(
            key_path(config.notes_dir, session, note_key(tab)),
        ),
        _ => None,
    }
}

/// The request to read the note that is shown.
pub open spec fn reading(s: State) -> Seq<Request> {
    match note_file(s) {
        Some(path) => seq![Request::Run(read_run(path))],
        None => Seq::empty(),
    }
}

/// Whether there is a note to show.
pub open spec fn has_note(s: State) -> bool {
    s.content matches Some(c) && !is_blank(c)
}

/// The state without anything that is about one note. `content` included: while the new read is
/// on its way it would otherwise answer for the previous note while deleting already aims at the
/// new one.
pub open spec fn without_note(s: State) -> State {
    State { confirming_delete: false, status: None, content: None, ..s }
}

/// The host says which sessions there are.
pub open spec fn on_sessions(s: State, sessions: Seq<Session>) -> Outcome {
    match current_name(sessions) {
        None => ignored(s),
        Some(name) => if s.session == Some(name) {
            Outcome { state: s, redraw: true, requests: Seq::empty() }
        } else {
            let next = without_note(State { session: Some(name), ..s });
            Outcome { state: next, redraw: true, requests: reading(next) }
        },
    }
}

/// The tab that the modal belongs to, or that it is going to belong to.
pub open spec fn owned_slot(s: State) -> Option<Slot> {
    match s.tab_id {
        Some(id) => first_where(s.tabs, |t: Slot| t.id == id),
        None => match s.tab_position {
            Some(position) => first_where(s.tabs, |t: Slot| t.position == position),
            None => None,
        },
    }
}

/// The modal follows its own tab.
pub open spec fn sync_owned_tab(s: State, icon: Seq<char>) -> Outcome {
    match owned_slot(s) {
        None => ignored(s),
        Some(slot) => {
            let clean = clean_name(slot.name, icon);
            let bound = State { tab_id: Some(slot.id), tab_position: Some(slot.position), ..s };
            if s.tab == Some(clean) {
                ignored(bound)
            } else {
                let next = without_note(State { tab: Some(clean), scroll: 0, ..bound });
                Outcome { state: next, redraw: true, requests: reading(next) }
            }
        },
    }
}

/// A command has finished.
pub open spec fn on_result(
    s: State,
    exit_code: Option<i32>,
    output: Seq<char>,
    context: Map<Seq<char>, Seq<char>>,
) -> Outcome {
    let op = entry(context, OP_KEY@);
    if op == Some(OP_READ@) {
        let content = if exit_code == Some(0i32) {
            Some(output)
        } else {
            None
        };
        Outcome { state: State { content, ..s }, redraw: true, requests: Seq::empty() }
    } else if op == Some(OP_DELETE@) {
        // The watcher is only told that the note is gone once it really is.
        if exit_code == Some(0i32) {
            Outcome {
                state: State { content: None, status: Some("note deleted"@), ..s },
                redraw: true,
                requests: seq![Request::Pipe(NOTES_CHANGED@)],
            }
        } else {
            Outcome {
                state: State { status: Some("delete failed — see the Zellij log"@), ..s },
                redraw: true,
                requests: Seq::empty(),
            }
        }
    } else if op == Some(OP_CLEANUP@) {
        // The clean-up after an edit is done: show what was just written.
        Outcome {
            state: s,
            redraw: true,
            requests: reading(s).push(Request::Pipe(NOTES_CHANGED@)),
        }
    } else {
        ignored(s)
    }
}

/// An editor was closed.
pub open spec fn on_editor_closed(s: State, context: Map<Seq<char>, Seq<char>>) -> Outcome {
    match note_file(s) {
        Some(path) if entry(context, OP_KEY@) == Some(OP_EDIT@) => Outcome {
            // An aborted edit leaves a zero-byte file behind; it must never count as a note.
            state: State { status: None, ..s },
            redraw: true,
            requests: seq![Request::Run(cleanup_run(path))],
        },
        _ => ignored(s),
    }
}

/// The pane that a modal with this plugin id is.
pub open spec fn is_own(pane: Pane, me: u32) -> bool {
    pane.is_plugin && pane.id == me
}

/// The group in which the modal's own pane is.
pub open spec fn own_group(groups: Seq<Group>, me: u32) -> Option<Group> {
    first_where(groups, |g: Group| first_where(g.panes, |p: Pane| is_own(p, me)) is Some)
}

/// An older instance of the same plugin, open in the same tab.
pub open spec fn is_older_modal(pane: Pane, me: u32, url: Seq<char>) -> bool {
    &&& pane.is_plugin
    &&& pane.is_floating
    &&& !pane.is_suppressed
    &&& pane.id < me
    &&& pane.plugin_url == Some(url)
}

/// The ids of the older instances.
pub open spec fn older_modals(panes: Seq<Pane>, me: u32, url: Seq<char>) -> Seq<u32>
    decreases panes.len(),
{
    if panes.len() == 0 {
        Seq::empty()
    } else {
        let front = older_modals(panes.drop_last(), me, url);
        if is_older_modal(panes.last(), me, url) {
            front.push(panes.last().id)
        } else {
            front
        }
    }
}

/// The panes of the tab at a position.
pub open spec fn panes_at(groups: Seq<Group>, position: usize) -> Option<Group> {
    first_where(groups, |g: Group| g.position == position)
}

/// The instance that already serves the tab: the oldest one.
pub open spec fn incumbent(groups: Seq<Group>, position: usize, me: u32, pane: Pane) -> Option<u32> {
    match pane.plugin_url {
        Some(url) => match panes_at(groups, position) {
            Some(group) => lowest(older_modals(group.panes, me, url)),
            None => None,
        },
        None => None,
    }
}

/// A pane that can take the focus back.
pub open spec fn is_usable(pane: Pane) -> bool {
    !pane.is_plugin && !pane.is_floating && pane.is_selectable && !pane.exited
}

/// The pane to hand the focus back to: the tiled pane that is still flagged as focused is the
/// one the user came from; else the first that can take it.
pub open spec fn pane_to_return_to(panes: Seq<Pane>) -> Option<u32> {
    match first_where(panes, |p: Pane| is_usable(p) && p.is_focused) {
        Some(p) => Some(p.id),
        None => match first_where(panes, |p: Pane| is_usable(p)) {
            Some(p) => Some(p.id),
            None => None,
        },
    }
}

/// What the modal notes about the panes once it is clear that it stays.
pub open spec fn note_panes(s: State, groups: Seq<Group>, pane: Pane) -> State {
    let expanded = if s.minimized {
        s.expanded
    } else {
        Some(
            Geometry {
                x: pane.x,
                y: pane.y,
                width: pane.columns,
                height: pane.rows,
                percent: false,
            },
        )
    };
    let terminal_pane = match s.tab_position {
        Some(position) => match panes_at(groups, position) {
            Some(group) => pane_to_return_to(group.panes),
            None => s.terminal_pane,
        },
        None => s.terminal_pane,
    };
    State { expanded, terminal_pane, focused: pane.is_focused, ..s }
}

/// The host says which panes there are.
pub open spec fn on_panes(s: State, icon: Seq<char>, me: u32, groups: Seq<Group>) -> Outcome {
    match own_group(groups, me) {
        None => ignored(s),
        Some(group) => {
            let pane = first_where(group.panes, |p: Pane| is_own(p, me))->0;
            match incumbent(groups, group.position, me, pane) {
                Some(id) => Outcome {
                    state: State { closing_duplicate: true, ..s },
                    redraw: false,
                    requests: seq![Request::FocusPlugin(id), Request::Close],
                },
                None => {
                    // Where this instance was created is only used to discover the stable id of
                    // its tab: switching or reordering tabs later cannot change the owner.
                    let bound = if s.tab_id is None {
                        sync_owned_tab(State { tab_position: Some(group.position), ..s }, icon)
                    } else {
                        ignored(s)
                    };
                    Outcome {
                        state: note_panes(bound.state, groups, pane),
                        redraw: s.focused != pane.is_focused,
                        requests: bound.requests,
                    }
                },
            }
        },
    }
}

/// The requests that put the modal's own pane into place.
pub open spec fn placing(g: Geometry) -> Seq<Request> {
    match coordinates_of(g) {
        Some(c) => seq![Request::Place(c)],
        None => Seq::empty(),
    }
}

/// The size to go back to.
pub open spec fn full_size(s: State) -> Geometry {
    match s.expanded {
        Some(g) => g,
        None => fallback_size(),
    }
}

/// The box is put into the corner, or back to its full size.
pub open spec fn toggle_minimized(s: State) -> Outcome {
    Outcome {
        state: State { minimized: !s.minimized, ..s },
        redraw: true,
        requests: if s.minimized {
            // Unpin first: a pinned pane may well ignore a change of coordinates.
            seq![Request::Pin(false)] + placing(full_size(s))
        } else {
            placing(corner_size()).push(Request::Pin(true))
        },
    }
}

/// The note is opened in an editor.
pub open spec fn open_editor(s: State) -> Outcome {
    match note_file(s) {
        Some(path) => Outcome {
            state: State { status: Some("editing in $EDITOR…"@), ..s },
            redraw: true,
            requests: seq![
                Request::OpenEditor {
                    path,
                    context: op_context(OP_EDIT@).insert(TAB_KEY@, s.tab->0),
                },
            ],
        },
        None => Outcome { state: s, redraw: true, requests: Seq::empty() },
    }
}

/// The note is deleted.
pub open spec fn delete_note(s: State) -> Outcome {
    match note_file(s) {
        Some(path) => Outcome {
            state: State { status: Some("deleting…"@), ..s },
            redraw: true,
            requests: seq![Request::Run(delete_run(path))],
        },
        None => Outcome { state: s, redraw: true, requests: Seq::empty() },
    }
}

/// The view moves by some lines.
pub open spec fn scrolled(s: State, by: int) -> Outcome {
    let to = s.scroll + by;
    let scroll = if to < 0 {
        0
    } else if to > usize::MAX {
        usize::MAX as int
    } else {
        to
    };
    Outcome { state: State { scroll: scroll as usize, ..s }, redraw: true, requests: Seq::empty() }
}

/// A key was pressed.
pub open spec fn on_key(s: State, key: Key) -> Outcome {
    match key {
        Key::Esc | Key::Char('q') => Outcome {
            state: s,
            redraw: false,
            requests: seq![Request::Close],
        },
        Key::Char('j') | Key::Down => scrolled(s, 1),
        Key::Char('k') | Key::Up => scrolled(s, -1),
        Key::PageDown => scrolled(s, 10),
        Key::PageUp => scrolled(s, -10),
        Key::Char('e') => if s.tab is Some {
            open_editor(s)
        } else {
            ignored(s)
        },
        Key::Char('m') => toggle_minimized(s),
        Key::Char('f') => Outcome {
            state: s,
            redraw: false,
            requests: match s.terminal_pane {
                Some(id) => seq![Request::FocusTerminal(id)],
                None => Seq::empty(),
            },
        },
        Key::Char('d') => if has_note(s) && !s.confirming_delete {
            Outcome {
                state: State { confirming_delete: true, ..s },
                redraw: true,
                requests: Seq::empty(),
            }
        } else {
            ignored(s)
        },
        Key::Char('y') => if s.confirming_delete {
            delete_note(State { confirming_delete: false, ..s })
        } else {
            ignored(s)
        },
        Key::Char('n') => if s.confirming_delete {
            Outcome {
                state: State { confirming_delete: false, ..s },
                redraw: true,
                requests: Seq::empty(),
            }
        } else {
            ignored(s)
        },
        _ => ignored(s),
    }
}

/// What the host tells the modal.
pub enum Event {
    Sessions(Seq<Session>),
    Tabs(Seq<Slot>),
    Result { exit_code: Option<i32>, output: Seq<char>, context: Map<Seq<char>, Seq<char>> },
    EditorClosed(Map<Seq<char>, Seq<char>>),
    Panes { me: u32, groups: Seq<Group> },
    Key(Key),
    PermissionDenied,
    Other,
}

pub const DENIED: &'static str =
    "tab-notes: permissions denied — close this pane, reload the plugin and accept the request";

/// One event.
pub open spec fn step(s: State, event: Event) -> Outcome {
    if s.closing_duplicate {
        ignored(s)
    } else {
        match s.config {
            Err(_) => ignored(s),
            Ok(config) => match event {
                Event::Sessions(sessions) => on_sessions(s, sessions),
                Event::Tabs(tabs) => sync_owned_tab(State { tabs, ..s }, config.icon),
                Event::Result { exit_code, output, context } => on_result(
                    s,
                    exit_code,
                    output,
                    context,
                ),
                Event::EditorClosed(context) => on_editor_closed(s, context),
                Event::Panes { me, groups } => on_panes(s, config.icon, me, groups),
                Event::Key(key) => on_key(s, key),
                Event::PermissionDenied => Outcome {
                    state: State { config: Err(DENIED@), ..s },
                    redraw: true,
                    requests: Seq::empty(),
                },
                Event::Other => ignored(s),
            },
        }
    }
}

} // verus!
