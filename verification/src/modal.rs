//! The modal: shows the note of the tab in which it was opened.
use crate::config::{settings_of, Config};
use crate::finding::{first_where, lemma_first_where, lowest};
use crate::fs_ops::{
    context_with_tab, delete_if_empty, delete_note, is_op, op_of, read_note, text_of, Command,
    Context, NOTES_CHANGED, OP_CLEANUP, OP_DELETE, OP_EDIT, OP_READ,
};
use crate::icon::strip_icon;
use crate::markdown::RenderedLine;
use crate::modal_plan::{
    coordinates_of, corner_size, extent, floating_coordinates, has_note, incumbent, is_own,
    is_usable, new_state, note_file, older_modals, on_editor_closed, on_key, on_panes, on_result,
    on_sessions, own_group, owned_slot, pane_to_return_to, panes_at, placing, reading, step,
    sync_owned_tab, toggle_minimized, without_note, Event, Geometry, Group, Key, Outcome, Pane,
    Request, Slot, State, DENIED,
};
use crate::paths::note_path;
use crate::screen::{
    absent, body_pieces, drawn_state, footer, footer_pieces, line_at, lines_in_view, note_pieces,
    pieces_of, screen, title, Drawn,
};
use crate::session::{current_session, sessions_of, SessionView};
use crate::style::{all_at, colored_text, dim_text, plain, plain_text, style};
use crate::text::{
    copy_of, decimal_text, is_blank_text, is_text, joined, lossy_text, optional, utf8_lossy,
};
use crate::viewport::clamp_scroll;
use vstd::prelude::*;
use zellij_tile::prelude::FloatingPaneCoordinates;

verus! {

/// A tab of the session.
#[derive(Debug)]
pub struct TabSlot {
    pub id: usize,
    pub position: usize,
    pub name: String,
}

impl View for TabSlot {
    type V = Slot;

    open spec fn view(&self) -> Slot {
        Slot { id: self.id, position: self.position, name: self.name@ }
    }
}

/// A pane of a tab.
#[derive(Debug)]
pub struct PaneView {
    pub id: u32,
    pub is_plugin: bool,
    pub is_focused: bool,
    pub is_floating: bool,
    pub is_suppressed: bool,
    pub is_selectable: bool,
    pub exited: bool,
    pub x: usize,
    pub y: usize,
    pub columns: usize,
    pub rows: usize,
    pub plugin_url: Option<String>,
}

impl View for PaneView {
    type V = Pane;

    open spec fn view(&self) -> Pane {
        Pane {
            id: self.id,
            is_plugin: self.is_plugin,
            is_focused: self.is_focused,
            is_floating: self.is_floating,
            is_suppressed: self.is_suppressed,
            is_selectable: self.is_selectable,
            exited: self.exited,
            x: self.x,
            y: self.y,
            columns: self.columns,
            rows: self.rows,
            plugin_url: optional(self.plugin_url),
        }
    }
}

/// The panes of the tab at a position.
#[derive(Debug)]
pub struct TabPanes {
    pub position: usize,
    pub panes: Vec<PaneView>,
}

/// The panes, as plain values.
pub open spec fn panes_of(panes: Seq<PaneView>) -> Seq<Pane> {
    panes.map_values(|p: PaneView| p@)
}

impl View for TabPanes {
    type V = Group;

    open spec fn view(&self) -> Group {
        Group { position: self.position, panes: panes_of(self.panes@) }
    }
}

/// The tabs, as plain values.
pub open spec fn slots_of(tabs: Seq<TabSlot>) -> Seq<Slot> {
    tabs.map_values(|t: TabSlot| t@)
}

/// The groups of panes, as plain values.
pub open spec fn groups_of(groups: Seq<TabPanes>) -> Seq<Group> {
    groups.map_values(|g: TabPanes| g@)
}

/// What the host tells the modal.
#[derive(Debug)]
pub enum ModalEvent {
    Sessions(Vec<SessionView>),
    Tabs(Vec<TabSlot>),
    CommandResult { exit_code: Option<i32>, stdout: Vec<u8>, context: Context },
    EditorClosed(Context),
    /// `me` is the plugin id of this instance.
    Panes { me: u32, groups: Vec<TabPanes> },
    Key(Key),
    PermissionDenied,
    Other,
}

impl View for ModalEvent {
    type V = Event;

    open spec fn view(&self) -> Event {
        match self {
            ModalEvent::Sessions(sessions) => Event::Sessions(sessions_of(sessions@)),
            ModalEvent::Tabs(tabs) => Event::Tabs(slots_of(tabs@)),
            ModalEvent::CommandResult { exit_code, stdout, context } => Event::Result {
                exit_code: *exit_code,
                output: utf8_lossy(stdout@),
                context: context@,
            },
            ModalEvent::EditorClosed(context) => Event::EditorClosed(context@),
            ModalEvent::Panes { me, groups } => Event::Panes {
                me: *me,
                groups: groups_of(groups@),
            },
            ModalEvent::Key(key) => Event::Key(*key),
            ModalEvent::PermissionDenied => Event::PermissionDenied,
            ModalEvent::Other => Event::Other,
        }
    }
}

/// What the modal asks of the host.
#[derive(Debug)]
pub enum ModalEffect {
    Run(Command),
    OpenEditor { path: String, context: Context },
    FocusPlugin(u32),
    FocusTerminal(u32),
    Close,
    /// A message to every plugin of the session, which is how the watcher is reached: its plugin
    /// id cannot be discovered. Other plugins ignore a message they do not know.
    Pipe(String),
    /// Put the modal's own pane into this place.
    Place(FloatingPaneCoordinates),
    /// Pin or unpin the modal's own pane.
    Pin(bool),
}

impl View for ModalEffect {
    type V = Request;

    open spec fn view(&self) -> Request {
        match self {
            ModalEffect::Run(command) => Request::Run(command@),
            ModalEffect::OpenEditor { path, context } => Request::OpenEditor {
                path: path@,
                context: context@,
            },
            ModalEffect::FocusPlugin(id) => Request::FocusPlugin(*id),
            ModalEffect::FocusTerminal(id) => Request::FocusTerminal(*id),
            ModalEffect::Close => Request::Close,
            ModalEffect::Pipe(name) => Request::Pipe(name@),
            ModalEffect::Place(c) => Request::Place(*c),
            ModalEffect::Pin(pinned) => Request::Pin(*pinned),
        }
    }
}

/// The requests, as plain values.
pub open spec fn requests_of(effects: Seq<ModalEffect>) -> Seq<Request> {
    effects.map_values(|e: ModalEffect| e@)
}

/// The modal: shows the note of the tab in which it was opened.
pub struct Modal {
    config: Result<Config, String>,
    session: Option<String>,
    /// Stable ownership discovered from where this pane was created. Once assigned, a modal must
    /// never follow whichever other tab becomes active.
    tab_id: Option<usize>,
    tabs: Vec<TabSlot>,
    tab: Option<String>,
    content: Option<String>,
    status: Option<String>,
    scroll: usize,
    confirming_delete: bool,
    minimized: bool,
    /// The geometry to go back to, as last seen while expanded.
    expanded: Option<Geometry>,
    focused: bool,
    /// The tiled pane to hand focus back to, and the tab it lives in.
    tab_position: Option<usize>,
    terminal_pane: Option<u32>,
    /// A second instance in this tab focuses the incumbent and closes itself. Further events are
    /// ignored once that hand-off has started.
    closing_duplicate: bool,
}

impl View for Modal {
    type V = State;

    closed spec fn view(&self) -> State {
        State {
            config: settings_of(self.config),
            session: optional(self.session),
            tab_id: self.tab_id,
            tabs: slots_of(self.tabs@),
            tab: optional(self.tab),
            content: optional(self.content),
            status: optional(self.status),
            scroll: self.scroll,
            confirming_delete: self.confirming_delete,
            minimized: self.minimized,
            expanded: self.expanded,
            focused: self.focused,
            tab_position: self.tab_position,
            terminal_pane: self.terminal_pane,
            closing_duplicate: self.closing_duplicate,
        }
    }
}

impl Modal {
    /// A geometry that was seen is in cells.
    #[verifier::type_invariant]
    spec fn seen_in_cells(self) -> bool {
        self.expanded matches Some(g) ==> !g.percent
    }

    /// A modal that has been told nothing yet.
    pub fn new(config: Result<Config, String>) -> (m: Modal)
        ensures
            m@ == new_state(settings_of(config)),
    {
        let m = Modal {
            config,
            session: None,
            tab_id: None,
            tabs: Vec::new(),
            tab: None,
            content: None,
            status: None,
            scroll: 0,
            confirming_delete: false,
            minimized: false,
            expanded: None,
            focused: false,
            tab_position: None,
            terminal_pane: None,
            closing_duplicate: false,
        };
        assert(m@.tabs =~= Seq::<Slot>::empty());
        m
    }

    /// The file of the note that is shown.
    fn note_file(&self) -> (path: Option<String>)
        ensures
            optional(path) == note_file(self@),
    {
        match (&self.config, &self.session, &self.tab) {
            (Ok(config), Some(session), Some(tab)) => Some(
                note_path(config.notes_dir.as_str(), session.as_str(), tab.as_str()),
            ),
            _ => None,
        }
    }

    /// Asks for the note that is shown.
    fn read_note(&self, effects: &mut Vec<ModalEffect>)
        ensures
            requests_of(final(effects)@) == requests_of(old(effects)@) + reading(self@),
    {
        let ghost before = effects@;
        match self.note_file() {
            Some(path) => {
                effects.push(ModalEffect::Run(read_note(path.as_str())));
            },
            None => {},
        }
        assert(requests_of(effects@) =~= requests_of(before) + reading(self@));
    }

    /// Whether there is a note to show.
    pub fn has_note(&self) -> (r: bool)
        ensures
            r == has_note(self@),
    {
        match &self.content {
            Some(content) => !is_blank_text(content.as_str()),
            None => false,
        }
    }

    /// The text of the note, as it was last read.
    pub fn content(&self) -> (text: Option<&str>)
        ensures
            text_of(text) == self@.content,
    {
        match &self.content {
            Some(content) => Some(content.as_str()),
            None => None,
        }
    }

    /// Drops everything that is about one note.
    fn forget_note(&mut self)
        ensures
            final(self)@ == without_note(old(self)@),
    {
        proof {
            use_type_invariant(&*self);
        }
        self.confirming_delete = false;
        self.status = None;
        self.content = None;
    }

    fn sessions(&mut self, sessions: &Vec<SessionView>) -> (r: (bool, Vec<ModalEffect>))
        ensures
            outcome_is(*final(self), r, on_sessions(old(self)@, sessions_of(sessions@))),
    {
        proof {
            use_type_invariant(&*self);
        }
        let mut effects: Vec<ModalEffect> = Vec::new();
        assert(requests_of(effects@) =~= Seq::<Request>::empty());
        let name = match current_session(sessions) {
            Some(name) => name,
            None => {
                return (false, effects);
            },
        };
        if !is_text(&self.session, name) {
            self.session = Some(copy_of(name));
            self.forget_note();
            self.read_note(&mut effects);
        }
        (true, effects)
    }

    /// The tab that the modal belongs to, as a position in the list.
    fn owned(&self) -> (p: Option<usize>)
        ensures
            match p {
                Some(i) => i < self.tabs@.len() && owned_slot(self@) == Some(self.tabs@[i as int]@),
                None => owned_slot(self@) is None,
            },
    {
        let ghost all = slots_of(self.tabs@);
        match self.tab_id {
            Some(id) => {
                let ghost f = |t: Slot| t.id == id;
                let mut i: usize = 0;
                while i < self.tabs.len() && self.tabs[i].id != id
                    invariant
                        i <= self.tabs@.len(),
                        all == slots_of(self.tabs@),
                        f == (|t: Slot| t.id == id),
                        forall|j: int| 0 <= j < i ==> !f(#[trigger] all[j]),
                    ensures
                        i < self.tabs@.len() ==> self.tabs@[i as int].id == id,
                    decreases self.tabs@.len() - i,
                {
                    i += 1;
                }
                proof {
                    lemma_first_where(all, f, i as int);
                }
                if i < self.tabs.len() {
                    Some(i)
                } else {
                    None
                }
            },
            None => match self.tab_position {
                Some(position) => {
                    let ghost f = |t: Slot| t.position == position;
                    let mut i: usize = 0;
                    while i < self.tabs.len() && self.tabs[i].position != position
                        invariant
                            i <= self.tabs@.len(),
                            all == slots_of(self.tabs@),
                            f == (|t: Slot| t.position == position),
                            forall|j: int| 0 <= j < i ==> !f(#[trigger] all[j]),
                        ensures
                            i < self.tabs@.len() ==> self.tabs@[i as int].position == position,
                        decreases self.tabs@.len() - i,
                    {
                        i += 1;
                    }
                    proof {
                        lemma_first_where(all, f, i as int);
                    }
                    if i < self.tabs.len() {
                        Some(i)
                    } else {
                        None
                    }
                },
                None => None,
            },
        }
    }

    /// The modal follows its own tab.
    fn sync_owned_tab(&mut self, icon: &str) -> (r: (bool, Vec<ModalEffect>))
        ensures
            outcome_is(*final(self), r, sync_owned_tab(old(self)@, icon@)),
    {
        proof {
            use_type_invariant(&*self);
        }
        let mut effects: Vec<ModalEffect> = Vec::new();
        assert(requests_of(effects@) =~= Seq::<Request>::empty());
        let i: usize = match self.owned() {
            Some(i) => i,
            None => {
                return (false, effects);
            },
        };
        let tab_id: usize = self.tabs[i].id;
        let tab_position: usize = self.tabs[i].position;
        let clean = copy_of(strip_icon(self.tabs[i].name.as_str(), icon));
        self.tab_id = Some(tab_id);
        self.tab_position = Some(tab_position);
        if is_text(&self.tab, clean.as_str()) {
            return (false, effects);
        }
        self.tab = Some(clean);
        self.scroll = 0;
        self.forget_note();
        self.read_note(&mut effects);
        (true, effects)
    }

    /// A command has finished, and `output` is what it wrote.
    pub fn command_result(
        &mut self,
        exit_code: Option<i32>,
        output: String,
        context: &Context,
    ) -> (r: (bool, Vec<ModalEffect>))
        ensures
            outcome_is(
                *final(self),
                r,
                on_result(old(self)@, exit_code, output@, context@),
            ),
    {
        proof {
            use_type_invariant(&*self);
        }
        let mut effects: Vec<ModalEffect> = Vec::new();
        assert(requests_of(effects@) =~= Seq::<Request>::empty());
        let op = op_of(context);
        let done: bool = match exit_code {
            Some(code) => code == 0,
            None => false,
        };
        if is_op(&op, OP_READ) {
            self.content = if done {
                Some(output)
            } else {
                None
            };
            (true, effects)
        } else if is_op(&op, OP_DELETE) {
            if done {
                self.content = None;
                self.status = Some(copy_of("note deleted"));
                effects.push(ModalEffect::Pipe(copy_of(NOTES_CHANGED)));
                assert(requests_of(effects@) =~= seq![Request::Pipe(NOTES_CHANGED@)]);
            } else {
                self.status = Some(copy_of("delete failed — see the Zellij log"));
            }
            (true, effects)
        } else if is_op(&op, OP_CLEANUP) {
            self.read_note(&mut effects);
            let ghost before = requests_of(effects@);
            effects.push(ModalEffect::Pipe(copy_of(NOTES_CHANGED)));
            assert(requests_of(effects@) =~= before.push(Request::Pipe(NOTES_CHANGED@)));
            assert(before =~= reading(self@));
            (true, effects)
        } else {
            (false, effects)
        }
    }

    /// An editor was closed.
    fn editor_closed(&mut self, context: &Context) -> (r: (bool, Vec<ModalEffect>))
        ensures
            outcome_is(*final(self), r, on_editor_closed(old(self)@, context@)),
    {
        proof {
            use_type_invariant(&*self);
        }
        let mut effects: Vec<ModalEffect> = Vec::new();
        assert(requests_of(effects@) =~= Seq::<Request>::empty());
        if !is_op(&op_of(context), OP_EDIT) {
            return (false, effects);
        }
        match self.note_file() {
            Some(path) => {
                effects.push(ModalEffect::Run(delete_if_empty(path.as_str())));
                assert(requests_of(effects@) =~= seq![
                    Request::Run(crate::fs_ops::cleanup_run(path@)),
                ]);
                self.status = None;
                (true, effects)
            },
            None => (false, effects),
        }
    }

    /// The host says which panes there are.
    fn panes(&mut self, icon: &str, me: u32, groups: &Vec<TabPanes>) -> (r: (
        bool,
        Vec<ModalEffect>,
    ))
        ensures
            outcome_is(*final(self), r, on_panes(old(self)@, icon@, me, groups_of(groups@))),
    {
        proof {
            use_type_invariant(&*self);
        }
        let mut effects: Vec<ModalEffect> = Vec::new();
        assert(requests_of(effects@) =~= Seq::<Request>::empty());
        let g: usize = match own_group_index(groups, me) {
            Some(g) => g,
            None => {
                return (false, effects);
            },
        };
        let p: usize = match own_pane_index(&groups[g].panes, me) {
            Some(p) => p,
            None => {
                return (false, effects);
            },
        };
        let position: usize = groups[g].position;
        let pane = &groups[g].panes[p];
        if let Some(id) = incumbent_of(groups, position, me, pane) {
            self.closing_duplicate = true;
            effects.push(ModalEffect::FocusPlugin(id));
            effects.push(ModalEffect::Close);
            assert(requests_of(effects@) =~= seq![Request::FocusPlugin(id), Request::Close]);
            return (false, effects);
        }
        let was_focused: bool = self.focused;
        if self.tab_id.is_none() {
            self.tab_position = Some(position);
            let (_, mut asked) = self.sync_owned_tab(icon);
            effects.append(&mut asked);
        }
        if !self.minimized {
            self.expanded = Some(
                Geometry {
                    x: pane.x,
                    y: pane.y,
                    width: pane.columns,
                    height: pane.rows,
                    percent: false,
                },
            );
        }
        if let Some(at) = self.tab_position {
            if let Some(k) = group_index(groups, at) {
                self.terminal_pane = return_pane(&groups[k].panes);
            }
        }
        self.focused = pane.is_focused;
        (was_focused != pane.is_focused, effects)
    }

    /// Puts the modal's own pane into place.
    fn apply_geometry(&self, geometry: Geometry, effects: &mut Vec<ModalEffect>)
        ensures
            requests_of(final(effects)@) == requests_of(old(effects)@) + placing(geometry),
            !geometry.percent || geometry.x <= 100 ==> coordinates_of(geometry) is Some,
    {
        let ghost before = requests_of(effects@);
        let percent: bool = geometry.percent;
        let coordinates = pane_coordinates(
            extent_text(geometry.x, percent),
            extent_text(geometry.y, percent),
            extent_text(geometry.width, percent),
            extent_text(geometry.height, percent),
        );
        if let Some(c) = coordinates {
            effects.push(ModalEffect::Place(c));
        }
        assert(requests_of(effects@) =~= before + placing(geometry));
        assert(!geometry.percent || geometry.x <= 100 ==> is_placeable(
            extent(geometry.x, percent),
        ));
    }

    /// Toggles a pinned corner box that stays readable while the user works elsewhere.
    fn toggle_minimized(&mut self) -> (r: (bool, Vec<ModalEffect>))
        ensures
            outcome_is(*final(self), r, toggle_minimized(old(self)@)),
            r.1@.len() == 2,
    {
        proof {
            use_type_invariant(&*self);
        }
        let mut effects: Vec<ModalEffect> = Vec::new();
        assert(requests_of(effects@) =~= Seq::<Request>::empty());
        self.minimized = !self.minimized;
        if self.minimized {
            self.apply_geometry(
                Geometry { x: 72, y: 0, width: 28, height: 32, percent: true },
                &mut effects,
            );
            let ghost before = requests_of(effects@);
            effects.push(ModalEffect::Pin(true));
            assert(requests_of(effects@) =~= before.push(Request::Pin(true)));
            assert(before =~= placing(corner_size()));
        } else {
            effects.push(ModalEffect::Pin(false));
            assert(requests_of(effects@) =~= seq![Request::Pin(false)]);
            let size = match self.expanded {
                Some(g) => g,
                None => Geometry { x: 10, y: 10, width: 80, height: 70, percent: true },
            };
            self.apply_geometry(size, &mut effects);
        }
        assert(effects@.len() == requests_of(effects@).len());
        (true, effects)
    }

    /// Opens the note in an editor. The modal stays alive behind it, because only the plugin that
    /// opened a file learns that its editor was closed.
    fn open_editor(&mut self) -> (r: (bool, Vec<ModalEffect>))
        ensures
            outcome_is(*final(self), r, crate::modal_plan::open_editor(old(self)@)),
    {
        proof {
            use_type_invariant(&*self);
        }
        let mut effects: Vec<ModalEffect> = Vec::new();
        assert(requests_of(effects@) =~= Seq::<Request>::empty());
        if let (Some(path), Some(tab)) = (self.note_file(), &self.tab) {
            let context = context_with_tab(OP_EDIT, tab.as_str());
            effects.push(ModalEffect::OpenEditor { path, context });
            assert(requests_of(effects@) =~= seq![
                Request::OpenEditor { path: path@, context: context@ },
            ]);
            self.status = Some(copy_of("editing in $EDITOR…"));
        }
        (true, effects)
    }

    /// Deletes the note that is shown. What comes of it is told once the command has finished.
    fn delete_note(&mut self) -> (r: (bool, Vec<ModalEffect>))
        ensures
            outcome_is(*final(self), r, crate::modal_plan::delete_note(old(self)@)),
    {
        proof {
            use_type_invariant(&*self);
        }
        let mut effects: Vec<ModalEffect> = Vec::new();
        assert(requests_of(effects@) =~= Seq::<Request>::empty());
        if let Some(path) = self.note_file() {
            effects.push(ModalEffect::Run(delete_note(path.as_str())));
            assert(requests_of(effects@) =~= seq![
                Request::Run(crate::fs_ops::delete_run(path@)),
            ]);
            self.status = Some(copy_of("deleting…"));
        }
        (true, effects)
    }

    /// Moves the view.
    fn scroll_to(&mut self, scroll: usize) -> (r: (bool, Vec<ModalEffect>))
        ensures
            outcome_is(
                *final(self),
                r,
                Outcome {
                    state: State { scroll, ..old(self)@ },
                    redraw: true,
                    requests: Seq::empty(),
                },
            ),
    {
        proof {
            use_type_invariant(&*self);
        }
        self.scroll = scroll;
        let effects: Vec<ModalEffect> = Vec::new();
        assert(requests_of(effects@) =~= Seq::<Request>::empty());
        (true, effects)
    }

    /// A key was pressed.
    fn on_key(&mut self, key: Key) -> (r: (bool, Vec<ModalEffect>))
        ensures
            outcome_is(*final(self), r, on_key(old(self)@, key)),
            key == Key::Char('m') ==> r.1@.len() == 2,
    {
        proof {
            use_type_invariant(&*self);
        }
        let mut effects: Vec<ModalEffect> = Vec::new();
        assert(requests_of(effects@) =~= Seq::<Request>::empty());
        match key {
            Key::Esc | Key::Char('q') => {
                effects.push(ModalEffect::Close);
                assert(requests_of(effects@) =~= seq![Request::Close]);
                (false, effects)
            },
            Key::Char('j') | Key::Down => self.scroll_to(self.scroll.saturating_add(1)),
            Key::Char('k') | Key::Up => self.scroll_to(self.scroll.saturating_sub(1)),
            Key::PageDown => self.scroll_to(self.scroll.saturating_add(10)),
            Key::PageUp => self.scroll_to(self.scroll.saturating_sub(10)),
            Key::Char('e') => if self.tab.is_some() {
                self.open_editor()
            } else {
                (false, effects)
            },
            Key::Char('m') => self.toggle_minimized(),
            Key::Char('f') => {
                if let Some(id) = self.terminal_pane {
                    effects.push(ModalEffect::FocusTerminal(id));
                    assert(requests_of(effects@) =~= seq![Request::FocusTerminal(id)]);
                }
                (false, effects)
            },
            Key::Char('d') => if self.has_note() && !self.confirming_delete {
                self.confirming_delete = true;
                (true, effects)
            } else {
                (false, effects)
            },
            Key::Char('y') => if self.confirming_delete {
                self.confirming_delete = false;
                self.delete_note()
            } else {
                (false, effects)
            },
            Key::Char('n') => if self.confirming_delete {
                self.confirming_delete = false;
                (true, effects)
            } else {
                (false, effects)
            },
            _ => (false, effects),
        }
    }

    /// One event: whether the modal has to be drawn again, and what is asked of the host.
    pub fn update(&mut self, event: ModalEvent) -> (r: (bool, Vec<ModalEffect>))
        ensures
            outcome_is(*final(self), r, step(old(self)@, event@)),
            event@ == Event::Key(Key::Char('m')) && old(self)@.config is Ok && !old(
                self,
            )@.closing_duplicate ==> r.1@.len() == 2,
    {
        proof {
            use_type_invariant(&*self);
        }
        let effects: Vec<ModalEffect> = Vec::new();
        assert(requests_of(effects@) =~= Seq::<Request>::empty());
        if self.closing_duplicate {
            return (false, effects);
        }
        let icon = match &self.config {
            Ok(config) => copy_of(config.icon.as_str()),
            Err(_) => {
                return (false, effects);
            },
        };
        match event {
            ModalEvent::Sessions(sessions) => self.sessions(&sessions),
            ModalEvent::Tabs(tabs) => {
                self.tabs = tabs;
                self.sync_owned_tab(icon.as_str())
            },
            ModalEvent::CommandResult { exit_code, stdout, context } => {
                let output = lossy_text(stdout.as_slice());
                self.command_result(exit_code, output, &context)
            },
            ModalEvent::EditorClosed(context) => self.editor_closed(&context),
            ModalEvent::Panes { me, groups } => self.panes(icon.as_str(), me, &groups),
            ModalEvent::Key(key) => self.on_key(key),
            ModalEvent::PermissionDenied => {
                self.config = Err(copy_of(DENIED));
                (true, effects)
            },
            ModalEvent::Other => (false, effects),
        }
    }

    /// Draws the modal into a pane of this size; `lines` are the lines of the note.
    pub fn render(&mut self, rows: usize, cols: usize, lines: &Vec<RenderedLine>) -> (drawn: Vec<
        Drawn,
    >)
        requires
            forall|i: int| 0 <= i < lines@.len() ==> (#[trigger] lines@[i]).well_formed(),
        ensures
            pieces_of(drawn@) == screen(old(self)@, rows as nat, cols as nat, lines@),
            final(self)@ == drawn_state(old(self)@, rows as nat, lines@.len()),
    {
        proof {
            use_type_invariant(&*self);
        }
        let ghost s = self@;
        let mut drawn: Vec<Drawn> = Vec::new();
        if let Err(error) = &self.config {
            drawn.push(Drawn { text: plain_text(error.as_str()), x: 0, y: 0, width: cols });
            assert(pieces_of(drawn@) =~= screen(s, rows as nat, cols as nat, lines@));
            return drawn;
        }
        drawn.push(
            Drawn { text: colored_text(self.title().as_str(), 2), x: 0, y: 0, width: cols },
        );
        let ghost top = seq![line_at(all_at(plain(title(s.tab)), 2), 0, cols as nat)];
        assert(pieces_of(drawn@) =~= top);
        let with_footer: bool = !self.minimized || self.focused;
        let body_rows: usize = if with_footer {
            rows.saturating_sub(3)
        } else {
            rows.saturating_sub(2)
        };
        if self.has_note() {
            let total: usize = lines.len();
            self.scroll = clamp_scroll(self.scroll, total, body_rows);
            let scroll: usize = self.scroll;
            let mut row: usize = 0;
            assert(pieces_of(drawn@) =~= top + note_pieces(lines@, scroll as nat, 0, cols as nat));
            while row < body_rows && row < total - scroll
                invariant
                    scroll <= total,
                    total == lines@.len(),
                    body_rows <= usize::MAX - 2,
                    row <= lines_in_view(scroll as nat, total as nat, body_rows as nat),
                    forall|i: int| 0 <= i < lines@.len() ==> (#[trigger] lines@[i]).well_formed(),
                    pieces_of(drawn@) == top + note_pieces(
                        lines@,
                        scroll as nat,
                        row as nat,
                        cols as nat,
                    ),
                decreases body_rows - row,
            {
                let ghost before = drawn@;
                let text = style(&lines[scroll + row], cols);
                drawn.push(Drawn { text, x: 0, y: row + 2, width: cols });
                row += 1;
                assert(pieces_of(drawn@) =~= pieces_of(before).push(drawn@.last()@));
                assert(pieces_of(drawn@) =~= top + note_pieces(
                    lines@,
                    scroll as nat,
                    row as nat,
                    cols as nat,
                ));
            }
        } else {
            drawn.push(
                Drawn { text: dim_text(self.absent().as_str()), x: 0, y: 2, width: cols },
            );
        }
        let ghost body = body_pieces(s, rows as nat, cols as nat, lines@);
        assert(pieces_of(drawn@) =~= top + body);
        if with_footer {
            let ghost before = drawn@;
            drawn.push(
                Drawn {
                    text: dim_text(self.footer().as_str()),
                    x: 0,
                    y: rows.saturating_sub(1),
                    width: cols,
                },
            );
            assert(pieces_of(drawn@) =~= pieces_of(before).push(drawn@.last()@));
        }
        assert(pieces_of(drawn@) =~= top + body + footer_pieces(s, rows as nat, cols as nat));
        drawn
    }

    fn title(&self) -> (t: String)
        ensures
            t@ == title(self@.tab),
    {
        match &self.tab {
            Some(tab) => joined("Note · ", tab.as_str()),
            None => copy_of("Note"),
        }
    }

    fn absent(&self) -> (t: String)
        ensures
            t@ == absent(self@.tab),
    {
        match &self.tab {
            Some(tab) => joined(
                joined("No note for «", tab.as_str()).as_str(),
                "» — press e to create one",
            ),
            None => copy_of("Loading…"),
        }
    }

    fn footer(&self) -> (t: String)
        ensures
            t@ == footer(self@),
    {
        if self.confirming_delete {
            return copy_of("delete this note? y/n");
        }
        match &self.status {
            Some(status) => copy_of(status.as_str()),
            None => if self.minimized {
                copy_of("m restore · f terminal")
            } else {
                copy_of("e edit · d delete · m minimise · f terminal · j/k scroll · Esc close")
            },
        }
    }
}

/// Where the modal's own pane stands among some panes.
fn own_pane_index(panes: &Vec<PaneView>, me: u32) -> (p: Option<usize>)
    ensures
        match p {
            Some(i) => i < panes@.len() && first_where(
                panes_of(panes@),
                |p: Pane| is_own(p, me),
            ) == Some(panes@[i as int]@),
            None => first_where(panes_of(panes@), |p: Pane| is_own(p, me)) is None,
        },
{
    let ghost all = panes_of(panes@);
    let ghost f = |p: Pane| is_own(p, me);
    let mut i: usize = 0;
    while i < panes.len() && !(panes[i].is_plugin && panes[i].id == me)
        invariant
            i <= panes@.len(),
            all == panes_of(panes@),
            f == (|p: Pane| is_own(p, me)),
            forall|j: int| 0 <= j < i ==> !f(#[trigger] all[j]),
        ensures
            i < panes@.len() ==> f(all[i as int]),
        decreases panes@.len() - i,
    {
        i += 1;
    }
    proof {
        lemma_first_where(all, f, i as int);
    }
    if i < panes.len() {
        Some(i)
    } else {
        None
    }
}

/// Where the group with the modal's own pane stands.
fn own_group_index(groups: &Vec<TabPanes>, me: u32) -> (g: Option<usize>)
    ensures
        match g {
            Some(i) => i < groups@.len() && own_group(groups_of(groups@), me) == Some(
                groups@[i as int]@,
            ) && first_where(groups@[i as int]@.panes, |p: Pane| is_own(p, me)) is Some,
            None => own_group(groups_of(groups@), me) is None,
        },
{
    let ghost all = groups_of(groups@);
    let ghost f = |g: Group| first_where(g.panes, |p: Pane| is_own(p, me)) is Some;
    let mut i: usize = 0;
    while i < groups.len()
        invariant
            i <= groups@.len(),
            all == groups_of(groups@),
            f == (|g: Group| first_where(g.panes, |p: Pane| is_own(p, me)) is Some),
            forall|j: int| 0 <= j < i ==> !f(#[trigger] all[j]),
        decreases groups@.len() - i,
    {
        if own_pane_index(&groups[i].panes, me).is_some() {
            proof {
                assert(f(all[i as int]));
                lemma_first_where(all, f, i as int);
            }
            return Some(i);
        }
        assert(!f(all[i as int]));
        i += 1;
    }
    proof {
        lemma_first_where(all, f, i as int);
    }
    None
}

/// Where the group of the tab at a position stands.
fn group_index(groups: &Vec<TabPanes>, position: usize) -> (g: Option<usize>)
    ensures
        match g {
            Some(i) => i < groups@.len() && panes_at(groups_of(groups@), position) == Some(
                groups@[i as int]@,
            ),
            None => panes_at(groups_of(groups@), position) is None,
        },
{
    let ghost all = groups_of(groups@);
    let ghost f = |g: Group| g.position == position;
    let mut i: usize = 0;
    while i < groups.len() && groups[i].position != position
        invariant
            i <= groups@.len(),
            all == groups_of(groups@),
            f == (|g: Group| g.position == position),
            forall|j: int| 0 <= j < i ==> !f(#[trigger] all[j]),
        ensures
            i < groups@.len() ==> f(all[i as int]),
        decreases groups@.len() - i,
    {
        i += 1;
    }
    proof {
        lemma_first_where(all, f, i as int);
    }
    if i < groups.len() {
        Some(i)
    } else {
        None
    }
}

/// The oldest instance of the same plugin that is open among some panes.
fn oldest_modal(panes: &Vec<PaneView>, me: u32, url: &str) -> (id: Option<u32>)
    ensures
        id == lowest(older_modals(panes_of(panes@), me, url@)),
{
    let ghost all = panes_of(panes@);
    let mut oldest: Option<u32> = None;
    let mut i: usize = 0;
    assert(all.take(0) =~= Seq::<Pane>::empty());
    while i < panes.len()
        invariant
            i <= panes@.len(),
            all == panes_of(panes@),
            oldest == lowest(older_modals(all.take(i as int), me, url@)),
        decreases panes@.len() - i,
    {
        let pane = &panes[i];
        proof {
            assert(all.take(i + 1).drop_last() =~= all.take(i as int));
            assert(all.take(i + 1).last() == pane@);
            let front = older_modals(all.take(i as int), me, url@);
            assert(front.push(pane.id).drop_last() =~= front);
            assert(front.push(pane.id).last() == pane.id);
        }
        if pane.is_plugin && pane.is_floating && !pane.is_suppressed && pane.id < me && is_text(
            &pane.plugin_url,
            url,
        ) {
            oldest =
            match oldest {
                Some(n) => if n <= pane.id {
                    Some(n)
                } else {
                    Some(pane.id)
                },
                None => Some(pane.id),
            };
        }
        i += 1;
    }
    assert(all.take(i as int) =~= all);
    oldest
}

/// The instance that already serves the tab.
fn incumbent_of(groups: &Vec<TabPanes>, position: usize, me: u32, pane: &PaneView) -> (id: Option<
    u32,
>)
    ensures
        id == incumbent(groups_of(groups@), position, me, pane@),
{
    match &pane.plugin_url {
        Some(url) => match group_index(groups, position) {
            Some(k) => oldest_modal(&groups[k].panes, me, url.as_str()),
            None => None,
        },
        None => None,
    }
}

/// Whether the pane can take the focus back.
fn usable(pane: &PaneView) -> (r: bool)
    ensures
        r == is_usable(pane@),
{
    !pane.is_plugin && !pane.is_floating && pane.is_selectable && !pane.exited
}

/// The pane to hand the focus back to.
fn return_pane(panes: &Vec<PaneView>) -> (id: Option<u32>)
    ensures
        id == pane_to_return_to(panes_of(panes@)),
{
    let ghost all = panes_of(panes@);
    let ghost f = |p: Pane| is_usable(p) && p.is_focused;
    let ghost u = |p: Pane| is_usable(p);
    let mut first: Option<u32> = None;
    let mut i: usize = 0;
    let ghost mut at: int = 0;
    while i < panes.len()
        invariant
            i <= panes@.len(),
            all == panes_of(panes@),
            f == (|p: Pane| is_usable(p) && p.is_focused),
            u == (|p: Pane| is_usable(p)),
            forall|j: int| 0 <= j < i ==> !f(#[trigger] all[j]),
            first is None ==> forall|j: int| 0 <= j < i ==> !u(#[trigger] all[j]),
            first is Some ==> 0 <= at < i && u(all[at]) && first == Some(all[at].id),
            first is Some ==> forall|j: int| 0 <= j < at ==> !u(#[trigger] all[j]),
        decreases panes@.len() - i,
    {
        let pane = &panes[i];
        assert(all[i as int] == pane@);
        if usable(pane) {
            if pane.is_focused {
                proof {
                    assert(f(all[i as int]));
                    lemma_first_where(all, f, i as int);
                }
                return Some(pane.id);
            }
            if first.is_none() {
                first = Some(pane.id);
                proof {
                    at = i as int;
                }
            }
        }
        i += 1;
    }
    proof {
        lemma_first_where(all, f, i as int);
        if first is Some {
            lemma_first_where(all, u, at);
        } else {
            lemma_first_where(all, u, i as int);
        }
    }
    first
}

/// The state, the answer and the effects are those of the outcome.
pub open spec fn outcome_is(m: Modal, r: (bool, Vec<ModalEffect>), o: Outcome) -> bool {
    (Outcome { state: m@, redraw: r.0, requests: requests_of(r.1@) }) == o
}

/// `FloatingPaneCoordinates::new` with a position and a size and nothing about pinning and
/// borders: what it makes depends on the four texts alone, and it makes something if the first of
/// them is a number of cells or a percentage. Texts other than a number, or a number and a
/// percent sign, are left out: the function may cut those within a character. What the host
/// reads out of the result is not stated.
#[verifier::external_body]
fn pane_coordinates(x: String, y: String, width: String, height: String) -> (c: Option<
    FloatingPaneCoordinates,
>)
    requires
        is_extent(x@),
        is_extent(y@),
        is_extent(width@),
        is_extent(height@),
    ensures
        c == floating_coordinates(x@, y@, width@, height@),
        is_placeable(x@) ==> c is Some,
{
    FloatingPaneCoordinates::new(Some(x), Some(y), Some(width), Some(height), None, None)
}

/// The text is a measure.
pub open spec fn is_extent(s: Seq<char>) -> bool {
    exists|n: usize, percent: bool| s == #[trigger] extent(n, percent)
}

/// The text is a number of cells, or a percentage.
pub open spec fn is_placeable(s: Seq<char>) -> bool {
    exists|n: usize, percent: bool|
        s == #[trigger] extent(n, percent) && (percent ==> n <= 100)
}

/// One measure as text.
fn extent_text(n: usize, percent: bool) -> (s: String)
    ensures
        s@ == extent(n, percent),
        is_extent(s@),
{
    let mut s = decimal_text(n as u128);
    if percent {
        s.push('%');
    }
    assert(s@ == extent(n, percent));
    s
}

} // verus!
