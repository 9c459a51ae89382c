//! The watcher: keeps the tabs and the notes of the session in step, in the background.
use crate::config::{settings_of, Config};
use crate::fs_ops::{
    ensure_dir, is_op, list_notes, migrate_session, move_note, moved_note_of, op_of, text_of,
    Command, Context, NOTES_CHANGED, OP_CLEANUP, OP_DELETE, OP_ENSURE_DIR, OP_LIST, OP_MIGRATE,
    OP_MOVE, SESSION_FAILED, SESSION_KEY, SESSION_READY,
};
use crate::listing::parse_note_listing;
use crate::note_set::NoteSet;
use crate::paths::{note_path_from_key, session_dir};
use crate::plan::{Change, Tab};
use crate::reconcile::{changes_of, tabs_of, Action, Reconciler, TabView};
use crate::session::{current_session, sessions_of, SessionView};
use crate::text::{copy_of, is_text, lossy_text, optional, same_text, utf8_lossy};
use crate::watcher_plan::{
    apply, counted, is_in_place, move_count, new_state, occupied_after, on_listed, on_migrated,
    on_moved, on_result, on_sessions, refresh, request_of, requests_for, step, sync_session, Event,
    Outcome, Request, State, DENIED,
};
use vstd::prelude::*;

verus! {

/// What the host tells the watcher.
#[derive(Debug)]
pub enum WatcherEvent {
    Sessions(Vec<SessionView>),
    Tabs(Vec<TabView>),
    CommandResult { exit_code: Option<i32>, stdout: Vec<u8>, context: Context },
    PermissionGranted,
    PermissionDenied,
    Other,
}

impl View for WatcherEvent {
    type V = Event;

    open spec fn view(&self) -> Event {
        match self {
            WatcherEvent::Sessions(sessions) => Event::Sessions(sessions_of(sessions@)),
            WatcherEvent::Tabs(tabs) => Event::Tabs(tabs_of(tabs@)),
            WatcherEvent::CommandResult { exit_code, stdout, context } => Event::Result {
                exit_code: *exit_code,
                output: utf8_lossy(stdout@),
                context: context@,
            },
            WatcherEvent::PermissionGranted => Event::PermissionGranted,
            WatcherEvent::PermissionDenied => Event::PermissionDenied,
            WatcherEvent::Other => Event::Other,
        }
    }
}

/// What the watcher asks of the host.
#[derive(Debug)]
pub enum WatcherEffect {
    Run(Command),
    RenameTab { id: usize, name: String },
    /// A message to every plugin of the session.
    Pipe { name: String, payload: String },
}

impl View for WatcherEffect {
    type V = Request;

    open spec fn view(&self) -> Request {
        match self {
            WatcherEffect::Run(command) => Request::Run(command@),
            WatcherEffect::RenameTab { id, name } => Request::RenameTab { id: *id, name: name@ },
            WatcherEffect::Pipe { name, payload } => Request::Pipe {
                name: name@,
                payload: payload@,
            },
        }
    }
}

/// The requests, as plain values.
pub open spec fn requests_of(effects: Seq<WatcherEffect>) -> Seq<Request> {
    effects.map_values(|e: WatcherEffect| e@)
}

/// The watcher: keeps the tabs and the notes of the session in step.
pub struct Watcher {
    config: Result<Config, String>,
    reconciler: Reconciler,
    session: Option<String>,
    requested_session: Option<String>,
    migrating: bool,
    pending_moves: usize,
    permitted: bool,
    tabs: Vec<TabView>,
    notes: NoteSet,
    /// The names that are in use on disk, whether they count as notes or not: those last listed,
    /// and where notes have been moved since.
    occupied: NoteSet,
    /// Whether a listing has ever completed. Until it has, `notes` is empty because nothing has
    /// been read yet, not because no tab has a note, and acting on it would strip the icon off
    /// every tab that was marked before, only to put it back once the listing lands.
    listed_once: bool,
}

impl View for Watcher {
    type V = State;

    closed spec fn view(&self) -> State {
        State {
            config: settings_of(self.config),
            icon: self.reconciler.icon(),
            known: self.reconciler.known(),
            session: optional(self.session),
            requested: optional(self.requested_session),
            migrating: self.migrating,
            pending_moves: self.pending_moves as nat,
            permitted: self.permitted,
            tabs: tabs_of(self.tabs@),
            notes: self.notes@,
            occupied: self.occupied@,
            listed_once: self.listed_once,
        }
    }
}

/// The state and the effects are those of the outcome.
pub open spec fn outcome_is(w: Watcher, effects: Seq<WatcherEffect>, o: Outcome) -> bool {
    (Outcome { state: w@, requests: requests_of(effects) }) == o
}

impl Watcher {
    /// A watcher that has been told nothing yet.
    pub fn new(config: Result<Config, String>) -> (w: Watcher)
        ensures
            w@ == new_state(settings_of(config)),
    {
        let reconciler = match &config {
            Ok(c) => Reconciler::new(c.icon.as_str()),
            Err(_) => Reconciler::new(""),
        };
        proof {
            reveal_strlit("");
            assert(""@ =~= Seq::<char>::empty());
        }
        let w = Watcher {
            config,
            reconciler,
            session: None,
            requested_session: None,
            migrating: false,
            pending_moves: 0,
            permitted: false,
            tabs: Vec::new(),
            notes: NoteSet::new(),
            occupied: NoteSet::new(),
            listed_once: false,
        };
        assert(w@.tabs =~= Seq::<Tab>::empty());
        w
    }

    /// Whether the directory holds the notes of the session that the plugin runs in.
    fn in_place(&self) -> (r: bool)
        ensures
            r == is_in_place(self@),
    {
        if self.migrating || self.config.is_err() {
            return false;
        }
        match &self.session {
            Some(session) => is_text(&self.requested_session, session.as_str()),
            None => false,
        }
    }

    /// Re-reads the notes directory. Everything downstream flows from the result.
    pub fn refresh(&self) -> (effects: Vec<WatcherEffect>)
        ensures
            requests_of(effects@) == refresh(self@),
    {
        let mut effects: Vec<WatcherEffect> = Vec::new();
        if self.in_place() {
            if let (Ok(config), Some(session)) = (&self.config, &self.session) {
                let dir = session_dir(config.notes_dir.as_str(), session.as_str());
                effects.push(WatcherEffect::Run(list_notes(dir.as_str(), session.as_str())));
            }
        }
        assert(requests_of(effects@) =~= refresh(self@));
        effects
    }

    /// Only one migration runs at a time. If another rename arrives while it is running, the
    /// current move is finished before the notes go on to the latest name.
    fn sync_session(&mut self) -> (effects: Vec<WatcherEffect>)
        ensures
            outcome_is(*final(self), effects@, sync_session(old(self)@)),
    {
        let mut effects: Vec<WatcherEffect> = Vec::new();
        assert(requests_of(effects@) =~= Seq::<Request>::empty());
        if !self.permitted || self.migrating || self.pending_moves > 0 {
            return effects;
        }
        let (config, requested) = match (&self.config, &self.requested_session) {
            (Ok(config), Some(requested)) => (config, requested),
            _ => {
                return effects;
            },
        };
        let to = session_dir(config.notes_dir.as_str(), requested.as_str());
        match &self.session {
            None => {
                effects.push(WatcherEffect::Run(ensure_dir(to.as_str())));
                assert(requests_of(effects@) =~= sync_session(old(self)@).requests);
                self.session = Some(copy_of(requested.as_str()));
                effects
            },
            Some(current) => {
                if same_text(current.as_str(), requested.as_str()) {
                    return self.refresh();
                }
                let from = session_dir(config.notes_dir.as_str(), current.as_str());
                effects.push(
                    WatcherEffect::Run(
                        migrate_session(from.as_str(), to.as_str(), requested.as_str()),
                    ),
                );
                assert(requests_of(effects@) =~= sync_session(old(self)@).requests);
                self.migrating = true;
                self.listed_once = false;
                effects
            },
        }
    }

    /// Brings the tabs and the notes in step.
    fn apply(&mut self) -> (effects: Vec<WatcherEffect>)
        ensures
            outcome_is(*final(self), effects@, apply(old(self)@)),
    {
        let mut effects: Vec<WatcherEffect> = Vec::new();
        assert(requests_of(effects@) =~= Seq::<Request>::empty());
        if !self.listed_once || !self.in_place() {
            return effects;
        }
        let (dir, session) = match (&self.config, &self.session) {
            (Ok(config), Some(session)) => (
                copy_of(config.notes_dir.as_str()),
                copy_of(session.as_str()),
            ),
            _ => {
                return effects;
            },
        };
        let actions = self.reconciler.reconcile_with_occupied(
            self.tabs.as_slice(),
            &mut self.notes,
            &self.occupied,
        );
        let ghost changes = changes_of(actions@);
        let ghost start = self.pending_moves as nat;
        let ghost listed = self.occupied@;
        let mut pending: usize = self.pending_moves;
        let mut occupied = self.occupied.copy();
        let mut i: usize = 0;
        assert(changes.take(0) =~= Seq::<Change>::empty());
        assert(requests_of(effects@) =~= requests_for(dir@, session@, changes.take(0)));
        while i < actions.len()
            invariant
                i <= actions@.len(),
                changes == changes_of(actions@),
                occupied@ == occupied_after(listed, changes.take(i as int)),
                pending == counted(start + move_count(changes.take(i as int))),
                requests_of(effects@) == requests_for(dir@, session@, changes.take(i as int)),
            decreases actions@.len() - i,
        {
            let ghost before = requests_of(effects@);
            let ghost change = changes[i as int];
            match &actions[i] {
                Action::RenameTab { id, name } => {
                    effects.push(
                        WatcherEffect::RenameTab { id: *id, name: copy_of(name.as_str()) },
                    );
                },
                Action::MoveNote { id, from, to } => {
                    pending = pending.saturating_add(1);
                    let _ = occupied.remove(from.as_str());
                    let _ = occupied.insert(to.as_str());
                    let source = note_path_from_key(
                        dir.as_str(),
                        session.as_str(),
                        from.as_str(),
                    );
                    let target = note_path_from_key(dir.as_str(), session.as_str(), to.as_str());
                    effects.push(
                        WatcherEffect::Run(
                            move_note(source.as_str(), target.as_str(), *id, from.as_str()),
                        ),
                    );
                },
            }
            proof {
                assert(changes.take(i + 1).drop_last() =~= changes.take(i as int));
                assert(changes.take(i + 1).last() == change);
                assert(requests_of(effects@) =~= before.push(request_of(dir@, session@, change)));
                assert(requests_for(dir@, session@, changes.take(i + 1)) =~= before.push(
                    request_of(dir@, session@, change),
                ));
            }
            i += 1;
        }
        assert(changes.take(i as int) =~= changes);
        self.pending_moves = pending;
        self.occupied = occupied;
        effects
    }

    /// The host says which sessions there are.
    fn sessions(&mut self, sessions: &Vec<SessionView>) -> (effects: Vec<WatcherEffect>)
        ensures
            outcome_is(*final(self), effects@, on_sessions(old(self)@, sessions_of(sessions@))),
    {
        if let Some(name) = current_session(sessions) {
            if !is_text(&self.requested_session, name) {
                self.requested_session = Some(copy_of(name));
                return self.sync_session();
            }
        }
        let effects: Vec<WatcherEffect> = Vec::new();
        assert(requests_of(effects@) =~= Seq::<Request>::empty());
        effects
    }

    /// A migration has finished.
    fn migrated(&mut self, done: bool, session: Option<&str>) -> (effects: Vec<WatcherEffect>)
        ensures
            outcome_is(*final(self), effects@, on_migrated(old(self)@, done, text_of(session))),
    {
        self.migrating = false;
        if done {
            self.session =
            match session {
                Some(name) => Some(copy_of(name)),
                None => None,
            };
            return self.sync_session();
        }
        let mut effects: Vec<WatcherEffect> = Vec::new();
        if let Some(name) = session {
            effects.push(
                WatcherEffect::Pipe { name: copy_of(SESSION_FAILED), payload: copy_of(name) },
            );
        }
        assert(requests_of(effects@) =~= on_migrated(
            old(self)@,
            done,
            text_of(session),
        ).requests);
        effects
    }

    /// A listing has finished, and `output` is what it wrote.
    fn listed(&mut self, done: bool, output: &str, session: Option<&str>) -> (effects: Vec<
        WatcherEffect,
    >)
        ensures
            outcome_is(
                *final(self),
                effects@,
                on_listed(old(self)@, done, output@, text_of(session)),
            ),
    {
        let current: bool = match (session, &self.session) {
            (Some(a), Some(b)) => same_text(a, b.as_str()),
            (None, None) => true,
            _ => false,
        };
        if self.migrating || !current {
            let effects: Vec<WatcherEffect> = Vec::new();
            assert(requests_of(effects@) =~= Seq::<Request>::empty());
            return effects;
        }
        if done {
            let listing = parse_note_listing(output);
            self.notes = listing.notes;
            self.occupied = listing.occupied;
        } else {
            self.notes = NoteSet::new();
            self.occupied = NoteSet::new();
        }
        self.listed_once = true;
        let mut effects = self.apply();
        let ghost before = requests_of(effects@);
        if done {
            if let Some(name) = session {
                effects.push(
                    WatcherEffect::Pipe { name: copy_of(SESSION_READY), payload: copy_of(name) },
                );
                assert(requests_of(effects@) =~= before.push(
                    Request::Pipe { name: SESSION_READY@, payload: name@ },
                ));
            }
        }
        effects
    }

    /// A move has finished.
    fn moved(&mut self, done: bool, moved: Option<(usize, &str)>) -> (effects: Vec<WatcherEffect>)
        ensures
            outcome_is(
                *final(self),
                effects@,
                on_moved(
                    old(self)@,
                    done,
                    match moved {
                        Some((id, from)) => Some((id, from@)),
                        None => None,
                    },
                ),
            ),
    {
        if !done {
            if let Some((id, from)) = moved {
                self.reconciler.restore_note_key(id, copy_of(from));
            }
        }
        self.pending_moves = self.pending_moves.saturating_sub(1);
        self.sync_session()
    }

    /// A command has finished, and `output` is what it wrote.
    pub fn on_command_result(
        &mut self,
        exit_code: Option<i32>,
        output: &str,
        context: &Context,
    ) -> (effects: Vec<WatcherEffect>)
        ensures
            outcome_is(
                *final(self),
                effects@,
                on_result(old(self)@, exit_code, output@, context@),
            ),
    {
        let op = op_of(context);
        let done: bool = match exit_code {
            Some(code) => code == 0,
            None => false,
        };
        if is_op(&op, OP_ENSURE_DIR) {
            self.refresh()
        } else if is_op(&op, OP_MIGRATE) {
            self.migrated(done, context.get(SESSION_KEY))
        } else if is_op(&op, OP_LIST) {
            self.listed(done, output, context.get(SESSION_KEY))
        } else if is_op(&op, OP_MOVE) {
            self.moved(done, moved_note_of(context))
        } else if is_op(&op, OP_DELETE) {
            self.sync_session()
        } else if is_op(&op, OP_CLEANUP) {
            self.refresh()
        } else {
            let effects: Vec<WatcherEffect> = Vec::new();
            assert(requests_of(effects@) =~= Seq::<Request>::empty());
            effects
        }
    }

    /// One event. The watcher is never drawn.
    pub fn update(&mut self, event: WatcherEvent) -> (r: (bool, Vec<WatcherEffect>))
        ensures
            !r.0,
            outcome_is(*final(self), r.1@, step(old(self)@, event@)),
    {
        let effects: Vec<WatcherEffect> = Vec::new();
        assert(requests_of(effects@) =~= Seq::<Request>::empty());
        if self.config.is_err() {
            return (false, effects);
        }
        let effects = match event {
            WatcherEvent::Sessions(sessions) => self.sessions(&sessions),
            WatcherEvent::Tabs(tabs) => {
                self.tabs = tabs;
                self.apply()
            },
            WatcherEvent::CommandResult { exit_code, stdout, context } => {
                let output = lossy_text(stdout.as_slice());
                self.on_command_result(exit_code, output.as_str(), &context)
            },
            WatcherEvent::PermissionGranted => {
                self.permitted = true;
                self.sync_session()
            },
            WatcherEvent::PermissionDenied => {
                self.config = Err(copy_of(DENIED));
                effects
            },
            WatcherEvent::Other => effects,
        };
        (false, effects)
    }

    /// The modal owns the editor, not the watcher: only the plugin that opened a file learns that
    /// its editor was closed. All the watcher still wants to hear is that the notes have changed.
    pub fn pipe(&mut self, name: &str) -> (r: (bool, Vec<WatcherEffect>))
        ensures
            !r.0,
            outcome_is(*final(self), r.1@, step(old(self)@, Event::Pipe(name@))),
    {
        if self.config.is_ok() && self.session.is_some() && same_text(name, NOTES_CHANGED) {
            return (false, self.sync_session());
        }
        let effects: Vec<WatcherEffect> = Vec::new();
        assert(requests_of(effects@) =~= Seq::<Request>::empty());
        (false, effects)
    }
}

} // verus!
