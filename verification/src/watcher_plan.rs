//! What the watcher does with each event, as functions on plain values.
//!
//! The watcher runs in the background. It keeps the names of the tabs in step with the notes of
//! the session, and moves the notes along when a tab or the session is renamed.
use crate::config::Settings;
use crate::fs_ops::{
    ensure_dir_run, entry, list_run, migrate_run, move_run, moved_note, Run, NOTES_CHANGED,
    OP_CLEANUP, OP_DELETE, OP_ENSURE_DIR, OP_KEY, OP_LIST, OP_MIGRATE, OP_MOVE, SESSION_FAILED,
    SESSION_KEY, SESSION_READY,
};
use crate::listing::{listed_keys, FILE_TAG, NOTE_TAG};
use crate::paths::{key_path, session_path};
use crate::plan::{round, Change, Tab};
use crate::session::{current_name, Session};
use vstd::prelude::*;

verus! {

/// What the watcher knows.
pub struct State {
    pub config: Result<Settings, Seq<char>>,
    /// The icon that marks the tabs with a note.
    pub icon: Seq<char>,
    /// The key that each tab was last seen with.
    pub known: Map<usize, Seq<char>>,
    /// The session whose notes the directory holds.
    pub session: Option<Seq<char>>,
    /// The session that the plugin runs in.
    pub requested: Option<Seq<char>>,
    pub migrating: bool,
    pub pending_moves: nat,
    pub permitted: bool,
    pub tabs: Seq<Tab>,
    /// The keys that have a note.
    pub notes: Set<Seq<char>>,
    /// The keys of all files: those last listed, and where notes have been moved since.
    pub occupied: Set<Seq<char>>,
    /// Whether a listing has ever completed. Until it has, `notes` is empty because nothing has
    /// been read yet, not because no tab has a note.
    pub listed_once: bool,
}

/// What the watcher asks of the host.
pub enum Request {
    Run(Run),
    RenameTab { id: usize, name: Seq<char> },
    /// A message to every plugin of the session.
    Pipe { name: Seq<char>, payload: Seq<char> },
}

/// What comes of an event.
pub struct Outcome {
    pub state: State,
    pub requests: Seq<Request>,
}

/// Nothing comes of it.
pub open spec fn ignored(s: State) -> Outcome {
    Outcome { state: s, requests: Seq::empty() }
}

/// The state of a watcher that has been told nothing yet.
pub open spec fn new_state(config: Result<Settings, Seq<char>>) -> State {
    State {
        config,
        icon: match config {
            Ok(c) => c.icon,
            Err(_) => Seq::empty(),
        },
        known: Map::empty(),
        session: None,
        requested: None,
        migrating: false,
        pending_moves: 0,
        permitted: false,
        tabs: Seq::empty(),
        notes: Set::empty(),
        occupied: Set::empty(),
        listed_once: false,
    }
}

/// The notes of the session that the plugin runs in can be read: they are not being moved.
pub open spec fn is_in_place(s: State) -> bool {
    s.config is Ok && s.session is Some && !s.migrating && s.session == s.requested
}

/// The notes directory is read again. Everything downstream flows from the result.
pub open spec fn refresh(s: State) -> Seq<Request> {
    if is_in_place(s) {
        let dir = session_path(s.config->Ok_0.notes_dir, s.session->0);
        seq![Request::Run(list_run(dir, s.session->0))]
    } else {
        Seq::empty()
    }
}

/// The directory is brought in line with the session that the plugin runs in. Only one migration
/// runs at a time: if another rename arrives while it is running, the current move is finished
/// before the notes go on to the latest name.
pub open spec fn sync_session(s: State) -> Outcome {
    match (s.config, s.requested) {
        (Ok(config), Some(requested)) if s.permitted && !s.migrating && s.pending_moves
            == 0 => match s.session {
            None => Outcome {
                state: State { session: Some(requested), ..s },
                requests: seq![
                    Request::Run(ensure_dir_run(session_path(config.notes_dir, requested))),
                ],
            },
            Some(current) => if current != requested {
                Outcome {
                    state: State { migrating: true, listed_once: false, ..s },
                    requests: seq![
                        Request::Run(
                            migrate_run(
                                session_path(config.notes_dir, current),
                                session_path(config.notes_dir, requested),
                                requested,
                            ),
                        ),
                    ],
                }
            } else {
                Outcome { state: s, requests: refresh(s) }
            },
        },
        _ => ignored(s),
    }
}

/// How a change is asked of the host. Both ends of a move are keys already: flattening them again
/// could point the move at a different file.
pub open spec fn request_of(dir: Seq<char>, session: Seq<char>, change: Change) -> Request {
    match change {
        Change::RenameTab { id, name } => Request::RenameTab { id, name },
        Change::MoveNote { id, from, to } => Request::Run(
            move_run(key_path(dir, session, from), key_path(dir, session, to), id, from),
        ),
    }
}

/// How the changes are asked of the host.
pub open spec fn requests_for(dir: Seq<char>, session: Seq<char>, changes: Seq<Change>) -> Seq<
    Request,
> {
    changes.map_values(|c: Change| request_of(dir, session, c))
}

/// How many notes are moved.
pub open spec fn move_count(changes: Seq<Change>) -> nat
    decreases changes.len(),
{
    if changes.len() == 0 {
        0
    } else {
        move_count(changes.drop_last()) + if changes.last() is MoveNote {
            1nat
        } else {
            0nat
        }
    }
}

/// The counter stops at the greatest number that it can hold.
pub open spec fn counted(n: nat) -> nat {
    if n > usize::MAX {
        usize::MAX as nat
    } else {
        n
    }
}

/// The keys of the files once the notes are moved.
pub open spec fn occupied_after(occupied: Set<Seq<char>>, changes: Seq<Change>) -> Set<Seq<char>>
    decreases changes.len(),
{
    if changes.len() == 0 {
        occupied
    } else {
        let front = occupied_after(occupied, changes.drop_last());
        match changes.last() {
            Change::MoveNote { from, to, .. } => front.remove(from).insert(to),
            Change::RenameTab { .. } => front,
        }
    }
}

/// The tabs and the notes are brought in step. Before the first listing nothing is known about
/// the notes: acting then would strip the icon off every tab, only to put it back later.
pub open spec fn apply(s: State) -> Outcome {
    if s.listed_once && is_in_place(s) {
        let config = s.config->Ok_0;
        let r = round(s.icon, s.known, s.tabs, s.notes, s.occupied);
        Outcome {
            state: State {
                known: r.known,
                notes: r.notes,
                occupied: occupied_after(s.occupied, r.changes),
                pending_moves: counted(s.pending_moves + move_count(r.changes)),
                ..s
            },
            requests: requests_for(config.notes_dir, s.session->0, r.changes),
        }
    } else {
        ignored(s)
    }
}

/// A migration has finished.
pub open spec fn on_migrated(s: State, done: bool, session: Option<Seq<char>>) -> Outcome {
    let rested = State { migrating: false, ..s };
    if done {
        sync_session(State { session, ..rested })
    } else {
        Outcome {
            state: rested,
            requests: match session {
                Some(name) => seq![Request::Pipe { name: SESSION_FAILED@, payload: name }],
                None => Seq::empty(),
            },
        }
    }
}

/// A listing has finished. One about another session is out of date. One that failed means that
/// the directory is not there yet, so there are no notes.
pub open spec fn on_listed(
    s: State,
    done: bool,
    output: Seq<char>,
    session: Option<Seq<char>>,
) -> Outcome {
    if s.migrating || session != s.session {
        ignored(s)
    } else {
        let o = apply(
            State {
                notes: if done {
                    listed_keys(output, NOTE_TAG)
                } else {
                    Set::empty()
                },
                occupied: if done {
                    listed_keys(output, FILE_TAG)
                } else {
                    Set::empty()
                },
                listed_once: true,
                ..s
            },
        );
        Outcome {
            requests: match s.session {
                Some(name) if done => o.requests.push(
                    Request::Pipe { name: SESSION_READY@, payload: name },
                ),
                _ => o.requests,
            },
            ..o
        }
    }
}

/// A move has finished. If it failed, the note is still where it was, and its tab keeps it for
/// the next try.
pub open spec fn on_moved(s: State, done: bool, moved: Option<(usize, Seq<char>)>) -> Outcome {
    let known = match moved {
        Some((id, from)) if !done => s.known.insert(id, from),
        _ => s.known,
    };
    let pending_moves = if s.pending_moves > 0 {
        (s.pending_moves - 1) as nat
    } else {
        0
    };
    sync_session(State { known, pending_moves, ..s })
}

/// A command has finished.
pub open spec fn on_result(
    s: State,
    exit_code: Option<i32>,
    output: Seq<char>,
    context: Map<Seq<char>, Seq<char>>,
) -> Outcome {
    let op = entry(context, OP_KEY@);
    let done = exit_code == Some(0i32);
    if op == Some(OP_ENSURE_DIR@) {
        Outcome { state: s, requests: refresh(s) }
    } else if op == Some(OP_MIGRATE@) {
        on_migrated(s, done, entry(context, SESSION_KEY@))
    } else if op == Some(OP_LIST@) {
        on_listed(s, done, output, entry(context, SESSION_KEY@))
    } else if op == Some(OP_MOVE@) {
        on_moved(s, done, moved_note(context))
    } else if op == Some(OP_DELETE@) {
        sync_session(s)
    } else if op == Some(OP_CLEANUP@) {
        // The clean-up fails if the file was never created, which is how an edit that is given
        // up ends. It is no error.
        Outcome { state: s, requests: refresh(s) }
    } else {
        ignored(s)
    }
}

/// The host says which sessions there are.
pub open spec fn on_sessions(s: State, sessions: Seq<Session>) -> Outcome {
    match current_name(sessions) {
        Some(name) if s.requested != Some(name) => sync_session(
            State { requested: Some(name), ..s },
        ),
        _ => ignored(s),
    }
}

/// What the host tells the watcher.
pub enum Event {
    Sessions(Seq<Session>),
    Tabs(Seq<Tab>),
    Result { exit_code: Option<i32>, output: Seq<char>, context: Map<Seq<char>, Seq<char>> },
    PermissionGranted,
    PermissionDenied,
    /// A message from another plugin.
    Pipe(Seq<char>),
    Other,
}

pub const DENIED: &'static str = "tab-notes: permissions denied";

/// One event. Without a configuration the watcher is inert, and a watcher without permissions is
/// treated as one that has no configuration.
pub open spec fn step(s: State, event: Event) -> Outcome {
    if s.config is Err {
        ignored(s)
    } else {
        match event {
            Event::Sessions(sessions) => on_sessions(s, sessions),
            Event::Tabs(tabs) => apply(State { tabs, ..s }),
            Event::Result { exit_code, output, context } => on_result(
                s,
                exit_code,
                output,
                context,
            ),
            Event::PermissionGranted => sync_session(State { permitted: true, ..s }),
            Event::PermissionDenied => ignored(State { config: Err(DENIED@), ..s }),
            // The modal owns the editor and deletes notes: all the watcher hears is that the
            // notes have changed.
            Event::Pipe(name) => if s.session is Some && name == NOTES_CHANGED@ {
                sync_session(s)
            } else {
                ignored(s)
            },
            Event::Other => ignored(s),
        }
    }
}

} // verus!
