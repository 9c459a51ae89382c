//! What the watcher makes of what the host and the modal tell it.
use crate::config::Settings;
use crate::finding::lemma_first_where;
use crate::fs_ops::{
    cleanup_run, delete_run, ensure_dir_run, entry, law_moved_note_comes_back,
    law_results_are_recognised, law_session_comes_back, lemma_names_differ, list_run, migrate_run,
    move_run, OP_CLEANUP, OP_DELETE, OP_ENSURE_DIR, OP_KEY, OP_LIST, OP_MIGRATE, OP_MOVE,
};
use crate::listing::listed_keys;
use crate::paths::{key_path, session_path};
use crate::plan::{round, Change, Tab};
use crate::session::Session;
use crate::settling::moved_keys;
use crate::watcher_plan::{apply, new_state, occupied_after, step, Event, Outcome, Request, State};
use vstd::prelude::*;

verus! {

/// Nothing comes of the event.
pub open spec fn does_nothing(s: State, event: Event) -> bool {
    step(s, event) == (Outcome { state: s, requests: Seq::empty() })
}

/// The directory holds the notes of the session that the plugin runs in, and they are not being
/// moved.
pub open spec fn is_settled_in(s: State) -> bool {
    s.config is Ok && s.session is Some && s.session == s.requested && !s.migrating
}

/// The watcher may act on the session: it has permission, and nothing is being moved.
pub open spec fn is_free(s: State) -> bool {
    s.permitted && !s.migrating && s.pending_moves == 0
}

/// The notes of the session are listed, and nothing else is asked.
pub open spec fn lists_the_notes(s: State, requests: Seq<Request>) -> bool {
    requests == seq![
        Request::Run(
            list_run(session_path(s.config->Ok_0.notes_dir, s.session->0), s.session->0),
        ),
    ]
}

/// The requests are the changes, one for one and in order: a tab is renamed by its id, and a note
/// is moved from the file of one key to the file of the other.
pub open spec fn carry_out(
    requests: Seq<Request>,
    dir: Seq<char>,
    session: Seq<char>,
    changes: Seq<Change>,
) -> bool {
    &&& requests.len() == changes.len()
    &&& forall|i: int|
        0 <= i < changes.len() ==> {
            &&& (#[trigger] changes[i]) matches Change::RenameTab { id, name } ==> requests[i]
                == Request::RenameTab { id, name }
            &&& changes[i] matches Change::MoveNote { id, from, to } ==> requests[i]
                == Request::Run(
                move_run(key_path(dir, session, from), key_path(dir, session, to), id, from),
            )
        }
}

/// The round is what the reconciler makes of the tabs, the notes and the files; the notes and
/// the files are afterwards where the moves have taken them.
pub open spec fn has_done_a_round(s: State, o: Outcome) -> bool {
    let r = round(s.icon, s.known, s.tabs, s.notes, s.occupied);
    &&& o.state == (State {
        known: r.known,
        notes: r.notes,
        occupied: moved_keys(s.occupied, r.changes),
        pending_moves: o.state.pending_moves,
        ..s
    })
    &&& r.changes.len() <= o.requests.len()
    &&& carry_out(
        o.requests.take(r.changes.len() as int),
        s.config->Ok_0.notes_dir,
        s.session->0,
        r.changes,
    )
}

proof fn lemma_files_are_moved(occupied: Set<Seq<char>>, changes: Seq<Change>)
    ensures
        occupied_after(occupied, changes) == moved_keys(occupied, changes),
    decreases changes.len(),
{
    if changes.len() > 0 {
        lemma_files_are_moved(occupied, changes.drop_last());
    }
}

proof fn lemma_apply(s: State)
    requires
        s.listed_once,
        is_settled_in(s),
    ensures
        has_done_a_round(s, apply(s)),
        apply(s).requests.len() == round(
            s.icon,
            s.known,
            s.tabs,
            s.notes,
            s.occupied,
        ).changes.len(),
{
    let r = round(s.icon, s.known, s.tabs, s.notes, s.occupied);
    lemma_files_are_moved(s.occupied, r.changes);
    let o = apply(s);
    assert(o.requests.take(r.changes.len() as int) =~= o.requests);
}

/// The tabs are remembered whenever they are told. Once the notes are known they are brought in
/// step with the tabs at once; before, nothing is asked.
pub proof fn law_tabs_bring_a_round(s: State, tabs: Seq<Tab>)
    requires
        s.config is Ok,
    ensures
        ({
            let told = State { tabs, ..s };
            let o = step(s, Event::Tabs(tabs));
            &&& s.listed_once && is_settled_in(s) ==> has_done_a_round(told, o)
                && o.requests.len() == round(
                s.icon,
                s.known,
                tabs,
                s.notes,
                s.occupied,
            ).changes.len()
            &&& !(s.listed_once && is_settled_in(s)) ==> o.state == told && o.requests.len() == 0
        }),
{
    let told = State { tabs, ..s };
    if s.listed_once && is_settled_in(s) {
        lemma_apply(told);
    }
}

/// A listing of the session tells which keys have a file and which of them a note; one that failed
/// tells that there are none. The tabs are brought in step with it if the plugin still runs in that
/// session, and a listing that is done is told last.
pub proof fn law_listing_brings_a_round(
    s: State,
    exit_code: Option<i32>,
    output: Seq<char>,
    dir: Seq<char>,
    name: Seq<char>,
)
    requires
        s.config is Ok,
        !s.migrating,
        s.session == Some(name),
    ensures
        ({
            let o = step(
                s,
                Event::Result { exit_code, output, context: list_run(dir, name).context },
            );
            let done = exit_code == Some(0i32);
            let told = State {
                notes: if done {
                    listed_keys(output, 'N')
                } else {
                    Set::empty()
                },
                occupied: if done {
                    listed_keys(output, 'P')
                } else {
                    Set::empty()
                },
                listed_once: true,
                ..s
            };
            let changes = if s.requested == Some(name) {
                round(s.icon, s.known, s.tabs, told.notes, told.occupied).changes
            } else {
                Seq::empty()
            };
            let ready: int = if done {
                1
            } else {
                0
            };
            &&& s.requested == Some(name) ==> has_done_a_round(told, o)
            &&& s.requested != Some(name) ==> o.state == told
            &&& o.requests.len() == changes.len() + ready
            &&& done ==> o.requests.last() == (Request::Pipe {
                name: "tab-notes:session-ready"@,
                payload: name,
            })
        }),
{
    law_results_are_recognised(dir, name, 0, name);
    law_session_comes_back(dir, dir, name);
    lemma_names_differ();
    let done = exit_code == Some(0i32);
    let told = State {
        notes: if done {
            listed_keys(output, 'N')
        } else {
            Set::empty()
        },
        occupied: if done {
            listed_keys(output, 'P')
        } else {
            Set::empty()
        },
        listed_once: true,
        ..s
    };
    let o = step(s, Event::Result { exit_code, output, context: list_run(dir, name).context });
    if s.requested == Some(name) {
        lemma_apply(told);
        let n = apply(told).requests.len() as int;
        assert(o.requests.take(n) =~= apply(told).requests.take(n));
    }
}

/// The watcher goes by the session that is flagged as the current one, and does nothing if it is
/// the one that it goes by already.
pub proof fn law_session_is_the_current_one(s: State, sessions: Seq<Session>, k: int)
    requires
        s.config is Ok,
        0 <= k < sessions.len(),
        sessions[k].is_current,
        forall|i: int| 0 <= i < k ==> !(#[trigger] sessions[i]).is_current,
    ensures
        ({
            let name = sessions[k].name;
            let o = step(s, Event::Sessions(sessions));
            let dir = s.config->Ok_0.notes_dir;
            &&& o.state.requested == Some(name)
            &&& s.requested == Some(name) ==> does_nothing(s, Event::Sessions(sessions))
            &&& s.requested != Some(name) && !is_free(s) ==> o.state == (State {
                requested: Some(name),
                ..s
            }) && o.requests.len() == 0
            &&& s.requested != Some(name) && is_free(s) && s.session is None ==> o.state == (State {
                requested: Some(name),
                session: Some(name),
                ..s
            }) && o.requests == seq![Request::Run(ensure_dir_run(session_path(dir, name)))]
            &&& s.requested != Some(name) && is_free(s) && s.session is Some && s.session != Some(
                name,
            ) ==> o.state == (State {
                requested: Some(name),
                migrating: true,
                listed_once: false,
                ..s
            }) && o.requests == seq![
                Request::Run(
                    migrate_run(session_path(dir, s.session->0), session_path(dir, name), name),
                ),
            ]
            &&& s.requested != Some(name) && is_free(s) && s.session == Some(name) ==> o.state == (
            State { requested: Some(name), ..s }) && lists_the_notes(o.state, o.requests)
        }),
{
    lemma_first_where(sessions, |x: Session| x.is_current, k);
}

/// Without a current session nothing is known.
pub proof fn law_no_current_session_says_nothing(s: State, sessions: Seq<Session>)
    requires
        forall|i: int| 0 <= i < sessions.len() ==> !(#[trigger] sessions[i]).is_current,
    ensures
        does_nothing(s, Event::Sessions(sessions)),
{
    lemma_first_where(sessions, |x: Session| x.is_current, sessions.len() as int);
}

/// A watcher that is told that the notes have changed lists them, if it may act; the message is
/// known by its name, and any other says nothing.
pub proof fn law_told_change_is_listed(s: State, name: Seq<char>)
    requires
        is_settled_in(s),
    ensures
        name == "tab-notes:notes-changed"@ && is_free(s) ==> step(s, Event::Pipe(name)).state == s
            && lists_the_notes(s, step(s, Event::Pipe(name)).requests),
        name != "tab-notes:notes-changed"@ || !is_free(s) ==> does_nothing(s, Event::Pipe(name)),
{
}

/// What a modal says about changes, the watcher understands: it lists the notes.
pub proof fn law_watcher_hears_the_modal(
    m: crate::modal_plan::State,
    event: crate::modal_plan::Event,
    message: Seq<char>,
    s: State,
)
    requires
        crate::modal_plan::step(m, event).requests.contains(crate::modal_plan::Request::Pipe(message)),
        is_settled_in(s),
        is_free(s),
    ensures
        lists_the_notes(s, step(s, Event::Pipe(message)).requests),
{
    crate::modal_laws::law_changes_are_told_when_done(m, event, message);
}

/// After a directory was made, a note was deleted or an empty file was cleaned up the notes are
/// listed, whether the command was done or failed.
pub proof fn law_changed_directory_is_listed(
    s: State,
    exit_code: Option<i32>,
    output: Seq<char>,
    path: Seq<char>,
)
    requires
        is_settled_in(s),
    ensures
        ({
            let made = step(
                s,
                Event::Result { exit_code, output, context: ensure_dir_run(path).context },
            );
            let cleaned = step(
                s,
                Event::Result { exit_code, output, context: cleanup_run(path).context },
            );
            let deleted = step(
                s,
                Event::Result { exit_code, output, context: delete_run(path).context },
            );
            &&& made.state == s && lists_the_notes(s, made.requests)
            &&& cleaned.state == s && lists_the_notes(s, cleaned.requests)
            &&& deleted.state == s
            &&& is_free(s) ==> lists_the_notes(s, deleted.requests)
            &&& !is_free(s) ==> deleted.requests.len() == 0
        }),
{
    law_results_are_recognised(path, path, 0, path);
    lemma_names_differ();
}

/// When the last move that was asked for has finished the notes are listed; a note that could not
/// be moved stays with its tab, and nothing else changes.
pub proof fn law_last_move_is_listed(
    s: State,
    exit_code: Option<i32>,
    output: Seq<char>,
    from: Seq<char>,
    to: Seq<char>,
    id: usize,
    key: Seq<char>,
)
    requires
        is_settled_in(s),
        s.permitted,
    ensures
        ({
            let o = step(
                s,
                Event::Result { exit_code, output, context: move_run(from, to, id, key).context },
            );
            &&& o.state == (State {
                known: if exit_code == Some(0i32) {
                    s.known
                } else {
                    s.known.insert(id, key)
                },
                pending_moves: if s.pending_moves > 0 {
                    (s.pending_moves - 1) as nat
                } else {
                    0
                },
                ..s
            })
            &&& s.pending_moves <= 1 ==> lists_the_notes(s, o.requests)
            &&& s.pending_moves > 1 ==> o.requests.len() == 0
        }),
{
    law_results_are_recognised(from, to, id, key);
    law_moved_note_comes_back(from, to, id, key);
    lemma_names_differ();
}

/// The result of any other command says nothing to the watcher.
pub proof fn law_other_results_say_nothing(
    s: State,
    exit_code: Option<i32>,
    output: Seq<char>,
    context: Map<Seq<char>, Seq<char>>,
)
    requires
        entry(context, OP_KEY@) != Some(OP_ENSURE_DIR@),
        entry(context, OP_KEY@) != Some(OP_MIGRATE@),
        entry(context, OP_KEY@) != Some(OP_LIST@),
        entry(context, OP_KEY@) != Some(OP_MOVE@),
        entry(context, OP_KEY@) != Some(OP_DELETE@),
        entry(context, OP_KEY@) != Some(OP_CLEANUP@),
    ensures
        does_nothing(s, Event::Result { exit_code, output, context }),
        does_nothing(s, Event::Other),
{
}

/// Notes that have been moved to another session are from then on those of that session, and no
/// migration is running unless the session was renamed again.
pub proof fn law_migrated_notes_are_of_the_new_session(
    s: State,
    from: Seq<char>,
    to: Seq<char>,
    name: Seq<char>,
    output: Seq<char>,
)
    requires
        s.config is Ok,
        s.permitted,
        s.pending_moves == 0,
        s.requested is Some,
    ensures
        ({
            let o = step(
                s,
                Event::Result {
                    exit_code: Some(0i32),
                    output,
                    context: migrate_run(from, to, name).context,
                },
            );
            if s.requested == Some(name) {
                o.state == (State { session: Some(name), migrating: false, ..s })
            } else {
                o.state == (State {
                    session: Some(name),
                    migrating: true,
                    listed_once: false,
                    ..s
                })
            }
        }),
{
    law_results_are_recognised(from, to, 0, name);
    law_session_comes_back(from, to, name);
    lemma_names_differ();
}

/// If the watcher may not act when the notes have been moved, they are of the new session all the
/// same, and nothing is asked.
pub proof fn law_migrated_notes_wait(
    s: State,
    from: Seq<char>,
    to: Seq<char>,
    name: Seq<char>,
    output: Seq<char>,
)
    requires
        s.config is Ok,
        !s.permitted || s.pending_moves > 0 || s.requested is None,
    ensures
        step(
            s,
            Event::Result {
                exit_code: Some(0i32),
                output,
                context: migrate_run(from, to, name).context,
            },
        ) == (Outcome {
            state: State { session: Some(name), migrating: false, ..s },
            requests: Seq::empty(),
        }),
{
    law_results_are_recognised(from, to, 0, name);
    law_session_comes_back(from, to, name);
    lemma_names_differ();
}

/// A permission that is given is remembered. A session that is known already is then begun.
pub proof fn law_permission_is_remembered(s: State)
    requires
        s.config is Ok,
    ensures
        ({
            let o = step(s, Event::PermissionGranted);
            let allowed = State { permitted: true, ..s };
            &&& o.state.permitted
            &&& s.requested is None || s.migrating || s.pending_moves > 0 ==> o.state == allowed
                && o.requests.len() == 0
            &&& s.requested is Some && s.session is None && is_free(allowed) ==> o.state == (State {
                session: s.requested,
                ..allowed
            }) && o.requests == seq![
                Request::Run(
                    ensure_dir_run(session_path(s.config->Ok_0.notes_dir, s.requested->0)),
                ),
            ]
            &&& is_settled_in(s) && is_free(allowed) ==> o.state == allowed && lists_the_notes(
                s,
                o.requests,
            )
        }),
{
}

/// A watcher without permissions is inert from then on.
pub proof fn law_denied_watcher_is_inert(s: State, event: Event)
    requires
        s.config is Ok,
    ensures
        ({
            let o = step(s, Event::PermissionDenied);
            &&& o.requests.len() == 0
            &&& o.state == (State { config: Err("tab-notes: permissions denied"@), ..s })
            &&& does_nothing(o.state, event)
        }),
{
}

/// A watcher that has been told nothing knows nothing and may do nothing. It marks tabs with the
/// icon of its configuration.
pub proof fn law_new_watcher_knows_nothing(config: Result<Settings, Seq<char>>)
    ensures
        ({
            let s = new_state(config);
            &&& s.config == config
            &&& config is Ok ==> s.icon == config->Ok_0.icon
            &&& s.known.dom().len() == 0 && s.known =~= Map::<usize, Seq<char>>::empty()
            &&& s.session is None && s.requested is None
            &&& !s.migrating && !s.permitted && !s.listed_once
            &&& s.pending_moves == 0
            &&& s.tabs.len() == 0
            &&& s.notes =~= Set::<Seq<char>>::empty() && s.occupied =~= Set::<Seq<char>>::empty()
        }),
{
}

/// The icon never changes.
pub proof fn law_icon_stays(s: State, event: Event)
    ensures
        step(s, event).state.icon == s.icon,
        event != Event::PermissionDenied ==> step(s, event).state.config == s.config,
{
}

} // verus!
