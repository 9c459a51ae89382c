//! What holds of a watcher over all events.
use crate::collisions::lemma_collision_changes;
use crate::config::Settings;
use crate::fs_ops::{
    ensure_dir_run, entry, law_moved_note_comes_back, law_results_are_recognised,
    law_session_comes_back, lemma_names_differ, list_run, migrate_run, move_run, OP_ENSURE_DIR,
    OP_KEY, OP_LIST, OP_MIGRATE, OP_MOVE, SESSION_FAILED, SESSION_KEY, SESSION_READY,
};
use crate::paths::{key_path, session_path};
use crate::plan::{
    all_changes, changes_for, collision_renames, expected_name, move_all, round, tab_key, Change,
    Tab,
};
use crate::session::{current_name, Session};
use crate::watcher_plan::{
    apply, ignored, is_in_place, move_count, new_state, occupied_after, request_of, requests_for,
    step, Event, Request, State,
};
use vstd::prelude::*;

verus! {

/// The state after some events.
pub open spec fn after(s: State, events: Seq<Event>) -> State
    decreases events.len(),
{
    if events.len() == 0 {
        s
    } else {
        step(after(s, events.drop_last()), events.last()).state
    }
}

/// The request runs a command of this operation.
pub open spec fn is_run_of(r: Request, op: Seq<char>) -> bool {
    r matches Request::Run(run) && entry(run.context, OP_KEY@) == Some(op)
}

/// The event is the result of a command of this operation.
pub open spec fn is_result_of(event: Event, op: Seq<char>) -> bool {
    event matches Event::Result { context, .. } && entry(context, OP_KEY@) == Some(op)
}

/// How many of the requests run a command of this operation.
pub open spec fn runs_of(requests: Seq<Request>, op: Seq<char>) -> nat
    decreases requests.len(),
{
    if requests.len() == 0 {
        0
    } else {
        runs_of(requests.drop_last(), op) + if is_run_of(requests.last(), op) {
            1nat
        } else {
            0nat
        }
    }
}

/// Without a configuration, or without permissions, nothing comes of anything.
pub proof fn law_inert_without_configuration(s: State, events: Seq<Event>, event: Event)
    requires
        s.config is Err,
    ensures
        after(s, events) == s,
        step(s, event) == ignored(s),
    decreases events.len(),
{
    if events.len() > 0 {
        law_inert_without_configuration(s, events.drop_last(), event);
    }
}

/// The changes of a round ask for names of tabs and for moves of notes, and for nothing else.
proof fn lemma_requests_for(dir: Seq<char>, session: Seq<char>, changes: Seq<Change>)
    ensures
        forall|i: int|
            0 <= i < changes.len() ==> {
                let r = #[trigger] requests_for(dir, session, changes)[i];
                r is RenameTab || is_run_of(r, OP_MOVE@)
            },
        runs_of(requests_for(dir, session, changes), OP_MOVE@) == move_count(changes),
        runs_of(requests_for(dir, session, changes), OP_MIGRATE@) == 0,
    decreases changes.len(),
{
    lemma_names_differ();
    let all = requests_for(dir, session, changes);
    assert forall|i: int| 0 <= i < changes.len() implies {
        let r = #[trigger] all[i];
        r is RenameTab || is_run_of(r, OP_MOVE@)
    } by {
        lemma_request_of(dir, session, changes[i]);
    }
    if changes.len() > 0 {
        let front = changes.drop_last();
        lemma_requests_for(dir, session, front);
        assert(all.drop_last() =~= requests_for(dir, session, front));
        assert(all.last() == request_of(dir, session, changes.last()));
        lemma_request_of(dir, session, changes.last());
    }
}

proof fn lemma_request_of(dir: Seq<char>, session: Seq<char>, change: Change)
    ensures
        change is RenameTab <==> request_of(dir, session, change) is RenameTab,
        change is MoveNote <==> is_run_of(request_of(dir, session, change), OP_MOVE@),
{
    if let Change::MoveNote { id, from, to } = change {
        law_results_are_recognised(
            key_path(dir, session, from),
            key_path(dir, session, to),
            id,
            from,
        );
    }
}

/// Tabs are renamed and notes are moved only once the notes of the session are known, and not
/// while they are being moved to another session.
pub proof fn law_changes_need_a_listing(s: State, event: Event, i: int)
    requires
        0 <= i < step(s, event).requests.len(),
        step(s, event).requests[i] is RenameTab || is_run_of(
            step(s, event).requests[i],
            OP_MOVE@,
        ),
    ensures
        step(s, event).state.listed_once,
        is_in_place(step(s, event).state),
{
    lemma_runs();
    lemma_names_differ();
}

/// The operations of the commands that are not about a note.
proof fn lemma_runs()
    ensures
        forall|a: Seq<char>|
            entry((#[trigger] ensure_dir_run(a)).context, OP_KEY@) == Some(OP_ENSURE_DIR@),
        forall|a: Seq<char>, b: Seq<char>|
            entry((#[trigger] list_run(a, b)).context, OP_KEY@) == Some(OP_LIST@),
        forall|a: Seq<char>, b: Seq<char>, c: Seq<char>|
            entry((#[trigger] migrate_run(a, b, c)).context, OP_KEY@) == Some(OP_MIGRATE@),
{
    lemma_names_differ();
}

/// The notes become known only by a listing of the session whose notes the directory holds.
pub proof fn law_only_a_listing_tells_the_notes(s: State, event: Event)
    requires
        !s.listed_once,
        step(s, event).state.listed_once,
    ensures
        !s.migrating,
        event matches Event::Result { context, .. } && entry(context, OP_KEY@) == Some(OP_LIST@)
            && entry(context, SESSION_KEY@) == s.session,
{
}

/// A listing of another session, or one that arrives while the notes are being moved, is
/// ignored.
pub proof fn law_stale_listing_is_ignored(
    s: State,
    exit_code: Option<i32>,
    output: Seq<char>,
    dir: Seq<char>,
    session: Seq<char>,
)
    requires
        s.migrating || s.session != Some(session),
    ensures
        step(
            s,
            Event::Result { exit_code, output, context: list_run(dir, session).context },
        ) == ignored(s),
{
    law_results_are_recognised(dir, session, 0, session);
    law_session_comes_back(dir, dir, session);
    lemma_names_differ();
}

/// While the notes are being moved to another session nothing is asked of the host, and only the
/// result of the move ends it.
pub proof fn law_one_migration_at_a_time(s: State, event: Event)
    requires
        s.migrating,
        !is_result_of(event, OP_MIGRATE@),
    ensures
        step(s, event).requests.len() == 0,
        step(s, event).state.migrating,
{
}

/// The notes are moved to another session only with permission and while no note is on the move
/// in the session. They are moved from where they are to the session that the plugin runs in.
pub proof fn law_migration_waits(s: State, event: Event, i: int)
    requires
        0 <= i < step(s, event).requests.len(),
        is_run_of(step(s, event).requests[i], OP_MIGRATE@),
    ensures
        step(s, event).state.permitted,
        step(s, event).state.pending_moves == 0,
        step(s, event).state.migrating,
        !step(s, event).state.listed_once,
        step(s, event).state.session is Some,
        step(s, event).state.requested is Some,
        step(s, event).state.session != step(s, event).state.requested,
        step(s, event).requests == ({
            let t = step(s, event).state;
            let dir = t.config->Ok_0.notes_dir;
            seq![
                Request::Run(
                    migrate_run(
                        session_path(dir, t.session->0),
                        session_path(dir, t.requested->0),
                        t.requested->0,
                    ),
                ),
            ]
        }),
{
    lemma_runs();
    lemma_names_differ();
    assert forall|t: State, k: int|
        0 <= k < #[trigger] apply(t).requests.len() implies !is_run_of(
        #[trigger] apply(t).requests[k],
        OP_MIGRATE@,
    ) by {
        if t.listed_once && is_in_place(t) {
            let r = round(t.icon, t.known, t.tabs, t.notes, t.occupied);
            lemma_requests_for(t.config->Ok_0.notes_dir, t.session->0, r.changes);
            assert(apply(t).requests[k] == requests_for(
                t.config->Ok_0.notes_dir,
                t.session->0,
                r.changes,
            )[k]);
        }
    }
}

/// After the notes have been moved the directory holds those of the new session. They are listed,
/// or, if the session was renamed again meanwhile, moved on.
pub proof fn law_migration_is_followed_up(
    s: State,
    from: Seq<char>,
    to: Seq<char>,
    session: Seq<char>,
    output: Seq<char>,
)
    requires
        s.config is Ok,
        s.permitted,
        s.pending_moves == 0,
        s.requested is Some,
    ensures
        ({
            let o = step(
                s,
                Event::Result {
                    exit_code: Some(0i32),
                    output,
                    context: migrate_run(from, to, session).context,
                },
            );
            let dir = s.config->Ok_0.notes_dir;
            let latest = s.requested->0;
            &&& o.state.session == Some(session)
            &&& o.requests == seq![
                Request::Run(
                    if latest == session {
                        list_run(session_path(dir, session), session)
                    } else {
                        migrate_run(session_path(dir, session), session_path(dir, latest), latest)
                    },
                ),
            ]
        }),
{
    law_results_are_recognised(from, to, 0, session);
    law_session_comes_back(from, to, session);
    lemma_names_differ();
}

/// If the notes could not be moved, the directory holds what it held, nothing is renamed or
/// moved, and the failure is told.
pub proof fn law_failed_migration_is_told(
    s: State,
    exit_code: Option<i32>,
    from: Seq<char>,
    to: Seq<char>,
    session: Seq<char>,
    output: Seq<char>,
)
    requires
        s.config is Ok,
        exit_code != Some(0i32),
    ensures
        ({
            let o = step(
                s,
                Event::Result {
                    exit_code,
                    output,
                    context: migrate_run(from, to, session).context,
                },
            );
            &&& o.state == (State { migrating: false, ..s })
            &&& o.requests == seq![
                Request::Pipe { name: SESSION_FAILED@, payload: session },
            ]
        }),
{
    law_results_are_recognised(from, to, 0, session);
    law_session_comes_back(from, to, session);
    lemma_names_differ();
}

/// A note that could not be moved stays with its tab: the tab is known by the key under which the
/// note still is. A note that was moved changes nothing.
pub proof fn law_failed_move_keeps_its_owner(
    s: State,
    exit_code: Option<i32>,
    output: Seq<char>,
    from: Seq<char>,
    to: Seq<char>,
    id: usize,
    key: Seq<char>,
)
    requires
        s.config is Ok,
    ensures
        step(
            s,
            Event::Result { exit_code, output, context: move_run(from, to, id, key).context },
        ).state.known == if exit_code == Some(0i32) {
            s.known
        } else {
            s.known.insert(id, key)
        },
{
    law_results_are_recognised(from, to, id, key);
    law_moved_note_comes_back(from, to, id, key);
    lemma_names_differ();
}

/// The watcher knows how many moves have not finished: each that it asks for is counted, and each
/// that finishes is taken off.
pub proof fn law_moves_are_counted(s: State, event: Event)
    requires
        s.config is Ok,
        s.pending_moves + runs_of(step(s, event).requests, OP_MOVE@) <= usize::MAX,
    ensures
        step(s, event).state.pending_moves == s.pending_moves + runs_of(
            step(s, event).requests,
            OP_MOVE@,
        ) - if is_result_of(event, OP_MOVE@) && s.pending_moves > 0 {
            1int
        } else {
            0int
        },
{
    lemma_runs();
    lemma_names_differ();
    let o = step(s, event);
    match event {
        Event::Tabs(tabs) => {
            lemma_applied_moves(State { tabs, ..s });
        },
        Event::Result { exit_code, output, context } if entry(context, OP_KEY@) == Some(
            OP_LIST@,
        ) => {
            let done = exit_code == Some(0i32);
            let t = State {
                notes: if done {
                    crate::listing::listed_keys(output, crate::listing::NOTE_TAG)
                } else {
                    Set::empty()
                },
                occupied: if done {
                    crate::listing::listed_keys(output, crate::listing::FILE_TAG)
                } else {
                    Set::empty()
                },
                listed_once: true,
                ..s
            };
            lemma_applied_moves(t);
            if !(s.migrating || entry(context, SESSION_KEY@) != s.session) {
                let asked = apply(t).requests;
                if done && s.session is Some {
                    let told = Request::Pipe { name: SESSION_READY@, payload: s.session->0 };
                    assert(asked.push(told).drop_last() =~= asked);
                }
            }
        },
        _ => {
            lemma_few_requests(o.requests);
        },
    }
}

proof fn lemma_applied_moves(t: State)
    ensures
        t.pending_moves + runs_of(apply(t).requests, OP_MOVE@) <= usize::MAX ==> apply(
            t,
        ).state.pending_moves == t.pending_moves + runs_of(apply(t).requests, OP_MOVE@),
{
    if t.listed_once && is_in_place(t) {
        let r = round(t.icon, t.known, t.tabs, t.notes, t.occupied);
        lemma_requests_for(t.config->Ok_0.notes_dir, t.session->0, r.changes);
    }
}

proof fn lemma_few_requests(requests: Seq<Request>)
    requires
        requests.len() <= 1,
        requests.len() == 1 ==> !is_run_of(requests[0], OP_MOVE@),
    ensures
        runs_of(requests, OP_MOVE@) == 0,
{
    reveal_with_fuel(runs_of, 2);
}

/// No event grants permission or is the result of a command.
pub open spec fn without_permission(events: Seq<Event>) -> bool {
    forall|i: int|
        0 <= i < events.len() ==> !(#[trigger] events[i] is PermissionGranted) && !(
        events[i] is Result)
}

/// Nothing is asked of the host before it has given permission.
pub proof fn law_nothing_without_permission(
    config: Result<Settings, Seq<char>>,
    events: Seq<Event>,
    event: Event,
)
    requires
        without_permission(events.push(event)),
    ensures
        step(after(new_state(config), events), event).requests.len() == 0,
        after(new_state(config), events).session is None,
        !after(new_state(config), events).permitted,
    decreases events.len(),
{
    let all = events.push(event);
    assert(all[events.len() as int] == event);
    if events.len() > 0 {
        let front = events.drop_last();
        let last = events.last();
        assert(front.push(last) =~= events);
        assert forall|i: int| 0 <= i < front.push(last).len() implies !(
        #[trigger] front.push(last)[i] is PermissionGranted) && !(front.push(last)[i] is Result) by {
            assert(all[i] == front.push(last)[i]);
        }
        assert(all[events.len() - 1] == last);
        law_nothing_without_permission(config, front, last);
    }
}

/// The directory of the session is made as soon as the session is known and permission is given,
/// in whichever order that happens.
pub proof fn law_start_in_either_order(
    config: Settings,
    sessions: Seq<Session>,
    name: Seq<char>,
)
    requires
        current_name(sessions) == Some(name),
    ensures
        ({
            let s = new_state(Ok(config));
            let told = step(s, Event::Sessions(sessions)).state;
            let allowed = step(s, Event::PermissionGranted).state;
            let made = seq![
                Request::Run(ensure_dir_run(session_path(config.notes_dir, name))),
            ];
            &&& step(told, Event::PermissionGranted).requests == made
            &&& step(allowed, Event::Sessions(sessions)).requests == made
            &&& step(told, Event::PermissionGranted).state == step(
                allowed,
                Event::Sessions(sessions),
            ).state
        }),
{
}

/// Once the notes of the session are listed, the other plugins hear of it, and hear of it last.
pub proof fn law_listed_session_is_ready(
    s: State,
    output: Seq<char>,
    dir: Seq<char>,
    session: Seq<char>,
)
    requires
        s.config is Ok,
        !s.migrating,
        s.session == Some(session),
    ensures
        ({
            let o = step(
                s,
                Event::Result {
                    exit_code: Some(0i32),
                    output,
                    context: list_run(dir, session).context,
                },
            );
            &&& o.state.listed_once
            &&& o.requests.len() > 0
            &&& o.requests.last() == Request::Pipe { name: SESSION_READY@, payload: session }
        }),
{
    law_results_are_recognised(dir, session, 0, session);
    law_session_comes_back(dir, dir, session);
    lemma_names_differ();
}

/// The moves of a round take the same keys from the files and give the same keys to them as they
/// do with the notes.
proof fn lemma_files_follow_notes(
    icon: Seq<char>,
    known: Map<usize, Seq<char>>,
    notes: Set<Seq<char>>,
    occupied: Set<Seq<char>>,
    last: Set<Seq<char>>,
    tabs: Seq<Tab>,
)
    requires
        notes.subset_of(occupied),
    ensures
        ({
            let m = move_all(icon, known, notes, tabs);
            &&& m.left.len() == tabs.len()
            &&& m.notes.subset_of(occupied_after(occupied, all_changes(icon, last, tabs, m.left)))
        }),
    decreases tabs.len(),
{
    if tabs.len() > 0 {
        let front = tabs.drop_last();
        let m = move_all(icon, known, notes, tabs);
        let b = move_all(icon, known, notes, front);
        lemma_files_follow_notes(icon, known, notes, occupied, last, front);
        assert(m.left.drop_last() =~= b.left);
        let changes = all_changes(icon, last, front, b.left);
        let own = changes_for(icon, last, tabs.last(), m.left.last());
        let moved = match m.left.last() {
            Some(from) => changes.push(
                Change::MoveNote { id: tabs.last().id, from, to: tab_key(icon, tabs.last()) },
            ),
            None => changes,
        };
        let files = occupied_after(occupied, changes);
        if let Some(from) = m.left.last() {
            assert(moved.drop_last() =~= changes);
            assert(occupied_after(occupied, moved) == files.remove(from).insert(
                tab_key(icon, tabs.last()),
            ));
        }
        assert(m.notes.subset_of(occupied_after(occupied, moved)));
        let name = expected_name(icon, last, tabs.last());
        assert(all_changes(icon, last, tabs, m.left) == changes + own);
        if name != tabs.last().name {
            let all = moved.push(Change::RenameTab { id: tabs.last().id, name });
            assert(changes + own =~= all);
            assert(all.drop_last() =~= moved);
            assert(occupied_after(occupied, all) == occupied_after(occupied, moved));
        } else {
            assert(changes + own =~= moved);
        }
    }
}

/// New names of tabs leave the files as they are.
proof fn lemma_renames_keep_files(occupied: Set<Seq<char>>, changes: Seq<Change>)
    requires
        forall|i: int| 0 <= i < changes.len() ==> (#[trigger] changes[i]) is RenameTab,
    ensures
        occupied_after(occupied, changes) == occupied,
    decreases changes.len(),
{
    if changes.len() > 0 {
        assert(changes[changes.len() - 1] is RenameTab);
        assert forall|i: int| 0 <= i < changes.len() - 1 implies (
        #[trigger] changes.drop_last()[i]) is RenameTab by {
            assert(changes[i] is RenameTab);
        }
        lemma_renames_keep_files(occupied, changes.drop_last());
    }
}

/// Moving notes keeps every note among the files, before the next listing too.
pub proof fn law_notes_stay_among_the_files(s: State)
    requires
        s.notes.subset_of(s.occupied),
    ensures
        apply(s).state.notes.subset_of(apply(s).state.occupied),
{
    if s.listed_once && is_in_place(s) {
        if collision_renames(s.icon, s.known, s.tabs, s.occupied).len() > 0 {
            let r = round(s.icon, s.known, s.tabs, s.notes, s.occupied);
            lemma_collision_changes(s.icon, s.known, s.tabs, s.occupied);
            lemma_renames_keep_files(s.occupied, r.changes);
        } else {
            let m = move_all(s.icon, s.known, s.notes, s.tabs);
            lemma_files_follow_notes(s.icon, s.known, s.notes, s.occupied, m.notes, s.tabs);
        }
    }
}

} // verus!
