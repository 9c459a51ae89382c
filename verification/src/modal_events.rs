//! What the modal makes of what the host tells it.
use crate::config::Settings;
use crate::finding::{first_where, lemma_first_where};
use crate::fs_ops::{
    cleanup_run, delete_run, entry, law_results_are_recognised, lemma_names_differ, read_run,
    OP_CLEANUP, OP_DELETE, OP_EDIT, OP_KEY, OP_READ,
};
use crate::icon::clean_name;
use crate::modal_keys::{is_awake, law_f_hands_the_focus_back, law_m_restores, pressed};
use crate::modal_laws::{
    after, law_oldest_instance_stays, lemma_corner_box_keeps_the_size, without_toggle,
};
use crate::modal_plan::{
    floating_coordinates, incumbent, is_own, is_usable, new_state, own_group, pane_to_return_to,
    panes_at, step, Event, Geometry, Group, Key, Outcome, Pane, Request, Slot, State,
};
use crate::paths::{key_path, note_key};
use crate::session::Session;
use crate::text::decimal;
use vstd::prelude::*;

verus! {

/// Nothing comes of the event.
pub open spec fn does_nothing(s: State, event: Event) -> bool {
    step(s, event) == (Outcome { state: s, redraw: false, requests: Seq::empty() })
}

/// The file of the tab's note is asked for, if the session and the tab are known; nothing else is.
pub open spec fn reads_its_note(o: Outcome) -> bool {
    let s = o.state;
    if s.session is Some && s.tab is Some {
        o.requests == seq![
            Request::Run(
                read_run(key_path(s.config->Ok_0.notes_dir, s.session->0, note_key(s.tab->0))),
            ),
        ]
    } else {
        o.requests.len() == 0
    }
}

/// A read that failed means that there is no note.
pub proof fn law_failed_read_shows_nothing(
    s: State,
    exit_code: Option<i32>,
    path: Seq<char>,
    output: Seq<char>,
)
    requires
        is_awake(s),
        exit_code != Some(0i32),
    ensures
        step(s, Event::Result { exit_code, output, context: read_run(path).context }) == (Outcome {
            state: State { content: None, ..s },
            redraw: true,
            requests: Seq::empty(),
        }),
{
    law_results_are_recognised(path, path, 0, path);
}

/// A read that is done shows what was read, whatever it was, and asks for nothing.
pub proof fn law_done_read_shows_the_output(s: State, path: Seq<char>, output: Seq<char>)
    requires
        is_awake(s),
    ensures
        step(
            s,
            Event::Result { exit_code: Some(0i32), output, context: read_run(path).context },
        ) == (Outcome {
            state: State { content: Some(output), ..s },
            redraw: true,
            requests: Seq::empty(),
        }),
{
    law_results_are_recognised(path, path, 0, path);
}

/// A deletion that is done takes the note away and is told; one that failed leaves the note where
/// it is and says so.
pub proof fn law_deletion_ends(
    s: State,
    exit_code: Option<i32>,
    path: Seq<char>,
    output: Seq<char>,
)
    requires
        is_awake(s),
    ensures
        ({
            let o = step(
                s,
                Event::Result { exit_code, output, context: delete_run(path).context },
            );
            if exit_code == Some(0i32) {
                o == (Outcome {
                    state: State { content: None, status: Some("note deleted"@), ..s },
                    redraw: true,
                    requests: seq![Request::Pipe("tab-notes:notes-changed"@)],
                })
            } else {
                o == (Outcome {
                    state: State {
                        status: Some("delete failed — see the Zellij log"@),
                        ..s
                    },
                    redraw: true,
                    requests: Seq::empty(),
                })
            }
        }),
{
    law_results_are_recognised(path, path, 0, path);
    lemma_names_differ();
}

/// After the clean-up of an edit, done or failed, the note is read again and the change is told.
pub proof fn law_cleanup_ends(
    s: State,
    exit_code: Option<i32>,
    path: Seq<char>,
    output: Seq<char>,
)
    requires
        is_awake(s),
    ensures
        ({
            let o = step(
                s,
                Event::Result { exit_code, output, context: cleanup_run(path).context },
            );
            let told = Request::Pipe("tab-notes:notes-changed"@);
            &&& o.state == s
            &&& o.redraw
            &&& s.session is Some && s.tab is Some ==> o.requests == seq![
                Request::Run(
                    read_run(
                        key_path(s.config->Ok_0.notes_dir, s.session->0, note_key(s.tab->0)),
                    ),
                ),
                told,
            ]
            &&& s.session is None || s.tab is None ==> o.requests == seq![told]
        }),
{
    law_results_are_recognised(path, path, 0, path);
    lemma_names_differ();
    let o = step(s, Event::Result { exit_code, output, context: cleanup_run(path).context });
    let told = Request::Pipe("tab-notes:notes-changed"@);
    if s.session is Some && s.tab is Some {
        let file = key_path(s.config->Ok_0.notes_dir, s.session->0, note_key(s.tab->0));
        assert(o.requests =~= seq![Request::Run(read_run(file)), told]);
    } else {
        assert(o.requests =~= seq![told]);
    }
}

/// The result of any other command says nothing to the modal.
pub proof fn law_other_results_say_nothing(
    s: State,
    exit_code: Option<i32>,
    output: Seq<char>,
    context: Map<Seq<char>, Seq<char>>,
)
    requires
        entry(context, OP_KEY@) != Some(OP_READ@),
        entry(context, OP_KEY@) != Some(OP_DELETE@),
        entry(context, OP_KEY@) != Some(OP_CLEANUP@),
    ensures
        does_nothing(s, Event::Result { exit_code, output, context }),
{
}

/// An editor that the modal opened leaves an empty file to be removed; any other is no business
/// of the modal's.
pub proof fn law_closed_editor_is_cleaned_up(s: State, context: Map<Seq<char>, Seq<char>>)
    requires
        is_awake(s),
    ensures
        entry(context, OP_KEY@) == Some(OP_EDIT@) && s.session is Some && s.tab is Some ==> step(
            s,
            Event::EditorClosed(context),
        ) == (Outcome {
            state: State { status: None, ..s },
            redraw: true,
            requests: seq![
                Request::Run(
                    cleanup_run(
                        key_path(s.config->Ok_0.notes_dir, s.session->0, note_key(s.tab->0)),
                    ),
                ),
            ],
        }),
        entry(context, OP_KEY@) != Some(OP_EDIT@) || s.session is None || s.tab is None
            ==> does_nothing(s, Event::EditorClosed(context)),
{
}

/// The modal goes by the session that is flagged as the current one. A new session drops what was
/// known about the note and has the note read; the same one changes nothing.
pub proof fn law_session_is_the_current_one(s: State, sessions: Seq<Session>, k: int)
    requires
        is_awake(s),
        0 <= k < sessions.len(),
        sessions[k].is_current,
        forall|i: int| 0 <= i < k ==> !(#[trigger] sessions[i]).is_current,
    ensures
        ({
            let o = step(s, Event::Sessions(sessions));
            &&& o.redraw
            &&& o.state.session == Some(sessions[k].name)
            &&& s.session == Some(sessions[k].name) ==> o.state == s && o.requests.len() == 0
            &&& s.session != Some(sessions[k].name) ==> reads_its_note(o) && o.state == (State {
                session: Some(sessions[k].name),
                content: None,
                status: None,
                confirming_delete: false,
                ..s
            })
        }),
{
    let f = |x: Session| x.is_current;
    lemma_first_where(sessions, f, k);
}

/// Without a current session nothing is known.
pub proof fn law_no_current_session_says_nothing(s: State, sessions: Seq<Session>)
    requires
        forall|i: int| 0 <= i < sessions.len() ==> !(#[trigger] sessions[i]).is_current,
    ensures
        does_nothing(s, Event::Sessions(sessions)),
{
    let f = |x: Session| x.is_current;
    lemma_first_where(sessions, f, sessions.len() as int);
}

/// A modal that belongs to a tab looks only for the tab with that id. If the tab has another name
/// now, the view goes to the top, what was known about the note is dropped, and the note is read.
pub proof fn law_tabs_tell_the_name(s: State, tabs: Seq<Slot>, k: int)
    requires
        is_awake(s),
        s.tab_id is Some,
        0 <= k < tabs.len(),
        tabs[k].id == s.tab_id->0,
        forall|i: int| 0 <= i < k ==> (#[trigger] tabs[i]).id != s.tab_id->0,
    ensures
        ({
            let o = step(s, Event::Tabs(tabs));
            let name = clean_name(tabs[k].name, s.config->Ok_0.icon);
            if s.tab == Some(name) {
                o == (Outcome {
                    state: State { tabs, tab_position: Some(tabs[k].position), ..s },
                    redraw: false,
                    requests: Seq::empty(),
                })
            } else {
                &&& o.redraw
                &&& reads_its_note(o)
                &&& o.state == (State {
                    tabs,
                    tab_position: Some(tabs[k].position),
                    tab: Some(name),
                    scroll: 0,
                    content: None,
                    status: None,
                    confirming_delete: false,
                    ..s
                })
            }
        }),
{
    let id = s.tab_id->0;
    let f = |t: Slot| t.id == id;
    lemma_first_where(tabs, f, k);
}

/// Tabs among which the modal's own is not change nothing of what is shown.
pub proof fn law_other_tabs_change_nothing(s: State, tabs: Seq<Slot>)
    requires
        is_awake(s),
        s.tab_id is Some,
        forall|i: int| 0 <= i < tabs.len() ==> (#[trigger] tabs[i]).id != s.tab_id->0,
    ensures
        step(s, Event::Tabs(tabs)) == (Outcome {
            state: State { tabs, ..s },
            redraw: false,
            requests: Seq::empty(),
        }),
{
    let id = s.tab_id->0;
    let f = |t: Slot| t.id == id;
    lemma_first_where(tabs, f, tabs.len() as int);
}

/// Without permissions the modal says so and is inert from then on.
pub proof fn law_denied_modal_is_inert(s: State, event: Event)
    requires
        is_awake(s),
    ensures
        ({
            let o = step(s, Event::PermissionDenied);
            &&& o.redraw
            &&& o.requests.len() == 0
            &&& o.state == (State {
                config: Err(
                    "tab-notes: permissions denied — close this pane, reload the plugin and accept the request"@,
                ),
                ..s
            })
            &&& does_nothing(o.state, event)
        }),
        does_nothing(s, Event::Other),
{
}

/// The modal's own pane is pane `p` of group `g`, and nowhere before; no other group before it is
/// of the same tab.
pub open spec fn is_own_place(groups: Seq<Group>, me: u32, g: int, p: int) -> bool {
    &&& 0 <= g < groups.len()
    &&& 0 <= p < groups[g].panes.len()
    &&& groups[g].panes[p].is_plugin
    &&& groups[g].panes[p].id == me
    &&& forall|j: int|
        0 <= j < p ==> !((#[trigger] groups[g].panes[j]).is_plugin && groups[g].panes[j].id == me)
    &&& forall|i: int, j: int|
        0 <= i < g && 0 <= j < groups[i].panes.len() ==> !((
        #[trigger] groups[i].panes[j]).is_plugin && groups[i].panes[j].id == me)
    &&& forall|i: int|
        0 <= i < g ==> (#[trigger] groups[i]).position != groups[g].position
}

/// No older instance of the same plugin is open beside pane `p` of group `g`.
pub open spec fn is_alone(groups: Seq<Group>, me: u32, g: int, p: int) -> bool {
    groups[g].panes[p].plugin_url is None || forall|i: int|
        0 <= i < groups[g].panes.len() ==> !((#[trigger] groups[g].panes[i]).is_plugin
            && groups[g].panes[i].is_floating && !groups[g].panes[i].is_suppressed
            && groups[g].panes[i].id < me && groups[g].panes[i].plugin_url
            == groups[g].panes[p].plugin_url)
}

/// The modal finds its own pane by its id, among the plugins only, and the panes beside it.
pub proof fn law_own_pane_is_found(groups: Seq<Group>, me: u32, g: int, p: int)
    requires
        is_own_place(groups, me, g, p),
    ensures
        own_group(groups, me) == Some(groups[g]),
        first_where(groups[g].panes, |x: Pane| is_own(x, me)) == Some(groups[g].panes[p]),
        panes_at(groups, groups[g].position) == Some(groups[g]),
{
    let own = |x: Pane| is_own(x, me);
    let here = |x: Group| first_where(x.panes, |y: Pane| is_own(y, me)) is Some;
    lemma_first_where(groups[g].panes, own, p);
    assert forall|i: int| 0 <= i < g implies !here(#[trigger] groups[i]) by {
        assert forall|j: int| 0 <= j < groups[i].panes.len() implies !own(
            #[trigger] groups[i].panes[j],
        ) by {}
        lemma_first_where(groups[i].panes, own, groups[i].panes.len() as int);
    }
    assert(here(groups[g]));
    lemma_first_where(groups, here, g);
    let position = groups[g].position;
    lemma_first_where(groups, |x: Group| x.position == position, g);
}

/// Panes among which the modal's own is not say nothing.
pub proof fn law_foreign_panes_say_nothing(s: State, me: u32, groups: Seq<Group>)
    requires
        forall|i: int, j: int|
            0 <= i < groups.len() && 0 <= j < groups[i].panes.len() ==> !((
            #[trigger] groups[i].panes[j]).is_plugin && groups[i].panes[j].id == me),
    ensures
        does_nothing(s, Event::Panes { me, groups }),
{
    let own = |x: Pane| is_own(x, me);
    let here = |x: Group| first_where(x.panes, |y: Pane| is_own(y, me)) is Some;
    assert forall|i: int| 0 <= i < groups.len() implies !here(#[trigger] groups[i]) by {
        assert forall|j: int| 0 <= j < groups[i].panes.len() implies !own(
            #[trigger] groups[i].panes[j],
        ) by {}
        lemma_first_where(groups[i].panes, own, groups[i].panes.len() as int);
    }
    lemma_first_where(groups, here, groups.len() as int);
}

proof fn lemma_alone(groups: Seq<Group>, me: u32, g: int, p: int)
    requires
        is_own_place(groups, me, g, p),
        is_alone(groups, me, g, p),
    ensures
        incumbent(groups, groups[g].position, me, groups[g].panes[p]) is None,
{
    law_own_pane_is_found(groups, me, g, p);
    let pane = groups[g].panes[p];
    if pane.plugin_url is Some {
        let url = pane.plugin_url->0;
        let panes = groups[g].panes;
        crate::modal_laws::lemma_older_modals(panes, me, url);
        let ids = crate::modal_plan::older_modals(panes, me, url);
        crate::finding::lemma_lowest(ids);
        if ids.len() > 0 {
            assert(ids.contains(ids[0]));
            let i = choose|i: int|
                0 <= i < panes.len() && crate::modal_plan::is_older_modal(
                    #[trigger] panes[i],
                    me,
                    url,
                ) && panes[i].id == ids[0];
            assert(panes[i] == groups[g].panes[i]);
        }
    }
}

/// An instance beside which an older one of the same plugin is open hands over to the oldest: it
/// focuses it and closes itself, and nothing else about it changes.
pub proof fn law_younger_instance_hands_over(
    s: State,
    me: u32,
    groups: Seq<Group>,
    g: int,
    p: int,
    k: int,
)
    requires
        is_awake(s),
        is_own_place(groups, me, g, p),
        groups[g].panes[p].plugin_url is Some,
        0 <= k < groups[g].panes.len(),
        groups[g].panes[k].is_plugin,
        groups[g].panes[k].is_floating,
        !groups[g].panes[k].is_suppressed,
        groups[g].panes[k].id < me,
        groups[g].panes[k].plugin_url == groups[g].panes[p].plugin_url,
        forall|i: int|
            0 <= i < groups[g].panes.len() && (#[trigger] groups[g].panes[i]).is_plugin
                && groups[g].panes[i].is_floating && !groups[g].panes[i].is_suppressed
                && groups[g].panes[i].plugin_url == groups[g].panes[p].plugin_url
                ==> groups[g].panes[k].id <= groups[g].panes[i].id,
    ensures
        step(s, Event::Panes { me, groups }) == (Outcome {
            state: State { closing_duplicate: true, ..s },
            redraw: false,
            requests: seq![Request::FocusPlugin(groups[g].panes[k].id), Request::Close],
        }),
{
    law_own_pane_is_found(groups, me, g, p);
    law_oldest_instance_stays(
        s,
        me,
        groups,
        groups[g],
        groups[g].panes[p].plugin_url->0,
        groups[g].panes[k].id,
    );
}

/// A modal that stays notes down whether it has the focus and, while it is expanded, where its
/// pane is now and how large. It has to be drawn again exactly if the focus changed. A modal that
/// belongs to a tab already asks for nothing and changes in nothing else that is shown.
pub proof fn law_panes_are_noted(s: State, me: u32, groups: Seq<Group>, g: int, p: int)
    requires
        is_awake(s),
        is_own_place(groups, me, g, p),
        is_alone(groups, me, g, p),
    ensures
        ({
            let o = step(s, Event::Panes { me, groups });
            let pane = groups[g].panes[p];
            &&& is_awake(o.state)
            &&& o.redraw == (s.focused != pane.is_focused)
            &&& o.state.focused == pane.is_focused
            &&& o.state.minimized == s.minimized
            &&& s.minimized ==> o.state.expanded == s.expanded
            &&& !s.minimized ==> o.state.expanded == Some(
                Geometry {
                    x: pane.x,
                    y: pane.y,
                    width: pane.columns,
                    height: pane.rows,
                    percent: false,
                },
            )
            &&& o.state.session == s.session && o.state.tabs == s.tabs && o.state.config
                == s.config
            &&& s.tab_id is Some ==> o.requests.len() == 0 && o.state == (State {
                focused: o.state.focused,
                expanded: o.state.expanded,
                terminal_pane: o.state.terminal_pane,
                ..s
            })
        }),
{
    law_own_pane_is_found(groups, me, g, p);
    lemma_alone(groups, me, g, p);
}

/// The box goes back to the place and the size of its pane in the last update before it was
/// minimised, whatever happens while it is in the corner.
pub proof fn law_box_goes_back_to_where_it_was_seen(
    s: State,
    me: u32,
    groups: Seq<Group>,
    g: int,
    p: int,
    events: Seq<Event>,
)
    requires
        is_awake(s),
        !s.minimized,
        is_own_place(groups, me, g, p),
        is_alone(groups, me, g, p),
        without_toggle(events),
        is_awake(
            after(
                pressed(step(s, Event::Panes { me, groups }).state, Key::Char('m')).state,
                events,
            ),
        ),
    ensures
        ({
            let seen = step(s, Event::Panes { me, groups }).state;
            let pane = groups[g].panes[p];
            let later = after(pressed(seen, Key::Char('m')).state, events);
            floating_coordinates(
                decimal(pane.x as nat),
                decimal(pane.y as nat),
                decimal(pane.columns as nat),
                decimal(pane.rows as nat),
            ) matches Some(c) ==> pressed(later, Key::Char('m')).requests == seq![
                Request::Pin(false),
                Request::Place(c),
            ]
        }),
{
    law_panes_are_noted(s, me, groups, g, p);
    let seen = step(s, Event::Panes { me, groups }).state;
    let small = pressed(seen, Key::Char('m')).state;
    lemma_corner_box_keeps_the_size(small, events);
    law_m_restores(after(small, events));
}

/// The pane is a terminal that can take the focus.
pub open spec fn can_take_the_focus(pane: Pane) -> bool {
    !pane.is_plugin && !pane.is_floating && pane.is_selectable && !pane.exited
}

/// The tab of which a modal looks for the terminal to go back to: its own, where it was last seen,
/// or the one in which its pane is if it belongs to none yet.
pub open spec fn home_position(s: State, group: Group) -> Option<usize> {
    if s.tab_id is None {
        Some(group.position)
    } else {
        s.tab_position
    }
}

/// `f` hands the focus to the first terminal of the modal's tab that is flagged as focused; if
/// none is, to the first that can take it; if there is none, to nobody.
pub proof fn law_focus_goes_back_to_where_it_came_from(
    s: State,
    me: u32,
    groups: Seq<Group>,
    g: int,
    p: int,
    h: int,
)
    requires
        is_awake(s),
        is_own_place(groups, me, g, p),
        is_alone(groups, me, g, p),
        0 <= h < groups.len(),
        home_position(s, groups[g]) == Some(groups[h].position),
        forall|i: int| 0 <= i < h ==> (#[trigger] groups[i]).position != groups[h].position,
    ensures
        ({
            let panes = groups[h].panes;
            let asked = pressed(
                step(s, Event::Panes { me, groups }).state,
                Key::Char('f'),
            ).requests;
            &&& forall|k: int|
                0 <= k < panes.len() && can_take_the_focus(#[trigger] panes[k])
                    && panes[k].is_focused && (forall|i: int|
                    0 <= i < k ==> !(can_take_the_focus(#[trigger] panes[i])
                        && panes[i].is_focused)) ==> asked == seq![
                    Request::FocusTerminal(panes[k].id),
                ]
            &&& forall|k: int|
                0 <= k < panes.len() && can_take_the_focus(#[trigger] panes[k]) && (forall|i: int|
                    0 <= i < panes.len() ==> !(can_take_the_focus(#[trigger] panes[i])
                        && panes[i].is_focused)) && (forall|i: int|
                    0 <= i < k ==> !can_take_the_focus(#[trigger] panes[i])) ==> asked == seq![
                    Request::FocusTerminal(panes[k].id),
                ]
            &&& (forall|i: int| 0 <= i < panes.len() ==> !can_take_the_focus(#[trigger] panes[i]))
                ==> asked.len() == 0
        }),
{
    law_own_pane_is_found(groups, me, g, p);
    law_panes_are_noted(s, me, groups, g, p);
    lemma_alone(groups, me, g, p);
    let seen = step(s, Event::Panes { me, groups }).state;
    law_f_hands_the_focus_back(seen);
    let panes = groups[h].panes;
    let home = groups[h].position;
    lemma_first_where(groups, |x: Group| x.position == home, h);
    if s.tab_id is None {
        let placed = State { tab_position: Some(home), ..s };
        if crate::modal_plan::owned_slot(placed) is Some {
            crate::finding::lemma_found(s.tabs, |t: Slot| t.position == home);
        }
    }
    assert(panes_at(groups, home) == Some(groups[h]));
    assert(seen.terminal_pane == pane_to_return_to(panes));
    let f = |x: Pane| is_usable(x) && x.is_focused;
    let u = |x: Pane| is_usable(x);
    let n = panes.len() as int;
    assert forall|k: int|
        0 <= k < n && can_take_the_focus(#[trigger] panes[k]) && panes[k].is_focused && (forall|
            i: int,
        |
            0 <= i < k ==> !(can_take_the_focus(#[trigger] panes[i]) && panes[i].is_focused))
        implies pane_to_return_to(panes) == Some(panes[k].id) by {
        assert forall|i: int| 0 <= i < k implies !f(#[trigger] panes[i]) by {
            assert(!(can_take_the_focus(panes[i]) && panes[i].is_focused));
        }
        lemma_first_where(panes, f, k);
    }
    if forall|i: int|
        0 <= i < n ==> !(can_take_the_focus(#[trigger] panes[i]) && panes[i].is_focused) {
        assert forall|i: int| 0 <= i < n implies !f(#[trigger] panes[i]) by {
            assert(!(can_take_the_focus(panes[i]) && panes[i].is_focused));
        }
        lemma_first_where(panes, f, n);
        assert forall|k: int|
            0 <= k < n && can_take_the_focus(#[trigger] panes[k]) && (forall|i: int|
                0 <= i < k ==> !can_take_the_focus(#[trigger] panes[i])) implies pane_to_return_to(
            panes,
        ) == Some(panes[k].id) by {
            assert forall|i: int| 0 <= i < k implies !u(#[trigger] panes[i]) by {
                assert(!can_take_the_focus(panes[i]));
            }
            lemma_first_where(panes, u, k);
        }
    }
    if forall|i: int| 0 <= i < n ==> !can_take_the_focus(#[trigger] panes[i]) {
        assert forall|i: int| 0 <= i < n implies !u(#[trigger] panes[i]) by {
            assert(!can_take_the_focus(panes[i]));
        }
        assert forall|i: int| 0 <= i < n implies !f(#[trigger] panes[i]) by {
            assert(!can_take_the_focus(panes[i]));
        }
        lemma_first_where(panes, f, n);
        lemma_first_where(panes, u, n);
    }
}

/// If the panes of the modal's tab are not told, the terminal to go back to stays what it was.
pub proof fn law_terminal_is_remembered(
    s: State,
    me: u32,
    groups: Seq<Group>,
    g: int,
    p: int,
)
    requires
        is_awake(s),
        is_own_place(groups, me, g, p),
        is_alone(groups, me, g, p),
        s.tab_id is Some,
        s.tab_position matches Some(home) ==> forall|i: int|
            0 <= i < groups.len() ==> (#[trigger] groups[i]).position != home,
    ensures
        step(s, Event::Panes { me, groups }).state.terminal_pane == s.terminal_pane,
{
    law_own_pane_is_found(groups, me, g, p);
    lemma_alone(groups, me, g, p);
    if let Some(home) = s.tab_position {
        lemma_first_where(groups, |x: Group| x.position == home, groups.len() as int);
    }
}

/// A modal that belongs to no tab yet belongs to the one at the position where its pane is, if that
/// tab is known, shows its name and has its note read. If the tab is not known yet, the position is
/// kept.
pub proof fn law_pane_tells_the_tab(
    s: State,
    me: u32,
    groups: Seq<Group>,
    g: int,
    p: int,
    k: int,
)
    requires
        is_awake(s),
        is_own_place(groups, me, g, p),
        is_alone(groups, me, g, p),
        s.tab_id is None,
        0 <= k <= s.tabs.len(),
        k < s.tabs.len() ==> s.tabs[k].position == groups[g].position,
        forall|i: int| 0 <= i < k ==> (#[trigger] s.tabs[i]).position != groups[g].position,
    ensures
        ({
            let o = step(s, Event::Panes { me, groups });
            let name = clean_name(s.tabs[k].name, s.config->Ok_0.icon);
            &&& o.state.tab_position == Some(groups[g].position)
            &&& k == s.tabs.len() ==> {
                &&& o.requests.len() == 0
                &&& o.state.tab_id is None && o.state.tab == s.tab
                &&& o.state.content == s.content && o.state.status == s.status
                &&& o.state.scroll == s.scroll
                &&& o.state.confirming_delete == s.confirming_delete
            }
            &&& k < s.tabs.len() ==> o.state.tab_id == Some(s.tabs[k].id) && o.state.tab == Some(
                name,
            )
            &&& k < s.tabs.len() && s.tab != Some(name) ==> {
                &&& reads_its_note(o)
                &&& o.state.content is None && o.state.status is None
                &&& o.state.scroll == 0
                &&& !o.state.confirming_delete
            }
        }),
{
    law_own_pane_is_found(groups, me, g, p);
    lemma_alone(groups, me, g, p);
    let home = groups[g].position;
    lemma_first_where(s.tabs, |t: Slot| t.position == home, k);
}

/// A modal whose pane has been seen, but not its tab, belongs to the tab at that position as soon
/// as the tab is known. Before its pane has been seen it belongs to none.
pub proof fn law_tabs_tell_the_tab(s: State, tabs: Seq<Slot>, k: int)
    requires
        is_awake(s),
        s.tab_id is None,
        0 <= k <= tabs.len(),
        s.tab_position is None ==> k == tabs.len(),
        s.tab_position is Some && k < tabs.len() ==> tabs[k].position == s.tab_position->0,
        s.tab_position is Some ==> forall|i: int|
            0 <= i < k ==> (#[trigger] tabs[i]).position != s.tab_position->0,
    ensures
        ({
            let o = step(s, Event::Tabs(tabs));
            let name = clean_name(tabs[k].name, s.config->Ok_0.icon);
            &&& k == tabs.len() ==> o == (Outcome {
                state: State { tabs, ..s },
                redraw: false,
                requests: Seq::empty(),
            })
            &&& k < tabs.len() && s.tab == Some(name) ==> o.state == (State {
                tabs,
                tab_id: Some(tabs[k].id),
                ..s
            }) && !o.redraw && o.requests.len() == 0
            &&& k < tabs.len() && s.tab != Some(name) ==> {
                &&& o.redraw
                &&& reads_its_note(o)
                &&& o.state == (State {
                    tabs,
                    tab_id: Some(tabs[k].id),
                    tab: Some(name),
                    scroll: 0,
                    content: None,
                    status: None,
                    confirming_delete: false,
                    ..s
                })
            }
        }),
{
    if let Some(home) = s.tab_position {
        lemma_first_where(tabs, |t: Slot| t.position == home, k);
    }
}

/// A modal that has been told nothing knows nothing, is expanded and shows the note from the top.
pub proof fn law_new_modal_knows_nothing(config: Result<Settings, Seq<char>>)
    ensures
        ({
            let s = new_state(config);
            &&& s.config == config
            &&& s.session is None && s.tab is None && s.tab_id is None && s.tab_position is None
            &&& s.tabs.len() == 0
            &&& s.content is None && s.status is None
            &&& s.scroll == 0
            &&& !s.confirming_delete && !s.minimized && !s.focused && !s.closing_duplicate
            &&& s.expanded is None && s.terminal_pane is None
        }),
{
}

} // verus!
