//! What holds of a modal over all events.
use crate::finding::{first_where, lemma_found, lemma_lowest, lowest};
use crate::fs_ops::{
    cleanup_run, delete_run, entry, law_results_are_recognised, lemma_names_differ, read_run, Run,
    NOTES_CHANGED, OP_CLEANUP, OP_DELETE, OP_KEY,
};
use crate::icon::clean_name;
use crate::markdown::RenderedLine;
use crate::modal_plan::{
    full_size, has_note, ignored, incumbent, is_older_modal, is_own, note_file, older_modals,
    own_group, owned_slot, panes_at, placing, reading, step, Event, Group, Key, Pane, Request, Slot,
    State,
};
use crate::screen::{body_pieces, drawn_state, has_footer, screen};
use vstd::prelude::*;

verus! {

/// The state after some events.
pub open spec fn after(s: State, events: Seq<Event>) -> State
    decreases events.len(),
{
    if events.len() == 0 {
        s
    } else {
        step(after(s, events.drop_last()), events.last()).state
    }
}

/// A modal deletes only the note that it shows, and only on a `y` that answers the question
/// whether to.
pub proof fn law_only_a_confirmed_y_deletes(s: State, event: Event, path: Seq<char>)
    requires
        step(s, event).requests.contains(Request::Run(delete_run(path))),
    ensures
        event == Event::Key(Key::Char('y')),
        s.confirming_delete,
        note_file(s) == Some(path),
{
    lemma_names_differ();
    let requests = step(s, event).requests;
    let k = choose|k: int|
        0 <= k < requests.len() && requests[k] == Request::Run(delete_run(path));
    assert forall|p: Seq<char>, q: Seq<char>|
        #![trigger delete_run(p), read_run(q)]
        delete_run(p) != read_run(q) by {
        law_results_are_recognised(p, p, 0, p);
        law_results_are_recognised(q, q, 0, q);
    }
    assert forall|p: Seq<char>, q: Seq<char>|
        #![trigger delete_run(p), cleanup_run(q)]
        delete_run(p) != cleanup_run(q) by {
        law_results_are_recognised(p, p, 0, p);
        law_results_are_recognised(q, q, 0, q);
    }
    assert forall|p: Seq<char>, q: Seq<char>|
        #![trigger delete_run(p), delete_run(q)]
        delete_run(p) == delete_run(q) implies p == q by {
        assert(delete_run(p).args[2] == p);
        assert(delete_run(q).args[2] == q);
    }
}

/// The question is only asked about a note that is there.
pub proof fn law_only_a_note_can_be_deleted(s: State, event: Event)
    requires
        !s.confirming_delete,
        step(s, event).state.confirming_delete,
    ensures
        has_note(s),
        event == Event::Key(Key::Char('d')),
        note_file(step(s, event).state) == note_file(s),
{
}

/// What is known about one note does not survive a change of which note is shown, and the new
/// note is read.
pub proof fn law_nothing_survives_a_change_of_note(s: State, event: Event)
    requires
        step(s, event).state.session != s.session || step(s, event).state.tab != s.tab,
    ensures
        step(s, event).state.content is None,
        step(s, event).state.status is None,
        !step(s, event).state.confirming_delete,
        step(s, event).requests == reading(step(s, event).state),
{
}

proof fn lemma_owner_is_kept(s: State, event: Event)
    requires
        s.tab_id is Some,
    ensures
        step(s, event).state.tab_id == s.tab_id,
{
    let id = s.tab_id->0;
    if let Event::Tabs(tabs) = event {
        lemma_found(tabs, |t: Slot| t.id == id);
    }
}

/// A modal that belongs to a tab belongs to it whatever happens.
pub proof fn law_owner_never_changes(s: State, events: Seq<Event>)
    requires
        s.tab_id is Some,
    ensures
        after(s, events).tab_id == s.tab_id,
    decreases events.len(),
{
    if events.len() > 0 {
        law_owner_never_changes(s, events.drop_last());
        lemma_owner_is_kept(after(s, events.drop_last()), events.last());
    }
}

/// A modal that belongs to a tab shows the note of this tab, under the name the tab has now.
pub proof fn law_modal_follows_its_tab(s: State, tabs: Seq<Slot>, slot: Slot)
    requires
        s.config is Ok,
        !s.closing_duplicate,
        s.tab_id is Some,
        first_where(tabs, |t: Slot| t.id == s.tab_id->0) == Some(slot),
    ensures
        step(s, Event::Tabs(tabs)).state.tab == Some(clean_name(slot.name, s.config->Ok_0.icon)),
        step(s, Event::Tabs(tabs)).state.tab_position == Some(slot.position),
{
    let id = s.tab_id->0;
    assert((|t: Slot| t.id == id) =~= (|t: Slot| t.id == s.tab_id->0));
}

/// A modal belongs to the tab in which its pane was opened, whether it hears first of the tabs
/// or of the panes.
pub proof fn law_modal_belongs_to_its_tab(
    s: State,
    tabs: Seq<Slot>,
    me: u32,
    groups: Seq<Group>,
    group: Group,
    slot: Slot,
)
    requires
        s.config is Ok,
        !s.closing_duplicate,
        s.tab_id is None,
        s.tab_position is None,
        s.tabs.len() == 0,
        own_group(groups, me) == Some(group),
        incumbent(
            groups,
            group.position,
            me,
            first_where(group.panes, |p: Pane| is_own(p, me))->0,
        ) is None,
        first_where(tabs, |t: Slot| t.position == group.position) == Some(slot),
    ensures
        after(s, seq![Event::Tabs(tabs), Event::Panes { me, groups }]).tab_id == Some(slot.id),
        after(s, seq![Event::Panes { me, groups }, Event::Tabs(tabs)]).tab_id == Some(slot.id),
{
    let a = Event::Tabs(tabs);
    let b = Event::Panes { me, groups };
    let icon = s.config->Ok_0.icon;
    reveal_with_fuel(after, 3);
    assert(seq![a, b].drop_last() =~= seq![a]);
    assert(seq![b, a].drop_last() =~= seq![b]);
    assert(seq![a].drop_last() =~= Seq::<Event>::empty());
    assert(seq![b].drop_last() =~= Seq::<Event>::empty());
    let f = |t: Slot| t.position == group.position;
    let listed = step(s, a).state;
    assert(listed == State { tabs, ..s });
    let placed = State { tab_position: Some(group.position), ..listed };
    let position = placed.tab_position->0;
    assert((|t: Slot| t.position == position) =~= f);
    assert(owned_slot(placed) == Some(slot));
    let bound = step(s, b).state;
    assert(bound.tab_position == Some(group.position));
    assert(bound.tab_id is None);
    assert(owned_slot(State { tabs, ..bound }) == Some(slot));
}

/// Once a modal has handed over to an older instance, or has no configuration, nothing comes of
/// anything.
pub proof fn law_inert_modal_stays_inert(s: State, events: Seq<Event>, event: Event)
    requires
        s.closing_duplicate || s.config is Err,
    ensures
        after(s, events) == s,
        step(s, event) == ignored(s),
    decreases events.len(),
{
    if events.len() > 0 {
        law_inert_modal_stays_inert(s, events.drop_last(), event);
    }
}

/// The ids of the older instances are those of panes that are older instances.
pub proof fn lemma_older_modals(panes: Seq<Pane>, me: u32, url: Seq<char>)
    ensures
        forall|id: u32| #[trigger]
            older_modals(panes, me, url).contains(id) <==> exists|i: int|
                0 <= i < panes.len() && is_older_modal(#[trigger] panes[i], me, url)
                    && panes[i].id == id,
    decreases panes.len(),
{
    let ids = older_modals(panes, me, url);
    if panes.len() > 0 {
        let front = panes.drop_last();
        let last = panes.last();
        let front_ids = older_modals(front, me, url);
        lemma_older_modals(front, me, url);
        assert(panes[panes.len() - 1] == last);
        assert forall|id: u32| #[trigger] ids.contains(id) <==> exists|i: int|
            0 <= i < panes.len() && is_older_modal(#[trigger] panes[i], me, url) && panes[i].id
                == id by {
            if ids.contains(id) {
                let k = choose|k: int| 0 <= k < ids.len() && ids[k] == id;
                if k < front_ids.len() {
                    assert(front_ids.contains(front_ids[k]));
                    let i = choose|i: int|
                        0 <= i < front.len() && is_older_modal(#[trigger] front[i], me, url)
                            && front[i].id == id;
                    assert(panes[i] == front[i]);
                } else {
                    assert(is_older_modal(panes[panes.len() - 1], me, url));
                }
            }
            if exists|i: int|
                0 <= i < panes.len() && is_older_modal(#[trigger] panes[i], me, url) && panes[i].id
                    == id {
                let i = choose|i: int|
                    0 <= i < panes.len() && is_older_modal(#[trigger] panes[i], me, url)
                        && panes[i].id == id;
                if i < front.len() {
                    assert(front[i] == panes[i]);
                    assert(front_ids.contains(id));
                    let k = choose|k: int| 0 <= k < front_ids.len() && front_ids[k] == id;
                    assert(ids[k] == id);
                } else {
                    assert(ids[ids.len() - 1] == id);
                }
            }
        }
    }
}

/// A modal closes when the user closes it, and otherwise only if an older instance of the same
/// plugin is open in the same tab. It hands the focus to the oldest one before.
pub proof fn law_only_an_older_instance_closes_it(s: State, event: Event)
    requires
        step(s, event).requests.contains(Request::Close),
    ensures
        event == Event::Key(Key::Esc) || event == Event::Key(Key::Char('q')) || (event matches
            Event::Panes { me, groups } && own_group(groups, me) is Some && ({
            let group = own_group(groups, me)->0;
            let pane = first_where(group.panes, |p: Pane| is_own(p, me))->0;
            incumbent(groups, group.position, me, pane) matches Some(id) && id < me && step(
                s,
                event,
            ).requests == seq![Request::FocusPlugin(id), Request::Close]
        })),
{
    let requests = step(s, event).requests;
    let k = choose|k: int| 0 <= k < requests.len() && requests[k] == Request::Close;
    if let Event::Panes { me, groups } = event {
        let group = own_group(groups, me)->0;
        let pane = first_where(group.panes, |p: Pane| is_own(p, me))->0;
        if incumbent(groups, group.position, me, pane) is Some {
            let url = pane.plugin_url->0;
            let panes = panes_at(groups, group.position)->0.panes;
            lemma_older_modals(panes, me, url);
            lemma_lowest(older_modals(panes, me, url));
        }
    }
}

/// Of the instances that are open in one tab every one but the oldest hands over to the oldest,
/// and the oldest stays.
pub proof fn law_oldest_instance_stays(
    s: State,
    me: u32,
    groups: Seq<Group>,
    group: Group,
    url: Seq<char>,
    oldest: u32,
)
    requires
        s.config is Ok,
        !s.closing_duplicate,
        own_group(groups, me) == Some(group),
        panes_at(groups, group.position) == Some(group),
        first_where(group.panes, |p: Pane| is_own(p, me))->0.plugin_url == Some(url),
        exists|i: int|
            0 <= i < group.panes.len() && (#[trigger] group.panes[i]).id == oldest
                && group.panes[i].is_plugin && group.panes[i].is_floating
                && !group.panes[i].is_suppressed && group.panes[i].plugin_url == Some(url),
        forall|i: int|
            0 <= i < group.panes.len() && (#[trigger] group.panes[i]).is_plugin
                && group.panes[i].is_floating && !group.panes[i].is_suppressed
                && group.panes[i].plugin_url == Some(url) ==> oldest <= group.panes[i].id,
    ensures
        me > oldest ==> step(s, Event::Panes { me, groups }).requests == seq![
            Request::FocusPlugin(oldest),
            Request::Close,
        ],
        me > oldest ==> step(s, Event::Panes { me, groups }).state.closing_duplicate,
        me <= oldest ==> !step(s, Event::Panes { me, groups }).state.closing_duplicate,
        me <= oldest ==> !step(s, Event::Panes { me, groups }).requests.contains(Request::Close),
{
    let panes = group.panes;
    let ids = older_modals(panes, me, url);
    lemma_older_modals(panes, me, url);
    lemma_lowest(ids);
    if me > oldest {
        let i = choose|i: int|
            0 <= i < panes.len() && (#[trigger] panes[i]).id == oldest && panes[i].is_plugin
                && panes[i].is_floating && !panes[i].is_suppressed && panes[i].plugin_url == Some(
                url,
            );
        assert(is_older_modal(panes[i], me, url));
        assert(ids.contains(oldest));
        let k = choose|k: int| 0 <= k < ids.len() && ids[k] == oldest;
        assert(lowest(ids)->0 <= ids[k]);
        assert(ids.contains(lowest(ids)->0));
    } else {
        if lowest(ids) is Some {
            assert(ids.contains(lowest(ids)->0));
        }
        assert(lowest(ids) is None);
        if step(s, Event::Panes { me, groups }).requests.contains(Request::Close) {
            law_only_an_older_instance_closes_it(s, Event::Panes { me, groups });
        }
    }
}

/// None of the events toggles the corner box.
pub open spec fn without_toggle(events: Seq<Event>) -> bool {
    forall|i: int| 0 <= i < events.len() ==> #[trigger] events[i] != Event::Key(Key::Char('m'))
}

proof fn lemma_corner_box_stays(s: State, event: Event)
    requires
        s.minimized,
        event != Event::Key(Key::Char('m')),
    ensures
        step(s, event).state.minimized,
        step(s, event).state.expanded == s.expanded,
{
}

pub proof fn lemma_corner_box_keeps_the_size(s: State, events: Seq<Event>)
    requires
        s.minimized,
        without_toggle(events),
    ensures
        after(s, events).minimized,
        after(s, events).expanded == s.expanded,
    decreases events.len(),
{
    if events.len() > 0 {
        let front = events.drop_last();
        assert forall|i: int| 0 <= i < front.len() implies #[trigger] front[i] != Event::Key(
            Key::Char('m'),
        ) by {
            assert(front[i] == events[i]);
        }
        lemma_corner_box_keeps_the_size(s, front);
        assert(events[events.len() - 1] == events.last());
        lemma_corner_box_stays(after(s, front), events.last());
    }
}

/// Whatever happens while the box is in the corner, it goes back to the size that it had before.
pub proof fn law_box_goes_back_to_its_size(s: State, events: Seq<Event>)
    requires
        s.config is Ok,
        !s.closing_duplicate,
        !s.minimized,
        without_toggle(events),
        after(step(s, Event::Key(Key::Char('m'))).state, events).config is Ok,
        !after(step(s, Event::Key(Key::Char('m'))).state, events).closing_duplicate,
    ensures
        step(
            after(step(s, Event::Key(Key::Char('m'))).state, events),
            Event::Key(Key::Char('m')),
        ).requests == seq![Request::Pin(false)] + placing(full_size(s)),
        !step(
            after(step(s, Event::Key(Key::Char('m'))).state, events),
            Event::Key(Key::Char('m')),
        ).state.minimized,
{
    lemma_corner_box_keeps_the_size(step(s, Event::Key(Key::Char('m'))).state, events);
}

/// The other plugins hear that the notes have changed only once a deletion or a clean-up is
/// really done.
pub proof fn law_changes_are_told_when_done(s: State, event: Event, name: Seq<char>)
    requires
        step(s, event).requests.contains(Request::Pipe(name)),
    ensures
        name == NOTES_CHANGED@,
        event matches Event::Result { exit_code, output, context } && (entry(context, OP_KEY@)
            == Some(OP_CLEANUP@) || (entry(context, OP_KEY@) == Some(OP_DELETE@) && exit_code
            == Some(0i32))),
{
    let requests = step(s, event).requests;
    let k = choose|k: int| 0 <= k < requests.len() && requests[k] == Request::Pipe(name);
}

/// After an edit an empty file is removed, and then the note is read again and the change is
/// told.
pub proof fn law_edit_is_cleaned_up(
    s: State,
    path: Seq<char>,
    exit_code: Option<i32>,
    output: Seq<char>,
)
    requires
        !s.closing_duplicate,
        note_file(s) == Some(path),
    ensures
        ({
            let asked = step(s, Event::Key(Key::Char('e'))).requests;
            &&& asked.len() == 1
            &&& asked[0] is OpenEditor
            &&& asked[0]->path == path
            &&& step(s, Event::EditorClosed(asked[0]->OpenEditor_context)).requests == seq![
                Request::Run(cleanup_run(path)),
            ]
        }),
        step(
            s,
            Event::Result { exit_code, output, context: cleanup_run(path).context },
        ).requests == seq![Request::Run(read_run(path)), Request::Pipe(NOTES_CHANGED@)],
{
    lemma_names_differ();
    law_results_are_recognised(path, path, 0, path);
    assert(reading(s).push(Request::Pipe(NOTES_CHANGED@)) =~= seq![
        Request::Run(read_run(path)),
        Request::Pipe(NOTES_CHANGED@),
    ]);
}

/// What a finished read has written is what is shown.
pub proof fn law_read_note_is_shown(s: State, path: Seq<char>, output: Seq<char>)
    requires
        s.config is Ok,
        !s.closing_duplicate,
    ensures
        step(
            s,
            Event::Result {
                exit_code: Some(0i32),
                output,
                context: read_run(path).context,
            },
        ).state == (State { content: Some(output), ..s }),
{
    law_results_are_recognised(path, path, 0, path);
}

/// Drawing again draws the same.
pub proof fn law_drawing_again_draws_the_same(
    s: State,
    rows: nat,
    cols: nat,
    lines: Seq<RenderedLine>,
)
    requires
        lines.len() <= usize::MAX,
    ensures
        drawn_state(drawn_state(s, rows, lines.len()), rows, lines.len()) == drawn_state(
            s,
            rows,
            lines.len(),
        ),
        screen(drawn_state(s, rows, lines.len()), rows, cols, lines) == screen(
            s,
            rows,
            cols,
            lines,
        ),
{
    let t = drawn_state(s, rows, lines.len());
    assert(has_note(t) == has_note(s));
    assert(body_pieces(t, rows, cols, lines) == body_pieces(s, rows, cols, lines));
}

/// The view never runs past the end of the note, the lines of the note stand below the title
/// and, where there is a footer, above it.
pub proof fn law_note_stays_in_its_place(
    s: State,
    rows: nat,
    cols: nat,
    lines: Seq<RenderedLine>,
    i: int,
)
    requires
        s.config is Ok,
        has_note(s),
        lines.len() <= usize::MAX,
        0 <= i < body_pieces(s, rows, cols, lines).len(),
    ensures
        drawn_state(s, rows, lines.len()).scroll + i < lines.len(),
        2 <= body_pieces(s, rows, cols, lines)[i].y,
        body_pieces(s, rows, cols, lines)[i].y < if has_footer(s) {
            rows - 1
        } else {
            rows as int
        },
{
}

} // verus!
