//! What is seen of the modal.
use crate::markdown::RenderedLine;
use crate::modal_keys::has_ink;
use crate::modal_plan::{step, Event, State};
use crate::screen::{body_pieces, drawn_state, footer_pieces, screen};
use crate::style::{all_at, plain, style_of, Styled};
use crate::text::is_space;
use vstd::prelude::*;

verus! {

/// The last row is used for the keys or for what is going on: unless the box is in the corner and
/// has no focus.
pub open spec fn footer_is_shown(s: State) -> bool {
    !(s.minimized && !s.focused)
}

/// The state has a note with something to see in it.
pub open spec fn shows_a_note(s: State) -> bool {
    s.content matches Some(text) && has_ink(text)
}

/// Without a configuration what is wrong with it is all that is drawn.
pub proof fn law_error_is_all_that_is_drawn(
    s: State,
    rows: nat,
    cols: nat,
    lines: Seq<RenderedLine>,
)
    requires
        s.config is Err,
    ensures
        screen(s, rows, cols, lines).len() == 1,
        screen(s, rows, cols, lines)[0].text == (Styled {
            text: s.config->Err_0,
            marks: Seq::empty(),
        }),
        screen(s, rows, cols, lines)[0].y == 0,
        screen(s, rows, cols, lines)[0].x == 0,
        screen(s, rows, cols, lines)[0].width == cols,
        drawn_state(s, rows, lines.len()) == s,
{
}

/// Everything begins at the left edge and may take the width of the pane. The title is drawn first,
/// at the top, and names the tab.
pub proof fn law_title_names_the_tab(
    s: State,
    rows: nat,
    cols: nat,
    lines: Seq<RenderedLine>,
)
    requires
        s.config is Ok,
    ensures
        ({
            let drawn = screen(s, rows, cols, lines);
            &&& drawn.len() > 0
            &&& drawn[0].y == 0
            &&& s.tab matches Some(name) ==> drawn[0].text.text == "Note · "@ + name
            &&& s.tab is None ==> drawn[0].text.text == "Note"@
            &&& drawn[0].text == all_at(plain(drawn[0].text.text), 2)
            &&& forall|i: int|
                0 <= i < drawn.len() ==> (#[trigger] drawn[i]).x == 0 && drawn[i].width == cols
        }),
{
    let drawn = screen(s, rows, cols, lines);
    assert forall|i: int| 0 <= i < drawn.len() implies (#[trigger] drawn[i]).x == 0
        && drawn[i].width == cols by {
        let body = body_pieces(s, rows, cols, lines);
        if 1 <= i < 1 + body.len() {
            assert(drawn[i] == body[i - 1]);
        } else if i >= 1 + body.len() {
            assert(drawn[i] == footer_pieces(s, rows, cols)[i - 1 - body.len()]);
        }
    }
}

/// The last thing drawn is the footer, at the bottom: the question, else what is going on, else the
/// keys. In the corner without the focus there is none.
pub proof fn law_footer_says_what_is_going_on(
    s: State,
    rows: nat,
    cols: nat,
    lines: Seq<RenderedLine>,
)
    requires
        s.config is Ok,
        footer_is_shown(s),
    ensures
        ({
            let last = screen(s, rows, cols, lines).last();
            &&& last.y == if rows > 0 {
                rows - 1
            } else {
                0
            }
            &&& last.text == all_at(plain(last.text.text), 4)
            &&& s.confirming_delete ==> last.text.text == "delete this note? y/n"@
            &&& !s.confirming_delete && s.status is Some ==> last.text.text == s.status->0
            &&& !s.confirming_delete && s.status is None && s.minimized ==> last.text.text
                == "m restore · f terminal"@
            &&& !s.confirming_delete && s.status is None && !s.minimized ==> last.text.text
                == "e edit · d delete · m minimise · f terminal · j/k scroll · Esc close"@
        }),
{
    let drawn = screen(s, rows, cols, lines);
    let body = body_pieces(s, rows, cols, lines);
    let foot = footer_pieces(s, rows, cols);
    assert(drawn.last() == foot[0]) by {
        assert(drawn[drawn.len() - 1] == foot[0]);
    }
}

/// Where there is no note, because nothing was read or because it is all white space, this is said
/// in the third row, and the view stays where it was.
pub proof fn law_missing_note_is_said_to_be_missing(
    s: State,
    rows: nat,
    cols: nat,
    lines: Seq<RenderedLine>,
)
    requires
        s.config is Ok,
        !shows_a_note(s),
    ensures
        ({
            let drawn = screen(s, rows, cols, lines);
            &&& drawn.len() == if footer_is_shown(s) {
                3
            } else {
                2int
            }
            &&& drawn[1].y == 2
            &&& drawn[1].text == all_at(plain(drawn[1].text.text), 4)
            &&& s.tab matches Some(name) ==> drawn[1].text.text == "No note for «"@ + name
                + "» — press e to create one"@
            &&& s.tab is None ==> drawn[1].text.text == "Loading…"@
            &&& drawn_state(s, rows, lines.len()) == s
        }),
{
    lemma_ink(s);
    let drawn = screen(s, rows, cols, lines);
    let body = body_pieces(s, rows, cols, lines);
    assert(drawn[1] == body[0]);
}

proof fn lemma_ink(s: State)
    ensures
        crate::modal_plan::has_note(s) == shows_a_note(s),
{
    if s.content is Some {
        let text = s.content->0;
        if has_ink(text) {
            let i = choose|i: int| 0 <= i < text.len() && !is_space(#[trigger] text[i]);
            assert(!is_space(text[i]));
        }
    }
}

/// The lines of a note are drawn one below the other from the third row on, in order and without a
/// gap, until the rows above the footer or the lines run out. The view begins where it was, unless
/// rows would stay empty below the last line: then it moves up until they do not, or until the
/// first line is in view.
pub proof fn law_lines_of_the_note_are_drawn(
    s: State,
    rows: nat,
    cols: nat,
    lines: Seq<RenderedLine>,
)
    requires
        s.config is Ok,
        shows_a_note(s),
        lines.len() <= usize::MAX,
    ensures
        ({
            let drawn = screen(s, rows, cols, lines);
            let below: int = if footer_is_shown(s) {
                1
            } else {
                0
            };
            let room: int = if rows >= 2 + below {
                rows - 2 - below
            } else {
                0
            };
            let top = drawn_state(s, rows, lines.len()).scroll as int;
            let count = drawn.len() - 1 - below;
            &&& drawn_state(s, rows, lines.len()) == (State {
                scroll: drawn_state(s, rows, lines.len()).scroll,
                ..s
            })
            &&& s.scroll + room <= lines.len() ==> top == s.scroll
            &&& s.scroll + room > lines.len() && lines.len() > room ==> top + room == lines.len()
            &&& lines.len() <= room ==> top == 0
            &&& count == if lines.len() - top < room {
                lines.len() - top
            } else {
                room
            }
            &&& forall|i: int|
                0 <= i < count ==> (#[trigger] drawn[1 + i]).y == i + 2 && drawn[1 + i].text
                    == style_of(
                    lines[top + i].text@,
                    lines[top + i].kind,
                    lines[top + i].spans@,
                    cols,
                )
        }),
{
    lemma_ink(s);
    let drawn = screen(s, rows, cols, lines);
    let body = body_pieces(s, rows, cols, lines);
    assert forall|i: int| 0 <= i < body.len() implies #[trigger] drawn[1 + i] == body[i] by {}
}

/// What is seen changes only when the modal says that it has to be drawn again. Left out is the
/// moment at which the modal learns from its pane to which tab it belongs: it is drawn again once
/// the note has been read.
pub proof fn law_what_is_seen_changes_only_with_a_redraw(
    s: State,
    event: Event,
    rows: nat,
    cols: nat,
    lines: Seq<RenderedLine>,
)
    requires
        !step(s, event).redraw,
        event is Panes ==> s.tab_id is Some,
    ensures
        screen(step(s, event).state, rows, cols, lines) == screen(s, rows, cols, lines),
{
    let t = step(s, event).state;
    assert(t.config == s.config && t.tab == s.tab && t.content == s.content && t.status
        == s.status && t.scroll == s.scroll && t.confirming_delete == s.confirming_delete
        && t.minimized == s.minimized && t.focused == s.focused);
    assert(body_pieces(t, rows, cols, lines) == body_pieces(s, rows, cols, lines));
}

} // verus!
