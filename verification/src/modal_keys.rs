//! What each key does in the modal.
use crate::fs_ops::{delete_run, read_run, OP_EDIT, OP_KEY, TAB_KEY};
use crate::modal_plan::{floating_coordinates, step, Event, Key, Outcome, Request, State};
use crate::paths::{key_path, note_key};
use crate::text::{decimal, is_space};
use vstd::prelude::*;

verus! {

/// The modal takes part in what happens.
pub open spec fn is_awake(s: State) -> bool {
    s.config is Ok && !s.closing_duplicate
}

/// Some character of the text is not white space.
pub open spec fn has_ink(text: Seq<char>) -> bool {
    exists|i: int| 0 <= i < text.len() && !is_space(#[trigger] text[i])
}

/// What comes of a key.
pub open spec fn pressed(s: State, key: Key) -> Outcome {
    step(s, Event::Key(key))
}

/// Down and `j` move the view down by a line, Up and `k` move it up by one; PageDown and PageUp
/// move it by ten. Each stops at the ends, and changes nothing but the view.
pub proof fn law_keys_scroll(s: State)
    requires
        is_awake(s),
    ensures
        s.scroll < usize::MAX ==> pressed(s, Key::Down).state.scroll == s.scroll + 1,
        s.scroll == usize::MAX ==> pressed(s, Key::Down).state.scroll == s.scroll,
        s.scroll > 0 ==> pressed(s, Key::Up).state.scroll == s.scroll - 1,
        s.scroll == 0 ==> pressed(s, Key::Up).state.scroll == 0,
        s.scroll + 10 <= usize::MAX ==> pressed(s, Key::PageDown).state.scroll == s.scroll + 10,
        s.scroll + 10 > usize::MAX ==> pressed(s, Key::PageDown).state.scroll == usize::MAX,
        s.scroll >= 10 ==> pressed(s, Key::PageUp).state.scroll == s.scroll - 10,
        s.scroll < 10 ==> pressed(s, Key::PageUp).state.scroll == 0,
        pressed(s, Key::Char('j')) == pressed(s, Key::Down),
        pressed(s, Key::Char('k')) == pressed(s, Key::Up),
        forall|key: Key|
            key == Key::Down || key == Key::Up || key == Key::PageDown || key == Key::PageUp ==> {
                let o = #[trigger] pressed(s, key);
                &&& o.state == State { scroll: o.state.scroll, ..s }
                &&& o.redraw
                &&& o.requests.len() == 0
            },
{
}

/// Going down and up again leads back to where the view was, and so does a page down and up.
pub proof fn law_scrolling_is_undone(s: State)
    requires
        is_awake(s),
        s.scroll + 10 <= usize::MAX,
    ensures
        pressed(pressed(s, Key::Down).state, Key::Up).state == s,
        pressed(pressed(s, Key::PageDown).state, Key::PageUp).state == s,
        pressed(pressed(s, Key::Char('j')).state, Key::Char('k')).state == s,
{
}

/// `d` asks whether to delete exactly if there is a character that is not white space in the note
/// and the question is not asked already.
pub proof fn law_d_asks(s: State)
    requires
        is_awake(s),
    ensures
        s.content is Some && has_ink(s.content->0) && !s.confirming_delete ==> pressed(
            s,
            Key::Char('d'),
        ) == (Outcome {
            state: State { confirming_delete: true, ..s },
            redraw: true,
            requests: Seq::empty(),
        }),
        s.content is None || !has_ink(s.content->0) || s.confirming_delete ==> pressed(
            s,
            Key::Char('d'),
        ) == (Outcome { state: s, redraw: false, requests: Seq::empty() }),
{
    if s.content is Some {
        let text = s.content->0;
        if has_ink(text) {
            let i = choose|i: int| 0 <= i < text.len() && !is_space(#[trigger] text[i]);
            assert(!is_space(text[i]));
        }
    }
}

/// `n` takes the question back, and does nothing if it was not asked.
pub proof fn law_n_takes_it_back(s: State)
    requires
        is_awake(s),
    ensures
        s.confirming_delete ==> pressed(s, Key::Char('n')) == (Outcome {
            state: State { confirming_delete: false, ..s },
            redraw: true,
            requests: Seq::empty(),
        }),
        !s.confirming_delete ==> pressed(s, Key::Char('n')) == (Outcome {
            state: s,
            redraw: false,
            requests: Seq::empty(),
        }),
{
}

/// `y` deletes the file of the note that is shown if the question was asked, and does nothing if
/// it was not. The note is shown until it is gone.
pub proof fn law_y_deletes(s: State)
    requires
        is_awake(s),
    ensures
        s.confirming_delete && s.session is Some && s.tab is Some ==> pressed(s, Key::Char('y'))
            == (Outcome {
            state: State { confirming_delete: false, status: Some("deleting…"@), ..s },
            redraw: true,
            requests: seq![
                Request::Run(
                    delete_run(
                        key_path(s.config->Ok_0.notes_dir, s.session->0, note_key(s.tab->0)),
                    ),
                ),
            ],
        }),
        s.confirming_delete && (s.session is None || s.tab is None) ==> pressed(s, Key::Char('y'))
            == (Outcome {
            state: State { confirming_delete: false, ..s },
            redraw: true,
            requests: Seq::empty(),
        }),
        !s.confirming_delete ==> pressed(s, Key::Char('y')) == (Outcome {
            state: s,
            redraw: false,
            requests: Seq::empty(),
        }),
{
}

/// `e` opens the file of the note that is shown in an editor, whether there is a note or not.
pub proof fn law_e_edits(s: State)
    requires
        is_awake(s),
    ensures
        s.session is Some && s.tab is Some ==> pressed(s, Key::Char('e')) == (Outcome {
            state: State { status: Some("editing in $EDITOR…"@), ..s },
            redraw: true,
            requests: seq![
                Request::OpenEditor {
                    path: key_path(s.config->Ok_0.notes_dir, s.session->0, note_key(s.tab->0)),
                    context: Map::empty().insert(OP_KEY@, OP_EDIT@).insert(TAB_KEY@, s.tab->0),
                },
            ],
        }),
        s.session is None && s.tab is Some ==> pressed(s, Key::Char('e')) == (Outcome {
            state: s,
            redraw: true,
            requests: Seq::empty(),
        }),
        s.tab is None ==> pressed(s, Key::Char('e')) == (Outcome {
            state: s,
            redraw: false,
            requests: Seq::empty(),
        }),
{
}

/// `f` hands the focus to the terminal that was found, and leaves the modal as it is.
pub proof fn law_f_hands_the_focus_back(s: State)
    requires
        is_awake(s),
    ensures
        pressed(s, Key::Char('f')).state == s,
        !pressed(s, Key::Char('f')).redraw,
        s.terminal_pane is Some ==> pressed(s, Key::Char('f')).requests == seq![
            Request::FocusTerminal(s.terminal_pane->0),
        ],
        s.terminal_pane is None ==> pressed(s, Key::Char('f')).requests.len() == 0,
{
}

/// Esc and `q` close the modal.
pub proof fn law_esc_closes(s: State)
    requires
        is_awake(s),
    ensures
        pressed(s, Key::Esc) == (Outcome {
            state: s,
            redraw: false,
            requests: seq![Request::Close],
        }),
        pressed(s, Key::Char('q')) == pressed(s, Key::Esc),
{
}

/// Every other key does nothing.
pub proof fn law_other_keys_do_nothing(s: State, c: char)
    requires
        !seq!['q', 'j', 'k', 'e', 'm', 'f', 'd', 'y', 'n'].contains(c),
    ensures
        pressed(s, Key::Char(c)) == (Outcome {
            state: s,
            redraw: false,
            requests: Seq::empty(),
        }),
        pressed(s, Key::Other) == pressed(s, Key::Char(c)),
{
    let used = seq!['q', 'j', 'k', 'e', 'm', 'f', 'd', 'y', 'n'];
    assert(used[0] == 'q' && used[1] == 'j' && used[2] == 'k' && used[3] == 'e' && used[4] == 'm'
        && used[5] == 'f' && used[6] == 'd' && used[7] == 'y' && used[8] == 'n');
}

/// `m` puts an expanded box into the top right corner and then pins it.
pub proof fn law_m_minimises(s: State)
    requires
        is_awake(s),
        !s.minimized,
    ensures
        pressed(s, Key::Char('m')).state == (State { minimized: true, ..s }),
        pressed(s, Key::Char('m')).redraw,
        floating_coordinates("72%"@, "0%"@, "28%"@, "32%"@) matches Some(c) ==> pressed(
            s,
            Key::Char('m'),
        ).requests == seq![Request::Place(c), Request::Pin(true)],
{
    lemma_percentages();
    let asked = pressed(s, Key::Char('m')).requests;
    if let Some(c) = floating_coordinates("72%"@, "0%"@, "28%"@, "32%"@) {
        assert(asked =~= seq![Request::Place(c), Request::Pin(true)]);
    }
}

/// `m` unpins a box in the corner and then puts it back to the place and size that it was last
/// seen with, or to a guess if it was not seen.
pub proof fn law_m_restores(s: State)
    requires
        is_awake(s),
        s.minimized,
    ensures
        pressed(s, Key::Char('m')).state == (State { minimized: false, ..s }),
        pressed(s, Key::Char('m')).redraw,
        s.expanded is None ==> (floating_coordinates("10%"@, "10%"@, "80%"@, "70%"@) matches Some(c)
            ==> pressed(s, Key::Char('m')).requests == seq![
            Request::Pin(false),
            Request::Place(c),
        ]),
        s.expanded matches Some(g) ==> (!g.percent ==> (floating_coordinates(
            decimal(g.x as nat),
            decimal(g.y as nat),
            decimal(g.width as nat),
            decimal(g.height as nat),
        ) matches Some(c) ==> pressed(s, Key::Char('m')).requests == seq![
            Request::Pin(false),
            Request::Place(c),
        ])),
{
    lemma_percentages();
    let asked = pressed(s, Key::Char('m')).requests;
    if asked.len() == 2 {
        assert(asked =~= seq![asked[0], asked[1]]);
    }
}

proof fn lemma_percentages()
    ensures
        "72%"@ == decimal(72).push('%'),
        "0%"@ == decimal(0).push('%'),
        "28%"@ == decimal(28).push('%'),
        "32%"@ == decimal(32).push('%'),
        "10%"@ == decimal(10).push('%'),
        "80%"@ == decimal(80).push('%'),
        "70%"@ == decimal(70).push('%'),
{
    reveal_with_fuel(decimal, 3);
    reveal_strlit("72%");
    reveal_strlit("0%");
    reveal_strlit("28%");
    reveal_strlit("32%");
    reveal_strlit("10%");
    reveal_strlit("80%");
    reveal_strlit("70%");
    assert("72%"@ =~= decimal(72).push('%'));
    assert("0%"@ =~= decimal(0).push('%'));
    assert("28%"@ =~= decimal(28).push('%'));
    assert("32%"@ =~= decimal(32).push('%'));
    assert("10%"@ =~= decimal(10).push('%'));
    assert("80%"@ =~= decimal(80).push('%'));
    assert("70%"@ =~= decimal(70).push('%'));
}

/// A note whose text was read is there exactly if it holds a character that is not white space:
/// then `d` asks whether to delete it, and otherwise `d` does nothing.
pub proof fn law_note_with_ink_is_a_note(s: State, path: Seq<char>, output: Seq<char>)
    requires
        is_awake(s),
        !s.confirming_delete,
    ensures
        ({
            let read = step(
                s,
                Event::Result {
                    exit_code: Some(0i32),
                    output,
                    context: read_run(path).context,
                },
            ).state;
            &&& pressed(read, Key::Char('d')).state.confirming_delete == has_ink(output)
            &&& crate::modal_plan::has_note(read) == has_ink(output)
        }),
{
    crate::modal_laws::law_read_note_is_shown(s, path, output);
    let read = State { content: Some(output), ..s };
    law_d_asks(read);
    if has_ink(output) {
        let i = choose|i: int| 0 <= i < output.len() && !is_space(#[trigger] output[i]);
        assert(!is_space(output[i]));
    }
}

} // verus!
