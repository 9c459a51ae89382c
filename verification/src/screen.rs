//! What the modal draws, as plain values.
use crate::markdown::RenderedLine;
use crate::modal_plan::{has_note, State};
use crate::style::{all_at, plain, style_of, styled, Styled, DIM};
use crate::viewport::clamped;
use vstd::prelude::*;
use zellij_tile::ui_components::Text;

verus! {

/// A styled text and where it is put.
pub struct Drawn {
    pub text: Text,
    pub x: usize,
    pub y: usize,
    pub width: usize,
}

/// A styled text and where it is put, as plain values.
pub struct Piece {
    pub text: Styled,
    pub x: nat,
    pub y: nat,
    pub width: nat,
}

impl View for Drawn {
    type V = Piece;

    open spec fn view(&self) -> Piece {
        Piece {
            text: styled(self.text),
            x: self.x as nat,
            y: self.y as nat,
            width: self.width as nat,
        }
    }
}

/// What is drawn, as plain values.
pub open spec fn pieces_of(drawn: Seq<Drawn>) -> Seq<Piece> {
    drawn.map_values(|d: Drawn| d@)
}

/// A line that begins at the left edge.
pub open spec fn line_at(text: Styled, y: nat, cols: nat) -> Piece {
    Piece { text, x: 0, y, width: cols }
}

pub open spec fn title(tab: Option<Seq<char>>) -> Seq<char> {
    match tab {
        Some(name) => "Note · "@ + name,
        None => "Note"@,
    }
}

/// What stands in the place of a note that is not there.
pub open spec fn absent(tab: Option<Seq<char>>) -> Seq<char> {
    match tab {
        Some(name) => "No note for «"@ + name + "» — press e to create one"@,
        None => "Loading…"@,
    }
}

/// Minimised there is no room to spend on a list of keys, and the keys it would advertise need
/// the focus anyway.
pub open spec fn has_footer(s: State) -> bool {
    !s.minimized || s.focused
}

pub open spec fn footer(s: State) -> Seq<char> {
    if s.confirming_delete {
        "delete this note? y/n"@
    } else {
        match s.status {
            Some(status) => status,
            None => if s.minimized {
                "m restore · f terminal"@
            } else {
                "e edit · d delete · m minimise · f terminal · j/k scroll · Esc close"@
            },
        }
    }
}

/// The rows that are left for the note, below the title and above the footer.
pub open spec fn body_rows(s: State, rows: nat) -> nat {
    let used: nat = if has_footer(s) {
        3
    } else {
        2
    };
    if rows > used {
        (rows - used) as nat
    } else {
        0
    }
}

/// Drawing moves the view back to where the note has lines to show.
pub open spec fn drawn_state(s: State, rows: nat, total: nat) -> State {
    if s.config is Ok && has_note(s) {
        State { scroll: clamped(s.scroll as nat, total, body_rows(s, rows)) as usize, ..s }
    } else {
        s
    }
}

/// How many lines of the note are in view.
pub open spec fn lines_in_view(scroll: nat, total: nat, rows: nat) -> nat {
    if total < scroll {
        0
    } else if total - scroll < rows {
        (total - scroll) as nat
    } else {
        rows
    }
}

/// The first `n` lines of the note that are in view.
pub open spec fn note_pieces(lines: Seq<RenderedLine>, scroll: nat, n: nat, cols: nat) -> Seq<
    Piece,
> {
    Seq::new(
        n,
        |row: int|
            {
                let line = lines[scroll + row];
                line_at(
                    style_of(line.text@, line.kind, line.spans@, cols),
                    (row + 2) as nat,
                    cols,
                )
            },
    )
}

/// What stands between the title and the footer.
pub open spec fn body_pieces(s: State, rows: nat, cols: nat, lines: Seq<RenderedLine>) -> Seq<
    Piece,
> {
    if has_note(s) {
        let scroll = drawn_state(s, rows, lines.len()).scroll as nat;
        note_pieces(
            lines,
            scroll,
            lines_in_view(scroll, lines.len(), body_rows(s, rows)),
            cols,
        )
    } else {
        seq![line_at(all_at(plain(absent(s.tab)), DIM as nat), 2, cols)]
    }
}

pub open spec fn footer_pieces(s: State, rows: nat, cols: nat) -> Seq<Piece> {
    if has_footer(s) {
        let y: nat = if rows > 0 {
            (rows - 1) as nat
        } else {
            0
        };
        seq![line_at(all_at(plain(footer(s)), DIM as nat), y, cols)]
    } else {
        Seq::empty()
    }
}

/// What the modal draws into a pane of this size, if these are the lines of its note.
pub open spec fn screen(s: State, rows: nat, cols: nat, lines: Seq<RenderedLine>) -> Seq<Piece> {
    match s.config {
        Err(error) => seq![line_at(plain(error), 0, cols)],
        Ok(_) => seq![line_at(all_at(plain(title(s.tab)), 2), 0, cols)] + body_pieces(
            s,
            rows,
            cols,
            lines,
        ) + footer_pieces(s, rows, cols),
    }
}

} // verus!
