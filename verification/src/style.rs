//! Maps the meaning of lines onto the host's styling primitives.
//!
//! A terminal has one font size, so headings read as headings through case, colour and the rule
//! underneath them, not through size. Styled text is bold by default and weight can only be taken
//! away, so body text is explicitly unbolded and weight is what sets headings and strong runs
//! apart.
use crate::markdown::{LineKind, RenderedLine, Span, SpanKind};
use crate::text::{chars_of, repeat_char, repeated};
use vstd::prelude::*;
use zellij_tile::ui_components::Text;

verus! {

/// A text with styling, as the host takes it.
#[verifier::external_type_specification]
#[verifier::external_body]
pub struct ExText(zellij_tile::ui_components::Text);

/// The characters of a styled text.
pub uninterp spec fn styled_chars(t: Text) -> Seq<char>;

/// The styling of a styled text: for each style level the positions of the characters that have
/// it, in the order in which they were given.
pub uninterp spec fn styled_marks(t: Text) -> Seq<Seq<nat>>;

/// The style level that dims.
pub const DIM: usize = 4;

/// The style level that takes the weight away.
pub const UNBOLD: usize = 5;

/// The positions from `from` up to `to`.
pub open spec fn positions(from: nat, to: nat) -> Seq<nat> {
    if from < to {
        Seq::new((to - from) as nat, |i: int| (from + i) as nat)
    } else {
        Seq::empty()
    }
}

/// The marks with a level that is there.
pub open spec fn padded(marks: Seq<Seq<nat>>, level: nat) -> Seq<Seq<nat>> {
    if level < marks.len() {
        marks
    } else {
        marks + Seq::new((level + 1 - marks.len()) as nat, |i: int| Seq::<nat>::empty())
    }
}

/// The marks with a range added at a level.
pub open spec fn marked(marks: Seq<Seq<nat>>, level: nat, from: nat, to: nat) -> Seq<Seq<nat>> {
    padded(marks, level).update(level as int, padded(marks, level)[level as int] + positions(from, to))
}

/// `Text::new`: a text with these characters and no styling.
#[verifier::external_body]
fn new_text(content: &str) -> (t: Text)
    ensures
        styled_chars(t) == content@,
        styled_marks(t) == Seq::<Seq<nat>>::empty(),
{
    Text::new(content)
}

/// `Text::color_range` with a range that has both ends: keeps the characters and adds the
/// positions of the range at the level. Levels and ranges far out of the text are left out: the
/// function builds every position in memory.
#[verifier::external_body]
fn color_range(t: Text, level: usize, from: usize, to: usize) -> (r: Text)
    requires
        level <= 7,
        to <= styled_chars(t).len() + 1,
    ensures
        styled_chars(r) == styled_chars(t),
        styled_marks(r) == marked(styled_marks(t), level as nat, from as nat, to as nat),
{
    t.color_range(level, from..to)
}

/// `Text::unbold_range` with a range that has both ends: keeps the characters and adds the
/// positions of the range at the level that takes the weight away.
#[verifier::external_body]
fn unbold_range(t: Text, from: usize, to: usize) -> (r: Text)
    requires
        to <= styled_chars(t).len() + 1,
    ensures
        styled_chars(r) == styled_chars(t),
        styled_marks(r) == marked(styled_marks(t), UNBOLD as nat, from as nat, to as nat),
{
    t.unbold_range(from..to)
}

/// `Text::unbold_all`: keeps the characters and adds the positions of all of them at the level
/// that takes the weight away.
#[verifier::external_body]
fn unbold_all(t: Text) -> (r: Text)
    ensures
        styled_chars(r) == styled_chars(t),
        styled_marks(r) == marked(styled_marks(t), UNBOLD as nat, 0, styled_chars(t).len()),
{
    t.unbold_all()
}

/// `Text::dim_all`: keeps the characters and adds the positions of all of them at the level that
/// dims.
#[verifier::external_body]
fn dim_all(t: Text) -> (r: Text)
    ensures
        styled_chars(r) == styled_chars(t),
        styled_marks(r) == marked(styled_marks(t), DIM as nat, 0, styled_chars(t).len()),
{
    t.dim_all()
}

/// A styled text as plain values.
pub struct Styled {
    pub text: Seq<char>,
    pub marks: Seq<Seq<nat>>,
}

pub open spec fn styled(t: Text) -> Styled {
    Styled { text: styled_chars(t), marks: styled_marks(t) }
}

/// A text without styling.
pub open spec fn plain(text: Seq<char>) -> Styled {
    Styled { text, marks: Seq::empty() }
}

/// The text with all of its characters at a level.
pub open spec fn all_at(s: Styled, level: nat) -> Styled {
    Styled { text: s.text, marks: marked(s.marks, level, 0, s.text.len()) }
}

/// The text with its first character at a level.
pub open spec fn first_at(s: Styled, level: nat) -> Styled {
    Styled { text: s.text, marks: marked(s.marks, level, 0, 1) }
}

/// Whether any run is strong.
pub open spec fn has_strong(spans: Seq<Span>) -> bool {
    exists|i: int| 0 <= i < spans.len() && (#[trigger] spans[i]).kind == SpanKind::Strong
}

/// Where the last strong run ends.
pub open spec fn strong_end(spans: Seq<Span>) -> nat
    decreases spans.len(),
{
    if spans.len() == 0 {
        0
    } else if spans.last().kind == SpanKind::Strong {
        spans.last().end as nat
    } else {
        strong_end(spans.drop_last())
    }
}

/// The marks with the weight taken away between `from` and `to`, if there is anything between.
pub open spec fn thinned(marks: Seq<Seq<nat>>, from: nat, to: nat) -> Seq<Seq<nat>> {
    if from < to {
        marked(marks, UNBOLD as nat, from, to)
    } else {
        marks
    }
}

/// The weight taken away in front of each strong run.
pub open spec fn gap_marks(spans: Seq<Span>) -> Seq<Seq<nat>>
    decreases spans.len(),
{
    if spans.len() == 0 {
        Seq::empty()
    } else {
        let front = spans.drop_last();
        if spans.last().kind == SpanKind::Strong {
            thinned(gap_marks(front), strong_end(front), spans.last().start as nat)
        } else {
            gap_marks(front)
        }
    }
}

/// The weight taken away everywhere but in the strong runs.
pub open spec fn weight_marks(spans: Seq<Span>, len: nat) -> Seq<Seq<nat>> {
    if has_strong(spans) {
        thinned(gap_marks(spans), strong_end(spans), len)
    } else {
        marked(Seq::empty(), UNBOLD as nat, 0, len)
    }
}

/// The marks with the code runs coloured.
pub open spec fn code_marks(marks: Seq<Seq<nat>>, spans: Seq<Span>) -> Seq<Seq<nat>>
    decreases spans.len(),
{
    if spans.len() == 0 {
        marks
    } else {
        let front = code_marks(marks, spans.drop_last());
        if spans.last().kind == SpanKind::Code {
            marked(front, 1, spans.last().start as nat, spans.last().end as nat)
        } else {
            front
        }
    }
}

/// Body text: the weight taken away everywhere but in the strong runs, and the code runs
/// coloured.
pub open spec fn body_of(text: Seq<char>, spans: Seq<Span>) -> Styled {
    Styled { text, marks: code_marks(weight_marks(spans, text.len()), spans) }
}

/// How a line is shown.
pub open spec fn style_of(
    text: Seq<char>,
    kind: LineKind,
    spans: Seq<Span>,
    cols: nat,
) -> Styled {
    match kind {
        LineKind::Rule => all_at(plain(repeated('─', cols)), DIM as nat),
        LineKind::Heading1 => all_at(plain(text), 0),
        LineKind::Heading2 => all_at(plain(text), 3),
        LineKind::Heading3 => all_at(plain(text), 1),
        // A finished task is still readable but stops competing for attention.
        LineKind::Checkbox { done } => if done {
            all_at(body_of(text, spans), DIM as nat)
        } else {
            first_at(body_of(text, spans), 2)
        },
        LineKind::Bullet => first_at(body_of(text, spans), 1),
        LineKind::Quote => all_at(body_of(text, spans), DIM as nat),
        LineKind::Code => all_at(all_at(plain(text), 1), UNBOLD as nat),
        LineKind::Plain => body_of(text, spans),
    }
}

/// A text without styling.
pub fn plain_text(content: &str) -> (t: Text)
    ensures
        styled(t) == plain(content@),
{
    new_text(content)
}

/// A dimmed text.
pub fn dim_text(content: &str) -> (t: Text)
    ensures
        styled(t) == all_at(plain(content@), DIM as nat),
{
    dim_all(new_text(content))
}

/// A text in one colour.
pub fn colored_text(content: &str, level: usize) -> (t: Text)
    requires
        level <= 7,
    ensures
        styled(t) == all_at(plain(content@), level as nat),
{
    let len: usize = chars_of(content).len();
    color_range(new_text(content), level, 0, len)
}

/// Unbolds everything except the strong runs, and colours the inline code runs.
pub fn body(line: &RenderedLine) -> (t: Text)
    requires
        line.well_formed(),
    ensures
        styled(t) == body_of(line.text@, line.spans@),
{
    let len: usize = chars_of(line.text.as_str()).len();
    let spans = &line.spans;
    let mut text = new_text(line.text.as_str());
    // There is no way to add weight, only to remove it, so the strong runs are the gaps left
    // between the ranges that are unbolded.
    let mut cursor: usize = 0;
    let mut strong: bool = false;
    let mut i: usize = 0;
    assert(spans@.take(0) =~= Seq::<Span>::empty());
    while i < spans.len()
        invariant
            i <= spans@.len(),
            len == line.text@.len(),
            spans@ == line.spans@,
            line.well_formed(),
            styled_chars(text) == line.text@,
            styled_marks(text) == gap_marks(spans@.take(i as int)),
            cursor == strong_end(spans@.take(i as int)),
            strong == has_strong(spans@.take(i as int)),
        decreases spans@.len() - i,
    {
        let span = spans[i];
        proof {
            let before = spans@.take(i as int);
            let after = spans@.take(i + 1);
            assert(after.drop_last() =~= before);
            assert(after.last() == span);
            assert(after[i as int] == span);
            if has_strong(before) {
                let k = choose|k: int|
                    0 <= k < before.len() && (#[trigger] before[k]).kind == SpanKind::Strong;
                assert(after[k].kind == SpanKind::Strong);
            }
            if has_strong(after) && span.kind != SpanKind::Strong {
                let k = choose|k: int|
                    0 <= k < after.len() && (#[trigger] after[k]).kind == SpanKind::Strong;
                assert(before[k].kind == SpanKind::Strong);
            }
        }
        if span.kind == SpanKind::Strong {
            strong = true;
            if cursor < span.start {
                text = unbold_range(text, cursor, span.start);
            }
            cursor = span.end;
        }
        i += 1;
    }
    assert(spans@.take(i as int) =~= spans@);
    if !strong {
        text = unbold_all(text);
        assert(gap_marks(spans@) =~= Seq::<Seq<nat>>::empty()) by {
            lemma_no_gaps(spans@);
        }
    } else if cursor < len {
        text = unbold_range(text, cursor, len);
    }
    let mut j: usize = 0;
    let ghost weight = weight_marks(spans@, len as nat);
    assert(spans@.take(0) =~= Seq::<Span>::empty());
    while j < spans.len()
        invariant
            j <= spans@.len(),
            len == line.text@.len(),
            spans@ == line.spans@,
            line.well_formed(),
            styled_chars(text) == line.text@,
            styled_marks(text) == code_marks(weight, spans@.take(j as int)),
        decreases spans@.len() - j,
    {
        let span = spans[j];
        proof {
            assert(spans@.take(j + 1).drop_last() =~= spans@.take(j as int));
            assert(spans@.take(j + 1).last() == span);
        }
        if span.kind == SpanKind::Code {
            text = color_range(text, 1, span.start, span.end);
        }
        j += 1;
    }
    assert(spans@.take(j as int) =~= spans@);
    text
}

/// Without strong runs there are no gaps.
proof fn lemma_no_gaps(spans: Seq<Span>)
    requires
        !has_strong(spans),
    ensures
        gap_marks(spans) == Seq::<Seq<nat>>::empty(),
    decreases spans.len(),
{
    if spans.len() > 0 {
        let front = spans.drop_last();
        assert(spans[spans.len() - 1] == spans.last());
        assert(!has_strong(front)) by {
            if has_strong(front) {
                let k = choose|k: int|
                    0 <= k < front.len() && (#[trigger] front[k]).kind == SpanKind::Strong;
                assert(spans[k].kind == SpanKind::Strong);
            }
        }
        lemma_no_gaps(front);
    }
}

/// Maps a line's meaning onto the host's styling primitives.
pub fn style(line: &RenderedLine, cols: usize) -> (t: Text)
    requires
        line.well_formed(),
    ensures
        styled(t) == style_of(line.text@, line.kind, line.spans@, cols as nat),
{
    match line.kind {
        LineKind::Rule => dim_text(repeat_char('─', cols).as_str()),
        LineKind::Heading1 => colored_text(line.text.as_str(), 0),
        LineKind::Heading2 => colored_text(line.text.as_str(), 3),
        LineKind::Heading3 => colored_text(line.text.as_str(), 1),
        LineKind::Checkbox { done } => if done {
            dim_all(body(line))
        } else {
            color_range(body(line), 2, 0, 1)
        },
        LineKind::Bullet => color_range(body(line), 1, 0, 1),
        LineKind::Quote => dim_all(body(line)),
        LineKind::Code => unbold_all(colored_text(line.text.as_str(), 1)),
        LineKind::Plain => body(line),
    }
}

/// Whether the character at position `p` has the style of a level.
pub open spec fn is_marked(marks: Seq<Seq<nat>>, level: nat, p: nat) -> bool {
    level < marks.len() && marks[level as int].contains(p)
}

/// Whether the character at position `p` lies in a run of the given kind.
pub open spec fn in_run(spans: Seq<Span>, kind: SpanKind, p: nat) -> bool {
    exists|i: int|
        0 <= i < spans.len() && (#[trigger] spans[i]).kind == kind && spans[i].start <= p
            < spans[i].end
}

/// The strong runs stand in order and do not overlap.
pub open spec fn strong_in_order(spans: Seq<Span>) -> bool {
    &&& forall|i: int|
        0 <= i < spans.len() && (#[trigger] spans[i]).kind == SpanKind::Strong ==> spans[i].start
            <= spans[i].end
    &&& forall|i: int, j: int|
        0 <= i < j < spans.len() && (#[trigger] spans[i]).kind == SpanKind::Strong && (
        #[trigger] spans[j]).kind == SpanKind::Strong ==> spans[i].end <= spans[j].start
}

proof fn lemma_marked(marks: Seq<Seq<nat>>, level: nat, from: nat, to: nat, other: nat, p: nat)
    ensures
        is_marked(marked(marks, level, from, to), other, p) <==> is_marked(marks, other, p) || (
        other == level && from <= p < to),
{
    let wide = padded(marks, level);
    let all = marked(marks, level, from, to);
    if other == level {
        let before = wide[level as int];
        let added = positions(from, to);
        assert(all[level as int] == before + added);
        if before.contains(p) {
            let k = choose|k: int| 0 <= k < before.len() && before[k] == p;
            assert((before + added)[k] == p);
        }
        if from <= p < to {
            assert((before + added)[before.len() + (p - from)] == p);
        }
        if (before + added).contains(p) && !before.contains(p) {
            let k = choose|k: int| 0 <= k < (before + added).len() && (before + added)[k] == p;
            assert(added[k - before.len()] == p);
        }
    } else if other < marks.len() {
        assert(all[other as int] == marks[other as int]);
    } else if other < all.len() {
        assert(all[other as int] == Seq::<nat>::empty());
    }
}

proof fn lemma_front_in_order(spans: Seq<Span>)
    requires
        spans.len() > 0,
        strong_in_order(spans),
    ensures
        strong_in_order(spans.drop_last()),
{
    let front = spans.drop_last();
    assert forall|i: int|
        0 <= i < front.len() && (#[trigger] front[i]).kind == SpanKind::Strong implies front[i].start
        <= front[i].end by {
        assert(front[i] == spans[i]);
    }
    assert forall|i: int, j: int|
        0 <= i < j < front.len() && (#[trigger] front[i]).kind == SpanKind::Strong && (
        #[trigger] front[j]).kind == SpanKind::Strong implies front[i].end <= front[j].start by {
        assert(front[i] == spans[i] && front[j] == spans[j]);
    }
}

/// No strong run reaches beyond the end of the last one.
proof fn lemma_strong_end(spans: Seq<Span>)
    requires
        strong_in_order(spans),
    ensures
        forall|i: int|
            0 <= i < spans.len() && (#[trigger] spans[i]).kind == SpanKind::Strong ==> spans[i].end
                <= strong_end(spans),
        !has_strong(spans) ==> strong_end(spans) == 0,
        strong_end(spans) > 0 ==> exists|k: int|
            0 <= k < spans.len() && (#[trigger] spans[k]).kind == SpanKind::Strong && spans[k].end
                == strong_end(spans),
    decreases spans.len(),
{
    if spans.len() > 0 {
        let front = spans.drop_last();
        let last = spans.last();
        assert(spans[spans.len() - 1] == last);
        lemma_front_in_order(spans);
        lemma_strong_end(front);
        assert forall|i: int|
            0 <= i < spans.len() && (#[trigger] spans[i]).kind == SpanKind::Strong implies spans[i].end
            <= strong_end(spans) by {
            if i < front.len() {
                assert(front[i] == spans[i]);
                if last.kind == SpanKind::Strong {
                    assert(spans[i].end <= spans[spans.len() - 1].start);
                }
            }
        }
        if !has_strong(spans) {
            assert(!has_strong(front)) by {
                if has_strong(front) {
                    let k = choose|k: int|
                        0 <= k < front.len() && (#[trigger] front[k]).kind == SpanKind::Strong;
                    assert(spans[k].kind == SpanKind::Strong);
                }
            }
        }
        if strong_end(spans) > 0 && last.kind != SpanKind::Strong {
            let k = choose|k: int|
                0 <= k < front.len() && (#[trigger] front[k]).kind == SpanKind::Strong
                    && front[k].end == strong_end(front);
            assert(spans[k].kind == SpanKind::Strong && spans[k].end == strong_end(spans));
        }
    }
}

/// Up to the end of the last strong run, exactly the characters outside strong runs have lost
/// their weight; nothing behind it has, and no other level is touched.
proof fn lemma_gap_marks(spans: Seq<Span>, level: nat, p: nat)
    requires
        strong_in_order(spans),
    ensures
        is_marked(gap_marks(spans), level, p) <==> level == UNBOLD && p < strong_end(spans)
            && !in_run(spans, SpanKind::Strong, p),
    decreases spans.len(),
{
    if spans.len() > 0 {
        let front = spans.drop_last();
        let last = spans.last();
        let n = front.len() as int;
        assert(spans[n] == last);
        lemma_front_in_order(spans);
        lemma_gap_marks(front, level, p);
        lemma_strong_end(front);
        assert(in_run(spans, SpanKind::Strong, p) <==> in_run(front, SpanKind::Strong, p) || (
        last.kind == SpanKind::Strong && last.start <= p < last.end)) by {
            if in_run(front, SpanKind::Strong, p) {
                let k = choose|k: int|
                    0 <= k < front.len() && (#[trigger] front[k]).kind == SpanKind::Strong
                        && front[k].start <= p < front[k].end;
                assert(spans[k] == front[k]);
            }
            if in_run(spans, SpanKind::Strong, p) {
                let k = choose|k: int|
                    0 <= k < spans.len() && (#[trigger] spans[k]).kind == SpanKind::Strong
                        && spans[k].start <= p < spans[k].end;
                if k < n {
                    assert(front[k] == spans[k]);
                }
            }
        }
        if last.kind == SpanKind::Strong {
            if strong_end(front) > 0 {
                let k = choose|k: int|
                    0 <= k < front.len() && (#[trigger] front[k]).kind == SpanKind::Strong
                        && front[k].end == strong_end(front);
                assert(spans[k] == front[k]);
                assert(spans[k].end <= spans[n].start);
            }
            if strong_end(front) < last.start {
                lemma_marked(
                    gap_marks(front),
                    UNBOLD as nat,
                    strong_end(front),
                    last.start as nat,
                    level,
                    p,
                );
            }
            if in_run(front, SpanKind::Strong, p) {
                let k = choose|k: int|
                    0 <= k < front.len() && (#[trigger] front[k]).kind == SpanKind::Strong
                        && front[k].start <= p < front[k].end;
                assert(front[k].end <= strong_end(front));
            }
        }
    }
}

proof fn lemma_code_marks(marks: Seq<Seq<nat>>, spans: Seq<Span>, level: nat, p: nat)
    ensures
        is_marked(code_marks(marks, spans), level, p) <==> is_marked(marks, level, p) || (level
            == 1 && in_run(spans, SpanKind::Code, p)),
    decreases spans.len(),
{
    if spans.len() > 0 {
        let front = spans.drop_last();
        let last = spans.last();
        let n = front.len() as int;
        assert(spans[n] == last);
        lemma_code_marks(marks, front, level, p);
        if last.kind == SpanKind::Code {
            lemma_marked(
                code_marks(marks, front),
                1,
                last.start as nat,
                last.end as nat,
                level,
                p,
            );
        }
        if in_run(front, SpanKind::Code, p) {
            let k = choose|k: int|
                0 <= k < front.len() && (#[trigger] front[k]).kind == SpanKind::Code
                    && front[k].start <= p < front[k].end;
            assert(spans[k] == front[k]);
        }
        if in_run(spans, SpanKind::Code, p) {
            let k = choose|k: int|
                0 <= k < spans.len() && (#[trigger] spans[k]).kind == SpanKind::Code
                    && spans[k].start <= p < spans[k].end;
            if k < n {
                assert(front[k] == spans[k]);
            }
        }
    }
}

/// In body text the weight is taken away from every character outside the strong runs and from
/// no other, and exactly the characters of code runs are coloured. Strong runs that overlap or
/// stand out of order are left out: a later run then decides where the next gap begins.
pub proof fn law_body_shows_the_runs(text: Seq<char>, spans: Seq<Span>, p: nat)
    requires
        p < text.len(),
        strong_in_order(spans),
    ensures
        is_marked(body_of(text, spans).marks, UNBOLD as nat, p) <==> !in_run(
            spans,
            SpanKind::Strong,
            p,
        ),
        is_marked(body_of(text, spans).marks, 1, p) <==> in_run(spans, SpanKind::Code, p),
{
    let weight = weight_marks(spans, text.len());
    lemma_code_marks(weight, spans, UNBOLD as nat, p);
    lemma_code_marks(weight, spans, 1, p);
    lemma_strong_end(spans);
    if has_strong(spans) {
        lemma_gap_marks(spans, UNBOLD as nat, p);
        lemma_gap_marks(spans, 1, p);
        if strong_end(spans) < text.len() {
            lemma_marked(gap_marks(spans), UNBOLD as nat, strong_end(spans), text.len(), 5, p);
            lemma_marked(gap_marks(spans), UNBOLD as nat, strong_end(spans), text.len(), 1, p);
        }
        if in_run(spans, SpanKind::Strong, p) {
            let k = choose|k: int|
                0 <= k < spans.len() && (#[trigger] spans[k]).kind == SpanKind::Strong
                    && spans[k].start <= p < spans[k].end;
            assert(spans[k].end <= strong_end(spans));
        }
    } else {
        lemma_marked(Seq::empty(), UNBOLD as nat, 0, text.len(), 5, p);
        lemma_marked(Seq::empty(), UNBOLD as nat, 0, text.len(), 1, p);
        if in_run(spans, SpanKind::Strong, p) {
            let k = choose|k: int|
                0 <= k < spans.len() && (#[trigger] spans[k]).kind == SpanKind::Strong
                    && spans[k].start <= p < spans[k].end;
            assert(spans[k].kind == SpanKind::Strong);
        }
    }
}

/// Whether lines of this kind are shown as body text.
pub open spec fn is_body(kind: LineKind) -> bool {
    match kind {
        LineKind::Checkbox { .. } | LineKind::Bullet | LineKind::Quote | LineKind::Plain => true,
        _ => false,
    }
}

/// A line is shown with its own text, except that a rule is drawn across the pane. What is done, a
/// quote or a rule is dimmed and nothing else is. Headings keep their weight and have a colour
/// each; code has the colour of code runs and no weight; body text has weight and colour by its
/// runs, and the first character of a bullet or of an open task has a colour of its own.
pub proof fn law_lines_have_the_style_of_their_kind(
    text: Seq<char>,
    kind: LineKind,
    spans: Seq<Span>,
    cols: nat,
    p: nat,
)
    requires
        strong_in_order(spans),
        kind == LineKind::Rule ==> p < cols,
        kind != LineKind::Rule ==> p < text.len(),
    ensures
        ({
            let s = style_of(text, kind, spans, cols);
            let m = s.marks;
            &&& kind == LineKind::Rule ==> s.text.len() == cols && s.text[p as int] == '─'
            &&& kind != LineKind::Rule ==> s.text == text
            &&& is_marked(m, 4, p) <==> kind == LineKind::Rule || kind == LineKind::Quote || kind
                == (LineKind::Checkbox { done: true })
            &&& is_marked(m, 5, p) <==> kind == LineKind::Code || (is_body(kind) && !in_run(
                spans,
                SpanKind::Strong,
                p,
            ))
            &&& is_marked(m, 0, p) <==> kind == LineKind::Heading1
            &&& is_marked(m, 3, p) <==> kind == LineKind::Heading2
            &&& is_marked(m, 2, p) <==> kind == (LineKind::Checkbox { done: false }) && p == 0
            &&& is_marked(m, 1, p) <==> kind == LineKind::Heading3 || kind == LineKind::Code || (
            kind == LineKind::Bullet && p == 0) || (is_body(kind) && in_run(
                spans,
                SpanKind::Code,
                p,
            ))
        }),
{
    let none = Seq::<Seq<nat>>::empty();
    let body = body_of(text, spans).marks;
    if is_body(kind) {
        law_body_shows_the_runs(text, spans, p);
        lemma_other_levels_of_body(text, spans, 0, p);
        lemma_other_levels_of_body(text, spans, 2, p);
        lemma_other_levels_of_body(text, spans, 3, p);
        lemma_other_levels_of_body(text, spans, 4, p);
    }
    assert forall|marks: Seq<Seq<nat>>, level: nat, to: nat, other: nat| #[trigger]
        is_marked(marked(marks, level, 0, to), other, p) <==> is_marked(marks, other, p) || (other
            == level && p < to) by {
        lemma_marked(marks, level, 0, to, other, p);
    }
    assert(forall|other: nat| !#[trigger] is_marked(none, other, p));
}

/// Body text has no styling but that of its runs.
proof fn lemma_other_levels_of_body(text: Seq<char>, spans: Seq<Span>, level: nat, p: nat)
    requires
        level != UNBOLD,
        level != 1,
        strong_in_order(spans),
    ensures
        !is_marked(body_of(text, spans).marks, level, p),
{
    let weight = weight_marks(spans, text.len());
    lemma_code_marks(weight, spans, level, p);
    if has_strong(spans) {
        lemma_gap_marks(spans, level, p);
        if strong_end(spans) < text.len() {
            lemma_marked(gap_marks(spans), UNBOLD as nat, strong_end(spans), text.len(), level, p);
        }
    } else {
        lemma_marked(Seq::empty(), UNBOLD as nat, 0, text.len(), level, p);
    }
}

} // verus!
