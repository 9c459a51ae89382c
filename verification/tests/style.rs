use tab_notes::markdown::{LineKind, RenderedLine, Span, SpanKind};
use tab_notes::style::{body, colored_text, dim_text, plain_text, style};
use zellij_tile::ui_components::Text;

fn span(start: usize, end: usize, kind: SpanKind) -> Span {
    Span { start, end, kind }
}

fn line(text: &str, kind: LineKind, spans: &[Span]) -> RenderedLine {
    RenderedLine { text: text.to_string(), kind, spans: spans.to_vec() }
}

fn same(a: &Text, b: &Text) -> bool {
    a.serialize() == b.serialize()
}

#[test]
fn plain_dimmed_and_coloured_text() {
    assert!(same(&plain_text("añ"), &Text::new("añ")));
    assert!(same(&dim_text("añ"), &Text::new("añ").dim_all()));
    assert!(same(&colored_text("añ", 2), &Text::new("añ").color_range(2, ..)));
    assert!(!same(&dim_text("añ"), &Text::new("añ")));
    assert_eq!(plain_text("ab").serialize(), "97,98");
    assert_eq!(dim_text("ab").serialize(), "$$$$0,1$97,98");
    assert_eq!(colored_text("ab", 1).serialize(), "$0,1$97,98");
}

#[test]
fn body_text_loses_its_weight() {
    let t = body(&line("abc", LineKind::Plain, &[]));
    assert!(same(&t, &Text::new("abc").unbold_all()));
}

#[test]
fn strong_runs_keep_their_weight() {
    let t = body(&line(
        "ab cd ef",
        LineKind::Plain,
        &[span(3, 5, SpanKind::Strong), span(6, 7, SpanKind::Strong)],
    ));
    let expected =
        Text::new("ab cd ef").unbold_range(0..3).unbold_range(5..6).unbold_range(7..8);
    assert!(same(&t, &expected));
}

#[test]
fn a_strong_run_at_either_end_leaves_no_gap_there() {
    let t = body(&line("abc", LineKind::Plain, &[span(0, 3, SpanKind::Strong)]));
    assert!(same(&t, &Text::new("abc")));
}

#[test]
fn code_runs_are_coloured() {
    let t = body(&line(
        "a b c",
        LineKind::Plain,
        &[span(0, 1, SpanKind::Code), span(2, 3, SpanKind::Strong), span(4, 5, SpanKind::Code)],
    ));
    let expected = Text::new("a b c")
        .unbold_range(0..2)
        .unbold_range(3..5)
        .color_range(1, 0..1)
        .color_range(1, 4..5);
    assert!(same(&t, &expected));
}

#[test]
fn every_kind_of_line_has_its_style() {
    let text = "☐ x";
    let of = |kind: LineKind| style(&line(text, kind, &[]), 4).serialize();
    let body = || Text::new(text).unbold_all();
    assert_eq!(of(LineKind::Rule), Text::new("────").dim_all().serialize());
    assert_eq!(of(LineKind::Heading1), Text::new(text).color_range(0, ..).serialize());
    assert_eq!(of(LineKind::Heading2), Text::new(text).color_range(3, ..).serialize());
    assert_eq!(of(LineKind::Heading3), Text::new(text).color_range(1, ..).serialize());
    assert_eq!(of(LineKind::Checkbox { done: true }), body().dim_all().serialize());
    assert_eq!(
        of(LineKind::Checkbox { done: false }),
        body().color_range(2, 0..1).serialize()
    );
    assert_eq!(of(LineKind::Bullet), body().color_range(1, 0..1).serialize());
    assert_eq!(of(LineKind::Quote), body().dim_all().serialize());
    assert_eq!(
        of(LineKind::Code),
        Text::new(text).color_range(1, ..).unbold_all().serialize()
    );
    assert_eq!(of(LineKind::Plain), body().serialize());
}
