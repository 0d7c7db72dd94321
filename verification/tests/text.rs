use mctext::{McText, NamedColor, Span, Style, TextColor};

#[test]
fn builder_does_not_carry_style_over() {
    let doc = McText::new().span("hi").bold().then("there").build();
    assert_eq!(doc.spans().len(), 2);
    let first = &doc.spans()[0];
    assert_eq!(first.text, "hi");
    assert!(first.style.bold);
    assert_eq!(first.color, None);
    let second = &doc.spans()[1];
    assert_eq!(second.text, "there");
    assert!(!second.style.bold);
    assert_eq!(second.color, None);
    assert_eq!(second.style, Style::new());
}

#[test]
fn builder_sets_each_toggle_and_color() {
    let doc = McText::new()
        .span("a")
        .color(TextColor::Named(NamedColor::Red))
        .bold()
        .italic()
        .underlined()
        .strikethrough()
        .obfuscated()
        .build();
    assert_eq!(doc.len(), 1);
    let s = &doc.spans()[0];
    assert_eq!(s.color, Some(TextColor::Named(NamedColor::Red)));
    assert_eq!(
        s.style,
        Style { bold: true, italic: true, underlined: true, strikethrough: true, obfuscated: true }
    );
}

#[test]
fn builder_three_runs() {
    let doc = McText::new()
        .span("bold ")
        .color(NamedColor::Red.into())
        .bold()
        .then("& ")
        .color(NamedColor::Gray.into())
        .then("italic")
        .color(NamedColor::Aqua.into())
        .italic()
        .build();
    assert_eq!(doc.len(), 3);
    assert_eq!(doc.plain_text(), "bold & italic");
    assert_eq!(doc.spans()[1].color, Some(TextColor::Named(NamedColor::Gray)));
    assert!(!doc.spans()[1].style.bold);
    assert!(doc.spans()[2].style.italic);
    assert!(!doc.spans()[2].style.bold);
}

#[test]
fn builder_drops_empty_runs() {
    let doc = McText::new().span("").bold().then("x").then("").then("y").build();
    assert_eq!(doc.len(), 2);
    assert_eq!(doc.plain_text(), "xy");
    let empty = McText::new().span("").build();
    assert!(empty.is_empty());
}

#[test]
fn builder_extends_a_document() {
    let base = McText::new().span("a").build();
    let more = base.span("b").italic().build();
    assert_eq!(more.len(), 2);
    assert_eq!(more.spans()[0].text, "a");
    assert!(more.spans()[1].style.italic);
}

#[test]
fn empty_document() {
    let doc = McText::new();
    assert!(doc.is_empty());
    assert_eq!(doc.len(), 0);
    assert_eq!(doc.plain_text(), "");
    assert_eq!(doc.char_count(), 0);
    assert_eq!(McText::default(), McText::new());
}

#[test]
fn concat_keeps_order_and_operands() {
    let a = McText::new().span("ab").bold().build();
    let b = McText::new().span("cd").then("e").build();
    let c = a.concat(&b);
    assert_eq!(c.len(), 3);
    assert_eq!(c.plain_text(), "abcde");
    assert_eq!(c.spans()[0], a.spans()[0]);
    assert_eq!(c.spans()[1], b.spans()[0]);
    assert_eq!(c.spans()[2], b.spans()[1]);
    assert_eq!(a.len(), 1);
    assert_eq!(b.len(), 2);
    assert_eq!(a.concat(&McText::new()), a);
    assert_eq!(McText::new().concat(&b), b);
}

#[test]
fn char_count_counts_scalar_values() {
    let doc = McText::new().span("h\u{e9}llo").then("\u{1f600}\u{a7}").build();
    assert_eq!(doc.plain_text(), "h\u{e9}llo\u{1f600}\u{a7}");
    assert_eq!(doc.char_count(), 7);
    assert_eq!(doc.char_count(), doc.plain_text().chars().count());
    assert!(doc.plain_text().len() > 7);
}

#[test]
fn from_spans_and_clone() {
    let spans = vec![Span::new("x"), Span::styled("y", Some(TextColor::Rgb { r: 1, g: 2, b: 3 }), Style::new())];
    let doc = McText::from_spans(spans);
    assert_eq!(doc.len(), 2);
    assert_eq!(doc.clone(), doc);
    assert_eq!(doc.spans()[1].format().color, Some(TextColor::Rgb { r: 1, g: 2, b: 3 }));
    let back = doc.clone().into_spans();
    assert_eq!(back.len(), 2);
    assert_eq!(back[0].text, "x");
}

#[test]
fn merge_spans_joins_neighbours() {
    let spans = vec![
        Span::new("a"),
        Span::new(""),
        Span::new("b"),
        Span::styled("c", Some(TextColor::Named(NamedColor::Red)), Style::new()),
        Span::new("d"),
    ];
    let merged = mctext::text::merge_spans(&spans);
    assert_eq!(merged.len(), 3);
    assert_eq!(merged[0].text, "ab");
    assert_eq!(merged[1].text, "c");
    assert_eq!(merged[2].text, "d");
}
