//! The legacy codec: text in which a marker character and one more
//! character set the color and style of what follows.

use vstd::prelude::*;
use vstd::string::*;
use crate::chars::{chars_of, hex_value, lemma_concat_assoc};
use crate::color::{NamedColor, TextColor};
use crate::style::Style;
use crate::text::{
    char_count_of, lemma_span_views_push, plain_text_of, span_views, Format, McText, Span,
    SpanView,
};

verus! {

/// The character that opens a legacy code: the section sign.
pub const MARKER: char = '\u{a7}';

/// What the character after a marker asks for.
#[derive(Debug, Clone, Copy, PartialEq, Eq, Structural)]
pub enum LegacyCode {
    Color(NamedColor),
    Bold,
    Italic,
    Underlined,
    Strikethrough,
    Obfuscated,
    Reset,
}

impl LegacyCode {
    /// The code that a character stands for after a marker. A color is one
    /// hexadecimal digit, in either case; the six other codes are the
    /// lower-case letters `k` to `o` and `r`.
    pub open spec fn spec_of(c: char) -> Option<LegacyCode> {
        if hex_value(c) is Some {
            Some(LegacyCode::Color(NamedColor::spec_from_code(c).unwrap()))
        } else if c == 'l' {
            Some(LegacyCode::Bold)
        } else if c == 'o' {
            Some(LegacyCode::Italic)
        } else if c == 'n' {
            Some(LegacyCode::Underlined)
        } else if c == 'm' {
            Some(LegacyCode::Strikethrough)
        } else if c == 'k' {
            Some(LegacyCode::Obfuscated)
        } else if c == 'r' {
            Some(LegacyCode::Reset)
        } else {
            None
        }
    }

    pub fn of(c: char) -> (r: Option<LegacyCode>)
        ensures
            r == Self::spec_of(c),
    {
        if let Some(n) = NamedColor::from_code(c) {
            Some(LegacyCode::Color(n))
        } else if c == 'l' {
            Some(LegacyCode::Bold)
        } else if c == 'o' {
            Some(LegacyCode::Italic)
        } else if c == 'n' {
            Some(LegacyCode::Underlined)
        } else if c == 'm' {
            Some(LegacyCode::Strikethrough)
        } else if c == 'k' {
            Some(LegacyCode::Obfuscated)
        } else if c == 'r' {
            Some(LegacyCode::Reset)
        } else {
            None
        }
    }

    /// The format after the code: a color replaces the color and turns every
    /// toggle off; a style code turns its toggle on; a reset clears both.
    pub open spec fn spec_apply(self, f: Format) -> Format {
        match self {
            LegacyCode::Color(n) => Format {
                color: Some(TextColor::Named(n)),
                style: Style::plain(),
            },
            LegacyCode::Bold => Format { style: Style { bold: true, ..f.style }, ..f },
            LegacyCode::Italic => Format { style: Style { italic: true, ..f.style }, ..f },
            LegacyCode::Underlined => Format { style: Style { underlined: true, ..f.style }, ..f },
            LegacyCode::Strikethrough => Format {
                style: Style { strikethrough: true, ..f.style },
                ..f
            },
            LegacyCode::Obfuscated => Format { style: Style { obfuscated: true, ..f.style }, ..f },
            LegacyCode::Reset => Format::plain(),
        }
    }

    pub fn apply(&self, f: Format) -> (g: Format)
        ensures
            g == self.spec_apply(f),
    {
        match self {
            LegacyCode::Color(n) => Format {
                color: Some(TextColor::Named(*n)),
                style: Style::new(),
            },
            LegacyCode::Bold => Format { style: Style { bold: true, ..f.style }, ..f },
            LegacyCode::Italic => Format { style: Style { italic: true, ..f.style }, ..f },
            LegacyCode::Underlined => Format { style: Style { underlined: true, ..f.style }, ..f },
            LegacyCode::Strikethrough => Format {
                style: Style { strikethrough: true, ..f.style },
                ..f
            },
            LegacyCode::Obfuscated => Format { style: Style { obfuscated: true, ..f.style }, ..f },
            LegacyCode::Reset => Format::new(),
        }
    }
}

/// The spans after one more character under the given format: the
/// character joins the last span if that has the same format, and else
/// starts a new span.
pub open spec fn emit(spans: Seq<SpanView>, ch: char, format: Format) -> Seq<SpanView> {
    if spans.len() > 0 && spans.last().format() == format {
        spans.drop_last().push(SpanView::of(spans.last().text.push(ch), format))
    } else {
        spans.push(SpanView::of(seq![ch], format))
    }
}

/// Where the scan of a legacy string stands: the spans so far, the format
/// in force, and whether the last character was a marker that still waits
/// for its code.
pub struct Scan {
    pub spans: Seq<SpanView>,
    pub format: Format,
    pub pending: bool,
}

impl Scan {
    pub open spec fn start() -> Scan {
        Scan { spans: Seq::empty(), format: Format::plain(), pending: false }
    }

    /// The scan after one more character. After a marker, a code takes
    /// effect and shows nothing; any other character is shown, and the
    /// marker before it too.
    pub open spec fn step(self, c: char) -> Scan {
        if self.pending {
            match LegacyCode::spec_of(c) {
                Some(code) => Scan {
                    spans: self.spans,
                    format: code.spec_apply(self.format),
                    pending: false,
                },
                None => Scan {
                    spans: emit(emit(self.spans, MARKER, self.format), c, self.format),
                    format: self.format,
                    pending: false,
                },
            }
        } else if c == MARKER {
            Scan { pending: true, ..self }
        } else {
            Scan { spans: emit(self.spans, c, self.format), ..self }
        }
    }

    /// The scan after all characters of `s`.
    pub open spec fn run(self, s: Seq<char>) -> Scan
        decreases s.len(),
    {
        if s.len() == 0 {
            self
        } else {
            self.step(s[0]).run(s.skip(1))
        }
    }

    /// The spans at the end of input: a marker that still waits is shown.
    pub open spec fn finish(self) -> Seq<SpanView> {
        if self.pending {
            emit(self.spans, MARKER, self.format)
        } else {
            self.spans
        }
    }
}

/// The document that a legacy string stands for.
pub open spec fn spec_parse(s: Seq<char>) -> Seq<SpanView> {
    Scan::start().run(s).finish()
}

/// The format as far as legacy codes can express it: a color that is not
/// one of the named colors counts as no color.
pub open spec fn legacy_format(f: Format) -> Format {
    match f.color {
        Some(TextColor::Named(_)) => f,
        _ => Format { color: None, style: f.style },
    }
}

/// Whether only a reset leads from one format to the other: a toggle has to
/// go off, or the color has to go.
pub open spec fn needs_reset(running: Format, target: Format) -> bool {
    !running.style.spec_within(target.style) || (running.color is Some && target.color is None)
}

/// The format in force after the reset, if one is needed.
pub open spec fn after_reset(running: Format, target: Format) -> Format {
    if needs_reset(running, target) {
        Format::plain()
    } else {
        running
    }
}

/// The format in force after the color code, if one is needed.
pub open spec fn after_color(running: Format, target: Format) -> Format {
    let r = after_reset(running, target);
    if target.color != r.color {
        Format { color: target.color, style: Style::plain() }
    } else {
        r
    }
}

/// A marker and the given code character if the toggle has to go on.
pub open spec fn toggle_code(was: bool, is: bool, c: char) -> Seq<char> {
    if is && !was {
        seq![MARKER, c]
    } else {
        Seq::empty()
    }
}

/// The reset that leads from `running` towards `target`, if one is needed.
pub open spec fn reset_code(running: Format, target: Format) -> Seq<char> {
    if needs_reset(running, target) {
        seq![MARKER, 'r']
    } else {
        Seq::empty()
    }
}

/// The color code that leads towards `target`, if one is needed.
pub open spec fn color_code(running: Format, target: Format) -> Seq<char> {
    let r = after_reset(running, target);
    if target.color != r.color {
        match target.color {
            Some(TextColor::Named(n)) => seq![MARKER, n.spec_code()],
            _ => Seq::empty(),
        }
    } else {
        Seq::empty()
    }
}

/// The codes that lead from the format `running` to the format `target`:
/// a reset if needed, then the color if it differs, then one code for each
/// toggle that has to go on, in the order bold, italic, underlined,
/// strikethrough, obfuscated.
pub open spec fn codes(running: Format, target: Format) -> Seq<char> {
    let r = after_color(running, target);
    reset_code(running, target) + color_code(running, target) + toggle_code(
        r.style.bold,
        target.style.bold,
        'l',
    ) + toggle_code(r.style.italic, target.style.italic, 'o') + toggle_code(
        r.style.underlined,
        target.style.underlined,
        'n',
    ) + toggle_code(r.style.strikethrough, target.style.strikethrough, 'm') + toggle_code(
        r.style.obfuscated,
        target.style.obfuscated,
        'k',
    )
}

/// The legacy string of a sequence of spans when `running` is the format in
/// force before them: for each span its codes, then its text.
pub open spec fn encode(running: Format, spans: Seq<SpanView>) -> Seq<char>
    decreases spans.len(),
{
    if spans.len() == 0 {
        Seq::empty()
    } else {
        let target = legacy_format(spans[0].format());
        codes(running, target) + spans[0].text + encode(target, spans.skip(1))
    }
}

/// The legacy string of a document.
pub open spec fn spec_to_legacy(spans: Seq<SpanView>) -> Seq<char> {
    encode(Format::plain(), spans)
}

/// Adds one character under the given format to the spans.
fn push_char(spans: &mut Vec<Span>, c: char, format: Format)
    ensures
        span_views(final(spans)@) == emit(span_views(old(spans)@), c, format),
{
    let n = spans.len();
    let ghost before = span_views(spans@);
    if n > 0 && spans[n - 1].format().same(&format) {
        let mut last = spans.pop().unwrap();
        assert(span_views(spans@) =~= before.drop_last());
        last.text.push(c);
        proof {
            lemma_span_views_push(spans@, last);
        }
        spans.push(last);
    } else {
        let mut text = String::new();
        text.push(c);
        let span = Span { text, color: format.color, style: format.style };
        proof {
            lemma_span_views_push(spans@, span);
            assert(span.text@ =~= seq![c]);
        }
        spans.push(span);
    }
}

pub fn to_legacy_format(f: Format) -> (g: Format)
    ensures
        g == legacy_format(f),
{
    match f.color {
        Some(TextColor::Named(_)) => f,
        _ => Format { color: None, style: f.style },
    }
}

/// Appends a marker and the code character if the toggle has to go on.
fn push_toggle(out: &mut String, was: bool, is: bool, c: char)
    ensures
        final(out)@ == old(out)@ + toggle_code(was, is, c),
{
    if is && !was {
        out.push(MARKER);
        out.push(c);
        assert(out@ =~= old(out)@ + seq![MARKER, c]);
    } else {
        assert(out@ =~= old(out)@ + Seq::<char>::empty());
    }
}

/// Appends a reset if the way from `running` to `target` needs one.
fn push_reset(out: &mut String, running: Format, target: Format) -> (r: Format)
    ensures
        final(out)@ == old(out)@ + reset_code(running, target),
        r == after_reset(running, target),
{
    if !running.style.within(&target.style) || (running.color.is_some()
        && target.color.is_none()) {
        out.push(MARKER);
        out.push('r');
        assert(out@ =~= old(out)@ + seq![MARKER, 'r']);
        Format::new()
    } else {
        assert(out@ =~= old(out)@ + Seq::<char>::empty());
        running
    }
}

/// Appends the color code if the color of `target` is not yet in force.
fn push_color(out: &mut String, running: Format, target: Format, r: Format) -> (q: Format)
    requires
        r == after_reset(running, target),
    ensures
        final(out)@ == old(out)@ + color_code(running, target),
        q == after_color(running, target),
{
    let differs = match (target.color, r.color) {
        (None, None) => false,
        (Some(a), Some(b)) => a != b,
        _ => true,
    };
    if differs {
        if let Some(TextColor::Named(n)) = target.color {
            out.push(MARKER);
            out.push(n.code());
            assert(out@ =~= old(out)@ + seq![MARKER, n.spec_code()]);
        } else {
            assert(out@ =~= old(out)@ + Seq::<char>::empty());
        }
        Format { color: target.color, style: Style::new() }
    } else {
        assert(out@ =~= old(out)@ + Seq::<char>::empty());
        r
    }
}

/// Appends the codes that lead from `running` to `target`.
fn push_codes(out: &mut String, running: Format, target: Format)
    ensures
        final(out)@ == old(out)@ + codes(running, target),
{
    let ghost o = out@;
    let r = push_reset(out, running, target);
    let ghost seg1 = reset_code(running, target);
    let q = push_color(out, running, target, r);
    let ghost seg2 = color_code(running, target);
    proof {
        lemma_concat_assoc(o, seg1, seg2);
    }
    push_toggle(out, q.style.bold, target.style.bold, 'l');
    let ghost seg3 = toggle_code(q.style.bold, target.style.bold, 'l');
    proof {
        lemma_concat_assoc(o, seg1 + seg2, seg3);
    }
    push_toggle(out, q.style.italic, target.style.italic, 'o');
    let ghost seg4 = toggle_code(q.style.italic, target.style.italic, 'o');
    proof {
        lemma_concat_assoc(o, seg1 + seg2 + seg3, seg4);
    }
    push_toggle(out, q.style.underlined, target.style.underlined, 'n');
    let ghost seg5 = toggle_code(q.style.underlined, target.style.underlined, 'n');
    proof {
        lemma_concat_assoc(o, seg1 + seg2 + seg3 + seg4, seg5);
    }
    push_toggle(out, q.style.strikethrough, target.style.strikethrough, 'm');
    let ghost seg6 = toggle_code(q.style.strikethrough, target.style.strikethrough, 'm');
    proof {
        lemma_concat_assoc(o, seg1 + seg2 + seg3 + seg4 + seg5, seg6);
    }
    push_toggle(out, q.style.obfuscated, target.style.obfuscated, 'k');
    let ghost seg7 = toggle_code(q.style.obfuscated, target.style.obfuscated, 'k');
    proof {
        lemma_concat_assoc(o, seg1 + seg2 + seg3 + seg4 + seg5 + seg6, seg7);
    }
}

impl McText {
    /// Reads a legacy string. Every string is accepted: a marker that no
    /// code follows is text, and so is the character after it.
    pub fn parse(text: &str) -> (t: McText)
        ensures
            t@ == spec_parse(text@),
    {
        let chars = chars_of(text);
        let mut spans: Vec<Span> = Vec::new();
        let mut format = Format::new();
        let mut pending = false;
        let mut i: usize = 0;
        assert(span_views(spans@) =~= Seq::<SpanView>::empty());
        assert(chars@.skip(0) =~= chars@);
        while i < chars.len()
            invariant
                i <= chars.len(),
                chars@ == text@,
                (Scan { spans: span_views(spans@), format, pending }).run(chars@.skip(i as int))
                    == Scan::start().run(chars@),
            decreases chars.len() - i,
        {
            let c = chars[i];
            let ghost before = Scan { spans: span_views(spans@), format, pending };
            if pending {
                match LegacyCode::of(c) {
                    Some(code) => {
                        format = code.apply(format);
                    },
                    None => {
                        push_char(&mut spans, MARKER, format);
                        push_char(&mut spans, c, format);
                    },
                }
                pending = false;
            } else if c == MARKER {
                pending = true;
            } else {
                push_char(&mut spans, c, format);
            }
            proof {
                assert(chars@.skip(i as int)[0] == c);
                assert(chars@.skip(i as int).skip(1) =~= chars@.skip(i + 1));
                assert((Scan { spans: span_views(spans@), format, pending }) == before.step(c));
            }
            i += 1;
        }
        if pending {
            push_char(&mut spans, MARKER, format);
        }
        McText::from_spans(spans)
    }

    /// Writes the document as a legacy string. Before each span stand the
    /// codes that lead from the format of the span before it to its own; a
    /// color that is not a named color is written as no color.
    pub fn to_legacy(&self) -> (s: String)
        ensures
            s@ == spec_to_legacy(self@),
    {
        let spans = self.spans();
        let mut out = String::new();
        let mut running = Format::new();
        let mut i: usize = 0;
        assert(self@.skip(0) =~= self@);
        assert(out@ + encode(running, self@.skip(0)) =~= encode(Format::plain(), self@));
        while i < spans.len()
            invariant
                i <= spans.len(),
                span_views(spans@) == self@,
                running == legacy_format(running),
                out@ + encode(running, self@.skip(i as int)) == encode(Format::plain(), self@),
            decreases spans.len() - i,
        {
            let span = &spans[i];
            let target = to_legacy_format(span.format());
            let ghost before = out@;
            proof {
                assert(self@.skip(i as int)[0] == span@);
                assert(self@.skip(i as int).skip(1) =~= self@.skip(i + 1));
            }
            push_codes(&mut out, running, target);
            out.append(span.text.as_str());
            proof {
                assert(out@ + encode(target, self@.skip(i + 1)) =~= before + encode(
                    running,
                    self@.skip(i as int),
                ));
            }
            running = target;
            i += 1;
        }
        assert(encode(running, self@.skip(i as int)) =~= Seq::<char>::empty());
        assert(out@ + Seq::<char>::empty() =~= out@);
        out
    }
}

/// The text of a legacy string without its codes.
pub fn strip_codes(text: &str) -> (s: String)
    ensures
        s@ == plain_text_of(spec_parse(text@)),
{
    McText::parse(text).plain_text()
}

/// The number of characters that a legacy string shows.
pub fn count_visible_chars(text: &str) -> (n: usize)
    ensures
        n == char_count_of(spec_parse(text@)),
{
    McText::parse(text).char_count()
}

} // verus!
