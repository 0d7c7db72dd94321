//! Spans, documents and the fluent builder.

use vstd::prelude::*;
use vstd::string::*;
use crate::color::TextColor;
use crate::style::Style;

verus! {

/// The color and style under which a character is shown. `None` as the
/// color means that no color was chosen.
#[derive(Debug, Clone, Copy, PartialEq, Eq, Hash, Structural)]
pub struct Format {
    pub color: Option<TextColor>,
    pub style: Style,
}

impl Format {
    /// No color, every toggle off.
    pub open spec fn plain() -> Format {
        Format { color: None, style: Style::plain() }
    }

    pub fn new() -> (f: Format)
        ensures
            f == Format::plain(),
    {
        Format { color: None, style: Style::new() }
    }

    /// Whether color and style agree.
    pub fn same(&self, other: &Format) -> (b: bool)
        ensures
            b == (*self == *other),
    {
        let same_color = match (self.color, other.color) {
            (None, None) => true,
            (Some(a), Some(b)) => a == b,
            _ => false,
        };
        same_color && self.style == other.style
    }
}

/// A run of text under one color and style.
#[derive(Debug, PartialEq, Eq)]
pub struct Span {
    pub text: String,
    pub color: Option<TextColor>,
    pub style: Style,
}

/// What a span holds, as a mathematical value.
pub struct SpanView {
    pub text: Seq<char>,
    pub color: Option<TextColor>,
    pub style: Style,
}

impl SpanView {
    pub open spec fn format(self) -> Format {
        Format { color: self.color, style: self.style }
    }

    pub open spec fn of(text: Seq<char>, format: Format) -> SpanView {
        SpanView { text, color: format.color, style: format.style }
    }
}

impl View for Span {
    type V = SpanView;

    open spec fn view(&self) -> SpanView {
        SpanView { text: self.text@, color: self.color, style: self.style }
    }
}

impl Clone for Span {
    fn clone(&self) -> (s: Span)
        ensures
            s@ == self@,
    {
        Span { text: self.text.clone(), color: self.color, style: self.style }
    }
}

impl Span {
    /// A span of the given text without color or style.
    pub fn new(text: &str) -> (s: Span)
        ensures
            s@ == SpanView::of(text@, Format::plain()),
    {
        Span { text: text.to_owned(), color: None, style: Style::new() }
    }

    /// A span of the given text under the given color and style.
    pub fn styled(text: &str, color: Option<TextColor>, style: Style) -> (s: Span)
        ensures
            s@ == (SpanView { text: text@, color, style }),
    {
        Span { text: text.to_owned(), color, style }
    }

    pub fn format(&self) -> (f: Format)
        ensures
            f == self@.format(),
    {
        Format { color: self.color, style: self.style }
    }
}

/// One character of a document together with its color and style.
pub struct StyledChar {
    pub ch: char,
    pub format: Format,
}

impl StyledChar {
    pub open spec fn of(ch: char, format: Format) -> StyledChar {
        StyledChar { ch, format }
    }
}

/// The characters of a text, each under the same format.
pub open spec fn styled(text: Seq<char>, format: Format) -> Seq<StyledChar> {
    Seq::new(text.len(), |i: int| StyledChar::of(text[i], format))
}

/// A sequence of spans character by character: every character with the
/// color and style of its span. Two documents with the same value here look
/// the same, however their text is cut into spans.
pub open spec fn resolved(spans: Seq<SpanView>) -> Seq<StyledChar>
    decreases spans.len(),
{
    if spans.len() == 0 {
        Seq::empty()
    } else {
        styled(spans[0].text, spans[0].format()) + resolved(spans.skip(1))
    }
}

/// The text of a sequence of spans, joined without separators.
pub open spec fn plain_text_of(spans: Seq<SpanView>) -> Seq<char>
    decreases spans.len(),
{
    if spans.len() == 0 {
        Seq::empty()
    } else {
        spans[0].text + plain_text_of(spans.skip(1))
    }
}

/// The number of characters (Unicode scalar values) in a sequence of spans.
pub open spec fn char_count_of(spans: Seq<SpanView>) -> nat
    decreases spans.len(),
{
    if spans.len() == 0 {
        0
    } else {
        spans[0].text.len() + char_count_of(spans.skip(1))
    }
}

/// The text of a document grows by a span's text when the span is appended.
pub proof fn lemma_plain_text_push(spans: Seq<SpanView>, span: SpanView)
    ensures
        plain_text_of(spans.push(span)) == plain_text_of(spans) + span.text,
    decreases spans.len(),
{
    if spans.len() == 0 {
        assert(spans.push(span).skip(1) =~= Seq::empty());
        assert(plain_text_of(spans.push(span).skip(1)) =~= Seq::empty());
        assert(plain_text_of(spans.push(span)) =~= span.text);
    } else {
        assert(spans.push(span).skip(1) =~= spans.skip(1).push(span));
        lemma_plain_text_push(spans.skip(1), span);
        assert(plain_text_of(spans.push(span)) =~= plain_text_of(spans) + span.text);
    }
}

/// The text of two sequences of spans in a row is the text of the first
/// followed by the text of the second.
pub proof fn lemma_plain_text_concat(a: Seq<SpanView>, b: Seq<SpanView>)
    ensures
        plain_text_of(a + b) == plain_text_of(a) + plain_text_of(b),
    decreases a.len(),
{
    if a.len() == 0 {
        assert(a + b =~= b);
        assert(plain_text_of(a + b) =~= plain_text_of(a) + plain_text_of(b));
    } else {
        assert((a + b).skip(1) =~= a.skip(1) + b);
        lemma_plain_text_concat(a.skip(1), b);
        assert(plain_text_of(a + b) =~= plain_text_of(a) + plain_text_of(b));
    }
}

/// The character-by-character value of a document grows by a span's
/// characters when the span is appended.
pub proof fn lemma_resolved_push(spans: Seq<SpanView>, span: SpanView)
    ensures
        resolved(spans.push(span)) == resolved(spans) + styled(span.text, span.format()),
    decreases spans.len(),
{
    if spans.len() == 0 {
        assert(spans.push(span).skip(1) =~= Seq::empty());
        assert(resolved(spans.push(span).skip(1)) =~= Seq::empty());
        assert(resolved(spans.push(span)) =~= styled(span.text, span.format()));
    } else {
        assert(spans.push(span).skip(1) =~= spans.skip(1).push(span));
        lemma_resolved_push(spans.skip(1), span);
        assert(resolved(spans.push(span)) =~= resolved(spans) + styled(
            span.text,
            span.format(),
        ));
    }
}

/// The character-by-character value of two sequences of spans in a row is
/// that of the first followed by that of the second.
pub proof fn lemma_resolved_concat(a: Seq<SpanView>, b: Seq<SpanView>)
    ensures
        resolved(a + b) == resolved(a) + resolved(b),
    decreases a.len(),
{
    if a.len() == 0 {
        assert(a + b =~= b);
        assert(resolved(a + b) =~= resolved(a) + resolved(b));
    } else {
        assert((a + b).skip(1) =~= a.skip(1) + b);
        lemma_resolved_concat(a.skip(1), b);
        assert(resolved(a + b) =~= resolved(a) + resolved(b));
    }
}

/// The character count of a document is the length of its plain text, and
/// the characters of its character-by-character value are that text.
pub proof fn lemma_char_count_is_text_length(spans: Seq<SpanView>)
    ensures
        char_count_of(spans) == plain_text_of(spans).len(),
        resolved(spans).len() == plain_text_of(spans).len(),
        forall|i: int|
            0 <= i < plain_text_of(spans).len() ==> (#[trigger] resolved(spans)[i]).ch
                == plain_text_of(spans)[i],
    decreases spans.len(),
{
    if spans.len() > 0 {
        lemma_char_count_is_text_length(spans.skip(1));
        let head = styled(spans[0].text, spans[0].format());
        let tail = resolved(spans.skip(1));
        let text_tail = plain_text_of(spans.skip(1));
        assert(head.len() == spans[0].text.len());
        assert(resolved(spans) == head + tail);
        assert(plain_text_of(spans) == spans[0].text + text_tail);
        assert forall|i: int| 0 <= i < plain_text_of(spans).len() implies (#[trigger] resolved(
            spans,
        )[i]).ch == plain_text_of(spans)[i] by {
            if i < head.len() {
                assert(resolved(spans)[i] == head[i]);
            } else {
                assert(resolved(spans)[i] == tail[i - head.len()]);
                assert(plain_text_of(spans)[i] == text_tail[i - head.len()]);
            }
        }
    }
}

/// The views of a vector of spans grow by a span's view when the span is
/// appended.
pub proof fn lemma_span_views_push(spans: Seq<Span>, span: Span)
    ensures
        span_views(spans.push(span)) == span_views(spans).push(span@),
{
    assert(span_views(spans.push(span)) =~= span_views(spans).push(span@));
}

/// The spans after a run of text under the given format: an empty run
/// changes nothing, a run under the format of the last span joins that
/// span, and any other run is a new span.
pub open spec fn append_run(spans: Seq<SpanView>, text: Seq<char>, format: Format) -> Seq<
    SpanView,
> {
    if text.len() == 0 {
        spans
    } else if spans.len() > 0 && spans.last().format() == format {
        spans.drop_last().push(SpanView::of(spans.last().text + text, format))
    } else {
        spans.push(SpanView::of(text, format))
    }
}

/// The spans with empty ones dropped and neighbours of one format joined.
pub open spec fn merged(spans: Seq<SpanView>) -> Seq<SpanView>
    decreases spans.len(),
{
    if spans.len() == 0 {
        Seq::empty()
    } else {
        append_run(merged(spans.drop_last()), spans.last().text, spans.last().format())
    }
}

/// The characters of two texts in a row under one format.
pub proof fn lemma_styled_concat(a: Seq<char>, b: Seq<char>, format: Format)
    ensures
        styled(a + b, format) == styled(a, format) + styled(b, format),
{
    assert(styled(a + b, format) =~= styled(a, format) + styled(b, format));
}

/// A run that is appended adds its characters, under its format, to the
/// character-by-character value.
pub proof fn lemma_resolved_append_run(spans: Seq<SpanView>, text: Seq<char>, format: Format)
    ensures
        resolved(append_run(spans, text, format)) == resolved(spans) + styled(text, format),
{
    if text.len() == 0 {
        assert(resolved(spans) + styled(text, format) =~= resolved(spans));
    } else if spans.len() > 0 && spans.last().format() == format {
        let front = spans.drop_last();
        let last = spans.last();
        assert(spans =~= front.push(last));
        lemma_resolved_push(front, last);
        lemma_resolved_push(front, SpanView::of(last.text + text, format));
        lemma_styled_concat(last.text, text, format);
        assert(resolved(front) + (styled(last.text, format) + styled(text, format)) =~= (resolved(
            front,
        ) + styled(last.text, format)) + styled(text, format));
    } else {
        lemma_resolved_push(spans, SpanView::of(text, format));
    }
}

/// Joining neighbours does not change the character-by-character value.
pub proof fn lemma_merged_keeps_resolved(spans: Seq<SpanView>)
    ensures
        resolved(merged(spans)) == resolved(spans),
    decreases spans.len(),
{
    if spans.len() > 0 {
        let front = spans.drop_last();
        let last = spans.last();
        lemma_merged_keeps_resolved(front);
        lemma_resolved_append_run(merged(front), last.text, last.format());
        assert(spans =~= front.push(last));
        lemma_resolved_push(front, last);
    }
}

/// A piece of rich text: spans in order.
#[derive(Debug, PartialEq, Eq)]
pub struct McText {
    spans: Vec<Span>,
}

/// The views of a vector of spans.
pub open spec fn span_views(spans: Seq<Span>) -> Seq<SpanView> {
    spans.map_values(|s: Span| s@)
}

impl View for McText {
    type V = Seq<SpanView>;

    closed spec fn view(&self) -> Seq<SpanView> {
        span_views(self.spans@)
    }
}

impl Clone for McText {
    fn clone(&self) -> (t: McText)
        ensures
            t@ == self@,
    {
        McText { spans: clone_spans(&self.spans) }
    }
}

/// A copy of a vector of spans.
pub fn clone_spans(spans: &Vec<Span>) -> (copy: Vec<Span>)
    ensures
        span_views(copy@) == span_views(spans@),
{
    let mut copy: Vec<Span> = Vec::new();
    let mut i: usize = 0;
    while i < spans.len()
        invariant
            i <= spans.len(),
            span_views(copy@) == span_views(spans@).take(i as int),
        decreases spans.len() - i,
    {
        let span = spans[i].clone();
        proof {
            lemma_span_views_push(copy@, span);
            assert(span_views(spans@).take(i as int).push(span@) =~= span_views(spans@).take(
                i + 1,
            ));
        }
        copy.push(span);
        i += 1;
    }
    assert(span_views(spans@).take(i as int) =~= span_views(spans@));
    copy
}

/// Appends a run of text under the given format, joining it to the last
/// span where the formats agree.
pub fn push_run(spans: &mut Vec<Span>, text: &str, format: Format)
    ensures
        span_views(final(spans)@) == append_run(span_views(old(spans)@), text@, format),
{
    let n = spans.len();
    let ghost before = span_views(spans@);
    if text.unicode_len() == 0 {
        return ;
    }
    if n > 0 && spans[n - 1].format().same(&format) {
        let mut last = spans.pop().unwrap();
        assert(span_views(spans@) =~= before.drop_last());
        last.text.append(text);
        proof {
            lemma_span_views_push(spans@, last);
        }
        spans.push(last);
    } else {
        let span = Span { text: text.to_owned(), color: format.color, style: format.style };
        proof {
            lemma_span_views_push(spans@, span);
        }
        spans.push(span);
    }
}

/// The spans with empty ones dropped and neighbours of one format joined.
pub fn merge_spans(spans: &Vec<Span>) -> (out: Vec<Span>)
    ensures
        span_views(out@) == merged(span_views(spans@)),
{
    let mut out: Vec<Span> = Vec::new();
    let mut i: usize = 0;
    let ghost all = span_views(spans@);
    assert(all.take(0) =~= Seq::<SpanView>::empty());
    assert(span_views(out@) =~= Seq::<SpanView>::empty());
    while i < spans.len()
        invariant
            i <= spans.len(),
            all == span_views(spans@),
            span_views(out@) == merged(all.take(i as int)),
        decreases spans.len() - i,
    {
        proof {
            assert(all.take(i + 1).drop_last() =~= all.take(i as int));
            assert(all.take(i + 1).last() == spans[i as int]@);
        }
        push_run(&mut out, spans[i].text.as_str(), spans[i].format());
        i += 1;
    }
    assert(all.take(i as int) =~= all);
    out
}

impl McText {
    /// The empty document.
    pub fn new() -> (t: McText)
        ensures
            t@ == Seq::<SpanView>::empty(),
    {
        let t = McText { spans: Vec::new() };
        assert(t@ =~= Seq::<SpanView>::empty());
        t
    }

    /// The document made of the given spans, in order.
    pub fn from_spans(spans: Vec<Span>) -> (t: McText)
        ensures
            t@ == span_views(spans@),
    {
        McText { spans }
    }

    /// The spans of the document, in order.
    pub fn spans(&self) -> (s: &Vec<Span>)
        ensures
            span_views(s@) == self@,
    {
        &self.spans
    }

    /// The spans of the document, in order.
    pub fn into_spans(self) -> (s: Vec<Span>)
        ensures
            span_views(s@) == self@,
    {
        self.spans
    }

    /// The number of spans.
    pub fn len(&self) -> (n: usize)
        ensures
            n == self@.len(),
    {
        self.spans.len()
    }

    /// Whether the document has no span.
    pub fn is_empty(&self) -> (b: bool)
        ensures
            b == (self@.len() == 0),
    {
        self.spans.len() == 0
    }

    /// The text of all spans, joined without separators.
    pub fn plain_text(&self) -> (s: String)
        ensures
            s@ == plain_text_of(self@),
    {
        let mut s = String::new();
        let mut i: usize = 0;
        assert(self@.take(0) =~= Seq::<SpanView>::empty());
        while i < self.spans.len()
            invariant
                i <= self.spans.len(),
                self@.len() == self.spans.len(),
                s@ == plain_text_of(self@.take(i as int)),
            decreases self.spans.len() - i,
        {
            proof {
                lemma_plain_text_push(self@.take(i as int), self@[i as int]);
                assert(self@.take(i as int).push(self@[i as int]) =~= self@.take(i + 1));
            }
            s.append(self.spans[i].text.as_str());
            i += 1;
        }
        assert(self@.take(i as int) =~= self@);
        s
    }

    /// The number of characters (Unicode scalar values) in the document.
    pub fn char_count(&self) -> (n: usize)
        ensures
            n == char_count_of(self@),
            n == plain_text_of(self@).len(),
    {
        proof {
            lemma_char_count_is_text_length(self@);
        }
        self.plain_text().as_str().unicode_len()
    }

    /// A new document: the spans of `self`, then those of `other`.
    pub fn concat(&self, other: &McText) -> (t: McText)
        ensures
            t@ == self@ + other@,
    {
        let mut spans = clone_spans(&self.spans);
        let mut i: usize = 0;
        while i < other.spans.len()
            invariant
                i <= other.spans.len(),
                span_views(spans@) == self@ + other@.take(i as int),
            decreases other.spans.len() - i,
        {
            let span = other.spans[i].clone();
            proof {
                lemma_span_views_push(spans@, span);
                assert((self@ + other@.take(i as int)).push(span@) =~= self@ + other@.take(
                    i + 1,
                ));
            }
            spans.push(span);
            i += 1;
        }
        assert(other@.take(i as int) =~= other@);
        McText { spans }
    }

    /// Starts building on this document: opens a run with the given text,
    /// without color or style.
    pub fn span(self, text: &str) -> (b: SpanBuilder)
        ensures
            b.finished() == self@,
            b.pending() == SpanView::of(text@, Format::plain()),
    {
        SpanBuilder { spans: self.spans, text: text.to_owned(), color: None, style: Style::new() }
    }
}

impl Default for McText {
    fn default() -> (t: McText)
        ensures
            t@ == Seq::<SpanView>::empty(),
    {
        McText::new()
    }
}

/// Accumulates a document run by run: the spans that are finished, and one
/// pending run whose color and style can still be set.
#[derive(Debug)]
pub struct SpanBuilder {
    spans: Vec<Span>,
    text: String,
    color: Option<TextColor>,
    style: Style,
}

/// The finished spans once the pending run is closed: the run joins them
/// unless its text is empty.
pub open spec fn flushed(finished: Seq<SpanView>, pending: SpanView) -> Seq<SpanView> {
    if pending.text.len() > 0 {
        finished.push(pending)
    } else {
        finished
    }
}

impl SpanBuilder {
    /// The spans that are finished.
    pub closed spec fn finished(&self) -> Seq<SpanView> {
        span_views(self.spans@)
    }

    /// The pending run.
    pub closed spec fn pending(&self) -> SpanView {
        SpanView { text: self.text@, color: self.color, style: self.style }
    }

    /// Sets the color of the pending run.
    pub fn color(self, color: TextColor) -> (b: SpanBuilder)
        ensures
            b.finished() == self.finished(),
            b.pending() == (SpanView { color: Some(color), ..self.pending() }),
    {
        SpanBuilder { spans: self.spans, text: self.text, color: Some(color), style: self.style }
    }

    /// Turns bold on for the pending run.
    pub fn bold(self) -> (b: SpanBuilder)
        ensures
            b.finished() == self.finished(),
            b.pending() == (SpanView {
                style: Style { bold: true, ..self.pending().style },
                ..self.pending()
            }),
    {
        let style = Style { bold: true, ..self.style };
        SpanBuilder { spans: self.spans, text: self.text, color: self.color, style }
    }

    /// Turns italic on for the pending run.
    pub fn italic(self) -> (b: SpanBuilder)
        ensures
            b.finished() == self.finished(),
            b.pending() == (SpanView {
                style: Style { italic: true, ..self.pending().style },
                ..self.pending()
            }),
    {
        let style = Style { italic: true, ..self.style };
        SpanBuilder { spans: self.spans, text: self.text, color: self.color, style }
    }

    /// Turns underlining on for the pending run.
    pub fn underlined(self) -> (b: SpanBuilder)
        ensures
            b.finished() == self.finished(),
            b.pending() == (SpanView {
                style: Style { underlined: true, ..self.pending().style },
                ..self.pending()
            }),
    {
        let style = Style { underlined: true, ..self.style };
        SpanBuilder { spans: self.spans, text: self.text, color: self.color, style }
    }

    /// Turns strikethrough on for the pending run.
    pub fn strikethrough(self) -> (b: SpanBuilder)
        ensures
            b.finished() == self.finished(),
            b.pending() == (SpanView {
                style: Style { strikethrough: true, ..self.pending().style },
                ..self.pending()
            }),
    {
        let style = Style { strikethrough: true, ..self.style };
        SpanBuilder { spans: self.spans, text: self.text, color: self.color, style }
    }

    /// Turns obfuscation on for the pending run.
    pub fn obfuscated(self) -> (b: SpanBuilder)
        ensures
            b.finished() == self.finished(),
            b.pending() == (SpanView {
                style: Style { obfuscated: true, ..self.pending().style },
                ..self.pending()
            }),
    {
        let style = Style { obfuscated: true, ..self.style };
        SpanBuilder { spans: self.spans, text: self.text, color: self.color, style }
    }

    /// Closes the pending run and opens a new one with the given text. The
    /// new run starts without color or style: nothing carries over.
    pub fn then(self, text: &str) -> (b: SpanBuilder)
        ensures
            b.finished() == flushed(self.finished(), self.pending()),
            b.pending() == SpanView::of(text@, Format::plain()),
    {
        let ghost before = self.finished();
        let ghost run = self.pending();
        let mut spans = self.spans;
        if self.text.as_str().unicode_len() > 0 {
            spans.push(Span { text: self.text, color: self.color, style: self.style });
            assert(span_views(spans@) =~= before.push(run));
        }
        SpanBuilder { spans, text: text.to_owned(), color: None, style: Style::new() }
    }

    /// Closes the pending run and returns the document.
    pub fn build(self) -> (t: McText)
        ensures
            t@ == flushed(self.finished(), self.pending()),
    {
        let ghost before = self.finished();
        let ghost run = self.pending();
        let mut spans = self.spans;
        if self.text.as_str().unicode_len() > 0 {
            spans.push(Span { text: self.text, color: self.color, style: self.style });
            assert(span_views(spans@) =~= before.push(run));
        }
        McText { spans }
    }
}

} // verus!
