//! What holds of the legacy codec: which documents come out of a parse, and
//! that writing and reading such a document gives it back.

use vstd::prelude::*;
use crate::chars::lemma_concat_assoc;
use crate::color::{lemma_palette_is_distinct, NamedColor, TextColor};
use crate::legacy::{
    after_color, after_reset, codes, color_code, emit, encode, legacy_format, needs_reset,
    reset_code, spec_parse, spec_to_legacy, toggle_code, LegacyCode, Scan, MARKER,
};
use crate::style::Style;
use crate::text::{Format, SpanView};

verus! {

/// Text that a scan shows as it stands: every marker in it is followed by a
/// character that is no code.
pub open spec fn literal(t: Seq<char>) -> bool
    decreases t.len(),
{
    if t.len() == 0 {
        true
    } else if t[0] != MARKER {
        literal(t.skip(1))
    } else {
        t.len() >= 2 && LegacyCode::spec_of(t[1]) is None && literal(t.skip(2))
    }
}

/// Text that a scan shows as it stands when nothing follows it: as
/// `literal`, but the last character may be a marker that nothing follows.
pub open spec fn literal_at_end(t: Seq<char>) -> bool {
    literal(t) || (t.len() > 0 && t.last() == MARKER && literal(t.drop_last()))
}

/// A format that legacy codes can express: its color, if any, is a named
/// color.
pub open spec fn is_legacy(f: Format) -> bool {
    legacy_format(f) == f
}

/// Spans as a scan builds them: none is empty, each has a format that
/// legacy codes can express, and neighbours differ in format.
pub open spec fn canonical(d: Seq<SpanView>) -> bool {
    &&& forall|i: int|
        0 <= i < d.len() ==> (#[trigger] d[i]).text.len() > 0 && is_legacy(d[i].format())
    &&& forall|i: int, j: int|
        0 <= i && j == i + 1 && j < d.len() ==> (#[trigger] d[i]).format() != (#[trigger] d[j]).format()
}

/// Canonical spans whose texts are all literal.
pub open spec fn closed(d: Seq<SpanView>) -> bool {
    &&& canonical(d)
    &&& forall|i: int| 0 <= i < d.len() ==> literal((#[trigger] d[i]).text)
}

/// The documents that the legacy format can hold: canonical spans whose
/// texts are literal, where the very last character may be a marker.
pub open spec fn faithful(d: Seq<SpanView>) -> bool {
    &&& canonical(d)
    &&& forall|i: int| 0 <= i < d.len() - 1 ==> literal((#[trigger] d[i]).text)
    &&& d.len() > 0 ==> literal_at_end(d.last().text)
}

/// Literal text followed by literal text is literal.
pub proof fn lemma_literal_concat(a: Seq<char>, b: Seq<char>)
    requires
        literal(a),
        literal(b),
    ensures
        literal(a + b),
    decreases a.len(),
{
    if a.len() == 0 {
        assert(a + b =~= b);
    } else if a[0] != MARKER {
        assert((a + b).skip(1) =~= a.skip(1) + b);
        lemma_literal_concat(a.skip(1), b);
    } else {
        assert((a + b).skip(2) =~= a.skip(2) + b);
        lemma_literal_concat(a.skip(2), b);
    }
}

/// The spans after all characters of `t` under one format.
pub open spec fn emit_all(spans: Seq<SpanView>, t: Seq<char>, f: Format) -> Seq<SpanView>
    decreases t.len(),
{
    if t.len() == 0 {
        spans
    } else {
        emit_all(emit(spans, t[0], f), t.skip(1), f)
    }
}

/// Characters under the format of the last span extend that span.
proof fn lemma_emit_all_same(acc: Seq<SpanView>, u: Seq<char>, t: Seq<char>, f: Format)
    ensures
        emit_all(acc.push(SpanView::of(u, f)), t, f) == acc.push(SpanView::of(u + t, f)),
    decreases t.len(),
{
    let spans = acc.push(SpanView::of(u, f));
    if t.len() == 0 {
        assert(u + t =~= u);
    } else {
        assert(spans.last() == SpanView::of(u, f));
        assert(spans.drop_last() =~= acc);
        assert(emit(spans, t[0], f) == acc.push(SpanView::of(u.push(t[0]), f)));
        lemma_emit_all_same(acc, u.push(t[0]), t.skip(1), f);
        assert(u.push(t[0]) + t.skip(1) =~= u + t);
    }
}

/// Characters under a format other than that of the last span make one new
/// span.
proof fn lemma_emit_all_new(acc: Seq<SpanView>, t: Seq<char>, f: Format)
    requires
        t.len() > 0,
        acc.len() == 0 || acc.last().format() != f,
    ensures
        emit_all(acc, t, f) == acc.push(SpanView::of(t, f)),
{
    assert(emit(acc, t[0], f) == acc.push(SpanView::of(seq![t[0]], f)));
    lemma_emit_all_same(acc, seq![t[0]], t.skip(1), f);
    assert(seq![t[0]] + t.skip(1) =~= t);
}

/// One more character at the end is one more `emit`.
proof fn lemma_emit_all_push(acc: Seq<SpanView>, u: Seq<char>, c: char, f: Format)
    ensures
        emit_all(acc, u.push(c), f) == emit(emit_all(acc, u, f), c, f),
    decreases u.len(),
{
    if u.len() == 0 {
        assert(u.push(c).skip(1) =~= Seq::<char>::empty());
        assert(emit_all(emit(acc, c, f), u.push(c).skip(1), f) == emit(acc, c, f));
    } else {
        assert(u.push(c).skip(1) =~= u.skip(1).push(c));
        lemma_emit_all_push(emit(acc, u[0], f), u.skip(1), c, f);
    }
}

/// A scan shows literal text as it stands, under the format in force.
proof fn lemma_scan_literal(spans: Seq<SpanView>, f: Format, t: Seq<char>, rest: Seq<char>)
    requires
        literal(t),
    ensures
        (Scan { spans, format: f, pending: false }).run(t + rest) == (Scan {
            spans: emit_all(spans, t, f),
            format: f,
            pending: false,
        }).run(rest),
    decreases t.len(),
{
    let st = Scan { spans, format: f, pending: false };
    if t.len() == 0 {
        assert(t + rest =~= rest);
    } else if t[0] != MARKER {
        assert((t + rest)[0] == t[0]);
        assert((t + rest).skip(1) =~= t.skip(1) + rest);
        lemma_scan_literal(emit(spans, t[0], f), f, t.skip(1), rest);
    } else {
        let s = t + rest;
        assert(s[0] == MARKER);
        assert(s.skip(1)[0] == t[1]);
        assert(s.skip(1).skip(1) =~= t.skip(2) + rest);
        let st1 = st.step(MARKER);
        assert(st1.pending);
        let st2 = st1.step(t[1]);
        assert(st.run(s) == st1.run(s.skip(1)));
        assert(st1.run(s.skip(1)) == st2.run(s.skip(1).skip(1)));
        let shown = emit(emit(spans, MARKER, f), t[1], f);
        assert(st2 == Scan { spans: shown, format: f, pending: false });
        lemma_scan_literal(shown, f, t.skip(2), rest);
        assert(t.skip(1).skip(1) =~= t.skip(2));
        assert(emit_all(spans, t, f) == emit_all(emit(spans, MARKER, f), t.skip(1), f));
        assert(emit_all(emit(spans, MARKER, f), t.skip(1), f) == emit_all(shown, t.skip(2), f));
    }
}

/// A scan takes a marker and a code character as the code.
proof fn lemma_scan_code(spans: Seq<SpanView>, f: Format, c: char, rest: Seq<char>)
    requires
        LegacyCode::spec_of(c) is Some,
    ensures
        (Scan { spans, format: f, pending: false }).run(seq![MARKER, c] + rest) == (Scan {
            spans,
            format: LegacyCode::spec_of(c).unwrap().spec_apply(f),
            pending: false,
        }).run(rest),
{
    let st = Scan { spans, format: f, pending: false };
    let s = seq![MARKER, c] + rest;
    assert(s[0] == MARKER);
    assert(s.skip(1)[0] == c);
    assert(s.skip(1).skip(1) =~= rest);
    let st1 = st.step(MARKER);
    let st2 = st1.step(c);
    assert(st.run(s) == st1.run(s.skip(1)));
    assert(st1.run(s.skip(1)) == st2.run(s.skip(1).skip(1)));
}

/// A scan takes the code of a toggle, where one is written, as that toggle.
proof fn lemma_scan_toggle(
    spans: Seq<SpanView>,
    f: Format,
    was: bool,
    is: bool,
    c: char,
    rest: Seq<char>,
)
    requires
        LegacyCode::spec_of(c) is Some,
    ensures
        (Scan { spans, format: f, pending: false }).run(toggle_code(was, is, c) + rest) == (Scan {
            spans,
            format: if is && !was {
                LegacyCode::spec_of(c).unwrap().spec_apply(f)
            } else {
                f
            },
            pending: false,
        }).run(rest),
{
    if is && !was {
        lemma_scan_code(spans, f, c, rest);
    } else {
        assert(toggle_code(was, is, c) + rest =~= rest);
    }
}

/// A scan takes the codes that lead to a format as that format, and shows
/// nothing for them.
proof fn lemma_scan_codes(spans: Seq<SpanView>, running: Format, target: Format, rest: Seq<char>)
    requires
        is_legacy(running),
        is_legacy(target),
    ensures
        (Scan { spans, format: running, pending: false }).run(codes(running, target) + rest)
            == (Scan { spans, format: target, pending: false }).run(rest),
{
    lemma_palette_is_distinct();
    let r = after_reset(running, target);
    let q = after_color(running, target);
    let seg1 = reset_code(running, target);
    let seg2 = color_code(running, target);
    let seg3 = toggle_code(q.style.bold, target.style.bold, 'l');
    let seg4 = toggle_code(q.style.italic, target.style.italic, 'o');
    let seg5 = toggle_code(q.style.underlined, target.style.underlined, 'n');
    let seg6 = toggle_code(q.style.strikethrough, target.style.strikethrough, 'm');
    let seg7 = toggle_code(q.style.obfuscated, target.style.obfuscated, 'k');
    let tail7 = seg7 + rest;
    let tail6 = seg6 + tail7;
    let tail5 = seg5 + tail6;
    let tail4 = seg4 + tail5;
    let tail3 = seg3 + tail4;
    let tail2 = seg2 + tail3;
    let tail1 = seg1 + tail2;
    lemma_concat_assoc(seg1 + seg2 + seg3 + seg4 + seg5 + seg6, seg7, rest);
    lemma_concat_assoc(seg1 + seg2 + seg3 + seg4 + seg5, seg6, tail7);
    lemma_concat_assoc(seg1 + seg2 + seg3 + seg4, seg5, tail6);
    lemma_concat_assoc(seg1 + seg2 + seg3, seg4, tail5);
    lemma_concat_assoc(seg1 + seg2, seg3, tail4);
    lemma_concat_assoc(seg1, seg2, tail3);
    assert(codes(running, target) + rest == tail1);
    // the reset
    let s0 = Scan { spans, format: running, pending: false };
    let s1 = Scan { spans, format: r, pending: false };
    assert(s0.run(tail1) == s1.run(tail2)) by {
        if needs_reset(running, target) {
            lemma_scan_code(spans, running, 'r', tail2);
        } else {
            assert(seg1 + tail2 =~= tail2);
        }
    }
    // the color
    let s2 = Scan { spans, format: q, pending: false };
    assert(s1.run(tail2) == s2.run(tail3)) by {
        if target.color != r.color {
            match target.color {
                Some(TextColor::Named(n)) => {
                    assert(NamedColor::spec_from_code(n.spec_code()) == Some(n));
                    lemma_scan_code(spans, r, n.spec_code(), tail3);
                },
                _ => {
                    assert(false);
                },
            }
        } else {
            assert(seg2 + tail3 =~= tail3);
        }
    }
    assert(q.color == target.color);
    assert(q.style.spec_within(target.style));
    // the toggles
    let q3 = Format { style: Style { bold: target.style.bold, ..q.style }, ..q };
    let q4 = Format { style: Style { italic: target.style.italic, ..q3.style }, ..q };
    let q5 = Format { style: Style { underlined: target.style.underlined, ..q4.style }, ..q };
    let q6 = Format { style: Style { strikethrough: target.style.strikethrough, ..q5.style }, ..q };
    lemma_scan_toggle(spans, q, q.style.bold, target.style.bold, 'l', tail4);
    lemma_scan_toggle(spans, q3, q.style.italic, target.style.italic, 'o', tail5);
    lemma_scan_toggle(spans, q4, q.style.underlined, target.style.underlined, 'n', tail6);
    lemma_scan_toggle(spans, q5, q.style.strikethrough, target.style.strikethrough, 'm', tail7);
    lemma_scan_toggle(spans, q6, q.style.obfuscated, target.style.obfuscated, 'k', rest);
    assert(s2.run(tail3) == (Scan { spans, format: q3, pending: false }).run(tail4));
    assert((Scan { spans, format: q3, pending: false }).run(tail4) == (Scan {
        spans,
        format: q4,
        pending: false,
    }).run(tail5));
    assert((Scan { spans, format: q4, pending: false }).run(tail5) == (Scan {
        spans,
        format: q5,
        pending: false,
    }).run(tail6));
    assert((Scan { spans, format: q5, pending: false }).run(tail6) == (Scan {
        spans,
        format: q6,
        pending: false,
    }).run(tail7));
    assert((Scan { spans, format: q6, pending: false }).run(tail7) == (Scan {
        spans,
        format: target,
        pending: false,
    }).run(rest));
}

/// Reading what was written for the spans from place `k` on, after the
/// spans before `k` were read, gives the whole document.
proof fn lemma_round_trip_from(d: Seq<SpanView>, k: int)
    requires
        faithful(d),
        0 <= k <= d.len(),
    ensures
        ({
            let running = if k == 0 {
                Format::plain()
            } else {
                d[k - 1].format()
            };
            (Scan { spans: d.take(k), format: running, pending: false }).run(
                encode(running, d.skip(k)),
            ).finish() == d
        }),
    decreases d.len() - k,
{
    let running = if k == 0 {
        Format::plain()
    } else {
        d[k - 1].format()
    };
    let acc = d.take(k);
    if k == d.len() {
        assert(d.skip(k) =~= Seq::<SpanView>::empty());
        assert(acc =~= d);
    } else {
        let span = d[k];
        let t = span.format();
        assert(is_legacy(t));
        assert(is_legacy(running));
        assert(d.skip(k)[0] == span);
        assert(d.skip(k).skip(1) =~= d.skip(k + 1));
        let rest = encode(t, d.skip(k + 1));
        assert(encode(running, d.skip(k)) == codes(running, t) + span.text + rest);
        lemma_concat_assoc(codes(running, t), span.text, rest);
        lemma_scan_codes(acc, running, t, span.text + rest);
        assert(acc.len() == 0 || acc.last().format() != t) by {
            if k > 0 {
                assert(acc.last() == d[k - 1]);
                assert(d[k - 1].format() != d[k].format());
            }
        }
        lemma_emit_all_new(acc, span.text, t);
        assert(SpanView::of(span.text, t) == span);
        assert(acc.push(span) =~= d.take(k + 1));
        if literal(span.text) {
            lemma_scan_literal(acc, t, span.text, rest);
            lemma_round_trip_from(d, k + 1);
        } else {
            assert(k == d.len() - 1);
            assert(d.last() == span);
            let u = span.text.drop_last();
            assert(span.text =~= u.push(MARKER));
            assert(d.skip(k + 1) =~= Seq::<SpanView>::empty());
            assert(rest =~= Seq::<char>::empty());
            assert(span.text + rest =~= u + seq![MARKER]);
            lemma_scan_literal(acc, t, u, seq![MARKER]);
            let st = Scan { spans: emit_all(acc, u, t), format: t, pending: false };
            assert(seq![MARKER].skip(1) =~= Seq::<char>::empty());
            assert(seq![MARKER][0] == MARKER);
            assert(st.run(seq![MARKER]) == st.step(MARKER).run(seq![MARKER].skip(1)));
            assert(st.run(seq![MARKER]) == st.step(MARKER));
            lemma_emit_all_push(acc, u, MARKER, t);
            assert(d.take(k + 1) =~= d);
        }
    }
}

/// Writing a document that the legacy format can hold and reading the
/// string gives the document back.
pub proof fn lemma_legacy_round_trip(d: Seq<SpanView>)
    requires
        faithful(d),
    ensures
        spec_parse(spec_to_legacy(d)) == d,
{
    lemma_round_trip_from(d, 0);
    assert(d.take(0) =~= Seq::<SpanView>::empty());
    assert(d.skip(0) =~= d);
}

/// What a run of characters under one format makes of the spans: the run
/// joins the last span if that has the same format, and else is a new span.
proof fn lemma_emit_all_shape(spans: Seq<SpanView>, u: Seq<char>, f: Format)
    requires
        u.len() > 0,
    ensures
        emit_all(spans, u, f) == if spans.len() > 0 && spans.last().format() == f {
            spans.drop_last().push(SpanView::of(spans.last().text + u, f))
        } else {
            spans.push(SpanView::of(u, f))
        },
{
    if spans.len() > 0 && spans.last().format() == f {
        assert(spans.last() == SpanView::of(spans.last().text, f));
        assert(spans =~= spans.drop_last().push(SpanView::of(spans.last().text, f)));
        lemma_emit_all_same(spans.drop_last(), spans.last().text, u, f);
    } else {
        lemma_emit_all_new(spans, u, f);
    }
}

/// The spans before the last are untouched when a run of characters is
/// shown, and the last span of the result has the run's format.
proof fn lemma_emit_all_frame(spans: Seq<SpanView>, u: Seq<char>, f: Format)
    requires
        u.len() > 0,
    ensures
        ({
            let out = emit_all(spans, u, f);
            let joined = spans.len() > 0 && spans.last().format() == f;
            &&& out.len() == if joined {
                spans.len()
            } else {
                spans.len() + 1
            }
            &&& forall|i: int| 0 <= i < out.len() - 1 ==> #[trigger] out[i] == spans[i]
            &&& out.last().format() == f
            &&& out.last().text == if joined {
                spans.last().text + u
            } else {
                u
            }
        }),
{
    lemma_emit_all_shape(spans, u, f);
}

/// Canonical spans stay canonical when a run of characters under a legacy
/// format is shown after them.
proof fn lemma_emit_all_canonical(spans: Seq<SpanView>, u: Seq<char>, f: Format)
    requires
        canonical(spans),
        is_legacy(f),
        u.len() > 0,
    ensures
        canonical(emit_all(spans, u, f)),
{
    lemma_emit_all_frame(spans, u, f);
    let out = emit_all(spans, u, f);
    assert forall|i: int| 0 <= i < out.len() implies (#[trigger] out[i]).text.len() > 0
        && is_legacy(out[i].format()) by {
        if i < out.len() - 1 {
            assert(out[i] == spans[i]);
        }
    }
    assert forall|i: int, j: int| 0 <= i && j == i + 1 && j < out.len() implies (#[trigger] out[i]).format()
        != (#[trigger] out[j]).format() by {
        assert(out[i] == spans[i]);
        if j < out.len() - 1 {
            assert(out[j] == spans[j]);
        } else if spans.len() > 0 && spans.last().format() == f {
            assert(out[j].format() == spans[j].format());
        } else {
            assert(spans[i] == spans.last());
        }
    }
}

/// Closed spans stay closed when literal text is shown after them.
proof fn lemma_emit_all_closed(spans: Seq<SpanView>, u: Seq<char>, f: Format)
    requires
        closed(spans),
        is_legacy(f),
        u.len() > 0,
        literal(u),
    ensures
        closed(emit_all(spans, u, f)),
{
    lemma_emit_all_frame(spans, u, f);
    lemma_emit_all_canonical(spans, u, f);
    let out = emit_all(spans, u, f);
    if spans.len() > 0 && spans.last().format() == f {
        lemma_literal_concat(spans.last().text, u);
    }
    assert forall|i: int| 0 <= i < out.len() implies literal((#[trigger] out[i]).text) by {
        if i < out.len() - 1 {
            assert(out[i] == spans[i]);
        }
    }
}

/// One character shown is a run of one character.
proof fn lemma_emit_one(spans: Seq<SpanView>, c: char, f: Format)
    ensures
        emit_all(spans, seq![c], f) == emit(spans, c, f),
        c != MARKER ==> literal(seq![c]),
        literal_at_end(seq![c]),
{
    let u = seq![c];
    assert(u.skip(1) =~= Seq::<char>::empty());
    assert(u.drop_last() =~= Seq::<char>::empty());
    assert(u[0] == c);
    assert(u.last() == c);
    assert(literal(Seq::<char>::empty()));
    assert(emit_all(emit(spans, c, f), u.skip(1), f) == emit(spans, c, f));
    if c != MARKER {
        assert(literal(u.skip(1)));
        assert(literal(u));
    }
}

/// A marker and a character shown are a run of two characters.
proof fn lemma_emit_two(spans: Seq<SpanView>, c: char, f: Format)
    ensures
        emit_all(spans, seq![MARKER, c], f) == emit(emit(spans, MARKER, f), c, f),
        LegacyCode::spec_of(c) is None ==> literal(seq![MARKER, c]),
{
    let u = seq![MARKER, c];
    assert(u.skip(2) =~= Seq::<char>::empty());
    assert(u.skip(1) =~= seq![c]);
    assert(u[0] == MARKER);
    assert(u[1] == c);
    assert(literal(Seq::<char>::empty()));
    assert(literal(u.skip(2)));
    lemma_emit_one(emit(spans, MARKER, f), c, f);
}

/// One step of a scan keeps its spans closed and its format legacy.
proof fn lemma_step_keeps_closed(st: Scan, c: char)
    requires
        closed(st.spans),
        is_legacy(st.format),
    ensures
        closed(st.step(c).spans),
        is_legacy(st.step(c).format),
{
    let f = st.format;
    if st.pending {
        if LegacyCode::spec_of(c) is None {
            lemma_emit_two(st.spans, c, f);
            lemma_emit_all_closed(st.spans, seq![MARKER, c], f);
        }
    } else if c != MARKER {
        lemma_emit_one(st.spans, c, f);
        lemma_emit_all_closed(st.spans, seq![c], f);
    }
}

/// A scan keeps its spans closed and its format legacy.
proof fn lemma_run_keeps_closed(st: Scan, s: Seq<char>)
    requires
        closed(st.spans),
        is_legacy(st.format),
    ensures
        closed(st.run(s).spans),
        is_legacy(st.run(s).format),
    decreases s.len(),
{
    if s.len() > 0 {
        lemma_step_keeps_closed(st, s[0]);
        lemma_run_keeps_closed(st.step(s[0]), s.skip(1));
    }
}

/// The end of a scan with closed spans is a document that the legacy
/// format can hold.
proof fn lemma_finish_is_faithful(st: Scan)
    requires
        closed(st.spans),
        is_legacy(st.format),
    ensures
        faithful(st.finish()),
{
    if st.pending {
        let f = st.format;
        let spans = st.spans;
        let u = seq![MARKER];
        lemma_emit_one(spans, MARKER, f);
        lemma_emit_all_frame(spans, u, f);
        lemma_emit_all_canonical(spans, u, f);
        let out = st.finish();
        assert(out == emit_all(spans, u, f));
        if spans.len() > 0 && spans.last().format() == f {
            assert((spans.last().text + u).drop_last() =~= spans.last().text);
            assert((spans.last().text + u).last() == MARKER);
        }
        assert(literal_at_end(out.last().text));
        assert forall|i: int| 0 <= i < out.len() - 1 implies literal((#[trigger] out[i]).text) by {
            assert(out[i] == spans[i]);
        }
    }
}

/// What a parse returns is a document that the legacy format can hold: no
/// span is empty, neighbours differ in color or style, and every color is a
/// named color.
pub proof fn lemma_parse_is_faithful(s: Seq<char>)
    ensures
        faithful(spec_parse(s)),
{
    lemma_run_keeps_closed(Scan::start(), s);
    lemma_finish_is_faithful(Scan::start().run(s));
}

/// Reading a legacy string, writing the document and reading it again gives
/// the document of the first reading.
pub proof fn lemma_parse_is_fixed_point(s: Seq<char>)
    ensures
        spec_parse(spec_to_legacy(spec_parse(s))) == spec_parse(s),
{
    lemma_parse_is_faithful(s);
    lemma_legacy_round_trip(spec_parse(s));
}

} // verus!
