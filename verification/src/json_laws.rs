//! What holds of the component codec: reading the tree that was written for
//! a document gives a document that looks the same.

use vstd::prelude::*;
use crate::color::lemma_label_round_trip;
use crate::json::{
    color_of, decode, decode_all, document_tree, effective, field_of, flag_of, index_of,
    lemma_index_of, own_span, span_tree, span_trees, spec_parse_value, text_of, ComponentField,
    JsonTree, ParseError,
};
use crate::text::{
    lemma_merged_keeps_resolved, lemma_resolved_concat, resolved, styled, Format, SpanView,
    StyledChar,
};

verus! {

/// No two fields of a component share a key.
pub proof fn lemma_field_names_are_distinct()
    ensures
        forall|a: ComponentField, b: ComponentField| a.spec_name() == b.spec_name() ==> a == b,
{
    reveal_strlit("text");
    reveal_strlit("color");
    reveal_strlit("bold");
    reveal_strlit("italic");
    reveal_strlit("underlined");
    reveal_strlit("strikethrough");
    reveal_strlit("obfuscated");
    reveal_strlit("extra");
    assert forall|a: ComponentField, b: ComponentField|
        a.spec_name() == b.spec_name() implies a == b by {
        let x = a.spec_name();
        let y = b.spec_name();
        assert(x.len() == y.len());
        assert(x[0] == y[0]);
    }
}

/// A key that stands at one place only is found there.
proof fn lemma_present(keys: Seq<Seq<char>>, key: Seq<char>, j: int)
    requires
        0 <= j < keys.len(),
        keys[j] == key,
        forall|i: int| 0 <= i < keys.len() && i != j ==> #[trigger] keys[i] != key,
    ensures
        index_of(keys, key) == Some(j),
{
    lemma_index_of(keys, key);
}

/// A key that stands nowhere is not found.
proof fn lemma_absent(keys: Seq<Seq<char>>, key: Seq<char>)
    requires
        forall|i: int| 0 <= i < keys.len() ==> #[trigger] keys[i] != key,
    ensures
        index_of(keys, key) is None,
{
    lemma_index_of(keys, key);
}

/// The format that a span's object has under any inherited format with
/// the span's own color where the span has none.
proof fn lemma_span_tree_fields(span: SpanView, inherited: Format)
    requires
        span.color is None ==> inherited.color is None,
    ensures
        text_of(span_tree(span)) == Ok::<Seq<char>, ParseError>(span.text),
        effective(span_tree(span), inherited) == Ok::<Format, ParseError>(span.format()),
        index_of(span_tree(span).keys(), "extra"@) is None,
        span_tree(span).keys().len() == span_tree(span).values().len(),
        span_tree(span) is Object,
{
    lemma_field_names_are_distinct();
    let node = span_tree(span);
    let keys = node.keys();
    let text = ComponentField::Text.spec_name();
    let color = ComponentField::Color.spec_name();
    let bold = ComponentField::Bold.spec_name();
    let italic = ComponentField::Italic.spec_name();
    let underlined = ComponentField::Underlined.spec_name();
    let strikethrough = ComponentField::Strikethrough.spec_name();
    let obfuscated = ComponentField::Obfuscated.spec_name();
    let extra = ComponentField::Extra.spec_name();
    match span.color {
        Some(c) => {
            assert(keys[0] == bold && keys[1] == color && keys[2] == italic && keys[3]
                == obfuscated && keys[4] == strikethrough && keys[5] == text && keys[6]
                == underlined);
            lemma_present(keys, bold, 0);
            lemma_present(keys, color, 1);
            lemma_present(keys, italic, 2);
            lemma_present(keys, obfuscated, 3);
            lemma_present(keys, strikethrough, 4);
            lemma_present(keys, text, 5);
            lemma_present(keys, underlined, 6);
            lemma_absent(keys, extra);
            lemma_label_round_trip(c);
        },
        None => {
            assert(keys[0] == bold && keys[1] == italic && keys[2] == obfuscated && keys[3]
                == strikethrough && keys[4] == text && keys[5] == underlined);
            lemma_present(keys, bold, 0);
            lemma_present(keys, italic, 1);
            lemma_present(keys, obfuscated, 2);
            lemma_present(keys, strikethrough, 3);
            lemma_present(keys, text, 4);
            lemma_present(keys, underlined, 5);
            lemma_absent(keys, extra);
            lemma_absent(keys, color);
        },
    }
}

/// Reading a span's object gives the span, or nothing where its text is
/// empty.
proof fn lemma_span_tree_decodes(span: SpanView, inherited: Format)
    requires
        span.color is None ==> inherited.color is None,
    ensures
        decode(span_tree(span), inherited) == Ok::<Seq<SpanView>, ParseError>(
            own_span(span.text, span.format()),
        ),
{
    lemma_span_tree_fields(span, inherited);
}

/// The spans from place `from` on, without those whose text is empty.
pub open spec fn kept(spans: Seq<SpanView>, from: nat) -> Seq<SpanView>
    decreases spans.len() - from,
{
    if from >= spans.len() {
        Seq::empty()
    } else {
        own_span(spans[from as int].text, spans[from as int].format()) + kept(spans, from + 1)
    }
}

/// Reading the objects of the spans gives the spans whose text is not
/// empty.
proof fn lemma_span_trees_decode(spans: Seq<SpanView>, from: nat)
    ensures
        decode_all(span_trees(spans), Format::plain(), from) == Ok::<Seq<SpanView>, ParseError>(
            kept(spans, from),
        ),
    decreases spans.len() - from,
{
    if from < spans.len() {
        lemma_span_tree_decodes(spans[from as int], Format::plain());
        lemma_span_trees_decode(spans, from + 1);
    }
}

/// Dropping empty spans does not change the character-by-character value.
proof fn lemma_kept_keeps_resolved(spans: Seq<SpanView>, from: nat)
    requires
        from <= spans.len(),
    ensures
        resolved(kept(spans, from)) == resolved(spans.skip(from as int)),
    decreases spans.len() - from,
{
    if from < spans.len() {
        let span = spans[from as int];
        let own = own_span(span.text, span.format());
        lemma_kept_keeps_resolved(spans, from + 1);
        lemma_resolved_concat(own, kept(spans, from + 1));
        assert(spans.skip(from as int).skip(1) =~= spans.skip(from as int + 1));
        assert(spans.skip(from as int)[0] == span);
        assert(resolved(own) =~= styled(span.text, span.format())) by {
            if span.text.len() > 0 {
                assert(own.skip(1) =~= Seq::<SpanView>::empty());
                assert(resolved(own.skip(1)) =~= Seq::<StyledChar>::empty());
                assert(own[0] == span);
            }
        }
    } else {
        assert(spans.skip(from as int) =~= Seq::<SpanView>::empty());
    }
}

/// The tree written for a document can always be read, and the document
/// read from it has, character by character, the text, colors and styles
/// of the document that was written.
pub proof fn lemma_json_round_trip(spans: Seq<SpanView>)
    ensures
        spec_parse_value(document_tree(spans)) is Ok,
        resolved(spec_parse_value(document_tree(spans))->Ok_0) == resolved(spans),
        decode(document_tree(spans), Format::plain()) == Ok::<Seq<SpanView>, ParseError>(
            kept(spans, 0),
        ),
{
    lemma_field_names_are_distinct();
    let root = document_tree(spans);
    let keys = root.keys();
    assert(keys[0] == ComponentField::Extra.spec_name());
    assert(keys[1] == ComponentField::Text.spec_name());
    lemma_present(keys, ComponentField::Extra.spec_name(), 0);
    lemma_present(keys, ComponentField::Text.spec_name(), 1);
    lemma_absent(keys, ComponentField::Color.spec_name());
    lemma_absent(keys, ComponentField::Bold.spec_name());
    lemma_absent(keys, ComponentField::Italic.spec_name());
    lemma_absent(keys, ComponentField::Underlined.spec_name());
    lemma_absent(keys, ComponentField::Strikethrough.spec_name());
    lemma_absent(keys, ComponentField::Obfuscated.spec_name());
    assert(text_of(root) == Ok::<Seq<char>, ParseError>(Seq::empty()));
    assert(effective(root, Format::plain()) == Ok::<Format, ParseError>(Format::plain()));
    lemma_span_trees_decode(spans, 0);
    assert(own_span(Seq::<char>::empty(), Format::plain()) + kept(spans, 0) =~= kept(spans, 0));
    lemma_kept_keeps_resolved(spans, 0);
    assert(spans.skip(0) =~= spans);
    lemma_merged_keeps_resolved(kept(spans, 0));
}

} // verus!
