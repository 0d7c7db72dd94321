//! The component codec: a tree of text components, each with optional
//! color and style that its children inherit, read into and written from a
//! flat document.

use vstd::prelude::*;
use vstd::string::*;
use crate::chars::{decimal, lemma_concat_assoc, push_decimal, same_text};
use crate::color::TextColor;
use crate::style::Style;
use crate::json_laws::lemma_json_round_trip;
use crate::text::{
    lemma_span_views_push, merge_spans, merged, resolved, span_views, Format, McText, Span,
    SpanView,
};

verus! {

/// A JSON value. A number is kept as the text that stands for it.
#[derive(Debug, PartialEq, Eq)]
pub enum JsonValue {
    Null,
    Bool(bool),
    Number(String),
    Text(String),
    Array(Vec<JsonValue>),
    Object(Vec<(String, JsonValue)>),
}

/// What a JSON value holds, as a mathematical value.
pub enum JsonTree {
    Null,
    Bool(bool),
    Number(Seq<char>),
    Text(Seq<char>),
    Array(Seq<JsonTree>),
    /// The keys of the fields and, at the same places, their values.
    Object { keys: Seq<Seq<char>>, values: Seq<JsonTree> },
}

impl View for JsonValue {
    type V = JsonTree;

    open spec fn view(&self) -> JsonTree
        decreases self,
    {
        match self {
            JsonValue::Null => JsonTree::Null,
            JsonValue::Bool(b) => JsonTree::Bool(*b),
            JsonValue::Number(s) => JsonTree::Number(s@),
            JsonValue::Text(s) => JsonTree::Text(s@),
            JsonValue::Array(items) => JsonTree::Array(
                Seq::new(
                    items@.len(),
                    |i: int|
                        if 0 <= i < items@.len() {
                            items@[i].view()
                        } else {
                            JsonTree::Null
                        },
                ),
            ),
            JsonValue::Object(fields) => JsonTree::Object {
                keys: Seq::new(fields@.len(), |i: int| fields@[i].0@),
                values: Seq::new(
                    fields@.len(),
                    |i: int|
                        if 0 <= i < fields@.len() {
                            fields@[i].1.view()
                        } else {
                            JsonTree::Null
                        },
                ),
            },
        }
    }
}

impl JsonTree {
    /// The keys of an object's fields; none for any other value.
    pub open spec fn keys(self) -> Seq<Seq<char>> {
        match self {
            JsonTree::Object { keys, .. } => keys,
            _ => Seq::empty(),
        }
    }

    /// The values of an object's fields; none for any other value.
    pub open spec fn values(self) -> Seq<JsonTree> {
        match self {
            JsonTree::Object { values, .. } => values,
            _ => Seq::empty(),
        }
    }

    /// The items of an array; none for any other value.
    pub open spec fn items(self) -> Seq<JsonTree> {
        match self {
            JsonTree::Array(items) => items,
            _ => Seq::empty(),
        }
    }
}

/// The fields of a component that the codec reads.
#[derive(Debug, Clone, Copy, PartialEq, Eq, Structural)]
pub enum ComponentField {
    Text,
    Color,
    Bold,
    Italic,
    Underlined,
    Strikethrough,
    Obfuscated,
    Extra,
}

impl ComponentField {
    /// The key under which the field stands in an object.
    pub open spec fn spec_name(self) -> Seq<char> {
        match self {
            ComponentField::Text => "text"@,
            ComponentField::Color => "color"@,
            ComponentField::Bold => "bold"@,
            ComponentField::Italic => "italic"@,
            ComponentField::Underlined => "underlined"@,
            ComponentField::Strikethrough => "strikethrough"@,
            ComponentField::Obfuscated => "obfuscated"@,
            ComponentField::Extra => "extra"@,
        }
    }

    pub fn name(&self) -> (n: &'static str)
        ensures
            n@ == self.spec_name(),
    {
        match self {
            ComponentField::Text => "text",
            ComponentField::Color => "color",
            ComponentField::Bold => "bold",
            ComponentField::Italic => "italic",
            ComponentField::Underlined => "underlined",
            ComponentField::Strikethrough => "strikethrough",
            ComponentField::Obfuscated => "obfuscated",
            ComponentField::Extra => "extra",
        }
    }
}

/// Why a component tree cannot be read.
#[derive(Debug, Clone, Copy, PartialEq, Eq, Structural)]
pub enum ParseError {
    /// The input is not JSON; the place is where the reader gave up.
    InvalidJson { line: usize, column: usize },
    /// A component is neither a string nor an object.
    InvalidComponent,
    /// The field is present with a value of the wrong kind: `text` and
    /// `color` are strings, the five style fields are booleans, `extra` is
    /// an array.
    InvalidField(ComponentField),
    /// The field `color` is a string that stands for no color.
    UnknownColor,
}

impl ParseError {
    /// The error in words.
    pub open spec fn spec_describe(self) -> Seq<char> {
        match self {
            ParseError::InvalidJson { line, column } => "invalid JSON at line "@ + decimal(
                line as nat,
            ) + " column "@ + decimal(column as nat),
            ParseError::InvalidComponent => "a component is neither a string nor an object"@,
            ParseError::InvalidField(field) => "the field `"@ + field.spec_name()
                + "` has a value of the wrong kind"@,
            ParseError::UnknownColor => "the field `color` names no color"@,
        }
    }

    /// The error in words: what is wrong, and with which field or at which
    /// place of the input.
    pub fn describe(&self) -> (s: String)
        ensures
            s@ == self.spec_describe(),
    {
        match self {
            ParseError::InvalidJson { line, column } => {
                let mut s = "invalid JSON at line ".to_owned();
                push_decimal(&mut s, *line);
                s.append(" column ");
                push_decimal(&mut s, *column);
                s
            },
            ParseError::InvalidComponent => "a component is neither a string nor an object".to_owned(),
            ParseError::InvalidField(field) => {
                let mut s = "the field `".to_owned();
                s.append(field.name());
                s.append("` has a value of the wrong kind");
                s
            },
            ParseError::UnknownColor => "the field `color` names no color".to_owned(),
        }
    }
}

/// The place of the last field with the given key.
pub open spec fn index_of(keys: Seq<Seq<char>>, key: Seq<char>) -> Option<int>
    decreases keys.len(),
{
    if keys.len() == 0 {
        None
    } else if keys.last() == key {
        Some(keys.len() - 1)
    } else {
        index_of(keys.drop_last(), key)
    }
}

/// The place that `index_of` gives holds the key, and no later place does.
pub proof fn lemma_index_of(keys: Seq<Seq<char>>, key: Seq<char>)
    ensures
        match index_of(keys, key) {
            Some(k) => 0 <= k < keys.len() && keys[k] == key && forall|j: int|
                k < j < keys.len() ==> #[trigger] keys[j] != key,
            None => forall|j: int| 0 <= j < keys.len() ==> #[trigger] keys[j] != key,
        },
    decreases keys.len(),
{
    if keys.len() > 0 && keys.last() != key {
        lemma_index_of(keys.drop_last(), key);
        assert forall|j: int| 0 <= j < keys.len() - 1 implies keys[j] == keys.drop_last()[j] by {}
    }
}

/// The value of the last field with the given key: where a key stands
/// twice, the later field counts.
pub open spec fn field_of(node: JsonTree, key: Seq<char>) -> Option<JsonTree> {
    match index_of(node.keys(), key) {
        Some(k) => Some(node.values()[k]),
        None => None,
    }
}

/// The text of a component: the string under `text`, or the empty string
/// where the field is absent.
pub open spec fn text_of(node: JsonTree) -> Result<Seq<char>, ParseError> {
    match field_of(node, "text"@) {
        None => Ok(Seq::empty()),
        Some(JsonTree::Text(s)) => Ok(s),
        Some(_) => Err(ParseError::InvalidField(ComponentField::Text)),
    }
}

/// The color of a component: what the string under `color` stands for, or
/// the inherited color where the field is absent.
pub open spec fn color_of(node: JsonTree, inherited: Option<TextColor>) -> Result<
    Option<TextColor>,
    ParseError,
> {
    match field_of(node, "color"@) {
        None => Ok(inherited),
        Some(JsonTree::Text(s)) => match TextColor::spec_parse(s) {
            Some(c) => Ok(Some(c)),
            None => Err(ParseError::UnknownColor),
        },
        Some(_) => Err(ParseError::InvalidField(ComponentField::Color)),
    }
}

/// One toggle of a component: the boolean under the field's key, or the
/// inherited value where the field is absent.
pub open spec fn flag_of(node: JsonTree, which: ComponentField, inherited: bool) -> Result<
    bool,
    ParseError,
> {
    match field_of(node, which.spec_name()) {
        None => Ok(inherited),
        Some(JsonTree::Bool(b)) => Ok(b),
        Some(_) => Err(ParseError::InvalidField(which)),
    }
}

/// The color and style in force for a component: the inherited ones with
/// the fields that the component carries laid over them. The fields are
/// looked at in the order color, bold, italic, underlined, strikethrough,
/// obfuscated, and the first that is wrong is the error.
pub open spec fn effective(node: JsonTree, inherited: Format) -> Result<Format, ParseError> {
    let color = color_of(node, inherited.color);
    let bold = flag_of(node, ComponentField::Bold, inherited.style.bold);
    let italic = flag_of(node, ComponentField::Italic, inherited.style.italic);
    let underlined = flag_of(node, ComponentField::Underlined, inherited.style.underlined);
    let strikethrough = flag_of(node, ComponentField::Strikethrough, inherited.style.strikethrough);
    let obfuscated = flag_of(node, ComponentField::Obfuscated, inherited.style.obfuscated);
    if color is Err {
        Err(color->Err_0)
    } else if bold is Err {
        Err(bold->Err_0)
    } else if italic is Err {
        Err(italic->Err_0)
    } else if underlined is Err {
        Err(underlined->Err_0)
    } else if strikethrough is Err {
        Err(strikethrough->Err_0)
    } else if obfuscated is Err {
        Err(obfuscated->Err_0)
    } else {
        Ok(
            Format {
                color: color->Ok_0,
                style: Style {
                    bold: bold->Ok_0,
                    italic: italic->Ok_0,
                    underlined: underlined->Ok_0,
                    strikethrough: strikethrough->Ok_0,
                    obfuscated: obfuscated->Ok_0,
                },
            },
        )
    }
}

/// The span of a component's own text: none where the text is empty.
pub open spec fn own_span(text: Seq<char>, format: Format) -> Seq<SpanView> {
    if text.len() > 0 {
        seq![SpanView::of(text, format)]
    } else {
        Seq::empty()
    }
}

/// The spans of a component and of everything below it, in the order of a
/// walk that visits a component before its children: the component's own
/// text under its effective format, then each child of `extra` in turn,
/// which inherits that effective format. A bare string is a component with
/// that text and nothing laid over what it inherits.
pub open spec fn decode(tree: JsonTree, inherited: Format) -> Result<Seq<SpanView>, ParseError>
    decreases tree, 0nat,
{
    match tree {
        JsonTree::Text(s) => Ok(own_span(s, inherited)),
        JsonTree::Object { keys, values } => {
            let text = text_of(tree);
            let format = effective(tree, inherited);
            if keys.len() != values.len() {
                Err(ParseError::InvalidComponent)
            } else if text is Err {
                Err(text->Err_0)
            } else if format is Err {
                Err(format->Err_0)
            } else {
                match index_of(keys, "extra"@) {
                    None => Ok(own_span(text->Ok_0, format->Ok_0)),
                    Some(k) => match values[k] {
                        JsonTree::Array(items) => {
                            proof {
                                lemma_index_of(keys, "extra"@);
                                if 0 <= k < values.len() {
                                    assert(decreases_to!(values => values[k]));
                                }
                            }
                            match decode_all(items, format->Ok_0, 0) {
                                Ok(below) => Ok(own_span(text->Ok_0, format->Ok_0) + below),
                                Err(e) => Err(e),
                            }
                        },
                        _ => Err(ParseError::InvalidField(ComponentField::Extra)),
                    },
                }
            }
        },
        _ => Err(ParseError::InvalidComponent),
    }
}

/// The spans of the items from place `from` on, each read under the same
/// inherited format; the first item that cannot be read is the error.
pub open spec fn decode_all(items: Seq<JsonTree>, inherited: Format, from: nat) -> Result<
    Seq<SpanView>,
    ParseError,
>
    decreases items, items.len() - from,
{
    if from >= items.len() {
        Ok(Seq::empty())
    } else {
        match decode(items[from as int], inherited) {
            Err(e) => Err(e),
            Ok(first) => match decode_all(items, inherited, from + 1) {
                Err(e) => Err(e),
                Ok(rest) => Ok(first + rest),
            },
        }
    }
}

/// The keys of an object value's fields.
pub open spec fn keys_of(fields: Seq<(String, JsonValue)>) -> Seq<Seq<char>> {
    Seq::new(fields.len(), |i: int| fields[i].0@)
}

/// The values of an object value's fields, as mathematical values.
pub open spec fn values_of(fields: Seq<(String, JsonValue)>) -> Seq<JsonTree> {
    Seq::new(fields.len(), |i: int| fields[i].1@)
}

/// The object with the given fields, as a mathematical value.
pub open spec fn object_of(fields: Seq<(String, JsonValue)>) -> JsonTree {
    JsonTree::Object { keys: keys_of(fields), values: values_of(fields) }
}

/// The items of an array value, as mathematical values.
pub open spec fn items_tree(items: Seq<JsonValue>) -> Seq<JsonTree> {
    Seq::new(items.len(), |i: int| items[i]@)
}

/// The view of an object is the object of its fields' views, and the view
/// of an array is the array of its items' views.
pub proof fn lemma_view_unfolds(value: JsonValue)
    ensures
        value matches JsonValue::Object(fields) ==> value@ == object_of(fields@),
        value matches JsonValue::Array(items) ==> value@ == JsonTree::Array(items_tree(items@)),
{
    match value {
        JsonValue::Object(fields) => {
            assert(value@.keys() =~= keys_of(fields@));
            assert(value@.values() =~= values_of(fields@));
        },
        JsonValue::Array(items) => {
            assert(value@.items() =~= items_tree(items@));
        },
        _ => {},
    }
}

/// The place of the last field with the given key.
fn find_field(fields: &Vec<(String, JsonValue)>, key: &str) -> (r: Option<usize>)
    ensures
        match r {
            Some(k) => k < fields.len() && index_of(keys_of(fields@), key@) == Some(k as int),
            None => index_of(keys_of(fields@), key@) is None,
        },
{
    let ghost keys = keys_of(fields@);
    let mut i: usize = fields.len();
    assert(keys.take(i as int) =~= keys);
    while i > 0
        invariant
            i <= fields.len(),
            keys == keys_of(fields@),
            index_of(keys, key@) == index_of(keys.take(i as int), key@),
        decreases i,
    {
        assert(keys.take(i as int).last() == keys[i - 1]);
        assert(keys.take(i as int).drop_last() =~= keys.take(i - 1));
        if same_text(fields[i - 1].0.as_str(), key) {
            return Some(i - 1);
        }
        i -= 1;
    }
    None
}

/// Reads one toggle of a component.
fn read_flag(fields: &Vec<(String, JsonValue)>, which: ComponentField, inherited: bool) -> (r:
    Result<bool, ParseError>)
    ensures
        r == flag_of(object_of(fields@), which, inherited),
{
    match find_field(fields, which.name()) {
        None => Ok(inherited),
        Some(k) => match &fields[k].1 {
            JsonValue::Bool(b) => Ok(*b),
            _ => Err(ParseError::InvalidField(which)),
        },
    }
}

/// Reads the color of a component.
fn read_color(fields: &Vec<(String, JsonValue)>, inherited: Option<TextColor>) -> (r: Result<
    Option<TextColor>,
    ParseError,
>)
    ensures
        r == color_of(object_of(fields@), inherited),
{
    match find_field(fields, "color") {
        None => Ok(inherited),
        Some(k) => match &fields[k].1 {
            JsonValue::Text(s) => match TextColor::parse(s.as_str()) {
                Some(c) => Ok(Some(c)),
                None => Err(ParseError::UnknownColor),
            },
            _ => Err(ParseError::InvalidField(ComponentField::Color)),
        },
    }
}

/// Reads the color and style in force for a component.
fn read_format(fields: &Vec<(String, JsonValue)>, inherited: Format) -> (r: Result<
    Format,
    ParseError,
>)
    ensures
        r == effective(object_of(fields@), inherited),
{
    let color = match read_color(fields, inherited.color) {
        Ok(c) => c,
        Err(e) => {
            return Err(e);
        },
    };
    let bold = match read_flag(fields, ComponentField::Bold, inherited.style.bold) {
        Ok(b) => b,
        Err(e) => {
            return Err(e);
        },
    };
    let italic = match read_flag(fields, ComponentField::Italic, inherited.style.italic) {
        Ok(b) => b,
        Err(e) => {
            return Err(e);
        },
    };
    let underlined = match read_flag(
        fields,
        ComponentField::Underlined,
        inherited.style.underlined,
    ) {
        Ok(b) => b,
        Err(e) => {
            return Err(e);
        },
    };
    let strikethrough = match read_flag(
        fields,
        ComponentField::Strikethrough,
        inherited.style.strikethrough,
    ) {
        Ok(b) => b,
        Err(e) => {
            return Err(e);
        },
    };
    let obfuscated = match read_flag(
        fields,
        ComponentField::Obfuscated,
        inherited.style.obfuscated,
    ) {
        Ok(b) => b,
        Err(e) => {
            return Err(e);
        },
    };
    Ok(Format { color, style: Style { bold, italic, underlined, strikethrough, obfuscated } })
}

/// Appends the span of a component's own text, if the text is not empty.
fn push_own_span(out: &mut Vec<Span>, text: &str, format: Format)
    ensures
        span_views(final(out)@) == span_views(old(out)@) + own_span(text@, format),
{
    if text.unicode_len() > 0 {
        let span = Span { text: text.to_owned(), color: format.color, style: format.style };
        proof {
            lemma_span_views_push(out@, span);
            assert(span_views(out@).push(span@) =~= span_views(out@) + own_span(text@, format));
        }
        out.push(span);
    } else {
        assert(span_views(out@) =~= span_views(out@) + own_span(text@, format));
    }
}

/// The spans `front` before what a reading gave.
pub open spec fn after(front: Seq<SpanView>, r: Result<Seq<SpanView>, ParseError>) -> Result<
    Seq<SpanView>,
    ParseError,
> {
    match r {
        Ok(s) => Ok(front + s),
        Err(e) => Err(e),
    }
}

/// Reads a component and everything below it, and appends the spans.
fn decode_into(value: &JsonValue, inherited: Format, out: &mut Vec<Span>) -> (r: Result<
    (),
    ParseError,
>)
    ensures
        match decode(value@, inherited) {
            Ok(s) => r is Ok && span_views(final(out)@) == span_views(old(out)@) + s,
            Err(e) => r == Err::<(), ParseError>(e),
        },
    decreases value,
{
    let ghost base = span_views(out@);
    proof {
        lemma_view_unfolds(*value);
    }
    match value {
        JsonValue::Text(s) => {
            push_own_span(out, s.as_str(), inherited);
            Ok(())
        },
        JsonValue::Object(fields) => {
            let ghost node = object_of(fields@);
            let text: &str = match find_field(fields, "text") {
                None => "",
                Some(k) => match &fields[k].1 {
                    JsonValue::Text(s) => s.as_str(),
                    _ => {
                        return Err(ParseError::InvalidField(ComponentField::Text));
                    },
                },
            };
            proof {
                reveal_strlit("");
                assert(text_of(node) == Ok::<Seq<char>, ParseError>(text@)) by {
                    if index_of(node.keys(), "text"@) is None {
                        assert(text@ =~= Seq::<char>::empty());
                    }
                }
            }
            let format = match read_format(fields, inherited) {
                Ok(f) => f,
                Err(e) => {
                    return Err(e);
                },
            };
            match find_field(fields, "extra") {
                None => {
                    push_own_span(out, text, format);
                    Ok(())
                },
                Some(k) => match &fields[k].1 {
                    JsonValue::Array(items) => {
                        push_own_span(out, text, format);
                        let ghost own = own_span(text@, format);
                        let ghost it = items_tree(items@);
                        proof {
                            lemma_view_unfolds(fields[k as int].1);
                            assert(node.values()[k as int] == JsonTree::Array(it));
                        }
                        let ghost mut acc: Seq<SpanView> = Seq::empty();
                        let mut i: usize = 0;
                        assert(decode(value@, inherited) == after(
                            own,
                            decode_all(it, format, 0),
                        ));
                        assert(base + own + acc =~= base + own);
                        assert(after(acc, decode_all(it, format, 0)) == decode_all(it, format, 0))
                            by {
                            if decode_all(it, format, 0) is Ok {
                                assert(acc + decode_all(it, format, 0)->Ok_0 =~= decode_all(
                                    it,
                                    format,
                                    0,
                                )->Ok_0);
                            }
                        }
                        while i < items.len()
                            invariant
                                i <= items.len(),
                                it == items_tree(items@),
                                span_views(out@) == base + own + acc,
                                decode_all(it, format, 0) == after(
                                    acc,
                                    decode_all(it, format, i as nat),
                                ),
                                decode(value@, inherited) == after(
                                    own,
                                    decode_all(it, format, 0),
                                ),
                                decreases_to!(value => items),
                            decreases items.len() - i,
                        {
                            let ghost before = span_views(out@);
                            assert(it[i as int] == items[i as int]@);
                            match decode_into(&items[i], format, out) {
                                Err(e) => {
                                    assert(decode_all(it, format, i as nat) == Err::<
                                        Seq<SpanView>,
                                        ParseError,
                                    >(e));
                                    return Err(e);
                                },
                                Ok(()) => {},
                            }
                            proof {
                                let first = decode(it[i as int], format)->Ok_0;
                                lemma_concat_assoc(base + own, acc, first);
                                let rest = decode_all(it, format, (i + 1) as nat);
                                if rest is Ok {
                                    lemma_concat_assoc(acc, first, rest->Ok_0);
                                }
                                acc = acc + first;
                            }
                            i += 1;
                        }
                        proof {
                            assert(acc + Seq::<SpanView>::empty() =~= acc);
                            lemma_concat_assoc(base, own, acc);
                        }
                        Ok(())
                    },
                    _ => Err(ParseError::InvalidField(ComponentField::Extra)),
                },
            }
        },
        _ => Err(ParseError::InvalidComponent),
    }
}

/// What reading a tree gives: the document of its spans, with empty spans
/// dropped and neighbours of one format joined, or the error.
pub open spec fn spec_parse_value(tree: JsonTree) -> Result<Seq<SpanView>, ParseError> {
    match decode(tree, Format::plain()) {
        Ok(s) => Ok(merged(s)),
        Err(e) => Err(e),
    }
}

/// Reads a component tree into a document. The root inherits no color and
/// no style. Nothing is returned unless the whole tree can be read.
pub fn parse_value(value: &JsonValue) -> (r: Result<McText, ParseError>)
    ensures
        match spec_parse_value(value@) {
            Ok(s) => r is Ok && r->Ok_0@ == s,
            Err(e) => r is Err && r->Err_0 == e,
        },
{
    let mut spans: Vec<Span> = Vec::new();
    assert(span_views(spans@) =~= Seq::<SpanView>::empty());
    match decode_into(value, Format::new(), &mut spans) {
        Err(e) => Err(e),
        Ok(()) => {
            assert(span_views(spans@) =~= decode(value@, Format::plain())->Ok_0);
            Ok(McText::from_spans(merge_spans(&spans)))
        },
    }
}

/// The object that stands for one span: its text, its five toggles, and
/// its color where it has one, written as `TextColor::spec_label` says. The
/// keys stand in alphabetical order.
pub open spec fn span_tree(span: SpanView) -> JsonTree {
    match span.color {
        Some(c) => JsonTree::Object {
            keys: seq![
                "bold"@,
                "color"@,
                "italic"@,
                "obfuscated"@,
                "strikethrough"@,
                "text"@,
                "underlined"@,
            ],
            values: seq![
                JsonTree::Bool(span.style.bold),
                JsonTree::Text(c.spec_label()),
                JsonTree::Bool(span.style.italic),
                JsonTree::Bool(span.style.obfuscated),
                JsonTree::Bool(span.style.strikethrough),
                JsonTree::Text(span.text),
                JsonTree::Bool(span.style.underlined),
            ],
        },
        None => JsonTree::Object {
            keys: seq![
                "bold"@,
                "italic"@,
                "obfuscated"@,
                "strikethrough"@,
                "text"@,
                "underlined"@,
            ],
            values: seq![
                JsonTree::Bool(span.style.bold),
                JsonTree::Bool(span.style.italic),
                JsonTree::Bool(span.style.obfuscated),
                JsonTree::Bool(span.style.strikethrough),
                JsonTree::Text(span.text),
                JsonTree::Bool(span.style.underlined),
            ],
        },
    }
}

/// The objects that stand for the spans, in order.
pub open spec fn span_trees(spans: Seq<SpanView>) -> Seq<JsonTree> {
    Seq::new(spans.len(), |i: int| span_tree(spans[i]))
}

/// The tree that stands for a document: a root with empty text, no color
/// and no style, whose `extra` holds one object for each span, none of
/// which has an `extra` of its own.
pub open spec fn document_tree(spans: Seq<SpanView>) -> JsonTree {
    JsonTree::Object {
        keys: seq!["extra"@, "text"@],
        values: seq![JsonTree::Array(span_trees(spans)), JsonTree::Text(Seq::empty())],
    }
}

/// One field of an object: the key and its value.
fn field(key: &str, value: JsonValue) -> (f: (String, JsonValue))
    ensures
        f.0@ == key@,
        f.1 == value,
{
    (key.to_owned(), value)
}

/// The object that stands for one span.
pub fn span_to_value(span: &Span) -> (v: JsonValue)
    ensures
        v@ == span_tree(span@),
{
    let mut fields: Vec<(String, JsonValue)> = Vec::new();
    fields.push(field("bold", JsonValue::Bool(span.style.bold)));
    if let Some(c) = span.color {
        fields.push(field("color", JsonValue::Text(c.label())));
    }
    fields.push(field("italic", JsonValue::Bool(span.style.italic)));
    fields.push(field("obfuscated", JsonValue::Bool(span.style.obfuscated)));
    fields.push(field("strikethrough", JsonValue::Bool(span.style.strikethrough)));
    fields.push(field("text", JsonValue::Text(span.text.clone())));
    fields.push(field("underlined", JsonValue::Bool(span.style.underlined)));
    let v = JsonValue::Object(fields);
    proof {
        lemma_view_unfolds(v);
        assert(keys_of(fields@) =~= span_tree(span@).keys());
        assert(values_of(fields@) =~= span_tree(span@).values());
    }
    v
}

/// The tree that stands for a document.
pub fn to_json_value(text: &McText) -> (v: JsonValue)
    ensures
        v@ == document_tree(text@),
{
    let spans = text.spans();
    let mut items: Vec<JsonValue> = Vec::new();
    let mut i: usize = 0;
    while i < spans.len()
        invariant
            i <= spans.len(),
            span_views(spans@) == text@,
            items@.len() == i,
            forall|j: int| 0 <= j < i ==> (#[trigger] items@[j])@ == span_tree(text@[j]),
        decreases spans.len() - i,
    {
        items.push(span_to_value(&spans[i]));
        i += 1;
    }
    let extra = JsonValue::Array(items);
    let ghost extra_tree = extra@;
    proof {
        lemma_view_unfolds(extra);
        assert(items_tree(items@) =~= span_trees(text@));
    }
    let mut fields: Vec<(String, JsonValue)> = Vec::new();
    fields.push(field("extra", extra));
    fields.push(field("text", JsonValue::Text(String::new())));
    let v = JsonValue::Object(fields);
    proof {
        lemma_view_unfolds(v);
        assert(keys_of(fields@) =~= document_tree(text@).keys());
        assert(values_of(fields@) =~= document_tree(text@).values());
    }
    v
}

/// A value of `serde_json`. Its inside is not visible here: `json_content`
/// names what it holds.
#[verifier::external_type_specification]
#[verifier::external_body]
pub struct ExValue(serde_json::Value);

/// The error of `serde_json`. Only its place in the input is read.
#[verifier::external_type_specification]
#[verifier::external_body]
pub struct ExError(serde_json::Error);

/// The tree that `serde_json::from_str` reads from a text, or `None` where
/// it reports an error.
pub uninterp spec fn json_reading(text: Seq<char>) -> Option<JsonTree>;

/// The tree that a value of `serde_json` holds.
pub uninterp spec fn json_content(value: serde_json::Value) -> JsonTree;

/// The text that `serde_json` writes for a tree.
pub uninterp spec fn json_writing(tree: JsonTree) -> Seq<char>;

/// `serde_json::from_str` at the type `serde_json::Value`. Nothing is
/// claimed but that the outcome is a function of the text: the same text is
/// read as the same tree, or is refused, every time.
#[verifier::external_body]
fn json_from_str(text: &str) -> (r: Result<serde_json::Value, serde_json::Error>)
    ensures
        match r {
            Ok(v) => json_reading(text@) == Some(json_content(v)),
            Err(_) => json_reading(text@) is None,
        },
{
    serde_json::from_str::<serde_json::Value>(text)
}

/// Copies a value of `serde_json` into a value of this library, variant by
/// variant; a number is kept as the text that `serde_json` writes for it.
/// The result holds what the value holds.
#[verifier::external_body]
fn lift_value(value: &serde_json::Value) -> (v: JsonValue)
    ensures
        v@ == json_content(*value),
{
    match value {
        serde_json::Value::Null => JsonValue::Null,
        serde_json::Value::Bool(b) => JsonValue::Bool(*b),
        serde_json::Value::Number(n) => JsonValue::Number(n.to_string()),
        serde_json::Value::String(s) => JsonValue::Text(s.clone()),
        serde_json::Value::Array(a) => JsonValue::Array(a.iter().map(lift_value).collect()),
        serde_json::Value::Object(o) => JsonValue::Object(
            o.iter().map(|(k, v)| (k.clone(), lift_value(v))).collect(),
        ),
    }
}

/// `serde_json::Error::line`: the line at which the reader gave up.
/// Nothing is claimed of the number.
#[verifier::external_body]
fn error_line(error: &serde_json::Error) -> usize {
    error.line()
}

/// `serde_json::Error::column`: the column at which the reader gave up.
/// Nothing is claimed of the number.
#[verifier::external_body]
fn error_column(error: &serde_json::Error) -> usize {
    error.column()
}

/// Copies a value of this library into a value of `serde_json`, variant by
/// variant. A number whose text `serde_json` does not take as a number
/// becomes `null`. Nothing is claimed of the result.
#[verifier::external_body]
fn lower_value(value: &JsonValue) -> serde_json::Value {
    match value {
        JsonValue::Null => serde_json::Value::Null,
        JsonValue::Bool(b) => serde_json::Value::Bool(*b),
        JsonValue::Number(n) => n.parse().map_or(serde_json::Value::Null, serde_json::Value::Number),
        JsonValue::Text(s) => serde_json::Value::String(s.clone()),
        JsonValue::Array(a) => serde_json::Value::Array(a.iter().map(lower_value).collect()),
        JsonValue::Object(o) => serde_json::Value::Object(
            o.iter().map(|f| (f.0.clone(), lower_value(&f.1))).collect(),
        ),
    }
}

/// The `to_string` of `serde_json::Value`: compact JSON text. Nothing is
/// claimed but that the text is a function of the tree.
#[verifier::external_body]
fn json_to_string(value: &JsonValue) -> (s: String)
    ensures
        s@ == json_writing(value@),
{
    lower_value(value).to_string()
}

/// Reads JSON text into a value.
pub fn read_json(text: &str) -> (r: Result<JsonValue, ParseError>)
    ensures
        match json_reading(text@) {
            Some(tree) => r is Ok && r->Ok_0@ == tree,
            None => r is Err && r->Err_0 is InvalidJson,
        },
{
    match json_from_str(text) {
        Ok(v) => Ok(lift_value(&v)),
        Err(e) => Err(ParseError::InvalidJson { line: error_line(&e), column: error_column(&e) }),
    }
}

/// Writes a value as compact JSON text.
pub fn write_json(value: &JsonValue) -> (s: String)
    ensures
        s@ == json_writing(value@),
{
    json_to_string(value)
}

/// Reads a component tree from JSON text into a document. Text that is not
/// JSON gives `InvalidJson`; a tree that is not a component tree gives the
/// error of `parse_value`. No part of a document is returned on an error.
pub fn try_parse_json_component(json: &str) -> (r: Result<McText, ParseError>)
    ensures
        match json_reading(json@) {
            None => r is Err && r->Err_0 is InvalidJson,
            Some(tree) => match spec_parse_value(tree) {
                Ok(s) => r is Ok && r->Ok_0@ == s,
                Err(e) => r is Err && r->Err_0 == e,
            },
        },
{
    match read_json(json) {
        Ok(value) => parse_value(&value),
        Err(e) => Err(e),
    }
}

/// Writes a document as JSON text: the text of `document_tree`.
pub fn to_json(text: &McText) -> (s: String)
    ensures
        s@ == json_writing(document_tree(text@)),
{
    let value = to_json_value(text);
    write_json(&value)
}

/// Whether two values hold the same tree: the same kind of value with the
/// same content, fields and items compared place by place.
pub fn same_value(a: &JsonValue, b: &JsonValue) -> (r: bool)
    ensures
        r == (a@ == b@),
    decreases a,
{
    proof {
        lemma_view_unfolds(*a);
        lemma_view_unfolds(*b);
    }
    match (a, b) {
        (JsonValue::Null, JsonValue::Null) => true,
        (JsonValue::Bool(x), JsonValue::Bool(y)) => *x == *y,
        (JsonValue::Number(x), JsonValue::Number(y)) => same_text(x.as_str(), y.as_str()),
        (JsonValue::Text(x), JsonValue::Text(y)) => same_text(x.as_str(), y.as_str()),
        (JsonValue::Array(x), JsonValue::Array(y)) => {
            if x.len() != y.len() {
                assert(items_tree(x@).len() != items_tree(y@).len());
                return false;
            }
            let mut i: usize = 0;
            while i < x.len()
                invariant
                    i <= x.len(),
                    x.len() == y.len(),
                    decreases_to!(a => x),
                    a@ == JsonTree::Array(items_tree(x@)),
                    b@ == JsonTree::Array(items_tree(y@)),
                    forall|j: int| 0 <= j < i ==> (#[trigger] x@[j])@ == y@[j]@,
                decreases x.len() - i,
            {
                if !same_value(&x[i], &y[i]) {
                    assert(items_tree(x@)[i as int] != items_tree(y@)[i as int]);
                    return false;
                }
                i += 1;
            }
            assert(items_tree(x@) =~= items_tree(y@));
            true
        },
        (JsonValue::Object(x), JsonValue::Object(y)) => {
            if x.len() != y.len() {
                assert(keys_of(x@).len() != keys_of(y@).len());
                return false;
            }
            let mut i: usize = 0;
            while i < x.len()
                invariant
                    i <= x.len(),
                    x.len() == y.len(),
                    decreases_to!(a => x),
                    a@ == object_of(x@),
                    b@ == object_of(y@),
                    forall|j: int|
                        0 <= j < i ==> (#[trigger] x@[j]).0@ == y@[j].0@ && x@[j].1@ == y@[j].1@,
                decreases x.len() - i,
            {
                if !same_text(x[i].0.as_str(), y[i].0.as_str()) {
                    assert(keys_of(x@)[i as int] != keys_of(y@)[i as int]);
                    return false;
                }
                if !same_value(&x[i].1, &y[i].1) {
                    assert(values_of(x@)[i as int] != values_of(y@)[i as int]);
                    return false;
                }
                i += 1;
            }
            assert(keys_of(x@) =~= keys_of(y@));
            assert(values_of(x@) =~= values_of(y@));
            true
        },
        _ => false,
    }
}

/// Writes a document as JSON text, reads the text back, and gives the text
/// only if the tree that was written is the tree that is read. Reading a
/// text that this function gave, with `try_parse_json_component`, succeeds,
/// and the document read has, character by character, the text, colors and
/// styles of the document written.
pub fn to_checked_json(text: &McText) -> (r: Option<String>)
    ensures
        match r {
            Some(s) => {
                &&& s@ == json_writing(document_tree(text@))
                &&& json_reading(s@) == Some(document_tree(text@))
                &&& spec_parse_value(document_tree(text@)) is Ok
                &&& resolved(spec_parse_value(document_tree(text@))->Ok_0) == resolved(text@)
            },
            None => json_reading(json_writing(document_tree(text@))) != Some(
                document_tree(text@),
            ),
        },
{
    let value = to_json_value(text);
    let s = write_json(&value);
    match read_json(s.as_str()) {
        Ok(back) => {
            if same_value(&back, &value) {
                proof {
                    lemma_json_round_trip(text@);
                }
                Some(s)
            } else {
                None
            }
        },
        Err(_) => None,
    }
}

} // verus!
