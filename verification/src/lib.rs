//! Minecraft-style rich text: the color, style and document model, the
//! legacy and component codecs, layout and software rendering.

pub mod chars;
pub mod color;
pub mod fonts;
pub mod json;
pub mod json_laws;
pub mod layout;
pub mod legacy;
pub mod legacy_laws;
pub mod render;
pub mod style;
pub mod system;
pub mod text;

pub use color::{named_colors, shadow_color, NamedColor, TextColor, SHADOW_OFFSET};
pub use fonts::{FontAsset, FontFamily, FontVariant, FontVersion};
pub use json::{parse_value as parse_json_value, to_json, try_parse_json_component};
pub use json::{ComponentField, JsonValue, ParseError};
pub use layout::{
    LayoutEngine, LayoutLine, LayoutOptions, LineMetrics, MeasuredChar, PositionedGlyph,
    TextAlign, TextLayout,
};
pub use legacy::{count_visible_chars, strip_codes};
pub use render::{render_family, RasterizedGlyph, SoftwareRenderer};
pub use style::Style;
pub use system::FontSystem;
pub use text::{Format, McText, Span, SpanBuilder};
