//! Conversion options read by the converters.

use vstd::prelude::*;

verus! {

/// How headings are written.
#[derive(Clone, Copy, Debug, PartialEq, Eq, Structural)]
pub enum HeadingStyle {
    /// `# Title`
    Atx,
    /// `# Title #`
    AtxClosed,
    /// The title underlined with `=` (level 1) or `-` (level 2); deeper levels as `Atx`.
    Underlined,
}

/// How code blocks are written.
#[derive(Clone, Copy, Debug, PartialEq, Eq, Structural)]
pub enum CodeBlockStyle {
    /// Each line indented by four spaces.
    Indented,
    /// Fenced with three backticks.
    Backticks,
    /// Fenced with three tildes.
    Tildes,
}

/// How a line break (`<br>`) is written.
#[derive(Clone, Copy, Debug, PartialEq, Eq, Structural)]
pub enum NewlineStyle {
    /// Two spaces before the newline.
    Spaces,
    /// A backslash before the newline.
    Backslash,
}

/// Options of a conversion.
pub struct ConversionOptions {
    pub heading_style: HeadingStyle,
    pub code_block_style: CodeBlockStyle,
    pub newline_style: NewlineStyle,
    /// Spaces of indentation per list nesting level.
    pub list_indent_width: usize,
    /// Bullet characters for unordered lists; the first one is used.
    pub bullets: String,
    /// Escape the characters of `text::is_misc_markdown_char`.
    pub escape_misc: bool,
    /// Escape `*`.
    pub escape_asterisks: bool,
    /// Escape `_`.
    pub escape_underscores: bool,
    /// Escape every ASCII punctuation character.
    pub escape_ascii: bool,
}

impl Default for ConversionOptions {
    fn default() -> (res: Self)
        ensures
            res.heading_style == HeadingStyle::Atx,
            res.code_block_style == CodeBlockStyle::Backticks,
            res.newline_style == NewlineStyle::Spaces,
            res.list_indent_width == 2,
            res.bullets@ == seq!['-'],
            !res.escape_misc,
            !res.escape_asterisks,
            !res.escape_underscores,
            !res.escape_ascii,
    {
        ConversionOptions {
            heading_style: HeadingStyle::Atx,
            code_block_style: CodeBlockStyle::Backticks,
            newline_style: NewlineStyle::Spaces,
            list_indent_width: 2,
            bullets: crate::chars::string_of(&['-']),
            escape_misc: false,
            escape_asterisks: false,
            escape_underscores: false,
            escape_ascii: false,
        }
    }
}

} // verus!
