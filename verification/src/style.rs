//! Visual styles and the styled pieces of text that carry them.

use vstd::prelude::*;
use vstd::string::*;

verus! {

/// The resolved look of a run of text. Colours are indices into a palette of
/// 256 entries; `None` leaves the display's own colour in place.
#[derive(Clone, Copy, Debug, PartialEq, Eq, Structural)]
pub struct StyleSpec {
    pub bold: bool,
    pub italic: bool,
    pub underline: bool,
    pub fg: Option<u8>,
    pub bg: Option<u8>,
}

impl StyleSpec {
    /// The style of unmarked text: no emphasis and no colours.
    pub open spec fn plain() -> StyleSpec {
        StyleSpec { bold: false, italic: false, underline: false, fg: None, bg: None }
    }

    /// The style of unmarked text.
    pub fn new() -> (style: StyleSpec)
        ensures
            style == StyleSpec::plain(),
    {
        StyleSpec { bold: false, italic: false, underline: false, fg: None, bg: None }
    }
}

impl Default for StyleSpec {
    fn default() -> (style: StyleSpec)
        ensures
            style == StyleSpec::plain(),
    {
        StyleSpec::new()
    }
}

/// The mathematical value of a styled piece of text: its characters and its
/// style. It stands for a whole segment as well as for one grapheme cluster.
pub struct StyledText {
    pub text: Seq<char>,
    pub style: StyleSpec,
}

impl StyledText {
    /// Whether this is the separator that word wrapping swallows: exactly one
    /// space character.
    pub open spec fn is_space(self) -> bool {
        self.text == seq![' ']
    }
}

/// The texts of the pieces, one after the other.
pub open spec fn joined_text(pieces: Seq<StyledText>) -> Seq<char> {
    pieces.map_values(|piece: StyledText| piece.text).flatten()
}

/// A contiguous run of text that shares one style.
#[derive(Clone, Debug, PartialEq, Eq)]
pub struct StyledSegment {
    pub text: String,
    pub style: StyleSpec,
}

impl View for StyledSegment {
    type V = StyledText;

    open spec fn view(&self) -> StyledText {
        StyledText { text: self.text@, style: self.style }
    }
}

impl DeepView for StyledSegment {
    type V = StyledText;

    open spec fn deep_view(&self) -> StyledText {
        self@
    }
}

impl StyledSegment {
    /// The segment of `text` in `style`.
    pub fn new(text: String, style: StyleSpec) -> (segment: StyledSegment)
        ensures
            segment@ == (StyledText { text: text@, style }),
    {
        StyledSegment { text, style }
    }
}

/// One grapheme cluster with the style of the segment it came from: the unit
/// of wrapping and of reveal.
#[derive(Clone, Debug, PartialEq, Eq)]
pub struct StyledGrapheme {
    pub symbol: String,
    pub style: StyleSpec,
}

impl View for StyledGrapheme {
    type V = StyledText;

    open spec fn view(&self) -> StyledText {
        StyledText { text: self.symbol@, style: self.style }
    }
}

impl DeepView for StyledGrapheme {
    type V = StyledText;

    open spec fn deep_view(&self) -> StyledText {
        self@
    }
}

impl StyledGrapheme {
    /// The cluster `symbol` in `style`.
    pub fn new(symbol: String, style: StyleSpec) -> (grapheme: StyledGrapheme)
        ensures
            grapheme@ == (StyledText { text: symbol@, style }),
    {
        StyledGrapheme { symbol, style }
    }

    /// A copy with the same symbol and style.
    pub fn duplicate(&self) -> (copy: StyledGrapheme)
        ensures
            copy@ == self@,
    {
        StyledGrapheme { symbol: self.symbol.clone(), style: self.style }
    }

    /// Whether the symbol is exactly one space character.
    pub fn is_space(&self) -> (space: bool)
        ensures
            space == self@.is_space(),
    {
        let symbol = self.symbol.as_str();
        let space = symbol.unicode_len() == 1 && symbol.get_char(0) == ' ';
        proof {
            if space {
                assert(self.symbol@ =~= seq![' ']);
            }
        }
        space
    }
}

} // verus!
