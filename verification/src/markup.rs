//! A line of dialogue with its markup, and what the markup means.
//!
//! Positions and lengths count characters (Unicode scalar values) of the
//! line's text.

use vstd::prelude::*;
use vstd::string::*;
use crate::style::StyleSpec;

verus! {

/// The value of a markup property.
#[derive(Clone, Debug, PartialEq, Eq)]
pub enum MarkupValue {
    Bool(bool),
    Integer(u32),
    Text(String),
}

/// A named property of an attribute.
#[derive(Clone, Debug, PartialEq, Eq)]
pub struct Property {
    pub name: String,
    pub value: MarkupValue,
}

/// A named annotation over `length` characters of a line, from `position` on.
#[derive(Clone, Debug, PartialEq, Eq)]
pub struct Attribute {
    pub name: String,
    pub position: usize,
    pub length: usize,
    pub properties: Vec<Property>,
}

/// A line of dialogue: its text and the attributes laid over it.
#[derive(Clone, Debug, PartialEq, Eq)]
pub struct Line {
    pub text: String,
    pub attributes: Vec<Attribute>,
}

/// What the properties of an attribute resolve to: a style, and whether the
/// covered text is to be replaced by its glitched form.
#[derive(Clone, Copy, Debug, PartialEq, Eq, Structural)]
pub struct Markup {
    pub style: StyleSpec,
    pub glitch: bool,
}

/// The palette entry that an integer property selects: its low eight bits.
pub open spec fn palette_index(value: u32) -> u8 {
    (value % 256) as u8
}

impl Markup {
    /// No styling and no glitch.
    pub open spec fn plain() -> Markup {
        Markup { style: StyleSpec::plain(), glitch: false }
    }

    /// The same, in bold.
    pub open spec fn with_bold(self) -> Markup {
        Markup { style: StyleSpec { bold: true, ..self.style }, ..self }
    }

    /// The same, in italics.
    pub open spec fn with_italic(self) -> Markup {
        Markup { style: StyleSpec { italic: true, ..self.style }, ..self }
    }

    /// The same, with the foreground colour that `value` selects.
    pub open spec fn with_fg(self, value: u32) -> Markup {
        Markup { style: StyleSpec { fg: Some(palette_index(value)), ..self.style }, ..self }
    }

    /// The same, with the background colour that `value` selects.
    pub open spec fn with_bg(self, value: u32) -> Markup {
        Markup { style: StyleSpec { bg: Some(palette_index(value)), ..self.style }, ..self }
    }

    /// The same, glitched.
    pub open spec fn with_glitch(self) -> Markup {
        Markup { glitch: true, ..self }
    }
}

impl Property {
    /// The markup after this property has been taken into account. A name that
    /// is not known, or a value of the wrong kind, changes nothing.
    pub open spec fn apply(&self, markup: Markup) -> Markup {
        if self.name@ == "bold"@ {
            if self.value == MarkupValue::Bool(true) {
                markup.with_bold()
            } else {
                markup
            }
        } else if self.name@ == "italic"@ {
            if self.value == MarkupValue::Bool(true) {
                markup.with_italic()
            } else {
                markup
            }
        } else if self.name@ == "color"@ {
            match self.value {
                MarkupValue::Integer(value) => markup.with_fg(value),
                _ => markup,
            }
        } else if self.name@ == "bg"@ {
            match self.value {
                MarkupValue::Integer(value) => markup.with_bg(value),
                _ => markup,
            }
        } else if self.name@ == "zalgo"@ {
            if self.value == MarkupValue::Bool(true) {
                markup.with_glitch()
            } else {
                markup
            }
        } else {
            markup
        }
    }
}

/// The markup that a list of properties resolves to, taken in order from
/// plain markup; where two properties set the same colour the later one wins.
pub open spec fn resolve(properties: Seq<Property>) -> Markup
    decreases properties.len(),
{
    if properties.len() == 0 {
        Markup::plain()
    } else {
        properties.last().apply(resolve(properties.drop_last()))
    }
}

impl Attribute {
    /// The attribute that names the speaker; its text is not shown.
    pub open spec fn is_character(&self) -> bool {
        self.name@ == "character"@
    }

    /// The attribute whose properties style its text.
    pub open spec fn is_style(&self) -> bool {
        self.name@ == "style"@
    }

    /// What the attribute does to the text it covers. Only a style attribute
    /// does anything.
    pub open spec fn markup(&self) -> Markup {
        if self.is_style() {
            resolve(self.properties@)
        } else {
            Markup::plain()
        }
    }
}

/// Whether `name` is the string `literal`.
pub fn name_is(name: &String, literal: &str) -> (same: bool)
    ensures
        same == (name@ == literal@),
{
    let wanted = String::from_str(literal);
    *name == wanted
}

/// The low eight bits of `value`.
pub fn low_byte(value: u32) -> (index: u8)
    ensures
        index == palette_index(value),
{
    (value % 256) as u8
}

/// Takes one property into account.
pub fn apply_property(property: &Property, markup: Markup) -> (applied: Markup)
    ensures
        applied == property.apply(markup),
{
    let mut applied = markup;
    if name_is(&property.name, "bold") {
        if let MarkupValue::Bool(true) = property.value {
            applied.style.bold = true;
        }
    } else if name_is(&property.name, "italic") {
        if let MarkupValue::Bool(true) = property.value {
            applied.style.italic = true;
        }
    } else if name_is(&property.name, "color") {
        if let MarkupValue::Integer(value) = property.value {
            applied.style.fg = Some(low_byte(value));
        }
    } else if name_is(&property.name, "bg") {
        if let MarkupValue::Integer(value) = property.value {
            applied.style.bg = Some(low_byte(value));
        }
    } else if name_is(&property.name, "zalgo") {
        if let MarkupValue::Bool(true) = property.value {
            applied.glitch = true;
        }
    }
    applied
}

/// Resolves the properties of an attribute.
pub fn resolve_properties(properties: &Vec<Property>) -> (markup: Markup)
    ensures
        markup == resolve(properties@),
{
    let mut markup = Markup { style: StyleSpec::new(), glitch: false };
    let mut i: usize = 0;
    while i < properties.len()
        invariant
            i <= properties.len(),
            markup == resolve(properties@.take(i as int)),
        decreases properties.len() - i,
    {
        proof {
            assert(properties@.take(i + 1).drop_last() =~= properties@.take(i as int));
        }
        markup = apply_property(&properties[i], markup);
        i += 1;
    }
    proof {
        assert(properties@.take(i as int) =~= properties@);
    }
    markup
}

/// The markup of an attribute.
pub fn attribute_markup(attribute: &Attribute) -> (markup: Markup)
    ensures
        markup == attribute.markup(),
{
    if name_is(&attribute.name, "style") {
        resolve_properties(&attribute.properties)
    } else {
        Markup { style: StyleSpec::new(), glitch: false }
    }
}

} // verus!
