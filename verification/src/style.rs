//! The look of text: family, weight, slant and size.

use vstd::prelude::*;
use vstd::std_specs::cmp::PartialEqSpecImpl;

verus! {

#[derive(Clone, Copy, Debug, PartialEq, Eq, Structural, Hash)]
pub enum FontWeight {
    Normal,
    Bold,
}

#[derive(Clone, Copy, Debug, PartialEq, Eq, Structural, Hash)]
pub enum FontStyle {
    Normal,
    Italic,
    Oblique,
}

/// A font size in points.
#[derive(Clone, Copy, Debug, PartialEq, Eq, Structural, Hash)]
pub struct FontSize(pub u32);

/// What a font is asked for and cached by. The size is no part of it: one
/// loaded font serves every size.
#[derive(Debug, Hash)]
pub struct FontProperties {
    pub font_family: String,
    pub font_weight: FontWeight,
    pub font_style: FontStyle,
}

/// A `FontProperties` with its family as a sequence of characters.
pub struct FontKey {
    pub family: Seq<char>,
    pub weight: FontWeight,
    pub style: FontStyle,
}

impl View for FontProperties {
    type V = FontKey;

    open spec fn view(&self) -> FontKey {
        FontKey { family: self.font_family@, weight: self.font_weight, style: self.font_style }
    }
}

/// The family that text is set in where nothing else was asked for.
pub open spec fn default_family() -> Seq<char> {
    "Arial Unicode MS"@
}

/// The properties that a layout pass starts with.
pub open spec fn default_key() -> FontKey {
    FontKey { family: default_family(), weight: FontWeight::Normal, style: FontStyle::Normal }
}

impl Default for FontProperties {
    fn default() -> (p: Self)
        ensures
            p@ == default_key(),
    {
        FontProperties {
            font_family: "Arial Unicode MS".to_owned(),
            font_weight: FontWeight::Normal,
            font_style: FontStyle::Normal,
        }
    }
}

impl Clone for FontProperties {
    fn clone(&self) -> (p: Self)
        ensures
            p@ == self@,
    {
        FontProperties {
            font_family: self.font_family.clone(),
            font_weight: self.font_weight,
            font_style: self.font_style,
        }
    }
}

impl PartialEq for FontProperties {
    fn eq(&self, other: &Self) -> (equal: bool) {
        self.font_family == other.font_family && self.font_weight == other.font_weight
            && self.font_style == other.font_style
    }
}

impl Eq for FontProperties {}

impl PartialEqSpecImpl for FontProperties {
    open spec fn obeys_eq_spec() -> bool {
        true
    }

    open spec fn eq_spec(&self, other: &Self) -> bool {
        self@ == other@
    }
}

} // verus!
