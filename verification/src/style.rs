//! Text styling: colors, attribute changes, and the resolved style they act on.

use termwiz::color::SrgbaTuple;
use vstd::prelude::*;

verus! {

/// `termwiz::color::SrgbaTuple`, a true-color value of the terminal
/// library. It is carried through unread.
#[verifier::external_type_specification]
#[verifier::external_body]
pub struct ExSrgbaTuple(SrgbaTuple);

/// Boldness of a cell.
#[derive(Clone, Copy, Debug, PartialEq, Eq)]
pub enum Weight {
    Normal,
    Bold,
    Half,
}

/// How a cell is underlined.
#[derive(Clone, Copy, Debug, PartialEq, Eq)]
pub enum Stroke {
    Off,
    Single,
    Double,
    Curly,
    Dotted,
    Dashed,
}

/// Whether and how fast a cell blinks.
#[derive(Clone, Copy, Debug, PartialEq, Eq)]
pub enum Flash {
    Off,
    Slow,
    Rapid,
}

/// A foreground or background color.
#[derive(Clone, Copy, Debug, PartialEq, Eq)]
pub enum Color {
    /// The terminal's own default.
    Default,
    /// An entry of the terminal's palette.
    Palette(u8),
    /// A direct color.
    TrueColor(SrgbaTuple),
}

/// One attribute set to a new value.
#[derive(Clone, Copy, Debug, PartialEq, Eq)]
pub enum Attr {
    Intensity(Weight),
    Underline(Stroke),
    Italic(bool),
    Blink(Flash),
    Reverse(bool),
    StrikeThrough(bool),
    Invisible(bool),
    Foreground(Color),
    Background(Color),
}

/// A change to the style in effect: back to the default, or one attribute.
#[derive(Clone, Copy, Debug, PartialEq, Eq)]
pub enum StyleChange {
    Reset,
    Apply(Attr),
}

/// The full set of attributes in effect at some point of the text.
#[derive(Clone, Copy, Debug, PartialEq, Eq)]
pub struct Style {
    pub intensity: Weight,
    pub underline: Stroke,
    pub blink: Flash,
    pub italic: bool,
    pub reverse: bool,
    pub strikethrough: bool,
    pub invisible: bool,
    pub foreground: Color,
    pub background: Color,
}

impl Style {
    /// The style of unstyled text.
    pub open spec fn plain() -> Style {
        Style {
            intensity: Weight::Normal,
            underline: Stroke::Off,
            blink: Flash::Off,
            italic: false,
            reverse: false,
            strikethrough: false,
            invisible: false,
            foreground: Color::Default,
            background: Color::Default,
        }
    }

    /// This style with one attribute replaced.
    pub open spec fn with(self, attr: Attr) -> Style {
        match attr {
            Attr::Intensity(v) => Style { intensity: v, ..self },
            Attr::Underline(v) => Style { underline: v, ..self },
            Attr::Italic(v) => Style { italic: v, ..self },
            Attr::Blink(v) => Style { blink: v, ..self },
            Attr::Reverse(v) => Style { reverse: v, ..self },
            Attr::StrikeThrough(v) => Style { strikethrough: v, ..self },
            Attr::Invisible(v) => Style { invisible: v, ..self },
            Attr::Foreground(v) => Style { foreground: v, ..self },
            Attr::Background(v) => Style { background: v, ..self },
        }
    }

    /// This style after a change.
    pub open spec fn changed(self, change: StyleChange) -> Style {
        match change {
            StyleChange::Reset => Style::plain(),
            StyleChange::Apply(attr) => self.with(attr),
        }
    }

    /// The style of unstyled text.
    pub fn new() -> (style: Style)
        ensures
            style == Style::plain(),
    {
        Style {
            intensity: Weight::Normal,
            underline: Stroke::Off,
            blink: Flash::Off,
            italic: false,
            reverse: false,
            strikethrough: false,
            invisible: false,
            foreground: Color::Default,
            background: Color::Default,
        }
    }

    /// Replaces one attribute.
    pub fn apply(&mut self, attr: Attr)
        ensures
            *final(self) == old(self).with(attr),
    {
        match attr {
            Attr::Intensity(v) => { self.intensity = v; },
            Attr::Underline(v) => { self.underline = v; },
            Attr::Italic(v) => { self.italic = v; },
            Attr::Blink(v) => { self.blink = v; },
            Attr::Reverse(v) => { self.reverse = v; },
            Attr::StrikeThrough(v) => { self.strikethrough = v; },
            Attr::Invisible(v) => { self.invisible = v; },
            Attr::Foreground(v) => { self.foreground = v; },
            Attr::Background(v) => { self.background = v; },
        }
    }

    /// Applies a change: a reset, or one attribute.
    pub fn change(&mut self, change: StyleChange)
        ensures
            *final(self) == old(self).changed(change),
    {
        match change {
            StyleChange::Reset => { *self = Style::new(); },
            StyleChange::Apply(attr) => { self.apply(attr); },
        }
    }
}

} // verus!
