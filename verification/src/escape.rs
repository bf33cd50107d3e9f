//! Reading a byte stream as a sequence of terminal events.
//!
//! The escape-sequence state machine is the terminal library's; this module
//! turns what it reports into plain [`Event`] values.

use crate::style::{Attr, Color, Flash, Stroke, StyleChange, Weight};
use termwiz::color::ColorSpec;
use termwiz::escape::csi::Sgr;
use termwiz::escape::parser::Parser;
use termwiz::escape::{Action, ControlCode, OperatingSystemCommand, CSI};
use termwiz::hyperlink::Hyperlink;
use vstd::prelude::*;

verus! {

/// `termwiz::escape::Action`, one parsed item of the terminal library's
/// escape parser. Its variants are told apart by [`action_kind`].
#[verifier::external_type_specification]
#[verifier::external_body]
pub struct ExAction(Action);

/// `termwiz::escape::csi::Sgr`, a graphic-rendition code as the terminal
/// library parses it. Its variants are told apart by [`rendition_kind`].
#[verifier::external_type_specification]
#[verifier::external_body]
pub struct ExSgr(Sgr);

/// `termwiz::hyperlink::Hyperlink`, the target of an OSC-8 sequence as the
/// terminal library parses it. Only its URI is read, by [`link_uri`].
#[verifier::external_type_specification]
#[verifier::external_body]
pub struct ExHyperlink(Hyperlink);

/// `termwiz::color::ColorSpec`, a color as it stands in a graphic-rendition
/// code. Its variants are told apart by [`color_of`].
#[verifier::external_type_specification]
#[verifier::external_body]
pub struct ExColorSpec(ColorSpec);

/// `termwiz::cell::Intensity`, the terminal library's boldness levels,
/// told apart by [`intensity_of`].
#[verifier::external_type_specification]
#[verifier::external_body]
pub struct ExIntensity(termwiz::cell::Intensity);

/// `termwiz::cell::Underline`, the terminal library's underline kinds, told
/// apart by [`underline_of`].
#[verifier::external_type_specification]
#[verifier::external_body]
pub struct ExUnderline(termwiz::cell::Underline);

/// `termwiz::cell::Blink`, the terminal library's blink rates, told apart
/// by [`blink_of`].
#[verifier::external_type_specification]
#[verifier::external_body]
pub struct ExBlink(termwiz::cell::Blink);

/// What the input stream says next, as far as a pager cares.
#[derive(Clone, Debug, PartialEq, Eq)]
pub enum Event {
    /// A printable character.
    Print(char),
    /// The line-feed control code.
    LineFeed,
    /// A graphic-rendition code with a meaning for the style.
    Style(StyleChange),
    /// A graphic-rendition code that the style has no attribute for.
    UnsupportedStyle,
    /// An OSC-8 sequence: the URI of the link that opens, or none.
    SetHyperlink(Option<String>),
    /// Anything else.
    Other,
}

/// An [`Event`] with its text as a sequence of characters.
pub enum EventModel {
    Print(char),
    LineFeed,
    Style(StyleChange),
    UnsupportedStyle,
    SetHyperlink(Option<Seq<char>>),
    Other,
}

impl View for Event {
    type V = EventModel;

    open spec fn view(&self) -> EventModel {
        match *self {
            Event::Print(c) => EventModel::Print(c),
            Event::LineFeed => EventModel::LineFeed,
            Event::Style(change) => EventModel::Style(change),
            Event::UnsupportedStyle => EventModel::UnsupportedStyle,
            Event::SetHyperlink(Some(uri)) => EventModel::SetHyperlink(Some(uri@)),
            Event::SetHyperlink(None) => EventModel::SetHyperlink(None),
            Event::Other => EventModel::Other,
        }
    }
}

/// The models of a sequence of events.
pub open spec fn events_view(events: Seq<Event>) -> Seq<EventModel> {
    events.map_values(|e: Event| e@)
}

/// The events that stand for what the terminal library's escape parser,
/// started afresh, reports for a byte stream.
pub uninterp spec fn parsed_events(bytes: Seq<u8>) -> Seq<EventModel>;

/// The variants of a parsed item that a pager tells apart.
enum ActionKind {
    Print(char),
    LineFeed,
    Rendition(Sgr),
    Link(Option<Hyperlink>),
    Other,
}

/// The variants of a graphic-rendition code that the style has attributes for.
enum RenditionKind {
    Reset,
    Intensity(termwiz::cell::Intensity),
    Underline(termwiz::cell::Underline),
    Blink(termwiz::cell::Blink),
    Italic(bool),
    Inverse(bool),
    Invisible(bool),
    StrikeThrough(bool),
    Foreground(ColorSpec),
    Background(ColorSpec),
    Unsupported,
}

/// Tells the variants of `termwiz::escape::Action` apart, moving their
/// fields. Nothing is claimed of the result.
#[verifier::external_body]
fn action_kind(action: Action) -> ActionKind {
    match action {
        Action::Print(c) => ActionKind::Print(c),
        Action::Control(ControlCode::LineFeed) => ActionKind::LineFeed,
        Action::CSI(CSI::Sgr(sgr)) => ActionKind::Rendition(sgr),
        Action::OperatingSystemCommand(osc) => match *osc {
            OperatingSystemCommand::SetHyperlink(link) => ActionKind::Link(link),
            _ => ActionKind::Other,
        },
        _ => ActionKind::Other,
    }
}

/// Tells the variants of `termwiz::escape::csi::Sgr` apart, moving their
/// fields. Nothing is claimed of the result.
#[verifier::external_body]
fn rendition_kind(sgr: Sgr) -> RenditionKind {
    match sgr {
        Sgr::Reset => RenditionKind::Reset,
        Sgr::Intensity(v) => RenditionKind::Intensity(v),
        Sgr::Underline(v) => RenditionKind::Underline(v),
        Sgr::Blink(v) => RenditionKind::Blink(v),
        Sgr::Italic(v) => RenditionKind::Italic(v),
        Sgr::Inverse(v) => RenditionKind::Inverse(v),
        Sgr::Invisible(v) => RenditionKind::Invisible(v),
        Sgr::StrikeThrough(v) => RenditionKind::StrikeThrough(v),
        Sgr::Foreground(v) => RenditionKind::Foreground(v),
        Sgr::Background(v) => RenditionKind::Background(v),
        _ => RenditionKind::Unsupported,
    }
}

/// Tells the variants of `termwiz::cell::Intensity` apart. Nothing is
/// claimed of the result.
#[verifier::external_body]
fn intensity_of(v: termwiz::cell::Intensity) -> Weight {
    match v {
        termwiz::cell::Intensity::Normal => Weight::Normal,
        termwiz::cell::Intensity::Bold => Weight::Bold,
        termwiz::cell::Intensity::Half => Weight::Half,
    }
}

/// Tells the variants of `termwiz::cell::Underline` apart. Nothing is
/// claimed of the result.
#[verifier::external_body]
fn underline_of(v: termwiz::cell::Underline) -> Stroke {
    match v {
        termwiz::cell::Underline::None => Stroke::Off,
        termwiz::cell::Underline::Single => Stroke::Single,
        termwiz::cell::Underline::Double => Stroke::Double,
        termwiz::cell::Underline::Curly => Stroke::Curly,
        termwiz::cell::Underline::Dotted => Stroke::Dotted,
        termwiz::cell::Underline::Dashed => Stroke::Dashed,
    }
}

/// Tells the variants of `termwiz::cell::Blink` apart. Nothing is claimed
/// of the result.
#[verifier::external_body]
fn blink_of(v: termwiz::cell::Blink) -> Flash {
    match v {
        termwiz::cell::Blink::None => Flash::Off,
        termwiz::cell::Blink::Slow => Flash::Slow,
        termwiz::cell::Blink::Rapid => Flash::Rapid,
    }
}

/// Tells the variants of `termwiz::color::ColorSpec` apart, moving their
/// fields. Nothing is claimed of the result.
#[verifier::external_body]
fn color_of(v: ColorSpec) -> Color {
    match v {
        ColorSpec::Default => Color::Default,
        ColorSpec::PaletteIndex(index) => Color::Palette(index),
        ColorSpec::TrueColor(color) => Color::TrueColor(color),
    }
}

/// Copies out what `termwiz::hyperlink::Hyperlink::uri` returns. Nothing is
/// claimed of the result.
#[verifier::external_body]
fn link_uri(link: &Hyperlink) -> String {
    link.uri().to_string()
}

/// Whether an event is a style change of one attribute that `pick` accepts.
spec fn sets(event: EventModel, pick: spec_fn(Attr) -> bool) -> bool {
    match event {
        EventModel::Style(StyleChange::Apply(attr)) => pick(attr),
        _ => false,
    }
}

/// Whether `event` is what a graphic-rendition code of the given kind stands
/// for. A reset resets the style. A code with a flag sets the attribute of
/// its name to that flag, the inverse code the reverse attribute. A code
/// with a value of the terminal library sets the attribute of its name, to
/// what that value converts to. A code without an attribute is marked as
/// such.
spec fn stands_for_rendition(kind: RenditionKind, event: EventModel) -> bool {
    match kind {
        RenditionKind::Reset => event == EventModel::Style(StyleChange::Reset),
        RenditionKind::Intensity(_) => sets(event, |attr: Attr| attr is Intensity),
        RenditionKind::Underline(_) => sets(event, |attr: Attr| attr is Underline),
        RenditionKind::Blink(_) => sets(event, |attr: Attr| attr is Blink),
        RenditionKind::Italic(on) => event == EventModel::Style(
            StyleChange::Apply(Attr::Italic(on)),
        ),
        RenditionKind::Inverse(on) => event == EventModel::Style(
            StyleChange::Apply(Attr::Reverse(on)),
        ),
        RenditionKind::Invisible(on) => event == EventModel::Style(
            StyleChange::Apply(Attr::Invisible(on)),
        ),
        RenditionKind::StrikeThrough(on) => event == EventModel::Style(
            StyleChange::Apply(Attr::StrikeThrough(on)),
        ),
        RenditionKind::Foreground(_) => sets(event, |attr: Attr| attr is Foreground),
        RenditionKind::Background(_) => sets(event, |attr: Attr| attr is Background),
        RenditionKind::Unsupported => event == EventModel::UnsupportedStyle,
    }
}

/// Whether `event` is what a parsed item of the given kind stands for. A
/// character and a line feed stand for themselves. A graphic-rendition code
/// stands for a style change, or is marked as one without an attribute. A
/// hyperlink sequence stands for the link that opens, or for none. Every
/// other item is passed over.
spec fn stands_for(kind: ActionKind, event: EventModel) -> bool {
    match kind {
        ActionKind::Print(c) => event == EventModel::Print(c),
        ActionKind::LineFeed => event == EventModel::LineFeed,
        ActionKind::Rendition(_) => event is Style || event is UnsupportedStyle,
        ActionKind::Link(Some(_)) => match event {
            EventModel::SetHyperlink(Some(_)) => true,
            _ => false,
        },
        ActionKind::Link(None) => event == EventModel::SetHyperlink(None),
        ActionKind::Other => event == EventModel::Other,
    }
}

/// The event that a graphic-rendition code of the given kind stands for.
fn rendition_event(kind: RenditionKind) -> (event: Event)
    ensures
        stands_for_rendition(kind, event@),
{
    match kind {
        RenditionKind::Reset => Event::Style(StyleChange::Reset),
        RenditionKind::Intensity(v) => Event::Style(
            StyleChange::Apply(Attr::Intensity(intensity_of(v))),
        ),
        RenditionKind::Underline(v) => Event::Style(
            StyleChange::Apply(Attr::Underline(underline_of(v))),
        ),
        RenditionKind::Blink(v) => Event::Style(StyleChange::Apply(Attr::Blink(blink_of(v)))),
        RenditionKind::Italic(v) => Event::Style(StyleChange::Apply(Attr::Italic(v))),
        RenditionKind::Inverse(v) => Event::Style(StyleChange::Apply(Attr::Reverse(v))),
        RenditionKind::Invisible(v) => Event::Style(StyleChange::Apply(Attr::Invisible(v))),
        RenditionKind::StrikeThrough(v) => Event::Style(
            StyleChange::Apply(Attr::StrikeThrough(v)),
        ),
        RenditionKind::Foreground(v) => Event::Style(
            StyleChange::Apply(Attr::Foreground(color_of(v))),
        ),
        RenditionKind::Background(v) => Event::Style(
            StyleChange::Apply(Attr::Background(color_of(v))),
        ),
        RenditionKind::Unsupported => Event::UnsupportedStyle,
    }
}

/// The event that a parsed item of the given kind stands for.
fn event_of(kind: ActionKind) -> (event: Event)
    ensures
        stands_for(kind, event@),
{
    match kind {
        ActionKind::Print(c) => Event::Print(c),
        ActionKind::LineFeed => Event::LineFeed,
        ActionKind::Rendition(sgr) => rendition_event(rendition_kind(sgr)),
        ActionKind::Link(Some(link)) => Event::SetHyperlink(Some(link_uri(&link))),
        ActionKind::Link(None) => Event::SetHyperlink(None),
        ActionKind::Other => Event::Other,
    }
}

/// Adds the event that a parsed item stands for to a list.
fn record(events: &mut Vec<Event>, action: Action)
    ensures
        final(events)@.len() == old(events)@.len() + 1,
        final(events)@.drop_last() == old(events)@,
{
    let event = event_of(action_kind(action));
    events.push(event);
    assert(events@.drop_last() =~= old(events)@);
}

/// Runs `termwiz::escape::parser::Parser::parse` of a new parser over the
/// bytes. The parser is a function of the bytes it is fed since it was made,
/// so what it reports has a name, [`parsed_events`]; nothing else is claimed.
#[verifier::external_body]
pub(crate) fn parse_events(bytes: &[u8]) -> (events: Vec<Event>)
    ensures
        events_view(events@) == parsed_events(bytes@),
{
    let mut events = Vec::new();
    Parser::new().parse(bytes, |action| record(&mut events, action));
    events
}

} // verus!
