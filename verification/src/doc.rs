//! The document: the text of the input with its style changes and links.

use crate::escape::{events_view, parse_events, parsed_events, Event, EventModel};
use crate::style::StyleChange;
use crate::text::{
    byte_len, lemma_boundary_extends, lemma_encode_push, lemma_end_boundary, on_boundary,
    utf8_len,
};
use vstd::prelude::*;
use vstd::utf8::*;

verus! {

/// A stretch of the text that is a hyperlink.
#[derive(Clone, Debug, PartialEq, Eq)]
pub struct LinkRange {
    /// Offset of the first byte of the link's text.
    pub start: usize,
    /// Offset of the byte after the link's text.
    pub end: usize,
    /// Where the link leads.
    pub uri: String,
}

/// A [`LinkRange`] with its URI as a sequence of characters.
pub struct LinkModel {
    pub start: usize,
    pub end: usize,
    pub uri: Seq<char>,
}

impl View for LinkRange {
    type V = LinkModel;

    open spec fn view(&self) -> LinkModel {
        LinkModel { start: self.start, end: self.end, uri: self.uri@ }
    }
}

/// The models of a sequence of links.
pub open spec fn links_view(links: Seq<LinkRange>) -> Seq<LinkModel> {
    links.map_values(|l: LinkRange| l@)
}

/// What a [`Document`] holds.
pub struct DocModel {
    /// The shown characters: the input without its control sequences.
    pub text: Seq<char>,
    /// The style changes, each with the offset of the text that it precedes.
    pub attrs: Seq<(usize, StyleChange)>,
    /// The hyperlinks, in the order in which they ended.
    pub links: Seq<LinkModel>,
}

impl DocModel {
    /// The style changes come in the order of their offsets, none of which
    /// lies behind the text, and start with a reset before the first byte.
    pub open spec fn attrs_ordered(self) -> bool {
        &&& self.attrs.len() > 0
        &&& self.attrs[0] == (0usize, StyleChange::Reset)
        &&& forall|i: int, j: int|
            0 <= i <= j < self.attrs.len() ==> (#[trigger] self.attrs[i]).0 <= (
            #[trigger] self.attrs[j]).0
        &&& forall|i: int|
            0 <= i < self.attrs.len() ==> (#[trigger] self.attrs[i]).0 <= utf8_len(self.text)
    }

    /// Every link starts and ends between characters of the text, and does
    /// not end before it starts.
    pub open spec fn links_in_text(self) -> bool {
        forall|i: int|
            0 <= i < self.links.len() ==> {
                let link = #[trigger] self.links[i];
                &&& link.start <= link.end
                &&& on_boundary(self.text, link.start as int)
                &&& on_boundary(self.text, link.end as int)
            }
    }

    /// What holds of every document.
    pub open spec fn valid(self) -> bool {
        &&& utf8_len(self.text) <= usize::MAX
        &&& self.links.len() <= usize::MAX
        &&& self.attrs_ordered()
        &&& self.links_in_text()
    }
}

/// A document under construction: what has been read so far.
pub struct Draft {
    pub text: Seq<char>,
    pub attrs: Seq<(usize, StyleChange)>,
    pub links: Seq<LinkModel>,
    /// The link that has been opened and not yet closed: its start and URI.
    pub pending: Option<(usize, Seq<char>)>,
}

impl Draft {
    /// Nothing read: no text, and the style reset before the first byte.
    pub open spec fn start() -> Draft {
        Draft {
            text: Seq::empty(),
            attrs: seq![(0usize, StyleChange::Reset)],
            links: Seq::empty(),
            pending: None,
        }
    }

    /// The offset at which the next character will stand.
    pub open spec fn at(self) -> usize {
        utf8_len(self.text) as usize
    }

    /// Ends the pending link, if there is one, at the current offset.
    pub open spec fn close(self) -> Draft {
        match self.pending {
            Some((start, uri)) => Draft {
                links: self.links.push(LinkModel { start, end: self.at(), uri }),
                pending: None,
                ..self
            },
            None => self,
        }
    }

    /// The draft after one more event.
    ///
    /// Characters and line feeds extend the text. A style change is recorded
    /// at the current offset. A hyperlink sequence ends the pending link and,
    /// where it names a URI, opens the next. A graphic-rendition code without
    /// a style attribute is ignored, as is every other event.
    pub open spec fn after(self, event: EventModel) -> Draft {
        match event {
            EventModel::Print(c) => Draft { text: self.text.push(c), ..self },
            EventModel::LineFeed => Draft { text: self.text.push('\n'), ..self },
            EventModel::Style(change) => Draft {
                attrs: self.attrs.push((self.at(), change)),
                ..self
            },
            EventModel::SetHyperlink(Some(uri)) => Draft {
                pending: Some((self.at(), uri)),
                ..self.close()
            },
            EventModel::SetHyperlink(None) => self.close(),
            EventModel::UnsupportedStyle => self,
            EventModel::Other => self,
        }
    }

    /// The draft after a sequence of events.
    pub open spec fn run(events: Seq<EventModel>) -> Draft
        decreases events.len(),
    {
        if events.len() == 0 {
            Draft::start()
        } else {
            Draft::run(events.drop_last()).after(events.last())
        }
    }

    /// The document at the end of the input: a link still pending ends there.
    pub open spec fn finish(self) -> DocModel {
        let done = self.close();
        DocModel { text: done.text, attrs: done.attrs, links: done.links }
    }

    /// What holds of every draft that was run from the start, as long as the
    /// text fits in memory.
    pub open spec fn valid(self) -> bool {
        &&& DocModel { text: self.text, attrs: self.attrs, links: self.links }.valid()
        &&& match self.pending {
            Some((start, _)) => start <= utf8_len(self.text) && on_boundary(
                self.text,
                start as int,
            ),
            None => true,
        }
    }
}

/// The document that a sequence of events describes.
pub open spec fn document_of(events: Seq<EventModel>) -> DocModel {
    Draft::run(events).finish()
}

/// A boundary of a text is still one after another character.
pub proof fn lemma_boundary_after_push(text: Seq<char>, c: char, k: int)
    requires
        on_boundary(text, k),
    ensures
        on_boundary(text.push(c), k),
{
    lemma_encode_push(text, c);
    encode_utf8_valid_utf8(text);
    encode_utf8_valid_utf8(seq![c]);
    lemma_boundary_extends(encode_utf8(text), encode_utf8(seq![c]), k);
}

/// A valid draft stays valid when a character is added, if the text still fits.
pub proof fn lemma_push_keeps_valid(draft: Draft, c: char)
    requires
        draft.valid(),
        utf8_len(draft.text.push(c)) <= usize::MAX,
    ensures
        (Draft { text: draft.text.push(c), ..draft }).valid(),
{
    let next = Draft { text: draft.text.push(c), ..draft };
    let was = DocModel { text: draft.text, attrs: draft.attrs, links: draft.links };
    let now = DocModel { text: next.text, attrs: next.attrs, links: next.links };
    lemma_encode_push(draft.text, c);
    assert forall|i: int| 0 <= i < now.links.len() implies {
        let link = #[trigger] now.links[i];
        &&& link.start <= link.end
        &&& on_boundary(now.text, link.start as int)
        &&& on_boundary(now.text, link.end as int)
    } by {
        let link = was.links[i];
        lemma_boundary_after_push(draft.text, c, link.start as int);
        lemma_boundary_after_push(draft.text, c, link.end as int);
    }
    assert forall|i: int| 0 <= i < now.attrs.len() implies (#[trigger] now.attrs[i]).0 <= utf8_len(
        now.text,
    ) by {
        assert(was.attrs[i].0 <= utf8_len(was.text));
    }
    match draft.pending {
        Some((start, _)) => {
            lemma_boundary_after_push(draft.text, c, start as int);
        },
        None => {},
    }
}

/// A valid draft stays valid when its pending link is closed.
pub proof fn lemma_close_keeps_valid(draft: Draft)
    requires
        draft.valid(),
        draft.close().links.len() <= usize::MAX,
    ensures
        draft.close().valid(),
{
    lemma_end_boundary(draft.text);
    let was = DocModel { text: draft.text, attrs: draft.attrs, links: draft.links };
    let done = draft.close();
    let now = DocModel { text: done.text, attrs: done.attrs, links: done.links };
    assert forall|i: int| 0 <= i < now.links.len() implies {
        let link = #[trigger] now.links[i];
        &&& link.start <= link.end
        &&& on_boundary(now.text, link.start as int)
        &&& on_boundary(now.text, link.end as int)
    } by {
        if i < was.links.len() {
            assert(now.links[i] == was.links[i]);
        }
    }
}

/// A valid draft stays valid over every event, if the text still fits.
pub proof fn lemma_after_keeps_valid(draft: Draft, event: EventModel)
    requires
        draft.valid(),
        utf8_len(draft.after(event).text) <= usize::MAX,
        draft.after(event).links.len() <= usize::MAX,
    ensures
        draft.after(event).valid(),
{
    lemma_end_boundary(draft.text);
    match event {
        EventModel::Print(c) => {
            lemma_push_keeps_valid(draft, c);
        },
        EventModel::LineFeed => {
            lemma_push_keeps_valid(draft, '\n');
        },
        EventModel::Style(change) => {
            let was = DocModel { text: draft.text, attrs: draft.attrs, links: draft.links };
            let next = draft.after(event);
            let now = DocModel { text: next.text, attrs: next.attrs, links: next.links };
            assert forall|i: int, j: int| 0 <= i <= j < now.attrs.len() implies (
            #[trigger] now.attrs[i]).0 <= (#[trigger] now.attrs[j]).0 by {
                if j < was.attrs.len() {
                    assert(was.attrs[i].0 <= was.attrs[j].0);
                } else if i < was.attrs.len() {
                    assert(was.attrs[i].0 <= utf8_len(was.text));
                }
            }
            assert forall|i: int| 0 <= i < now.attrs.len() implies (#[trigger] now.attrs[i]).0
                <= utf8_len(now.text) by {
                if i < was.attrs.len() {
                    assert(was.attrs[i].0 <= utf8_len(was.text));
                }
            }
            assert(now.attrs[0] == was.attrs[0]);
            assert forall|i: int| 0 <= i < now.links.len() implies {
                let link = #[trigger] now.links[i];
                &&& link.start <= link.end
                &&& on_boundary(now.text, link.start as int)
                &&& on_boundary(now.text, link.end as int)
            } by {
                assert(now.links[i] == was.links[i]);
            }
        },
        EventModel::SetHyperlink(_) => {
            lemma_close_keeps_valid(draft);
        },
        EventModel::UnsupportedStyle => {},
        EventModel::Other => {},
    }
}

/// The start of a document: valid.
pub proof fn lemma_start_valid()
    ensures
        Draft::start().valid(),
{
    lemma_end_boundary(Seq::<char>::empty());
    assert(encode_utf8(Seq::<char>::empty()) =~= Seq::<u8>::empty());
}

/// The input as a pager shows it: text, style changes and hyperlinks.
///
/// A document is built once and never changes.
pub struct Document {
    pub(crate) text: String,
    pub(crate) attrs: Vec<(usize, StyleChange)>,
    pub(crate) links: Vec<LinkRange>,
}

impl View for Document {
    type V = DocModel;

    closed spec fn view(&self) -> DocModel {
        DocModel { text: self.text@, attrs: self.attrs@, links: links_view(self.links@) }
    }
}

impl Document {
    #[verifier::type_invariant]
    pub(crate) open spec fn inv(&self) -> bool {
        self.model().valid()
    }

    /// The same as the view, for the modules of this crate.
    pub(crate) open spec fn model(&self) -> DocModel {
        DocModel { text: self.text@, attrs: self.attrs@, links: links_view(self.links@) }
    }

    /// The view of a document is its model.
    pub(crate) proof fn lemma_view_is_model(&self)
        ensures
            self@ == self.model(),
    {
    }

    /// Reads a byte stream: printable text interleaved with SGR and OSC-8
    /// escape sequences.
    pub fn new(input: &[u8]) -> (doc: Document)
        ensures
            doc@ == document_of(parsed_events(input@)),
            doc@.valid(),
    {
        let events = parse_events(input);
        Document::from_events(&events)
    }

    /// Builds the document that a sequence of events describes.
    pub fn from_events(events: &Vec<Event>) -> (doc: Document)
        ensures
            doc@ == document_of(events_view(events@)),
            doc@.valid(),
    {
        let ghost all = events_view(events@);
        let mut text = String::new();
        let mut attrs: Vec<(usize, StyleChange)> = Vec::new();
        attrs.push((0usize, StyleChange::Reset));
        let mut links: Vec<LinkRange> = Vec::new();
        let mut pending: Option<(usize, String)> = None;
        let ghost mut draft = Draft::start();
        proof {
            lemma_start_valid();
            assert(all.take(0) =~= Seq::<EventModel>::empty());
            assert(attrs@ =~= draft.attrs);
            assert(links_view(links@) =~= draft.links);
        }
        let mut i: usize = 0;
        while i < events.len()
            invariant
                i <= events@.len(),
                all == events_view(events@),
                draft == Draft::run(all.take(i as int)),
                draft.valid(),
                draft.text == text@,
                draft.attrs == attrs@,
                draft.links == links_view(links@),
                draft.pending == match pending {
                    Some((start, uri)) => Some((start, uri@)),
                    None => None,
                },
            decreases events@.len() - i,
        {
            let ghost before = draft;
            proof {
                assert(all.take(i + 1).drop_last() =~= all.take(i as int));
                assert(all.take(i + 1).last() == events@[i as int]@);
                draft = before.after(events@[i as int]@);
                lemma_end_boundary(text@);
            }
            let at: usize = byte_len(text.as_str());
            match &events[i] {
                Event::Print(c) => {
                    text.push(*c);
                },
                Event::LineFeed => {
                    text.push('\n');
                },
                Event::Style(change) => {
                    attrs.push((at, *change));
                },
                Event::SetHyperlink(uri) => {
                    match pending {
                        Some((start, open)) => {
                            links.push(LinkRange { start, end: at, uri: open });
                            assert(links_view(links@) =~= before.close().links);
                        },
                        None => {},
                    }
                    pending = match uri {
                        Some(next) => Some((at, next.clone())),
                        None => None,
                    };
                },
                Event::UnsupportedStyle => {},
                Event::Other => {},
            }
            let grown: usize = byte_len(text.as_str());
            let count: usize = links.len();
            proof {
                lemma_after_keeps_valid(before, events@[i as int]@);
            }
            i += 1;
        }
        let at: usize = byte_len(text.as_str());
        match pending {
            Some((start, open)) => {
                links.push(LinkRange { start, end: at, uri: open });
                assert(links_view(links@) =~= draft.close().links);
            },
            None => {},
        }
        let count: usize = links.len();
        proof {
            assert(all.take(i as int) =~= all);
            lemma_close_keeps_valid(draft);
        }
        Document { text, attrs, links }
    }

    /// The shown characters.
    pub fn text(&self) -> (text: &str)
        ensures
            text@ == self@.text,
    {
        self.text.as_str()
    }

    /// The style changes, in the order of their offsets.
    pub fn attrs(&self) -> (attrs: &Vec<(usize, StyleChange)>)
        ensures
            attrs@ == self@.attrs,
    {
        &self.attrs
    }

    /// The hyperlinks, in the order in which they ended.
    pub fn links(&self) -> (links: &Vec<LinkRange>)
        ensures
            links_view(links@) == self@.links,
    {
        &self.links
    }
}

} // verus!
