//! The panes of the screen: what each draws, and what each key does.

use crate::doc::{links_view, DocModel, Document};
use crate::op::{emit, ops_view, Op, OpModel};
use crate::order::ascending;
use crate::render::{change_offsets, range_ends, render_model, render_rows, Scene};
use crate::search::{lemma_matching_ascends, without_last};
use crate::state::{text_view, Shared, State, StateModel};
use crate::style::Color;
use crate::doc::document_of;
use crate::escape::parsed_events;
use crate::text::{
    byte_len, clusters_of, clusters_view, lemma_cluster_boundary, lemma_prefix_boundary,
    lemma_split_at_boundary, segment, tail, text_from, text_until, text_width, utf8_len,
    width_of,
};
use crate::view::{percent_of, row_of};
use std::rc::Rc;
use vstd::string::*;
use crate::view::{DocumentView, ViewModel};
use vstd::prelude::*;

verus! {

/// The keys that a pager knows.
#[derive(Clone, Copy, Debug, PartialEq, Eq)]
pub enum KeyCode {
    Char(char),
    UpArrow,
    DownArrow,
    Enter,
    Escape,
    Backspace,
    /// Any other key.
    Other,
}

/// The modifier keys held down with a key, as far as a pager tells them
/// apart.
#[derive(Clone, Copy, Debug, PartialEq, Eq)]
pub enum Modifiers {
    /// No modifier.
    Plain,
    /// Shift and nothing else.
    Shift,
    /// Control and nothing else.
    Ctrl,
    /// Any other modifier or combination.
    Other,
}

/// A key press.
#[derive(Clone, Copy, Debug, PartialEq, Eq)]
pub struct KeyEvent {
    pub key: KeyCode,
    pub modifiers: Modifiers,
}

/// What the terminal reports.
#[derive(Clone, Debug, PartialEq, Eq)]
pub enum InputEvent {
    Key(KeyEvent),
    /// The terminal has a new size.
    Resized { cols: usize, rows: usize },
    /// Text pasted in one piece.
    Paste(String),
    /// Anything else.
    Other,
}

/// What is handed to the panes.
#[derive(Clone, Debug, PartialEq, Eq)]
pub enum WidgetEvent {
    Input(InputEvent),
}

/// An input event with its text as a sequence of characters.
pub enum InputModel {
    Key(KeyEvent),
    Resized { cols: usize, rows: usize },
    Paste(Seq<char>),
    Other,
}

impl View for InputEvent {
    type V = InputModel;

    open spec fn view(&self) -> InputModel {
        match *self {
            InputEvent::Key(key) => InputModel::Key(key),
            InputEvent::Resized { cols, rows } => InputModel::Resized { cols, rows },
            InputEvent::Paste(text) => InputModel::Paste(text@),
            InputEvent::Other => InputModel::Other,
        }
    }
}

impl View for WidgetEvent {
    type V = InputModel;

    open spec fn view(&self) -> InputModel {
        match *self {
            WidgetEvent::Input(input) => input@,
        }
    }
}

/// The models of a sequence of events.
pub open spec fn inputs_view(events: Seq<WidgetEvent>) -> Seq<InputModel> {
    events.map_values(|e: WidgetEvent| e@)
}

/// The pane that gets the keys first.
#[derive(Clone, Copy, Debug, PartialEq, Eq)]
pub enum Focus {
    Document,
    Search,
}

/// The rows to draw of a view from row `line` on when there is room for
/// `height`: no more than there are.
pub open spec fn rows_to_draw(view: ViewModel, line: int, height: int) -> int {
    if height <= view.lines.len() - line {
        height
    } else {
        view.lines.len() - line
    }
}

/// The operations that draw `height` rows of a document from row `line` of
/// its view on, with the given ranges highlighted.
pub open spec fn page_model(
    doc: DocModel,
    view: ViewModel,
    line: int,
    height: int,
    highlights: Seq<(usize, usize)>,
) -> Seq<OpModel> {
    render_model(
        Scene {
            attrs: doc.attrs,
            highlights,
            first: view.lines[line],
            rows: rows_to_draw(view, line, height) as nat,
            width: view.width as nat,
        },
        clusters_of(text_from(doc.text, view.lines[line].start_byte as int)),
    )
}

/// The offsets of the style changes of a document ascend.
pub proof fn lemma_changes_ascend(doc: DocModel)
    requires
        doc.valid(),
    ensures
        ascending(change_offsets(doc.attrs)),
{
    let keys = change_offsets(doc.attrs);
    assert forall|i: int, j: int| 0 <= i <= j < keys.len() implies keys[i] <= keys[j] by {
        assert(doc.attrs[i].0 <= doc.attrs[j].0);
    }
}

/// Draws `height` rows of a document from row `line` of its view on, with
/// the given ranges highlighted, and adds the operations to `changes`.
pub fn render_lines(
    doc: &Document,
    view: &DocumentView,
    line: usize,
    height: usize,
    highlights: &[(usize, usize)],
    changes: &mut Vec<Op>,
)
    requires
        view@.doc == doc@,
        line < view@.lines.len(),
        height >= 1,
        ascending(range_ends(highlights@)),
    ensures
        ops_view(final(changes)@) == ops_view(old(changes)@) + page_model(
            doc@,
            view@,
            line as int,
            height as int,
            highlights@,
        ),
{
    proof {
        use_type_invariant(doc);
        use_type_invariant(view);
        doc.lemma_view_is_model();
        view.lemma_view_is_model();
        lemma_changes_ascend(doc@);
    }
    let lines = view.lines();
    let first = lines[line];
    let text = doc.text();
    proof {
        lemma_split_at_boundary(text@, first.start_byte as int);
    }
    let rest = tail(text, first.start_byte);
    let clusters = segment(rest);
    proof {
        lemma_cluster_boundary(clusters_view(clusters@), rest@, clusters@.len() as int);
        lemma_prefix_boundary(text_until(text@, first.start_byte as int), rest@);
    }
    let rows: usize = if height <= lines.len() - line {
        height
    } else {
        lines.len() - line
    };
    render_rows(&clusters, doc.attrs(), highlights, first, rows, view.width(), changes);
}

/// The rows that a page key scrolls by: two less than the page has.
pub open spec fn page_step(height: usize) -> usize {
    if height >= 2 {
        (height - 2) as usize
    } else {
        0
    }
}

/// What a key does in the document pane, if the pane takes it: the arrows
/// scroll by a row, the space bar and `b` by a page less two rows.
pub open spec fn document_key(state: StateModel, event: KeyEvent) -> Option<StateModel> {
    match event.key {
        KeyCode::UpArrow => Some(StateModel { view: state.view.scrolled_back(1), ..state }),
        KeyCode::DownArrow => Some(StateModel { view: state.view.scrolled_forward(1), ..state }),
        KeyCode::Char(c) => if c == ' ' {
            Some(
                StateModel {
                    view: state.view.scrolled_forward(page_step(state.view.height)),
                    ..state
                },
            )
        } else if c == 'b' {
            Some(
                StateModel {
                    view: state.view.scrolled_back(page_step(state.view.height)),
                    ..state
                },
            )
        } else {
            None
        },
        _ => None,
    }
}

/// What a key does in the search pane, if the pane takes it: Enter closes
/// the pane, Escape cancels the search, a character typed plainly or with
/// shift is added to the query, Backspace takes the last one off, and the
/// arrows move the selection.
pub open spec fn search_key(state: StateModel, event: KeyEvent) -> Option<StateModel> {
    match event.key {
        KeyCode::Enter => Some(state.search_closed()),
        KeyCode::Escape => Some(state.search_cancelled()),
        KeyCode::Char(c) => if event.modifiers == Modifiers::Plain || event.modifiers
            == Modifiers::Shift {
            Some(state.asking(state.search.query.push(c)))
        } else {
            None
        },
        KeyCode::Backspace => Some(state.asking(without_last(state.search.query))),
        KeyCode::UpArrow => Some(state.selecting(state.search.prev_index())),
        KeyCode::DownArrow => Some(state.selecting(state.search.next_index())),
        KeyCode::Other => None,
    }
}

/// What a key does that the pane in focus has not taken: `/` opens the
/// search pane, `n` and `N` select the next and the previous match, Enter
/// asks for the selected link to be opened, `q` and control-c leave.
pub open spec fn main_key(state: StateModel, event: KeyEvent) -> Option<StateModel> {
    match event.key {
        KeyCode::Char(c) => if c == '/' {
            Some(state.search_opened())
        } else if c == 'N' {
            Some(state.selecting(state.search.prev_index()))
        } else if c == 'n' {
            Some(state.selecting(state.search.next_index()))
        } else if (c == 'c' && event.modifiers == Modifiers::Ctrl) || c == 'q' {
            Some(StateModel { shared: Shared { quit: true, ..state.shared }, ..state })
        } else {
            None
        },
        KeyCode::Enter => Some(state.link_asked()),
        _ => None,
    }
}

/// What an event does in the pane in focus, if the pane takes it.
pub open spec fn focused_event(state: StateModel, focus: Focus, input: InputModel) -> Option<
    StateModel,
> {
    match (focus, input) {
        (Focus::Document, InputModel::Key(key)) => document_key(state, key),
        (Focus::Search, InputModel::Key(key)) => search_key(state, key),
        (Focus::Search, InputModel::Paste(text)) => Some(
            state.asking(state.search.query + text),
        ),
        _ => None,
    }
}

/// What an event does that the pane in focus has not taken.
pub open spec fn main_event(state: StateModel, input: InputModel) -> Option<StateModel> {
    match input {
        InputModel::Key(key) => main_key(state, key),
        _ => None,
    }
}

/// The session after an event: keys and pasted text go to the pane in
/// focus first; a new size changes nothing by itself.
pub open spec fn delivered(state: StateModel, focus: Focus, input: InputModel) -> StateModel {
    match input {
        InputModel::Resized { .. } => state,
        _ => match focused_event(state, focus, input) {
            Some(next) => next,
            None => match main_event(state, input) {
                Some(next) => next,
                None => state,
            },
        },
    }
}

/// The session after the first `n` of a sequence of events.
pub open spec fn processed(
    state: StateModel,
    focus: Focus,
    inputs: Seq<InputModel>,
    n: int,
) -> StateModel
    decreases n,
{
    if n <= 0 {
        state
    } else {
        delivered(processed(state, focus, inputs, n - 1), focus, inputs[n - 1])
    }
}

/// Whether the returned flag and the final state are what a spec function
/// says of a key or event.
pub open spec fn taken(
    effect: Option<StateModel>,
    before: StateModel,
    handled: bool,
    after: StateModel,
) -> bool {
    match effect {
        Some(next) => handled && after == next,
        None => !handled && after == before,
    }
}

/// The pane that shows the document.
pub struct DocumentWidget {}

impl DocumentWidget {
    /// Scrolls the document, if the key is one that does. Says whether it
    /// was.
    pub fn process_key(&mut self, event: &KeyEvent, state: &mut State) -> (handled: bool)
        ensures
            taken(document_key(old(state)@, *event), old(state)@, handled, final(state)@),
    {
        match event.key {
            KeyCode::UpArrow => {
                state.view.backward(1);
                true
            },
            KeyCode::DownArrow => {
                state.view.forward(1);
                true
            },
            KeyCode::Char(c) => {
                let height: usize = state.view.height();
                let step: usize = if height >= 2 {
                    height - 2
                } else {
                    0
                };
                if c == ' ' {
                    state.view.forward(step);
                    true
                } else if c == 'b' {
                    state.view.backward(step);
                    true
                } else {
                    false
                }
            },
            _ => false,
        }
    }

    /// Hands a key press on; takes nothing else.
    pub fn process_event(&mut self, event: &WidgetEvent, state: &mut State) -> (handled: bool)
        ensures
            taken(
                focused_event(old(state)@, Focus::Document, event@),
                old(state)@,
                handled,
                final(state)@,
            ),
    {
        match event {
            WidgetEvent::Input(InputEvent::Key(key)) => self.process_key(key, state),
            _ => false,
        }
    }
}

/// The pane that shows the query and the matches.
pub struct SearchWidget {}

impl SearchWidget {
    /// Edits the query, moves the selection, or closes the pane, if the key
    /// is one that does. Says whether it was.
    pub fn process_key(&mut self, event: &KeyEvent, state: &mut State) -> (handled: bool)
        ensures
            taken(search_key(old(state)@, *event), old(state)@, handled, final(state)@),
    {
        match event.key {
            KeyCode::Enter => {
                state.close_search();
                true
            },
            KeyCode::Escape => {
                state.cancel_search();
                true
            },
            KeyCode::Char(c) => {
                match event.modifiers {
                    Modifiers::Plain | Modifiers::Shift => {
                        let mut both = state.search_mut();
                        both.push_query_char(c);
                        true
                    },
                    _ => false,
                }
            },
            KeyCode::Backspace => {
                let mut both = state.search_mut();
                both.pop_query_char();
                true
            },
            KeyCode::UpArrow => {
                let mut both = state.search_mut();
                both.select_prev();
                true
            },
            KeyCode::DownArrow => {
                let mut both = state.search_mut();
                both.select_next();
                true
            },
            KeyCode::Other => false,
        }
    }

    /// Hands a key press on, and adds pasted text to the query; takes
    /// nothing else.
    pub fn process_event(&mut self, event: &WidgetEvent, state: &mut State) -> (handled: bool)
        ensures
            taken(
                focused_event(old(state)@, Focus::Search, event@),
                old(state)@,
                handled,
                final(state)@,
            ),
    {
        match event {
            WidgetEvent::Input(InputEvent::Key(key)) => self.process_key(key, state),
            WidgetEvent::Input(InputEvent::Paste(text)) => {
                let mut both = state.search_mut();
                both.push_query_str(text.as_str());
                true
            },
            _ => false,
        }
    }
}

/// The pane that holds the others, and takes the keys that they leave.
pub struct MainWidget {}

impl MainWidget {
    /// Opens the search pane, moves the selection, asks for a link to be
    /// opened, or leaves, if the key is one that does. Says whether it was.
    pub fn process_key(&mut self, event: &KeyEvent, state: &mut State) -> (handled: bool)
        ensures
            taken(main_key(old(state)@, *event), old(state)@, handled, final(state)@),
    {
        match event.key {
            KeyCode::Char(c) => {
                if c == '/' {
                    state.open_search();
                    true
                } else if c == 'N' {
                    let mut both = state.search_mut();
                    both.select_prev();
                    true
                } else if c == 'n' {
                    let mut both = state.search_mut();
                    both.select_next();
                    true
                } else if c == 'q' {
                    state.shared.quit = true;
                    true
                } else if c == 'c' {
                    match event.modifiers {
                        Modifiers::Ctrl => {
                            state.shared.quit = true;
                            true
                        },
                        _ => false,
                    }
                } else {
                    false
                }
            },
            KeyCode::Enter => {
                let mut both = state.search_mut();
                let uri = both.open_selected();
                if uri.is_some() {
                    state.link_request = uri;
                }
                true
            },
            _ => false,
        }
    }

    /// Hands a key press on; takes nothing else.
    pub fn process_event(&mut self, event: &WidgetEvent, state: &mut State) -> (handled: bool)
        ensures
            taken(main_event(old(state)@, event@), old(state)@, handled, final(state)@),
    {
        match event {
            WidgetEvent::Input(InputEvent::Key(key)) => self.process_key(key, state),
            _ => false,
        }
    }
}

/// The decimal digit for a number below ten.
pub open spec fn digit(d: int) -> char {
    ('0' as int + d) as char
}

/// A number in decimal digits.
pub open spec fn decimal(n: nat) -> Seq<char>
    decreases n,
{
    if n < 10 {
        seq![digit(n as int)]
    } else {
        decimal(n / 10).push(digit((n % 10) as int))
    }
}

/// The decimal digit for a number below ten.
fn digit_char(d: u8) -> (c: char)
    requires
        d < 10,
    ensures
        c == digit(d as int),
{
    (48u8 + d) as char
}

/// A percentage as it is shown: in decimal digits, with a percent sign.
pub fn percent_label(percent: u8) -> (label: String)
    ensures
        label@ == decimal(percent as nat).push('%'),
{
    let mut label = String::new();
    if percent >= 100 {
        label.push(digit_char(percent / 100));
    }
    if percent >= 10 {
        label.push(digit_char((percent / 10) % 10));
    }
    label.push(digit_char(percent % 10));
    label.push('%');
    proof {
        let n = percent as nat;
        reveal_with_fuel(decimal, 3);
        assert(label@ =~= decimal(n).push('%'));
    }
    label
}

/// A string of `count` times the same character.
pub fn repeated(c: char, count: usize) -> (text: String)
    ensures
        text@ == Seq::new(count as nat, |i: int| c),
{
    let mut text = String::new();
    let mut i: usize = 0;
    while i < count
        invariant
            i <= count,
            text@ == Seq::new(i as nat, |j: int| c),
        decreases count - i,
    {
        text.push(c);
        i += 1;
        assert(text@ =~= Seq::new(i as nat, |j: int| c));
    }
    text
}

/// The operations that draw the document pane: the pane is cleared, and
/// the page is drawn from its first row on, if it has one.
pub open spec fn document_model(view: ViewModel, height: usize) -> Seq<OpModel> {
    let head = seq![OpModel::Clear(Color::Default), OpModel::MoveTo { x: 0, y: 0 }];
    if view.line < view.lines.len() {
        head + page_model(view.doc, view, view.line as int, height as int, view.highlights)
    } else {
        head
    }
}

impl DocumentWidget {
    /// Takes the size of the pane for the view, and draws the page.
    pub fn render(&mut self, width: usize, height: usize, state: &mut State) -> (changes: Vec<Op>)
        requires
            width > 0,
            height > 0,
        ensures
            final(state)@ == (StateModel {
                view: old(state)@.view.resized(width, height),
                ..old(state)@
            }),
            ops_view(changes@) == document_model(final(state)@.view, height),
    {
        state.view.set_size(width, height);
        let mut changes: Vec<Op> = Vec::new();
        emit(&mut changes, Op::Clear(Color::Default));
        emit(&mut changes, Op::MoveTo { x: 0, y: 0 });
        assert(ops_view(changes@) =~= seq![
            OpModel::Clear(Color::Default),
            OpModel::MoveTo { x: 0, y: 0 },
        ]);
        let view = &state.view;
        proof {
            use_type_invariant(view);
            view.lemma_view_is_model();
        }
        if view.line() < view.lines().len() {
            render_lines(
                view.document(),
                view,
                view.line(),
                height,
                view.highlights(),
                &mut changes,
            );
        }
        changes
    }
}

/// The operations that draw the status row: what went wrong last, at the
/// left, and the percentage at the right, if there is a column between the
/// two.
pub open spec fn status_model(state: StateModel, width: usize) -> Seq<OpModel> {
    let head = seq![OpModel::Clear(Color::Palette(8)), OpModel::MoveTo { x: 0, y: 0 }];
    let label = decimal(
        percent_of(
            state.view.line as int,
            state.view.height as int,
            state.view.lines.len() as int,
        ) as nat,
    ).push('%');
    let error_width = match state.last_error {
        Some(error) => width_of(error),
        None => 0,
    };
    let left = match state.last_error {
        Some(error) => head.push(OpModel::Text(error)),
        None => head,
    };
    if error_width + width_of(label) < width {
        left.push(OpModel::MoveTo { x: (width - width_of(label)) as usize, y: 0 }).push(
            OpModel::Text(label),
        )
    } else {
        left
    }
}

/// The row at the bottom that shows the progress and what went wrong.
pub struct StatusWidget {}

impl StatusWidget {
    /// Draws the status row.
    pub fn render(&mut self, width: usize, state: &State) -> (changes: Vec<Op>)
        ensures
            ops_view(changes@) == status_model(state@, width),
    {
        let mut changes: Vec<Op> = Vec::new();
        emit(&mut changes, Op::Clear(Color::Palette(8)));
        emit(&mut changes, Op::MoveTo { x: 0, y: 0 });
        assert(ops_view(changes@) =~= seq![
            OpModel::Clear(Color::Palette(8)),
            OpModel::MoveTo { x: 0, y: 0 },
        ]);
        let error_width: usize = match &state.last_error {
            Some(error) => {
                emit(&mut changes, Op::Text(error.clone()));
                text_width(error.as_str())
            },
            None => 0,
        };
        let progress = match state.view.percent() {
            Some(percent) => percent_label(percent),
            None => String::from_str("?%"),
        };
        let progress_width: usize = text_width(progress.as_str());
        if error_width < width && progress_width < width - error_width {
            emit(&mut changes, Op::MoveTo { x: width - progress_width, y: 0 });
            emit(&mut changes, Op::Text(progress));
        }
        changes
    }
}

/// The operations that draw the rows of the matches from match `from` up
/// to match `to`: for each its row of the document, with the selected link
/// highlighted.
pub open spec fn match_rows(
    state: StateModel,
    highlights: Seq<(usize, usize)>,
    from: int,
    to: int,
) -> Seq<OpModel>
    decreases to - from,
{
    if to <= from {
        Seq::empty()
    } else {
        let link = state.search.doc.links[state.search.matches[to - 1] as int];
        match_rows(state, highlights, from, to - 1) + page_model(
            state.view.doc,
            state.view,
            row_of(state.view.lines, link.start as int),
            1,
            highlights,
        ).push(OpModel::NextRow)
    }
}

/// The first match shown when there are `height` rows for the matches:
/// such that the selected one is the last row at most.
pub open spec fn first_shown(state: StateModel, height: usize) -> int {
    let selected = state.search.active_index();
    if selected > height - 1 {
        selected - (height - 1)
    } else {
        0
    }
}

/// The match behind the last one shown when there are `height` rows for
/// the matches.
pub open spec fn end_shown(state: StateModel, height: usize) -> int {
    let end = first_shown(state, height) + height;
    if end <= state.search.matches.len() {
        end
    } else {
        state.search.matches.len() as int
    }
}

/// The operations that draw the matches in `height` rows.
pub open spec fn matches_model(state: StateModel, height: usize) -> Seq<OpModel> {
    if state.search.matches.len() == 0 {
        Seq::empty()
    } else {
        let link = state.search.doc.links[state.search.selected_link()];
        match_rows(
            state,
            seq![(link.start, link.end)],
            first_shown(state, height),
            end_shown(state, height),
        )
    }
}

/// The label in front of the query.
pub open spec fn search_label(query: Seq<char>) -> Seq<char> {
    "Search: "@ + query
}

/// The operations that draw the search pane: with more than three rows, a
/// separator and the matches; in the last row the query.
pub open spec fn search_model(state: StateModel, width: usize, height: usize) -> Seq<OpModel> {
    if height == 0 {
        Seq::empty()
    } else {
        let head = seq![OpModel::Clear(Color::Default), OpModel::MoveTo { x: 0, y: 0 }];
        let list = if height > 3 {
            head.push(OpModel::Text(Seq::new(width as nat, |i: int| '\u{2501}'))).push(
                OpModel::NextRow,
            ) + matches_model(state, (height - 2) as usize)
        } else {
            head
        };
        list.push(OpModel::MoveTo { x: 0, y: (height - 1) as usize }).push(
            OpModel::Text(search_label(state.search.query)),
        )
    }
}

/// Where the cursor stands in the search pane: behind the query.
pub open spec fn search_cursor(state: StateModel, height: usize) -> Option<(usize, usize)> {
    if height == 0 {
        None
    } else {
        Some((utf8_len(search_label(state.search.query)) as usize, (height - 1) as usize))
    }
}

impl SearchWidget {
    /// Draws the matches in `height` rows, the selected one highlighted.
    pub fn render_matches(&mut self, height: usize, changes: &mut Vec<Op>, state: &State)
        requires
            height >= 1,
            state@.view.doc == state@.search.doc,
        ensures
            ops_view(final(changes)@) == ops_view(old(changes)@) + matches_model(state@, height),
    {
        let search = &state.search;
        let view = &state.view;
        proof {
            use_type_invariant(search);
            use_type_invariant(view);
            search.lemma_view_is_model();
            view.lemma_view_is_model();
            lemma_matching_ascends(
                search@.doc,
                search@.query,
                search@.doc.links.len() as int,
            );
        }
        let matches = search.matches();
        if matches.len() == 0 {
            assert(ops_view(changes@) =~= ops_view(old(changes)@) + matches_model(state@, height));
            return ;
        }
        let doc = search.document();
        let links = doc.links();
        let selected_idx: usize = match search.selected_idx() {
            Some(idx) => idx,
            None => 0,
        };
        let first_visible_idx: usize = if selected_idx > height - 1 {
            selected_idx - (height - 1)
        } else {
            0
        };
        let selected = &links[matches[selected_idx]];
        let mut highlights: Vec<(usize, usize)> = Vec::new();
        highlights.push((selected.start, selected.end));
        proof {
            let link_idx = matches@[selected_idx as int] as int;
            assert(links@[link_idx]@ == search@.doc.links[link_idx]);
            assert(highlights@ =~= seq![(selected.start, selected.end)]);
            assert(ascending(range_ends(highlights@)));
        }
        let end: usize = if height <= matches.len() - first_visible_idx {
            first_visible_idx + height
        } else {
            matches.len()
        };
        let ghost base = ops_view(changes@);
        let mut i: usize = first_visible_idx;
        assert(ops_view(changes@) =~= base + match_rows(
            state@,
            highlights@,
            first_visible_idx as int,
            i as int,
        ));
        while i < end
            invariant
                first_visible_idx <= i <= end <= matches@.len(),
                matches@ == state@.search.matches,
                links_view(links@) == state@.search.doc.links,
                state@.view.doc == state@.search.doc,
                doc@ == state@.search.doc,
                *view == state.view,
                state@.search.valid(),
                forall|k: int|
                    0 <= k < matches@.len() ==> (#[trigger] matches@[k]) < state@.search.doc.links.len(),
                ascending(range_ends(highlights@)),
                ops_view(changes@) == base + match_rows(
                    state@,
                    highlights@,
                    first_visible_idx as int,
                    i as int,
                ),
            decreases end - i,
        {
            let ghost before = ops_view(changes@);
            let link_idx: usize = matches[i];
            let start: usize = links[link_idx].start;
            proof {
                assert(links@[link_idx as int]@ == state@.search.doc.links[link_idx as int]);
            }
            let line: usize = view.find_line(start);
            render_lines(doc, view, line, 1, highlights.as_slice(), changes);
            emit(changes, Op::NextRow);
            i += 1;
            proof {
                let row = page_model(
                    state@.view.doc,
                    state@.view,
                    row_of(state@.view.lines, start as int),
                    1,
                    highlights@,
                );
                assert(ops_view(changes@) =~= before + row.push(OpModel::NextRow));
                assert(ops_view(changes@) =~= base + match_rows(
                    state@,
                    highlights@,
                    first_visible_idx as int,
                    i as int,
                ));
            }
        }
    }

    /// Draws the search pane, and says where in it the cursor stands.
    pub fn render(&mut self, width: usize, height: usize, state: &State) -> (drawn: (
        Vec<Op>,
        Option<(usize, usize)>,
    ))
        requires
            state@.view.doc == state@.search.doc,
        ensures
            ops_view(drawn.0@) == search_model(state@, width, height),
            drawn.1 == search_cursor(state@, height),
    {
        let mut changes: Vec<Op> = Vec::new();
        if height == 0 {
            assert(ops_view(changes@) =~= Seq::<OpModel>::empty());
            return (changes, None);
        }
        emit(&mut changes, Op::Clear(Color::Default));
        emit(&mut changes, Op::MoveTo { x: 0, y: 0 });
        assert(ops_view(changes@) =~= seq![
            OpModel::Clear(Color::Default),
            OpModel::MoveTo { x: 0, y: 0 },
        ]);
        if height > 3 {
            emit(&mut changes, Op::Text(repeated('\u{2501}', width)));
            emit(&mut changes, Op::NextRow);
            self.render_matches(height - 2, &mut changes, state);
        }
        let mut label = String::from_str("Search: ");
        label.append(state.search.query());
        let x: usize = byte_len(label.as_str());
        emit(&mut changes, Op::MoveTo { x: 0, y: height - 1 });
        emit(&mut changes, Op::Text(label));
        (changes, Some((x, height - 1)))
    }
}

/// A pane of the screen: where it lies and what is drawn in it.
#[derive(Clone, Debug, PartialEq, Eq)]
pub struct Pane {
    /// The row of the screen at which the pane begins.
    pub top: usize,
    /// The rows of the pane.
    pub height: usize,
    /// What is drawn, from the pane's upper left corner.
    pub ops: Vec<Op>,
}

/// A [`Pane`] with its operations as models.
pub struct PaneModel {
    pub top: usize,
    pub height: usize,
    pub ops: Seq<OpModel>,
}

impl View for Pane {
    type V = PaneModel;

    open spec fn view(&self) -> PaneModel {
        PaneModel { top: self.top, height: self.height, ops: ops_view(self.ops@) }
    }
}

/// The cursor of the screen.
#[derive(Clone, Copy, Debug, PartialEq, Eq)]
pub enum Cursor {
    /// Not shown.
    Hidden,
    /// A blinking bar at a column and row of the screen.
    Bar { x: usize, y: usize },
}

/// The screen after a redraw: the panes from top to bottom, and the cursor.
#[derive(Clone, Debug, PartialEq, Eq)]
pub struct Frame {
    /// The columns of the screen.
    pub width: usize,
    pub doc: Pane,
    pub search: Pane,
    pub status: Pane,
    pub cursor: Cursor,
}

/// A [`Frame`] with its operations as models.
pub struct FrameModel {
    pub width: usize,
    pub doc: PaneModel,
    pub search: PaneModel,
    pub status: PaneModel,
    pub cursor: Cursor,
}

impl View for Frame {
    type V = FrameModel;

    open spec fn view(&self) -> FrameModel {
        FrameModel {
            width: self.width,
            doc: self.doc@,
            search: self.search@,
            status: self.status@,
            cursor: self.cursor,
        }
    }
}

/// The pane that has the focus in a session: the search pane while it is
/// open.
pub open spec fn focus_of(state: StateModel) -> Focus {
    if state.shared.searching {
        Focus::Search
    } else {
        Focus::Document
    }
}

/// The session after a redraw at a width: the view has the size of the
/// document pane, if the pane has any.
pub open spec fn laid_out(state: StateModel, width: usize) -> StateModel {
    if width > 0 && state.doc_height() > 0 {
        StateModel { view: state.view.resized(width, state.doc_height() as usize), ..state }
    } else {
        state
    }
}

/// The screen that shows a session at a width: the document pane on top,
/// the search pane below it, the status row at the bottom, and the cursor
/// behind the query while the search pane has the focus.
pub open spec fn frame_model(state: StateModel, width: usize) -> FrameModel {
    let doc_height = state.doc_height() as usize;
    let search_height = state.search_height() as usize;
    let drawn = laid_out(state, width);
    FrameModel {
        width,
        doc: PaneModel {
            top: 0,
            height: doc_height,
            ops: if width > 0 && doc_height > 0 {
                document_model(drawn.view, doc_height)
            } else {
                Seq::empty()
            },
        },
        search: PaneModel {
            top: doc_height,
            height: search_height,
            ops: search_model(drawn, width, search_height),
        },
        status: PaneModel {
            top: (doc_height + search_height) as usize,
            height: 1,
            ops: status_model(drawn, width),
        },
        cursor: match (focus_of(state), search_cursor(drawn, search_height)) {
            (Focus::Search, Some((x, y))) => Cursor::Bar { x, y: (doc_height + y) as usize },
            _ => Cursor::Hidden,
        },
    }
}

/// Whether the view and the search of a session are of one document.
pub open spec fn same_document(state: StateModel) -> bool {
    state.view.doc == state.search.doc
}

/// What the event loop is to do after a step.
#[derive(Clone, Copy, Debug, PartialEq, Eq)]
pub enum StepNext {
    /// Leave.
    QUIT,
    /// Show the frame and wait for the next event.
    WAIT,
}

/// A pager: a session, the events that wait for it, and the screen as it
/// was drawn last.
pub struct AteUi {
    pub state: State,
    pub queue: Vec<WidgetEvent>,
    pub focus: Focus,
    pub frame: Frame,
}

/// What an [`AteUi`] holds.
pub struct UiModel {
    pub state: StateModel,
    pub queue: Seq<InputModel>,
    pub focus: Focus,
    pub frame: FrameModel,
}

impl View for AteUi {
    type V = UiModel;

    open spec fn view(&self) -> UiModel {
        UiModel {
            state: self.state@,
            queue: inputs_view(self.queue@),
            focus: self.focus,
            frame: self.frame@,
        }
    }
}

/// A screen on which nothing has been drawn.
pub open spec fn blank_frame(width: usize) -> FrameModel {
    let pane = PaneModel { top: 0, height: 0, ops: Seq::empty() };
    FrameModel { width, doc: pane, search: pane, status: pane, cursor: Cursor::Hidden }
}

/// A pager for the input, on a terminal of the given size.
pub fn create_ui(input: &[u8], width: usize, height: usize) -> (ui: AteUi)
    ensures
        ui@ == (UiModel {
            state: StateModel::fresh(document_of(parsed_events(input@)), width, height),
            queue: Seq::empty(),
            focus: Focus::Document,
            frame: blank_frame(width),
        }),
        ui@.state.view.doc == ui@.state.search.doc,
{
    let doc = Rc::new(Document::new(input));
    let state = State::new(doc, width, height);
    let queue: Vec<WidgetEvent> = Vec::new();
    assert(inputs_view(queue@) =~= Seq::<InputModel>::empty());
    let frame = Frame {
        width,
        doc: Pane { top: 0, height: 0, ops: Vec::new() },
        search: Pane { top: 0, height: 0, ops: Vec::new() },
        status: Pane { top: 0, height: 0, ops: Vec::new() },
        cursor: Cursor::Hidden,
    };
    assert(frame.doc@.ops =~= Seq::<OpModel>::empty());
    AteUi { state, queue, focus: Focus::Document, frame }
}

impl AteUi {
    /// Adds an event to those that wait for the next step.
    pub fn queue_event(&mut self, input: WidgetEvent)
        ensures
            final(self)@ == (UiModel { queue: old(self)@.queue.push(input@), ..old(self)@ }),
    {
        self.queue.push(input);
        assert(inputs_view(self.queue@) =~= inputs_view(old(self).queue@).push(input@));
    }

    /// Hands an event to the pane in focus, and to the main pane if that
    /// one does not take it.
    fn deliver(&mut self, event: &WidgetEvent)
        ensures
            final(self)@ == (UiModel {
                state: delivered(old(self)@.state, old(self)@.focus, event@),
                ..old(self)@
            }),
            same_document(old(self)@.state) ==> same_document(final(self)@.state),
    {
        match event {
            WidgetEvent::Input(InputEvent::Resized { .. }) => {},
            _ => {
                let handled = match self.focus {
                    Focus::Document => {
                        let mut pane = DocumentWidget {  };
                        pane.process_event(event, &mut self.state)
                    },
                    Focus::Search => {
                        let mut pane = SearchWidget {  };
                        pane.process_event(event, &mut self.state)
                    },
                };
                if !handled {
                    let mut pane = MainWidget {  };
                    pane.process_event(event, &mut self.state);
                }
            },
        }
    }

    /// Takes the size of the terminal, lets the panes have the events that
    /// wait, and draws the screen anew, unless the user has asked to leave.
    pub fn step(&mut self, width: usize, height: usize) -> (next: StepNext)
        requires
            old(self)@.state.view.doc == old(self)@.state.search.doc,
        ensures
            final(self)@.state.view.doc == final(self)@.state.search.doc,
            final(self)@.queue == Seq::<InputModel>::empty(),
            ({
                let sized = StateModel {
                    shared: Shared { term_height: height, ..old(self)@.state.shared },
                    ..old(self)@.state
                };
                let after = processed(
                    sized,
                    old(self)@.focus,
                    old(self)@.queue,
                    old(self)@.queue.len() as int,
                );
                if after.shared.quit {
                    &&& next == StepNext::QUIT
                    &&& final(self)@.state == after
                    &&& final(self)@.focus == old(self)@.focus
                    &&& final(self)@.frame == old(self)@.frame
                } else {
                    &&& next == StepNext::WAIT
                    &&& final(self)@.state == laid_out(after, width)
                    &&& final(self)@.focus == focus_of(after)
                    &&& final(self)@.frame == frame_model(after, width)
                }
            }),
    {
        self.state.shared.term_height = height;
        let mut queue: Vec<WidgetEvent> = Vec::new();
        std::mem::swap(&mut queue, &mut self.queue);
        assert(inputs_view(self.queue@) =~= Seq::<InputModel>::empty());
        let ghost start = self@;
        let ghost inputs = inputs_view(queue@);
        let mut i: usize = 0;
        while i < queue.len()
            invariant
                i <= queue@.len(),
                inputs == inputs_view(queue@),
                self@ == (UiModel {
                    state: processed(start.state, start.focus, inputs, i as int),
                    ..start
                }),
                self@.state.view.doc == self@.state.search.doc,
            decreases queue@.len() - i,
        {
            self.deliver(&queue[i]);
            i += 1;
        }
        if self.state.shared.quit {
            return StepNext::QUIT;
        }
        self.focus = if self.state.shared.searching {
            Focus::Search
        } else {
            Focus::Document
        };
        let ghost after = self@.state;
        let doc_height: usize = self.state.doc_height() as usize;
        let search_height: usize = self.state.search_height() as usize;
        let doc_ops = if width > 0 && doc_height > 0 {
            let mut pane = DocumentWidget {  };
            pane.render(width, doc_height, &mut self.state)
        } else {
            let nothing: Vec<Op> = Vec::new();
            assert(ops_view(nothing@) =~= Seq::<OpModel>::empty());
            nothing
        };
        assert(self@.state == laid_out(after, width));
        let mut search_pane = SearchWidget {  };
        let (search_ops, cursor) = search_pane.render(width, search_height, &self.state);
        let mut status_pane = StatusWidget {  };
        let status_ops = status_pane.render(width, &self.state);
        let cursor = match (self.focus, cursor) {
            (Focus::Search, Some((x, y))) => Cursor::Bar { x, y: doc_height + y },
            _ => Cursor::Hidden,
        };
        self.frame = Frame {
            width,
            doc: Pane { top: 0, height: doc_height, ops: doc_ops },
            search: Pane { top: doc_height, height: search_height, ops: search_ops },
            status: Pane { top: doc_height + search_height, height: 1, ops: status_ops },
            cursor,
        };
        StepNext::WAIT
    }

    /// Hands out the URI that the user has asked to open, if there is one.
    pub fn take_link_request(&mut self) -> (uri: Option<String>)
        ensures
            text_view(uri) == old(self)@.state.link_request,
            final(self)@ == (UiModel {
                state: StateModel { link_request: None, ..old(self)@.state },
                ..old(self)@
            }),
    {
        let mut uri: Option<String> = None;
        std::mem::swap(&mut uri, &mut self.state.link_request);
        uri
    }

    /// Takes note of what went wrong, to show it in the status row.
    pub fn show_error(&mut self, message: String)
        ensures
            final(self)@ == (UiModel {
                state: StateModel { last_error: Some(message@), ..old(self)@.state },
                ..old(self)@
            }),
    {
        self.state.last_error = Some(message);
    }
}

} // verus!
