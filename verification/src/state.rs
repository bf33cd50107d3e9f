//! The state of a pager session: the document, its view, the search, and
//! what the panes of the screen share.

use crate::doc::{DocModel, Document};
use crate::search::{Search, SearchModel, SearchMutator};
use crate::view::{DocumentView, ViewModel};
use std::rc::Rc;
use vstd::prelude::*;

verus! {

/// What the panes of the screen need to know of each other.
#[derive(Clone, Copy, Debug, PartialEq, Eq)]
pub struct Shared {
    /// Whether the search pane is open.
    pub searching: bool,
    /// The rows of the terminal.
    pub term_height: usize,
    /// Whether the user has asked to leave.
    pub quit: bool,
}

impl Shared {
    /// Nothing open, nothing asked for.
    pub fn new(term_height: usize) -> (shared: Shared)
        ensures
            shared == (Shared { searching: false, term_height, quit: false }),
    {
        Shared { searching: false, term_height, quit: false }
    }
}

/// The rows of the terminal above the status row.
pub open spec fn rows_above_status(term_height: usize) -> int {
    let rows = if term_height <= u16::MAX {
        term_height as int
    } else {
        u16::MAX as int
    };
    if rows >= 1 {
        rows - 1
    } else {
        0
    }
}

/// The rows of the search pane: none while it is closed. While it is open,
/// two rows for the separator and the query and one for each match; at most
/// twelve, and at most half the rows above the status row; but one at
/// least.
pub open spec fn search_rows(searching: bool, term_height: usize, matches: nat) -> int {
    if searching {
        let half = rows_above_status(term_height) / 2;
        let wanted: int = if matches + 2 <= 12 {
            matches as int + 2
        } else {
            12
        };
        let fitting = if wanted <= half {
            wanted
        } else {
            half
        };
        if fitting >= 1 {
            fitting
        } else {
            1
        }
    } else {
        0
    }
}

/// The rows of the document pane: those above the status row that the
/// search pane leaves.
pub open spec fn doc_rows(searching: bool, term_height: usize, matches: nat) -> int {
    let above = rows_above_status(term_height);
    let search = search_rows(searching, term_height, matches);
    if above >= search {
        above - search
    } else {
        0
    }
}

/// A pager session.
pub struct State {
    pub doc: Rc<Document>,
    pub view: DocumentView,
    pub search: Search,
    /// What went wrong last, to show in the status row.
    pub last_error: Option<String>,
    pub shared: Shared,
    /// The URI that the user has asked to open and that is still to be
    /// handed out.
    pub link_request: Option<String>,
    /// The row at which the page stood when the search pane was opened.
    pub search_activate_line: usize,
}

/// What a [`State`] holds.
pub struct StateModel {
    pub doc: DocModel,
    pub view: ViewModel,
    pub search: SearchModel,
    pub last_error: Option<Seq<char>>,
    pub shared: Shared,
    pub link_request: Option<Seq<char>>,
    pub search_activate_line: usize,
}

/// The characters of a string that may be missing.
pub open spec fn text_view(text: Option<String>) -> Option<Seq<char>> {
    match text {
        Some(text) => Some(text@),
        None => None,
    }
}

impl View for State {
    type V = StateModel;

    open spec fn view(&self) -> StateModel {
        StateModel {
            doc: self.doc@,
            view: self.view@,
            search: self.search@,
            last_error: text_view(self.last_error),
            shared: self.shared,
            link_request: text_view(self.link_request),
            search_activate_line: self.search_activate_line,
        }
    }
}

impl StateModel {
    /// What holds of every session that was made by [`State::new`].
    pub open spec fn valid(self) -> bool {
        &&& self.view.valid()
        &&& self.search.valid()
    }

    /// A session on a document, at its first row, with nothing searched
    /// for.
    pub open spec fn fresh(doc: DocModel, width: usize, height: usize) -> StateModel {
        StateModel {
            doc,
            view: ViewModel::fresh(doc, width, height),
            search: SearchModel::fresh(doc),
            last_error: None,
            shared: Shared { searching: false, term_height: height, quit: false },
            link_request: None,
            search_activate_line: 0,
        }
    }

    /// The session with match `idx` selected and shown, if there is such a
    /// match.
    pub open spec fn selecting(self, idx: int) -> StateModel {
        StateModel {
            search: self.search.selecting(idx),
            view: self.search.showing(self.view, idx),
            ..self
        }
    }

    /// The session with the search pane open: the row of the page is kept
    /// for a cancelled search, and the first match is selected, if there is
    /// one.
    pub open spec fn search_opened(self) -> StateModel {
        StateModel {
            shared: Shared { searching: true, ..self.shared },
            search_activate_line: self.view.line,
            ..self
        }.selecting(0)
    }

    /// The session with the search pane closed.
    pub open spec fn search_closed(self) -> StateModel {
        StateModel { shared: Shared { searching: false, ..self.shared }, ..self }
    }

    /// The session with the search pane closed and the page back at the row
    /// at which it stood when the pane was opened.
    pub open spec fn search_cancelled(self) -> StateModel {
        StateModel {
            view: self.view.placed_at(self.search_activate_line),
            ..self.search_closed()
        }
    }

    /// The session after the query is replaced.
    pub open spec fn asking(self, query: Seq<char>) -> StateModel {
        StateModel {
            search: self.search.asking(query),
            view: self.search.asking_view(self.view, query),
            ..self
        }
    }

    /// The session after the user has asked to open the selected link: the
    /// first match is selected if none was, and the link's URI waits to be
    /// handed out. Without matches nothing changes.
    pub open spec fn link_asked(self) -> StateModel {
        StateModel {
            search: self.search.selecting_any(),
            view: self.search.showing_any(self.view),
            link_request: if self.search.target().is_some() {
                self.search.target()
            } else {
                self.link_request
            },
            ..self
        }
    }

    /// The rows of the search pane.
    pub open spec fn search_height(self) -> int {
        search_rows(self.shared.searching, self.shared.term_height, self.search.matches.len())
    }

    /// The rows of the document pane.
    pub open spec fn doc_height(self) -> int {
        doc_rows(self.shared.searching, self.shared.term_height, self.search.matches.len())
    }
}

impl State {
    /// A session on a document, at its first row, with nothing searched for.
    pub fn new(doc: Rc<Document>, width: usize, height: usize) -> (state: State)
        ensures
            state@.valid(),
            state@ == StateModel::fresh(doc@, width, height),
    {
        let search = Search::new(Rc::clone(&doc));
        let view = DocumentView::new(Rc::clone(&doc), width, height);
        State {
            doc,
            view,
            search,
            last_error: None,
            shared: Shared::new(height),
            link_request: None,
            search_activate_line: 0,
        }
    }

    /// The search together with the view, to change both at once.
    pub fn search_mut(&mut self) -> (both: SearchMutator<'_>)
        ensures
            *both.search == old(self).search,
            *both.view == old(self).view,
            *final(self) == (State {
                search: *final(both.search),
                view: *final(both.view),
                ..*old(self)
            }),
    {
        SearchMutator { search: &mut self.search, view: &mut self.view }
    }

    /// Opens the search pane.
    pub fn open_search(&mut self)
        ensures
            final(self)@ == old(self)@.search_opened(),
    {
        self.shared.searching = true;
        self.search_activate_line = self.view.line();
        let mut both = self.search_mut();
        both.activate();
    }

    /// Closes the search pane; what is selected stays highlighted.
    pub fn close_search(&mut self)
        ensures
            final(self)@ == old(self)@.search_closed(),
    {
        self.shared.searching = false;
    }

    /// Closes the search pane and puts the page back where it stood when
    /// the pane was opened.
    pub fn cancel_search(&mut self)
        ensures
            final(self)@ == old(self)@.search_cancelled(),
    {
        self.close_search();
        self.view.scroll_to(self.search_activate_line);
    }

    /// The rows of the terminal above the status row.
    fn all_but_status_height(&self) -> (rows: u16)
        ensures
            rows == rows_above_status(self.shared.term_height),
    {
        let rows: u16 = if self.shared.term_height <= 65535 {
            self.shared.term_height as u16
        } else {
            65535
        };
        if rows >= 1 {
            rows - 1
        } else {
            0
        }
    }

    /// The rows of the search pane.
    pub fn search_height(&self) -> (rows: u16)
        ensures
            rows == self@.search_height(),
    {
        if self.shared.searching {
            let half: u16 = self.all_but_status_height() / 2;
            let matches: usize = self.search.matches().len();
            let wanted: u16 = if matches <= 10 {
                matches as u16 + 2
            } else {
                12
            };
            let fitting: u16 = if wanted <= half {
                wanted
            } else {
                half
            };
            if fitting >= 1 {
                fitting
            } else {
                1
            }
        } else {
            0
        }
    }

    /// The rows of the document pane.
    pub fn doc_height(&self) -> (rows: u16)
        ensures
            rows == self@.doc_height(),
    {
        let above: u16 = self.all_but_status_height();
        let search: u16 = self.search_height();
        if above >= search {
            above - search
        } else {
            0
        }
    }
}

} // verus!
