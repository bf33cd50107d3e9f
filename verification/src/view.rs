//! The view of a document: its rows at the current width, the scroll
//! position, and the highlighted ranges.

use crate::doc::{DocModel, Document};
use crate::flow::{
    flow_clusters, flow_model, lemma_flow_styles, lemma_rows_on_boundaries, rows_styled, Line,
};
use crate::order::{ascending, lemma_leading_below, leading_below};
use crate::render::range_ends;
use crate::style::StyleChange;
use crate::text::{
    byte_len, clusters_of, clusters_view, lemma_cluster_boundary, on_boundary, segment,
};
use std::rc::Rc;
use vstd::prelude::*;

verus! {

/// The first bytes of a sequence of rows.
pub open spec fn line_starts(lines: Seq<Line>) -> Seq<int> {
    lines.map_values(|l: Line| l.start_byte as int)
}

/// Whether rows begin at the start of the text, one after the other, each
/// between two characters of the text.
pub open spec fn rows_fit(lines: Seq<Line>, text: Seq<char>) -> bool {
    &&& lines.len() > 0
    &&& lines[0].start_byte == 0
    &&& ascending(line_starts(lines))
    &&& forall|i: int|
        0 <= i < lines.len() ==> on_boundary(text, (#[trigger] lines[i]).start_byte as int)
}

/// The index of the row that holds `byte`: the last row that begins at or
/// before it.
pub open spec fn row_of(lines: Seq<Line>, byte: int) -> int {
    leading_below(line_starts(lines), byte + 1) - 1
}

/// The first row to show so that row `row` is seen with three rows around
/// it: the page stays where it is if the row is at least three rows from
/// either edge, and else begins three rows before it.
pub open spec fn line_showing(line: int, height: int, row: int) -> int {
    let above = if row >= 3 {
        row - 3
    } else {
        0
    };
    if above < line || row + 3 > line + height {
        above
    } else {
        line
    }
}

/// The first row of the page after going forward by `lines` rows, and by one
/// at least: never past the last full page.
pub open spec fn line_forward(line: int, height: int, rows: int, lines: int) -> int {
    let last = if rows >= height {
        rows - height
    } else {
        0
    };
    let next = line + if lines >= 1 {
        lines
    } else {
        1
    };
    if last <= next {
        last
    } else {
        next
    }
}

/// How far down the document the page is, as a percentage of the way to the
/// last full page.
pub open spec fn percent_of(line: int, height: int, rows: int) -> int {
    if line == 0 || rows <= height {
        0
    } else if line == rows - height {
        100
    } else {
        let percent = (100 * line) / (rows - height);
        if percent > 255 {
            255
        } else {
            percent
        }
    }
}

/// What a [`DocumentView`] holds.
pub struct ViewModel {
    /// The document.
    pub doc: DocModel,
    /// The first row shown.
    pub line: usize,
    /// The columns of a row.
    pub width: usize,
    /// The rows of a page.
    pub height: usize,
    /// The highlighted byte ranges.
    pub highlights: Seq<(usize, usize)>,
    /// The rows of the document at this width.
    pub lines: Seq<Line>,
}

impl ViewModel {
    /// What holds of every view: the rows are those of the document at the
    /// view's width, and the first row shown is one of them or lies right
    /// behind the last.
    pub open spec fn valid(self) -> bool {
        &&& self.doc.valid()
        &&& self.lines == flow_model(self.width as nat, clusters_of(self.doc.text), self.doc.attrs)
        &&& rows_fit(self.lines, self.doc.text)
        &&& rows_styled(self.lines, self.doc.attrs)
        &&& self.line <= self.lines.len()
        &&& ascending(range_ends(self.highlights))
    }

    /// The view of a document at its first row, with nothing highlighted.
    pub open spec fn fresh(doc: DocModel, width: usize, height: usize) -> ViewModel {
        ViewModel {
            doc,
            line: 0,
            width,
            height,
            highlights: Seq::empty(),
            lines: flow_model(width as nat, clusters_of(doc.text), doc.attrs),
        }
    }

    /// The view scrolled back by `lines` rows, and to the first row at most.
    pub open spec fn scrolled_back(self, lines: usize) -> ViewModel {
        ViewModel {
            line: if self.line >= lines {
                (self.line - lines) as usize
            } else {
                0
            },
            ..self
        }
    }

    /// The view scrolled forward by `lines` rows, by one at least, and to
    /// the last full page at most.
    pub open spec fn scrolled_forward(self, lines: usize) -> ViewModel {
        ViewModel {
            line: line_forward(
                self.line as int,
                self.height as int,
                self.lines.len() as int,
                lines as int,
            ) as usize,
            ..self
        }
    }

    /// The view with its page at row `line`, or at the end of the rows if
    /// there are fewer.
    pub open spec fn placed_at(self, line: usize) -> ViewModel {
        ViewModel {
            line: if line <= self.lines.len() {
                line
            } else {
                self.lines.len() as usize
            },
            ..self
        }
    }

    /// The view at a new size: the rows are those of the document at the new
    /// width, and the page stays at its row, or at the end of the rows if
    /// there are now fewer.
    pub open spec fn resized(self, width: usize, height: usize) -> ViewModel {
        let lines = flow_model(width as nat, clusters_of(self.doc.text), self.doc.attrs);
        ViewModel { width, height, lines, ..self }.placed_at(self.line)
    }

    /// The view with the bytes from `start` up to `end` highlighted, in place
    /// of whatever was, and scrolled so that the row of `start` is seen with
    /// three rows around it.
    pub open spec fn highlighted(self, start: usize, end: usize) -> ViewModel {
        ViewModel {
            highlights: seq![(start, end)],
            line: line_showing(
                self.line as int,
                self.height as int,
                row_of(self.lines, start as int),
            ) as usize,
            ..self
        }
    }
}

/// A document as it is shown: wrapped to a width, scrolled to a row, with
/// ranges of it highlighted.
pub struct DocumentView {
    pub(crate) highlights: Vec<(usize, usize)>,
    pub(crate) line: usize,
    pub(crate) width: usize,
    pub(crate) doc: Rc<Document>,
    pub(crate) height: usize,
    pub(crate) lines: Vec<Line>,
}

impl View for DocumentView {
    type V = ViewModel;

    closed spec fn view(&self) -> ViewModel {
        self.model()
    }
}

impl DocumentView {
    #[verifier::type_invariant]
    pub(crate) open spec fn inv(&self) -> bool {
        self.model().valid()
    }

    /// The same as the view, for the modules of this crate.
    pub(crate) open spec fn model(&self) -> ViewModel {
        ViewModel {
            doc: self.doc.model(),
            line: self.line,
            width: self.width,
            height: self.height,
            highlights: self.highlights@,
            lines: self.lines@,
        }
    }

    /// The view of a document view is its model.
    pub(crate) proof fn lemma_view_is_model(&self)
        ensures
            self@ == self.model(),
    {
    }

    /// Finds the rows of a text at a width.
    pub fn flow(width: usize, text: &str, attrs: &Vec<(usize, StyleChange)>) -> (lines: Vec<Line>)
        ensures
            lines@ == flow_model(width as nat, clusters_of(text@), attrs@),
            rows_fit(lines@, text@),
            rows_styled(lines@, attrs@),
    {
        let clusters = segment(text);
        let len: usize = byte_len(text);
        proof {
            lemma_cluster_boundary(clusters_view(clusters@), text@, clusters@.len() as int);
        }
        let lines = flow_clusters(width, &clusters, attrs);
        proof {
            lemma_rows_on_boundaries(lines@, clusters_view(clusters@), text@);
            lemma_flow_styles(width as nat, clusters_view(clusters@), attrs@, text@);
            assert forall|i: int, j: int| 0 <= i <= j < line_starts(lines@).len() implies line_starts(
                lines@,
            )[i] <= line_starts(lines@)[j] by {
                assert(lines@[i].start_byte <= lines@[j].start_byte);
            }
        }
        lines
    }

    /// A view of the document at its first row, with nothing highlighted.
    pub fn new(doc: Rc<Document>, width: usize, height: usize) -> (view: DocumentView)
        ensures
            view@.valid(),
            view@ == ViewModel::fresh(doc@, width, height),
    {
        proof {
            use_type_invariant(&*doc);
            doc.lemma_view_is_model();
        }
        let lines = DocumentView::flow(width, doc.text(), doc.attrs());
        let highlights: Vec<(usize, usize)> = Vec::new();
        assert(range_ends(highlights@) =~= Seq::<int>::empty());
        assert(highlights@ =~= Seq::<(usize, usize)>::empty());
        DocumentView { doc, width, height, line: 0, highlights, lines }
    }

    /// Highlights the bytes from `start` up to `end`, in place of whatever was
    /// highlighted, and scrolls so that the row of `start` is seen with three
    /// rows around it.
    pub fn highlight(&mut self, start: usize, end: usize)
        ensures
            final(self)@.valid(),
            final(self)@ == old(self)@.highlighted(start, end),
    {
        proof {
            use_type_invariant(&*self);
        }
        let row: usize = self.find_line(start);
        let mut highlights: Vec<(usize, usize)> = Vec::new();
        highlights.push((start, end));
        assert(highlights@ =~= seq![(start, end)]);
        assert(ascending(range_ends(highlights@)));
        self.highlights = highlights;
        self.make_line_visible(row);
    }

    /// Scrolls back by `lines` rows, and to the first row at most.
    pub fn backward(&mut self, lines: usize)
        ensures
            final(self)@.valid(),
            final(self)@ == old(self)@.scrolled_back(lines),
    {
        proof {
            use_type_invariant(&*self);
        }
        self.line = if self.line >= lines {
            self.line - lines
        } else {
            0
        };
    }

    /// Scrolls forward by `lines` rows, by one at least, and to the last full
    /// page at most.
    pub fn forward(&mut self, lines: usize)
        ensures
            final(self)@.valid(),
            final(self)@ == old(self)@.scrolled_forward(lines),
    {
        proof {
            use_type_invariant(&*self);
        }
        let rows: usize = self.lines.len();
        let last: usize = if rows >= self.height {
            rows - self.height
        } else {
            0
        };
        let step: usize = if lines >= 1 {
            lines
        } else {
            1
        };
        self.line = if step >= last || self.line >= last - step {
            last
        } else {
            self.line + step
        };
    }

    /// Scrolls so that row `line` is seen with three rows around it.
    fn make_line_visible(&mut self, line: usize)
        requires
            line < old(self).lines@.len(),
        ensures
            final(self).model() == (ViewModel {
                line: line_showing(
                    old(self).line as int,
                    old(self).height as int,
                    line as int,
                ) as usize,
                ..old(self).model()
            }),
    {
        proof {
            use_type_invariant(&*self);
        }
        let above: usize = if line >= 3 {
            line - 3
        } else {
            0
        };
        let below_page = if line >= self.line {
            // line + 3 > self.line + self.height
            line - self.line > self.height || (self.height >= 3 && line - self.line > self.height
                - 3) || self.height < 3
        } else {
            // line < self.line, so line + 3 > self.line + self.height only if
            // the page has fewer than three rows
            self.height < 3 && self.line - line < 3 - self.height
        };
        if above < self.line || below_page {
            self.line = above;
        }
    }

    /// Takes a new size. The rows are found anew if the width has changed,
    /// and the page stays at its row, or at the end of the rows if there are
    /// now fewer.
    pub fn set_size(&mut self, width: usize, height: usize)
        ensures
            final(self)@.valid(),
            final(self)@ == old(self)@.resized(width, height),
    {
        proof {
            use_type_invariant(&*self);
            use_type_invariant(&*self.doc);
            self.doc.lemma_view_is_model();
        }
        self.height = height;
        if width == self.width {
            return ;
        }
        let lines = DocumentView::flow(width, self.doc.text(), self.doc.attrs());
        let line: usize = if self.line <= lines.len() {
            self.line
        } else {
            lines.len()
        };
        let doc = Rc::clone(&self.doc);
        let mut highlights: Vec<(usize, usize)> = Vec::new();
        std::mem::swap(&mut highlights, &mut self.highlights);
        *self = DocumentView { doc, width, height, line, highlights, lines };
    }

    /// Moves the page to row `line`, or to the end of the rows if there are
    /// fewer.
    pub fn scroll_to(&mut self, line: usize)
        ensures
            final(self)@.valid(),
            final(self)@ == old(self)@.placed_at(line),
    {
        proof {
            use_type_invariant(&*self);
        }
        self.line = if line <= self.lines.len() {
            line
        } else {
            self.lines.len()
        };
    }

    /// The document.
    pub fn document(&self) -> (doc: &Rc<Document>)
        ensures
            doc@ == self@.doc,
    {
        proof {
            self.doc.lemma_view_is_model();
        }
        &self.doc
    }

    /// The highlighted byte ranges.
    pub fn highlights(&self) -> (highlights: &[(usize, usize)])
        ensures
            highlights@ == self@.highlights,
    {
        self.highlights.as_slice()
    }

    /// The first row shown.
    pub fn line(&self) -> (line: usize)
        ensures
            line == self@.line,
    {
        self.line
    }

    /// The columns of a row.
    pub fn width(&self) -> (width: usize)
        ensures
            width == self@.width,
    {
        self.width
    }

    /// The rows of a page.
    pub fn height(&self) -> (height: usize)
        ensures
            height == self@.height,
    {
        self.height
    }

    /// The rows of the document at the current width.
    pub fn lines(&self) -> (lines: &[Line])
        ensures
            lines@ == self@.lines,
    {
        self.lines.as_slice()
    }

    /// The index of the row that holds `byte`, by binary search.
    pub fn find_line(&self, byte: usize) -> (row: usize)
        ensures
            row == row_of(self@.lines, byte as int),
            row < self@.lines.len(),
    {
        proof {
            use_type_invariant(self);
        }
        let ghost keys = line_starts(self.lines@);
        let mut low: usize = 0;
        let mut high: usize = self.lines.len();
        while low < high
            invariant
                keys == line_starts(self.lines@),
                ascending(keys),
                low <= high <= self.lines@.len(),
                forall|i: int| 0 <= i < low ==> keys[i] <= byte,
                forall|i: int| high <= i < keys.len() ==> keys[i] > byte,
            decreases high - low,
        {
            let mid: usize = low + (high - low) / 2;
            if self.lines[mid].start_byte <= byte {
                assert forall|i: int| 0 <= i < mid + 1 implies keys[i] <= byte by {
                    assert(keys[i] <= keys[mid as int]);
                }
                low = mid + 1;
            } else {
                assert forall|i: int| mid <= i < keys.len() implies keys[i] > byte by {
                    assert(keys[mid as int] <= keys[i]);
                }
                high = mid;
            }
        }
        proof {
            lemma_leading_below(keys, byte as int + 1, low as int);
            assert(keys[0] == 0);
        }
        low - 1
    }

    /// How far down the document the page is, as a percentage of the way to
    /// the last full page: 0 at the first row and where the document fits on
    /// one page, 100 on the last full page.
    pub fn percent(&self) -> (percent: Option<u8>)
        ensures
            percent == Some(
                percent_of(
                    self@.line as int,
                    self@.height as int,
                    self@.lines.len() as int,
                ) as u8,
            ),
    {
        if self.line == 0 || self.lines.len() <= self.height {
            return Some(0);
        }
        let final_page_line: usize = self.lines.len() - self.height;
        if final_page_line == self.line {
            Some(100)
        } else {
            let scaled: u128 = 100 * (self.line as u128);
            let percent: u128 = scaled / (final_page_line as u128);
            if percent > 255 {
                Some(255)
            } else {
                Some(percent as u8)
            }
        }
    }
}

} // verus!
