//! Search among the hyperlinks of a document.
//!
//! The links whose text holds the query are the matches; one of them may be
//! selected, and the selected one is highlighted in the view.

use crate::doc::{links_view, DocModel, Document};
use crate::order::{lemma_leading_below, lemma_leading_below_splits, leading_below, ascending};
use crate::text::{contains, occurs_in, slice, text_between};
use crate::view::{DocumentView, ViewModel};
use std::rc::Rc;
use vstd::prelude::*;
use vstd::string::*;

verus! {

/// The text of link `i` of a document.
pub open spec fn link_text(doc: DocModel, i: int) -> Seq<char> {
    text_between(doc.text, doc.links[i].start as int, doc.links[i].end as int)
}

/// Among the first `n` links of a document, those whose text holds the
/// query, by their indices and in their order.
pub open spec fn matching(doc: DocModel, query: Seq<char>, n: int) -> Seq<usize>
    decreases n,
{
    if n <= 0 {
        Seq::empty()
    } else if occurs_in(query, link_text(doc, n - 1)) {
        matching(doc, query, n - 1).push((n - 1) as usize)
    } else {
        matching(doc, query, n - 1)
    }
}

/// The links of a document whose text holds the query.
pub open spec fn matches_of(doc: DocModel, query: Seq<char>) -> Seq<usize> {
    matching(doc, query, doc.links.len() as int)
}

/// The link indices of a sequence of matches.
pub open spec fn link_indices(matches: Seq<usize>) -> Seq<int> {
    matches.map_values(|m: usize| m as int)
}

/// Matches are indices of links, each greater than the one before.
pub proof fn lemma_matching_ascends(doc: DocModel, query: Seq<char>, n: int)
    requires
        0 <= n <= usize::MAX,
    ensures
        matching(doc, query, n).len() <= n,
        forall|i: int| 0 <= i < matching(doc, query, n).len() ==> matching(doc, query, n)[i] < n,
        forall|i: int, j: int|
            0 <= i < j < matching(doc, query, n).len() ==> matching(doc, query, n)[i] < matching(
                doc,
                query,
                n,
            )[j],
    decreases n,
{
    if n > 0 {
        lemma_matching_ascends(doc, query, n - 1);
    }
}

/// Every link holds the empty query.
pub proof fn lemma_empty_query_matches_all(doc: DocModel, n: int)
    requires
        0 <= n <= usize::MAX,
    ensures
        matching(doc, Seq::empty(), n).len() == n,
        forall|i: int| 0 <= i < n ==> matching(doc, Seq::empty(), n)[i] == i,
    decreases n,
{
    if n > 0 {
        lemma_empty_query_matches_all(doc, n - 1);
        let hay = link_text(doc, n - 1);
        let needle = Seq::<char>::empty();
        assert(hay.subrange(0, 0 + needle.len() as int) =~= needle);
        assert(occurs_in(needle, hay));
    }
}

/// Whether some match is link `link` or a later one.
pub open spec fn some_at_or_after(matches: Seq<usize>, link: int) -> bool {
    exists|j: int| 0 <= j < matches.len() && #[trigger] matches[j] >= link
}

/// When the matches change, the selection does not fall back: if any match
/// is the link that was selected or a later one, the first such match is
/// selected; only without one is it the last match.
pub proof fn lemma_selection_stays_ahead(search: SearchModel, matches: Seq<usize>)
    requires
        ascending(link_indices(matches)),
        matches.len() <= usize::MAX,
    ensures
        matches.len() == 0 <==> search.reselection(matches).is_none(),
        search.reselection(matches).is_some() ==> {
            let idx = search.reselection(matches).unwrap() as int;
            let link = search.selected_link();
            &&& 0 <= idx < matches.len()
            &&& some_at_or_after(matches, link) ==> matches[idx] >= link
            &&& some_at_or_after(matches, link) ==> forall|j: int|
                0 <= j < idx ==> matches[j] < link
            &&& !some_at_or_after(matches, link) ==> idx == matches.len() - 1
        },
{
    let keys = link_indices(matches);
    let link = search.selected_link();
    lemma_leading_below_splits(keys, link);
    let first = leading_below(keys, link);
    if matches.len() > 0 {
        if first == matches.len() {
            assert forall|j: int| 0 <= j < matches.len() implies !(#[trigger] matches[j]
                >= link) by {
                assert(keys[j] < link);
            }
            assert(!some_at_or_after(matches, link));
        } else {
            assert(keys[first as int] >= link);
            assert(matches[first as int] >= link);
            assert(some_at_or_after(matches, link));
            assert forall|j: int| 0 <= j < first implies matches[j] < link by {
                assert(keys[j] < link);
            }
        }
    }
}

/// Adding a character to the query never moves the selection to a link
/// before the selected one, unless no match is left at or after it.
pub proof fn lemma_push_keeps_selection_ahead(search: SearchModel, c: char)
    requires
        search.valid(),
    ensures
        ({
            let next = search.asking(search.query.push(c));
            some_at_or_after(next.matches, search.selected_link()) ==> next.selected.is_some()
                && next.matches[next.selected.unwrap() as int] >= search.selected_link()
        }),
{
    let query = search.query.push(c);
    let matches = matches_of(search.doc, query);
    lemma_matching_ascends(search.doc, query, search.doc.links.len() as int);
    assert forall|i: int, j: int| 0 <= i <= j < link_indices(matches).len() implies link_indices(
        matches,
    )[i] <= link_indices(matches)[j] by {
        if i < j {
            assert(matches[i] < matches[j]);
        }
    }
    lemma_selection_stays_ahead(search, matches);
}

/// What a [`Search`] holds.
pub struct SearchModel {
    /// The document.
    pub doc: DocModel,
    /// The text to look for.
    pub query: Seq<char>,
    /// The links whose text holds the query, by their indices.
    pub matches: Seq<usize>,
    /// The selected match, by its index among the matches.
    pub selected: Option<usize>,
}

impl SearchModel {
    /// What holds of every search: the matches are the links that hold the
    /// query, and a selected match is one of them.
    pub open spec fn valid(self) -> bool {
        &&& self.doc.valid()
        &&& self.matches == matches_of(self.doc, self.query)
        &&& match self.selected {
            Some(idx) => idx < self.matches.len(),
            None => true,
        }
    }

    /// The search of a document with an empty query, which every link
    /// matches, and nothing selected.
    pub open spec fn fresh(doc: DocModel) -> SearchModel {
        SearchModel {
            doc,
            query: Seq::empty(),
            matches: matches_of(doc, Seq::empty()),
            selected: None,
        }
    }

    /// The index of the link that is selected; the first match while none
    /// is; link 0 without matches.
    pub open spec fn selected_link(self) -> int {
        if self.matches.len() > 0 {
            match self.selected {
                Some(idx) => self.matches[idx as int] as int,
                None => self.matches[0] as int,
            }
        } else {
            0
        }
    }

    /// The selected match, or the first while none is selected.
    pub open spec fn active_index(self) -> int {
        match self.selected {
            Some(idx) => idx as int,
            None => 0,
        }
    }

    /// The URI of the selected link, or of the first match while none is
    /// selected; nothing without matches.
    pub open spec fn target(self) -> Option<Seq<char>> {
        if self.matches.len() > 0 {
            Some(self.doc.links[self.selected_link()].uri)
        } else {
            None
        }
    }

    /// The search with the first match selected if none was.
    pub open spec fn selecting_any(self) -> SearchModel {
        if self.selected.is_none() {
            self.selecting(0)
        } else {
            self
        }
    }

    /// The view after the first match is selected if none was.
    pub open spec fn showing_any(self, view: ViewModel) -> ViewModel {
        if self.selected.is_none() {
            self.showing(view, 0)
        } else {
            view
        }
    }

    /// The match that comes after the selected one: the first after the
    /// last, and while none is selected.
    pub open spec fn next_index(self) -> int {
        match self.selected {
            Some(idx) if idx + 1 < self.matches.len() => idx + 1,
            _ => 0,
        }
    }

    /// The match that comes before the selected one: the last before the
    /// first, and while none is selected.
    pub open spec fn prev_index(self) -> int {
        match self.selected {
            Some(idx) if idx > 0 => idx - 1,
            _ => if self.matches.len() > 0 {
                self.matches.len() - 1
            } else {
                0
            },
        }
    }

    /// The search with match `idx` selected, if there is such a match.
    pub open spec fn selecting(self, idx: int) -> SearchModel {
        if 0 <= idx < self.matches.len() {
            SearchModel { selected: Some(idx as usize), ..self }
        } else {
            self
        }
    }

    /// The view after match `idx` is selected: the link is highlighted, if
    /// there is such a match.
    pub open spec fn showing(self, view: ViewModel, idx: int) -> ViewModel {
        if 0 <= idx < self.matches.len() {
            let link = self.doc.links[self.matches[idx] as int];
            view.highlighted(link.start, link.end)
        } else {
            view
        }
    }

    /// The match to select when the matches change: the first whose link is
    /// the selected link or comes after it; the last match if there is none;
    /// no match if there are no matches.
    pub open spec fn reselection(self, matches: Seq<usize>) -> Option<usize> {
        let first = leading_below(link_indices(matches), self.selected_link());
        if matches.len() == 0 {
            None
        } else if first == matches.len() {
            Some((matches.len() - 1) as usize)
        } else {
            Some(first as usize)
        }
    }

    /// The search after the query is replaced.
    pub open spec fn asking(self, query: Seq<char>) -> SearchModel {
        let matches = matches_of(self.doc, query);
        SearchModel { query, matches, selected: self.reselection(matches), ..self }
    }

    /// The view after the query is replaced: the newly selected link is
    /// highlighted, if there is one.
    pub open spec fn asking_view(self, view: ViewModel, query: Seq<char>) -> ViewModel {
        let next = self.asking(query);
        match next.selected {
            Some(idx) => next.showing(view, idx as int),
            None => view,
        }
    }
}

/// The links of a document whose text holds the query.
pub fn find_matches(doc: &Document, query: &str) -> (matches: Vec<usize>)
    ensures
        matches@ == matches_of(doc@, query@),
{
    proof {
        use_type_invariant(doc);
        doc.lemma_view_is_model();
    }
    let links = doc.links();
    let text = doc.text();
    let mut matches: Vec<usize> = Vec::new();
    let mut i: usize = 0;
    while i < links.len()
        invariant
            i <= links@.len(),
            doc@.valid(),
            text@ == doc@.text,
            links_view(links@) == doc@.links,
            matches@ == matching(doc@, query@, i as int),
        decreases links@.len() - i,
    {
        let link = &links[i];
        proof {
            assert(doc@.links[i as int] == links@[i as int]@);
        }
        let part = slice(text, link.start, link.end);
        if contains(part, query) {
            matches.push(i);
        }
        i += 1;
    }
    matches
}

/// The search among the links of a document.
pub struct Search {
    pub(crate) doc: Rc<Document>,
    pub(crate) query: String,
    pub(crate) selected_idx: Option<usize>,
    pub(crate) matches: Vec<usize>,
}

impl View for Search {
    type V = SearchModel;

    closed spec fn view(&self) -> SearchModel {
        self.model()
    }
}

impl Search {
    #[verifier::type_invariant]
    pub(crate) open spec fn inv(&self) -> bool {
        self.model().valid()
    }

    /// The same as the view, for the modules of this crate.
    pub(crate) open spec fn model(&self) -> SearchModel {
        SearchModel {
            doc: self.doc.model(),
            query: self.query@,
            matches: self.matches@,
            selected: self.selected_idx,
        }
    }

    /// The view of a search is its model.
    pub(crate) proof fn lemma_view_is_model(&self)
        ensures
            self@ == self.model(),
    {
    }

    /// A search with an empty query, which every link matches, and nothing
    /// selected.
    pub fn new(doc: Rc<Document>) -> (search: Search)
        ensures
            search@.valid(),
            search@ == SearchModel::fresh(doc@),
            search@.matches.len() == doc@.links.len(),
            forall|i: int| 0 <= i < search@.matches.len() ==> search@.matches[i] == i,
    {
        proof {
            use_type_invariant(&*doc);
            doc.lemma_view_is_model();
        }
        let query = String::new();
        let matches = find_matches(&doc, query.as_str());
        let links: usize = doc.links().len();
        proof {
            lemma_empty_query_matches_all(doc@, doc@.links.len() as int);
        }
        Search { doc, query, selected_idx: None, matches }
    }

    /// The text that is looked for.
    pub fn query(&self) -> (query: &str)
        ensures
            query@ == self@.query,
    {
        self.query.as_str()
    }

    /// The selected match, by its index among the matches.
    pub fn selected_idx(&self) -> (selected: Option<usize>)
        ensures
            selected == self@.selected,
    {
        self.selected_idx
    }

    /// The links whose text holds the query, by their indices.
    pub fn matches(&self) -> (matches: &[usize])
        ensures
            matches@ == self@.matches,
    {
        self.matches.as_slice()
    }

    /// The document.
    pub fn document(&self) -> (doc: &Rc<Document>)
        ensures
            doc@ == self@.doc,
    {
        proof {
            self.doc.lemma_view_is_model();
        }
        &self.doc
    }

    /// Selects match `selected_idx` and highlights its link in the view, if
    /// there is such a match.
    pub fn set_selected_idx(&mut self, selected_idx: usize, view: &mut DocumentView)
        ensures
            final(self)@.valid(),
            final(view)@.valid(),
            final(self)@ == old(self)@.selecting(selected_idx as int),
            final(view)@ == old(self)@.showing(old(view)@, selected_idx as int),
    {
        proof {
            use_type_invariant(&*self);
            use_type_invariant(&*view);
            use_type_invariant(&*self.doc);
            view.lemma_view_is_model();
            lemma_matching_ascends(
                self.doc.model(),
                self.query@,
                self.doc.model().links.len() as int,
            );
        }
        if selected_idx < self.matches.len() {
            let links: usize = self.doc.links.len();
            let link_idx: usize = self.matches[selected_idx];
            assert(link_idx < links);
            let start: usize = self.doc.links[link_idx].start;
            let end: usize = self.doc.links[link_idx].end;
            self.selected_idx = Some(selected_idx);
            view.highlight(start, end);
        }
    }

    /// Finds the matches anew after the query has changed, and moves the
    /// selection to the first match whose link is the selected link or comes
    /// after it; to the last match if there is none; to no match if there are
    /// no matches. The newly selected link is highlighted in the view.
    pub(crate) fn update_matches(&mut self, query: String, view: &mut DocumentView)
        ensures
            final(self)@.valid(),
            final(view)@.valid(),
            final(self)@ == old(self)@.asking(query@),
            final(view)@ == old(self)@.asking_view(old(view)@, query@),
    {
        proof {
            use_type_invariant(&*self);
            use_type_invariant(&*view);
            use_type_invariant(&*self.doc);
            view.lemma_view_is_model();
            self.doc.lemma_view_is_model();
        }
        let previous_link_idx: usize = if self.matches.len() > 0 {
            match self.selected_idx {
                Some(idx) => self.matches[idx],
                None => self.matches[0],
            }
        } else {
            0
        };
        let matches = find_matches(&self.doc, query.as_str());
        proof {
            lemma_matching_ascends(self.doc.model(), query@, self.doc.model().links.len() as int);
        }
        let first: usize = first_match_from(&matches, previous_link_idx);
        let selected: Option<usize> = if matches.len() == 0 {
            None
        } else if first == matches.len() {
            Some(matches.len() - 1)
        } else {
            Some(first)
        };
        let doc = Rc::clone(&self.doc);
        *self = Search { doc, query, selected_idx: selected, matches };
        match selected {
            Some(idx) => {
                self.set_selected_idx(idx, view);
            },
            None => {},
        }
    }
}

/// A search together with the view that shows its selection: changing the
/// one changes the other.
pub struct SearchMutator<'a> {
    pub search: &'a mut Search,
    pub view: &'a mut DocumentView,
}

impl<'a> SearchMutator<'a> {
    /// Selects the first match, if there is one, and highlights its link.
    pub fn activate(&mut self)
        ensures
            final(self).search@ == old(self).search@.selecting(0),
            final(self).view@ == old(self).search@.showing(old(self).view@, 0),
            final(self).search@.valid(),
            final(self).view@.valid(),
            *final(final(self).search) == *final(old(self).search),
            *final(final(self).view) == *final(old(self).view),
    {
        self.search.set_selected_idx(0, self.view);
    }

    /// The URI of the selected link, for the caller to open. Without a
    /// selection the first match is selected first; without matches there is
    /// nothing to open.
    pub fn open_selected(&mut self) -> (uri: Option<String>)
        ensures
            uri.is_some() == old(self).search@.target().is_some(),
            uri.is_some() ==> Some(uri.unwrap()@) == old(self).search@.target(),
            final(self).search@ == old(self).search@.selecting_any(),
            final(self).view@ == old(self).search@.showing_any(old(self).view@),
            final(self).search@.valid(),
            final(self).view@.valid(),
            *final(final(self).search) == *final(old(self).search),
            *final(final(self).view) == *final(old(self).view),
    {
        proof {
            use_type_invariant(&*self.search);
            use_type_invariant(&*self.view);
            self.view.lemma_view_is_model();
            use_type_invariant(&*self.search.doc);
            self.search.doc.lemma_view_is_model();
            lemma_matching_ascends(
                self.search.doc.model(),
                self.search.query@,
                self.search.doc.model().links.len() as int,
            );
        }
        if self.search.matches.len() == 0 {
            return None;
        }
        let selected_idx: usize = match self.search.selected_idx {
            Some(idx) => idx,
            None => {
                self.search.set_selected_idx(0, self.view);
                0
            },
        };
        let links: usize = self.search.doc.links.len();
        let link_idx: usize = self.search.matches[selected_idx];
        assert(link_idx < links);
        let uri = self.search.doc.links[link_idx].uri.clone();
        Some(uri)
    }

    /// Selects the match after the selected one, and the first after the
    /// last.
    pub fn select_next(&mut self)
        ensures
            final(self).search@ == old(self).search@.selecting(old(self).search@.next_index()),
            final(self).view@ == old(self).search@.showing(
                old(self).view@,
                old(self).search@.next_index(),
            ),
            final(self).search@.valid(),
            final(self).view@.valid(),
            *final(final(self).search) == *final(old(self).search),
            *final(final(self).view) == *final(old(self).view),
    {
        proof {
            use_type_invariant(&*self.search);
        }
        let count: usize = self.search.matches.len();
        let next: usize = match self.search.selected_idx {
            Some(idx) => if idx < count && idx + 1 < count {
                idx + 1
            } else {
                0
            },
            None => 0,
        };
        self.search.set_selected_idx(next, self.view);
    }

    /// Selects the match before the selected one, and the last before the
    /// first.
    pub fn select_prev(&mut self)
        ensures
            final(self).search@ == old(self).search@.selecting(old(self).search@.prev_index()),
            final(self).view@ == old(self).search@.showing(
                old(self).view@,
                old(self).search@.prev_index(),
            ),
            final(self).search@.valid(),
            final(self).view@.valid(),
            *final(final(self).search) == *final(old(self).search),
            *final(final(self).view) == *final(old(self).view),
    {
        proof {
            use_type_invariant(&*self.search);
        }
        let prev: usize = match self.search.selected_idx {
            Some(idx) if idx > 0 => idx - 1,
            _ => if self.search.matches.len() > 0 {
                self.search.matches.len() - 1
            } else {
                0
            },
        };
        self.search.set_selected_idx(prev, self.view);
    }

    /// Adds a character to the query and finds the matches anew.
    pub fn push_query_char(&mut self, c: char)
        ensures
            final(self).search@ == old(self).search@.asking(old(self).search@.query.push(c)),
            final(self).view@ == old(self).search@.asking_view(
                old(self).view@,
                old(self).search@.query.push(c),
            ),
            final(self).search@.valid(),
            final(self).view@.valid(),
            *final(final(self).search) == *final(old(self).search),
            *final(final(self).view) == *final(old(self).view),
    {
        let mut query = self.search.query.clone();
        query.push(c);
        self.search.update_matches(query, self.view);
    }

    /// Takes the last character off the query, if it has one, and finds the
    /// matches anew.
    pub fn pop_query_char(&mut self)
        ensures
            final(self).search@ == old(self).search@.asking(without_last(old(self).search@.query)),
            final(self).view@ == old(self).search@.asking_view(
                old(self).view@,
                without_last(old(self).search@.query),
            ),
            final(self).search@.valid(),
            final(self).view@.valid(),
            *final(final(self).search) == *final(old(self).search),
            *final(final(self).view) == *final(old(self).view),
    {
        let mut query = self.search.query.clone();
        let last = query.pop();
        self.search.update_matches(query, self.view);
    }

    /// Adds a string to the query and finds the matches anew.
    pub fn push_query_str(&mut self, s: &str)
        ensures
            final(self).search@ == old(self).search@.asking(old(self).search@.query + s@),
            final(self).view@ == old(self).search@.asking_view(
                old(self).view@,
                old(self).search@.query + s@,
            ),
            final(self).search@.valid(),
            final(self).view@.valid(),
            *final(final(self).search) == *final(old(self).search),
            *final(final(self).view) == *final(old(self).view),
    {
        let mut query = self.search.query.clone();
        query.append(s);
        self.search.update_matches(query, self.view);
    }
}

/// A text without its last character; an empty text as it is.
pub open spec fn without_last(text: Seq<char>) -> Seq<char> {
    if text.len() > 0 {
        text.drop_last()
    } else {
        text
    }
}

/// The index of the first match whose link is `link` or comes after it, by
/// binary search.
pub fn first_match_from(matches: &Vec<usize>, link: usize) -> (found: usize)
    requires
        ascending(link_indices(matches@)),
    ensures
        found == leading_below(link_indices(matches@), link as int),
        found <= matches@.len(),
{
    let ghost keys = link_indices(matches@);
    let mut low: usize = 0;
    let mut high: usize = matches.len();
    while low < high
        invariant
            keys == link_indices(matches@),
            ascending(keys),
            low <= high <= matches@.len(),
            forall|i: int| 0 <= i < low ==> keys[i] < link,
            forall|i: int| high <= i < keys.len() ==> keys[i] >= link,
        decreases high - low,
    {
        let mid: usize = low + (high - low) / 2;
        if matches[mid] < link {
            assert forall|i: int| 0 <= i < mid + 1 implies keys[i] < link by {
                assert(keys[i] <= keys[mid as int]);
            }
            low = mid + 1;
        } else {
            assert forall|i: int| mid <= i < keys.len() implies keys[i] >= link by {
                assert(keys[mid as int] <= keys[i]);
            }
            high = mid;
        }
    }
    proof {
        lemma_leading_below(keys, link as int, low as int);
    }
    low
}

} // verus!
