//! Text measured in bytes and cut into grapheme clusters.
//!
//! Offsets into a text are byte offsets into its UTF-8 encoding. A text is
//! cut into clusters by the segmentation library, and each cluster is given a
//! width in terminal columns by the terminal library.

use finl_unicode::grapheme_clusters::Graphemes;
use termwiz::cell::{grapheme_column_width, unicode_column_width};
use vstd::prelude::*;
use vstd::seq_lib::*;
use vstd::string::*;
use vstd::utf8::*;

verus! {

/// `String::push` appends the character to the end of the string.
pub assume_specification[ String::push ](s: &mut String, c: char)
    ensures
        final(s)@ == old(s)@.push(c),
;

/// `String::pop` removes the last character and returns it, or returns
/// nothing for an empty string.
pub assume_specification[ String::pop ](s: &mut String) -> (last: Option<char>)
    ensures
        old(s)@.len() == 0 ==> last.is_none() && final(s)@ == old(s)@,
        old(s)@.len() > 0 ==> last == Some(old(s)@.last()) && final(s)@ == old(s)@.drop_last(),
;

/// The number of bytes of the UTF-8 encoding of `chars`.
pub open spec fn utf8_len(chars: Seq<char>) -> nat {
    encode_utf8(chars).len()
}

/// Whether `offset` falls between two characters of `text`, or at either end.
pub open spec fn on_boundary(text: Seq<char>, offset: int) -> bool {
    is_char_boundary(encode_utf8(text), offset)
}

/// The characters of `text` from byte `offset` on.
pub open spec fn text_from(text: Seq<char>, offset: int) -> Seq<char> {
    decode_utf8(encode_utf8(text).subrange(offset, encode_utf8(text).len() as int))
}

/// The characters of `text` before byte `offset`.
pub open spec fn text_until(text: Seq<char>, offset: int) -> Seq<char> {
    decode_utf8(encode_utf8(text).subrange(0, offset))
}

/// Encoding a concatenation gives the concatenation of the encodings.
pub proof fn lemma_encode_concat(a: Seq<char>, b: Seq<char>)
    ensures
        encode_utf8(a + b) == encode_utf8(a) + encode_utf8(b),
    decreases a.len(),
{
    if a.len() == 0 {
        assert(a + b =~= b);
        assert(encode_utf8(a) + encode_utf8(b) =~= encode_utf8(b));
    } else {
        lemma_encode_concat(a.drop_first(), b);
        assert((a + b).drop_first() =~= a.drop_first() + b);
        assert((a + b)[0] == a[0]);
        assert(encode_utf8(a + b) =~= encode_utf8(a) + encode_utf8(b));
    }
}

/// Encoding one more character appends its bytes.
pub proof fn lemma_encode_push(a: Seq<char>, c: char)
    ensures
        encode_utf8(a.push(c)) == encode_utf8(a) + encode_utf8(seq![c]),
        utf8_len(a.push(c)) == utf8_len(a) + utf8_len(seq![c]),
        utf8_len(seq![c]) >= 1,
{
    lemma_encode_concat(a, seq![c]);
    assert(a.push(c) =~= a + seq![c]);
    let one = seq![c];
    assert(one.drop_first() =~= Seq::<char>::empty());
    assert(encode_utf8(one.drop_first()) =~= Seq::<u8>::empty());
    assert(one[0] == c);
    assert(encode_utf8(one) =~= encode_scalar(c as u32));
}

/// A text that is not empty takes at least one byte.
pub proof fn lemma_nonempty_bytes(text: Seq<char>)
    requires
        text.len() > 0,
    ensures
        utf8_len(text) > 0,
{
    let head = text.take(text.len() - 1);
    assert(text =~= head.push(text.last()));
    lemma_encode_push(head, text.last());
}

/// A boundary of a text stays one when more text follows.
pub proof fn lemma_boundary_extends(b: Seq<u8>, more: Seq<u8>, k: int)
    requires
        valid_utf8(b),
        valid_utf8(more),
        is_char_boundary(b, k),
    ensures
        is_char_boundary(b + more, k),
    decreases b.len(),
{
    valid_utf8_concat(b, more);
    if k != 0 {
        let n = length_of_first_scalar(b);
        let rest = pop_first_scalar(b);
        assert(0 < k <= b.len());
        assert(rest.len() < b.len());
        assert(pop_first_scalar(b + more) =~= rest + more);
        assert(length_of_first_scalar(b + more) == n);
        lemma_boundary_extends(rest, more, k - n);
    }
}

/// The end of a piece of text is a boundary of any text that starts with it.
pub proof fn lemma_prefix_boundary(head: Seq<char>, tail: Seq<char>)
    ensures
        on_boundary(head + tail, utf8_len(head) as int),
        utf8_len(head + tail) == utf8_len(head) + utf8_len(tail),
        text_from(head + tail, utf8_len(head) as int) == tail,
        text_until(head + tail, utf8_len(head) as int) == head,
{
    let h = encode_utf8(head);
    let t = encode_utf8(tail);
    lemma_encode_concat(head, tail);
    encode_utf8_valid_utf8(head);
    encode_utf8_valid_utf8(tail);
    is_char_boundary_start_end_of_seq(h);
    lemma_boundary_extends(h, t, h.len() as int);
    assert((h + t).subrange(h.len() as int, (h + t).len() as int) =~= t);
    assert((h + t).subrange(0, h.len() as int) =~= h);
    encode_utf8_decode_utf8(tail);
    encode_utf8_decode_utf8(head);
}

/// A text splits at any of its boundaries into the text before and after.
pub proof fn lemma_split_at_boundary(text: Seq<char>, offset: int)
    requires
        on_boundary(text, offset),
    ensures
        0 <= offset <= utf8_len(text),
        text == text_until(text, offset) + text_from(text, offset),
        utf8_len(text_until(text, offset)) == offset,
        encode_utf8(text_from(text, offset)) == encode_utf8(text).subrange(
            offset,
            utf8_len(text) as int,
        ),
        encode_utf8(text_until(text, offset)) == encode_utf8(text).subrange(0, offset),
{
    let bytes = encode_utf8(text);
    encode_utf8_valid_utf8(text);
    lemma_boundary_in_range(bytes, offset);
    valid_utf8_split(bytes, offset);
    decode_utf8_split(bytes, offset);
    encode_utf8_decode_utf8(text);
    decode_utf8_encode_utf8(bytes.subrange(0, offset));
    decode_utf8_encode_utf8(bytes.subrange(offset, bytes.len() as int));
}

/// A boundary lies within the text.
pub proof fn lemma_boundary_in_range(bytes: Seq<u8>, k: int)
    requires
        valid_utf8(bytes),
        is_char_boundary(bytes, k),
    ensures
        0 <= k <= bytes.len(),
{
}

/// The characters of `text` from byte `start` up to byte `end`.
pub open spec fn text_between(text: Seq<char>, start: int, end: int) -> Seq<char> {
    decode_utf8(encode_utf8(text).subrange(start, end))
}

/// A boundary of a text is one of each piece of the text that reaches it.
pub proof fn lemma_boundary_restricts(b: Seq<u8>, more: Seq<u8>, k: int)
    requires
        valid_utf8(b),
        valid_utf8(more),
        0 <= k <= b.len(),
        is_char_boundary(b + more, k),
    ensures
        is_char_boundary(b, k),
    decreases b.len(),
{
    valid_utf8_concat(b, more);
    if k != 0 {
        let n = length_of_first_scalar(b);
        let rest = pop_first_scalar(b);
        assert(rest.len() < b.len());
        assert(pop_first_scalar(b + more) =~= rest + more);
        assert(length_of_first_scalar(b + more) == n);
        assert(is_char_boundary(rest + more, k - n));
        lemma_boundary_in_range(rest + more, k - n);
        lemma_boundary_restricts(rest, more, k - n);
    }
}

/// The text up to a boundary is the text up to an earlier boundary and the
/// text between the two.
pub proof fn lemma_text_until_grows(text: Seq<char>, a: int, b: int)
    requires
        a <= b,
        on_boundary(text, a),
        on_boundary(text, b),
    ensures
        text_until(text, b) == text_until(text, a) + text_between(text, a, b),
{
    let bytes = encode_utf8(text);
    encode_utf8_valid_utf8(text);
    lemma_boundary_in_range(bytes, a);
    lemma_boundary_in_range(bytes, b);
    valid_utf8_split(bytes, b);
    let head = bytes.subrange(0, b);
    let more = bytes.subrange(b, bytes.len() as int);
    assert(head + more =~= bytes);
    lemma_boundary_restricts(head, more, a);
    decode_utf8_split(head, a);
    assert(head.subrange(0, a) =~= bytes.subrange(0, a));
    assert(head.subrange(a, head.len() as int) =~= bytes.subrange(a, b));
}

/// The start and the end of a text are boundaries of it.
pub proof fn lemma_end_boundary(text: Seq<char>)
    ensures
        on_boundary(text, utf8_len(text) as int),
        on_boundary(text, 0),
{
    encode_utf8_valid_utf8(text);
    is_char_boundary_start_end_of_seq(encode_utf8(text));
}

/// The text up to its end is the whole text.
pub proof fn lemma_text_until_end(text: Seq<char>)
    ensures
        text_until(text, utf8_len(text) as int) == text,
        text_until(text, 0) == Seq::<char>::empty(),
{
    let bytes = encode_utf8(text);
    assert(bytes.subrange(0, bytes.len() as int) =~= bytes);
    encode_utf8_decode_utf8(text);
    assert(bytes.subrange(0, 0) =~= Seq::<u8>::empty());
    assert(decode_utf8(Seq::<u8>::empty()) =~= Seq::<char>::empty());
}

/// The part of a string from byte `start` on.
pub fn tail<'a>(text: &'a str, start: usize) -> (part: &'a str)
    requires
        on_boundary(text@, start as int),
    ensures
        part@ == text_from(text@, start as int),
{
    let (_, part) = text.split_at(start);
    proof {
        encode_utf8_decode_utf8(part@);
    }
    part
}

/// The part of a string from byte `start` up to byte `end`.
pub fn slice<'a>(text: &'a str, start: usize, end: usize) -> (part: &'a str)
    requires
        start <= end,
        on_boundary(text@, start as int),
        on_boundary(text@, end as int),
    ensures
        part@ == text_between(text@, start as int, end as int),
{
    let ghost bytes = encode_utf8(text@);
    let (head, _) = text.split_at(end);
    proof {
        encode_utf8_valid_utf8(text@);
        lemma_boundary_in_range(bytes, end as int);
        valid_utf8_split(bytes, end as int);
        let b = bytes.subrange(0, end as int);
        let more = bytes.subrange(end as int, bytes.len() as int);
        assert(b + more =~= bytes);
        lemma_boundary_restricts(b, more, start as int);
    }
    let (_, part) = head.split_at(start);
    proof {
        assert(bytes.subrange(0, end as int).subrange(start as int, end as int) =~= bytes.subrange(
            start as int,
            end as int,
        ));
        encode_utf8_decode_utf8(part@);
    }
    part
}

/// Whether `needle` occurs in `hay` as a run of consecutive characters.
pub open spec fn occurs_in(needle: Seq<char>, hay: Seq<char>) -> bool {
    exists|k: int|
        0 <= k <= hay.len() - needle.len() && #[trigger] hay.subrange(k, k + needle.len() as int)
            == needle
}

/// `str::contains` with a string as the pattern: whether the pattern matches
/// a sub-slice of the string.
#[verifier::external_body]
pub(crate) fn contains(hay: &str, needle: &str) -> (found: bool)
    ensures
        found == occurs_in(needle@, hay@),
{
    hay.contains(needle)
}

/// The number of bytes of a string.
pub fn byte_len(s: &str) -> (n: usize)
    ensures
        n == utf8_len(s@),
{
    s.as_bytes().len()
}

/// Whether a string is a single line feed.
pub fn is_line_feed(s: &str) -> (found: bool)
    ensures
        found == (s@ == seq!['\n']),
{
    if s.unicode_len() == 1 {
        let c = s.get_char(0);
        assert(c == '\n' ==> s@ =~= seq!['\n']);
        c == '\n'
    } else {
        false
    }
}

/// A grapheme cluster of a text with the terminal columns that it takes.
#[derive(Clone, Copy, Debug, PartialEq, Eq)]
pub struct Cluster<'a> {
    pub text: &'a str,
    pub cells: usize,
}

/// A [`Cluster`] with its text as a sequence of characters.
pub struct ClusterModel {
    pub text: Seq<char>,
    pub cells: nat,
}

impl ClusterModel {
    /// The number of bytes that the cluster takes in its text.
    pub open spec fn bytes(self) -> nat {
        utf8_len(self.text)
    }

    /// Whether the cluster is a line feed, which ends a row and shows nothing.
    pub open spec fn is_line_feed(self) -> bool {
        self.text == seq!['\n']
    }
}

impl<'a> View for Cluster<'a> {
    type V = ClusterModel;

    open spec fn view(&self) -> ClusterModel {
        ClusterModel { text: self.text@, cells: self.cells as nat }
    }
}

/// The models of a sequence of clusters.
pub open spec fn clusters_view(clusters: Seq<Cluster<'_>>) -> Seq<ClusterModel> {
    clusters.map_values(|c: Cluster<'_>| c@)
}

/// The texts of a sequence of clusters.
pub open spec fn texts(clusters: Seq<ClusterModel>) -> Seq<Seq<char>> {
    clusters.map_values(|c: ClusterModel| c.text)
}

/// The characters of a sequence of strings.
pub open spec fn strs_view(strs: Seq<&str>) -> Seq<Seq<char>> {
    strs.map_values(|s: &str| s@)
}

/// The grapheme clusters into which the segmentation library cuts a text.
pub uninterp spec fn grapheme_clusters(text: Seq<char>) -> Seq<Seq<char>>;

/// The terminal columns that the terminal library gives a grapheme cluster.
pub uninterp spec fn column_width(cluster: Seq<char>) -> nat;

/// Collects what `finl_unicode::grapheme_clusters::Graphemes::new` iterates
/// over. The iterator is a function of the text, so what it yields has a
/// name, [`grapheme_clusters`]. It hands out successive slices of the text,
/// each from where the last one ended, each of at least one character, until
/// the text is used up: the slices put together are the text.
#[verifier::external_body]
fn graphemes<'a>(text: &'a str) -> (clusters: Vec<&'a str>)
    ensures
        strs_view(clusters@) == grapheme_clusters(text@),
        strs_view(clusters@).flatten() == text@,
        forall|i: int| 0 <= i < clusters@.len() ==> (#[trigger] clusters@[i])@.len() > 0,
{
    Graphemes::new(text).collect()
}

/// Calls `termwiz::cell::grapheme_column_width` for the latest Unicode
/// version. The width is a function of the cluster, so it has a name,
/// [`column_width`]; nothing else is claimed.
#[verifier::external_body]
fn cell_width(cluster: &str) -> (cells: usize)
    ensures
        cells == column_width(cluster@),
{
    grapheme_column_width(cluster, None)
}

/// A line feed takes one byte.
pub proof fn lemma_line_feed_len(cluster: ClusterModel)
    requires
        cluster.is_line_feed(),
    ensures
        cluster.bytes() == 1,
{
    let one = seq!['\n'];
    assert(one.drop_first() =~= Seq::<char>::empty());
    assert(encode_utf8(one.drop_first()) =~= Seq::<u8>::empty());
    assert(one[0] as u32 == 10u32);
    assert(has_width_1_encoding(10u32));
    assert(encode_utf8(one) =~= encode_scalar(10u32));
}

/// The terminal columns that the first `k` clusters take together.
pub open spec fn total_cells(clusters: Seq<ClusterModel>, k: int) -> nat
    decreases k,
{
    if k <= 0 {
        0
    } else {
        total_cells(clusters, k - 1) + clusters[k - 1].cells
    }
}

/// The terminal columns that a text takes: those of its clusters together.
pub open spec fn width_of(text: Seq<char>) -> nat {
    total_cells(clusters_of(text), clusters_of(text).len() as int)
}

/// Calls `termwiz::cell::unicode_column_width` for the latest Unicode
/// version, which cuts the text into its grapheme clusters, calls
/// `grapheme_column_width` for each and sums up what they return.
#[verifier::external_body]
pub(crate) fn text_width(text: &str) -> (cells: usize)
    ensures
        cells == width_of(text@),
{
    unicode_column_width(text, None)
}

/// The clusters of a text, each with its width.
pub open spec fn clusters_of(text: Seq<char>) -> Seq<ClusterModel> {
    grapheme_clusters(text).map_values(
        |g: Seq<char>| ClusterModel { text: g, cells: column_width(g) },
    )
}

/// Whether the clusters, put together, are the text, and none is empty.
pub open spec fn covers(clusters: Seq<ClusterModel>, text: Seq<char>) -> bool {
    &&& texts(clusters).flatten() == text
    &&& forall|i: int| 0 <= i < clusters.len() ==> (#[trigger] clusters[i]).text.len() > 0
}

/// Cuts a text into its grapheme clusters and measures each.
pub fn segment<'a>(text: &'a str) -> (clusters: Vec<Cluster<'a>>)
    ensures
        clusters_view(clusters@) == clusters_of(text@),
        covers(clusters_view(clusters@), text@),
{
    let parts = graphemes(text);
    let mut clusters: Vec<Cluster<'a>> = Vec::new();
    let mut i: usize = 0;
    while i < parts.len()
        invariant
            i <= parts@.len(),
            clusters@.len() == i,
            forall|j: int| 0 <= j < i ==> (#[trigger] clusters@[j]).text@ == parts@[j]@,
            forall|j: int|
                0 <= j < i ==> (#[trigger] clusters@[j]).cells == column_width(parts@[j]@),
        decreases parts@.len() - i,
    {
        let part = parts[i];
        let cells = cell_width(part);
        clusters.push(Cluster { text: part, cells });
        i += 1;
    }
    proof {
        let views = clusters_view(clusters@);
        assert(views =~= clusters_of(text@));
        assert(texts(views) =~= strs_view(parts@));
    }
    clusters
}

/// The number of bytes that the first `k` clusters take.
pub open spec fn offset(clusters: Seq<ClusterModel>, k: int) -> nat
    decreases k,
{
    if k <= 0 {
        0
    } else {
        offset(clusters, k - 1) + clusters[k - 1].bytes()
    }
}

/// The first `k` clusters put together.
pub open spec fn joined(clusters: Seq<ClusterModel>, k: int) -> Seq<char> {
    texts(clusters).take(k).flatten()
}

/// The offset of a cluster is the length of the text before it.
pub proof fn lemma_offset_is_joined_len(clusters: Seq<ClusterModel>, k: int)
    requires
        0 <= k <= clusters.len(),
    ensures
        offset(clusters, k) == utf8_len(joined(clusters, k)),
    decreases k,
{
    let parts = texts(clusters);
    if k == 0 {
        assert(parts.take(0) =~= Seq::<Seq<char>>::empty());
    } else {
        lemma_offset_is_joined_len(clusters, k - 1);
        assert(parts.take(k) =~= parts.take(k - 1).push(parts[k - 1]));
        parts.take(k - 1).lemma_flatten_push(parts[k - 1]);
        lemma_encode_concat(joined(clusters, k - 1), parts[k - 1]);
    }
}

/// Offsets grow with the number of clusters.
pub proof fn lemma_offset_monotonic(clusters: Seq<ClusterModel>, i: int, j: int)
    requires
        i <= j,
    ensures
        offset(clusters, i) <= offset(clusters, j),
    decreases j - i,
{
    if i < j {
        lemma_offset_monotonic(clusters, i, j - 1);
    }
}

/// Every cluster of a text starts on a boundary of the text, and the text
/// from there on is the remaining clusters put together.
pub proof fn lemma_cluster_boundary(clusters: Seq<ClusterModel>, text: Seq<char>, k: int)
    requires
        covers(clusters, text),
        0 <= k <= clusters.len(),
    ensures
        offset(clusters, k) <= utf8_len(text),
        on_boundary(text, offset(clusters, k) as int),
        text_from(text, offset(clusters, k) as int) == texts(clusters).skip(k).flatten(),
        k == clusters.len() ==> offset(clusters, k) == utf8_len(text),
{
    let parts = texts(clusters);
    lemma_offset_is_joined_len(clusters, k);
    assert(parts =~= parts.take(k) + parts.skip(k));
    lemma_flatten_concat(parts.take(k), parts.skip(k));
    lemma_prefix_boundary(parts.take(k).flatten(), parts.skip(k).flatten());
    if k == clusters.len() {
        assert(parts.take(k) =~= parts);
    }
}

} // verus!
