//! Line flow: where the rows of a text begin at a given width.
//!
//! A row ends where the next cluster would not fit, or at a line feed. Each
//! row records the style that the changes before its first byte add up to,
//! so that it can be drawn without going through the text before it.

use crate::order::{lemma_leading_below, lemma_leading_below_splits, leading_below};
use crate::render::change_offsets;
use crate::style::{Style, StyleChange};
use crate::text::{
    byte_len, clusters_view, covers, is_line_feed, lemma_cluster_boundary, lemma_end_boundary,
    lemma_line_feed_len, lemma_nonempty_bytes, lemma_offset_monotonic, lemma_split_at_boundary,
    lemma_text_until_end, lemma_text_until_grows, offset, on_boundary, text_between, text_until,
    utf8_len, Cluster, ClusterModel,
};
use vstd::prelude::*;

verus! {

/// A row of the text at some width.
#[derive(Clone, Copy, Debug, PartialEq, Eq)]
pub struct Line {
    /// Offset of the row's first byte.
    pub start_byte: usize,
    /// The style that the changes before the row's first byte add up to.
    pub start_attributes: Style,
}

/// Where a pass over the style changes stands: the next change and the style
/// that the changes before it add up to.
pub struct Pen {
    pub next: nat,
    pub style: Style,
}

/// Applies, from change `next` on, every change that stands at or before
/// `byte`.
pub open spec fn settle(attrs: Seq<(usize, StyleChange)>, pen: Pen, byte: nat) -> Pen
    decreases attrs.len() - pen.next,
{
    if pen.next < attrs.len() && attrs[pen.next as int].0 <= byte {
        settle(
            attrs,
            Pen { next: pen.next + 1, style: pen.style.changed(attrs[pen.next as int].1) },
            byte,
        )
    } else {
        pen
    }
}

/// Applies, from change `next` on, every change that stands before `byte`.
pub open spec fn settle_before(attrs: Seq<(usize, StyleChange)>, pen: Pen, byte: nat) -> Pen {
    if byte == 0 {
        pen
    } else {
        settle(attrs, pen, (byte - 1) as nat)
    }
}

/// The style that the first `n` changes add up to.
pub open spec fn style_of(attrs: Seq<(usize, StyleChange)>, n: int) -> Style
    decreases n,
{
    if n <= 0 {
        Style::plain()
    } else {
        style_of(attrs, n - 1).changed(attrs[n - 1].1)
    }
}

/// The style that the changes at the front that stand before `byte` add up
/// to. Where the offsets ascend, as in a document, these are all the
/// changes that stand before `byte`.
pub open spec fn style_before(attrs: Seq<(usize, StyleChange)>, byte: int) -> Style {
    style_of(attrs, leading_below(change_offsets(attrs), byte) as int)
}

/// Where the flow of a text stands between two clusters.
pub struct Flow {
    /// Columns taken on the current row.
    pub cells_in_line: nat,
    /// The style changes applied so far.
    pub pen: Pen,
    /// The rows begun so far.
    pub lines: Seq<Line>,
}

impl Flow {
    /// Before the first cluster: one row, at the start of the text, unstyled.
    pub open spec fn start() -> Flow {
        Flow {
            cells_in_line: 0,
            pen: Pen { next: 0, style: Style::plain() },
            lines: seq![Line { start_byte: 0, start_attributes: Style::plain() }],
        }
    }

    /// Whether `cluster` begins a new row: it is a line feed, or it does not
    /// fit on the current row.
    pub open spec fn breaks(self, width: nat, cluster: ClusterModel) -> bool {
        self.cells_in_line + cluster.cells > width || cluster.is_line_feed()
    }

    /// Where the row begins that `cluster`, standing at `byte`, begins if it
    /// breaks: at its own byte, or behind it if it is a line feed.
    pub open spec fn row_start(byte: nat, cluster: ClusterModel) -> nat {
        if cluster.is_line_feed() {
            byte + 1
        } else {
            byte
        }
    }

    /// The flow after the cluster that stands at `byte`.
    ///
    /// A cluster that breaks begins a row, after the style changes that
    /// stand before the row's first byte have been applied. A cluster other
    /// than a line feed then has the style changes up to its own byte
    /// applied and takes its columns on the row.
    pub open spec fn after(
        self,
        width: nat,
        attrs: Seq<(usize, StyleChange)>,
        byte: nat,
        cluster: ClusterModel,
    ) -> Flow {
        let broken = if self.breaks(width, cluster) {
            let start = Flow::row_start(byte, cluster);
            let pen = settle_before(attrs, self.pen, start);
            Flow {
                cells_in_line: 0,
                pen,
                lines: self.lines.push(
                    Line { start_byte: start as usize, start_attributes: pen.style },
                ),
            }
        } else {
            self
        };
        if cluster.is_line_feed() {
            broken
        } else {
            Flow {
                cells_in_line: broken.cells_in_line + cluster.cells,
                pen: settle(attrs, broken.pen, byte),
                ..broken
            }
        }
    }

    /// The flow after the first `k` clusters.
    pub open spec fn run(
        width: nat,
        clusters: Seq<ClusterModel>,
        attrs: Seq<(usize, StyleChange)>,
        k: int,
    ) -> Flow
        decreases k,
    {
        if k <= 0 {
            Flow::start()
        } else {
            Flow::run(width, clusters, attrs, k - 1).after(
                width,
                attrs,
                offset(clusters, k - 1),
                clusters[k - 1],
            )
        }
    }
}

/// The rows of a text at a width.
pub open spec fn flow_model(
    width: nat,
    clusters: Seq<ClusterModel>,
    attrs: Seq<(usize, StyleChange)>,
) -> Seq<Line> {
    Flow::run(width, clusters, attrs, clusters.len() as int).lines
}

/// Whether `byte` is where one of the clusters begins, or where the last ends.
pub open spec fn is_cut(clusters: Seq<ClusterModel>, byte: int) -> bool {
    exists|k: int| 0 <= k <= clusters.len() && #[trigger] offset(clusters, k) == byte
}

/// Whether rows begin at the start of the text, one after the other, each
/// where a cluster begins.
pub open spec fn rows_in_order(lines: Seq<Line>, clusters: Seq<ClusterModel>) -> bool {
    &&& lines.len() > 0
    &&& lines[0].start_byte == 0
    &&& forall|i: int, j: int|
        0 <= i <= j < lines.len() ==> (#[trigger] lines[i]).start_byte <= (
        #[trigger] lines[j]).start_byte
    &&& forall|i: int| 0 <= i < lines.len() ==> is_cut(clusters, (#[trigger] lines[i]).start_byte as int)
}

/// The rows of a flow begin in order, each where a cluster begins, and none
/// behind the cluster that comes next.
pub proof fn lemma_flow_rows(
    width: nat,
    clusters: Seq<ClusterModel>,
    attrs: Seq<(usize, StyleChange)>,
    k: int,
)
    requires
        0 <= k <= clusters.len(),
        offset(clusters, clusters.len() as int) <= usize::MAX,
    ensures
        rows_in_order(Flow::run(width, clusters, attrs, k).lines, clusters),
        Flow::run(width, clusters, attrs, k).lines.last().start_byte <= offset(clusters, k),
    decreases k,
{
    if k == 0 {
        assert(offset(clusters, 0) == 0);
    } else {
        lemma_flow_rows(width, clusters, attrs, k - 1);
        let before = Flow::run(width, clusters, attrs, k - 1);
        let cluster = clusters[k - 1];
        let byte = offset(clusters, k - 1);
        let now = before.after(width, attrs, byte, cluster);
        lemma_offset_monotonic(clusters, k, clusters.len() as int);
        lemma_offset_monotonic(clusters, k - 1, k);
        if before.breaks(width, cluster) {
            let start: int = if cluster.is_line_feed() {
                byte as int + 1
            } else {
                byte as int
            };
            if cluster.is_line_feed() {
                lemma_line_feed_len(cluster);
                assert(offset(clusters, k) == start);
            } else {
                assert(offset(clusters, k - 1) == start);
            }
            assert(is_cut(clusters, start));
            assert(now.lines == before.lines.push(
                Line {
                    start_byte: start as usize,
                    start_attributes: settle_before(attrs, before.pen, start as nat).style,
                },
            ));
            assert forall|i: int, j: int| 0 <= i <= j < now.lines.len() implies (
            #[trigger] now.lines[i]).start_byte <= (#[trigger] now.lines[j]).start_byte by {
                if j < before.lines.len() {
                    assert(before.lines[i].start_byte <= before.lines[j].start_byte);
                } else if i < before.lines.len() {
                    assert(before.lines[i].start_byte <= before.lines.last().start_byte);
                }
            }
            assert forall|i: int| 0 <= i < now.lines.len() implies is_cut(
                clusters,
                (#[trigger] now.lines[i]).start_byte as int,
            ) by {
                if i < before.lines.len() {
                    assert(now.lines[i] == before.lines[i]);
                }
            }
        } else {
            assert(now.lines == before.lines);
        }
    }
}

/// Whether every row holds the style at its first byte: the style of
/// unstyled text after the changes that stand before that byte, in order.
pub open spec fn rows_styled(lines: Seq<Line>, attrs: Seq<(usize, StyleChange)>) -> bool {
    forall|i: int|
        0 <= i < lines.len() ==> (#[trigger] lines[i]).start_attributes == style_before(
            attrs,
            lines[i].start_byte as int,
        )
}

/// What applying the changes up to a byte does: the changes from `next` on
/// that stand at or before the byte are applied, in order, up to the first
/// that stands behind it.
pub proof fn lemma_settle(attrs: Seq<(usize, StyleChange)>, pen: Pen, byte: nat)
    requires
        pen.next <= attrs.len(),
        pen.style == style_of(attrs, pen.next as int),
    ensures
        pen.next <= settle(attrs, pen, byte).next <= attrs.len(),
        settle(attrs, pen, byte).style == style_of(attrs, settle(attrs, pen, byte).next as int),
        forall|i: int|
            pen.next <= i < settle(attrs, pen, byte).next ==> (#[trigger] attrs[i]).0 <= byte,
        settle(attrs, pen, byte).next < attrs.len() ==> attrs[settle(
            attrs,
            pen,
            byte,
        ).next as int].0 > byte,
    decreases attrs.len() - pen.next,
{
    if pen.next < attrs.len() && attrs[pen.next as int].0 <= byte {
        lemma_settle(
            attrs,
            Pen { next: pen.next + 1, style: pen.style.changed(attrs[pen.next as int].1) },
            byte,
        );
    }
}

/// Whether the pen has applied the changes at the front that stand before
/// `byte`, and no others.
pub open spec fn pen_before(attrs: Seq<(usize, StyleChange)>, pen: Pen, byte: int) -> bool {
    &&& pen.next == leading_below(change_offsets(attrs), byte)
    &&& pen.style == style_before(attrs, byte)
}

/// Whether the pen has applied no change that stands at or behind `byte`,
/// and holds the style that the changes it has applied add up to.
pub open spec fn pen_behind(attrs: Seq<(usize, StyleChange)>, pen: Pen, byte: int) -> bool {
    &&& pen.next <= attrs.len()
    &&& pen.style == style_of(attrs, pen.next as int)
    &&& forall|i: int| 0 <= i < pen.next ==> (#[trigger] attrs[i]).0 < byte
}

/// A pen that has applied only changes before `byte` has, after the changes
/// before `byte` are applied, applied exactly the changes at the front that
/// stand before `byte`.
pub proof fn lemma_settle_before(attrs: Seq<(usize, StyleChange)>, pen: Pen, byte: nat)
    requires
        pen_behind(attrs, pen, byte as int),
    ensures
        pen_before(attrs, settle_before(attrs, pen, byte), byte as int),
        pen_behind(attrs, settle_before(attrs, pen, byte), byte as int),
{
    let keys = change_offsets(attrs);
    let done = settle_before(attrs, pen, byte);
    if byte > 0 {
        lemma_settle(attrs, pen, (byte - 1) as nat);
    }
    assert forall|i: int| 0 <= i < done.next implies keys[i] < byte by {
        assert(attrs[i].0 < byte);
    }
    lemma_leading_below(keys, byte as int, done.next as int);
}

/// After any number of clusters, every row begun holds the style at its
/// first byte: the style of unstyled text after the changes that stand
/// before that byte, in order. With the changes that stand at that byte,
/// which a drawing from the row applies first, this is the style after all
/// changes up to that byte. And the pen has applied no change that stands at
/// or behind the cluster to come.
pub proof fn lemma_row_styles(
    width: nat,
    clusters: Seq<ClusterModel>,
    attrs: Seq<(usize, StyleChange)>,
    k: int,
)
    requires
        0 <= k <= clusters.len(),
        offset(clusters, clusters.len() as int) <= usize::MAX,
        forall|i: int| 0 <= i < clusters.len() ==> (#[trigger] clusters[i]).bytes() > 0,
    ensures
        rows_styled(Flow::run(width, clusters, attrs, k).lines, attrs),
        pen_behind(attrs, Flow::run(width, clusters, attrs, k).pen, offset(clusters, k) as int),
    decreases k,
{
    let keys = change_offsets(attrs);
    if k == 0 {
        let lines = Flow::run(width, clusters, attrs, 0).lines;
        assert(lines.len() == 1);
        assert forall|j: int| 0 <= j < 0 implies keys[j] < 0 by {}
        if keys.len() > 0 {
            assert(keys[0] == attrs[0].0);
        }
        lemma_leading_below(keys, 0, 0);
    } else {
        lemma_row_styles(width, clusters, attrs, k - 1);
        lemma_offset_monotonic(clusters, k, clusters.len() as int);
        let before = Flow::run(width, clusters, attrs, k - 1);
        let cluster = clusters[k - 1];
        let byte = offset(clusters, k - 1);
        let now = before.after(width, attrs, byte, cluster);
        assert(cluster.bytes() > 0);
        assert(pen_behind(attrs, before.pen, byte as int));
        if cluster.is_line_feed() {
            lemma_line_feed_len(cluster);
        }
        let start = Flow::row_start(byte, cluster);
        let broken_pen = if before.breaks(width, cluster) {
            settle_before(attrs, before.pen, start)
        } else {
            before.pen
        };
        if before.breaks(width, cluster) {
            assert(pen_behind(attrs, before.pen, start as int));
            lemma_settle_before(attrs, before.pen, start);
            assert(now.lines == before.lines.push(
                Line { start_byte: start as usize, start_attributes: broken_pen.style },
            ));
            assert forall|i: int| 0 <= i < now.lines.len() implies (
            #[trigger] now.lines[i]).start_attributes == style_before(
                attrs,
                now.lines[i].start_byte as int,
            ) by {
                if i < before.lines.len() {
                    assert(now.lines[i] == before.lines[i]);
                }
            }
        } else {
            assert(now.lines == before.lines);
        }
        assert(pen_behind(attrs, broken_pen, start as int));
        if !cluster.is_line_feed() {
            lemma_settle(attrs, broken_pen, byte);
            let done = settle(attrs, broken_pen, byte);
            assert forall|i: int| 0 <= i < done.next implies (#[trigger] attrs[i]).0 < offset(
                clusters,
                k,
            ) by {
                if i < broken_pen.next {
                    assert(attrs[i].0 < start);
                } else {
                    assert(attrs[i].0 <= byte);
                }
            }
        }
    }
}

/// The style before a byte, with the changes that stand at that byte
/// applied in order, is the style before the next byte: what a row holds
/// and the changes at its first byte add up to the style after all changes
/// up to that byte.
pub proof fn lemma_style_completes(attrs: Seq<(usize, StyleChange)>, byte: nat)
    ensures
        pen_before(
            attrs,
            settle(
                attrs,
                Pen {
                    next: leading_below(change_offsets(attrs), byte as int),
                    style: style_before(attrs, byte as int),
                },
                byte,
            ),
            byte as int + 1,
        ),
{
    let keys = change_offsets(attrs);
    let pen = Pen {
        next: leading_below(keys, byte as int),
        style: style_before(attrs, byte as int),
    };
    lemma_leading_below_splits(keys, byte as int);
    assert forall|i: int| 0 <= i < pen.next implies (#[trigger] attrs[i]).0 < byte + 1 by {
        assert(keys[i] < byte);
    }
    lemma_settle_before(attrs, pen, byte + 1);
}

/// Every row of a text holds the style at its first byte: the style of
/// unstyled text after the changes that stand before that byte, in order.
pub proof fn lemma_flow_styles(
    width: nat,
    clusters: Seq<ClusterModel>,
    attrs: Seq<(usize, StyleChange)>,
    text: Seq<char>,
)
    requires
        covers(clusters, text),
        utf8_len(text) <= usize::MAX,
    ensures
        rows_styled(flow_model(width, clusters, attrs), attrs),
{
    lemma_cluster_boundary(clusters, text, clusters.len() as int);
    assert forall|i: int| 0 <= i < clusters.len() implies (#[trigger] clusters[i]).bytes() > 0 by {
        lemma_nonempty_bytes(clusters[i].text);
    }
    lemma_row_styles(width, clusters, attrs, clusters.len() as int);
}

/// Applies, from change `next` on, every change that stands at or before
/// `byte`, and says which change comes next.
pub fn settle_style(
    attrs: &Vec<(usize, StyleChange)>,
    next: usize,
    style: Style,
    byte: usize,
) -> (pen: (usize, Style))
    requires
        next <= attrs@.len(),
    ensures
        (Pen { next: pen.0 as nat, style: pen.1 }) == settle(
            attrs@,
            Pen { next: next as nat, style },
            byte as nat,
        ),
        next <= pen.0 <= attrs@.len(),
{
    let mut idx: usize = next;
    let mut current = style;
    while idx < attrs.len() && byte >= attrs[idx].0
        invariant
            next <= idx <= attrs@.len(),
            settle(attrs@, Pen { next: idx as nat, style: current }, byte as nat) == settle(
                attrs@,
                Pen { next: next as nat, style },
                byte as nat,
            ),
        decreases attrs@.len() - idx,
    {
        current.change(attrs[idx].1);
        idx += 1;
    }
    (idx, current)
}

/// Finds the rows of a sequence of clusters at a width.
pub fn flow_clusters(
    width: usize,
    clusters: &Vec<Cluster<'_>>,
    attrs: &Vec<(usize, StyleChange)>,
) -> (lines: Vec<Line>)
    requires
        offset(clusters_view(clusters@), clusters@.len() as int) <= usize::MAX,
    ensures
        lines@ == flow_model(width as nat, clusters_view(clusters@), attrs@),
        rows_in_order(lines@, clusters_view(clusters@)),
{
    let ghost all = clusters_view(clusters@);
    let mut lines: Vec<Line> = Vec::new();
    let mut byte: usize = 0;
    let mut attr_idx: usize = 0;
    let mut cells_in_line: usize = 0;
    let mut attributes = Style::new();
    lines.push(Line { start_byte: byte, start_attributes: attributes });
    assert(lines@ =~= Flow::start().lines);
    let mut i: usize = 0;
    while i < clusters.len()
        invariant
            i <= clusters@.len(),
            all == clusters_view(clusters@),
            offset(all, all.len() as int) <= usize::MAX,
            byte == offset(all, i as int),
            attr_idx <= attrs@.len(),
            Flow::run(width as nat, all, attrs@, i as int) == (Flow {
                cells_in_line: cells_in_line as nat,
                pen: Pen { next: attr_idx as nat, style: attributes },
                lines: lines@,
            }),
        decreases clusters@.len() - i,
    {
        let cluster = clusters[i];
        let ghost model = all[i as int];
        let ghost before = Flow::run(width as nat, all, attrs@, i as int);
        let line_feed = is_line_feed(cluster.text);
        let len: usize = byte_len(cluster.text);
        proof {
            assert(model == cluster@);
            lemma_offset_monotonic(all, i + 1, all.len() as int);
            if line_feed {
                lemma_line_feed_len(model);
            }
        }
        let cells: usize = cluster.cells;
        if cells > width || cells_in_line > width - cells || line_feed {
            let start: usize = if line_feed {
                byte + 1
            } else {
                byte
            };
            if start > 0 {
                let pen = settle_style(attrs, attr_idx, attributes, start - 1);
                attr_idx = pen.0;
                attributes = pen.1;
            }
            lines.push(Line { start_byte: start, start_attributes: attributes });
            cells_in_line = 0;
        }
        if !line_feed {
            let pen = settle_style(attrs, attr_idx, attributes, byte);
            attr_idx = pen.0;
            attributes = pen.1;
            cells_in_line += cells;
        }
        byte += len;
        i += 1;
    }
    proof {
        lemma_flow_rows(width as nat, all, attrs@, all.len() as int);
    }
    lines
}

/// The rows of a text begin between its characters.
pub proof fn lemma_rows_on_boundaries(
    lines: Seq<Line>,
    clusters: Seq<ClusterModel>,
    text: Seq<char>,
)
    requires
        rows_in_order(lines, clusters),
        covers(clusters, text),
    ensures
        forall|i: int|
            0 <= i < lines.len() ==> on_boundary(text, (#[trigger] lines[i]).start_byte as int),
        forall|i: int| 0 <= i < lines.len() ==> (#[trigger] lines[i]).start_byte <= utf8_len(text),
{
    assert forall|i: int| 0 <= i < lines.len() implies on_boundary(
        text,
        (#[trigger] lines[i]).start_byte as int,
    ) && lines[i].start_byte <= utf8_len(text) by {
        let b = lines[i].start_byte as int;
        assert(is_cut(clusters, b));
        let k = choose|k: int| 0 <= k <= clusters.len() && #[trigger] offset(clusters, k) == b;
        lemma_cluster_boundary(clusters, text, k);
    }
}

/// Where row `i` ends: where the next row begins, or at the end of the text.
pub open spec fn row_end(lines: Seq<Line>, text: Seq<char>, i: int) -> int {
    if i + 1 < lines.len() {
        lines[i + 1].start_byte as int
    } else {
        utf8_len(text) as int
    }
}

/// The characters of row `i`, with the line feed that ends it if one does.
pub open spec fn row_text(lines: Seq<Line>, text: Seq<char>, i: int) -> Seq<char> {
    text_between(text, lines[i].start_byte as int, row_end(lines, text, i))
}

/// The first `n` rows put together.
pub open spec fn rows_joined(lines: Seq<Line>, text: Seq<char>, n: int) -> Seq<char>
    decreases n,
{
    if n <= 0 {
        Seq::empty()
    } else {
        rows_joined(lines, text, n - 1) + row_text(lines, text, n - 1)
    }
}

/// Rows that begin in order between the characters of a text, put together,
/// are the text up to where the next row begins.
pub proof fn lemma_rows_joined(lines: Seq<Line>, text: Seq<char>, n: int)
    requires
        0 <= n <= lines.len(),
        lines.len() > 0,
        lines[0].start_byte == 0,
        forall|i: int, j: int|
            0 <= i <= j < lines.len() ==> (#[trigger] lines[i]).start_byte <= (
            #[trigger] lines[j]).start_byte,
        forall|i: int|
            0 <= i < lines.len() ==> on_boundary(text, (#[trigger] lines[i]).start_byte as int),
    ensures
        n > 0 ==> rows_joined(lines, text, n) == text_until(text, row_end(lines, text, n - 1)),
    decreases n,
{
    lemma_text_until_end(text);
    lemma_end_boundary(text);
    if n > 0 {
        lemma_rows_joined(lines, text, n - 1);
        let start = lines[n - 1].start_byte as int;
        let end = row_end(lines, text, n - 1);
        assert(on_boundary(text, start));
        if n < lines.len() {
            assert(lines[n - 1].start_byte <= lines[n].start_byte);
            assert(on_boundary(text, lines[n].start_byte as int));
        } else {
            lemma_split_at_boundary(text, start);
        }
        lemma_text_until_grows(text, start, end);
        if n == 1 {
            assert(rows_joined(lines, text, 0) =~= Seq::<char>::empty());
            assert(rows_joined(lines, text, 1) =~= row_text(lines, text, 0));
            assert(text_until(text, 0) + row_text(lines, text, 0) =~= row_text(lines, text, 0));
        } else {
            assert(row_end(lines, text, n - 2) == start);
        }
    }
}

/// Flowing a text at any width loses nothing: the rows, put together in
/// order, are the text.
pub proof fn lemma_flow_round_trip(
    width: nat,
    clusters: Seq<ClusterModel>,
    attrs: Seq<(usize, StyleChange)>,
    text: Seq<char>,
)
    requires
        covers(clusters, text),
        utf8_len(text) <= usize::MAX,
    ensures
        rows_joined(
            flow_model(width, clusters, attrs),
            text,
            flow_model(width, clusters, attrs).len() as int,
        ) == text,
{
    let lines = flow_model(width, clusters, attrs);
    lemma_cluster_boundary(clusters, text, clusters.len() as int);
    lemma_flow_rows(width, clusters, attrs, clusters.len() as int);
    lemma_rows_on_boundaries(lines, clusters, text);
    lemma_rows_joined(lines, text, lines.len() as int);
    lemma_text_until_end(text);
}

} // verus!
