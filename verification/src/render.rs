//! Drawing rows of a text, with highlights laid over its own styling.
//!
//! A highlight shows a range of bytes in reverse video, whatever the text's
//! own reverse attribute says there: inside a highlight the screen shows the
//! opposite of what the text asks for.

use crate::flow::Line;
use crate::op::{emit, ops_view, Op, OpModel};
use crate::order::{ascending, lemma_leading_below, leading_below};
use crate::style::{Attr, Style, StyleChange};
use crate::text::{
    byte_len, clusters_view, is_line_feed, lemma_offset_monotonic, offset, Cluster, ClusterModel,
};
use vstd::prelude::*;

verus! {

/// The offsets of a sequence of style changes.
pub open spec fn change_offsets(attrs: Seq<(usize, StyleChange)>) -> Seq<int> {
    attrs.map_values(|a: (usize, StyleChange)| a.0 as int)
}

/// The ends of a sequence of byte ranges.
pub open spec fn range_ends(ranges: Seq<(usize, usize)>) -> Seq<int> {
    ranges.map_values(|r: (usize, usize)| r.1 as int)
}

/// What is to be drawn: the styling and highlights of the text, where the
/// first row begins, and the room there is.
pub struct Scene {
    /// The style changes of the text, their offsets ascending.
    pub attrs: Seq<(usize, StyleChange)>,
    /// The highlighted byte ranges, ascending and apart from each other.
    pub highlights: Seq<(usize, usize)>,
    /// Where the first row begins, and the style there.
    pub first: Line,
    /// The number of rows to draw at most.
    pub rows: nat,
    /// The number of columns of a row.
    pub width: nat,
}

/// Where the drawing stands between two clusters.
pub struct Brush {
    /// The row being drawn, counted from the first.
    pub row: nat,
    /// Columns taken on that row.
    pub cells_in_line: nat,
    /// The next style change to apply.
    pub next_attr: nat,
    /// The highlight that is open, or else the next one to come.
    pub next_highlight: nat,
    /// Whether a highlight is open.
    pub lit: bool,
    /// The reverse attribute that the text itself asks for.
    pub reversed: bool,
    /// The operations so far.
    pub ops: Seq<OpModel>,
    /// Whether the last row is full.
    pub done: bool,
}

impl Scene {
    /// Before the first cluster: the style of the first row is set, the
    /// style changes before it are passed over, and so are the highlights
    /// that end at or before it.
    pub open spec fn start(self) -> Brush {
        Brush {
            row: 0,
            cells_in_line: 0,
            next_attr: leading_below(change_offsets(self.attrs), self.first.start_byte as int),
            next_highlight: leading_below(
                range_ends(self.highlights),
                self.first.start_byte as int + 1,
            ),
            lit: false,
            reversed: self.first.start_attributes.reverse,
            ops: seq![OpModel::SetStyle(self.first.start_attributes)],
            done: false,
        }
    }

    /// The operation that shows a style change: inside a highlight, what it
    /// says of reverse video is turned around.
    pub open spec fn shown(change: StyleChange, lit: bool) -> OpModel {
        match change {
            StyleChange::Reset => OpModel::SetStyle(Style { reverse: lit, ..Style::plain() }),
            StyleChange::Apply(Attr::Reverse(on)) => OpModel::Attr(Attr::Reverse(on != lit)),
            StyleChange::Apply(attr) => OpModel::Attr(attr),
        }
    }

    /// The reverse attribute that the text asks for after a style change.
    pub open spec fn reverse_after(change: StyleChange, reversed: bool) -> bool {
        match change {
            StyleChange::Reset => false,
            StyleChange::Apply(Attr::Reverse(on)) => on,
            StyleChange::Apply(_) => reversed,
        }
    }

    /// Leaves the open highlight if it ends at or before `byte`; otherwise
    /// enters the next one if it begins at or before `byte`.
    pub open spec fn lights(self, brush: Brush, byte: nat) -> Brush {
        if brush.lit {
            if self.highlights[brush.next_highlight as int].1 <= byte {
                Brush {
                    lit: false,
                    next_highlight: brush.next_highlight + 1,
                    ops: brush.ops.push(OpModel::Highlight(brush.reversed)),
                    ..brush
                }
            } else {
                brush
            }
        } else if brush.next_highlight < self.highlights.len()
            && self.highlights[brush.next_highlight as int].0 <= byte {
            Brush { lit: true, ops: brush.ops.push(OpModel::Highlight(!brush.reversed)), ..brush }
        } else {
            brush
        }
    }

    /// Applies every style change that stands at or before `byte`, in order.
    pub open spec fn styles(self, brush: Brush, byte: nat) -> Brush
        decreases self.attrs.len() - brush.next_attr,
    {
        if brush.next_attr < self.attrs.len() && self.attrs[brush.next_attr as int].0 <= byte {
            let change = self.attrs[brush.next_attr as int].1;
            self.styles(
                Brush {
                    next_attr: brush.next_attr + 1,
                    reversed: Scene::reverse_after(change, brush.reversed),
                    ops: brush.ops.push(Scene::shown(change, brush.lit)),
                    ..brush
                },
                byte,
            )
        } else {
            brush
        }
    }

    /// Whether `cluster` begins a new row: it is a line feed, or it does not
    /// fit on the current row.
    pub open spec fn breaks(self, brush: Brush, cluster: ClusterModel) -> bool {
        brush.cells_in_line + cluster.cells > self.width || cluster.is_line_feed()
    }

    /// The drawing after the cluster that stands at `byte`.
    ///
    /// A cluster that begins a new row ends the drawing if the last row is
    /// reached, and else advances to the next row. A cluster other than a
    /// line feed then has the highlights and style changes up to its byte
    /// applied, and is written.
    pub open spec fn after(self, brush: Brush, byte: nat, cluster: ClusterModel) -> Brush {
        if brush.done {
            brush
        } else if self.breaks(brush, cluster) && brush.row + 1 >= self.rows {
            Brush { done: true, ..brush }
        } else {
            let placed = if self.breaks(brush, cluster) {
                Brush {
                    row: brush.row + 1,
                    cells_in_line: 0,
                    ops: brush.ops.push(OpModel::NextRow),
                    ..brush
                }
            } else {
                brush
            };
            if cluster.is_line_feed() {
                placed
            } else {
                let styled = self.styles(self.lights(placed, byte), byte);
                Brush {
                    cells_in_line: styled.cells_in_line + cluster.cells,
                    ops: styled.ops.push(OpModel::Text(cluster.text)),
                    ..styled
                }
            }
        }
    }

    /// The offset in the text of cluster `k` of the clusters that follow the
    /// start of the first row.
    pub open spec fn byte_of(self, clusters: Seq<ClusterModel>, k: int) -> nat {
        self.first.start_byte as nat + offset(clusters, k)
    }

    /// The drawing after the first `k` clusters.
    pub open spec fn run(self, clusters: Seq<ClusterModel>, k: int) -> Brush
        decreases k,
    {
        if k <= 0 {
            self.start()
        } else {
            self.after(self.run(clusters, k - 1), self.byte_of(clusters, k - 1), clusters[k - 1])
        }
    }
}

/// The operations that draw the scene, given the clusters of the text from
/// the start of the first row on.
pub open spec fn render_model(scene: Scene, clusters: Seq<ClusterModel>) -> Seq<OpModel> {
    scene.run(clusters, clusters.len() as int).ops
}

/// Once the last row is full, nothing more is drawn.
pub proof fn lemma_done_stays(scene: Scene, clusters: Seq<ClusterModel>, i: int, k: int)
    requires
        0 <= i <= k,
        scene.run(clusters, i).done,
    ensures
        scene.run(clusters, k) == scene.run(clusters, i),
    decreases k - i,
{
    if i < k {
        lemma_done_stays(scene, clusters, i, k - 1);
    }
}

/// The index of the first style change at or after `byte`, by binary search.
pub fn first_change_from(attrs: &Vec<(usize, StyleChange)>, byte: usize) -> (found: usize)
    requires
        ascending(change_offsets(attrs@)),
    ensures
        found == leading_below(change_offsets(attrs@), byte as int),
        found <= attrs@.len(),
{
    let ghost keys = change_offsets(attrs@);
    let mut low: usize = 0;
    let mut high: usize = attrs.len();
    while low < high
        invariant
            keys == change_offsets(attrs@),
            ascending(keys),
            low <= high <= attrs@.len(),
            forall|i: int| 0 <= i < low ==> keys[i] < byte,
            forall|i: int| high <= i < keys.len() ==> keys[i] >= byte,
        decreases high - low,
    {
        let mid: usize = low + (high - low) / 2;
        if attrs[mid].0 < byte {
            assert forall|i: int| 0 <= i < mid + 1 implies keys[i] < byte by {
                assert(keys[i] <= keys[mid as int]);
            }
            low = mid + 1;
        } else {
            assert forall|i: int| mid <= i < keys.len() implies keys[i] >= byte by {
                assert(keys[mid as int] <= keys[i]);
            }
            high = mid;
        }
    }
    proof {
        lemma_leading_below(keys, byte as int, low as int);
    }
    low
}

/// The index of the first range that ends after `byte`, by binary search.
pub fn first_range_after(ranges: &[(usize, usize)], byte: usize) -> (found: usize)
    requires
        ascending(range_ends(ranges@)),
    ensures
        found == leading_below(range_ends(ranges@), byte as int + 1),
        found <= ranges@.len(),
{
    let ghost keys = range_ends(ranges@);
    let mut low: usize = 0;
    let mut high: usize = ranges.len();
    while low < high
        invariant
            keys == range_ends(ranges@),
            ascending(keys),
            low <= high <= ranges@.len(),
            forall|i: int| 0 <= i < low ==> keys[i] <= byte,
            forall|i: int| high <= i < keys.len() ==> keys[i] > byte,
        decreases high - low,
    {
        let mid: usize = low + (high - low) / 2;
        if ranges[mid].1 <= byte {
            assert forall|i: int| 0 <= i < mid + 1 implies keys[i] <= byte by {
                assert(keys[i] <= keys[mid as int]);
            }
            low = mid + 1;
        } else {
            assert forall|i: int| mid <= i < keys.len() implies keys[i] > byte by {
                assert(keys[mid as int] <= keys[i]);
            }
            high = mid;
        }
    }
    proof {
        lemma_leading_below(keys, byte as int + 1, low as int);
    }
    low
}

/// Draws at most `rows` rows of `width` columns, given the clusters of the
/// text from the start of the first row on, and adds the operations to
/// `changes`.
pub fn render_rows(
    clusters: &Vec<Cluster<'_>>,
    attrs: &Vec<(usize, StyleChange)>,
    highlights: &[(usize, usize)],
    first: Line,
    rows: usize,
    width: usize,
    changes: &mut Vec<Op>,
)
    requires
        rows >= 1,
        first.start_byte + offset(clusters_view(clusters@), clusters@.len() as int) <= usize::MAX,
        ascending(change_offsets(attrs@)),
        ascending(range_ends(highlights@)),
    ensures
        ops_view(final(changes)@) == ops_view(old(changes)@) + render_model(
            Scene {
                attrs: attrs@,
                highlights: highlights@,
                first,
                rows: rows as nat,
                width: width as nat,
            },
            clusters_view(clusters@),
        ),
{
    let ghost scene = Scene {
        attrs: attrs@,
        highlights: highlights@,
        first,
        rows: rows as nat,
        width: width as nat,
    };
    let ghost all = clusters_view(clusters@);
    let ghost base = ops_view(changes@);
    let mut byte: usize = first.start_byte;
    let mut reversed: bool = first.start_attributes.reverse;
    emit(changes, Op::SetStyle(first.start_attributes));
    let mut attr_idx: usize = first_change_from(attrs, byte);
    let mut highlight_idx: usize = first_range_after(highlights, byte);
    let mut lit: bool = false;
    let mut cells_in_line: usize = 0;
    let mut row: usize = 0;
    let mut done: bool = false;
    let ghost mut brush = scene.start();
    assert(ops_view(changes@) =~= base + brush.ops);
    let mut i: usize = 0;
    while i < clusters.len() && !done
        invariant
            i <= clusters@.len(),
            all == clusters_view(clusters@),
            scene == (Scene {
                attrs: attrs@,
                highlights: highlights@,
                first,
                rows: rows as nat,
                width: width as nat,
            }),
            rows >= 1,
            first.start_byte + offset(all, all.len() as int) <= usize::MAX,
            byte == first.start_byte + offset(all, i as int),
            brush == scene.run(all, i as int),
            brush == (Brush {
                row: row as nat,
                cells_in_line: cells_in_line as nat,
                next_attr: attr_idx as nat,
                next_highlight: highlight_idx as nat,
                lit,
                reversed,
                ops: brush.ops,
                done,
            }),
            ops_view(changes@) == base + brush.ops,
            attr_idx <= attrs@.len(),
            highlight_idx <= highlights@.len(),
            lit ==> highlight_idx < highlights@.len(),
            row < rows,
        decreases clusters@.len() - i,
    {
        let cluster = clusters[i];
        let ghost model = all[i as int];
        let ghost before = brush;
        let line_feed = is_line_feed(cluster.text);
        let len: usize = byte_len(cluster.text);
        let cells: usize = cluster.cells;
        proof {
            assert(model == cluster@);
            lemma_offset_monotonic(all, i + 1, all.len() as int);
        }
        let breaks = cells > width || cells_in_line > width - cells || line_feed;
        assert(breaks == scene.breaks(before, model));
        if breaks && row + 1 >= rows {
            done = true;
            proof {
                brush = Brush { done: true, ..before };
            }
        } else {
            if breaks {
                emit(changes, Op::NextRow);
                row += 1;
                cells_in_line = 0;
                proof {
                    brush = Brush {
                        row: before.row + 1,
                        cells_in_line: 0,
                        ops: before.ops.push(OpModel::NextRow),
                        ..before
                    };
                    assert(ops_view(changes@) =~= base + brush.ops);
                }
            }
            if !line_feed {
                let ghost placed = brush;
                if lit {
                    if highlights[highlight_idx].1 <= byte {
                        lit = false;
                        emit(changes, Op::Highlight(reversed));
                        highlight_idx += 1;
                    }
                } else if highlight_idx < highlights.len() && highlights[highlight_idx].0 <= byte {
                    lit = true;
                    emit(changes, Op::Highlight(!reversed));
                }
                proof {
                    brush = scene.lights(placed, byte as nat);
                    assert(ops_view(changes@) =~= base + brush.ops);
                }
                let ghost lighted = brush;
                while attr_idx < attrs.len() && byte >= attrs[attr_idx].0
                    invariant
                        scene.attrs == attrs@,
                        attr_idx <= attrs@.len(),
                        scene.styles(brush, byte as nat) == scene.styles(lighted, byte as nat),
                        brush == (Brush {
                            next_attr: attr_idx as nat,
                            reversed,
                            ops: brush.ops,
                            ..lighted
                        }),
                        lighted.lit == lit,
                        ops_view(changes@) == base + brush.ops,
                    decreases attrs@.len() - attr_idx,
                {
                    let change = attrs[attr_idx].1;
                    attr_idx += 1;
                    let ghost was = brush;
                    match change {
                        StyleChange::Reset => {
                            reversed = false;
                            let mut style = Style::new();
                            style.reverse = lit;
                            emit(changes, Op::SetStyle(style));
                        },
                        StyleChange::Apply(Attr::Reverse(on)) => {
                            reversed = on;
                            emit(changes, Op::Attr(Attr::Reverse(on != lit)));
                        },
                        StyleChange::Apply(attr) => {
                            emit(changes, Op::Attr(attr));
                        },
                    }
                    proof {
                        brush = Brush {
                            next_attr: was.next_attr + 1,
                            reversed: Scene::reverse_after(change, was.reversed),
                            ops: was.ops.push(Scene::shown(change, was.lit)),
                            ..was
                        };
                        assert(ops_view(changes@) =~= base + brush.ops);
                    }
                }
                let ghost styled = brush;
                emit(changes, Op::Text(cluster.text.to_owned()));
                cells_in_line += cells;
                proof {
                    brush = Brush {
                        cells_in_line: styled.cells_in_line + model.cells,
                        ops: styled.ops.push(OpModel::Text(model.text)),
                        ..styled
                    };
                    assert(ops_view(changes@) =~= base + brush.ops);
                }
            }
        }
        byte += len;
        i += 1;
    }
    proof {
        if done {
            lemma_done_stays(scene, all, i as int, all.len() as int);
        }
    }
}

} // verus!
