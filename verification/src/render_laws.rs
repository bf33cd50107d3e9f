//! What holds of every drawing.

use crate::flow::{style_before, style_of};
use crate::op::OpModel;
use crate::order::{ascending, lemma_leading_below, lemma_leading_below_splits, leading_below};
use crate::render::{change_offsets, range_ends, render_model, Brush, Scene};
use crate::style::{Attr, Style, StyleChange};
use crate::text::{lemma_offset_monotonic, offset, ClusterModel};
use vstd::prelude::*;

verus! {

/// Drawing is a function of what is drawn: two drawings of the same scene
/// and text are the same operations.
pub proof fn lemma_render_repeats(
    scene: Scene,
    clusters: Seq<ClusterModel>,
    first: Seq<OpModel>,
    second: Seq<OpModel>,
)
    requires
        first == render_model(scene, clusters),
        second == render_model(scene, clusters),
    ensures
        first == second,
{
}

/// The style in effect on the screen after one operation.
pub open spec fn style_after(before: Style, op: OpModel) -> Style {
    match op {
        OpModel::SetStyle(style) => style,
        OpModel::Attr(attr) => before.with(attr),
        OpModel::Highlight(on) => Style { reverse: on, ..before },
        OpModel::Clear(_) => Style::plain(),
        _ => before,
    }
}

/// The style in effect on the screen after the operations.
pub open spec fn style_shown(ops: Seq<OpModel>) -> Style
    decreases ops.len(),
{
    if ops.len() == 0 {
        Style::plain()
    } else {
        style_after(style_shown(ops.drop_last()), ops.last())
    }
}

/// Whether the screen shows reverse video after the operations.
pub open spec fn shows_reverse(ops: Seq<OpModel>) -> bool {
    style_shown(ops).reverse
}

/// What one more operation does to the style in effect.
proof fn lemma_style_shown_push(ops: Seq<OpModel>, op: OpModel)
    ensures
        style_shown(ops.push(op)) == style_after(style_shown(ops), op),
{
    assert(ops.push(op).drop_last() =~= ops);
    assert(ops.push(op).last() == op);
}

/// Whether what the screen shows of reverse video is what the text asks
/// for, turned around inside a highlight.
pub open spec fn reverse_in_step(brush: Brush) -> bool {
    shows_reverse(brush.ops) == (brush.reversed != brush.lit)
}

/// What a drawing does to the screen's reverse video when one more
/// operation follows.
proof fn lemma_shows_reverse_push(ops: Seq<OpModel>, op: OpModel)
    ensures
        shows_reverse(ops.push(op)) == match op {
            OpModel::SetStyle(style) => style.reverse,
            OpModel::Attr(Attr::Reverse(on)) => on,
            OpModel::Highlight(on) => on,
            OpModel::Clear(_) => false,
            _ => shows_reverse(ops),
        },
{
    lemma_style_shown_push(ops, op);
}

/// Style changes leave the row, the columns and the highlights as they are.
proof fn lemma_styles_keep(scene: Scene, brush: Brush, byte: nat)
    ensures
        scene.styles(brush, byte).row == brush.row,
        scene.styles(brush, byte).cells_in_line == brush.cells_in_line,
        scene.styles(brush, byte).next_highlight == brush.next_highlight,
        scene.styles(brush, byte).lit == brush.lit,
        scene.styles(brush, byte).done == brush.done,
        brush.next_attr <= scene.attrs.len() ==> brush.next_attr <= scene.styles(
            brush,
            byte,
        ).next_attr <= scene.attrs.len(),
        reverse_in_step(brush) ==> reverse_in_step(scene.styles(brush, byte)),
    decreases scene.attrs.len() - brush.next_attr,
{
    if brush.next_attr < scene.attrs.len() && scene.attrs[brush.next_attr as int].0 <= byte {
        let change = scene.attrs[brush.next_attr as int].1;
        let next = Brush {
            next_attr: brush.next_attr + 1,
            reversed: Scene::reverse_after(change, brush.reversed),
            ops: brush.ops.push(Scene::shown(change, brush.lit)),
            ..brush
        };
        lemma_shows_reverse_push(brush.ops, Scene::shown(change, brush.lit));
        lemma_styles_keep(scene, next, byte);
    }
}

/// Entering or leaving a highlight keeps the screen in step.
proof fn lemma_lights_keep(scene: Scene, brush: Brush, byte: nat)
    ensures
        reverse_in_step(brush) ==> reverse_in_step(scene.lights(brush, byte)),
        scene.lights(brush, byte).row == brush.row,
        scene.lights(brush, byte).cells_in_line == brush.cells_in_line,
        scene.lights(brush, byte).next_attr == brush.next_attr,
        scene.lights(brush, byte).reversed == brush.reversed,
        scene.lights(brush, byte).done == brush.done,
{
    lemma_shows_reverse_push(brush.ops, OpModel::Highlight(brush.reversed));
    lemma_shows_reverse_push(brush.ops, OpModel::Highlight(!brush.reversed));
}

/// One cluster keeps the screen in step.
proof fn lemma_after_keeps_step(scene: Scene, brush: Brush, byte: nat, cluster: ClusterModel)
    requires
        reverse_in_step(brush),
    ensures
        reverse_in_step(scene.after(brush, byte, cluster)),
{
    if !brush.done && !(scene.breaks(brush, cluster) && brush.row + 1 >= scene.rows) {
        let placed = if scene.breaks(brush, cluster) {
            Brush {
                row: brush.row + 1,
                cells_in_line: 0,
                ops: brush.ops.push(OpModel::NextRow),
                ..brush
            }
        } else {
            brush
        };
        lemma_shows_reverse_push(brush.ops, OpModel::NextRow);
        if !cluster.is_line_feed() {
            let lighted = scene.lights(placed, byte);
            lemma_lights_keep(scene, placed, byte);
            let styled = scene.styles(lighted, byte);
            lemma_styles_keep(scene, lighted, byte);
            lemma_shows_reverse_push(styled.ops, OpModel::Text(cluster.text));
        }
    }
}

/// At every point of a drawing the screen shows the reverse video that the
/// text asks for, and inside a highlight the opposite.
pub proof fn lemma_reverse_shown(scene: Scene, clusters: Seq<ClusterModel>, k: int)
    requires
        0 <= k <= clusters.len(),
    ensures
        reverse_in_step(scene.run(clusters, k)),
    decreases k,
{
    if k == 0 {
        lemma_shows_reverse_push(
            Seq::<OpModel>::empty(),
            OpModel::SetStyle(scene.first.start_attributes),
        );
        assert(scene.start().ops =~= Seq::<OpModel>::empty().push(
            OpModel::SetStyle(scene.first.start_attributes),
        ));
    } else {
        lemma_reverse_shown(scene, clusters, k - 1);
        lemma_after_keeps_step(
            scene,
            scene.run(clusters, k - 1),
            scene.byte_of(clusters, k - 1),
            clusters[k - 1],
        );
    }
}

/// The scene without its highlights.
pub open spec fn unlit(scene: Scene) -> Scene {
    Scene { highlights: Seq::empty(), ..scene }
}

/// Whether two drawings stand at the same place of the same text.
pub open spec fn same_place(a: Brush, b: Brush) -> bool {
    &&& a.row == b.row
    &&& a.cells_in_line == b.cells_in_line
    &&& a.next_attr == b.next_attr
    &&& a.reversed == b.reversed
    &&& a.done == b.done
}

/// Style changes keep two drawings at the same place.
proof fn lemma_styles_same_place(lit: Scene, plain: Scene, a: Brush, b: Brush, byte: nat)
    requires
        lit.attrs == plain.attrs,
        same_place(a, b),
    ensures
        same_place(lit.styles(a, byte), plain.styles(b, byte)),
    decreases lit.attrs.len() - a.next_attr,
{
    if a.next_attr < lit.attrs.len() && lit.attrs[a.next_attr as int].0 <= byte {
        let change = lit.attrs[a.next_attr as int].1;
        lemma_styles_same_place(
            lit,
            plain,
            Brush {
                next_attr: a.next_attr + 1,
                reversed: Scene::reverse_after(change, a.reversed),
                ops: a.ops.push(Scene::shown(change, a.lit)),
                ..a
            },
            Brush {
                next_attr: b.next_attr + 1,
                reversed: Scene::reverse_after(change, b.reversed),
                ops: b.ops.push(Scene::shown(change, b.lit)),
                ..b
            },
            byte,
        );
    }
}

/// Highlights change neither where the rows break, nor which style changes
/// are applied, nor what the text asks for: a drawing with highlights and
/// the drawing without stand at the same place after every cluster, and the
/// drawing without is never inside a highlight.
pub proof fn lemma_highlights_leave_place(scene: Scene, clusters: Seq<ClusterModel>, k: int)
    requires
        0 <= k <= clusters.len(),
    ensures
        same_place(scene.run(clusters, k), unlit(scene).run(clusters, k)),
        !unlit(scene).run(clusters, k).lit,
    decreases k,
{
    let plain = unlit(scene);
    if k == 0 {
    } else {
        lemma_highlights_leave_place(scene, clusters, k - 1);
        let a = scene.run(clusters, k - 1);
        let b = plain.run(clusters, k - 1);
        let byte = scene.byte_of(clusters, k - 1);
        let cluster = clusters[k - 1];
        assert(plain.byte_of(clusters, k - 1) == byte);
        if !a.done && !(scene.breaks(a, cluster) && a.row + 1 >= scene.rows) {
            let placed_a = if scene.breaks(a, cluster) {
                Brush { row: a.row + 1, cells_in_line: 0, ops: a.ops.push(OpModel::NextRow), ..a }
            } else {
                a
            };
            let placed_b = if plain.breaks(b, cluster) {
                Brush { row: b.row + 1, cells_in_line: 0, ops: b.ops.push(OpModel::NextRow), ..b }
            } else {
                b
            };
            if !cluster.is_line_feed() {
                lemma_lights_keep(scene, placed_a, byte);
                lemma_lights_keep(plain, placed_b, byte);
                let lighted_a = scene.lights(placed_a, byte);
                let lighted_b = plain.lights(placed_b, byte);
                assert(lighted_b == placed_b);
                lemma_styles_same_place(scene, plain, lighted_a, lighted_b, byte);
                lemma_styles_keep(plain, lighted_b, byte);
            }
        }
    }
}

/// With one highlight, the drawing has either not passed it, or has left it
/// at a cluster at or behind its end.
proof fn lemma_one_highlight(
    scene: Scene,
    clusters: Seq<ClusterModel>,
    k: int,
    start: usize,
    end: usize,
)
    requires
        scene.highlights == seq![(start, end)],
        0 <= k <= clusters.len(),
    ensures
        scene.run(clusters, k).next_highlight <= 1,
        scene.run(clusters, k).lit ==> scene.run(clusters, k).next_highlight == 0,
        scene.run(clusters, k).next_highlight == 1 ==> end <= scene.byte_of(clusters, k),
    decreases k,
{
    if k == 0 {
        let keys = range_ends(scene.highlights);
        assert(keys.len() == 1 && keys[0] == end);
        assert(keys.drop_first().len() == 0);
        assert(leading_below(keys.drop_first(), scene.first.start_byte as int + 1) == 0);
        assert(offset(clusters, 0) == 0);
    } else {
        lemma_one_highlight(scene, clusters, k - 1, start, end);
        lemma_offset_monotonic(clusters, k - 1, k);
        let before = scene.run(clusters, k - 1);
        let byte = scene.byte_of(clusters, k - 1);
        let cluster = clusters[k - 1];
        if !before.done && !(scene.breaks(before, cluster) && before.row + 1 >= scene.rows) {
            let placed = if scene.breaks(before, cluster) {
                Brush {
                    row: before.row + 1,
                    cells_in_line: 0,
                    ops: before.ops.push(OpModel::NextRow),
                    ..before
                }
            } else {
                before
            };
            if !cluster.is_line_feed() {
                lemma_styles_keep(scene, scene.lights(placed, byte), byte);
            }
        }
    }
}

/// A highlight turns reverse video around: where a cluster that begins
/// inside the highlighted range is written, the screen shows the opposite of
/// what it shows there when nothing is highlighted.
pub proof fn lemma_highlight_inverts(
    scene: Scene,
    clusters: Seq<ClusterModel>,
    k: int,
    start: usize,
    end: usize,
)
    requires
        scene.highlights == seq![(start, end)],
        0 <= k < clusters.len(),
        !clusters[k].is_line_feed(),
        !scene.run(clusters, k + 1).done,
        start <= scene.byte_of(clusters, k) < end,
    ensures
        scene.run(clusters, k + 1).ops.last() == OpModel::Text(clusters[k].text),
        unlit(scene).run(clusters, k + 1).ops.last() == OpModel::Text(clusters[k].text),
        shows_reverse(scene.run(clusters, k + 1).ops) == !shows_reverse(
            unlit(scene).run(clusters, k + 1).ops,
        ),
{
    let plain = unlit(scene);
    lemma_reverse_shown(scene, clusters, k + 1);
    lemma_reverse_shown(plain, clusters, k + 1);
    lemma_highlights_leave_place(scene, clusters, k + 1);
    lemma_highlights_leave_place(scene, clusters, k);
    lemma_one_highlight(scene, clusters, k, start, end);
    let before = scene.run(clusters, k);
    let byte = scene.byte_of(clusters, k);
    let cluster = clusters[k];
    let placed = if scene.breaks(before, cluster) {
        Brush {
            row: before.row + 1,
            cells_in_line: 0,
            ops: before.ops.push(OpModel::NextRow),
            ..before
        }
    } else {
        before
    };
    let lighted = scene.lights(placed, byte);
    assert(lighted.lit);
    lemma_styles_keep(scene, lighted, byte);
    assert(scene.run(clusters, k + 1).lit);
    let plain_before = plain.run(clusters, k);
    assert(!plain_before.done);
}

/// A style without what it says of reverse video.
pub open spec fn unreversed(style: Style) -> Style {
    Style { reverse: false, ..style }
}

/// Of a sequence of operations, those that write text or go to the next
/// row.
pub open spec fn written(ops: Seq<OpModel>) -> Seq<OpModel>
    decreases ops.len(),
{
    if ops.len() == 0 {
        Seq::empty()
    } else if ops.last() is Text || ops.last() is NextRow {
        written(ops.drop_last()).push(ops.last())
    } else {
        written(ops.drop_last())
    }
}

/// What one more operation adds to those that write.
proof fn lemma_written_push(ops: Seq<OpModel>, op: OpModel)
    ensures
        written(ops.push(op)) == if op is Text || op is NextRow {
            written(ops).push(op)
        } else {
            written(ops)
        },
{
    assert(ops.push(op).drop_last() =~= ops);
    assert(ops.push(op).last() == op);
}

/// Whether two sequences of operations write the same and set the same
/// style, but for reverse video.
pub open spec fn same_but_reverse(a: Seq<OpModel>, b: Seq<OpModel>) -> bool {
    &&& written(a) == written(b)
    &&& unreversed(style_shown(a)) == unreversed(style_shown(b))
}

/// Entering or leaving a highlight writes nothing and changes nothing of
/// the style but reverse video.
proof fn lemma_lights_only_reverse(scene: Scene, brush: Brush, byte: nat)
    ensures
        same_but_reverse(scene.lights(brush, byte).ops, brush.ops),
{
    lemma_style_shown_push(brush.ops, OpModel::Highlight(brush.reversed));
    lemma_style_shown_push(brush.ops, OpModel::Highlight(!brush.reversed));
    lemma_written_push(brush.ops, OpModel::Highlight(brush.reversed));
    lemma_written_push(brush.ops, OpModel::Highlight(!brush.reversed));
}

/// One style change, shown inside a highlight or outside, leaves two
/// styles the same but for reverse video if they were so.
proof fn lemma_change_only_reverse(
    a: Style,
    b: Style,
    change: StyleChange,
    lit_a: bool,
    lit_b: bool,
)
    requires
        unreversed(a) == unreversed(b),
    ensures
        unreversed(style_after(a, Scene::shown(change, lit_a))) == unreversed(
            style_after(b, Scene::shown(change, lit_b)),
        ),
        !(Scene::shown(change, lit_a) is Text),
        !(Scene::shown(change, lit_a) is NextRow),
{
    match change {
        StyleChange::Reset => {},
        StyleChange::Apply(attr) => {
            match attr {
                Attr::Intensity(_) => {},
                Attr::Underline(_) => {},
                Attr::Italic(_) => {},
                Attr::Blink(_) => {},
                Attr::Reverse(_) => {},
                Attr::StrikeThrough(_) => {},
                Attr::Invisible(_) => {},
                Attr::Foreground(_) => {},
                Attr::Background(_) => {},
            }
        },
    }
}

/// The same style changes, applied inside a highlight and outside, write
/// nothing and leave the style the same but for reverse video.
proof fn lemma_styles_only_reverse(lit: Scene, plain: Scene, a: Brush, b: Brush, byte: nat)
    requires
        lit.attrs == plain.attrs,
        a.next_attr == b.next_attr,
        same_but_reverse(a.ops, b.ops),
    ensures
        same_but_reverse(lit.styles(a, byte).ops, plain.styles(b, byte).ops),
    decreases lit.attrs.len() - a.next_attr,
{
    if a.next_attr < lit.attrs.len() && lit.attrs[a.next_attr as int].0 <= byte {
        let change = lit.attrs[a.next_attr as int].1;
        let op_a = Scene::shown(change, a.lit);
        let op_b = Scene::shown(change, b.lit);
        lemma_change_only_reverse(
            style_shown(a.ops),
            style_shown(b.ops),
            change,
            a.lit,
            b.lit,
        );
        lemma_style_shown_push(a.ops, op_a);
        lemma_style_shown_push(b.ops, op_b);
        lemma_written_push(a.ops, op_a);
        lemma_written_push(b.ops, op_b);
        lemma_styles_only_reverse(
            lit,
            plain,
            Brush {
                next_attr: a.next_attr + 1,
                reversed: Scene::reverse_after(change, a.reversed),
                ops: a.ops.push(op_a),
                ..a
            },
            Brush {
                next_attr: b.next_attr + 1,
                reversed: Scene::reverse_after(change, b.reversed),
                ops: b.ops.push(op_b),
                ..b
            },
            byte,
        );
    }
}

/// A drawing with highlights and the drawing without write the same and
/// set the same style, but for reverse video, after every cluster.
proof fn lemma_highlights_only_reverse(scene: Scene, clusters: Seq<ClusterModel>, k: int)
    requires
        0 <= k <= clusters.len(),
    ensures
        same_but_reverse(scene.run(clusters, k).ops, unlit(scene).run(clusters, k).ops),
    decreases k,
{
    let plain = unlit(scene);
    if k > 0 {
        lemma_highlights_only_reverse(scene, clusters, k - 1);
        lemma_highlights_leave_place(scene, clusters, k - 1);
        let a = scene.run(clusters, k - 1);
        let b = plain.run(clusters, k - 1);
        let byte = scene.byte_of(clusters, k - 1);
        let cluster = clusters[k - 1];
        assert(plain.byte_of(clusters, k - 1) == byte);
        if !a.done && !(scene.breaks(a, cluster) && a.row + 1 >= scene.rows) {
            let placed_a = if scene.breaks(a, cluster) {
                Brush { row: a.row + 1, cells_in_line: 0, ops: a.ops.push(OpModel::NextRow), ..a }
            } else {
                a
            };
            let placed_b = if plain.breaks(b, cluster) {
                Brush { row: b.row + 1, cells_in_line: 0, ops: b.ops.push(OpModel::NextRow), ..b }
            } else {
                b
            };
            lemma_style_shown_push(a.ops, OpModel::NextRow);
            lemma_style_shown_push(b.ops, OpModel::NextRow);
            lemma_written_push(a.ops, OpModel::NextRow);
            lemma_written_push(b.ops, OpModel::NextRow);
            assert(same_but_reverse(placed_a.ops, placed_b.ops));
            if !cluster.is_line_feed() {
                let lighted_a = scene.lights(placed_a, byte);
                let lighted_b = plain.lights(placed_b, byte);
                lemma_lights_only_reverse(scene, placed_a, byte);
                lemma_lights_keep(scene, placed_a, byte);
                assert(lighted_b == placed_b);
                lemma_styles_only_reverse(scene, plain, lighted_a, lighted_b, byte);
                let styled_a = scene.styles(lighted_a, byte);
                let styled_b = plain.styles(lighted_b, byte);
                let text = OpModel::Text(cluster.text);
                lemma_style_shown_push(styled_a.ops, text);
                lemma_style_shown_push(styled_b.ops, text);
                lemma_written_push(styled_a.ops, text);
                lemma_written_push(styled_b.ops, text);
                lemma_styles_keep(scene, lighted_a, byte);
                lemma_styles_keep(plain, lighted_b, byte);
            }
        }
    }
}

/// A highlight changes nothing but reverse video: after every cluster, the
/// drawing with highlights has written the same texts and row breaks, in
/// the same order, as the drawing without; and the style in effect is the
/// same, with reverse video turned around if the drawing stands inside a
/// highlight and not otherwise.
pub proof fn lemma_highlight_only_reverses(scene: Scene, clusters: Seq<ClusterModel>, k: int)
    requires
        0 <= k <= clusters.len(),
    ensures
        written(scene.run(clusters, k).ops) == written(unlit(scene).run(clusters, k).ops),
        style_shown(scene.run(clusters, k).ops) == (Style {
            reverse: style_shown(unlit(scene).run(clusters, k).ops).reverse != scene.run(
                clusters,
                k,
            ).lit,
            ..style_shown(unlit(scene).run(clusters, k).ops)
        }),
{
    lemma_highlights_only_reverse(scene, clusters, k);
    lemma_highlights_leave_place(scene, clusters, k);
    lemma_reverse_shown(scene, clusters, k);
    lemma_reverse_shown(unlit(scene), clusters, k);
}

/// A highlight leaves the text as it is: the whole drawing with highlights
/// writes the same texts and row breaks, in the same order, as the drawing
/// without.
pub proof fn lemma_highlight_keeps_text(scene: Scene, clusters: Seq<ClusterModel>)
    ensures
        written(render_model(scene, clusters)) == written(render_model(unlit(scene), clusters)),
{
    lemma_highlight_only_reverses(scene, clusters, clusters.len() as int);
}

/// Whether cluster `k` is written: it is no line feed, and the last row was
/// not full before it.
pub open spec fn is_written(scene: Scene, clusters: Seq<ClusterModel>, k: int) -> bool {
    !clusters[k].is_line_feed() && !scene.run(clusters, k + 1).done
}

/// Whether, before cluster `k`, the drawing has had a chance to enter the
/// highlight that begins at `start` and ends at `end`: the first row begins
/// at or behind its end, or a cluster at or behind its start was written.
pub open spec fn reached_before(
    scene: Scene,
    clusters: Seq<ClusterModel>,
    k: int,
    start: usize,
    end: usize,
) -> bool {
    ||| end <= scene.first.start_byte
    ||| exists|j: int|
        0 <= j < k && #[trigger] is_written(scene, clusters, j) && start <= scene.byte_of(
            clusters,
            j,
        )
}

/// Whether the drawing is inside its one highlight or has passed it.
spec fn entered(brush: Brush) -> bool {
    brush.lit || brush.next_highlight == 1
}

/// What one cluster does to a drawing with one highlight: a written cluster
/// leaves the highlight if it stands at or behind its end, and else enters
/// it if it stands at or behind its start and the highlight is still to
/// come; any other cluster changes nothing.
proof fn lemma_step_with_one_highlight(
    scene: Scene,
    clusters: Seq<ClusterModel>,
    k: int,
    start: usize,
    end: usize,
)
    requires
        scene.highlights == seq![(start, end)],
        0 <= k < clusters.len(),
    ensures
        ({
            let before = scene.run(clusters, k);
            let after = scene.run(clusters, k + 1);
            let byte = scene.byte_of(clusters, k);
            if is_written(scene, clusters, k) {
                if before.lit {
                    &&& after.lit == (byte < end)
                    &&& after.next_highlight == if byte < end {
                        0nat
                    } else {
                        1nat
                    }
                } else {
                    &&& after.lit == (before.next_highlight == 0 && start <= byte)
                    &&& after.next_highlight == before.next_highlight
                }
            } else {
                &&& after.lit == before.lit
                &&& after.next_highlight == before.next_highlight
            }
        }),
{
    lemma_one_highlight(scene, clusters, k, start, end);
    let before = scene.run(clusters, k);
    let byte = scene.byte_of(clusters, k);
    let cluster = clusters[k];
    if !before.done && !(scene.breaks(before, cluster) && before.row + 1 >= scene.rows) {
        let placed = if scene.breaks(before, cluster) {
            Brush {
                row: before.row + 1,
                cells_in_line: 0,
                ops: before.ops.push(OpModel::NextRow),
                ..before
            }
        } else {
            before
        };
        if !cluster.is_line_feed() {
            lemma_styles_keep(scene, scene.lights(placed, byte), byte);
        }
    }
}

/// A drawing that has not reached the start of its one highlight is not
/// inside it.
proof fn lemma_unlit_before(
    scene: Scene,
    clusters: Seq<ClusterModel>,
    k: int,
    start: usize,
    end: usize,
)
    requires
        scene.highlights == seq![(start, end)],
        0 <= k <= clusters.len(),
        k > 0 ==> scene.byte_of(clusters, k - 1) < start,
    ensures
        !scene.run(clusters, k).lit,
    decreases k,
{
    if k > 0 {
        if k > 1 {
            lemma_offset_monotonic(clusters, k - 2, k - 1);
        }
        lemma_unlit_before(scene, clusters, k - 1, start, end);
        lemma_step_with_one_highlight(scene, clusters, k - 1, start, end);
    }
}

/// A drawing that is inside its one highlight or has passed it stays so.
proof fn lemma_entered_stays(
    scene: Scene,
    clusters: Seq<ClusterModel>,
    i: int,
    k: int,
    start: usize,
    end: usize,
)
    requires
        scene.highlights == seq![(start, end)],
        0 <= i <= k <= clusters.len(),
        entered(scene.run(clusters, i)),
    ensures
        entered(scene.run(clusters, k)),
    decreases k - i,
{
    if i < k {
        lemma_entered_stays(scene, clusters, i, k - 1, start, end);
        lemma_step_with_one_highlight(scene, clusters, k - 1, start, end);
        lemma_one_highlight(scene, clusters, k - 1, start, end);
    }
}

/// Outside a highlight the drawing is as if nothing were highlighted: where
/// a cluster is written that begins before the highlighted range, or at or
/// behind its end, the style in effect is the one of the drawing without
/// the highlight.
///
/// The first cluster that is written at or behind the start of the range
/// is shown highlighted wherever it begins; so for a cluster behind the
/// range, the drawing must have reached the range before.
pub proof fn lemma_highlight_leaves_rest(
    scene: Scene,
    clusters: Seq<ClusterModel>,
    k: int,
    start: usize,
    end: usize,
)
    requires
        scene.highlights == seq![(start, end)],
        0 <= k < clusters.len(),
        is_written(scene, clusters, k),
        scene.byte_of(clusters, k) < start || (end <= scene.byte_of(clusters, k) && reached_before(
            scene,
            clusters,
            k,
            start,
            end,
        )),
    ensures
        scene.run(clusters, k + 1).ops.last() == OpModel::Text(clusters[k].text),
        unlit(scene).run(clusters, k + 1).ops.last() == OpModel::Text(clusters[k].text),
        style_shown(scene.run(clusters, k + 1).ops) == style_shown(
            unlit(scene).run(clusters, k + 1).ops,
        ),
{
    let byte = scene.byte_of(clusters, k);
    if byte < start {
        lemma_unlit_before(scene, clusters, k + 1, start, end);
    } else {
        if end <= scene.first.start_byte {
            lemma_one_highlight(scene, clusters, 0, start, end);
            let keys = range_ends(scene.highlights);
            assert(keys.len() == 1 && keys[0] == end);
            assert(keys.drop_first().len() == 0);
            assert(leading_below(keys.drop_first(), scene.first.start_byte as int + 1) == 0);
            assert(entered(scene.run(clusters, 0)));
            lemma_entered_stays(scene, clusters, 0, k, start, end);
        } else {
            let j = choose|j: int|
                0 <= j < k && #[trigger] is_written(scene, clusters, j) && start <= scene.byte_of(
                    clusters,
                    j,
                );
            lemma_step_with_one_highlight(scene, clusters, j, start, end);
            lemma_one_highlight(scene, clusters, j, start, end);
            assert(entered(scene.run(clusters, j + 1)));
            lemma_entered_stays(scene, clusters, j + 1, k, start, end);
        }
        lemma_step_with_one_highlight(scene, clusters, k, start, end);
        lemma_one_highlight(scene, clusters, k, start, end);
    }
    assert(!scene.run(clusters, k + 1).lit);
    lemma_highlight_only_reverses(scene, clusters, k + 1);
    lemma_written_cluster(scene, clusters, k);
    lemma_highlights_leave_place(scene, clusters, k + 1);
    lemma_written_cluster(unlit(scene), clusters, k);
}

/// A cluster that is written is the last thing drawn when it is reached.
proof fn lemma_written_cluster(scene: Scene, clusters: Seq<ClusterModel>, k: int)
    requires
        0 <= k < clusters.len(),
        is_written(scene, clusters, k),
    ensures
        scene.run(clusters, k + 1).ops.last() == OpModel::Text(clusters[k].text),
{
}

/// Inside a highlight nothing but reverse video differs: where a cluster
/// that begins inside the highlighted range is written, every attribute
/// other than reverse video is as in the drawing without the highlight,
/// and reverse video is the opposite.
pub proof fn lemma_highlight_keeps_other_attributes(
    scene: Scene,
    clusters: Seq<ClusterModel>,
    k: int,
    start: usize,
    end: usize,
)
    requires
        scene.highlights == seq![(start, end)],
        0 <= k < clusters.len(),
        is_written(scene, clusters, k),
        start <= scene.byte_of(clusters, k) < end,
    ensures
        style_shown(scene.run(clusters, k + 1).ops) == (Style {
            reverse: !style_shown(unlit(scene).run(clusters, k + 1).ops).reverse,
            ..style_shown(unlit(scene).run(clusters, k + 1).ops)
        }),
{
    lemma_one_highlight(scene, clusters, k, start, end);
    lemma_step_with_one_highlight(scene, clusters, k, start, end);
    lemma_highlight_only_reverses(scene, clusters, k + 1);
}

/// An operation without what it says of reverse video.
pub open spec fn erased(op: OpModel) -> OpModel {
    match op {
        OpModel::SetStyle(style) => OpModel::SetStyle(Style { reverse: false, ..style }),
        OpModel::Attr(Attr::Reverse(_)) => OpModel::Attr(Attr::Reverse(false)),
        other => other,
    }
}

/// Whether an operation sets the style or an attribute.
pub open spec fn is_change(op: OpModel) -> bool {
    op is SetStyle || op is Attr
}

/// Of a sequence of operations, those that set the style or an attribute,
/// without what they say of reverse video.
pub open spec fn change_ops(ops: Seq<OpModel>) -> Seq<OpModel>
    decreases ops.len(),
{
    if ops.len() == 0 {
        Seq::empty()
    } else if is_change(ops.last()) {
        change_ops(ops.drop_last()).push(erased(ops.last()))
    } else {
        change_ops(ops.drop_last())
    }
}

/// The operations that show the style changes from index `from` up to index
/// `to`, without what they say of reverse video.
pub open spec fn changes_between(attrs: Seq<(usize, StyleChange)>, from: int, to: int) -> Seq<
    OpModel,
> {
    Seq::new((to - from) as nat, |i: int| erased(Scene::shown(attrs[from + i].1, false)))
}

/// What one more operation adds to the style-setting operations.
proof fn lemma_change_ops_push(ops: Seq<OpModel>, op: OpModel)
    ensures
        change_ops(ops.push(op)) == if is_change(op) {
            change_ops(ops).push(erased(op))
        } else {
            change_ops(ops)
        },
{
    assert(ops.push(op).drop_last() =~= ops);
    assert(ops.push(op).last() == op);
}

/// How far the style changes of a drawing have been applied.
pub open spec fn changes_applied(scene: Scene, brush: Brush, byte: int) -> bool {
    let from = scene.start().next_attr as int;
    &&& from <= brush.next_attr <= scene.attrs.len()
    &&& change_ops(brush.ops) == seq![
        erased(OpModel::SetStyle(scene.first.start_attributes)),
    ] + changes_between(scene.attrs, from, brush.next_attr as int)
    &&& forall|i: int| 0 <= i < brush.next_attr ==> (#[trigger] scene.attrs[i]).0 <= byte
}

/// Applying the style changes up to a byte applies each of them once, in
/// their order, and stops at the first one behind the byte.
proof fn lemma_styles_apply(scene: Scene, brush: Brush, byte: nat)
    requires
        changes_applied(scene, brush, byte as int),
    ensures
        changes_applied(scene, scene.styles(brush, byte), byte as int),
        scene.styles(brush, byte).next_attr < scene.attrs.len() ==> scene.attrs[scene.styles(
            brush,
            byte,
        ).next_attr as int].0 > byte,
    decreases scene.attrs.len() - brush.next_attr,
{
    if brush.next_attr < scene.attrs.len() && scene.attrs[brush.next_attr as int].0 <= byte {
        let from = scene.start().next_attr as int;
        let change = scene.attrs[brush.next_attr as int].1;
        let op = Scene::shown(change, brush.lit);
        let next = Brush {
            next_attr: brush.next_attr + 1,
            reversed: Scene::reverse_after(change, brush.reversed),
            ops: brush.ops.push(op),
            ..brush
        };
        lemma_change_ops_push(brush.ops, op);
        assert(erased(op) == erased(Scene::shown(change, false)));
        assert(changes_between(scene.attrs, from, next.next_attr as int) =~= changes_between(
            scene.attrs,
            from,
            brush.next_attr as int,
        ).push(erased(op)));
        assert(change_ops(next.ops) =~= seq![
            erased(OpModel::SetStyle(scene.first.start_attributes)),
        ] + changes_between(scene.attrs, from, next.next_attr as int));
        lemma_styles_apply(scene, next, byte);
    }
}

/// Every style change is applied exactly once and in the order of the
/// text: after any number of clusters, the operations that set the style
/// are the style of the first row and then the style changes from the first
/// one at or behind the start of the row, one after the other with none left
/// out, up to the one to come next; and none of them stands behind the
/// cluster that was reached.
pub proof fn lemma_changes_in_order(scene: Scene, clusters: Seq<ClusterModel>, k: int)
    requires
        0 <= k <= clusters.len(),
    ensures
        changes_applied(scene, scene.run(clusters, k), scene.byte_of(clusters, k) as int),
    decreases k,
{
    let from = scene.start().next_attr as int;
    if k == 0 {
        let keys = change_offsets(scene.attrs);
        lemma_leading_below_splits(keys, scene.first.start_byte as int);
        assert(offset(clusters, 0) == 0);
        assert forall|i: int| 0 <= i < from implies (#[trigger] scene.attrs[i]).0
            <= scene.first.start_byte by {
            assert(keys[i] < scene.first.start_byte);
        }
        lemma_change_ops_push(
            Seq::<OpModel>::empty(),
            OpModel::SetStyle(scene.first.start_attributes),
        );
        assert(scene.start().ops =~= Seq::<OpModel>::empty().push(
            OpModel::SetStyle(scene.first.start_attributes),
        ));
        assert(changes_between(scene.attrs, from, from) =~= Seq::<OpModel>::empty());
        assert(change_ops(scene.start().ops) =~= seq![
            erased(OpModel::SetStyle(scene.first.start_attributes)),
        ] + changes_between(scene.attrs, from, from));
    } else {
        lemma_changes_in_order(scene, clusters, k - 1);
        lemma_offset_monotonic(clusters, k - 1, k);
        let before = scene.run(clusters, k - 1);
        let byte = scene.byte_of(clusters, k - 1);
        let cluster = clusters[k - 1];
        if !before.done && !(scene.breaks(before, cluster) && before.row + 1 >= scene.rows) {
            let placed = if scene.breaks(before, cluster) {
                Brush {
                    row: before.row + 1,
                    cells_in_line: 0,
                    ops: before.ops.push(OpModel::NextRow),
                    ..before
                }
            } else {
                before
            };
            lemma_change_ops_push(before.ops, OpModel::NextRow);
            if !cluster.is_line_feed() {
                let lighted = scene.lights(placed, byte);
                lemma_change_ops_push(placed.ops, OpModel::Highlight(placed.reversed));
                lemma_change_ops_push(placed.ops, OpModel::Highlight(!placed.reversed));
                assert(changes_applied(scene, lighted, byte as int));
                lemma_styles_apply(scene, lighted, byte);
                let styled = scene.styles(lighted, byte);
                lemma_change_ops_push(styled.ops, OpModel::Text(cluster.text));
            }
        }
    }
}

/// Of a sequence of operations, those that neither write text nor go to
/// the next row.
pub open spec fn styling(ops: Seq<OpModel>) -> Seq<OpModel>
    decreases ops.len(),
{
    if ops.len() == 0 {
        Seq::empty()
    } else if ops.last() is Text || ops.last() is NextRow {
        styling(ops.drop_last())
    } else {
        styling(ops.drop_last()).push(ops.last())
    }
}

/// What one more operation adds to those that do not write.
proof fn lemma_styling_push(ops: Seq<OpModel>, op: OpModel)
    ensures
        styling(ops.push(op)) == if op is Text || op is NextRow {
            styling(ops)
        } else {
            styling(ops).push(op)
        },
{
    assert(ops.push(op).drop_last() =~= ops);
    assert(ops.push(op).last() == op);
}

/// The operations that show the style changes from index `from` up to
/// index `to` where nothing is highlighted: a reset as the style of
/// unstyled text, any other change as the attribute that it sets.
pub open spec fn changes_shown(attrs: Seq<(usize, StyleChange)>, from: int, to: int) -> Seq<
    OpModel,
> {
    Seq::new((to - from) as nat, |i: int| Scene::shown(attrs[from + i].1, false))
}

/// How far a drawing without highlights has come: besides text and row
/// breaks it holds the style of the first row and then the style changes
/// from the first one at or behind the start of the row, each once and as
/// it stands, in their order, up to the one to come next.
pub open spec fn drawn_plainly(scene: Scene, brush: Brush) -> bool {
    let from = scene.start().next_attr as int;
    &&& !brush.lit
    &&& from <= brush.next_attr <= scene.attrs.len()
    &&& styling(brush.ops) == seq![OpModel::SetStyle(scene.first.start_attributes)]
        + changes_shown(scene.attrs, from, brush.next_attr as int)
}

/// Whether the style in effect is the one that the changes applied so far
/// add up to.
pub open spec fn style_in_step(scene: Scene, brush: Brush) -> bool {
    style_shown(brush.ops) == style_of(scene.attrs, brush.next_attr as int)
}

/// Applying the style changes up to a byte, where nothing is highlighted,
/// shows each as it stands and keeps the style in step.
proof fn lemma_styles_plainly(scene: Scene, brush: Brush, byte: nat)
    requires
        drawn_plainly(scene, brush),
    ensures
        drawn_plainly(scene, scene.styles(brush, byte)),
        style_in_step(scene, brush) ==> style_in_step(scene, scene.styles(brush, byte)),
    decreases scene.attrs.len() - brush.next_attr,
{
    if brush.next_attr < scene.attrs.len() && scene.attrs[brush.next_attr as int].0 <= byte {
        let from = scene.start().next_attr as int;
        let change = scene.attrs[brush.next_attr as int].1;
        let op = Scene::shown(change, brush.lit);
        let next = Brush {
            next_attr: brush.next_attr + 1,
            reversed: Scene::reverse_after(change, brush.reversed),
            ops: brush.ops.push(op),
            ..brush
        };
        lemma_styling_push(brush.ops, op);
        lemma_style_shown_push(brush.ops, op);
        assert(changes_shown(scene.attrs, from, next.next_attr as int) =~= changes_shown(
            scene.attrs,
            from,
            brush.next_attr as int,
        ).push(op));
        assert(styling(next.ops) =~= seq![OpModel::SetStyle(scene.first.start_attributes)]
            + changes_shown(scene.attrs, from, next.next_attr as int));
        assert(style_after(style_shown(brush.ops), op) == style_shown(brush.ops).changed(change))
            by {
            match change {
                StyleChange::Reset => {},
                StyleChange::Apply(attr) => {
                    match attr {
                        Attr::Reverse(_) => {},
                        _ => {},
                    }
                },
            }
        }
        lemma_styles_plainly(scene, next, byte);
    }
}

/// Without highlights, every style change is drawn once, as it stands and
/// in the order of the text: after any number of clusters, the operations
/// other than text and row breaks are the style of the first row and then
/// the style changes from the first one at or behind the start of the row,
/// one after the other with none left out, up to the one to come next.
///
/// If the first row holds the style at its first byte, as the rows of a
/// flow do, the style in effect is always the one that the changes applied
/// so far add up to.
pub proof fn lemma_changes_exact(scene: Scene, clusters: Seq<ClusterModel>, k: int)
    requires
        scene.highlights.len() == 0,
        0 <= k <= clusters.len(),
    ensures
        drawn_plainly(scene, scene.run(clusters, k)),
        scene.first.start_attributes == style_before(scene.attrs, scene.first.start_byte as int)
            ==> style_in_step(scene, scene.run(clusters, k)),
    decreases k,
{
    let from = scene.start().next_attr as int;
    let seed = OpModel::SetStyle(scene.first.start_attributes);
    if k == 0 {
        lemma_leading_below_splits(
            change_offsets(scene.attrs),
            scene.first.start_byte as int,
        );
        lemma_styling_push(Seq::<OpModel>::empty(), seed);
        lemma_style_shown_push(Seq::<OpModel>::empty(), seed);
        assert(scene.start().ops =~= Seq::<OpModel>::empty().push(seed));
        assert(changes_shown(scene.attrs, from, from) =~= Seq::<OpModel>::empty());
        assert(styling(scene.start().ops) =~= seq![seed] + changes_shown(
            scene.attrs,
            from,
            from,
        ));
    } else {
        lemma_changes_exact(scene, clusters, k - 1);
        let before = scene.run(clusters, k - 1);
        let byte = scene.byte_of(clusters, k - 1);
        let cluster = clusters[k - 1];
        if !before.done && !(scene.breaks(before, cluster) && before.row + 1 >= scene.rows) {
            let placed = if scene.breaks(before, cluster) {
                Brush {
                    row: before.row + 1,
                    cells_in_line: 0,
                    ops: before.ops.push(OpModel::NextRow),
                    ..before
                }
            } else {
                before
            };
            lemma_styling_push(before.ops, OpModel::NextRow);
            lemma_style_shown_push(before.ops, OpModel::NextRow);
            if !cluster.is_line_feed() {
                let lighted = scene.lights(placed, byte);
                assert(lighted == placed);
                lemma_styles_plainly(scene, lighted, byte);
                lemma_styles_keep(scene, lighted, byte);
                let styled = scene.styles(lighted, byte);
                lemma_styling_push(styled.ops, OpModel::Text(cluster.text));
                lemma_style_shown_push(styled.ops, OpModel::Text(cluster.text));
            }
        }
    }
}

/// Without highlights, where a cluster is written, the style changes drawn
/// so far are exactly those that stand at or behind the start of the first
/// row and at or before the cluster, each once, as it stands and in their
/// order; and the cluster's text is drawn behind them.
pub proof fn lemma_changes_drawn(scene: Scene, clusters: Seq<ClusterModel>, k: int)
    requires
        scene.highlights.len() == 0,
        ascending(change_offsets(scene.attrs)),
        0 <= k < clusters.len(),
        is_written(scene, clusters, k),
    ensures
        ({
            let ops = scene.run(clusters, k + 1).ops;
            let from = leading_below(change_offsets(scene.attrs), scene.first.start_byte as int);
            let to = leading_below(
                change_offsets(scene.attrs),
                scene.byte_of(clusters, k) as int + 1,
            );
            &&& ops.last() == OpModel::Text(clusters[k].text)
            &&& from <= to <= scene.attrs.len()
            &&& styling(ops) == seq![OpModel::SetStyle(scene.first.start_attributes)]
                + changes_shown(scene.attrs, from as int, to as int)
            &&& forall|i: int|
                0 <= i < scene.attrs.len() ==> (from <= i < to <==> scene.first.start_byte <= (
                #[trigger] scene.attrs[i]).0 <= scene.byte_of(clusters, k))
        }),
{
    let keys = change_offsets(scene.attrs);
    let start = scene.first.start_byte as int;
    let byte = scene.byte_of(clusters, k) as int;
    lemma_changes_exact(scene, clusters, k + 1);
    lemma_changes_before_text(scene, clusters, k);
    lemma_leading_below_splits(keys, start);
    lemma_leading_below_splits(keys, byte + 1);
    assert forall|i: int| 0 <= i < scene.attrs.len() implies (leading_below(keys, start) <= i
        < leading_below(keys, byte + 1) <==> start <= (#[trigger] scene.attrs[i]).0 <= byte) by {
        assert(keys[i] == scene.attrs[i].0);
    }
}

/// A row is drawn the same from whichever row the drawing starts: where a
/// cluster is written in a drawing without highlights that starts at a row
/// holding the style at its first byte, the style in effect is the style
/// of unstyled text after all changes that stand at or before the cluster,
/// in order.
pub proof fn lemma_drawn_style(scene: Scene, clusters: Seq<ClusterModel>, k: int)
    requires
        scene.highlights.len() == 0,
        scene.first.start_attributes == style_before(scene.attrs, scene.first.start_byte as int),
        0 <= k < clusters.len(),
        is_written(scene, clusters, k),
    ensures
        scene.run(clusters, k + 1).ops.last() == OpModel::Text(clusters[k].text),
        style_shown(scene.run(clusters, k + 1).ops) == style_before(
            scene.attrs,
            scene.byte_of(clusters, k) as int + 1,
        ),
{
    lemma_changes_exact(scene, clusters, k + 1);
    lemma_changes_before_text(scene, clusters, k);
}

/// Every style change is applied before the text at its offset is written:
/// when a cluster is written, the style changes applied are exactly those
/// that stand at or before the cluster.
pub proof fn lemma_changes_before_text(scene: Scene, clusters: Seq<ClusterModel>, k: int)
    requires
        0 <= k < clusters.len(),
        !clusters[k].is_line_feed(),
        !scene.run(clusters, k + 1).done,
    ensures
        scene.run(clusters, k + 1).ops.last() == OpModel::Text(clusters[k].text),
        scene.run(clusters, k + 1).next_attr == leading_below(
            change_offsets(scene.attrs),
            scene.byte_of(clusters, k) as int + 1,
        ),
{
    lemma_changes_in_order(scene, clusters, k);
    let before = scene.run(clusters, k);
    let byte = scene.byte_of(clusters, k);
    let cluster = clusters[k];
    let placed = if scene.breaks(before, cluster) {
        Brush {
            row: before.row + 1,
            cells_in_line: 0,
            ops: before.ops.push(OpModel::NextRow),
            ..before
        }
    } else {
        before
    };
    lemma_change_ops_push(before.ops, OpModel::NextRow);
    let lighted = scene.lights(placed, byte);
    lemma_change_ops_push(placed.ops, OpModel::Highlight(placed.reversed));
    lemma_change_ops_push(placed.ops, OpModel::Highlight(!placed.reversed));
    assert(changes_applied(scene, lighted, byte as int));
    lemma_styles_apply(scene, lighted, byte);
    let styled = scene.styles(lighted, byte);
    let keys = change_offsets(scene.attrs);
    assert forall|i: int| 0 <= i < styled.next_attr implies keys[i] < byte + 1 by {
        assert(scene.attrs[i].0 <= byte);
    }
    lemma_leading_below(keys, byte as int + 1, styled.next_attr as int);
}

} // verus!
