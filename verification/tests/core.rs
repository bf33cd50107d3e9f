use ate::doc::Document;
use ate::escape::Event;
use ate::flow::{flow_clusters, Line};
use ate::op::Op;
use ate::render::{first_change_from, first_range_after, render_rows};
use ate::search::{find_matches, first_match_from, Search, SearchMutator};
use ate::state::{Shared, State};
use ate::style::{Attr, Color, Flash, Stroke, Style, StyleChange, Weight};
use ate::text::{byte_len, is_line_feed, segment, slice, tail, Cluster};
use ate::ui::{percent_label, render_lines, repeated};
use ate::view::DocumentView;
use std::rc::Rc;
use termwiz::color::SrgbaTuple;

fn doc(input: &str) -> Rc<Document> {
    Rc::new(Document::new(input.as_bytes()))
}

fn starts(lines: &[Line]) -> Vec<usize> {
    lines.iter().map(|l| l.start_byte).collect()
}

fn text(s: &str) -> Op {
    Op::Text(s.to_string())
}

// What the screen shows of reverse video when each piece of text is written.
fn reverse_at_text(ops: &[Op]) -> Vec<(String, bool)> {
    let mut reverse = false;
    let mut shown = vec![];
    for op in ops {
        match op {
            Op::SetStyle(style) => reverse = style.reverse,
            Op::Attr(Attr::Reverse(on)) => reverse = *on,
            Op::Highlight(on) => reverse = *on,
            Op::Text(text) => shown.push((text.clone(), reverse)),
            _ => {}
        }
    }
    shown
}

#[test]
fn text_and_line_feeds_are_kept_and_controls_dropped() {
    let doc = doc("a\tb\r\nc\x07d\u{e9}");
    assert_eq!("ab\ncd\u{e9}", doc.text());
    assert_eq!(&vec![(0, StyleChange::Reset)], doc.attrs());
    assert!(doc.links().is_empty());
}

#[test]
fn style_changes_are_recorded_in_order_at_their_offsets() {
    let doc = doc("a\x1b[1m\x1b[4m\u{e9}\x1b[0mb\x1b[7m");
    assert_eq!("a\u{e9}b", doc.text());
    assert_eq!(
        &vec![
            (0, StyleChange::Reset),
            (1, StyleChange::Apply(Attr::Intensity(Weight::Bold))),
            (1, StyleChange::Apply(Attr::Underline(Stroke::Single))),
            (3, StyleChange::Reset),
            (4, StyleChange::Apply(Attr::Reverse(true))),
        ],
        doc.attrs()
    );
}

#[test]
fn every_rendition_has_its_attribute() {
    let codes: Vec<(&str, StyleChange)> = vec![
        ("0", StyleChange::Reset),
        ("1", StyleChange::Apply(Attr::Intensity(Weight::Bold))),
        ("2", StyleChange::Apply(Attr::Intensity(Weight::Half))),
        ("22", StyleChange::Apply(Attr::Intensity(Weight::Normal))),
        ("3", StyleChange::Apply(Attr::Italic(true))),
        ("23", StyleChange::Apply(Attr::Italic(false))),
        ("4", StyleChange::Apply(Attr::Underline(Stroke::Single))),
        ("21", StyleChange::Apply(Attr::Underline(Stroke::Double))),
        ("4:3", StyleChange::Apply(Attr::Underline(Stroke::Curly))),
        ("4:4", StyleChange::Apply(Attr::Underline(Stroke::Dotted))),
        ("4:5", StyleChange::Apply(Attr::Underline(Stroke::Dashed))),
        ("24", StyleChange::Apply(Attr::Underline(Stroke::Off))),
        ("5", StyleChange::Apply(Attr::Blink(Flash::Slow))),
        ("6", StyleChange::Apply(Attr::Blink(Flash::Rapid))),
        ("25", StyleChange::Apply(Attr::Blink(Flash::Off))),
        ("7", StyleChange::Apply(Attr::Reverse(true))),
        ("27", StyleChange::Apply(Attr::Reverse(false))),
        ("8", StyleChange::Apply(Attr::Invisible(true))),
        ("28", StyleChange::Apply(Attr::Invisible(false))),
        ("9", StyleChange::Apply(Attr::StrikeThrough(true))),
        ("29", StyleChange::Apply(Attr::StrikeThrough(false))),
        ("31", StyleChange::Apply(Attr::Foreground(Color::Palette(1)))),
        ("39", StyleChange::Apply(Attr::Foreground(Color::Default))),
        ("42", StyleChange::Apply(Attr::Background(Color::Palette(2)))),
        ("49", StyleChange::Apply(Attr::Background(Color::Default))),
        ("38;5;200", StyleChange::Apply(Attr::Foreground(Color::Palette(200)))),
        (
            "38;2;1;2;3",
            StyleChange::Apply(Attr::Foreground(Color::TrueColor(SrgbaTuple::from((
                1u8, 2u8, 3u8,
            ))))),
        ),
        (
            "48;2;255;0;128",
            StyleChange::Apply(Attr::Background(Color::TrueColor(SrgbaTuple::from((
                255u8, 0u8, 128u8,
            ))))),
        ),
    ];
    for (code, change) in codes {
        let doc = doc(&format!("ab\x1b[{}mc", code));
        assert_eq!(
            &vec![(0, StyleChange::Reset), (2, change)],
            doc.attrs(),
            "code {}",
            code
        );
    }
}

#[test]
fn renditions_without_an_attribute_are_ignored() {
    for code in ["53", "55", "11", "73", "58;5;3"] {
        let doc = doc(&format!("ab\x1b[{}mc", code));
        assert_eq!("abc", doc.text(), "code {}", code);
        assert_eq!(&vec![(0, StyleChange::Reset)], doc.attrs(), "code {}", code);
    }
}

#[test]
fn events_build_the_same_document_as_bytes() {
    let events = vec![
        Event::Print('a'),
        Event::SetHyperlink(Some("u".to_string())),
        Event::Style(StyleChange::Apply(Attr::Italic(true))),
        Event::Print('\u{5bbd}'),
        Event::UnsupportedStyle,
        Event::LineFeed,
        Event::Other,
        Event::SetHyperlink(Some("v".to_string())),
        Event::Print('b'),
    ];
    let doc = Document::from_events(&events);
    assert_eq!("a\u{5bbd}\nb", doc.text());
    assert_eq!(
        &vec![
            (0, StyleChange::Reset),
            (1, StyleChange::Apply(Attr::Italic(true)))
        ],
        doc.attrs()
    );
    let links: Vec<(usize, usize, &str)> = doc
        .links()
        .iter()
        .map(|l| (l.start, l.end, l.uri.as_str()))
        .collect();
    assert_eq!(vec![(1, 5, "u"), (5, 6, "v")], links);
}

#[test]
fn a_link_left_open_ends_with_the_text() {
    let doc = doc("ab\x1b]8;;http://x\x1b\\cd");
    assert_eq!(1, doc.links().len());
    assert_eq!((2, 4), (doc.links()[0].start, doc.links()[0].end));
    assert_eq!("http://x", doc.links()[0].uri);
}

#[test]
fn clusters_and_their_widths() {
    let clusters = segment("a\u{5bbd}e\u{301}\n\u{1f468}\u{200d}\u{1f469}\u{200d}\u{1f467}");
    let seen: Vec<(&str, usize)> = clusters.iter().map(|c| (c.text, c.cells)).collect();
    assert_eq!(
        vec![
            ("a", 1),
            ("\u{5bbd}", 2),
            ("e\u{301}", 1),
            ("\n", 0),
            ("\u{1f468}\u{200d}\u{1f469}\u{200d}\u{1f467}", 2)
        ],
        seen
    );
    assert!(segment("").is_empty());
}

#[test]
fn bytes_and_slices() {
    assert_eq!(0, byte_len(""));
    assert_eq!(4, byte_len("a\u{5bbd}"));
    assert!(is_line_feed("\n"));
    assert!(!is_line_feed("\n\n"));
    assert!(!is_line_feed("a"));
    assert!(!is_line_feed(""));
    assert_eq!("\u{5bbd}b", tail("a\u{5bbd}b", 1));
    assert_eq!("", tail("ab", 2));
    assert_eq!("\u{5bbd}", slice("a\u{5bbd}b", 1, 4));
    assert_eq!("", slice("ab", 1, 1));
}

#[test]
fn plain_reflow() {
    let attrs = vec![(0, StyleChange::Reset)];
    let lines = DocumentView::flow(3, "Hi Bye", &attrs);
    assert_eq!(vec![0, 3], starts(&lines));
    assert_eq!(Style::new(), lines[1].start_attributes);
}

#[test]
fn flow_breaks_at_line_feeds_and_wide_clusters() {
    let attrs = vec![(0, StyleChange::Reset)];
    assert_eq!(vec![0], starts(&DocumentView::flow(3, "", &attrs)));
    assert_eq!(vec![0, 2, 3], starts(&DocumentView::flow(3, "a\n\nb", &attrs)));
    // two columns of three are taken: the next wide cluster does not fit
    assert_eq!(vec![0, 3, 6], starts(&DocumentView::flow(3, "\u{5bbd}\u{5bbd}\u{5bbd}", &attrs)));
    // a cluster wider than the row still begins a row of its own
    assert_eq!(vec![0, 0, 3], starts(&DocumentView::flow(1, "\u{5bbd}\u{5bbd}", &attrs)));
    assert_eq!(vec![0, 0, 1], starts(&DocumentView::flow(0, "ab", &attrs)));
}

#[test]
fn flow_of_given_clusters() {
    let clusters = vec![
        Cluster { text: "a", cells: 1 },
        Cluster { text: "b", cells: 2 },
        Cluster { text: "\n", cells: 0 },
        Cluster { text: "c", cells: 5 },
    ];
    let attrs = vec![
        (0, StyleChange::Reset),
        (1, StyleChange::Apply(Attr::Italic(true))),
        (2, StyleChange::Apply(Attr::Reverse(true))),
    ];
    let lines = flow_clusters(2, &clusters, &attrs);
    let mut both = Style::new();
    both.italic = true;
    both.reverse = true;
    assert_eq!(
        vec![
            Line { start_byte: 0, start_attributes: Style::new() },
            // the change at the row's own byte is left to the drawing
            Line { start_byte: 1, start_attributes: Style::new() },
            // the change that stands at the line feed is in the style
            Line { start_byte: 3, start_attributes: both },
            Line { start_byte: 3, start_attributes: both },
        ],
        lines
    );
}

#[test]
fn a_row_holds_the_style_at_its_first_byte() {
    let clusters = vec![
        Cluster { text: "r", cells: 1 },
        Cluster { text: "e", cells: 1 },
        Cluster { text: "d", cells: 1 },
        Cluster { text: "\n", cells: 0 },
        Cluster { text: "n", cells: 1 },
        Cluster { text: "e", cells: 1 },
        Cluster { text: "x", cells: 1 },
        Cluster { text: "t", cells: 1 },
    ];
    let attrs = vec![
        (0, StyleChange::Reset),
        (0, StyleChange::Apply(Attr::Foreground(Color::Palette(1)))),
        (3, StyleChange::Reset),
    ];
    let lines = flow_clusters(10, &clusters, &attrs);
    assert_eq!(
        vec![
            Line { start_byte: 0, start_attributes: Style::new() },
            Line { start_byte: 4, start_attributes: Style::new() },
        ],
        lines
    );
    // a change inside a cluster is in the style of the row behind it
    let clusters = vec![
        Cluster { text: "e\u{301}", cells: 1 },
        Cluster { text: "b", cells: 1 },
    ];
    let attrs = vec![
        (0, StyleChange::Reset),
        (1, StyleChange::Apply(Attr::Italic(true))),
        (3, StyleChange::Apply(Attr::Reverse(true))),
    ];
    let mut italic = Style::new();
    italic.italic = true;
    assert_eq!(
        vec![
            Line { start_byte: 0, start_attributes: Style::new() },
            Line { start_byte: 3, start_attributes: italic },
        ],
        flow_clusters(1, &clusters, &attrs)
    );
}

#[test]
fn a_row_is_drawn_the_same_from_any_row_before_it() {
    let doc = doc("\x1b[31mred\x1b[m\nnext\x1b[1;4m\nla\x1b[7mst\n\x1b[3m\nend");
    let view = DocumentView::new(Rc::clone(&doc), 3, 9);
    assert_eq!(vec![0, 4, 7, 9, 12, 14, 15], starts(view.lines()));
    assert_eq!(Style::new(), view.lines()[1].start_attributes);
    let mut whole = vec![];
    render_lines(&doc, &view, 0, 9, &[], &mut whole);
    let whole = style_at_text(&whole);
    for line in 0..view.lines().len() {
        let mut part = vec![];
        render_lines(&doc, &view, line, 9, &[], &mut part);
        let part = style_at_text(&part);
        assert_eq!(whole[whole.len() - part.len()..], part[..], "from row {}", line);
    }
}

#[test]
fn rows_put_together_are_the_text() {
    let input = "Hello \u{5bbd}\u{5bbd} world\n\nand e\u{301} more\n";
    let attrs = vec![(0, StyleChange::Reset)];
    for width in 0..12 {
        let lines = DocumentView::flow(width, input, &attrs);
        let mut joined = String::new();
        for i in 0..lines.len() {
            let end = if i + 1 < lines.len() {
                lines[i + 1].start_byte
            } else {
                input.len()
            };
            joined.push_str(slice(input, lines[i].start_byte, end));
        }
        assert_eq!(input, joined, "width {}", width);
    }
}

#[test]
fn binary_searches() {
    let attrs = vec![
        (0, StyleChange::Reset),
        (2, StyleChange::Reset),
        (2, StyleChange::Reset),
        (5, StyleChange::Reset),
    ];
    assert_eq!(0, first_change_from(&attrs, 0));
    assert_eq!(1, first_change_from(&attrs, 1));
    assert_eq!(1, first_change_from(&attrs, 2));
    assert_eq!(3, first_change_from(&attrs, 3));
    assert_eq!(4, first_change_from(&attrs, 6));
    let ranges = vec![(0, 2), (3, 3), (4, 9)];
    assert_eq!(0, first_range_after(&ranges, 1));
    assert_eq!(1, first_range_after(&ranges, 2));
    assert_eq!(2, first_range_after(&ranges, 3));
    assert_eq!(3, first_range_after(&ranges, 9));
    assert_eq!(0, first_range_after(&[], 9));
    let matches = vec![1, 4, 6];
    assert_eq!(0, first_match_from(&matches, 0));
    assert_eq!(1, first_match_from(&matches, 2));
    assert_eq!(1, first_match_from(&matches, 4));
    assert_eq!(3, first_match_from(&matches, 7));
}

#[test]
fn rows_of_given_clusters() {
    let clusters = vec![
        Cluster { text: "a", cells: 1 },
        Cluster { text: "b", cells: 1 },
        Cluster { text: "c", cells: 1 },
        Cluster { text: "\n", cells: 0 },
        Cluster { text: "d", cells: 1 },
    ];
    let attrs = vec![
        (0, StyleChange::Reset),
        (1, StyleChange::Apply(Attr::Italic(true))),
        (2, StyleChange::Apply(Attr::Reverse(true))),
        (2, StyleChange::Reset),
    ];
    let first = Line { start_byte: 0, start_attributes: Style::new() };
    let mut ops = vec![Op::NextRow];
    render_rows(&clusters, &attrs, &[(1, 3)], first, 2, 2, &mut ops);
    let mut lit = Style::new();
    lit.reverse = true;
    assert_eq!(
        vec![
            Op::NextRow,
            Op::SetStyle(Style::new()),
            Op::SetStyle(Style::new()),
            text("a"),
            Op::Highlight(true),
            Op::Attr(Attr::Italic(true)),
            text("b"),
            Op::NextRow,
            Op::Attr(Attr::Reverse(false)),
            Op::SetStyle(lit),
            text("c"),
        ],
        ops
    );
    // one row only: the drawing ends where the second row would begin
    let mut ops = vec![];
    render_rows(&clusters, &attrs, &[], first, 1, 2, &mut ops);
    assert_eq!(
        vec![
            Op::SetStyle(Style::new()),
            Op::SetStyle(Style::new()),
            text("a"),
            Op::Attr(Attr::Italic(true)),
            text("b"),
        ],
        ops
    );
}

#[test]
fn a_page_is_drawn_from_the_style_of_its_first_row() {
    let doc = doc("\x1b[1mab\x1b[3mcd\n\x1b[mef");
    let view = DocumentView::new(Rc::clone(&doc), 2, 5);
    assert_eq!(vec![0, 2, 5], starts(view.lines()));
    let mut bold = Style::new();
    bold.intensity = Weight::Bold;
    let mut ops = vec![];
    render_lines(&doc, &view, 1, 5, &[], &mut ops);
    assert_eq!(
        vec![
            Op::SetStyle(bold),
            Op::Attr(Attr::Italic(true)),
            text("c"),
            text("d"),
            Op::NextRow,
            Op::SetStyle(Style::new()),
            text("e"),
            text("f"),
        ],
        ops
    );
    // no more rows are drawn than asked for
    let mut ops = vec![];
    render_lines(&doc, &view, 0, 2, &[], &mut ops);
    assert_eq!(
        vec![
            Op::SetStyle(Style::new()),
            Op::SetStyle(Style::new()),
            Op::Attr(Attr::Intensity(Weight::Bold)),
            text("a"),
            text("b"),
            Op::NextRow,
            Op::Attr(Attr::Italic(true)),
            text("c"),
            text("d"),
        ],
        ops
    );
}

#[test]
fn rendering_twice_gives_the_same_operations() {
    let doc = doc("a\x1b[7mb\x1b[mc\nd\x1b[31me");
    let view = DocumentView::new(Rc::clone(&doc), 2, 3);
    let mut first = vec![];
    render_lines(&doc, &view, 0, 3, &[(1, 4)], &mut first);
    let mut second = vec![];
    render_lines(&doc, &view, 0, 3, &[(1, 4)], &mut second);
    assert_eq!(first, second);
}

#[test]
fn every_change_is_applied_once_before_its_text() {
    let doc = doc("a\x1b[1m\x1b[3mb\x1b[4m\nc\x1b[9md");
    let view = DocumentView::new(Rc::clone(&doc), 10, 3);
    let mut ops = vec![];
    render_lines(&doc, &view, 0, 3, &[], &mut ops);
    assert_eq!(
        vec![
            Op::SetStyle(Style::new()),
            Op::SetStyle(Style::new()),
            text("a"),
            Op::Attr(Attr::Intensity(Weight::Bold)),
            Op::Attr(Attr::Italic(true)),
            text("b"),
            Op::NextRow,
            Op::Attr(Attr::Underline(Stroke::Single)),
            text("c"),
            Op::Attr(Attr::StrikeThrough(true)),
            text("d"),
        ],
        ops
    );
}

#[test]
fn a_highlight_turns_reverse_video_around() {
    let doc = doc("ab\x1b[7mcd\x1b[27mef\x1b[7mg\x1b[mh");
    let view = DocumentView::new(Rc::clone(&doc), 10, 1);
    let mut plain = vec![];
    render_lines(&doc, &view, 0, 1, &[], &mut plain);
    let mut lit = vec![];
    render_lines(&doc, &view, 0, 1, &[(1, 7)], &mut lit);
    let plain = reverse_at_text(&plain);
    let lit = reverse_at_text(&lit);
    let expected: Vec<(String, bool)> = "abcdefgh"
        .chars()
        .zip([false, false, true, true, false, false, true, false])
        .map(|(c, on)| (c.to_string(), on))
        .collect();
    assert_eq!(expected, plain);
    for (byte, ((_, with), (_, without))) in lit.iter().zip(plain.iter()).enumerate() {
        assert_eq!(*with, *without != (1..7).contains(&byte), "byte {}", byte);
    }
}

// The style in effect when each piece of text is written.
fn style_at_text(ops: &[Op]) -> Vec<(String, Style)> {
    let mut style = Style::new();
    let mut shown = vec![];
    for op in ops {
        match op {
            Op::SetStyle(next) => style = *next,
            Op::Attr(attr) => style.apply(*attr),
            Op::Highlight(on) => style.reverse = *on,
            Op::Text(text) => shown.push((text.clone(), style)),
            _ => {}
        }
    }
    shown
}

#[test]
fn a_highlight_changes_nothing_but_reverse_video() {
    let doc = doc("a\x1b[1;31mb\x1b[7mc\n\x1b[4;44md\x1b[me\x1b[3mf\x1b[27;9mg");
    let view = DocumentView::new(Rc::clone(&doc), 3, 3);
    let mut plain = vec![];
    render_lines(&doc, &view, 0, 3, &[], &mut plain);
    for (start, end) in [(1usize, 5usize), (0, 8), (2, 3), (4, 7)] {
        let mut lit = vec![];
        render_lines(&doc, &view, 0, 3, &[(start, end)], &mut lit);
        let breaks = |ops: &[Op]| -> Vec<Op> {
            ops.iter()
                .filter(|op| matches!(op, Op::Text(_) | Op::NextRow))
                .cloned()
                .collect()
        };
        assert_eq!(breaks(&plain), breaks(&lit));
        let with = style_at_text(&lit);
        let without = style_at_text(&plain);
        assert_eq!(7, with.len());
        // the bytes at which the seven letters begin
        for (byte, ((_, with), (_, without))) in
            [0usize, 1, 2, 4, 5, 6, 7].into_iter().zip(with.iter().zip(without.iter()))
        {
            let mut expected = *without;
            expected.reverse = without.reverse != (start..end).contains(&byte);
            assert_eq!(expected, *with, "range {}..{} byte {}", start, end, byte);
        }
    }
}

#[test]
fn the_first_cluster_behind_an_empty_range_is_highlighted() {
    let doc = doc("abc");
    let view = DocumentView::new(Rc::clone(&doc), 5, 1);
    let mut ops = vec![];
    render_lines(&doc, &view, 0, 1, &[(1, 1)], &mut ops);
    assert_eq!(
        vec![
            ("a".to_string(), false),
            ("b".to_string(), true),
            ("c".to_string(), false)
        ],
        reverse_at_text(&ops)
    );
}

#[test]
fn paging_stays_within_the_document() {
    let doc = doc("1\n2\n3\n4\n5\n6");
    let mut view = DocumentView::new(doc, 5, 4);
    assert_eq!(6, view.lines().len());
    view.forward(0);
    assert_eq!(1, view.line());
    view.forward(3);
    assert_eq!(2, view.line());
    view.forward(usize::MAX);
    assert_eq!(2, view.line());
    view.backward(1);
    assert_eq!(1, view.line());
    view.backward(7);
    assert_eq!(0, view.line());
    view.backward(usize::MAX);
    assert_eq!(0, view.line());
    // a document shorter than the page does not scroll
    view.set_size(5, 9);
    view.forward(2);
    assert_eq!(0, view.line());
}

#[test]
fn percent_is_the_position_among_the_pages() {
    let mut input = String::new();
    for _ in 0..100 {
        input.push_str("x\n");
    }
    let doc = doc(&input);
    let mut view = DocumentView::new(Rc::clone(&doc), 5, 1);
    assert_eq!(101, view.lines().len());
    assert_eq!(Some(0), view.percent());
    view.forward(29);
    assert_eq!(Some(29), view.percent());
    view.forward(70);
    assert_eq!(Some(99), view.percent());
    view.forward(1);
    assert_eq!(Some(100), view.percent());
    // 33 of 98 rows to the last page of three rows
    view.set_size(5, 3);
    view.backward(67);
    assert_eq!(33, view.line());
    assert_eq!(Some(33), view.percent());
    // a page that holds the whole document
    view.set_size(5, 101);
    assert_eq!(Some(0), view.percent());
    view.set_size(5, 200);
    assert_eq!(Some(0), view.percent());
    // behind the last full page, the percentage goes beyond 100
    view.set_size(5, 51);
    view.highlight(170, 171);
    assert_eq!(82, view.line());
    assert_eq!(Some(164), view.percent());
    view.set_size(5, 100);
    assert_eq!(Some(255), view.percent());
}

#[test]
fn percent_labels() {
    assert_eq!("0%", percent_label(0));
    assert_eq!("7%", percent_label(7));
    assert_eq!("10%", percent_label(10));
    assert_eq!("99%", percent_label(99));
    assert_eq!("100%", percent_label(100));
    assert_eq!("255%", percent_label(255));
    assert_eq!("", repeated('x', 0));
    assert_eq!("xxx", repeated('x', 3));
}

#[test]
fn a_highlight_is_shown_with_three_rows_around_it() {
    let mut input = String::new();
    for _ in 0..40 {
        input.push_str("x\n");
    }
    let doc = doc(&input);
    let mut view = DocumentView::new(doc, 5, 10);
    assert_eq!(3, view.find_line(6));
    assert_eq!(3, view.find_line(7));
    assert_eq!(40, view.find_line(1000));
    // rows 0 to 9 are shown: row 7 is three rows from the end of the page
    view.highlight(14, 15);
    assert_eq!(0, view.line());
    assert_eq!(&[(14usize, 15usize)], view.highlights());
    // row 8 is not
    view.highlight(16, 17);
    assert_eq!(5, view.line());
    // rows 5 to 14 are shown: row 8 is three rows from the start, row 7 is not
    view.highlight(16, 17);
    assert_eq!(5, view.line());
    view.highlight(14, 15);
    assert_eq!(4, view.line());
    view.highlight(2, 3);
    assert_eq!(0, view.line());
}

#[test]
fn a_new_width_flows_the_text_anew() {
    let doc = doc("abcdefgh");
    let mut view = DocumentView::new(doc, 2, 2);
    assert_eq!(vec![0, 2, 4, 6], starts(view.lines()));
    view.forward(5);
    assert_eq!(2, view.line());
    view.set_size(2, 1);
    assert_eq!((2, 1, 2), (view.width(), view.height(), view.line()));
    assert_eq!(4, view.lines().len());
    // fewer rows than before: the page stands behind the last row at most
    view.set_size(8, 1);
    assert_eq!(vec![0], starts(view.lines()));
    assert_eq!(1, view.line());
    view.scroll_to(0);
    assert_eq!(0, view.line());
    view.scroll_to(7);
    assert_eq!(1, view.line());
}

#[test]
fn matches_are_the_links_that_hold_the_query() {
    let doc = doc("\x1b]8;;a\x1b\\one\x1b]8;;b\x1b\\two\x1b]8;;c\x1b\\d\u{e9}j\u{e0}\x1b]8;;\x1b\\ on");
    assert_eq!(vec![0, 1, 2], find_matches(&doc, ""));
    assert_eq!(vec![0, 1], find_matches(&doc, "o"));
    assert_eq!(vec![1], find_matches(&doc, "wo"));
    assert_eq!(vec![2], find_matches(&doc, "\u{e9}j"));
    assert_eq!(Vec::<usize>::new(), find_matches(&doc, "on "));
    assert_eq!(Vec::<usize>::new(), find_matches(&doc, "O"));
}

#[test]
fn the_selection_does_not_fall_back_when_the_query_grows() {
    let doc = doc(
        "\x1b]8;;a\x1b\\ax\x1b]8;;b\x1b\\bx\x1b]8;;c\x1b\\ay\x1b]8;;d\x1b\\by\x1b]8;;\x1b\\",
    );
    let mut search = Search::new(Rc::clone(&doc));
    let mut view = DocumentView::new(Rc::clone(&doc), 20, 5);
    assert_eq!(&[0usize, 1, 2, 3], search.matches());
    assert_eq!(None, search.selected_idx());
    let mut both = SearchMutator { search: &mut search, view: &mut view };
    both.select_next();
    both.select_next();
    assert_eq!(Some(1), both.search.selected_idx());
    // link 1 does not hold the query: the next link that does is selected
    both.push_query_char('a');
    assert_eq!(&[0usize, 2], both.search.matches());
    assert_eq!(Some(1), both.search.selected_idx());
    assert_eq!(&[(4usize, 6usize)], both.view.highlights());
    // no link at or behind link 2 holds the query: the last match it is
    both.push_query_char('x');
    assert_eq!(&[0usize], both.search.matches());
    assert_eq!(Some(0), both.search.selected_idx());
    assert_eq!(&[(0usize, 2usize)], both.view.highlights());
    // without matches nothing is selected, and the highlight stays
    both.push_query_char('z');
    assert_eq!(0, both.search.matches().len());
    assert_eq!(None, both.search.selected_idx());
    assert_eq!(&[(0usize, 2usize)], both.view.highlights());
    both.select_next();
    both.select_prev();
    both.activate();
    assert_eq!(None, both.search.selected_idx());
    assert_eq!(None, both.open_selected());
    both.pop_query_char();
    both.pop_query_char();
    both.pop_query_char();
    both.pop_query_char();
    assert_eq!("", both.search.query());
    assert_eq!(Some(0), both.search.selected_idx());
    both.push_query_str("by");
    assert_eq!(&[3usize], both.search.matches());
    assert_eq!(Some("d".to_string()), both.open_selected());
}

#[test]
fn activation_selects_the_first_match() {
    let doc = doc("\x1b]8;;a\x1b\\ax\x1b]8;;b\x1b\\bx\x1b]8;;c\x1b\\ay\x1b]8;;\x1b\\");
    let mut search = Search::new(Rc::clone(&doc));
    let mut view = DocumentView::new(Rc::clone(&doc), 20, 5);
    let mut both = SearchMutator { search: &mut search, view: &mut view };
    both.select_next();
    both.select_next();
    both.select_next();
    assert_eq!(Some(2), both.search.selected_idx());
    assert_eq!(&[(4usize, 6usize)], both.view.highlights());
    both.activate();
    assert_eq!(Some(0), both.search.selected_idx());
    assert_eq!(&[(0usize, 2usize)], both.view.highlights());
    both.push_query_char('y');
    both.activate();
    assert_eq!(&[2usize], both.search.matches());
    assert_eq!(Some(0), both.search.selected_idx());
    assert_eq!(&[(4usize, 6usize)], both.view.highlights());
}

#[test]
fn opening_selects_the_first_match() {
    let doc = doc("\x1b]8;;http://a\x1b\\a\x1b]8;;http://b\x1b\\b\x1b]8;;\x1b\\");
    let mut state = State::new(doc, 10, 5);
    assert_eq!(
        Shared { searching: false, term_height: 5, quit: false },
        state.shared
    );
    assert_eq!(Some("http://a".to_string()), state.search_mut().open_selected());
    assert_eq!(Some(0), state.search.selected_idx());
    assert_eq!(&[(0usize, 1usize)], state.view.highlights());
    state.search_mut().select_prev();
    assert_eq!(Some("http://b".to_string()), state.search_mut().open_selected());
    assert_eq!(Some(1), state.search.selected_idx());
}

#[test]
fn pane_heights() {
    let doc = doc("\x1b]8;;a\x1b\\a\x1b]8;;b\x1b\\b\x1b]8;;c\x1b\\c\x1b]8;;\x1b\\");
    let mut state = State::new(doc, 10, 13);
    assert_eq!((0, 12), (state.search_height(), state.doc_height()));
    state.open_search();
    assert!(state.shared.searching);
    assert_eq!(Some(0), state.search.selected_idx());
    // three matches and two rows more
    assert_eq!((5, 7), (state.search_height(), state.doc_height()));
    // half of the rows above the status row at most
    state.shared.term_height = 8;
    assert_eq!((3, 4), (state.search_height(), state.doc_height()));
    // but one row at least
    state.shared.term_height = 2;
    assert_eq!((1, 0), (state.search_height(), state.doc_height()));
    state.shared.term_height = 0;
    assert_eq!((1, 0), (state.search_height(), state.doc_height()));
    state.shared.term_height = 100_000;
    assert_eq!((5, 65529), (state.search_height(), state.doc_height()));
    state.close_search();
    assert_eq!((0, 65534), (state.search_height(), state.doc_height()));
}

#[test]
fn twelve_rows_at_most_for_the_search_pane() {
    let mut input = String::new();
    for i in 0..20 {
        input.push_str(&format!("\x1b]8;;{}\x1b\\x", i));
    }
    let mut state = State::new(doc(&input), 10, 60);
    state.open_search();
    assert_eq!((12, 47), (state.search_height(), state.doc_height()));
}

#[test]
fn a_cancelled_search_goes_back_to_its_row() {
    let mut input = String::new();
    for _ in 0..20 {
        input.push_str("x\n");
    }
    input.push_str("\x1b]8;;a\x1b\\a");
    let mut state = State::new(doc(&input), 10, 5);
    state.view.forward(2);
    state.open_search();
    assert_eq!(17, state.view.line());
    state.cancel_search();
    assert!(!state.shared.searching);
    assert_eq!(2, state.view.line());
    assert_eq!(&[(40usize, 41usize)], state.view.highlights());
}
