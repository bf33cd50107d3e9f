use ate::op::Op;
use ate::style::{Attr, Color, Flash, Stroke, Style, Weight};
use ate::ui::{
    create_ui, AteUi, Cursor, Frame, InputEvent, KeyCode, KeyEvent, Modifiers, Pane, StepNext,
    WidgetEvent,
};
use termwiz::cell::{AttributeChange, Blink, CellAttributes, Intensity, Underline};
use termwiz::color::ColorAttribute;
use termwiz::surface::{Change, Position, Surface};

fn color(color: Color) -> ColorAttribute {
    match color {
        Color::Default => ColorAttribute::Default,
        Color::Palette(index) => ColorAttribute::PaletteIndex(index),
        Color::TrueColor(tuple) => ColorAttribute::TrueColorWithDefaultFallback(tuple),
    }
}

fn intensity(weight: Weight) -> Intensity {
    match weight {
        Weight::Normal => Intensity::Normal,
        Weight::Bold => Intensity::Bold,
        Weight::Half => Intensity::Half,
    }
}

fn underline(stroke: Stroke) -> Underline {
    match stroke {
        Stroke::Off => Underline::None,
        Stroke::Single => Underline::Single,
        Stroke::Double => Underline::Double,
        Stroke::Curly => Underline::Curly,
        Stroke::Dotted => Underline::Dotted,
        Stroke::Dashed => Underline::Dashed,
    }
}

fn blink(flash: Flash) -> Blink {
    match flash {
        Flash::Off => Blink::None,
        Flash::Slow => Blink::Slow,
        Flash::Rapid => Blink::Rapid,
    }
}

fn cell_attributes(style: Style) -> CellAttributes {
    let mut attrs = CellAttributes::default();
    attrs.set_intensity(intensity(style.intensity));
    attrs.set_underline(underline(style.underline));
    attrs.set_blink(blink(style.blink));
    attrs.set_italic(style.italic);
    attrs.set_reverse(style.reverse);
    attrs.set_strikethrough(style.strikethrough);
    attrs.set_invisible(style.invisible);
    attrs.set_foreground(color(style.foreground));
    attrs.set_background(color(style.background));
    attrs
}

fn attribute(attr: Attr) -> AttributeChange {
    match attr {
        Attr::Intensity(v) => AttributeChange::Intensity(intensity(v)),
        Attr::Underline(v) => AttributeChange::Underline(underline(v)),
        Attr::Italic(v) => AttributeChange::Italic(v),
        Attr::Blink(v) => AttributeChange::Blink(blink(v)),
        Attr::Reverse(v) => AttributeChange::Reverse(v),
        Attr::StrikeThrough(v) => AttributeChange::StrikeThrough(v),
        Attr::Invisible(v) => AttributeChange::Invisible(v),
        Attr::Foreground(v) => AttributeChange::Foreground(color(v)),
        Attr::Background(v) => AttributeChange::Background(color(v)),
    }
}

fn change(op: &Op) -> Change {
    match op {
        Op::SetStyle(style) => Change::AllAttributes(cell_attributes(*style)),
        Op::Attr(attr) => Change::Attribute(attribute(*attr)),
        Op::Highlight(on) => Change::Attribute(AttributeChange::Reverse(*on)),
        Op::Text(text) => Change::Text(text.clone()),
        Op::NextRow => Change::Text("\r\n".to_string()),
        Op::Clear(background) => Change::ClearScreen(color(*background)),
        Op::MoveTo { x, y } => Change::CursorPosition {
            x: Position::Absolute(*x),
            y: Position::Absolute(*y),
        },
    }
}

fn draw_pane(pane: &Pane, width: usize, screen: &mut Surface) {
    if pane.height == 0 || width == 0 {
        return;
    }
    let mut surface = Surface::new(width, pane.height);
    surface.add_changes(pane.ops.iter().map(change).collect());
    screen.draw_from_screen(&surface, 0, pane.top);
}

fn draw(frame: &Frame, width: usize, height: usize) -> Surface {
    let mut screen = Surface::new(width, height);
    draw_pane(&frame.doc, width, &mut screen);
    draw_pane(&frame.search, width, &mut screen);
    draw_pane(&frame.status, width, &mut screen);
    screen
}

struct Context {
    ui: AteUi,
    surface: Surface,
    visited: Vec<String>,
    width: usize,
    height: usize,
}

impl Context {
    fn step(&mut self) -> StepNext {
        let next = self.ui.step(self.width, self.height);
        if let Some(uri) = self.ui.take_link_request() {
            self.visited.push(uri);
        }
        self.surface = draw(&self.ui.frame, self.width, self.height);
        next
    }

    fn press(&mut self, keys: Vec<(KeyCode, Modifiers)>) -> StepNext {
        for (key, modifiers) in keys {
            self.ui
                .queue_event(WidgetEvent::Input(InputEvent::Key(KeyEvent { key, modifiers })));
        }
        self.step()
    }

    fn press_keys(&mut self, keys: Vec<KeyCode>) {
        self.press(keys.into_iter().map(|key| (key, Modifiers::Plain)).collect());
    }
}

fn create_test_ui(input: &str, width: usize, height: usize) -> Context {
    let ui = create_ui(input.as_bytes(), width, height);
    let mut ctx = Context {
        ui,
        surface: Surface::new(width, height),
        visited: vec![],
        width,
        height,
    };
    // Render twice to test if we're stepping on ourselves
    ctx.step();
    ctx.step();
    ctx
}

#[test]
fn render_color() {
    let input = "D\x1b[31mR\x1b[mD";
    let mut ctx = create_test_ui(input, 3, 2);
    let cells = &ctx.surface.screen_cells()[0];
    assert_eq!(ColorAttribute::Default, cells[0].attrs().foreground());
    assert_eq!(
        ColorAttribute::PaletteIndex(1),
        cells[1].attrs().foreground()
    );
    assert_eq!(ColorAttribute::Default, cells[2].attrs().foreground());
    assert_eq!(ctx.surface.screen_chars_to_string(), "DRD\n 0%\n");
}

#[test]
fn render_short_doc() {
    let ctx = create_test_ui("Hi Bye", 3, 3);
    assert_eq!(ctx.surface.screen_chars_to_string(), "Hi \nBye\n 0%\n");
}

#[test]
fn page() {
    let input = "1\n2\n3\n4\n5\n6";
    let mut ctx = create_test_ui(input, 5, 6);
    let cells = &ctx.surface.screen_cells()[0];
    assert_eq!("1", cells[0].str());

    // Going forward while at the last screen shouldn't keep the whole screen
    ctx.press_keys(vec![KeyCode::Char(' '), KeyCode::Char(' ')]);
    let screen = ctx.surface.screen_chars_to_string();
    let cells = &ctx.surface.screen_cells()[0];
    assert_eq!("2", cells[0].str(), "{}", screen);
    assert_eq!(
        ctx.surface.screen_chars_to_string(),
        "2    \n3    \n4    \n5    \n6    \n 100%\n"
    );

    // Going back while at the first line should stay at the first line
    ctx.press_keys(vec![KeyCode::Char('b'), KeyCode::Char('b')]);
    let cells = &ctx.surface.screen_cells()[0];
    assert_eq!("1", cells[0].str());
    assert_eq!(
        ctx.surface.screen_chars_to_string(),
        "1    \n2    \n3    \n4    \n5    \n   0%\n"
    );
}

#[test]
fn visit_link() {
    let input =
        "Before\n\x1b]8;;http://a.b\x1b\\\x1b[31mL\x1b[m\x1binked\x1b]8;;\x1b\\\nNot Linked";
    let mut ctx = create_test_ui(input, 10, 4);
    let cells = &ctx.surface.screen_cells()[0];
    assert_eq!("B", cells[0].str());
    let cells = &ctx.surface.screen_cells()[1];
    assert_eq!("L", cells[0].str());
    assert!(!cells[0].attrs().reverse());
    assert!(!cells[1].attrs().reverse());
    assert_eq!(0, ctx.visited.len());

    ctx.press_keys(vec![KeyCode::Enter]);
    let cells = &ctx.surface.screen_cells()[0];
    assert_eq!("B", cells[0].str());
    let cells = &ctx.surface.screen_cells()[1];
    assert_eq!("L", cells[0].str());
    assert!(cells[0].attrs().reverse());
    assert!(cells[1].attrs().reverse());
    assert_eq!(vec!["http://a.b".to_string()], ctx.visited);
}

fn check_rev(ctx: &mut Context, reversed: usize) {
    let cells = &ctx.surface.screen_cells();
    for i in 0..6 {
        assert_eq!(format!("{}", i), cells[i][0].str());
        assert_eq!(i == reversed, cells[i][0].attrs().reverse(), "i = {}", i);
    }
}

#[test]
fn next_links() {
    let input = "0
\x1b]8;;1\x1b\\1\x1b]8;;2\x1b\\
2
\x1b]8;;3\x1b\\3
\x1b]8;;\x1b\\4
\x1b]8;;5\x1b\\5";
    let mut ctx = create_test_ui(input, 10, 13);

    // Nothing should be highlighted
    check_rev(&mut ctx, usize::MAX);

    ctx.press_keys(vec![KeyCode::Char('n'), KeyCode::Char('n')]);
    check_rev(&mut ctx, 2);

    ctx.press_keys(vec![KeyCode::Char('n'), KeyCode::Char('n')]);
    check_rev(&mut ctx, 5);

    // Wrap!
    ctx.press_keys(vec![KeyCode::Char('n')]);
    check_rev(&mut ctx, 1);

    // Wrap back!
    ctx.press_keys(vec![KeyCode::Char('N')]);
    check_rev(&mut ctx, 5);

    // Wrap back!
    ctx.press_keys(vec![KeyCode::Char('N')]);
    check_rev(&mut ctx, 3);

    // Opening the search selects the first match
    ctx.press_keys(vec![KeyCode::Char('/'), KeyCode::Char('6')]);
    check_rev(&mut ctx, 1);

    // Search for a different character changes highlight
    ctx.press_keys(vec![KeyCode::Backspace, KeyCode::Char('1')]);
    check_rev(&mut ctx, 1);
}

#[test]
fn link_cycling_wraps_both_ways() {
    let input = "\x1b]8;;a\x1b\\A\x1b]8;;b\x1b\\B\x1b]8;;c\x1b\\C\x1b]8;;\x1b\\";
    let mut ctx = create_test_ui(input, 10, 5);
    assert_eq!(None, ctx.ui.state.search.selected_idx());
    let mut seen = vec![];
    for _ in 0..4 {
        ctx.press_keys(vec![KeyCode::Char('n')]);
        seen.push(ctx.ui.state.search.selected_idx());
    }
    assert_eq!(vec![Some(0), Some(1), Some(2), Some(0)], seen);
    ctx.press_keys(vec![KeyCode::Char('N')]);
    assert_eq!(Some(2), ctx.ui.state.search.selected_idx());
    assert_eq!(&[(2usize, 3usize)], ctx.ui.state.view.highlights());
}

#[test]
fn opening_the_search_selects_the_first_match() {
    let input = "\x1b]8;;a\x1b\\A\x1b]8;;b\x1b\\B\x1b]8;;c\x1b\\C\x1b]8;;\x1b\\";
    let mut ctx = create_test_ui(input, 10, 12);
    ctx.press_keys(vec![KeyCode::Char('n'), KeyCode::Char('n'), KeyCode::Char('n')]);
    assert_eq!(Some(2), ctx.ui.state.search.selected_idx());
    assert_eq!(&[(2usize, 3usize)], ctx.ui.state.view.highlights());
    ctx.press_keys(vec![KeyCode::Char('/')]);
    assert_eq!(Some(0), ctx.ui.state.search.selected_idx());
    assert_eq!(&[(0usize, 1usize)], ctx.ui.state.view.highlights());
    // a missing character leaves no match, and the highlight as it is
    ctx.press_keys(vec![KeyCode::Char('6')]);
    assert_eq!(None, ctx.ui.state.search.selected_idx());
    assert_eq!(&[(0usize, 1usize)], ctx.ui.state.view.highlights());
}

#[test]
fn quit_keys() {
    let mut ctx = create_test_ui("text", 10, 5);
    assert_eq!(
        StepNext::WAIT,
        ctx.press(vec![(KeyCode::Char('c'), Modifiers::Plain)])
    );
    assert_eq!(
        StepNext::QUIT,
        ctx.press(vec![(KeyCode::Char('c'), Modifiers::Ctrl)])
    );
    let mut ctx = create_test_ui("text", 10, 5);
    assert_eq!(
        StepNext::QUIT,
        ctx.press(vec![(KeyCode::Char('q'), Modifiers::Shift)])
    );
}

#[test]
fn search_keys_edit_the_query() {
    let input = "\x1b]8;;a\x1b\\one\x1b]8;;b\x1b\\two\x1b]8;;\x1b\\";
    let mut ctx = create_test_ui(input, 20, 12);
    ctx.press_keys(vec![KeyCode::Char('/')]);
    assert!(ctx.ui.state.shared.searching);
    assert_eq!(Some(0), ctx.ui.state.search.selected_idx());
    // q is a letter of the query while the search pane has the focus
    ctx.press(vec![
        (KeyCode::Char('t'), Modifiers::Plain),
        (KeyCode::Char('W'), Modifiers::Shift),
        (KeyCode::Char('x'), Modifiers::Ctrl),
    ]);
    assert_eq!("tW", ctx.ui.state.search.query());
    assert_eq!(0, ctx.ui.state.search.matches().len());
    assert_eq!(None, ctx.ui.state.search.selected_idx());
    ctx.press_keys(vec![KeyCode::Backspace]);
    assert_eq!("t", ctx.ui.state.search.query());
    assert_eq!(&[1usize], ctx.ui.state.search.matches());
    assert_eq!(Some(0), ctx.ui.state.search.selected_idx());
    ctx.ui
        .queue_event(WidgetEvent::Input(InputEvent::Paste("wo".to_string())));
    ctx.step();
    assert_eq!("two", ctx.ui.state.search.query());
    assert_eq!(
        Cursor::Bar {
            x: "Search: two".len(),
            y: 10
        },
        ctx.ui.frame.cursor
    );
    ctx.press_keys(vec![KeyCode::Enter]);
    assert!(!ctx.ui.state.shared.searching);
    assert_eq!(Cursor::Hidden, ctx.ui.frame.cursor);
    assert_eq!(&[(3usize, 6usize)], ctx.ui.state.view.highlights());
}

#[test]
fn escape_restores_the_scroll_position() {
    let mut input = String::new();
    for i in 0..30 {
        input.push_str(&format!("{}\n", i));
    }
    input.push_str("\x1b]8;;end\x1b\\last\x1b]8;;\x1b\\");
    let mut ctx = create_test_ui(&input, 10, 8);
    ctx.press_keys(vec![KeyCode::DownArrow, KeyCode::DownArrow]);
    assert_eq!(2, ctx.ui.state.view.line());
    ctx.press_keys(vec![KeyCode::Char('/')]);
    // the only link is on the last row: the page follows the selection
    assert_eq!(27, ctx.ui.state.view.line());
    ctx.press_keys(vec![KeyCode::Escape]);
    assert!(!ctx.ui.state.shared.searching);
    assert_eq!(2, ctx.ui.state.view.line());
}

#[test]
fn search_pane_lists_the_matches() {
    let input = "\x1b]8;;a\x1b\\one\x1b]8;;\x1b\\\n\x1b]8;;b\x1b\\two\x1b]8;;\x1b\\\nrest";
    let mut ctx = create_test_ui(input, 12, 12);
    ctx.press_keys(vec![KeyCode::Char('/')]);
    // 11 rows above the status row; the search pane takes 2 + 2 of them
    assert_eq!(7, ctx.ui.frame.doc.height);
    assert_eq!(7, ctx.ui.frame.search.top);
    assert_eq!(4, ctx.ui.frame.search.height);
    assert_eq!(11, ctx.ui.frame.status.top);
    let separator = "\u{2501}".repeat(12);
    assert_eq!(
        ctx.surface.screen_chars_to_string(),
        format!(
            "one         \ntwo         \nrest        \n{}{}\none         \ntwo         \nSearch:     \n          0%\n",
            "            \n".repeat(4),
            separator
        )
    );
    let cells = &ctx.surface.screen_cells();
    assert!(cells[0][0].attrs().reverse());
    assert!(cells[8][0].attrs().reverse());
    assert!(!cells[9][0].attrs().reverse());
}

#[test]
fn a_failed_link_shows_in_the_status_row() {
    let mut ctx = create_test_ui("text", 20, 3);
    ctx.ui.show_error("no opener".to_string());
    ctx.step();
    assert_eq!(
        ctx.surface.screen_chars_to_string(),
        "text                \n                    \nno opener         0%\n"
    );
    // with no column left between the two the percentage is left out
    let mut ctx = create_test_ui("text", 11, 3);
    ctx.ui.show_error("no opener".to_string());
    ctx.step();
    assert_eq!(
        ctx.surface.screen_chars_to_string(),
        "text       \n           \nno opener  \n"
    );
}

#[test]
fn rendering_twice_gives_the_same_frame() {
    let input = "a\x1b[7mb\x1b[mc\n\x1b]8;;x\x1b\\d\x1b]8;;\x1b\\";
    let mut ctx = create_test_ui(input, 4, 4);
    ctx.press_keys(vec![KeyCode::Char('n')]);
    let first = ctx.ui.frame.clone();
    ctx.step();
    assert_eq!(first, ctx.ui.frame);
}
