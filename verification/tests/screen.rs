use gptcore::consent::{confirm_presses, confirm_sequence, step_name, Gate, GateStep};
use gptcore::console::{automatic, cell_size, fits, layout_for, Console, ModeChange};
use gptcore::display::{
    confirm_mode, display, display_press, mode_lines, pack, resize_note, try_mode, DisplayStep,
    Mode, Showing, Trial, TrialStep, Tried, Upgrade,
};
use gptcore::gfx::{
    rgb, Channel, Color, Font, Framebuffer, Glyph, PixelFormat, Rgb, Rotation,
};
use gptcore::pages::{
    acknowledges, message, step, Choice, Item, Menu, MenuStep, Page, PageStep, SCROLL_LINES,
};
use gptcore::plain;
use gptcore::style::{wrap, Line, Style};
use gptcore::ui::{
    clear, colors, fit, input_of, key_label, text_width, wrapped, Draw, Ink, Input, Key, Screen,
};

fn screen() -> Screen {
    Screen { cols: 80, rows: 25, subject: None, deck: true, turnable: true, marker: '>' }
}

/// The text of everything that is drawn, a line per row.
fn rows(draws: &[Draw]) -> Vec<String> {
    let mut out = vec![String::new()];
    for d in draws {
        match d {
            Draw::Text(t) => out.last_mut().unwrap().push_str(t),
            Draw::Row(t) => {
                out.last_mut().unwrap().push_str(t);
                out.push(String::new());
            }
            Draw::At(_, _) => {
                if !out.last().unwrap().is_empty() {
                    out.push(String::new());
                }
            }
            _ => {}
        }
    }
    out
}

fn line(text: &str) -> Line {
    Line { text: text.to_string(), style: Style::Normal }
}

// ---------------------------------------------------------------- pixels

fn fb(width: usize, height: usize) -> Framebuffer {
    Framebuffer::open(PixelFormat::Bgr, width, height, width + 2, 1 << 24).unwrap()
}

#[test]
fn a_mode_that_cannot_be_drawn_in_is_refused() {
    let open = |f, w, h, s, n| Framebuffer::open(f, w, h, s, n).is_some();
    assert!(open(PixelFormat::Rgb, 10, 10, 10, 400));
    assert!(!open(PixelFormat::Rgb, 10, 10, 10, 399), "the buffer is too small");
    assert!(!open(PixelFormat::Rgb, 10, 10, 9, 400), "a line shorter than the picture");
    assert!(!open(PixelFormat::Rgb, 0, 10, 10, 400));
    assert!(!open(PixelFormat::BltOnly, 10, 10, 10, 400));
    assert!(!open(PixelFormat::Bitmask(None), 10, 10, 10, 400));
    let masks = Some((0xFF0000, 0xFF00, 0xFF, 0xFF00_0000));
    assert!(open(PixelFormat::Bitmask(masks), 10, 10, 10, 400));
}

#[test]
fn channels_put_a_colour_where_the_format_wants_it() {
    let f = fb(4, 4);
    assert_eq!(f.pack(Rgb(0x12, 0x34, 0x56)), 0x0012_3456);
    let f = Framebuffer::open(PixelFormat::Rgb, 4, 4, 4, 64).unwrap();
    assert_eq!(f.pack(Rgb(0x12, 0x34, 0x56)), 0x0056_3412);
    let c = Channel::from_mask(0xF800);
    assert_eq!((c.shift, c.bits), (11, 5));
    assert_eq!(c.pack(0xFF), 0xF800);
    assert_eq!(Channel::fixed(8).pack(0xAB), 0xAB00);
}

#[test]
fn blending_ends_at_both_colours() {
    let f = fb(4, 4);
    let (a, b) = (Rgb(200, 0, 10), Rgb(0, 100, 10));
    assert_eq!(f.blend(a, b, 255), f.pack(a));
    assert_eq!(f.blend(a, b, 0), f.pack(b));
    assert_ne!(f.blend(a, b, 128), f.pack(a));
}

#[test]
fn a_sideways_panel_is_turned() {
    assert_eq!(fb(8, 4).guess_rotation(), Rotation::AsIs);
    let mut f = fb(4, 8);
    assert_eq!(f.guess_rotation(), Rotation::Cw90);
    assert_eq!(f.logical_size(), (4, 8));
    f.set_rotation(Rotation::Cw90);
    assert_eq!(f.rotation(), Rotation::Cw90);
    assert_eq!(f.logical_size(), (8, 4));
    f.put(0, 0, 7);
    assert_eq!(f.pixels[3], 7, "the top left of the picture is the top right of the panel");
    let mut r = Rotation::AsIs;
    for _ in 0..4 {
        r = r.next();
    }
    assert_eq!(r, Rotation::AsIs);
    assert_eq!(Rotation::AsIs.previous(), Rotation::Ccw90);
    assert!(Rotation::Ccw90.swaps_axes());
    assert!(!Rotation::Half.swaps_axes());
}

#[test]
fn filling_a_box_stays_on_the_picture() {
    let mut f = fb(4, 4);
    f.fill(rgb(Color::Black));
    f.fill_rect(3, 3, 10, 10, rgb(Color::White));
    let white = f.pack(rgb(Color::White));
    assert_eq!(f.pixels.iter().filter(|p| **p == white).count(), 1);
    assert_eq!(f.pixels[3 * 6 + 3], white);
    f.put(99, 99, 1);
}

/// A font of two cells: nothing, and a lit top left corner.
fn font() -> Font {
    Font {
        cell_w: 8,
        cell_h: 16,
        first: b'?',
        glyphs: vec![
            Glyph { x: 0, y: 0, w: 0, h: 0, off: 0 },
            Glyph { x: 0, y: 0, w: 1, h: 1, off: 0 },
        ],
        coverage: vec![255],
    }
}

#[test]
fn an_unknown_character_is_drawn_as_a_question_mark() {
    let f = font();
    assert!(f.glyph('?').is_blank());
    assert!(!f.glyph('@').is_blank());
    assert!(f.glyph('z').is_blank());
    assert_eq!(f.row(&f.glyph('@'), 0), &[255]);
    assert!(f.row(&f.glyph('@'), 5).is_empty());
    let mut screen = fb(16, 16);
    screen.draw_cell(&f, '@', 8, 0, rgb(Color::White), rgb(Color::Black));
    assert_eq!(screen.pixels[8], screen.pack(rgb(Color::White)));
    assert_eq!(screen.pixels[9], screen.pack(rgb(Color::Black)));
}

// --------------------------------------------------------------- console

#[test]
fn the_cell_size_follows_the_screen() {
    assert_eq!(cell_size(0), (16, 32));
    assert_eq!(cell_size(2), (8, 16));
    assert!(fits(2, 800, 600));
    assert_eq!(automatic(1280, 800), 1);
    let l = layout_for(1280, 800);
    assert_eq!((l.cols, l.rows, l.cell_w, l.cell_h), (106, 33, 12, 24));
    assert_eq!(automatic(100, 100), 2, "nothing fits, so the smallest");
}

#[test]
fn a_console_draws_what_was_written_once() {
    let mut c = Console::new(fb(1280, 800));
    let (cols, rows) = c.size();
    assert_eq!((cols, rows), (106, 33));
    assert_eq!(c.resolution(), (1280, 800));
    c.set_color(rgb(Color::White), rgb(Color::Black));
    c.clear();
    c.set_cursor(2, 1);
    c.write("Hi");
    assert_eq!(c.cells[cols + 2].ch, b'H');
    assert_eq!(c.cells[cols + 3].ch, b'i');
    assert_eq!(c.cursor, (4, 1));
    c.write("\r\nx");
    assert_eq!(c.cells[2 * cols].ch, b'x');
    c.flush(&font());
    assert!(c.shown.iter().all(|s| s.is_some()));
    c.forget();
    assert!(c.shown.iter().all(|s| s.is_none()));
    assert!(c.resize_text(true));
    assert_eq!(c.layout().cell_w, 16);
    assert!(!c.resize_text(true), "there is nothing bigger");
    c.set_rotation(Rotation::Half);
    assert_eq!(c.rotation(), Rotation::Half);
    assert!(!c.set_mode(ModeChange::Refused));
    assert!(c.set_mode(ModeChange::InForce(fb(800, 600))));
    assert_eq!(c.resolution(), (800, 600));
}

#[test]
fn turning_the_picture_keeps_the_screen_and_the_size() {
    let mut c = Console::new(fb(1280, 800));
    c.set_color(rgb(Color::White), rgb(Color::Blue));
    assert!(c.resize_text(false));
    let cell = c.layout().cell_w;
    let before = c.fb.pixels.len();
    c.set_cursor(1, 1);
    c.write("Hi");
    c.set_rotation(Rotation::Cw90);
    assert_eq!(c.rotation(), Rotation::Cw90);
    assert_eq!(c.resolution(), (1280, 800));
    assert_eq!(c.fb.pixels.len(), before);
    assert_eq!(c.layout().cell_w, cell, "a size that still fits is kept");
    assert_eq!(c.size().0, 800 / cell);
    assert_eq!(c.cursor, (0, 0));
    assert!(c.cells.iter().all(|cell| cell.ch == 0x20));
    assert!(c.shown.iter().all(|s| s.is_none()));
}

#[test]
fn a_mode_put_back_leaves_the_grid_standing() {
    let mut c = Console::new(fb(1280, 800));
    assert!(c.resize_text(false));
    c.write("Hi");
    let font = c.font;
    let painted = c.fb.pixels[0];
    assert!(!c.set_mode(ModeChange::Restored));
    assert_eq!(c.font, font);
    assert_eq!(c.cells[0].ch, b'H');
    assert_eq!(c.fb.pixels[0], painted);
    assert!(c.shown.iter().all(|s| s.is_none()));
}

// ------------------------------------------------------------------- text

#[test]
fn keys_mean_what_the_hardware_sends() {
    assert_eq!(input_of(Key::Special(1)), Some(Input::Up));
    assert_eq!(input_of(Key::Special(2)), Some(Input::Down));
    assert_eq!(input_of(Key::Special(3)), Some(Input::Right));
    assert_eq!(input_of(Key::Special(4)), Some(Input::Left));
    assert_eq!(input_of(Key::Special(0x17)), Some(Input::Cancel));
    assert_eq!(input_of(Key::Printable('\r')), Some(Input::Select));
    assert_eq!(input_of(Key::Printable('\t')), Some(Input::View));
    assert_eq!(input_of(Key::Printable('x')), None);
    assert_eq!(input_of(Key::Special(9)), None);
}

#[test]
fn long_lines_are_cut_and_control_characters_dotted() {
    assert_eq!(text_width(80), 79);
    assert_eq!(fit("short", 80), "short");
    assert_eq!(fit("a\x1b[2Jb", 80), "a.[2Jb");
    let cut = fit(&"x".repeat(100), 80);
    assert_eq!(cut.len(), 79);
    assert!(cut.ends_with('~'));
}

#[test]
fn wrapping_hangs_what_does_not_fit() {
    let lines = wrap("abcdefghij", 6, Style::Dim, "  ");
    let texts: Vec<&str> = lines.iter().map(|l| l.text.as_str()).collect();
    assert_eq!(texts, ["abcdef", "  ghij"]);
    assert!(lines.iter().all(|l| l.style == Style::Dim));
    assert_eq!(wrapped("short", Style::Dim, "  ", 80).len(), 1);
}

#[test]
fn the_footer_names_what_is_in_hand() {
    assert_eq!(key_label(true, "A"), "A");
    assert_eq!(key_label(false, "A"), "Enter");
    assert_eq!(key_label(false, "B"), "Escape");
    assert_eq!(key_label(false, "View"), "Tab");
    assert_eq!(key_label(false, "D-pad"), "Arrows");
    assert_eq!(key_label(false, "other"), "other");
    assert_eq!(colors(Ink::Highlight), (Color::Black, Color::Cyan));
    assert_eq!(clear().len(), 2);
    assert_eq!(screen().header_rows(), 2);
    assert_eq!(Screen { subject: Some("Disk 1".to_string()), ..screen() }.header_rows(), 3);
}

// ------------------------------------------------------------------ pages

#[test]
fn a_page_scrolls_and_is_answered() {
    let lines: Vec<Line> = (0..100).map(|i| line(&format!("line {i}"))).collect();
    let mut p = Page::new("Title".to_string(), lines);
    let s = screen();
    assert!(rows(&p.draw(&s)).iter().any(|r| r == "line 0"));
    assert_eq!(p.press(&s, Input::Up), PageStep::Stay);
    assert_eq!(p.top, 0);
    assert_eq!(p.press(&s, Input::Down), PageStep::Stay);
    assert_eq!(p.top, SCROLL_LINES);
    for _ in 0..100 {
        p.press(&s, Input::Down);
    }
    assert!(rows(&p.draw(&s)).iter().any(|r| r == "line 99"));
    assert_eq!(p.press(&s, Input::Select), PageStep::Leave(true));
    assert_eq!(p.press(&s, Input::Cancel), PageStep::Leave(false));
    let m = rows(&message(&s, "Note", &[line("text")]));
    assert!(m.iter().any(|r| r == "text"));
    assert!(acknowledges(Input::Select));
    assert!(acknowledges(Input::Cancel));
    assert!(!acknowledges(Input::Up));
}

fn item(label: &str) -> Item {
    Item::with_detail(label.to_string(), vec![line(&format!("about {label}"))])
}

#[test]
fn a_menu_goes_round_and_skips_separators() {
    let items = vec![item("one"), Item::separator(), item("two")];
    assert_eq!(step(&items, 0, true), 2);
    assert_eq!(step(&items, 2, true), 0);
    assert_eq!(step(&items, 0, false), 2);
    let menu = |start| {
        Menu::new(
            "Title".to_string(),
            vec![line("intro")],
            vec![item("one"), Item::separator(), item("two")],
            "back".to_string(),
            None,
            start,
        )
    };
    let mut m = menu(0).unwrap();
    let s = screen();
    let drawn = rows(&m.draw(&s));
    assert!(drawn.iter().any(|r| r.contains("about one")));
    assert!(!drawn.iter().any(|r| r.contains("about two")));
    assert_eq!(m.press(&s, Input::Down), MenuStep::Stay);
    assert_eq!(m.selected, 2);
    assert_eq!(m.press(&s, Input::Select), MenuStep::Leave(Choice::Item(2)));
    assert_eq!(m.press(&s, Input::Cancel), MenuStep::Leave(Choice::Cancelled));
    assert_eq!(m.press(&s, Input::View), MenuStep::Display);
    assert_eq!(menu(1).unwrap().selected, 2, "a separator cannot be selected");
    let none = Menu::new(
        String::new(),
        vec![],
        vec![Item::separator()],
        String::new(),
        None,
        0,
    );
    assert!(none.is_none());
    let mut look = Menu::new(
        String::new(),
        vec![],
        vec![item("one")],
        "back".to_string(),
        Some("details".to_string()),
        0,
    )
    .unwrap();
    assert_eq!(look.press(&s, Input::View), MenuStep::Leave(Choice::Inspect(0)));
}

// ---------------------------------------------------------------- consent

fn pressed(presses: &[Input]) -> GateStep {
    let mut g = Gate::new();
    for (i, p) in presses.iter().enumerate() {
        match g.press(*p) {
            GateStep::Waiting(next) => g = next,
            done => {
                assert_eq!(i + 1, presses.len());
                return done;
            }
        }
    }
    GateStep::Waiting(g)
}

#[test]
fn five_presses_in_order_authorise() {
    let all = confirm_presses();
    assert_eq!(all, [Input::Left, Input::Right, Input::Left, Input::Right, Input::Select]);
    assert_eq!(pressed(&all), GateStep::Authorised);
    assert_eq!(pressed(&all[..4]), GateStep::Waiting(Gate { position: 4, wrong: false }));
    assert_eq!(
        pressed(&[Input::Left, Input::Select]),
        GateStep::Waiting(Gate { position: 0, wrong: true })
    );
    assert_eq!(
        pressed(&[Input::Left, Input::Right, Input::Left, Input::Left]),
        GateStep::Waiting(Gate { position: 1, wrong: true }),
        "a fumbled restart counts as one"
    );
    assert_eq!(pressed(&[Input::Left, Input::Cancel]), GateStep::Cancelled);
    assert_eq!(
        pressed(&[Input::Left, Input::View]),
        GateStep::Waiting(Gate { position: 1, wrong: false })
    );
    assert_eq!(step_name(Input::Select), "A");
    let g = Gate { position: 2, wrong: false };
    let shown = rows(&confirm_sequence(&screen(), "Authorise write", &[line("careful")], g));
    assert!(shown.iter().any(|r| r == "careful"));
    assert!(shown.iter().any(|r| r == "     LEFT  RIGHT  LEFT  RIGHT  A  "));
    assert!(shown.iter().any(|r| r == "  next: LEFT"));
    assert!(shown.iter().any(|r| r.starts_with("     [x]   [x]    [ ]   [ ]    [ ]")));
}

// ---------------------------------------------------------------- display

fn mode(width: usize, height: usize) -> Mode {
    Mode { width, height, current: false, drawable: true }
}

#[test]
fn modes_are_listed_in_the_room_there_is() {
    let entries: Vec<String> = ["aaaa", "bbbb", "cccc"].iter().map(|s| s.to_string()).collect();
    assert_eq!(
        pack(&entries, 10, 2),
        (vec!["aaaa  bbbb".to_string(), "cccc".to_string()], 3)
    );
    assert_eq!(pack(&entries, 4, 2).1, 2);
    let modes = [
        Mode { current: true, ..mode(1280, 800) },
        Mode { drawable: false, ..mode(640, 480) },
    ];
    assert_eq!(mode_lines(&modes, 70, 3), vec!["1280x800*  640x480!".to_string()]);
}

#[test]
fn the_display_screen_turns_resizes_and_tries() {
    let upgrade = Upgrade { width: 1920, height: 1080, layout: layout_for(1920, 1080) };
    let press = |u, i| display_press(Rotation::AsIs, u, i);
    assert_eq!(press(None, Input::Right), DisplayStep::Turn(Rotation::Cw90));
    assert_eq!(press(None, Input::Left), DisplayStep::Turn(Rotation::Ccw90));
    assert_eq!(press(None, Input::Up), DisplayStep::Resize { bigger: true });
    assert_eq!(press(None, Input::View), DisplayStep::Leave);
    assert_eq!(press(Some(upgrade), Input::View), DisplayStep::Try(1920, 1080));
    assert_eq!(press(Some(upgrade), Input::Select), DisplayStep::Leave);
    let d = Showing {
        rotation: Rotation::AsIs,
        resolution: Some((1280, 800)),
        layout: Some(layout_for(1280, 800)),
        modes: vec![mode(1920, 1080)],
        upgrade: Some(upgrade),
        note: Some("noted".to_string()),
    };
    let shown = rows(&display(&screen(), &d));
    assert!(shown.iter().any(|r| r.contains("1920 x 1080")));
    assert!(shown.iter().any(|r| r.contains("noted")));
    assert_eq!(resize_note(true, true), None);
    assert!(resize_note(true, false).is_some());
}

#[test]
fn silence_puts_the_old_mode_back() {
    let mut t = Trial::new();
    let mut ticks = 0;
    loop {
        ticks += 1;
        match t.tick(if ticks == 7 { Some(Input::View) } else { None }) {
            TrialStep::Wait(next) => t = next,
            TrialStep::Revert => break,
            TrialStep::Keep => panic!("nobody confirmed it"),
        }
    }
    assert_eq!(ticks, 600);
    assert_eq!(Trial::new().tick(Some(Input::Select)), TrialStep::Keep);
    assert_eq!(Trial::new().tick(Some(Input::Cancel)), TrialStep::Revert);
    assert_eq!(try_mode(Tried::Kept), None);
    assert!(try_mode(Tried::Refused).is_some());
    assert!(try_mode(Tried::Reverted).is_some());
    assert!(try_mode(Tried::Stuck).is_some());
    assert!(!confirm_mode(&screen(), (1280, 800), 3).is_empty());
}

// ------------------------------------------------------------------ plain

#[test]
fn the_plain_screens_scroll_and_go_round() {
    assert_eq!(plain::fit(&"x".repeat(90), 80).len(), 79);
    assert_eq!(plain::fit("abcdefghij", 3), "abcdefg~");
    let lines: Vec<String> = (0..30).map(|i| format!("line {i}")).collect();
    let drawn = rows(&plain::page("Title", &lines, 80, 25, 2));
    assert_eq!(drawn[0], "Title");
    assert_eq!(drawn[1], "-".repeat(78));
    assert_eq!(drawn[2], "line 2");
    assert!(drawn.contains(&"  lines 3-21 of 30   D-pad up/down to scroll".to_string()));
    let press = |top, input| plain::page_press(30, 25, top, input);
    assert_eq!(press(0, Input::Up), plain::PagePress::From(0));
    assert_eq!(press(0, Input::Right), plain::PagePress::From(11));
    assert_eq!(press(11, Input::Down), plain::PagePress::From(11));
    assert_eq!(press(11, Input::Left), plain::PagePress::From(0));
    assert_eq!(press(3, Input::Select), plain::PagePress::Answered(true));
    assert_eq!(press(3, Input::Cancel), plain::PagePress::Answered(false));
    let m = rows(&plain::message("Note", &lines[..1], 80, 25));
    assert_eq!(m[2], "line 0");
    let item = |l: &str| plain::Item { label: l.to_string(), detail: vec![format!("about {l}")] };
    let items = [item("one"), item("two")];
    let drawn = rows(&plain::menu("Title", &[], &items, "exit", 80, 25, 0, 1));
    assert_eq!(drawn[3], "   one");
    assert_eq!(drawn[4], format!("  {:<75} ", "two"));
    assert!(drawn.contains(&"about two".to_string()));
    assert_eq!(drawn.last().unwrap(), "  D-pad = move    A = choose    exit");
    assert_eq!(plain::menu_press(2, 1, Input::Down), plain::MenuPress::At(0));
    assert_eq!(plain::menu_press(2, 0, Input::Up), plain::MenuPress::At(1));
    assert_eq!(plain::menu_press(2, 0, Input::Select), plain::MenuPress::Chosen(0));
    assert_eq!(plain::menu_press(2, 0, Input::Cancel), plain::MenuPress::Back);
    let many: Vec<plain::Item> = (0..40).map(|i| item(&format!("row {i}"))).collect();
    assert_eq!(plain::scrolled(0, &many, 25, 0, 30), 13);
}

#[test]
fn the_plain_gate_takes_no_detours() {
    let g = Gate { position: 2, wrong: false };
    assert_eq!(
        plain::gate_press(g, Input::View),
        GateStep::Waiting(Gate { position: 0, wrong: true })
    );
    assert_eq!(
        plain::gate_press(g, Input::Left),
        GateStep::Waiting(Gate { position: 3, wrong: false })
    );
    assert_eq!(plain::gate_press(g, Input::Cancel), GateStep::Cancelled);
    let drawn =
        rows(&plain::confirm_sequence("Authorise write", &["careful".to_string()], 80, 25, g));
    assert_eq!(drawn[2], "careful");
    assert!(drawn.contains(&"     LEFT  RIGHT  LEFT  RIGHT  A  ".to_string()));
    assert!(drawn.contains(&"     [x]   [x]    [ ]   [ ]    [ ]".to_string()));
    assert!(drawn.contains(&"  next: LEFT".to_string()));
}
