use vga_console::vga_buffer::{BLANK, NEWLINE};
use vga_console::{
    Color, ColorCode, ScreenChar, Writer, BUFFER_HEIGHT, BUFFER_WIDTH, UNPRINTABLE_GLYPH,
};

fn default_code() -> ColorCode {
    ColorCode::new(Color::LightGreen, Color::Black)
}

fn row_bytes(w: &Writer, y: usize) -> Vec<u8> {
    (0..BUFFER_WIDTH).map(|x| w.read_character(x, y).ascii_character).collect()
}

fn padded(text: &str) -> Vec<u8> {
    let mut v = text.as_bytes().to_vec();
    v.resize(BUFFER_WIDTH, BLANK);
    v
}

fn all_cells(w: &Writer) -> Vec<ScreenChar> {
    let mut v = Vec::new();
    for y in 0..BUFFER_HEIGHT {
        for x in 0..BUFFER_WIDTH {
            v.push(w.read_character(x, y));
        }
    }
    v
}

#[test]
fn palette_indices_follow_hardware_order() {
    let colors = [
        Color::Black,
        Color::Blue,
        Color::Green,
        Color::Cyan,
        Color::Red,
        Color::Magenta,
        Color::Brown,
        Color::LightGray,
        Color::DarkGray,
        Color::LightBlue,
        Color::LightGreen,
        Color::LightCyan,
        Color::LightRed,
        Color::Pink,
        Color::Yellow,
        Color::White,
    ];
    for (i, c) in colors.iter().enumerate() {
        assert_eq!(c.index() as usize, i);
        assert_eq!(Color::from_index(i as u8), Some(*c));
    }
    assert_eq!(Color::from_index(16), None);
    assert_eq!(Color::from_index(255), None);
}

#[test]
fn color_code_packs_and_unpacks_every_pair() {
    for fg in 0u8..16 {
        for bg in 0u8..16 {
            let f = Color::from_index(fg).unwrap();
            let b = Color::from_index(bg).unwrap();
            let code = ColorCode::new(f, b);
            assert_eq!(code.value(), (bg << 4) | fg);
            assert_eq!(code.foreground(), f);
            assert_eq!(code.background(), b);
        }
    }
}

#[test]
fn color_code_exact_values() {
    assert_eq!(default_code().value(), 0x0a);
    assert_eq!(ColorCode::new(Color::White, Color::Blue).value(), 0x1f);
    assert_eq!(ColorCode::new(Color::Black, Color::White).value(), 0xf0);
    assert_eq!(ColorCode::new(Color::Yellow, Color::Red).value(), 0x4e);
}

#[test]
fn new_writer_is_blank() {
    let w = Writer::new(default_code());
    assert_eq!(w.column_position(), 0);
    let blank = ScreenChar { ascii_character: BLANK, color_code: default_code() };
    assert!(all_cells(&w).iter().all(|c| *c == blank));
}

#[test]
fn write_byte_places_at_cursor() {
    let code = ColorCode::new(Color::Pink, Color::Blue);
    let mut w = Writer::new(code);
    w.write_byte(b'A');
    assert_eq!(w.column_position(), 1);
    assert_eq!(
        w.read_character(0, BUFFER_HEIGHT - 1),
        ScreenChar { ascii_character: b'A', color_code: code }
    );
    w.write_byte(b'B');
    assert_eq!(w.column_position(), 2);
    assert_eq!(w.read_character(1, BUFFER_HEIGHT - 1).ascii_character, b'B');
    assert_eq!(w.read_character(2, BUFFER_HEIGHT - 1).ascii_character, BLANK);
}

#[test]
fn printable_bytes_pass_unchanged() {
    for b in 0x20u8..=0x7e {
        let mut w = Writer::new(default_code());
        let s = String::from(b as char);
        w.write_string(&s);
        assert_eq!(w.read_character(0, BUFFER_HEIGHT - 1).ascii_character, b);
        assert_eq!(w.column_position(), 1);
    }
}

#[test]
fn other_bytes_become_the_unprintable_glyph() {
    for b in (0x00u8..0x20).chain(0x7f..=0x7f) {
        if b == NEWLINE {
            continue;
        }
        let mut w = Writer::new(default_code());
        let s = String::from(b as char);
        w.write_string(&s);
        assert_eq!(w.read_character(0, BUFFER_HEIGHT - 1).ascii_character, UNPRINTABLE_GLYPH);
        assert_eq!(w.column_position(), 1);
    }
    let mut w = Writer::new(default_code());
    w.write_string("\u{e9}x");
    assert_eq!(w.column_position(), 3);
    assert_eq!(w.read_character(0, BUFFER_HEIGHT - 1).ascii_character, UNPRINTABLE_GLYPH);
    assert_eq!(w.read_character(1, BUFFER_HEIGHT - 1).ascii_character, UNPRINTABLE_GLYPH);
    assert_eq!(w.read_character(2, BUFFER_HEIGHT - 1).ascii_character, b'x');
}

#[test]
fn newline_in_text_is_a_line_break() {
    let mut w = Writer::new(default_code());
    w.write_string("ab\n");
    assert_eq!(w.column_position(), 0);
    assert_eq!(row_bytes(&w, BUFFER_HEIGHT - 2), padded("ab"));
    assert_eq!(row_bytes(&w, BUFFER_HEIGHT - 1), padded(""));
}

#[test]
fn full_row_wraps_by_itself() {
    let mut w = Writer::new(default_code());
    w.write_string("top\nmiddle\n");
    let before = all_cells(&w);
    let line: String = (0..BUFFER_WIDTH).map(|i| (b'a' + (i % 26) as u8) as char).collect();
    w.write_string(&line);
    assert_eq!(w.column_position(), 0);
    let after = all_cells(&w);
    for y in 0..BUFFER_HEIGHT - 2 {
        for x in 0..BUFFER_WIDTH {
            assert_eq!(after[y * BUFFER_WIDTH + x], before[(y + 1) * BUFFER_WIDTH + x]);
        }
    }
    assert_eq!(row_bytes(&w, BUFFER_HEIGHT - 2), line.as_bytes().to_vec());
    assert_eq!(row_bytes(&w, BUFFER_HEIGHT - 1), padded(""));
    assert_eq!(row_bytes(&w, BUFFER_HEIGHT - 3), padded("middle"));
}

#[test]
fn newline_moves_bottom_row_up_and_blanks_it() {
    let code = ColorCode::new(Color::Yellow, Color::Red);
    let mut w = Writer::new(code);
    w.write_string("first\nsecond");
    w.write_byte(NEWLINE);
    assert_eq!(w.column_position(), 0);
    assert_eq!(row_bytes(&w, BUFFER_HEIGHT - 2), padded("second"));
    assert_eq!(row_bytes(&w, BUFFER_HEIGHT - 3), padded("first"));
    for x in 0..BUFFER_WIDTH {
        assert_eq!(
            w.read_character(x, BUFFER_HEIGHT - 1),
            ScreenChar { ascii_character: BLANK, color_code: code }
        );
    }
}

#[test]
fn first_of_height_plus_one_lines_is_discarded() {
    let mut w = Writer::new(default_code());
    for k in 0..=BUFFER_HEIGHT {
        if k > 0 {
            w.write_byte(NEWLINE);
        }
        w.write_string(&format!("L{:02}", k));
    }
    assert_eq!(row_bytes(&w, 0), padded("L01"));
    assert_eq!(row_bytes(&w, BUFFER_HEIGHT - 1), padded(&format!("L{:02}", BUFFER_HEIGHT)));
    for y in 0..BUFFER_HEIGHT {
        assert_ne!(row_bytes(&w, y), padded("L00"));
    }
}

#[test]
fn earlier_screen_leaves_no_trace() {
    let mut a = Writer::new(default_code());
    let mut b = Writer::new(default_code());
    a.write_string("something old\nand more\n");
    let lines: String = (0..BUFFER_HEIGHT).map(|k| format!("line {}\n", k)).collect();
    a.write_string(&lines);
    b.write_string(&lines);
    assert!(all_cells(&a) == all_cells(&b));
    assert_eq!(a.column_position(), b.column_position());
}

#[test]
fn two_messages_appear_back_to_back() {
    let mut pieces = Writer::new(default_code());
    pieces.write_string("main flow;");
    pieces.write_string("from handler\n");
    let mut whole = Writer::new(default_code());
    whole.write_string("main flow;from handler\n");
    assert!(all_cells(&pieces) == all_cells(&whole));
    assert_eq!(row_bytes(&pieces, BUFFER_HEIGHT - 2), padded("main flow;from handler"));
}

#[test]
fn hi_newline_bye() {
    let mut w = Writer::new(default_code());
    w.write_string("Hi");
    w.write_string("\n");
    w.write_string("Bye");
    assert_eq!(row_bytes(&w, BUFFER_HEIGHT - 2), padded("Hi"));
    assert_eq!(row_bytes(&w, BUFFER_HEIGHT - 1), padded("Bye"));
    assert_eq!(w.column_position(), 3);
}

#[test]
fn long_output_stays_in_bounds() {
    let mut w = Writer::new(default_code());
    let text: String = (0..BUFFER_WIDTH * BUFFER_HEIGHT * 2 + 7).map(|_| 'x').collect();
    w.write_string(&text);
    assert_eq!(w.column_position(), 7);
    assert_eq!(row_bytes(&w, 0), vec![b'x'; BUFFER_WIDTH]);
    assert_eq!(w.read_character(6, BUFFER_HEIGHT - 1).ascii_character, b'x');
    assert_eq!(w.read_character(7, BUFFER_HEIGHT - 1).ascii_character, BLANK);
}

#[test]
fn empty_text_changes_nothing() {
    let mut w = Writer::new(default_code());
    w.write_string("abc");
    let before = all_cells(&w);
    w.write_string("");
    assert!(all_cells(&w) == before);
    assert_eq!(w.column_position(), 3);
}
