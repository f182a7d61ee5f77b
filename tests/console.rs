use vga_console::buffer::{Buffer, BUFFER_HEIGHT, BUFFER_WIDTH};
use vga_console::color::{Color, ColorCode, ScreenChar};
use vga_console::qemu::QemuExitCode;
use vga_console::writer::{_print, Writer, PLACEHOLDER};

const BOTTOM: usize = BUFFER_HEIGHT - 1;

fn code() -> ColorCode {
    ColorCode::new(Color::Yellow, Color::Black)
}

fn fresh_writer() -> Writer {
    let blank = ScreenChar::new(b' ', code());
    let buffer: &'static mut Buffer = Box::leak(Box::new(Buffer::filled(blank)));
    Writer::new(code(), buffer)
}

fn row_text(w: &Writer, row: usize) -> Vec<u8> {
    (0..BUFFER_WIDTH).map(|c| w.cell(row, c).ascii_character).collect()
}

fn padded(text: &[u8]) -> Vec<u8> {
    let mut v = text.to_vec();
    v.resize(BUFFER_WIDTH, b' ');
    v
}

#[test]
fn hello_lands_on_bottom_row() {
    let mut w = fresh_writer();
    w.write_string("Hello");
    for (i, b) in b"Hello".iter().enumerate() {
        assert_eq!(w.cell(BOTTOM, i), ScreenChar::new(*b, code()));
    }
    assert_eq!(w.cell(BOTTOM, 5), ScreenChar::new(b' ', code()));
    assert_eq!(w.column_position(), 5);
    assert_eq!(row_text(&w, BOTTOM - 1), padded(b""));
}

#[test]
fn unprintable_bytes_become_placeholder() {
    let mut w = fresh_writer();
    w.write_string("a\u{7}b\tc\u{7f}");
    assert_eq!(row_text(&w, BOTTOM)[..6].to_vec(), vec![b'a', PLACEHOLDER, b'b', PLACEHOLDER, b'c', PLACEHOLDER]);
    assert_eq!(w.column_position(), 6);
}

#[test]
fn multibyte_character_gives_one_placeholder_per_byte() {
    let mut w = fresh_writer();
    w.write_string("W\u{f6}rld");
    assert_eq!(row_text(&w, BOTTOM)[..6].to_vec(), vec![b'W', PLACEHOLDER, PLACEHOLDER, b'r', b'l', b'd']);
    assert_eq!(w.column_position(), 6);
}

#[test]
fn placeholder_colour_is_the_writer_colour() {
    let mut w = fresh_writer();
    w.write_string("\u{1}");
    assert_eq!(w.cell(BOTTOM, 0), ScreenChar::new(0xfe, code()));
}

#[test]
fn write_byte_stores_the_byte_unchanged() {
    let mut w = fresh_writer();
    w.write_byte(0x07);
    w.write_byte(b'Z');
    assert_eq!(w.cell(BOTTOM, 0).ascii_character, 0x07);
    assert_eq!(w.cell(BOTTOM, 1).ascii_character, b'Z');
    assert_eq!(w.column_position(), 2);
}

#[test]
fn overflowing_row_scrolls_once_before_placing() {
    let mut w = fresh_writer();
    let line: Vec<u8> = (0..BUFFER_WIDTH).map(|i| b'a' + (i % 26) as u8).collect();
    let mut text = String::from_utf8(line.clone()).unwrap();
    text.push('#');
    w.write_string(&text);
    assert_eq!(row_text(&w, BOTTOM - 1), line);
    assert_eq!(w.cell(BOTTOM, 0), ScreenChar::new(b'#', code()));
    assert_eq!(row_text(&w, BOTTOM), padded(b"#"));
    assert_eq!(row_text(&w, BOTTOM - 2), padded(b""));
    assert_eq!(w.column_position(), 1);
}

#[test]
fn full_row_without_overflow_does_not_scroll() {
    let mut w = fresh_writer();
    let line = "x".repeat(BUFFER_WIDTH);
    w.write_string(&line);
    assert_eq!(w.column_position(), BUFFER_WIDTH);
    assert_eq!(row_text(&w, BOTTOM), vec![b'x'; BUFFER_WIDTH]);
    assert_eq!(row_text(&w, BOTTOM - 1), padded(b""));
}

#[test]
fn newline_at_column_zero_scrolls() {
    let mut w = fresh_writer();
    w.write_string("abc\n");
    assert_eq!(w.column_position(), 0);
    assert_eq!(row_text(&w, BOTTOM - 1), padded(b"abc"));
    w.write_byte(b'\n');
    assert_eq!(w.column_position(), 0);
    assert_eq!(row_text(&w, BOTTOM - 2), padded(b"abc"));
    assert_eq!(row_text(&w, BOTTOM - 1), padded(b""));
    assert_eq!(row_text(&w, BOTTOM), padded(b""));
}

#[test]
fn scroll_keeps_row_order() {
    let mut w = fresh_writer();
    w.write_string("one\ntwo\nthree");
    let before: Vec<Vec<u8>> = (0..BUFFER_HEIGHT).map(|r| row_text(&w, r)).collect();
    w.write_byte(b'\n');
    for r in 1..BUFFER_HEIGHT {
        assert_eq!(row_text(&w, r - 1), before[r]);
    }
    assert_eq!(row_text(&w, BOTTOM), padded(b""));
    assert_eq!(row_text(&w, BOTTOM - 1), padded(b"three"));
    assert_eq!(row_text(&w, BOTTOM - 2), padded(b"two"));
    assert_eq!(row_text(&w, BOTTOM - 3), padded(b"one"));
}

#[test]
fn top_row_is_dropped_after_many_lines() {
    let mut w = fresh_writer();
    for i in 0..(BUFFER_HEIGHT + 3) {
        w.write_string(&format!("line {}\n", i));
    }
    assert_eq!(row_text(&w, 0), padded(b"line 4"));
    assert_eq!(row_text(&w, BOTTOM - 1), padded(b"line 27"));
    assert_eq!(row_text(&w, BOTTOM), padded(b""));
}

#[test]
fn separate_prints_equal_one_concatenated_print() {
    let a = "first part\nwith a line break and \u{e9}";
    let b = "second part that is long enough to wrap past the right edge of the display row";
    let mut split = fresh_writer();
    _print(&mut split, a);
    _print(&mut split, b);
    let mut whole = fresh_writer();
    _print(&mut whole, &format!("{}{}", a, b));
    for r in 0..BUFFER_HEIGHT {
        for c in 0..BUFFER_WIDTH {
            assert_eq!(split.cell(r, c), whole.cell(r, c));
        }
    }
    assert_eq!(split.column_position(), whole.column_position());
}

#[test]
fn print_writes_whole_text() {
    let mut w = fresh_writer();
    _print(&mut w, "Hello World!\n");
    assert_eq!(row_text(&w, BOTTOM - 1), padded(b"Hello World!"));
    assert_eq!(w.column_position(), 0);
}

#[test]
fn color_code_packs_and_decodes_all_pairs() {
    for f in 0u8..16 {
        for b in 0u8..16 {
            let fg = Color::from_index(f);
            let bg = Color::from_index(b);
            let cc = ColorCode::new(fg, bg);
            assert_eq!(cc.0, (b << 4) | f);
            assert_eq!(cc.0 & 0x0f, f);
            assert_eq!(cc.0 >> 4, b);
            assert_eq!(cc.foreground(), fg);
            assert_eq!(cc.background(), bg);
        }
    }
}

#[test]
fn color_code_examples() {
    assert_eq!(ColorCode::new(Color::Yellow, Color::Black).0, 0x0e);
    assert_eq!(ColorCode::new(Color::White, Color::Blue).0, 0x1f);
    assert_eq!(ColorCode::new(Color::Black, Color::White).0, 0xf0);
}

#[test]
fn color_indices() {
    assert_eq!(Color::Black.index(), 0);
    assert_eq!(Color::LightGray.index(), 7);
    assert_eq!(Color::Pink.index(), 13);
    assert_eq!(Color::White.index(), 15);
    assert_eq!(Color::from_index(9), Color::LightBlue);
}

#[test]
fn writer_keeps_its_colour() {
    let blank = ScreenChar::new(b' ', ColorCode::new(Color::Black, Color::Black));
    let buffer: &'static mut Buffer = Box::leak(Box::new(Buffer::filled(blank)));
    let cc = ColorCode::new(Color::Green, Color::Red);
    let mut w = Writer::new(cc, buffer);
    w.write_string("g\n");
    assert_eq!(w.color_code(), cc);
    assert_eq!(w.cell(BOTTOM - 1, 0), ScreenChar::new(b'g', cc));
    assert_eq!(w.cell(BOTTOM, 3), ScreenChar::new(b' ', cc));
    assert_eq!(w.cell(0, 3), blank);
}

#[test]
fn buffer_reads_back_what_was_written() {
    let blank = ScreenChar::new(b'.', code());
    let mut buffer = Buffer::filled(blank);
    assert_eq!(buffer.read(3, 7), blank);
    let x = ScreenChar::new(b'Q', ColorCode::new(Color::Cyan, Color::Magenta));
    buffer.write(3, 7, x);
    assert_eq!(buffer.read(3, 7), x);
    assert_eq!(buffer.read(3, 8), blank);
    assert_eq!(buffer.read(BUFFER_HEIGHT - 1, BUFFER_WIDTH - 1), blank);
}

#[test]
fn exit_codes() {
    assert_eq!(QemuExitCode::Success.code(), 0x10);
    assert_eq!(QemuExitCode::Failed.code(), 0x11);
}
