use floof::interrupts::InterruptIndex;
use floof::vga_buffer::{vga_color, Color, ColorCode, Writer, BUFFER_HEIGHT, BUFFER_WIDTH};
use floof::QemuExitCode;

#[test]
fn color_codes_pack_background_high_and_foreground_low() {
    assert_eq!(ColorCode::new(Color::White, Color::Black).0, 0x0F);
    assert_eq!(ColorCode::new(Color::Yellow, Color::Black).0, 0x0E);
    assert_eq!(ColorCode::new(Color::Black, Color::White).0, 0xF0);
    assert_eq!(ColorCode::new(Color::Cyan, Color::Red).0, 0x43);
}

#[test]
fn color_from_byte_reads_the_palette() {
    assert_eq!(Color::from_byte(0), Color::Black);
    assert_eq!(Color::from_byte(14), Color::Yellow);
    assert_eq!(Color::from_byte(15), Color::White);
    // out of palette: falls back to black
    assert_eq!(Color::from_byte(16), Color::Black);
    assert_eq!(Color::from_byte(200), Color::Black);
}

#[test]
fn written_text_appears_on_screen() {
    let mut w = Writer::new();
    let s = "TestTestTestTest";
    w.write_string("\n");
    w.write_string(s);
    let row = w.row_pos;
    for (col, c) in s.bytes().enumerate() {
        assert_eq!(w.cell(row, col).ascii_char, c);
    }
}

#[test]
fn long_lines_wrap() {
    let mut w = Writer::new();
    for _ in 0..BUFFER_WIDTH + 1 {
        w.write_byte(b'x');
    }
    assert_eq!(w.row_pos, 1);
    assert_eq!(w.col_pos, 1);
    assert_eq!(w.cell(0, BUFFER_WIDTH - 1).ascii_char, b'x');
    assert_eq!(w.cell(1, 0).ascii_char, b'x');
}

#[test]
fn last_row_scrolls() {
    let mut w = Writer::new();
    w.write_string("top\n");
    for _ in 0..BUFFER_HEIGHT - 1 {
        w.write_byte(b'\n');
    }
    // the writer is pinned to the last row; the first line has scrolled off
    assert_eq!(w.row_pos, BUFFER_HEIGHT - 1);
    assert_eq!(w.cell(0, 0).ascii_char, b' ');
    w.write_string("bottom");
    assert_eq!(w.cell(BUFFER_HEIGHT - 1, 0).ascii_char, b'b');
}

#[test]
fn unprintable_bytes_are_substituted() {
    let mut w = Writer::new();
    w.write_string("\u{1}");
    assert_eq!(w.cell(0, 0).ascii_char, 0xFE);
}

#[test]
fn clear_row_blanks_the_row_in_the_current_color() {
    let mut w = Writer::new();
    w.write_string("something");
    w.clear_row(0);
    for col in 0..BUFFER_WIDTH {
        assert_eq!(w.cell(0, col).ascii_char, b' ');
        assert_eq!(w.cell(0, col).color_code, w.color_code);
    }
}

#[test]
fn vga_color_sets_both_halves() {
    let mut w = Writer::new();
    // starting from black background, the foreground survives the re-read
    vga_color(&mut w, Color::Yellow, Color::Black);
    assert_eq!(w.color_code.0, 0x0E);
    vga_color(&mut w, Color::White, Color::Black);
    assert_eq!(w.color_code.0, 0x0F);
}

#[test]
fn exit_codes_match_the_emulator_protocol() {
    assert_eq!(QemuExitCode::Success.code(), 0x10);
    assert_eq!(QemuExitCode::Failed.code(), 0x11);
}

#[test]
fn interrupt_vectors_follow_the_controller_offset() {
    assert_eq!(InterruptIndex::Timer.as_u8(), 32);
    assert_eq!(InterruptIndex::Keyboard.as_u8(), 33);
    assert_eq!(InterruptIndex::Timer.as_usize(), 32);
    assert_eq!(InterruptIndex::Keyboard.as_usize(), 33);
}
