//! The text writer over the in-memory screen.
use early_paging::vga_buffer::{Color, ColorCode, Writer};
use early_paging::cpu::{efer_with_nxe, cr0_with_write_protect};

#[test]
fn color_code_packs_background_and_foreground() {
    let code = ColorCode::new(Color::LightGreen, Color::Black);
    assert_eq!(code.code, 10);
    let code2 = ColorCode::new(Color::White, Color::Blue);
    assert_eq!(code2.code, 16 + 15);
}

#[test]
fn bytes_land_on_the_bottom_row() {
    let mut writer = Writer::new(ColorCode::new(Color::LightGreen, Color::Black));
    writer.write_byte(b'h');
    writer.write_byte(b'i');
    assert_eq!(writer.cell(24, 0).ascii_character, b'h');
    assert_eq!(writer.cell(24, 1).ascii_character, b'i');
    assert_eq!(writer.cell(24, 2).ascii_character, b' ');
}

#[test]
fn newline_scrolls_the_screen_up() {
    let mut writer = Writer::new(ColorCode::new(Color::White, Color::Black));
    writer.write_str(b"ab");
    writer.write_byte(b'\n');
    writer.write_byte(b'c');
    assert_eq!(writer.cell(23, 0).ascii_character, b'a');
    assert_eq!(writer.cell(23, 1).ascii_character, b'b');
    assert_eq!(writer.cell(24, 0).ascii_character, b'c');
}

#[test]
fn a_full_row_wraps_to_a_new_line() {
    let mut writer = Writer::new(ColorCode::new(Color::White, Color::Black));
    for _ in 0..80 {
        writer.write_byte(b'x');
    }
    writer.write_byte(b'y');
    assert_eq!(writer.cell(23, 0).ascii_character, b'x');
    assert_eq!(writer.cell(23, 79).ascii_character, b'x');
    assert_eq!(writer.cell(24, 0).ascii_character, b'y');
}

#[test]
fn clear_screen_blanks_every_cell() {
    let mut writer = Writer::new(ColorCode::new(Color::White, Color::Black));
    writer.write_str(b"hello\nworld");
    writer.clear_screen();
    for row in [0usize, 12, 23, 24] {
        for col in [0usize, 40, 79] {
            assert_eq!(writer.cell(row, col).ascii_character, b' ');
        }
    }
}

#[test]
fn cpu_feature_bits_are_set() {
    assert_eq!(efer_with_nxe(0), 0x800);
    assert_eq!(efer_with_nxe(0x1234), 0x1234 | 0x800);
    assert_eq!(cr0_with_write_protect(0x11), 0x11 | 0x1_0000);
}
