use fbconsole::color::Color;
use fbconsole::framebuffer::FrameBuffer;
use fbconsole::psf::PsfFont;
use fbconsole::terminal::TerminalWriter;

const WIDTH: u64 = 128;
const HEIGHT: u64 = 64;
const PITCH: u64 = 544;
const GLYPH_HEIGHT: usize = 16;

fn glyph_row(code: usize, row: usize) -> u8 {
    ((code * 37 + row * 11 + 1) % 256) as u8
}

fn font_data(height: usize) -> Vec<u8> {
    let mut data = vec![0u8; 0x20 + 255 * 0x10 + height.max(16)];
    for code in 0..256usize {
        for row in 0..16usize {
            data[0x20 + code * 0x10 + row] = glyph_row(code, row);
        }
    }
    data
}

fn font() -> PsfFont {
    PsfFont::new(8, GLYPH_HEIGHT as u32, font_data(GLYPH_HEIGHT)).unwrap()
}

fn surface(width: u64, height: u64, pitch: u64) -> FrameBuffer {
    FrameBuffer::new(width, height, pitch, 32, vec![0u8; (pitch * height * 4) as usize]).unwrap()
}

fn console() -> TerminalWriter {
    TerminalWriter::new(surface(WIDTH, HEIGHT, PITCH), font()).unwrap()
}

fn cell_offset(row: usize, col: usize, scanline: usize, pixel: usize) -> usize {
    cell_offset_at(PITCH as usize, row, col, scanline, pixel)
}

fn cell_offset_at(pitch: usize, row: usize, col: usize, scanline: usize, pixel: usize) -> usize {
    (scanline + 8 + row * GLYPH_HEIGHT) * pitch + (col * 8 + 8) * 4 + pixel * 4
}

/// A surface of 128 by 64 pixels whose pitch is its width.
fn small_console() -> TerminalWriter {
    TerminalWriter::new(surface(128, 64, 128), font()).unwrap()
}

fn expect_glyph_at(writer: &TerminalWriter, pitch: usize, code: usize, row: usize, col: usize) {
    for scanline in 0..GLYPH_HEIGHT {
        let bits = glyph_row(code, scanline);
        for pixel in 0..8usize {
            let offset = cell_offset_at(pitch, row, col, scanline, pixel);
            let expected = if bits & (0x80 >> pixel) != 0 { 0xFFFF_FFFF } else { 0 };
            assert_eq!(writer.surface().get_pixel(offset), expected);
        }
    }
}

fn expect_glyph(
    memory_before: &[u8],
    writer: &TerminalWriter,
    code: usize,
    row: usize,
    col: usize,
    color: u32,
) {
    for scanline in 0..GLYPH_HEIGHT {
        let bits = glyph_row(code, scanline);
        for pixel in 0..8usize {
            let offset = cell_offset(row, col, scanline, pixel);
            let before = u32::from_le_bytes([
                memory_before[offset],
                memory_before[offset + 1],
                memory_before[offset + 2],
                memory_before[offset + 3],
            ]);
            let expected = if bits & (0x80 >> pixel) != 0 { color } else { before };
            assert_eq!(writer.surface().get_pixel(offset), expected);
        }
    }
}

#[test]
fn colors_are_opaque_argb_values() {
    assert_eq!(Color::White.argb(), 0xFFFF_FFFF);
    assert_eq!(Color::Red.argb(), 0xFFFF_0000);
    assert_eq!(Color::Green.argb(), 0xFF00_FF00);
    assert_eq!(Color::Blue.argb(), 0xFF00_00FF);
}

#[test]
fn new_console_starts_in_the_first_cell_in_white() {
    let writer = console();
    assert_eq!(writer.cursor_row(), 0);
    assert_eq!(writer.cursor_col(), 0);
    assert_eq!(writer.terminal_color(), Color::White);
    assert_eq!(writer.surface().width(), WIDTH);
    assert_eq!(writer.surface().height(), HEIGHT);
    assert_eq!(writer.surface().pitch(), PITCH);
    assert_eq!(writer.font().height(), 16);
    assert!(writer.surface().memory().iter().all(|&byte| byte == 0));
}

#[test]
fn new_console_keeps_what_the_surface_shows() {
    let memory: Vec<u8> = (0..(PITCH * HEIGHT * 4) as usize).map(|i| (i % 251) as u8).collect();
    let shown = FrameBuffer::new(WIDTH, HEIGHT, PITCH, 32, memory.clone()).unwrap();
    let writer = TerminalWriter::new(shown, font()).unwrap();
    assert_eq!(writer.surface().memory(), &memory);
}

#[test]
fn new_console_needs_a_pitch_of_two_cells() {
    assert!(TerminalWriter::new(surface(4, 64, 63), font()).is_none());
    assert!(TerminalWriter::new(surface(4, 64, 64), font()).is_some());
}

#[test]
fn new_console_needs_glyphs_of_some_height() {
    let flat = PsfFont::new(8, 0, font_data(0)).unwrap();
    assert!(TerminalWriter::new(surface(WIDTH, HEIGHT, PITCH), flat).is_none());
    let thin = PsfFont::new(8, 1, font_data(1)).unwrap();
    assert!(TerminalWriter::new(surface(WIDTH, HEIGHT, PITCH), thin).is_some());
}

#[test]
fn new_console_needs_memory_for_the_first_row_of_glyphs() {
    // 8 + glyph height <= 4 * height
    let tall = || PsfFont::new(8, 40, font_data(40)).unwrap();
    assert!(TerminalWriter::new(surface(200, 11, 1020), tall()).is_none());
    assert!(TerminalWriter::new(surface(200, 12, 1020), tall()).is_some());
    let thin = || PsfFont::new(8, 1, font_data(1)).unwrap();
    assert!(TerminalWriter::new(surface(48, 2, 64), thin()).is_none());
    assert!(TerminalWriter::new(surface(48, 3, 64), thin()).is_some());
    assert!(TerminalWriter::new(surface(0, 0, 544), font()).is_none());
    assert!(TerminalWriter::new(surface(0, 6, 64), font()).is_some());
    assert!(TerminalWriter::new(surface(0, 5, 64), font()).is_none());
}

#[test]
fn new_console_needs_no_room_to_scroll() {
    let writer = TerminalWriter::new(surface(128, 64, 128), font()).unwrap();
    assert!(!writer.can_scroll());
    assert_eq!((writer.cursor_row(), writer.cursor_col()), (0, 0));
    let writer = TerminalWriter::new(surface(0, 6, 64), font()).unwrap();
    assert!(!writer.can_scroll());
}

#[test]
fn can_scroll_needs_cells_to_scroll_over() {
    // 2 * pitch <= width * height
    assert!(!TerminalWriter::new(surface(16, 64, 544), font()).unwrap().can_scroll());
    assert!(TerminalWriter::new(surface(17, 64, 544), font()).unwrap().can_scroll());
}

#[test]
fn can_scroll_needs_room_behind_the_scrolled_cells() {
    // width * (height + glyph height) <= pitch * height
    assert!(!TerminalWriter::new(surface(128, 64, 128), font()).unwrap().can_scroll());
    assert!(!TerminalWriter::new(surface(128, 64, 159), font()).unwrap().can_scroll());
    assert!(TerminalWriter::new(surface(128, 64, 160), font()).unwrap().can_scroll());
    assert!(TerminalWriter::new(surface(128, 64, 512), font()).unwrap().can_scroll());
    assert!(console().can_scroll());
    assert!(!TerminalWriter::new(surface(u32::MAX as u64, 6, 64), font()).unwrap().can_scroll());
}

#[test]
fn write_char_draws_the_glyph_at_the_cursor() {
    let mut writer = console();
    let before = writer.surface().memory().clone();
    writer.write_char('A');
    assert_eq!(writer.cursor_row(), 0);
    assert_eq!(writer.cursor_col(), 1);
    expect_glyph(&before, &writer, 'A' as usize, 0, 0, 0xFFFF_FFFF);
    // first scanline, first pixel of the first cell
    assert_eq!(cell_offset(0, 0, 0, 0), 4384);
    let bits = glyph_row('A' as usize, 0);
    let first = writer.surface().get_pixel(4384);
    assert_eq!(first, if bits & 0x80 != 0 { 0xFFFF_FFFF } else { 0 });
}

#[test]
fn write_char_changes_nothing_outside_the_cell() {
    let mut writer = console();
    writer.write_char('#');
    let memory = writer.surface().memory();
    for (offset, &byte) in memory.iter().enumerate() {
        let line = offset / PITCH as usize;
        let within = offset % PITCH as usize;
        let in_cell = (8..24).contains(&line) && (32..64).contains(&within);
        if !in_cell {
            assert_eq!(byte, 0, "offset {}", offset);
        }
    }
    let set: usize = (0..16).map(|row| glyph_row('#' as usize, row).count_ones() as usize).sum();
    let lit = memory.iter().filter(|&&byte| byte == 0xFF).count();
    assert_eq!(lit, set * 4);
}

#[test]
fn write_char_leaves_the_background_of_a_glyph() {
    let memory = vec![0x5Au8; (PITCH * HEIGHT * 4) as usize];
    let shown = FrameBuffer::new(WIDTH, HEIGHT, PITCH, 32, memory.clone()).unwrap();
    let mut writer = TerminalWriter::new(shown, font()).unwrap();
    writer.set_terminal_color(Color::Green);
    writer.write_char('k');
    expect_glyph(&memory, &writer, 'k' as usize, 0, 0, 0xFF00_FF00);
}

#[test]
fn write_char_at_a_later_cell() {
    let mut writer = console();
    writer.write_char('\n');
    writer.write_char('x');
    let before = writer.surface().memory().clone();
    writer.write_char('y');
    assert_eq!((writer.cursor_row(), writer.cursor_col()), (1, 2));
    expect_glyph(&before, &writer, 'y' as usize, 1, 1, 0xFFFF_FFFF);
    assert_eq!(cell_offset(1, 1, 2, 3), 14220);
    let bits = glyph_row('y' as usize, 2);
    assert_eq!(
        writer.surface().get_pixel(14220),
        if bits & 0x10 != 0 { 0xFFFF_FFFF } else { 0 }
    );
}

#[test]
fn write_char_draws_codes_above_255_where_the_font_has_them() {
    let mut data = vec![0u8; 0x20 + 0x300 * 0x10];
    for row in 0..16usize {
        data[0x20 + 0x2A0 * 0x10 + row] = 0xA5;
    }
    let wide = PsfFont::new(8, 16, data).unwrap();
    assert!(wide.has_glyph(0x2A0));
    let mut writer = TerminalWriter::new(surface(WIDTH, HEIGHT, PITCH), wide).unwrap();
    writer.write_char('\u{2A0}');
    assert_eq!(writer.cursor_col(), 1);
    for scanline in 0..16usize {
        for pixel in 0..8usize {
            let expected = if 0xA5u8 & (0x80 >> pixel) != 0 { 0xFFFF_FFFF } else { 0 };
            assert_eq!(writer.surface().get_pixel(cell_offset(0, 0, scanline, pixel)), expected);
        }
    }
}

#[test]
fn newline_moves_to_the_next_row_and_draws_nothing() {
    let mut writer = console();
    writer.write_string("abc");
    let before = writer.surface().memory().clone();
    writer.write_char('\n');
    assert_eq!(writer.cursor_row(), 1);
    assert_eq!(writer.cursor_col(), 0);
    assert_eq!(writer.surface().memory(), &before);
    writer.write_char('\n');
    assert_eq!((writer.cursor_row(), writer.cursor_col()), (2, 0));
    assert_eq!(writer.surface().memory(), &before);
}

#[test]
fn newline_in_a_string_is_a_new_row() {
    let mut writer = console();
    writer.write_string("ab\ncd\n");
    assert_eq!((writer.cursor_row(), writer.cursor_col()), (2, 0));
    let mut other = console();
    other.write_char('a');
    other.write_char('b');
    other.write_char('\n');
    other.write_char('c');
    other.write_char('d');
    other.write_char('\n');
    assert_eq!(writer.surface().memory(), other.surface().memory());
}

#[test]
fn sixteen_glyphs_fill_the_row_and_the_next_wraps() {
    let mut writer = console();
    writer.write_string("Hello, kernel!!!");
    assert_eq!(writer.cursor_row(), 0);
    assert_eq!(writer.cursor_col(), 16);
    let before = writer.surface().memory().clone();
    writer.write_char('?');
    assert_eq!(writer.cursor_row(), 1);
    assert_eq!(writer.cursor_col(), 1);
    expect_glyph(&before, &writer, '?' as usize, 1, 0, 0xFFFF_FFFF);
}

#[test]
fn a_wrap_keeps_every_glyph() {
    let text = "Hello, kernel!!!0123456789abcdefXYZ";
    let mut writer = console();
    writer.write_string(text);
    assert_eq!((writer.cursor_row(), writer.cursor_col()), (2, 3));
    let mut expected = console();
    for (index, character) in text.chars().enumerate() {
        if index > 0 && index % 16 == 0 {
            expected.write_char('\n');
        }
        expected.write_char(character);
    }
    assert_eq!(writer.surface().memory(), expected.surface().memory());
    let blank = vec![0u8; (PITCH * HEIGHT * 4) as usize];
    for (index, character) in text.chars().enumerate() {
        expect_glyph(&blank, &writer, character as usize, index / 16, index % 16, 0xFFFF_FFFF);
    }
    assert_eq!(writer.cursor_row() * 16 + writer.cursor_col(), text.chars().count());
}

#[test]
fn each_character_of_a_text_takes_the_next_cell() {
    let text = "The quick brown fox jumps over the lazy dog, 48!";
    assert_eq!(text.chars().count(), 48);
    let blank = vec![0u8; (PITCH * HEIGHT * 4) as usize];
    for count in 1..=48usize {
        let mut writer = console();
        let part: String = text.chars().take(count).collect();
        writer.write_string(&part);
        assert_eq!(writer.cursor_row(), (count - 1) / 16);
        assert_eq!(writer.cursor_col(), (count - 1) % 16 + 1);
        assert_eq!(writer.cursor_row() * 16 + writer.cursor_col(), count);
        for (index, character) in part.chars().enumerate() {
            expect_glyph(&blank, &writer, character as usize, index / 16, index % 16, 0xFFFF_FFFF);
        }
        let set: usize = part
            .chars()
            .map(|character| {
                (0..16)
                    .map(|row| glyph_row(character as usize, row).count_ones() as usize)
                    .sum::<usize>()
            })
            .sum();
        let lit = writer.surface().memory().iter().filter(|&&byte| byte != 0).count();
        assert_eq!(lit, set * 4);
    }
}

#[test]
fn a_narrow_surface_wraps_after_its_last_whole_cell() {
    // pitch 128: (col * 8 + 8) * 4 + 32 <= 128 holds for columns 0 to 2
    let mut writer = TerminalWriter::new(surface(32, 256, 128), font()).unwrap();
    writer.write_string("abc");
    assert_eq!((writer.cursor_row(), writer.cursor_col()), (0, 3));
    writer.write_char('d');
    assert_eq!((writer.cursor_row(), writer.cursor_col()), (1, 1));
}

#[test]
fn the_cursor_stays_on_the_last_row_and_the_content_scrolls() {
    let mut writer = console();
    writer.write_string("first\nsecond\nthird");
    assert_eq!((writer.cursor_row(), writer.cursor_col()), (2, 5));
    let before = writer.surface().memory().clone();
    writer.write_char('\n');
    assert_eq!((writer.cursor_row(), writer.cursor_col()), (2, 0));
    let after = writer.surface().memory();
    let start = PITCH as usize * 8;
    let count = (WIDTH * HEIGHT) as usize - 2 * PITCH as usize;
    let shift = WIDTH as usize * GLYPH_HEIGHT;
    assert_eq!((start, count, shift), (4352, 7104, 2048));
    assert_eq!(&after[..start], &before[..start]);
    assert_eq!(&after[start..start + 4 * count], &before[start + 4 * shift..start + 4 * (count + shift)]);
    assert!(after[start + 4 * count..start + 4 * (count + shift)].iter().all(|&byte| byte == 0));
    assert_eq!(&after[start + 4 * (count + shift)..], &before[start + 4 * (count + shift)..]);
    for i in [0usize, 1, 500, 7103] {
        let moved = u32::from_le_bytes([
            before[start + 4 * (i + shift)],
            before[start + 4 * (i + shift) + 1],
            before[start + 4 * (i + shift) + 2],
            before[start + 4 * (i + shift) + 3],
        ]);
        assert_eq!(writer.surface().get_pixel(start + 4 * i), moved);
    }
}

#[test]
fn the_third_newline_scrolls_where_three_rows_fit() {
    // height 64, glyphs of 16 rows below a margin of 8: rows 0 to 2 end above the height
    let mut writer = TerminalWriter::new(surface(128, 64, 512), font()).unwrap();
    writer.write_char('\n');
    assert_eq!((writer.cursor_row(), writer.cursor_col()), (1, 0));
    writer.write_char('\n');
    assert_eq!((writer.cursor_row(), writer.cursor_col()), (2, 0));
    writer.write_string("xy");
    let before = writer.surface().memory().clone();
    writer.write_char('\n');
    assert_eq!((writer.cursor_row(), writer.cursor_col()), (2, 0));
    let mut scrolled = TerminalWriter::new(
        FrameBuffer::new(128, 64, 512, 32, before).unwrap(),
        font(),
    )
    .unwrap();
    scrolled.scroll();
    assert_eq!(writer.surface().memory(), scrolled.surface().memory());
    // the two glyphs went up from row 2 to row 1
    expect_glyph_at(&writer, 512, 'x' as usize, 1, 0);
    expect_glyph_at(&writer, 512, 'y' as usize, 1, 1);
    assert!(writer.surface().memory()[40 * 512..].iter().all(|&byte| byte == 0));
}

#[test]
fn five_newlines_leave_the_cursor_on_the_last_row() {
    let mut writer = TerminalWriter::new(surface(128, 64, 512), font()).unwrap();
    writer.write_string("\n\n\n\n\n");
    assert_eq!((writer.cursor_row(), writer.cursor_col()), (2, 0));
    let mut writer = console();
    writer.write_string("\n\n\n\n\n");
    assert_eq!((writer.cursor_row(), writer.cursor_col()), (2, 0));
}

#[test]
fn the_last_row_is_the_last_whose_cell_ends_above_the_height() {
    // 8 + (row + 1) * 16 < height
    for (height, last) in [(6u64, 0usize), (24, 0), (40, 0), (41, 1), (56, 1), (57, 2), (64, 2), (72, 2), (73, 3)] {
        let mut writer = TerminalWriter::new(surface(128, height, 512), font()).unwrap();
        for _ in 0..last {
            let before = writer.surface().memory().clone();
            let row = writer.cursor_row();
            writer.write_char('\n');
            assert_eq!(writer.cursor_row(), row + 1);
            assert_eq!(writer.surface().memory(), &before);
        }
        assert_eq!(writer.cursor_row(), last);
        if writer.can_scroll() {
            writer.write_char('\n');
            assert_eq!((writer.cursor_row(), writer.cursor_col()), (last, 0));
        }
    }
}

#[test]
fn the_cursor_row_never_passes_the_last_row() {
    let mut writer = console();
    let mut row = 0usize;
    for round in 0..40usize {
        writer.write_string("line\n");
        assert!(8 + (writer.cursor_row() + 1) * GLYPH_HEIGHT < HEIGHT as usize);
        assert_eq!(writer.cursor_row(), (round + 1).min(2));
        assert_eq!(writer.cursor_col(), 0);
        assert!(writer.cursor_row() >= row);
        row = writer.cursor_row();
    }
    for _ in 0..200usize {
        writer.write_char('w');
        assert_eq!(writer.cursor_row(), 2);
        assert!(writer.cursor_col() <= 16);
    }
}

#[test]
fn scroll_moves_the_content_and_keeps_the_cursor_and_the_margin() {
    let memory: Vec<u8> = (0..(PITCH * HEIGHT * 4) as usize).map(|i| (i % 253) as u8).collect();
    let shown = FrameBuffer::new(WIDTH, HEIGHT, PITCH, 32, memory.clone()).unwrap();
    let mut writer = TerminalWriter::new(shown, font()).unwrap();
    writer.write_char('\n');
    let before = writer.surface().memory().clone();
    assert_eq!(before, memory);
    writer.scroll();
    assert_eq!((writer.cursor_row(), writer.cursor_col()), (1, 0));
    let after = writer.surface().memory();
    assert_eq!(&after[..4352], &before[..4352]);
    assert_eq!(&after[4352..4352 + 4 * 7104], &before[4352 + 4 * 2048..4352 + 4 * 9152]);
    assert!(after[4352 + 4 * 7104..4352 + 4 * 9152].iter().all(|&byte| byte == 0));
    assert_eq!(&after[4352 + 4 * 9152..], &before[4352 + 4 * 9152..]);
}

#[test]
fn a_wrap_on_the_last_row_scrolls() {
    let mut writer = console();
    writer.write_string("\n\n0123456789abcdef");
    assert_eq!((writer.cursor_row(), writer.cursor_col()), (2, 16));
    let mut expected = console();
    expected.write_string("\n\n0123456789abcdef\n!");
    writer.write_char('!');
    assert_eq!((writer.cursor_row(), writer.cursor_col()), (2, 1));
    assert_eq!(writer.surface().memory(), expected.surface().memory());
}

#[test]
fn a_wide_character_is_drawn_as_the_placeholder() {
    for wide in ['\u{100}', '\u{20AC}', '\u{1F600}', '\u{10FFFF}'] {
        let mut writer = console();
        let mut text = String::new();
        text.push(wide);
        writer.write_string(&text);
        let mut expected = console();
        expected.write_char('\u{2}');
        assert_eq!(writer.surface().memory(), expected.surface().memory());
        assert_eq!((writer.cursor_row(), writer.cursor_col()), (0, 1));
        let blank = vec![0u8; (PITCH * HEIGHT * 4) as usize];
        expect_glyph(&blank, &writer, 2, 0, 0, 0xFFFF_FFFF);
    }
}

#[test]
fn a_single_byte_character_is_drawn_as_itself() {
    for narrow in ['\u{0}', '\u{1}', ' ', 'A', '~', '\u{7F}', '\u{80}', '\u{E9}', '\u{FF}'] {
        let mut writer = console();
        let mut text = String::new();
        text.push(narrow);
        writer.write_string(&text);
        let blank = vec![0u8; (PITCH * HEIGHT * 4) as usize];
        expect_glyph(&blank, &writer, narrow as usize, 0, 0, 0xFFFF_FFFF);
        assert_eq!(writer.cursor_col(), 1);
    }
}

#[test]
fn write_string_is_write_char_for_each_character() {
    let mut writer = console();
    writer.write_string("a\u{20AC}b\n\u{FF}");
    let mut expected = console();
    for character in ['a', '\u{2}', 'b', '\n', '\u{FF}'] {
        expected.write_char(character);
    }
    assert_eq!(writer.surface().memory(), expected.surface().memory());
    assert_eq!((writer.cursor_row(), writer.cursor_col()), (1, 1));
}

#[test]
fn write_string_in_two_parts_is_write_string_of_the_whole() {
    let mut whole = console();
    whole.write_string("Hello, kernel!!! and more\nrows\n\n\nto scroll");
    let mut parts = console();
    parts.write_string("Hello, kernel!!! an");
    parts.write_string("d more\nrows\n\n\nto scroll");
    assert_eq!(whole.surface().memory(), parts.surface().memory());
    assert_eq!(whole.cursor_row(), parts.cursor_row());
    assert_eq!(whole.cursor_col(), parts.cursor_col());
}

#[test]
fn write_string_of_nothing_changes_nothing() {
    let mut writer = console();
    writer.write_string("ab");
    let before = writer.surface().memory().clone();
    writer.write_string("");
    assert_eq!(writer.surface().memory(), &before);
    assert_eq!((writer.cursor_row(), writer.cursor_col()), (0, 2));
}

#[test]
fn clear_screen_zeroes_the_surface_and_resets_the_cursor() {
    let mut writer = console();
    writer.set_terminal_color(Color::Red);
    writer.write_string("some text\nand more");
    assert!(writer.surface().memory().iter().any(|&byte| byte != 0));
    writer.clear_screen();
    assert_eq!(writer.cursor_row(), 0);
    assert_eq!(writer.cursor_col(), 0);
    assert_eq!(writer.terminal_color(), Color::Red);
    let size = (PITCH * HEIGHT * 4) as usize;
    assert_eq!(writer.surface().memory().len(), size);
    for offset in 0..=(size - 4) {
        assert_eq!(writer.surface().get_pixel(offset), 0);
    }
}

#[test]
fn clear_screen_where_the_pitch_is_the_width() {
    let mut shown = FrameBuffer::new(
        128,
        64,
        128,
        32,
        (0..128 * 64 * 4usize).map(|i| (i % 255 + 1) as u8).collect(),
    )
    .unwrap();
    shown.clear_screen();
    for offset in 0..=(128 * 64 * 4 - 4) as usize {
        assert_eq!(shown.get_pixel(offset), 0);
    }
}

#[test]
fn set_terminal_color_colors_later_glyphs_only() {
    let mut writer = console();
    writer.write_char('a');
    writer.set_terminal_color(Color::Blue);
    assert_eq!(writer.terminal_color(), Color::Blue);
    assert_eq!((writer.cursor_row(), writer.cursor_col()), (0, 1));
    let before = writer.surface().memory().clone();
    writer.write_char('b');
    let blank = vec![0u8; (PITCH * HEIGHT * 4) as usize];
    expect_glyph(&blank, &writer, 'a' as usize, 0, 0, 0xFFFF_FFFF);
    expect_glyph(&before, &writer, 'b' as usize, 0, 1, 0xFF00_00FF);
    writer.set_terminal_color(Color::Red);
    let before = writer.surface().memory().clone();
    writer.write_char('c');
    expect_glyph(&before, &writer, 'c' as usize, 0, 2, 0xFFFF_0000);
}

#[test]
fn set_terminal_color_draws_nothing() {
    let mut writer = console();
    writer.write_string("abc");
    let before = writer.surface().memory().clone();
    for color in [Color::Red, Color::Green, Color::Blue, Color::White] {
        writer.set_terminal_color(color);
        assert_eq!(writer.terminal_color(), color);
        assert_eq!(writer.surface().memory(), &before);
    }
}

#[test]
fn a_glyph_over_another_keeps_the_pixels_it_does_not_set() {
    let shown = vec![0xC3u8; (PITCH * HEIGHT * 4) as usize];
    let mut writer = TerminalWriter::new(
        FrameBuffer::new(WIDTH, HEIGHT, PITCH, 32, shown).unwrap(),
        font(),
    )
    .unwrap();
    writer.write_string("\n\n");
    writer.write_char('a');
    writer.write_string("\n");
    // the content scrolled; the cursor is on row 2 again
    assert_eq!((writer.cursor_row(), writer.cursor_col()), (2, 0));
    writer.set_terminal_color(Color::Red);
    let before = writer.surface().memory().clone();
    writer.write_char('b');
    expect_glyph(&before, &writer, 'b' as usize, 2, 0, 0xFFFF_0000);
}

/// A console written out plainly on a vector of bytes, to hold the library's against.
struct Plain {
    memory: Vec<u8>,
    width: usize,
    height: usize,
    pitch: usize,
    glyph_height: usize,
    font: Vec<u8>,
    row: usize,
    col: usize,
    color: u32,
}

impl Plain {
    fn new(width: usize, height: usize, pitch: usize, glyph_height: usize) -> Plain {
        Plain {
            memory: vec![0u8; pitch * height * 4],
            width,
            height,
            pitch,
            glyph_height,
            font: font_data(glyph_height),
            row: 0,
            col: 0,
            color: 0xFFFF_FFFF,
        }
    }

    fn put(&mut self, offset: usize, value: u32) {
        self.memory[offset..offset + 4].copy_from_slice(&value.to_le_bytes());
    }

    fn get(&self, offset: usize) -> u32 {
        u32::from_le_bytes([
            self.memory[offset],
            self.memory[offset + 1],
            self.memory[offset + 2],
            self.memory[offset + 3],
        ])
    }

    fn scroll(&mut self) {
        let start = self.pitch * 8;
        let count = self.width * self.height - start / 4;
        let shift = self.width * self.glyph_height;
        for index in 0..count {
            let value = self.get(start + (index + shift) * 4);
            self.put(start + index * 4, value);
        }
        for index in 0..shift {
            self.put(start + count * 4 + index * 4, 0);
        }
    }

    fn new_row(&mut self) {
        self.row += 1;
        self.col = 0;
        if 8 + (self.row + 1) * self.glyph_height >= self.height {
            self.row -= 1;
            self.scroll();
        }
    }

    fn write_char(&mut self, character: char) {
        if character == '\n' {
            self.new_row();
            return;
        }
        for scanline in 0..self.glyph_height {
            if (self.col * 8 + 8) * 4 + 8 * 4 > self.pitch {
                self.new_row();
            }
            let bits = self.font[0x20 + character as usize * 0x10 + scanline];
            for pixel in 0..8usize {
                if bits & (0b1000_0000 >> pixel) > 0 {
                    let offset = (scanline + 8 + self.row * self.glyph_height) * self.pitch
                        + (self.col * 8 + 8) * 4
                        + pixel * 4;
                    self.put(offset, self.color);
                }
            }
        }
        self.col += 1;
    }

    fn write_string(&mut self, text: &str) {
        for character in text.chars() {
            if character as u32 <= 0xFF {
                self.write_char(character);
            } else {
                self.write_char('\u{2}');
            }
        }
    }
}

fn same_as_plain(width: u64, height: u64, pitch: u64, glyph_height: u32, texts: &[&str]) {
    let drawn_with = PsfFont::new(8, glyph_height, font_data(glyph_height as usize)).unwrap();
    let mut writer = TerminalWriter::new(surface(width, height, pitch), drawn_with).unwrap();
    assert!(writer.can_scroll());
    let mut plain =
        Plain::new(width as usize, height as usize, pitch as usize, glyph_height as usize);
    let colors = [Color::White, Color::Red, Color::Green, Color::Blue];
    for (round, text) in texts.iter().enumerate() {
        let color = colors[round % 4];
        writer.set_terminal_color(color);
        plain.color = color.argb();
        writer.write_string(text);
        plain.write_string(text);
        assert_eq!(writer.cursor_row(), plain.row);
        assert_eq!(writer.cursor_col(), plain.col);
        assert!(writer.surface().memory() == &plain.memory);
    }
}

const TEXTS: [&str; 6] = [
    "Hello, kernel!!!",
    "a line that is longer than any row of the narrow surfaces, so that it wraps\n",
    "\n\n\n\n\n",
    "tabs\tand \u{0} controls \u{7f}, wide \u{20AC}\u{1F600} ones, and \u{FF}\u{A0} latin",
    "0\n1\n2\n3\n4\n5\n6\n7\n8\n9\n10\n11\n12\n13\n14\n15\n16\n17\n18\n19\n20\n21\n22\n23\n24",
    "the end",
];

#[test]
fn console_draws_as_the_plain_one_does() {
    same_as_plain(WIDTH, HEIGHT, PITCH, 16, &TEXTS);
}

#[test]
fn console_draws_as_the_plain_one_does_on_a_narrow_surface() {
    same_as_plain(32, 256, 128, 16, &TEXTS);
    same_as_plain(17, 64, 544, 16, &TEXTS);
    same_as_plain(4, 64, 64, 16, &TEXTS);
}

#[test]
fn console_draws_as_the_plain_one_does_where_the_pitch_is_in_bytes() {
    same_as_plain(160, 100, 640, 16, &TEXTS);
    same_as_plain(160, 100, 672, 16, &TEXTS);
}

#[test]
fn console_draws_as_the_plain_one_does_with_other_glyph_heights() {
    same_as_plain(200, 12, 1020, 40, &TEXTS);
    same_as_plain(48, 3, 64, 1, &TEXTS);
    same_as_plain(WIDTH, HEIGHT, PITCH, 8, &TEXTS);
    same_as_plain(WIDTH, HEIGHT, PITCH, 7, &TEXTS);
    same_as_plain(WIDTH, HEIGHT, PITCH, 64, &TEXTS);
    same_as_plain(WIDTH, HEIGHT, PITCH, 100, &TEXTS);
}

#[test]
fn a_scroll_moves_each_row_of_text_up_by_one() {
    // a pitch of four bytes for each of the 136 pixels of a row
    let mut writer = TerminalWriter::new(surface(136, 64, 544), font()).unwrap();
    assert!(writer.can_scroll());
    writer.set_terminal_color(Color::Green);
    writer.write_string("Ab\nCd\nEf");
    assert_eq!((writer.cursor_row(), writer.cursor_col()), (2, 2));
    writer.write_char('\n');
    assert_eq!((writer.cursor_row(), writer.cursor_col()), (2, 0));
    let blank = vec![0u8; 544 * 64 * 4];
    for (row, text) in ["Cd", "Ef"].iter().enumerate() {
        for (col, character) in text.chars().enumerate() {
            expect_glyph(&blank, &writer, character as usize, row, col, 0xFF00_FF00);
        }
    }
    let memory = writer.surface().memory();
    // the margin above the text, the last row of text and all behind it are blank
    assert!(memory[..8 * 544].iter().all(|&byte| byte == 0));
    assert!(memory[40 * 544..].iter().all(|&byte| byte == 0));
    // what is left of the two rows is the four glyphs
    let lit = memory.iter().filter(|&&byte| byte != 0).count();
    let set: usize = "CdEf"
        .chars()
        .map(|character| {
            (0..16).map(|row| glyph_row(character as usize, row).count_ones() as usize).sum::<usize>()
        })
        .sum();
    // green is stored as the bytes 00 FF 00 FF
    assert_eq!(lit, set * 2);
    writer.write_string("Ij");
    expect_glyph(&blank, &writer, 'I' as usize, 2, 0, 0xFF00_FF00);
    expect_glyph(&blank, &writer, 'j' as usize, 2, 1, 0xFF00_FF00);
    // every glyph lies above the surface's height
    assert!(writer.surface().memory()[56 * 544..].iter().all(|&byte| byte == 0));
}

#[test]
fn a_short_text_on_the_small_surface() {
    let mut writer = small_console();
    writer.write_string("ab\ncd");
    assert_eq!((writer.cursor_row(), writer.cursor_col()), (1, 2));
    expect_glyph_at(&writer, 128, 'a' as usize, 0, 0);
    expect_glyph_at(&writer, 128, 'b' as usize, 0, 1);
    expect_glyph_at(&writer, 128, 'c' as usize, 1, 0);
    expect_glyph_at(&writer, 128, 'd' as usize, 1, 1);
    let set: usize = "abcd"
        .chars()
        .map(|character| {
            (0..16).map(|row| glyph_row(character as usize, row).count_ones() as usize).sum::<usize>()
        })
        .sum();
    let lit = writer.surface().memory().iter().filter(|&&byte| byte != 0).count();
    assert_eq!(lit, set * 4);
}

#[test]
fn a_wide_character_on_the_small_surface() {
    let mut writer = small_console();
    writer.write_string("\u{20AC}");
    assert_eq!((writer.cursor_row(), writer.cursor_col()), (0, 1));
    let mut expected = small_console();
    expected.write_char('\u{2}');
    assert_eq!(writer.surface().memory(), expected.surface().memory());
    expect_glyph_at(&writer, 128, 2, 0, 0);
}

#[test]
fn the_last_single_byte_character_and_the_first_wide_one() {
    let mut writer = small_console();
    writer.write_string("\u{ff}\u{100}");
    assert_eq!((writer.cursor_row(), writer.cursor_col()), (0, 2));
    expect_glyph_at(&writer, 128, 0xFF, 0, 0);
    expect_glyph_at(&writer, 128, 0x02, 0, 1);
}

#[test]
fn a_character_of_two_bytes_is_drawn_once_as_itself() {
    let mut writer = small_console();
    writer.write_string("\u{e9}");
    assert_eq!((writer.cursor_row(), writer.cursor_col()), (0, 1));
    let mut expected = small_console();
    expected.write_char('\u{e9}');
    assert_eq!(writer.surface().memory(), expected.surface().memory());
    expect_glyph_at(&writer, 128, 0xE9, 0, 0);
    let lit = writer.surface().memory().iter().filter(|&&byte| byte != 0).count();
    let set: usize = (0..16).map(|row| glyph_row(0xE9, row).count_ones() as usize).sum();
    assert_eq!(lit, set * 4);
}

#[test]
fn clear_screen_on_the_small_surface() {
    let mut writer = small_console();
    writer.write_string("ab\ncd");
    assert!(writer.surface().memory().iter().any(|&byte| byte != 0));
    writer.clear_screen();
    assert_eq!((writer.cursor_row(), writer.cursor_col()), (0, 0));
    for k in 0..8192usize {
        assert_eq!(writer.surface().get_pixel(4 * k), 0);
    }
    assert!(writer.surface().memory().iter().all(|&byte| byte == 0));
}

#[test]
fn three_glyphs_fill_a_row_of_the_small_surface() {
    // pitch 128: (col * 8 + 8) * 4 + 32 <= 128 holds for columns 0 to 2
    let mut writer = small_console();
    writer.write_string("abc");
    assert_eq!((writer.cursor_row(), writer.cursor_col()), (0, 3));
    writer.write_string("defg");
    assert_eq!((writer.cursor_row(), writer.cursor_col()), (2, 1));
    for (index, character) in "abcdefg".chars().enumerate() {
        expect_glyph_at(&writer, 128, character as usize, index / 3, index % 3);
    }
    writer.write_string("hi");
    assert_eq!((writer.cursor_row(), writer.cursor_col()), (2, 3));
}
