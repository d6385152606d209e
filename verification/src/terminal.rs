//! The text console: it keeps a cursor and a colour, turns characters into
//! glyph bitmaps and draws them on its pixel surface, wraps at the end of a
//! row and scrolls when the screen is full.

pub use crate::color::Color;
use crate::console::{
    lemma_draw_in_range, lemma_geometry_bounds, lemma_next_row_wf, lemma_row_in_range,
    lemma_scroll_in_range, lemma_scrolled_wf, lemma_takes_str_prefix, Console, NEWLINE, PADDING,
    PLACEHOLDER,
};
use crate::framebuffer::FrameBuffer;
use crate::laws::{
    lemma_cursor_never_passes_last_row, lemma_glyph_is_whole, lemma_put_char_row,
    lemma_put_char_wf, lemma_put_str_wf, lemma_takes_every_text,
};
use crate::psf::{Glyphs, PsfFont};
use crate::surface::Surface;
use vstd::prelude::*;

verus! {

/// A text console that draws on a pixel surface of its own.
pub struct TerminalWriter {
    col_position: usize,
    row_position: usize,
    terminal_color: Color,
    font: PsfFont,
    surface: FrameBuffer,
}

impl View for TerminalWriter {
    type V = Console;

    closed spec fn view(&self) -> Console {
        Console {
            surface: self.surface@,
            glyphs: self.font@,
            row: self.row_position as nat,
            col: self.col_position as nat,
            color: self.terminal_color,
        }
    }
}

impl TerminalWriter {
    /// The surface and the font are each well formed.
    pub closed spec fn parts_wf(&self) -> bool {
        self.surface.wf() && self.font.wf()
    }

    /// The surface and the font are well formed and go together, and the
    /// cursor is where the console's operations leave it.
    pub open spec fn wf(&self) -> bool {
        self.parts_wf() && self@.wf()
    }

    /// The console that starts on `surface` with `glyphs`: the cursor in the
    /// first cell, the colour white.
    pub open spec fn start(surface: Surface, glyphs: Glyphs) -> Console {
        Console { surface, glyphs, row: 0, col: 0, color: Color::White }
    }

    /// Makes a console on `surface` that draws with `font`. There is none
    /// where the two do not go together for drawing: where a glyph has no
    /// rows, a display row has no room for the left margin and one glyph, or
    /// the first row of glyphs would reach out of display memory.
    pub fn new(surface: FrameBuffer, font: PsfFont) -> (made: Option<TerminalWriter>)
        requires
            surface.wf(),
            font.wf(),
        ensures
            made is Some <==> Self::start(surface@, font@).fits(),
            made matches Some(writer) ==> writer.wf() && writer@ == Self::start(
                surface@,
                font@,
            ),
    {
        let glyph: u128 = font.height() as u128;
        let pitch: u128 = surface.pitch() as u128;
        let height: u128 = surface.height() as u128;
        if glyph < 1 || pitch < 64 || PADDING as u128 + glyph > 4 * height {
            return None;
        }
        Some(
            TerminalWriter {
                col_position: 0_usize,
                row_position: 0_usize,
                terminal_color: Color::White,
                font,
                surface,
            },
        )
    }

    /// Whether the surface and the font go together for scrolling: whether
    /// every cell that a scroll reads or clears lies in display memory.
    pub fn can_scroll(&self) -> (fit: bool)
        requires
            self.wf(),
        ensures
            fit == self@.scroll_fits(),
    {
        let glyph: u128 = self.font.height() as u128;
        let pitch: u128 = self.surface.pitch() as u128;
        let width: u128 = self.surface.width() as u128;
        let height: u128 = self.surface.height() as u128;
        proof {
            lemma_geometry_bounds(self@);
        }
        let cells: u128 = pitch * height;
        if width > cells {
            proof {
                assert(width * (height + glyph) >= width) by (nonlinear_arith)
                    requires
                        width >= 0,
                        height + glyph >= 1,
                ;
            }
            return false;
        }
        proof {
            assert(width * (height + glyph) <= 0x4000_0000_0000_0000
                * 0x2_0000_0000_0000_0000) by (nonlinear_arith)
                requires
                    0 <= width <= 0x4000_0000_0000_0000,
                    0 <= height + glyph <= 0x2_0000_0000_0000_0000,
            ;
            assert(0 <= width * height <= width * (height + glyph)) by (nonlinear_arith)
                requires
                    0 <= width,
                    0 <= height,
                    0 <= glyph,
            ;
        }
        2 * pitch <= width * height && width * (height + glyph) <= cells
    }

    /// Writes one character: a new row for the newline character, else the
    /// character's glyph at the cursor, after which the cursor is one cell
    /// further. Before each scanline of the glyph the console goes to a new
    /// row if the glyph would reach past the row pitch. Where the write
    /// scrolls, the surface and the font have to go together for scrolling.
    pub fn write_char(&mut self, character: char)
        requires
            old(self).wf(),
            old(self)@.glyphs.covers(character as int),
            old(self)@.takes(character),
        ensures
            final(self).wf(),
            final(self)@ == old(self)@.put_char(character),
            character != NEWLINE ==> final(self)@ == (if old(self)@.row_full() {
                old(self)@.next_row()
            } else {
                old(self)@
            }).with_glyph(character as int),
            old(self)@.row <= final(self)@.row <= old(self)@.last_row(),
            final(self)@.glyphs == old(self)@.glyphs,
            final(self)@.color == old(self)@.color,
            final(self)@.surface.width == old(self)@.surface.width,
            final(self)@.surface.height == old(self)@.surface.height,
            final(self)@.surface.pitch == old(self)@.surface.pitch,
    {
        proof {
            lemma_put_char_wf(self@, character);
            lemma_put_char_row(self@, character);
            if character != NEWLINE {
                lemma_glyph_is_whole(self@, character);
            }
        }
        if character == NEWLINE {
            self.new_row();
            return ;
        }
        let code: u32 = character as u32;
        let height: usize = self.font.height() as usize;
        let ghost before = self@;
        for row in 0..height
            invariant
                1 <= height == before.glyphs.height,
                self.wf(),
                self@.glyphs == before.glyphs,
                before.glyphs.covers(code as int),
                before.takes(character),
                character != NEWLINE,
                self@ == before.scanlines(code as int, row as nat),
                row > 0 ==> !self@.row_full(),
        {
            let ghost stage = self@;
            proof {
                lemma_geometry_bounds(self@);
                lemma_next_row_wf(self@);
            }
            if self.col_offset() + self.pixel_width() > self.surface.pitch() as usize {
                self.new_row();
            }
            let ghost at = self@;
            let row_value: u8 = self.font.glyph_row(code, row);
            let ghost base = at.row_offset(row as int) + at.col_offset();
            assert(self@.surface.bytes =~= at.surface.blit(
                base,
                row_value,
                at.color.argb(),
                0,
            ).bytes);
            for pixel in 0..8_usize
                invariant
                    self.wf(),
                    at.wf(),
                    !at.row_full(),
                    row < at.glyphs.height,
                    base == at.row_offset(row as int) + at.col_offset(),
                    self@ == at.with_surface(
                        at.surface.blit(base, row_value, at.color.argb(), pixel as int),
                    ),
            {
                let mask: u8 = 0b10000000;
                let masked_value: u8 = row_value & (mask >> pixel);
                proof {
                    lemma_draw_in_range(at, row as int, pixel as int);
                }
                if masked_value > 0 {
                    let pixel_offset: usize = self.row_offset(row) + self.col_offset() + (pixel
                        * self.surface.bytes_per_pixel());
                    self.surface.put_pixel(pixel_offset, self.terminal_color.argb());
                }
                assert(self@.surface.bytes =~= at.surface.blit(
                    base,
                    row_value,
                    at.color.argb(),
                    pixel as int + 1,
                ).bytes);
            }
            assert(self@ == stage.scanline(code as int, row as int));
        }
        proof {
            lemma_geometry_bounds(self@);
        }
        self.col_position += 1;
    }

    /// Goes to the start of the next row. Where the glyph cell of that row
    /// would end at or below the surface's height, the cursor stays on its
    /// row and the content scrolls instead.
    fn new_row(&mut self)
        requires
            old(self).wf(),
            old(self)@.screen_full() ==> old(self)@.scroll_fits(),
        ensures
            final(self).wf(),
            final(self)@ == old(self)@.next_row(),
    {
        let ghost before = self@;
        proof {
            lemma_next_row_wf(before);
            lemma_geometry_bounds(before);
            lemma_row_in_range(before, 0);
        }
        self.row_position += 1;
        self.col_position = 0;

        let below: usize = self.row_position + 1;
        assert(below * before.glyphs.height == (before.row + 2) * before.glyphs.height)
            by (nonlinear_arith)
            requires
                below == before.row + 2,
        ;
        if PADDING + below * self.font.height() as usize >= self.surface.height() as usize {
            self.row_position -= 1;
            self.scroll();
        }
    }

    /// Writes the characters of `s` in order. One whose code does not fit in
    /// one byte is written as the placeholder character. Where the surface
    /// and the font do not go together for scrolling, no character of `s` may
    /// scroll.
    pub fn write_string(&mut self, s: &str)
        requires
            old(self).wf(),
            old(self)@.scroll_fits() || old(self)@.takes_str(s@),
        ensures
            final(self).wf(),
            final(self)@ == old(self)@.put_str(s@),
            final(self)@.row <= old(self)@.last_row(),
            final(self)@.glyphs == old(self)@.glyphs,
            final(self)@.color == old(self)@.color,
            final(self)@.surface.width == old(self)@.surface.width,
            final(self)@.surface.height == old(self)@.surface.height,
            final(self)@.surface.pitch == old(self)@.surface.pitch,
    {
        let ghost before = self@;
        proof {
            if before.scroll_fits() {
                lemma_takes_every_text(before, s@);
            }
            lemma_put_str_wf(before, s@);
            lemma_cursor_never_passes_last_row(before, s@);
        }
        for character in iter: s.chars()
            invariant
                iter.seq() == s@,
                self.wf(),
                before.takes_str(s@),
                self@ == before.put_str(s@.take(iter.index() as int)),
        {
            proof {
                assert(s@.take(iter.index() + 1).drop_last() =~= s@.take(iter.index() as int));
                lemma_takes_str_prefix(before, s@, iter.index() + 1);
            }
            match character as u32 {
                0x00000000..=0x000000FF => self.write_char(character),
                _ => self.write_char(PLACEHOLDER),
            }
        }
        assert(s@.take(s@.len() as int) =~= s@);
    }

    /// Moves the content below the top margin up by one row of glyphs and
    /// clears the cells behind it. The top margin and the cursor stay.
    pub fn scroll(&mut self)
        requires
            old(self).wf(),
            old(self)@.scroll_fits(),
        ensures
            final(self).wf(),
            final(self)@ == old(self)@.scrolled(),
    {
        proof {
            lemma_scroll_in_range(self@);
            lemma_scrolled_wf(self@);
            lemma_geometry_bounds(self@);
        }
        let pixel_start: u64 = self.surface.pitch() * PADDING as u64;
        let range: u64 = self.surface.width() * self.surface.height() - (pixel_start
            / self.surface.bytes_per_pixel() as u64);
        let offset: u64 = self.surface.width() * self.font.height() as u64;

        self.surface.move_range(pixel_start as usize, range as usize, offset as usize);
    }

    /// Clears the surface and puts the cursor in the first cell. The colour stays.
    pub fn clear_screen(&mut self)
        requires
            old(self).wf(),
        ensures
            final(self).wf(),
            final(self)@ == old(self)@.cleared(),
    {
        self.surface.clear_screen();
        self.col_position = 0;
        self.row_position = 0;
    }

    /// Sets the colour of the glyphs drawn from now on.
    pub fn set_terminal_color(&mut self, color: Color)
        requires
            old(self).wf(),
        ensures
            final(self).wf(),
            final(self)@ == old(self)@.with_color(color),
    {
        self.terminal_color = color;
    }

    /// Cursor row, in glyph cells.
    pub fn cursor_row(&self) -> (row: usize)
        ensures
            row == self@.row,
    {
        self.row_position
    }

    /// Cursor column, in glyph cells.
    pub fn cursor_col(&self) -> (col: usize)
        ensures
            col == self@.col,
    {
        self.col_position
    }

    /// The colour of the glyphs drawn from now on.
    pub fn terminal_color(&self) -> (color: Color)
        ensures
            color == self@.color,
    {
        self.terminal_color
    }

    /// The surface that the console draws on.
    pub fn surface(&self) -> (surface: &FrameBuffer)
        ensures
            surface@ == self@.surface,
            self.wf() ==> surface.wf(),
    {
        &self.surface
    }

    /// The font that the console draws with.
    pub fn font(&self) -> (font: &PsfFont)
        ensures
            font@ == self@.glyphs,
            self.wf() ==> font.wf(),
    {
        &self.font
    }

    /// Bytes that one glyph row takes in display memory.
    fn pixel_width(&self) -> (bytes: usize)
        requires
            self.wf(),
        ensures
            bytes == self@.pixel_width(),
    {
        self.font.width() as usize * self.surface.bytes_per_pixel()
    }

    /// Byte offset, within a display row, of the cursor's glyph cell.
    fn col_offset(&self) -> (offset: usize)
        requires
            self.wf(),
        ensures
            offset == self@.col_offset(),
    {
        proof {
            lemma_geometry_bounds(self@);
        }
        (self.col_position * self.font.width() as usize + PADDING)
            * self.surface.bytes_per_pixel()
    }

    /// Byte offset of the display row that holds scanline `row` of the
    /// cursor's glyph cell.
    fn row_offset(&self, row: usize) -> (offset: usize)
        requires
            self.wf(),
            row < self@.glyphs.height,
        ensures
            offset == self@.row_offset(row as int),
    {
        proof {
            lemma_geometry_bounds(self@);
            lemma_row_in_range(self@, row as int);
        }
        let row_position_offset: usize = self.row_position * self.font.height() as usize;
        return (row + PADDING + row_position_offset) * self.surface.pitch() as usize;
    }
}

} // verus!
