//! The mathematical model of the text console: a surface, a font, a cursor in
//! glyph cells and a colour, with the console's transitions as functions on
//! values.

use crate::color::Color;
use crate::psf::Glyphs;
use crate::surface::Surface;
use vstd::arithmetic::div_mod::{
    lemma_div_is_ordered, lemma_div_multiples_vanish, lemma_div_pos_is_pos,
    lemma_fundamental_div_mod, lemma_mod_bound,
};
use vstd::prelude::*;

verus! {

/// Margin, in pixels, that is kept free left of the text and above it. The
/// rows of the top margin do not scroll.
pub const PADDING: usize = 8;

/// The character that starts a new row.
pub const NEWLINE: char = '\n';

/// The character that is drawn in place of one whose code does not fit in one byte.
pub const PLACEHOLDER: char = '\u{2}';

/// A text console as a value.
pub struct Console {
    /// The surface that the console draws on.
    pub surface: Surface,
    /// The font that it draws with.
    pub glyphs: Glyphs,
    /// Cursor row, in glyph cells.
    pub row: nat,
    /// Cursor column, in glyph cells.
    pub col: nat,
    /// The colour of the glyphs drawn from now on.
    pub color: Color,
}

impl Console {
    /// Bytes that one glyph row takes in display memory: 8 pixels of 4 bytes.
    pub open spec fn pixel_width(self) -> int {
        8int * 4
    }

    /// Byte offset, within a display row, of the cursor's glyph cell: the
    /// cells left of it, 8 pixels each, and the left margin of 8 pixels, at 4
    /// bytes a pixel.
    pub open spec fn col_offset(self) -> int {
        (self.col as int * 8 + 8) * 4
    }

    /// Byte offset of the display row that holds scanline `scanline` of the
    /// cursor's glyph cell: the row pitch times the scanline, the top margin
    /// of 8 rows and the scanlines of the rows of glyphs above the cursor.
    pub open spec fn row_offset(self, scanline: int) -> int {
        (scanline + 8 + self.row * self.glyphs.height) * self.surface.pitch
    }

    /// A glyph drawn at the cursor would reach past the row pitch.
    pub open spec fn row_full(self) -> bool {
        self.col_offset() + self.pixel_width() > self.surface.pitch
    }

    /// The glyph cell of row `row` ends above the surface's height: the
    /// display row below its last scanline is one of the surface's.
    pub open spec fn row_on_surface(self, row: int) -> bool {
        8 + (row + 1) * self.glyphs.height < self.surface.height
    }

    /// The last row, in glyph cells, that the cursor comes to: the last one
    /// whose glyph cell ends above the surface's height, and row 0 where no
    /// row's does.
    pub open spec fn last_row(self) -> int {
        if self.surface.height >= 9 + self.glyphs.height {
            (self.surface.height - 9) / (self.glyphs.height as int) - 1
        } else {
            0
        }
    }

    /// The glyph cell of the row after the cursor's would end at or below
    /// the surface's height.
    pub open spec fn screen_full(self) -> bool {
        8 + (self.row + 2) * self.glyphs.height >= self.surface.height
    }

    /// Byte offset of the first cell that scrolls: the row pitch times the
    /// margin of 8.
    pub open spec fn scroll_start(self) -> int {
        self.surface.pitch as int * 8
    }

    /// Number of cells that take new content in a scroll: as many as the
    /// surface has pixels, less those before the first that scrolls.
    pub open spec fn scroll_count(self) -> int {
        self.surface.width * self.surface.height - self.scroll_start() / 4
    }

    /// Number of cells that content moves by in a scroll: the pixels of one
    /// row of glyphs.
    pub open spec fn scroll_shift(self) -> int {
        (self.surface.width * self.glyphs.height) as int
    }

    /// The console with another surface.
    pub open spec fn with_surface(self, surface: Surface) -> Console {
        Console {
            surface,
            glyphs: self.glyphs,
            row: self.row,
            col: self.col,
            color: self.color,
        }
    }

    /// The console with the cursor elsewhere.
    pub open spec fn with_cursor(self, row: nat, col: nat) -> Console {
        Console { surface: self.surface, glyphs: self.glyphs, row, col, color: self.color }
    }

    /// The console with another colour.
    pub open spec fn with_color(self, color: Color) -> Console {
        Console {
            surface: self.surface,
            glyphs: self.glyphs,
            row: self.row,
            col: self.col,
            color,
        }
    }

    /// The console after its content moved up by one row of glyphs. The
    /// cursor stays.
    pub open spec fn scrolled(self) -> Console {
        self.with_surface(
            self.surface.shift_cells(self.scroll_start(), self.scroll_count(), self.scroll_shift()),
        )
    }

    /// The console after the cursor went to the start of the next row, or,
    /// where the screen is full, stayed on its row while the content scrolled.
    pub open spec fn next_row(self) -> Console {
        if self.screen_full() {
            self.scrolled().with_cursor(self.row, 0)
        } else {
            self.with_cursor(self.row + 1, 0)
        }
    }

    /// The console after scanline `scanline` of the glyph of `code` was drawn,
    /// with the wrap to the next row that comes before it where the row is full.
    pub open spec fn scanline(self, code: int, scanline: int) -> Console {
        let at = if self.row_full() {
            self.next_row()
        } else {
            self
        };
        at.with_surface(
            at.surface.blit(
                at.row_offset(scanline) + at.col_offset(),
                at.glyphs.row_bits(code, scanline),
                at.color.argb(),
                8,
            ),
        )
    }

    /// The console after the first `count` scanlines of the glyph of `code`
    /// were drawn.
    pub open spec fn scanlines(self, code: int, count: nat) -> Console
        decreases count,
    {
        if count == 0 {
            self
        } else {
            self.scanlines(code, (count - 1) as nat).scanline(code, count - 1)
        }
    }

    /// The surface after the first `count` scanlines of the glyph of `code`
    /// were drawn in the cursor's glyph cell.
    pub open spec fn drawn(self, code: int, count: nat) -> Surface
        decreases count,
    {
        if count == 0 {
            self.surface
        } else {
            self.drawn(code, (count - 1) as nat).blit(
                self.row_offset(count - 1) + self.col_offset(),
                self.glyphs.row_bits(code, count - 1),
                self.color.argb(),
                8,
            )
        }
    }

    /// The console after the whole glyph of `code` was drawn in the cursor's
    /// glyph cell and the cursor went one cell further.
    pub open spec fn with_glyph(self, code: int) -> Console {
        self.with_surface(self.drawn(code, self.glyphs.height)).with_cursor(
            self.row,
            self.col + 1,
        )
    }

    /// The console after `character` was written: a new row for the newline
    /// character, else the glyph drawn and the cursor one cell further.
    pub open spec fn put_char(self, character: char) -> Console {
        if character == NEWLINE {
            self.next_row()
        } else {
            let drawn = self.scanlines(character as int, self.glyphs.height);
            drawn.with_cursor(drawn.row, drawn.col + 1)
        }
    }

    /// The character that is written for `character` in a string.
    pub open spec fn shown_as(character: char) -> char {
        if character as u32 <= 0xFF {
            character
        } else {
            PLACEHOLDER
        }
    }

    /// The console after the characters of `text` were written in order.
    pub open spec fn put_str(self, text: Seq<char>) -> Console
        decreases text.len(),
    {
        if text.len() == 0 {
            self
        } else {
            self.put_str(text.drop_last()).put_char(Self::shown_as(text.last()))
        }
    }

    /// Glyph cells in a row: the columns in which a glyph does not reach
    /// past the row pitch.
    pub open spec fn columns(self) -> int {
        (self.surface.pitch - 32) / 32
    }

    /// The place of the cursor, counted in glyph cells from the first cell
    /// of row 0 on, row by row.
    pub open spec fn place(self) -> int {
        self.row * self.columns() + self.col
    }

    /// No character of `text` is the newline character.
    pub open spec fn one_line(text: Seq<char>) -> bool {
        forall|i: int| 0 <= i < text.len() ==> text[i] != NEWLINE
    }

    /// The console after the glyphs of `text` were drawn cell by cell and
    /// row by row from the cursor's place on: character `i` in the cell
    /// whose place is the cursor's plus `i`.
    pub open spec fn typed(self, text: Seq<char>) -> Console
        decreases text.len(),
    {
        if text.len() == 0 {
            self
        } else {
            let at = self.place() + text.len() - 1;
            self.typed(text.drop_last()).with_cursor(
                (at / self.columns()) as nat,
                (at % self.columns()) as nat,
            ).with_glyph(Self::shown_as(text.last()) as int)
        }
    }

    /// The console after the screen was cleared: the whole surface zero and
    /// the cursor in the first cell. The colour stays.
    pub open spec fn cleared(self) -> Console {
        self.with_surface(self.surface.cleared()).with_cursor(0, 0)
    }

    /// Byte offset, within a display row, of the first glyph cell: the left
    /// margin of 8 pixels at 4 bytes a pixel.
    pub open spec fn col_origin(self) -> int {
        8int * 4
    }

    /// The surface and the font go together for drawing: each is well
    /// formed, a glyph has at least one row, a display row has room for the
    /// left margin and one glyph, and the display rows of the first row of
    /// glyphs lie in display memory.
    pub open spec fn fits(self) -> bool {
        &&& self.surface.wf()
        &&& self.glyphs.wf()
        &&& 1 <= self.glyphs.height
        &&& self.col_origin() + self.pixel_width() <= self.surface.pitch
        &&& 8 + self.glyphs.height <= 4 * self.surface.height
    }

    /// The surface and the font go together for scrolling: the scrolled
    /// range does not start behind the surface's last pixel, and every cell
    /// that a scroll reads or clears lies in display memory.
    pub open spec fn scroll_fits(self) -> bool {
        &&& 2 * self.surface.pitch <= self.surface.width * self.surface.height
        &&& self.surface.width * (self.surface.height + self.glyphs.height) <= self.surface.pitch
            * self.surface.height
    }

    /// Writing `character` scrolls: it starts a new row, being the newline
    /// character or coming upon a full row, while the screen is full.
    pub open spec fn scrolls_on(self, character: char) -> bool {
        (character == NEWLINE || self.row_full()) && self.screen_full()
    }

    /// The console can take `character`: where writing it scrolls, the
    /// surface and the font go together for scrolling.
    pub open spec fn takes(self, character: char) -> bool {
        self.scrolls_on(character) ==> self.scroll_fits()
    }

    /// The console can take the characters of `text` in order: each of them
    /// as the console stands when its turn comes.
    pub open spec fn takes_str(self, text: Seq<char>) -> bool
        decreases text.len(),
    {
        text.len() == 0 || {
            &&& self.takes_str(text.drop_last())
            &&& self.put_str(text.drop_last()).takes(Self::shown_as(text.last()))
        }
    }

    /// The cursor is in row 0 or in a row whose glyph cell ends above the
    /// surface's height, and its cell starts no further right than the row
    /// pitch.
    pub open spec fn cursor_ok(self) -> bool {
        &&& self.row == 0 || self.row_on_surface(self.row as int)
        &&& self.col_offset() <= self.surface.pitch
    }

    /// The surface and the font go together for drawing, and the cursor is
    /// where the console's transitions leave it.
    pub open spec fn wf(self) -> bool {
        self.fits() && self.cursor_ok()
    }
}

/// The last row is row 0 or one whose glyph cell ends above the surface's
/// height, and the cell of the row after it does not.
pub proof fn lemma_last_row(console: Console)
    requires
        1 <= console.glyphs.height,
    ensures
        0 <= console.last_row(),
        console.last_row() == 0 || console.row_on_surface(console.last_row()),
        !console.row_on_surface(console.last_row() + 1),
{
    let glyph = console.glyphs.height as int;
    let height = console.surface.height as int;
    if height >= 9 + glyph {
        let room = height - 9;
        let rows = room / glyph;
        lemma_fundamental_div_mod(room, glyph);
        lemma_mod_bound(room, glyph);
        lemma_div_is_ordered(glyph, room, glyph);
        lemma_div_multiples_vanish(1, glyph);
        assert(glyph * rows == rows * glyph && (rows + 1) * glyph == rows * glyph + glyph)
            by (nonlinear_arith);
    }
}

/// A cursor that is in row 0 or in a row whose glyph cell ends above the
/// surface's height is no further down than the last row, and the screen is
/// full exactly where it is in the last row.
pub proof fn lemma_row_within_last_row(console: Console)
    requires
        1 <= console.glyphs.height,
        console.row == 0 || console.row_on_surface(console.row as int),
    ensures
        console.row <= console.last_row(),
        console.screen_full() <==> console.row == console.last_row(),
{
    let glyph = console.glyphs.height as int;
    let height = console.surface.height as int;
    let row = console.row as int;
    let last = console.last_row();
    lemma_last_row(console);
    if height >= 9 + glyph {
        let room = height - 9;
        let rows = room / glyph;
        lemma_fundamental_div_mod(room, glyph);
        lemma_mod_bound(room, glyph);
        assert(glyph * rows == rows * glyph) by (nonlinear_arith);
        if row > 0 {
            lemma_div_is_ordered((row + 1) * glyph, room, glyph);
            lemma_div_multiples_vanish(row + 1, glyph);
            assert(glyph * (row + 1) == (row + 1) * glyph) by (nonlinear_arith);
        }
        if row < last {
            assert((row + 2) * glyph <= rows * glyph) by (nonlinear_arith)
                requires
                    row + 2 <= rows,
                    glyph >= 0,
            ;
        }
    } else if row > 0 {
        assert((row + 1) * glyph >= glyph) by (nonlinear_arith)
            requires
                row >= 0,
                glyph >= 0,
        ;
    }
}

/// The geometry bounds each of its parts by the size of display memory.
pub(crate) proof fn lemma_geometry_bounds(console: Console)
    requires
        console.fits(),
    ensures
        3 <= console.surface.height,
        console.surface.height * 256 <= console.surface.bytes.len(),
        console.surface.pitch * 12 <= console.surface.bytes.len(),
        console.surface.pitch * console.surface.height * 4 == console.surface.bytes.len(),
        console.surface.height + 2 * console.glyphs.height + 8 <= console.surface.bytes.len(),
{
    let pitch = console.surface.pitch as int;
    let height = console.surface.height as int;
    assert(pitch * height >= 64 * height) by (nonlinear_arith)
        requires
            pitch >= 64,
            height >= 0,
    ;
    assert(pitch * height >= pitch * 3) by (nonlinear_arith)
        requires
            pitch >= 0,
            height >= 3,
    ;
}

/// Every display row that holds a scanline of the cursor's glyph cell lies
/// in display memory.
pub(crate) proof fn lemma_row_in_range(console: Console, scanline: int)
    requires
        console.fits(),
        console.row == 0 || console.row_on_surface(console.row as int),
        0 <= scanline < console.glyphs.height,
    ensures
        0 <= console.row * console.glyphs.height,
        console.row < console.surface.height,
        scanline + 8 + console.row * console.glyphs.height < 4 * console.surface.height,
        8 + (console.row + 2) * console.glyphs.height <= console.surface.height + 2
            * console.glyphs.height + 8,
        0 <= console.row_offset(scanline),
        console.row_offset(scanline) + console.surface.pitch <= console.surface.bytes.len(),
{
    let pitch = console.surface.pitch as int;
    let height = console.surface.height as int;
    let glyph = console.glyphs.height as int;
    let row = console.row as int;
    let rows = scanline + 8 + row * glyph;
    assert((row + 1) * glyph == row * glyph + glyph && (row + 2) * glyph == row * glyph + 2
        * glyph) by (nonlinear_arith);
    assert(row * glyph >= row) by (nonlinear_arith)
        requires
            row >= 0,
            glyph >= 1,
    ;
    assert(rows + 1 <= 4 * height);
    assert((rows + 1) * pitch <= (4 * height) * pitch) by (nonlinear_arith)
        requires
            rows + 1 <= 4 * height,
            pitch >= 0,
    ;
    assert((rows + 1) * pitch == rows * pitch + pitch) by (nonlinear_arith);
    assert((4 * height) * pitch == pitch * height * 4) by (nonlinear_arith);
    assert(rows * pitch >= 0) by (nonlinear_arith)
        requires
            rows >= 0,
            pitch >= 0,
    ;
}

/// Every pixel of a glyph drawn at the cursor lies in display memory, where
/// the row is not full.
pub(crate) proof fn lemma_draw_in_range(console: Console, scanline: int, pixel: int)
    requires
        console.wf(),
        !console.row_full(),
        0 <= scanline < console.glyphs.height,
        0 <= pixel < 8,
    ensures
        console.surface.in_range(console.row_offset(scanline) + console.col_offset() + 4 * pixel),
{
    lemma_row_in_range(console, scanline);
}

/// Where the surface and the font go together for scrolling, the cells that
/// a scroll reads and writes lie in display memory.
pub proof fn lemma_scroll_in_range(console: Console)
    requires
        console.fits(),
        console.scroll_fits(),
    ensures
        0 <= console.scroll_count(),
        0 <= console.scroll_shift(),
        console.scroll_start() / 4 == 2 * console.surface.pitch,
        console.surface.cells_in_range(
            console.scroll_start(),
            console.scroll_count() + console.scroll_shift(),
        ),
        console.surface.width * console.surface.height * 4 <= console.surface.bytes.len(),
        console.surface.width * console.glyphs.height * 4 <= console.surface.bytes.len(),
{
    let height = console.surface.height as int;
    let width = console.surface.width as int;
    let glyph = console.glyphs.height as int;
    assert(width * (height + glyph) == width * height + width * glyph) by (nonlinear_arith);
    assert(width * glyph >= 0 && width * height >= 0) by (nonlinear_arith)
        requires
            width >= 0,
            glyph >= 0,
            height >= 0,
    ;
}

/// A scroll leaves the console well formed, and the surface and the font go
/// together for scrolling after it as before.
pub proof fn lemma_scrolled_wf(console: Console)
    requires
        console.wf(),
    ensures
        console.scrolled().wf(),
        console.scrolled().scroll_fits() == console.scroll_fits(),
{
}

/// A new row leaves the console well formed, with room for a glyph at the
/// cursor, and the cursor no further down than the last row.
pub proof fn lemma_next_row_wf(console: Console)
    requires
        console.wf(),
    ensures
        console.next_row().wf(),
        !console.next_row().row_full(),
        console.next_row().scroll_fits() == console.scroll_fits(),
        console.next_row().row <= console.last_row(),
        console.next_row().last_row() == console.last_row(),
{
    lemma_scrolled_wf(console);
    lemma_row_within_last_row(console);
    lemma_row_within_last_row(console.next_row());
}

/// A console that can take a text can take each start of it.
pub proof fn lemma_takes_str_prefix(console: Console, text: Seq<char>, count: int)
    requires
        console.takes_str(text),
        0 <= count <= text.len(),
    ensures
        console.takes_str(text.take(count)),
    decreases text.len(),
{
    if count == text.len() {
        assert(text.take(count) =~= text);
    } else {
        lemma_takes_str_prefix(console, text.drop_last(), count);
        assert(text.drop_last().take(count) =~= text.take(count));
    }
}

} // verus!
