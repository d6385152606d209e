//! What holds of the text console whatever is written to it: laws of the
//! console's transitions, proved of their definitions.

use crate::console::{
    lemma_draw_in_range, lemma_next_row_wf, lemma_row_in_range, lemma_row_within_last_row,
    lemma_scroll_in_range, Console, NEWLINE, PLACEHOLDER,
};
use crate::surface::{
    lemma_cleared_reads_zero, lemma_pixel_value_of_bytes, lemma_shift_clears_tail,
    lemma_shift_keeps_outside, lemma_shifted_cell, pixel_byte, Surface,
};
use vstd::arithmetic::div_mod::{
    lemma_div_is_ordered, lemma_div_pos_is_pos, lemma_fundamental_div_mod,
    lemma_fundamental_div_mod_converse, lemma_mod_bound,
};
use vstd::prelude::*;

verus! {

/// Writing the newline character draws no glyph. It puts the cursor in
/// column 0, and one row further down with the surface as it was; or, where
/// the glyph cell of that row would end at or below the surface's height, it
/// leaves the cursor's row as it was and scrolls once.
pub proof fn lemma_newline(console: Console)
    ensures
        console.put_char(NEWLINE).col == 0,
        console.put_char(NEWLINE).color == console.color,
        console.put_char(NEWLINE).glyphs == console.glyphs,
        !console.screen_full() ==> {
            &&& console.put_char(NEWLINE).row == console.row + 1
            &&& console.put_char(NEWLINE).surface == console.surface
        },
        console.screen_full() ==> {
            &&& console.put_char(NEWLINE).row == console.row
            &&& console.put_char(NEWLINE).surface == console.scrolled().surface
        },
{
}

/// Where the row is not full, the scanlines of a glyph are all drawn in the
/// cursor's glyph cell, and the cursor stays.
pub proof fn lemma_scanlines_in_cell(console: Console, code: int, count: nat)
    requires
        !console.row_full(),
    ensures
        console.scanlines(code, count) == console.with_surface(console.drawn(code, count)),
    decreases count,
{
    if count > 0 {
        lemma_scanlines_in_cell(console, code, (count - 1) as nat);
        lemma_drawn_geometry(console, code, (count - 1) as nat);
        let previous = console.with_surface(console.drawn(code, (count - 1) as nat));
        assert(!previous.row_full());
        assert(console.scanlines(code, count) == previous.scanline(code, count - 1));
    }
}

/// Drawing scanlines in the cursor's glyph cell keeps the surface's geometry
/// and the size of display memory.
pub proof fn lemma_drawn_geometry(console: Console, code: int, count: nat)
    requires
        !console.row_full(),
    ensures
        console.drawn(code, count).width == console.surface.width,
        console.drawn(code, count).height == console.surface.height,
        console.drawn(code, count).pitch == console.surface.pitch,
        console.drawn(code, count).bytes.len() == console.surface.bytes.len(),
    decreases count,
{
    if count > 0 {
        lemma_drawn_geometry(console, code, (count - 1) as nat);
        let previous = console.with_surface(console.drawn(code, (count - 1) as nat));
        assert(!previous.row_full());
    }
}

/// Where the row is full, the wrap comes before the first scanline of a
/// glyph and before no other: the glyph is drawn as it is from the start of
/// the next row.
pub proof fn lemma_scanlines_after_wrap(console: Console, code: int, count: nat)
    requires
        console.wf(),
        console.row_full(),
        count >= 1,
    ensures
        console.scanlines(code, count) == console.next_row().scanlines(code, count),
    decreases count,
{
    lemma_next_row_wf(console);
    if count > 1 {
        lemma_scanlines_after_wrap(console, code, (count - 1) as nat);
    } else {
        assert(console.scanlines(code, 0) == console);
        assert(console.next_row().scanlines(code, 0) == console.next_row());
    }
}

/// Every character but the newline draws one whole glyph: in the cursor's
/// cell where the row has room for it, else in the first cell of the next
/// row, with no newline written. The cursor is then one cell further.
pub proof fn lemma_glyph_is_whole(console: Console, character: char)
    requires
        console.wf(),
        character != NEWLINE,
    ensures
        !console.row_full() ==> console.put_char(character) == console.with_glyph(
            character as int,
        ),
        console.row_full() ==> console.put_char(character) == console.next_row().with_glyph(
            character as int,
        ),
        console.row_full() ==> console.put_char(character).col == 1,
        console.put_char(character).wf(),
{
    let code = character as int;
    let lines = console.glyphs.height;
    lemma_next_row_wf(console);
    lemma_drawn_geometry(
        if console.row_full() {
            console.next_row()
        } else {
            console
        },
        code,
        lines,
    );
    if console.row_full() {
        lemma_scanlines_after_wrap(console, code, lines);
        lemma_scanlines_in_cell(console.next_row(), code, lines);
    } else {
        lemma_scanlines_in_cell(console, code, lines);
    }
}

/// On the last row, the newline character keeps the cursor's row and
/// scrolls once; above it, it moves the cursor one row down and changes no
/// pixel.
pub proof fn lemma_newline_on_last_row(console: Console)
    requires
        console.wf(),
    ensures
        console.row == console.last_row() ==> console.put_char(NEWLINE)
            == console.scrolled().with_cursor(console.row, 0),
        console.row != console.last_row() ==> console.put_char(NEWLINE) == console.with_cursor(
            console.row + 1,
            0,
        ),
        console.row != console.last_row() ==> console.row_on_surface(console.row as int + 1),
{
    lemma_row_within_last_row(console);
}

/// No write moves the cursor up, and none moves it further down than the
/// last row.
pub proof fn lemma_put_char_row(console: Console, character: char)
    requires
        console.wf(),
    ensures
        console.row <= console.put_char(character).row <= console.last_row(),
{
    lemma_next_row_wf(console);
    lemma_row_within_last_row(console);
    if character != NEWLINE {
        lemma_glyph_is_whole(console, character);
    }
}

/// Writing a character leaves the console well formed: the cursor is in row
/// 0 or in a row whose glyph cell ends above the surface's height.
pub proof fn lemma_put_char_wf(console: Console, character: char)
    requires
        console.wf(),
    ensures
        console.put_char(character).wf(),
        console.put_char(character).scroll_fits() == console.scroll_fits(),
        console.put_char(character).glyphs == console.glyphs,
        console.put_char(character).color == console.color,
        console.put_char(character).surface.width == console.surface.width,
        console.put_char(character).surface.height == console.surface.height,
        console.put_char(character).surface.pitch == console.surface.pitch,
{
    lemma_next_row_wf(console);
    if character != NEWLINE {
        lemma_glyph_is_whole(console, character);
        let at = if console.row_full() {
            console.next_row()
        } else {
            console
        };
        lemma_drawn_geometry(at, character as int, console.glyphs.height);
    }
}

/// Writing a string leaves the console well formed, however long the string.
pub proof fn lemma_put_str_wf(console: Console, text: Seq<char>)
    requires
        console.wf(),
    ensures
        console.put_str(text).wf(),
        console.put_str(text).scroll_fits() == console.scroll_fits(),
        console.put_str(text).glyphs == console.glyphs,
        console.put_str(text).color == console.color,
        console.put_str(text).surface.width == console.surface.width,
        console.put_str(text).surface.height == console.surface.height,
        console.put_str(text).surface.pitch == console.surface.pitch,
    decreases text.len(),
{
    if text.len() > 0 {
        lemma_put_str_wf(console, text.drop_last());
        lemma_put_char_wf(console.put_str(text.drop_last()), Console::shown_as(text.last()));
    }
}

/// Where the surface and the font go together for scrolling, the console
/// can take every text.
pub proof fn lemma_takes_every_text(console: Console, text: Seq<char>)
    requires
        console.wf(),
        console.scroll_fits(),
    ensures
        console.takes_str(text),
    decreases text.len(),
{
    if text.len() > 0 {
        lemma_takes_every_text(console, text.drop_last());
        lemma_put_str_wf(console, text.drop_last());
    }
}

/// However much is written, the cursor's row is never further down than the
/// last row: the last whose glyph cell ends above the surface's height, and
/// row 0 where no row's does.
pub proof fn lemma_cursor_never_passes_last_row(console: Console, text: Seq<char>)
    requires
        console.wf(),
    ensures
        console.put_str(text).row <= console.last_row(),
        console.put_str(text).last_row() == console.last_row(),
{
    lemma_put_str_wf(console, text);
    lemma_row_within_last_row(console.put_str(text));
}

/// A text without a newline that ends no further down than the last row
/// fills the cells from the cursor's place on, one glyph a cell and row by
/// row: none is left out and none drawn over at a wrap, nothing scrolls,
/// and the cursor ends behind the last glyph, as many places on as the text
/// has characters.
pub proof fn lemma_text_fills_cells(console: Console, text: Seq<char>)
    requires
        console.wf(),
        Console::one_line(text),
        text.len() > 0 ==> (console.place() + text.len() - 1) / console.columns()
            <= console.last_row(),
    ensures
        console.put_str(text) == console.typed(text),
        console.takes_str(text),
        1 <= console.columns(),
        text.len() > 0 ==> {
            &&& console.put_str(text).row == (console.place() + text.len() - 1)
                / console.columns()
            &&& console.put_str(text).col == (console.place() + text.len() - 1)
                % console.columns() + 1
            &&& 1 <= console.put_str(text).col <= console.columns()
        },
        console.put_str(text).columns() == console.columns(),
        console.put_str(text).place() == console.place() + text.len(),
    decreases text.len(),
{
    let columns = console.columns();
    if text.len() > 0 {
        let head = text.drop_last();
        let shown = Console::shown_as(text.last());
        let at = console.place() + text.len() - 1;
        assert(console.row * columns >= 0) by (nonlinear_arith)
            requires
                console.row >= 0,
                columns >= 0,
        ;
        if head.len() > 0 {
            lemma_div_is_ordered(at - 1, at, columns);
        }
        lemma_text_fills_cells(console, head);
        lemma_put_str_wf(console, head);
        let before = console.put_str(head);
        assert(before.place() == at);
        assert((before.row + 1) * columns == before.row * columns + columns) by (nonlinear_arith);
        lemma_row_within_last_row(before);
        lemma_next_row_wf(before);
        lemma_glyph_is_whole(before, shown);
        if before.col < columns {
            lemma_fundamental_div_mod_converse(at, columns, before.row as int, before.col as int);
            assert(before.with_cursor(before.row, before.col) == before);
        } else {
            lemma_fundamental_div_mod_converse(at, columns, before.row as int + 1, 0);
            assert(before.next_row() == before.with_cursor(before.row + 1, 0));
            assert(console.typed(head).with_cursor(before.row + 1, 0) == before.next_row());
        }
        lemma_fundamental_div_mod(at, columns);
        assert(columns * (at / columns) == (at / columns) * columns) by (nonlinear_arith);
        lemma_mod_bound(at, columns);
        lemma_put_str_wf(console, text);
    }
}

/// Writing two strings one after the other is writing the two as one.
pub proof fn lemma_put_str_concat(console: Console, first: Seq<char>, second: Seq<char>)
    ensures
        console.put_str(first + second) == console.put_str(first).put_str(second),
    decreases second.len(),
{
    if second.len() == 0 {
        assert(first + second =~= first);
    } else {
        lemma_put_str_concat(console, first, second.drop_last());
        assert((first + second).drop_last() =~= first + second.drop_last());
    }
}

/// A console can take two strings as one where it can take the first and,
/// after it, the second.
pub proof fn lemma_takes_str_concat(console: Console, first: Seq<char>, second: Seq<char>)
    ensures
        console.takes_str(first + second) == (console.takes_str(first) && console.put_str(
            first,
        ).takes_str(second)),
    decreases second.len(),
{
    if second.len() == 0 {
        assert(first + second =~= first);
    } else {
        lemma_takes_str_concat(console, first, second.drop_last());
        lemma_put_str_concat(console, first, second.drop_last());
        assert((first + second).drop_last() =~= first + second.drop_last());
    }
}

/// A console can take a string of one character where it can take the
/// character that is written for it.
pub proof fn lemma_takes_str_single(console: Console, character: char)
    ensures
        console.takes_str(seq![character]) == console.takes(Console::shown_as(character)),
{
    let text = seq![character];
    assert(text.drop_last() =~= Seq::<char>::empty());
    assert(console.takes_str(text.drop_last()));
    assert(console.put_str(text.drop_last()) == console);
}

/// In a string, a character whose code does not fit in one byte is drawn as
/// the placeholder character, and any other as itself.
pub proof fn lemma_put_str_single(console: Console, character: char)
    ensures
        character as u32 > 0xFF ==> console.put_str(seq![character]) == console.put_char(
            PLACEHOLDER,
        ),
        character as u32 <= 0xFF ==> console.put_str(seq![character]) == console.put_char(
            character,
        ),
{
    let text = seq![character];
    assert(text.drop_last() =~= Seq::<char>::empty());
    assert(console.put_str(text.drop_last()) == console);
}

/// A scroll gives each cell of the scrolled range the content of the cell
/// one row of glyphs further on.
pub proof fn lemma_scroll_moves_content(console: Console, i: int)
    requires
        console.fits(),
        console.scroll_fits(),
        0 <= i < console.scroll_count(),
    ensures
        console.scrolled().surface.load(console.scroll_start() + 4 * i) == console.surface.load(
            console.scroll_start() + 4 * (i + console.scroll_shift()),
        ),
{
    lemma_scroll_in_range(console);
    lemma_shifted_cell(
        console.surface,
        console.scroll_start(),
        console.scroll_count(),
        console.scroll_shift(),
        i,
    );
}

/// A scroll clears the row of glyphs behind the scrolled range.
pub proof fn lemma_scroll_clears_last_row(console: Console, j: int)
    requires
        console.fits(),
        console.scroll_fits(),
        0 <= j < console.scroll_shift(),
    ensures
        console.scrolled().surface.load(
            console.scroll_start() + 4 * (console.scroll_count() + j),
        ) == 0,
{
    lemma_scroll_in_range(console);
    lemma_shift_clears_tail(
        console.surface,
        console.scroll_start(),
        console.scroll_count(),
        console.scroll_shift(),
        j,
    );
}

/// After a scroll, a cell of the last row of glyphs of the scrolled range
/// reads 0 where the cell that moved into it did.
pub proof fn lemma_scroll_blanks_last_row(console: Console, i: int)
    requires
        console.fits(),
        console.scroll_fits(),
        0 <= i,
        console.scroll_count() - console.scroll_shift() <= i < console.scroll_count(),
        console.surface.load(console.scroll_start() + 4 * (i + console.scroll_shift())) == 0,
    ensures
        console.scrolled().surface.load(console.scroll_start() + 4 * i) == 0,
{
    lemma_scroll_moves_content(console, i);
}

/// A scroll leaves the top margin as it was.
pub proof fn lemma_scroll_keeps_margin(console: Console, offset: int)
    requires
        console.fits(),
        console.scroll_fits(),
        0 <= offset,
        offset + 4 <= console.scroll_start(),
    ensures
        console.scrolled().surface.load(offset) == console.surface.load(offset),
{
    lemma_scroll_in_range(console);
    lemma_shift_keeps_outside(
        console.surface,
        console.scroll_start(),
        console.scroll_count(),
        console.scroll_shift(),
        offset,
    );
}

/// After the screen was cleared every pixel reads 0 and the cursor is in the
/// first cell.
pub proof fn lemma_cleared_console(console: Console, offset: int)
    requires
        console.surface.in_range(offset),
    ensures
        console.cleared().surface.load(offset) == 0,
        console.cleared().row == 0,
        console.cleared().col == 0,
        console.cleared().color == console.color,
        console.wf() ==> console.cleared().wf(),
{
    lemma_cleared_reads_zero(console.surface, offset);
}

/// Index of the first byte of scanline `scanline` of the cursor's glyph cell.
pub open spec fn cell_base(console: Console, scanline: int) -> int {
    console.row_offset(scanline) + console.col_offset()
}

/// What the bytes of one scanline of the cursor's glyph cell hold after the
/// first `count` scanlines of a glyph were drawn: the glyph row's pixels if
/// the scanline is among them, else what they held before.
proof fn lemma_drawn_bytes(console: Console, code: int, count: nat, scanline: int, k: int)
    requires
        console.wf(),
        !console.row_full(),
        count <= console.glyphs.height,
        0 <= scanline < console.glyphs.height,
        cell_base(console, scanline) <= k < cell_base(console, scanline) + 32,
    ensures
        0 <= k < console.surface.bytes.len(),
        console.drawn(code, count).bytes.len() == console.surface.bytes.len(),
        console.drawn(code, count).bytes[k] == if scanline < count && Surface::bit_set(
            console.glyphs.row_bits(code, scanline),
            (k - cell_base(console, scanline)) / 4,
        ) {
            pixel_byte(console.color.argb(), (k - cell_base(console, scanline)) % 4)
        } else {
            console.surface.bytes[k]
        },
    decreases count,
{
    lemma_row_in_range(console, scanline);
    lemma_drawn_geometry(console, code, count);
    if count > 0 {
        let last = count - 1;
        lemma_drawn_bytes(console, code, last as nat, scanline, k);
        lemma_row_in_range(console, last);
        if last != scanline {
            let pitch = console.surface.pitch as int;
            let here = scanline + 8 + console.row * console.glyphs.height;
            let there = last + 8 + console.row * console.glyphs.height;
            assert(there * pitch - here * pitch == (there - here) * pitch) by (nonlinear_arith);
            if last > scanline {
                assert((there - here) * pitch >= pitch) by (nonlinear_arith)
                    requires
                        there - here >= 1,
                        pitch >= 0,
                ;
            } else {
                assert((there - here) * pitch <= -pitch) by (nonlinear_arith)
                    requires
                        there - here <= -1,
                        pitch >= 0,
                ;
            }
        }
    }
}

/// After a glyph was drawn in the cursor's glyph cell, pixel `pixel` of
/// scanline `scanline` of the cell has the console's colour where the bit
/// for it is set in the glyph's row, and is as it was where not.
pub proof fn lemma_glyph_pixel(console: Console, code: int, scanline: int, pixel: int)
    requires
        console.wf(),
        !console.row_full(),
        0 <= scanline < console.glyphs.height,
        0 <= pixel < 8,
    ensures
        console.surface.in_range(cell_base(console, scanline) + 4 * pixel),
        console.with_glyph(code).surface.load(cell_base(console, scanline) + 4 * pixel)
            == if Surface::bit_set(console.glyphs.row_bits(code, scanline), pixel) {
            console.color.argb()
        } else {
            console.surface.load(cell_base(console, scanline) + 4 * pixel)
        },
{
    let at = cell_base(console, scanline) + 4 * pixel;
    let lines = console.glyphs.height;
    lemma_draw_in_range(console, scanline, pixel);
    lemma_drawn_bytes(console, code, lines, scanline, at);
    lemma_drawn_bytes(console, code, lines, scanline, at + 1);
    lemma_drawn_bytes(console, code, lines, scanline, at + 2);
    lemma_drawn_bytes(console, code, lines, scanline, at + 3);
    lemma_pixel_value_of_bytes(console.color.argb());
}

/// Drawing a glyph changes no byte outside the scanlines of the cursor's
/// glyph cell.
pub proof fn lemma_glyph_keeps_outside(console: Console, code: int, count: nat, k: int)
    requires
        !console.row_full(),
        0 <= k < console.surface.bytes.len(),
        forall|scanline: int|
            0 <= scanline < count ==> !(#[trigger] cell_base(console, scanline) <= k < cell_base(
                console,
                scanline,
            ) + 32),
    ensures
        console.drawn(code, count).bytes[k] == console.surface.bytes[k],
    decreases count,
{
    lemma_drawn_geometry(console, code, count);
    if count > 0 {
        lemma_glyph_keeps_outside(console, code, (count - 1) as nat, k);
        lemma_drawn_geometry(console, code, (count - 1) as nat);
        assert(!(cell_base(console, count - 1) <= k < cell_base(console, count - 1) + 32));
    }
}

/// The console with the cursor in the cell whose place is `place`.
pub open spec fn at_place(console: Console, place: int) -> Console {
    console.with_cursor((place / console.columns()) as nat, (place % console.columns()) as nat)
}

/// Before the last character of a text that fills cells is written, the
/// cursor is in the cell of its place or at the end of the row before it,
/// and in that cell the whole glyph is drawn.
proof fn lemma_text_last_cell(console: Console, text: Seq<char>)
    requires
        console.wf(),
        Console::one_line(text),
        text.len() > 0,
        (console.place() + text.len() - 1) / console.columns() <= console.last_row(),
    ensures
        at_place(console.put_str(text.drop_last()), console.place() + text.len() - 1).wf(),
        !at_place(console.put_str(text.drop_last()), console.place() + text.len() - 1).row_full(),
        console.put_str(text) == at_place(
            console.put_str(text.drop_last()),
            console.place() + text.len() - 1,
        ).with_glyph(Console::shown_as(text.last()) as int),
        console.put_str(text.drop_last()).columns() == console.columns(),
        console.put_str(text.drop_last()).glyphs == console.glyphs,
        console.put_str(text.drop_last()).color == console.color,
        console.put_str(text.drop_last()).surface.pitch == console.surface.pitch,
        console.put_str(text.drop_last()).surface.bytes.len() == console.surface.bytes.len(),
        0 <= console.place(),
        Console::one_line(text.drop_last()),
        text.len() > 1 ==> (console.place() + text.len() - 2) / console.columns()
            <= console.last_row(),
{
    let columns = console.columns();
    let head = text.drop_last();
    let shown = Console::shown_as(text.last());
    let at = console.place() + text.len() - 1;
    assert(console.row * columns >= 0) by (nonlinear_arith)
        requires
            console.row >= 0,
            columns >= 0,
    ;
    if head.len() > 0 {
        lemma_div_is_ordered(at - 1, at, columns);
    }
    lemma_text_fills_cells(console, head);
    lemma_text_fills_cells(console, text);
    lemma_put_str_wf(console, head);
    let before = console.put_str(head);
    assert((before.row + 1) * columns == before.row * columns + columns) by (nonlinear_arith);
    lemma_row_within_last_row(before);
    lemma_next_row_wf(before);
    lemma_glyph_is_whole(before, shown);
    if before.col < columns {
        lemma_fundamental_div_mod_converse(at, columns, before.row as int, before.col as int);
        assert(at_place(before, at) == before);
    } else {
        lemma_fundamental_div_mod_converse(at, columns, before.row as int + 1, 0);
        assert(before.next_row() == before.with_cursor(before.row + 1, 0));
        assert(at_place(before, at) == before.next_row());
    }
}

/// The scanlines of two cells in different places share no byte.
pub proof fn lemma_cells_apart(
    console: Console,
    place: int,
    other: int,
    scanline: int,
    other_scanline: int,
    k: int,
)
    requires
        console.fits(),
        0 <= place,
        0 <= other,
        place != other,
        0 <= scanline < console.glyphs.height,
        0 <= other_scanline < console.glyphs.height,
        cell_base(at_place(console, place), scanline) <= k < cell_base(
            at_place(console, place),
            scanline,
        ) + 32,
    ensures
        !(cell_base(at_place(console, other), other_scanline) <= k < cell_base(
            at_place(console, other),
            other_scanline,
        ) + 32),
{
    let columns = console.columns();
    let glyph = console.glyphs.height as int;
    let pitch = console.surface.pitch as int;
    let row = place / columns;
    let col = place % columns;
    let other_row = other / columns;
    let other_col = other % columns;
    lemma_fundamental_div_mod(place, columns);
    lemma_fundamental_div_mod(other, columns);
    lemma_mod_bound(place, columns);
    lemma_mod_bound(other, columns);
    lemma_div_pos_is_pos(place, columns);
    lemma_div_pos_is_pos(other, columns);
    let here = scanline + 8 + row * glyph;
    let there = other_scanline + 8 + other_row * glyph;
    assert(there * pitch - here * pitch == (there - here) * pitch) by (nonlinear_arith);
    if here == there {
        lemma_fundamental_div_mod_converse(row * glyph + scanline, glyph, row, scanline);
        lemma_fundamental_div_mod_converse(
            other_row * glyph + other_scanline,
            glyph,
            other_row,
            other_scanline,
        );
        assert(row == other_row);
        assert(col != other_col);
    } else if here < there {
        assert((there - here) * pitch >= pitch) by (nonlinear_arith)
            requires
                there - here >= 1,
                pitch >= 0,
        ;
    } else {
        assert((there - here) * pitch <= -pitch) by (nonlinear_arith)
            requires
                there - here <= -1,
                pitch >= 0,
        ;
    }
}

/// A text that fills cells changes no byte of a cell whose place is none of
/// the places that it fills.
pub proof fn lemma_text_keeps_other_cells(
    console: Console,
    text: Seq<char>,
    place: int,
    scanline: int,
    k: int,
)
    requires
        console.wf(),
        Console::one_line(text),
        text.len() > 0 ==> (console.place() + text.len() - 1) / console.columns()
            <= console.last_row(),
        0 <= place,
        place < console.place() || console.place() + text.len() <= place,
        0 <= scanline < console.glyphs.height,
        0 <= k < console.surface.bytes.len(),
        cell_base(at_place(console, place), scanline) <= k < cell_base(
            at_place(console, place),
            scanline,
        ) + 32,
    ensures
        console.put_str(text).surface.bytes[k] == console.surface.bytes[k],
    decreases text.len(),
{
    if text.len() > 0 {
        let head = text.drop_last();
        let last = console.place() + text.len() - 1;
        lemma_text_last_cell(console, text);
        lemma_text_keeps_other_cells(console, head, place, scanline, k);
        let cell = at_place(console.put_str(head), last);
        assert forall|other: int| 0 <= other < console.glyphs.height implies !(#[trigger] cell_base(
            cell,
            other,
        ) <= k < cell_base(cell, other) + 32) by {
            lemma_cells_apart(console, place, last, scanline, other, k);
            assert(cell_base(cell, other) == cell_base(at_place(console, last), other));
        }
        lemma_glyph_keeps_outside(
            cell,
            Console::shown_as(text.last()) as int,
            console.glyphs.height,
            k,
        );
    }
}

/// After a text that fills cells was written, the cell of each of its
/// characters shows that character's glyph: a pixel of the cell has the
/// console's colour where the bit for it is set in the glyph's row, and is
/// as it was before the text where not. No glyph is left out or drawn over.
pub proof fn lemma_text_pixel(
    console: Console,
    text: Seq<char>,
    i: int,
    scanline: int,
    pixel: int,
)
    requires
        console.wf(),
        Console::one_line(text),
        0 <= i < text.len(),
        (console.place() + text.len() - 1) / console.columns() <= console.last_row(),
        0 <= scanline < console.glyphs.height,
        0 <= pixel < 8,
    ensures
        console.surface.in_range(
            cell_base(at_place(console, console.place() + i), scanline) + 4 * pixel,
        ),
        console.put_str(text).surface.load(
            cell_base(at_place(console, console.place() + i), scanline) + 4 * pixel,
        ) == if Surface::bit_set(
            console.glyphs.row_bits(Console::shown_as(text[i]) as int, scanline),
            pixel,
        ) {
            console.color.argb()
        } else {
            console.surface.load(
                cell_base(at_place(console, console.place() + i), scanline) + 4 * pixel,
            )
        },
    decreases text.len(),
{
    let head = text.drop_last();
    let last = console.place() + text.len() - 1;
    let code = Console::shown_as(text.last()) as int;
    let at = cell_base(at_place(console, console.place() + i), scanline) + 4 * pixel;
    lemma_text_last_cell(console, text);
    let cell = at_place(console.put_str(head), last);
    assert(cell_base(cell, scanline) == cell_base(at_place(console, last), scanline));
    if i == text.len() - 1 {
        lemma_glyph_pixel(cell, code, scanline, pixel);
        lemma_text_keeps_other_cells(console, head, last, scanline, at);
        lemma_text_keeps_other_cells(console, head, last, scanline, at + 1);
        lemma_text_keeps_other_cells(console, head, last, scanline, at + 2);
        lemma_text_keeps_other_cells(console, head, last, scanline, at + 3);
    } else {
        lemma_text_pixel(console, head, i, scanline, pixel);
        assert forall|other: int| 0 <= other < console.glyphs.height implies {
            &&& !(#[trigger] cell_base(cell, other) <= at < cell_base(cell, other) + 32)
            &&& !(cell_base(cell, other) <= at + 1 < cell_base(cell, other) + 32)
            &&& !(cell_base(cell, other) <= at + 2 < cell_base(cell, other) + 32)
            &&& !(cell_base(cell, other) <= at + 3 < cell_base(cell, other) + 32)
        } by {
            assert(cell_base(cell, other) == cell_base(at_place(console, last), other));
            lemma_cells_apart(console, console.place() + i, last, scanline, other, at);
            lemma_cells_apart(console, console.place() + i, last, scanline, other, at + 1);
            lemma_cells_apart(console, console.place() + i, last, scanline, other, at + 2);
            lemma_cells_apart(console, console.place() + i, last, scanline, other, at + 3);
        }
        lemma_glyph_keeps_outside(cell, code, console.glyphs.height, at);
        lemma_glyph_keeps_outside(cell, code, console.glyphs.height, at + 1);
        lemma_glyph_keeps_outside(cell, code, console.glyphs.height, at + 2);
        lemma_glyph_keeps_outside(cell, code, console.glyphs.height, at + 3);
    }
}

} // verus!
