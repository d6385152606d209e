//! The mathematical model of a pixel surface: its geometry and the bytes of
//! its display memory, with the operations on them as functions on values.
//!
//! A pixel is four consecutive bytes, least significant first. A pixel offset
//! is the index of the first of them. Offsets need not be multiples of four.

use vstd::prelude::*;

verus! {

/// Bytes taken by one pixel.
pub const BYTES_PER_PIXEL: usize = 4;

/// Byte `i` (0 to 3) of the stored form of a pixel value, least significant first.
pub open spec fn pixel_byte(value: u32, i: int) -> u8 {
    if i == 0 {
        (value & 0xff) as u8
    } else if i == 1 {
        ((value >> 8) & 0xff) as u8
    } else if i == 2 {
        ((value >> 16) & 0xff) as u8
    } else {
        ((value >> 24) & 0xff) as u8
    }
}

/// The pixel value stored as the four bytes `b0` to `b3`.
pub open spec fn pixel_value(b0: u8, b1: u8, b2: u8, b3: u8) -> u32 {
    (b0 as u32) | ((b1 as u32) << 8) | ((b2 as u32) << 16) | ((b3 as u32) << 24)
}

/// A pixel surface as a value.
pub struct Surface {
    /// Visible pixels per row.
    pub width: nat,
    /// Rows.
    pub height: nat,
    /// Addressable units per row.
    pub pitch: nat,
    /// Display memory.
    pub bytes: Seq<u8>,
}

impl Surface {
    /// The number of bytes of display memory that the geometry calls for.
    pub open spec fn size(self) -> nat {
        self.pitch * self.height * 4
    }

    /// Display memory has exactly the size the geometry calls for.
    pub open spec fn wf(self) -> bool {
        self.bytes.len() == self.size()
    }

    /// A pixel at `offset` lies inside display memory.
    pub open spec fn in_range(self, offset: int) -> bool {
        0 <= offset && offset + 4 <= self.bytes.len()
    }

    /// The `count` pixel cells from `start` lie inside display memory.
    pub open spec fn cells_in_range(self, start: int, count: int) -> bool {
        0 <= start && 0 <= count && start + 4 * count <= self.bytes.len()
    }

    /// The pixel value read at `offset`.
    pub open spec fn load(self, offset: int) -> u32 {
        pixel_value(
            self.bytes[offset],
            self.bytes[offset + 1],
            self.bytes[offset + 2],
            self.bytes[offset + 3],
        )
    }

    /// The surface with other display memory and the same geometry.
    pub open spec fn with_bytes(self, bytes: Seq<u8>) -> Surface {
        Surface { width: self.width, height: self.height, pitch: self.pitch, bytes }
    }

    /// The surface after `value` was written at `offset`.
    pub open spec fn store(self, offset: int, value: u32) -> Surface {
        self.with_bytes(
            Seq::new(
                self.bytes.len(),
                |k: int|
                    if offset <= k < offset + 4 {
                        pixel_byte(value, k - offset)
                    } else {
                        self.bytes[k]
                    },
            ),
        )
    }

    /// The surface after the `count` cells from `start` were cleared.
    pub open spec fn clear_cells(self, start: int, count: int) -> Surface {
        self.with_bytes(
            Seq::new(
                self.bytes.len(),
                |k: int|
                    if start <= k < start + 4 * count {
                        0u8
                    } else {
                        self.bytes[k]
                    },
            ),
        )
    }

    /// The surface after the `count` cells from `start` each took the content
    /// of the cell `shift` cells further on.
    pub open spec fn pull_cells(self, start: int, count: int, shift: int) -> Surface {
        self.with_bytes(
            Seq::new(
                self.bytes.len(),
                |k: int|
                    if start <= k < start + 4 * count {
                        self.bytes[k + 4 * shift]
                    } else {
                        self.bytes[k]
                    },
            ),
        )
    }

    /// The surface after the `count` cells from `start` each took the content
    /// of the cell `shift` cells further on, and the `shift` cells behind them
    /// were cleared.
    pub open spec fn shift_cells(self, start: int, count: int, shift: int) -> Surface {
        self.with_bytes(
            Seq::new(
                self.bytes.len(),
                |k: int|
                    if start <= k < start + 4 * count {
                        self.bytes[k + 4 * shift]
                    } else if start + 4 * count <= k < start + 4 * count + 4 * shift {
                        0u8
                    } else {
                        self.bytes[k]
                    },
            ),
        )
    }

    /// The surface with all of display memory zero.
    pub open spec fn cleared(self) -> Surface {
        self.with_bytes(Seq::new(self.bytes.len(), |k: int| 0u8))
    }

    /// Bit `pixel` of a glyph row, counted from the most significant bit, is set.
    pub open spec fn bit_set(bits: u8, pixel: int) -> bool {
        bits & (0x80u8 >> (pixel as u8)) > 0
    }

    /// The surface after the first `count` pixels of a glyph row were drawn
    /// from `base` on: pixel `p` takes `value` where bit `p` of `bits` is set,
    /// and stays as it is where not.
    pub open spec fn blit(self, base: int, bits: u8, value: u32, count: int) -> Surface {
        self.with_bytes(
            Seq::new(
                self.bytes.len(),
                |k: int|
                    if base <= k < base + 4 * count && Self::bit_set(bits, (k - base) / 4) {
                        pixel_byte(value, (k - base) % 4)
                    } else {
                        self.bytes[k]
                    },
            ),
        )
    }
}

/// The four stored bytes of a value give the value back.
pub proof fn lemma_pixel_value_of_bytes(value: u32)
    ensures
        pixel_value(
            pixel_byte(value, 0),
            pixel_byte(value, 1),
            pixel_byte(value, 2),
            pixel_byte(value, 3),
        ) == value,
{
    assert(((value & 0xff) as u8) as u32 | ((((value >> 8) & 0xff) as u8) as u32) << 8 | ((((value
        >> 16) & 0xff) as u8) as u32) << 16 | ((((value >> 24) & 0xff) as u8) as u32) << 24
        == value) by (bit_vector);
}

/// The value of four bytes is stored as those four bytes.
pub proof fn lemma_pixel_bytes_of_value(b0: u8, b1: u8, b2: u8, b3: u8)
    ensures
        pixel_byte(pixel_value(b0, b1, b2, b3), 0) == b0,
        pixel_byte(pixel_value(b0, b1, b2, b3), 1) == b1,
        pixel_byte(pixel_value(b0, b1, b2, b3), 2) == b2,
        pixel_byte(pixel_value(b0, b1, b2, b3), 3) == b3,
{
    let v = pixel_value(b0, b1, b2, b3);
    assert(v == (b0 as u32) | ((b1 as u32) << 8) | ((b2 as u32) << 16) | ((b3 as u32) << 24));
    assert((v & 0xff) as u8 == b0 && ((v >> 8) & 0xff) as u8 == b1 && ((v >> 16) & 0xff) as u8
        == b2 && ((v >> 24) & 0xff) as u8 == b3) by (bit_vector)
        requires
            v == (b0 as u32) | ((b1 as u32) << 8) | ((b2 as u32) << 16) | ((b3 as u32) << 24),
    ;
}

/// Four zero bytes are the pixel value zero, and zero is stored as four zero bytes.
pub proof fn lemma_pixel_zero()
    ensures
        pixel_value(0, 0, 0, 0) == 0,
        forall|i: int| 0 <= i < 4 ==> #[trigger] pixel_byte(0, i) == 0,
{
    assert((0u8 as u32) | ((0u8 as u32) << 8) | ((0u8 as u32) << 16) | ((0u8 as u32) << 24) == 0)
        by (bit_vector);
    assert((0u32 & 0xff) as u8 == 0 && ((0u32 >> 8) & 0xff) as u8 == 0 && ((0u32 >> 16)
        & 0xff) as u8 == 0 && ((0u32 >> 24) & 0xff) as u8 == 0) by (bit_vector);
}

/// A pixel that was written is read back: after `value` was stored at an
/// offset in range, the value loaded at that offset is `value`.
pub proof fn lemma_store_then_load(surface: Surface, offset: int, value: u32)
    requires
        surface.in_range(offset),
    ensures
        surface.store(offset, value).load(offset) == value,
        surface.store(offset, value).wf() == surface.wf(),
{
    lemma_pixel_value_of_bytes(value);
}

/// A store leaves every pixel that does not overlap it as it was.
pub proof fn lemma_store_keeps_others(surface: Surface, offset: int, value: u32, other: int)
    requires
        surface.in_range(offset),
        surface.in_range(other),
        other + 4 <= offset || offset + 4 <= other,
    ensures
        surface.store(offset, value).load(other) == surface.load(other),
{
}

/// After a range of cells was cleared, each cell of the range reads 0.
pub proof fn lemma_cleared_cell_reads_zero(surface: Surface, start: int, count: int, i: int)
    requires
        surface.cells_in_range(start, count),
        0 <= i < count,
    ensures
        surface.clear_cells(start, count).load(start + 4 * i) == 0,
{
    lemma_pixel_zero();
}

/// Clearing a range of cells leaves every pixel outside the range as it was.
pub proof fn lemma_clear_keeps_outside(surface: Surface, start: int, count: int, other: int)
    requires
        surface.cells_in_range(start, count),
        surface.in_range(other),
        other + 4 <= start || start + 4 * count <= other,
    ensures
        surface.clear_cells(start, count).load(other) == surface.load(other),
{
}

/// After a range of cells was shifted, cell `i` of the range holds what the
/// cell `shift` cells further on held before.
pub proof fn lemma_shifted_cell(surface: Surface, start: int, count: int, shift: int, i: int)
    requires
        0 <= shift,
        surface.cells_in_range(start, count + shift),
        0 <= i < count,
    ensures
        surface.shift_cells(start, count, shift).load(start + 4 * i) == surface.load(
            start + 4 * (i + shift),
        ),
{
}

/// After a range of cells was shifted by `shift`, each of the `shift` cells
/// behind the range reads 0.
pub proof fn lemma_shift_clears_tail(surface: Surface, start: int, count: int, shift: int, j: int)
    requires
        surface.cells_in_range(start, count + shift),
        0 <= count,
        0 <= j < shift,
    ensures
        surface.shift_cells(start, count, shift).load(start + 4 * (count + j)) == 0,
{
    lemma_pixel_zero();
}

/// Shifting a range of cells leaves every pixel as it was that lies before
/// the range, or behind the cells that were cleared.
pub proof fn lemma_shift_keeps_outside(
    surface: Surface,
    start: int,
    count: int,
    shift: int,
    other: int,
)
    requires
        0 <= shift,
        surface.cells_in_range(start, count + shift),
        0 <= count,
        surface.in_range(other),
        other + 4 <= start || start + 4 * (count + shift) <= other,
    ensures
        surface.shift_cells(start, count, shift).load(other) == surface.load(other),
{
}

/// After the whole surface was cleared, every pixel reads 0.
pub proof fn lemma_cleared_reads_zero(surface: Surface, offset: int)
    requires
        surface.in_range(offset),
    ensures
        surface.cleared().load(offset) == 0,
{
    lemma_pixel_zero();
}

} // verus!
