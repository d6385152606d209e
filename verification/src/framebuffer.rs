//! The pixel surface: display geometry and display memory, addressed by byte
//! offset. It knows nothing of text.

use crate::surface::{lemma_pixel_bytes_of_value, lemma_pixel_zero, Surface, BYTES_PER_PIXEL};
use vstd::prelude::*;

verus! {

/// Why a surface could not be made.
#[derive(Debug, Clone, Copy, PartialEq, Eq, Structural)]
pub enum SurfaceError {
    /// The colour depth is not 32 bits per pixel.
    UnsupportedDepth,
    /// Display memory is not `pitch * height * 4` bytes long.
    SizeMismatch,
}

/// A linear pixel surface of 32-bit pixels.
pub struct FrameBuffer {
    width: u64,
    height: u64,
    pitch: u64,
    bpp: u16,
    memory: Vec<u8>,
}

impl View for FrameBuffer {
    type V = Surface;

    closed spec fn view(&self) -> Surface {
        Surface {
            width: self.width as nat,
            height: self.height as nat,
            pitch: self.pitch as nat,
            bytes: self.memory@,
        }
    }
}

impl FrameBuffer {
    /// Bits per pixel.
    pub closed spec fn depth(&self) -> nat {
        self.bpp as nat
    }

    /// The surface has 32-bit pixels and display memory of the size that its
    /// geometry calls for.
    pub open spec fn wf(&self) -> bool {
        self.depth() == 32 && self@.wf() && self@.bytes.len() <= usize::MAX
    }

    /// Makes a surface of the given geometry over `memory`.
    pub fn new(width: u64, height: u64, pitch: u64, bpp: u16, memory: Vec<u8>) -> (made: Result<
        FrameBuffer,
        SurfaceError,
    >)
        ensures
            match made {
                Ok(surface) => {
                    &&& bpp == 32
                    &&& memory@.len() == pitch * height * 4
                    &&& surface.wf()
                    &&& surface@ == (Surface {
                        width: width as nat,
                        height: height as nat,
                        pitch: pitch as nat,
                        bytes: memory@,
                    })
                },
                Err(SurfaceError::UnsupportedDepth) => bpp != 32,
                Err(SurfaceError::SizeMismatch) => bpp == 32 && memory@.len() != pitch * height * 4,
            },
    {
        if bpp != 32 {
            return Err(SurfaceError::UnsupportedDepth);
        }
        let length: usize = memory.len();
        let size: Option<u64> = match pitch.checked_mul(height) {
            Some(cells) => cells.checked_mul(4),
            None => None,
        };
        match size {
            Some(size) => {
                if length as u64 == size {
                    Ok(FrameBuffer { width, height, pitch, bpp, memory })
                } else {
                    Err(SurfaceError::SizeMismatch)
                }
            },
            None => {
                assert(length < pitch * height * 4);
                Err(SurfaceError::SizeMismatch)
            },
        }
    }

    /// Writes `value` at `pixel_offset`.
    pub fn put_pixel(&mut self, pixel_offset: usize, value: u32)
        requires
            old(self).wf(),
            old(self)@.in_range(pixel_offset as int),
        ensures
            final(self).wf(),
            final(self)@ == old(self)@.store(pixel_offset as int, value),
    {
        assert(value & 0xff < 256 && (value >> 8) & 0xff < 256 && (value >> 16) & 0xff < 256 && (
        value >> 24) & 0xff < 256) by (bit_vector);
        self.memory[pixel_offset] = (value & 0xff) as u8;
        self.memory[pixel_offset + 1] = ((value >> 8) & 0xff) as u8;
        self.memory[pixel_offset + 2] = ((value >> 16) & 0xff) as u8;
        self.memory[pixel_offset + 3] = ((value >> 24) & 0xff) as u8;
        assert(self@.bytes =~= old(self)@.store(pixel_offset as int, value).bytes);
    }

    /// Reads the value at `pixel_offset`.
    pub fn get_pixel(&self, pixel_offset: usize) -> (value: u32)
        requires
            self.wf(),
            self@.in_range(pixel_offset as int),
        ensures
            value == self@.load(pixel_offset as int),
    {
        let b0: u8 = self.memory[pixel_offset];
        let b1: u8 = self.memory[pixel_offset + 1];
        let b2: u8 = self.memory[pixel_offset + 2];
        let b3: u8 = self.memory[pixel_offset + 3];
        (b0 as u32) | ((b1 as u32) << 8) | ((b2 as u32) << 16) | ((b3 as u32) << 24)
    }

    /// Writes the value 0 at `pixel_offset`.
    pub fn clear_pixel(&mut self, pixel_offset: usize)
        requires
            old(self).wf(),
            old(self)@.in_range(pixel_offset as int),
        ensures
            final(self).wf(),
            final(self)@ == old(self)@.store(pixel_offset as int, 0),
    {
        self.put_pixel(pixel_offset, 0x00000000)
    }

    /// Clears `range` consecutive pixel cells, the first at `pixel_start`.
    pub fn clear_range(&mut self, pixel_start: usize, range: usize)
        requires
            old(self).wf(),
            range == 0 || old(self)@.cells_in_range(pixel_start as int, range as int),
        ensures
            final(self).wf(),
            final(self)@ == old(self)@.clear_cells(pixel_start as int, range as int),
    {
        let ghost before = self@;
        assert(self@.bytes =~= before.clear_cells(pixel_start as int, 0).bytes);
        for index in 0..range
            invariant
                self.wf(),
                range == 0 || before.cells_in_range(pixel_start as int, range as int),
                self@ == before.clear_cells(pixel_start as int, index as int),
        {
            self.clear_pixel(pixel_start + index * self.bytes_per_pixel());
            proof {
                lemma_pixel_zero();
                assert(self@.bytes =~= before.clear_cells(
                    pixel_start as int,
                    index as int + 1,
                ).bytes);
            }
        }
    }

    /// Shifts `range` pixel cells, the first at `pixel_start`, back by `offset`
    /// cells: each takes the content of the cell `offset` cells further on,
    /// lowest first. Then clears the `offset` cells behind them. With both
    /// counts 0 it touches no cell, wherever `pixel_start` lies.
    pub fn move_range(&mut self, pixel_start: usize, range: usize, offset: usize)
        requires
            old(self).wf(),
            (range == 0 && offset == 0) || old(self)@.cells_in_range(
                pixel_start as int,
                range as int + offset as int,
            ),
        ensures
            final(self).wf(),
            final(self)@ == old(self)@.shift_cells(
                pixel_start as int,
                range as int,
                offset as int,
            ),
    {
        let ghost before = self@;
        assert(self@.bytes =~= before.pull_cells(pixel_start as int, 0, offset as int).bytes);
        for index in 0..range
            invariant
                self.wf(),
                (range == 0 && offset == 0) || before.cells_in_range(
                    pixel_start as int,
                    range as int + offset as int,
                ),
                self@ == before.pull_cells(pixel_start as int, index as int, offset as int),
                self@.bytes.len() == before.bytes.len(),
        {
            let ghost stage = self@;
            let source: usize = pixel_start + ((index + offset) * self.bytes_per_pixel());
            let pixel_value: u32 = self.get_pixel(source);
            self.put_pixel(pixel_start + (index * self.bytes_per_pixel()), pixel_value);
            proof {
                lemma_pixel_bytes_of_value(
                    stage.bytes[source as int],
                    stage.bytes[source as int + 1],
                    stage.bytes[source as int + 2],
                    stage.bytes[source as int + 3],
                );
                assert(self@.bytes =~= before.pull_cells(
                    pixel_start as int,
                    index as int + 1,
                    offset as int,
                ).bytes);
            }
        }
        assert(self@.bytes.len() == before.bytes.len());
        assert((range == 0 && offset == 0) || pixel_start + 4 * (range + offset)
            <= self@.bytes.len());
        self.clear_range(pixel_start + (range * self.bytes_per_pixel()), offset);
        assert(self@.bytes =~= before.shift_cells(
            pixel_start as int,
            range as int,
            offset as int,
        ).bytes);
    }

    /// Clears every pixel cell of the surface, row padding included.
    pub fn clear_screen(&mut self)
        requires
            old(self).wf(),
        ensures
            final(self).wf(),
            final(self)@ == old(self)@.cleared(),
    {
        let ghost before = self@;
        assert(before.pitch * before.height == before.height * before.pitch)
            by (nonlinear_arith);
        let cells: u64 = self.height * self.pitch;
        assert(self@.bytes =~= before.clear_cells(0, 0).bytes);
        for i in 0..cells
            invariant
                cells == before.pitch * before.height,
                self.wf(),
                self@ == before.clear_cells(0, i as int),
        {
            self.put_pixel((i as usize * self.bytes_per_pixel()), 0x00000000);
            proof {
                lemma_pixel_zero();
                assert(self@.bytes =~= before.clear_cells(0, i as int + 1).bytes);
            }
        }
        assert(self@.bytes =~= before.cleared().bytes);
    }

    /// Addressable units per row.
    pub fn pitch(&self) -> (pitch: u64)
        ensures
            pitch == self@.pitch,
    {
        self.pitch
    }

    /// Visible pixels per row.
    pub fn width(&self) -> (width: u64)
        ensures
            width == self@.width,
    {
        self.width
    }

    /// Rows.
    pub fn height(&self) -> (height: u64)
        ensures
            height == self@.height,
    {
        self.height
    }

    /// Bytes per pixel.
    pub fn bytes_per_pixel(&self) -> (bytes: usize)
        requires
            self.wf(),
        ensures
            bytes == BYTES_PER_PIXEL,
    {
        self.bpp as usize / 8
    }

    /// Display memory as it stands.
    pub fn memory(&self) -> (bytes: &Vec<u8>)
        ensures
            bytes@ == self@.bytes,
    {
        &self.memory
    }
}

} // verus!
