//! The bitmap font: a table of glyphs, each a run of row bytes, one bit per
//! pixel and the leftmost pixel in the most significant bit.

use vstd::prelude::*;

verus! {

/// Index of the first glyph's first row in the font data; what lies before
/// it is the font's header.
pub const GLYPH_TABLE_START: usize = 0x20;

/// Distance in the font data from one glyph's first row to the next glyph's.
pub const GLYPH_STRIDE: usize = 0x10;

/// The one glyph width, in pixels, that the console can draw.
pub const GLYPH_WIDTH: u32 = 8;

/// Number of character codes that fit in one byte. A font has a glyph for
/// each of them.
pub const SINGLE_BYTE_CODES: u32 = 256;

/// Why a font could not be made.
#[derive(Debug, Clone, Copy, PartialEq, Eq, Structural)]
pub enum FontError {
    /// The glyphs are not 8 pixels wide.
    UnsupportedWidth,
    /// The data ends before the last row of the glyph of code 255.
    TableTooShort,
}

/// A font as a value: the height of its glyphs and its data.
pub struct Glyphs {
    /// Rows per glyph.
    pub height: nat,
    /// The font data, header included.
    pub data: Seq<u8>,
}

impl Glyphs {
    /// Index in the data of row `row` of the glyph of `code`.
    pub open spec fn row_index(code: int, row: int) -> int {
        0x20 + code * 0x10 + row
    }

    /// The data holds every row of the glyph of `code`.
    pub open spec fn covers(self, code: int) -> bool {
        0 <= code && Self::row_index(code, self.height as int) <= self.data.len()
    }

    /// The bits of row `row` of the glyph of `code`.
    pub open spec fn row_bits(self, code: int, row: int) -> u8 {
        self.data[Self::row_index(code, row)]
    }

    /// The data holds a glyph for every code that fits in one byte.
    pub open spec fn wf(self) -> bool {
        self.covers(255)
    }
}

/// Index in the font data of the header field that declares the rows per glyph.
pub const HEADER_HEIGHT_AT: usize = 24;

/// Index in the font data of the header field that declares the pixels per
/// glyph row.
pub const HEADER_WIDTH_AT: usize = 28;

/// The header field of four bytes, least significant first, that starts at
/// index `at` of the font data.
pub open spec fn header_field(data: Seq<u8>, at: int) -> u32 {
    (data[at] as u32) | ((data[at + 1] as u32) << 8) | ((data[at + 2] as u32) << 16) | ((data[at
        + 3] as u32) << 24)
}

/// A bitmap font with glyphs 8 pixels wide.
pub struct PsfFont {
    width: u32,
    height: u32,
    data: Vec<u8>,
}

impl View for PsfFont {
    type V = Glyphs;

    closed spec fn view(&self) -> Glyphs {
        Glyphs { height: self.height as nat, data: self.data@ }
    }
}

impl PsfFont {
    /// Pixels per glyph row.
    pub closed spec fn spec_width(&self) -> nat {
        self.width as nat
    }

    /// The glyphs are 8 pixels wide and the data holds one for every code
    /// that fits in one byte.
    pub open spec fn wf(&self) -> bool {
        self.spec_width() == 8 && self@.wf() && self@.height <= u32::MAX
    }

    /// Makes a font from the glyph size that its header declares and its data.
    pub fn new(width: u32, height: u32, data: Vec<u8>) -> (made: Result<PsfFont, FontError>)
        ensures
            match made {
                Ok(font) => {
                    &&& width == 8
                    &&& font.wf()
                    &&& font@ == (Glyphs { height: height as nat, data: data@ })
                },
                Err(FontError::UnsupportedWidth) => width != 8,
                Err(FontError::TableTooShort) => {
                    &&& width == 8
                    &&& !(Glyphs { height: height as nat, data: data@ }).wf()
                },
            },
    {
        if width != GLYPH_WIDTH {
            return Err(FontError::UnsupportedWidth);
        }
        let last_code: u32 = SINGLE_BYTE_CODES - 1;
        let needed: u64 = Self::row_index(last_code, height as u64);
        if (data.len() as u64) < needed {
            return Err(FontError::TableTooShort);
        }
        Ok(PsfFont { width, height, data })
    }

    /// Makes a font from its data, with the glyph size that the header in
    /// the data declares.
    pub fn from_asset(data: Vec<u8>) -> (made: Result<PsfFont, FontError>)
        ensures
            match made {
                Ok(font) => {
                    &&& data@.len() >= 0x20
                    &&& header_field(data@, 28) == 8
                    &&& font.wf()
                    &&& font@ == (Glyphs {
                        height: header_field(data@, 24) as nat,
                        data: data@,
                    })
                },
                Err(FontError::UnsupportedWidth) => {
                    &&& data@.len() >= 0x20
                    &&& header_field(data@, 28) != 8
                },
                Err(FontError::TableTooShort) => {
                    ||| data@.len() < 0x20
                    ||| {
                        &&& header_field(data@, 28) == 8
                        &&& !(Glyphs {
                            height: header_field(data@, 24) as nat,
                            data: data@,
                        }).wf()
                    }
                },
            },
    {
        if data.len() < GLYPH_TABLE_START {
            return Err(FontError::TableTooShort);
        }
        let height: u32 = Self::read_field(&data, HEADER_HEIGHT_AT);
        let width: u32 = Self::read_field(&data, HEADER_WIDTH_AT);
        Self::new(width, height, data)
    }

    /// Reads the header field that starts at index `at` of the font data.
    fn read_field(data: &Vec<u8>, at: usize) -> (field: u32)
        requires
            at + 4 <= data@.len(),
        ensures
            field == header_field(data@, at as int),
    {
        assert(data@.len() == data.len());
        (data[at] as u32) | ((data[at + 1] as u32) << 8) | ((data[at + 2] as u32) << 16) | ((data[at
            + 3] as u32) << 24)
    }

    /// Index in the font data of row `row` of the glyph of `code`.
    fn row_index(code: u32, row: u64) -> (index: u64)
        requires
            row <= u32::MAX,
        ensures
            index == Glyphs::row_index(code as int, row as int),
    {
        let stride: u64 = GLYPH_STRIDE as u64;
        assert(code * stride == code * 0x10) by (nonlinear_arith)
            requires
                stride == 0x10,
        ;
        GLYPH_TABLE_START as u64 + code as u64 * stride + row
    }

    /// Pixels per glyph row.
    pub fn width(&self) -> (width: u32)
        ensures
            width == self.spec_width(),
    {
        self.width
    }

    /// Rows per glyph.
    pub fn height(&self) -> (height: u32)
        ensures
            height == self@.height,
    {
        self.height
    }

    /// Whether the data holds every row of the glyph of `code`.
    pub fn has_glyph(&self, code: u32) -> (held: bool)
        ensures
            held == self@.covers(code as int),
    {
        Self::row_index(code, self.height as u64) <= self.data.len() as u64
    }

    /// The bits of row `row` of the glyph of `code`.
    pub fn glyph_row(&self, code: u32, row: usize) -> (bits: u8)
        requires
            self@.covers(code as int),
            row < self@.height,
        ensures
            bits == self@.row_bits(code as int, row as int),
    {
        assert(self.data@.len() == self.data.len());
        self.data[Self::row_index(code, row as u64) as usize]
    }
}

} // verus!
