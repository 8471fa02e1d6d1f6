//! Palettes (PALETTE.DAT): 256 colors of three 6-bit channels, red, green and
//! blue, followed by shading and translucency tables that are not read here.
use crate::error::FormatError;
use vstd::prelude::*;

verus! {

/// The smallest palette file accepted: the 768 color bytes and the 16-bit
/// count of shading tables that follows them.
pub const PALETTE_MIN_SIZE: usize = 770;

/// A 6-bit channel value scaled to 8 bits (times four, kept to 8 bits).
pub open spec fn channel(b: u8) -> u32 {
    ((b as int * 4) % 256) as u32
}

/// An opaque color packed as 0xAARRGGBB.
pub open spec fn pack_color(r: u8, g: u8, b: u8) -> u32 {
    (0xff00_0000 + channel(r) * 0x1_0000 + channel(g) * 0x100 + channel(b)) as u32
}

/// The 256 packed colors that the palette file `s` starts with.
pub open spec fn palette_colors(s: Seq<u8>) -> Seq<u32> {
    Seq::new(256, |i: int| pack_color(s[3 * i], s[3 * i + 1], s[3 * i + 2]))
}

/// The 256 colors of a palette, ready for drawing.
#[derive(Debug)]
pub struct Palette {
    colors: Vec<u32>,
}

impl View for Palette {
    type V = Seq<u32>;

    closed spec fn view(&self) -> Seq<u32> {
        self.colors@
    }
}

impl Palette {
    #[verifier::type_invariant]
    spec fn has_all_colors(&self) -> bool {
        self.colors@.len() == 256
    }

    /// Decodes the palette at the start of a PALETTE.DAT file.
    pub fn new(data: &[u8]) -> (r: Result<Palette, FormatError>)
        ensures
            match r {
                Ok(p) => data@.len() >= PALETTE_MIN_SIZE && p@ == palette_colors(data@),
                Err(e) => data@.len() < PALETTE_MIN_SIZE && e == FormatError::PaletteTooSmall,
            },
    {
        if data.len() < PALETTE_MIN_SIZE {
            return Err(FormatError::PaletteTooSmall);
        }
        let mut colors: Vec<u32> = Vec::new();
        let mut i: usize = 0;
        while i < 256
            invariant
                data@.len() >= PALETTE_MIN_SIZE,
                i <= 256,
                colors@.len() == i,
                forall|j: int| 0 <= j < i ==> colors@[j] == palette_colors(data@)[j],
            decreases 256 - i,
        {
            let r = (data[3 * i] as u32 * 4) % 256;
            let g = (data[3 * i + 1] as u32 * 4) % 256;
            let b = (data[3 * i + 2] as u32 * 4) % 256;
            colors.push(0xff00_0000 + r * 0x1_0000 + g * 0x100 + b);
            i = i + 1;
        }
        Ok(Palette { colors })
    }

    /// The 256 packed colors, by palette index.
    pub fn colors(&self) -> (r: &[u32])
        ensures
            r@ == self@,
            r@.len() == 256,
    {
        proof {
            use_type_invariant(self);
        }
        self.colors.as_slice()
    }
}

} // verus!
