//! Materials as the traversal engine consumes them: packed colors,
//! fixed-point reflectiveness, and refraction indices carried as opaque
//! words.

use vstd::prelude::*;

verus! {

/// A color with one byte per channel.
#[derive(Clone, Copy, Debug)]
pub struct Color {
    pub red: u8,
    pub green: u8,
    pub blue: u8,
}

/// The 24-bit packing of a color: red in the high byte, then green, then
/// blue.
pub open spec fn packed_color(c: Color) -> int {
    c.red * 0x10000 + c.green * 0x100 + c.blue
}

/// Pack a color into the low 24 bits of a word.
pub fn convert_color_to_u32(color: &Color) -> (r: u32)
    ensures
        r as int == packed_color(*color),
        r < 0x1000000,
{
    let red: u32 = color.red as u32;
    let green: u32 = color.green as u32;
    let blue: u32 = color.blue as u32;
    proof {
        assert((red << 16u32) == red * 0x10000 && (red << 16u32) < 0x1000000) by (bit_vector)
            requires
                red < 256u32,
        ;
        assert((green << 8u32) == green * 0x100 && (green << 8u32) < 0x10000) by (bit_vector)
            requires
                green < 256u32,
        ;
    }
    (red << 16u32) + (green << 8u32) + blue
}

/// A material: parallel per-sub-material arrays of color, reflectiveness
/// (0–255 fixed point) and refraction index (an opaque word this core only
/// copies).
pub struct Material {
    pub colors: Vec<Color>,
    pub reflectiveness: Vec<u8>,
    pub refractive_indices: Vec<u32>,
}

/// The three per-sub-material arrays line up.
pub open spec fn material_wf(m: &Material) -> bool {
    &&& m.colors@.len() == m.reflectiveness@.len()
    &&& m.colors@.len() == m.refractive_indices@.len()
}

} // verus!
