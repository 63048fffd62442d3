//! The lattice of the three-dimensional gamut table.
//!
//! The table has a texel for every hue, intensity and chroma of a lattice. Hues are the outermost
//! dimension and chromas the innermost, which is the order that shaders look texels up in.
use vstd::prelude::*;

verus! {

/// Lattice points along the intensity axis.
pub const LUT_SIZE_I: usize = 48;

/// Lattice points along the chroma axis.
pub const LUT_SIZE_C: usize = 32;

/// Lattice points along the hue axis.
pub const LUT_SIZE_H: usize = 256;

/// Components of a texel: three colors and one for padding.
pub const LUT_COMPONENTS: usize = 4;

/// How many texels the table has.
pub const LUT_TEXELS: usize = 393_216;

/// A point of the lattice.
#[derive(Debug, Clone, Copy, PartialEq, Eq, Structural)]
pub struct LatticePoint {
    /// Which hue.
    pub hue: usize,
    /// Which intensity.
    pub intensity: usize,
    /// Which chroma.
    pub chroma: usize,
}

impl LatticePoint {
    /// Whether the point belongs to the lattice.
    pub open spec fn in_lattice(self) -> bool {
        &&& self.hue < LUT_SIZE_H
        &&& self.intensity < LUT_SIZE_I
        &&& self.chroma < LUT_SIZE_C
    }

    /// The place of the point's texel in the table.
    pub open spec fn texel(self) -> int {
        (self.hue * 48 + self.intensity) * 32 + self.chroma
    }
}

/// The point that a texel of the table is for.
pub fn lattice_point(texel: usize) -> (point: LatticePoint)
    requires
        texel < LUT_TEXELS,
    ensures
        point.in_lattice(),
        point.texel() == texel,
{
    LatticePoint {
        hue: texel / LUT_SIZE_C / LUT_SIZE_I,
        intensity: texel / LUT_SIZE_C % LUT_SIZE_I,
        chroma: texel % LUT_SIZE_C,
    }
}

/// Every point of the lattice has a texel of its own, and every texel is for a point.
pub proof fn law_points_have_texels_of_their_own(one: LatticePoint, other: LatticePoint)
    requires
        one.in_lattice(),
        other.in_lattice(),
    ensures
        0 <= one.texel() < LUT_TEXELS,
        one.texel() == other.texel() ==> one == other,
        LUT_TEXELS == LUT_SIZE_I * LUT_SIZE_C * LUT_SIZE_H,
{
}

/// The next texel is for the next chroma, and chromas, intensities and hues follow one another in
/// that order.
pub proof fn law_texels_are_ordered_by_hue_intensity_and_chroma(point: LatticePoint)
    requires
        point.in_lattice(),
    ensures
        (LatticePoint { hue: 0, intensity: 0, chroma: 0 }).texel() == 0,
        ({
            let next = LatticePoint { chroma: (point.chroma + 1) as usize, ..point };
            next.in_lattice() ==> next.texel() == point.texel() + 1
        }),
        ({
            let next = LatticePoint { intensity: (point.intensity + 1) as usize, ..point };
            next.in_lattice() ==> next.texel() == point.texel() + LUT_SIZE_C
        }),
        ({
            let next = LatticePoint { hue: (point.hue + 1) as usize, ..point };
            next.in_lattice() ==> next.texel() == point.texel() + LUT_SIZE_C * LUT_SIZE_I
        }),
        LUT_SIZE_H == 256 && LUT_SIZE_I == 48 && LUT_SIZE_C == 32,
{
}

/// The point that a texel is for is found by taking the texels apart: 32 chromas to an intensity, 48
/// intensities to a hue.
pub proof fn law_texels_are_taken_apart(texel: usize, point: LatticePoint)
    requires
        call_ensures(lattice_point, (texel,), point),
        texel < 393_216,
    ensures
        point.chroma == texel % 32,
        point.intensity == (texel / 32) % 48,
        point.hue == texel / 1_536,
{
}

} // verus!
