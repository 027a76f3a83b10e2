//! Colours, and the colour that one sample of a pixel contributes.

use vstd::prelude::*;

verus! {

/// An 8-bit RGB triple.
#[derive(Clone, Copy, Debug, PartialEq, Eq, Structural)]
pub struct Rgb {
    pub r: u8,
    pub g: u8,
    pub b: u8,
}

impl Rgb {
    /// Pure white, the colour of a point inside the set.
    pub open spec fn spec_white() -> Rgb {
        Rgb { r: 255, g: 255, b: 255 }
    }

    /// Pure white, the colour of a point inside the set.
    #[verifier::when_used_as_spec(spec_white)]
    pub fn white() -> (c: Rgb)
        ensures
            c == Rgb::spec_white(),
            c.r == 255 && c.g == 255 && c.b == 255,
    {
        Rgb { r: 255, g: 255, b: 255 }
    }
}

/// What the escape-time iteration found for one sampled point: either the
/// point escaped, and its escape speed was already turned into a hue colour,
/// or it stayed bounded for the whole iteration budget.
#[derive(Clone, Copy, Debug, PartialEq, Eq, Structural)]
pub enum Sample {
    /// The point escaped; the colour is that of its escape value taken as hue.
    Escaped(Rgb),
    /// The point did not escape: it counts as a member of the set.
    Inside,
}

impl Sample {
    /// The colour a sample is drawn in: its hue colour if it escaped, white
    /// if it did not.
    pub open spec fn spec_colour(self) -> Rgb {
        match self {
            Sample::Escaped(c) => c,
            Sample::Inside => Rgb::spec_white(),
        }
    }

    /// The colour a sample is drawn in: its hue colour if it escaped, white
    /// if it did not, whatever else is rendered around it.
    #[verifier::when_used_as_spec(spec_colour)]
    pub fn colour(self) -> (c: Rgb)
        ensures
            c == self.spec_colour(),
            self is Inside ==> c == (Rgb { r: 255, g: 255, b: 255 }),
            self matches Sample::Escaped(hue) ==> c == hue,
    {
        match self {
            Sample::Escaped(c) => c,
            Sample::Inside => Rgb::white(),
        }
    }
}

} // verus!
