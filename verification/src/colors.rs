use vstd::prelude::*;

verus! {

/// A solid color, as the text widgets carry it.
#[derive(Clone, Copy, Debug, PartialEq, Eq, Structural)]
pub enum Color {
    Rgb(u8, u8, u8),
    Rgba(u8, u8, u8, u8),
}

/// The light neutral gray used as a resting background.
pub fn neutral100() -> (r: Color)
    ensures
        r == (Color::Rgb(245, 245, 245)),
{
    Color::Rgb(245, 245, 245)
}

/// The slightly darker neutral gray used as a focused background.
pub fn neutral200() -> (r: Color)
    ensures
        r == (Color::Rgb(229, 229, 229)),
{
    Color::Rgb(229, 229, 229)
}

/// A color with an alpha channel, as the widget tree stores it.
#[derive(Clone, Copy, Debug, PartialEq, Eq, Structural)]
pub struct Rgba {
    pub r: u8,
    pub g: u8,
    pub b: u8,
    pub a: u8,
}

impl Rgba {
    /// Fully transparent, the resting fill of containers.
    pub fn transparent() -> (r: Rgba)
        ensures
            r == (Rgba { r: 0, g: 0, b: 0, a: 0 }),
    {
        Rgba { r: 0, g: 0, b: 0, a: 0 }
    }
}

} // verus!
