//! Small value types used throughout the library: a 2D integer vector
//! and a 24-bit RGB color.

use vstd::prelude::*;

verus! {

/// A 2D vector of small signed coordinates, used for positions and
/// kick offsets.
#[derive(Clone, Copy, Debug, PartialEq, Eq, Structural)]
pub struct Vec2 {
    pub x: i8,
    pub y: i8,
}

/// A width-tagged alias for the coordinate vector.
pub type Vec2I8 = Vec2;

/// A 3-component, 24-bit RGB color.
#[derive(Clone, Copy, Debug, PartialEq, Eq, Structural)]
pub struct Color {
    pub r: u8,
    pub g: u8,
    pub b: u8,
}

impl Vec2 {
    /// Creates a new vector from its x and y components.
    pub fn new(x: i8, y: i8) -> (r: Vec2)
        ensures
            r.x == x,
            r.y == y,
    {
        Vec2 { x, y }
    }

    /// Component-wise sum.
    pub fn add(self, rhs: Vec2) -> (r: Vec2)
        requires
            i8::MIN <= self.x + rhs.x <= i8::MAX,
            i8::MIN <= self.y + rhs.y <= i8::MAX,
        ensures
            r.x == self.x + rhs.x,
            r.y == self.y + rhs.y,
    {
        Vec2 { x: self.x + rhs.x, y: self.y + rhs.y }
    }

    /// Component-wise difference.
    pub fn sub(self, rhs: Vec2) -> (r: Vec2)
        requires
            i8::MIN <= self.x - rhs.x <= i8::MAX,
            i8::MIN <= self.y - rhs.y <= i8::MAX,
        ensures
            r.x == self.x - rhs.x,
            r.y == self.y - rhs.y,
    {
        Vec2 { x: self.x - rhs.x, y: self.y - rhs.y }
    }

    /// Component-wise negation.
    pub fn neg(self) -> (r: Vec2)
        requires
            self.x != i8::MIN,
            self.y != i8::MIN,
        ensures
            r.x == -self.x,
            r.y == -self.y,
    {
        Vec2 { x: -self.x, y: -self.y }
    }
}

impl Default for Vec2 {
    /// The zero vector.
    fn default() -> (r: Vec2)
        ensures
            r.x == 0,
            r.y == 0,
    {
        Vec2 { x: 0, y: 0 }
    }
}

impl Color {
    /// Pure black, the "empty cell" sentinel.
    pub fn black() -> (r: Color)
        ensures
            r == (Color { r: 0, g: 0, b: 0 }),
    {
        Color { r: 0, g: 0, b: 0 }
    }

    /// Pure white, the "out of bounds" sentinel returned by tile
    /// queries; it is never stored in the playfield.
    pub fn white() -> (r: Color)
        ensures
            r == (Color { r: 0xff, g: 0xff, b: 0xff }),
    {
        Color { r: 0xff, g: 0xff, b: 0xff }
    }

    /// Creates a new color from its 8-bit R, G, and B components.
    pub fn new(r: u8, g: u8, b: u8) -> (c: Color)
        ensures
            c.r == r,
            c.g == g,
            c.b == b,
    {
        Color { r, g, b }
    }

    /// Whether this color is pure black, i.e. the empty-cell sentinel.
    pub open spec fn spec_is_black(&self) -> bool {
        self.r == 0 && self.g == 0 && self.b == 0
    }

    /// Determines if the color is pure black.
    #[verifier::when_used_as_spec(spec_is_black)]
    pub fn is_black(&self) -> (r: bool)
        ensures
            r == self.spec_is_black(),
    {
        self.r == 0 && self.g == 0 && self.b == 0
    }
}

impl Default for Color {
    /// Black, the empty-cell sentinel.
    fn default() -> (r: Color)
        ensures
            r == (Color { r: 0, g: 0, b: 0 }),
    {
        Color { r: 0, g: 0, b: 0 }
    }
}

} // verus!
