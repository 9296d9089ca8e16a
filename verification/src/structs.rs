//! Plain geometry and styling values: points, bounds, layout constraints,
//! paddings, colors and brushes.

use vstd::prelude::*;

verus! {

/// A position, used both for local origins and accumulated global positions.
#[derive(Clone, Copy, PartialEq, Eq, Structural, Debug)]
pub struct Point {
    pub x: i32,
    pub y: i32,
}

impl Point {
    pub fn new(x: i32, y: i32) -> (r: Point)
        ensures
            r.x == x,
            r.y == y,
    {
        Point { x, y }
    }
}

impl Default for Point {
    fn default() -> (r: Point)
        ensures
            r.x == 0,
            r.y == 0,
    {
        Point { x: 0, y: 0 }
    }
}

/// A local position plus a size; the per-entity rectangle mutated by layout
/// (size) and read by the render pass (origin).
#[derive(Clone, Copy, PartialEq, Eq, Structural, Debug)]
pub struct Bounds {
    pub x: i32,
    pub y: i32,
    pub width: u32,
    pub height: u32,
}

/// The historical name of the bounds rectangle.
pub type Rect = Bounds;

impl Bounds {
    pub fn new(x: i32, y: i32, width: u32, height: u32) -> (r: Bounds)
        ensures
            r == (Bounds { x, y, width, height }),
    {
        Bounds { x, y, width, height }
    }
}

impl Default for Bounds {
    fn default() -> (r: Bounds)
        ensures
            r == (Bounds { x: 0, y: 0, width: 0, height: 0 }),
    {
        Bounds { x: 0, y: 0, width: 0, height: 0 }
    }
}

/// Clamps a possibly negative value to the unsigned range; the layout
/// protocol never lets a constraint go negative.
pub open spec fn clamp_neg(v: int) -> u32 {
    if v < 0 {
        0u32
    } else if v > u32::MAX {
        u32::MAX
    } else {
        v as u32
    }
}

/// Clamps `v` into the inclusive range `[lo, hi]`; when `lo > hi` the lower
/// bound wins, as a fixed size pinned by the theme must.
pub open spec fn clamp_range(v: u32, lo: u32, hi: u32) -> u32 {
    if v < lo {
        lo
    } else if v > hi {
        hi
    } else {
        v
    }
}

/// A min/max width and height box handed top-down during one layout pass,
/// with an optional preferred (fixed) width and height; zero means unset.
#[derive(Clone, Copy, PartialEq, Eq, Structural, Debug)]
pub struct Constraint {
    pub min_width: u32,
    pub min_height: u32,
    pub max_width: u32,
    pub max_height: u32,
    pub width: u32,
    pub height: u32,
}

impl Default for Constraint {
    fn default() -> (r: Constraint)
        ensures
            r == (Constraint {
                min_width: 0u32,
                min_height: 0u32,
                max_width: 0u32,
                max_height: 0u32,
                width: 0u32,
                height: 0u32,
            }),
    {
        Constraint {
            min_width: 0,
            min_height: 0,
            max_width: 0,
            max_height: 0,
            width: 0,
            height: 0,
        }
    }
}

impl Constraint {
    /// Sets the minimum width, clamping a negative request to zero.
    pub fn with_min_width(self, v: i32) -> (r: Constraint)
        ensures
            r == (Constraint { min_width: clamp_neg(v as int), ..self }),
    {
        Constraint { min_width: if v < 0 { 0 } else { v as u32 }, ..self }
    }

    /// Sets the minimum height, clamping a negative request to zero.
    pub fn with_min_height(self, v: i32) -> (r: Constraint)
        ensures
            r == (Constraint { min_height: clamp_neg(v as int), ..self }),
    {
        Constraint { min_height: if v < 0 { 0 } else { v as u32 }, ..self }
    }

    /// Sets the maximum width, clamping a negative request to zero.
    pub fn with_max_width(self, v: i32) -> (r: Constraint)
        ensures
            r == (Constraint { max_width: clamp_neg(v as int), ..self }),
    {
        Constraint { max_width: if v < 0 { 0 } else { v as u32 }, ..self }
    }

    /// Sets the maximum height, clamping a negative request to zero.
    pub fn with_max_height(self, v: i32) -> (r: Constraint)
        ensures
            r == (Constraint { max_height: clamp_neg(v as int), ..self }),
    {
        Constraint { max_height: if v < 0 { 0 } else { v as u32 }, ..self }
    }

    /// Sets the preferred width, clamping a negative request to zero.
    pub fn with_width(self, v: i32) -> (r: Constraint)
        ensures
            r == (Constraint { width: clamp_neg(v as int), ..self }),
    {
        Constraint { width: if v < 0 { 0 } else { v as u32 }, ..self }
    }

    /// Sets the preferred height, clamping a negative request to zero.
    pub fn with_height(self, v: i32) -> (r: Constraint)
        ensures
            r == (Constraint { height: clamp_neg(v as int), ..self }),
    {
        Constraint { height: if v < 0 { 0 } else { v as u32 }, ..self }
    }

    /// What `perform` reports for a requested size: each side clamped into
    /// the constraint's range, the minimum winning over the maximum.
    pub open spec fn spec_perform(self, size: (u32, u32)) -> (u32, u32) {
        (clamp_range(size.0, self.min_width, self.max_width),
        clamp_range(size.1, self.min_height, self.max_height))
    }

    /// Clamps a size reported by a layout strategy into this constraint.
    pub fn perform(&self, size: (u32, u32)) -> (r: (u32, u32))
        ensures
            r == self.spec_perform(size),
    {
        let w = if size.0 < self.min_width {
            self.min_width
        } else if size.0 > self.max_width {
            self.max_width
        } else {
            size.0
        };
        let h = if size.1 < self.min_height {
            self.min_height
        } else if size.1 > self.max_height {
            self.max_height
        } else {
            size.1
        };
        (w, h)
    }
}

/// An inner inset; a single-child decorator subtracts it from the incoming
/// constraint and adds it back onto the child's reported size.
#[derive(Clone, Copy, PartialEq, Eq, Structural, Debug)]
pub struct Padding {
    pub left: u32,
    pub top: u32,
    pub right: u32,
    pub bottom: u32,
}

impl Default for Padding {
    fn default() -> (r: Padding)
        ensures
            r == (Padding { left: 0u32, top: 0u32, right: 0u32, bottom: 0u32 }),
    {
        Padding { left: 0, top: 0, right: 0, bottom: 0 }
    }
}

impl Padding {
    /// Sets all four sides to the same inset.
    pub fn with(self, v: u32) -> (r: Padding)
        ensures
            r == (Padding { left: v, top: v, right: v, bottom: v }),
    {
        Padding { left: v, top: v, right: v, bottom: v }
    }

    pub fn with_left(self, v: u32) -> (r: Padding)
        ensures
            r == (Padding { left: v, ..self }),
    {
        Padding { left: v, ..self }
    }

    pub fn with_top(self, v: u32) -> (r: Padding)
        ensures
            r == (Padding { top: v, ..self }),
    {
        Padding { top: v, ..self }
    }

    pub fn with_right(self, v: u32) -> (r: Padding)
        ensures
            r == (Padding { right: v, ..self }),
    {
        Padding { right: v, ..self }
    }

    pub fn with_bottom(self, v: u32) -> (r: Padding)
        ensures
            r == (Padding { bottom: v, ..self }),
    {
        Padding { bottom: v, ..self }
    }

    /// The four insets as one record; the historical accessor of a spacer.
    pub fn thickness(&self) -> (r: Padding)
        ensures
            r == *self,
    {
        *self
    }

    /// Replaces all four insets at once.
    pub fn set_thickness(&mut self, t: Padding)
        ensures
            *final(self) == t,
    {
        *self = t;
    }
}

/// A packed color; the high byte is alpha, then red, green and blue.
#[derive(Clone, Copy, PartialEq, Eq, Structural, Debug)]
pub struct Color {
    pub data: u32,
}

impl Color {
    pub fn rgb(r: u8, g: u8, b: u8) -> (c: Color)
        ensures
            c.data == 0xFF00_0000u32 | ((r as u32) << 16u32) | ((g as u32) << 8u32) | (b as u32),
    {
        Color {
            data: 0xFF00_0000u32 | ((r as u32) << 16u32) | ((g as u32) << 8u32) | (b as u32),
        }
    }
}

/// The fill a themed property resolves to; the default brush is fully
/// transparent.
#[derive(Clone, Copy, PartialEq, Eq, Structural, Debug)]
pub enum Brush {
    SolidColor(Color),
}

impl Brush {
    /// The color this brush paints with.
    pub fn color(&self) -> (c: Color)
        ensures
            self == Brush::SolidColor(c),
    {
        match self {
            Brush::SolidColor(c) => *c,
        }
    }
}

impl Default for Brush {
    fn default() -> (r: Brush)
        ensures
            r == Brush::SolidColor(Color { data: 0u32 }),
    {
        Brush::SolidColor(Color { data: 0 })
    }
}

} // verus!
