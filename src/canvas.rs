//! The value types of the drawing contract: styles, modes, colors and
//! device-space rectangles.

use vstd::prelude::*;

verus! {

/// Whether a path is filled or stroked.
#[derive(Debug, Copy, Clone, PartialEq, Eq, Hash, Structural)]
pub enum PaintStyle {
    Fill,
    Stroke,
}

/// The rule that decides which points lie inside a path.
#[derive(Debug, Copy, Clone, PartialEq, Eq, Hash, Structural)]
pub enum FillType {
    Winding,
    EvenOdd,
}

#[derive(Debug, Copy, Clone, PartialEq, Eq, Hash, Structural)]
pub enum StrokeCap {
    Butt,
    Round,
    Square,
}

#[derive(Debug, Copy, Clone, PartialEq, Eq, Hash, Structural)]
pub enum StrokeJoin {
    Miter,
    Round,
    Bevel,
}

/// How a gradient or a pattern is sampled outside its defined extent.
#[derive(Debug, Copy, Clone, PartialEq, Eq, Hash, Structural)]
pub enum TileMode {
    Clamp,
    Repeat,
    Mirror,
}

#[derive(Debug, Copy, Clone, PartialEq, Eq, Hash, Structural)]
pub enum BlendMode {
    Clear,
    SourceOver,
    DestinationOver,
    SourceIn,
    DestinationIn,
    SourceOut,
    DestinationOut,
    SourceAtop,
    Xor,
    Multiply,
    Screen,
    Darken,
    Lighten,
}

/// Resampling quality used when one surface is drawn onto another.
#[derive(Debug, Copy, Clone, PartialEq, Eq, Hash, Structural)]
pub enum FilterQuality {
    Nearest,
    Low,
    Medium,
    High,
}

/// An unpremultiplied color, stored as alpha, red, green, blue.
#[derive(Debug, Copy, Clone, PartialEq, Eq, Hash, Structural)]
pub struct Color(pub u8, pub u8, pub u8, pub u8);

/// The packed `0xAARRGGBB` value of a color.
pub open spec fn argb_value(a: u8, r: u8, g: u8, b: u8) -> int {
    a as int * 0x1000000 + r as int * 0x10000 + g as int * 0x100 + b as int
}

impl Color {
    pub fn new(a: u8, r: u8, g: u8, b: u8) -> (c: Color)
        ensures
            c == Color(a, r, g, b),
    {
        Color(a, r, g, b)
    }

    /// Packs the color as `0xAARRGGBB`.
    pub fn to_u32(&self) -> (v: u32)
        ensures
            v as int == argb_value(self.0, self.1, self.2, self.3),
    {
        let a = self.0 as u32;
        let r = self.1 as u32;
        let g = self.2 as u32;
        let b = self.3 as u32;
        let v = a << 24u32 | r << 16u32 | g << 8u32 | b;
        assert(a < 256 && r < 256 && g < 256 && b < 256 ==> a << 24u32 | r << 16u32 | g << 8u32 | b
            == a * 0x1000000 + r * 0x10000 + g * 0x100 + b) by (bit_vector);
        v
    }
}

/// A device-space rectangle on the pixel grid: the pixels `(x, y)` with
/// `left <= x < right` and `top <= y < bottom`. It is empty when
/// `right <= left` or `bottom <= top`.
#[derive(Debug, Copy, Clone, PartialEq, Eq, Hash, Structural)]
pub struct IRect {
    pub left: i32,
    pub top: i32,
    pub right: i32,
    pub bottom: i32,
}

impl IRect {
    pub open spec fn contains(self, x: int, y: int) -> bool {
        self.left <= x < self.right && self.top <= y < self.bottom
    }

    pub open spec fn spec_is_empty(self) -> bool {
        self.right <= self.left || self.bottom <= self.top
    }

    pub open spec fn spec_intersect(self, o: IRect) -> IRect {
        IRect {
            left: if self.left < o.left { o.left } else { self.left },
            top: if self.top < o.top { o.top } else { self.top },
            right: if self.right < o.right { self.right } else { o.right },
            bottom: if self.bottom < o.bottom { self.bottom } else { o.bottom },
        }
    }

    pub fn is_empty(&self) -> (r: bool)
        ensures
            r == self.spec_is_empty(),
            r <==> (forall|x: int, y: int| !self.contains(x, y)),
    {
        if self.right <= self.left || self.bottom <= self.top {
            true
        } else {
            assert(self.contains(self.left as int, self.top as int));
            false
        }
    }

    /// The rectangle of the pixels that lie in both rectangles.
    pub fn intersect(&self, o: &IRect) -> (r: IRect)
        ensures
            r == self.spec_intersect(*o),
            forall|x: int, y: int| r.contains(x, y) <==> (self.contains(x, y) && o.contains(x, y)),
    {
        IRect {
            left: if self.left < o.left { o.left } else { self.left },
            top: if self.top < o.top { o.top } else { self.top },
            right: if self.right < o.right { self.right } else { o.right },
            bottom: if self.bottom < o.bottom { self.bottom } else { o.bottom },
        }
    }
}

/// Clipping to `a` and then to `b` leaves the same rectangle as clipping to
/// `b` and then to `a`.
pub proof fn lemma_clip_rect_commutes(a: IRect, b: IRect)
    ensures
        a.spec_intersect(b) == b.spec_intersect(a),
{
}

/// Clipping to three rectangles in any grouping leaves the same rectangle.
pub proof fn lemma_clip_rect_associates(a: IRect, b: IRect, c: IRect)
    ensures
        a.spec_intersect(b).spec_intersect(c) == a.spec_intersect(b.spec_intersect(c)),
{
}

} // verus!
