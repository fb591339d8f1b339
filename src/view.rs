//! The mapping from user space onto the device pixels of an image.

use vstd::prelude::*;
use crate::canvas::IRect;
use crate::render::{Shape, Stroke};

verus! {

/// Maps a user coordinate to the device: `origin` lands on 0 and a length
/// `from` becomes `to`, rounded toward zero and kept within `i32`.
pub open spec fn map_coord(v: i32, origin: i32, to: u32, from: u32) -> i32 {
    let d = v - origin;
    let s = if d >= 0 { (d * to) / (from as int) } else { -(((-d) * to) / (from as int)) };
    if s > i32::MAX { i32::MAX } else if s < i32::MIN { i32::MIN } else { s as i32 }
}

/// The view mapping from a region of user space to an image.
#[derive(Debug, Copy, Clone, PartialEq, Eq, Hash, Structural)]
pub struct ViewMap {
    pub left: i32,
    pub top: i32,
    pub from_w: u32,
    pub from_h: u32,
    pub to_w: u32,
    pub to_h: u32,
}

pub open spec fn view_ok(v: ViewMap) -> bool {
    v.from_w > 0 && v.from_h > 0
}

/// The view that maps the region `(left, top)`, `from_w * from_h` onto an
/// image of `to_w * to_h` pixels.
pub open spec fn view_of(left: i32, top: i32, from_w: u32, from_h: u32, to_w: u32, to_h: u32) -> ViewMap {
    ViewMap { left, top, from_w, from_h, to_w, to_h }
}

pub open spec fn map_rect(r: IRect, v: ViewMap) -> IRect {
    IRect {
        left: map_coord(r.left, v.left, v.to_w, v.from_w),
        top: map_coord(r.top, v.top, v.to_h, v.from_h),
        right: map_coord(r.right, v.left, v.to_w, v.from_w),
        bottom: map_coord(r.bottom, v.top, v.to_h, v.from_h),
    }
}

/// A length mapped by the view's horizontal scale, rounded down and kept
/// within `u32`.
pub open spec fn map_len(w: u32, v: ViewMap) -> u32 {
    let s = (w * v.to_w) / (v.from_w as int);
    if s > u32::MAX { u32::MAX } else { s as u32 }
}

pub open spec fn map_stroke(s: Option<Stroke>, v: ViewMap) -> Option<Stroke> {
    match s {
        Some(k) => Some(Stroke { color: k.color, width: map_len(k.width, v) }),
        None => None,
    }
}

pub open spec fn map_shape(s: Shape, v: ViewMap) -> Shape {
    Shape { rect: map_rect(s.rect, v), fill: s.fill, stroke: map_stroke(s.stroke, v) }
}

pub open spec fn map_shapes(s: Seq<Shape>, v: ViewMap) -> Seq<Shape> {
    s.map_values(|sh: Shape| map_shape(sh, v))
}

pub open spec fn map_clip(c: Option<IRect>, v: ViewMap) -> Option<IRect> {
    match c {
        Some(r) => Some(map_rect(r, v)),
        None => None,
    }
}

pub fn map_coord_exec(v: i32, origin: i32, to: u32, from: u32) -> (r: i32)
    requires
        from > 0,
    ensures
        r == map_coord(v, origin, to, from),
{
    let d: i64 = v as i64 - origin as i64;
    let m: u64 = if d >= 0 { d as u64 } else { (-d) as u64 };
    assert(m * to <= 0x1_0000_0000 * 0xffff_ffff) by (nonlinear_arith)
        requires 0 <= m <= 0x1_0000_0000, 0 <= to <= 0xffff_ffff;
    let p: u128 = m as u128 * to as u128;
    let q: u128 = p / from as u128;
    assert(q as int <= p as int) by (nonlinear_arith)
        requires q as int == p as int / from as int, from >= 1, p >= 0;
    let s: i128 = if d >= 0 { q as i128 } else { -(q as i128) };
    if s > 0x7fff_ffff {
        0x7fff_ffff
    } else if s < -0x8000_0000 {
        -0x8000_0000
    } else {
        s as i32
    }
}

pub fn map_rect_exec(r: IRect, v: ViewMap) -> (m: IRect)
    requires
        view_ok(v),
    ensures
        m == map_rect(r, v),
{
    IRect {
        left: map_coord_exec(r.left, v.left, v.to_w, v.from_w),
        top: map_coord_exec(r.top, v.top, v.to_h, v.from_h),
        right: map_coord_exec(r.right, v.left, v.to_w, v.from_w),
        bottom: map_coord_exec(r.bottom, v.top, v.to_h, v.from_h),
    }
}

pub fn map_len_exec(w: u32, v: ViewMap) -> (r: u32)
    requires
        view_ok(v),
    ensures
        r == map_len(w, v),
{
    assert(w as int * v.to_w as int <= 0xffff_ffff * 0xffff_ffff) by (nonlinear_arith)
        requires w <= 0xffff_ffff, v.to_w <= 0xffff_ffff;
    let s: u64 = (w as u64 * v.to_w as u64) / v.from_w as u64;
    if s > 0xffff_ffff { 0xffff_ffff } else { s as u32 }
}

pub fn map_shape_exec(s: Shape, v: ViewMap) -> (m: Shape)
    requires
        view_ok(v),
    ensures
        m == map_shape(s, v),
{
    let stroke = match s.stroke {
        Some(k) => Some(Stroke { color: k.color, width: map_len_exec(k.width, v) }),
        None => None,
    };
    Shape { rect: map_rect_exec(s.rect, v), fill: s.fill, stroke }
}

/// The view of content translated by `(dx, dy)` user units.
pub open spec fn translated(v: ViewMap, dx: i32, dy: i32) -> ViewMap {
    ViewMap {
        left: clamp_i32(v.left - dx),
        top: clamp_i32(v.top - dy),
        from_w: v.from_w,
        from_h: v.from_h,
        to_w: v.to_w,
        to_h: v.to_h,
    }
}

pub open spec fn clamp_i32(v: int) -> i32 {
    if v > i32::MAX { i32::MAX } else if v < i32::MIN { i32::MIN } else { v as i32 }
}

pub fn translate_view(v: ViewMap, dx: i32, dy: i32) -> (r: ViewMap)
    ensures
        r == translated(v, dx, dy),
        view_ok(v) ==> view_ok(r),
{
    let l: i64 = v.left as i64 - dx as i64;
    let t: i64 = v.top as i64 - dy as i64;
    ViewMap {
        left: if l > 0x7fff_ffff { 0x7fff_ffff } else if l < -0x8000_0000 { -0x8000_0000 } else { l as i32 },
        top: if t > 0x7fff_ffff { 0x7fff_ffff } else if t < -0x8000_0000 { -0x8000_0000 } else { t as i32 },
        from_w: v.from_w,
        from_h: v.from_h,
        to_w: v.to_w,
        to_h: v.to_h,
    }
}

} // verus!
