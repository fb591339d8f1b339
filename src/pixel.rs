//! Premultiplied RGBA pixel buffers and the per-pixel compositing rules.
//!
//! A buffer of `width * height` pixels holds four bytes per pixel, in the
//! order red, green, blue, alpha, row after row from the top left corner.

use vstd::prelude::*;
use crate::canvas::{BlendMode, Color, IRect};

verus! {

/// `a * b / 255`, rounded to the nearest integer.
pub open spec fn mul255(a: int, b: int) -> int {
    (a * b + 127) / 255
}

/// Source-over of one premultiplied channel `s` (with source alpha `sa`)
/// onto the destination channel `d`.
pub open spec fn over(d: int, s: int, sa: int) -> int {
    let v = s + mul255(d, 255 - sa);
    if v > 255 { 255 } else { v }
}

pub open spec fn clamp255(v: int) -> int {
    if v < 0 {
        0
    } else if v > 255 {
        255
    } else {
        v
    }
}

/// One premultiplied channel of a source `s` (alpha `sa`) blended onto a
/// destination channel `d` (alpha `da`). The alpha channel itself is blended
/// with `s == sa` and `d == da`.
pub open spec fn blend(m: BlendMode, d: int, s: int, sa: int, da: int) -> int {
    clamp255(match m {
        BlendMode::Clear => 0,
        BlendMode::SourceOver => s + mul255(d, 255 - sa),
        BlendMode::DestinationOver => d + mul255(s, 255 - da),
        BlendMode::SourceIn => mul255(s, da),
        BlendMode::DestinationIn => mul255(d, sa),
        BlendMode::SourceOut => mul255(s, 255 - da),
        BlendMode::DestinationOut => mul255(d, 255 - sa),
        BlendMode::SourceAtop => mul255(s, da) + mul255(d, 255 - sa),
        BlendMode::Xor => mul255(s, 255 - da) + mul255(d, 255 - sa),
        BlendMode::Multiply => mul255(s, 255 - da) + mul255(d, 255 - sa) + mul255(s, d),
        BlendMode::Screen => s + d - mul255(s, d),
        BlendMode::Darken => {
            let a = mul255(s, da);
            let b = mul255(d, sa);
            s + d - (if a > b { a } else { b })
        },
        BlendMode::Lighten => {
            let a = mul255(s, da);
            let b = mul255(d, sa);
            s + d - (if a < b { a } else { b })
        },
    })
}

/// Channel `j` (0 red, 1 green, 2 blue, 3 alpha) of a color, premultiplied.
pub open spec fn premul_channel(c: Color, j: int) -> int {
    if j == 0 {
        mul255(c.1 as int, c.0 as int)
    } else if j == 1 {
        mul255(c.2 as int, c.0 as int)
    } else if j == 2 {
        mul255(c.3 as int, c.0 as int)
    } else {
        c.0 as int
    }
}

/// Column of pixel `p` in a buffer of the given width.
pub open spec fn px(p: int, width: int) -> int {
    p % width
}

/// Row of pixel `p` in a buffer of the given width.
pub open spec fn py(p: int, width: int) -> int {
    p / width
}

/// Whether byte `k` of a buffer of the given width, whose top left pixel
/// stands at `(ox, oy)` in device space, belongs to a pixel of `r`.
pub open spec fn in_rect(r: IRect, width: int, ox: int, oy: int, k: int) -> bool {
    r.contains(ox + px(k / 4, width), oy + py(k / 4, width))
}

/// Byte `k` of `old` after a solid fill with color `c` of the pixels of
/// `rect` that are not in `hole`.
pub open spec fn filled_byte(
    old: Seq<u8>,
    width: int,
    ox: int,
    oy: int,
    rect: IRect,
    hole: IRect,
    c: Color,
    k: int,
) -> int {
    if in_rect(rect, width, ox, oy, k) && !in_rect(hole, width, ox, oy, k) {
        over(old[k] as int, premul_channel(c, k % 4), c.0 as int)
    } else {
        old[k] as int
    }
}

/// Byte `k` of `dst` after the premultiplied pixel at byte `src_k` of `src`
/// is blended onto it with the extra opacity `alpha`.
pub open spec fn composited_byte(m: BlendMode, dst: Seq<u8>, src: Seq<u8>, alpha: int, k: int, src_k: int) -> int {
    blend(
        m,
        dst[k] as int,
        mul255(src[src_k] as int, alpha),
        mul255(src[src_k - src_k % 4 + 3] as int, alpha),
        dst[k - k % 4 + 3] as int,
    )
}

/// Whether a byte sequence is a buffer of `width * height` pixels.
pub open spec fn is_buffer(b: Seq<u8>, width: int, height: int) -> bool {
    b.len() == 4 * width * height
}

pub fn mul_div_255(a: u8, b: u8) -> (r: u8)
    ensures
        r as int == mul255(a as int, b as int),
{
    assert(a as int * b as int <= 255 * 255) by (nonlinear_arith)
        requires a <= 255, b <= 255;
    let v: u32 = (a as u32 * b as u32 + 127) / 255;
    v as u8
}

/// Blends one premultiplied channel by the given mode.
pub fn blend_channel(m: BlendMode, d: u8, s: u8, sa: u8, da: u8) -> (r: u8)
    ensures
        r as int == blend(m, d as int, s as int, sa as int, da as int),
{
    let d32 = d as i32;
    let s32 = s as i32;
    let v: i32 = match m {
        BlendMode::Clear => 0,
        BlendMode::SourceOver => s32 + mul_div_255(d, 255 - sa) as i32,
        BlendMode::DestinationOver => d32 + mul_div_255(s, 255 - da) as i32,
        BlendMode::SourceIn => mul_div_255(s, da) as i32,
        BlendMode::DestinationIn => mul_div_255(d, sa) as i32,
        BlendMode::SourceOut => mul_div_255(s, 255 - da) as i32,
        BlendMode::DestinationOut => mul_div_255(d, 255 - sa) as i32,
        BlendMode::SourceAtop => mul_div_255(s, da) as i32 + mul_div_255(d, 255 - sa) as i32,
        BlendMode::Xor => mul_div_255(s, 255 - da) as i32 + mul_div_255(d, 255 - sa) as i32,
        BlendMode::Multiply => mul_div_255(s, 255 - da) as i32 + mul_div_255(d, 255 - sa) as i32
            + mul_div_255(s, d) as i32,
        BlendMode::Screen => s32 + d32 - mul_div_255(s, d) as i32,
        BlendMode::Darken => {
            let a = mul_div_255(s, da) as i32;
            let b = mul_div_255(d, sa) as i32;
            s32 + d32 - (if a > b { a } else { b })
        },
        BlendMode::Lighten => {
            let a = mul_div_255(s, da) as i32;
            let b = mul_div_255(d, sa) as i32;
            s32 + d32 - (if a < b { a } else { b })
        },
    };
    if v < 0 {
        0
    } else if v > 255 {
        255
    } else {
        v as u8
    }
}

pub fn blend_over(d: u8, s: u8, sa: u8) -> (r: u8)
    ensures
        r as int == over(d as int, s as int, sa as int),
{
    let m = mul_div_255(d, 255 - sa);
    let v: u32 = s as u32 + m as u32;
    if v > 255 { 255 } else { v as u8 }
}

pub proof fn lemma_mul255_zero(a: int)
    ensures
        mul255(a, 0) == 0,
        mul255(0, a) == 0,
{
}

pub proof fn lemma_mul255_full(a: int)
    requires
        0 <= a <= 255,
    ensures
        mul255(a, 255) == a,
        mul255(255, a) == a,
{
    assert(a * 255 == 255 * a) by (nonlinear_arith);
}

pub proof fn lemma_mul255_commutes(a: int, b: int)
    ensures
        mul255(a, b) == mul255(b, a),
{
    assert(a * b == b * a) by (nonlinear_arith);
}

pub proof fn lemma_pixel_bytes(p: int, j: int)
    requires
        0 <= p,
        0 <= j < 4,
    ensures
        (4 * p + j) / 4 == p,
        (4 * p + j) % 4 == j,
{
}

/// Pixel `p` of a buffer `width` pixels wide lies within the buffer's rows.
pub proof fn lemma_pixel_row(p: int, width: int, height: int)
    requires
        0 <= p < width * height,
        0 < width,
    ensures
        0 <= p / width < height,
        0 <= p % width < width,
{
    assert(0 <= p / width < height) by (nonlinear_arith)
        requires 0 <= p < width * height, 0 < width;
}

/// A buffer after a solid fill with color `c` of `rect` less `hole`.
pub open spec fn filled_region(
    old: Seq<u8>,
    width: int,
    ox: int,
    oy: int,
    rect: IRect,
    hole: IRect,
    c: Color,
) -> Seq<u8> {
    Seq::new(old.len(), |k: int| filled_byte(old, width, ox, oy, rect, hole, c, k) as u8)
}

/// A rectangle that holds no pixel.
pub open spec fn no_hole() -> IRect {
    IRect { left: 0, top: 0, right: 0, bottom: 0 }
}

/// A buffer after a solid fill of `rect` with color `c`.
pub open spec fn filled(old: Seq<u8>, width: int, ox: int, oy: int, rect: IRect, c: Color) -> Seq<u8> {
    filled_region(old, width, ox, oy, rect, no_hole(), c)
}

/// Fills the device-space rectangle `rect` with the solid color `c`, drawn
/// source-over onto a premultiplied buffer whose top left pixel stands at
/// `(ox, oy)`. Pixels outside `rect` keep their value.
pub fn fill_rect(buf: &mut Vec<u8>, width: u32, height: u32, ox: i32, oy: i32, rect: IRect, c: Color)
    requires
        is_buffer(old(buf)@, width as int, height as int),
    ensures
        final(buf)@ == filled(old(buf)@, width as int, ox as int, oy as int, rect, c),
{
    fill_region(buf, width, height, ox, oy, rect, IRect { left: 0, top: 0, right: 0, bottom: 0 }, c);
}

/// Fills the pixels of `rect` that are not in `hole` with the solid color
/// `c`, drawn source-over onto a premultiplied buffer whose top left pixel
/// stands at `(ox, oy)`. Other pixels keep their value.
pub fn fill_region(
    buf: &mut Vec<u8>,
    width: u32,
    height: u32,
    ox: i32,
    oy: i32,
    rect: IRect,
    hole: IRect,
    c: Color,
)
    requires
        is_buffer(old(buf)@, width as int, height as int),
    ensures
        final(buf)@ == filled_region(old(buf)@, width as int, ox as int, oy as int, rect, hole, c),
{
    let ghost orig = buf@;
    let n: usize = buf.len() / 4;
    assert(4 * width * height == 4 * (width * height)) by (nonlinear_arith);
    let sa = c.0;
    let s0 = mul_div_255(c.1, sa);
    let s1 = mul_div_255(c.2, sa);
    let s2 = mul_div_255(c.3, sa);
    let mut p: usize = 0;
    while p < n
        invariant
            n * 4 == orig.len(),
            n == width * height,
            orig.len() <= usize::MAX,
            buf@.len() == orig.len(),
            is_buffer(orig, width as int, height as int),
            p <= n,
            s0 as int == premul_channel(c, 0),
            s1 as int == premul_channel(c, 1),
            s2 as int == premul_channel(c, 2),
            sa as int == premul_channel(c, 3),
            sa == c.0,
            forall|k: int| 0 <= k < 4 * p ==>
                #[trigger] buf@[k] as int == filled_byte(orig, width as int, ox as int, oy as int, rect, hole, c, k),
            forall|k: int| 4 * p <= k < orig.len() ==> #[trigger] buf@[k] == orig[k],
        decreases n - p,
    {
        assert(width > 0) by (nonlinear_arith)
            requires p < n, n * 4 == 4 * width * height;
        proof { lemma_pixel_row(p as int, width as int, height as int); }
        let x: i64 = ox as i64 + (p % (width as usize)) as i64;
        let y: i64 = oy as i64 + (p / (width as usize)) as i64;
        let inside = rect.left as i64 <= x && x < rect.right as i64 && rect.top as i64 <= y
            && y < rect.bottom as i64 && !(hole.left as i64 <= x && x < hole.right as i64
            && hole.top as i64 <= y && y < hole.bottom as i64);
        let k: usize = 4 * p;
        if inside {
            let v0 = blend_over(buf[k], s0, sa);
            buf.set(k, v0);
            let v1 = blend_over(buf[k + 1], s1, sa);
            buf.set(k + 1, v1);
            let v2 = blend_over(buf[k + 2], s2, sa);
            buf.set(k + 2, v2);
            let v3 = blend_over(buf[k + 3], sa, sa);
            buf.set(k + 3, v3);
        }
        assert forall|i: int| 0 <= i < 4 * (p + 1) implies
            #[trigger] buf@[i] as int == filled_byte(orig, width as int, ox as int, oy as int, rect, hole, c, i) by {
            if i >= 4 * p {
                lemma_pixel_bytes(p as int, i - 4 * p);
            }
        }
        p += 1;
    }
    assert(buf@ =~= filled_region(orig, width as int, ox as int, oy as int, rect, hole, c));
}

/// Whether byte `k` of a buffer `width` pixels wide belongs to a pixel that a
/// layer of `lw * lh` pixels placed at `(ox, oy)` covers.
pub open spec fn in_layer(k: int, width: int, ox: int, oy: int, lw: int, lh: int) -> bool {
    let x = px(k / 4, width);
    let y = py(k / 4, width);
    ox <= x < ox + lw && oy <= y < oy + lh
}

/// The byte of the layer that lands on byte `k` of the destination.
pub open spec fn layer_byte_index(k: int, width: int, ox: int, oy: int, lw: int) -> int {
    4 * ((py(k / 4, width) - oy) * lw + (px(k / 4, width) - ox)) + k % 4
}

/// Byte `k` of `dst` after a layer is drawn onto it.
pub open spec fn layered_byte(
    m: BlendMode,
    dst: Seq<u8>,
    layer: Seq<u8>,
    width: int,
    ox: int,
    oy: int,
    lw: int,
    lh: int,
    alpha: int,
    k: int,
) -> int {
    if in_layer(k, width, ox, oy, lw, lh) {
        composited_byte(m, dst, layer, alpha, k, layer_byte_index(k, width, ox, oy, lw))
    } else {
        dst[k] as int
    }
}

proof fn lemma_layer_index(lx: int, ly: int, lw: int, lh: int)
    requires
        0 <= lx < lw,
        0 <= ly < lh,
    ensures
        0 <= ly * lw + lx < lw * lh,
{
    assert(ly * lw + lx < lw * lh) by (nonlinear_arith)
        requires 0 <= lx < lw, 0 <= ly < lh;
    assert(0 <= ly * lw) by (nonlinear_arith)
        requires 0 <= ly, 0 <= lw;
}

/// A buffer after a layer is drawn onto it.
pub open spec fn layered(
    m: BlendMode,
    dst: Seq<u8>,
    layer: Seq<u8>,
    width: int,
    ox: int,
    oy: int,
    lw: int,
    lh: int,
    alpha: int,
) -> Seq<u8> {
    Seq::new(dst.len(), |k: int| layered_byte(m, dst, layer, width, ox, oy, lw, lh, alpha, k) as u8)
}

/// Draws a premultiplied layer of `lw * lh` pixels onto `dst` with its top
/// left corner at `(ox, oy)`, blended by `m`, with the extra opacity `alpha`.
/// The parts of the layer that fall outside `dst` are dropped.
pub fn draw_layer(
    m: BlendMode,
    dst: &mut Vec<u8>,
    width: u32,
    height: u32,
    layer: &Vec<u8>,
    ox: i64,
    oy: i64,
    lw: u32,
    lh: u32,
    alpha: u8,
)
    requires
        -0x1_0000_0000 <= ox <= 0x1_0000_0000,
        -0x1_0000_0000 <= oy <= 0x1_0000_0000,
        is_buffer(old(dst)@, width as int, height as int),
        is_buffer(layer@, lw as int, lh as int),
    ensures
        final(dst)@ == layered(m, old(dst)@, layer@, width as int, ox as int, oy as int, lw as int,
            lh as int, alpha as int),
{
    let ghost orig = dst@;
    let n: usize = dst.len() / 4;
    assert(4 * width * height == 4 * (width * height)) by (nonlinear_arith);
    assert(4 * lw * lh == 4 * (lw * lh)) by (nonlinear_arith);
    let layer_len = layer.len();
    let mut p: usize = 0;
    while p < n
        invariant
            n * 4 == orig.len(),
            n == width * height,
            orig.len() <= usize::MAX,
            dst@.len() == orig.len(),
            layer@.len() == 4 * (lw * lh),
            layer@.len() <= usize::MAX,
            p <= n,
            forall|k: int| 0 <= k < 4 * p ==>
                #[trigger] dst@[k] as int == layered_byte(m, orig, layer@, width as int,
                    ox as int, oy as int, lw as int, lh as int, alpha as int, k),
            forall|k: int| 4 * p <= k < orig.len() ==> #[trigger] dst@[k] == orig[k],
        decreases n - p,
    {
        assert(width > 0) by (nonlinear_arith)
            requires p < n, n == width * height;
        proof { lemma_pixel_row(p as int, width as int, height as int); }
        let x: i64 = (p % (width as usize)) as i64;
        let y: i64 = (p / (width as usize)) as i64;
        let inside = ox as i64 <= x && x < ox as i64 + lw as i64 && oy as i64 <= y
            && y < oy as i64 + lh as i64;
        let k: usize = 4 * p;
        if inside {
            let lx = (x - ox as i64) as usize;
            let ly = (y - oy as i64) as usize;
            proof { lemma_layer_index(lx as int, ly as int, lw as int, lh as int); }
            let q: usize = 4 * (ly * (lw as usize) + lx);
            let la = mul_div_255(layer[q + 3], alpha);
            let da = dst[k + 3];
            let s0 = mul_div_255(layer[q], alpha);
            let v0 = blend_channel(m, dst[k], s0, la, da);
            dst.set(k, v0);
            let s1 = mul_div_255(layer[q + 1], alpha);
            let v1 = blend_channel(m, dst[k + 1], s1, la, da);
            dst.set(k + 1, v1);
            let s2 = mul_div_255(layer[q + 2], alpha);
            let v2 = blend_channel(m, dst[k + 2], s2, la, da);
            dst.set(k + 2, v2);
            let v3 = blend_channel(m, dst[k + 3], la, la, da);
            dst.set(k + 3, v3);
            proof {
                let w = width as int;
                lemma_pixel_bytes(p as int, 0);
                lemma_pixel_bytes(p as int, 1);
                lemma_pixel_bytes(p as int, 2);
                lemma_pixel_bytes(p as int, 3);
                assert(layer_byte_index(4 * p, w, ox as int, oy as int, lw as int) == q);
                assert(layer_byte_index(4 * p + 1, w, ox as int, oy as int, lw as int) == q + 1);
                assert(layer_byte_index(4 * p + 2, w, ox as int, oy as int, lw as int) == q + 2);
                assert(layer_byte_index(4 * p + 3, w, ox as int, oy as int, lw as int) == q + 3);
            }
        }
        assert forall|i: int| 0 <= i < 4 * (p + 1) implies
            #[trigger] dst@[i] as int == layered_byte(m, orig, layer@, width as int,
                ox as int, oy as int, lw as int, lh as int, alpha as int, i) by {
            if i >= 4 * p {
                lemma_pixel_bytes(p as int, i - 4 * p);
            }
        }
        p += 1;
    }
    assert(dst@ =~= layered(m, orig, layer@, width as int, ox as int, oy as int, lw as int,
        lh as int, alpha as int));
}

/// The byte of a layer that lands on a destination byte inside the layer
/// lies within the layer.
pub proof fn lemma_layer_byte_in_range(k: int, width: int, height: int, ox: int, oy: int, lw: int, lh: int)
    requires
        0 <= width,
        0 <= height,
        0 <= k < 4 * width * height,
        in_layer(k, width, ox, oy, lw, lh),
    ensures
        0 <= layer_byte_index(k, width, ox, oy, lw) < 4 * (lw * lh),
        layer_byte_index(k, width, ox, oy, lw) % 4 == k % 4,
{
    assert(width > 0) by (nonlinear_arith)
        requires 0 <= k < 4 * width * height, 0 <= width, 0 <= height;
    let x = px(k / 4, width);
    let y = py(k / 4, width);
    assert(0 <= k % width < width);
    lemma_layer_index(x - ox, y - oy, lw, lh);
}

} // verus!
