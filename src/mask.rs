//! Clip and mask application: coverage masks of one byte per pixel, their
//! intersection, and their effect on a premultiplied layer.

use vstd::prelude::*;
use crate::canvas::IRect;
use crate::pixel::{mul255, px, py, lemma_mul255_zero, lemma_mul255_full, lemma_mul255_commutes,
    mul_div_255, lemma_pixel_row};

verus! {

/// Coverage of pixel `p` by a rectangle clip: full inside, none outside.
pub open spec fn rect_coverage(r: IRect, width: int, p: int) -> int {
    if r.contains(px(p, width), py(p, width)) { 255 } else { 0 }
}

/// The pixel-wise product of two coverage masks.
pub open spec fn mask_product(a: Seq<u8>, b: Seq<u8>) -> Seq<u8> {
    Seq::new(a.len(), |i: int| mul255(a[i] as int, b[i] as int) as u8)
}

/// A premultiplied buffer with every byte scaled by the coverage of its pixel.
pub open spec fn masked(buf: Seq<u8>, mask: Seq<u8>) -> Seq<u8> {
    Seq::new(buf.len(), |k: int| mul255(buf[k] as int, mask[k / 4] as int) as u8)
}

proof fn lemma_mul255_bound(a: int, b: int)
    requires
        0 <= a <= 255,
        0 <= b <= 255,
    ensures
        0 <= mul255(a, b) <= 255,
{
    assert(0 <= a * b <= 255 * 255) by (nonlinear_arith)
        requires 0 <= a <= 255, 0 <= b <= 255;
}

/// The coverage mask of a rectangle clip over a `width * height` layer.
pub fn rect_mask(width: u32, height: u32, r: IRect) -> (m: Vec<u8>)
    requires
        width as int * height as int <= usize::MAX,
    ensures
        m@.len() == width * height,
        forall|p: int| 0 <= p < m@.len() ==> #[trigger] m@[p] as int == rect_coverage(r, width as int, p),
{
    let n: usize = (width as usize) * (height as usize);
    let mut m: Vec<u8> = Vec::with_capacity(n);
    let mut p: usize = 0;
    while p < n
        invariant
            n == width * height,
            p <= n,
            m@.len() == p,
            forall|i: int| 0 <= i < p ==> #[trigger] m@[i] as int == rect_coverage(r, width as int, i),
        decreases n - p,
    {
        assert(width > 0) by (nonlinear_arith)
            requires p < n, n == width * height;
        proof { lemma_pixel_row(p as int, width as int, height as int); }
        let x: i64 = (p % (width as usize)) as i64;
        let y: i64 = (p / (width as usize)) as i64;
        let inside = r.left as i64 <= x && x < r.right as i64 && r.top as i64 <= y
            && y < r.bottom as i64;
        m.push(if inside { 255 } else { 0 });
        p += 1;
    }
    m
}

/// Intersects two coverage masks of the same layer: a pixel keeps the
/// product of its two coverages.
pub fn intersect_masks(a: &Vec<u8>, b: &Vec<u8>) -> (m: Vec<u8>)
    requires
        a@.len() == b@.len(),
    ensures
        m@ == mask_product(a@, b@),
{
    let mut m: Vec<u8> = Vec::with_capacity(a.len());
    let mut i: usize = 0;
    while i < a.len()
        invariant
            a@.len() == b@.len(),
            i <= a@.len(),
            m@.len() == i,
            forall|j: int| 0 <= j < i ==> #[trigger] m@[j] == mask_product(a@, b@)[j],
        decreases a@.len() - i,
    {
        let v = mul_div_255(a[i], b[i]);
        m.push(v);
        i += 1;
    }
    assert(m@ =~= mask_product(a@, b@));
    m
}

/// Multiplies every byte of a premultiplied layer by the coverage of its
/// pixel, which clips the layer to the mask.
pub fn apply_mask(buf: &mut Vec<u8>, mask: &Vec<u8>)
    requires
        old(buf)@.len() == 4 * mask@.len(),
    ensures
        final(buf)@ == masked(old(buf)@, mask@),
{
    let ghost orig = buf@;
    let mut k: usize = 0;
    while k < buf.len()
        invariant
            buf@.len() == orig.len(),
            orig.len() == 4 * mask@.len(),
            k <= orig.len(),
            forall|i: int| 0 <= i < k ==> #[trigger] buf@[i] == masked(orig, mask@)[i],
            forall|i: int| k <= i < orig.len() ==> #[trigger] buf@[i] == orig[i],
        decreases orig.len() - k,
    {
        let v = mul_div_255(buf[k], mask[k / 4]);
        buf.set(k, v);
        k += 1;
    }
    assert(buf@ =~= masked(orig, mask@));
}

/// Clipping by `a` and then by `b` gives the same mask as clipping by `b`
/// and then by `a`.
pub proof fn lemma_mask_intersection_commutes(a: Seq<u8>, b: Seq<u8>)
    requires
        a.len() == b.len(),
    ensures
        mask_product(a, b) == mask_product(b, a),
{
    assert forall|i: int| 0 <= i < a.len() implies
        #[trigger] mask_product(a, b)[i] == mask_product(b, a)[i] by {
        lemma_mul255_commutes(a[i] as int, b[i] as int);
    }
    assert(mask_product(a, b) =~= mask_product(b, a));
}

/// Clipping by two rectangles one after the other gives the mask of their
/// intersection, whichever comes first.
pub proof fn lemma_rect_masks_intersect(a: Seq<u8>, b: Seq<u8>, ra: IRect, rb: IRect, width: int)
    requires
        a.len() == b.len(),
        forall|p: int| 0 <= p < a.len() ==> #[trigger] a[p] as int == rect_coverage(ra, width, p),
        forall|p: int| 0 <= p < b.len() ==> #[trigger] b[p] as int == rect_coverage(rb, width, p),
    ensures
        forall|p: int| 0 <= p < a.len() ==> #[trigger] mask_product(a, b)[p] as int
            == rect_coverage(ra.spec_intersect(rb), width, p),
        mask_product(a, b) == mask_product(b, a),
{
    assert forall|p: int| 0 <= p < a.len() implies #[trigger] mask_product(a, b)[p] as int
        == rect_coverage(ra.spec_intersect(rb), width, p) by {
        lemma_mul255_zero(a[p] as int);
        lemma_mul255_full(255);
    }
    lemma_mask_intersection_commutes(a, b);
}

/// A mask that covers nothing leaves a layer fully transparent.
pub proof fn lemma_empty_mask_clears(buf: Seq<u8>, mask: Seq<u8>)
    requires
        buf.len() == 4 * mask.len(),
        forall|p: int| 0 <= p < mask.len() ==> #[trigger] mask[p] == 0,
    ensures
        forall|k: int| 0 <= k < buf.len() ==> #[trigger] masked(buf, mask)[k] == 0,
{
    assert forall|k: int| 0 <= k < buf.len() implies #[trigger] masked(buf, mask)[k] == 0 by {
        assert(mask[k / 4] == 0);
        lemma_mul255_zero(buf[k] as int);
    }
}

/// Coverage of pixel `p` of a premultiplied buffer used as a luminance
/// mask: the luminance of its color, which already carries its alpha.
pub open spec fn luminance_at(buf: Seq<u8>, p: int) -> int {
    (2125 * buf[4 * p] + 7154 * buf[4 * p + 1] + 721 * buf[4 * p + 2] + 5000) / 10000
}

/// The luminance mask of a premultiplied buffer, one byte per pixel.
pub open spec fn luminance_mask(buf: Seq<u8>) -> Seq<u8> {
    Seq::new(buf.len() / 4, |p: int| luminance_at(buf, p) as u8)
}

/// Turns the rendered content of a mask into coverage: each pixel covers
/// as much as its luminance.
pub fn to_luminance_mask(buf: &Vec<u8>) -> (m: Vec<u8>)
    requires
        buf@.len() % 4 == 0,
    ensures
        m@ == luminance_mask(buf@),
{
    let len = buf.len();
    let n: usize = len / 4;
    let mut m: Vec<u8> = Vec::with_capacity(n);
    let mut p: usize = 0;
    while p < n
        invariant
            n == buf@.len() / 4,
            buf@.len() % 4 == 0,
            buf@.len() <= usize::MAX,
            p <= n,
            m@.len() == p,
            forall|i: int| 0 <= i < p ==> #[trigger] m@[i] == luminance_mask(buf@)[i],
        decreases n - p,
    {
        let r = buf[4 * p] as u32;
        let g = buf[4 * p + 1] as u32;
        let b = buf[4 * p + 2] as u32;
        let v: u32 = (2125 * r + 7154 * g + 721 * b + 5000) / 10000;
        m.push(v as u8);
        p += 1;
    }
    assert(m@ =~= luminance_mask(buf@));
    m
}

} // verus!
