//! The scene renderer: walks the scene tree in document order and, per
//! group, either draws straight onto the current surface or renders the
//! group into an isolated layer that is filtered, masked and composited
//! back once.

use vstd::prelude::*;
use crate::canvas::{BlendMode, Color, IRect};
use crate::filter::{apply_filter, filtered, lemma_filtered_len, FilterStep};
use crate::layer::{Compositing, needs_layer, spec_needs_layer};
use crate::mask::{apply_mask, luminance_mask, masked, to_luminance_mask, lemma_empty_mask_clears};
use crate::paint::with_opacity;
use crate::pixel::{blend, px, py, filled, filled_region, fill_rect, fill_region, layered, draw_layer, is_buffer, mul255,
    mul_div_255, in_layer, layer_byte_index, lemma_layer_byte_in_range, lemma_mul255_zero, lemma_mul255_full};
use crate::view::{map_rect, map_rect_exec, map_shape, map_shape_exec, translate_view, translated, view_ok, ViewMap};

verus! {

broadcast use vstd::seq::axiom_seq_subrange_decreases, vstd::seq::axiom_seq_index_decreases,
    vstd::std_specs::vec::axiom_vec_decreases_to_view;

/// A stroke along the edges of a rectangle: `width` pixels wide, centered
/// on the edges.
#[derive(Debug, Copy, Clone, PartialEq, Eq, Hash, Structural)]
pub struct Stroke {
    pub color: Color,
    pub width: u32,
}

/// A rectangle with an optional resolved solid fill and stroke. A paint
/// that resolved to nothing is `None` and draws nothing; the stroke is
/// drawn over the fill.
#[derive(Debug, Copy, Clone, PartialEq, Eq, Hash, Structural)]
pub struct Shape {
    pub rect: IRect,
    pub fill: Option<Color>,
    pub stroke: Option<Stroke>,
}

/// A coordinate kept within `i32`.
pub open spec fn saturate(v: int) -> i32 {
    if v > i32::MAX { i32::MAX } else if v < i32::MIN { i32::MIN } else { v as i32 }
}

/// The outer edge of a stroke: the rectangle grown by half the width,
/// rounded down.
pub open spec fn stroke_outer(r: IRect, w: u32) -> IRect {
    let a = w as int / 2;
    IRect {
        left: saturate(r.left - a),
        top: saturate(r.top - a),
        right: saturate(r.right + a),
        bottom: saturate(r.bottom + a),
    }
}

/// The inner edge of a stroke: the rectangle shrunk by the rest of the width.
pub open spec fn stroke_inner(r: IRect, w: u32) -> IRect {
    let b = w as int - w as int / 2;
    IRect {
        left: saturate(r.left + b),
        top: saturate(r.top + b),
        right: saturate(r.right - b),
        bottom: saturate(r.bottom - b),
    }
}

fn saturate_exec(v: i64) -> (r: i32)
    ensures
        r == saturate(v as int),
{
    if v > 0x7fff_ffff {
        0x7fff_ffff
    } else if v < -0x8000_0000 {
        -0x8000_0000
    } else {
        v as i32
    }
}

fn stroke_edges(r: IRect, w: u32) -> (e: (IRect, IRect))
    ensures
        e.0 == stroke_outer(r, w),
        e.1 == stroke_inner(r, w),
{
    let a = (w / 2) as i64;
    let b = w as i64 - a;
    let outer = IRect {
        left: saturate_exec(r.left as i64 - a),
        top: saturate_exec(r.top as i64 - a),
        right: saturate_exec(r.right as i64 + a),
        bottom: saturate_exec(r.bottom as i64 + a),
    };
    let inner = IRect {
        left: saturate_exec(r.left as i64 + b),
        top: saturate_exec(r.top as i64 + b),
        right: saturate_exec(r.right as i64 - b),
        bottom: saturate_exec(r.bottom as i64 - b),
    };
    (outer, inner)
}

/// A buffer after one shape is drawn: its fill, then its stroke, each
/// paint's alpha scaled by `opacity`.
pub open spec fn drawn_shape(buf: Seq<u8>, width: int, ox: int, oy: int, s: Shape, opacity: u8) -> Seq<u8> {
    let after_fill = match s.fill {
        Some(c) => filled(buf, width, ox, oy, s.rect, with_opacity(c, opacity)),
        None => buf,
    };
    match s.stroke {
        Some(k) => filled_region(after_fill, width, ox, oy, stroke_outer(s.rect, k.width),
            stroke_inner(s.rect, k.width), with_opacity(k.color, opacity)),
        None => after_fill,
    }
}

/// A node of the scene tree.
#[derive(Debug)]
pub enum Node {
    Shape(Shape),
    Group(Group),
}

/// A group of nodes with a translation, a group opacity and blend mode, an
/// optional clip rectangle, an optional mask, whose shapes are drawn to give
/// each pixel its coverage by luminance, and an optional filter chain, which
/// runs over the group's layer with the layer as its region; its offsets are
/// in device pixels. The children, the clip and the mask are in the group's
/// user space: that of its parent moved by `(dx, dy)`.
#[derive(Debug)]
pub struct Group {
    pub dx: i32,
    pub dy: i32,
    pub opacity: u8,
    pub blend_mode: BlendMode,
    pub clip: Option<IRect>,
    pub mask: Option<Vec<Shape>>,
    pub filter: Option<Vec<FilterStep>>,
    pub children: Vec<Node>,
}

/// The surface being drawn on: `width * height` pixels whose top left
/// pixel stands at `(left, top)` in device space.
#[derive(Debug, Copy, Clone, PartialEq, Eq, Hash, Structural)]
pub struct Target {
    pub width: u32,
    pub height: u32,
    pub left: i32,
    pub top: i32,
}

/// The shapes of a group's mask, if it has one.
pub open spec fn mask_shapes(g: Group) -> Option<Seq<Shape>> {
    match g.mask {
        Some(m) => Some(m@),
        None => None,
    }
}

/// The steps of a group's filter chain, if it has one.
pub open spec fn filter_steps(g: Group) -> Option<Seq<FilterStep>> {
    match g.filter {
        Some(f) => Some(f@),
        None => None,
    }
}

/// A group's own opacity combined with the opacity it inherits from
/// ancestors that drew without a layer.
pub open spec fn effective_opacity(g: Group, inherited: u8) -> u8 {
    mul255(g.opacity as int, inherited as int) as u8
}

/// The compositing obligations of a group.
pub open spec fn group_compositing(g: Group, inherited: u8) -> Compositing {
    Compositing {
        opacity: effective_opacity(g, inherited),
        blend_mode: g.blend_mode,
        has_filter: g.filter is Some,
        has_clip: g.clip is Some,
        has_mask: g.mask is Some,
    }
}

/// The device rectangle a target covers, as far as `i32` reaches.
pub open spec fn target_rect(t: Target) -> IRect {
    IRect {
        left: t.left,
        top: t.top,
        right: saturate(t.left + t.width),
        bottom: saturate(t.top + t.height),
    }
}

/// The region a group's layer covers: the target, cut to the clip.
pub open spec fn group_region(t: Target, clip: Option<IRect>, v: ViewMap) -> IRect {
    match clip {
        Some(c) => target_rect(t).spec_intersect(map_rect(c, v)),
        None => target_rect(t),
    }
}

/// The layer that covers a region.
pub open spec fn layer_target(r: IRect) -> Target {
    Target { width: (r.right - r.left) as u32, height: (r.bottom - r.top) as u32, left: r.left, top: r.top }
}

/// The draws a shape makes: one for its fill and one for its stroke.
pub open spec fn shape_draws(s: Shape) -> nat {
    (if s.fill is Some { 1nat } else { 0nat }) + (if s.stroke is Some { 1nat } else { 0nat })
}

/// The draws that the nodes make onto their surface: those of each shape,
/// and one for each group, which composites or draws on its own terms.
pub open spec fn child_draws(nodes: Seq<Node>) -> nat
    decreases nodes.len(),
{
    if nodes.len() == 0 {
        0
    } else {
        child_draws(nodes.subrange(0, nodes.len() - 1)) + match nodes[nodes.len() - 1] {
            Node::Shape(s) => shape_draws(s),
            Node::Group(_) => 1nat,
        }
    }
}

/// The number of draws the nodes make, counted up to two: enough to tell
/// whether a partial opacity must be applied to a layer.
pub fn count_draws(nodes: &Vec<Node>) -> (r: usize)
    ensures
        r == (if child_draws(nodes@) > 2 { 2 } else { child_draws(nodes@) }),
{
    let mut r: usize = 0;
    let mut i: usize = 0;
    while i < nodes.len()
        invariant
            i <= nodes@.len(),
            r == (if child_draws(nodes@.subrange(0, i as int)) > 2 { 2 } else {
                child_draws(nodes@.subrange(0, i as int)) }),
        decreases nodes@.len() - i,
    {
        let ghost sub = nodes@.subrange(0, i as int + 1);
        assert(sub.subrange(0, sub.len() - 1) =~= nodes@.subrange(0, i as int));
        assert(sub[sub.len() - 1] == nodes@[i as int]);
        let d: usize = match &nodes[i] {
            Node::Shape(s) => (if s.fill.is_some() { 1 } else { 0 }) + (if s.stroke.is_some() { 1 } else { 0 }),
            Node::Group(_) => 1,
        };
        r = if r + d > 2 { 2 } else { r + d };
        i += 1;
    }
    assert(nodes@.subrange(0, i as int) =~= nodes@);
    r
}

/// A transparent buffer of `n` bytes.
pub open spec fn transparent(n: int) -> Seq<u8> {
    Seq::new(n as nat, |k: int| 0u8)
}

/// The whole of a layer of `lw * lh` pixels, in its own coordinates.
pub open spec fn local_region(lw: int, lh: int) -> IRect {
    IRect { left: 0, top: 0, right: lw as i32, bottom: lh as i32 }
}

/// A buffer after the shapes are drawn one after the other through the
/// view, each paint's alpha scaled by `opacity`.
pub open spec fn fill_all(buf: Seq<u8>, t: Target, v: ViewMap, shapes: Seq<Shape>, opacity: u8) -> Seq<u8>
    decreases shapes.len(),
{
    if shapes.len() == 0 {
        buf
    } else {
        drawn_shape(fill_all(buf, t, v, shapes.drop_last(), opacity), t.width as int, t.left as int,
            t.top as int, map_shape(shapes.last(), v), opacity)
    }
}

/// A surface after the nodes are drawn on it in document order, through
/// the view, with the inherited opacity.
pub open spec fn draw_nodes(buf: Seq<u8>, t: Target, v: ViewMap, nodes: Seq<Node>, opacity: u8) -> Seq<u8>
    decreases nodes,
{
    if nodes.len() == 0 {
        buf
    } else {
        let prev = draw_nodes(buf, t, v, nodes.subrange(0, nodes.len() - 1), opacity);
        match nodes[nodes.len() - 1] {
            Node::Shape(s) => drawn_shape(prev, t.width as int, t.left as int, t.top as int, map_shape(s, v),
                opacity),
            Node::Group(g) => draw_group(prev, t, v, g, opacity),
        }
    }
}

/// A surface after a group is drawn on it.
///
/// A group that needs no layer draws its children straight onto the
/// surface, its opacity passed down. Otherwise its children are drawn into
/// a transparent layer that covers the surface cut to the clip; the filter
/// chain, if any, runs over it; the mask's shapes, if any, are drawn into a
/// second layer whose luminance scales the first; and the layer is
/// composited back once with the group's opacity and blend mode. A clip
/// that leaves nothing of the surface draws nothing.
pub open spec fn draw_group(buf: Seq<u8>, t: Target, pv: ViewMap, g: Group, inherited: u8) -> Seq<u8>
    decreases g,
{
    let v = translated(pv, g.dx, g.dy);
    let op = effective_opacity(g, inherited);
    if !spec_needs_layer(group_compositing(g, inherited), child_draws(g.children@)) {
        draw_nodes(buf, t, v, g.children@, op)
    } else {
        let r = group_region(t, g.clip, v);
        if r.spec_is_empty() {
            buf
        } else {
            let lt = layer_target(r);
            let lw = lt.width as int;
            let lh = lt.height as int;
            let drawn = draw_nodes(transparent(4 * lw * lh), lt, v, g.children@, 255);
            let content = match filter_steps(g) {
                Some(steps) => filtered(drawn, lw, lh, local_region(lw, lh), steps),
                None => drawn,
            };
            let layer = match mask_shapes(g) {
                Some(ms) => masked(content, luminance_mask(fill_all(transparent(4 * lw * lh), lt, v, ms, 255))),
                None => content,
            };
            layered(g.blend_mode, buf, layer, t.width as int, r.left - t.left, r.top - t.top, lw, lh, op as int)
        }
    }
}

/// The number of layers a group allocates for itself.
pub open spec fn group_layers(t: Target, pv: ViewMap, g: Group, inherited: u8) -> u32 {
    if spec_needs_layer(group_compositing(g, inherited), child_draws(g.children@))
        && !group_region(t, g.clip, translated(pv, g.dx, g.dy)).spec_is_empty() {
        1
    } else {
        0
    }
}

/// A new transparent buffer of `n` bytes.
pub fn transparent_buffer(n: usize) -> (b: Vec<u8>)
    ensures
        b@ == transparent(n as int),
{
    let mut b: Vec<u8> = Vec::with_capacity(n);
    let mut k: usize = 0;
    while k < n
        invariant
            k <= n,
            b@ == transparent(k as int),
        decreases n - k,
    {
        b.push(0);
        k += 1;
        assert(b@ =~= transparent(k as int));
    }
    b
}

/// Draws one shape, mapped through the view: its fill, then its stroke,
/// each paint's alpha scaled by `opacity`.
pub fn draw_shape(buf: &mut Vec<u8>, t: Target, v: ViewMap, s: Shape, opacity: u8)
    requires
        is_buffer(old(buf)@, t.width as int, t.height as int),
        view_ok(v),
    ensures
        final(buf)@ == drawn_shape(old(buf)@, t.width as int, t.left as int, t.top as int, map_shape(s, v),
            opacity),
        final(buf)@.len() == old(buf)@.len(),
{
    let m = map_shape_exec(s, v);
    match m.fill {
        Some(c) => {
            let scaled = Color(mul_div_255(c.0, opacity), c.1, c.2, c.3);
            fill_rect(buf, t.width, t.height, t.left, t.top, m.rect, scaled);
        },
        None => {},
    }
    match m.stroke {
        Some(k) => {
            let (outer, inner) = stroke_edges(m.rect, k.width);
            let scaled = Color(mul_div_255(k.color.0, opacity), k.color.1, k.color.2, k.color.3);
            fill_region(buf, t.width, t.height, t.left, t.top, outer, inner, scaled);
        },
        None => {},
    }
}

/// Draws the shapes in order onto a surface, mapped through the view, each
/// paint's alpha scaled by `opacity`.
pub fn fill_shapes(buf: &mut Vec<u8>, t: Target, v: ViewMap, shapes: &Vec<Shape>, opacity: u8)
    requires
        is_buffer(old(buf)@, t.width as int, t.height as int),
        view_ok(v),
    ensures
        final(buf)@ == fill_all(old(buf)@, t, v, shapes@, opacity),
        final(buf)@.len() == old(buf)@.len(),
{
    let ghost orig = buf@;
    let mut i: usize = 0;
    while i < shapes.len()
        invariant
            view_ok(v),
            i <= shapes@.len(),
            buf@.len() == orig.len(),
            is_buffer(orig, t.width as int, t.height as int),
            buf@ == fill_all(orig, t, v, shapes@.subrange(0, i as int), opacity),
        decreases shapes@.len() - i,
    {
        let ghost sub = shapes@.subrange(0, i as int + 1);
        assert(sub.drop_last() =~= shapes@.subrange(0, i as int));
        draw_shape(buf, t, v, shapes[i], opacity);
        i += 1;
    }
    assert(shapes@.subrange(0, i as int) =~= shapes@);
}

proof fn lemma_region_fits(lw: int, lh: int, width: int, height: int)
    requires
        0 < lw <= width,
        0 < lh <= height,
    ensures
        4 * lw * lh <= 4 * width * height,
        4 * lw * lh == 4 * (lw * lh),
        4 * lw <= 4 * lw * lh,
{
    assert(4 * lw <= 4 * lw * lh) by (nonlinear_arith)
        requires 0 < lw, 0 < lh;
    assert(lw * lh <= width * height) by (nonlinear_arith)
        requires 0 < lw <= width, 0 < lh <= height;
    assert(4 * lw * lh == 4 * (lw * lh)) by (nonlinear_arith);
    assert(4 * width * height == 4 * (width * height)) by (nonlinear_arith);
}

/// The region a group's layer covers on a target: the target, cut to the
/// clip mapped through the view.
pub fn layer_region(t: Target, clip: Option<IRect>, v: ViewMap) -> (r: IRect)
    requires
        view_ok(v),
    ensures
        r == group_region(t, clip, v),
        !r.spec_is_empty() ==> t.left <= r.left < r.right <= t.left + t.width
            && t.top <= r.top < r.bottom <= t.top + t.height,
{
    let whole = IRect {
        left: t.left,
        top: t.top,
        right: saturate_exec(t.left as i64 + t.width as i64),
        bottom: saturate_exec(t.top as i64 + t.height as i64),
    };
    match clip {
        Some(c) => whole.intersect(&map_rect_exec(c, v)),
        None => whole,
    }
}

/// Draws the nodes in document order onto a surface, through the view,
/// with the inherited opacity; later nodes composite over earlier ones.
pub fn draw_node_list(buf: &mut Vec<u8>, t: Target, v: ViewMap, nodes: &Vec<Node>, opacity: u8)
    requires
        is_buffer(old(buf)@, t.width as int, t.height as int),
        view_ok(v),
    ensures
        final(buf)@ == draw_nodes(old(buf)@, t, v, nodes@, opacity),
        final(buf)@.len() == old(buf)@.len(),
    decreases nodes@,
{
    let ghost orig = buf@;
    let mut i: usize = 0;
    while i < nodes.len()
        invariant
            view_ok(v),
            i <= nodes@.len(),
            buf@.len() == orig.len(),
            is_buffer(orig, t.width as int, t.height as int),
            buf@ == draw_nodes(orig, t, v, nodes@.subrange(0, i as int), opacity),
        decreases nodes@.len() - i,
    {
        let ghost sub = nodes@.subrange(0, i as int + 1);
        assert(sub.subrange(0, sub.len() - 1) =~= nodes@.subrange(0, i as int));
        assert(sub[sub.len() - 1] == nodes@[i as int]);
        match &nodes[i] {
            Node::Shape(s) => draw_shape(buf, t, v, *s, opacity),
            Node::Group(g) => {
                assert(decreases_to!(nodes@ => nodes@[i as int]));
                draw_group_onto(buf, t, v, g, opacity);
            },
        }
        i += 1;
    }
    assert(nodes@.subrange(0, i as int) =~= nodes@);
}

/// Draws a group onto a surface (see [`draw_group`]) and returns how many
/// layers it allocated for itself.
pub fn draw_group_onto(buf: &mut Vec<u8>, t: Target, pv: ViewMap, g: &Group, inherited: u8) -> (layers: u32)
    requires
        is_buffer(old(buf)@, t.width as int, t.height as int),
        view_ok(pv),
    ensures
        final(buf)@ == draw_group(old(buf)@, t, pv, *g, inherited),
        final(buf)@.len() == old(buf)@.len(),
        layers == group_layers(t, pv, *g, inherited),
    decreases *g,
{
    let v = translate_view(pv, g.dx, g.dy);
    let op = mul_div_255(g.opacity, inherited);
    let c = Compositing {
        opacity: op,
        blend_mode: g.blend_mode,
        has_filter: g.filter.is_some(),
        has_clip: g.clip.is_some(),
        has_mask: g.mask.is_some(),
    };
    if !needs_layer(&c, count_draws(&g.children)) {
        draw_node_list(buf, t, v, &g.children, op);
        return 0;
    }
    let r = layer_region(t, g.clip, v);
    if r.is_empty() {
        return 0;
    }
    let lw = (r.right as i64 - r.left as i64) as u32;
    let lh = (r.bottom as i64 - r.top as i64) as u32;
    let lt = Target { width: lw, height: lh, left: r.left, top: r.top };
    let buf_len = buf.len();
    proof { lemma_region_fits(lw as int, lh as int, t.width as int, t.height as int); }
    let n: usize = 4 * (lw as usize) * (lh as usize);
    let mut layer = transparent_buffer(n);
    draw_node_list(&mut layer, lt, v, &g.children, 255);
    let mut layer = match &g.filter {
        Some(steps) => {
            let whole = IRect { left: 0, top: 0, right: lw as i32, bottom: lh as i32 };
            apply_filter(&layer, lw, lh, whole, steps)
        },
        None => layer,
    };
    match &g.mask {
        Some(ms) => {
            let mut content = transparent_buffer(n);
            fill_shapes(&mut content, lt, v, ms, 255);
            let coverage = to_luminance_mask(&content);
            apply_mask(&mut layer, &coverage);
        },
        None => {},
    }
    draw_layer(g.blend_mode, buf, t.width, t.height, &layer, r.left as i64 - t.left as i64,
        r.top as i64 - t.top as i64, lw, lh, op);
    1
}

/// Drawing nodes keeps the size of the surface.
pub proof fn lemma_draw_nodes_len(buf: Seq<u8>, t: Target, v: ViewMap, nodes: Seq<Node>, opacity: u8)
    ensures
        draw_nodes(buf, t, v, nodes, opacity).len() == buf.len(),
    decreases nodes,
{
    if nodes.len() > 0 {
        lemma_draw_nodes_len(buf, t, v, nodes.subrange(0, nodes.len() - 1), opacity);
        let prev = draw_nodes(buf, t, v, nodes.subrange(0, nodes.len() - 1), opacity);
        match nodes[nodes.len() - 1] {
            Node::Group(g) => {
                assert(decreases_to!(nodes => nodes[nodes.len() - 1]));
                lemma_draw_group_len(prev, t, v, g, opacity);
            },
            _ => {},
        }
    }
}

/// Drawing a group keeps the size of the surface.
pub proof fn lemma_draw_group_len(buf: Seq<u8>, t: Target, v: ViewMap, g: Group, inherited: u8)
    ensures
        draw_group(buf, t, v, g, inherited).len() == buf.len(),
    decreases g,
{
    lemma_draw_nodes_len(buf, t, translated(v, g.dx, g.dy), g.children@, effective_opacity(g, inherited));
}

/// A group that is fully opaque, blends source-over, has no clip, mask or
/// filter, and inherits no partial opacity (or makes at most one draw) needs
/// no layer: it allocates nothing and its children are drawn straight onto
/// the surface.
pub proof fn lemma_plain_group_draws_directly(buf: Seq<u8>, t: Target, v: ViewMap, g: Group, inherited: u8)
    requires
        g.opacity == 255,
        g.blend_mode == BlendMode::SourceOver,
        g.clip is None,
        g.mask is None,
        g.filter is None,
        inherited == 255 || child_draws(g.children@) <= 1,
    ensures
        group_layers(t, v, g, inherited) == 0,
        draw_group(buf, t, v, g, inherited) == draw_nodes(buf, t, translated(v, g.dx, g.dy), g.children@,
            effective_opacity(g, inherited)),
        effective_opacity(g, inherited) == inherited,
{
    lemma_mul255_full(inherited as int);
}

/// A group whose clip leaves nothing of the surface contributes nothing:
/// the surface keeps every byte.
pub proof fn lemma_empty_clip_draws_nothing(buf: Seq<u8>, t: Target, v: ViewMap, g: Group, inherited: u8)
    requires
        g.clip is Some,
        group_region(t, g.clip, translated(v, g.dx, g.dy)).spec_is_empty(),
    ensures
        draw_group(buf, t, v, g, inherited) == buf,
{
}

/// A group whose mask draws nothing contributes nothing: its layer comes
/// out fully transparent, and composited source-over it leaves the surface
/// with every byte it had.
pub proof fn lemma_empty_mask_draws_nothing(buf: Seq<u8>, t: Target, pv: ViewMap, g: Group, inherited: u8)
    requires
        is_buffer(buf, t.width as int, t.height as int),
        mask_shapes(g) == Some(Seq::<Shape>::empty()),
        g.blend_mode == BlendMode::SourceOver,
    ensures
        draw_group(buf, t, pv, g, inherited) == buf,
{
    let v = translated(pv, g.dx, g.dy);
    let r = group_region(t, g.clip, v);
    if !r.spec_is_empty() {
        let lt = layer_target(r);
        let lw = lt.width as int;
        let lh = lt.height as int;
        let n = 4 * lw * lh;
        let op = effective_opacity(g, inherited);
        let drawn = draw_nodes(transparent(n), lt, v, g.children@, 255);
        let content = match filter_steps(g) {
            Some(steps) => filtered(drawn, lw, lh, local_region(lw, lh), steps),
            None => drawn,
        };
        let cover = luminance_mask(fill_all(transparent(n), lt, v, Seq::empty(), 255));
        assert(n == 4 * (lw * lh)) by (nonlinear_arith)
            requires n == 4 * lw * lh;
        assert(0 <= lw * lh) by (nonlinear_arith)
            requires 0 <= lw, 0 <= lh;
        lemma_draw_nodes_len(transparent(n), lt, v, g.children@, 255);
        match filter_steps(g) {
            Some(steps) => { lemma_filtered_len(drawn, lw, lh, local_region(lw, lh), steps); },
            None => {},
        }
        assert forall|p: int| 0 <= p < cover.len() implies #[trigger] cover[p] == 0 by {}
        lemma_empty_mask_clears(content, cover);
        let layer = masked(content, cover);
        let ox = r.left - t.left;
        let oy = r.top - t.top;
        let out = layered(BlendMode::SourceOver, buf, layer, t.width as int, ox, oy, lw, lh, op as int);
        assert forall|k: int| 0 <= k < buf.len() implies #[trigger] out[k] == buf[k] by {
            if in_layer(k, t.width as int, ox, oy, lw, lh) {
                let q = layer_byte_index(k, t.width as int, ox, oy, lw);
                lemma_layer_byte_in_range(k, t.width as int, t.height as int, ox, oy, lw, lh);
                assert(layer[q] == 0);
                assert(layer[q - q % 4 + 3] == 0);
                lemma_mul255_zero(op as int);
                lemma_mul255_full(buf[k] as int);
            }
        }
        assert(out =~= buf);
    }
}

/// A plain group: no translation, fully opaque, source-over, no mask or
/// filter, clipped to `clip`, with the given children.
pub open spec fn clip_only_group(g: Group, clip: IRect, children: Seq<Node>) -> bool {
    &&& g.dx == 0
    &&& g.dy == 0
    &&& g.opacity == 255
    &&& g.blend_mode == BlendMode::SourceOver
    &&& g.clip == Some(clip)
    &&& g.mask is None
    &&& g.filter is None
    &&& g.children@ == children
}

/// The region left by clipping the target to `a` and then to `b`.
pub open spec fn nested_clip_region(t: Target, v: ViewMap, a: IRect, b: IRect) -> IRect {
    target_rect(t).spec_intersect(map_rect(a, v)).spec_intersect(map_rect(b, v))
}

/// A surface after content drawn into a layer cut to the region `r` is
/// composited back source-over: pixels outside `r` keep their bytes.
pub open spec fn composited_in_region(buf: Seq<u8>, t: Target, v: ViewMap, r: IRect, c: Seq<Node>) -> Seq<u8> {
    let lt = layer_target(r);
    let l = draw_nodes(transparent(4 * lt.width * lt.height), lt, v, c, 255);
    Seq::new(buf.len(), |k: int| {
        let x = t.left + px(k / 4, t.width as int);
        let y = t.top + py(k / 4, t.width as int);
        if !r.spec_is_empty() && r.contains(x, y) {
            let q = 4 * ((y - r.top) * lt.width + (x - r.left)) + k % 4;
            blend(BlendMode::SourceOver, buf[k] as int, l[q] as int, l[q - q % 4 + 3] as int,
                buf[k - k % 4 + 3] as int) as u8
        } else {
            buf[k]
        }
    })
}

proof fn lemma_split_index(q: int, w: int, lx: int, ly: int, j: int)
    requires
        0 <= lx < w,
        0 <= ly,
        0 <= j < 4,
        q == 4 * (ly * w + lx) + j,
    ensures
        q / 4 == ly * w + lx,
        q % 4 == j,
        px(q / 4, w) == lx,
        py(q / 4, w) == ly,
{
    vstd::arithmetic::div_mod::lemma_fundamental_div_mod_converse(q, 4, ly * w + lx, j);
    vstd::arithmetic::div_mod::lemma_fundamental_div_mod_converse(ly * w + lx, w, ly, lx);
}

/// Drawing a transparent layer source-over leaves every byte.
proof fn lemma_transparent_layer(buf: Seq<u8>, t: Target, layer: Seq<u8>, ox: int, oy: int, lw: int, lh: int)
    requires
        is_buffer(buf, t.width as int, t.height as int),
        layer.len() == 4 * (lw * lh),
        forall|q: int| 0 <= q < layer.len() ==> #[trigger] layer[q] == 0,
    ensures
        layered(BlendMode::SourceOver, buf, layer, t.width as int, ox, oy, lw, lh, 255) == buf,
{
    let out = layered(BlendMode::SourceOver, buf, layer, t.width as int, ox, oy, lw, lh, 255);
    assert forall|k: int| 0 <= k < buf.len() implies #[trigger] out[k] == buf[k] by {
        if in_layer(k, t.width as int, ox, oy, lw, lh) {
            let q = layer_byte_index(k, t.width as int, ox, oy, lw);
            lemma_layer_byte_in_range(k, t.width as int, t.height as int, ox, oy, lw, lh);
            assert(layer[q] == 0);
            assert(layer[q - q % 4 + 3] == 0);
            lemma_mul255_zero(255);
            lemma_mul255_full(buf[k] as int);
        }
    }
    assert(out =~= buf);
}

/// A clip-only group holding one clip-only group: the result is the content
/// composited once within the target cut to both clips.
proof fn lemma_nested_clip_result(
    buf: Seq<u8>,
    t: Target,
    v: ViewMap,
    outer: Group,
    inner: Group,
    a: IRect,
    b: IRect,
    c: Seq<Node>,
)
    requires
        is_buffer(buf, t.width as int, t.height as int),
        clip_only_group(inner, b, c),
        clip_only_group(outer, a, seq![Node::Group(inner)]),
    ensures
        draw_group(buf, t, v, outer, 255) == composited_in_region(buf, t, v, nested_clip_region(t, v, a, b), c),
{
    lemma_mul255_full(255);
    assert(translated(v, 0, 0) == v);
    let r1 = group_region(t, Some(a), v);
    let r2 = nested_clip_region(t, v, a, b);
    let res = composited_in_region(buf, t, v, r2, c);
    if r1.spec_is_empty() {
        assert(res =~= buf);
        return;
    }
    let lt1 = layer_target(r1);
    let w1 = lt1.width as int;
    let h1 = lt1.height as int;
    let n1 = 4 * w1 * h1;
    assert(target_rect(lt1) == r1);
    assert(n1 == 4 * (w1 * h1)) by (nonlinear_arith)
        requires n1 == 4 * w1 * h1;
    assert(0 <= w1 * h1) by (nonlinear_arith)
        requires 0 <= w1, 0 <= h1;
    let one = seq![Node::Group(inner)];
    assert(one.subrange(0, 0) =~= Seq::<Node>::empty());
    assert(draw_nodes(transparent(n1), lt1, v, one.subrange(0, 0), 255) == transparent(n1));
    assert(one[0] == Node::Group(inner));
    let l1 = draw_group(transparent(n1), lt1, v, inner, 255);
    assert(draw_nodes(transparent(n1), lt1, v, one, 255) == l1);
    assert(group_region(lt1, Some(b), v) == r2);
    let ox1 = r1.left - t.left;
    let oy1 = r1.top - t.top;
    let out = draw_group(buf, t, v, outer, 255);
    assert(out == layered(BlendMode::SourceOver, buf, l1, t.width as int, ox1, oy1, w1, h1, 255));
    if r2.spec_is_empty() {
        assert(l1 == transparent(n1));
        lemma_transparent_layer(buf, t, l1, ox1, oy1, w1, h1);
        assert(res =~= buf);
        return;
    }
    let lt2 = layer_target(r2);
    let w2 = lt2.width as int;
    let h2 = lt2.height as int;
    let n2 = 4 * w2 * h2;
    let l2 = draw_nodes(transparent(n2), lt2, v, c, 255);
    lemma_draw_nodes_len(transparent(n2), lt2, v, c, 255);
    assert(n2 == 4 * (w2 * h2)) by (nonlinear_arith)
        requires n2 == 4 * w2 * h2;
    assert(0 <= w2 * h2) by (nonlinear_arith)
        requires 0 <= w2, 0 <= h2;
    let ox2 = r2.left - r1.left;
    let oy2 = r2.top - r1.top;
    assert(l1 == layered(BlendMode::SourceOver, transparent(n1), l2, w1, ox2, oy2, w2, h2, 255));
    assert(4 * t.width * t.height == 4 * (t.width * t.height)) by (nonlinear_arith);
    assert forall|k: int| 0 <= k < buf.len() implies #[trigger] out[k] == res[k] by {
        let x = t.left + px(k / 4, t.width as int);
        let y = t.top + py(k / 4, t.width as int);
        let j = k % 4;
        if in_layer(k, t.width as int, ox1, oy1, w1, h1) {
            let q1 = layer_byte_index(k, t.width as int, ox1, oy1, w1);
            lemma_layer_byte_in_range(k, t.width as int, t.height as int, ox1, oy1, w1, h1);
            let lx1 = x - r1.left;
            let ly1 = y - r1.top;
            lemma_split_index(q1, w1, lx1, ly1, j);
            let qa1 = q1 - q1 % 4 + 3;
            lemma_split_index(qa1, w1, lx1, ly1, 3);
            if r2.contains(x, y) {
                lemma_layer_byte_in_range(q1, w1, h1, ox2, oy2, w2, h2);
                lemma_layer_byte_in_range(qa1, w1, h1, ox2, oy2, w2, h2);
                let q2 = layer_byte_index(q1, w1, ox2, oy2, w2);
                let qa2 = layer_byte_index(qa1, w1, ox2, oy2, w2);
                assert(q2 == 4 * ((y - r2.top) * w2 + (x - r2.left)) + j);
                assert(qa2 == q2 - q2 % 4 + 3);
                lemma_mul255_full(l2[q2] as int);
                lemma_mul255_full(l2[qa2] as int);
                lemma_mul255_zero(255 - l2[qa2] as int);
                assert(l1[q1] == l2[q2]);
                assert(l1[qa1] == l2[qa2]);
                lemma_mul255_full(l1[q1] as int);
                lemma_mul255_full(l1[qa1] as int);
            } else {
                assert(!in_layer(q1, w1, ox2, oy2, w2, h2));
                assert(!in_layer(qa1, w1, ox2, oy2, w2, h2));
                assert(l1[q1] == 0);
                assert(l1[qa1] == 0);
                lemma_mul255_zero(255);
                lemma_mul255_full(buf[k] as int);
            }
        }
    }
    assert(out =~= res);
}

/// Clipping by `a` and then by `b` leaves the same image as clipping by `b`
/// and then by `a`: two nested clip-only groups drawn around the same
/// content give the same surface in either order.
pub proof fn lemma_nested_clips_commute(
    buf: Seq<u8>,
    t: Target,
    v: ViewMap,
    outer_ab: Group,
    inner_ab: Group,
    outer_ba: Group,
    inner_ba: Group,
    a: IRect,
    b: IRect,
    c: Seq<Node>,
)
    requires
        is_buffer(buf, t.width as int, t.height as int),
        clip_only_group(inner_ab, b, c),
        clip_only_group(outer_ab, a, seq![Node::Group(inner_ab)]),
        clip_only_group(inner_ba, a, c),
        clip_only_group(outer_ba, b, seq![Node::Group(inner_ba)]),
    ensures
        draw_group(buf, t, v, outer_ab, 255) == draw_group(buf, t, v, outer_ba, 255),
{
    lemma_nested_clip_result(buf, t, v, outer_ab, inner_ab, a, b, c);
    lemma_nested_clip_result(buf, t, v, outer_ba, inner_ba, b, a, c);
    assert(nested_clip_region(t, v, a, b) == nested_clip_region(t, v, b, a));
}

} // verus!
