//! The public render entry points: sizing the output image by a fit
//! policy, mapping the scene onto it, and drawing its nodes in document
//! order.

use vstd::prelude::*;
use crate::canvas::{BlendMode, Color, IRect};
use crate::image::{demultiplied_image, Image};
use crate::pixel::{draw_layer, filled, fill_rect, is_buffer, layered};
use crate::render::{draw_group, draw_group_onto, draw_node_list, draw_nodes, transparent, transparent_buffer,
    Group, Node, Target};
use crate::view::{clamp_i32, view_of, ViewMap};

verus! {

/// How the output image is sized from the scene's own size.
#[derive(Debug, Copy, Clone, PartialEq, Eq, Hash, Structural)]
pub enum FitTo {
    /// Keep the original size.
    Original,
    /// Scale to the given width, keeping the aspect ratio.
    Width(u32),
    /// Scale to the given height, keeping the aspect ratio.
    Height(u32),
}

/// A scene: its size in user units and its top-level nodes in document
/// order.
#[derive(Debug)]
pub struct Scene {
    pub width: u32,
    pub height: u32,
    pub nodes: Vec<Node>,
}

/// The other side of a size whose side `from` is scaled to `to`, as the fit
/// policy rounds it.
pub uninterp spec fn fitted_side(side: u32, from: u32, to: u32) -> u32;

/// Relies on usvg's `FitTo::fit_to`: the original size is kept; scaling to a
/// width or height sets that side and derives the other, and fails when the
/// requested side is zero.
#[verifier::external_body]
fn fit_size(width: u32, height: u32, fit: FitTo) -> (r: Option<(u32, u32)>)
    requires
        width > 0,
        height > 0,
    ensures
        fit == FitTo::Original ==> r == Some((width, height)),
        forall|w: u32| fit == FitTo::Width(w) ==> (r is Some <==> w > 0)
            && (r is Some ==> r->0 == (w, fitted_side(height, width, w))),
        forall|h: u32| fit == FitTo::Height(h) ==> (r is Some <==> h > 0)
            && (r is Some ==> r->0 == (fitted_side(width, height, h), h)),
{
    let size = usvg::ScreenSize::new(width, height)?;
    let fit = match fit {
        FitTo::Original => usvg::FitTo::Original,
        FitTo::Width(w) => usvg::FitTo::Width(w),
        FitTo::Height(h) => usvg::FitTo::Height(h),
    };
    fit.fit_to(size).map(|s| (s.width(), s.height()))
}

/// The device rectangle of a `width * height` canvas, as far as `i32`
/// coordinates reach.
pub open spec fn canvas_rect(width: u32, height: u32) -> IRect {
    IRect {
        left: 0,
        top: 0,
        right: if width > i32::MAX { i32::MAX } else { width as i32 },
        bottom: if height > i32::MAX { i32::MAX } else { height as i32 },
    }
}

/// A fresh canvas: transparent, or filled with the background color.
pub open spec fn root_canvas(width: u32, height: u32, background: Option<Color>) -> Seq<u8> {
    match background {
        Some(c) => filled(transparent(4 * width * height), width as int, 0, 0, canvas_rect(width, height), c),
        None => transparent(4 * width * height),
    }
}

/// Allocates a root canvas of `width * height` pixels, transparent or
/// filled with the background color. There is none when a side is zero or
/// the buffer's size does not fit in memory addresses.
pub fn create_canvas(width: u32, height: u32, background: Option<Color>) -> (r: Option<Vec<u8>>)
    ensures
        r is Some <==> (width > 0 && height > 0 && 4 * width * height <= usize::MAX),
        r matches Some(c) ==> c@ == root_canvas(width, height, background),
{
    if width == 0 || height == 0 {
        return None;
    }
    let n = match (width as usize).checked_mul(height as usize) {
        Some(n) => n,
        None => {
            assert(width * height > usize::MAX);
            assert(4 * width * height > usize::MAX) by (nonlinear_arith)
                requires width * height > usize::MAX;
            return None;
        },
    };
    let n = match n.checked_mul(4) {
        Some(b) => b,
        None => {
            assert(4 * width * height == 4 * (width * height)) by (nonlinear_arith);
            return None;
        },
    };
    assert(4 * width * height == 4 * (width * height)) by (nonlinear_arith);
    let mut buf = transparent_buffer(n);
    match background {
        Some(c) => {
            let full = IRect {
                left: 0,
                top: 0,
                right: if width > 0x7fff_ffff { 0x7fff_ffff } else { width as i32 },
                bottom: if height > 0x7fff_ffff { 0x7fff_ffff } else { height as i32 },
            };
            fill_rect(&mut buf, width, height, 0, 0, full, c);
        },
        None => {},
    }
    Some(buf)
}

/// The smallest rectangle that holds both.
pub open spec fn union_rect(a: IRect, b: IRect) -> IRect {
    IRect {
        left: if a.left < b.left { a.left } else { b.left },
        top: if a.top < b.top { a.top } else { b.top },
        right: if a.right < b.right { b.right } else { a.right },
        bottom: if a.bottom < b.bottom { b.bottom } else { a.bottom },
    }
}

pub open spec fn union_opt(a: Option<IRect>, b: Option<IRect>) -> Option<IRect> {
    match (a, b) {
        (Some(x), Some(y)) => Some(union_rect(x, y)),
        (Some(x), None) => Some(x),
        (None, y) => y,
    }
}

/// A box moved by `(dx, dy)`, kept within `i32`.
pub open spec fn shift_opt(b: Option<IRect>, dx: i32, dy: i32) -> Option<IRect> {
    match b {
        Some(r) => Some(IRect {
            left: clamp_i32(r.left + dx),
            top: clamp_i32(r.top + dy),
            right: clamp_i32(r.right + dx),
            bottom: clamp_i32(r.bottom + dy),
        }),
        None => None,
    }
}

/// The bounding box, in the nodes' user space, of the shapes among the
/// nodes and their descendants that cover any pixel, if there is one.
pub open spec fn nodes_bbox(nodes: Seq<Node>) -> Option<IRect>
    decreases nodes,
{
    if nodes.len() == 0 {
        None
    } else {
        let prev = nodes_bbox(nodes.subrange(0, nodes.len() - 1));
        let own = match nodes[nodes.len() - 1] {
            Node::Shape(s) => if s.rect.spec_is_empty() { None } else { Some(s.rect) },
            Node::Group(g) => shift_opt(nodes_bbox(g.children@), g.dx, g.dy),
        };
        union_opt(prev, own)
    }
}

/// The bounding box of a group in its parent's user space.
pub open spec fn group_bbox(g: Group) -> Option<IRect> {
    shift_opt(nodes_bbox(g.children@), g.dx, g.dy)
}

fn shift_exec(b: Option<IRect>, dx: i32, dy: i32) -> (r: Option<IRect>)
    ensures
        r == shift_opt(b, dx, dy),
{
    match b {
        Some(r) => Some(IRect {
            left: clamp_exec(r.left as i64 + dx as i64),
            top: clamp_exec(r.top as i64 + dy as i64),
            right: clamp_exec(r.right as i64 + dx as i64),
            bottom: clamp_exec(r.bottom as i64 + dy as i64),
        }),
        None => None,
    }
}

fn clamp_exec(v: i64) -> (r: i32)
    ensures
        r == clamp_i32(v as int),
{
    if v > 0x7fff_ffff {
        0x7fff_ffff
    } else if v < -0x8000_0000 {
        -0x8000_0000
    } else {
        v as i32
    }
}

/// The premultiplied pixels of a whole scene rendered at `to_w * to_h`.
pub open spec fn rendered_scene(s: Scene, to_w: u32, to_h: u32, background: Option<Color>) -> Seq<u8> {
    draw_nodes(root_canvas(to_w, to_h, background), Target { width: to_w, height: to_h, left: 0, top: 0 },
        view_of(0, 0, s.width, s.height, to_w, to_h), s.nodes@, 255)
}

/// The premultiplied pixels of one group rendered on its own, its bounding
/// box `b` mapped onto `to_w * to_h` pixels.
pub open spec fn rendered_node(g: Group, b: IRect, to_w: u32, to_h: u32, background: Option<Color>)
    -> Seq<u8>
{
    draw_group(root_canvas(to_w, to_h, background), Target { width: to_w, height: to_h, left: 0, top: 0 },
        view_of(b.left, b.top, (b.right - b.left) as u32, (b.bottom - b.top) as u32, to_w, to_h), g, 255)
}

fn union_exec(a: Option<IRect>, b: Option<IRect>) -> (r: Option<IRect>)
    ensures
        r == union_opt(a, b),
{
    match (a, b) {
        (Some(x), Some(y)) => Some(IRect {
            left: if x.left < y.left { x.left } else { y.left },
            top: if x.top < y.top { x.top } else { y.top },
            right: if x.right < y.right { y.right } else { x.right },
            bottom: if x.bottom < y.bottom { y.bottom } else { x.bottom },
        }),
        (Some(x), None) => Some(x),
        (None, y) => y,
    }
}

/// The bounding box of the shapes among the nodes and their descendants
/// that cover any pixel.
pub fn calculate_bbox(nodes: &Vec<Node>) -> (r: Option<IRect>)
    ensures
        r == nodes_bbox(nodes@),
    decreases nodes@,
{
    let mut b: Option<IRect> = None;
    let mut i: usize = 0;
    while i < nodes.len()
        invariant
            i <= nodes@.len(),
            b == nodes_bbox(nodes@.subrange(0, i as int)),
        decreases nodes@.len() - i,
    {
        let ghost sub = nodes@.subrange(0, i as int + 1);
        assert(sub.subrange(0, sub.len() - 1) =~= nodes@.subrange(0, i as int));
        assert(sub[sub.len() - 1] == nodes@[i as int]);
        let own = match &nodes[i] {
            Node::Shape(s) => if s.rect.is_empty() { None } else { Some(s.rect) },
            Node::Group(g) => {
                assert(decreases_to!(nodes@ => nodes@[i as int]));
                shift_exec(calculate_bbox(&g.children), g.dx, g.dy)
            },
        };
        b = union_exec(b, own);
        i += 1;
    }
    assert(nodes@.subrange(0, i as int) =~= nodes@);
    b
}

/// The image size that a fit policy gives for a source of `w * h`.
pub open spec fn fitted(w: u32, h: u32, fit: FitTo) -> Option<(u32, u32)> {
    match fit {
        FitTo::Original => Some((w, h)),
        FitTo::Width(tw) => if tw > 0 { Some((tw, fitted_side(h, w, tw))) } else { None },
        FitTo::Height(th) => if th > 0 { Some((fitted_side(w, h, th), th)) } else { None },
    }
}

/// Whether a canvas of `w * h` pixels can be allocated.
pub open spec fn allocatable(w: u32, h: u32) -> bool {
    w > 0 && h > 0 && 4 * w * h <= usize::MAX
}

fn fit(width: u32, height: u32, f: FitTo) -> (r: Option<(u32, u32)>)
    requires
        width > 0,
        height > 0,
    ensures
        r == fitted(width, height, f),
{
    let r = fit_size(width, height, f);
    proof {
        match f {
            FitTo::Original => {},
            FitTo::Width(w) => assert(f == FitTo::Width(w)),
            FitTo::Height(h) => assert(f == FitTo::Height(h)),
        }
    }
    r
}

/// What rendering a scene gives: nothing for a scene or fitted size with a
/// zero side or a canvas that cannot be allocated, else the image of the
/// rendered scene at the fitted size.
pub open spec fn render_outcome(scene: Scene, fit_to: FitTo, background: Option<Color>, r: Option<Image>)
    -> bool
{
    if scene.width == 0 || scene.height == 0 {
        r is None
    } else {
        match fitted(scene.width, scene.height, fit_to) {
            None => r is None,
            Some((w, h)) => if allocatable(w, h) {
                r is Some && r->0@.1 == w && r->0@.2 == h && r->0@.0.len() == 4 * w * h
                    && demultiplied_image(r->0@.0, rendered_scene(scene, w, h, background))
            } else {
                r is None
            },
        }
    }
}

/// Rendering the same scene twice, with the same fit policy and background,
/// gives the same image byte for byte, or no image both times.
pub proof fn lemma_render_deterministic(
    scene: Scene,
    fit_to: FitTo,
    background: Option<Color>,
    a: Option<Image>,
    b: Option<Image>,
)
    requires
        render_outcome(scene, fit_to, background, a),
        render_outcome(scene, fit_to, background, b),
    ensures
        a is Some <==> b is Some,
        a is Some ==> a->0@ == b->0@,
{
}

/// Renders a scene to a new image sized by the fit policy, over an optional
/// background color. There is no image when the scene or the fitted size
/// has a zero side, or when the canvas cannot be allocated.
pub fn render(scene: &Scene, fit_to: FitTo, background: Option<Color>) -> (r: Option<Image>)
    ensures
        render_outcome(*scene, fit_to, background, r),
{
    if scene.width == 0 || scene.height == 0 {
        return None;
    }
    let (w, h) = match fit(scene.width, scene.height, fit_to) {
        Some(s) => s,
        None => return None,
    };
    let mut canvas = match create_canvas(w, h, background) {
        Some(c) => c,
        None => return None,
    };
    let v = ViewMap { left: 0, top: 0, from_w: scene.width, from_h: scene.height, to_w: w, to_h: h };
    draw_node_list(&mut canvas, Target { width: w, height: h, left: 0, top: 0 }, v, &scene.nodes, 255);
    Some(Image::from_canvas(canvas, w, h))
}

/// Renders one group on its own to a new image sized to the group's
/// bounding box, in its parent's user space, by the fit policy. There is no
/// image when no shape of the group covers a pixel, when the fitted size has a zero side, or when the
/// canvas cannot be allocated.
pub fn render_node(node: &Group, fit_to: FitTo, background: Option<Color>) -> (r: Option<Image>)
    ensures
        match group_bbox(*node) {
            None => r is None,
            Some(b) => if b.spec_is_empty() {
                r is None
            } else {
                let bw = (b.right - b.left) as u32;
                let bh = (b.bottom - b.top) as u32;
                match fitted(bw, bh, fit_to) {
                    None => r is None,
                    Some((w, h)) => if allocatable(w, h) {
                        r is Some && r->0@.1 == w && r->0@.2 == h && r->0@.0.len() == 4 * w * h
                            && demultiplied_image(r->0@.0, rendered_node(*node, b, w, h, background))
                    } else {
                        r is None
                    },
                }
            },
        },
{
    let b = match shift_exec(calculate_bbox(&node.children), node.dx, node.dy) {
        Some(b) => b,
        None => return None,
    };
    if b.is_empty() {
        return None;
    }
    let bw = (b.right as i64 - b.left as i64) as u32;
    let bh = (b.bottom as i64 - b.top as i64) as u32;
    let (w, h) = match fit(bw, bh, fit_to) {
        Some(s) => s,
        None => return None,
    };
    let mut canvas = match create_canvas(w, h, background) {
        Some(c) => c,
        None => return None,
    };
    let v = ViewMap { left: b.left, top: b.top, from_w: bw, from_h: bh, to_w: w, to_h: h };
    draw_group_onto(&mut canvas, Target { width: w, height: h, left: 0, top: 0 }, v, node, 255);
    Some(Image::from_canvas(canvas, w, h))
}

/// Renders a scene onto an existing premultiplied canvas of
/// `width * height` pixels, the scene's size mapped onto the canvas. A scene
/// with a zero side draws nothing.
pub fn render_to_canvas(scene: &Scene, width: u32, height: u32, canvas: &mut Vec<u8>)
    requires
        is_buffer(old(canvas)@, width as int, height as int),
    ensures
        (scene.width == 0 || scene.height == 0) ==> final(canvas)@ == old(canvas)@,
        scene.width > 0 && scene.height > 0 ==> final(canvas)@ == draw_nodes(old(canvas)@,
            Target { width, height, left: 0, top: 0 }, view_of(0, 0, scene.width, scene.height, width, height),
            scene.nodes@, 255),
{
    if scene.width == 0 || scene.height == 0 {
        return;
    }
    let v = ViewMap { left: 0, top: 0, from_w: scene.width, from_h: scene.height, to_w: width, to_h: height };
    draw_node_list(canvas, Target { width, height, left: 0, top: 0 }, v, &scene.nodes, 255);
}

/// Copies the `cw * ch` pixels of a premultiplied canvas of
/// `width * height` pixels whose top left corner is `(x, y)` into a new
/// buffer; pixels that fall outside the canvas are transparent. There is no
/// copy when a side is zero or the buffer does not fit in memory.
pub fn copy_rgba(canvas: &Vec<u8>, width: u32, height: u32, x: u32, y: u32, cw: u32, ch: u32)
    -> (r: Option<Vec<u8>>)
    requires
        is_buffer(canvas@, width as int, height as int),
    ensures
        r is Some <==> (cw > 0 && ch > 0 && 4 * cw * ch <= usize::MAX),
        r matches Some(b) ==> b@ == layered(BlendMode::SourceOver, transparent(4 * cw * ch), canvas@,
            cw as int, -x, -y, width as int, height as int, 255),
{
    let mut copy = match create_canvas(cw, ch, None) {
        Some(c) => c,
        None => return None,
    };
    draw_layer(BlendMode::SourceOver, &mut copy, cw, ch, canvas, -(x as i64), -(y as i64), width, height, 255);
    Some(copy)
}

} // verus!
