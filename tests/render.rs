use resvg::canvas::{BlendMode, Color, IRect};
use resvg::paint::{resolve_paint, PaintRef, PaintServer, Shader};
use resvg::image::Image;
use resvg::filter::{FilterStep, Input, Primitive};
use resvg::layer::{needs_layer, Compositing};
use resvg::mask::to_luminance_mask;
use resvg::render::{draw_group_onto, layer_region, fill_shapes, transparent_buffer, Group, Node, Shape, Stroke, Target};
use resvg::view::ViewMap;
use resvg::scene::{calculate_bbox, copy_rgba, create_canvas, render, render_node, render_to_canvas, FitTo, Scene};

fn rect(left: i32, top: i32, right: i32, bottom: i32) -> IRect {
    IRect { left, top, right, bottom }
}

fn pixel(img: &Image, x: u32, y: u32) -> [u8; 4] {
    let i = ((y * img.width() + x) * 4) as usize;
    let d = img.data();
    [d[i], d[i + 1], d[i + 2], d[i + 3]]
}

fn whole(width: u32, height: u32) -> Target {
    Target { width, height, left: 0, top: 0 }
}

fn identity() -> ViewMap {
    ViewMap { left: 0, top: 0, from_w: 1, from_h: 1, to_w: 1, to_h: 1 }
}

fn nodes_of(shapes: &[Shape]) -> Vec<Node> {
    shapes.iter().map(|s| Node::Shape(*s)).collect()
}

fn red() -> Color {
    Color::new(255, 255, 0, 0)
}

#[test]
fn single_red_rect_on_transparent() {
    let g = Group { dx: 0, dy: 0, opacity: 255, blend_mode: BlendMode::SourceOver, clip: None, mask: None, filter: None, children: vec![Node::Shape(Shape { rect: rect(2, 2, 8, 8), fill: Some(red()), stroke: None })] };
    let scene = Scene { width: 10, height: 10, nodes: vec![Node::Group(g)] };
    let img = render(&scene, FitTo::Original, None).unwrap();
    assert_eq!((img.width(), img.height()), (10, 10));
    assert_eq!(pixel(&img, 2, 2), [255, 0, 0, 255]);
    assert_eq!(pixel(&img, 5, 5), [255, 0, 0, 255]);
    assert_eq!(pixel(&img, 7, 7), [255, 0, 0, 255]);
    assert_eq!(pixel(&img, 0, 0), [0, 0, 0, 0]);
    assert_eq!(pixel(&img, 8, 5), [0, 0, 0, 0]);
}

#[test]
fn single_red_rect_on_background() {
    let g = Group { dx: 0, dy: 0, opacity: 255, blend_mode: BlendMode::SourceOver, clip: None, mask: None, filter: None, children: vec![Node::Shape(Shape { rect: rect(2, 2, 8, 8), fill: Some(red()), stroke: None })] };
    let scene = Scene { width: 10, height: 10, nodes: vec![Node::Group(g)] };
    let white = Color::new(255, 255, 255, 255);
    let img = render(&scene, FitTo::Original, Some(white)).unwrap();
    assert_eq!(pixel(&img, 4, 4), [255, 0, 0, 255]);
    assert_eq!(pixel(&img, 0, 9), [255, 255, 255, 255]);
    assert_eq!(pixel(&img, 9, 0), [255, 255, 255, 255]);
}

#[test]
fn group_opacity_composites_once() {
    let shapes = vec![
        Shape { rect: rect(0, 0, 6, 6), fill: Some(red()), stroke: None },
        Shape { rect: rect(4, 4, 10, 10), fill: Some(red()), stroke: None },
    ];
    let g = Group { dx: 0, dy: 0, opacity: 128, blend_mode: BlendMode::SourceOver, clip: None, mask: None, filter: None, children: nodes_of(&shapes) };
    let scene = Scene { width: 10, height: 10, nodes: vec![Node::Group(g)] };
    let img = render(&scene, FitTo::Original, None).unwrap();
    // The overlap is one 50% composite of the flattened group, the same as
    // a pixel that only one rectangle covers.
    assert_eq!(pixel(&img, 5, 5), [255, 0, 0, 128]);
    assert_eq!(pixel(&img, 1, 1), [255, 0, 0, 128]);
    assert_eq!(pixel(&img, 9, 9), [255, 0, 0, 128]);
    assert_eq!(pixel(&img, 9, 0), [0, 0, 0, 0]);
    // Two separate 50% draws would have stacked to a higher alpha.
    assert!(pixel(&img, 5, 5)[3] < 190);
}

#[test]
fn group_opacity_without_layer_stacks() {
    // The same rectangles drawn one by one at half alpha stack in the overlap.
    let half_red = Color::new(128, 255, 0, 0);
    let shapes = vec![
        Shape { rect: rect(0, 0, 6, 6), fill: Some(half_red), stroke: None },
        Shape { rect: rect(4, 4, 10, 10), fill: Some(half_red), stroke: None },
    ];
    let mut canvas = create_canvas(10, 10, None).unwrap();
    fill_shapes(&mut canvas, whole(10, 10), identity(), &shapes, 255);
    let i = (5 * 10 + 5) * 4;
    assert_eq!(canvas[i + 3], 192);
}

#[test]
fn render_node_sized_to_bbox() {
    let g = Group { dx: 0, dy: 0, opacity: 255, blend_mode: BlendMode::SourceOver, clip: None, mask: None, filter: None, children: vec![Node::Shape(Shape { rect: rect(10, 10, 30, 30), fill: Some(red()), stroke: None })] };
    let img = render_node(&g, FitTo::Original, None).unwrap();
    assert_eq!((img.width(), img.height()), (20, 20));
    assert_eq!(pixel(&img, 0, 0), [255, 0, 0, 255]);
    assert_eq!(pixel(&img, 19, 19), [255, 0, 0, 255]);
}

#[test]
fn render_node_without_area_gives_nothing() {
    let g = Group { dx: 0, dy: 0, opacity: 255, blend_mode: BlendMode::SourceOver, clip: None, mask: None, filter: None, children: vec![Node::Shape(Shape { rect: rect(10, 10, 10, 30), fill: Some(red()), stroke: None })] };
    assert!(render_node(&g, FitTo::Original, None).is_none());
    let empty = Group { dx: 0, dy: 0, opacity: 255, blend_mode: BlendMode::SourceOver, clip: None, mask: None, filter: None, children: vec![] };
    assert!(render_node(&empty, FitTo::Original, None).is_none());
}

#[test]
fn bbox_is_union_of_covering_shapes() {
    let shapes = vec![
        Shape { rect: rect(10, 10, 30, 30), fill: None, stroke: None },
        Shape { rect: rect(5, 20, 5, 90), fill: None, stroke: None },
        Shape { rect: rect(25, 0, 40, 15), fill: None, stroke: None },
    ];
    assert_eq!(calculate_bbox(&nodes_of(&shapes)), Some(rect(10, 0, 40, 30)));
}

#[test]
fn fit_to_width_scales_scene() {
    let g = Group { dx: 0, dy: 0, opacity: 255, blend_mode: BlendMode::SourceOver, clip: None, mask: None, filter: None, children: vec![Node::Shape(Shape { rect: rect(0, 0, 5, 5), fill: Some(red()), stroke: None })] };
    let scene = Scene { width: 10, height: 5, nodes: vec![Node::Group(g)] };
    let img = render(&scene, FitTo::Width(20), None).unwrap();
    assert_eq!((img.width(), img.height()), (20, 10));
    assert_eq!(pixel(&img, 9, 9), [255, 0, 0, 255]);
    assert_eq!(pixel(&img, 10, 0), [0, 0, 0, 0]);
    let img = render(&scene, FitTo::Height(10), None).unwrap();
    assert_eq!((img.width(), img.height()), (20, 10));
    assert!(render(&scene, FitTo::Width(0), None).is_none());
    assert!(render(&scene, FitTo::Height(0), None).is_none());
}

#[test]
fn zero_sized_scene_gives_no_image() {
    let scene = Scene { width: 0, height: 10, nodes: vec![] };
    assert!(render(&scene, FitTo::Original, None).is_none());
    assert!(create_canvas(0, 4, None).is_none());
    assert!(create_canvas(4, 0, None).is_none());
}

#[test]
fn rendering_twice_is_identical() {
    let shapes = vec![
        Shape { rect: rect(1, 1, 7, 5), fill: Some(Color::new(200, 10, 200, 30)), stroke: None },
        Shape { rect: rect(3, 2, 9, 9), fill: Some(Color::new(90, 0, 128, 255)), stroke: None },
    ];
    let g = Group { dx: 0, dy: 0, opacity: 77, blend_mode: BlendMode::SourceOver, clip: Some(rect(2, 0, 8, 8)), mask: None, filter: None, children: nodes_of(&shapes) };
    let scene = Scene { width: 10, height: 10, nodes: vec![Node::Group(g)] };
    let a = render(&scene, FitTo::Original, Some(Color::new(255, 1, 2, 3))).unwrap();
    let b = render(&scene, FitTo::Original, Some(Color::new(255, 1, 2, 3))).unwrap();
    assert_eq!(a.data(), b.data());
    assert_eq!(a.take(), b.take());
}

#[test]
fn plain_group_allocates_no_layer() {
    let shapes = vec![
        Shape { rect: rect(0, 0, 4, 4), fill: Some(red()), stroke: None },
        Shape { rect: rect(2, 2, 6, 6), fill: Some(red()), stroke: None },
    ];
    let mut canvas = create_canvas(8, 8, None).unwrap();
    let g = Group { dx: 0, dy: 0, opacity: 255, blend_mode: BlendMode::SourceOver, clip: None, mask: None, filter: None, children: nodes_of(&shapes) };
    assert_eq!(draw_group_onto(&mut canvas, whole(8, 8), identity(), &g, 255), 0);
    let g = Group { dx: 0, dy: 0, opacity: 128, blend_mode: BlendMode::SourceOver, clip: None, mask: None, filter: None, children: nodes_of(&shapes) };
    assert_eq!(draw_group_onto(&mut canvas, whole(8, 8), identity(), &g, 255), 1);
    let g = Group { dx: 0, dy: 0, opacity: 255, blend_mode: BlendMode::SourceOver, clip: Some(rect(0, 0, 3, 3)), mask: None, filter: None, children: nodes_of(&shapes) };
    assert_eq!(draw_group_onto(&mut canvas, whole(8, 8), identity(), &g, 255), 1);
}

#[test]
fn needs_layer_rules() {
    let plain = Compositing { opacity: 255, blend_mode: BlendMode::SourceOver, has_filter: false, has_clip: false, has_mask: false };
    assert!(!needs_layer(&plain, 0));
    assert!(!needs_layer(&plain, 5));
    let half = Compositing { opacity: 100, ..plain };
    assert!(!needs_layer(&half, 1));
    assert!(needs_layer(&half, 2));
    assert!(needs_layer(&Compositing { blend_mode: BlendMode::Multiply, ..plain }, 1));
    assert!(needs_layer(&Compositing { has_filter: true, ..plain }, 1));
    assert!(needs_layer(&Compositing { has_clip: true, ..plain }, 1));
    assert!(needs_layer(&Compositing { has_mask: true, ..plain }, 1));
}

#[test]
fn layer_region_is_cut_to_clip() {
    assert_eq!(layer_region(whole(10, 8), None, identity()), rect(0, 0, 10, 8));
    assert_eq!(layer_region(whole(10, 8), Some(rect(-5, 3, 4, 20)), identity()), rect(0, 3, 4, 8));
    assert!(layer_region(whole(10, 8), Some(rect(20, 20, 30, 30)), identity()).is_empty());
    let inner = Target { width: 4, height: 4, left: 2, top: 6 };
    assert_eq!(layer_region(inner, Some(rect(0, 0, 5, 8)), identity()), rect(2, 6, 5, 8));
    let half = ViewMap { left: 0, top: 0, from_w: 2, from_h: 2, to_w: 1, to_h: 1 };
    assert_eq!(layer_region(whole(10, 8), Some(rect(2, 2, 8, 40)), half), rect(1, 1, 4, 8));
}

#[test]
fn empty_clip_leaves_canvas_unchanged() {
    let white = Color::new(255, 255, 255, 255);
    let mut canvas = create_canvas(6, 6, Some(white)).unwrap();
    let before = canvas.clone();
    let g = Group { dx: 0, dy: 0, opacity: 255, blend_mode: BlendMode::SourceOver, clip: Some(rect(3, 3, 3, 9)), mask: None, filter: None, children: vec![Node::Shape(Shape { rect: rect(0, 0, 6, 6), fill: Some(red()), stroke: None })] };
    assert_eq!(draw_group_onto(&mut canvas, whole(6, 6), identity(), &g, 255), 0);
    assert_eq!(canvas, before);
}

#[test]
fn clip_rect_limits_drawing() {
    let g = Group { dx: 0, dy: 0, opacity: 255, blend_mode: BlendMode::SourceOver, clip: Some(rect(0, 0, 3, 10)), mask: None, filter: None, children: vec![Node::Shape(Shape { rect: rect(0, 0, 10, 10), fill: Some(red()), stroke: None })] };
    let scene = Scene { width: 10, height: 10, nodes: vec![Node::Group(g)] };
    let img = render(&scene, FitTo::Original, None).unwrap();
    assert_eq!(pixel(&img, 2, 5), [255, 0, 0, 255]);
    assert_eq!(pixel(&img, 3, 5), [0, 0, 0, 0]);
}

#[test]
fn later_groups_paint_over_earlier() {
    let blue = Color::new(255, 0, 0, 255);
    let g1 = Group { dx: 0, dy: 0, opacity: 255, blend_mode: BlendMode::SourceOver, clip: None, mask: None, filter: None, children: vec![Node::Shape(Shape { rect: rect(0, 0, 4, 4), fill: Some(red()), stroke: None })] };
    let g2 = Group { dx: 0, dy: 0, opacity: 255, blend_mode: BlendMode::SourceOver, clip: None, mask: None, filter: None, children: vec![Node::Shape(Shape { rect: rect(2, 2, 4, 4), fill: Some(blue), stroke: None })] };
    let scene = Scene { width: 4, height: 4, nodes: vec![Node::Group(g1), Node::Group(g2)] };
    let img = render(&scene, FitTo::Original, None).unwrap();
    assert_eq!(pixel(&img, 0, 0), [255, 0, 0, 255]);
    assert_eq!(pixel(&img, 3, 3), [0, 0, 255, 255]);
}

#[test]
fn render_onto_existing_canvas() {
    let g = Group { dx: 0, dy: 0, opacity: 255, blend_mode: BlendMode::SourceOver, clip: None, mask: None, filter: None, children: vec![Node::Shape(Shape { rect: rect(0, 0, 5, 5), fill: Some(red()), stroke: None })] };
    let scene = Scene { width: 10, height: 10, nodes: vec![Node::Group(g)] };
    let mut canvas = create_canvas(20, 20, None).unwrap();
    render_to_canvas(&scene, 20, 20, &mut canvas);
    assert_eq!(&canvas[0..4], &[255, 0, 0, 255]);
    let i = (9 * 20 + 9) * 4;
    assert_eq!(&canvas[i..i + 4], &[255, 0, 0, 255]);
    let i = (10 * 20 + 10) * 4;
    assert_eq!(&canvas[i..i + 4], &[0, 0, 0, 0]);
}

#[test]
fn mask_keeps_what_its_luminance_covers() {
    let white = Color::new(255, 255, 255, 255);
    let g = Group {
        dx: 0,
        dy: 0,
        opacity: 255,
        blend_mode: BlendMode::SourceOver,
        clip: None,
        mask: Some(vec![Shape { rect: rect(0, 0, 5, 10), fill: Some(white), stroke: None }]),
        filter: None,
        children: vec![Node::Shape(Shape { rect: rect(0, 0, 10, 10), fill: Some(red()), stroke: None })],
    };
    let scene = Scene { width: 10, height: 10, nodes: vec![Node::Group(g)] };
    let img = render(&scene, FitTo::Original, None).unwrap();
    assert_eq!(pixel(&img, 4, 4), [255, 0, 0, 255]);
    assert_eq!(pixel(&img, 5, 4), [0, 0, 0, 0]);
}

#[test]
fn empty_mask_leaves_canvas_unchanged() {
    let white = Color::new(255, 255, 255, 255);
    let mut canvas = create_canvas(6, 6, Some(white)).unwrap();
    let before = canvas.clone();
    let g = Group { dx: 0, dy: 0, opacity: 255, blend_mode: BlendMode::SourceOver, clip: None, mask: Some(vec![]), filter: None, children: vec![Node::Shape(Shape { rect: rect(0, 0, 6, 6), fill: Some(red()), stroke: None })] };
    assert_eq!(draw_group_onto(&mut canvas, whole(6, 6), identity(), &g, 255), 1);
    assert_eq!(canvas, before);
}

#[test]
fn luminance_of_primaries() {
    let buf = vec![255, 255, 255, 255, 255, 0, 0, 255, 0, 255, 0, 255, 0, 0, 255, 255, 0, 0, 0, 0];
    assert_eq!(to_luminance_mask(&buf), vec![255, 54, 182, 18, 0]);
    assert_eq!(transparent_buffer(3), vec![0, 0, 0]);
}

#[test]
fn group_filter_shadow() {
    // A drop shadow: the alpha moved by (2, 0), with the graphic drawn over it.
    let steps = vec![
        FilterStep { primitive: Primitive::Offset { input: Input::SourceAlpha, dx: 2, dy: 0 }, result: 1 },
        FilterStep { primitive: Primitive::Composite { top: Input::SourceGraphic, bottom: Input::Reference(1) }, result: 2 },
    ];
    let g = Group {
        dx: 0,
        dy: 0,
        opacity: 255,
        blend_mode: BlendMode::SourceOver,
        clip: None,
        mask: None,
        filter: Some(steps),
        children: vec![Node::Shape(Shape { rect: rect(0, 0, 2, 1), fill: Some(red()), stroke: None })],
    };
    let scene = Scene { width: 5, height: 1, nodes: vec![Node::Group(g)] };
    let img = render(&scene, FitTo::Original, None).unwrap();
    assert_eq!(pixel(&img, 0, 0), [255, 0, 0, 255]);
    assert_eq!(pixel(&img, 1, 0), [255, 0, 0, 255]);
    assert_eq!(pixel(&img, 2, 0), [0, 0, 0, 255]);
    assert_eq!(pixel(&img, 3, 0), [0, 0, 0, 255]);
    assert_eq!(pixel(&img, 4, 0), [0, 0, 0, 0]);
}

#[test]
fn group_blend_mode_applies_at_composite() {
    let white = Color::new(255, 255, 255, 255);
    let mut canvas = create_canvas(2, 1, Some(white)).unwrap();
    let g = Group {
        dx: 0,
        dy: 0,
        opacity: 255,
        blend_mode: BlendMode::DestinationOut,
        clip: None,
        mask: None,
        filter: None,
        children: vec![Node::Shape(Shape { rect: rect(0, 0, 1, 1), fill: Some(red()), stroke: None })],
    };
    assert_eq!(draw_group_onto(&mut canvas, whole(2, 1), identity(), &g, 255), 1);
    assert_eq!(canvas, vec![0, 0, 0, 0, 255, 255, 255, 255]);
}

#[test]
fn dangling_fill_still_strokes() {
    let servers: Vec<PaintServer> = vec![];
    let r = rect(2, 2, 8, 8);
    let fill = match resolve_paint(&PaintRef::Server(5), &servers, r, 255) {
        Some(Shader::Solid(c)) => Some(c),
        _ => None,
    };
    assert!(fill.is_none());
    let stroke = match resolve_paint(&PaintRef::Solid(red()), &servers, r, 255) {
        Some(Shader::Solid(c)) => Some(Stroke { color: c, width: 2 }),
        _ => None,
    };
    let g = Group {
        dx: 0,
        dy: 0,
        opacity: 255,
        blend_mode: BlendMode::SourceOver,
        clip: None,
        mask: None,
        filter: None,
        children: vec![Node::Shape(Shape { rect: r, fill, stroke })],
    };
    let scene = Scene { width: 10, height: 10, nodes: vec![Node::Group(g)] };
    let img = render(&scene, FitTo::Original, None).unwrap();
    // The stroke covers one pixel on each side of the edge.
    assert_eq!(pixel(&img, 1, 1), [255, 0, 0, 255]);
    assert_eq!(pixel(&img, 2, 5), [255, 0, 0, 255]);
    assert_eq!(pixel(&img, 8, 8), [255, 0, 0, 255]);
    assert_eq!(pixel(&img, 0, 0), [0, 0, 0, 0]);
    assert_eq!(pixel(&img, 9, 9), [0, 0, 0, 0]);
    // No fill inside.
    assert_eq!(pixel(&img, 3, 3), [0, 0, 0, 0]);
    assert_eq!(pixel(&img, 5, 5), [0, 0, 0, 0]);
}

#[test]
fn stroke_is_drawn_over_fill() {
    let blue = Color::new(255, 0, 0, 255);
    let shapes = vec![Shape { rect: rect(1, 1, 5, 5), fill: Some(red()), stroke: Some(Stroke { color: blue, width: 1 }) }];
    let mut canvas = create_canvas(6, 6, None).unwrap();
    fill_shapes(&mut canvas, whole(6, 6), identity(), &shapes, 255);
    let at = |x: usize, y: usize| canvas[(y * 6 + x) * 4..(y * 6 + x) * 4 + 4].to_vec();
    // Width 1: the outer edge stays, the inner edge moves in by one.
    assert_eq!(at(1, 1), vec![0, 0, 255, 255]);
    assert_eq!(at(4, 2), vec![0, 0, 255, 255]);
    assert_eq!(at(2, 2), vec![255, 0, 0, 255]);
    assert_eq!(at(0, 0), vec![0, 0, 0, 0]);
    assert_eq!(at(5, 5), vec![0, 0, 0, 0]);
}

fn plain(children: Vec<Node>) -> Group {
    Group { dx: 0, dy: 0, opacity: 255, blend_mode: BlendMode::SourceOver, clip: None, mask: None, filter: None, children }
}

#[test]
fn nested_group_inherits_opacity_and_isolates() {
    let mut inner = plain(vec![
        Node::Shape(Shape { rect: rect(0, 0, 6, 6), fill: Some(red()), stroke: None }),
        Node::Shape(Shape { rect: rect(4, 4, 10, 10), fill: Some(red()), stroke: None }),
    ]);
    inner.opacity = 255;
    let mut outer = plain(vec![Node::Group(inner)]);
    outer.opacity = 128;
    let scene = Scene { width: 10, height: 10, nodes: vec![Node::Group(outer)] };
    let img = render(&scene, FitTo::Original, None).unwrap();
    assert_eq!(pixel(&img, 5, 5), [255, 0, 0, 128]);
    assert_eq!(pixel(&img, 1, 1), [255, 0, 0, 128]);
    assert_eq!(pixel(&img, 9, 0), [0, 0, 0, 0]);
}

#[test]
fn nested_opacities_multiply() {
    let mut inner = plain(vec![Node::Shape(Shape { rect: rect(0, 0, 2, 1), fill: Some(red()), stroke: None })]);
    inner.opacity = 128;
    let mut outer = plain(vec![
        Node::Group(inner),
        Node::Shape(Shape { rect: rect(2, 0, 4, 1), fill: Some(red()), stroke: None }),
    ]);
    outer.opacity = 128;
    let scene = Scene { width: 4, height: 1, nodes: vec![Node::Group(outer)] };
    let img = render(&scene, FitTo::Original, None).unwrap();
    assert_eq!(pixel(&img, 0, 0), [255, 0, 0, 64]);
    assert_eq!(pixel(&img, 3, 0), [255, 0, 0, 128]);
}

#[test]
fn nested_bbox_and_render_node() {
    let inner = plain(vec![Node::Shape(Shape { rect: rect(20, 15, 30, 30), fill: Some(red()), stroke: None })]);
    let g = plain(vec![
        Node::Shape(Shape { rect: rect(10, 10, 25, 20), fill: Some(red()), stroke: None }),
        Node::Group(inner),
    ]);
    assert_eq!(calculate_bbox(&g.children), Some(rect(10, 10, 30, 30)));
    let img = render_node(&g, FitTo::Original, None).unwrap();
    assert_eq!((img.width(), img.height()), (20, 20));
    assert_eq!(pixel(&img, 0, 0), [255, 0, 0, 255]);
    assert_eq!(pixel(&img, 19, 19), [255, 0, 0, 255]);
    assert_eq!(pixel(&img, 0, 19), [0, 0, 0, 0]);
}

#[test]
fn group_translation_moves_content_and_clip() {
    let mut g = plain(vec![Node::Shape(Shape { rect: rect(0, 0, 2, 1), fill: Some(red()), stroke: None })]);
    g.dx = 2;
    g.clip = Some(rect(1, 0, 5, 1));
    let scene = Scene { width: 5, height: 1, nodes: vec![Node::Group(g)] };
    let img = render(&scene, FitTo::Original, None).unwrap();
    assert_eq!(pixel(&img, 1, 0), [0, 0, 0, 0]);
    assert_eq!(pixel(&img, 2, 0), [0, 0, 0, 0]);
    assert_eq!(pixel(&img, 3, 0), [255, 0, 0, 255]);
    assert_eq!(pixel(&img, 4, 0), [0, 0, 0, 0]);
}

#[test]
fn translated_bbox_of_nested_group() {
    let mut inner = plain(vec![Node::Shape(Shape { rect: rect(0, 0, 10, 10), fill: Some(red()), stroke: None })]);
    inner.dx = 30;
    inner.dy = 5;
    let mut g = plain(vec![
        Node::Shape(Shape { rect: rect(10, 10, 20, 20), fill: Some(red()), stroke: None }),
        Node::Group(inner),
    ]);
    assert_eq!(calculate_bbox(&g.children), Some(rect(10, 5, 40, 20)));
    g.dx = -10;
    let img = render_node(&g, FitTo::Original, None).unwrap();
    assert_eq!((img.width(), img.height()), (30, 15));
    assert_eq!(pixel(&img, 0, 14), [255, 0, 0, 255]);
    assert_eq!(pixel(&img, 29, 0), [255, 0, 0, 255]);
    assert_eq!(pixel(&img, 0, 0), [0, 0, 0, 0]);
}

#[test]
fn filled_and_stroked_shape_counts_as_two_draws() {
    let shape = Shape { rect: rect(1, 1, 5, 5), fill: Some(red()), stroke: Some(Stroke { color: red(), width: 2 }) };
    let mut g = plain(vec![Node::Shape(shape)]);
    g.opacity = 128;
    let mut canvas = create_canvas(6, 6, None).unwrap();
    assert_eq!(draw_group_onto(&mut canvas, whole(6, 6), identity(), &g, 255), 1);
    // Where the stroke overlaps the fill the group is composited once.
    let i = (1 * 6 + 1) * 4;
    assert_eq!(&canvas[i..i + 4], &[128, 0, 0, 128]);
    let mut fill_only = plain(vec![Node::Shape(Shape { rect: rect(1, 1, 5, 5), fill: Some(red()), stroke: None })]);
    fill_only.opacity = 128;
    let mut canvas = create_canvas(6, 6, None).unwrap();
    assert_eq!(draw_group_onto(&mut canvas, whole(6, 6), identity(), &fill_only, 255), 0);
    assert_eq!(&canvas[i..i + 4], &[128, 0, 0, 128]);
}

#[test]
fn image_size_and_length() {
    let g = plain(vec![Node::Shape(Shape { rect: rect(0, 0, 3, 2), fill: Some(red()), stroke: None })]);
    let scene = Scene { width: 3, height: 2, nodes: vec![Node::Group(g)] };
    let img = render(&scene, FitTo::Original, None).unwrap();
    assert_eq!(img.size(), (3, 2));
    assert_eq!(img.data().len(), 4 * 3 * 2);
    let copy = img.clone();
    assert_eq!(copy.data(), img.data());
    assert!(img.encode_png().is_ok());
    assert_eq!(img.take().len(), 24);
}

#[test]
fn nested_clips_swapped_give_same_image() {
    let content = || vec![Node::Shape(Shape { rect: rect(0, 0, 8, 8), fill: Some(Color::new(200, 10, 220, 30)), stroke: None })];
    let a = rect(1, 0, 6, 8);
    let b = rect(0, 2, 8, 5);
    let nest = |first: IRect, second: IRect| {
        let mut inner = plain(content());
        inner.clip = Some(second);
        let mut outer = plain(vec![Node::Group(inner)]);
        outer.clip = Some(first);
        Scene { width: 8, height: 8, nodes: vec![Node::Group(outer)] }
    };
    let white = Some(Color::new(255, 255, 255, 255));
    let ab = render(&nest(a, b), FitTo::Original, white).unwrap();
    let ba = render(&nest(b, a), FitTo::Original, white).unwrap();
    assert_eq!(ab.data(), ba.data());
    assert_eq!(pixel(&ab, 0, 3), [255, 255, 255, 255]);
    assert_ne!(pixel(&ab, 2, 3), [255, 255, 255, 255]);
    assert_eq!(pixel(&ab, 2, 6), [255, 255, 255, 255]);
}

#[test]
fn copy_rgba_takes_a_region() {
    let canvas = vec![1, 2, 3, 4, 10, 20, 30, 40, 5, 6, 7, 8, 50, 60, 70, 80];
    assert_eq!(copy_rgba(&canvas, 2, 2, 1, 0, 2, 1), Some(vec![10, 20, 30, 40, 0, 0, 0, 0]));
    assert_eq!(copy_rgba(&canvas, 2, 2, 0, 0, 2, 2), Some(canvas.clone()));
    assert_eq!(copy_rgba(&canvas, 2, 2, 0, 0, 0, 2), None);
}
