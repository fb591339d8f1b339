use resvg::canvas::{Color, IRect};
use resvg::filter::{apply_filter, FilterStep, Input, Primitive};

fn px(buf: &[u8], w: usize, x: usize, y: usize) -> Vec<u8> {
    buf[(y * w + x) * 4..(y * w + x) * 4 + 4].to_vec()
}

fn whole(w: i32, h: i32) -> IRect {
    IRect { left: 0, top: 0, right: w, bottom: h }
}

#[test]
fn empty_chain_returns_source() {
    let src = vec![1, 2, 3, 4, 5, 6, 7, 8];
    assert_eq!(apply_filter(&src, 2, 1, whole(2, 1), &vec![]), src);
}

#[test]
fn offset_moves_pixels() {
    let src = vec![10, 20, 30, 255, 0, 0, 0, 0, 0, 0, 0, 0, 0, 0, 0, 0];
    let steps = vec![FilterStep { primitive: Primitive::Offset { input: Input::SourceGraphic, dx: 1, dy: 1 }, result: 0 }];
    let out = apply_filter(&src, 2, 2, whole(2, 2), &steps);
    assert_eq!(px(&out, 2, 1, 1), vec![10, 20, 30, 255]);
    assert_eq!(px(&out, 2, 0, 0), vec![0, 0, 0, 0]);
}

#[test]
fn flood_fills_region_only() {
    let src = vec![0; 16];
    let steps = vec![FilterStep { primitive: Primitive::Flood { color: Color::new(128, 255, 0, 0) }, result: 0 }];
    let out = apply_filter(&src, 2, 2, IRect { left: 1, top: 0, right: 2, bottom: 2 }, &steps);
    assert_eq!(px(&out, 2, 1, 0), vec![128, 0, 0, 128]);
    assert_eq!(px(&out, 2, 1, 1), vec![128, 0, 0, 128]);
    assert_eq!(px(&out, 2, 0, 0), vec![0, 0, 0, 0]);
}

#[test]
fn unsupported_primitive_passes_through() {
    let src = vec![9, 8, 7, 255, 1, 1, 1, 1];
    let steps = vec![FilterStep { primitive: Primitive::Unsupported { input: Input::SourceGraphic }, result: 3 }];
    assert_eq!(apply_filter(&src, 2, 1, whole(2, 1), &steps), src);
}

#[test]
fn missing_reference_reads_previous_result() {
    let src = vec![9, 8, 7, 255];
    let steps = vec![
        FilterStep { primitive: Primitive::Flood { color: Color::new(255, 0, 0, 255) }, result: 1 },
        FilterStep { primitive: Primitive::Unsupported { input: Input::Reference(42) }, result: 2 },
    ];
    assert_eq!(apply_filter(&src, 1, 1, whole(1, 1), &steps), vec![0, 0, 255, 255]);
}

#[test]
fn named_results_are_read_back() {
    let src = vec![9, 8, 7, 255];
    let steps = vec![
        FilterStep { primitive: Primitive::Flood { color: Color::new(255, 0, 0, 255) }, result: 1 },
        FilterStep { primitive: Primitive::Flood { color: Color::new(255, 0, 255, 0) }, result: 2 },
        FilterStep { primitive: Primitive::Unsupported { input: Input::Reference(1) }, result: 3 },
    ];
    assert_eq!(apply_filter(&src, 1, 1, whole(1, 1), &steps), vec![0, 0, 255, 255]);
}

#[test]
fn source_alpha_drops_color() {
    let src = vec![9, 8, 7, 200];
    let steps = vec![FilterStep { primitive: Primitive::Unsupported { input: Input::SourceAlpha }, result: 0 }];
    assert_eq!(apply_filter(&src, 1, 1, whole(1, 1), &steps), vec![0, 0, 0, 200]);
}

#[test]
fn composite_draws_top_over_bottom() {
    let src = vec![0, 0, 128, 128];
    let steps = vec![
        FilterStep { primitive: Primitive::Flood { color: Color::new(255, 255, 0, 0) }, result: 1 },
        FilterStep { primitive: Primitive::Composite { top: Input::SourceGraphic, bottom: Input::Reference(1) }, result: 2 },
    ];
    assert_eq!(apply_filter(&src, 1, 1, whole(1, 1), &steps), vec![127, 0, 128, 255]);
}
