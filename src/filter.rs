//! The filter pipeline: a chain of primitives over a layer's premultiplied
//! pixels, each reading earlier results by name and clipped to the filter
//! region.

use vstd::prelude::*;
use crate::canvas::{Color, IRect};
use crate::pixel::{is_buffer, over, premul_channel, px, py, blend_over, mul_div_255, lemma_pixel_row};

verus! {

/// Where a primitive takes its pixels from.
#[derive(Debug, Copy, Clone, PartialEq, Eq, Hash, Structural)]
pub enum Input {
    /// The layer as it was drawn.
    SourceGraphic,
    /// The layer's alpha alone, with black color.
    SourceAlpha,
    /// The latest earlier result of that name. A name that no earlier
    /// primitive produced reads the previous result.
    Reference(u32),
}

/// One raster effect.
#[derive(Debug, Copy, Clone, PartialEq, Eq, Hash, Structural)]
pub enum Primitive {
    /// Moves the input by whole pixels.
    Offset { input: Input, dx: i32, dy: i32 },
    /// Fills the region with one color.
    Flood { color: Color },
    /// Draws `top` over `bottom`, source-over.
    Composite { top: Input, bottom: Input },
    /// A primitive this pipeline does not compute: its input passes through.
    Unsupported { input: Input },
}

/// A primitive and the name of its result.
#[derive(Debug, Copy, Clone, PartialEq, Eq, Hash, Structural)]
pub struct FilterStep {
    pub primitive: Primitive,
    pub result: u32,
}

/// The source with its color dropped.
pub open spec fn alpha_only(src: Seq<u8>) -> Seq<u8> {
    Seq::new(src.len(), |k: int| if k % 4 == 3 { src[k] } else { 0u8 })
}

/// The buffer with every pixel outside `region` made transparent.
pub open spec fn clip_to(buf: Seq<u8>, width: int, region: IRect) -> Seq<u8> {
    Seq::new(buf.len(), |k: int|
        if region.contains(px(k / 4, width), py(k / 4, width)) { buf[k] } else { 0u8 })
}

/// Byte `k` of the input moved by `(dx, dy)`: pixels moved in from outside
/// are transparent.
pub open spec fn offset_byte(buf: Seq<u8>, width: int, height: int, dx: int, dy: int, k: int) -> u8 {
    let sx = px(k / 4, width) - dx;
    let sy = py(k / 4, width) - dy;
    if 0 <= sx < width && 0 <= sy < height { buf[4 * (sy * width + sx) + k % 4] } else { 0u8 }
}

pub open spec fn offset(buf: Seq<u8>, width: int, height: int, dx: int, dy: int) -> Seq<u8> {
    Seq::new(buf.len(), |k: int| offset_byte(buf, width, height, dx, dy, k))
}

pub open spec fn flood(n: int, c: Color) -> Seq<u8> {
    Seq::new(n as nat, |k: int| premul_channel(c, k % 4) as u8)
}

/// `top` drawn over `bottom`, byte by byte.
pub open spec fn composite_over(top: Seq<u8>, bottom: Seq<u8>) -> Seq<u8> {
    Seq::new(bottom.len(), |k: int| over(bottom[k] as int, top[k] as int, top[k - k % 4 + 3] as int) as u8)
}

/// Index of the latest name equal to `n`.
pub open spec fn last_named(names: Seq<u32>, n: u32) -> Option<int>
    decreases names.len(),
{
    if names.len() == 0 {
        None
    } else if names.last() == n {
        Some(names.len() - 1)
    } else {
        last_named(names.drop_last(), n)
    }
}

/// The result that the first `outs.len()` steps give for the first of them
/// that is read next: the latest result, or the source before any.
pub open spec fn previous(src: Seq<u8>, outs: Seq<Seq<u8>>) -> Seq<u8> {
    if outs.len() == 0 { src } else { outs.last() }
}

pub open spec fn names_of(steps: Seq<FilterStep>) -> Seq<u32> {
    steps.map_values(|s: FilterStep| s.result)
}

pub open spec fn read_input(src: Seq<u8>, steps: Seq<FilterStep>, outs: Seq<Seq<u8>>, inp: Input) -> Seq<u8> {
    match inp {
        Input::SourceGraphic => src,
        Input::SourceAlpha => alpha_only(src),
        Input::Reference(n) => match last_named(names_of(steps), n) {
            Some(j) => outs[j],
            None => previous(src, outs),
        },
    }
}

/// The output of one primitive, given the results of the steps before it.
pub open spec fn step_output(
    src: Seq<u8>,
    width: int,
    height: int,
    region: IRect,
    steps: Seq<FilterStep>,
    outs: Seq<Seq<u8>>,
    p: Primitive,
) -> Seq<u8> {
    let raw = match p {
        Primitive::Offset { input, dx, dy } =>
            offset(read_input(src, steps, outs, input), width, height, dx as int, dy as int),
        Primitive::Flood { color } => flood(src.len() as int, color),
        Primitive::Composite { top, bottom } =>
            composite_over(read_input(src, steps, outs, top), read_input(src, steps, outs, bottom)),
        Primitive::Unsupported { input } => read_input(src, steps, outs, input),
    };
    clip_to(raw, width, region)
}

/// The results of the steps, in order.
pub open spec fn chain_results(src: Seq<u8>, width: int, height: int, region: IRect, steps: Seq<FilterStep>)
    -> Seq<Seq<u8>>
    decreases steps.len(),
{
    if steps.len() == 0 {
        Seq::empty()
    } else {
        let outs = chain_results(src, width, height, region, steps.drop_last());
        outs.push(step_output(src, width, height, region, steps.drop_last(), outs, steps.last().primitive))
    }
}

/// What a filter chain makes of a layer: the last step's result, or the
/// layer itself when there are no steps.
pub open spec fn filtered(src: Seq<u8>, width: int, height: int, region: IRect, steps: Seq<FilterStep>) -> Seq<u8> {
    previous(src, chain_results(src, width, height, region, steps))
}

pub fn copy_buffer(b: &Vec<u8>) -> (r: Vec<u8>)
    ensures
        r@ == b@,
{
    let mut r: Vec<u8> = Vec::with_capacity(b.len());
    let mut k: usize = 0;
    while k < b.len()
        invariant
            k <= b@.len(),
            r@ == b@.subrange(0, k as int),
        decreases b@.len() - k,
    {
        r.push(b[k]);
        k += 1;
        assert(r@ =~= b@.subrange(0, k as int));
    }
    assert(b@.subrange(0, k as int) =~= b@);
    r
}

pub fn alpha_of(src: &Vec<u8>) -> (r: Vec<u8>)
    ensures
        r@ == alpha_only(src@),
{
    let mut r: Vec<u8> = Vec::with_capacity(src.len());
    let mut k: usize = 0;
    while k < src.len()
        invariant
            k <= src@.len(),
            r@.len() == k,
            forall|i: int| 0 <= i < k ==> #[trigger] r@[i] == alpha_only(src@)[i],
        decreases src@.len() - k,
    {
        r.push(if k % 4 == 3 { src[k] } else { 0 });
        k += 1;
    }
    assert(r@ =~= alpha_only(src@));
    r
}

pub fn flood_buffer(n: usize, c: Color) -> (r: Vec<u8>)
    ensures
        r@ == flood(n as int, c),
{
    let channels: [u8; 4] = [mul_div_255(c.1, c.0), mul_div_255(c.2, c.0), mul_div_255(c.3, c.0), c.0];
    let mut r: Vec<u8> = Vec::with_capacity(n);
    let mut k: usize = 0;
    while k < n
        invariant
            k <= n,
            r@.len() == k,
            forall|j: int| 0 <= j < 4 ==> #[trigger] channels@[j] as int == premul_channel(c, j),
            forall|i: int| 0 <= i < k ==> #[trigger] r@[i] == flood(n as int, c)[i],
        decreases n - k,
    {
        r.push(channels[k % 4]);
        k += 1;
    }
    assert(r@ =~= flood(n as int, c));
    r
}

pub fn composite_buffers(top: &Vec<u8>, bottom: &Vec<u8>) -> (r: Vec<u8>)
    requires
        top@.len() == bottom@.len(),
        bottom@.len() % 4 == 0,
    ensures
        r@ == composite_over(top@, bottom@),
{
    let mut r: Vec<u8> = Vec::with_capacity(bottom.len());
    let mut k: usize = 0;
    while k < bottom.len()
        invariant
            top@.len() == bottom@.len(),
            bottom@.len() % 4 == 0,
            k <= bottom@.len(),
            r@.len() == k,
            forall|i: int| 0 <= i < k ==> #[trigger] r@[i] == composite_over(top@, bottom@)[i],
        decreases bottom@.len() - k,
    {
        let a = top[k - k % 4 + 3];
        r.push(blend_over(bottom[k], top[k], a));
        k += 1;
    }
    assert(r@ =~= composite_over(top@, bottom@));
    r
}

pub fn clip_buffer(buf: &mut Vec<u8>, width: u32, height: u32, region: IRect)
    requires
        is_buffer(old(buf)@, width as int, height as int),
    ensures
        final(buf)@ == clip_to(old(buf)@, width as int, region),
{
    let ghost orig = buf@;
    assert(4 * width * height == 4 * (width * height)) by (nonlinear_arith);
    let len = buf.len();
    let mut k: usize = 0;
    while k < len
        invariant
            len == orig.len(),
            len == 4 * (width * height),
            buf@.len() == orig.len(),
            is_buffer(orig, width as int, height as int),
            k <= len,
            forall|i: int| 0 <= i < k ==> #[trigger] buf@[i] == clip_to(orig, width as int, region)[i],
            forall|i: int| k <= i < len ==> #[trigger] buf@[i] == orig[i],
        decreases len - k,
    {
        let p = k / 4;
        assert(p < width * height);
        assert(width > 0) by (nonlinear_arith)
            requires p < width * height, 0 <= p;
        proof { lemma_pixel_row(p as int, width as int, height as int); }
        let x: i64 = (p % (width as usize)) as i64;
        let y: i64 = (p / (width as usize)) as i64;
        let inside = region.left as i64 <= x && x < region.right as i64 && region.top as i64 <= y
            && y < region.bottom as i64;
        if !inside {
            buf.set(k, 0);
        }
        k += 1;
    }
    assert(buf@ =~= clip_to(orig, width as int, region));
}

proof fn lemma_source_index(sx: int, sy: int, j: int, width: int, height: int)
    requires
        0 <= sx < width,
        0 <= sy < height,
        0 <= j < 4,
    ensures
        0 <= 4 * (sy * width + sx) + j < 4 * width * height,
{
    assert(0 <= sy * width + sx < width * height) by (nonlinear_arith)
        requires 0 <= sx < width, 0 <= sy < height;
    assert(4 * width * height == 4 * (width * height)) by (nonlinear_arith);
}

/// The input moved by `(dx, dy)` whole pixels.
pub fn offset_buffer(buf: &Vec<u8>, width: u32, height: u32, dx: i32, dy: i32) -> (r: Vec<u8>)
    requires
        is_buffer(buf@, width as int, height as int),
    ensures
        r@ == offset(buf@, width as int, height as int, dx as int, dy as int),
{
    let len = buf.len();
    assert(4 * width * height == 4 * (width * height)) by (nonlinear_arith);
    let mut r: Vec<u8> = Vec::with_capacity(len);
    let mut k: usize = 0;
    while k < len
        invariant
            len == buf@.len(),
            len == 4 * (width * height),
            is_buffer(buf@, width as int, height as int),
            k <= len,
            r@.len() == k,
            forall|i: int| 0 <= i < k ==> #[trigger] r@[i] == offset(buf@, width as int, height as int,
                dx as int, dy as int)[i],
        decreases len - k,
    {
        let p = k / 4;
        assert(p < width * height);
        assert(width > 0) by (nonlinear_arith)
            requires p < width * height, 0 <= p;
        proof { lemma_pixel_row(p as int, width as int, height as int); }
        let sx: i64 = (p % (width as usize)) as i64 - dx as i64;
        let sy: i64 = (p / (width as usize)) as i64 - dy as i64;
        let v: u8 = if 0 <= sx && sx < width as i64 && 0 <= sy && sy < height as i64 {
            proof { lemma_source_index(sx as int, sy as int, (k % 4) as int, width as int, height as int); }
            buf[4 * ((sy as usize) * (width as usize) + sx as usize) + k % 4]
        } else {
            0
        };
        r.push(v);
        k += 1;
    }
    assert(r@ =~= offset(buf@, width as int, height as int, dx as int, dy as int));
    r
}

/// The index of the latest of the first `i` steps whose result is named `n`.
fn find_named(steps: &Vec<FilterStep>, i: usize, n: u32) -> (r: Option<usize>)
    requires
        i <= steps@.len(),
    ensures
        r is Some ==> last_named(names_of(steps@.subrange(0, i as int)), n) == Some(r->0 as int),
        r is None ==> last_named(names_of(steps@.subrange(0, i as int)), n) is None,
{
    let mut j: usize = i;
    while j > 0
        invariant
            j <= i <= steps@.len(),
            last_named(names_of(steps@.subrange(0, i as int)), n)
                == last_named(names_of(steps@.subrange(0, j as int)), n),
        decreases j,
    {
        let ghost names = names_of(steps@.subrange(0, j as int));
        assert(names.drop_last() =~= names_of(steps@.subrange(0, j as int - 1)));
        if steps[j - 1].result == n {
            return Some(j - 1);
        }
        j -= 1;
    }
    assert(names_of(steps@.subrange(0, 0)) =~= Seq::<u32>::empty());
    None
}

proof fn lemma_last_named(names: Seq<u32>, n: u32)
    ensures
        last_named(names, n) matches Some(j) ==> 0 <= j < names.len(),
    decreases names.len(),
{
    if names.len() > 0 {
        lemma_last_named(names.drop_last(), n);
    }
}

/// The pixels a primitive reads, given the results of the first `i` steps.
fn read(
    src: &Vec<u8>,
    steps: &Vec<FilterStep>,
    i: usize,
    outs: &Vec<Vec<u8>>,
    inp: Input,
    results: Ghost<Seq<Seq<u8>>>,
) -> (r: Vec<u8>)
    requires
        i <= steps@.len(),
        outs@.len() == i,
        results@.len() == i,
        forall|j: int| 0 <= j < i ==> #[trigger] outs@[j]@ == results@[j],
        forall|j: int| 0 <= j < i ==> (#[trigger] outs@[j])@.len() == src@.len(),
    ensures
        r@ == read_input(src@, steps@.subrange(0, i as int), results@, inp),
        r@.len() == src@.len(),
{
    proof {
        match inp {
            Input::Reference(n) => {
                lemma_last_named(names_of(steps@.subrange(0, i as int)), n);
            },
            _ => {},
        }
    }
    match inp {
        Input::SourceGraphic => copy_buffer(src),
        Input::SourceAlpha => alpha_of(src),
        Input::Reference(n) => match find_named(steps, i, n) {
            Some(j) => copy_buffer(&outs[j]),
            None => if i == 0 { copy_buffer(src) } else { copy_buffer(&outs[i - 1]) },
        },
    }
}

/// Runs a filter chain over a layer of `width * height` premultiplied
/// pixels and returns the last step's result, or the layer itself when the
/// chain is empty. Every result is cleared outside `region`; a primitive
/// that is not supported passes its input through.
pub fn apply_filter(src: &Vec<u8>, width: u32, height: u32, region: IRect, steps: &Vec<FilterStep>)
    -> (r: Vec<u8>)
    requires
        is_buffer(src@, width as int, height as int),
    ensures
        r@ == filtered(src@, width as int, height as int, region, steps@),
        r@.len() == src@.len(),
{
    proof { lemma_filtered_len(src@, width as int, height as int, region, steps@); }
    let ghost w = width as int;
    let ghost h = height as int;
    assert(4 * width * height == 4 * (width * height)) by (nonlinear_arith);
    let mut outs: Vec<Vec<u8>> = Vec::new();
    let mut i: usize = 0;
    while i < steps.len()
        invariant
            i <= steps@.len(),
            w == width as int,
            h == height as int,
            is_buffer(src@, w, h),
            src@.len() == 4 * (width * height),
            src@.len() == 4 * width * height,
            outs@.len() == i,
            chain_results(src@, w, h, region, steps@.subrange(0, i as int)).len() == i,
            forall|j: int| 0 <= j < i ==> #[trigger] outs@[j]@
                == chain_results(src@, w, h, region, steps@.subrange(0, i as int))[j],
            forall|j: int| 0 <= j < i ==> (#[trigger] outs@[j])@.len() == src@.len(),
        decreases steps@.len() - i,
    {
        let ghost prefix = steps@.subrange(0, i as int);
        let ghost results = chain_results(src@, w, h, region, prefix);
        let step = steps[i];
        let mut out = match step.primitive {
            Primitive::Offset { input, dx, dy } => {
                let b = read(src, steps, i, &outs, input, Ghost(results));
                assert(b@.len() == src@.len());
                assert(b@.len() == 4 * width * height);
                let o = offset_buffer(&b, width, height, dx, dy);
                assert(o@.len() == b@.len());
                o
            },
            Primitive::Flood { color } => {
                let o = flood_buffer(src.len(), color);
                assert(o@.len() == src@.len());
                o
            },
            Primitive::Composite { top, bottom } => {
                let t = read(src, steps, i, &outs, top, Ghost(results));
                let b = read(src, steps, i, &outs, bottom, Ghost(results));
                let o = composite_buffers(&t, &b);
                assert(o@.len() == b@.len());
                o
            },
            Primitive::Unsupported { input } => read(src, steps, i, &outs, input, Ghost(results)),
        };
        clip_buffer(&mut out, width, height, region);
        let ghost next = steps@.subrange(0, i as int + 1);
        assert(next.drop_last() =~= prefix);
        assert(out@ == step_output(src@, w, h, region, prefix, results, step.primitive));
        outs.push(out);
        i += 1;
        proof {
            lemma_chain_lens(src@, w, h, region, next);
            assert forall|j: int| 0 <= j < i implies #[trigger] outs@[j]@
                == chain_results(src@, w, h, region, next)[j] by {}
        }
    }
    assert(steps@.subrange(0, i as int) =~= steps@);
    if i == 0 {
        copy_buffer(src)
    } else {
        copy_buffer(&outs[i - 1])
    }
}

proof fn lemma_chain_lens(src: Seq<u8>, width: int, height: int, region: IRect, steps: Seq<FilterStep>)
    ensures
        chain_results(src, width, height, region, steps).len() == steps.len(),
        forall|j: int| 0 <= j < steps.len() ==>
            (#[trigger] chain_results(src, width, height, region, steps)[j]).len() == src.len(),
    decreases steps.len(),
{
    if steps.len() > 0 {
        let prefix = steps.drop_last();
        lemma_chain_lens(src, width, height, region, prefix);
        let outs = chain_results(src, width, height, region, prefix);
        lemma_last_named(names_of(prefix), 0);
        assert forall|inp: Input| #[trigger] read_input(src, prefix, outs, inp).len() == src.len() by {
            match inp {
                Input::Reference(n) => { lemma_last_named(names_of(prefix), n); },
                _ => {},
            }
        }
        let p = steps.last().primitive;
        match p {
            Primitive::Composite { top, bottom } => {
                assert(read_input(src, prefix, outs, bottom).len() == src.len());
            },
            Primitive::Offset { input, dx, dy } => {
                assert(read_input(src, prefix, outs, input).len() == src.len());
            },
            Primitive::Unsupported { input } => {
                assert(read_input(src, prefix, outs, input).len() == src.len());
            },
            _ => {},
        }
    }
}

/// A filter chain keeps the size of the layer.
pub proof fn lemma_filtered_len(src: Seq<u8>, width: int, height: int, region: IRect, steps: Seq<FilterStep>)
    ensures
        filtered(src, width, height, region, steps).len() == src.len(),
{
    lemma_chain_lens(src, width, height, region, steps);
}

} // verus!
