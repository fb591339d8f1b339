//! The paint-server resolver: turns a fill or stroke reference into a
//! concrete paint, with the gradient stop list put in shader order.

use vstd::prelude::*;
use crate::canvas::{argb_value, Color, IRect, TileMode};
use crate::pixel::{mul255, mul_div_255};

verus! {

/// The fixed-point value of a stop offset of 1: offsets are counted in
/// units of 1/65536.
pub const OFFSET_ONE: i32 = 65536;

/// How a gradient continues past its end points.
#[derive(Debug, Copy, Clone, PartialEq, Eq, Hash, Structural)]
pub enum SpreadMethod {
    Pad,
    Reflect,
    Repeat,
}

/// The coordinate space a paint server's geometry is given in.
#[derive(Debug, Copy, Clone, PartialEq, Eq, Hash, Structural)]
pub enum Units {
    UserSpaceOnUse,
    ObjectBoundingBox,
}

/// The geometry of a gradient: two points for a linear one, a circle and a
/// focal point for a radial one.
#[derive(Debug, Copy, Clone, PartialEq, Eq, Hash, Structural)]
pub enum GradientKind {
    Linear { x1: i32, y1: i32, x2: i32, y2: i32 },
    Radial { cx: i32, cy: i32, r: i32, fx: i32, fy: i32 },
}

/// One stop of a gradient definition. Its offset may lie anywhere; the
/// resolver clamps it.
#[derive(Debug, Copy, Clone, PartialEq, Eq, Hash, Structural)]
pub struct Stop {
    pub offset: i32,
    pub color: Color,
}

/// A named gradient definition of the scene.
#[derive(Debug, Clone)]
pub struct PaintServer {
    pub id: u64,
    pub kind: GradientKind,
    pub units: Units,
    pub spread: SpreadMethod,
    pub stops: Vec<Stop>,
}

/// What a fill or a stroke refers to.
#[derive(Debug, Copy, Clone, PartialEq, Eq, Hash, Structural)]
pub enum PaintRef {
    Solid(Color),
    Server(u64),
}

/// A gradient ready for the shader: packed colors and non-decreasing
/// positions in `0..=OFFSET_ONE`, one per stop.
#[derive(Debug, Clone)]
pub struct GradientShader {
    pub kind: GradientKind,
    pub units: Units,
    pub bbox: IRect,
    pub tile_mode: TileMode,
    pub colors: Vec<u32>,
    pub positions: Vec<i32>,
}

/// A resolved paint.
#[derive(Debug, Clone)]
pub enum Shader {
    Solid(Color),
    Gradient(GradientShader),
}

pub open spec fn clamp_offset(o: int) -> int {
    if o < 0 {
        0
    } else if o > OFFSET_ONE {
        OFFSET_ONE as int
    } else {
        o
    }
}

/// The resolved position of stop `i`: its clamped offset, raised to the
/// largest offset before it.
pub open spec fn resolved_position(stops: Seq<Stop>, i: int) -> int
    decreases i,
{
    if i <= 0 {
        clamp_offset(stops[0].offset as int)
    } else {
        let prev = resolved_position(stops, i - 1);
        let cur = clamp_offset(stops[i].offset as int);
        if cur < prev { prev } else { cur }
    }
}

pub open spec fn spread_tile_mode(s: SpreadMethod) -> TileMode {
    match s {
        SpreadMethod::Pad => TileMode::Clamp,
        SpreadMethod::Reflect => TileMode::Mirror,
        SpreadMethod::Repeat => TileMode::Repeat,
    }
}

/// Index of the first server with the given id, if any.
pub open spec fn first_with_id(servers: Seq<PaintServer>, id: u64) -> Option<int>
    decreases servers.len(),
{
    if servers.len() == 0 {
        None
    } else {
        match first_with_id(servers.drop_last(), id) {
            Some(i) => Some(i),
            None => if servers.last().id == id { Some(servers.len() - 1) } else { None },
        }
    }
}

/// A color with its alpha scaled by an opacity.
pub open spec fn with_opacity(c: Color, opacity: u8) -> Color {
    Color(mul255(c.0 as int, opacity as int) as u8, c.1, c.2, c.3)
}

pub proof fn lemma_first_with_id(servers: Seq<PaintServer>, id: u64)
    ensures
        match first_with_id(servers, id) {
            Some(i) => 0 <= i < servers.len() && servers[i].id == id
                && forall|j: int| 0 <= j < i ==> #[trigger] servers[j].id != id,
            None => forall|j: int| 0 <= j < servers.len() ==> #[trigger] servers[j].id != id,
        },
    decreases servers.len(),
{
    if servers.len() > 0 {
        lemma_first_with_id(servers.drop_last(), id);
        assert forall|j: int| 0 <= j < servers.len() - 1 implies
            #[trigger] servers[j] == servers.drop_last()[j] by {}
    }
}

pub proof fn lemma_positions_non_decreasing(stops: Seq<Stop>, i: int, j: int)
    requires
        0 <= i <= j,
    ensures
        resolved_position(stops, i) <= resolved_position(stops, j),
        0 <= resolved_position(stops, j) <= OFFSET_ONE,
    decreases j,
{
    if j > 0 {
        lemma_positions_non_decreasing(stops, if i == j { i - 1 } else { i }, j - 1);
    }
}

/// Whatever order the definition gives its stops in, the positions handed
/// to the shader never decrease and stay within `0..=OFFSET_ONE`.
pub proof fn lemma_resolved_stops_sorted(stops: Seq<Stop>)
    ensures
        forall|i: int, j: int| 0 <= i <= j < stops.len() ==>
            #[trigger] resolved_position(stops, i) <= #[trigger] resolved_position(stops, j)
            && 0 <= resolved_position(stops, i) <= OFFSET_ONE,
{
    assert forall|i: int, j: int| 0 <= i <= j < stops.len() implies
        #[trigger] resolved_position(stops, i) <= #[trigger] resolved_position(stops, j)
        && 0 <= resolved_position(stops, i) <= OFFSET_ONE by {
        lemma_positions_non_decreasing(stops, i, j);
        lemma_positions_non_decreasing(stops, i, i);
    }
}

pub fn to_tile_mode(s: SpreadMethod) -> (t: TileMode)
    ensures
        t == spread_tile_mode(s),
{
    match s {
        SpreadMethod::Pad => TileMode::Clamp,
        SpreadMethod::Reflect => TileMode::Mirror,
        SpreadMethod::Repeat => TileMode::Repeat,
    }
}

/// Builds the shader's stop list: packed colors, and positions clamped to
/// `0..=OFFSET_ONE` and raised so that they never decrease.
pub fn resolve_stops(stops: &Vec<Stop>) -> (r: (Vec<u32>, Vec<i32>))
    ensures
        r.0@.len() == stops@.len(),
        r.1@.len() == stops@.len(),
        forall|i: int| 0 <= i < stops@.len() ==> #[trigger] r.0@[i] as int == argb_value(
            stops@[i].color.0, stops@[i].color.1, stops@[i].color.2, stops@[i].color.3),
        forall|i: int| 0 <= i < stops@.len() ==> #[trigger] r.1@[i] as int == resolved_position(stops@, i),
{
    let mut colors: Vec<u32> = Vec::with_capacity(stops.len());
    let mut positions: Vec<i32> = Vec::with_capacity(stops.len());
    let mut prev: i32 = 0;
    let mut i: usize = 0;
    while i < stops.len()
        invariant
            i <= stops@.len(),
            colors@.len() == i,
            positions@.len() == i,
            i > 0 ==> prev as int == resolved_position(stops@, i - 1),
            forall|j: int| 0 <= j < i ==> #[trigger] colors@[j] as int == argb_value(
                stops@[j].color.0, stops@[j].color.1, stops@[j].color.2, stops@[j].color.3),
            forall|j: int| 0 <= j < i ==> #[trigger] positions@[j] as int == resolved_position(stops@, j),
        decreases stops@.len() - i,
    {
        let s = stops[i];
        let cur: i32 = if s.offset < 0 {
            0
        } else if s.offset > OFFSET_ONE {
            OFFSET_ONE
        } else {
            s.offset
        };
        let pos: i32 = if i > 0 && cur < prev { prev } else { cur };
        colors.push(s.color.to_u32());
        positions.push(pos);
        prev = pos;
        i += 1;
    }
    (colors, positions)
}

/// Finds the first paint server with the given id.
pub fn find_server(servers: &Vec<PaintServer>, id: u64) -> (r: Option<usize>)
    ensures
        r is Some ==> first_with_id(servers@, id) == Some(r->0 as int),
        r is None ==> first_with_id(servers@, id) is None,
{
    let mut i: usize = 0;
    while i < servers.len()
        invariant
            i <= servers@.len(),
            first_with_id(servers@.subrange(0, i as int), id) is None,
        decreases servers@.len() - i,
    {
        assert(servers@.subrange(0, i as int + 1).drop_last() =~= servers@.subrange(0, i as int));
        if servers[i].id == id {
            proof { prefix_result(servers@, id, i as int); }
            return Some(i);
        }
        i += 1;
    }
    assert(servers@.subrange(0, i as int) =~= servers@);
    None
}

/// Where the first `i + 1` servers already hold the id at `i` and none before,
/// the whole list does too.
proof fn prefix_result(s: Seq<PaintServer>, id: u64, i: int)
    requires
        0 <= i < s.len(),
        s[i].id == id,
        first_with_id(s.subrange(0, i), id) is None,
    ensures
        first_with_id(s, id) == Some(i),
    decreases s.len(),
{
    assert(s.subrange(0, i + 1).drop_last() =~= s.subrange(0, i));
    if s.len() > i + 1 {
        assert(s.drop_last().subrange(0, i) =~= s.subrange(0, i));
        prefix_result(s.drop_last(), id, i);
    } else {
        assert(s.subrange(0, i + 1) =~= s);
    }
}

/// What a reference to the server `id` resolves to (see [`resolve_paint`]).
pub open spec fn resolves_server(
    r: Option<Shader>,
    servers: Seq<PaintServer>,
    id: u64,
    bbox: IRect,
    opacity: u8,
) -> bool {
    match first_with_id(servers, id) {
        None => r is None,
        Some(i) => {
            let s = servers[i];
            if s.stops@.len() == 0 {
                r is None
            } else if s.stops@.len() == 1 {
                r matches Some(Shader::Solid(rc)) && rc == with_opacity(s.stops@[0].color, opacity)
            } else if s.units == Units::ObjectBoundingBox && bbox.spec_is_empty() {
                r is None
            } else {
                match r {
                    Some(Shader::Gradient(g)) => {
                        &&& g.kind == s.kind
                        &&& g.units == s.units
                        &&& g.bbox == bbox
                        &&& g.tile_mode == spread_tile_mode(s.spread)
                        &&& g.colors@.len() == s.stops@.len()
                        &&& g.positions@.len() == s.stops@.len()
                        &&& forall|j: int| 0 <= j < s.stops@.len() ==> #[trigger] g.colors@[j] as int
                            == argb_value(with_opacity(s.stops@[j].color, opacity).0,
                                s.stops@[j].color.1, s.stops@[j].color.2, s.stops@[j].color.3)
                        &&& forall|j: int| 0 <= j < s.stops@.len() ==> #[trigger] g.positions@[j] as int
                            == resolved_position(s.stops@, j)
                    },
                    _ => false,
                }
            }
        },
    }
}

/// Resolves a fill or stroke reference against the scene's paint servers.
///
/// A solid color gets its alpha scaled by `opacity`. A reference to no
/// server, to a gradient without stops, or to a gradient in bounding-box
/// units on an object whose box is empty, resolves to no paint. A gradient
/// with a single stop paints that stop's color.
pub fn resolve_paint(paint: &PaintRef, servers: &Vec<PaintServer>, bbox: IRect, opacity: u8)
    -> (r: Option<Shader>)
    ensures
        forall|c: Color| *paint == PaintRef::Solid(c) ==> r == Some(Shader::Solid(with_opacity(c, opacity))),
        forall|id: u64| *paint == PaintRef::Server(id) ==> resolves_server(r, servers@, id, bbox, opacity),
{
    match paint {
        PaintRef::Solid(c) => {
            Some(Shader::Solid(opaque_scaled(*c, opacity)))
        },
        PaintRef::Server(id) => {
            proof { lemma_first_with_id(servers@, *id); }
            let res = match find_server(servers, *id) {
                None => None,
                Some(i) => {
                    let s = &servers[i];
                    if s.stops.len() == 0 {
                        None
                    } else if s.stops.len() == 1 {
                        Some(Shader::Solid(opaque_scaled(s.stops[0].color, opacity)))
                    } else if s.units == Units::ObjectBoundingBox && bbox.is_empty() {
                        None
                    } else {
                        let scaled = scale_stops(&s.stops, opacity);
                        let (colors, positions) = resolve_stops(&scaled);
                        proof {
                            assert forall|j: int| 0 <= j < s.stops@.len() implies
                                #[trigger] resolved_position(scaled@, j) == resolved_position(s.stops@, j) by {
                                lemma_same_offsets(scaled@, s.stops@, j);
                            }
                            assert forall|j: int| 0 <= j < s.stops@.len() implies
                                #[trigger] colors@[j] as int == argb_value(with_opacity(s.stops@[j].color, opacity).0,
                                    s.stops@[j].color.1, s.stops@[j].color.2, s.stops@[j].color.3) by {
                                assert(scaled@[j].color == with_opacity(s.stops@[j].color, opacity));
                            }
                            assert forall|j: int| 0 <= j < s.stops@.len() implies
                                #[trigger] positions@[j] as int == resolved_position(s.stops@, j) by {
                                assert(resolved_position(scaled@, j) == resolved_position(s.stops@, j));
                            }
                        }
                        let g = GradientShader {
                            kind: s.kind,
                            units: s.units,
                            bbox,
                            tile_mode: to_tile_mode(s.spread),
                            colors,
                            positions,
                        };
                        Some(Shader::Gradient(g))
                    }
                },
            };
            assert(resolves_server(res, servers@, *id, bbox, opacity));
            res
        },
    }
}

fn opaque_scaled(c: Color, opacity: u8) -> (r: Color)
    ensures
        r == with_opacity(c, opacity),
{
    Color(mul_div_255(c.0, opacity), c.1, c.2, c.3)
}

/// The stops with each color's alpha scaled by `opacity`.
fn scale_stops(stops: &Vec<Stop>, opacity: u8) -> (r: Vec<Stop>)
    ensures
        r@.len() == stops@.len(),
        forall|j: int| 0 <= j < stops@.len() ==> #[trigger] r@[j] == (Stop {
            offset: stops@[j].offset,
            color: with_opacity(stops@[j].color, opacity),
        }),
{
    let mut r: Vec<Stop> = Vec::with_capacity(stops.len());
    let mut i: usize = 0;
    while i < stops.len()
        invariant
            i <= stops@.len(),
            r@.len() == i,
            forall|j: int| 0 <= j < i ==> #[trigger] r@[j] == (Stop {
                offset: stops@[j].offset,
                color: with_opacity(stops@[j].color, opacity),
            }),
        decreases stops@.len() - i,
    {
        let s = stops[i];
        r.push(Stop { offset: s.offset, color: opaque_scaled(s.color, opacity) });
        i += 1;
    }
    r
}

proof fn lemma_same_offsets(a: Seq<Stop>, b: Seq<Stop>, j: int)
    requires
        a.len() == b.len(),
        0 <= j < a.len(),
        forall|i: int| 0 <= i < a.len() ==> #[trigger] a[i].offset == b[i].offset,
    ensures
        resolved_position(a, j) == resolved_position(b, j),
    decreases j,
{
    if j > 0 {
        lemma_same_offsets(a, b, j - 1);
    }
}

} // verus!
