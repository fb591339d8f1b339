//! An SVG rendering core: the compositing rules that turn a scene of shapes,
//! groups, paints, clips, masks and filters into a raster image, stated and
//! proved over integer pixel buffers.
//!
//! The canvas is a buffer of premultiplied RGBA bytes. Groups that need
//! isolation (partial opacity over several draws, a clip, a mask or a
//! filter) are drawn into a layer cut to the visible region and composited
//! back once; the others draw straight onto their parent.

pub mod canvas;
pub mod filter;
pub mod image;
pub mod layer;
pub mod mask;
pub mod paint;
pub mod pixel;
pub mod render;
pub mod scene;
pub mod view;

pub use canvas::{
    BlendMode, Color, FillType, FilterQuality, IRect, PaintStyle, StrokeCap, StrokeJoin, TileMode,
};
pub use image::{EncodeError, Image};
pub use render::{Group, Node, Shape, Stroke, Target};
pub use scene::{render, render_node, render_to_canvas, FitTo, Scene};
