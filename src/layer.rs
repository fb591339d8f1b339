//! The layer manager's decisions: when a node needs an isolated offscreen
//! layer, and which device region that layer covers.

use vstd::prelude::*;
use crate::canvas::BlendMode;

verus! {

/// The compositing obligations of a scene node.
#[derive(Debug, Copy, Clone, PartialEq, Eq, Hash, Structural)]
pub struct Compositing {
    /// Group opacity, 255 being fully opaque.
    pub opacity: u8,
    pub blend_mode: BlendMode,
    pub has_filter: bool,
    pub has_clip: bool,
    pub has_mask: bool,
}

/// A node needs its own layer when its opacity is partial and it draws more
/// than once, or when it has a blend mode other than source-over, a filter,
/// a clip or a mask.
pub open spec fn spec_needs_layer(c: Compositing, draws: nat) -> bool {
    (c.opacity < 255 && draws > 1) || c.blend_mode != BlendMode::SourceOver || c.has_filter
        || c.has_clip || c.has_mask
}

/// Decides whether a node that issues `draws` draw calls must be rendered
/// into an isolated layer.
pub fn needs_layer(c: &Compositing, draws: usize) -> (r: bool)
    ensures
        r == spec_needs_layer(*c, draws as nat),
{
    (c.opacity < 255 && draws > 1) || !matches!(c.blend_mode, BlendMode::SourceOver) || c.has_filter
        || c.has_clip || c.has_mask
}

/// A node that is fully opaque, blends source-over and has no filter, clip or
/// mask draws straight onto its parent's surface, however many draws it makes.
pub proof fn lemma_plain_node_has_no_layer(c: Compositing, draws: nat)
    requires
        c.opacity == 255,
        c.blend_mode == BlendMode::SourceOver,
        !c.has_filter,
        !c.has_clip,
        !c.has_mask,
    ensures
        !spec_needs_layer(c, draws),
{
}

} // verus!
