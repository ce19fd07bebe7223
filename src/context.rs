use vstd::prelude::*;
use crate::assets::AssetManager;
use crate::geometry::Size2D;

verus! {

/// What building batches needs beyond the display list.
pub struct Context {
    /// The asset manager.
    pub asset_manager: AssetManager,
    /// The size of the render target in pixels.
    pub render_target_size: Size2D<i32>,
}

} // verus!
