//! The request that the dispatcher hands to the renderer.

use crate::extent::{bounds, extent, highest_of, is_extent_of, lowest_of};
use vstd::prelude::*;

verus! {

/// Why a block cannot be rendered.
#[derive(Debug, Clone, Copy, PartialEq, Eq, Structural)]
pub enum RenderError {
    /// The plot is zero pixels wide.
    ZeroWidth,
    /// The plot is zero pixels high.
    ZeroHeight,
    /// The block holds no sample, so it has no extent to plot.
    EmptyBlock,
}

/// What stands in the way of rendering `len` samples on a plot of the
/// given size, if anything. The width is looked at first, then the height,
/// then the block.
pub open spec fn render_obstacle(len: nat, width: u32, height: u32) -> Option<RenderError> {
    if width == 0 {
        Some(RenderError::ZeroWidth)
    } else if height == 0 {
        Some(RenderError::ZeroHeight)
    } else if len == 0 {
        Some(RenderError::EmptyBlock)
    } else {
        None
    }
}

/// One block on its way to the renderer, with the plot size it is drawn at.
/// The request owns the block.
pub struct RenderCall {
    block: Vec<u32>,
    width: u32,
    height: u32,
}

impl RenderCall {
    #[verifier::type_invariant]
    spec fn drawable(&self) -> bool {
        self.width > 0 && self.height > 0 && self.block@.len() > 0
    }

    /// The samples to draw, as binary32 bit patterns.
    pub closed spec fn block(&self) -> Seq<u32> {
        self.block@
    }

    /// The plot width in pixels.
    pub closed spec fn width(&self) -> u32 {
        self.width
    }

    /// The plot height in pixels.
    pub closed spec fn height(&self) -> u32 {
        self.height
    }

    /// Makes a request out of a block and a plot size, or says what stands
    /// in the way.
    pub fn new(block: Vec<u32>, width: u32, height: u32) -> (call: Result<RenderCall, RenderError>)
        ensures
            match render_obstacle(block@.len(), width, height) {
                Some(obstacle) => call == Err::<RenderCall, RenderError>(obstacle),
                None => call is Ok && call->Ok_0.block() == block@ && call->Ok_0.width() == width
                    && call->Ok_0.height() == height,
            },
    {
        if width == 0 {
            Err(RenderError::ZeroWidth)
        } else if height == 0 {
            Err(RenderError::ZeroHeight)
        } else if block.len() == 0 {
            Err(RenderError::EmptyBlock)
        } else {
            Ok(RenderCall { block, width, height })
        }
    }

    /// The plot size in pixels, width first. Neither is zero.
    pub fn size(&self) -> (size: (u32, u32))
        ensures
            size == (self.width(), self.height()),
            size.0 > 0,
            size.1 > 0,
    {
        proof {
            use_type_invariant(self);
        }
        (self.width, self.height)
    }

    /// The last position on the horizontal axis; the first is zero.
    pub fn last_index(&self) -> (last: usize)
        ensures
            self.block().len() > 0,
            last == self.block().len() - 1,
    {
        proof {
            use_type_invariant(self);
        }
        self.block.len() - 1
    }

    /// The least and the greatest sample of the block, as they are.
    pub fn observed(&self) -> (ends: (u32, u32))
        ensures
            ends.0 == lowest_of(self.block()),
            ends.1 == highest_of(self.block()),
    {
        proof {
            use_type_invariant(self);
        }
        bounds(self.block.as_slice())
    }

    /// The ends of a vertical axis that follows the data: the least sample
    /// lifted to a whole number and the greatest cut to one. These are no
    /// bounds of the block: where all samples lie between two neighbouring
    /// whole numbers, the first end lies above the second.
    pub fn extent(&self) -> (ends: (u32, u32))
        ensures
            is_extent_of(ends, self.block()),
    {
        proof {
            use_type_invariant(self);
        }
        extent(self.block.as_slice())
    }

    /// Gives the block up to the renderer.
    pub fn into_block(self) -> (block: Vec<u32>)
        ensures
            block@ == self.block(),
            block@.len() > 0,
    {
        proof {
            use_type_invariant(&self);
        }
        self.block
    }
}

} // verus!
