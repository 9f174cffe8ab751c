//! The camera's fixed frame: the origin against which every coordinate sent
//! to the device is measured, and the size of the viewport in pixels.
//!
//! Where the camera looks and how far it is zoomed are fractional
//! quantities; they live with the shell that handles input. What they become
//! on the device is decided here.

use crate::binary32::{binary32, binary32_of_difference};
use vstd::prelude::*;

verus! {

/// Milliseconds in a day: the width of the view that a new camera shows.
pub const MS_PER_DAY: i64 = 86_400_000;

/// Width and height of the viewport, in pixels.
#[derive(Clone, Copy, Debug, PartialEq, Eq, Structural)]
pub struct Dimensions {
    pub width: u32,
    pub height: u32,
}

/// The origin of device coordinates and the viewport they are drawn into.
#[derive(Clone, Copy, Debug, PartialEq, Eq, Structural)]
pub struct Camera {
    /// Reference timestamp in milliseconds, fixed when the camera is made.
    /// Positions go to the device relative to it, which keeps them small.
    pub init_pos: i64,
    /// Size of the viewport; zero by zero until the first resize.
    pub dimensions: Dimensions,
}

impl Camera {
    /// A camera whose origin lies half a day before `now_ms`, so that a view
    /// one day wide, centred on the origin, ends at the present.
    pub fn new(now_ms: i64) -> (camera: Camera)
        requires
            now_ms - MS_PER_DAY / 2 >= i64::MIN,
        ensures
            camera.init_pos == now_ms - MS_PER_DAY / 2,
            camera.dimensions == (Dimensions { width: 0, height: 0 }),
    {
        Camera { init_pos: now_ms - MS_PER_DAY / 2, dimensions: Dimensions { width: 0, height: 0 } }
    }

    /// Takes on a new viewport size. The origin stays.
    pub fn resize(&mut self, width: u32, height: u32)
        ensures
            final(self).dimensions == (Dimensions { width, height }),
            final(self).init_pos == old(self).init_pos,
    {
        self.dimensions = Dimensions { width, height };
    }

    /// Whether the view can be moved: panning and zooming divide by the
    /// viewport's width, and leave the view alone while that is zero.
    pub fn can_move(&self) -> (yes: bool)
        ensures
            yes == (self.dimensions.width > 0),
    {
        self.dimensions.width > 0
    }

    /// The four words of the camera's uniform: the offset of the origin from
    /// the centre of the view `pos_ms`, as a binary32 pattern; the width of
    /// the view, handed through as the pattern `scale` it already is; and two
    /// words of padding.
    pub open spec fn spec_to_slice(&self, pos_ms: i64, scale: u32) -> Seq<u32> {
        seq![binary32(self.init_pos - pos_ms) as u32, scale, 0u32, 0u32]
    }

    /// The four words of the camera's uniform for a view centred on `pos_ms`
    /// and as wide as the pattern `scale` says.
    pub fn to_slice(&self, pos_ms: i64, scale: u32) -> (words: [u32; 4])
        ensures
            words@ == self.spec_to_slice(pos_ms, scale),
    {
        let offset: u32 = binary32_of_difference(self.init_pos, pos_ms);
        let words: [u32; 4] = [offset, scale, 0, 0];
        assert(words@ =~= seq![offset, scale, 0u32, 0u32]);
        words
    }
}

} // verus!
