use vstd::prelude::*;

verus! {

/// Edge length, in pixels, of the square tile that one compute workgroup
/// shades.
pub const WORKGROUP_EDGE: u32 = 16;

/// The workgroups dispatched to shade a window of `width` x `height`
/// pixels: one more per axis than fit whole, and a single layer.
pub fn workgroup_count(width: u32, height: u32) -> (r: (u32, u32, u32))
    ensures
        r.0 == width / 16 + 1,
        r.1 == height / 16 + 1,
        r.2 == 1,
{
    (width / WORKGROUP_EDGE + 1, height / WORKGROUP_EDGE + 1, 1)
}

/// Whether the surface and its textures follow a resize to `width` x
/// `height`: only sizes with no zero side are taken.
pub fn accepts_size(width: u32, height: u32) -> (r: bool)
    ensures
        r == (width > 0 && height > 0),
{
    width != 0 && height != 0
}

} // verus!
