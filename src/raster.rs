use vstd::prelude::*;

verus! {

/// Width of the rendering surface, in pixels.
pub const WIDTH: usize = 1800;

/// Height of the rendering surface, in pixels.
pub const HEIGHT: usize = 1200;

/// Position of pixel `(x, y)` in a row-major buffer of `WIDTH * HEIGHT` cells,
/// or `None` when the pixel lies outside the surface.
pub fn pixel_index(x: usize, y: usize) -> (r: Option<usize>)
    ensures
        r matches Some(i) <==> (x < WIDTH && y < HEIGHT),
        r matches Some(i) ==> i == x + y * WIDTH && i < WIDTH * HEIGHT,
{
    if x < WIDTH && y < HEIGHT {
        Some(x + y * WIDTH)
    } else {
        None
    }
}

/// Largest packed `0xRRGGBB` color.
pub const MAX_COLOR: u32 = 0xffffff;

/// Amount added to a sample's color while its path is in an odd stage.
pub const ODD_STAGE_SHADE: u32 = 160;

/// The color in which a sample is drawn: its own color, shifted while the
/// sample's path is in an odd stage so that stage changes can be seen.
pub fn stage_shade(color: u32, stage: usize) -> (r: u32)
    requires
        color <= MAX_COLOR,
    ensures
        r == if stage % 2 == 1 {
            color + ODD_STAGE_SHADE
        } else {
            color as int
        },
{
    if stage % 2 == 1 {
        color + ODD_STAGE_SHADE
    } else {
        color
    }
}

} // verus!
