use vstd::prelude::*;

use crate::text::same_text;

verus! {

/// The packed `0xRRGGBB` color that a palette name stands for, if it is one.
pub open spec fn palette_color(name: Seq<char>) -> Option<u32> {
    if name == "red"@ {
        Some(0xff0000u32)
    } else if name == "blue"@ {
        Some(0x0000ffu32)
    } else if name == "green"@ {
        Some(0x00ff00u32)
    } else if name == "yellow"@ {
        Some(0xffff00u32)
    } else if name == "violet"@ {
        Some(0xff00ffu32)
    } else {
        None
    }
}

/// Looks a color name up in the palette.
pub fn color_of(name: &str) -> (r: Option<u32>)
    ensures
        r == palette_color(name@),
{
    if same_text(name, "red") {
        Some(0xff0000)
    } else if same_text(name, "blue") {
        Some(0x0000ff)
    } else if same_text(name, "green") {
        Some(0x00ff00)
    } else if same_text(name, "yellow") {
        Some(0xffff00)
    } else if same_text(name, "violet") {
        Some(0xff00ff)
    } else {
        None
    }
}

/// The packed color of a palette name; the name must be one of the palette's.
pub fn get_color(name: &str) -> (r: u32)
    requires
        palette_color(name@) is Some,
    ensures
        palette_color(name@) == Some(r),
{
    match color_of(name) {
        Some(c) => c,
        None => 0,
    }
}

} // verus!
