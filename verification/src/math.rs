use vstd::prelude::*;

verus! {

/// A two-dimensional integer vector, used for pixel coordinates and sizes.
///
/// Drawing works on whole pixels, so coordinates are integers; a caller that
/// holds fractional window coordinates truncates them toward zero before
/// handing them to the library.
#[derive(Clone, Copy, Debug, PartialEq, Eq, Structural)]
pub struct Vec2 {
    pub x: i32,
    pub y: i32,
}

impl Vec2 {
    pub fn new(x: i32, y: i32) -> (v: Vec2)
        ensures
            v == (Vec2 { x, y }),
    {
        Vec2 { x, y }
    }
}

} // verus!
