use vstd::prelude::*;

verus! {

/// A rectangle on the screen or in an inventory grid, in pixels or cells.
#[derive(PartialEq, Eq, Structural, Debug, Clone, Copy)]
pub struct UiArea {
    pub x: i32,
    pub y: i32,
    pub w: i32,
    pub h: i32,
}

/// The point `(x, y)` lies inside the area, both borders included.
pub open spec fn area_contains(a: UiArea, x: int, y: int) -> bool {
    x >= a.x && y >= a.y && x <= a.x + a.w && y <= a.y + a.h
}

impl UiArea {
    pub fn new(x: i32, y: i32, w: i32, h: i32) -> (r: UiArea)
        ensures
            r == (UiArea { x, y, w, h }),
    {
        UiArea { x, y, w, h }
    }

    /// Point-in-rectangle test, both borders included.
    pub fn contains(&self, x: i32, y: i32) -> (r: bool)
        requires
            -0x4000_0000 <= self.x + self.w <= 0x4000_0000,
            -0x4000_0000 <= self.y + self.h <= 0x4000_0000,
        ensures
            r == area_contains(*self, x as int, y as int),
    {
        x >= self.x && y >= self.y && x <= self.x + self.w && y <= self.y + self.h
    }
}

/// A mouse-wheel movement reported by the host shell, in scroll steps and
/// with the pointer position in screen pixels.
#[derive(PartialEq, Eq, Structural, Debug, Clone, Copy)]
pub struct ScrollEvent {
    pub dx: i32,
    pub dy: i32,
    pub mx: i32,
    pub my: i32,
}

} // verus!
