use vstd::prelude::*;

verus! {

/// An axis-aligned rectangle in screen coordinates, used for hit-testing.
#[derive(Clone, Copy, Debug, PartialEq, Eq, Structural)]
pub struct WidgetRect {
    pub x: i32,
    pub y: i32,
    pub width: i32,
    pub height: i32,
}

/// The rectangle holds the point, boundary included.
pub open spec fn contains(r: WidgetRect, px: int, py: int) -> bool {
    r.x <= px <= r.x + r.width && r.y <= py <= r.y + r.height
}

impl WidgetRect {
    pub fn contains_point(&self, px: i32, py: i32) -> (r: bool)
        ensures
            r == contains(*self, px as int, py as int),
    {
        let right: i64 = self.x as i64 + self.width as i64;
        let bottom: i64 = self.y as i64 + self.height as i64;
        self.x <= px && (px as i64) <= right && self.y <= py && (py as i64) <= bottom
    }
}

/// Some rectangle of `rects` holds the point.
pub open spec fn over_any(px: int, py: int, rects: Seq<WidgetRect>) -> bool {
    exists|i: int| 0 <= i < rects.len() && contains(#[trigger] rects[i], px, py)
}

/// Hit-test of a point against a set of rectangles, boundaries included.
pub fn over_widget(px: i32, py: i32, rects: &Vec<WidgetRect>) -> (r: bool)
    ensures
        r == over_any(px as int, py as int, rects@),
{
    let mut i: usize = 0;
    while i < rects.len()
        invariant
            i <= rects@.len(),
            forall|j: int| 0 <= j < i ==> !contains(#[trigger] rects@[j], px as int, py as int),
        decreases rects@.len() - i,
    {
        if rects[i].contains_point(px, py) {
            return true;
        }
        i = i + 1;
    }
    false
}

} // verus!
