//! The fixed route that balloons follow: axis-aligned, overlapping segments.
use vstd::prelude::*;

verus! {

/// Bound on the absolute value of each field of a path segment.
pub const SPAN: i64 = 50_000_000;

/// The largest number of segments a path may have.
pub const MAX_SEGMENTS: usize = 100;

/// Thickness of a horizontal segment.
pub const HORIZONTAL_THICKNESS: i64 = 10_000;

/// Thickness of a vertical segment.
pub const VERTICAL_THICKNESS: i64 = 5_000;

/// One straight stretch of the route: a rectangle with its corner at
/// `(x, y)`; balloons travel along it horizontally or vertically.
#[derive(Debug, Clone, Copy, PartialEq, Eq, Structural)]
pub struct RectangleInPath {
    pub x: i64,
    pub y: i64,
    pub height: i64,
    pub width: i64,
    pub is_horizontal: bool,
}

/// Whether `v` lies within `[-SPAN, SPAN]`.
pub open spec fn in_span(v: int) -> bool {
    -SPAN <= v <= SPAN
}

/// The lesser of `a` and `b`.
pub open spec fn lower(a: int, b: int) -> int {
    if a <= b {
        a
    } else {
        b
    }
}

/// The greater of `a` and `b`.
pub open spec fn upper(a: int, b: int) -> int {
    if a <= b {
        b
    } else {
        a
    }
}

/// Whether the closed interval between `a0` and `a1` meets the one between
/// `b0` and `b1`; either end of each may be the smaller.
pub open spec fn spans_meet(a0: int, a1: int, b0: int, b1: int) -> bool {
    lower(a0, a1) <= upper(b0, b1) && lower(b0, b1) <= upper(a0, a1)
}

/// Whether the closed box of a footprint of size `w` by `h` at `(x, y)`
/// meets the closed box of segment `s`.
pub open spec fn touches(s: RectangleInPath, x: int, y: int, w: int, h: int) -> bool {
    spans_meet(s.x as int, s.x + s.width, x, x + w) && spans_meet(s.y as int, s.y + s.height, y, y + h)
}

/// Whether the closed interval between `a0` and `a1` meets the one between
/// `b0` and `b1`.
pub fn ranges_overlap(a0: i64, a1: i64, b0: i64, b1: i64) -> (r: bool)
    ensures
        r == spans_meet(a0 as int, a1 as int, b0 as int, b1 as int),
{
    let (alo, ahi) = if a0 <= a1 {
        (a0, a1)
    } else {
        (a1, a0)
    };
    let (blo, bhi) = if b0 <= b1 {
        (b0, b1)
    } else {
        (b1, b0)
    };
    alo <= bhi && blo <= ahi
}

impl RectangleInPath {
    /// Whether every field lies within `[-SPAN, SPAN]`.
    pub open spec fn wf(&self) -> bool {
        in_span(self.x as int) && in_span(self.y as int) && in_span(self.height as int)
            && in_span(self.width as int)
    }

    /// A horizontal segment from `x0` to `x1` at height `y`.
    pub fn horizontal(x0: i64, x1: i64, y: i64) -> (r: Self)
        requires
            in_span(x0 as int),
            in_span(x1 as int),
            in_span(y as int),
        ensures
            r == (RectangleInPath {
                x: x0,
                y,
                height: HORIZONTAL_THICKNESS,
                width: (x1 - x0) as i64,
                is_horizontal: true,
            }),
    {
        RectangleInPath { x: x0, y, height: HORIZONTAL_THICKNESS, width: x1 - x0, is_horizontal: true }
    }

    /// A vertical segment from `y0` to `y1` at abscissa `x`.
    pub fn vertical(y0: i64, y1: i64, x: i64) -> (r: Self)
        requires
            in_span(y0 as int),
            in_span(y1 as int),
            in_span(x as int),
        ensures
            r == (RectangleInPath {
                x,
                y: y0,
                height: (y1 - y0) as i64,
                width: VERTICAL_THICKNESS,
                is_horizontal: false,
            }),
    {
        RectangleInPath { x, y: y0, height: y1 - y0, width: VERTICAL_THICKNESS, is_horizontal: false }
    }

    /// Whether a footprint of size `w` by `h` at `(x, y)` overlaps this segment.
    pub fn point_on_self(&self, x: i64, y: i64, w: i64, h: i64) -> (r: bool)
        requires
            self.wf(),
            in_span(x as int),
            in_span(y as int),
            in_span(w as int),
            in_span(h as int),
        ensures
            r == touches(*self, x as int, y as int, w as int, h as int),
    {
        ranges_overlap(self.x, self.x + self.width, x, x + w) && ranges_overlap(
            self.y,
            self.y + self.height,
            y,
            y + h,
        )
    }
}

/// The route, from the entry point at the corner of its first segment to the
/// far end of its last.
#[derive(Debug, Clone)]
pub struct BalloonPath {
    pub elements: Vec<RectangleInPath>,
}

/// Whether a sequence of segments can serve as a route.
pub open spec fn path_wf(p: Seq<RectangleInPath>) -> bool {
    1 <= p.len() <= MAX_SEGMENTS && forall|i: int| 0 <= i < p.len() ==> (#[trigger] p[i]).wf()
}

/// Whether a footprint touches any segment of `p`.
pub open spec fn on_path(p: Seq<RectangleInPath>, x: int, y: int, w: int, h: int) -> bool {
    exists|i: int| 0 <= i < p.len() && touches(#[trigger] p[i], x, y, w, h)
}

/// The segment with the given corner, size and direction.
pub open spec fn segment(x: int, y: int, height: int, width: int, is_horizontal: bool) -> RectangleInPath {
    RectangleInPath { x: x as i64, y: y as i64, height: height as i64, width: width as i64, is_horizontal }
}

/// The route of the game, in its five segments.
pub open spec fn standard_route() -> Seq<RectangleInPath> {
    seq![
        segment(-90_000, 0, HORIZONTAL_THICKNESS as int, 90_000, true),
        segment(0, 0, 40_000, VERTICAL_THICKNESS as int, false),
        segment(-45_000, 30_000, HORIZONTAL_THICKNESS as int, 45_000, true),
        segment(-45_000, -10_000, 50_000, VERTICAL_THICKNESS as int, false),
        segment(-45_000, -10_000, HORIZONTAL_THICKNESS as int, 135_000, true),
    ]
}

impl BalloonPath {
    /// Whether this path can serve as a route.
    pub open spec fn wf(&self) -> bool {
        path_wf(self.elements@)
    }

    /// An empty path, to be filled by `generate_path`.
    pub fn new() -> (r: Self)
        ensures
            r.elements@ == Seq::<RectangleInPath>::empty(),
    {
        BalloonPath { elements: Vec::new() }
    }

    /// Appends the five segments of the game's route.
    pub fn generate_path(&mut self)
        ensures
            final(self).elements@ == old(self).elements@ + standard_route(),
    {
        self.elements.push(RectangleInPath::horizontal(-90_000, 0, 0));
        self.elements.push(RectangleInPath::vertical(0, 40_000, 0));
        self.elements.push(RectangleInPath::horizontal(-45_000, 0, 30_000));
        self.elements.push(RectangleInPath::vertical(-10_000, 40_000, -45_000));
        self.elements.push(RectangleInPath::horizontal(-45_000, 90_000, -10_000));
        assert(self.elements@ =~= old(self).elements@ + standard_route());
    }

    /// Whether a footprint of size `w` by `h` at `(x, y)` touches the route.
    pub fn point_on_path(&self, x: i64, y: i64, w: i64, h: i64) -> (r: bool)
        requires
            self.wf(),
            in_span(x as int),
            in_span(y as int),
            in_span(w as int),
            in_span(h as int),
        ensures
            r == on_path(self.elements@, x as int, y as int, w as int, h as int),
    {
        let mut i: usize = 0;
        while i < self.elements.len()
            invariant
                self.wf(),
                in_span(x as int),
                in_span(y as int),
                in_span(w as int),
                in_span(h as int),
                i <= self.elements.len(),
                forall|j: int|
                    0 <= j < i ==> !touches(#[trigger] self.elements@[j], x as int, y as int, w as int, h as int),
            decreases self.elements.len() - i,
        {
            if self.elements[i].point_on_self(x, y, w, h) {
                return true;
            }
            i += 1;
        }
        false
    }
}

} // verus!
