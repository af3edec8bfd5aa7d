use vstd::prelude::*;

verus! {

/// Number of position units in one world unit.
pub const SCALE: i64 = 1000;

/// Largest magnitude allowed for a coordinate or an extent.
pub const COORD_LIMIT: i64 = 1_000_000_000_000;

/// A point in fixed-point world coordinates.
#[derive(Clone, Copy, Debug, PartialEq, Eq, Structural)]
pub struct Point {
    pub x: i64,
    pub y: i64,
}

impl Point {
    pub open spec fn in_limits(self) -> bool {
        -COORD_LIMIT <= self.x <= COORD_LIMIT && -COORD_LIMIT <= self.y <= COORD_LIMIT
    }

    /// Squared Euclidean distance between two points.
    pub open spec fn dist2(self, o: Point) -> int {
        (o.x - self.x) * (o.x - self.x) + (o.y - self.y) * (o.y - self.y)
    }

    pub fn distance_squared(&self, o: &Point) -> (r: u128)
        requires
            self.in_limits(),
            o.in_limits(),
        ensures
            r == self.dist2(*o),
    {
        let dx: i128 = o.x as i128 - self.x as i128;
        let dy: i128 = o.y as i128 - self.y as i128;
        assert(dx * dx <= 4 * COORD_LIMIT * COORD_LIMIT) by (nonlinear_arith)
            requires
                -2 * COORD_LIMIT <= dx <= 2 * COORD_LIMIT,
        ;
        assert(dy * dy <= 4 * COORD_LIMIT * COORD_LIMIT) by (nonlinear_arith)
            requires
                -2 * COORD_LIMIT <= dy <= 2 * COORD_LIMIT,
        ;
        assert(0 <= dx * dx && 0 <= dy * dy) by (nonlinear_arith);
        ((dx * dx) + (dy * dy)) as u128
    }
}

/// An axis-aligned rectangle covering the half-open region
/// `[x, x + w) × [y, y + h)`.
#[derive(Clone, Copy, Debug, PartialEq, Eq, Structural)]
pub struct Rect {
    pub x: i64,
    pub y: i64,
    pub w: i64,
    pub h: i64,
}

impl Rect {
    /// Both corners within the coordinate limits, extents non-negative.
    pub open spec fn valid(self) -> bool {
        &&& -COORD_LIMIT <= self.x
        &&& -COORD_LIMIT <= self.y
        &&& 0 <= self.w
        &&& 0 <= self.h
        &&& self.x + self.w <= COORD_LIMIT
        &&& self.y + self.h <= COORD_LIMIT
    }

    pub open spec fn has(self, p: Point) -> bool {
        self.x <= p.x < self.x + self.w && self.y <= p.y < self.y + self.h
    }

    /// Overlap test with closed edges: rectangles that only touch count as
    /// intersecting.
    pub open spec fn meets(self, o: Rect) -> bool {
        &&& self.x <= o.x + o.w
        &&& o.x <= self.x + self.w
        &&& self.y <= o.y + o.h
        &&& o.y <= self.y + self.h
    }

    /// The cell is large enough to be split into four non-empty quadrants.
    pub open spec fn splittable(self) -> bool {
        self.w >= 2 && self.h >= 2
    }

    pub open spec fn size(self) -> nat {
        (self.w + self.h) as nat
    }

    pub open spec fn quad_nw(self) -> Rect {
        Rect { x: self.x, y: self.y, w: (self.w / 2) as i64, h: (self.h / 2) as i64 }
    }

    pub open spec fn quad_ne(self) -> Rect {
        Rect {
            x: (self.x + self.w / 2) as i64,
            y: self.y,
            w: (self.w - self.w / 2) as i64,
            h: (self.h / 2) as i64,
        }
    }

    pub open spec fn quad_sw(self) -> Rect {
        Rect {
            x: self.x,
            y: (self.y + self.h / 2) as i64,
            w: (self.w / 2) as i64,
            h: (self.h - self.h / 2) as i64,
        }
    }

    pub open spec fn quad_se(self) -> Rect {
        Rect {
            x: (self.x + self.w / 2) as i64,
            y: (self.y + self.h / 2) as i64,
            w: (self.w - self.w / 2) as i64,
            h: (self.h - self.h / 2) as i64,
        }
    }

    pub fn new(x: i64, y: i64, w: i64, h: i64) -> (r: Rect)
        ensures
            r == (Rect { x, y, w, h }),
    {
        Rect { x, y, w, h }
    }

    /// Whether `p` lies in the half-open region.
    pub fn contains(&self, p: &Point) -> (r: bool)
        requires
            self.valid(),
        ensures
            r == self.has(*p),
    {
        self.x <= p.x && p.x < self.x + self.w && self.y <= p.y && p.y < self.y + self.h
    }

    /// Whether the two rectangles overlap, edges included.
    pub fn intersects(&self, o: &Rect) -> (r: bool)
        requires
            self.valid(),
            o.valid(),
        ensures
            r == self.meets(*o),
    {
        self.x <= o.x + o.w && o.x <= self.x + self.w && self.y <= o.y + o.h && o.y <= self.y
            + self.h
    }

    /// The four quadrants, in the order north-west, north-east, south-west, south-east.
    pub fn quadrants(&self) -> (r: (Rect, Rect, Rect, Rect))
        requires
            self.valid(),
        ensures
            r.0 == self.quad_nw(),
            r.1 == self.quad_ne(),
            r.2 == self.quad_sw(),
            r.3 == self.quad_se(),
    {
        let hw = self.w / 2;
        let hh = self.h / 2;
        (
            Rect { x: self.x, y: self.y, w: hw, h: hh },
            Rect { x: self.x + hw, y: self.y, w: self.w - hw, h: hh },
            Rect { x: self.x, y: self.y + hh, w: hw, h: self.h - hh },
            Rect { x: self.x + hw, y: self.y + hh, w: self.w - hw, h: self.h - hh },
        )
    }
}

/// The quadrants of a valid rectangle are valid, tile it exactly, and are smaller
/// than it when it can be split.
pub proof fn lemma_quadrants(r: Rect)
    requires
        r.valid(),
    ensures
        r.quad_nw().valid() && r.quad_ne().valid() && r.quad_sw().valid() && r.quad_se().valid(),
        forall|p: Point| #[trigger] r.has(p) <==> (r.quad_nw().has(p) || r.quad_ne().has(p) || r.quad_sw().has(p) || r.quad_se().has(p)),
        forall|p: Point| r.quad_nw().has(p) ==> !r.quad_ne().has(p) && !r.quad_sw().has(p) && !r.quad_se().has(p),
        forall|p: Point| r.quad_ne().has(p) ==> !r.quad_sw().has(p) && !r.quad_se().has(p),
        forall|p: Point| r.quad_sw().has(p) ==> !r.quad_se().has(p),
        r.splittable() ==> r.quad_nw().size() < r.size() && r.quad_ne().size() < r.size()
            && r.quad_sw().size() < r.size() && r.quad_se().size() < r.size(),
{
}

/// A point inside two rectangles makes them meet.
pub proof fn lemma_shared_point_meets(a: Rect, b: Rect, p: Point)
    requires
        a.has(p),
        b.has(p),
    ensures
        a.meets(b),
{
}

} // verus!
