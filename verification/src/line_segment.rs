//! Straight-edge curves: slope classification, bounds, and exact scanline
//! probes.

use vstd::prelude::*;
use crate::rat::{Rat, probe_wf, lemma_mul_bound, PROBE_DEN_LIMIT, PROBE_NUM_LIMIT};
use crate::geom::{V2, RatV2, Bounds, Intersection, COORD_LIMIT};

verus! {

/// Slope classification of a segment, derived from its x-sorted endpoints.
/// `Defined { m, b }` is the standard line `y = m*x + b`, held exactly.
#[derive(Clone, Copy, Debug, PartialEq, Eq, Structural)]
pub enum Slope {
    Vertical,
    Defined { m: Rat, b: Rat },
    Horizontal,
}

/// The endpoint with the smaller x-coordinate (ties keep the given order).
pub open spec fn left_of(s: V2, e: V2) -> V2 {
    if s.x <= e.x { s } else { e }
}

/// The endpoint with the larger x-coordinate (ties keep the given order).
pub open spec fn right_of(s: V2, e: V2) -> V2 {
    if s.x <= e.x { e } else { s }
}

/// Axis-aligned bounds of the segment from `s` to `e`.
pub open spec fn bounds_of(s: V2, e: V2) -> Bounds {
    Bounds {
        left: left_of(s, e).x,
        right: right_of(s, e).x,
        top: if s.y <= e.y { e.y } else { s.y },
        bottom: if s.y <= e.y { s.y } else { e.y },
    }
}

/// Numerator of the slope `m` of the x-sorted line through `s` and `e`.
pub open spec fn m_num_of(s: V2, e: V2) -> int {
    right_of(s, e).y - left_of(s, e).y
}

/// Denominator of the slope `m`: the (non-negative) x extent.
pub open spec fn m_den_of(s: V2, e: V2) -> int {
    right_of(s, e).x - left_of(s, e).x
}

/// Numerator of the intercept `b = left.y - m * left.x`, over the common
/// denominator `m_den_of`.
pub open spec fn b_num_of(s: V2, e: V2) -> int {
    left_of(s, e).y * m_den_of(s, e) - m_num_of(s, e) * left_of(s, e).x
}

/// Slope classification of the segment from `s` to `e`.
pub open spec fn slope_of(s: V2, e: V2) -> Slope {
    if m_den_of(s, e) == 0 {
        Slope::Vertical
    } else if m_num_of(s, e) == 0 {
        Slope::Horizontal
    } else {
        Slope::Defined {
            m: Rat { num: m_num_of(s, e) as i128, den: m_den_of(s, e) as i128 },
            b: Rat { num: b_num_of(s, e) as i128, den: m_den_of(s, e) as i128 },
        }
    }
}

/// The rational point `(x, y)` lies on the infinite line `y = m*x + b`
/// through `s` and `e` (both fractions over the common denominator
/// `m_den_of`).
pub open spec fn on_line(s: V2, e: V2, x: Rat, y: Rat) -> bool {
    y.num * x.den * m_den_of(s, e)
        == m_num_of(s, e) * x.num * y.den + b_num_of(s, e) * x.den * y.den
}

/// A directed straight edge: the segment from `start` to `end`, with its
/// derived bounds and slope classification. Immutable after construction;
/// `translate` produces a new value.
#[derive(Clone, Copy, Debug, PartialEq, Eq, Structural)]
pub struct LineSegment {
    pub m: Slope,
    pub bounds: Bounds,
    pub start: V2,
    pub end: V2,
}

impl LineSegment {
    /// Well formed: endpoints in range and distinct, and the derived fields
    /// agree with the endpoints.
    pub open spec fn wf(self) -> bool {
        &&& self.start.in_range()
        &&& self.end.in_range()
        &&& self.start != self.end
        &&& self.bounds == bounds_of(self.start, self.end)
        &&& self.m == slope_of(self.start, self.end)
    }

    /// Construct the segment from `start` to `end`, classifying its slope and
    /// computing its bounds. The caller's traversal order is preserved for
    /// parametric sampling; the slope is derived from the x-sorted endpoints.
    pub fn new(start: V2, end: V2) -> (r: LineSegment)
        requires
            start.in_range(),
            end.in_range(),
            start != end,
        ensures
            r.wf(),
            r.start == start,
            r.end == end,
    {
        let left = if start.x <= end.x { start } else { end };
        let right = if start.x <= end.x { end } else { start };
        let bottom: i64 = if start.y <= end.y { start.y } else { end.y };
        let top: i64 = if start.y <= end.y { end.y } else { start.y };
        let dx: i64 = right.x - left.x;
        let dy: i64 = right.y - left.y;
        let m = if dx == 0 {
            Slope::Vertical
        } else if dy == 0 {
            Slope::Horizontal
        } else {
            proof {
                lemma_mul_bound(left.y as int, dx as int, COORD_LIMIT as int, 2 * COORD_LIMIT as int);
                lemma_mul_bound(dy as int, left.x as int, 2 * COORD_LIMIT as int, COORD_LIMIT as int);
            }
            let b_num: i128 = (left.y as i128) * (dx as i128) - (dy as i128) * (left.x as i128);
            Slope::Defined {
                m: Rat { num: dy as i128, den: dx as i128 },
                b: Rat { num: b_num, den: dx as i128 },
            }
        };
        LineSegment {
            m,
            bounds: Bounds { left: left.x, right: right.x, top, bottom },
            start,
            end,
        }
    }

    /// The segment's two directed endpoints, in traversal order: `t == 0`
    /// corresponds to the first element, `t == 1` to the second.
    pub fn bookends(&self) -> (r: (V2, V2))
        ensures
            r.0 == self.start,
            r.1 == self.end,
    {
        (self.start, self.end)
    }

    /// The segment's axis-aligned bounding box.
    pub fn bounds(&self) -> (r: Bounds)
        ensures
            r == self.bounds,
            self.wf() ==> r.wf(),
    {
        self.bounds
    }

    /// The segment's slope classification.
    pub fn slope(&self) -> (r: Slope)
        ensures
            r == self.m,
    {
        self.m
    }

    /// Squared Euclidean length, exact.
    pub fn length_sq(&self) -> (r: i128)
        requires
            self.wf(),
        ensures
            r == (self.end.x - self.start.x) * (self.end.x - self.start.x)
                + (self.end.y - self.start.y) * (self.end.y - self.start.y),
    {
        self.end.dist_sq(self.start)
    }

    /// The probe height `y` lies within the segment's vertical bounds,
    /// inclusive at both ends (`bottom <= y <= top`, cross-multiplied by
    /// `y.den > 0`).
    pub open spec fn y_in_bounds(self, y: Rat) -> bool {
        &&& self.bounds.bottom * y.den <= y.num
        &&& y.num <= self.bounds.top * y.den
    }

    /// The probe abscissa `x` lies within the segment's horizontal bounds,
    /// inclusive at both ends.
    pub open spec fn x_in_bounds(self, x: Rat) -> bool {
        &&& self.bounds.left * x.den <= x.num
        &&& x.num <= self.bounds.right * x.den
    }

    /// Probe with the horizontal line at height `y`: the exact crossing, or
    /// `None` when `y` is outside the vertical bounds or the segment is
    /// horizontal.
    ///
    /// For a `Vertical` segment, `t` is measured from the bottom endpoint up;
    /// for a `Defined` segment, `t` is measured from `start` towards `end`.
    pub fn sample_y(&self, y: Rat) -> (r: Option<Intersection>)
        requires
            self.wf(),
            probe_wf(y),
        ensures
            (r is Some) <==> (self.y_in_bounds(y) && !(self.m is Horizontal)),
            r matches Some(i) ==> i.axis.wf() && i.t.wf(),
            r matches Some(i) ==> self.m is Vertical ==> {
                &&& i.axis.is_int(self.bounds.right as int)
                &&& i.t.is_frac(
                    y.num - self.bounds.bottom * y.den,
                    (self.bounds.top - self.bounds.bottom) * y.den,
                )
            },
            r matches Some(i) ==> self.m is Defined ==> {
                &&& on_line(self.start, self.end, i.axis, y)
                &&& i.t.is_frac(
                    y.num - self.start.y * y.den,
                    (self.end.y - self.start.y) * y.den,
                )
            },
    {
        let bottom: i128 = self.bounds.bottom as i128;
        let top: i128 = self.bounds.top as i128;
        proof {
            lemma_mul_bound(bottom as int, y.den as int, COORD_LIMIT as int, PROBE_DEN_LIMIT as int);
            lemma_mul_bound(top as int, y.den as int, COORD_LIMIT as int, PROBE_DEN_LIMIT as int);
        }
        if !(bottom * y.den <= y.num && y.num <= top * y.den) {
            return None;
        }
        match self.m {
            Slope::Vertical => {
                proof {
                    // A vertical segment with distinct endpoints has a proper
                    // vertical extent.
                    assert(self.bounds.bottom < self.bounds.top);
                    lemma_mul_bound(
                        (top - bottom) as int,
                        y.den as int,
                        2 * COORD_LIMIT as int,
                        PROBE_DEN_LIMIT as int,
                    );
                    assert((top - bottom) * y.den > 0) by (nonlinear_arith)
                        requires
                            top - bottom > 0,
                            y.den > 0;
                    assert((self.bounds.right as i128) == (self.bounds.right as int) * 1);
                }
                Some(Intersection {
                    axis: Rat { num: self.bounds.right as i128, den: 1 },
                    t: Rat { num: y.num - bottom * y.den, den: (top - bottom) * y.den },
                })
            }
            Slope::Horizontal => None,
            Slope::Defined { m, b } => {
                proof {
                    lemma_defined_field_bounds(*self);
                }
                proof {
                    lemma_mul_bound(y.num as int, b.den as int, PROBE_NUM_LIMIT as int, 2 * COORD_LIMIT as int);
                    lemma_mul_bound(
                        b.num as int,
                        y.den as int,
                        8 * COORD_LIMIT as int * COORD_LIMIT as int,
                        PROBE_DEN_LIMIT as int,
                    );
                    lemma_mul_bound(y.den as int, b.den as int, PROBE_DEN_LIMIT as int, 2 * COORD_LIMIT as int);
                }
                let n1: i128 = y.num * b.den - b.num * y.den;
                let d1: i128 = y.den * b.den;
                proof {
                    lemma_mul_bound(
                        n1 as int,
                        m.den as int,
                        PROBE_NUM_LIMIT as int * 2 * COORD_LIMIT as int
                            + 8 * COORD_LIMIT as int * COORD_LIMIT as int * PROBE_DEN_LIMIT as int,
                        2 * COORD_LIMIT as int,
                    );
                    lemma_mul_bound(
                        d1 as int,
                        m.num as int,
                        PROBE_DEN_LIMIT as int * 2 * COORD_LIMIT as int,
                        2 * COORD_LIMIT as int,
                    );
                }
                let axis_num0: i128 = n1 * m.den;
                let axis_den0: i128 = d1 * m.num;
                proof {
                    assert(axis_den0 != 0) by (nonlinear_arith)
                        requires
                            d1 == y.den * b.den,
                            axis_den0 == d1 * m.num,
                            y.den > 0,
                            b.den > 0,
                            m.num != 0;
                }
                let axis_num: i128 = if axis_den0 < 0 { -axis_num0 } else { axis_num0 };
                let axis_den: i128 = if axis_den0 < 0 { -axis_den0 } else { axis_den0 };
                let sy: i128 = self.start.y as i128;
                let ey: i128 = self.end.y as i128;
                proof {
                    lemma_mul_bound(sy as int, y.den as int, COORD_LIMIT as int, PROBE_DEN_LIMIT as int);
                    lemma_mul_bound(
                        (ey - sy) as int,
                        y.den as int,
                        2 * COORD_LIMIT as int,
                        PROBE_DEN_LIMIT as int,
                    );
                    // A defined slope has distinct y endpoints.
                    assert(self.end.y != self.start.y);
                }
                let t_num0: i128 = y.num - sy * y.den;
                let t_den0: i128 = (ey - sy) * y.den;
                proof {
                    assert(t_den0 != 0) by (nonlinear_arith)
                        requires
                            t_den0 == (ey - sy) * y.den,
                            ey != sy,
                            y.den > 0;
                }
                let t_num: i128 = if t_den0 < 0 { -t_num0 } else { t_num0 };
                let t_den: i128 = if t_den0 < 0 { -t_den0 } else { t_den0 };
                let axis = Rat { num: axis_num, den: axis_den };
                let t = Rat { num: t_num, den: t_den };
                proof {
                    lemma_sample_y_defined(*self, y, m, b, axis, t, n1, d1, axis_num0, axis_den0, t_num0, t_den0);
                }
                Some(Intersection { axis, t })
            }
        }
    }

    /// Probe with the vertical line at abscissa `x`: the exact crossing, or
    /// `None` when `x` is outside the horizontal bounds or the segment is
    /// vertical.
    ///
    /// For a `Horizontal` segment, `t` is measured from the left endpoint
    /// rightwards; for a `Defined` segment, `t` is measured from `start`
    /// towards `end`.
    pub fn sample_x(&self, x: Rat) -> (r: Option<Intersection>)
        requires
            self.wf(),
            probe_wf(x),
        ensures
            (r is Some) <==> (self.x_in_bounds(x) && !(self.m is Vertical)),
            r matches Some(i) ==> i.axis.wf() && i.t.wf(),
            r matches Some(i) ==> self.m is Horizontal ==> {
                &&& i.axis.is_int(self.bounds.bottom as int)
                &&& i.t.is_frac(
                    x.num - self.bounds.left * x.den,
                    (self.bounds.right - self.bounds.left) * x.den,
                )
            },
            r matches Some(i) ==> self.m is Defined ==> {
                &&& on_line(self.start, self.end, x, i.axis)
                &&& i.t.is_frac(
                    x.num - self.start.x * x.den,
                    (self.end.x - self.start.x) * x.den,
                )
            },
    {
        let left: i128 = self.bounds.left as i128;
        let right: i128 = self.bounds.right as i128;
        proof {
            lemma_mul_bound(left as int, x.den as int, COORD_LIMIT as int, PROBE_DEN_LIMIT as int);
            lemma_mul_bound(right as int, x.den as int, COORD_LIMIT as int, PROBE_DEN_LIMIT as int);
        }
        if !(left * x.den <= x.num && x.num <= right * x.den) {
            return None;
        }
        match self.m {
            Slope::Vertical => None,
            Slope::Horizontal => {
                proof {
                    // A horizontal segment with distinct endpoints has a
                    // proper horizontal extent.
                    assert(self.bounds.left < self.bounds.right);
                    lemma_mul_bound(
                        (right - left) as int,
                        x.den as int,
                        2 * COORD_LIMIT as int,
                        PROBE_DEN_LIMIT as int,
                    );
                    assert((right - left) * x.den > 0) by (nonlinear_arith)
                        requires
                            right - left > 0,
                            x.den > 0;
                    assert((self.bounds.bottom as i128) == (self.bounds.bottom as int) * 1);
                }
                Some(Intersection {
                    axis: Rat { num: self.bounds.bottom as i128, den: 1 },
                    t: Rat { num: x.num - left * x.den, den: (right - left) * x.den },
                })
            }
            Slope::Defined { m, b } => {
                proof {
                    lemma_defined_field_bounds(*self);
                }
                proof {
                    lemma_mul_bound(m.num as int, x.num as int, 2 * COORD_LIMIT as int, PROBE_NUM_LIMIT as int);
                    lemma_mul_bound(
                        b.num as int,
                        x.den as int,
                        8 * COORD_LIMIT as int * COORD_LIMIT as int,
                        PROBE_DEN_LIMIT as int,
                    );
                    lemma_mul_bound(m.den as int, x.den as int, 2 * COORD_LIMIT as int, PROBE_DEN_LIMIT as int);
                }
                let y_num: i128 = m.num * x.num + b.num * x.den;
                let y_den: i128 = m.den * x.den;
                proof {
                    assert(y_den > 0) by (nonlinear_arith)
                        requires
                            y_den == m.den * x.den,
                            m.den > 0,
                            x.den > 0;
                }
                let sx: i128 = self.start.x as i128;
                let ex: i128 = self.end.x as i128;
                proof {
                    lemma_mul_bound(sx as int, x.den as int, COORD_LIMIT as int, PROBE_DEN_LIMIT as int);
                    lemma_mul_bound(
                        (ex - sx) as int,
                        x.den as int,
                        2 * COORD_LIMIT as int,
                        PROBE_DEN_LIMIT as int,
                    );
                    assert(self.end.x != self.start.x);
                }
                let t_num0: i128 = x.num - sx * x.den;
                let t_den0: i128 = (ex - sx) * x.den;
                proof {
                    assert(t_den0 != 0) by (nonlinear_arith)
                        requires
                            t_den0 == (ex - sx) * x.den,
                            ex != sx,
                            x.den > 0;
                }
                let t_num: i128 = if t_den0 < 0 { -t_num0 } else { t_num0 };
                let t_den: i128 = if t_den0 < 0 { -t_den0 } else { t_den0 };
                let axis = Rat { num: y_num, den: y_den };
                let t = Rat { num: t_num, den: t_den };
                proof {
                    assert(on_line(self.start, self.end, x, axis)) by (nonlinear_arith)
                        requires
                            axis == (Rat { num: y_num, den: y_den }),
                            y_num == m.num * x.num + b.num * x.den,
                            y_den == m.den * x.den,
                            m.num == m_num_of(self.start, self.end),
                            m.den == m_den_of(self.start, self.end),
                            b.num == b_num_of(self.start, self.end),
                            on_line(self.start, self.end, x, axis) == (
                                axis.num * x.den * m_den_of(self.start, self.end)
                                    == m_num_of(self.start, self.end) * x.num * axis.den
                                        + b_num_of(self.start, self.end) * x.den * axis.den
                            );
                    assert(t.num * ((self.end.x - self.start.x) * x.den)
                        == (x.num - self.start.x * x.den) * t.den) by (nonlinear_arith)
                        requires
                            (t.num == t_num0 && t.den == t_den0)
                                || (t.num == -t_num0 && t.den == -t_den0),
                            t_num0 == x.num - self.start.x * x.den,
                            t_den0 == (self.end.x - self.start.x) * x.den;
                }
                Some(Intersection { axis, t })
            }
        }
    }

    /// Sample the point at fraction `t` of the segment's directed length,
    /// measured from `start`; `None` outside `[0, 1]` (no extrapolation).
    pub fn sample_t(&self, t: Rat) -> (r: Option<RatV2>)
        requires
            self.wf(),
            0 < t.den <= PROBE_DEN_LIMIT,
        ensures
            (r is Some) <==> (0 <= t.num <= t.den),
            r matches Some(p) ==> p.x.wf() && p.y.wf(),
            r matches Some(p) ==> {
                &&& p.x.is_frac(
                    self.start.x * t.den + (self.end.x - self.start.x) * t.num,
                    t.den as int,
                )
                &&& p.y.is_frac(
                    self.start.y * t.den + (self.end.y - self.start.y) * t.num,
                    t.den as int,
                )
            },
            r matches Some(p) ==> t.num == 0 ==> {
                &&& p.x.is_int(self.start.x as int)
                &&& p.y.is_int(self.start.y as int)
            },
            r matches Some(p) ==> t.num == t.den ==> {
                &&& p.x.is_int(self.end.x as int)
                &&& p.y.is_int(self.end.y as int)
            },
    {
        if t.num < 0 || t.num > t.den {
            return None;
        }
        let sx: i128 = self.start.x as i128;
        let sy: i128 = self.start.y as i128;
        let dxx: i128 = (self.end.x - self.start.x) as i128;
        let dyy: i128 = (self.end.y - self.start.y) as i128;
        proof {
            lemma_mul_bound(sx as int, t.den as int, COORD_LIMIT as int, PROBE_DEN_LIMIT as int);
            lemma_mul_bound(sy as int, t.den as int, COORD_LIMIT as int, PROBE_DEN_LIMIT as int);
            lemma_mul_bound(dxx as int, t.num as int, 2 * COORD_LIMIT as int, PROBE_DEN_LIMIT as int);
            lemma_mul_bound(dyy as int, t.num as int, 2 * COORD_LIMIT as int, PROBE_DEN_LIMIT as int);
        }
        let px_num: i128 = sx * t.den + dxx * t.num;
        let py_num: i128 = sy * t.den + dyy * t.num;
        proof {
            assert(t.num == 0 ==> px_num == sx * t.den && py_num == sy * t.den)
                by (nonlinear_arith)
                requires
                    px_num == sx * t.den + dxx * t.num,
                    py_num == sy * t.den + dyy * t.num;
            assert(t.num == t.den ==> px_num == (sx + dxx) * t.den && py_num == (sy + dyy) * t.den)
                by (nonlinear_arith)
                requires
                    px_num == sx * t.den + dxx * t.num,
                    py_num == sy * t.den + dyy * t.num;
        }
        Some(RatV2 {
            x: Rat { num: px_num, den: t.den },
            y: Rat { num: py_num, den: t.den },
        })
    }

    /// A new segment shifted by `amount` along `direction`, preserving the
    /// original traversal direction and length exactly.
    pub fn translate(&self, direction: V2, amount: i64) -> (r: LineSegment)
        requires
            self.wf(),
            -COORD_LIMIT <= self.start.x + direction.x * amount <= COORD_LIMIT,
            -COORD_LIMIT <= self.start.y + direction.y * amount <= COORD_LIMIT,
            -COORD_LIMIT <= self.end.x + direction.x * amount <= COORD_LIMIT,
            -COORD_LIMIT <= self.end.y + direction.y * amount <= COORD_LIMIT,
        ensures
            r.wf(),
            r.start.x == self.start.x + direction.x * amount,
            r.start.y == self.start.y + direction.y * amount,
            r.end.x == self.end.x + direction.x * amount,
            r.end.y == self.end.y + direction.y * amount,
            r.end.x - r.start.x == self.end.x - self.start.x,
            r.end.y - r.start.y == self.end.y - self.start.y,
    {
        let shift_x: i64 = direction.x * amount;
        let shift_y: i64 = direction.y * amount;
        let new_start = V2 { x: self.start.x + shift_x, y: self.start.y + shift_y };
        let new_end = V2 { x: self.end.x + shift_x, y: self.end.y + shift_y };
        Self::new(new_start, new_end)
    }
}

/// The single error of this core: a horizontal segment cannot be rasterised,
/// because it produces no vertical-scanline crossing.
#[derive(Clone, Copy, Debug, PartialEq, Eq, Structural)]
pub struct HorizontalNotRasterable;

/// A line segment with the type-level guarantee that it is not horizontal.
/// The fallible conversion from `LineSegment` is the only construction path,
/// so downstream rasterization needs no further horizontal filtering.
#[derive(Clone, Copy, Debug, PartialEq, Eq, Structural)]
pub struct RasterableLineSegment(LineSegment);

impl RasterableLineSegment {
    /// The wrapped segment.
    pub closed spec fn inner(self) -> LineSegment {
        self.0
    }

    /// Well formed: the wrapped segment is well formed and not horizontal.
    pub open spec fn wf(self) -> bool {
        &&& self.inner().wf()
        &&& !(self.inner().m is Horizontal)
    }

    /// Build directly from endpoints; `None` exactly when the segment through
    /// them is horizontal.
    pub fn new(start: V2, end: V2) -> (r: Option<RasterableLineSegment>)
        requires
            start.in_range(),
            end.in_range(),
            start != end,
        ensures
            (r is Some) <==> !(slope_of(start, end) is Horizontal),
            r matches Some(rl) ==> {
                &&& rl.wf()
                &&& rl.inner().start == start
                &&& rl.inner().end == end
            },
    {
        match Self::try_from(LineSegment::new(start, end)) {
            Ok(rl) => Some(rl),
            Err(_) => None,
        }
    }

    /// Fallible conversion from a plain segment: fails with
    /// `HorizontalNotRasterable` if and only if the source is horizontal.
    pub fn try_from(src: LineSegment) -> (r: Result<RasterableLineSegment, HorizontalNotRasterable>)
        requires
            src.wf(),
        ensures
            (r is Ok) <==> !(src.m is Horizontal),
            r matches Ok(rl) ==> rl.wf() && rl.inner() == src,
            r matches Err(e) ==> e == HorizontalNotRasterable && src.m is Horizontal,
    {
        match src.m {
            Slope::Horizontal => Err(HorizontalNotRasterable),
            _ => Ok(RasterableLineSegment(src)),
        }
    }

    /// Probe with the horizontal line at height `y`; a crossing is returned
    /// exactly when `y` is within the vertical bounds (no horizontal case
    /// remains to exclude).
    pub fn sample_y(&self, y: Rat) -> (r: Option<Intersection>)
        requires
            self.wf(),
            probe_wf(y),
        ensures
            (r is Some) <==> self.inner().y_in_bounds(y),
            r matches Some(i) ==> i.axis.wf() && i.t.wf(),
            r matches Some(i) ==> self.inner().m is Vertical ==> {
                &&& i.axis.is_int(self.inner().bounds.right as int)
                &&& i.t.is_frac(
                    y.num - self.inner().bounds.bottom * y.den,
                    (self.inner().bounds.top - self.inner().bounds.bottom) * y.den,
                )
            },
            r matches Some(i) ==> self.inner().m is Defined ==> {
                &&& on_line(self.inner().start, self.inner().end, i.axis, y)
                &&& i.t.is_frac(
                    y.num - self.inner().start.y * y.den,
                    (self.inner().end.y - self.inner().start.y) * y.den,
                )
            },
    {
        self.0.sample_y(y)
    }

    /// Probe with the vertical line at abscissa `x`, as the wrapped segment.
    pub fn sample_x(&self, x: Rat) -> (r: Option<Intersection>)
        requires
            self.wf(),
            probe_wf(x),
        ensures
            (r is Some) <==> (self.inner().x_in_bounds(x) && !(self.inner().m is Vertical)),
            r matches Some(i) ==> i.axis.wf() && i.t.wf(),
            r matches Some(i) ==> self.inner().m is Horizontal ==> {
                &&& i.axis.is_int(self.inner().bounds.bottom as int)
                &&& i.t.is_frac(
                    x.num - self.inner().bounds.left * x.den,
                    (self.inner().bounds.right - self.inner().bounds.left) * x.den,
                )
            },
            r matches Some(i) ==> self.inner().m is Defined ==> {
                &&& on_line(self.inner().start, self.inner().end, x, i.axis)
                &&& i.t.is_frac(
                    x.num - self.inner().start.x * x.den,
                    (self.inner().end.x - self.inner().start.x) * x.den,
                )
            },
    {
        self.0.sample_x(x)
    }

    /// Sample the point at fraction `t`, as the wrapped segment.
    pub fn sample_t(&self, t: Rat) -> (r: Option<RatV2>)
        requires
            self.wf(),
            0 < t.den <= PROBE_DEN_LIMIT,
        ensures
            (r is Some) <==> (0 <= t.num <= t.den),
            r matches Some(p) ==> p.x.wf() && p.y.wf(),
            r matches Some(p) ==> {
                &&& p.x.is_frac(
                    self.inner().start.x * t.den + (self.inner().end.x - self.inner().start.x) * t.num,
                    t.den as int,
                )
                &&& p.y.is_frac(
                    self.inner().start.y * t.den + (self.inner().end.y - self.inner().start.y) * t.num,
                    t.den as int,
                )
            },
            r matches Some(p) ==> t.num == 0 ==> {
                &&& p.x.is_int(self.inner().start.x as int)
                &&& p.y.is_int(self.inner().start.y as int)
            },
            r matches Some(p) ==> t.num == t.den ==> {
                &&& p.x.is_int(self.inner().end.x as int)
                &&& p.y.is_int(self.inner().end.y as int)
            },
    {
        self.0.sample_t(t)
    }

    /// The wrapped segment's bounding box.
    pub fn bounds(&self) -> (r: Bounds)
        ensures
            r == self.inner().bounds,
            self.wf() ==> r.wf(),
    {
        self.0.bounds()
    }

    /// The wrapped segment's slope classification (never `Horizontal` for a
    /// well-formed value).
    pub fn slope(&self) -> (r: Slope)
        ensures
            r == self.inner().m,
    {
        self.0.slope()
    }

    /// The wrapped segment's directed endpoints, in traversal order.
    pub fn bookends(&self) -> (r: (V2, V2))
        ensures
            r.0 == self.inner().start,
            r.1 == self.inner().end,
    {
        self.0.bookends()
    }
}

/// For a well-formed segment with a `Defined` slope, the stored slope and
/// intercept rationals are exactly the derived ones, with bounded fields.
proof fn lemma_defined_field_bounds(seg: LineSegment)
    requires
        seg.wf(),
        seg.m is Defined,
    ensures
        seg.m matches Slope::Defined { m, b } ==> {
            &&& m.num == m_num_of(seg.start, seg.end)
            &&& m.den == m_den_of(seg.start, seg.end)
            &&& b.num == b_num_of(seg.start, seg.end)
            &&& b.den == m_den_of(seg.start, seg.end)
            &&& 0 < m.den <= 2 * COORD_LIMIT
            &&& -2 * COORD_LIMIT <= m.num <= 2 * COORD_LIMIT
            &&& m.num != 0
            &&& -8 * COORD_LIMIT * COORD_LIMIT <= b.num <= 8 * COORD_LIMIT * COORD_LIMIT
        },
        seg.end.y != seg.start.y,
        seg.end.x != seg.start.x,
{
    let s = seg.start;
    let e = seg.end;
    lemma_mul_bound(left_of(s, e).y as int, m_den_of(s, e), COORD_LIMIT as int, 2 * COORD_LIMIT as int);
    lemma_mul_bound(m_num_of(s, e), left_of(s, e).x as int, 2 * COORD_LIMIT as int, COORD_LIMIT as int);
}

/// The values built by `sample_y` for a `Defined` slope satisfy the line
/// equation and the parametric-position equation exactly.
#[verifier::rlimit(60)]
proof fn lemma_sample_y_defined(
    seg: LineSegment,
    y: Rat,
    m: Rat,
    b: Rat,
    axis: Rat,
    t: Rat,
    n1: i128,
    d1: i128,
    axis_num0: i128,
    axis_den0: i128,
    t_num0: i128,
    t_den0: i128,
)
    requires
        seg.wf(),
        probe_wf(y),
        seg.m == (Slope::Defined { m, b }),
        n1 == y.num * b.den - b.num * y.den,
        d1 == y.den * b.den,
        axis_num0 == n1 * m.den,
        axis_den0 == d1 * m.num,
        axis_den0 != 0,
        axis_den0 < 0 ==> axis == (Rat { num: (-axis_num0) as i128, den: (-axis_den0) as i128 }),
        axis_den0 >= 0 ==> axis == (Rat { num: axis_num0, den: axis_den0 }),
        t_num0 == y.num - seg.start.y * y.den,
        t_den0 == (seg.end.y - seg.start.y) * y.den,
        t_den0 != 0,
        t_den0 < 0 ==> t == (Rat { num: (-t_num0) as i128, den: (-t_den0) as i128 }),
        t_den0 >= 0 ==> t == (Rat { num: t_num0, den: t_den0 }),
        -170141183460469231731687303715884105727 <= axis_num0,
        -170141183460469231731687303715884105727 <= axis_den0,
        -170141183460469231731687303715884105727 <= t_num0,
        -170141183460469231731687303715884105727 <= t_den0,
    ensures
        axis.wf(),
        t.wf(),
        on_line(seg.start, seg.end, axis, y),
        t.is_frac(y.num - seg.start.y * y.den, (seg.end.y - seg.start.y) * y.den),
{
    lemma_defined_field_bounds(seg);
    let mn: int = m.num as int;
    let md: int = m.den as int;
    let bn: int = b.num as int;
    let yn: int = y.num as int;
    let yd: int = y.den as int;
    let an: int = axis.num as int;
    let ad: int = axis.den as int;
    assert(ad > 0);
    assert(an == axis_num0 && ad == axis_den0 || an == -axis_num0 && ad == -axis_den0);
    if axis_den0 >= 0 {
        assert(yn * ad * md == mn * an * yd + bn * ad * yd) by (nonlinear_arith)
            requires
                an == (yn * md - bn * yd) * md,
                ad == yd * md * mn;
    } else {
        assert(yn * ad * md == mn * an * yd + bn * ad * yd) by (nonlinear_arith)
            requires
                an == -((yn * md - bn * yd) * md),
                ad == -(yd * md * mn);
    }
    assert(t.den > 0);
    assert(t.num * ((seg.end.y - seg.start.y) * y.den) == (y.num - seg.start.y * y.den) * t.den)
        by (nonlinear_arith)
        requires
            (t.num == t_num0 && t.den == t_den0) || (t.num == -t_num0 && t.den == -t_den0),
            t_num0 == y.num - seg.start.y * y.den,
            t_den0 == (seg.end.y - seg.start.y) * y.den;
}


/// Any two endpoints that differ in both coordinates classify as `Defined`,
/// with slope `m == (e.y - s.y) / (e.x - s.x)` and intercept
/// `b == (s.y*e.x - e.y*s.x) / (e.x - s.x)`; classification, intercept and
/// bounds are independent of traversal order.
pub proof fn lemma_defined_classification(s: V2, e: V2)
    requires
        s.in_range(),
        e.in_range(),
        s.x != e.x,
        s.y != e.y,
    ensures
        slope_of(s, e) is Defined,
        slope_of(s, e) == slope_of(e, s),
        bounds_of(s, e) == bounds_of(e, s),
        slope_of(s, e) matches Slope::Defined { m, b } ==> {
            &&& m.is_frac(e.y - s.y, e.x - s.x)
            &&& b.is_frac(s.y * e.x - e.y * s.x, e.x - s.x)
        },
{
    if s.x <= e.x {
        assert(m_num_of(s, e) == e.y - s.y && m_den_of(s, e) == e.x - s.x);
        lemma_mul_bound(s.y as int, e.x - s.x, COORD_LIMIT as int, 2 * COORD_LIMIT as int);
        lemma_mul_bound(e.y - s.y, s.x as int, 2 * COORD_LIMIT as int, COORD_LIMIT as int);
        let m = Rat { num: m_num_of(s, e) as i128, den: m_den_of(s, e) as i128 };
        let b = Rat { num: b_num_of(s, e) as i128, den: m_den_of(s, e) as i128 };
        assert(m.num * (e.x - s.x) == (e.y - s.y) * m.den) by (nonlinear_arith)
            requires
                m.num == e.y - s.y,
                m.den == e.x - s.x;
        assert(b.num == s.y * e.x - e.y * s.x) by (nonlinear_arith)
            requires
                b.num == s.y * (e.x - s.x) - (e.y - s.y) * s.x;
        assert(b.num * (e.x - s.x) == (s.y * e.x - e.y * s.x) * b.den) by (nonlinear_arith)
            requires
                b.num == s.y * e.x - e.y * s.x,
                b.den == e.x - s.x;
    } else {
        assert(m_num_of(s, e) == s.y - e.y && m_den_of(s, e) == s.x - e.x);
        lemma_mul_bound(e.y as int, s.x - e.x, COORD_LIMIT as int, 2 * COORD_LIMIT as int);
        lemma_mul_bound(s.y - e.y, e.x as int, 2 * COORD_LIMIT as int, COORD_LIMIT as int);
        let m = Rat { num: m_num_of(s, e) as i128, den: m_den_of(s, e) as i128 };
        let b = Rat { num: b_num_of(s, e) as i128, den: m_den_of(s, e) as i128 };
        assert(m.num * (e.x - s.x) == (e.y - s.y) * m.den) by (nonlinear_arith)
            requires
                m.num == s.y - e.y,
                m.den == s.x - e.x;
        assert(b.num == e.y * s.x - s.y * e.x) by (nonlinear_arith)
            requires
                b.num == e.y * (s.x - e.x) - (s.y - e.y) * e.x;
        assert(b.num * (e.x - s.x) == (s.y * e.x - e.y * s.x) * b.den) by (nonlinear_arith)
            requires
                b.num == e.y * s.x - s.y * e.x,
                b.den == s.x - e.x;
    }
}

/// A vertical pair (equal x, distinct y) classifies as `Vertical`, and its
/// bounds collapse horizontally onto that shared x-coordinate. Together with
/// `sample_x`'s contract (never `Some` for a vertical segment) and
/// `sample_y`'s contract (axis is exactly `bounds.right == x` for every
/// height within bounds), this pins the vertical-segment behaviour.
pub proof fn lemma_vertical_classification(s: V2, e: V2)
    requires
        s.in_range(),
        e.in_range(),
        s.x == e.x,
        s.y != e.y,
    ensures
        slope_of(s, e) is Vertical,
        bounds_of(s, e).left == s.x,
        bounds_of(s, e).right == s.x,
        bounds_of(s, e).bottom == (if s.y <= e.y { s.y } else { e.y }),
        bounds_of(s, e).top == (if s.y <= e.y { e.y } else { s.y }),
{
}

/// A horizontal pair (equal y, distinct x) classifies as `Horizontal`.
/// Together with `sample_y`'s contract (never `Some` for a horizontal
/// segment) and `RasterableLineSegment::try_from`'s contract (fails with
/// `HorizontalNotRasterable` exactly on horizontal input), this pins the
/// horizontal-segment behaviour.
pub proof fn lemma_horizontal_classification(s: V2, e: V2)
    requires
        s.in_range(),
        e.in_range(),
        s.y == e.y,
        s.x != e.x,
    ensures
        slope_of(s, e) is Horizontal,
        bounds_of(s, e).bottom == s.y,
        bounds_of(s, e).top == s.y,
{
}

/// Round trip: every crossing a `Defined` segment reports for a probe height
/// `y` satisfies the segment's own stored line equation `y == m*axis + b`
/// exactly (cross-multiplied by the positive denominators).
pub proof fn lemma_round_trip(seg: LineSegment, y: Rat, i: Intersection)
    requires
        seg.wf(),
        y.wf(),
        i.axis.wf(),
        seg.m is Defined,
        on_line(seg.start, seg.end, i.axis, y),
    ensures
        seg.m matches Slope::Defined { m, b } ==>
            y.num * i.axis.den * m.den == m.num * i.axis.num * y.den + b.num * i.axis.den * y.den,
{
    lemma_defined_field_bounds(seg);
}

/// The line equation pins the crossing: two well-formed rationals that both
/// satisfy it for the same probe height are equal as values, so `sample_y`'s
/// contract determines the reported axis coordinate uniquely.
#[verifier::rlimit(60)]
pub proof fn lemma_axis_unique(seg: LineSegment, y: Rat, x1: Rat, x2: Rat)
    requires
        seg.wf(),
        y.wf(),
        x1.wf(),
        x2.wf(),
        seg.m is Defined,
        on_line(seg.start, seg.end, x1, y),
        on_line(seg.start, seg.end, x2, y),
    ensures
        x1.eq_val_spec(x2),
{
    lemma_defined_field_bounds(seg);
    let mn: int = m_num_of(seg.start, seg.end);
    let md: int = m_den_of(seg.start, seg.end);
    let bn: int = b_num_of(seg.start, seg.end);
    let yn: int = y.num as int;
    let yd: int = y.den as int;
    let a1: int = x1.num as int;
    let d1: int = x1.den as int;
    let a2: int = x2.num as int;
    let d2: int = x2.den as int;
    assert(yn * d1 * md * d2 == mn * a1 * yd * d2 + bn * d1 * yd * d2) by (nonlinear_arith)
        requires
            yn * d1 * md == mn * a1 * yd + bn * d1 * yd;
    assert(yn * d2 * md * d1 == mn * a2 * yd * d1 + bn * d2 * yd * d1) by (nonlinear_arith)
        requires
            yn * d2 * md == mn * a2 * yd + bn * d2 * yd;
    assert(yn * d1 * md * d2 == yn * d2 * md * d1) by (nonlinear_arith);
    assert(bn * d1 * yd * d2 == bn * d2 * yd * d1) by (nonlinear_arith);
    assert(mn * a1 * yd * d2 == mn * a2 * yd * d1);
    assert(mn * a1 * yd * d2 == mn * yd * (a1 * d2)) by (nonlinear_arith);
    assert(mn * a2 * yd * d1 == mn * yd * (a2 * d1)) by (nonlinear_arith);
    assert(a1 * d2 == a2 * d1) by (nonlinear_arith)
        requires
            mn * yd * (a1 * d2) == mn * yd * (a2 * d1),
            mn != 0,
            yd > 0;
}

/// Boundary inclusivity: probes at exactly the bottom and the top bound are
/// within the vertical range (the range is inclusive at both ends), while
/// every rational probe strictly above the top is outside it.
pub proof fn lemma_boundary_inclusive(seg: LineSegment, y_bottom: Rat, y_top: Rat, y_above: Rat)
    requires
        seg.wf(),
        y_bottom.is_int(seg.bounds.bottom as int),
        y_top.is_int(seg.bounds.top as int),
        y_above.wf(),
        y_above.num > seg.bounds.top * y_above.den,
    ensures
        seg.y_in_bounds(y_bottom),
        seg.y_in_bounds(y_top),
        !seg.y_in_bounds(y_above),
{
    assert(seg.bounds.bottom <= seg.bounds.top);
    assert(seg.bounds.bottom * y_bottom.den <= seg.bounds.top * y_bottom.den) by (nonlinear_arith)
        requires
            seg.bounds.bottom <= seg.bounds.top,
            y_bottom.den > 0;
    assert(seg.bounds.bottom * y_top.den <= seg.bounds.top * y_top.den) by (nonlinear_arith)
        requires
            seg.bounds.bottom <= seg.bounds.top,
            y_top.den > 0;
}

} // verus!

