use vstd::prelude::*;

use vstd::arithmetic::div_mod::{lemma_div_is_ordered, lemma_div_pos_is_pos};

use crate::lineseg::LineSeg;
use crate::point::Point;
use crate::ShapeError;

verus! {

/// Number of horizontal bands in a ring's spatial index.
pub const BANDS: usize = 10;

/// The edges of a ring: for every point, the segment arriving at it from its
/// predecessor, the predecessor of the first point being the last point (a
/// ring is implicitly closed).
pub open spec fn edges_of(ps: Seq<Point>) -> Seq<LineSeg>
    recommends
        ps.len() >= 1,
{
    Seq::new(
        ps.len(),
        |i: int|
            LineSeg {
                a: if i == 0 {
                    ps[ps.len() - 1]
                } else {
                    ps[i - 1]
                },
                b: ps[i],
            },
    )
}

/// Whether the ray-casting parity flips at edge `e` for query point `p`: the
/// edge straddles the horizontal line through `p`, and crosses that line
/// strictly to the right of `p`. The comparison of `p.x` against the crossing
/// abscissa is exact: both sides of `p.x < b.x + (a.x - b.x)(p.y - b.y)/(a.y - b.y)`
/// are multiplied by the (nonzero) signed height of the edge, flipping the
/// inequality when that height is negative. A horizontal edge never flips.
pub open spec fn flips(e: LineSeg, p: Point) -> bool {
    &&& ((e.a.y > p.y) != (e.b.y > p.y))
    &&& {
        let lhs = (p.x - e.a.x) * (e.b.y - e.a.y);
        let rhs = (e.b.x - e.a.x) * (p.y - e.a.y);
        if e.b.y > e.a.y {
            lhs < rhs
        } else {
            lhs > rhs
        }
    }
}

/// Even-odd accumulation of `flips` over a sequence of edges: true iff an odd
/// number of the edges flip for `p`.
pub open spec fn parity(es: Seq<LineSeg>, p: Point) -> bool
    decreases es.len(),
{
    if es.len() == 0 {
        false
    } else if flips(es.last(), p) {
        !parity(es.drop_last(), p)
    } else {
        parity(es.drop_last(), p)
    }
}

/// Containment of `p` in the ring with point sequence `ps`, under the
/// even-odd (ray casting) rule: `p` is inside iff a ray cast to the right
/// from `p` crosses an odd number of the ring's edges.
pub open spec fn ring_contains(ps: Seq<Point>, p: Point) -> bool
    recommends
        ps.len() >= 1,
{
    parity(edges_of(ps), p)
}

/// Least y coordinate among the ring's points.
pub open spec fn min_y(ps: Seq<Point>) -> int
    recommends
        ps.len() >= 1,
    decreases ps.len(),
{
    if ps.len() <= 1 {
        ps[0].y as int
    } else {
        let m = min_y(ps.drop_last());
        if ps.last().y < m {
            ps.last().y as int
        } else {
            m
        }
    }
}

/// Greatest y coordinate among the ring's points.
pub open spec fn max_y(ps: Seq<Point>) -> int
    recommends
        ps.len() >= 1,
    decreases ps.len(),
{
    if ps.len() <= 1 {
        ps[0].y as int
    } else {
        let m = max_y(ps.drop_last());
        if ps.last().y > m {
            ps.last().y as int
        } else {
            m
        }
    }
}

/// `y` held into the interval `[lo, hi]`.
pub open spec fn clamped(y: int, lo: int, hi: int) -> int {
    if y < lo {
        lo
    } else if y > hi {
        hi
    } else {
        y
    }
}

/// The band that height `y` falls in, for an index spanning `[y_min, y_max]`:
/// the proportional position of `y` in that range, scaled to `BANDS` bands;
/// the very top of the range is held into the last band.
pub open spec fn band_of(y_min: int, y_max: int, y: int) -> int
    recommends
        y_min < y_max,
{
    let b = (BANDS as int) * (y - y_min) / (y_max - y_min);
    if b >= BANDS as int {
        BANDS as int - 1
    } else {
        b
    }
}

/// Whether edge `e` belongs to band `k` of an index spanning `[y_min, y_max]`:
/// `k` lies between the bands of the edge's two (clamped) endpoints.
pub open spec fn in_band(e: LineSeg, k: int, y_min: int, y_max: int) -> bool {
    let ka = band_of(y_min, y_max, clamped(e.a.y as int, y_min, y_max));
    let kb = band_of(y_min, y_max, clamped(e.b.y as int, y_min, y_max));
    if ka <= kb {
        ka <= k <= kb
    } else {
        kb <= k <= ka
    }
}

/// The edges of `es` that band `k` holds, in their original order. An edge
/// spanning several bands is replicated into each of them, so a band may hold
/// edges that only partly touch it; the extra edges never flip for a query in
/// that band, so they do not change the parity.
pub open spec fn band_edges(es: Seq<LineSeg>, k: int, y_min: int, y_max: int) -> Seq<LineSeg>
    decreases es.len(),
{
    if es.len() == 0 {
        Seq::empty()
    } else {
        let rest = band_edges(es.drop_last(), k, y_min, y_max);
        if in_band(es.last(), k, y_min, y_max) {
            rest.push(es.last())
        } else {
            rest
        }
    }
}

/// Product bound used to discharge overflow checks on the exact crossing
/// comparison and the signed-area accumulation.
pub proof fn lemma_mul_bounds(a: int, b: int, m: int)
    by (nonlinear_arith)
    requires
        0 <= m,
        -m <= a <= m,
        -m <= b <= m,
    ensures
        -(m * m) <= a * b <= m * m,
{
}

/// Whether the edge from `a` to `b` flips the ray-casting parity at `p`,
/// computed exactly in 128-bit arithmetic.
fn seg_flips(a: Point, b: Point, p: Point) -> (r: bool)
    ensures
        r == flips(LineSeg { a, b }, p),
{
    if (a.y > p.y) != (b.y > p.y) {
        proof {
            lemma_mul_bounds(p.x - a.x, b.y - a.y, 0x1_0000_0000);
            lemma_mul_bounds(b.x - a.x, p.y - a.y, 0x1_0000_0000);
        }
        let lhs: i128 = (p.x as i128 - a.x as i128) * (b.y as i128 - a.y as i128);
        let rhs: i128 = (b.x as i128 - a.x as i128) * (p.y as i128 - a.y as i128);
        if b.y > a.y {
            lhs < rhs
        } else {
            lhs > rhs
        }
    } else {
        false
    }
}

/// Every point's y coordinate lies between the ring's extremes.
proof fn lemma_min_max_y_bounds(ps: Seq<Point>, i: int)
    requires
        ps.len() >= 1,
        0 <= i < ps.len(),
    ensures
        min_y(ps) <= ps[i].y <= max_y(ps),
    decreases ps.len(),
{
    if ps.len() > 1 && i < ps.len() - 1 {
        lemma_min_max_y_bounds(ps.drop_last(), i);
    }
}

/// The ring's extremes are themselves coordinates, so they are ordered and
/// lie within the coordinate range.
proof fn lemma_min_max_y_range(ps: Seq<Point>)
    requires
        ps.len() >= 1,
    ensures
        -0x8000_0000 <= min_y(ps) <= max_y(ps) <= 0x7fff_ffff,
    decreases ps.len(),
{
    if ps.len() > 1 {
        lemma_min_max_y_range(ps.drop_last());
    }
}

/// The spatial index of a ring: its edges bucketed into `BANDS` horizontal
/// bands covering the padded vertical extent `[y_min, y_max]` of the ring.
#[derive(Debug)]
struct Slices {
    segments: Vec<Vec<LineSeg>>,
    y_min: i64,
    y_max: i64,
}

/// The index `s` is the one that `slice` builds for point sequence `ps`: its
/// extent is the ring's extent padded outward by one grid step, and each band
/// holds exactly the edges that touch it.
spec fn slices_wf(s: Slices, ps: Seq<Point>) -> bool {
    &&& ps.len() >= 1
    &&& s.y_min == min_y(ps) - 1
    &&& s.y_max == max_y(ps) + 1
    &&& s.segments@.len() == BANDS
    &&& forall|k: int|
        0 <= k < BANDS ==> s.segments@[k]@ == band_edges(
            edges_of(ps),
            k,
            s.y_min as int,
            s.y_max as int,
        )
}

/// An ordered, implicitly closed sequence of points describing one simple
/// closed curve, together with the spatial index over its own edges. Rings
/// are immutable after construction, so the index is built once, up front,
/// and stays valid for the ring's whole life.
#[derive(Debug)]
pub struct Ring {
    points: Vec<Point>,
    slices: Slices,
}

impl View for Ring {
    type V = Seq<Point>;

    closed spec fn view(&self) -> Seq<Point> {
        self.points@
    }
}

impl Ring {
    /// A ring is well formed when it has at least one point and carries the
    /// spatial index built from its points.
    pub closed spec fn wf(self) -> bool {
        &&& self.points@.len() >= 1
        &&& slices_wf(self.slices, self.points@)
    }

    /// Builds a ring from a decoded point list, rejecting structurally
    /// invalid input: a ring must have at least one point.
    pub fn decode(points: Vec<Point>) -> (r: Result<Ring, ShapeError>)
        ensures
            match r {
                Ok(ring) => ring.wf() && ring@ == points@ && points@.len() >= 1,
                Err(e) => e == ShapeError::BadArg && points@.len() == 0,
            },
    {
        if points.is_empty() {
            return Err(ShapeError::BadArg);
        }
        let slices = slice(&points);
        Ok(Ring { points, slices })
    }

    /// The ring's points, in order; rings are never mutated after
    /// construction, so this is exactly the sequence the ring was built from.
    pub fn encode(&self) -> (r: Vec<Point>)
        ensures
            r@ == self@,
    {
        let mut out: Vec<Point> = Vec::new();
        let mut i: usize = 0;
        while i < self.points.len()
            invariant
                0 <= i <= self.points@.len(),
                out@ == self.points@.take(i as int),
            decreases self.points@.len() - i,
        {
            out.push(self.points[i]);
            proof {
                assert(self.points@.take(i + 1) =~= self.points@.take(i as int).push(
                    self.points@[i as int],
                ));
            }
            i = i + 1;
        }
        proof {
            assert(self.points@.take(self.points@.len() as int) =~= self.points@);
        }
        out
    }

    /// The hole-nesting policy represents a ring by its first point, which is
    /// guaranteed to exist because construction rejects empty rings.
    pub fn first_point(&self) -> (r: &Point)
        requires
            self.wf(),
        ensures
            *r == self@[0],
    {
        &self.points[0]
    }

    /// Unbanded even-odd test: walks every edge of the ring exactly once
    /// (including the closing edge from the last point back to the first) and
    /// accumulates the crossing parity. Costs nothing to set up, so it is the
    /// right test when only one query will ever be made against the ring.
    ///
    /// It returns exactly the same answer as the banded `contains` on every
    /// query point: both equal `ring_contains`.
    pub fn contains_unsliced(&self, pt: &Point) -> (r: bool)
        requires
            self.wf(),
        ensures
            r == ring_contains(self@, *pt),
    {
        let n = self.points.len();
        let mut c = false;
        let mut j = self.points[n - 1];
        let mut i: usize = 0;
        while i < n
            invariant
                n == self.points@.len(),
                n >= 1,
                0 <= i <= n,
                j == (if i == 0 {
                    self.points@[n - 1]
                } else {
                    self.points@[i - 1]
                }),
                c == parity(edges_of(self.points@).take(i as int), *pt),
            decreases n - i,
        {
            let b = self.points[i];
            let e = LineSeg { a: j, b };
            proof {
                let es = edges_of(self.points@);
                assert(es.take(i + 1).drop_last() =~= es.take(i as int));
                assert(es.take(i + 1).last() == es[i as int]);
                assert(es[i as int] == e);
            }
            if seg_flips(j, b, *pt) {
                c = !c;
            }
            j = b;
            i = i + 1;
        }
        proof {
            assert(edges_of(self.points@).take(n as int) =~= edges_of(self.points@));
        }
        c
    }
}

/// The band a query height `y` selects, as `slice` and `slice_for` compute
/// it: `floor(BANDS * (y - y_min) / (y_max - y_min))`, with the top of the
/// range held into the last band.
fn band_for(y_min: i64, y_max: i64, y: i64) -> (r: usize)
    requires
        y_min < y_max,
        y_min <= y <= y_max,
        -0x1_0000_0001 <= y_min,
        y_max <= 0x1_0000_0001,
    ensures
        r == band_of(y_min as int, y_max as int, y as int),
        0 <= r < BANDS,
{
    let num: u64 = (BANDS as u64) * ((y - y_min) as u64);
    let den: u64 = (y_max - y_min) as u64;
    let b: u64 = num / den;
    proof {
        lemma_div_pos_is_pos(num as int, den as int);
    }
    if b >= BANDS as u64 {
        BANDS - 1
    } else {
        b as usize
    }
}

/// `y` held into `[lo, hi]`, mirroring `clamped`.
fn clamp_to(y: i64, lo: i64, hi: i64) -> (r: i64)
    requires
        lo <= hi,
    ensures
        r == clamped(y as int, lo as int, hi as int),
{
    if y < lo {
        lo
    } else if y > hi {
        hi
    } else {
        y
    }
}

/// Builds the spatial index for a ring with point sequence `points`: computes
/// the ring's vertical extent, pads it outward by one grid step (so that a
/// query exactly on the ring's own extreme heights still selects an interior
/// band), and buckets every edge into each band its span touches.
fn slice(points: &Vec<Point>) -> (r: Slices)
    requires
        points@.len() >= 1,
    ensures
        slices_wf(r, points@),
{
    let n = points.len();
    let mut mn: i32 = points[0].y;
    let mut mx: i32 = points[0].y;
    let mut i: usize = 1;
    while i < n
        invariant
            n == points@.len(),
            1 <= i <= n,
            mn == min_y(points@.take(i as int)),
            mx == max_y(points@.take(i as int)),
        decreases n - i,
    {
        let py = points[i].y;
        proof {
            assert(points@.take(i + 1).drop_last() =~= points@.take(i as int));
        }
        if py < mn {
            mn = py;
        }
        if py > mx {
            mx = py;
        }
        i = i + 1;
    }
    proof {
        assert(points@.take(n as int) =~= points@);
        lemma_min_max_y_range(points@);
    }

    // poke the range out one step each way to avoid boundary misclassification
    let y_min: i64 = mn as i64 - 1;
    let y_max: i64 = mx as i64 + 1;

    let ghost es = edges_of(points@);
    let mut segments: Vec<Vec<LineSeg>> = Vec::new();
    let mut k: usize = 0;
    while k < BANDS
        invariant
            n == points@.len(),
            n >= 1,
            0 <= k <= BANDS,
            y_min == min_y(points@) - 1,
            y_max == max_y(points@) + 1,
            -0x8000_0001 <= y_min < y_max <= 0x8000_0000,
            segments@.len() == k,
            forall|q: int|
                0 <= q < k ==> segments@[q]@ == band_edges(
                    edges_of(points@),
                    q,
                    y_min as int,
                    y_max as int,
                ),
        decreases BANDS - k,
    {
        let mut band: Vec<LineSeg> = Vec::new();
        let mut j: usize = 0;
        while j < n
            invariant
                n == points@.len(),
                n >= 1,
                0 <= j <= n,
                y_min == min_y(points@) - 1,
                y_max == max_y(points@) + 1,
                -0x8000_0001 <= y_min < y_max <= 0x8000_0000,
                band@ == band_edges(
                    edges_of(points@).take(j as int),
                    k as int,
                    y_min as int,
                    y_max as int,
                ),
            decreases n - j,
        {
            let a = if j == 0 {
                points[n - 1]
            } else {
                points[j - 1]
            };
            let b = points[j];
            let e = LineSeg { a, b };
            proof {
                let es = edges_of(points@);
                assert(es.take(j + 1).drop_last() =~= es.take(j as int));
                assert(es.take(j + 1).last() == es[j as int]);
                assert(es[j as int] == e);
                lemma_min_max_y_bounds(points@, if j == 0 { n - 1 } else { j - 1 });
                lemma_min_max_y_bounds(points@, j as int);
            }
            let a_seg = band_for(y_min, y_max, clamp_to(a.y as i64, y_min, y_max));
            let b_seg = band_for(y_min, y_max, clamp_to(b.y as i64, y_min, y_max));
            let lo_seg = if a_seg < b_seg {
                a_seg
            } else {
                b_seg
            };
            let hi_seg = if a_seg < b_seg {
                b_seg
            } else {
                a_seg
            };
            if lo_seg <= k && k <= hi_seg {
                band.push(e);
            }
            j = j + 1;
        }
        proof {
            assert(edges_of(points@).take(n as int) =~= edges_of(points@));
        }
        segments.push(band);
        k = k + 1;
    }

    Slices { segments, y_min, y_max }
}

/// Twice the signed area contribution of one edge: the shoelace cross term.
pub open spec fn cross(e: LineSeg) -> int {
    e.a.x * e.b.y - e.b.x * e.a.y
}

/// Sum of the shoelace cross terms over a sequence of edges.
pub open spec fn area_sum(es: Seq<LineSeg>) -> int
    decreases es.len(),
{
    if es.len() == 0 {
        0
    } else {
        area_sum(es.drop_last()) + cross(es.last())
    }
}

/// Twice the signed area of the ring: the shoelace formula over all of its
/// edges, the closing edge included.
pub open spec fn signed_area2(ps: Seq<Point>) -> int
    recommends
        ps.len() >= 1,
{
    area_sum(edges_of(ps))
}

/// Winding direction, decided by the sign of the signed area: negative means
/// clockwise. Clockwise rings are exterior boundaries; counter-clockwise
/// rings are holes.
pub open spec fn is_cw(ps: Seq<Point>) -> bool
    recommends
        ps.len() >= 1,
{
    signed_area2(ps) < 0
}

/// Bands are ordered as heights are.
proof fn lemma_band_of_monotone(y_min: int, y_max: int, y1: int, y2: int)
    requires
        y_min < y_max,
        y1 <= y2,
    ensures
        band_of(y_min, y_max, y1) <= band_of(y_min, y_max, y2),
{
    lemma_div_is_ordered(
        (BANDS as int) * (y1 - y_min),
        (BANDS as int) * (y2 - y_min),
        y_max - y_min,
    );
}

/// An edge that flips the parity at `p` straddles the query's row, so the
/// query's band lies between the bands of the edge's endpoints: the edge is
/// bucketed into the band the query selects.
proof fn lemma_flip_edge_in_band(e: LineSeg, p: Point, y_min: int, y_max: int)
    requires
        flips(e, p),
        y_min < y_max,
        y_min <= p.y <= y_max,
        y_min <= e.a.y <= y_max,
        y_min <= e.b.y <= y_max,
    ensures
        in_band(e, band_of(y_min, y_max, p.y as int), y_min, y_max),
{
    if e.a.y <= p.y {
        lemma_band_of_monotone(y_min, y_max, e.a.y as int, p.y as int);
        lemma_band_of_monotone(y_min, y_max, p.y as int, e.b.y as int);
    } else {
        lemma_band_of_monotone(y_min, y_max, e.b.y as int, p.y as int);
        lemma_band_of_monotone(y_min, y_max, p.y as int, e.a.y as int);
    }
}

/// Restricting the parity walk to one band changes nothing, provided every
/// edge that flips for `p` was bucketed into that band: the edges a band
/// leaves out never flip, and the extra edges it holds are walked either way.
proof fn lemma_parity_band_edges(es: Seq<LineSeg>, p: Point, k: int, y_min: int, y_max: int)
    requires
        forall|i: int|
            0 <= i < es.len() && flips(#[trigger] es[i], p) ==> in_band(es[i], k, y_min, y_max),
    ensures
        parity(band_edges(es, k, y_min, y_max), p) == parity(es, p),
    decreases es.len(),
{
    if es.len() > 0 {
        let front = es.drop_last();
        assert forall|i: int|
            0 <= i < front.len() && flips(#[trigger] front[i], p) implies in_band(
            front[i],
            k,
            y_min,
            y_max,
        ) by {
            assert(front[i] == es[i]);
        }
        lemma_parity_band_edges(front, p, k, y_min, y_max);
        if in_band(es.last(), k, y_min, y_max) {
            let bs = band_edges(front, k, y_min, y_max).push(es.last());
            assert(bs.drop_last() =~= band_edges(front, k, y_min, y_max));
        } else {
            assert(!flips(es.last(), p));
        }
    }
}

/// When no edge flips for `p`, the parity stays false.
proof fn lemma_parity_no_flips(es: Seq<LineSeg>, p: Point)
    requires
        forall|i: int| 0 <= i < es.len() ==> !flips(#[trigger] es[i], p),
    ensures
        !parity(es, p),
    decreases es.len(),
{
    if es.len() > 0 {
        let front = es.drop_last();
        assert forall|i: int| 0 <= i < front.len() implies !flips(#[trigger] front[i], p) by {
            assert(front[i] == es[i]);
        }
        lemma_parity_no_flips(front, p);
    }
}

/// Even-odd accumulation over one band's edge list.
fn fold_parity(segs: &Vec<LineSeg>, pt: &Point) -> (r: bool)
    ensures
        r == parity(segs@, *pt),
{
    let mut c = false;
    let mut i: usize = 0;
    while i < segs.len()
        invariant
            0 <= i <= segs@.len(),
            c == parity(segs@.take(i as int), *pt),
        decreases segs@.len() - i,
    {
        let e = segs[i];
        proof {
            assert(segs@.take(i + 1).drop_last() =~= segs@.take(i as int));
            assert(segs@.take(i + 1).last() == segs@[i as int]);
            assert(LineSeg { a: e.a, b: e.b } == e);
        }
        if seg_flips(e.a, e.b, *pt) {
            c = !c;
        }
        i = i + 1;
    }
    proof {
        assert(segs@.take(segs@.len() as int) =~= segs@);
    }
    c
}

impl Ring {
    /// The band of edges a query at `pt` must test, or `None` when `pt` lies
    /// outside the index's padded vertical extent (no edge can cross a row
    /// outside it).
    fn slice_for(&self, pt: &Point) -> (r: Option<&Vec<LineSeg>>)
        requires
            self.wf(),
        ensures
            match r {
                None => (pt.y as int) < min_y(self@) - 1 || (pt.y as int) > max_y(self@) + 1,
                Some(v) => {
                    &&& min_y(self@) - 1 <= pt.y as int <= max_y(self@) + 1
                    &&& v@ == band_edges(
                        edges_of(self@),
                        band_of(min_y(self@) - 1, max_y(self@) + 1, pt.y as int),
                        min_y(self@) - 1,
                        max_y(self@) + 1,
                    )
                },
            },
    {
        proof {
            lemma_min_max_y_range(self@);
        }
        let y = pt.y as i64;
        if y < self.slices.y_min || y > self.slices.y_max {
            None
        } else {
            let k = band_for(self.slices.y_min, self.slices.y_max, y);
            Some(&self.slices.segments[k])
        }
    }

    /// Whether the ring is wound clockwise, by the sign of the shoelace sum
    /// over its edges. Clockwise rings are exterior boundaries; the rest are
    /// holes. The sum is exact: every term is bounded well inside 128 bits.
    pub fn is_clockwise(&self) -> (r: bool)
        requires
            self.wf(),
        ensures
            r == is_cw(self@),
    {
        let n = self.points.len();
        let mut acc: i128 = 0;
        let mut j = self.points[n - 1];
        let mut i: usize = 0;
        while i < n
            invariant
                n == self.points@.len(),
                n >= 1,
                0 <= i <= n,
                j == (if i == 0 {
                    self.points@[n - 1]
                } else {
                    self.points@[i - 1]
                }),
                acc == area_sum(edges_of(self.points@).take(i as int)),
                -((i as int) * 0x8000_0000_0000_0000) <= acc <= (i as int) * 0x8000_0000_0000_0000,
            decreases n - i,
        {
            let b = self.points[i];
            proof {
                let es = edges_of(self.points@);
                assert(es.take(i + 1).drop_last() =~= es.take(i as int));
                assert(es.take(i + 1).last() == es[i as int]);
                assert(es[i as int] == LineSeg { a: j, b });
                lemma_mul_bounds(j.x as int, b.y as int, 0x8000_0000);
                lemma_mul_bounds(b.x as int, j.y as int, 0x8000_0000);
            }
            let term: i128 = (j.x as i128) * (b.y as i128) - (b.x as i128) * (j.y as i128);
            acc = acc + term;
            j = b;
            i = i + 1;
        }
        proof {
            assert(edges_of(self.points@).take(n as int) =~= edges_of(self.points@));
        }
        acc < 0
    }

    /// Banded even-odd test: a query outside the ring's padded vertical
    /// extent is rejected at once; any other query walks only the edges of
    /// the band its height selects. Answers exactly as `contains_unsliced`
    /// on every query point: both equal `ring_contains`.
    pub fn contains(&self, pt: &Point) -> (r: bool)
        requires
            self.wf(),
        ensures
            r == ring_contains(self@, *pt),
    {
        match self.slice_for(pt) {
            None => {
                proof {
                    let es = edges_of(self@);
                    assert forall|i: int| 0 <= i < es.len() implies !flips(
                        #[trigger] es[i],
                        *pt,
                    ) by {
                        lemma_min_max_y_bounds(self@, i);
                        lemma_min_max_y_bounds(
                            self@,
                            if i == 0 {
                                self@.len() - 1
                            } else {
                                i - 1
                            },
                        );
                    }
                    lemma_parity_no_flips(es, *pt);
                }
                false
            },
            Some(vec) => {
                let r = fold_parity(vec, pt);
                proof {
                    let es = edges_of(self@);
                    let ymin = min_y(self@) - 1;
                    let ymax = max_y(self@) + 1;
                    let k = band_of(ymin, ymax, pt.y as int);
                    lemma_min_max_y_range(self@);
                    assert forall|i: int|
                        0 <= i < es.len() && flips(#[trigger] es[i], *pt) implies in_band(
                        es[i],
                        k,
                        ymin,
                        ymax,
                    ) by {
                        lemma_min_max_y_bounds(self@, i);
                        lemma_min_max_y_bounds(
                            self@,
                            if i == 0 {
                                self@.len() - 1
                            } else {
                                i - 1
                            },
                        );
                        lemma_flip_edge_in_band(es[i], *pt, ymin, ymax);
                    }
                    lemma_parity_band_edges(es, *pt, k, ymin, ymax);
                }
                r
            },
        }
    }
}

} // verus!
