//! Wires on a grid: a comma-separated list of axis translations traces a
//! path from the origin; the path's corners bound its segments, and two
//! wires cross where segments intersect.

use vstd::prelude::*;
use vstd::string::StrSliceExecFns;

use crate::pairs::adjacent_pairs;
use crate::text::{parse_i64_chars, spec_parse_i64_chars};

verus! {

/// One step of a wire path along an axis.
#[derive(Clone, Copy, Debug, PartialEq, Eq, Structural)]
pub enum PointAxisTranslation {
    Up(i64),
    Right(i64),
    Down(i64),
    Left(i64),
}

/// What a direction letter followed by a signed decimal distance denotes;
/// anything else denotes nothing.
pub open spec fn spec_translation(s: Seq<char>) -> Option<PointAxisTranslation> {
    if s.len() == 0 {
        None
    } else {
        match spec_parse_i64_chars(s.skip(1)) {
            None => None,
            Some(v) => {
                if s[0] == 'U' {
                    Some(PointAxisTranslation::Up(v))
                } else if s[0] == 'R' {
                    Some(PointAxisTranslation::Right(v))
                } else if s[0] == 'D' {
                    Some(PointAxisTranslation::Down(v))
                } else if s[0] == 'L' {
                    Some(PointAxisTranslation::Left(v))
                } else {
                    None
                }
            },
        }
    }
}

impl PointAxisTranslation {
    /// Reads a direction letter and a distance, or nothing for any other
    /// text.
    pub fn from_str(raw: &str) -> (r: Option<PointAxisTranslation>)
        ensures
            r == spec_translation(raw@),
    {
        let n = raw.unicode_len();
        if n == 0 {
            return None;
        }
        let c = raw.get_char(0);
        let rest = raw.substring_char(1, n);
        proof {
            assert(rest@ =~= raw@.skip(1));
        }
        let v = match parse_i64_chars(rest) {
            None => {
                return None;
            },
            Some(v) => v,
        };
        if c == 'U' {
            Some(PointAxisTranslation::Up(v))
        } else if c == 'R' {
            Some(PointAxisTranslation::Right(v))
        } else if c == 'D' {
            Some(PointAxisTranslation::Down(v))
        } else if c == 'L' {
            Some(PointAxisTranslation::Left(v))
        } else {
            None
        }
    }
}

/// A grid point.
#[derive(Clone, Copy, Debug, PartialEq, Eq, Structural)]
pub struct Point {
    pub x: i64,
    pub y: i64,
}

/// Where a translation moves a point, as unbounded coordinates.
pub open spec fn spec_translate(p: Point, t: PointAxisTranslation) -> (int, int) {
    match t {
        PointAxisTranslation::Up(v) => (p.x as int, p.y + v),
        PointAxisTranslation::Right(v) => (p.x + v, p.y as int),
        PointAxisTranslation::Down(v) => (p.x as int, p.y - v),
        PointAxisTranslation::Left(v) => (p.x - v, p.y as int),
    }
}

/// The coordinate bound within which all wire geometry stays: small
/// enough that every intermediate product of the intersection formula
/// fits the machine's wide integers.
pub const COORD_BOUND: i64 = 1_000_000_000;

pub open spec fn coord_ok(v: int) -> bool {
    -1_000_000_000 <= v <= 1_000_000_000
}

pub open spec fn point_ok(p: Point) -> bool {
    coord_ok(p.x as int) && coord_ok(p.y as int)
}

pub open spec fn spec_manhattan(p: Point) -> int {
    (if p.x < 0 {
        -(p.x as int)
    } else {
        p.x as int
    }) + (if p.y < 0 {
        -(p.y as int)
    } else {
        p.y as int
    })
}

impl Point {
    pub fn new(x: i64, y: i64) -> (r: Point)
        ensures
            r == (Point { x, y }),
    {
        Point { x, y }
    }

    pub fn origin() -> (r: Point)
        ensures
            r == (Point { x: 0, y: 0 }),
    {
        Point { x: 0, y: 0 }
    }

    /// The point a translation moves this one to; the destination must be
    /// representable.
    pub fn translate_on_axis(&self, translation: PointAxisTranslation) -> (r: Point)
        requires
            i64::MIN <= spec_translate(*self, translation).0 <= i64::MAX,
            i64::MIN <= spec_translate(*self, translation).1 <= i64::MAX,
        ensures
            r.x == spec_translate(*self, translation).0,
            r.y == spec_translate(*self, translation).1,
    {
        match translation {
            PointAxisTranslation::Up(val) => Point { x: self.x, y: self.y + val },
            PointAxisTranslation::Right(val) => Point { x: self.x + val, y: self.y },
            PointAxisTranslation::Down(val) => Point { x: self.x, y: self.y - val },
            PointAxisTranslation::Left(val) => Point { x: self.x - val, y: self.y },
        }
    }

    /// The taxicab distance to the origin.
    pub fn manhattan_distance_to_origin(&self) -> (r: i64)
        requires
            spec_manhattan(*self) <= i64::MAX,
        ensures
            r == spec_manhattan(*self),
    {
        let ax: i128 = if self.x < 0 {
            -(self.x as i128)
        } else {
            self.x as i128
        };
        let ay: i128 = if self.y < 0 {
            -(self.y as i128)
        } else {
            self.y as i128
        };
        (ax + ay) as i64
    }

    /// Whether the point lies within the segment's bounding box; for a
    /// point already known collinear with the segment, that places it on
    /// the segment itself.
    pub fn is_on_segment(&self, segment: &WireSegment) -> (r: bool)
        ensures
            r == spec_in_bbox(*self, *segment),
    {
        let lo_x = if segment.start.x < segment.end.x {
            segment.start.x
        } else {
            segment.end.x
        };
        let hi_x = if segment.start.x < segment.end.x {
            segment.end.x
        } else {
            segment.start.x
        };
        let lo_y = if segment.start.y < segment.end.y {
            segment.start.y
        } else {
            segment.end.y
        };
        let hi_y = if segment.start.y < segment.end.y {
            segment.end.y
        } else {
            segment.start.y
        };
        lo_x <= self.x && self.x <= hi_x && lo_y <= self.y && self.y <= hi_y
    }
}

/// Whether `p` lies within the axis-aligned bounding box of `s`.
pub open spec fn spec_in_bbox(p: Point, s: WireSegment) -> bool {
    let lo_x = if s.start.x < s.end.x {
        s.start.x
    } else {
        s.end.x
    };
    let hi_x = if s.start.x < s.end.x {
        s.end.x
    } else {
        s.start.x
    };
    let lo_y = if s.start.y < s.end.y {
        s.start.y
    } else {
        s.end.y
    };
    let hi_y = if s.start.y < s.end.y {
        s.end.y
    } else {
        s.start.y
    };
    lo_x <= p.x && p.x <= hi_x && lo_y <= p.y && p.y <= hi_y
}

/// One straight piece of a wire.
#[derive(Clone, Copy, Debug, PartialEq, Eq, Structural)]
pub struct WireSegment {
    pub start: Point,
    pub end: Point,
}

pub open spec fn segment_ok(s: WireSegment) -> bool {
    point_ok(s.start) && point_ok(s.end)
}

/// Division truncating toward zero, as the machine divides: the quotient
/// of the magnitudes, negated when the signs differ.
pub open spec fn trunc_div(a: int, b: int) -> int {
    let q = (if a < 0 {
        -a
    } else {
        a
    }) / (if b < 0 {
        -b
    } else {
        b
    });
    if (a < 0) != (b < 0) {
        -q
    } else {
        q
    }
}

/// Wide division truncating toward zero, computed on magnitudes.
fn div_i128(a: i128, b: i128) -> (r: i128)
    requires
        b != 0,
        a != i128::MIN,
        b != i128::MIN,
    ensures
        r == trunc_div(a as int, b as int),
{
    let ua: u128 = if a < 0 {
        (-a) as u128
    } else {
        a as u128
    };
    let ub: u128 = if b < 0 {
        (-b) as u128
    } else {
        b as u128
    };
    let uq: u128 = ua / ub;
    proof {
        vstd::arithmetic::div_mod::lemma_div_nonincreasing(ua as int, ub as int);
        vstd::arithmetic::div_mod::lemma_div_pos_is_pos(ua as int, ub as int);
    }
    if (a < 0) != (b < 0) {
        -(uq as i128)
    } else {
        uq as i128
    }
}

/// The product of values bounded by `m` and `n` is bounded by `m * n`.
proof fn lemma_mul_bound(a: int, b: int, m: int, n: int)
    requires
        -m <= a <= m,
        -n <= b <= n,
        0 <= m,
        0 <= n,
    ensures
        -(m * n) <= a * b <= m * n,
{
    assert(-(m * n) <= a * b <= m * n) by (nonlinear_arith)
        requires
            -m <= a <= m,
            -n <= b <= n,
            0 <= m,
            0 <= n,
    ;
}

/// Where the infinite lines through the two segments cross, by the
/// determinant formula, if that crossing lies within both bounding boxes.
/// Parallel (or collinear) segments cross nowhere.
pub open spec fn spec_intersection(s1: WireSegment, s2: WireSegment) -> Option<Point> {
    let a1 = s1.end.y - s1.start.y;
    let b1 = s1.start.x - s1.end.x;
    let c1 = a1 * s1.start.x + b1 * s1.start.y;
    let a2 = s2.end.y - s2.start.y;
    let b2 = s2.start.x - s2.end.x;
    let c2 = a2 * s2.start.x + b2 * s2.start.y;
    let delta = a1 * b2 - a2 * b1;
    if delta == 0 {
        None
    } else {
        let px = trunc_div(b2 * c1 - b1 * c2, delta);
        let py = trunc_div(a1 * c2 - a2 * c1, delta);
        if coord_ok(px) && coord_ok(py) && {
            let p = Point { x: px as i64, y: py as i64 };
            spec_in_bbox(p, s1) && spec_in_bbox(p, s2)
        } {
            Some(Point { x: px as i64, y: py as i64 })
        } else {
            None
        }
    }
}

impl WireSegment {
    pub fn new(start: Point, end: Point) -> (r: WireSegment)
        ensures
            r == (WireSegment { start, end }),
    {
        WireSegment { start, end }
    }

    /// The point where this segment crosses the other, if they cross.
    pub fn intersection(&self, other: &WireSegment) -> (r: Option<Point>)
        requires
            segment_ok(*self),
            segment_ok(*other),
        ensures
            r == spec_intersection(*self, *other),
    {
        let a1: i128 = self.end.y as i128 - self.start.y as i128;
        let b1: i128 = self.start.x as i128 - self.end.x as i128;
        proof {
            lemma_mul_bound(a1 as int, self.start.x as int, 2_000_000_000, 1_000_000_000);
            lemma_mul_bound(b1 as int, self.start.y as int, 2_000_000_000, 1_000_000_000);
        }
        let c1: i128 = a1 * self.start.x as i128 + b1 * self.start.y as i128;
        let a2: i128 = other.end.y as i128 - other.start.y as i128;
        let b2: i128 = other.start.x as i128 - other.end.x as i128;
        proof {
            lemma_mul_bound(a2 as int, other.start.x as int, 2_000_000_000, 1_000_000_000);
            lemma_mul_bound(b2 as int, other.start.y as int, 2_000_000_000, 1_000_000_000);
        }
        let c2: i128 = a2 * other.start.x as i128 + b2 * other.start.y as i128;
        proof {
            lemma_mul_bound(a1 as int, b2 as int, 2_000_000_000, 2_000_000_000);
            lemma_mul_bound(a2 as int, b1 as int, 2_000_000_000, 2_000_000_000);
        }
        let delta: i128 = a1 * b2 - a2 * b1;
        if delta == 0 {
            return None;
        }
        proof {
            lemma_mul_bound(b2 as int, c1 as int, 2_000_000_000, 4_000_000_000_000_000_000);
            lemma_mul_bound(b1 as int, c2 as int, 2_000_000_000, 4_000_000_000_000_000_000);
            lemma_mul_bound(a1 as int, c2 as int, 2_000_000_000, 4_000_000_000_000_000_000);
            lemma_mul_bound(a2 as int, c1 as int, 2_000_000_000, 4_000_000_000_000_000_000);
        }
        let px = div_i128(b2 * c1 - b1 * c2, delta);
        let py = div_i128(a1 * c2 - a2 * c1, delta);
        if px < -COORD_BOUND as i128 || px > COORD_BOUND as i128 || py < -COORD_BOUND as i128
            || py > COORD_BOUND as i128 {
            return None;
        }
        let p = Point { x: px as i64, y: py as i64 };
        if p.is_on_segment(self) && p.is_on_segment(other) {
            Some(p)
        } else {
            None
        }
    }
}

/// The position of the first comma at or after `i`, or the end.
pub open spec fn tok_end(s: Seq<char>, i: int) -> int
    decreases s.len() - i,
    when 0 <= i <= s.len()
{
    if i >= s.len() {
        i
    } else if s[i] == ',' {
        i
    } else {
        tok_end(s, i + 1)
    }
}

pub proof fn lemma_tok_end(s: Seq<char>, i: int)
    requires
        0 <= i <= s.len(),
    ensures
        i <= tok_end(s, i) <= s.len(),
    decreases s.len() - i,
{
    if i < s.len() && s[i] != ',' {
        lemma_tok_end(s, i + 1);
    }
}

/// A well-formed wire listing, scanned from position `i` with the pen at
/// `p`: every comma-separated token is a translation, and every corner the
/// pen visits stays within the coordinate bound.
pub open spec fn wire_scan_ok(s: Seq<char>, i: int, p: Point) -> bool
    decreases s.len() - i,
    when 0 <= i <= s.len()
    via wire_scan_ok_decreases
{
    let e = tok_end(s, i);
    match spec_translation(s.subrange(i, e)) {
        None => false,
        Some(t) => {
            let q = spec_translate(p, t);
            coord_ok(q.0) && coord_ok(q.1) && (e >= s.len() || wire_scan_ok(
                s,
                e + 1,
                Point { x: q.0 as i64, y: q.1 as i64 },
            ))
        },
    }
}

#[via_fn]
proof fn wire_scan_ok_decreases(s: Seq<char>, i: int, p: Point) {
    lemma_tok_end(s, i);
}

/// The corners the pen visits after `p`, scanning the listing from `i`.
pub open spec fn wire_points(s: Seq<char>, i: int, p: Point) -> Seq<Point>
    decreases s.len() - i,
    when 0 <= i <= s.len()
    via wire_points_decreases
{
    let e = tok_end(s, i);
    match spec_translation(s.subrange(i, e)) {
        None => Seq::empty(),
        Some(t) => {
            let q = spec_translate(p, t);
            let qq = Point { x: q.0 as i64, y: q.1 as i64 };
            seq![qq] + (if e < s.len() {
                wire_points(s, e + 1, qq)
            } else {
                Seq::empty()
            })
        },
    }
}

#[via_fn]
proof fn wire_points_decreases(s: Seq<char>, i: int, p: Point) {
    lemma_tok_end(s, i);
}

/// Every corner of a well-formed scan stays within the coordinate bound.
pub proof fn lemma_wire_points_ok(s: Seq<char>, i: int, p: Point)
    requires
        0 <= i <= s.len(),
        wire_scan_ok(s, i, p),
    ensures
        forall|k: int|
            0 <= k < wire_points(s, i, p).len() ==> point_ok(#[trigger] wire_points(s, i, p)[k]),
    decreases s.len() - i,
{
    lemma_tok_end(s, i);
    let e = tok_end(s, i);
    match spec_translation(s.subrange(i, e)) {
        None => {},
        Some(t) => {
            let q = spec_translate(p, t);
            let qq = Point { x: q.0 as i64, y: q.1 as i64 };
            let w = wire_points(s, i, p);
            if e < s.len() {
                lemma_wire_points_ok(s, e + 1, qq);
                assert forall|k: int| 0 <= k < w.len() implies point_ok(w[k]) by {
                    if k == 0 {
                        assert(w[k] == qq);
                    } else {
                        assert(w[k] == wire_points(s, e + 1, qq)[k - 1]);
                    }
                }
            } else {
                assert forall|k: int| 0 <= k < w.len() implies point_ok(w[k]) by {
                    assert(w[k] == qq);
                }
            }
        },
    }
}

/// The segments between consecutive corners.
pub open spec fn segs_of(ps: Seq<Point>) -> Seq<WireSegment> {
    Seq::new((ps.len() - 1) as nat, |i: int| WireSegment { start: ps[i], end: ps[i + 1] })
}

/// A wire: the segments of the path its listing traces from the origin.
#[derive(Debug)]
pub struct Wire {
    segments: Vec<WireSegment>,
}

impl Wire {
    pub closed spec fn spec_segments(&self) -> Seq<WireSegment> {
        self.segments@
    }

    /// Every corner of the wire lies within the coordinate bound.
    pub open spec fn wf(&self) -> bool {
        forall|k: int|
            0 <= k < self.spec_segments().len() ==> segment_ok(#[trigger] self.spec_segments()[k])
    }

    /// Traces the comma-separated listing from the origin and keeps the
    /// segments between consecutive corners.
    pub fn new_from_raw(raw_str: &str) -> (r: Wire)
        requires
            wire_scan_ok(raw_str@, 0, Point { x: 0, y: 0 }),
        ensures
            r.spec_segments() == segs_of(
                seq![Point { x: 0, y: 0 }] + wire_points(raw_str@, 0, Point { x: 0, y: 0 }),
            ),
            r.wf(),
    {
        let n = raw_str.unicode_len();
        let ghost full = seq![Point { x: 0, y: 0 }] + wire_points(
            raw_str@,
            0,
            Point { x: 0, y: 0 },
        );
        let mut points: Vec<Point> = Vec::new();
        points.push(Point { x: 0, y: 0 });
        let mut cur = Point { x: 0, y: 0 };
        let mut pos: usize = 0;
        proof {
            lemma_wire_points_ok(raw_str@, 0, Point { x: 0, y: 0 });
            assert(full =~= points@ + wire_points(raw_str@, 0, Point { x: 0, y: 0 }));
        }
        loop
            invariant_except_break
                pos <= n,
                n == raw_str@.len(),
                wire_scan_ok(raw_str@, pos as int, cur),
                point_ok(cur),
                points@.len() >= 1,
                points@.last() == cur,
                full == points@ + wire_points(raw_str@, pos as int, cur),
                forall|k: int| 0 <= k < points@.len() ==> point_ok(#[trigger] points@[k]),
            ensures
                points@ == full,
                points@.len() >= 1,
                forall|k: int| 0 <= k < points@.len() ==> point_ok(#[trigger] points@[k]),
            decreases n - pos,
        {
            let mut e = pos;
            while e < n && raw_str.get_char(e) != ','
                invariant
                    pos <= e <= n,
                    n == raw_str@.len(),
                    tok_end(raw_str@, pos as int) == tok_end(raw_str@, e as int),
                decreases n - e,
            {
                e = e + 1;
            }
            proof {
                assert(e == tok_end(raw_str@, pos as int));
            }
            let token = raw_str.substring_char(pos, e);
            proof {
                assert(token@ =~= raw_str@.subrange(pos as int, e as int));
            }
            let t = match PointAxisTranslation::from_str(token) {
                Some(t) => t,
                None => {
                    proof {
                        assert(false);
                    }
                    PointAxisTranslation::Up(0)
                },
            };
            let q = cur.translate_on_axis(t);
            points.push(q);
            proof {
                if e < n {
                    assert(full =~= points@ + wire_points(raw_str@, e + 1, q));
                } else {
                    assert(full =~= points@);
                }
            }
            cur = q;
            if e >= n {
                break ;
            }
            pos = e + 1;
        }
        let prs = adjacent_pairs(&points);
        let mut segments: Vec<WireSegment> = Vec::new();
        let mut k: usize = 0;
        proof {
            assert(segments@ =~= segs_of(points@).take(0));
        }
        while k < prs.len()
            invariant
                k <= prs@.len(),
                points@ == full,
                points@.len() >= 1,
                prs@.len() == points@.len() - 1,
                forall|i: int|
                    0 <= i < prs@.len() ==> #[trigger] prs@[i] == (points@[i], points@[i + 1]),
                forall|i: int| 0 <= i < points@.len() ==> point_ok(#[trigger] points@[i]),
                segments@ == segs_of(points@).take(k as int),
            decreases prs@.len() - k,
        {
            let pr = prs[k];
            segments.push(WireSegment { start: pr.0, end: pr.1 });
            proof {
                assert(segments@ =~= segs_of(points@).take(k + 1));
            }
            k = k + 1;
        }
        proof {
            assert(segs_of(points@).take(prs@.len() as int) =~= segs_of(points@));
        }
        Wire { segments }
    }

    /// The wire's segments, in path order.
    pub fn segments(&self) -> (r: &Vec<WireSegment>)
        ensures
            r@ == self.spec_segments(),
    {
        &self.segments
    }
}

/// The crossings of one segment with each of `b[j..]`, in order.
pub open spec fn row_inters(s1: WireSegment, b: Seq<WireSegment>, j: int) -> Seq<Point>
    decreases b.len() - j,
    when 0 <= j <= b.len()
{
    if j >= b.len() {
        Seq::empty()
    } else {
        (match spec_intersection(s1, b[j]) {
            None => Seq::<Point>::empty(),
            Some(p) => seq![p],
        }) + row_inters(s1, b, j + 1)
    }
}

/// The crossings of each of `a[i..]` with every segment of `b`, in order.
pub open spec fn all_inters(a: Seq<WireSegment>, b: Seq<WireSegment>, i: int) -> Seq<Point>
    decreases a.len() - i,
    when 0 <= i <= a.len()
{
    if i >= a.len() {
        Seq::empty()
    } else {
        row_inters(a[i], b, 0) + all_inters(a, b, i + 1)
    }
}

/// The first point, scanning from `i` with best-so-far `cur`, that is not
/// the origin and strictly closer to the origin than the best so far.
pub open spec fn best_point(ps: Seq<Point>, i: int, cur: Option<Point>) -> Option<Point>
    decreases ps.len() - i,
    when 0 <= i <= ps.len()
{
    if i >= ps.len() {
        cur
    } else {
        let p = ps[i];
        let better = p != (Point { x: 0, y: 0 }) && (match cur {
            None => true,
            Some(c) => spec_manhattan(p) < spec_manhattan(c),
        });
        best_point(
            ps,
            i + 1,
            if better {
                Some(p)
            } else {
                cur
            },
        )
    }
}

impl Wire {
    /// Every crossing of this wire's segments with the other's, in path
    /// order of this wire.
    pub fn all_intersections(&self, other: &Wire) -> (r: Vec<Point>)
        requires
            self.wf(),
            other.wf(),
        ensures
            r@ == all_inters(self.spec_segments(), other.spec_segments(), 0),
            forall|k: int| 0 <= k < r@.len() ==> point_ok(#[trigger] r@[k]),
    {
        let ghost a = self.spec_segments();
        let ghost b = other.spec_segments();
        let mut r: Vec<Point> = Vec::new();
        let mut i: usize = 0;
        proof {
            assert(r@ + all_inters(a, b, 0) =~= all_inters(a, b, 0));
        }
        while i < self.segments.len()
            invariant
                i <= a.len(),
                a == self.spec_segments(),
                b == other.spec_segments(),
                self.wf(),
                other.wf(),
                all_inters(a, b, 0) == r@ + all_inters(a, b, i as int),
                forall|k: int| 0 <= k < r@.len() ==> point_ok(#[trigger] r@[k]),
            decreases a.len() - i,
        {
            let s1 = self.segments[i];
            let mut j: usize = 0;
            proof {
                assert(r@ + (row_inters(s1, b, 0) + all_inters(a, b, i + 1)) =~= (r@ + row_inters(
                    s1,
                    b,
                    0,
                )) + all_inters(a, b, i + 1));
            }
            while j < other.segments.len()
                invariant
                    j <= b.len(),
                    i < a.len(),
                    a == self.spec_segments(),
                    b == other.spec_segments(),
                    s1 == a[i as int],
                    self.wf(),
                    other.wf(),
                    all_inters(a, b, 0) == (r@ + row_inters(s1, b, j as int)) + all_inters(
                        a,
                        b,
                        i + 1,
                    ),
                    forall|k: int| 0 <= k < r@.len() ==> point_ok(#[trigger] r@[k]),
                decreases b.len() - j,
            {
                let s2 = other.segments[j];
                let ghost r_old = r@;
                match s1.intersection(&s2) {
                    None => {},
                    Some(p) => {
                        r.push(p);
                        proof {
                            assert((r_old + row_inters(s1, b, j as int)) =~= (r@ + row_inters(
                                s1,
                                b,
                                j + 1,
                            )));
                        }
                    },
                }
                j = j + 1;
            }
            proof {
                assert(row_inters(s1, b, b.len() as int) == Seq::<Point>::empty());
                assert((r@ + row_inters(s1, b, b.len() as int)) =~= r@);
                assert(r@ + all_inters(a, b, i + 1) =~= (r@ + Seq::<Point>::empty()) + all_inters(
                    a,
                    b,
                    i + 1,
                ));
            }
            i = i + 1;
        }
        proof {
            assert(all_inters(a, b, a.len() as int) == Seq::<Point>::empty());
            assert((r@ + all_inters(a, b, a.len() as int)) =~= r@);
        }
        r
    }

    /// Of all crossings with the other wire, the first one, in path order,
    /// that is nearest the origin; the origin itself does not count. There
    /// must be such a crossing.
    pub fn closest_intersection_to_origin(&self, other: &Wire) -> (r: Point)
        requires
            self.wf(),
            other.wf(),
            best_point(
                all_inters(self.spec_segments(), other.spec_segments(), 0),
                0,
                None,
            ) is Some,
        ensures
            Some(r) == best_point(
                all_inters(self.spec_segments(), other.spec_segments(), 0),
                0,
                None,
            ),
    {
        let ps = self.all_intersections(other);
        let ghost psv = ps@;
        let mut best: Option<Point> = None;
        let mut best_dist: i64 = 0;
        let mut k: usize = 0;
        while k < ps.len()
            invariant
                k <= psv.len(),
                psv == ps@,
                forall|j: int| 0 <= j < psv.len() ==> point_ok(#[trigger] psv[j]),
                best_point(psv, 0, None) == best_point(psv, k as int, best),
                (match best {
                    None => true,
                    Some(c) => point_ok(c) && best_dist == spec_manhattan(c),
                }),
            decreases psv.len() - k,
        {
            let p = ps[k];
            if !(p.x == 0 && p.y == 0) {
                let d = p.manhattan_distance_to_origin();
                let better = match best {
                    None => true,
                    Some(_) => d < best_dist,
                };
                if better {
                    best = Some(p);
                    best_dist = d;
                }
            }
            k = k + 1;
        }
        match best {
            Some(p) => p,
            None => {
                proof {
                    assert(false);
                }
                Point { x: 0, y: 0 }
            },
        }
    }
}


} // verus!
