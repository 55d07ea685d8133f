//! Polygons as closed integer vertex loops: validated construction, derived
//! edges, intersection queries against scan positions, and the scanline fill
//! spans computed from them.

use crate::error::{Error, ErrorKind};
use crate::math::{function_of, Function, FunctionType, Point, Variable};
use vstd::multiset::Multiset;
use vstd::prelude::*;

verus! {

/// The coordinate of `p` on axis `v`.
pub open spec fn coord(v: Variable, p: Point) -> int {
    if v is X {
        p.x as int
    } else {
        p.y as int
    }
}

/// The input sequence with immediately-repeated points removed: of every run
/// of equal consecutive points only the first remains.
pub open spec fn dedup_spec(s: Seq<Point>) -> Seq<Point>
    decreases s.len(),
{
    if s.len() <= 1 {
        s
    } else {
        let d = dedup_spec(s.drop_last());
        if s.last() == d.last() {
            d
        } else {
            d.push(s.last())
        }
    }
}

/// Basic shape facts about `dedup_spec`: it keeps the first and last points,
/// never grows the sequence, and leaves no equal consecutive pair.
pub proof fn lemma_dedup_shape(s: Seq<Point>)
    requires
        s.len() >= 1,
    ensures
        1 <= dedup_spec(s).len() <= s.len(),
        dedup_spec(s).first() == s.first(),
        dedup_spec(s).last() == s.last(),
        forall|i: int|
            0 <= i < dedup_spec(s).len() - 1 ==> #[trigger] dedup_spec(s)[i] != dedup_spec(s)[i + 1],
    decreases s.len(),
{
    if s.len() > 1 {
        lemma_dedup_shape(s.drop_last());
    }
}

/// The vertex loop stored by `Polygon::new`: the deduplicated input,
/// explicitly closed by appending its first point when the ends differ.
pub open spec fn closed_loop_spec(s: Seq<Point>) -> Seq<Point> {
    let d = dedup_spec(s);
    if d.first() == d.last() {
        d
    } else {
        d.push(d.first())
    }
}

/// An ordered, closed loop of integer vertices. The stored sequence always
/// ends with a repetition of its first point, holds at least three points,
/// and never repeats a point in two consecutive positions.
#[derive(Clone, Debug)]
pub struct Polygon {
    points: Vec<Point>,
}

impl Polygon {
    /// The structural invariant established by `new`.
    pub closed spec fn wf(self) -> bool {
        &&& self.points@.len() >= 3
        &&& self.points@.first() == self.points@.last()
        &&& forall|i: int|
            0 <= i < self.points@.len() - 1 ==> #[trigger] self.points@[i] != self.points@[i + 1]
    }

    /// The stored closed loop (last point equals first point).
    pub closed spec fn loop_spec(self) -> Seq<Point> {
        self.points@
    }

    /// The boundary vertices, closing point excluded.
    pub open spec fn verts(self) -> Seq<Point> {
        self.loop_spec().drop_last()
    }

    /// Validating constructor: removes consecutive duplicate points, requires
    /// at least three to remain, and closes the loop. Succeeds exactly when
    /// three or more points survive deduplication; fails with a validation
    /// error otherwise.
    pub fn new(points: Vec<Point>) -> (r: Result<Polygon, Error>)
        ensures
            (r is Ok) == (dedup_spec(points@).len() >= 3),
            r is Ok ==> r->Ok_0.wf() && r->Ok_0.loop_spec() == closed_loop_spec(points@),
            r is Ok ==> r->Ok_0.loop_spec().first() == r->Ok_0.loop_spec().last(),
            r is Err ==> r->Err_0.spec_kind() == ErrorKind::Abstract
                && r->Err_0.spec_message() == "Not enough points (Required 3 or more)"@,
    {
        let mut pts: Vec<Point> = Vec::new();
        let mut i: usize = 0;
        while i < points.len()
            invariant
                0 <= i <= points.len(),
                pts@ == dedup_spec(points@.take(i as int)),
            decreases points.len() - i,
        {
            let p = points[i];
            proof {
                assert(points@.take(i as int + 1).drop_last() =~= points@.take(i as int));
                assert(points@.take(i as int + 1).last() == points@[i as int]);
                if i > 0 {
                    lemma_dedup_shape(points@.take(i as int));
                }
            }
            if pts.len() == 0 || pts[pts.len() - 1] != p {
                pts.push(p);
            }
            i += 1;
        }
        proof {
            assert(points@.take(points@.len() as int) =~= points@);
            if points@.len() >= 1 {
                lemma_dedup_shape(points@);
            }
        }
        let n = pts.len();
        if n > 2 {
            let head = pts[0];
            if head != pts[n - 1] {
                pts.push(head);
            }
            Ok(Polygon { points: pts })
        } else {
            Err(Error::from("Not enough points (Required 3 or more)".to_owned()))
        }
    }

    /// The full stored loop including the closing point, in order: the
    /// polyline to draw as the polygon's outline.
    pub fn loop_points(&self) -> (r: Vec<Point>)
        requires
            self.wf(),
        ensures
            r@ == self.loop_spec(),
    {
        let mut r: Vec<Point> = Vec::new();
        let mut i: usize = 0;
        while i < self.points.len()
            invariant
                0 <= i <= self.loop_spec().len(),
                r@ =~= self.loop_spec().take(i as int),
            decreases self.loop_spec().len() - i,
        {
            r.push(self.points[i]);
            i += 1;
        }
        proof {
            assert(self.loop_spec().take(self.loop_spec().len() as int) =~= self.loop_spec());
        }
        r
    }

    /// The number of boundary vertices (the closing point is not counted).
    pub fn len(&self) -> (r: usize)
        requires
            self.wf(),
        ensures
            r as int == self.verts().len(),
    {
        self.points.len() - 1
    }

    /// The vertices in order, closing point excluded.
    pub fn points(&self) -> (r: Vec<Point>)
        requires
            self.wf(),
        ensures
            r@ == self.verts(),
    {
        let mut r: Vec<Point> = Vec::new();
        let n = self.points.len() - 1;
        let mut i: usize = 0;
        while i < n
            invariant
                0 <= i <= n,
                n == self.loop_spec().len() - 1,
                r@ =~= self.verts().take(i as int),
            decreases n - i,
        {
            r.push(self.points[i]);
            i += 1;
        }
        proof {
            assert(self.verts().take(n as int) =~= self.verts());
        }
        r
    }

    /// The edges derived from the first `i` consecutive vertex pairs, in
    /// order, with the `ignore` filter applied.
    pub open spec fn functions_upto(self, ignore: Option<Variable>, i: int) -> Seq<Function>
        decreases i,
    {
        if i <= 0 {
            Seq::empty()
        } else {
            let f = function_of(self.loop_spec()[i - 1], self.loop_spec()[i]);
            let rest = self.functions_upto(ignore, i - 1);
            if keep_function(f, ignore) {
                rest.push(f)
            } else {
                rest
            }
        }
    }

    /// All edges of the polygon, one per consecutive vertex pair including
    /// the closing pair, with the `ignore` filter applied.
    pub open spec fn functions_spec(self, ignore: Option<Variable>) -> Seq<Function> {
        self.functions_upto(ignore, self.loop_spec().len() - 1)
    }

    /// The unsorted intersections of the polygon's retained edges with the
    /// scan position `n` on axis `v`.
    pub open spec fn candidates(self, v: Variable, n: int, ignore: Option<Variable>) -> Seq<
        Point,
    > {
        candidates_of(self.functions_spec(ignore), v, n)
    }

    /// Build one edge per consecutive vertex pair (including the closing
    /// pair). When `ignore` is given, edges whose function is `Constant` on
    /// that axis are dropped: they run parallel to a scan along that axis
    /// and would contribute spurious intersections.
    pub fn functions(&self, ignore: Option<Variable>) -> (r: Vec<Function>)
        requires
            self.wf(),
        ensures
            r@ == self.functions_spec(ignore),
            forall|k: int| 0 <= k < r@.len() ==> (#[trigger] r@[k]).wf(),
    {
        let n = self.points.len() - 1;
        let mut r: Vec<Function> = Vec::new();
        let mut i: usize = 0;
        while i < n
            invariant
                0 <= i <= n,
                self.wf(),
                n == self.loop_spec().len() - 1,
                r@ == self.functions_upto(ignore, i as int),
                forall|k: int| 0 <= k < r@.len() ==> (#[trigger] r@[k]).wf(),
            decreases n - i,
        {
            let f = Function::from((self.points[i], self.points[i + 1]));
            let keep = match ignore {
                Option::Some(v) => match f.function() {
                    FunctionType::Constant { var, .. } => *var != v,
                    FunctionType::Linear { .. } => true,
                },
                Option::None => true,
            };
            if keep {
                r.push(f);
            }
            i += 1;
        }
        r
    }

    /// The intersections between the polygon's edges and the scan position
    /// `n` on axis `v`, sorted ascending by the coordinate on the other
    /// axis. Edges whose solution falls outside their own bounds contribute
    /// nothing; the `ignore` filter drops edges parallel to the scan.
    pub fn intersection_at(&self, v: Variable, n: i32, ignore: Option<Variable>) -> (r: Vec<
        Point,
    >)
        requires
            self.wf(),
        ensures
            r@ == isort(self.candidates(v, n as int, ignore), v),
            sorted_by_key(v, r@),
            r@.to_multiset() == self.candidates(v, n as int, ignore).to_multiset(),
    {
        let fs = self.functions(ignore);
        let mut cands: Vec<Point> = Vec::new();
        let mut i: usize = 0;
        while i < fs.len()
            invariant
                0 <= i <= fs@.len(),
                self.wf(),
                fs@ == self.functions_spec(ignore),
                forall|k: int| 0 <= k < fs@.len() ==> (#[trigger] fs@[k]).wf(),
                cands@ == candidates_of(fs@.take(i as int), v, n as int),
            decreases fs@.len() - i,
        {
            proof {
                assert(fs@.take(i as int + 1).drop_last() =~= fs@.take(i as int));
                assert(fs@.take(i as int + 1).last() == fs@[i as int]);
            }
            let f = fs[i];
            match f.solve(v, n) {
                Some(sol) => {
                    let p = if v.is_x() {
                        Point { x: n, y: sol }
                    } else {
                        Point { x: sol, y: n }
                    };
                    if f.within(p) {
                        cands.push(p);
                    }
                },
                None => {},
            }
            i += 1;
        }
        proof {
            assert(fs@.take(fs@.len() as int) =~= fs@);
        }
        let mut out: Vec<Point> = Vec::new();
        let mut k: usize = 0;
        while k < cands.len()
            invariant
                0 <= k <= cands@.len(),
                out@ == isort(cands@.take(k as int), v),
            decreases cands@.len() - k,
        {
            let p = cands[k];
            let mut j: usize = out.len();
            while j > 0 && sort_key_of(v, out[j - 1]) > sort_key_of(v, p)
                invariant
                    0 <= j <= out@.len(),
                    forall|m: int|
                        j <= m < out@.len() ==> sort_key(v, #[trigger] out@[m]) > sort_key(v, p),
                decreases j,
            {
                j -= 1;
            }
            let ghost out_before = out@;
            out.insert(j, p);
            proof {
                lemma_insert_sorted_at(out_before, v, p, j as int);
                assert(cands@.take(k as int + 1).drop_last() =~= cands@.take(k as int));
                assert(cands@.take(k as int + 1).last() == cands@[k as int]);
            }
            k += 1;
        }
        proof {
            assert(cands@.take(cands@.len() as int) =~= cands@);
            lemma_isort_sorted(self.candidates(v, n as int, ignore), v);
        }
        out
    }

    /// Sorted intersections of the polygon's edges with the vertical line at
    /// horizontal position `n`, edges constant on that axis excluded.
    pub fn intersections_at_x(&self, n: i32) -> (r: Vec<Point>)
        requires
            self.wf(),
        ensures
            r@ == isort(
                self.candidates(Variable::X, n as int, Some(Variable::X)),
                Variable::X,
            ),
            sorted_by_key(Variable::X, r@),
    {
        self.intersection_at(Variable::X, n, Some(Variable::X))
    }

    /// Sorted intersections of the polygon's edges with the horizontal line
    /// at vertical position `n`, edges constant on that axis excluded.
    pub fn intersections_at_y(&self, n: i32) -> (r: Vec<Point>)
        requires
            self.wf(),
        ensures
            r@ == isort(
                self.candidates(Variable::Y, n as int, Some(Variable::Y)),
                Variable::Y,
            ),
            sorted_by_key(Variable::Y, r@),
    {
        self.intersection_at(Variable::Y, n, Some(Variable::Y))
    }

    /// The sorted intersection row at vertical scan position `y`: what
    /// `intersections_at_y` returns.
    pub open spec fn scan_row(self, y: int) -> Seq<Point> {
        isort(self.candidates(Variable::Y, y, Some(Variable::Y)), Variable::Y)
    }

    /// Termination measure of `spans_from`: rows not yet scanned.
    pub open spec fn spans_measure(self, y: int) -> int {
        if y <= self.y_max_spec() {
            self.y_max_spec() - y + 1
        } else {
            0
        }
    }

    /// The spans produced by scanning from row `y` to the bottom extent
    /// inclusive, stepping by `density`: each row contributes its sorted
    /// intersections paired under the even-odd rule.
    pub open spec fn spans_from(self, y: int, density: int) -> Seq<(Point, Point)>
        decreases self.spans_measure(y),
        when density >= 1
    {
        if y > self.y_max_spec() {
            Seq::empty()
        } else {
            pairs_spec(self.scan_row(y)) + self.spans_from(y + density, density)
        }
    }

    /// All horizontal spans the scanline fill draws for this polygon with
    /// the given row step.
    pub open spec fn fill_spans_spec(self, density: int) -> Seq<(Point, Point)> {
        self.spans_from(self.y_min_spec(), density)
    }

    /// Compute the spans of the scanline fill: for each row `y` from the
    /// polygon's top extent to its bottom extent inclusive, stepping by
    /// `density`, the sorted intersections at `y` are paired under the
    /// even-odd rule into non-overlapping spans; an odd trailing
    /// intersection is dropped. Each returned pair is one horizontal
    /// segment to draw.
    pub fn fill_spans(&self, density: usize) -> (r: Vec<(Point, Point)>)
        requires
            self.wf(),
            density >= 1,
        ensures
            r@ == self.fill_spans_spec(density as int),
    {
        let min = self.y_min();
        let max = self.y_max();
        proof {
            lemma_min_max_coord(self.verts(), Variable::Y);
            assert(Polygon::min_coord(self.verts(), Variable::Y) <= coord(
                Variable::Y,
                self.verts()[0],
            ) <= Polygon::max_coord(self.verts(), Variable::Y));
        }
        let mut r: Vec<(Point, Point)> = Vec::new();
        let mut y = min;
        loop
            invariant_except_break
                self.wf(),
                density >= 1,
                min as int == self.y_min_spec(),
                max as int == self.y_max_spec(),
                min <= y <= max,
                self.fill_spans_spec(density as int) == r@ + self.spans_from(
                    y as int,
                    density as int,
                ),
            ensures
                self.fill_spans_spec(density as int) == r@,
            decreases max - y,
        {
            let xs = self.intersections_at_y(y);
            let ghost r_entry = r@;
            let m = xs.len() / 2;
            let mut j: usize = 0;
            while j < m
                invariant
                    0 <= j <= m,
                    m == xs@.len() / 2,
                    xs@.len() <= usize::MAX,
                    r@ == r_entry + pairs_spec(xs@).take(j as int),
                decreases m - j,
            {
                proof {
                    assert(2 * (xs@.len() / 2) <= xs@.len());
                    assert(2 * (j as int) + 1 < xs@.len());
                }
                let a = xs[2 * j];
                let b = xs[2 * j + 1];
                r.push((a, b));
                proof {
                    assert(pairs_spec(xs@).take(j as int + 1) =~= pairs_spec(xs@).take(
                        j as int,
                    ).push((xs@[2 * (j as int)], xs@[2 * (j as int) + 1])));
                }
                j += 1;
            }
            proof {
                assert(pairs_spec(xs@).take(m as int) =~= pairs_spec(xs@));
            }
            let rem: i64 = max as i64 - y as i64;
            if (density as u64) > (rem as u64) {
                proof {
                    assert(self.spans_from(y as int + density as int, density as int)
                        =~= Seq::<(Point, Point)>::empty());
                }
                break ;
            }
            y = (y as i64 + density as i64) as i32;
        }
        r
    }

    /// The least coordinate on axis `v` among the vertices of `s`.
    pub open spec fn min_coord(s: Seq<Point>, v: Variable) -> int
        decreases s.len(),
    {
        if s.len() <= 1 {
            coord(v, s[0])
        } else {
            let m = Self::min_coord(s.drop_last(), v);
            if coord(v, s.last()) < m {
                coord(v, s.last())
            } else {
                m
            }
        }
    }

    /// The greatest coordinate on axis `v` among the vertices of `s`.
    pub open spec fn max_coord(s: Seq<Point>, v: Variable) -> int
        decreases s.len(),
    {
        if s.len() <= 1 {
            coord(v, s[0])
        } else {
            let m = Self::max_coord(s.drop_last(), v);
            if coord(v, s.last()) > m {
                coord(v, s.last())
            } else {
                m
            }
        }
    }

    pub open spec fn x_min_spec(self) -> int {
        Self::min_coord(self.verts(), Variable::X)
    }

    pub open spec fn x_max_spec(self) -> int {
        Self::max_coord(self.verts(), Variable::X)
    }

    pub open spec fn y_min_spec(self) -> int {
        Self::min_coord(self.verts(), Variable::Y)
    }

    pub open spec fn y_max_spec(self) -> int {
        Self::max_coord(self.verts(), Variable::Y)
    }

    /// The left-most coordinate of the polygon.
    pub fn x_min(&self) -> (r: i32)
        requires
            self.wf(),
        ensures
            r as int == self.x_min_spec(),
    {
        self.extent(Variable::X, true)
    }

    /// The right-most coordinate of the polygon.
    pub fn x_max(&self) -> (r: i32)
        requires
            self.wf(),
        ensures
            r as int == self.x_max_spec(),
    {
        self.extent(Variable::X, false)
    }

    /// The top-most (least vertical) coordinate of the polygon.
    pub fn y_min(&self) -> (r: i32)
        requires
            self.wf(),
        ensures
            r as int == self.y_min_spec(),
    {
        self.extent(Variable::Y, true)
    }

    /// The bottom-most (greatest vertical) coordinate of the polygon.
    pub fn y_max(&self) -> (r: i32)
        requires
            self.wf(),
        ensures
            r as int == self.y_max_spec(),
    {
        self.extent(Variable::Y, false)
    }

    /// Linear scan for the extreme coordinate on axis `v`; `least` selects
    /// the minimum, otherwise the maximum.
    fn extent(&self, v: Variable, least: bool) -> (r: i32)
        requires
            self.wf(),
        ensures
            least ==> r as int == Self::min_coord(self.verts(), v),
            !least ==> r as int == Self::max_coord(self.verts(), v),
    {
        let n = self.points.len() - 1;
        let p0 = self.points[0];
        let mut limit: i32 = if v.is_x() {
            p0.x
        } else {
            p0.y
        };
        let mut i: usize = 1;
        while i < n
            invariant
                1 <= i <= n,
                self.wf(),
                n == self.verts().len(),
                least ==> limit as int == Self::min_coord(self.verts().take(i as int), v),
                !least ==> limit as int == Self::max_coord(self.verts().take(i as int), v),
            decreases n - i,
        {
            let p = self.points[i];
            let c = if v.is_x() {
                p.x
            } else {
                p.y
            };
            proof {
                assert(self.verts().take(i as int + 1).drop_last() =~= self.verts().take(
                    i as int,
                ));
                assert(self.verts().take(i as int + 1).last() == self.verts()[i as int]);
            }
            if least {
                if c < limit {
                    limit = c;
                }
            } else {
                if c > limit {
                    limit = c;
                }
            }
            i += 1;
        }
        proof {
            assert(self.verts().take(n as int) =~= self.verts());
        }
        limit
    }
}

/// Whether an edge survives the `ignore` filter: an edge whose function is
/// `Constant` on exactly the ignored axis is dropped, every other edge is
/// kept.
pub open spec fn keep_function(f: Function, ignore: Option<Variable>) -> bool {
    match ignore {
        Option::None => true,
        Option::Some(v) => match f.function {
            FunctionType::Constant { var, .. } => var != v,
            FunctionType::Linear { .. } => true,
        },
    }
}

/// The key intersections are ordered by: the coordinate on the axis *other*
/// than the queried one.
pub open spec fn sort_key(v: Variable, p: Point) -> int {
    if v is X {
        p.y as int
    } else {
        p.x as int
    }
}

/// The intersection `solve` finds for edge `f` at position `n` on axis `v`,
/// if any: the solved point, kept only when it lies within the edge's
/// bounding interval.
pub open spec fn intersection_point(f: Function, v: Variable, n: int) -> Option<Point> {
    match f.function.spec_solve(v, n) {
        Option::None => None,
        Option::Some(sol) => {
            let p = if v is X {
                Point { x: n as i32, y: sol as i32 }
            } else {
                Point { x: sol as i32, y: n as i32 }
            };
            if f.interval.contains(p) {
                Some(p)
            } else {
                None
            }
        },
    }
}

/// The intersections of the edges `fs` with the scan position `n` on axis
/// `v`, in edge order, before sorting.
pub open spec fn candidates_of(fs: Seq<Function>, v: Variable, n: int) -> Seq<Point>
    decreases fs.len(),
{
    if fs.len() == 0 {
        Seq::empty()
    } else {
        candidates_of(fs.drop_last(), v, n) + match intersection_point(fs.last(), v, n) {
            Option::None => Seq::empty(),
            Option::Some(p) => seq![p],
        }
    }
}

/// Consecutive non-overlapping pairs of a sorted intersection row under the
/// even-odd (parity) rule: entering the polygon at the first point of each
/// pair, leaving it at the second. A trailing unpaired point is dropped.
pub open spec fn pairs_spec(s: Seq<Point>) -> Seq<(Point, Point)> {
    Seq::new(s.len() / 2, |i: int| (s[2 * i], s[2 * i + 1]))
}

/// The sort key of `p` on axis `v`, on machine integers.
fn sort_key_of(v: Variable, p: Point) -> (r: i32)
    ensures
        r as int == sort_key(v, p),
{
    if v.is_x() {
        p.y
    } else {
        p.x
    }
}

/// `s` is ordered by `sort_key` on axis `v` (each element at most the next).
pub open spec fn sorted_by_key(v: Variable, s: Seq<Point>) -> bool {
    forall|i: int| 0 <= i < s.len() - 1 ==> sort_key(v, #[trigger] s[i]) <= sort_key(v, s[i + 1])
}

/// Insertion of `p` into `s` before the suffix of elements whose key
/// strictly exceeds `p`'s: the stable insertion position.
pub open spec fn insert_sorted(s: Seq<Point>, v: Variable, p: Point) -> Seq<Point>
    decreases s.len(),
{
    if s.len() == 0 {
        seq![p]
    } else if sort_key(v, s.last()) <= sort_key(v, p) {
        s.push(p)
    } else {
        insert_sorted(s.drop_last(), v, p).push(s.last())
    }
}

/// Stable insertion sort of `s` by `sort_key` on axis `v`.
pub open spec fn isort(s: Seq<Point>, v: Variable) -> Seq<Point>
    decreases s.len(),
{
    if s.len() == 0 {
        Seq::empty()
    } else {
        insert_sorted(isort(s.drop_last(), v), v, s.last())
    }
}

/// `insert_sorted` puts `p` at the position its key calls for.
proof fn lemma_insert_sorted_at(s: Seq<Point>, v: Variable, p: Point, j: int)
    requires
        0 <= j <= s.len(),
        forall|m: int| j <= m < s.len() ==> sort_key(v, #[trigger] s[m]) > sort_key(v, p),
        j > 0 ==> sort_key(v, s[j - 1]) <= sort_key(v, p),
    ensures
        insert_sorted(s, v, p) == s.insert(j, p),
    decreases s.len(),
{
    if s.len() == 0 {
        assert(insert_sorted(s, v, p) =~= s.insert(0, p));
    } else if j == s.len() {
        assert(insert_sorted(s, v, p) =~= s.insert(j, p));
    } else {
        assert(sort_key(v, s.last()) > sort_key(v, p));
        lemma_insert_sorted_at(s.drop_last(), v, p, j);
        assert(insert_sorted(s.drop_last(), v, p).push(s.last()) =~= s.insert(j, p));
    }
}

/// Inserting preserves sortedness.
pub proof fn lemma_insert_sorted_sorted(s: Seq<Point>, v: Variable, p: Point)
    requires
        sorted_by_key(v, s),
    ensures
        sorted_by_key(v, insert_sorted(s, v, p)),
        insert_sorted(s, v, p).len() == s.len() + 1,
        insert_sorted(s, v, p).last() == p || (s.len() >= 1 && insert_sorted(s, v, p).last()
            == s.last()),
    decreases s.len(),
{
    if s.len() == 0 {
    } else if sort_key(v, s.last()) <= sort_key(v, p) {
        let t = s.push(p);
        assert forall|i: int| 0 <= i < t.len() - 1 implies sort_key(v, #[trigger] t[i]) <= sort_key(
            v,
            t[i + 1],
        ) by {
            if i < s.len() - 1 {
                assert(t[i] == s[i] && t[i + 1] == s[i + 1]);
            } else {
                assert(t[i] == s.last() && t[i + 1] == p);
            }
        }
    } else {
        assert(sorted_by_key(v, s.drop_last())) by {
            assert(forall|i: int|
                0 <= i < s.len() - 2 ==> sort_key(v, #[trigger] s.drop_last()[i]) <= sort_key(
                    v,
                    s.drop_last()[i + 1],
                )) by {
                assert(forall|i: int|
                    0 <= i < s.len() - 1 ==> sort_key(v, #[trigger] s[i]) <= sort_key(v, s[i + 1]));
                assert(forall|i: int|
                    0 <= i < s.len() - 1 ==> s.drop_last()[i] == #[trigger] s[i]);
            }
        }
        lemma_insert_sorted_sorted(s.drop_last(), v, p);
        let u = insert_sorted(s.drop_last(), v, p);
        let t = u.push(s.last());
        assert(sort_key(v, u.last()) <= sort_key(v, s.last())) by {
            if u.last() == p {
            } else {
                assert(s.len() >= 2);
                assert(u.last() == s.drop_last().last());
                assert(s.drop_last().last() == s[s.len() - 2]);
                assert(sort_key(v, s[s.len() - 2]) <= sort_key(v, s[s.len() - 1]));
            }
        }
        assert forall|i: int| 0 <= i < t.len() - 1 implies sort_key(v, #[trigger] t[i]) <= sort_key(
            v,
            t[i + 1],
        ) by {
            if i < u.len() - 1 {
                assert(t[i] == u[i] && t[i + 1] == u[i + 1]);
            } else {
                assert(t[i] == u.last() && t[i + 1] == s.last());
            }
        }
    }
}

/// Inserting adds exactly `p` to the contents.
pub proof fn lemma_insert_sorted_multiset(s: Seq<Point>, v: Variable, p: Point)
    ensures
        insert_sorted(s, v, p).to_multiset() == s.to_multiset().insert(p),
    decreases s.len(),
{
    broadcast use vstd::seq_lib::group_to_multiset_ensures;

    if s.len() == 0 {
        assert(seq![p] =~= Seq::empty().push(p));
        assert(Seq::<Point>::empty().to_multiset() =~= Multiset::empty());
    } else if sort_key(v, s.last()) <= sort_key(v, p) {
    } else {
        lemma_insert_sorted_multiset(s.drop_last(), v, p);
        assert(s.drop_last().push(s.last()) =~= s);
        assert(s.drop_last().to_multiset().insert(p).insert(s.last())
            =~= s.drop_last().to_multiset().insert(s.last()).insert(p));
    }
}

/// The sort returns a sorted permutation of its input.
pub proof fn lemma_isort_sorted(s: Seq<Point>, v: Variable)
    ensures
        sorted_by_key(v, isort(s, v)),
        isort(s, v).to_multiset() == s.to_multiset(),
        isort(s, v).len() == s.len(),
    decreases s.len(),
{
    broadcast use vstd::seq_lib::group_to_multiset_ensures;

    if s.len() == 0 {
    } else {
        lemma_isort_sorted(s.drop_last(), v);
        lemma_insert_sorted_sorted(isort(s.drop_last(), v), v, s.last());
        lemma_insert_sorted_multiset(isort(s.drop_last(), v), v, s.last());
        assert(s.drop_last().push(s.last()) =~= s);
    }
}

/// The extreme coordinates bound every vertex: each vertex's coordinate on
/// an axis lies within the polygon's minimum and maximum extent on that axis.
pub proof fn lemma_min_max_coord(s: Seq<Point>, v: Variable)
    requires
        s.len() >= 1,
    ensures
        forall|i: int|
            0 <= i < s.len() ==> Polygon::min_coord(s, v) <= #[trigger] coord(v, s[i])
                <= Polygon::max_coord(s, v),
        exists|i: int| 0 <= i < s.len() && Polygon::min_coord(s, v) == coord(v, s[i]),
        exists|i: int| 0 <= i < s.len() && Polygon::max_coord(s, v) == coord(v, s[i]),
    decreases s.len(),
{
    if s.len() > 1 {
        lemma_min_max_coord(s.drop_last(), v);
        assert forall|i: int| 0 <= i < s.len() implies Polygon::min_coord(s, v)
            <= #[trigger] coord(v, s[i]) <= Polygon::max_coord(s, v) by {
            if i < s.len() - 1 {
                assert(s.drop_last()[i] == s[i]);
            }
        }
        let jm = choose|j: int|
            0 <= j < s.drop_last().len() && Polygon::min_coord(s.drop_last(), v) == coord(
                v,
                s.drop_last()[j],
            );
        let jx = choose|j: int|
            0 <= j < s.drop_last().len() && Polygon::max_coord(s.drop_last(), v) == coord(
                v,
                s.drop_last()[j],
            );
        assert(s.drop_last()[jm] == s[jm]);
        assert(s.drop_last()[jx] == s[jx]);
        if coord(v, s.last()) < Polygon::min_coord(s.drop_last(), v) {
            assert(Polygon::min_coord(s, v) == coord(v, s[s.len() - 1]));
        } else {
            assert(Polygon::min_coord(s, v) == coord(v, s[jm]));
        }
        if coord(v, s.last()) > Polygon::max_coord(s.drop_last(), v) {
            assert(Polygon::max_coord(s, v) == coord(v, s[s.len() - 1]));
        } else {
            assert(Polygon::max_coord(s, v) == coord(v, s[jx]));
        }
    } else {
        assert(Polygon::min_coord(s, v) == coord(v, s[0]));
        assert(Polygon::max_coord(s, v) == coord(v, s[0]));
    }
}

/// Every vertex of a constructed polygon lies within the polygon's extents
/// on both axes.
pub proof fn lemma_vertices_within_extents(p: Polygon)
    requires
        p.wf(),
    ensures
        forall|i: int|
            0 <= i < p.verts().len() ==> p.x_min_spec() <= #[trigger] p.verts()[i].x as int
                <= p.x_max_spec(),
        forall|i: int|
            0 <= i < p.verts().len() ==> p.y_min_spec() <= #[trigger] p.verts()[i].y as int
                <= p.y_max_spec(),
{
    lemma_min_max_coord(p.verts(), Variable::X);
    lemma_min_max_coord(p.verts(), Variable::Y);
    assert forall|i: int| 0 <= i < p.verts().len() implies p.x_min_spec()
        <= #[trigger] p.verts()[i].x as int <= p.x_max_spec() by {
        assert(coord(Variable::X, p.verts()[i]) == p.verts()[i].x as int);
    }
    assert forall|i: int| 0 <= i < p.verts().len() implies p.y_min_spec()
        <= #[trigger] p.verts()[i].y as int <= p.y_max_spec() by {
        assert(coord(Variable::Y, p.verts()[i]) == p.verts()[i].y as int);
    }
}

} // verus!
