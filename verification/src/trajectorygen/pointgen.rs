//! Generation of the points inside detected shapes
use vstd::prelude::*;
use crate::trajectorygen::types::{DeformShape, PixelPoint};

verus! {

broadcast use crate::trajectorygen::types::group_pixel_point;

/// A point of a shape is kept when its column is a multiple of the column step and its
/// distance below the top row of the shape is a multiple of the row spacing (a spacing of 0
/// keeps no point)
pub open spec fn keeps_point(p: PixelPoint, min_y: int, x_step: int, y_spacing: int) -> bool {
    &&& p@.0 % x_step == 0
    &&& y_spacing != 0
    &&& (p@.1 - min_y) % y_spacing == 0
}

/// The points of one shape that the simple generator keeps, in order
pub open spec fn shape_simple_points(s: DeformShape, x_step: int, y_spacing: int) -> Seq<PixelPoint> {
    s.spec_all_points().filter(|p: PixelPoint| keeps_point(p, s.spec_min().1, x_step, y_spacing))
}

/// The points that the simple generator keeps, shape by shape
pub open spec fn simple_points(shapes: Seq<DeformShape>, x_step: int, y_spacing: int) -> Seq<PixelPoint>
    decreases shapes.len(),
{
    if shapes.len() == 0 {
        Seq::empty()
    } else {
        simple_points(shapes.drop_last(), x_step, y_spacing) + shape_simple_points(
            shapes.last(),
            x_step,
            y_spacing,
        )
    }
}

/// No point of a shape lies above the top row of the shape
pub open spec fn points_below_top(shapes: Seq<DeformShape>) -> bool {
    forall|k: int, i: int|
        0 <= k < shapes.len() && 0 <= i < shapes[k].spec_all_points().len() ==> shapes[k].spec_min().1
            <= #[trigger] shapes[k].spec_all_points()[i]@.1
}

///Generate points inside the shapes, spaced `x_step` apart along x (half the tool width) and
///`y_spacing` apart along y from the top of each shape
pub fn simple(shapes: &Vec<DeformShape>, x_step: usize, y_spacing: usize) -> (points: Vec<
    PixelPoint,
>)
    requires
        x_step > 0,
        points_below_top(shapes@),
    ensures
        points@ == simple_points(shapes@, x_step as int, y_spacing as int),
{
    let mut points: Vec<PixelPoint> = Vec::new();
    let mut k: usize = 0;
    //For each detected shape
    while k < shapes.len()
        invariant
            0 <= k <= shapes.len(),
            x_step > 0,
            points_below_top(shapes@),
            points@ == simple_points(shapes@.take(k as int), x_step as int, y_spacing as int),
        decreases shapes.len() - k,
    {
        let shape = &shapes[k];
        let min_y = shape.min().y();
        let all = shape.all_points();
        let ghost before = points@;
        let ghost pred = |p: PixelPoint| keeps_point(p, shape.spec_min().1, x_step as int, y_spacing as int);
        let mut i: usize = 0;
        //Go through every point in the shape
        while i < all.len()
            invariant
                0 <= i <= all.len(),
                x_step > 0,
                all@ == shape.spec_all_points(),
                min_y == shape.spec_min().1,
                forall|j: int| 0 <= j < all@.len() ==> min_y <= #[trigger] all@[j]@.1,
                pred == (|p: PixelPoint| keeps_point(p, shape.spec_min().1, x_step as int, y_spacing as int)),
                points@ == before + all@.take(i as int).filter(pred),
            decreases all.len() - i,
        {
            let point = all[i];
            let x = point.x();
            let y = point.y();
            proof {
                reveal(Seq::filter);
                assert(all@.take(i + 1).drop_last() =~= all@.take(i as int));
                assert(all@.take(i + 1).last() == point);
            }
            if x % x_step == 0 && y_spacing != 0 && (y - min_y) % y_spacing == 0 {
                points.push(PixelPoint::create(x, y));
            }
            i = i + 1;
        }
        proof {
            assert(all@.take(all.len() as int) =~= all@);
            assert(shapes@.take(k + 1).drop_last() =~= shapes@.take(k as int));
            assert(shapes@.take(k + 1).last() == shapes@[k as int]);
        }
        k = k + 1;
    }
    proof {
        assert(shapes@.take(shapes.len() as int) =~= shapes@);
    }
    points
}

/// A uniformly random integer in `low .. high`, from `rand::random_range`
#[verifier::external_body]
fn random_range(low: usize, high: usize) -> (r: usize)
    requires
        low < high,
    ensures
        low <= r < high,
{
    rand::random_range(low..high)
}

/// A cell lies inside the bounding ranges of a shape, the ranges that a random draw covers
/// (they exclude the largest column and the largest row)
pub open spec fn in_sampling_box(s: DeformShape, p: PixelPoint) -> bool {
    &&& s.spec_min().0 <= p@.0 < s.spec_max().0
    &&& s.spec_min().1 <= p@.1 < s.spec_max().1
}

/// A cell that scattering may place in a shape: a cell of the shape inside its bounding ranges
pub open spec fn scatter_target(s: DeformShape, p: PixelPoint) -> bool {
    s.spec_all_points().contains(p) && in_sampling_box(s, p)
}

/// Scattering `n` points in a shape can succeed: no point is asked for, or some cell of the
/// shape lies inside its bounding ranges
pub open spec fn can_scatter(s: DeformShape, n: int) -> bool {
    n > 0 ==> exists|p: PixelPoint| #[trigger] scatter_target(s, p)
}

/// The points placed by scattering, shape by shape: `n` points for each shape, each one a cell
/// that scattering may place in that shape
pub open spec fn scattered(shapes: Seq<DeformShape>, pts: Seq<PixelPoint>, n: int) -> bool
    decreases shapes.len(),
{
    if shapes.len() == 0 {
        pts.len() == 0
    } else {
        &&& pts.len() >= n
        &&& forall|i: int|
            pts.len() - n <= i < pts.len() ==> scatter_target(shapes.last(), #[trigger] pts[i])
        &&& scattered(shapes.drop_last(), pts.take(pts.len() - n), n)
    }
}

/// Whether a cell occurs in a list of cells
fn contains_point(v: &Vec<PixelPoint>, p: PixelPoint) -> (r: bool)
    ensures
        r == v@.contains(p),
{
    let mut i: usize = 0;
    while i < v.len()
        invariant
            0 <= i <= v.len(),
            forall|j: int| 0 <= j < i ==> v@[j] != p,
        decreases v.len() - i,
    {
        if v[i] == p {
            return true;
        }
        i = i + 1;
    }
    false
}

/// The cells of `pts` inside the bounding ranges of `s`, each kept where it first occurs
pub open spec fn first_in_box(s: DeformShape, pts: Seq<PixelPoint>) -> Seq<PixelPoint>
    decreases pts.len(),
{
    if pts.len() == 0 {
        Seq::empty()
    } else {
        let prev = first_in_box(s, pts.drop_last());
        let p = pts.last();
        if in_sampling_box(s, p) && !prev.contains(p) {
            prev.push(p)
        } else {
            prev
        }
    }
}

/// The cells that scattering may place in a shape, each once, in the order in which they first
/// occur among the shape's points
pub fn scatter_candidates(shape: &DeformShape) -> (r: Vec<PixelPoint>)
    ensures
        r@ == first_in_box(*shape, shape.spec_all_points()),
        r@.no_duplicates(),
        forall|p: PixelPoint| #[trigger] r@.contains(p) <==> scatter_target(*shape, p),
{
    let all = shape.all_points();
    let xs = shape.x_range();
    let ys = shape.y_range();
    let mut r: Vec<PixelPoint> = Vec::new();
    let mut i: usize = 0;
    while i < all.len()
        invariant
            0 <= i <= all.len(),
            all@ == shape.spec_all_points(),
            xs.start == shape.spec_min().0,
            xs.end == shape.spec_max().0,
            ys.start == shape.spec_min().1,
            ys.end == shape.spec_max().1,
            r@.no_duplicates(),
            r@ == first_in_box(*shape, all@.take(i as int)),
            forall|p: PixelPoint|
                #[trigger] r@.contains(p) <==> (all@.take(i as int).contains(p) && in_sampling_box(
                    *shape,
                    p,
                )),
        decreases all.len() - i,
    {
        let p = all[i];
        proof {
            let t0 = all@.take(i as int);
            let t1 = all@.take(i + 1);
            assert(t1 =~= t0.push(p));
            assert(t1.drop_last() =~= t0);
            assert forall|q: PixelPoint| #[trigger] t1.contains(q) <==> (t0.contains(q) || q == p) by {
                if q == p {
                    assert(t1[i as int] == p);
                } else if t0.contains(q) {
                    let j = choose|j: int| 0 <= j < t0.len() && t0[j] == q;
                    assert(t1[j] == q);
                }
            }
        }
        if xs.start <= p.x() && p.x() < xs.end && ys.start <= p.y() && p.y() < ys.end
            && !contains_point(&r, p) {
            let ghost before = r@;
            r.push(p);
            proof {
                assert forall|q: PixelPoint| #[trigger] r@.contains(q) <==> (before.contains(q) || q
                    == p) by {
                    if q == p {
                        assert(r@[r@.len() - 1] == p);
                    } else if before.contains(q) {
                        let j = choose|j: int| 0 <= j < before.len() && before[j] == q;
                        assert(r@[j] == q);
                    }
                }
            }
        }
        i = i + 1;
    }
    proof {
        assert(all@.take(all.len() as int) =~= all@);
    }
    r
}

/// Spread `no_of_points` points over a shape, each one drawn uniformly at random among the
/// cells that scattering may place in it
pub fn spread_points(shape: &DeformShape, no_of_points: u32) -> (points: Vec<PixelPoint>)
    requires
        can_scatter(*shape, no_of_points as int),
    ensures
        points.len() == no_of_points,
        forall|i: int| 0 <= i < points.len() ==> scatter_target(*shape, #[trigger] points@[i]),
{
    let candidates = scatter_candidates(shape);
    let mut points: Vec<PixelPoint> = Vec::new();
    if no_of_points == 0 {
        return points;
    }
    proof {
        let p = choose|p: PixelPoint| #[trigger] scatter_target(*shape, p);
        assert(candidates@.contains(p));
    }
    let mut placed: u32 = 0;
    while placed < no_of_points
        invariant
            0 <= placed <= no_of_points,
            candidates.len() > 0,
            forall|p: PixelPoint| #[trigger] candidates@.contains(p) <==> scatter_target(*shape, p),
            points.len() == placed,
            forall|i: int| 0 <= i < points.len() ==> scatter_target(*shape, #[trigger] points@[i]),
        decreases no_of_points - placed,
    {
        //Draw one of the cells of the shape in its ranges
        let idx = random_range(0, candidates.len());
        let p = candidates[idx];
        proof {
            assert(candidates@.contains(p));
        }
        points.push(p);
        placed = placed + 1;
    }
    points
}

///Randomly spread `no_of_points` points within each shape, shape after shape
pub fn scattershot(shapes: &Vec<DeformShape>, no_of_points: u32) -> (points: Vec<PixelPoint>)
    requires
        forall|k: int| 0 <= k < shapes.len() ==> can_scatter(#[trigger] shapes@[k], no_of_points as int),
    ensures
        points.len() == shapes.len() * no_of_points,
        scattered(shapes@, points@, no_of_points as int),
{
    let mut points: Vec<PixelPoint> = Vec::new();
    let mut k: usize = 0;
    //For each shape
    while k < shapes.len()
        invariant
            0 <= k <= shapes.len(),
            forall|j: int| 0 <= j < shapes.len() ==> can_scatter(#[trigger] shapes@[j], no_of_points as int),
            points.len() == k * no_of_points,
            scattered(shapes@.take(k as int), points@, no_of_points as int),
        decreases shapes.len() - k,
    {
        let shape_pnts = spread_points(&shapes[k], no_of_points);
        let ghost before = points@;
        let mut i: usize = 0;
        while i < shape_pnts.len()
            invariant
                0 <= i <= shape_pnts.len(),
                points@ == before + shape_pnts@.take(i as int),
            decreases shape_pnts.len() - i,
        {
            points.push(shape_pnts[i]);
            proof {
                assert(shape_pnts@.take(i + 1) =~= shape_pnts@.take(i as int).push(shape_pnts@[i as int]));
            }
            i = i + 1;
        }
        proof {
            assert(shape_pnts@.take(shape_pnts.len() as int) =~= shape_pnts@);
            let n = no_of_points as int;
            let s1 = shapes@.take(k + 1);
            assert(s1.drop_last() =~= shapes@.take(k as int));
            assert(s1.last() == shapes@[k as int]);
            assert(points@.take(points@.len() - n) =~= before);
            assert(forall|i: int| points@.len() - n <= i < points@.len() ==> points@[i] == shape_pnts@[i - before.len()]);
            assert((k + 1) * n == k * n + n) by (nonlinear_arith);
        }
        k = k + 1;
    }
    proof {
        assert(shapes@.take(shapes.len() as int) =~= shapes@);
    }
    points
}

/// The squared distance between two cells
pub open spec fn dist_sq(a: (int, int), b: (int, int)) -> int {
    (a.0 - b.0) * (a.0 - b.0) + (a.1 - b.1) * (a.1 - b.1)
}

/// Points at a distance of 99999 or more are never assigned by distance
pub open spec fn far_sq() -> int {
    99999int * 99999int
}

/// The index of the focus nearest to `p` among the first `n` foci and its squared distance:
/// the first focus at the smallest distance below 99999, or index 0 when there is none
pub open spec fn nearest_scan(focii: Seq<PixelPoint>, p: (int, int), n: int) -> (int, int)
    decreases n,
{
    if n <= 0 {
        (0, far_sq())
    } else {
        let prev = nearest_scan(focii, p, n - 1);
        let d = dist_sq(p, focii[n - 1]@);
        if d < prev.1 {
            (n - 1, d)
        } else {
            prev
        }
    }
}

/// The index of the focus a point is assigned to
pub open spec fn nearest_focus(focii: Seq<PixelPoint>, p: (int, int)) -> int {
    nearest_scan(focii, p, focii.len() as int).0
}

/// The points assigned to each focus, each list in the order of `pts`
pub open spec fn voronoi_cells(focii: Seq<PixelPoint>, pts: Seq<PixelPoint>) -> Seq<Seq<PixelPoint>>
    decreases pts.len(),
{
    if pts.len() == 0 {
        Seq::new(focii.len(), |i: int| Seq::<PixelPoint>::empty())
    } else {
        let prev = voronoi_cells(focii, pts.drop_last());
        let i = nearest_focus(focii, pts.last()@);
        prev.update(i, prev[i].push(pts.last()))
    }
}

proof fn lemma_nearest_scan_bounds(focii: Seq<PixelPoint>, p: (int, int), n: int)
    requires
        0 <= n <= focii.len(),
    ensures
        0 <= nearest_scan(focii, p, n).0 < (if n == 0 {
            1
        } else {
            n
        }),
        0 <= nearest_scan(focii, p, n).1 <= far_sq(),
    decreases n,
{
    if n > 0 {
        lemma_nearest_scan_bounds(focii, p, n - 1);
        assert(dist_sq(p, focii[n - 1]@) >= 0) by (nonlinear_arith);
    }
}

proof fn lemma_voronoi_cells_len(focii: Seq<PixelPoint>, pts: Seq<PixelPoint>)
    requires
        focii.len() > 0,
    ensures
        voronoi_cells(focii, pts).len() == focii.len(),
    decreases pts.len(),
{
    if pts.len() > 0 {
        lemma_voronoi_cells_len(focii, pts.drop_last());
        lemma_nearest_scan_bounds(focii, pts.last()@, focii.len() as int);
    }
}

/// The scan over the first `n` foci ends at a smallest distance below 99999, held by the first
/// focus at that distance, or at no focus closer than that
proof fn lemma_nearest_scan_min(focii: Seq<PixelPoint>, p: (int, int), n: int)
    requires
        0 <= n <= focii.len(),
    ensures
        ({
            let (idx, d) = nearest_scan(focii, p, n);
            &&& d <= far_sq()
            &&& d < far_sq() ==> 0 <= idx < n && d == dist_sq(p, focii[idx]@)
            &&& d == far_sq() ==> idx == 0
            &&& forall|f: int| 0 <= f < n ==> d <= #[trigger] dist_sq(p, focii[f]@)
            &&& d < far_sq() ==> forall|f: int| 0 <= f < idx ==> d < #[trigger] dist_sq(p, focii[f]@)
        }),
    decreases n,
{
    if n > 0 {
        lemma_nearest_scan_min(focii, p, n - 1);
    }
}

/// A point is assigned to the nearest focus: no focus is nearer, and every focus before it is
/// farther. Only foci nearer than 99999 count: where there is none, the point goes to the first
/// focus.
pub proof fn lemma_nearest_focus(focii: Seq<PixelPoint>, p: (int, int))
    requires
        focii.len() > 0,
    ensures
        0 <= nearest_focus(focii, p) < focii.len(),
        forall|f: int|
            0 <= f < focii.len() && dist_sq(p, focii[f]@) < far_sq() ==> dist_sq(
                p,
                focii[nearest_focus(focii, p)]@,
            ) <= #[trigger] dist_sq(p, focii[f]@),
        forall|f: int|
            0 <= f < nearest_focus(focii, p) ==> dist_sq(p, focii[nearest_focus(focii, p)]@)
                < #[trigger] dist_sq(p, focii[f]@),
        (forall|f: int| 0 <= f < focii.len() ==> #[trigger] dist_sq(p, focii[f]@) >= far_sq())
            ==> nearest_focus(focii, p) == 0,
{
    let n = focii.len() as int;
    lemma_nearest_scan_min(focii, p, n);
    lemma_nearest_scan_bounds(focii, p, n);
    let (idx, d) = nearest_scan(focii, p, n);
    if d == far_sq() {
        assert(idx == 0);
    } else {
        assert(d == dist_sq(p, focii[idx]@));
    }
}

/// The cell of each focus holds exactly the points assigned to that focus, in the order in which
/// they come: the cells split the points among the foci
pub proof fn lemma_voronoi_cells_split(focii: Seq<PixelPoint>, pts: Seq<PixelPoint>)
    requires
        focii.len() > 0,
    ensures
        voronoi_cells(focii, pts).len() == focii.len(),
        forall|i: int|
            0 <= i < focii.len() ==> #[trigger] voronoi_cells(focii, pts)[i] == pts.filter(
                |q: PixelPoint| nearest_focus(focii, q@) == i,
            ),
    decreases pts.len(),
{
    lemma_voronoi_cells_len(focii, pts);
    if pts.len() > 0 {
        let prev = voronoi_cells(focii, pts.drop_last());
        lemma_voronoi_cells_split(focii, pts.drop_last());
        lemma_nearest_scan_bounds(focii, pts.last()@, focii.len() as int);
        assert forall|i: int| 0 <= i < focii.len() implies #[trigger] voronoi_cells(focii, pts)[i]
            == pts.filter(|q: PixelPoint| nearest_focus(focii, q@) == i) by {
            let pred = |q: PixelPoint| nearest_focus(focii, q@) == i;
            reveal(Seq::filter);
            assert(prev[i] == pts.drop_last().filter(pred));
            assert(pts.filter(pred) == (if pred(pts.last()) {
                pts.drop_last().filter(pred).push(pts.last())
            } else {
                pts.drop_last().filter(pred)
            }));
        }
    }
}

///Voronoi cell structure
struct VoronoiCell {
    ///The focus point of the cell
    focus: PixelPoint,
    ///The set of points that exist that are closest to this cell
    closest: Vec<PixelPoint>,
}

impl VoronoiCell {
    fn from(val: &PixelPoint) -> (r: Self)
        ensures
            r.focus == *val,
            r.closest@ == Seq::<PixelPoint>::empty(),
    {
        VoronoiCell { focus: *val, closest: Vec::new() }
    }

    fn get_closest(self) -> (r: Vec<PixelPoint>)
        ensures
            r@ == self.closest@,
    {
        self.closest
    }

    fn focus(&self) -> (r: PixelPoint)
        ensures
            r == self.focus,
    {
        self.focus
    }

    fn add_point(&mut self, pnt: PixelPoint)
        ensures
            final(self).focus == old(self).focus,
            final(self).closest@ == old(self).closest@.push(pnt),
    {
        self.closest.push(pnt)
    }
}

/// The index of the focus nearest to `p` (see `nearest_focus`)
fn nearest_index(focii: &Vec<PixelPoint>, p: PixelPoint) -> (r: usize)
    ensures
        r == nearest_focus(focii@, p@),
{
    let mut cell_index: usize = 0;
    let mut dist: u64 = 99999 * 99999;
    let mut i: usize = 0;
    //Find out which point it is closest to
    while i < focii.len()
        invariant
            0 <= i <= focii.len(),
            (cell_index as int, dist as int) == nearest_scan(focii@, p@, i as int),
        decreases focii.len() - i,
    {
        proof {
            lemma_nearest_scan_bounds(focii@, p@, i as int);
        }
        let f = focii[i];
        let dx: usize = if p.x() >= f.x() {
            p.x() - f.x()
        } else {
            f.x() - p.x()
        };
        let dy: usize = if p.y() >= f.y() {
            p.y() - f.y()
        } else {
            f.y() - p.y()
        };
        if dx < 99999 && dy < 99999 {
            let dx64 = dx as u64;
            let dy64 = dy as u64;
            assert(dx64 * dx64 < 99999 * 99999) by (nonlinear_arith)
                requires
                    dx64 < 99999,
            ;
            assert(dy64 * dy64 < 99999 * 99999) by (nonlinear_arith)
                requires
                    dy64 < 99999,
            ;
            let curr_dist = dx64 * dx64 + dy64 * dy64;
            proof {
                assert(dist_sq(p@, f@) == curr_dist) by (nonlinear_arith)
                    requires
                        dx == if p@.0 >= f@.0 {
                            p@.0 - f@.0
                        } else {
                            f@.0 - p@.0
                        },
                        dy == if p@.1 >= f@.1 {
                            p@.1 - f@.1
                        } else {
                            f@.1 - p@.1
                        },
                        dx64 == dx,
                        dy64 == dy,
                        curr_dist == dx64 * dx64 + dy64 * dy64,
                ;
            }
            if curr_dist < dist {
                cell_index = i;
                dist = curr_dist;
            }
        } else {
            proof {
                let a = p@.0 - f@.0;
                let b = p@.1 - f@.1;
                assert(a * a + b * b >= 99999 * 99999) by (nonlinear_arith)
                    requires
                        a >= 99999 || a <= -99999 || b >= 99999 || b <= -99999,
                ;
                assert(dist_sq(p@, f@) == a * a + b * b);
            }
        }
        i = i + 1;
    }
    cell_index
}

///Brute force voronoi cell identification: each point of the shape goes to its nearest focus
#[verifier::spinoff_prover]
fn lazy_voronoi_calc(focii: &Vec<PixelPoint>, shape: &DeformShape) -> (v_cells: Vec<VoronoiCell>)
    requires
        focii@.len() > 0,
    ensures
        v_cells@.len() == focii@.len(),
        forall|i: int|
            0 <= i < v_cells@.len() ==> (#[trigger] v_cells@[i]).focus == focii@[i]
                && v_cells@[i].closest@ == voronoi_cells(focii@, shape.spec_all_points())[i],
{
    let mut v_cells: Vec<VoronoiCell> = Vec::new();
    let mut k: usize = 0;
    //Create the cells from the focuses
    while k < focii.len()
        invariant
            0 <= k <= focii.len(),
            v_cells@.len() == k,
            forall|i: int|
                0 <= i < k ==> #[trigger] v_cells@[i].focus == focii@[i] && v_cells@[i].closest@
                    == Seq::<PixelPoint>::empty(),
        decreases focii.len() - k,
    {
        v_cells.push(VoronoiCell::from(&focii[k]));
        k = k + 1;
    }
    let all = shape.all_points();
    proof {
        assert(all@.take(0) =~= Seq::<PixelPoint>::empty());
        lemma_voronoi_cells_len(focii@, all@.take(0));
        assert forall|i: int| 0 <= i < v_cells@.len() implies #[trigger] v_cells@[i].focus == focii@[i]
            && v_cells@[i].closest@ == voronoi_cells(focii@, all@.take(0))[i] by {
            assert(v_cells@[i].focus == focii@[i]);
            assert(v_cells@[i].closest@ == Seq::<PixelPoint>::empty());
            assert(voronoi_cells(focii@, all@.take(0)) == Seq::new(focii@.len(), |i: int| Seq::<PixelPoint>::empty()));
        }
    }
    let mut j: usize = 0;
    //Go through every single point in the shape
    while j < all.len()
        invariant
            0 <= j <= all.len(),
            focii@.len() > 0,
            all@ == shape.spec_all_points(),
            v_cells@.len() == focii@.len(),
            voronoi_cells(focii@, all@.take(j as int)).len() == focii@.len(),
            forall|i: int|
                0 <= i < v_cells@.len() ==> #[trigger] v_cells@[i].focus == focii@[i]
                    && v_cells@[i].closest@ =~= voronoi_cells(focii@, all@.take(j as int))[i],
        decreases all.len() - j,
    {
        let curr_pnt = PixelPoint::create(all[j].x(), all[j].y());
        let cell_index = nearest_index(focii, curr_pnt);
        proof {
            lemma_nearest_scan_bounds(focii@, curr_pnt@, focii@.len() as int);
            lemma_voronoi_cells_len(focii@, all@.take(j as int));
            assert(all@.take(j + 1).drop_last() =~= all@.take(j as int));
            assert(all@.take(j + 1).last() == curr_pnt);
        }
        let ghost before = v_cells@;
        let ghost prev = voronoi_cells(focii@, all@.take(j as int));
        //Add the point to the current home cell
        v_cells[cell_index].add_point(curr_pnt);
        proof {
            assert(voronoi_cells(focii@, all@.take(j + 1)) == prev.update(cell_index as int, prev[cell_index as int].push(curr_pnt)));
            lemma_voronoi_cells_len(focii@, all@.take(j + 1));
        }
        j = j + 1;
        proof {
            let next = voronoi_cells(focii@, all@.take(j as int));
            assert(next == prev.update(cell_index as int, prev[cell_index as int].push(curr_pnt)));
            assert forall|i: int| 0 <= i < v_cells@.len() implies #[trigger] v_cells@[i].focus == focii@[i]
                && v_cells@[i].closest@ =~= next[i] by {
                if i != cell_index {
                    assert(v_cells@[i] == before[i]);
                    assert(before[i].focus == focii@[i]);
                    assert(before[i].closest@ =~= prev[i]);
                } else {
                    assert(before[i].focus == focii@[i]);
                    assert(before[i].closest@ =~= prev[i]);
                    assert(v_cells@[i].closest@ == before[i].closest@.push(curr_pnt));
                }
            }
        }
    }
    proof {
        assert(all@.take(all.len() as int) =~= all@);
        assert forall|i: int| 0 <= i < v_cells@.len() implies (#[trigger] v_cells@[i]).focus
            == focii@[i] && v_cells@[i].closest@ == voronoi_cells(focii@, shape.spec_all_points())[i] by {
            assert(v_cells@[i].focus == focii@[i]);
            assert(v_cells@[i].closest@ =~= voronoi_cells(focii@, all@.take(all.len() as int))[i]);
        }
    }
    v_cells
}

/// Sum of the columns of a list of points
pub open spec fn sum_x(s: Seq<PixelPoint>) -> int
    decreases s.len(),
{
    if s.len() == 0 {
        0
    } else {
        sum_x(s.drop_last()) + s.last()@.0
    }
}

/// Sum of the rows of a list of points
pub open spec fn sum_y(s: Seq<PixelPoint>) -> int
    decreases s.len(),
{
    if s.len() == 0 {
        0
    } else {
        sum_y(s.drop_last()) + s.last()@.1
    }
}

/// The mean cell of a non-empty list of points, rounded down
pub open spec fn centroid(s: Seq<PixelPoint>) -> (int, int) {
    (sum_x(s) / (s.len() as int), sum_y(s) / (s.len() as int))
}

/// The centroid of a list of points can be computed: the list is not empty and the sums of
/// its columns and rows fit in a machine integer
pub open spec fn centroid_defined(s: Seq<PixelPoint>) -> bool {
    &&& s.len() > 0
    &&& sum_x(s) <= usize::MAX
    &&& sum_y(s) <= usize::MAX
}

proof fn lemma_sums_grow(s: Seq<PixelPoint>, i: int)
    requires
        0 <= i <= s.len(),
    ensures
        0 <= sum_x(s.take(i)) <= sum_x(s),
        0 <= sum_y(s.take(i)) <= sum_y(s),
    decreases s.len(),
{
    if i < s.len() {
        lemma_sums_grow(s.drop_last(), i);
        assert(s.drop_last().take(i) =~= s.take(i));
    } else {
        assert(s.take(i) =~= s);
    }
    if s.len() > 0 {
        lemma_sums_nonneg(s.drop_last());
    }
    lemma_sums_nonneg(s.take(i));
}

proof fn lemma_sums_nonneg(s: Seq<PixelPoint>)
    ensures
        sum_x(s) >= 0,
        sum_y(s) >= 0,
    decreases s.len(),
{
    if s.len() > 0 {
        lemma_sums_nonneg(s.drop_last());
    }
}

///Calculate centroids as the mean location of all points
fn calc_centroids(cell_points: Vec<VoronoiCell>) -> (new_centroids: Vec<PixelPoint>)
    requires
        forall|i: int| 0 <= i < cell_points@.len() ==> centroid_defined(#[trigger] cell_points@[i].closest@),
    ensures
        new_centroids@.len() == cell_points@.len(),
        forall|i: int|
            0 <= i < cell_points@.len() ==> (#[trigger] new_centroids@[i])@ == centroid(
                cell_points@[i].closest@,
            ),
{
    let mut new_centroids: Vec<PixelPoint> = Vec::new();
    let ghost cells = cell_points@;
    let mut cell_points = cell_points;
    let mut k: usize = 0;
    let n = cell_points.len();
    while k < n
        invariant
            0 <= k <= n,
            n == cells.len(),
            cell_points@ == cells.skip(k as int),
            forall|i: int| 0 <= i < cells.len() ==> centroid_defined(#[trigger] cells[i].closest@),
            new_centroids@.len() == k,
            forall|i: int| 0 <= i < k ==> (#[trigger] new_centroids@[i])@ == centroid(cells[i].closest@),
        decreases n - k,
    {
        let cell = cell_points.remove(0);
        proof {
            assert(cell == cells[k as int]);
            assert(cell_points@ =~= cells.skip(k + 1));
        }
        let closest = cell.get_closest();
        let mut x: usize = 0;
        let mut y: usize = 0;
        let mut no_of_points: usize = 0;
        while no_of_points < closest.len()
            invariant
                0 <= no_of_points <= closest.len(),
                centroid_defined(closest@),
                x == sum_x(closest@.take(no_of_points as int)),
                y == sum_y(closest@.take(no_of_points as int)),
            decreases closest.len() - no_of_points,
        {
            proof {
                assert(closest@.take(no_of_points + 1).drop_last() =~= closest@.take(no_of_points as int));
                lemma_sums_grow(closest@, no_of_points + 1);
            }
            x = x + closest[no_of_points].x();
            y = y + closest[no_of_points].y();
            no_of_points = no_of_points + 1;
        }
        proof {
            assert(closest@.take(no_of_points as int) =~= closest@);
        }
        new_centroids.push(PixelPoint::create(x / no_of_points, y / no_of_points));
        k = k + 1;
    }
    new_centroids
}

/// Where the step is defined, the centroids of the cells that the points of the shape form
/// around the foci. A step is not defined when there are points but no foci, or when a cell
/// has no point or sums past the machine integers.
pub open spec fn spec_voronoi_step(focii: Seq<PixelPoint>, pts: Seq<PixelPoint>) -> Option<Seq<(int, int)>> {
    if focii.len() == 0 {
        if pts.len() == 0 {
            Some(Seq::empty())
        } else {
            None
        }
    } else {
        let cells = voronoi_cells(focii, pts);
        if forall|i: int| 0 <= i < cells.len() ==> centroid_defined(#[trigger] cells[i]) {
            Some(cells.map_values(|c: Seq<PixelPoint>| centroid(c)))
        } else {
            None
        }
    }
}

/// A cell lies inside the box with corners `lo` and `hi`
pub open spec fn in_box(p: (int, int), lo: (int, int), hi: (int, int)) -> bool {
    lo.0 <= p.0 <= hi.0 && lo.1 <= p.1 <= hi.1
}

proof fn lemma_cells_in_box(focii: Seq<PixelPoint>, pts: Seq<PixelPoint>, lo: (int, int), hi: (int, int))
    requires
        focii.len() > 0,
        forall|k: int| 0 <= k < pts.len() ==> in_box(#[trigger] pts[k]@, lo, hi),
    ensures
        forall|i: int, j: int|
            0 <= i < focii.len() && 0 <= j < voronoi_cells(focii, pts)[i].len() ==> in_box(
                #[trigger] voronoi_cells(focii, pts)[i][j]@,
                lo,
                hi,
            ),
    decreases pts.len(),
{
    lemma_voronoi_cells_len(focii, pts);
    if pts.len() > 0 {
        let prev = voronoi_cells(focii, pts.drop_last());
        lemma_cells_in_box(focii, pts.drop_last(), lo, hi);
        lemma_nearest_scan_bounds(focii, pts.last()@, focii.len() as int);
        lemma_voronoi_cells_len(focii, pts.drop_last());
        let n = nearest_focus(focii, pts.last()@);
        assert(in_box(pts[pts.len() - 1]@, lo, hi));
        assert forall|i: int, j: int|
            0 <= i < focii.len() && 0 <= j < voronoi_cells(focii, pts)[i].len() implies in_box(
            #[trigger] voronoi_cells(focii, pts)[i][j]@,
            lo,
            hi,
        ) by {
            if i == n && j == prev[i].len() {
                assert(voronoi_cells(focii, pts)[i][j] == pts.last());
            } else {
                assert(voronoi_cells(focii, pts)[i][j] == prev[i][j]);
            }
        }
    }
}

proof fn lemma_sums_in_box(s: Seq<PixelPoint>, lo: (int, int), hi: (int, int))
    requires
        forall|k: int| 0 <= k < s.len() ==> in_box(#[trigger] s[k]@, lo, hi),
    ensures
        s.len() * lo.0 <= sum_x(s) <= s.len() * hi.0,
        s.len() * lo.1 <= sum_y(s) <= s.len() * hi.1,
    decreases s.len(),
{
    if s.len() > 0 {
        let t = s.drop_last();
        assert forall|k: int| 0 <= k < t.len() implies in_box(#[trigger] t[k]@, lo, hi) by {
            assert(t[k] == s[k]);
        }
        lemma_sums_in_box(t, lo, hi);
        assert(in_box(s[s.len() - 1]@, lo, hi));
        let n = s.len() as int;
        assert((n - 1) * lo.0 + lo.0 == n * lo.0) by (nonlinear_arith);
        assert((n - 1) * hi.0 + hi.0 == n * hi.0) by (nonlinear_arith);
        assert((n - 1) * lo.1 + lo.1 == n * lo.1) by (nonlinear_arith);
        assert((n - 1) * hi.1 + hi.1 == n * hi.1) by (nonlinear_arith);
    }
}

proof fn lemma_mean_in_range(sum: int, n: int, lo: int, hi: int)
    requires
        n > 0,
        n * lo <= sum <= n * hi,
    ensures
        lo <= sum / n <= hi,
{
    assert(lo <= sum / n) by (nonlinear_arith)
        requires
            n > 0,
            n * lo <= sum,
    ;
    assert(sum / n <= hi) by (nonlinear_arith)
        requires
            n > 0,
            sum <= n * hi,
    ;
}

/// A relaxation step keeps the points inside any box that holds every cell of the shape: each
/// new point is the mean of cells of the shape
pub proof fn lemma_voronoi_step_in_box(focii: Seq<PixelPoint>, pts: Seq<PixelPoint>, lo: (int, int), hi: (int, int))
    requires
        forall|k: int| 0 <= k < pts.len() ==> in_box(#[trigger] pts[k]@, lo, hi),
        spec_voronoi_step(focii, pts) is Some,
    ensures
        forall|i: int|
            0 <= i < spec_voronoi_step(focii, pts)->0.len() ==> in_box(
                #[trigger] spec_voronoi_step(focii, pts)->0[i],
                lo,
                hi,
            ),
{
    if focii.len() > 0 {
        let cells = voronoi_cells(focii, pts);
        lemma_voronoi_cells_len(focii, pts);
        lemma_cells_in_box(focii, pts, lo, hi);
        assert forall|i: int| 0 <= i < spec_voronoi_step(focii, pts)->0.len() implies in_box(
            #[trigger] spec_voronoi_step(focii, pts)->0[i],
            lo,
            hi,
        ) by {
            let c = cells[i];
            assert(centroid_defined(c));
            assert forall|k: int| 0 <= k < c.len() implies in_box(#[trigger] c[k]@, lo, hi) by {
                assert(in_box(voronoi_cells(focii, pts)[i][k]@, lo, hi));
            }
            lemma_sums_in_box(c, lo, hi);
            lemma_mean_in_range(sum_x(c), c.len() as int, lo.0, hi.0);
            lemma_mean_in_range(sum_y(c), c.len() as int, lo.1, hi.1);
            assert(spec_voronoi_step(focii, pts)->0[i] == centroid(c));
        }
    }
}

/// One step of the relaxation: the points are moved to the centroids of their voronoi cells.
/// `None` where the step is not defined.
pub fn voronoi_step(focii: &Vec<PixelPoint>, shape: &DeformShape) -> (r: Option<Vec<PixelPoint>>)
    ensures
        match spec_voronoi_step(focii@, shape.spec_all_points()) {
            Some(c) => r is Some && r->0@.map_values(|p: PixelPoint| p@) == c,
            None => r is None,
        },
{
    if focii.len() == 0 {
        let all = shape.all_points();
        if all.len() == 0 {
            let r: Vec<PixelPoint> = Vec::new();
            proof {
                assert(r@.map_values(|p: PixelPoint| p@) =~= Seq::<(int, int)>::empty());
            }
            return Some(r);
        } else {
            return None;
        }
    }
    //Generate the diagram from the points and get the point collections
    let cells = lazy_voronoi_calc(focii, shape);
    let ghost spec_cells = voronoi_cells(focii@, shape.spec_all_points());
    proof {
        lemma_voronoi_cells_len(focii@, shape.spec_all_points());
    }
    let mut k: usize = 0;
    while k < cells.len()
        invariant
            0 <= k <= cells.len(),
            focii@.len() > 0,
            spec_cells == voronoi_cells(focii@, shape.spec_all_points()),
            cells@.len() == spec_cells.len(),
            forall|i: int| 0 <= i < cells@.len() ==> (#[trigger] cells@[i]).closest@ == spec_cells[i],
            forall|i: int| 0 <= i < k ==> centroid_defined(#[trigger] spec_cells[i]),
        decreases cells.len() - k,
    {
        let closest = &cells[k].closest;
        proof {
            assert(closest@ == spec_cells[k as int]);
        }
        if closest.len() == 0 {
            proof {
                assert(!centroid_defined(spec_cells[k as int]));
            }
            return None;
        }
        let mut sx: usize = 0;
        let mut sy: usize = 0;
        let mut j: usize = 0;
        while j < closest.len()
            invariant
                0 <= j <= closest.len(),
                focii@.len() > 0,
                spec_cells == voronoi_cells(focii@, shape.spec_all_points()),
                0 <= k < spec_cells.len(),
                closest@ == spec_cells[k as int],
                sx == sum_x(closest@.take(j as int)),
                sy == sum_y(closest@.take(j as int)),
            decreases closest.len() - j,
        {
            proof {
                assert(closest@.take(j + 1).drop_last() =~= closest@.take(j as int));
                lemma_sums_nonneg(closest@.take(j as int));
            }
            let px = closest[j].x();
            let py = closest[j].y();
            if px > usize::MAX - sx || py > usize::MAX - sy {
                proof {
                    assert(closest@.take(j + 1).last() == closest@[j as int]);
                    assert(sum_x(closest@.take(j + 1)) == sx + px);
                    assert(sum_y(closest@.take(j + 1)) == sy + py);
                    lemma_sums_grow(closest@, j + 1);
                    assert(!centroid_defined(spec_cells[k as int]));
                }
                return None;
            }
            sx = sx + px;
            sy = sy + py;
            j = j + 1;
        }
        proof {
            assert(closest@.take(j as int) =~= closest@);
        }
        k = k + 1;
    }
    //Find the centroid from each cell
    let new_points = calc_centroids(cells);
    proof {
        assert(new_points@.map_values(|p: PixelPoint| p@) =~= spec_cells.map_values(
            |c: Seq<PixelPoint>| centroid(c),
        ));
    }
    Some(new_points)
}

/// `iterations` relaxation steps from the given points, where each step is defined
pub open spec fn spec_voronoi_relax(points: Seq<PixelPoint>, pts: Seq<PixelPoint>, iterations: nat) -> Option<Seq<(int, int)>>
    decreases iterations,
{
    if iterations == 0 {
        Some(points.map_values(|p: PixelPoint| p@))
    } else {
        match spec_voronoi_relax(points, pts, (iterations - 1) as nat) {
            Some(prev) => spec_voronoi_step(prev.map_values(|c: (int, int)| crate::trajectorygen::types::pixel_of(c.0, c.1)), pts),
            None => None,
        }
    }
}

/// Spread points evenly over a shape: the points are moved to the centroids of their voronoi
/// cells, `iterations` times (Lloyd's algorithm). `None` where a step is not defined.
pub fn voronoi_relax(points: Vec<PixelPoint>, shape: &DeformShape, iterations: u32) -> (r: Option<Vec<PixelPoint>>)
    ensures
        match spec_voronoi_relax(points@, shape.spec_all_points(), iterations as nat) {
            Some(c) => r is Some && r->0@.map_values(|p: PixelPoint| p@) == c,
            None => r is None,
        },
{
    broadcast use crate::trajectorygen::types::lemma_pixel_of_view;
    broadcast use crate::trajectorygen::types::lemma_pixel_of_roundtrip;

    let mut current = points;
    let ghost original = current@;
    proof {
        assert(current@.map_values(|p: PixelPoint| p@) =~= original.map_values(|p: PixelPoint| p@));
    }
    let mut i: u32 = 0;
    while i < iterations
        invariant
            0 <= i <= iterations,
            original == points@,
            spec_voronoi_relax(original, shape.spec_all_points(), i as nat) == Some(current@.map_values(|p: PixelPoint| p@)),
        decreases iterations - i,
    {
        let ghost back = current@.map_values(|p: PixelPoint| p@).map_values(|c: (int, int)| crate::trajectorygen::types::pixel_of(c.0, c.1));
        proof {
            assert forall|k: int| 0 <= k < current@.len() implies back[k] == current@[k] by {
                assert(back[k] == crate::trajectorygen::types::pixel_of(current@[k]@.0, current@[k]@.1));
                crate::trajectorygen::types::lemma_pixel_of_roundtrip(current@[k]);
            }
            assert(back =~= current@);
            assert(spec_voronoi_relax(original, shape.spec_all_points(), (i + 1) as nat) == spec_voronoi_step(back, shape.spec_all_points()));
        }
        match voronoi_step(&current, shape) {
            Some(new_points) => {
                current = new_points;
            },
            None => {
                proof {
                    lemma_relax_stays_none(original, shape.spec_all_points(), (i + 1) as nat, iterations as nat);
                }
                return None;
            },
        }
        i = i + 1;
    }
    Some(current)
}

/// `init` is a possible random spread of `n` points over a shape: `n` cells that scattering
/// may place in it
pub open spec fn initial_spread(s: DeformShape, init: Seq<PixelPoint>, n: int) -> bool {
    &&& init.len() == n
    &&& forall|i: int| 0 <= i < init.len() ==> scatter_target(s, #[trigger] init[i])
}

///For a given shape, generate an approximate equal spread of points: `pnts_per_shape` points
///are spread at random, then moved to the centroids of their voronoi cells `iterations` times.
///`None` where a relaxation step is not defined.
pub fn voronoi_gen(iterations: u32, pnts_per_shape: u32, shape: &DeformShape) -> (r: Option<
    Vec<PixelPoint>,
>)
    requires
        can_scatter(*shape, pnts_per_shape as int),
    ensures
        exists|init: Seq<PixelPoint>|
            #[trigger] initial_spread(*shape, init, pnts_per_shape as int) && match spec_voronoi_relax(
                init,
                shape.spec_all_points(),
                iterations as nat,
            ) {
                Some(c) => r is Some && r->0@.map_values(|p: PixelPoint| p@) == c,
                None => r is None,
            },
{
    //Generate the initial random points within the shape
    let points = spread_points(shape, pnts_per_shape);
    let ghost init = points@;
    let r = voronoi_relax(points, shape, iterations);
    proof {
        assert(initial_spread(*shape, init, pnts_per_shape as int));
    }
    r
}

/// Once a relaxation step is not defined, no later one is
pub proof fn lemma_relax_stays_none(points: Seq<PixelPoint>, pts: Seq<PixelPoint>, i: nat, n: nat)
    requires
        i <= n,
        spec_voronoi_relax(points, pts, i) is None,
    ensures
        spec_voronoi_relax(points, pts, n) is None,
    decreases n - i,
{
    if i < n {
        lemma_relax_stays_none(points, pts, i + 1, n);
    }
}

} // verus!
