//! Pixel points, shape edges and deformation shapes used in trajectory generation
use vstd::prelude::*;
use std::collections::BTreeMap;
use std::ops::{Add, Div, Range};
use vstd::std_specs::ops::{AddSpecImpl, DivSpecImpl};

verus! {

/// A point which describes a cell location
#[derive(Debug, Clone, Copy, PartialEq, Eq, Structural)]
pub struct PixelPoint {
    x: usize,
    y: usize,
}

impl View for PixelPoint {
    type V = (int, int);

    closed spec fn view(&self) -> (int, int) {
        (self.x as int, self.y as int)
    }
}

/// The (x, y) cell of a point as a pair of machine integers.
pub open spec fn xy_of(p: PixelPoint) -> (usize, usize) {
    (p@.0 as usize, p@.1 as usize)
}

/// Two points are the same point exactly when they describe the same cell.
pub broadcast proof fn lemma_pixel_view_eq(a: PixelPoint, b: PixelPoint)
    ensures
        #[trigger] (a@) == #[trigger] (b@) <==> a == b,
{
}

/// A point always describes a cell with machine-sized coordinates.
pub broadcast proof fn lemma_pixel_view_bounds(p: PixelPoint)
    ensures
        0 <= (#[trigger] p@).0 <= usize::MAX,
        0 <= p@.1 <= usize::MAX,
{
}

pub broadcast group group_pixel_point {
    lemma_pixel_view_eq,
    lemma_pixel_view_bounds,
}

impl Default for PixelPoint {
    fn default() -> (r: Self)
        ensures
            r@ == (0int, 0int),
    {
        PixelPoint { x: 0, y: 0 }
    }
}

impl PixelPoint {
    /// Create a point
    pub fn create(x: usize, y: usize) -> (r: Self)
        ensures
            r@ == (x as int, y as int),
    {
        PixelPoint { x, y }
    }

    /// Move the point along the x axis
    pub fn add_x(&mut self, x: usize)
        requires
            old(self)@.0 + x <= usize::MAX,
        ensures
            final(self)@ == (old(self)@.0 + x, old(self)@.1),
    {
        self.x = self.x + x
    }

    /// Offset the point by `y` (the offset is applied to the x coordinate)
    pub fn add_y(&mut self, y: usize)
        requires
            old(self)@.0 + y <= usize::MAX,
        ensures
            final(self)@ == (old(self)@.0 + y, old(self)@.1),
    {
        self.x = self.x + y
    }

    pub fn as_xy(&self) -> (r: (usize, usize))
        ensures
            r == xy_of(*self),
    {
        (self.x, self.y)
    }

    pub fn x(&self) -> (r: usize)
        ensures
            r == self@.0,
    {
        self.x
    }

    pub fn y(&self) -> (r: usize)
        ensures
            r == self@.1,
    {
        self.y
    }

    /// Take a set of points and turn them into a tuple vector
    /// For compatibility with heightmaps
    pub fn destruct_vec_copy(pnts: &Vec<Vec<PixelPoint>>) -> (r: Vec<(usize, usize)>)
        ensures
            r@ == flat_xy(pnts@.map_values(|v: Vec<PixelPoint>| v@)),
    {
        let mut destruct_vec: Vec<(usize, usize)> = Vec::new();
        let ghost outer = pnts@.map_values(|v: Vec<PixelPoint>| v@);
        let mut i: usize = 0;
        while i < pnts.len()
            invariant
                0 <= i <= pnts.len(),
                outer == pnts@.map_values(|v: Vec<PixelPoint>| v@),
                destruct_vec@ == flat_xy(outer.take(i as int)),
            decreases pnts.len() - i,
        {
            let shape = &pnts[i];
            let ghost before = destruct_vec@;
            let mut j: usize = 0;
            while j < shape.len()
                invariant
                    0 <= j <= shape.len(),
                    destruct_vec@ == before + shape@.take(j as int).map_values(|p: PixelPoint| xy_of(p)),
                decreases shape.len() - j,
            {
                destruct_vec.push((shape[j].x(), shape[j].y()));
                proof {
                    assert(shape@.take(j + 1).map_values(|p: PixelPoint| xy_of(p)) =~= shape@.take(
                        j as int,
                    ).map_values(|p: PixelPoint| xy_of(p)).push(xy_of(shape@[j as int])));
                }
                j = j + 1;
            }
            proof {
                assert(shape@.take(j as int) =~= shape@);
                assert(outer.take(i + 1).drop_last() =~= outer.take(i as int));
                assert(outer.take(i + 1).last() == shape@);
            }
            i = i + 1;
        }
        proof {
            assert(outer.take(pnts.len() as int) =~= outer);
        }
        destruct_vec
    }
}

/// All cells of a list of point lists, in order, as machine integer pairs.
pub open spec fn flat_xy(s: Seq<Seq<PixelPoint>>) -> Seq<(usize, usize)>
    decreases s.len(),
{
    if s.len() == 0 {
        seq![]
    } else {
        flat_xy(s.drop_last()) + s.last().map_values(|p: PixelPoint| xy_of(p))
    }
}

impl Add for PixelPoint {
    type Output = Self;

    fn add(self, other: Self) -> (r: Self) {
        PixelPoint { x: self.x + other.x, y: self.y + other.y }
    }
}

impl AddSpecImpl for PixelPoint {
    open spec fn obeys_add_spec() -> bool {
        true
    }

    open spec fn add_req(self, rhs: Self) -> bool {
        self@.0 + rhs@.0 <= usize::MAX && self@.1 + rhs@.1 <= usize::MAX
    }

    open spec fn add_spec(self, rhs: Self) -> Self {
        pixel_of(self@.0 + rhs@.0, self@.1 + rhs@.1)
    }
}

impl Div<usize> for PixelPoint {
    type Output = Self;

    /// Divide the points by a scalar factor
    fn div(self, rhs: usize) -> (r: Self) {
        PixelPoint { x: self.x / rhs, y: self.y / rhs }
    }
}

impl DivSpecImpl<usize> for PixelPoint {
    open spec fn obeys_div_spec() -> bool {
        true
    }

    open spec fn div_req(self, rhs: usize) -> bool {
        rhs != 0
    }

    open spec fn div_spec(self, rhs: usize) -> Self {
        pixel_of(self@.0 / (rhs as int), self@.1 / (rhs as int))
    }
}

/// The point whose cell is (x, y).
pub closed spec fn pixel_of(x: int, y: int) -> PixelPoint {
    PixelPoint { x: x as usize, y: y as usize }
}

/// The point built from machine-sized coordinates describes exactly those coordinates.
pub broadcast proof fn lemma_pixel_of_view(x: int, y: int)
    requires
        0 <= x <= usize::MAX,
        0 <= y <= usize::MAX,
    ensures
        (#[trigger] pixel_of(x, y))@ == (x, y),
{
}

/// A point is the point of its own cell.
pub broadcast proof fn lemma_pixel_of_roundtrip(p: PixelPoint)
    ensures
        #[trigger] pixel_of(p@.0, p@.1) == p,
{
}

/// Indicates a direction from a cell (where north is up)
#[derive(Debug, Clone, Copy, PartialEq, Eq, Structural)]
pub enum Direction {
    NORTH,
    EAST,
    SOUTH,
    WEST,
    NORTHWEST,
    NORTHEAST,
    SOUTHEAST,
    SOUTHWEST,
}

/// An edge which describes the cell and the direction(s) of the edge
#[derive(Debug, Clone)]
pub struct ShapeEdge {
    point: PixelPoint,
    dir: Vec<Direction>,
}

impl ShapeEdge {
    /// The cell of the edge
    pub closed spec fn spec_point(self) -> (int, int) {
        self.point@
    }

    /// The edge directions
    pub closed spec fn spec_dirs(self) -> Seq<Direction> {
        self.dir@
    }

    /// Create an edge object
    pub fn create(x: usize, y: usize, dir: Vec<Direction>) -> (r: Self)
        ensures
            r.spec_point() == (x as int, y as int),
            r.spec_dirs() == dir@,
    {
        ShapeEdge { point: PixelPoint::create(x, y), dir }
    }

    pub fn new(x: &usize, y: &usize, dir: Vec<Direction>) -> (r: Self)
        ensures
            r.spec_point() == (*x as int, *y as int),
            r.spec_dirs() == dir@,
    {
        ShapeEdge { point: PixelPoint::create(*x, *y), dir }
    }

    /// Get the position of the edge
    pub fn point(&self) -> (r: PixelPoint)
        ensures
            r@ == self.spec_point(),
    {
        self.point
    }

    /// Return the edge directions
    pub fn dir(&self) -> (r: Vec<Direction>)
        ensures
            r@ == self.spec_dirs(),
    {
        let r = self.dir.clone();
        proof {
            assert(r@ =~= self.dir@);
        }
        r
    }

    pub fn pos(&self) -> (r: (usize, usize))
        ensures
            r.0 == self.spec_point().0,
            r.1 == self.spec_point().1,
    {
        self.point.as_xy()
    }

    pub fn x(&self) -> (r: usize)
        ensures
            r == self.spec_point().0,
    {
        self.point.x()
    }

    pub fn y(&self) -> (r: usize)
        ensures
            r == self.spec_point().1,
    {
        self.point.y()
    }

    /// Check to see if a pixel point exists as an edge in a shape
    pub fn in_edge_list(edges: &Vec<ShapeEdge>, point: &PixelPoint) -> (r: bool)
        ensures
            r == exists|i: int| 0 <= i < edges@.len() && #[trigger] edges@[i].spec_point() == point@,
    {
        let mut i: usize = 0;
        while i < edges.len()
            invariant
                0 <= i <= edges.len(),
                forall|k: int| 0 <= k < i ==> #[trigger] edges@[k].spec_point() != point@,
            decreases edges.len() - i,
        {
            if edges[i].point() == *point {
                return true;
            }
            i = i + 1;
        }
        false
    }
}

/// The map from cell to edge directions that a list of edges describes; a later edge
/// on the same cell replaces an earlier one.
pub open spec fn edge_map(edges: Seq<ShapeEdge>) -> Map<(usize, usize), Seq<Direction>>
    decreases edges.len(),
{
    if edges.len() == 0 {
        Map::empty()
    } else {
        let e = edges.last();
        edge_map(edges.drop_last()).insert(
            (e.spec_point().0 as usize, e.spec_point().1 as usize),
            e.spec_dirs(),
        )
    }
}

/// Pairs of machine integers are totally ordered, as a map key needs.
proof fn lemma_pair_key_ordered()
    ensures
        vstd::laws_cmp::obeys_cmp::<(usize, usize)>(),
{
    broadcast use vstd::laws_cmp::group_laws_cmp;

}

/// Turn a list of edges into a searchable map
pub fn edge_vector_to_hash(edges: &Vec<ShapeEdge>) -> (r: BTreeMap<(usize, usize), Vec<Direction>>)
    ensures
        r@.dom() == edge_map(edges@).dom(),
        forall|k: (usize, usize)| #[trigger]
            r@.contains_key(k) ==> r@[k]@ == edge_map(edges@)[k],
{
    proof {
        lemma_pair_key_ordered();
    }
    let mut edge_hashmap: BTreeMap<(usize, usize), Vec<Direction>> = BTreeMap::new();
    let mut i: usize = 0;
    while i < edges.len()
        invariant
            0 <= i <= edges.len(),
            edge_hashmap@.dom() == edge_map(edges@.take(i as int)).dom(),
            forall|k: (usize, usize)| #[trigger]
                edge_hashmap@.contains_key(k) ==> edge_hashmap@[k]@ == edge_map(
                    edges@.take(i as int),
                )[k],
        decreases edges.len() - i,
    {
        let edge = &edges[i];
        let d = edge.dir();
        edge_hashmap.insert((edge.x(), edge.y()), d);
        proof {
            assert(edges@.take(i + 1).drop_last() =~= edges@.take(i as int));
            assert(edges@.take(i + 1).last() == edges@[i as int]);
        }
        i = i + 1;
    }
    proof {
        assert(edges@.take(edges.len() as int) =~= edges@);
    }
    edge_hashmap
}

/// Largest value of a list, or 0 for an empty list
pub open spec fn seq_max(s: Seq<int>) -> int
    decreases s.len(),
{
    if s.len() == 0 {
        0
    } else {
        let m = seq_max(s.drop_last());
        if s.last() > m {
            s.last()
        } else {
            m
        }
    }
}

/// Smallest value of a list, or 1001 for an empty list
pub open spec fn seq_min(s: Seq<int>) -> int
    decreases s.len(),
{
    if s.len() == 0 {
        1001
    } else if s.len() == 1 {
        s[0]
    } else {
        let m = seq_min(s.drop_last());
        if s.last() < m {
            s.last()
        } else {
            m
        }
    }
}

/// The x coordinates of a list of edges
pub open spec fn edge_xs(edges: Seq<ShapeEdge>) -> Seq<int> {
    edges.map_values(|e: ShapeEdge| e.spec_point().0)
}

/// The y coordinates of a list of edges
pub open spec fn edge_ys(edges: Seq<ShapeEdge>) -> Seq<int> {
    edges.map_values(|e: ShapeEdge| e.spec_point().1)
}

/// Upper corner of the bounding box of a list of edges
pub open spec fn bounds_max(edges: Seq<ShapeEdge>) -> (int, int) {
    (seq_max(edge_xs(edges)), seq_max(edge_ys(edges)))
}

/// Lower corner of the bounding box of a list of edges
pub open spec fn bounds_min(edges: Seq<ShapeEdge>) -> (int, int) {
    (seq_min(edge_xs(edges)), seq_min(edge_ys(edges)))
}

/// Centre of the bounding box of a list of edges (halfway between min and max)
pub open spec fn bounds_centre(edges: Seq<ShapeEdge>) -> (int, int) {
    (
        (bounds_min(edges).0 + bounds_max(edges).0) / 2,
        (bounds_min(edges).1 + bounds_max(edges).1) / 2,
    )
}

/// A shape that consists of edges and a centre point
pub struct DeformShape {
    points: Vec<PixelPoint>,
    edges: Vec<ShapeEdge>,
    centre: PixelPoint,
    max: PixelPoint,
    min: PixelPoint,
}

impl Default for DeformShape {
    fn default() -> (r: Self)
        ensures
            r.spec_points() == Seq::<PixelPoint>::empty(),
            r.spec_edges() == Seq::<ShapeEdge>::empty(),
            r.spec_centre() == (0int, 0int),
            r.spec_max() == (0int, 0int),
            r.spec_min() == (0int, 0int),
    {
        DeformShape {
            points: Vec::new(),
            edges: Vec::new(),
            centre: PixelPoint::create(0, 0),
            max: PixelPoint::create(0, 0),
            min: PixelPoint::create(0, 0),
        }
    }
}

/// Index of the running maximum / minimum loop: one step of the bounding box fold.
proof fn lemma_bounds_step(s: Seq<int>, i: int)
    requires
        0 <= i < s.len(),
    ensures
        seq_max(s.take(i + 1)) == (if s[i] > seq_max(s.take(i)) {
            s[i]
        } else {
            seq_max(s.take(i))
        }),
        i > 0 ==> seq_min(s.take(i + 1)) == (if s[i] < seq_min(s.take(i)) {
            s[i]
        } else {
            seq_min(s.take(i))
        }),
        seq_min(s.take(1)) == s[0],
{
    assert(s.take(i + 1).drop_last() =~= s.take(i));
    assert(s.take(i + 1).last() == s[i]);
    assert(s.take(1).len() == 1);
}

/// The maximum of a list is at least every element and is 0 or one of them; the minimum of a
/// non-empty list is at most every element and is one of them.
pub proof fn lemma_seq_bounds(s: Seq<int>)
    ensures
        forall|i: int| 0 <= i < s.len() ==> #[trigger] s[i] <= seq_max(s),
        seq_max(s) == 0 || exists|i: int| 0 <= i < s.len() && s[i] == seq_max(s),
        forall|i: int| 0 <= i < s.len() ==> seq_min(s) <= #[trigger] s[i],
        s.len() > 0 ==> exists|i: int| 0 <= i < s.len() && s[i] == seq_min(s),
    decreases s.len(),
{
    if s.len() > 0 {
        let t = s.drop_last();
        lemma_seq_bounds(t);
        assert forall|i: int| 0 <= i < s.len() implies #[trigger] s[i] <= seq_max(s) by {
            if i < t.len() {
                assert(s[i] == t[i]);
            }
        }
        if seq_max(s) != 0 {
            if s.last() > seq_max(t) {
                assert(s[s.len() - 1] == seq_max(s));
            } else {
                let j = choose|j: int| 0 <= j < t.len() && t[j] == seq_max(t);
                assert(s[j] == seq_max(s));
            }
        }
        if s.len() == 1 {
            assert(s[0] == seq_min(s));
        } else {
            assert forall|i: int| 0 <= i < s.len() implies seq_min(s) <= #[trigger] s[i] by {
                if i < t.len() {
                    assert(s[i] == t[i]);
                }
            }
            if s.last() < seq_min(t) {
                assert(s[s.len() - 1] == seq_min(s));
            } else {
                let j = choose|j: int| 0 <= j < t.len() && t[j] == seq_min(t);
                assert(s[j] == seq_min(s));
            }
        }
    }
}

/// Every edge lies inside the bounding box of a non-empty list of edges, each side of the box
/// touches an edge, and the centre lies inside the box
pub proof fn lemma_shape_bounds(edges: Seq<ShapeEdge>)
    requires
        edges.len() > 0,
    ensures
        forall|i: int|
            0 <= i < edges.len() ==> bounds_min(edges).0 <= (#[trigger] edges[i].spec_point()).0
                <= bounds_max(edges).0 && bounds_min(edges).1 <= edges[i].spec_point().1
                <= bounds_max(edges).1,
        edge_xs(edges).contains(bounds_min(edges).0),
        edge_xs(edges).contains(bounds_max(edges).0),
        edge_ys(edges).contains(bounds_min(edges).1),
        edge_ys(edges).contains(bounds_max(edges).1),
        bounds_min(edges).0 <= bounds_centre(edges).0 <= bounds_max(edges).0,
        bounds_min(edges).1 <= bounds_centre(edges).1 <= bounds_max(edges).1,
{
    let xs = edge_xs(edges);
    let ys = edge_ys(edges);
    lemma_seq_bounds(xs);
    lemma_seq_bounds(ys);
    assert forall|i: int| 0 <= i < edges.len() implies bounds_min(edges).0 <= (
    #[trigger] edges[i].spec_point()).0 <= bounds_max(edges).0 && bounds_min(edges).1
        <= edges[i].spec_point().1 <= bounds_max(edges).1 by {
        assert(xs[i] == edges[i].spec_point().0);
        assert(ys[i] == edges[i].spec_point().1);
    }
    lemma_pixel_view_bounds(edges[0].point);
    assert(xs[0] == edges[0].spec_point().0);
    assert(ys[0] == edges[0].spec_point().1);
    if seq_max(xs) == 0 {
        assert(xs[0] == 0);
        assert(xs.contains(xs[0]));
    }
    if seq_max(ys) == 0 {
        assert(ys[0] == 0);
        assert(ys.contains(ys[0]));
    }
}

/// Half of a + b, rounded down, computed without overflow
fn midpoint(a: usize, b: usize) -> (r: usize)
    ensures
        r == (a + b) / 2,
{
    a / 2 + b / 2 + (a % 2 + b % 2) / 2
}

impl DeformShape {
    /// The interior points the shape was created with
    pub closed spec fn spec_points(self) -> Seq<PixelPoint> {
        self.points@
    }

    /// The edges of the shape
    pub closed spec fn spec_edges(self) -> Seq<ShapeEdge> {
        self.edges@
    }

    pub closed spec fn spec_centre(self) -> (int, int) {
        self.centre@
    }

    pub closed spec fn spec_max(self) -> (int, int) {
        self.max@
    }

    pub closed spec fn spec_min(self) -> (int, int) {
        self.min@
    }

    /// Create a shape from a set of edges
    /// Calculates the center as the geometric center (i.e. halfway inbetween the max/min)
    pub fn create(edges: Vec<ShapeEdge>, points: Vec<PixelPoint>) -> (r: Self)
        ensures
            r.spec_edges() == edges@,
            r.spec_points() == points@,
            r.spec_max() == bounds_max(edges@),
            r.spec_min() == bounds_min(edges@),
            r.spec_centre() == bounds_centre(edges@),
    {
        let ghost xs = edge_xs(edges@);
        let ghost ys = edge_ys(edges@);
        let mut max_x = 0usize;
        let mut max_y = 0usize;
        let mut min_x: usize = if edges.len() > 0 {
            edges[0].x()
        } else {
            1001
        };
        let mut min_y: usize = if edges.len() > 0 {
            edges[0].y()
        } else {
            1001
        };
        let mut i: usize = 0;
        while i < edges.len()
            invariant
                0 <= i <= edges.len(),
                xs == edge_xs(edges@),
                ys == edge_ys(edges@),
                max_x == seq_max(xs.take(i as int)),
                max_y == seq_max(ys.take(i as int)),
                i > 0 ==> min_x == seq_min(xs.take(i as int)),
                i > 0 ==> min_y == seq_min(ys.take(i as int)),
                i == 0 && edges.len() > 0 ==> min_x == xs[0] && min_y == ys[0],
                edges.len() == 0 ==> min_x == 1001 && min_y == 1001,
            decreases edges.len() - i,
        {
            let x = edges[i].x();
            let y = edges[i].y();
            proof {
                lemma_bounds_step(xs, i as int);
                lemma_bounds_step(ys, i as int);
            }
            if x > max_x {
                max_x = x
            }
            if x < min_x {
                min_x = x
            }
            if y > max_y {
                max_y = y
            }
            if y < min_y {
                min_y = y
            }
            i = i + 1;
        }
        proof {
            assert(xs.take(edges.len() as int) =~= xs);
            assert(ys.take(edges.len() as int) =~= ys);
        }
        let centre_pnt = PixelPoint::create(midpoint(min_x, max_x), midpoint(min_y, max_y));
        let max_pnt = PixelPoint::create(max_x, max_y);
        let min_pnt = PixelPoint::create(min_x, min_y);
        Self { points, edges, centre: centre_pnt, max: max_pnt, min: min_pnt }
    }

    /// Return a borrowed set of edges
    pub fn edges(&self) -> (r: &Vec<ShapeEdge>)
        ensures
            r@ == self.spec_edges(),
    {
        &self.edges
    }

    /// All the cells of the shape: the interior points followed by the edge cells
    pub fn all_points(&self) -> (r: Vec<PixelPoint>)
        ensures
            r@ == self.spec_all_points(),
    {
        let mut points = self.points.clone();
        proof {
            assert(points@ =~= self.points@);
        }
        let mut i: usize = 0;
        while i < self.edges.len()
            invariant
                0 <= i <= self.edges.len(),
                points@ == self.points@ + self.edges@.take(i as int).map_values(
                    |e: ShapeEdge| e.point,
                ),
            decreases self.edges.len() - i,
        {
            points.push(self.edges[i].point());
            proof {
                assert(self.edges@.take(i + 1).map_values(|e: ShapeEdge| e.point) =~= self.edges@.take(
                    i as int,
                ).map_values(|e: ShapeEdge| e.point).push(self.edges@[i as int].point));
            }
            i = i + 1;
        }
        proof {
            assert(self.edges@.take(self.edges.len() as int) =~= self.edges@);
        }
        points
    }

    /// The interior points followed by the cells of the edges
    pub closed spec fn spec_all_points(self) -> Seq<PixelPoint> {
        self.points@ + self.edges@.map_values(|e: ShapeEdge| e.point)
    }

    /// The cells of all points of the shape, in order
    pub broadcast proof fn lemma_all_points(self)
        ensures
            (#[trigger] self.spec_all_points()).len() == self.spec_points().len()
                + self.spec_edges().len(),
            forall|i: int|
                0 <= i < self.spec_points().len() ==> #[trigger] self.spec_all_points()[i]
                    == self.spec_points()[i],
            forall|i: int|
                0 <= i < self.spec_edges().len() ==> (#[trigger] self.spec_all_points()[i
                    + self.spec_points().len()])@ == self.spec_edges()[i].spec_point(),
    {
    }

    pub fn centre(&self) -> (r: &PixelPoint)
        ensures
            r@ == self.spec_centre(),
    {
        &self.centre
    }

    pub fn max(&self) -> (r: PixelPoint)
        ensures
            r@ == self.spec_max(),
    {
        self.max
    }

    pub fn min(&self) -> (r: PixelPoint)
        ensures
            r@ == self.spec_min(),
    {
        self.min
    }

    pub fn x_range(&self) -> (r: Range<usize>)
        ensures
            r.start == self.spec_min().0,
            r.end == self.spec_max().0,
    {
        self.min.x()..self.max.x()
    }

    pub fn y_range(&self) -> (r: Range<usize>)
        ensures
            r.start == self.spec_min().1,
            r.end == self.spec_max().1,
    {
        self.min.y()..self.max.y()
    }

    pub fn x_range_no_edge(&self) -> (r: Range<usize>)
        requires
            self.spec_min().0 < usize::MAX,
            self.spec_max().0 >= 1,
        ensures
            r.start == self.spec_min().0 + 1,
            r.end == self.spec_max().0 - 1,
    {
        (self.min.x() + 1)..(self.max.x() - 1)
    }

    pub fn y_range_no_edge(&self) -> (r: Range<usize>)
        requires
            self.spec_min().1 < usize::MAX,
            self.spec_max().1 >= 1,
        ensures
            r.start == self.spec_min().1 + 1,
            r.end == self.spec_max().1 - 1,
    {
        (self.min.y() + 1)..(self.max.y() - 1)
    }
}

/// The local map of a shape can be laid out: its box is not upside down, its size fits in a
/// machine integer, and no edge lies before the box's lower corner
pub open spec fn layout_defined(s: DeformShape) -> bool {
    &&& s.spec_min().0 <= s.spec_max().0
    &&& s.spec_min().1 <= s.spec_max().1
    &&& s.spec_max().0 - s.spec_min().0 + 1 <= usize::MAX
    &&& s.spec_max().1 - s.spec_min().1 + 1 <= usize::MAX
    &&& forall|i: int|
        0 <= i < s.spec_edges().len() ==> s.spec_min().0 <= (#[trigger] s.spec_edges()[i].spec_point()).0
            && s.spec_min().1 <= s.spec_edges()[i].spec_point().1
}

/// The edges of a shape relative to the lower corner of its box
pub open spec fn edge_offsets(s: DeformShape) -> Seq<(usize, usize)> {
    s.spec_edges().map_values(
        |e: ShapeEdge|
            ((e.spec_point().0 - s.spec_min().0) as usize, (e.spec_point().1 - s.spec_min().1) as usize),
    )
}

/// The local map of a shape: the size of its box (one more than the difference of the corners
/// in each direction) and the cell of each edge inside that box, in order. `None` where the
/// layout is not defined.
pub fn shape_map_layout(shape: &DeformShape) -> (r: Option<((usize, usize), Vec<(usize, usize)>)>)
    ensures
        match r {
            Some((size, offsets)) => layout_defined(*shape) && size == (
                (shape.spec_max().0 - shape.spec_min().0 + 1) as usize,
                (shape.spec_max().1 - shape.spec_min().1 + 1) as usize,
            ) && offsets@ == edge_offsets(*shape),
            None => !layout_defined(*shape),
        },
{
    let min = shape.min();
    let max = shape.max();
    if max.x() < min.x() || max.y() < min.y() || max.x() - min.x() == usize::MAX || max.y()
        - min.y() == usize::MAX {
        return None;
    }
    let width = max.x() - min.x() + 1;
    let height = max.y() - min.y() + 1;
    let edges = shape.edges();
    let mut offsets: Vec<(usize, usize)> = Vec::new();
    let mut i: usize = 0;
    while i < edges.len()
        invariant
            0 <= i <= edges.len(),
            edges@ == shape.spec_edges(),
            min@ == shape.spec_min(),
            offsets@ == edge_offsets(*shape).take(i as int),
            forall|k: int|
                0 <= k < i ==> min@.0 <= (#[trigger] edges@[k].spec_point()).0 && min@.1
                    <= edges@[k].spec_point().1,
        decreases edges.len() - i,
    {
        let x = edges[i].x();
        let y = edges[i].y();
        if x < min.x() || y < min.y() {
            return None;
        }
        offsets.push((x - min.x(), y - min.y()));
        proof {
            assert(edge_offsets(*shape).take(i + 1) =~= edge_offsets(*shape).take(i as int).push(
                (((x - min@.0) as usize), ((y - min@.1) as usize)),
            ));
        }
        i = i + 1;
    }
    proof {
        assert(edge_offsets(*shape).take(edges.len() as int) =~= edge_offsets(*shape));
    }
    Some(((width, height), offsets))
}

} // verus!
