//! Cells, edges and shapes of the point detection
use vstd::prelude::*;
use std::ops::{Add, Div};
use vstd::std_specs::ops::{AddSpecImpl, DivSpecImpl};

verus! {

///A point which describes a cell location
#[derive(Debug, Clone, Copy)]
pub struct Point {
    x: usize,
    y: usize,
}

impl View for Point {
    type V = (int, int);

    closed spec fn view(&self) -> (int, int) {
        (self.x as int, self.y as int)
    }
}

impl Default for Point {
    fn default() -> (r: Self)
        ensures
            r@ == (0int, 0int),
    {
        Point { x: 0, y: 0 }
    }
}

/// The point whose cell is (x, y).
pub closed spec fn point_of(x: int, y: int) -> Point {
    Point { x: x as usize, y: y as usize }
}

/// The point built from machine-sized coordinates describes exactly those coordinates.
pub broadcast proof fn lemma_point_of_view(x: int, y: int)
    requires
        0 <= x <= usize::MAX,
        0 <= y <= usize::MAX,
    ensures
        (#[trigger] point_of(x, y))@ == (x, y),
{
}

/// A point always describes a cell with machine-sized coordinates.
pub broadcast proof fn lemma_point_view_bounds(p: Point)
    ensures
        0 <= (#[trigger] p@).0 <= usize::MAX,
        0 <= p@.1 <= usize::MAX,
{
}

impl Point {
    ///Create a point
    fn create(x: usize, y: usize) -> (r: Self)
        ensures
            r@ == (x as int, y as int),
    {
        Point { x, y }
    }

    pub fn as_xy(&self) -> (r: (usize, usize))
        ensures
            r.0 == self@.0,
            r.1 == self@.1,
    {
        (self.x, self.y)
    }
}

impl Add for Point {
    type Output = Self;

    fn add(self, other: Self) -> (r: Self) {
        Self { x: self.x + other.x, y: self.y + other.y }
    }
}

impl AddSpecImpl for Point {
    open spec fn obeys_add_spec() -> bool {
        true
    }

    open spec fn add_req(self, rhs: Self) -> bool {
        self@.0 + rhs@.0 <= usize::MAX && self@.1 + rhs@.1 <= usize::MAX
    }

    open spec fn add_spec(self, rhs: Self) -> Self {
        point_of(self@.0 + rhs@.0, self@.1 + rhs@.1)
    }
}

impl Div<usize> for Point {
    type Output = Self;

    ///Divide the points by a scalar factor
    fn div(self, rhs: usize) -> (r: Self) {
        Self { x: self.x / rhs, y: self.y / rhs }
    }
}

impl DivSpecImpl<usize> for Point {
    open spec fn obeys_div_spec() -> bool {
        true
    }

    open spec fn div_req(self, rhs: usize) -> bool {
        rhs != 0
    }

    open spec fn div_spec(self, rhs: usize) -> Self {
        point_of(self@.0 / (rhs as int), self@.1 / (rhs as int))
    }
}

//Indicates a direction from a cell (where north is up)
#[derive(Debug, Clone, Copy, PartialEq, Eq, Structural)]
pub enum Direction {
    NORTH,
    EAST,
    SOUTH,
    WEST,
    NORTHWEST,
    NORTHEAST,
    SOUTHEAST,
    SOUTHWEST,
}

///An edge which describes the cell and the direction(s) of the edge
#[derive(Debug, Clone)]
pub struct Edge {
    cell: Point,
    dir: Vec<Direction>,
}

impl Edge {
    /// The cell of the edge
    pub closed spec fn spec_cell(self) -> (int, int) {
        self.cell@
    }

    /// The edge directions
    pub closed spec fn spec_dirs(self) -> Seq<Direction> {
        self.dir@
    }

    ///Create an edge object
    pub fn create(x: usize, y: usize, dir: Vec<Direction>) -> (r: Self)
        ensures
            r.spec_cell() == (x as int, y as int),
            r.spec_dirs() == dir@,
    {
        Edge { cell: Point::create(x, y), dir }
    }

    ///Get the position of the edge
    pub fn cell(&self) -> (r: Point)
        ensures
            r@ == self.spec_cell(),
    {
        self.cell
    }

    ///Return the edge directions
    pub fn dir(&self) -> (r: Vec<Direction>)
        ensures
            r@ == self.spec_dirs(),
    {
        let r = self.dir.clone();
        proof {
            assert(r@ =~= self.dir@);
        }
        r
    }

    pub fn pos(&self) -> (r: (usize, usize))
        ensures
            r.0 == self.spec_cell().0,
            r.1 == self.spec_cell().1,
    {
        self.cell.as_xy()
    }
}

/// Largest value of a non-empty list
pub open spec fn seq_max(s: Seq<int>) -> int
    recommends
        s.len() > 0,
    decreases s.len(),
{
    if s.len() <= 1 {
        s[0]
    } else {
        let m = seq_max(s.drop_last());
        if s.last() > m {
            s.last()
        } else {
            m
        }
    }
}

/// Smallest value of a non-empty list
pub open spec fn seq_min(s: Seq<int>) -> int
    recommends
        s.len() > 0,
    decreases s.len(),
{
    if s.len() <= 1 {
        s[0]
    } else {
        let m = seq_min(s.drop_last());
        if s.last() < m {
            s.last()
        } else {
            m
        }
    }
}

/// The largest value is at least every value and is one of them, the smallest is at most
/// every value and is one of them
pub proof fn lemma_seq_extremes(s: Seq<int>)
    requires
        s.len() > 0,
    ensures
        forall|i: int| 0 <= i < s.len() ==> seq_min(s) <= #[trigger] s[i] <= seq_max(s),
        exists|i: int| 0 <= i < s.len() && s[i] == seq_max(s),
        exists|i: int| 0 <= i < s.len() && s[i] == seq_min(s),
    decreases s.len(),
{
    if s.len() == 1 {
        assert(s[0] == seq_max(s));
    } else {
        let t = s.drop_last();
        lemma_seq_extremes(t);
        assert forall|i: int| 0 <= i < s.len() implies seq_min(s) <= #[trigger] s[i] <= seq_max(s) by {
            if i < t.len() {
                assert(s[i] == t[i]);
            }
        }
        if s.last() > seq_max(t) {
            assert(s[s.len() - 1] == seq_max(s));
        } else {
            let j = choose|j: int| 0 <= j < t.len() && t[j] == seq_max(t);
            assert(s[j] == seq_max(s));
        }
        if s.last() < seq_min(t) {
            assert(s[s.len() - 1] == seq_min(s));
        } else {
            let j = choose|j: int| 0 <= j < t.len() && t[j] == seq_min(t);
            assert(s[j] == seq_min(s));
        }
    }
}

/// The centre of the bounding box of a non-empty list of edges
pub open spec fn edges_centre(set: Seq<Edge>) -> (int, int) {
    let xs = set.map_values(|e: Edge| e.spec_cell().0);
    let ys = set.map_values(|e: Edge| e.spec_cell().1);
    ((seq_min(xs) + seq_max(xs)) / 2, (seq_min(ys) + seq_max(ys)) / 2)
}

///A shape that consists of edges and a centre point
pub struct DeformShape {
    edges: Vec<Edge>,
    centre: Point,
}

/// Half of a + b, rounded down, computed without overflow
fn midpoint(a: usize, b: usize) -> (r: usize)
    ensures
        r == (a + b) / 2,
{
    a / 2 + b / 2 + (a % 2 + b % 2) / 2
}

impl DeformShape {
    pub closed spec fn spec_edges(self) -> Seq<Edge> {
        self.edges@
    }

    pub closed spec fn spec_centre(self) -> (int, int) {
        self.centre@
    }

    ///Create a shape from a set of edges
    ///Calculates the center as the geometric center (i.e. halfway inbetween the max/min)
    pub fn from(set: Vec<Edge>) -> (r: Self)
        requires
            set@.len() > 0,
        ensures
            r.spec_edges() == set@,
            r.spec_centre() == edges_centre(set@),
    {
        let ghost xs = set@.map_values(|e: Edge| e.spec_cell().0);
        let ghost ys = set@.map_values(|e: Edge| e.spec_cell().1);
        let (first_x, first_y) = set[0].pos();
        let mut max_x = first_x;
        let mut min_x = first_x;
        let mut max_y = first_y;
        let mut min_y = first_y;
        let mut i: usize = 1;
        //Iterate through every edge to get the max and min points
        while i < set.len()
            invariant
                1 <= i <= set.len(),
                xs == set@.map_values(|e: Edge| e.spec_cell().0),
                ys == set@.map_values(|e: Edge| e.spec_cell().1),
                max_x == seq_max(xs.take(i as int)),
                min_x == seq_min(xs.take(i as int)),
                max_y == seq_max(ys.take(i as int)),
                min_y == seq_min(ys.take(i as int)),
            decreases set.len() - i,
        {
            let (x, y) = set[i].pos();
            proof {
                assert(xs.take(i + 1).drop_last() =~= xs.take(i as int));
                assert(ys.take(i + 1).drop_last() =~= ys.take(i as int));
                assert(xs.take(i + 1).last() == x);
                assert(ys.take(i + 1).last() == y);
            }
            if x > max_x {
                max_x = x;
            }
            if x < min_x {
                min_x = x;
            }
            if y > max_y {
                max_y = y;
            }
            if y < min_y {
                min_y = y;
            }
            i = i + 1;
        }
        proof {
            assert(xs.take(set.len() as int) =~= xs);
            assert(ys.take(set.len() as int) =~= ys);
        }
        let centre_pnt = Point::create(midpoint(min_x, max_x), midpoint(min_y, max_y));
        Self { edges: set, centre: centre_pnt }
    }

    ///Return a borrowed set of edges
    pub fn edges(&self) -> (r: &Vec<Edge>)
        ensures
            r@ == self.spec_edges(),
    {
        &self.edges
    }

    pub fn centre(&self) -> (r: &Point)
        ensures
            r@ == self.spec_centre(),
    {
        &self.centre
    }
}

} // verus!
