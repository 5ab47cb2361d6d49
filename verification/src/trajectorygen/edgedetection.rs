//! Methods to detect the edges of earthshapes
use vstd::prelude::*;
use crate::grid::{CellGrid, Cell, adjacent4};
use crate::trajectorygen::DetectionMode;
use crate::trajectorygen::types::{Direction, ShapeEdge, DeformShape, PixelPoint, bounds_max, bounds_min, bounds_centre};

verus! {

/// `seq![d]` when `b` holds, else the empty sequence
pub open spec fn dir_if(b: bool, d: Direction) -> Seq<Direction> {
    if b {
        seq![d]
    } else {
        Seq::empty()
    }
}

/// The directions in which the cell (x, y) borders an empty cell, in the order
/// north-west, west, south-west, north, south, north-east, east, south-east
/// (x grows to the east, y grows to the south)
pub open spec fn spec_edge_dirs(g: CellGrid, x: int, y: int) -> Seq<Direction> {
    dir_if(!g.filled(x - 1, y - 1), Direction::NORTHWEST) + dir_if(
        !g.filled(x - 1, y),
        Direction::WEST,
    ) + dir_if(!g.filled(x - 1, y + 1), Direction::SOUTHWEST) + dir_if(
        !g.filled(x, y - 1),
        Direction::NORTH,
    ) + dir_if(!g.filled(x, y + 1), Direction::SOUTH) + dir_if(
        !g.filled(x + 1, y - 1),
        Direction::NORTHEAST,
    ) + dir_if(!g.filled(x + 1, y), Direction::EAST) + dir_if(
        !g.filled(x + 1, y + 1),
        Direction::SOUTHEAST,
    )
}

/// A cell has edge directions exactly when one of its eight neighbours is empty
pub proof fn lemma_edge_dirs_nonempty(g: CellGrid, x: int, y: int)
    ensures
        spec_edge_dirs(g, x, y).len() > 0 <==> g.has_empty_neighbour8(x, y),
{
    let a = dir_if(!g.filled(x - 1, y - 1), Direction::NORTHWEST);
    let b = dir_if(!g.filled(x - 1, y), Direction::WEST);
    let c = dir_if(!g.filled(x - 1, y + 1), Direction::SOUTHWEST);
    let d = dir_if(!g.filled(x, y - 1), Direction::NORTH);
    let e = dir_if(!g.filled(x, y + 1), Direction::SOUTH);
    let f = dir_if(!g.filled(x + 1, y - 1), Direction::NORTHEAST);
    let h = dir_if(!g.filled(x + 1, y), Direction::EAST);
    let k = dir_if(!g.filled(x + 1, y + 1), Direction::SOUTHEAST);
    assert(spec_edge_dirs(g, x, y) == a + b + c + d + e + f + h + k);
    assert((a + b + c + d + e + f + h + k).len() == a.len() + b.len() + c.len() + d.len() + e.len()
        + f.len() + h.len() + k.len());
}

/// `dir_if(b, d)` holds `e` exactly when `b` holds and `e` is `d`
proof fn lemma_dir_if_contains(b: bool, d: Direction, e: Direction)
    ensures
        dir_if(b, d).contains(e) <==> (b && e == d),
{
    if b && e == d {
        assert(dir_if(b, d)[0] == e);
    }
}

/// The directions of a cell name its empty neighbours by the compass, x growing to the east
/// and y to the south: each direction is listed exactly when the neighbour at that offset is
/// empty
pub proof fn lemma_edge_dirs_compass(g: CellGrid, x: int, y: int)
    ensures
        spec_edge_dirs(g, x, y).contains(Direction::NORTH) <==> !g.filled(x, y - 1),
        spec_edge_dirs(g, x, y).contains(Direction::SOUTH) <==> !g.filled(x, y + 1),
        spec_edge_dirs(g, x, y).contains(Direction::WEST) <==> !g.filled(x - 1, y),
        spec_edge_dirs(g, x, y).contains(Direction::EAST) <==> !g.filled(x + 1, y),
        spec_edge_dirs(g, x, y).contains(Direction::NORTHWEST) <==> !g.filled(x - 1, y - 1),
        spec_edge_dirs(g, x, y).contains(Direction::NORTHEAST) <==> !g.filled(x + 1, y - 1),
        spec_edge_dirs(g, x, y).contains(Direction::SOUTHWEST) <==> !g.filled(x - 1, y + 1),
        spec_edge_dirs(g, x, y).contains(Direction::SOUTHEAST) <==> !g.filled(x + 1, y + 1),
{
    broadcast use vstd::seq_lib::lemma_seq_concat_contains_all_elements;

    let a = dir_if(!g.filled(x - 1, y - 1), Direction::NORTHWEST);
    let b = dir_if(!g.filled(x - 1, y), Direction::WEST);
    let c = dir_if(!g.filled(x - 1, y + 1), Direction::SOUTHWEST);
    let d = dir_if(!g.filled(x, y - 1), Direction::NORTH);
    let e = dir_if(!g.filled(x, y + 1), Direction::SOUTH);
    let f = dir_if(!g.filled(x + 1, y - 1), Direction::NORTHEAST);
    let h = dir_if(!g.filled(x + 1, y), Direction::EAST);
    let k = dir_if(!g.filled(x + 1, y + 1), Direction::SOUTHEAST);
    assert(spec_edge_dirs(g, x, y) == a + b + c + d + e + f + h + k);
    assert forall|dir: Direction| #[trigger] spec_edge_dirs(g, x, y).contains(dir) <==> (
    a.contains(dir) || b.contains(dir) || c.contains(dir) || d.contains(dir) || e.contains(dir)
        || f.contains(dir) || h.contains(dir) || k.contains(dir)) by {
        lemma_dir_if_contains(!g.filled(x - 1, y - 1), Direction::NORTHWEST, dir);
    }
    assert forall|dir: Direction| true implies {
        &&& a.contains(dir) <==> (!g.filled(x - 1, y - 1) && dir == Direction::NORTHWEST)
        &&& b.contains(dir) <==> (!g.filled(x - 1, y) && dir == Direction::WEST)
        &&& c.contains(dir) <==> (!g.filled(x - 1, y + 1) && dir == Direction::SOUTHWEST)
        &&& d.contains(dir) <==> (!g.filled(x, y - 1) && dir == Direction::NORTH)
        &&& e.contains(dir) <==> (!g.filled(x, y + 1) && dir == Direction::SOUTH)
        &&& f.contains(dir) <==> (!g.filled(x + 1, y - 1) && dir == Direction::NORTHEAST)
        &&& h.contains(dir) <==> (!g.filled(x + 1, y) && dir == Direction::EAST)
        &&& k.contains(dir) <==> (!g.filled(x + 1, y + 1) && dir == Direction::SOUTHEAST)
    } by {
        lemma_dir_if_contains(!g.filled(x - 1, y - 1), Direction::NORTHWEST, dir);
        lemma_dir_if_contains(!g.filled(x - 1, y), Direction::WEST, dir);
        lemma_dir_if_contains(!g.filled(x - 1, y + 1), Direction::SOUTHWEST, dir);
        lemma_dir_if_contains(!g.filled(x, y - 1), Direction::NORTH, dir);
        lemma_dir_if_contains(!g.filled(x, y + 1), Direction::SOUTH, dir);
        lemma_dir_if_contains(!g.filled(x + 1, y - 1), Direction::NORTHEAST, dir);
        lemma_dir_if_contains(!g.filled(x + 1, y), Direction::EAST, dir);
        lemma_dir_if_contains(!g.filled(x + 1, y + 1), Direction::SOUTHEAST, dir);
    }
}

fn push_if(dirs: &mut Vec<Direction>, b: bool, d: Direction)
    ensures
        final(dirs)@ == old(dirs)@ + dir_if(b, d),
{
    if b {
        dirs.push(d);
    }
    proof {
        assert(final(dirs)@ =~= old(dirs)@ + dir_if(b, d));
    }
}

/// Return the direction(s) of edges if there are any for a cell
fn edge_check(hmap: &CellGrid, x: usize, y: usize) -> (dirs: Vec<Direction>)
    requires
        hmap.wf(),
        x < hmap.spec_width(),
        y < hmap.spec_height(),
    ensures
        dirs@ == spec_edge_dirs(*hmap, x as int, y as int),
{
    let mut dirs: Vec<Direction> = Vec::new();
    push_if(&mut dirs, hmap.neighbour_empty(x, y, 0, 0), Direction::NORTHWEST);
    push_if(&mut dirs, hmap.neighbour_empty(x, y, 0, 1), Direction::WEST);
    push_if(&mut dirs, hmap.neighbour_empty(x, y, 0, 2), Direction::SOUTHWEST);
    push_if(&mut dirs, hmap.neighbour_empty(x, y, 1, 0), Direction::NORTH);
    push_if(&mut dirs, hmap.neighbour_empty(x, y, 1, 2), Direction::SOUTH);
    push_if(&mut dirs, hmap.neighbour_empty(x, y, 2, 0), Direction::NORTHEAST);
    push_if(&mut dirs, hmap.neighbour_empty(x, y, 2, 1), Direction::EAST);
    push_if(&mut dirs, hmap.neighbour_empty(x, y, 2, 2), Direction::SOUTHEAST);
    proof {
        assert(dirs@ =~= spec_edge_dirs(*hmap, x as int, y as int));
    }
    dirs
}

/// The edge list is exactly the boundary cells `cells`, in order, each with its edge directions
pub open spec fn edges_match_cells(g: CellGrid, edges: Seq<ShapeEdge>, cells: Seq<Cell>) -> bool {
    &&& edges.len() == cells.len()
    &&& forall|i: int|
        0 <= i < edges.len() ==> #[trigger] edges[i].spec_point() == cells[i]
            && edges[i].spec_dirs() == spec_edge_dirs(g, cells[i].0, cells[i].1)
}

/// Assumes that there is only one shape:
/// goes through each inner cell and keeps the filled ones that border an empty cell.
/// Cells outside the grid count as empty.
pub fn simple(hmap: &CellGrid) -> (r: DeformShape)
    requires
        hmap.wf(),
    ensures
        edges_match_cells(*hmap, r.spec_edges(), hmap.boundary_cells()),
        r.spec_points() == Seq::<PixelPoint>::empty(),
        r.spec_max() == bounds_max(r.spec_edges()),
        r.spec_min() == bounds_min(r.spec_edges()),
        r.spec_centre() == bounds_centre(r.spec_edges()),
{
    let w = hmap.width();
    let h = hmap.height();
    let mut edges: Vec<ShapeEdge> = Vec::new();
    let mut x: usize = 1;
    //Go through every column (ignoring edges)
    while x + 1 < w
        invariant
            hmap.wf(),
            w == hmap.spec_width(),
            h == hmap.spec_height(),
            1 <= x,
            x <= w - 1 || x == 1,
            edges_match_cells(*hmap, edges@, hmap.scan_boundary(x as int, 1)),
        decreases w - x,
    {
        let mut y: usize = 1;
        //Go through every row (ignoring edges)
        while y + 1 < h
            invariant
                hmap.wf(),
                w == hmap.spec_width(),
                h == hmap.spec_height(),
                1 <= x < w - 1,
                1 <= y,
                y <= h - 1 || y == 1,
                edges_match_cells(*hmap, edges@, hmap.scan_boundary(x as int, y as int)),
            decreases h - y,
        {
            proof {
                lemma_edge_dirs_nonempty(*hmap, x as int, y as int);
            }
            if hmap.is_filled(x, y) {
                let dirs = edge_check(hmap, x, y);
                if dirs.len() > 0 {
                    edges.push(ShapeEdge::create(x, y, dirs));
                }
            }
            y = y + 1;
        }
        proof {
            assert(hmap.scan_boundary(x + 1, 1) == hmap.scan_boundary(x as int, h - 1));
            if h < 2 {
                assert(hmap.scan_boundary(x as int, h - 1) == hmap.scan_boundary(x as int, 1));
            }
        }
        x = x + 1;
    }
    DeformShape::create(edges, Vec::new())
}

/// The cells of a list of edges, in order
pub open spec fn edge_points(edges: Seq<ShapeEdge>) -> Seq<Cell> {
    edges.map_values(|e: ShapeEdge| e.spec_point())
}

/// `edges` lists, each once, exactly the cells connected to `leader` that border an empty
/// cell, each with its edge directions
pub open spec fn is_component_edges(g: CellGrid, leader: Cell, edges: Seq<ShapeEdge>) -> bool {
    &&& edge_points(edges).no_duplicates()
    &&& forall|i: int|
        0 <= i < edges.len() ==> {
            let p = #[trigger] edges[i].spec_point();
            &&& g.connected(leader, p)
            &&& edges[i].spec_dirs() == spec_edge_dirs(g, p.0, p.1)
            &&& edges[i].spec_dirs().len() > 0
        }
    &&& forall|c: Cell|
        g.connected(leader, c) && #[trigger] spec_edge_dirs(g, c.0, c.1).len() > 0 ==> exists|i: int|
            0 <= i < edges.len() && #[trigger] edges[i].spec_point() == c
}

/// A cell waiting to be explored: the start or a side neighbour of a cell connected to it
pub open spec fn near_component(g: CellGrid, start: Cell, c: Cell) -> bool {
    c == start || exists|f: Cell| #[trigger] g.connected(start, f) && adjacent4(f, c)
}

/// Some point of the stack lies on cell `c`
pub open spec fn in_stack(stack: Seq<PixelPoint>, c: Cell) -> bool {
    exists|i: int| 0 <= i < stack.len() && #[trigger] stack[i]@ == c
}

/// Every cell newly visited has its in-grid side neighbours visited or waiting on the stack
pub open spec fn flood_closed(v0: CellGrid, v: CellGrid, m: CellGrid, stack: Seq<PixelPoint>) -> bool {
    forall|c: Cell, d: Cell|
        #![trigger newly_visited(v0, v, m, c), adjacent4(c, d)]
        newly_visited(v0, v, m, c) && adjacent4(c, d) && m.in_bounds(d) ==> v.filled_cell(d)
            || in_stack(stack, d)
}

/// Every cell newly visited that borders an empty cell is among the edges
pub open spec fn edges_complete(v0: CellGrid, v: CellGrid, m: CellGrid, edges: Seq<ShapeEdge>) -> bool {
    forall|c: Cell|
        newly_visited(v0, v, m, c) && #[trigger] spec_edge_dirs(m, c.0, c.1).len() > 0 ==> exists|i: int|
            0 <= i < edges.len() && #[trigger] edges[i].spec_point() == c
}

/// One step of the flood keeps the visited cells closed and the edge list complete
proof fn lemma_flood_step(
    v0: CellGrid,
    old_visit: CellGrid,
    visit: CellGrid,
    m: CellGrid,
    old_stack: Seq<PixelPoint>,
    mid_stack: Seq<PixelPoint>,
    stack: Seq<PixelPoint>,
    old_edges: Seq<ShapeEdge>,
    edges: Seq<ShapeEdge>,
    p: Cell,
)
    requires
        flood_closed(v0, old_visit, m, old_stack),
        edges_complete(v0, old_visit, m, old_edges),
        old_stack.len() > 0,
        mid_stack == old_stack.drop_last(),
        old_stack.last()@ == p,
        mid_stack.is_prefix_of(stack),
        old_edges.is_prefix_of(edges),
        forall|c: Cell|
            #[trigger] visit.filled_cell(c) == (old_visit.filled_cell(c) || (c == p
                && visit.filled_cell(p))),
        visit.filled_cell(p) || !m.in_bounds(p),
        newly_visited(v0, visit, m, p) && !old_visit.filled_cell(p) ==> (forall|d: Cell|
            adjacent4(p, d) && m.in_bounds(d) ==> in_stack(stack, d)) && (spec_edge_dirs(
            m,
            p.0,
            p.1,
        ).len() > 0 ==> exists|i: int| 0 <= i < edges.len() && edges[i].spec_point() == p),
    ensures
        flood_closed(v0, visit, m, stack),
        edges_complete(v0, visit, m, edges),
{
    assert forall|d: Cell| in_stack(old_stack, d) && d != p implies in_stack(stack, d) by {
        let i = choose|i: int| 0 <= i < old_stack.len() && #[trigger] old_stack[i]@ == d;
        assert(i < old_stack.len() - 1);
        assert(mid_stack[i] == old_stack[i]);
        assert(stack[i] == mid_stack[i]);
    }
    assert forall|c: Cell, d: Cell|
        #![trigger newly_visited(v0, visit, m, c), adjacent4(c, d)]
        newly_visited(v0, visit, m, c) && adjacent4(c, d) && m.in_bounds(d) implies visit.filled_cell(d)
            || in_stack(stack, d) by {
        if c == p && !old_visit.filled_cell(p) {
        } else {
            assert(newly_visited(v0, old_visit, m, c));
            if !old_visit.filled_cell(d) && d != p {
                assert(in_stack(old_stack, d));
            }
        }
    }
    assert forall|c: Cell|
        newly_visited(v0, visit, m, c) && #[trigger] spec_edge_dirs(m, c.0, c.1).len() > 0 implies exists|i: int|
            0 <= i < edges.len() && #[trigger] edges[i].spec_point() == c by {
        if c == p && !old_visit.filled_cell(p) {
            let i = choose|i: int| 0 <= i < edges.len() && edges[i].spec_point() == p;
            assert(edges[i].spec_point() == c);
        } else {
            assert(newly_visited(v0, old_visit, m, c));
            let i = choose|i: int| 0 <= i < old_edges.len() && #[trigger] old_edges[i].spec_point() == c;
            assert(edges[i] == old_edges[i]);
        }
    }
}

/// A cell visited during this flood, that was not visited before and is filled
pub open spec fn newly_visited(v0: CellGrid, v: CellGrid, m: CellGrid, c: Cell) -> bool {
    v.filled_cell(c) && !v0.filled_cell(c) && m.filled_cell(c)
}

/// The state of a flood: the cells visited, the cells waiting on the stack (the last is
/// explored next), and the edge cells found, in the order found
pub struct FloodState {
    pub visited: Set<Cell>,
    pub stack: Seq<Cell>,
    pub edges: Seq<Cell>,
}

/// The side neighbours of a cell in the order they are pushed: east, west (when there is a
/// column to the west), south, north (when there is a row to the north)
pub open spec fn side_pushes(p: Cell) -> Seq<Cell> {
    seq![(p.0 + 1, p.1)] + (if p.0 != 0 {
        seq![(p.0 - 1, p.1)]
    } else {
        Seq::<Cell>::empty()
    }) + seq![(p.0, p.1 + 1)] + (if p.1 != 0 {
        seq![(p.0, p.1 - 1)]
    } else {
        Seq::<Cell>::empty()
    })
}

/// One step of a flood: the last cell of the stack is taken; a cell outside the grid or
/// already visited is dropped; otherwise it is visited, and when it is filled it is recorded
/// as an edge (if it borders an empty cell) and its side neighbours are pushed. A flood with
/// an empty stack is finished and stays as it is.
pub open spec fn flood_step(g: CellGrid, s: FloodState) -> FloodState {
    if s.stack.len() == 0 {
        s
    } else {
        let p = s.stack.last();
        let rest = s.stack.drop_last();
        if !g.in_bounds(p) || s.visited.contains(p) {
            FloodState { visited: s.visited, stack: rest, edges: s.edges }
        } else if !g.filled_cell(p) {
            FloodState { visited: s.visited.insert(p), stack: rest, edges: s.edges }
        } else {
            FloodState {
                visited: s.visited.insert(p),
                stack: rest + side_pushes(p),
                edges: if spec_edge_dirs(g, p.0, p.1).len() > 0 {
                    s.edges.push(p)
                } else {
                    s.edges
                },
            }
        }
    }
}

/// `n` steps of a flood
pub open spec fn flood_steps(g: CellGrid, s: FloodState, n: nat) -> FloodState
    decreases n,
{
    if n == 0 {
        s
    } else {
        flood_step(g, flood_steps(g, s, (n - 1) as nat))
    }
}

/// A flood that starts at `start` with nothing visited
pub open spec fn flood_start(start: Cell) -> FloodState {
    FloodState { visited: Set::empty(), stack: seq![start], edges: Seq::empty() }
}

/// The edge cells of the shape that holds `start`, in the order in which a depth-first flood
/// from `start` finds them
pub open spec fn flood_order(g: CellGrid, start: Cell) -> Seq<Cell> {
    let n = choose|n: nat| #[trigger] flood_steps(g, flood_start(start), n).stack.len() == 0;
    flood_steps(g, flood_start(start), n).edges
}

/// A finished flood stays finished
proof fn lemma_flood_stays(g: CellGrid, s: FloodState, n: nat, m: nat)
    requires
        n <= m,
        flood_steps(g, s, n).stack.len() == 0,
    ensures
        flood_steps(g, s, m) == flood_steps(g, s, n),
    decreases m - n,
{
    if n < m {
        lemma_flood_stays(g, s, n, (m - 1) as nat);
    }
}

/// Once the flood from `start` has finished, what it found is `flood_order`: the order does
/// not depend on how many steps are counted past the end
pub proof fn lemma_flood_order(g: CellGrid, start: Cell, n: nat)
    requires
        flood_steps(g, flood_start(start), n).stack.len() == 0,
    ensures
        flood_order(g, start) == flood_steps(g, flood_start(start), n).edges,
{
    let m = choose|m: nat| #[trigger] flood_steps(g, flood_start(start), m).stack.len() == 0;
    if m <= n {
        lemma_flood_stays(g, flood_start(start), m, n);
    } else {
        lemma_flood_stays(g, flood_start(start), n, m);
    }
}

/// Flood the shape that holds `start_point`, marking visited cells in `visit_map`, and
/// return its edges.
/// Uses an explicit stack (non-recursive) so that large shapes fit.
#[verifier::spinoff_prover]
#[verifier::rlimit(40)]
fn flood_fill(map: &CellGrid, visit_map: &mut CellGrid, start_point: PixelPoint) -> (edges: Vec<
    ShapeEdge,
>)
    requires
        map.wf(),
        old(visit_map).wf(),
        old(visit_map).spec_width() == map.spec_width(),
        old(visit_map).spec_height() == map.spec_height(),
        map.filled_cell(start_point@),
        !old(visit_map).filled_cell(start_point@),
        forall|v: Cell|
            #[trigger] old(visit_map).filled_cell(v) && map.filled_cell(v) ==> !map.connected(
                start_point@,
                v,
            ),
    ensures
        final(visit_map).wf(),
        final(visit_map).spec_width() == map.spec_width(),
        final(visit_map).spec_height() == map.spec_height(),
        is_component_edges(*map, start_point@, edges@),
        forall|c: Cell|
            #[trigger] map.filled_cell(c) ==> (final(visit_map).filled_cell(c) <==> old(
                visit_map,
            ).filled_cell(c) || map.connected(start_point@, c)),
        forall|c: Cell| old(visit_map).filled_cell(c) ==> #[trigger] final(visit_map).filled_cell(c),
        forall|c: Cell|
            #[trigger] final(visit_map).filled_cell(c) <==> old(visit_map).filled_cell(c) || (
            map.in_bounds(c) && near_component(*map, start_point@, c)),
        edge_points(edges@) == flood_order(*map, start_point@),
{
    let ghost v0 = *visit_map;
    let ghost start = start_point@;
    let mut stack: Vec<PixelPoint> = Vec::new();
    stack.push(start_point);
    let mut edges: Vec<ShapeEdge> = Vec::new();
    let ghost mut sim = flood_start(start);
    let ghost mut steps: nat = 0;
    proof {
        assert(stack@[0]@ == start);
        assert(sim.stack =~= stack@.map_values(|q: PixelPoint| q@));
        assert(sim.edges =~= edge_points(edges@));
        assert forall|c: Cell| #[trigger] map.connected(start, c) implies !v0.filled_cell(c) by {
            map.lemma_connected_filled(start, c);
        }
    }
    while stack.len() > 0
        invariant
            map.wf(),
            visit_map.wf(),
            v0.wf(),
            visit_map.spec_width() == map.spec_width(),
            visit_map.spec_height() == map.spec_height(),
            v0.spec_width() == map.spec_width(),
            v0.spec_height() == map.spec_height(),
            map.filled_cell(start),
            !v0.filled_cell(start),
            forall|v: Cell| #[trigger] v0.filled_cell(v) && map.filled_cell(v) ==> !map.connected(start, v),
            forall|c: Cell| v0.filled_cell(c) ==> #[trigger] visit_map.filled_cell(c),
            forall|c: Cell|
                #[trigger] newly_visited(v0, *visit_map, *map, c) ==> map.connected(start, c),
            visit_map.filled_cell(start) || in_stack(stack@, start),
            forall|i: int|
                0 <= i < stack@.len() ==> near_component(*map, start, #[trigger] stack@[i]@),
            flood_closed(v0, *visit_map, *map, stack@),
            forall|i: int|
                0 <= i < edges@.len() ==> {
                    let p = #[trigger] edges@[i].spec_point();
                    &&& newly_visited(v0, *visit_map, *map, p)
                    &&& edges@[i].spec_dirs() == spec_edge_dirs(*map, p.0, p.1)
                    &&& edges@[i].spec_dirs().len() > 0
                },
            edge_points(edges@).no_duplicates(),
            edges_complete(v0, *visit_map, *map, edges@),
            forall|c: Cell|
                #[trigger] visit_map.filled_cell(c) ==> v0.filled_cell(c) || near_component(
                    *map,
                    start,
                    c,
                ),
            sim == flood_steps(*map, flood_start(start), steps),
            sim.stack == stack@.map_values(|q: PixelPoint| q@),
            sim.edges == edge_points(edges@),
            forall|c: Cell|
                #[trigger] map.connected(start, c) ==> (sim.visited.contains(c)
                    <==> visit_map.filled_cell(c)),
        decreases 4 * visit_map.empty_count() + stack@.len(),
    {
        let ghost old_stack = stack@;
        let ghost old_visit = *visit_map;
        let ghost old_edges = edges@;
        let ghost old_sim = sim;
        let curr_point = stack.pop().unwrap();
        let ghost p = curr_point@;
        proof {
            assert(near_component(*map, start, old_stack[old_stack.len() - 1]@));
            assert(old_sim.stack.last() == p);
            if map.filled_cell(p) {
                if p == start {
                    map.lemma_connected_refl(start);
                } else {
                    let f = choose|f: Cell| #[trigger] map.connected(start, f) && adjacent4(f, p);
                    map.lemma_connected_step(start, f, p);
                }
            }
        }
        proof {
            broadcast use CellGrid::lemma_filled_in_bounds;

            assert(stack@ =~= old_stack.drop_last());
            assert(p == old_stack[old_stack.len() - 1]@);
            // entries below the popped one stay on the stack
            assert forall|d: Cell| in_stack(old_stack, d) && d != p implies in_stack(stack@, d) by {
                let i = choose|i: int| 0 <= i < old_stack.len() && #[trigger] old_stack[i]@ == d;
                assert(i < old_stack.len() - 1);
                assert(stack@[i] == old_stack[i]);
            }
        }
        let x = curr_point.x();
        let y = curr_point.y();
        let ghost mid_stack = stack@;
        //Skip points out of bounds and points already visited
        if x < visit_map.width() && y < visit_map.height() && !visit_map.is_filled(x, y) {
            //Mark the point as visited
            visit_map.set_filled(x, y, true);
            proof {
                assert(p == (x as int, y as int));
                assert forall|c: Cell| #[trigger] visit_map.filled_cell(c) && c != p implies old_visit.filled_cell(c) by {
                    assert(visit_map.filled(c.0, c.1) == old_visit.filled(c.0, c.1));
                }
                assert forall|c: Cell| old_visit.filled_cell(c) implies #[trigger] visit_map.filled_cell(c) by {
                    if c != p {
                        assert(visit_map.filled(c.0, c.1) == old_visit.filled(c.0, c.1));
                    }
                }
            }
            //Check that there is a valid cell there
            if map.is_filled(x, y) {
                proof {
                    // the cell just visited is connected to the start
                    let i = old_stack.len() - 1;
                    assert(near_component(*map, start, old_stack[i]@));
                    if p == start {
                        map.lemma_connected_refl(start);
                    } else {
                        let f = choose|f: Cell| #[trigger] map.connected(start, f) && adjacent4(f, p);
                        map.lemma_connected_step(start, f, p);
                    }
                    assert(map.connected(start, p));
                }
                //Add any edges to the edge list
                let dirs = edge_check(map, x, y);
                if dirs.len() > 0 {
                    edges.push(ShapeEdge::new(&x, &y, dirs));
                    proof {
                        assert forall|i: int| 0 <= i < old_edges.len() implies #[trigger] edge_points(edges@)[i] != p by {
                            assert(edges@[i] == old_edges[i]);
                            assert(newly_visited(v0, old_visit, *map, old_edges[i].spec_point()));
                        }
                        assert(edge_points(edges@) =~= edge_points(old_edges).push(p));
                        assert(edges@ == old_edges.push(edges@[old_edges.len() as int]));
                        assert(edges@[old_edges.len() as int].spec_point() == p);
                        assert(edges@[old_edges.len() as int].spec_dirs() == spec_edge_dirs(*map, p.0, p.1));
                    }
                }
                //Traverse to the cells around
                stack.push(PixelPoint::create(x + 1, y));
                if x != 0 {
                    stack.push(PixelPoint::create(x - 1, y));
                }
                stack.push(PixelPoint::create(x, y + 1));
                if y != 0 {
                    stack.push(PixelPoint::create(x, y - 1));
                }
                proof {
                    // the side neighbours inside the grid are on the stack now
                    assert forall|d: Cell| adjacent4(p, d) && map.in_bounds(d) implies in_stack(stack@, d) by {
                        let n: int = mid_stack.len() as int;
                        if d == (x + 1, y as int) {
                            assert(stack@[n]@ == d);
                        } else if d == (x - 1, y as int) {
                            assert(x != 0);
                            assert(stack@[n + 1]@ == d);
                        } else if d == (x as int, y + 1) {
                            if x != 0 {
                                assert(stack@[n + 2]@ == d);
                            } else {
                                assert(stack@[n + 1]@ == d);
                            }
                        } else {
                            assert(d == (x as int, y - 1));
                            assert(y != 0);
                            if x != 0 {
                                assert(stack@[n + 3]@ == d);
                            } else {
                                assert(stack@[n + 2]@ == d);
                            }
                        }
                    }
                    if spec_edge_dirs(*map, p.0, p.1).len() > 0 {
                        assert(edges@[edges@.len() - 1].spec_point() == p);
                    }
                    assert forall|i: int| 0 <= i < stack@.len() implies near_component(*map, start, #[trigger] stack@[i]@) by {
                        if i >= mid_stack.len() {
                            assert(map.connected(start, p) && adjacent4(p, stack@[i]@));
                        } else {
                            assert(stack@[i] == mid_stack[i]);
                            assert(mid_stack[i] == old_stack[i]);
                        }
                    }
                }
            }
        }
        proof {
            assert(mid_stack.is_prefix_of(stack@));
            assert forall|d: Cell| in_stack(mid_stack, d) implies in_stack(stack@, d) by {
                let i = choose|i: int| 0 <= i < mid_stack.len() && #[trigger] mid_stack[i]@ == d;
                assert(stack@[i] == mid_stack[i]);
            }
            assert forall|i: int| 0 <= i < mid_stack.len() implies near_component(*map, start, #[trigger] stack@[i]@) by {
                assert(stack@[i] == mid_stack[i]);
                assert(mid_stack[i] == old_stack[i]);
            }
            // the visited cells only grow, by the popped cell
            assert forall|c: Cell| #[trigger] newly_visited(v0, *visit_map, *map, c) && c != p implies newly_visited(v0, old_visit, *map, c) by {
                if !old_visit.filled_cell(c) {
                    assert(visit_map.filled(c.0, c.1) == old_visit.filled(c.0, c.1));
                }
            }
            assert(visit_map.filled_cell(p) || !map.in_bounds(p));
            assert(map.filled_cell(start));
            assert forall|c: Cell| #[trigger] visit_map.filled_cell(c) == (old_visit.filled_cell(c) || (c == p && visit_map.filled_cell(p))) by {
                if c != p {
                    assert(visit_map.filled(c.0, c.1) == old_visit.filled(c.0, c.1));
                }
            }
            assert forall|i: int| 0 <= i < edges@.len() implies ({
                let q = #[trigger] edges@[i].spec_point();
                &&& newly_visited(v0, *visit_map, *map, q)
                &&& edges@[i].spec_dirs() == spec_edge_dirs(*map, q.0, q.1)
                &&& edges@[i].spec_dirs().len() > 0
            }) by {
                if i < old_edges.len() {
                    assert(edges@[i] == old_edges[i]);
                    assert(newly_visited(v0, old_visit, *map, old_edges[i].spec_point()));
                }
            }
            lemma_flood_step(v0, old_visit, *visit_map, *map, old_stack, mid_stack, stack@, old_edges, edges@, p);
            // the visited cells stay among the cells near the shape
            assert forall|c: Cell| #[trigger] visit_map.filled_cell(c) implies v0.filled_cell(c)
                || near_component(*map, start, c) by {
                if c != p {
                    assert(old_visit.filled_cell(c));
                }
            }
            // the loop takes one step of the flood
            sim = flood_step(*map, old_sim);
            steps = steps + 1;
            let vw = |q: PixelPoint| q@;
            assert(old_sim.stack.drop_last() =~= mid_stack.map_values(vw));
            if !map.in_bounds(p) || old_visit.filled_cell(p) || !map.filled_cell(p) {
                assert(stack@ == mid_stack);
                assert(sim.stack =~= stack@.map_values(vw));
                assert(edges@ == old_edges);
                assert(sim.edges == old_sim.edges);
            } else {
                assert(!old_sim.visited.contains(p));
                assert(stack@.map_values(vw) =~= mid_stack.map_values(vw) + side_pushes(p));
                assert(sim.stack =~= stack@.map_values(vw));
                if spec_edge_dirs(*map, p.0, p.1).len() > 0 {
                    assert(edge_points(edges@) =~= edge_points(old_edges).push(p));
                } else {
                    assert(edges@ == old_edges);
                }
            }
            assert forall|c: Cell| #[trigger] map.connected(start, c) implies (sim.visited.contains(c)
                <==> visit_map.filled_cell(c)) by {
                map.lemma_connected_filled(start, c);
                assert(old_sim.visited.contains(c) <==> old_visit.filled_cell(c));
                if c != p {
                    assert(visit_map.filled_cell(c) == old_visit.filled_cell(c));
                }
            }
        }
    }
    proof {
        broadcast use CellGrid::lemma_filled_in_bounds;

        let s = Set::new(|c: Cell| newly_visited(v0, *visit_map, *map, c));
        assert(s.contains(start));
        assert forall|c: Cell, d: Cell|
            #![trigger s.contains(c), adjacent4(c, d)]
            s.contains(c) && adjacent4(c, d) && map.filled_cell(d) implies s.contains(d) by {
            assert(map.in_bounds(d));
            map.lemma_connected_step(start, c, d);
            assert(visit_map.filled_cell(d));
        }
        assert forall|c: Cell| #[trigger] map.connected(start, c) implies newly_visited(v0, *visit_map, *map, c) by {
            map.lemma_closed_set_holds_component(s, start, c);
        }
        assert forall|c: Cell| #[trigger] map.filled_cell(c) implies (visit_map.filled_cell(c) <==> v0.filled_cell(c) || map.connected(start, c)) by {
            if visit_map.filled_cell(c) && !v0.filled_cell(c) {
                assert(newly_visited(v0, *visit_map, *map, c));
            }
            if map.connected(start, c) {
                assert(newly_visited(v0, *visit_map, *map, c));
            }
        }
        // the cells visited are those visited before, the start and the side neighbours of
        // the shape inside the grid
        assert forall|c: Cell| #[trigger] visit_map.filled_cell(c) <==> v0.filled_cell(c) || (
        map.in_bounds(c) && near_component(*map, start, c)) by {
            if !v0.filled_cell(c) && map.in_bounds(c) && near_component(*map, start, c) {
                if c != start {
                    let f = choose|f: Cell| #[trigger] map.connected(start, f) && adjacent4(f, c);
                    assert(newly_visited(v0, *visit_map, *map, f));
                    assert(!in_stack(stack@, c));
                }
            }
            if visit_map.filled_cell(c) {
                assert(visit_map.in_bounds(c));
            }
        }
        assert(sim.stack.len() == 0);
        lemma_flood_order(*map, start, steps);
    }
    edges
}

/// A filled cell that no earlier shape holds starts a new shape
pub open spec fn is_new_leader(g: CellGrid, leaders: Seq<Cell>, c: Cell) -> bool {
    g.filled_cell(c) && forall|k: int| 0 <= k < leaders.len() ==> !g.connected(#[trigger] leaders[k], c)
}

/// The cells at which a scan of the inner cells, before column x, row y, meets a shape for
/// the first time. The scan goes through the columns 1 .. width - 1 and, in each, the rows
/// 1 .. height - 1.
pub open spec fn scan_leaders(g: CellGrid, x: int, y: int) -> Seq<Cell>
    decreases x, y,
{
    if y <= 1 {
        if x <= 1 {
            Seq::empty()
        } else {
            scan_leaders(g, x - 1, g.spec_height() - 1)
        }
    } else {
        let prev = scan_leaders(g, x, y - 1);
        if is_new_leader(g, prev, (x, y - 1)) {
            prev.push((x, y - 1))
        } else {
            prev
        }
    }
}

/// The first cell met of each shape that has an inner cell, in scan order
pub open spec fn shape_leaders(g: CellGrid) -> Seq<Cell> {
    scan_leaders(g, g.spec_width() - 1, 1)
}

/// `s` is the shape made of the cells connected to `leader`: no interior points, the
/// component's edges in the order of a depth-first flood from `leader`, and the bounding box
/// of those edges
pub open spec fn is_component_shape(g: CellGrid, leader: Cell, s: DeformShape) -> bool {
    &&& s.spec_points() == Seq::<PixelPoint>::empty()
    &&& is_component_edges(g, leader, s.spec_edges())
    &&& edge_points(s.spec_edges()) == flood_order(g, leader)
    &&& s.spec_max() == bounds_max(s.spec_edges())
    &&& s.spec_min() == bounds_min(s.spec_edges())
    &&& s.spec_centre() == bounds_centre(s.spec_edges())
}

/// The visited filled cells are exactly those of the shapes found so far
pub open spec fn visited_are_shapes(g: CellGrid, visit: CellGrid, leaders: Seq<Cell>) -> bool {
    forall|c: Cell|
        #[trigger] g.filled_cell(c) ==> (visit.filled_cell(c) <==> exists|k: int|
            0 <= k < leaders.len() && g.connected(leaders[k], c))
}

/// Detects and seperates different shapes within a difference map.
/// Two cells belong to the same shape when a path of filled cells that share sides joins them
/// (diagonals are not connected). Shapes are found in the order in which a scan of the inner
/// cells meets them, and each is described by its edges. Cells outside the grid count as
/// empty.
pub fn multiple(hmap: &CellGrid) -> (shapes: Vec<DeformShape>)
    requires
        hmap.wf(),
    ensures
        shapes@.len() == shape_leaders(*hmap).len(),
        forall|k: int|
            0 <= k < shapes@.len() ==> is_component_shape(
                *hmap,
                shape_leaders(*hmap)[k],
                #[trigger] shapes@[k],
            ),
{
    let w = hmap.width();
    let h = hmap.height();
    let mut shapes: Vec<DeformShape> = Vec::new();
    let mut visit_map = CellGrid::new(w, h);
    let ghost mut leaders: Seq<Cell> = Seq::empty();
    let mut x: usize = 1;
    //Go through every column (ignoring edges)
    while x + 1 < w
        invariant
            hmap.wf(),
            visit_map.wf(),
            w == hmap.spec_width(),
            h == hmap.spec_height(),
            visit_map.spec_width() == w,
            visit_map.spec_height() == h,
            1 <= x,
            x <= w - 1 || x == 1,
            leaders == scan_leaders(*hmap, x as int, 1),
            shapes@.len() == leaders.len(),
            forall|k: int|
                0 <= k < shapes@.len() ==> is_component_shape(*hmap, leaders[k], #[trigger] shapes@[k]),
            visited_are_shapes(*hmap, visit_map, leaders),
        decreases w - x,
    {
        let mut y: usize = 1;
        //Go through every row (ignoring edges)
        while y + 1 < h
            invariant
                hmap.wf(),
                visit_map.wf(),
                w == hmap.spec_width(),
                h == hmap.spec_height(),
                visit_map.spec_width() == w,
                visit_map.spec_height() == h,
                1 <= x < w - 1,
                1 <= y,
                y <= h - 1 || y == 1,
                leaders == scan_leaders(*hmap, x as int, y as int),
                shapes@.len() == leaders.len(),
                forall|k: int|
                    0 <= k < shapes@.len() ==> is_component_shape(*hmap, leaders[k], #[trigger] shapes@[k]),
                visited_are_shapes(*hmap, visit_map, leaders),
            decreases h - y,
        {
            let ghost c: Cell = (x as int, y as int);
            proof {
                assert(scan_leaders(*hmap, x as int, y + 1) == (if is_new_leader(*hmap, leaders, c) {
                    leaders.push(c)
                } else {
                    leaders
                }));
            }
            //Check if the cell has been visited, and that it is part of a shape
            if !visit_map.is_filled(x, y) && hmap.is_filled(x, y) {
                proof {
                    assert forall|v: Cell|
                        #[trigger] visit_map.filled_cell(v) && hmap.filled_cell(v) implies !hmap.connected(c, v) by {
                        if hmap.connected(c, v) {
                            let k = choose|k: int| 0 <= k < leaders.len() && hmap.connected(leaders[k], v);
                            hmap.lemma_connected_symm(c, v);
                            hmap.lemma_connected_trans(leaders[k], v, c);
                            assert(hmap.filled_cell(c));
                        }
                    }
                    assert forall|k: int| 0 <= k < leaders.len() implies !hmap.connected(#[trigger] leaders[k], c) by {
                        if hmap.connected(leaders[k], c) {
                            assert(hmap.filled_cell(c));
                        }
                    }
                    assert(is_new_leader(*hmap, leaders, c));
                }
                let ghost old_visit = visit_map;
                let ghost old_shapes = shapes@;
                //Generate a new edge set based on a flooding algorithm
                let shape_edges = flood_fill(hmap, &mut visit_map, PixelPoint::create(x, y));
                shapes.push(DeformShape::create(shape_edges, Vec::new()));
                proof {
                    let new_leaders = leaders.push(c);
                    assert forall|k: int|
                        0 <= k < shapes@.len() implies is_component_shape(*hmap, new_leaders[k], #[trigger] shapes@[k]) by {
                        if k < old_shapes.len() {
                            assert(shapes@[k] == old_shapes[k]);
                        }
                    }
                    assert forall|v: Cell| #[trigger] hmap.filled_cell(v) implies (visit_map.filled_cell(v) <==> exists|k: int|
                        0 <= k < new_leaders.len() && hmap.connected(new_leaders[k], v)) by {
                        if old_visit.filled_cell(v) {
                            let k = choose|k: int| 0 <= k < leaders.len() && hmap.connected(leaders[k], v);
                            assert(new_leaders[k] == leaders[k]);
                        }
                        if hmap.connected(c, v) {
                            assert(new_leaders[leaders.len() as int] == c);
                        }
                        if exists|k: int| 0 <= k < new_leaders.len() && hmap.connected(new_leaders[k], v) {
                            let k = choose|k: int| 0 <= k < new_leaders.len() && hmap.connected(new_leaders[k], v);
                            if k < leaders.len() {
                                assert(new_leaders[k] == leaders[k]);
                            }
                        }
                    }
                    leaders = new_leaders;
                }
            } else {
                proof {
                    if hmap.filled_cell(c) {
                        let k = choose|k: int| 0 <= k < leaders.len() && hmap.connected(leaders[k], c);
                        assert(!is_new_leader(*hmap, leaders, c));
                    }
                }
            }
            y = y + 1;
        }
        proof {
            assert(scan_leaders(*hmap, x + 1, 1) == scan_leaders(*hmap, x as int, h - 1));
            if h < 2 {
                assert(scan_leaders(*hmap, x as int, h - 1) == scan_leaders(*hmap, x as int, 1));
            }
        }
        x = x + 1;
    }
    shapes
}

/// `s` is the single shape that `simple` finds on the grid
pub open spec fn is_simple_shape(g: CellGrid, s: DeformShape) -> bool {
    &&& edges_match_cells(g, s.spec_edges(), g.boundary_cells())
    &&& s.spec_points() == Seq::<PixelPoint>::empty()
    &&& s.spec_max() == bounds_max(s.spec_edges())
    &&& s.spec_min() == bounds_min(s.spec_edges())
    &&& s.spec_centre() == bounds_centre(s.spec_edges())
}

/// `shapes` are the shapes that `multiple` finds on the grid, one per connected shape in
/// scan order
pub open spec fn are_component_shapes(g: CellGrid, shapes: Seq<DeformShape>) -> bool {
    &&& shapes.len() == shape_leaders(g).len()
    &&& forall|k: int|
        0 <= k < shapes.len() ==> is_component_shape(g, shape_leaders(g)[k], #[trigger] shapes[k])
}

/// The shapes that a detection mode works on: scattering works on one shape made of all the
/// edges of the grid, the other modes on each connected shape
pub fn detect_shapes(hmap: &CellGrid, mode: &DetectionMode) -> (shapes: Vec<DeformShape>)
    requires
        hmap.wf(),
    ensures
        match *mode {
            DetectionMode::SCATTERSHOT => shapes@.len() == 1 && is_simple_shape(*hmap, shapes@[0]),
            _ => are_component_shapes(*hmap, shapes@),
        },
{
    match mode {
        DetectionMode::SCATTERSHOT => {
            let shape = simple(hmap);
            let shapes = vec![shape];
            proof {
                assert(shapes@[0] == shape);
            }
            shapes
        },
        _ => multiple(hmap),
    }
}

/// Cell `c` comes before column x, row y in the scan of the inner cells
pub open spec fn scanned_before(g: CellGrid, x: int, y: int, c: Cell) -> bool {
    ||| 1 <= c.0 < x && 1 <= c.1 < g.spec_height() - 1
    ||| c.0 == x && 1 <= c.1 < y
}

/// The shapes met before column x, row y of the scan are distinct (no two are connected),
/// their first cells are filled cells met by the scan, and every filled cell met by the scan
/// belongs to one of them
pub proof fn lemma_scan_leaders(g: CellGrid, x: int, y: int)
    ensures
        forall|k: int, j: int|
            0 <= k < j < scan_leaders(g, x, y).len() ==> !g.connected(
                #[trigger] scan_leaders(g, x, y)[k],
                #[trigger] scan_leaders(g, x, y)[j],
            ),
        forall|k: int|
            0 <= k < scan_leaders(g, x, y).len() ==> g.filled_cell(#[trigger] scan_leaders(g, x, y)[k])
                && scanned_before(g, x, y, scan_leaders(g, x, y)[k]),
        forall|c: Cell|
            scanned_before(g, x, y, c) && #[trigger] g.filled_cell(c) ==> exists|k: int|
                0 <= k < scan_leaders(g, x, y).len() && g.connected(scan_leaders(g, x, y)[k], c),
    decreases x, y,
{
    if y <= 1 {
        if x > 1 {
            lemma_scan_leaders(g, x - 1, g.spec_height() - 1);
            assert(scan_leaders(g, x, y) == scan_leaders(g, x - 1, g.spec_height() - 1));
            assert forall|c: Cell| scanned_before(g, x, y, c) implies scanned_before(g, x - 1, g.spec_height() - 1, c) by {
            }
        } else {
            assert(scan_leaders(g, x, y) == Seq::<Cell>::empty());
        }
    } else {
        lemma_scan_leaders(g, x, y - 1);
        let prev = scan_leaders(g, x, y - 1);
        let c: Cell = (x, y - 1);
        let cur = scan_leaders(g, x, y);
        if is_new_leader(g, prev, c) {
            assert(cur == prev.push(c));
            assert forall|k: int, j: int| 0 <= k < j < cur.len() implies !g.connected(
                #[trigger] cur[k],
                #[trigger] cur[j],
            ) by {
                if j == prev.len() {
                    assert(cur[k] == prev[k]);
                } else {
                    assert(cur[k] == prev[k]);
                    assert(cur[j] == prev[j]);
                }
            }
            assert forall|k: int| 0 <= k < cur.len() implies g.filled_cell(#[trigger] cur[k])
                && scanned_before(g, x, y, cur[k]) by {
                if k < prev.len() {
                    assert(cur[k] == prev[k]);
                }
            }
            assert forall|d: Cell| scanned_before(g, x, y, d) && #[trigger] g.filled_cell(d) implies exists|k: int|
                0 <= k < cur.len() && g.connected(cur[k], d) by {
                if d == c {
                    g.lemma_connected_refl(c);
                    assert(cur[prev.len() as int] == c);
                } else {
                    assert(scanned_before(g, x, y - 1, d));
                    let k = choose|k: int| 0 <= k < prev.len() && g.connected(prev[k], d);
                    assert(cur[k] == prev[k]);
                }
            }
        } else {
            assert(cur == prev);
            assert forall|d: Cell| scanned_before(g, x, y, d) && #[trigger] g.filled_cell(d) implies exists|k: int|
                0 <= k < cur.len() && g.connected(cur[k], d) by {
                if d == c {
                    let k = choose|k: int| 0 <= k < prev.len() && g.connected(#[trigger] prev[k], c);
                    assert(g.connected(cur[k], d));
                } else {
                    assert(scanned_before(g, x, y - 1, d));
                }
            }
        }
    }
}

/// The shapes found by `multiple` are distinct: the first cells of two different shapes are
/// never connected, so no cell belongs to two shapes
pub proof fn lemma_shapes_distinct(g: CellGrid, k: int, j: int, c: Cell)
    requires
        0 <= k < shape_leaders(g).len(),
        0 <= j < shape_leaders(g).len(),
        k != j,
    ensures
        !g.connected(shape_leaders(g)[k], shape_leaders(g)[j]),
        !(g.connected(shape_leaders(g)[k], c) && g.connected(shape_leaders(g)[j], c)),
{
    lemma_scan_leaders(g, g.spec_width() - 1, 1);
    let l = shape_leaders(g);
    if k < j {
        assert(!g.connected(l[k], l[j]));
    } else {
        assert(!g.connected(l[j], l[k]));
        if g.connected(l[k], l[j]) {
            g.lemma_connected_symm(l[k], l[j]);
        }
    }
    if g.connected(l[k], c) && g.connected(l[j], c) {
        g.lemma_connected_symm(l[j], c);
        g.lemma_connected_trans(l[k], c, l[j]);
    }
}

/// Every filled inner cell (not on the border of the grid) belongs to one of the shapes found
/// by `multiple`
pub proof fn lemma_inner_cells_covered(g: CellGrid, c: Cell)
    requires
        1 <= c.0 < g.spec_width() - 1,
        1 <= c.1 < g.spec_height() - 1,
        g.filled_cell(c),
    ensures
        exists|k: int| 0 <= k < shape_leaders(g).len() && g.connected(shape_leaders(g)[k], c),
{
    lemma_scan_leaders(g, g.spec_width() - 1, 1);
    assert(scanned_before(g, g.spec_width() - 1, 1, c));
    assert(g.filled_cell(c));
    let k = choose|k: int|
        #![trigger scan_leaders(g, g.spec_width() - 1, 1)[k]]
        0 <= k < scan_leaders(g, g.spec_width() - 1, 1).len() && g.connected(
            scan_leaders(g, g.spec_width() - 1, 1)[k],
            c,
        );
    assert(shape_leaders(g)[k] == scan_leaders(g, g.spec_width() - 1, 1)[k]);
}

/// No cell is an edge of two different shapes found by `multiple`
pub proof fn lemma_shape_edges_disjoint(g: CellGrid, shapes: Seq<DeformShape>, k: int, j: int, i1: int, i2: int)
    requires
        shapes.len() == shape_leaders(g).len(),
        forall|n: int| 0 <= n < shapes.len() ==> is_component_shape(g, shape_leaders(g)[n], #[trigger] shapes[n]),
        0 <= k < shapes.len(),
        0 <= j < shapes.len(),
        k != j,
        0 <= i1 < shapes[k].spec_edges().len(),
        0 <= i2 < shapes[j].spec_edges().len(),
    ensures
        shapes[k].spec_edges()[i1].spec_point() != shapes[j].spec_edges()[i2].spec_point(),
{
    let c = shapes[k].spec_edges()[i1].spec_point();
    assert(is_component_shape(g, shape_leaders(g)[k], shapes[k]));
    assert(is_component_shape(g, shape_leaders(g)[j], shapes[j]));
    assert(g.connected(shape_leaders(g)[k], c));
    lemma_shapes_distinct(g, k, j, c);
}

} // verus!
