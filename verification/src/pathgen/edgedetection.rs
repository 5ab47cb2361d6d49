//! Methods to detect the edges of earthshapes
use vstd::prelude::*;
use crate::grid::CellGrid;
use crate::pathgen::types::{Direction, Edge};

verus! {

/// `seq![d]` when `b` holds, else the empty sequence
pub open spec fn dir_if(b: bool, d: Direction) -> Seq<Direction> {
    if b {
        seq![d]
    } else {
        Seq::empty()
    }
}

/// The directions in which the cell (i, j) borders an empty cell, in the order
/// north-west, north, north-east, west, east, south-west, south, south-east
/// (north is i - 1, west is j - 1)
pub open spec fn spec_surrounding(g: CellGrid, i: int, j: int) -> Seq<Direction> {
    dir_if(!g.filled(i - 1, j - 1), Direction::NORTHWEST) + dir_if(
        !g.filled(i - 1, j),
        Direction::NORTH,
    ) + dir_if(!g.filled(i - 1, j + 1), Direction::NORTHEAST) + dir_if(
        !g.filled(i, j - 1),
        Direction::WEST,
    ) + dir_if(!g.filled(i, j + 1), Direction::EAST) + dir_if(
        !g.filled(i + 1, j - 1),
        Direction::SOUTHWEST,
    ) + dir_if(!g.filled(i + 1, j), Direction::SOUTH) + dir_if(
        !g.filled(i + 1, j + 1),
        Direction::SOUTHEAST,
    )
}

/// A cell has edge directions exactly when one of its eight neighbours is empty
pub proof fn lemma_surrounding_nonempty(g: CellGrid, i: int, j: int)
    ensures
        spec_surrounding(g, i, j).len() > 0 <==> g.has_empty_neighbour8(i, j),
{
    let a = dir_if(!g.filled(i - 1, j - 1), Direction::NORTHWEST);
    let b = dir_if(!g.filled(i - 1, j), Direction::NORTH);
    let c = dir_if(!g.filled(i - 1, j + 1), Direction::NORTHEAST);
    let d = dir_if(!g.filled(i, j - 1), Direction::WEST);
    let e = dir_if(!g.filled(i, j + 1), Direction::EAST);
    let f = dir_if(!g.filled(i + 1, j - 1), Direction::SOUTHWEST);
    let h = dir_if(!g.filled(i + 1, j), Direction::SOUTH);
    let k = dir_if(!g.filled(i + 1, j + 1), Direction::SOUTHEAST);
    assert(spec_surrounding(g, i, j) == a + b + c + d + e + f + h + k);
    assert((a + b + c + d + e + f + h + k).len() == a.len() + b.len() + c.len() + d.len() + e.len()
        + f.len() + h.len() + k.len());
}

/// `dir_if(b, d)` holds `e` exactly when `b` holds and `e` is `d`
proof fn lemma_dir_if_contains(b: bool, d: Direction, e: Direction)
    ensures
        dir_if(b, d).contains(e) <==> (b && e == d),
{
    if b && e == d {
        assert(dir_if(b, d)[0] == e);
    }
}

/// The directions of cell (i, j) name its empty neighbours, north being i - 1 and west j - 1:
/// each direction is listed exactly when the neighbour at that offset is empty
pub proof fn lemma_surrounding_compass(g: CellGrid, i: int, j: int)
    ensures
        spec_surrounding(g, i, j).contains(Direction::NORTH) <==> !g.filled(i - 1, j),
        spec_surrounding(g, i, j).contains(Direction::SOUTH) <==> !g.filled(i + 1, j),
        spec_surrounding(g, i, j).contains(Direction::WEST) <==> !g.filled(i, j - 1),
        spec_surrounding(g, i, j).contains(Direction::EAST) <==> !g.filled(i, j + 1),
        spec_surrounding(g, i, j).contains(Direction::NORTHWEST) <==> !g.filled(i - 1, j - 1),
        spec_surrounding(g, i, j).contains(Direction::NORTHEAST) <==> !g.filled(i - 1, j + 1),
        spec_surrounding(g, i, j).contains(Direction::SOUTHWEST) <==> !g.filled(i + 1, j - 1),
        spec_surrounding(g, i, j).contains(Direction::SOUTHEAST) <==> !g.filled(i + 1, j + 1),
{
    broadcast use vstd::seq_lib::lemma_seq_concat_contains_all_elements;

    let a = dir_if(!g.filled(i - 1, j - 1), Direction::NORTHWEST);
    let b = dir_if(!g.filled(i - 1, j), Direction::NORTH);
    let c = dir_if(!g.filled(i - 1, j + 1), Direction::NORTHEAST);
    let d = dir_if(!g.filled(i, j - 1), Direction::WEST);
    let e = dir_if(!g.filled(i, j + 1), Direction::EAST);
    let f = dir_if(!g.filled(i + 1, j - 1), Direction::SOUTHWEST);
    let h = dir_if(!g.filled(i + 1, j), Direction::SOUTH);
    let k = dir_if(!g.filled(i + 1, j + 1), Direction::SOUTHEAST);
    assert(spec_surrounding(g, i, j) == a + b + c + d + e + f + h + k);
    assert forall|dir: Direction| true implies {
        &&& a.contains(dir) <==> (!g.filled(i - 1, j - 1) && dir == Direction::NORTHWEST)
        &&& b.contains(dir) <==> (!g.filled(i - 1, j) && dir == Direction::NORTH)
        &&& c.contains(dir) <==> (!g.filled(i - 1, j + 1) && dir == Direction::NORTHEAST)
        &&& d.contains(dir) <==> (!g.filled(i, j - 1) && dir == Direction::WEST)
        &&& e.contains(dir) <==> (!g.filled(i, j + 1) && dir == Direction::EAST)
        &&& f.contains(dir) <==> (!g.filled(i + 1, j - 1) && dir == Direction::SOUTHWEST)
        &&& h.contains(dir) <==> (!g.filled(i + 1, j) && dir == Direction::SOUTH)
        &&& k.contains(dir) <==> (!g.filled(i + 1, j + 1) && dir == Direction::SOUTHEAST)
    } by {
        lemma_dir_if_contains(!g.filled(i - 1, j - 1), Direction::NORTHWEST, dir);
        lemma_dir_if_contains(!g.filled(i - 1, j), Direction::NORTH, dir);
        lemma_dir_if_contains(!g.filled(i - 1, j + 1), Direction::NORTHEAST, dir);
        lemma_dir_if_contains(!g.filled(i, j - 1), Direction::WEST, dir);
        lemma_dir_if_contains(!g.filled(i, j + 1), Direction::EAST, dir);
        lemma_dir_if_contains(!g.filled(i + 1, j - 1), Direction::SOUTHWEST, dir);
        lemma_dir_if_contains(!g.filled(i + 1, j), Direction::SOUTH, dir);
        lemma_dir_if_contains(!g.filled(i + 1, j + 1), Direction::SOUTHEAST, dir);
    }
}

fn push_if(dirs: &mut Vec<Direction>, b: bool, d: Direction)
    ensures
        final(dirs)@ == old(dirs)@ + dir_if(b, d),
{
    if b {
        dirs.push(d);
    }
    proof {
        assert(final(dirs)@ =~= old(dirs)@ + dir_if(b, d));
    }
}

///Return the direction(s) of edges if there are any for a cell
fn check_surrounding(hmap: &CellGrid, i: usize, j: usize) -> (dirs: Vec<Direction>)
    requires
        hmap.wf(),
        i < hmap.spec_width(),
        j < hmap.spec_height(),
    ensures
        dirs@ == spec_surrounding(*hmap, i as int, j as int),
{
    let mut dirs: Vec<Direction> = Vec::new();
    push_if(&mut dirs, hmap.neighbour_empty(i, j, 0, 0), Direction::NORTHWEST);
    push_if(&mut dirs, hmap.neighbour_empty(i, j, 0, 1), Direction::NORTH);
    push_if(&mut dirs, hmap.neighbour_empty(i, j, 0, 2), Direction::NORTHEAST);
    push_if(&mut dirs, hmap.neighbour_empty(i, j, 1, 0), Direction::WEST);
    push_if(&mut dirs, hmap.neighbour_empty(i, j, 1, 2), Direction::EAST);
    push_if(&mut dirs, hmap.neighbour_empty(i, j, 2, 0), Direction::SOUTHWEST);
    push_if(&mut dirs, hmap.neighbour_empty(i, j, 2, 1), Direction::SOUTH);
    push_if(&mut dirs, hmap.neighbour_empty(i, j, 2, 2), Direction::SOUTHEAST);
    proof {
        assert(dirs@ =~= spec_surrounding(*hmap, i as int, j as int));
    }
    dirs
}

/// The edge list is exactly the boundary cells `cells`, in order, each with its directions
pub open spec fn edges_match_cells(g: CellGrid, edges: Seq<Edge>, cells: Seq<(int, int)>) -> bool {
    &&& edges.len() == cells.len()
    &&& forall|k: int|
        0 <= k < edges.len() ==> #[trigger] edges[k].spec_cell() == cells[k]
            && edges[k].spec_dirs() == spec_surrounding(g, cells[k].0, cells[k].1)
}

//Assumes that there is only one shape
//Goes through each cell and checks to see if there is an empty cell next to it
/// Cells outside the grid count as empty.
pub fn simple(hmap: &CellGrid) -> (edges: Vec<Edge>)
    requires
        hmap.wf(),
    ensures
        edges_match_cells(*hmap, edges@, hmap.boundary_cells()),
{
    let w = hmap.width();
    let h = hmap.height();
    let mut edges: Vec<Edge> = Vec::new();
    let mut i: usize = 1;
    //Go through every column (ignoring edges)
    while i + 1 < w
        invariant
            hmap.wf(),
            w == hmap.spec_width(),
            h == hmap.spec_height(),
            1 <= i,
            i <= w - 1 || i == 1,
            edges_match_cells(*hmap, edges@, hmap.scan_boundary(i as int, 1)),
        decreases w - i,
    {
        let mut j: usize = 1;
        //Go through every row (ignoring edges)
        while j + 1 < h
            invariant
                hmap.wf(),
                w == hmap.spec_width(),
                h == hmap.spec_height(),
                1 <= i < w - 1,
                1 <= j,
                j <= h - 1 || j == 1,
                edges_match_cells(*hmap, edges@, hmap.scan_boundary(i as int, j as int)),
            decreases h - j,
        {
            proof {
                lemma_surrounding_nonempty(*hmap, i as int, j as int);
            }
            if hmap.is_filled(i, j) {
                let dirs = check_surrounding(hmap, i, j);
                if dirs.len() > 0 {
                    edges.push(Edge::create(i, j, dirs));
                }
            }
            j = j + 1;
        }
        proof {
            assert(hmap.scan_boundary(i + 1, 1) == hmap.scan_boundary(i as int, h - 1));
            if h < 2 {
                assert(hmap.scan_boundary(i as int, h - 1) == hmap.scan_boundary(i as int, 1));
            }
        }
        i = i + 1;
    }
    edges
}

} // verus!
