use deformpath::grid::CellGrid;
use deformpath::pathgen;
use deformpath::trajectorygen::edgedetection::{detect_shapes, multiple, simple};
use deformpath::trajectorygen::types::{
    edge_vector_to_hash, shape_map_layout, DeformShape, Direction, PixelPoint, ShapeEdge,
};
use deformpath::trajectorygen::DetectionMode;

/// A grid of the given size with the cells of the rectangle [x0, x1] x [y0, y1] filled
fn grid_with_block(w: usize, h: usize, x0: usize, x1: usize, y0: usize, y1: usize) -> CellGrid {
    let mut g = CellGrid::new(w, h);
    fill_block(&mut g, x0, x1, y0, y1);
    g
}

fn fill_block(g: &mut CellGrid, x0: usize, x1: usize, y0: usize, y1: usize) {
    for x in x0..=x1 {
        for y in y0..=y1 {
            g.set_filled(x, y, true);
        }
    }
}

fn sorted_positions(edges: &Vec<ShapeEdge>) -> Vec<(usize, usize)> {
    let mut v: Vec<(usize, usize)> = edges.iter().map(|e| e.pos()).collect();
    v.sort();
    v
}

#[test]
fn grid_cells() {
    let mut g = CellGrid::new(3, 2);
    assert_eq!(g.width(), 3);
    assert_eq!(g.height(), 2);
    assert!(!g.is_filled(2, 1));
    g.set_filled(2, 1, true);
    assert!(g.is_filled(2, 1));
    assert!(!g.is_filled(7, 7));
    assert!(g.neighbour_empty(2, 1, 2, 1));
    assert!(!g.neighbour_empty(1, 1, 2, 1));
}

#[test]
fn simple_finds_the_ring_of_a_block() {
    let g = grid_with_block(5, 5, 1, 3, 1, 3);
    let shape = simple(&g);
    let cells: Vec<(usize, usize)> = shape.edges().iter().map(|e| e.pos()).collect();
    assert_eq!(
        cells,
        vec![(1, 1), (1, 2), (1, 3), (2, 1), (2, 3), (3, 1), (3, 2), (3, 3)]
    );
    assert_eq!(
        shape.edges()[0].dir(),
        vec![
            Direction::NORTHWEST,
            Direction::WEST,
            Direction::SOUTHWEST,
            Direction::NORTH,
            Direction::NORTHEAST
        ]
    );
    assert_eq!(shape.edges()[1].dir(), vec![Direction::NORTHWEST, Direction::WEST, Direction::SOUTHWEST]);
    assert_eq!(shape.min().as_xy(), (1, 1));
    assert_eq!(shape.max().as_xy(), (3, 3));
    assert_eq!(shape.centre().as_xy(), (2, 2));
    assert_eq!(shape.all_points().len(), 8);
}

#[test]
fn simple_on_an_empty_grid_finds_nothing() {
    let g = CellGrid::new(4, 4);
    let shape = simple(&g);
    assert!(shape.edges().is_empty());
    let tiny = CellGrid::new(0, 0);
    assert!(simple(&tiny).edges().is_empty());
}

#[test]
fn multiple_separates_two_blocks() {
    let mut g = grid_with_block(9, 6, 1, 2, 1, 2);
    fill_block(&mut g, 5, 7, 2, 4);
    let shapes = multiple(&g);
    assert_eq!(shapes.len(), 2);
    assert_eq!(sorted_positions(shapes[0].edges()), vec![(1, 1), (1, 2), (2, 1), (2, 2)]);
    assert_eq!(
        sorted_positions(shapes[1].edges()),
        vec![(5, 2), (5, 3), (5, 4), (6, 2), (6, 4), (7, 2), (7, 3), (7, 4)]
    );
    assert_eq!(shapes[1].min().as_xy(), (5, 2));
    assert_eq!(shapes[1].max().as_xy(), (7, 4));
    assert_eq!(shapes[1].centre().as_xy(), (6, 3));
}

#[test]
fn multiple_does_not_join_diagonal_cells() {
    let mut g = CellGrid::new(5, 5);
    g.set_filled(1, 1, true);
    g.set_filled(2, 2, true);
    let shapes = multiple(&g);
    assert_eq!(shapes.len(), 2);
    assert_eq!(sorted_positions(shapes[0].edges()), vec![(1, 1)]);
    assert_eq!(sorted_positions(shapes[1].edges()), vec![(2, 2)]);
}

#[test]
fn multiple_joins_cells_that_share_a_side() {
    let mut g = CellGrid::new(6, 6);
    g.set_filled(1, 1, true);
    g.set_filled(1, 2, true);
    g.set_filled(2, 2, true);
    g.set_filled(3, 2, true);
    let shapes = multiple(&g);
    assert_eq!(shapes.len(), 1);
    assert_eq!(sorted_positions(shapes[0].edges()), vec![(1, 1), (1, 2), (2, 2), (3, 2)]);
}

#[test]
fn multiple_on_an_empty_grid_finds_no_shape() {
    assert!(multiple(&CellGrid::new(5, 5)).is_empty());
}

#[test]
fn pixel_points() {
    let mut p = PixelPoint::create(3, 4);
    assert_eq!(p.as_xy(), (3, 4));
    assert_eq!((p.x(), p.y()), (3, 4));
    p.add_x(2);
    assert_eq!(p.as_xy(), (5, 4));
    // add_y moves the point along x, as it always has
    p.add_y(1);
    assert_eq!(p.as_xy(), (6, 4));
    let sum = PixelPoint::create(1, 2) + PixelPoint::create(3, 5);
    assert_eq!(sum.as_xy(), (4, 7));
    let half = PixelPoint::create(7, 4) / 2;
    assert_eq!(half.as_xy(), (3, 2));
    assert_eq!(PixelPoint::default().as_xy(), (0, 0));
    let flat = PixelPoint::destruct_vec_copy(&vec![
        vec![PixelPoint::create(1, 2)],
        vec![],
        vec![PixelPoint::create(3, 4), PixelPoint::create(5, 6)],
    ]);
    assert_eq!(flat, vec![(1, 2), (3, 4), (5, 6)]);
}

#[test]
fn shape_edges_and_lookup() {
    let a = ShapeEdge::create(2, 3, vec![Direction::NORTH]);
    let b = ShapeEdge::new(&4, &1, vec![Direction::EAST, Direction::SOUTH]);
    assert_eq!(a.pos(), (2, 3));
    assert_eq!((b.x(), b.y()), (4, 1));
    assert_eq!(b.point(), PixelPoint::create(4, 1));
    assert_eq!(b.dir(), vec![Direction::EAST, Direction::SOUTH]);
    let c = ShapeEdge::create(2, 3, vec![Direction::WEST]);
    let edges = vec![a, b, c];
    assert!(ShapeEdge::in_edge_list(&edges, &PixelPoint::create(4, 1)));
    assert!(!ShapeEdge::in_edge_list(&edges, &PixelPoint::create(1, 4)));
    let map = edge_vector_to_hash(&edges);
    assert_eq!(map.len(), 2);
    // the later edge on a cell replaces the earlier one
    assert_eq!(map[&(2, 3)], vec![Direction::WEST]);
    assert_eq!(map[&(4, 1)], vec![Direction::EAST, Direction::SOUTH]);
}

#[test]
fn shape_bounds_and_centre() {
    let edges = vec![
        ShapeEdge::create(2, 9, vec![Direction::NORTH]),
        ShapeEdge::create(7, 4, vec![Direction::NORTH]),
        ShapeEdge::create(5, 6, vec![Direction::NORTH]),
    ];
    let shape = DeformShape::create(edges, vec![PixelPoint::create(5, 5)]);
    assert_eq!(shape.min().as_xy(), (2, 4));
    assert_eq!(shape.max().as_xy(), (7, 9));
    assert_eq!(shape.centre().as_xy(), (4, 6));
    assert_eq!(shape.x_range(), 2..7);
    assert_eq!(shape.y_range(), 4..9);
    assert_eq!(shape.x_range_no_edge(), 3..6);
    assert_eq!(shape.y_range_no_edge(), 5..8);
    let all: Vec<(usize, usize)> = shape.all_points().iter().map(|p| p.as_xy()).collect();
    assert_eq!(all, vec![(5, 5), (2, 9), (7, 4), (5, 6)]);
    // every edge lies inside the box, and the centre too
    for e in shape.edges() {
        let (x, y) = e.pos();
        assert!(2 <= x && x <= 7 && 4 <= y && y <= 9);
    }
}

#[test]
fn shape_without_edges() {
    let shape = DeformShape::create(vec![], vec![]);
    assert_eq!(shape.max().as_xy(), (0, 0));
    assert_eq!(shape.min().as_xy(), (1001, 1001));
    let d = DeformShape::default();
    assert!(d.edges().is_empty());
    assert_eq!(d.centre().as_xy(), (0, 0));
}

#[test]
fn older_edge_detection_and_shape() {
    let g = grid_with_block(5, 5, 1, 3, 1, 3);
    let edges = pathgen::edgedetection::simple(&g);
    let cells: Vec<(usize, usize)> = edges.iter().map(|e| e.pos()).collect();
    assert_eq!(
        cells,
        vec![(1, 1), (1, 2), (1, 3), (2, 1), (2, 3), (3, 1), (3, 2), (3, 3)]
    );
    assert_eq!(edges[0].cell().as_xy(), (1, 1));
    assert_eq!(
        edges[0].dir(),
        vec![
            pathgen::types::Direction::NORTHWEST,
            pathgen::types::Direction::NORTH,
            pathgen::types::Direction::NORTHEAST,
            pathgen::types::Direction::WEST,
            pathgen::types::Direction::SOUTHWEST
        ]
    );
    let shape = pathgen::types::DeformShape::from(edges);
    assert_eq!(shape.centre().as_xy(), (2, 2));
    assert_eq!(shape.edges().len(), 8);
}

#[test]
fn older_shape_centre_of_uneven_edges() {
    let edges = vec![
        pathgen::types::Edge::create(1, 8, vec![]),
        pathgen::types::Edge::create(6, 2, vec![]),
    ];
    let shape = pathgen::types::DeformShape::from(edges);
    assert_eq!(shape.centre().as_xy(), (3, 5));
}

fn positions(edges: &Vec<ShapeEdge>) -> Vec<(usize, usize)> {
    edges.iter().map(|e| e.pos()).collect()
}

#[test]
fn multiple_lists_edges_in_flood_order() {
    let mut g = grid_with_block(9, 6, 1, 2, 1, 2);
    fill_block(&mut g, 5, 7, 2, 4);
    let shapes = multiple(&g);
    assert_eq!(positions(shapes[0].edges()), vec![(1, 1), (1, 2), (2, 2), (2, 1)]);
    assert_eq!(
        positions(shapes[1].edges()),
        vec![(5, 2), (5, 3), (5, 4), (6, 4), (6, 2), (7, 2), (7, 3), (7, 4)]
    );
}

#[test]
fn detection_modes_pick_their_shapes() {
    let mut g = grid_with_block(9, 6, 1, 2, 1, 2);
    fill_block(&mut g, 5, 7, 2, 4);
    let one = detect_shapes(&g, &DetectionMode::SCATTERSHOT);
    assert_eq!(one.len(), 1);
    assert_eq!(one[0].edges().len(), 12);
    assert_eq!(one[0].min().as_xy(), (1, 1));
    assert_eq!(one[0].max().as_xy(), (7, 4));
    assert_eq!(detect_shapes(&g, &DetectionMode::SIMPLE).len(), 2);
    assert_eq!(detect_shapes(&g, &DetectionMode::VORONOI).len(), 2);
}

#[test]
fn shape_map_layout_of_a_shape() {
    let edges = vec![
        ShapeEdge::create(2, 9, vec![Direction::NORTH]),
        ShapeEdge::create(7, 4, vec![Direction::NORTH]),
        ShapeEdge::create(5, 6, vec![Direction::NORTH]),
    ];
    let shape = DeformShape::create(edges, vec![]);
    let ((w, h), offsets) = shape_map_layout(&shape).unwrap();
    assert_eq!((w, h), (6, 6));
    assert_eq!(offsets, vec![(0, 5), (5, 0), (3, 2)]);
}

#[test]
fn shape_map_layout_undefined_for_an_empty_shape() {
    assert!(shape_map_layout(&DeformShape::create(vec![], vec![])).is_none());
    let ((w, h), offsets) = shape_map_layout(&DeformShape::default()).unwrap();
    assert_eq!((w, h), (1, 1));
    assert!(offsets.is_empty());
}
