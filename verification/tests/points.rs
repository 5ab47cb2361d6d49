use deformpath::grid::CellGrid;
use deformpath::trajectorygen::edgedetection::simple as detect;
use deformpath::trajectorygen::pointgen::{
    scatter_candidates, scattershot, simple, spread_points, voronoi_gen, voronoi_relax, voronoi_step,
};
use deformpath::trajectorygen::types::{DeformShape, PixelPoint};

/// The shape of the ring of a 3 x 3 block at columns and rows 1 ..= 3
fn ring_shape() -> DeformShape {
    let mut g = CellGrid::new(5, 5);
    for x in 1..=3 {
        for y in 1..=3 {
            g.set_filled(x, y, true);
        }
    }
    detect(&g)
}

fn xy(points: &Vec<PixelPoint>) -> Vec<(usize, usize)> {
    points.iter().map(|p| p.as_xy()).collect()
}

fn pts(cells: &[(usize, usize)]) -> Vec<PixelPoint> {
    cells.iter().map(|&(x, y)| PixelPoint::create(x, y)).collect()
}

#[test]
fn simple_keeps_spaced_points() {
    let shapes = vec![ring_shape()];
    let every_other_row = simple(&shapes, 1, 2);
    assert_eq!(
        xy(&every_other_row),
        vec![(1, 1), (1, 3), (2, 1), (2, 3), (3, 1), (3, 3)]
    );
    let even_columns = simple(&shapes, 2, 2);
    assert_eq!(xy(&even_columns), vec![(2, 1), (2, 3)]);
    let all = simple(&shapes, 1, 1);
    assert_eq!(all.len(), 8);
}

#[test]
fn simple_with_zero_spacing_keeps_nothing() {
    let shapes = vec![ring_shape()];
    assert!(simple(&shapes, 1, 0).is_empty());
    assert!(simple(&vec![], 3, 3).is_empty());
}

#[test]
fn simple_goes_shape_by_shape() {
    let shapes = vec![ring_shape(), ring_shape()];
    let points = simple(&shapes, 2, 2);
    assert_eq!(xy(&points), vec![(2, 1), (2, 3), (2, 1), (2, 3)]);
}

#[test]
fn candidates_are_the_shape_cells_in_range() {
    let shape = ring_shape();
    assert_eq!(xy(&scatter_candidates(&shape)), vec![(1, 1), (1, 2), (2, 1)]);
}

#[test]
fn scattershot_places_points_in_each_shape() {
    let shapes = vec![ring_shape(), ring_shape()];
    let points = scattershot(&shapes, 40);
    assert_eq!(points.len(), 80);
    let allowed = [(1, 1), (1, 2), (2, 1)];
    for p in &points {
        assert!(allowed.contains(&p.as_xy()));
    }
    // the draws are random: forty of them do not all land on one cell
    let first = points[0].as_xy();
    assert!(points[..40].iter().any(|p| p.as_xy() != first));
}

#[test]
fn scattershot_with_no_points_asked() {
    let shapes = vec![ring_shape()];
    assert!(scattershot(&shapes, 0).is_empty());
}

#[test]
fn voronoi_step_moves_foci_to_centroids() {
    let shape = ring_shape();
    let next = voronoi_step(&pts(&[(1, 1), (3, 3)]), &shape).unwrap();
    assert_eq!(xy(&next), vec![(1, 1), (2, 2)]);
}

#[test]
fn voronoi_step_with_an_empty_cell_is_undefined() {
    let shape = ring_shape();
    // the second focus never wins a point: ties go to the first
    assert!(voronoi_step(&pts(&[(1, 1), (1, 1)]), &shape).is_none());
    assert!(voronoi_step(&vec![], &shape).is_none());
    let empty = DeformShape::create(vec![], vec![]);
    assert_eq!(voronoi_step(&vec![], &empty).unwrap().len(), 0);
}

#[test]
fn voronoi_relax_reaches_a_fixed_point() {
    let shape = ring_shape();
    let start = pts(&[(1, 1), (3, 3)]);
    assert_eq!(xy(&voronoi_relax(start.clone(), &shape, 0).unwrap()), vec![(1, 1), (3, 3)]);
    assert_eq!(xy(&voronoi_relax(start.clone(), &shape, 1).unwrap()), vec![(1, 1), (2, 2)]);
    assert_eq!(xy(&voronoi_relax(start.clone(), &shape, 2).unwrap()), vec![(1, 1), (2, 2)]);
    assert_eq!(xy(&voronoi_relax(start, &shape, 5).unwrap()), vec![(1, 1), (2, 2)]);
}

#[test]
fn voronoi_relax_stays_undefined() {
    let shape = ring_shape();
    assert!(voronoi_relax(pts(&[(1, 1), (1, 1)]), &shape, 3).is_none());
}

#[test]
fn voronoi_points_stay_in_the_box_of_the_shape() {
    let shape = ring_shape();
    let start = pts(&[(3, 1), (1, 3), (2, 2)]);
    let relaxed = voronoi_relax(start, &shape, 4).unwrap();
    assert_eq!(relaxed.len(), 3);
    for p in &relaxed {
        let (x, y) = p.as_xy();
        assert!(1 <= x && x <= 3 && 1 <= y && y <= 3);
    }
}

#[test]
fn voronoi_gen_with_one_point_goes_to_the_centroid() {
    let shape = ring_shape();
    let points = voronoi_gen(3, 1, &shape).unwrap();
    assert_eq!(xy(&points), vec![(2, 2)]);
}

#[test]
fn voronoi_gen_without_iterations_keeps_the_spread() {
    let shape = ring_shape();
    let points = voronoi_gen(0, 5, &shape).unwrap();
    assert_eq!(points.len(), 5);
    for p in &points {
        assert!([(1, 1), (1, 2), (2, 1)].contains(&p.as_xy()));
    }
}

#[test]
fn spread_points_in_one_shape() {
    let shape = ring_shape();
    let points = spread_points(&shape, 7);
    assert_eq!(points.len(), 7);
    for p in &points {
        assert!([(1, 1), (1, 2), (2, 1)].contains(&p.as_xy()));
    }
}
