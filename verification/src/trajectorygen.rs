//! The tooling used to generate the points in the difference maps and generate trajectories
use vstd::prelude::*;

pub mod types;
pub mod edgedetection;
pub mod pointgen;

verus! {

/// How the points of a trajectory are placed in the detected shapes
#[derive(Debug)]
pub enum DetectionMode {
    ///Go through every cell and determine whether it needs a point
    SIMPLE,
    ///Randomly generate the points
    SCATTERSHOT,
    ///Iteratively space the points using a voronoi cell method
    VORONOI,
}

impl Default for DetectionMode {
    fn default() -> (r: Self)
        ensures
            r == DetectionMode::SIMPLE,
    {
        DetectionMode::SIMPLE
    }
}

impl DetectionMode {
    /// The name under which the mode is shown
    pub fn to_string(&self) -> (r: String)
        ensures
            r@ == match self {
                DetectionMode::SIMPLE => "SIMPLE"@,
                DetectionMode::SCATTERSHOT => "SCATTERSHOT"@,
                DetectionMode::VORONOI => "VORONOI"@,
            },
    {
        match self {
            DetectionMode::SIMPLE => "SIMPLE".to_owned(),
            DetectionMode::SCATTERSHOT => "SCATTERSHOT".to_owned(),
            DetectionMode::VORONOI => "VORONOI".to_owned(),
        }
    }
}

/// How the trajectory is built from the points
#[derive(Debug)]
pub enum PathGenMode {
    ///Create a graph of the points
    GRAPH,
    ///Save the trajectory as raw points (in the order they were calculated)
    RAW,
    ///Order the points based on a nearest neighbour approach
    NEARESTNEIGHBOUR,
    ///Nearest neighour organised by shape
    SHAPENEIGHBOUR,
}

impl Default for PathGenMode {
    fn default() -> (r: Self)
        ensures
            r == PathGenMode::GRAPH,
    {
        PathGenMode::GRAPH
    }
}

impl PathGenMode {
    /// The name under which the mode is shown
    pub fn to_string(&self) -> (r: String)
        ensures
            r@ == match self {
                PathGenMode::GRAPH => "GRAPH"@,
                PathGenMode::RAW => "RAW"@,
                PathGenMode::NEARESTNEIGHBOUR => "NEAREST NEIGHBOUR"@,
                PathGenMode::SHAPENEIGHBOUR => "NEAREST NEIGHBOUR (BY SHAPE)"@,
            },
    {
        match self {
            PathGenMode::GRAPH => "GRAPH".to_owned(),
            PathGenMode::RAW => "RAW".to_owned(),
            PathGenMode::NEARESTNEIGHBOUR => "NEAREST NEIGHBOUR".to_owned(),
            PathGenMode::SHAPENEIGHBOUR => "NEAREST NEIGHBOUR (BY SHAPE)".to_owned(),
        }
    }
}

} // verus!
