//! The tooling used to generate the points in the difference maps and generate trajectories
use vstd::prelude::*;

pub mod types;
pub mod edgedetection;

verus! {

/// How points are detected in a difference map
#[derive(Debug)]
pub enum DetectionMode {
    ///Go through every cell and determine whether it needs a point
    TESTING,
}

impl Default for DetectionMode {
    fn default() -> (r: Self)
        ensures
            r == DetectionMode::TESTING,
    {
        DetectionMode::TESTING
    }
}

impl DetectionMode {
    /// The name under which the mode is shown
    pub fn to_string(&self) -> (r: String)
        ensures
            r@ == "TESTING"@,
    {
        match self {
            DetectionMode::TESTING => "TESTING".to_owned(),
        }
    }
}

/// How a trajectory is generated from the points
#[derive(Debug)]
pub enum PathGenMode {
    PLACEHOLDER,
}

impl Default for PathGenMode {
    fn default() -> (r: Self)
        ensures
            r == PathGenMode::PLACEHOLDER,
    {
        PathGenMode::PLACEHOLDER
    }
}

impl PathGenMode {
    /// The name under which the mode is shown
    pub fn to_string(&self) -> (r: String)
        ensures
            r@ == "PLACEHOLDER"@,
    {
        match self {
            PathGenMode::PLACEHOLDER => "PLACEHOLDER".to_owned(),
        }
    }
}

} // verus!
