pub mod app;
pub mod grid;
pub mod pathgen;
pub mod trajectorygen;
pub mod update;
