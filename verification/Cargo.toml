[package]
name = "deformpath"
version = "0.1.0"
edition = "2021"
publish = false

[dependencies]
anyhow = "1"
nalgebra = "*"
petgraph = { version = "*", default-features = false, features = ["std", "graphmap", "stable_graph"] }
rand = "0.9"
ratatui = { version = "*", default-features = false, features = ["crossterm"] }
