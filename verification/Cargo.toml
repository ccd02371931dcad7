[package]
name = "torus_grid_cutter"
version = "0.1.0"
edition = "2021"
publish = false

[dependencies]
glam = "0.29"
delaunator = "1"
log = "0.4"
env_logger = "0.11"
